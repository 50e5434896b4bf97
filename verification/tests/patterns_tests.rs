use boop_pty::detector::PatternMatcher;

#[test]
fn test_approval_patterns() {
    assert!(PatternMatcher::is_approval_needed("Do you want to proceed?"));
    assert!(PatternMatcher::is_approval_needed("Allow this action? [Y/n]"));
    assert!(PatternMatcher::is_approval_needed("This requires your permission"));
    assert!(PatternMatcher::is_approval_needed("approve?"));
    assert!(!PatternMatcher::is_approval_needed("Working on task..."));
}

#[test]
fn test_completion_patterns() {
    assert!(PatternMatcher::is_completed("Task completed successfully"));
    assert!(PatternMatcher::is_completed("Done!"));
    assert!(!PatternMatcher::is_completed("Still working..."));
}

#[test]
fn test_error_patterns() {
    assert!(PatternMatcher::is_error("Error: something went wrong"));
    assert!(PatternMatcher::is_error("Fatal error occurred"));
    assert!(!PatternMatcher::is_error("Everything is fine"));
}

#[test]
fn test_idle_prompt_patterns() {
    // Simple prompt
    assert!(PatternMatcher::is_idle_prompt(">"));
    assert!(PatternMatcher::is_idle_prompt("> "));
    assert!(PatternMatcher::is_idle_prompt(">\n"));

    // Prompt after output
    assert!(PatternMatcher::is_idle_prompt("Some output\n>"));
    assert!(PatternMatcher::is_idle_prompt("Some output\n> "));
    assert!(PatternMatcher::is_idle_prompt("Line 1\nLine 2\n>"));

    // Prompt with trailing whitespace/newlines
    assert!(PatternMatcher::is_idle_prompt("Output\n>\n"));
    assert!(PatternMatcher::is_idle_prompt("Output\n> \n\n"));

    // Should NOT match
    assert!(!PatternMatcher::is_idle_prompt("> ls")); // Command being typed
    assert!(!PatternMatcher::is_idle_prompt(">command")); // No space
    assert!(!PatternMatcher::is_idle_prompt("still working...")); // No prompt
    assert!(!PatternMatcher::is_idle_prompt("")); // Empty
    assert!(!PatternMatcher::is_idle_prompt("  >  ")); // Indented prompt (not at start of line)
}

#[test]
fn every_approval_signature_is_asked() {
    let samples = [
        "Do You Want To Proceed",
        "ALLOW THIS ACTION",
        "Press ENTER to continue",
        "[Y/n]",
        "[y/N]",
        "Waiting for Approval",
        "require your permission",
        "requires your permission",
        "Approve?",
        "CONFIRM?",
        "do you want to allow",
        "proceed  ?",
        "Continue?",
        "accept \t?",
        "Yes/No",
        "Review the plan",
        "approve this plan",
    ];
    for sample in samples {
        assert!(PatternMatcher::is_approval_needed(sample), "{}", sample);
    }
}

#[test]
fn bracketed_prompts_are_case_exact() {
    assert!(!PatternMatcher::is_approval_needed("[y/n]"));
    assert!(!PatternMatcher::is_approval_needed("[Y/N]"));
    assert!(PatternMatcher::is_approval_needed("Overwrite? [y/N]"));
}

#[test]
fn plan_signature_does_not_span_lines() {
    assert!(PatternMatcher::is_approval_needed("please review my plan"));
    assert!(!PatternMatcher::is_approval_needed("review\nplan"));
}

#[test]
fn every_completion_signature_is_asked() {
    for sample in ["TASK COMPLETED", "Successfully Completed", "finished successfully", "done!"] {
        assert!(PatternMatcher::is_completed(sample), "{}", sample);
    }
    assert!(!PatternMatcher::is_completed("done"));
}

#[test]
fn every_error_signature_is_asked() {
    for sample in ["error: x", "FATAL ERROR", "Failed: x", "Exception: x", "panic: x"] {
        assert!(PatternMatcher::is_error(sample), "{}", sample);
    }
    assert!(!PatternMatcher::is_error("error"));
    assert!(!PatternMatcher::is_error("failed"));
}

#[test]
fn approval_match_is_the_part_matched() {
    assert_eq!(
        PatternMatcher::get_approval_match("Hey, Do You Want To Proceed? [y/N]"),
        Some("Do You Want To Proceed")
    );
    assert_eq!(PatternMatcher::get_approval_match("Overwrite? [y/N]"), Some("[y/N]"));
    assert_eq!(PatternMatcher::get_approval_match("please review the whole plan now"), Some("review the whole plan"));
    assert_eq!(PatternMatcher::get_approval_match("Working on task..."), None);
    assert_eq!(PatternMatcher::get_approval_match(""), None);
}

#[test]
fn approval_match_goes_by_the_order_of_signatures() {
    // "[Y/n]" comes first in the text, "allow this action" first in the list.
    assert_eq!(
        PatternMatcher::get_approval_match("[Y/n] allow this action"),
        Some("allow this action")
    );
}

#[test]
fn idle_prompt_marker_alone_on_last_visible_line() {
    assert!(PatternMatcher::is_idle_prompt("> "));
    assert!(!PatternMatcher::is_idle_prompt("> ls"));
    assert!(PatternMatcher::is_idle_prompt("output\r\n>\r\n"));
    assert!(PatternMatcher::is_idle_prompt(">\t \n \n\t\n"));
    assert!(PatternMatcher::is_idle_prompt("> ls\n>"));
    assert!(!PatternMatcher::is_idle_prompt(">\n> ls"));
    assert!(!PatternMatcher::is_idle_prompt(">\nmore output\n"));
    assert!(!PatternMatcher::is_idle_prompt("\n\n   \n"));
    assert!(PatternMatcher::is_idle_prompt(">\u{a0}\u{3000}"));
    assert!(!PatternMatcher::is_idle_prompt(">>"));
}

#[test]
fn last_visible_line_is_what_the_prompt_is_looked_for_in() {
    assert_eq!(PatternMatcher::last_visible_line("Output\n> \n\n"), Some("> "));
    assert_eq!(PatternMatcher::last_visible_line("a\r\nb\r\n"), Some("b"));
    assert_eq!(PatternMatcher::last_visible_line("a\nb\r"), Some("b\r"));
    assert_eq!(PatternMatcher::last_visible_line("a\n \t\n\u{2003}\n"), Some("a"));
    assert_eq!(PatternMatcher::last_visible_line("one line"), Some("one line"));
    assert_eq!(PatternMatcher::last_visible_line("\u{e9}t\u{e9}\n\u{4e16}\u{754c} x\n"), Some("\u{4e16}\u{754c} x"));
    assert_eq!(PatternMatcher::last_visible_line(""), None);
    assert_eq!(PatternMatcher::last_visible_line("\n\r\n  \n"), None);
    for text in ["Output\n> \n\n", "a\r\nb\r\n", "a\nb\r", "x\n\n  y  \n \n", "", "\n"] {
        let expected = text.lines().rev().find(|line| !line.trim().is_empty());
        assert_eq!(PatternMatcher::last_visible_line(text), expected);
    }
}
