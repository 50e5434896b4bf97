use boop_pty::detector::SessionState;
use boop_pty::ipc::Message;

#[test]
fn test_start_message() {
    let msg = Message::start("abc123", "codex", "my-project", 12345);
    let serialized = msg.serialize();
    assert!(serialized.contains("\"type\":\"START\""));
    assert!(serialized.contains("\"session_id\":\"abc123\""));
    assert!(serialized.contains("\"tool\":\"codex\""));
    assert!(serialized.contains("\"project_name\":\"my-project\""));
    assert!(serialized.contains("\"pid\":12345"));
}

#[test]
fn test_state_message() {
    let msg = Message::state("abc123", SessionState::AwaitingApproval, "Waiting for input");
    let serialized = msg.serialize();
    assert!(serialized.contains("\"type\":\"STATE\""));
    assert!(serialized.contains("\"session_id\":\"abc123\""));
    assert!(serialized.contains("\"state\":\"AWAITING_APPROVAL\""));
    assert!(serialized.contains("\"details\":\"Waiting for input\""));
}

#[test]
fn test_end_message() {
    let msg = Message::end("abc123", 0);
    let serialized = msg.serialize();
    assert!(serialized.contains("\"type\":\"END\""));
    assert!(serialized.contains("\"session_id\":\"abc123\""));
    assert!(serialized.contains("\"exit_code\":0"));
}

#[test]
fn test_special_characters_in_details() {
    // JSON handles special chars including pipe, quotes, newlines
    let msg = Message::state("abc123", SessionState::Working, "Line with | pipe and \"quotes\"");
    let serialized = msg.serialize();
    // Should be properly escaped
    assert!(serialized.contains("\\\"quotes\\\""));
}

#[test]
fn test_valid_json_output() {
    let msg = Message::start("test", "codex", "project", 1234);
    let serialized = msg.serialize().trim().to_string();
    // Should parse as valid JSON
    let parsed: serde_json::Value = serde_json::from_str(&serialized).unwrap();
    assert_eq!(parsed["type"], "START");
    assert_eq!(parsed["session_id"], "test");
}

#[test]
fn start_record_is_exact() {
    let msg = Message::start("abc123", "codex", "my-project", 12345);
    assert_eq!(
        msg.serialize(),
        "{\"type\":\"START\",\"session_id\":\"abc123\",\"tool\":\"codex\",\"project_name\":\"my-project\",\"pid\":12345}\n"
    );
}

#[test]
fn state_record_leaves_out_absent_duration() {
    let msg = Message::state("s", SessionState::Idle, "> ");
    assert_eq!(
        msg.serialize(),
        "{\"type\":\"STATE\",\"session_id\":\"s\",\"state\":\"IDLE\",\"details\":\"> \"}\n"
    );
    assert!(!msg.serialize().contains("null"));
    assert!(!msg.serialize().contains("working_duration_secs"));
}

#[test]
fn state_record_carries_duration_as_a_number() {
    let msg = Message::state_with_duration("s", SessionState::Completed, "Done!", Some(42));
    assert_eq!(
        msg.serialize(),
        "{\"type\":\"STATE\",\"session_id\":\"s\",\"state\":\"COMPLETED\",\"details\":\"Done!\",\"working_duration_secs\":42}\n"
    );
    let msg = Message::state_with_duration("s", SessionState::Error, "", Some(u64::MAX));
    assert_eq!(
        msg.serialize(),
        "{\"type\":\"STATE\",\"session_id\":\"s\",\"state\":\"ERROR\",\"details\":\"\",\"working_duration_secs\":18446744073709551615}\n"
    );
    let msg = Message::state_with_duration("s", SessionState::Working, "", Some(0));
    assert!(msg.serialize().ends_with(",\"working_duration_secs\":0}\n"));
}

#[test]
fn end_record_renders_negative_exit_codes() {
    assert_eq!(
        Message::end("s", -1).serialize(),
        "{\"type\":\"END\",\"session_id\":\"s\",\"exit_code\":-1}\n"
    );
    assert_eq!(
        Message::end("s", i32::MIN).serialize(),
        "{\"type\":\"END\",\"session_id\":\"s\",\"exit_code\":-2147483648}\n"
    );
    assert_eq!(
        Message::end("s", i32::MAX).serialize(),
        "{\"type\":\"END\",\"session_id\":\"s\",\"exit_code\":2147483647}\n"
    );
    assert_eq!(
        Message::end("s", 130).serialize(),
        "{\"type\":\"END\",\"session_id\":\"s\",\"exit_code\":130}\n"
    );
}

#[test]
fn every_state_has_its_wire_name() {
    assert_eq!(SessionState::Working.as_str(), "WORKING");
    assert_eq!(SessionState::AwaitingApproval.as_str(), "AWAITING_APPROVAL");
    assert_eq!(SessionState::Idle.as_str(), "IDLE");
    assert_eq!(SessionState::Completed.as_str(), "COMPLETED");
    assert_eq!(SessionState::Error.as_str(), "ERROR");
}

#[test]
fn details_survive_a_round_trip() {
    let details = "Line with | pipe and \"quotes\", a \\ backslash,\na line break, a \t tab and \u{1} control";
    let msg = Message::state("abc123", SessionState::Working, details);
    let serialized = msg.serialize();
    assert!(serialized.ends_with('\n'));
    assert_eq!(serialized.matches('\n').count(), 1);
    let parsed: serde_json::Value = serde_json::from_str(serialized.trim_end()).unwrap();
    assert_eq!(parsed["details"], details);
    assert_eq!(parsed["session_id"], "abc123");
    assert_eq!(parsed["state"], "WORKING");
    assert_eq!(parsed["type"], "STATE");
    assert!(parsed.get("working_duration_secs").is_none());
}

#[test]
fn every_text_field_is_escaped() {
    let msg = Message::start("id\"1", "to\\ol", "pro\nject", 7);
    let serialized = msg.serialize();
    let parsed: serde_json::Value = serde_json::from_str(serialized.trim_end()).unwrap();
    assert_eq!(parsed["session_id"], "id\"1");
    assert_eq!(parsed["tool"], "to\\ol");
    assert_eq!(parsed["project_name"], "pro\nject");
    assert_eq!(parsed["pid"], 7);
    let end = Message::end("a\"b", 3).serialize();
    let parsed: serde_json::Value = serde_json::from_str(end.trim_end()).unwrap();
    assert_eq!(parsed["session_id"], "a\"b");
    assert_eq!(parsed["exit_code"], 3);
}

#[test]
fn records_are_put_together_from_quoted_texts() {
    assert_eq!(
        Message::encode_start("\"a\"", "\"b\"", "\"c\"", 0),
        "{\"type\":\"START\",\"session_id\":\"a\",\"tool\":\"b\",\"project_name\":\"c\",\"pid\":0}\n"
    );
    assert_eq!(
        Message::encode_state("\"a\"", SessionState::AwaitingApproval, "\"d\"", Some(10)),
        "{\"type\":\"STATE\",\"session_id\":\"a\",\"state\":\"AWAITING_APPROVAL\",\"details\":\"d\",\"working_duration_secs\":10}\n"
    );
    assert_eq!(
        Message::encode_end("\"a\"", -7),
        "{\"type\":\"END\",\"session_id\":\"a\",\"exit_code\":-7}\n"
    );
}

/// What stands for `c` inside a JSON string literal.
fn expected_escape(c: char) -> String {
    match c {
        '"' => "\\\"".to_string(),
        '\\' => "\\\\".to_string(),
        '\u{8}' => "\\b".to_string(),
        '\t' => "\\t".to_string(),
        '\n' => "\\n".to_string(),
        '\u{c}' => "\\f".to_string(),
        '\r' => "\\r".to_string(),
        c if (c as u32) < 0x20 => format!("\\u{:04x}", c as u32),
        c => c.to_string(),
    }
}

#[test]
fn every_character_is_escaped_as_stated() {
    let mut samples: Vec<char> = (0u32..0x100).filter_map(char::from_u32).collect();
    samples.extend(['\u{7f}', '\u{80}', '\u{9f}', '\u{2028}', '\u{2029}', '\u{4e16}', '\u{fffd}', '\u{1f600}']);
    for c in samples {
        let details = format!("a{}b", c);
        let line = Message::state("s", SessionState::Working, &details).serialize();
        let expected = format!(
            "{{\"type\":\"STATE\",\"session_id\":\"s\",\"state\":\"WORKING\",\"details\":\"a{}b\"}}\n",
            expected_escape(c)
        );
        assert_eq!(line, expected, "{:?}", c);
    }
    let line = Message::state("s", SessionState::Working, "\u{1}\u{1f}\u{0}\u{b}").serialize();
    assert!(line.contains("\"details\":\"\\u0001\\u001f\\u0000\\u000b\""));
}

#[test]
fn quoted_text_is_its_literal() {
    assert_eq!(boop_pty::ipc::json::quoted(""), "\"\"");
    assert_eq!(boop_pty::ipc::json::quoted("plain"), "\"plain\"");
    assert_eq!(boop_pty::ipc::json::quoted("a\"b\\c/d"), "\"a\\\"b\\\\c/d\"");
    assert_eq!(boop_pty::ipc::json::quoted("\u{e9}\n"), "\"\u{e9}\\n\"");
}
