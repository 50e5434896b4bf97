//! The pattern classifier: stateless predicates over a window of text.
//!
//! The signatures are regular expressions, matched by the `regex` crate.
//! What a given expression matches is that crate's business; which
//! expressions are asked, in which order, and against which part of the
//! window is decided, and proved, here.

use regex::{Regex, RegexSet};
use vstd::prelude::*;
use vstd::string::StrSliceExecFns;
use crate::detector::lines::{
    all_lines, chomp, closed_lines, has_break, lemma_first_break_is, lemma_lines_hold_no_break,
    lemma_single_line, open_line,
};
use crate::detector::text::{char_is_whitespace, chars_of, is_blank, is_whitespace};

verus! {

/// Whether the regular expression `pattern` matches somewhere in
/// `haystack`, as the `regex` crate decides it; `None` where the crate
/// does not accept the pattern.
pub uninterp spec fn pattern_search(pattern: Seq<char>, haystack: Seq<char>) -> Option<bool>;

/// `regex::Regex::new` followed by `Regex::is_match`. Nothing is proved of
/// it: the contract only gives the outcome its name, [`pattern_search`].
#[verifier::external_body]
pub(crate) fn search(pattern: &str, haystack: &str) -> (outcome: Option<bool>)
    ensures
        outcome == pattern_search(pattern@, haystack@),
{
    match Regex::new(pattern) {
        Ok(regex) => Some(regex.is_match(haystack)),
        Err(_) => None,
    }
}

/// The part of `haystack` that the first match of the regular expression
/// `pattern` covers, as the `regex` crate finds it; `None` where there is
/// no match or the crate does not accept the pattern.
pub uninterp spec fn pattern_find(pattern: Seq<char>, haystack: Seq<char>) -> Option<Seq<char>>;

/// Whether `part` is a piece of `whole`: some of its characters, next to
/// each other and in order.
pub open spec fn is_piece(part: Seq<char>, whole: Seq<char>) -> bool {
    exists|from: int, to: int|
        0 <= from <= to <= whole.len() && #[trigger] whole.subrange(from, to) == part
}

/// `regex::Regex::new` followed by `Regex::find` and `Match::as_str`. The
/// contract gives the outcome its name, [`pattern_find`], and says two
/// things of it: there is a match to find exactly where `Regex::is_match`
/// finds the pattern in the haystack, the two being the same search; and
/// what is returned is cut out of the haystack.
#[verifier::external_body]
pub(crate) fn find<'h>(pattern: &str, haystack: &'h str) -> (found: Option<&'h str>)
    ensures
        found is Some <==> pattern_find(pattern@, haystack@) is Some,
        found matches Some(part) ==> pattern_find(pattern@, haystack@) == Some(part@),
        found is Some <==> pattern_search(pattern@, haystack@) == Some(true),
        found matches Some(part) ==> is_piece(part@, haystack@),
{
    match Regex::new(pattern) {
        Ok(regex) => match regex.find(haystack) {
            Some(found) => Some(found.as_str()),
            None => None,
        },
        Err(_) => None,
    }
}

/// The signatures of a prompt that asks the user to confirm something.
pub open spec fn approval_patterns() -> Seq<Seq<char>> {
    seq![
        "(?i)do you want to proceed"@,
        "(?i)allow this action"@,
        "(?i)press enter to continue"@,
        r"\[Y/n\]"@,
        r"\[y/N\]"@,
        "(?i)waiting for approval"@,
        "(?i)requires? your permission"@,
        r"(?i)approve\?"@,
        r"(?i)confirm\?"@,
        "(?i)do you want to allow"@,
        r"(?i)proceed\s*\?"@,
        r"(?i)continue\s*\?"@,
        r"(?i)accept\s*\?"@,
        "(?i)yes/no"@,
        "(?i)review.*plan"@,
        "(?i)approve.*plan"@,
    ]
}

/// The signatures of a finished task.
pub open spec fn completion_patterns() -> Seq<Seq<char>> {
    seq![
        "(?i)task completed"@,
        "(?i)successfully completed"@,
        "(?i)finished successfully"@,
        r"(?i)done\!"@,
    ]
}

/// The signatures of a failure.
pub open spec fn error_patterns() -> Seq<Seq<char>> {
    seq![
        "(?i)error:"@,
        "(?i)fatal error"@,
        "(?i)failed:"@,
        "(?i)exception:"@,
        "(?i)panic:"@,
    ]
}

/// The signature of the tool's own prompt: a line that is the marker `>`,
/// followed by nothing but white space.
pub open spec fn idle_patterns() -> Seq<Seq<char>> {
    seq![r"^>\s*$"@]
}

/// Whether `pattern` matches somewhere in `text`.
pub open spec fn hits(pattern: Seq<char>, text: Seq<char>) -> bool {
    pattern_search(pattern, text) == Some(true)
}

/// Whether one of `patterns` matches somewhere in `text`.
pub open spec fn any_hit(patterns: Seq<Seq<char>>, text: Seq<char>) -> bool {
    exists|i: int| 0 <= i < patterns.len() && hits(#[trigger] patterns[i], text)
}

/// What the first of `patterns` that matches in `text` covers of it.
pub open spec fn first_find(patterns: Seq<Seq<char>>, text: Seq<char>) -> Option<Seq<char>>
    decreases patterns.len(),
{
    if patterns.len() == 0 {
        None
    } else if pattern_find(patterns[0], text) is Some {
        pattern_find(patterns[0], text)
    } else {
        first_find(patterns.drop_first(), text)
    }
}

/// The last of `lines` that is not blank.
pub open spec fn last_visible(lines: Seq<Seq<char>>) -> Option<Seq<char>>
    decreases lines.len(),
{
    if lines.len() == 0 {
        None
    } else if !is_blank(lines.last()) {
        Some(lines.last())
    } else {
        last_visible(lines.drop_last())
    }
}

/// The last line of `text` that is not blank.
pub open spec fn last_visible_line(text: Seq<char>) -> Option<Seq<char>> {
    last_visible(all_lines(text, '\n', '\r'))
}

/// Whether `text` shows a prompt that asks for confirmation.
pub open spec fn approval_needed(text: Seq<char>) -> bool {
    any_hit(approval_patterns(), text)
}

/// Whether `text` shows that a task was completed.
pub open spec fn completed(text: Seq<char>) -> bool {
    any_hit(completion_patterns(), text)
}

/// Whether `text` shows a failure.
pub open spec fn failed(text: Seq<char>) -> bool {
    any_hit(error_patterns(), text)
}

/// Whether the last line of `text` that is not blank is the tool's prompt.
pub open spec fn idle_prompt(text: Seq<char>) -> bool {
    match last_visible_line(text) {
        Some(line) => any_hit(idle_patterns(), line),
        None => false,
    }
}

/// The patterns that a list of string slices stands for.
pub open spec fn sources(list: Seq<&'static str>) -> Seq<Seq<char>> {
    Seq::new(list.len(), |i: int| list[i]@)
}

fn approval_list() -> (list: Vec<&'static str>)
    ensures
        sources(list@) == approval_patterns(),
{
    let list = vec![
        "(?i)do you want to proceed",
        "(?i)allow this action",
        "(?i)press enter to continue",
        r"\[Y/n\]",
        r"\[y/N\]",
        "(?i)waiting for approval",
        "(?i)requires? your permission",
        r"(?i)approve\?",
        r"(?i)confirm\?",
        "(?i)do you want to allow",
        r"(?i)proceed\s*\?",
        r"(?i)continue\s*\?",
        r"(?i)accept\s*\?",
        "(?i)yes/no",
        "(?i)review.*plan",
        "(?i)approve.*plan",
    ];
    assert(sources(list@) =~= approval_patterns());
    list
}

fn completion_list() -> (list: Vec<&'static str>)
    ensures
        sources(list@) == completion_patterns(),
{
    let list = vec![
        "(?i)task completed",
        "(?i)successfully completed",
        "(?i)finished successfully",
        r"(?i)done\!",
    ];
    assert(sources(list@) =~= completion_patterns());
    list
}

fn error_list() -> (list: Vec<&'static str>)
    ensures
        sources(list@) == error_patterns(),
{
    let list = vec![
        "(?i)error:",
        "(?i)fatal error",
        "(?i)failed:",
        "(?i)exception:",
        "(?i)panic:",
    ];
    assert(sources(list@) =~= error_patterns());
    list
}

fn idle_list() -> (list: Vec<&'static str>)
    ensures
        sources(list@) == idle_patterns(),
{
    let list = vec![r"^>\s*$"];
    assert(sources(list@) =~= idle_patterns());
    list
}

/// Whether one of the patterns of `list` matches somewhere in `text`.
fn any_match(list: &Vec<&'static str>, text: &str) -> (hit: bool)
    ensures
        hit == any_hit(sources(list@), text@),
{
    let mut i: usize = 0;
    while i < list.len()
        invariant
            0 <= i <= list.len(),
            forall|k: int| 0 <= k < i ==> !hits(#[trigger] sources(list@)[k], text@),
        decreases list.len() - i,
    {
        match search(list[i], text) {
            Some(true) => {
                assert(hits(sources(list@)[i as int], text@));
                return true;
            },
            _ => {},
        }
        i = i + 1;
    }
    false
}

/// The last visible line is one of the lines, and not blank.
pub proof fn lemma_last_visible(lines: Seq<Seq<char>>)
    ensures
        last_visible(lines) matches Some(line) ==> lines.contains(line) && !is_blank(line),
        last_visible(lines) is None ==> forall|i: int|
            0 <= i < lines.len() ==> is_blank(#[trigger] lines[i]),
    decreases lines.len(),
{
    if lines.len() > 0 {
        if !is_blank(lines.last()) {
            assert(lines[lines.len() - 1] == lines.last());
        } else {
            let head = lines.drop_last();
            lemma_last_visible(head);
            if last_visible(head) is Some {
                let line = last_visible(head)->0;
                let i = choose|i: int| 0 <= i < head.len() && head[i] == line;
                assert(lines[i] == line);
            }
            assert forall|i: int| 0 <= i < lines.len() && last_visible(lines) is None implies is_blank(
                #[trigger] lines[i],
            ) by {
                if i < head.len() {
                    assert(head[i] == lines[i]);
                }
            }
        }
    }
}

/// A window that is one visible line without a line break shows the idle
/// prompt exactly if that line bears its signature.
pub proof fn lemma_sole_line_decides(line: Seq<char>)
    requires
        !has_break(line, '\n'),
        !is_blank(line),
    ensures
        last_visible_line(line) == Some(line),
        idle_prompt(line) == any_hit(idle_patterns(), line),
{
    lemma_single_line(line, '\n', '\r');
    assert(line.len() > 0) by {
        if line.len() == 0 {
            assert(is_blank(line));
        }
    }
    let alone = all_lines(line, '\n', '\r');
    assert(alone =~= seq![line]);
    assert(alone.last() == line);
}

/// Only the last visible line of a window decides whether it shows the
/// idle prompt: the window shows it exactly if that line, taken alone,
/// does. A marker further up, or a window without a visible line, does not
/// count.
pub proof fn lemma_idle_prompt_reads_last_line(text: Seq<char>)
    ensures
        last_visible_line(text) matches Some(line) ==> idle_prompt(text) == idle_prompt(line),
        last_visible_line(text) is None ==> !idle_prompt(text),
{
    if last_visible_line(text) is Some {
        let line = last_visible_line(text)->0;
        let lines = all_lines(text, '\n', '\r');
        lemma_last_visible(lines);
        lemma_lines_hold_no_break(text, '\n', '\r');
        let i = choose|i: int| 0 <= i < lines.len() && lines[i] == line;
        assert(!has_break(lines[i], '\n'));
        lemma_sole_line_decides(line);
    }
}

/// White space at the end of a line does not decide whether it is blank.
proof fn lemma_chomp_blank(line: Seq<char>)
    ensures
        is_blank(chomp(line, '\r')) == is_blank(line),
{
    let cut = chomp(line, '\r');
    if cut.len() < line.len() {
        if is_blank(cut) {
            assert forall|i: int| 0 <= i < line.len() implies is_whitespace(#[trigger] line[i]) by {
                if i < cut.len() {
                    assert(line[i] == cut[i]);
                }
            }
        } else {
            let i = choose|i: int| 0 <= i < cut.len() && !is_whitespace(#[trigger] cut[i]);
            assert(line[i] == cut[i]);
        }
    }
}

/// Where the last line of `chars` that is not blank starts and ends.
fn find_last_visible(chars: &Vec<char>) -> (place: Option<(usize, usize)>)
    ensures
        place is Some <==> last_visible_line(chars@) is Some,
        place matches Some((from, to)) ==> from <= to <= chars.len() && last_visible_line(chars@)
            == Some(chars@.subrange(from as int, to as int)),
{
    let n = chars.len();
    let mut place: Option<(usize, usize)> = None;
    let mut start: usize = 0;
    let mut blank = true;
    let mut i: usize = 0;
    let ghost mut done: Seq<Seq<char>> = Seq::empty();
    proof {
        assert(chars@.skip(0) =~= chars@);
        assert(done + closed_lines(chars@, '\n', '\r') =~= closed_lines(chars@, '\n', '\r'));
    }
    while i < n
        invariant
            n == chars.len(),
            0 <= start <= i <= n,
            forall|k: int| start <= k < i ==> chars@[k] != '\n',
            closed_lines(chars@, '\n', '\r') == done + closed_lines(
                chars@.skip(start as int),
                '\n',
                '\r',
            ),
            open_line(chars@, '\n') == open_line(chars@.skip(start as int), '\n'),
            blank == is_blank(chars@.subrange(start as int, i as int)),
            place is Some <==> last_visible(done) is Some,
            place matches Some((from, to)) ==> from <= to <= i && last_visible(done) == Some(
                chars@.subrange(from as int, to as int),
            ),
        decreases n - i,
    {
        let c = chars[i];
        if c == '\n' {
            let end = if i > start && chars[i - 1] == '\r' {
                i - 1
            } else {
                i
            };
            let ghost line = chars@.subrange(start as int, end as int);
            proof {
                let rest = chars@.skip(start as int);
                assert forall|k: int| 0 <= k < i - start implies rest[k] != '\n' by {
                    assert(rest[k] == chars@[start + k]);
                }
                assert(rest[i - start] == chars@[i as int]);
                lemma_first_break_is(rest, '\n', i - start);
                assert(rest.skip(i - start + 1) =~= chars@.skip(i + 1));
                assert(rest.take(i - start) =~= chars@.subrange(start as int, i as int));
                assert(chomp(rest.take(i - start), '\r') =~= line) by {
                    let whole = rest.take(i - start);
                    if whole.len() > 0 {
                        assert(whole.last() == chars@[i - 1]);
                    }
                }
                lemma_chomp_blank(rest.take(i - start));
                assert(done + (seq![line] + closed_lines(chars@.skip(i + 1), '\n', '\r'))
                    =~= done.push(line) + closed_lines(chars@.skip(i + 1), '\n', '\r'));
                assert(done.push(line).drop_last() =~= done);
                done = done.push(line);
            }
            if !blank {
                place = Some((start, end));
            }
            start = i + 1;
            blank = true;
            proof {
                assert(chars@.subrange(start as int, start as int).len() == 0);
            }
        } else {
            proof {
                let before = chars@.subrange(start as int, i as int);
                let after = chars@.subrange(start as int, i + 1);
                assert(after =~= before.push(c));
                if is_blank(after) {
                    assert forall|k: int| 0 <= k < before.len() implies is_whitespace(
                        #[trigger] before[k],
                    ) by {
                        assert(before[k] == after[k]);
                    }
                    assert(after[before.len() as int] == c);
                }
            }
            if !char_is_whitespace(c) {
                blank = false;
            }
        }
        i = i + 1;
    }
    proof {
        let rest = chars@.skip(start as int);
        assert forall|k: int| 0 <= k < rest.len() implies rest[k] != '\n' by {
            assert(rest[k] == chars@[start + k]);
        }
        lemma_first_break_is(rest, '\n', rest.len() as int);
        assert(done + closed_lines(rest, '\n', '\r') =~= done);
        assert(rest =~= chars@.subrange(start as int, n as int));
        assert(done.push(rest).drop_last() =~= done);
    }
    if start < n && !blank {
        place = Some((start, n));
    }
    place
}

/// `regex::RegexSet`, several regular expressions compiled together. Its
/// value is hidden; what it was compiled from has the name
/// [`set_patterns`], and whether it was compiled as the patterns alone say
/// has the name [`set_is_plain`].
#[verifier::external_type_specification]
#[verifier::external_body]
pub struct ExRegexSet(RegexSet);

/// The patterns that a set was compiled from, in their order: what
/// `RegexSet::patterns` gives.
pub uninterp spec fn set_patterns(set: RegexSet) -> Seq<Seq<char>>;

/// Whether a set was compiled as `RegexSet::new` compiles: from the
/// patterns alone, with none of the options that a builder can change. A
/// set made with such an option holds the same patterns and may match
/// otherwise.
pub uninterp spec fn set_is_plain(set: RegexSet) -> bool;

/// `regex::RegexSet::new`: the given patterns compiled together, or `None`
/// where the crate refuses them. A set that was compiled holds the
/// patterns it was given, in their order, and is a plain one.
#[verifier::external_body]
fn compile_set(list: &Vec<&'static str>) -> (compiled: Option<RegexSet>)
    ensures
        compiled matches Some(set) ==> set_patterns(set) == sources(list@),
        compiled matches Some(set) ==> set_is_plain(set),
{
    match RegexSet::new(list) {
        Ok(set) => Some(set),
        Err(_) => None,
    }
}

/// `regex::RegexSet::is_match`: whether one of the patterns of the set
/// matches somewhere in `haystack`. Of a plain set, each pattern matches as
/// `Regex::is_match` matches it alone; of any other set nothing is said.
#[verifier::external_body]
fn set_matches(set: &RegexSet, haystack: &str) -> (hit: bool)
    ensures
        set_is_plain(*set) ==> hit == any_hit(set_patterns(*set), haystack@),
{
    set.is_match(haystack)
}

/// The signatures of the classifier, compiled once. A set that the `regex`
/// crate would not compile is absent, and its patterns are then compiled
/// whenever they are asked; the answers are the same either way.
pub struct PatternSets {
    approval: Option<RegexSet>,
    completion: Option<RegexSet>,
    failure: Option<RegexSet>,
    idle: Option<RegexSet>,
}

impl PatternSets {
    #[verifier::type_invariant]
    spec fn compiled_from_the_signatures(self) -> bool {
        &&& self.approval matches Some(set) ==> set_is_plain(set) && set_patterns(set)
            == approval_patterns()
        &&& self.completion matches Some(set) ==> set_is_plain(set) && set_patterns(set)
            == completion_patterns()
        &&& self.failure matches Some(set) ==> set_is_plain(set) && set_patterns(set)
            == error_patterns()
        &&& self.idle matches Some(set) ==> set_is_plain(set) && set_patterns(set)
            == idle_patterns()
    }

    /// Compiles the signatures. Which of the sets the `regex` crate
    /// compiles is its decision; the answers of the sets do not depend on
    /// it.
    pub fn new() -> PatternSets {
        PatternSets {
            approval: compile_set(&approval_list()),
            completion: compile_set(&completion_list()),
            failure: compile_set(&error_list()),
            idle: compile_set(&idle_list()),
        }
    }

    /// Whether `text` shows, anywhere, a prompt that asks for confirmation.
    pub fn is_approval_needed(&self, text: &str) -> (hit: bool)
        ensures
            hit == approval_needed(text@),
    {
        proof {
            use_type_invariant(self);
        }
        match &self.approval {
            Some(set) => set_matches(set, text),
            None => PatternMatcher::is_approval_needed(text),
        }
    }

    /// Whether `text` shows, anywhere, that a task was completed.
    pub fn is_completed(&self, text: &str) -> (hit: bool)
        ensures
            hit == completed(text@),
    {
        proof {
            use_type_invariant(self);
        }
        match &self.completion {
            Some(set) => set_matches(set, text),
            None => PatternMatcher::is_completed(text),
        }
    }

    /// Whether `text` shows, anywhere, a failure.
    pub fn is_error(&self, text: &str) -> (hit: bool)
        ensures
            hit == failed(text@),
    {
        proof {
            use_type_invariant(self);
        }
        match &self.failure {
            Some(set) => set_matches(set, text),
            None => PatternMatcher::is_error(text),
        }
    }

    /// Whether the last line of `text` that is not blank is the tool's
    /// prompt.
    pub fn is_idle_prompt(&self, text: &str) -> (hit: bool)
        ensures
            hit == idle_prompt(text@),
    {
        proof {
            use_type_invariant(self);
        }
        match PatternMatcher::last_visible_line(text) {
            Some(line) => match &self.idle {
                Some(set) => set_matches(set, line),
                None => any_match(&idle_list(), line),
            },
            None => false,
        }
    }
}

/// The classifier. It has no state: every question is answered from the
/// text alone.
pub struct PatternMatcher;

impl PatternMatcher {
    /// Whether `text` shows, anywhere, a prompt that asks for confirmation.
    pub fn is_approval_needed(text: &str) -> (hit: bool)
        ensures
            hit == approval_needed(text@),
    {
        any_match(&approval_list(), text)
    }

    /// Whether `text` shows, anywhere, that a task was completed.
    pub fn is_completed(text: &str) -> (hit: bool)
        ensures
            hit == completed(text@),
    {
        any_match(&completion_list(), text)
    }

    /// Whether `text` shows, anywhere, a failure.
    pub fn is_error(text: &str) -> (hit: bool)
        ensures
            hit == failed(text@),
    {
        any_match(&error_list(), text)
    }

    /// The last line of `text` that is not blank, without its line break.
    pub fn last_visible_line(text: &str) -> (line: Option<&str>)
        ensures
            line is Some <==> last_visible_line(text@) is Some,
            line matches Some(found) ==> last_visible_line(text@) == Some(found@),
    {
        let chars = chars_of(text);
        match find_last_visible(&chars) {
            Some((from, to)) => Some(text.substring_char(from, to)),
            None => None,
        }
    }

    /// Whether the last line of `text` that is not blank is the tool's
    /// prompt: the marker alone, not a command being typed after it, and
    /// not a marker further up in the output.
    pub fn is_idle_prompt(text: &str) -> (hit: bool)
        ensures
            hit == idle_prompt(text@),
    {
        match PatternMatcher::last_visible_line(text) {
            Some(line) => any_match(&idle_list(), line),
            None => false,
        }
    }

    /// The part of `text` that the first approval signature to match
    /// covers. There is one exactly where approval is needed.
    pub fn get_approval_match(text: &str) -> (found: Option<&str>)
        ensures
            found is Some <==> approval_needed(text@),
            found is Some <==> first_find(approval_patterns(), text@) is Some,
            found matches Some(part) ==> first_find(approval_patterns(), text@) == Some(part@),
            found matches Some(part) ==> is_piece(part@, text@),
    {
        let list = approval_list();
        let mut i: usize = 0;
        proof {
            assert(sources(list@).skip(0) =~= sources(list@));
        }
        while i < list.len()
            invariant
                0 <= i <= list.len(),
                sources(list@) == approval_patterns(),
                first_find(approval_patterns(), text@) == first_find(
                    sources(list@).skip(i as int),
                    text@,
                ),
                forall|k: int| 0 <= k < i ==> !hits(#[trigger] sources(list@)[k], text@),
            decreases list.len() - i,
        {
            let ghost rest = sources(list@).skip(i as int);
            proof {
                assert(rest[0] == list@[i as int]@);
                assert(rest.drop_first() =~= sources(list@).skip(i + 1));
            }
            match find(list[i], text) {
                Some(part) => {
                    assert(hits(sources(list@)[i as int], text@));
                    return Some(part);
                },
                None => {},
            }
            i = i + 1;
        }
        None
    }
}

} // verus!
