//! Character-level helpers shared by the buffer and the pattern classifier.

use vstd::prelude::*;
use vstd::string::{StrSliceExecFns, StringExecFns};

verus! {

/// Whether `c` is white space: the characters that Unicode gives the
/// property `White_Space`.
pub open spec fn is_whitespace(c: char) -> bool {
    let u = c as u32;
    ||| 0x09 <= u <= 0x0D
    ||| u == 0x20
    ||| u == 0x85
    ||| u == 0xA0
    ||| u == 0x1680
    ||| 0x2000 <= u <= 0x200A
    ||| u == 0x2028
    ||| u == 0x2029
    ||| u == 0x202F
    ||| u == 0x205F
    ||| u == 0x3000
}

/// Whether `text` holds nothing but white space.
pub open spec fn is_blank(text: Seq<char>) -> bool {
    forall|i: int| 0 <= i < text.len() ==> is_whitespace(#[trigger] text[i])
}

/// Whether `c` is white space.
pub fn char_is_whitespace(c: char) -> (white: bool)
    ensures
        white == is_whitespace(c),
{
    let u: u32 = c as u32;
    (0x09 <= u && u <= 0x0D) || u == 0x20 || u == 0x85 || u == 0xA0 || u == 0x1680 || (0x2000 <= u
        && u <= 0x200A) || u == 0x2028 || u == 0x2029 || u == 0x202F || u == 0x205F || u
        == 0x3000
}

/// The characters of `s`, in order.
pub fn chars_of(s: &str) -> (chars: Vec<char>)
    ensures
        chars@ == s@,
{
    let mut out: Vec<char> = Vec::new();
    for c in it: s.chars()
        invariant
            out@ == s@.take(it.index()),
            it.seq() == s@,
    {
        out.push(c);
    }
    out
}

/// Whether `s` holds nothing but white space.
pub fn is_blank_text(s: &str) -> (blank: bool)
    ensures
        blank == is_blank(s@),
{
    let mut blank = true;
    for c in it: s.chars()
        invariant
            it.seq() == s@,
            blank == is_blank(s@.take(it.index())),
    {
        let ghost before = s@.take(it.index() as int);
        let ghost after = s@.take(it.index() + 1);
        proof {
            assert(after =~= before.push(c));
            if is_blank(after) {
                assert forall|i: int| 0 <= i < before.len() implies is_whitespace(
                    #[trigger] before[i],
                ) by {
                    assert(before[i] == after[i]);
                }
                assert(after[before.len() as int] == c);
            }
        }
        if !char_is_whitespace(c) {
            blank = false;
        }
    }
    proof {
        assert(s@.take(s@.len() as int) =~= s@);
    }
    blank
}

/// Whether `c` is a control code: one of the characters below U+0020, the
/// escape, the carriage return and the line break among them.
pub open spec fn is_control(c: char) -> bool {
    (c as u32) < 0x20
}

/// The test for characters that are no control codes.
pub open spec fn no_control() -> spec_fn(char) -> bool {
    |c: char| !is_control(c)
}

/// Whether `text` holds no control code.
pub open spec fn is_plain(text: Seq<char>) -> bool {
    forall|i: int| 0 <= i < text.len() ==> !is_control(#[trigger] text[i])
}

/// `text` without its control codes.
pub open spec fn without_controls(text: Seq<char>) -> Seq<char> {
    text.filter(no_control())
}

/// What is left of a text without its control codes holds none; a text
/// that holds none is left as it is.
pub proof fn lemma_without_controls(text: Seq<char>)
    ensures
        is_plain(without_controls(text)),
        is_plain(text) ==> without_controls(text) == text,
    decreases text.len(),
{
    reveal(Seq::filter);
    let kept = without_controls(text);
    assert forall|i: int| 0 <= i < kept.len() implies !is_control(#[trigger] kept[i]) by {
        text.lemma_filter_pred(no_control(), i);
    }
    if text.len() > 0 && is_plain(text) {
        let head = text.drop_last();
        assert forall|i: int| 0 <= i < head.len() implies !is_control(#[trigger] head[i]) by {
            assert(head[i] == text[i]);
        }
        lemma_without_controls(head);
        assert(!is_control(text[text.len() - 1]));
        assert(head.push(text.last()) =~= text);
    }
}

/// Whether `c` is a control code.
pub fn char_is_control(c: char) -> (control: bool)
    ensures
        control == is_control(c),
{
    (c as u32) < 0x20
}

/// `text` without its control codes.
pub fn strip_controls(text: String) -> (plain: String)
    ensures
        plain@ == without_controls(text@),
        is_plain(plain@),
{
    let chars = chars_of(text.as_str());
    let n = chars.len();
    let mut first: usize = 0;
    while first < n && !char_is_control(chars[first])
        invariant
            n == chars.len(),
            0 <= first <= n,
            forall|k: int| 0 <= k < first ==> !is_control(#[trigger] chars@[k]),
        decreases n - first,
    {
        first = first + 1;
    }
    proof {
        lemma_without_controls(text@);
    }
    if first == n {
        return text;
    }
    let mut plain = String::new();
    let mut i: usize = 0;
    proof {
        reveal(Seq::filter);
        assert(text@.take(0).len() == 0);
        assert(without_controls(text@.take(0)) =~= Seq::<char>::empty());
    }
    while i < n
        invariant
            n == chars.len(),
            chars@ == text@,
            0 <= i <= n,
            plain@ == without_controls(text@.take(i as int)),
        decreases n - i,
    {
        proof {
            assert(text@.take(i + 1) =~= text@.take(i as int).push(text@[i as int]));
            text@.take(i as int).lemma_filter_push(text@[i as int], no_control());
        }
        if !char_is_control(chars[i]) {
            let one = text.as_str().substring_char(i, i + 1);
            proof {
                assert(one@ =~= seq![text@[i as int]]);
                assert(plain@ + one@ =~= plain@.push(text@[i as int]));
            }
            plain.append(one);
        }
        i = i + 1;
    }
    proof {
        assert(text@.take(n as int) =~= text@);
    }
    plain
}

} // verus!
