//! The pieces a flat JSON record is put together from: quoted text and
//! decimal numbers.

use vstd::prelude::*;
use vstd::string::StringExecFns;

verus! {

/// `serde_json::Error`, the reason for which `serde_json` refuses a
/// value. Its value is hidden; for a text there is never one.
#[verifier::external_type_specification]
#[verifier::external_body]
pub struct ExJsonError(serde_json::Error);

/// The character that stands for a single hexadecimal digit, in lower case.
pub open spec fn hex_digit(d: nat) -> char
    recommends
        d < 16,
{
    if d < 10 {
        ((48 + d) as u8) as char
    } else {
        ((87 + d) as u8) as char
    }
}

/// The number that a hexadecimal digit stands for, in either case.
pub open spec fn hex_value(c: char) -> Option<nat> {
    let u = c as u32;
    if 48 <= u <= 57 {
        Some((u - 48) as nat)
    } else if 97 <= u <= 102 {
        Some((u - 87) as nat)
    } else if 65 <= u <= 70 {
        Some((u - 55) as nat)
    } else {
        None
    }
}

/// Whether `c` cannot stand for itself inside a JSON string literal: the
/// quote, the backslash and the control characters below U+0020.
pub open spec fn needs_escape(c: char) -> bool {
    c == '"' || c == '\\' || (c as u32) < 0x20
}

/// What stands for `c` inside a JSON string literal: a backslash and a
/// letter for the quote, the backslash, backspace, tab, line feed, form
/// feed and carriage return; `\u00` and two hexadecimal digits for the
/// other control characters; the character itself for all others.
pub open spec fn escaped(c: char) -> Seq<char> {
    if c == '"' {
        seq!['\\', '"']
    } else if c == '\\' {
        seq!['\\', '\\']
    } else if c == '\u{8}' {
        seq!['\\', 'b']
    } else if c == '\t' {
        seq!['\\', 't']
    } else if c == '\n' {
        seq!['\\', 'n']
    } else if c == '\u{c}' {
        seq!['\\', 'f']
    } else if c == '\r' {
        seq!['\\', 'r']
    } else if (c as u32) < 0x20 {
        seq![
            '\\',
            'u',
            '0',
            '0',
            hex_digit((c as u32 / 16) as nat),
            hex_digit((c as u32 % 16) as nat),
        ]
    } else {
        seq![c]
    }
}

/// The characters of `text`, each as it stands inside a JSON string
/// literal.
pub open spec fn escaped_text(text: Seq<char>) -> Seq<char>
    decreases text.len(),
{
    if text.len() == 0 {
        Seq::empty()
    } else {
        escaped(text[0]) + escaped_text(text.drop_first())
    }
}

/// The JSON string literal for `text`: its escaped characters between two
/// quotes.
pub open spec fn json_literal(text: Seq<char>) -> Seq<char> {
    seq!['"'] + escaped_text(text) + seq!['"']
}

/// The character that a backslash and `letter` stand for inside a JSON
/// string literal, for the escapes of two characters.
pub open spec fn short_escape(letter: char) -> Option<char> {
    if letter == '"' {
        Some('"')
    } else if letter == '\\' {
        Some('\\')
    } else if letter == '/' {
        Some('/')
    } else if letter == 'b' {
        Some('\u{8}')
    } else if letter == 't' {
        Some('\t')
    } else if letter == 'n' {
        Some('\n')
    } else if letter == 'f' {
        Some('\u{c}')
    } else if letter == 'r' {
        Some('\r')
    } else {
        None
    }
}

/// `first` followed by `rest`, where there is a rest.
pub open spec fn after(first: char, rest: Option<Seq<char>>) -> Option<Seq<char>> {
    match rest {
        Some(rest) => Some(seq![first] + rest),
        None => None,
    }
}

/// The text that the inside of a JSON string literal stands for, read as
/// JSON asks: a backslash starts an escape, a quote or a control character
/// cannot stand for itself, every other character does. Of the escapes
/// written with `u`, those of the characters below U+0100 are read; `None`
/// where `body` holds anything else that is not a text's inside.
pub open spec fn unescaped_text(body: Seq<char>) -> Option<Seq<char>>
    decreases body.len(),
{
    if body.len() == 0 {
        Some(Seq::empty())
    } else if body[0] == '\\' {
        if body.len() >= 2 && short_escape(body[1]) is Some {
            after(short_escape(body[1])->0, unescaped_text(body.skip(2)))
        } else if body.len() >= 6 && body[1] == 'u' && body[2] == '0' && body[3] == '0'
            && hex_value(body[4]) is Some && hex_value(body[5]) is Some {
            after(
                ((hex_value(body[4])->0 * 16 + hex_value(body[5])->0) as u8) as char,
                unescaped_text(body.skip(6)),
            )
        } else {
            None
        }
    } else if needs_escape(body[0]) {
        None
    } else {
        after(body[0], unescaped_text(body.skip(1)))
    }
}

/// The text that a JSON string literal stands for; `None` where `literal`
/// is not one that [`unescaped_text`] reads.
pub open spec fn literal_text(literal: Seq<char>) -> Option<Seq<char>> {
    if literal.len() >= 2 && literal[0] == '"' && literal.last() == '"' {
        unescaped_text(literal.subrange(1, literal.len() - 1))
    } else {
        None
    }
}

/// What stands for a character reads back as that character, whatever
/// follows it.
proof fn lemma_unescape_one(c: char, rest: Seq<char>)
    ensures
        unescaped_text(escaped(c) + rest) == after(c, unescaped_text(rest)),
{
    let body = escaped(c) + rest;
    let u = c as u32;
    if c == '"' || c == '\\' || c == '\u{8}' || c == '\t' || c == '\n' || c == '\u{c}' || c
        == '\r' {
        assert(body[0] == '\\');
        assert(body[1] == escaped(c)[1]);
        assert(body.skip(2) =~= rest);
    } else if u < 0x20 {
        let high = (u / 16) as nat;
        let low = (u % 16) as nat;
        assert(body[0] == '\\' && body[1] == 'u' && body[2] == '0' && body[3] == '0');
        assert(body[4] == hex_digit(high) && body[5] == hex_digit(low));
        assert(hex_value(hex_digit(high)) == Some(high));
        assert(hex_value(hex_digit(low)) == Some(low));
        assert(short_escape('u') is None);
        assert(body.skip(6) =~= rest);
        assert(((high * 16 + low) as u8) as char == c);
    } else {
        assert(body[0] == c);
        assert(body.skip(1) =~= rest);
    }
}

/// A text reads back from its escaped form unchanged.
pub proof fn lemma_unescape_escaped(text: Seq<char>)
    ensures
        unescaped_text(escaped_text(text)) == Some(text),
    decreases text.len(),
{
    if text.len() > 0 {
        let rest = text.drop_first();
        lemma_unescape_escaped(rest);
        lemma_unescape_one(text[0], escaped_text(rest));
        assert(seq![text[0]] + rest =~= text);
    }
}

/// Whatever a text holds, quotes, backslashes, line breaks and control
/// characters included, reading its JSON string literal gives the text
/// back unchanged.
pub proof fn lemma_literal_round_trip(text: Seq<char>)
    ensures
        literal_text(json_literal(text)) == Some(text),
{
    let literal = json_literal(text);
    lemma_unescape_escaped(text);
    assert(literal.subrange(1, literal.len() - 1) =~= escaped_text(text));
    assert(literal[0] == '"');
    assert(literal.last() == '"');
}

/// `serde_json::to_string` applied to a string slice: the JSON string
/// literal for `text`. A text is never refused: the writer is a vector,
/// and the text is only escaped and put between quotes.
#[verifier::external_body]
pub(crate) fn quote(text: &str) -> (quoted: core::result::Result<String, serde_json::Error>)
    ensures
        quoted is Ok,
        quoted matches Ok(literal) ==> literal@ == json_literal(text@),
{
    serde_json::to_string::<str>(text)
}

/// The JSON string literal for `text`.
pub fn quoted(text: &str) -> (literal: String)
    ensures
        literal@ == json_literal(text@),
{
    quote(text).unwrap()
}

/// The character that stands for a single decimal digit.
pub open spec fn digit(d: nat) -> char
    recommends
        d < 10,
{
    seq!['0', '1', '2', '3', '4', '5', '6', '7', '8', '9'][d as int]
}

/// A natural number in decimal, without sign or leading zeros.
pub open spec fn decimal(n: nat) -> Seq<char>
    decreases n,
{
    if n < 10 {
        seq![digit(n)]
    } else {
        decimal(n / 10).push(digit(n % 10))
    }
}

/// An integer in decimal, with a leading minus sign where it is negative.
pub open spec fn signed_decimal(n: int) -> Seq<char> {
    if n < 0 {
        seq!['-'] + decimal((-n) as nat)
    } else {
        decimal(n as nat)
    }
}

fn digit_text(d: u64) -> (text: &'static str)
    requires
        d < 10,
    ensures
        text@ == seq![digit(d as nat)],
{
    proof {
        reveal_strlit("0");
        reveal_strlit("1");
        reveal_strlit("2");
        reveal_strlit("3");
        reveal_strlit("4");
        reveal_strlit("5");
        reveal_strlit("6");
        reveal_strlit("7");
        reveal_strlit("8");
        reveal_strlit("9");
    }
    let text = if d == 0 {
        "0"
    } else if d == 1 {
        "1"
    } else if d == 2 {
        "2"
    } else if d == 3 {
        "3"
    } else if d == 4 {
        "4"
    } else if d == 5 {
        "5"
    } else if d == 6 {
        "6"
    } else if d == 7 {
        "7"
    } else if d == 8 {
        "8"
    } else {
        "9"
    };
    assert(text@ =~= seq![digit(d as nat)]);
    text
}

/// Appends `n` in decimal to `out`.
pub fn push_decimal(out: &mut String, n: u64)
    ensures
        final(out)@ == old(out)@ + decimal(n as nat),
    decreases n,
{
    if n >= 10 {
        push_decimal(out, n / 10);
    }
    out.append(digit_text(n % 10));
    assert(out@ =~= old(out)@ + decimal(n as nat));
}

/// Appends `n` in decimal to `out`, with a minus sign where it is negative.
pub fn push_signed_decimal(out: &mut String, n: i64)
    ensures
        final(out)@ == old(out)@ + signed_decimal(n as int),
{
    if n < 0 {
        proof {
            reveal_strlit("-");
        }
        out.append("-");
        let magnitude: u64 = if n == i64::MIN {
            9223372036854775808u64
        } else {
            (-n) as u64
        };
        push_decimal(out, magnitude);
        assert(out@ =~= old(out)@ + signed_decimal(n as int));
    } else {
        push_decimal(out, n as u64);
    }
}

} // verus!
