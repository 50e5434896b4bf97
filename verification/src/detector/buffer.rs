//! The output buffer: raw bytes in, a short window of recent text lines out.
//!
//! Bytes are stripped of terminal escape sequences and collected until a
//! line break closes them. Closed lines are decoded, blank ones dropped, and
//! the rest entered into a list of recent lines, each with the time at which
//! it was first seen. A line is readable for [`LINE_TTL_NANOS`] after that.

use std::borrow::Cow;
use vstd::prelude::*;
use vstd::slice::slice_subrange;
use vstd::string::StringExecFns;
use vstd::utf8::{
    decode_utf8, encode_utf8, encode_utf8_decode_utf8, encode_utf8_valid_utf8, is_ascii_chars,
    is_ascii_chars_encode_utf8, valid_utf8,
};
use crate::clock::{elapsed, elapsed_nanos, Clock};
use crate::detector::lines::{
    all_lines, chomp, closed_lines, has_break, lemma_first_break_is, lemma_lines_of_chunks,
    lemma_one_closed_line, lemma_open_line, lemma_single_line, open_line,
};
use crate::detector::text::{
    is_blank, is_blank_text, is_control, is_plain, lemma_without_controls, strip_controls,
    without_controls,
};

verus! {

/// The most bytes the buffer holds while it waits for a line break.
pub const MAX_BUFFER_SIZE: usize = 8192;

/// The most lines the buffer remembers.
pub const LINE_BUFFER_SIZE: usize = 10;

/// How long a line stays readable after it was first seen, in nanoseconds.
pub const LINE_TTL_NANOS: u64 = 2_000_000_000;

/// The line break, as a byte.
pub const NEWLINE: u8 = 10;

/// The carriage return, as a byte.
pub const CARRIAGE_RETURN: u8 = 13;

/// What `strip_ansi_escapes::strip` leaves of a chunk of terminal output.
pub uninterp spec fn ansi_stripped(data: Seq<u8>) -> Seq<u8>;

/// `strip_ansi_escapes::strip`: the bytes of `data` without the escape
/// sequences of a terminal. Nothing is proved of it: the contract only
/// gives the outcome its name, [`ansi_stripped`].
#[verifier::external_body]
pub(crate) fn strip_ansi(data: &[u8]) -> (stripped: Vec<u8>)
    ensures
        stripped@ == ansi_stripped(data@),
{
    strip_ansi_escapes::strip(data)
}

/// The text that `String::from_utf8_lossy` reads out of bytes.
pub uninterp spec fn lossy_text(bytes: Seq<u8>) -> Seq<char>;

/// `String::from_utf8_lossy`: the bytes decoded as UTF-8, with a
/// replacement character for what is not valid. The contract gives the
/// outcome its name, [`lossy_text`], and says of it that bytes which are
/// valid UTF-8 come out as the characters they encode.
pub assume_specification<'a>[ String::from_utf8_lossy ](bytes: &'a [u8]) -> (text: Cow<'a, str>)
    ensures
        text@ == lossy_text(bytes@),
        valid_utf8(bytes@) ==> text@ == decode_utf8(bytes@),
;

/// The text of a line of bytes: the characters that the bytes encode where
/// they are valid UTF-8, else what lenient decoding makes of them.
pub open spec fn line_text(bytes: Seq<u8>) -> Seq<char> {
    if valid_utf8(bytes) {
        decode_utf8(bytes)
    } else {
        lossy_text(bytes)
    }
}

/// The text of `bytes`, decoded leniently.
fn decode_lossy(bytes: &[u8]) -> (text: String)
    ensures
        text@ == line_text(bytes@),
{
    match String::from_utf8_lossy(bytes) {
        Cow::Borrowed(text) => String::from_str(text),
        Cow::Owned(text) => text,
    }
}

/// The characters that bytes below 128 stand for, one for one.
pub open spec fn ascii_text(bytes: Seq<u8>) -> Seq<char> {
    Seq::new(bytes.len(), |i: int| bytes[i] as char)
}

/// A line of plain ASCII reads as its bytes, one character for each.
pub proof fn lemma_ascii_line_text(bytes: Seq<u8>)
    requires
        forall|i: int| 0 <= i < bytes.len() ==> bytes[i] < 128,
    ensures
        valid_utf8(bytes),
        line_text(bytes) == ascii_text(bytes),
{
    let chars = ascii_text(bytes);
    assert forall|i: int| 0 <= i < chars.len() implies '\0' <= #[trigger] chars[i] <= '\u{7f}' by {
        assert(chars[i] == bytes[i] as char);
    }
    is_ascii_chars_encode_utf8(chars);
    assert(encode_utf8(chars) =~= bytes) by {
        assert forall|i: int| 0 <= i < bytes.len() implies encode_utf8(chars)[i] == bytes[i] by {
            assert(chars[i] == bytes[i] as char);
            assert(chars[i] as u8 == encode_utf8(chars)[i]);
        }
    }
    encode_utf8_valid_utf8(chars);
    encode_utf8_decode_utf8(chars);
}

/// A remembered line and the time at which it was first seen.
pub ghost struct LineEntry {
    pub text: Seq<char>,
    pub seen_at: u64,
}

/// What an [`OutputBuffer`] holds: the bytes of the line that no line break
/// has closed yet, and the remembered lines, the latest first: a line
/// stands before every line that the output gave earlier.
pub ghost struct BufferView {
    pub pending: Seq<u8>,
    pub recent: Seq<LineEntry>,
}

/// Whether a line first seen at `seen_at` is still readable at `now`.
pub open spec fn is_live(entry: LineEntry, now: u64) -> bool {
    elapsed(now, entry.seen_at) < LINE_TTL_NANOS
}

/// The test for entries that are still readable at `now`.
pub open spec fn live_at(now: u64) -> spec_fn(LineEntry) -> bool {
    |entry: LineEntry| is_live(entry, now)
}

/// The entries of `recent` that are still readable at `now`.
pub open spec fn live(recent: Seq<LineEntry>, now: u64) -> Seq<LineEntry> {
    recent.filter(live_at(now))
}

/// Whether some entry of `recent` has the text `text`.
pub open spec fn holds_text(recent: Seq<LineEntry>, text: Seq<char>) -> bool {
    exists|i: int| 0 <= i < recent.len() && (#[trigger] recent[i]).text == text
}

/// Whether no two entries of `recent` have the same text.
pub open spec fn distinct_texts(recent: Seq<LineEntry>) -> bool {
    forall|i: int, j: int|
        0 <= i < j < recent.len() ==> (#[trigger] recent[i]).text != (#[trigger] recent[j]).text
}

/// `recent` after `text` was seen at `now`: a text that is already there
/// changes nothing, a new one goes to the front.
pub open spec fn enter(recent: Seq<LineEntry>, text: Seq<char>, now: u64) -> Seq<LineEntry> {
    if holds_text(recent, text) {
        recent
    } else {
        seq![LineEntry { text, seen_at: now }] + recent
    }
}

/// `recent` after the texts of `lines` were seen at `now`, one after the
/// other in the order of the output, so that the latest of them comes to
/// stand first.
pub open spec fn enter_all(recent: Seq<LineEntry>, lines: Seq<Seq<char>>, now: u64) -> Seq<
    LineEntry,
>
    decreases lines.len(),
{
    if lines.len() == 0 {
        recent
    } else {
        enter(enter_all(recent, lines.drop_last(), now), lines.last(), now)
    }
}

/// The last `n` items of `items`; all of them where there are no more.
pub open spec fn newest<A>(items: Seq<A>, n: int) -> Seq<A> {
    if items.len() <= n {
        items
    } else {
        items.skip(items.len() - n)
    }
}

/// The first `n` items of `items`; all of them where there are no more.
pub open spec fn capped<A>(items: Seq<A>, n: int) -> Seq<A> {
    if items.len() <= n {
        items
    } else {
        items.take(n)
    }
}

/// The collected bytes cut back to their latest half once they exceed
/// [`MAX_BUFFER_SIZE`].
pub open spec fn trimmed(bytes: Seq<u8>) -> Seq<u8> {
    if bytes.len() > MAX_BUFFER_SIZE {
        bytes.skip(bytes.len() - MAX_BUFFER_SIZE / 2)
    } else {
        bytes
    }
}

/// The decoding of one line of bytes: its text, without the control codes
/// that it may hold.
pub open spec fn decode() -> spec_fn(Seq<u8>) -> Seq<char> {
    |line: Seq<u8>| without_controls(line_text(line))
}

/// The test for texts that are not blank.
pub open spec fn not_blank() -> spec_fn(Seq<char>) -> bool {
    |text: Seq<char>| !is_blank(text)
}

/// The texts of the given lines of bytes, blank ones left out.
pub open spec fn texts_of_lines(lines: Seq<Seq<u8>>) -> Seq<Seq<char>> {
    lines.map_values(decode()).filter(not_blank())
}

/// The texts that the closed lines of `bytes` yield: each line decoded on
/// its own and freed of control codes, blank ones left out.
pub open spec fn extracted_texts(bytes: Seq<u8>) -> Seq<Seq<char>> {
    texts_of_lines(closed_lines(bytes, NEWLINE, CARRIAGE_RETURN))
}

/// The buffer after it took in `stripped`, bytes free of escape sequences,
/// at the time `now`.
pub open spec fn absorb(before: BufferView, stripped: Seq<u8>, now: u64) -> BufferView {
    let bytes = trimmed(before.pending + stripped);
    BufferView {
        pending: open_line(bytes, NEWLINE),
        recent: capped(
            enter_all(
                live(before.recent, now),
                newest(extracted_texts(bytes), LINE_BUFFER_SIZE as int),
                now,
            ),
            LINE_BUFFER_SIZE as int,
        ),
    }
}

/// Whether `text` can be a remembered line: it is not blank and holds no
/// control code, so neither an escape nor a carriage return nor a line
/// break.
pub open spec fn is_line(text: Seq<char>) -> bool {
    !is_blank(text) && is_plain(text)
}

/// Whether every entry of `recent` has a text that can be a line.
pub open spec fn visible_texts(recent: Seq<LineEntry>) -> bool {
    forall|i: int| 0 <= i < recent.len() ==> is_line((#[trigger] recent[i]).text)
}

/// What every buffer keeps to: the pending bytes are bounded and hold no
/// line break; the remembered lines are bounded in number, none of them is
/// blank or holds a control code, and no text is remembered twice.
pub open spec fn well_formed(buffer: BufferView) -> bool {
    &&& buffer.pending.len() <= MAX_BUFFER_SIZE
    &&& !has_break(buffer.pending, NEWLINE)
    &&& buffer.recent.len() <= LINE_BUFFER_SIZE
    &&& visible_texts(buffer.recent)
    &&& distinct_texts(buffer.recent)
}

/// The texts of the entries that are readable at `now`, in the order of the
/// list.
pub open spec fn live_texts(recent: Seq<LineEntry>, now: u64) -> Seq<Seq<char>> {
    live(recent, now).map_values(|entry: LineEntry| entry.text)
}

/// The given texts with a line break between each two.
pub open spec fn joined(texts: Seq<Seq<char>>) -> Seq<char>
    decreases texts.len(),
{
    if texts.len() == 0 {
        Seq::empty()
    } else if texts.len() == 1 {
        texts[0]
    } else {
        joined(texts.drop_last()) + seq!['\n'] + texts.last()
    }
}

/// What is left of a list of entries after some were filtered out still
/// holds only texts of the list, and none twice if the list held none twice.
pub proof fn lemma_live_keeps_order(recent: Seq<LineEntry>, now: u64)
    ensures
        live(recent, now).len() <= recent.len(),
        forall|text: Seq<char>| holds_text(live(recent, now), text) ==> holds_text(recent, text),
        distinct_texts(recent) ==> distinct_texts(live(recent, now)),
    decreases recent.len(),
{
    if recent.len() > 0 {
        let head = recent.drop_last();
        let last = recent.last();
        lemma_live_keeps_order(head, now);
        let kept = live(recent, now);
        reveal(Seq::filter);
        assert(kept == if is_live(last, now) {
            live(head, now).push(last)
        } else {
            live(head, now)
        });
        assert forall|text: Seq<char>| holds_text(kept, text) implies holds_text(recent, text) by {
            let i = choose|i: int| 0 <= i < kept.len() && (#[trigger] kept[i]).text == text;
            if i < live(head, now).len() {
                assert(live(head, now)[i].text == text);
                assert(holds_text(head, text));
                let k = choose|k: int| 0 <= k < head.len() && (#[trigger] head[k]).text == text;
                assert(recent[k].text == text);
            } else {
                assert(recent[recent.len() - 1].text == text);
            }
        }
        if distinct_texts(recent) {
            assert forall|i: int, j: int| 0 <= i < j < head.len() implies (#[trigger] head[i]).text
                != (#[trigger] head[j]).text by {
                assert(head[i] == recent[i] && head[j] == recent[j]);
            }
            assert forall|i: int, j: int| 0 <= i < j < kept.len() implies (#[trigger] kept[i]).text
                != (#[trigger] kept[j]).text by {
                if j == live(head, now).len() {
                    assert(live(head, now)[i].text == kept[i].text);
                    assert(holds_text(live(head, now), kept[i].text));
                    assert(holds_text(head, kept[i].text));
                    let k = choose|k: int|
                        0 <= k < head.len() && (#[trigger] head[k]).text == kept[i].text;
                    assert(recent[k].text != recent[recent.len() - 1].text);
                }
            }
        }
    }
}

/// Entering a text keeps the texts distinct and adds at most one entry.
pub proof fn lemma_enter(recent: Seq<LineEntry>, text: Seq<char>, now: u64)
    ensures
        recent.len() <= enter(recent, text, now).len() <= recent.len() + 1,
        distinct_texts(recent) ==> distinct_texts(enter(recent, text, now)),
        holds_text(enter(recent, text, now), text),
{
    let after = enter(recent, text, now);
    if !holds_text(recent, text) {
        assert(after[0].text == text);
        if distinct_texts(recent) {
            assert forall|i: int, j: int| 0 <= i < j < after.len() implies (#[trigger] after[i]).text
                != (#[trigger] after[j]).text by {
                assert(after[j] == recent[j - 1]);
                if i > 0 {
                    assert(after[i] == recent[i - 1]);
                }
            }
        }
    } else {
        let i = choose|i: int| 0 <= i < recent.len() && (#[trigger] recent[i]).text == text;
        assert(after[i].text == text);
    }
}

/// Entering several texts keeps the texts distinct, and visible where the
/// texts entered are.
pub proof fn lemma_enter_all(recent: Seq<LineEntry>, lines: Seq<Seq<char>>, now: u64)
    ensures
        distinct_texts(recent) ==> distinct_texts(enter_all(recent, lines, now)),
        visible_texts(recent) && (forall|i: int|
            0 <= i < lines.len() ==> is_line(#[trigger] lines[i])) ==> visible_texts(
            enter_all(recent, lines, now),
        ),
        enter_all(recent, lines, now).len() <= recent.len() + lines.len(),
    decreases lines.len(),
{
    if lines.len() > 0 {
        let last = lines.last();
        let head = lines.drop_last();
        let before = enter_all(recent, head, now);
        lemma_enter_all(recent, head, now);
        lemma_enter(before, last, now);
        if visible_texts(recent) && (forall|i: int|
            0 <= i < lines.len() ==> is_line(#[trigger] lines[i])) {
            assert(last == lines[lines.len() - 1]);
            assert forall|i: int| 0 <= i < head.len() implies is_line(#[trigger] head[i]) by {
                assert(head[i] == lines[i]);
            }
            let after = enter(before, last, now);
            assert forall|i: int| 0 <= i < after.len() implies is_line((#[trigger] after[i]).text) by {
                if after.len() > before.len() && i > 0 {
                    assert(after[i] == before[i - 1]);
                }
            }
        }
    }
}

/// The entries for `lines`, all first seen at `now`, the last line first.
pub open spec fn stamped(lines: Seq<Seq<char>>, now: u64) -> Seq<LineEntry> {
    Seq::new(lines.len(), |i: int| LineEntry { text: lines[lines.len() - 1 - i], seen_at: now })
}

/// Texts that are all new, and all different, go to the front of the list
/// together, the latest first: what came later in the output stands before
/// what came earlier, and all of it before what the list held.
pub proof fn lemma_enter_all_new(recent: Seq<LineEntry>, lines: Seq<Seq<char>>, now: u64)
    requires
        lines.no_duplicates(),
        forall|i: int| 0 <= i < lines.len() ==> !holds_text(recent, #[trigger] lines[i]),
    ensures
        enter_all(recent, lines, now) == stamped(lines, now) + recent,
    decreases lines.len(),
{
    if lines.len() == 0 {
        assert(stamped(lines, now) + recent =~= recent);
    } else {
        let last = lines.last();
        let head = lines.drop_last();
        assert(last == lines[lines.len() - 1]);
        assert forall|i: int| 0 <= i < head.len() implies !holds_text(recent, #[trigger] head[i]) by {
            assert(head[i] == lines[i]);
        }
        lemma_enter_all_new(recent, head, now);
        let before = stamped(head, now) + recent;
        if holds_text(before, last) {
            let k = choose|k: int| 0 <= k < before.len() && (#[trigger] before[k]).text == last;
            if k < head.len() {
                assert(head[head.len() - 1 - k] == lines[head.len() - 1 - k]);
            } else {
                assert(recent[k - head.len()].text == last);
            }
        }
        assert(seq![LineEntry { text: last, seen_at: now }] + before =~= stamped(lines, now)
            + recent);
    }
}

/// The texts cut out of bytes are not blank and hold no control code.
pub proof fn lemma_extracted_texts_visible(bytes: Seq<u8>)
    ensures
        forall|i: int|
            0 <= i < extracted_texts(bytes).len() ==> is_line(#[trigger] extracted_texts(bytes)[i]),
{
    let decoded = closed_lines(bytes, NEWLINE, CARRIAGE_RETURN).map_values(decode());
    assert forall|i: int| 0 <= i < extracted_texts(bytes).len() implies is_line(
        #[trigger] extracted_texts(bytes)[i],
    ) by {
        let text = extracted_texts(bytes)[i];
        decoded.lemma_filter_pred(not_blank(), i);
        assert(decoded.filter(not_blank()).contains(text));
        decoded.lemma_filter_contains_rev(not_blank(), text);
        let k = choose|k: int| 0 <= k < decoded.len() && decoded[k] == text;
        lemma_without_controls(line_text(closed_lines(bytes, NEWLINE, CARRIAGE_RETURN)[k]));
    }
}

/// Taking in bytes leaves a buffer well formed.
pub proof fn lemma_absorb_well_formed(before: BufferView, stripped: Seq<u8>, now: u64)
    requires
        distinct_texts(before.recent),
        visible_texts(before.recent),
    ensures
        well_formed(absorb(before, stripped, now)),
{
    let bytes = trimmed(before.pending + stripped);
    lemma_open_line(bytes, NEWLINE);
    lemma_live_keeps_order(before.recent, now);
    let kept = live(before.recent, now);
    assert forall|i: int| 0 <= i < kept.len() implies is_line((#[trigger] kept[i]).text) by {
        assert(kept.contains(kept[i]));
        before.recent.lemma_filter_contains_rev(live_at(now), kept[i]);
        let k = choose|k: int| 0 <= k < before.recent.len() && before.recent[k] == kept[i];
        assert(is_line(before.recent[k].text));
    }
    lemma_extracted_texts_visible(bytes);
    let lines = newest(extracted_texts(bytes), LINE_BUFFER_SIZE as int);
    assert forall|i: int| 0 <= i < lines.len() implies is_line(#[trigger] lines[i]) by {
        if extracted_texts(bytes).len() > LINE_BUFFER_SIZE {
            assert(lines[i] == extracted_texts(bytes)[extracted_texts(bytes).len()
                - LINE_BUFFER_SIZE + i]);
        }
    }
    lemma_enter_all(kept, lines, now);
    let entered = enter_all(kept, lines, now);
    let after = capped(entered, LINE_BUFFER_SIZE as int);
    assert forall|i: int, j: int| 0 <= i < j < after.len() implies (#[trigger] after[i]).text != (
    #[trigger] after[j]).text by {
        assert(after[i] == entered[i] && after[j] == entered[j]);
    }
    assert forall|i: int| 0 <= i < after.len() implies is_line((#[trigger] after[i]).text) by {
        assert(after[i] == entered[i]);
    }
}

/// Cutting bytes into texts is indifferent to how the bytes were handed
/// over: the texts of two chunks taken as one are those of the first chunk,
/// followed by those of the first chunk's open line joined to the second;
/// and the bytes left pending at the end are the same.
pub proof fn lemma_extraction_of_chunks(a: Seq<u8>, b: Seq<u8>)
    ensures
        extracted_texts(a + b) == extracted_texts(a) + extracted_texts(open_line(a, NEWLINE) + b),
        open_line(a + b, NEWLINE) == open_line(open_line(a, NEWLINE) + b, NEWLINE),
{
    lemma_lines_of_chunks(a, b, NEWLINE, CARRIAGE_RETURN);
    let first = closed_lines(a, NEWLINE, CARRIAGE_RETURN);
    let second = closed_lines(open_line(a, NEWLINE) + b, NEWLINE, CARRIAGE_RETURN);
    assert((first + second).map_values(decode()) =~= first.map_values(decode())
        + second.map_values(decode()));
    Seq::filter_distributes_over_add(
        first.map_values(decode()),
        second.map_values(decode()),
        not_blank(),
    );
}

/// The given chunks, one after the other, as one sequence of bytes.
pub open spec fn concatenated(chunks: Seq<Seq<u8>>) -> Seq<u8>
    decreases chunks.len(),
{
    if chunks.len() == 0 {
        Seq::empty()
    } else {
        concatenated(chunks.drop_last()) + chunks.last()
    }
}

/// What cutting chunk by chunk yields: the texts cut out of `chunks`, each
/// chunk joined to what the ones before it left open, and the bytes left
/// open at the end. `pending` is what was open before the first chunk.
pub open spec fn fed(pending: Seq<u8>, chunks: Seq<Seq<u8>>) -> (Seq<Seq<char>>, Seq<u8>)
    decreases chunks.len(),
{
    if chunks.len() == 0 {
        (Seq::empty(), pending)
    } else {
        let (texts, open) = fed(pending, chunks.drop_last());
        (texts + extracted_texts(open + chunks.last()), open_line(open + chunks.last(), NEWLINE))
    }
}

/// However a sequence of bytes is cut into chunks, cutting chunk by chunk
/// yields the texts, and leaves the bytes open, that cutting the whole at
/// once does.
pub proof fn lemma_extraction_of_any_chunks(pending: Seq<u8>, chunks: Seq<Seq<u8>>)
    requires
        !has_break(pending, NEWLINE),
    ensures
        fed(pending, chunks).0 == extracted_texts(pending + concatenated(chunks)),
        fed(pending, chunks).1 == open_line(pending + concatenated(chunks), NEWLINE),
    decreases chunks.len(),
{
    if chunks.len() == 0 {
        assert(pending + concatenated(chunks) =~= pending);
        lemma_single_line(pending, NEWLINE, CARRIAGE_RETURN);
        reveal(Seq::filter);
        assert(closed_lines(pending, NEWLINE, CARRIAGE_RETURN).map_values(decode())
            =~= Seq::<Seq<char>>::empty());
    } else {
        let earlier = pending + concatenated(chunks.drop_last());
        lemma_extraction_of_any_chunks(pending, chunks.drop_last());
        lemma_extraction_of_chunks(earlier, chunks.last());
        assert(earlier + chunks.last() =~= pending + concatenated(chunks));
    }
}

/// As long as the collected bytes stay within [`MAX_BUFFER_SIZE`], a buffer
/// that took in two chunks one after the other is left with the same
/// pending bytes as one that took them in as a single chunk.
pub proof fn lemma_pending_of_chunks(
    before: BufferView,
    a: Seq<u8>,
    b: Seq<u8>,
    first: u64,
    second: u64,
)
    requires
        before.pending.len() + a.len() + b.len() <= MAX_BUFFER_SIZE,
    ensures
        absorb(absorb(before, a, first), b, second).pending == absorb(
            before,
            a + b,
            second,
        ).pending,
{
    let start = before.pending + a;
    lemma_open_line(start, NEWLINE);
    lemma_extraction_of_chunks(start, b);
    assert(start + b =~= before.pending + (a + b));
}

/// A line whose time is over cannot be read any more, though nothing has
/// removed it: its text is not among the readable texts.
pub proof fn lemma_expired_line_is_unreadable(recent: Seq<LineEntry>, i: int, now: u64)
    requires
        distinct_texts(recent),
        0 <= i < recent.len(),
        elapsed(now, recent[i].seen_at) >= LINE_TTL_NANOS,
    ensures
        !live_texts(recent, now).contains(recent[i].text),
        first_live_text(recent, now) != Some(recent[i].text),
{
    let kept = live(recent, now);
    assert forall|k: int| 0 <= k < kept.len() implies (#[trigger] kept[k]).text != recent[i].text by {
        recent.lemma_filter_pred(live_at(now), k);
        assert(kept.contains(kept[k]));
        recent.lemma_filter_contains_rev(live_at(now), kept[k]);
        let m = choose|m: int| 0 <= m < recent.len() && recent[m] == kept[k];
        if m < i {
            assert(recent[m].text != recent[i].text);
        } else if i < m {
            assert(recent[i].text != recent[m].text);
        }
    }
    if live_texts(recent, now).contains(recent[i].text) {
        let k = choose|k: int|
            0 <= k < live_texts(recent, now).len() && live_texts(recent, now)[k] == recent[i].text;
        assert(kept[k].text == recent[i].text);
    }
}

/// A line whose time is not over can be read: its text is among the
/// readable texts.
pub proof fn lemma_live_line_is_readable(recent: Seq<LineEntry>, i: int, now: u64)
    requires
        0 <= i < recent.len(),
        elapsed(now, recent[i].seen_at) < LINE_TTL_NANOS,
    ensures
        live_texts(recent, now).contains(recent[i].text),
{
    recent.lemma_filter_contains(live_at(now), i);
    let kept = live(recent, now);
    let k = choose|k: int| 0 <= k < kept.len() && kept[k] == recent[i];
    assert(live_texts(recent, now)[k] == recent[i].text);
}

/// The texts of the entries of a list, in its order.
pub open spec fn texts_of(recent: Seq<LineEntry>) -> Seq<Seq<char>> {
    Seq::new(recent.len(), |i: int| recent[i].text)
}

/// A list of texts after `text` was seen: a text that is already there
/// changes nothing, a new one goes to the front.
pub open spec fn note(known: Seq<Seq<char>>, text: Seq<char>) -> Seq<Seq<char>> {
    if known.contains(text) {
        known
    } else {
        seq![text] + known
    }
}

/// A list of texts after each of `lines` was seen, in the order of the
/// output.
pub open spec fn note_all(known: Seq<Seq<char>>, lines: Seq<Seq<char>>) -> Seq<Seq<char>>
    decreases lines.len(),
{
    if lines.len() == 0 {
        known
    } else {
        note(note_all(known, lines.drop_last()), lines.last())
    }
}

/// The buffer after it took in each of `chunks` in turn, bytes free of
/// escape sequences, each at its own time.
pub open spec fn absorb_all(before: BufferView, chunks: Seq<Seq<u8>>, times: Seq<u64>) -> BufferView
    decreases chunks.len(),
{
    if chunks.len() == 0 {
        before
    } else {
        absorb(
            absorb_all(before, chunks.drop_last(), times.drop_last()),
            chunks.last(),
            times.last(),
        )
    }
}

/// Whether none of `times` is as much as the time to live after an earlier
/// one of them.
pub open spec fn within_ttl(times: Seq<u64>) -> bool {
    forall|i: int, j: int|
        0 <= i <= j < times.len() ==> elapsed(#[trigger] times[j], #[trigger] times[i])
            < LINE_TTL_NANOS
}

/// Whether every entry of `recent` was first seen at one of `times`.
pub open spec fn seen_at_one_of(recent: Seq<LineEntry>, times: Seq<u64>) -> bool {
    forall|k: int|
        0 <= k < recent.len() ==> exists|i: int|
            0 <= i < times.len() && (#[trigger] recent[k]).seen_at == #[trigger] times[i]
}

/// Which texts a list holds, and in which order, does not depend on when
/// they were seen: entering a text does to the texts of the list what
/// [`note`] says.
pub proof fn lemma_texts_of_enter(recent: Seq<LineEntry>, text: Seq<char>, now: u64)
    ensures
        texts_of(enter(recent, text, now)) == note(texts_of(recent), text),
        holds_text(recent, text) == texts_of(recent).contains(text),
{
    if holds_text(recent, text) {
        let k = choose|k: int| 0 <= k < recent.len() && (#[trigger] recent[k]).text == text;
        assert(texts_of(recent)[k] == text);
    }
    if texts_of(recent).contains(text) {
        let k = choose|k: int| 0 <= k < texts_of(recent).len() && texts_of(recent)[k] == text;
        assert(recent[k].text == text);
    }
    assert(texts_of(enter(recent, text, now)) =~= note(texts_of(recent), text));
}

/// Entering several texts does to the texts of the list what [`note_all`]
/// says.
pub proof fn lemma_texts_of_enter_all(recent: Seq<LineEntry>, lines: Seq<Seq<char>>, now: u64)
    ensures
        texts_of(enter_all(recent, lines, now)) == note_all(texts_of(recent), lines),
    decreases lines.len(),
{
    if lines.len() > 0 {
        lemma_texts_of_enter_all(recent, lines.drop_last(), now);
        lemma_texts_of_enter(enter_all(recent, lines.drop_last(), now), lines.last(), now);
    }
}

/// Seeing lines chunk by chunk leaves the list that seeing them all at
/// once does.
pub proof fn lemma_note_all_of_chunks(known: Seq<Seq<char>>, a: Seq<Seq<char>>, b: Seq<Seq<char>>)
    ensures
        note_all(known, a + b) == note_all(note_all(known, a), b),
        note_all(known, a).len() <= known.len() + a.len(),
    decreases b.len(),
{
    if b.len() == 0 {
        assert(a + b =~= a);
    } else {
        lemma_note_all_of_chunks(known, a, b.drop_last());
        assert((a + b).drop_last() =~= a + b.drop_last());
        assert((a + b).last() == b.last());
    }
    lemma_note_all_len(known, a);
}

proof fn lemma_note_all_len(known: Seq<Seq<char>>, lines: Seq<Seq<char>>)
    ensures
        note_all(known, lines).len() <= known.len() + lines.len(),
    decreases lines.len(),
{
    if lines.len() > 0 {
        lemma_note_all_len(known, lines.drop_last());
    }
}

/// Entries that are all readable are all kept.
proof fn lemma_all_live(recent: Seq<LineEntry>, now: u64)
    requires
        forall|i: int| 0 <= i < recent.len() ==> is_live(#[trigger] recent[i], now),
    ensures
        live(recent, now) == recent,
    decreases recent.len(),
{
    reveal(Seq::filter);
    if recent.len() > 0 {
        let head = recent.drop_last();
        assert forall|i: int| 0 <= i < head.len() implies is_live(#[trigger] head[i], now) by {
            assert(head[i] == recent[i]);
        }
        lemma_all_live(head, now);
        assert(recent.last() == recent[recent.len() - 1]);
        assert(head.push(recent.last()) =~= recent);
    } else {
        assert(live(recent, now) =~= recent);
    }
}

/// Every entry of a list that texts were entered into was there before or
/// was first seen at the time given.
proof fn lemma_enter_all_stamps(recent: Seq<LineEntry>, lines: Seq<Seq<char>>, now: u64)
    ensures
        forall|k: int|
            0 <= k < enter_all(recent, lines, now).len() ==> (#[trigger] enter_all(
                recent,
                lines,
                now,
            )[k]).seen_at == now || recent.contains(enter_all(recent, lines, now)[k]),
    decreases lines.len(),
{
    if lines.len() > 0 {
        let before = enter_all(recent, lines.drop_last(), now);
        lemma_enter_all_stamps(recent, lines.drop_last(), now);
        let after = enter_all(recent, lines, now);
        assert forall|k: int| 0 <= k < after.len() implies (#[trigger] after[k]).seen_at == now
            || recent.contains(after[k]) by {
            if after.len() > before.len() {
                if k > 0 {
                    assert(after[k] == before[k - 1]);
                }
            }
        }
    }
}

/// What an empty buffer holds after it took in chunks, none of them so
/// late that a line had expired, whose lines are few enough, and whose
/// bytes are few enough, for nothing to be dropped.
proof fn lemma_absorb_all(chunks: Seq<Seq<u8>>, times: Seq<u64>)
    requires
        times.len() == chunks.len(),
        within_ttl(times),
        concatenated(chunks).len() <= MAX_BUFFER_SIZE,
        extracted_texts(concatenated(chunks)).len() <= LINE_BUFFER_SIZE,
    ensures
        absorb_all(empty_buffer(), chunks, times).pending == open_line(
            concatenated(chunks),
            NEWLINE,
        ),
        texts_of(absorb_all(empty_buffer(), chunks, times).recent) == note_all(
            Seq::empty(),
            extracted_texts(concatenated(chunks)),
        ),
        seen_at_one_of(absorb_all(empty_buffer(), chunks, times).recent, times),
    decreases chunks.len(),
{
    if chunks.len() == 0 {
        let none = Seq::<u8>::empty();
        lemma_single_line(none, NEWLINE, CARRIAGE_RETURN);
        reveal(Seq::filter);
        assert(closed_lines(none, NEWLINE, CARRIAGE_RETURN).map_values(decode())
            =~= Seq::<Seq<char>>::empty());
        assert(texts_of(empty_buffer().recent) =~= Seq::<Seq<char>>::empty());
    } else {
        let earlier = concatenated(chunks.drop_last());
        let chunk = chunks.last();
        let now = times.last();
        let past = times.drop_last();
        let whole = concatenated(chunks);
        lemma_extraction_of_chunks(earlier, chunk);
        lemma_open_line(earlier, NEWLINE);
        let open = open_line(earlier, NEWLINE);
        let found = extracted_texts(open + chunk);
        let known = extracted_texts(earlier);
        assert(extracted_texts(whole) == known + found);
        assert forall|i: int, j: int| 0 <= i <= j < past.len() implies elapsed(
            #[trigger] past[j],
            #[trigger] past[i],
        ) < LINE_TTL_NANOS by {
            assert(past[j] == times[j] && past[i] == times[i]);
        }
        lemma_absorb_all(chunks.drop_last(), past);
        let before = absorb_all(empty_buffer(), chunks.drop_last(), past);
        assert(trimmed(before.pending + chunk) == open + chunk);
        assert forall|k: int| 0 <= k < before.recent.len() implies is_live(
            #[trigger] before.recent[k],
            now,
        ) by {
            let i = choose|i: int|
                0 <= i < past.len() && before.recent[k].seen_at == #[trigger] past[i];
            assert(past[i] == times[i]);
            assert(now == times[times.len() - 1]);
        }
        lemma_all_live(before.recent, now);
        assert(newest(found, LINE_BUFFER_SIZE as int) == found);
        let entered = enter_all(before.recent, found, now);
        lemma_texts_of_enter_all(before.recent, found, now);
        lemma_note_all_of_chunks(Seq::empty(), known, found);
        lemma_note_all_len(Seq::empty(), known + found);
        assert(entered.len() == texts_of(entered).len());
        assert(capped(entered, LINE_BUFFER_SIZE as int) == entered);
        let after = absorb_all(empty_buffer(), chunks, times);
        assert(after.recent == entered);
        lemma_enter_all_stamps(before.recent, found, now);
        assert forall|k: int| 0 <= k < entered.len() implies exists|i: int|
            0 <= i < times.len() && (#[trigger] entered[k]).seen_at == #[trigger] times[i] by {
            if entered[k].seen_at == now {
                assert(times[times.len() - 1] == now);
            } else {
                let m = choose|m: int| 0 <= m < before.recent.len() && before.recent[m] == entered[k];
                let i = choose|i: int|
                    0 <= i < past.len() && before.recent[m].seen_at == #[trigger] past[i];
                assert(times[i] == past[i]);
            }
        }
    }
}

/// However bytes free of escape sequences are cut into chunks, and
/// whenever the chunks are taken in, an empty buffer remembers the same
/// lines in the same order, and is left with the same pending bytes, as one
/// that takes the whole in at once; a read gives the same window and the
/// same last line. This holds while nothing has to be dropped: for at most
/// [`MAX_BUFFER_SIZE`] bytes that hold at most [`LINE_BUFFER_SIZE`] lines
/// which are not blank, and while no line has expired, neither between one
/// chunk and a later one nor at the time of the read.
pub proof fn lemma_chunks_read_as_the_whole(
    chunks: Seq<Seq<u8>>,
    times: Seq<u64>,
    at_once: u64,
    read_at: u64,
)
    requires
        times.len() == chunks.len(),
        within_ttl(times),
        concatenated(chunks).len() <= MAX_BUFFER_SIZE,
        extracted_texts(concatenated(chunks)).len() <= LINE_BUFFER_SIZE,
        forall|i: int| 0 <= i < times.len() ==> elapsed(read_at, #[trigger] times[i])
            < LINE_TTL_NANOS,
        elapsed(read_at, at_once) < LINE_TTL_NANOS,
    ensures
        absorb_all(empty_buffer(), chunks, times).pending == absorb(
            empty_buffer(),
            concatenated(chunks),
            at_once,
        ).pending,
        texts_of(absorb_all(empty_buffer(), chunks, times).recent) == texts_of(
            absorb(empty_buffer(), concatenated(chunks), at_once).recent,
        ),
        live_texts(absorb_all(empty_buffer(), chunks, times).recent, read_at) == live_texts(
            absorb(empty_buffer(), concatenated(chunks), at_once).recent,
            read_at,
        ),
        first_live_text(absorb_all(empty_buffer(), chunks, times).recent, read_at)
            == first_live_text(
            absorb(empty_buffer(), concatenated(chunks), at_once).recent,
            read_at,
        ),
{
    let whole = concatenated(chunks);
    let alone = seq![whole];
    let once = seq![at_once];
    assert(alone.drop_last() =~= Seq::<Seq<u8>>::empty());
    assert(alone.last() == whole);
    assert(concatenated(alone.drop_last()) == Seq::<u8>::empty());
    assert(concatenated(alone) =~= whole);
    assert(absorb_all(empty_buffer(), alone.drop_last(), once.drop_last()) == empty_buffer());
    assert(once.last() == at_once);
    assert(absorb_all(empty_buffer(), alone, once) == absorb(empty_buffer(), whole, at_once));
    assert(within_ttl(once));
    lemma_absorb_all(chunks, times);
    lemma_absorb_all(alone, once);
    let chunked = absorb_all(empty_buffer(), chunks, times).recent;
    let single = absorb(empty_buffer(), whole, at_once).recent;
    assert forall|k: int| 0 <= k < chunked.len() implies is_live(#[trigger] chunked[k], read_at) by {
        let i = choose|i: int| 0 <= i < times.len() && chunked[k].seen_at == #[trigger] times[i];
    }
    assert forall|k: int| 0 <= k < single.len() implies is_live(#[trigger] single[k], read_at) by {
        let i = choose|i: int| 0 <= i < once.len() && single[k].seen_at == #[trigger] once[i];
    }
    lemma_all_live(chunked, read_at);
    lemma_all_live(single, read_at);
    assert(live_texts(chunked, read_at) =~= texts_of(chunked));
    assert(live_texts(single, read_at) =~= texts_of(single));
    if chunked.len() > 0 {
        assert(texts_of(chunked)[0] == chunked[0].text);
        assert(texts_of(single)[0] == single[0].text);
    }
    assert(chunked.len() == texts_of(chunked).len());
    assert(single.len() == texts_of(single).len());
}

/// One line of bytes whose text can be a line yields that text.
proof fn lemma_text_of_one_line(line: Seq<u8>)
    requires
        is_line(line_text(line)),
    ensures
        texts_of_lines(seq![line]) == seq![line_text(line)],
{
    reveal(Seq::filter);
    lemma_without_controls(line_text(line));
    let decoded = seq![line].map_values(decode());
    assert(decoded =~= seq![line_text(line)]);
    assert(decoded.drop_last() =~= Seq::<Seq<char>>::empty());
    assert(decoded.last() == line_text(line));
    assert(decoded.drop_last().filter(not_blank()) =~= Seq::<Seq<char>>::empty());
    assert(texts_of_lines(seq![line]) =~= seq![line_text(line)]);
}

/// Of a list with one entry, all is readable while that entry is.
proof fn lemma_live_of_one(entry: LineEntry, now: u64)
    requires
        is_live(entry, now),
    ensures
        live(seq![entry], now) == seq![entry],
        live(Seq::<LineEntry>::empty(), now) == Seq::<LineEntry>::empty(),
        live_texts(seq![entry], now) == seq![entry.text],
        first_live_text(seq![entry], now) == Some(entry.text),
{
    reveal(Seq::filter);
    let one = seq![entry];
    assert(one.drop_last() =~= Seq::<LineEntry>::empty());
    assert(one.last() == entry);
    assert(one.drop_last().filter(live_at(now)) =~= Seq::<LineEntry>::empty());
    assert(live(one, now) =~= one);
    assert(live_texts(one, now) =~= seq![entry.text]);
}

/// One new text goes into an empty list alone.
proof fn lemma_enter_one(text: Seq<char>, now: u64)
    ensures
        enter_all(Seq::<LineEntry>::empty(), seq![text], now) == seq![
            LineEntry { text, seen_at: now },
        ],
{
    let none = Seq::<LineEntry>::empty();
    let entry = LineEntry { text, seen_at: now };
    assert(seq![text].last() == text);
    assert(seq![text].drop_last() =~= Seq::<Seq<char>>::empty());
    assert(!holds_text(none, text));
    assert(enter_all(none, seq![text].drop_last(), now) == none);
    assert(enter(none, text, now) =~= seq![entry]);
}

/// An empty buffer that takes in one line of printable ASCII and its line
/// break remembers that line, character for character, and nothing else:
/// it is the line read last, and it is the whole window.
pub proof fn lemma_plain_line_is_remembered(line: Seq<u8>, now: u64)
    requires
        line.len() < MAX_BUFFER_SIZE,
        forall|i: int| 0 <= i < line.len() ==> 32 <= #[trigger] line[i] && line[i] < 128,
        !is_blank(ascii_text(line)),
    ensures
        absorb(empty_buffer(), line.push(NEWLINE), now) == (BufferView {
            pending: Seq::empty(),
            recent: seq![LineEntry { text: ascii_text(line), seen_at: now }],
        }),
        first_live_text(absorb(empty_buffer(), line.push(NEWLINE), now).recent, now) == Some(
            ascii_text(line),
        ),
        joined(live_texts(absorb(empty_buffer(), line.push(NEWLINE), now).recent, now))
            == ascii_text(line),
{
    let text = ascii_text(line);
    let entry = LineEntry { text, seen_at: now };
    let given = line.push(NEWLINE);
    assert(trimmed(empty_buffer().pending + given) == given) by {
        assert(empty_buffer().pending + given =~= given);
    }
    assert forall|k: int| 0 <= k < line.len() implies line[k] != NEWLINE by {
        assert(32 <= line[k]);
    }
    lemma_first_break_is(line, NEWLINE, line.len() as int);
    if line.len() > 0 {
        assert(32 <= line[line.len() - 1]);
    }
    lemma_one_closed_line(line, NEWLINE, CARRIAGE_RETURN);
    lemma_ascii_line_text(line);
    assert(is_plain(text)) by {
        assert forall|i: int| 0 <= i < text.len() implies !is_control(#[trigger] text[i]) by {
            assert(text[i] == line[i] as char);
        }
    }
    lemma_text_of_one_line(line);
    lemma_enter_one(text, now);
    lemma_live_of_one(entry, now);
    assert(extracted_texts(given) == seq![text]);
    assert(newest(seq![text], LINE_BUFFER_SIZE as int) == seq![text]);
    assert(live(empty_buffer().recent, now) == Seq::<LineEntry>::empty());
    assert(capped(seq![entry], LINE_BUFFER_SIZE as int) == seq![entry]);
}

/// Texts that can be lines, joined into a window, are the lines of that
/// window: cutting the window at its line breaks gives the texts back, one
/// for one and in their order; and the window is empty exactly if there is
/// no text.
pub proof fn lemma_lines_of_joined(texts: Seq<Seq<char>>)
    requires
        forall|i: int| 0 <= i < texts.len() ==> is_line(#[trigger] texts[i]),
    ensures
        all_lines(joined(texts), '\n', '\r') == texts,
        texts.len() > 0 ==> closed_lines(joined(texts), '\n', '\r') == texts.drop_last()
            && open_line(joined(texts), '\n') == texts.last(),
        joined(texts).len() == 0 <==> texts.len() == 0,
    decreases texts.len(),
{
    if texts.len() == 0 {
        lemma_single_line(joined(texts), '\n', '\r');
    } else {
        let last = texts.last();
        assert(last == texts[texts.len() - 1]);
        lemma_a_line(last);
        if texts.len() == 1 {
            lemma_single_line(last, '\n', '\r');
            assert(texts.drop_last() =~= Seq::<Seq<char>>::empty());
            assert(Seq::<Seq<char>>::empty().push(last) =~= texts);
        } else {
            let head = texts.drop_last();
            assert forall|i: int| 0 <= i < head.len() implies is_line(#[trigger] head[i]) by {
                assert(head[i] == texts[i]);
            }
            lemma_lines_of_joined(head);
            let before = joined(head);
            let open = head.last();
            assert(open == head[head.len() - 1]);
            lemma_a_line(open);
            lemma_one_closed_line(open, '\n', '\r');
            lemma_lines_of_chunks(before, seq!['\n'], '\n', '\r');
            assert(open + seq!['\n'] =~= open.push('\n'));
            let closed = before + seq!['\n'];
            assert(closed_lines(closed, '\n', '\r') =~= head) by {
                assert(head.drop_last() + seq![open] =~= head);
            }
            assert(open_line(closed, '\n') == Seq::<char>::empty());
            lemma_lines_of_chunks(closed, last, '\n', '\r');
            assert(Seq::<char>::empty() + last =~= last);
            lemma_single_line(last, '\n', '\r');
            assert(joined(texts) == closed + last);
            assert(head + Seq::<Seq<char>>::empty() =~= head);
            assert(head.push(last) =~= texts);
        }
    }
}

/// A text that can be a line is not empty, holds no line break and does not
/// end in a carriage return.
proof fn lemma_a_line(text: Seq<char>)
    requires
        is_line(text),
    ensures
        text.len() > 0,
        !has_break(text, '\n'),
        text.last() != '\r',
{
    if text.len() == 0 {
        assert(is_blank(text));
    }
    assert forall|k: int| 0 <= k < text.len() implies text[k] != '\n' by {
        assert(!is_control(text[k]));
    }
    lemma_first_break_is(text, '\n', text.len() as int);
    assert(!is_control(text[text.len() - 1]));
}

/// What a read gives at any time, of any list that a buffer can hold: the
/// lines of the window are the readable texts, one for one; the line read
/// last is the first line of the window; and the window is empty exactly if
/// no line is read.
pub proof fn lemma_last_line_is_first_of_window(recent: Seq<LineEntry>, now: u64)
    requires
        visible_texts(recent),
    ensures
        all_lines(joined(live_texts(recent, now)), '\n', '\r') == live_texts(recent, now),
        first_live_text(recent, now) is None <==> joined(live_texts(recent, now)).len() == 0,
        first_live_text(recent, now) matches Some(line) ==> all_lines(
            joined(live_texts(recent, now)),
            '\n',
            '\r',
        )[0] == line,
{
    let kept = live(recent, now);
    let readable = live_texts(recent, now);
    assert forall|i: int| 0 <= i < readable.len() implies is_line(#[trigger] readable[i]) by {
        assert(readable[i] == kept[i].text);
        assert(kept.contains(kept[i]));
        recent.lemma_filter_contains_rev(live_at(now), kept[i]);
        let k = choose|k: int| 0 <= k < recent.len() && recent[k] == kept[i];
        assert(is_line(recent[k].text));
    }
    lemma_lines_of_joined(readable);
    if readable.len() > 0 {
        assert(readable[0] == kept[0].text);
    }
}

/// A remembered line as the buffer stores it.
struct RecentLine {
    text: String,
    seen_at: u64,
}

impl View for RecentLine {
    type V = LineEntry;

    closed spec fn view(&self) -> LineEntry {
        LineEntry { text: self.text@, seen_at: self.seen_at }
    }
}

/// The entries that a stored list of lines stands for.
spec fn entries(lines: Seq<RecentLine>) -> Seq<LineEntry> {
    Seq::new(lines.len(), |i: int| lines[i]@)
}

/// The texts that a list of strings stands for.
spec fn texts(strings: Seq<String>) -> Seq<Seq<char>> {
    Seq::new(strings.len(), |i: int| strings[i]@)
}

/// Drops from `recent` the lines that are not readable at `now`.
fn retain_live(recent: &mut Vec<RecentLine>, now: u64)
    ensures
        entries(final(recent)@) == live(entries(old(recent)@), now),
{
    let ghost before = entries(recent@);
    let mut i: usize = 0;
    let ghost mut j: int = 0;
    proof {
        reveal(Seq::filter);
        assert(before.take(0).len() == 0);
        assert(entries(recent@).take(0) =~= live(before.take(0), now));
        assert(entries(recent@).skip(0) =~= before.skip(0));
    }
    while i < recent.len()
        invariant
            0 <= i <= recent.len(),
            0 <= j <= before.len(),
            before.len() - j == recent.len() - i,
            entries(recent@).take(i as int) == live(before.take(j), now),
            entries(recent@).skip(i as int) == before.skip(j),
        decreases recent.len() - i,
    {
        let ghost current = entries(recent@);
        proof {
            assert(current[i as int] == current.skip(i as int)[0]);
            assert(current[i as int] == before[j]);
            assert(before.take(j + 1) =~= before.take(j).push(before[j]));
            before.take(j).lemma_filter_push(before[j], live_at(now));
        }
        if elapsed_nanos(now, recent[i].seen_at) < LINE_TTL_NANOS {
            proof {
                assert(current.take(i + 1) =~= current.take(i as int).push(current[i as int]));
                assert(current.skip(i + 1) =~= current.skip(i as int).skip(1));
                assert(before.skip(j + 1) =~= before.skip(j).skip(1));
                j = j + 1;
            }
            i = i + 1;
        } else {
            recent.remove(i);
            proof {
                let after = entries(recent@);
                assert(after.take(i as int) =~= current.take(i as int));
                assert(after =~= current.remove(i as int));
                assert(after.skip(i as int) =~= current.skip(i as int).skip(1));
                assert(before.skip(j + 1) =~= before.skip(j).skip(1));
                j = j + 1;
            }
        }
    }
    proof {
        assert(entries(recent@).take(i as int) =~= entries(recent@));
        assert(before.take(j) =~= before);
    }
}

/// Cuts the closed lines out of `bytes`. Returns their texts, blank ones
/// left out, and the position at which the open line starts.
fn cut_lines(bytes: &Vec<u8>) -> (cut: (Vec<String>, usize))
    ensures
        texts(cut.0@) == extracted_texts(bytes@),
        cut.1 <= bytes.len(),
        bytes@.skip(cut.1 as int) == open_line(bytes@, NEWLINE),
{
    let n = bytes.len();
    let mut found: Vec<String> = Vec::new();
    let mut start: usize = 0;
    let mut i: usize = 0;
    let ghost mut done: Seq<Seq<u8>> = Seq::empty();
    proof {
        reveal(Seq::filter);
        assert(bytes@.skip(0) =~= bytes@);
        assert(done.map_values(decode()) =~= Seq::<Seq<char>>::empty());
        assert(texts(found@) =~= texts_of_lines(done));
        assert(done + closed_lines(bytes@, NEWLINE, CARRIAGE_RETURN) =~= closed_lines(
            bytes@,
            NEWLINE,
            CARRIAGE_RETURN,
        ));
    }
    while i < n
        invariant
            n == bytes.len(),
            0 <= start <= i <= n,
            forall|k: int| start <= k < i ==> bytes@[k] != NEWLINE,
            closed_lines(bytes@, NEWLINE, CARRIAGE_RETURN) == done + closed_lines(
                bytes@.skip(start as int),
                NEWLINE,
                CARRIAGE_RETURN,
            ),
            open_line(bytes@, NEWLINE) == open_line(bytes@.skip(start as int), NEWLINE),
            texts(found@) == texts_of_lines(done),
        decreases n - i,
    {
        if bytes[i] == NEWLINE {
            let end = if i > start && bytes[i - 1] == CARRIAGE_RETURN {
                i - 1
            } else {
                i
            };
            let text = strip_controls(
                decode_lossy(slice_subrange(bytes.as_slice(), start, end)),
            );
            let ghost line = bytes@.subrange(start as int, end as int);
            let ghost blank = is_blank(text@);
            proof {
                let rest = bytes@.skip(start as int);
                assert forall|k: int| 0 <= k < i - start implies rest[k] != NEWLINE by {
                    assert(rest[k] == bytes@[start + k]);
                }
                assert(rest[i - start] == bytes@[i as int]);
                lemma_first_break_is(rest, NEWLINE, i - start);
                assert(rest.skip(i - start + 1) =~= bytes@.skip(i + 1));
                assert(chomp(rest.take(i - start), CARRIAGE_RETURN) =~= line) by {
                    let whole = rest.take(i - start);
                    if whole.len() > 0 {
                        assert(whole.last() == bytes@[i - 1]);
                    }
                }
                assert(done + (seq![line] + closed_lines(
                    bytes@.skip(i + 1),
                    NEWLINE,
                    CARRIAGE_RETURN,
                )) =~= done.push(line) + closed_lines(
                    bytes@.skip(i + 1),
                    NEWLINE,
                    CARRIAGE_RETURN,
                ));
                assert(done.push(line).map_values(decode()) =~= done.map_values(decode()).push(
                    text@,
                ));
                done.map_values(decode()).lemma_filter_push(text@, not_blank());
            }
            let ghost before = found@;
            if !is_blank_text(text.as_str()) {
                found.push(text);
                proof {
                    assert(texts(found@) =~= texts(before).push(text@));
                }
            }
            proof {
                done = done.push(line);
            }
            start = i + 1;
        }
        i = i + 1;
    }
    proof {
        let rest = bytes@.skip(start as int);
        assert forall|k: int| 0 <= k < rest.len() implies rest[k] != NEWLINE by {
            assert(rest[k] == bytes@[start + k]);
        }
        lemma_first_break_is(rest, NEWLINE, rest.len() as int);
        assert(done + closed_lines(rest, NEWLINE, CARRIAGE_RETURN) =~= done);
    }
    (found, start)
}

/// Whether a line of `recent` has the text `text`.
fn holds(recent: &Vec<RecentLine>, text: &String) -> (found: bool)
    ensures
        found == holds_text(entries(recent@), text@),
{
    let mut i: usize = 0;
    while i < recent.len()
        invariant
            0 <= i <= recent.len(),
            forall|k: int| 0 <= k < i ==> (#[trigger] entries(recent@)[k]).text != text@,
        decreases recent.len() - i,
    {
        if recent[i].text == *text {
            assert(entries(recent@)[i as int].text == text@);
            return true;
        }
        i = i + 1;
    }
    false
}

/// Enters the newest of `found` into `recent`, in the order of the output,
/// so that the latest comes to stand first.
fn enter_newest(recent: &mut Vec<RecentLine>, found: Vec<String>, now: u64)
    ensures
        entries(final(recent)@) == enter_all(
            entries(old(recent)@),
            newest(texts(found@), LINE_BUFFER_SIZE as int),
            now,
        ),
{
    let mut found = found;
    let ghost all = texts(found@);
    let ghost wanted = newest(all, LINE_BUFFER_SIZE as int);
    let ghost start = entries(recent@);
    let mut left = if found.len() > LINE_BUFFER_SIZE {
        let at = found.len() - LINE_BUFFER_SIZE;
        found.split_off(at)
    } else {
        found
    };
    let ghost mut done: int = 0;
    proof {
        assert(texts(left@) =~= wanted);
        assert(wanted.skip(0) =~= wanted);
        assert(wanted.take(0) =~= Seq::<Seq<char>>::empty());
    }
    while left.len() > 0
        invariant
            0 <= done <= wanted.len(),
            texts(left@) == wanted.skip(done),
            entries(recent@) == enter_all(start, wanted.take(done), now),
        decreases left.len(),
    {
        let ghost before = entries(recent@);
        let ghost strings = left@;
        let text = left.remove(0);
        proof {
            assert(texts(strings).len() == strings.len());
            assert(wanted.skip(done).len() == wanted.len() - done);
            assert(text@ == texts(strings)[0]);
            assert(wanted.skip(done)[0] == wanted[done]);
            assert(text@ == wanted[done]);
            assert forall|k: int| 0 <= k < left@.len() implies texts(left@)[k] == wanted.skip(
                done + 1,
            )[k] by {
                assert(left@[k] == strings[k + 1]);
                assert(texts(strings)[k + 1] == wanted.skip(done)[k + 1]);
            }
            assert(texts(left@) =~= wanted.skip(done + 1));
            assert(wanted.take(done + 1).drop_last() =~= wanted.take(done));
            assert(wanted.take(done + 1).last() == wanted[done]);
        }
        if !holds(recent, &text) {
            let line = RecentLine { text, seen_at: now };
            recent.insert(0, line);
            proof {
                assert(entries(recent@) =~= seq![line@] + before);
            }
        }
        proof {
            done = done + 1;
        }
    }
    proof {
        assert(wanted.take(done) =~= wanted);
    }
}

/// A buffer that holds nothing.
pub open spec fn empty_buffer() -> BufferView {
    BufferView { pending: Seq::empty(), recent: Seq::empty() }
}

/// The text of the latest line that is readable at `now`, if there is
/// one: that of the first entry of the list that is.
pub open spec fn first_live_text(recent: Seq<LineEntry>, now: u64) -> Option<Seq<char>> {
    if live(recent, now).len() > 0 {
        Some(live(recent, now)[0].text)
    } else {
        None
    }
}

/// Collects terminal output and remembers its latest lines for a while.
pub struct OutputBuffer {
    buffer: Vec<u8>,
    recent_lines: Vec<RecentLine>,
    clock: Clock,
}

impl View for OutputBuffer {
    type V = BufferView;

    closed spec fn view(&self) -> BufferView {
        BufferView { pending: self.buffer@, recent: entries(self.recent_lines@) }
    }
}

impl OutputBuffer {
    #[verifier::type_invariant]
    spec fn kept_well_formed(self) -> bool {
        well_formed(self@)
    }

    /// An empty buffer with a clock of its own.
    pub fn new() -> (buffer: Self)
        ensures
            buffer@ == empty_buffer(),
            well_formed(buffer@),
    {
        let buffer: Vec<u8> = Vec::with_capacity(MAX_BUFFER_SIZE);
        let recent_lines: Vec<RecentLine> = Vec::with_capacity(LINE_BUFFER_SIZE);
        proof {
            assert(entries(recent_lines@) =~= Seq::<LineEntry>::empty());
            assert(buffer@ =~= Seq::<u8>::empty());
        }
        OutputBuffer { buffer, recent_lines, clock: Clock::start() }
    }

    /// The time on the buffer's clock.
    pub fn now(&self) -> u64 {
        self.clock.now()
    }

    /// Forgets the pending bytes and the remembered lines.
    pub fn clear(&mut self)
        ensures
            final(self)@ == empty_buffer(),
            well_formed(final(self)@),
    {
        let buffer: Vec<u8> = Vec::new();
        let recent_lines: Vec<RecentLine> = Vec::new();
        proof {
            use_type_invariant(&*self);
            assert(entries(recent_lines@) =~= Seq::<LineEntry>::empty());
            assert(buffer@ =~= Seq::<u8>::empty());
        }
        self.buffer = buffer;
        self.recent_lines = recent_lines;
    }

    /// Takes in bytes that hold no escape sequences, at the time `now`:
    /// cuts the collected bytes back if they are too many, drops the lines
    /// whose time is over, and enters the texts of the newly closed lines.
    pub fn append_stripped(&mut self, stripped: &[u8], now: u64)
        ensures
            final(self)@ == absorb(old(self)@, stripped@, now),
            well_formed(final(self)@),
    {
        proof {
            use_type_invariant(&*self);
            lemma_absorb_well_formed(self@, stripped@, now);
        }
        let mut bytes: Vec<u8> = Vec::new();
        core::mem::swap(&mut self.buffer, &mut bytes);
        bytes.extend_from_slice(stripped);
        assert(bytes@ =~= old(self)@.pending + stripped@);
        if bytes.len() > MAX_BUFFER_SIZE {
            let start = bytes.len() - MAX_BUFFER_SIZE / 2;
            bytes = bytes.split_off(start);
        }
        let ghost collected = bytes@;
        assert(collected =~= trimmed(old(self)@.pending + stripped@));
        let mut recent: Vec<RecentLine> = Vec::new();
        core::mem::swap(&mut self.recent_lines, &mut recent);
        retain_live(&mut recent, now);
        let (found, rest_start) = cut_lines(&bytes);
        enter_newest(&mut recent, found, now);
        let ghost entered = entries(recent@);
        recent.truncate(LINE_BUFFER_SIZE);
        let rest = bytes.split_off(rest_start);
        proof {
            assert(rest@ =~= open_line(collected, NEWLINE));
            assert(entries(recent@) =~= capped(entered, LINE_BUFFER_SIZE as int));
        }
        self.buffer = rest;
        self.recent_lines = recent;
    }

    /// Takes in a chunk of terminal output at the time `now`, escape
    /// sequences stripped first.
    pub fn append_at(&mut self, data: &[u8], now: u64)
        ensures
            final(self)@ == absorb(old(self)@, ansi_stripped(data@), now),
            well_formed(final(self)@),
    {
        let stripped = strip_ansi(data);
        self.append_stripped(stripped.as_slice(), now);
    }

    /// The lines that are readable at `now`, in the order of the list, with
    /// a line break between each two. This is the window that the
    /// classifier looks at.
    pub fn get_recent_text_at(&self, now: u64) -> (window: String)
        ensures
            window@ == joined(live_texts(self@.recent, now)),
    {
        let mut window = String::new();
        let mut any = false;
        let mut i: usize = 0;
        let ghost all = entries(self.recent_lines@);
        proof {
            reveal(Seq::filter);
            assert(all.take(0).len() == 0);
            assert(live_texts(all.take(0), now) =~= Seq::<Seq<char>>::empty());
        }
        while i < self.recent_lines.len()
            invariant
                0 <= i <= self.recent_lines.len(),
                all == entries(self.recent_lines@),
                any == (live_texts(all.take(i as int), now).len() > 0),
                window@ == joined(live_texts(all.take(i as int), now)),
            decreases self.recent_lines.len() - i,
        {
            let ghost before = live_texts(all.take(i as int), now);
            proof {
                assert(all.take(i + 1) =~= all.take(i as int).push(all[i as int]));
                all.take(i as int).lemma_filter_push(all[i as int], live_at(now));
            }
            if elapsed_nanos(now, self.recent_lines[i].seen_at) < LINE_TTL_NANOS {
                proof {
                    let after = live_texts(all.take(i + 1), now);
                    assert(after =~= before.push(all[i as int].text));
                    assert(after.drop_last() =~= before);
                    reveal_strlit("\n");
                    assert("\n"@ =~= seq!['\n']);
                }
                if any {
                    window.append("\n");
                }
                window.append(self.recent_lines[i].text.as_str());
                any = true;
                proof {
                    let after = live_texts(all.take(i + 1), now);
                    if before.len() == 0 {
                        assert(window@ =~= after[0]);
                    } else {
                        assert(window@ =~= joined(before) + seq!['\n'] + after.last());
                    }
                }
            } else {
                proof {
                    assert(live_texts(all.take(i + 1), now) =~= before);
                }
            }
            i = i + 1;
        }
        proof {
            assert(all.take(i as int) =~= all);
        }
        window
    }

    /// The lines that are readable at the time the buffer's clock shows.
    pub fn get_recent_text(&self) -> (window: String)
        ensures
            exists|now: u64| window@ == joined(live_texts(self@.recent, now)),
    {
        let now = self.clock.now();
        self.get_recent_text_at(now)
    }

    /// The latest line that is readable at `now`: the first line of the
    /// window that [`OutputBuffer::get_recent_text_at`] gives.
    pub fn get_last_line_at(&self, now: u64) -> (line: Option<&str>)
        ensures
            line is Some <==> first_live_text(self@.recent, now) is Some,
            line matches Some(text) ==> first_live_text(self@.recent, now) == Some(text@),
    {
        let mut i: usize = 0;
        let ghost all = entries(self.recent_lines@);
        proof {
            reveal(Seq::filter);
            assert(all.take(0).len() == 0);
        }
        while i < self.recent_lines.len()
            invariant
                0 <= i <= self.recent_lines.len(),
                all == entries(self.recent_lines@),
                live(all.take(i as int), now).len() == 0,
            decreases self.recent_lines.len() - i,
        {
            proof {
                assert(all.take(i + 1) =~= all.take(i as int).push(all[i as int]));
                all.take(i as int).lemma_filter_push(all[i as int], live_at(now));
            }
            if elapsed_nanos(now, self.recent_lines[i].seen_at) < LINE_TTL_NANOS {
                proof {
                    let head = all.take(i + 1);
                    let tail = all.skip(i + 1);
                    assert(all =~= head + tail);
                    Seq::filter_distributes_over_add(head, tail, live_at(now));
                    assert(live(head, now) =~= seq![all[i as int]]);
                    assert(live(all, now)[0] == all[i as int]);
                }
                return Some(self.recent_lines[i].text.as_str());
            }
            i = i + 1;
        }
        proof {
            assert(all.take(i as int) =~= all);
        }
        None
    }

    /// The latest line that is readable at the time
    /// the buffer's clock shows.
    pub fn get_last_line(&self) -> (line: Option<&str>)
        ensures
            exists|now: u64|
                (line is Some <==> first_live_text(self@.recent, now) is Some) && (line matches Some(
                    text,
                ) ==> first_live_text(self@.recent, now) == Some(text@)),
    {
        let now = self.clock.now();
        self.get_last_line_at(now)
    }

    /// Takes in a chunk of terminal output at the time the buffer's clock
    /// shows.
    pub fn append(&mut self, data: &[u8])
        ensures
            exists|now: u64| final(self)@ == absorb(old(self)@, ansi_stripped(data@), now),
            well_formed(final(self)@),
    {
        let stripped = strip_ansi(data);
        let now = self.clock.now();
        self.append_stripped(stripped.as_slice(), now);
    }
}

impl Default for OutputBuffer {
    fn default() -> (buffer: Self)
        ensures
            buffer@ == empty_buffer(),
            well_formed(buffer@),
    {
        OutputBuffer::new()
    }
}

} // verus!
