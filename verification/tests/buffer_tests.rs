use boop_pty::detector::buffer::{LINE_BUFFER_SIZE, LINE_TTL_NANOS, MAX_BUFFER_SIZE};
use boop_pty::detector::OutputBuffer;

#[test]
fn test_buffer_append() {
    let mut buffer = OutputBuffer::new();
    buffer.append(b"Hello, World!\n");
    assert_eq!(buffer.get_last_line(), Some("Hello, World!"));
}

#[test]
fn test_ansi_stripping() {
    let mut buffer = OutputBuffer::new();
    buffer.append(b"\x1b[32mColored text\x1b[0m\n");
    assert_eq!(buffer.get_last_line(), Some("Colored text"));
}

#[test]
fn test_multiple_lines() {
    let mut buffer = OutputBuffer::new();
    buffer.append(b"Line 1\nLine 2\nLine 3\n");
    let text = buffer.get_recent_text();
    assert!(text.contains("Line 1"));
    assert!(text.contains("Line 2"));
    assert!(text.contains("Line 3"));
}

#[test]
fn line_expires_after_ttl_without_removal() {
    let mut buffer = OutputBuffer::new();
    buffer.append_at(b"Old line\n", 1_000);
    assert_eq!(buffer.get_last_line_at(1_000), Some("Old line"));
    assert_eq!(buffer.get_last_line_at(1_000 + LINE_TTL_NANOS - 1), Some("Old line"));

    assert_eq!(buffer.get_last_line_at(1_000 + LINE_TTL_NANOS), None);
    assert!(buffer.get_recent_text_at(1_000 + LINE_TTL_NANOS).is_empty());
    assert_eq!(buffer.get_last_line_at(1_000 + LINE_TTL_NANOS + 100_000_000), None);

    buffer.append_at(b"New line\n", 1_000 + LINE_TTL_NANOS + 100_000_000);
    assert_eq!(
        buffer.get_last_line_at(1_000 + LINE_TTL_NANOS + 100_000_000),
        Some("New line")
    );
    assert_eq!(
        buffer.get_recent_text_at(1_000 + LINE_TTL_NANOS + 100_000_000),
        "New line"
    );
}

#[test]
fn clock_running_backwards_counts_as_no_time() {
    let mut buffer = OutputBuffer::new();
    buffer.append_at(b"line\n", 5_000_000_000);
    assert_eq!(buffer.get_last_line_at(0), Some("line"));
}

#[test]
fn lines_of_one_chunk_read_latest_first() {
    let mut buffer = OutputBuffer::new();
    buffer.append_at(b"Line 1\nLine 2\nLine 3\n", 0);
    assert_eq!(buffer.get_recent_text_at(0), "Line 3\nLine 2\nLine 1");
    assert_eq!(buffer.get_last_line_at(0), Some("Line 3"));

    let mut on_the_clock = OutputBuffer::new();
    on_the_clock.append(b"Line 1\nLine 2\nLine 3\n");
    assert_eq!(on_the_clock.get_recent_text(), "Line 3\nLine 2\nLine 1");
    assert_eq!(on_the_clock.get_last_line(), Some("Line 3"));
}

#[test]
fn later_chunk_goes_in_front() {
    let mut buffer = OutputBuffer::new();
    buffer.append_at(b"first\n", 0);
    buffer.append_at(b"second\n", 10);
    assert_eq!(buffer.get_recent_text_at(10), "second\nfirst");
    assert_eq!(buffer.get_last_line_at(10), Some("second"));
}

#[test]
fn partial_line_waits_for_its_line_break() {
    let mut buffer = OutputBuffer::new();
    buffer.append_at(b"Hel", 0);
    assert_eq!(buffer.get_last_line_at(0), None);
    buffer.append_at(b"lo, Wor", 1);
    assert_eq!(buffer.get_last_line_at(1), None);
    buffer.append_at(b"ld!\nnext", 2);
    assert_eq!(buffer.get_recent_text_at(2), "Hello, World!");
    buffer.append_at(b"\n", 3);
    assert_eq!(buffer.get_recent_text_at(3), "next\nHello, World!");
}

#[test]
fn chunking_does_not_change_what_is_read() {
    let whole: &[u8] = b"alpha\nbeta\r\ngamma\n\ndelta\n";
    let mut at_once = OutputBuffer::new();
    at_once.append_stripped(whole, 0);
    assert_eq!(at_once.get_recent_text_at(0), "delta\ngamma\nbeta\nalpha");
    assert_eq!(at_once.get_last_line_at(0), Some("delta"));
    for first in 0..=whole.len() {
        for second in first..=whole.len() {
            let mut in_parts = OutputBuffer::new();
            in_parts.append_stripped(&whole[..first], 100);
            in_parts.append_stripped(&whole[first..second], 500_000_000);
            in_parts.append_stripped(&whole[second..], 1_000_000_000);
            assert_eq!(
                in_parts.get_recent_text_at(1_500_000_000),
                at_once.get_recent_text_at(1_500_000_000)
            );
            assert_eq!(
                in_parts.get_last_line_at(1_500_000_000),
                at_once.get_last_line_at(1_500_000_000)
            );
        }
    }
}

#[test]
fn blank_lines_are_dropped() {
    let mut buffer = OutputBuffer::new();
    buffer.append_stripped(b"\n   \n\t\r\n \xc2\xa0 \nvisible\n\n", 0);
    assert_eq!(buffer.get_recent_text_at(0), "visible");
}

#[test]
fn carriage_return_before_line_break_is_cut() {
    let mut buffer = OutputBuffer::new();
    buffer.append_stripped(b"dos line\r\n", 0);
    assert_eq!(buffer.get_last_line_at(0), Some("dos line"));
}

#[test]
fn invalid_utf8_is_replaced() {
    let mut buffer = OutputBuffer::new();
    buffer.append_stripped(b"bad \xff byte\n", 0);
    assert_eq!(buffer.get_last_line_at(0), Some("bad \u{fffd} byte"));
}

#[test]
fn repeated_line_is_not_entered_twice_and_keeps_its_age() {
    let mut buffer = OutputBuffer::new();
    buffer.append_at(b"tick\n", 0);
    buffer.append_at(b"tick\n", 1_500_000_000);
    assert_eq!(buffer.get_recent_text_at(1_500_000_000), "tick");
    assert_eq!(buffer.get_last_line_at(LINE_TTL_NANOS), None);
}

#[test]
fn repeated_line_within_a_chunk_is_entered_once() {
    let mut buffer = OutputBuffer::new();
    buffer.append_at(b"a\nb\na\n", 0);
    assert_eq!(buffer.get_recent_text_at(0), "b\na");
}

#[test]
fn list_never_exceeds_its_maximum() {
    let mut buffer = OutputBuffer::new();
    let mut chunk = Vec::new();
    for i in 0..25 {
        chunk.extend_from_slice(format!("line {}\n", i).as_bytes());
    }
    buffer.append_at(&chunk, 0);
    let text = buffer.get_recent_text_at(0);
    let lines: Vec<&str> = text.split('\n').collect();
    assert_eq!(lines.len(), LINE_BUFFER_SIZE);
    assert_eq!(lines[0], "line 24");
    assert_eq!(lines[9], "line 15");

    buffer.append_at(b"one more\n", 1);
    let text = buffer.get_recent_text_at(1);
    let lines: Vec<&str> = text.split('\n').collect();
    assert_eq!(lines.len(), LINE_BUFFER_SIZE);
    assert_eq!(lines[0], "one more");
    assert_eq!(lines[1], "line 24");
    assert_eq!(lines[9], "line 16");
}

#[test]
fn overlong_input_keeps_its_latest_half() {
    let mut buffer = OutputBuffer::new();
    let mut chunk = vec![b'x'; MAX_BUFFER_SIZE + 1];
    chunk.extend_from_slice(b"\n");
    buffer.append_stripped(&chunk, 0);
    let line = buffer.get_last_line_at(0).map(|s| s.to_string());
    assert_eq!(line, Some("x".repeat(MAX_BUFFER_SIZE / 2 - 1)));

    let mut small = OutputBuffer::new();
    let mut chunk = vec![b'y'; MAX_BUFFER_SIZE - 1];
    chunk.extend_from_slice(b"\n");
    small.append_stripped(&chunk, 0);
    let line = small.get_last_line_at(0).map(|s| s.to_string());
    assert_eq!(line, Some("y".repeat(MAX_BUFFER_SIZE - 1)));
}

#[test]
fn clear_forgets_everything() {
    let mut buffer = OutputBuffer::new();
    buffer.append_at(b"line\npart", 0);
    buffer.clear();
    assert_eq!(buffer.get_last_line_at(0), None);
    buffer.append_at(b"ial\n", 0);
    assert_eq!(buffer.get_last_line_at(0), Some("ial"));
}

#[test]
fn escape_sequences_never_reach_the_lines() {
    let mut buffer = OutputBuffer::new();
    buffer.append_at(b"\x1b[1;31mred\x1b[0m and \x1b[4munderlined\x1b[0m\n", 0);
    assert_eq!(buffer.get_last_line_at(0), Some("red and underlined"));
    assert_ne!(buffer.get_last_line_at(0), Some("\x1b[1;31mred\x1b[0m and \x1b[4munderlined\x1b[0m"));
}

/// A buffer that decodes the whole block of closed lines at once, cuts the
/// text into lines afterwards and then frees each of control codes.
struct BlockwiseBuffer {
    buffer: Vec<u8>,
    recent: Vec<(String, u64)>,
}

impl BlockwiseBuffer {
    fn new() -> Self {
        BlockwiseBuffer { buffer: Vec::new(), recent: Vec::new() }
    }

    fn append(&mut self, stripped: &[u8], now: u64) {
        self.buffer.extend_from_slice(stripped);
        if self.buffer.len() > MAX_BUFFER_SIZE {
            let start = self.buffer.len() - MAX_BUFFER_SIZE / 2;
            self.buffer = self.buffer[start..].to_vec();
        }
        self.recent.retain(|(_, seen)| now.saturating_sub(*seen) < LINE_TTL_NANOS);
        if let Some(last_newline) = self.buffer.iter().rposition(|&b| b == b'\n') {
            let complete = String::from_utf8_lossy(&self.buffer[..=last_newline]).into_owned();
            let mut new_lines = Vec::new();
            for line in complete.lines() {
                let line: String = line.chars().filter(|c| *c >= ' ').collect();
                if !line.trim().is_empty() {
                    new_lines.push(line);
                }
            }
            let skipped = new_lines.len().saturating_sub(LINE_BUFFER_SIZE);
            for line in new_lines.into_iter().skip(skipped) {
                if !self.recent.iter().any(|(text, _)| text == &line) {
                    self.recent.insert(0, (line, now));
                }
            }
            self.buffer = self.buffer[last_newline + 1..].to_vec();
            while self.recent.len() > LINE_BUFFER_SIZE {
                self.recent.pop();
            }
        }
    }

    fn recent_text(&self, now: u64) -> String {
        self.recent
            .iter()
            .filter(|(_, seen)| now.saturating_sub(*seen) < LINE_TTL_NANOS)
            .map(|(text, _)| text.clone())
            .collect::<Vec<_>>()
            .join("\n")
    }

    fn last_line(&self, now: u64) -> Option<&str> {
        self.recent
            .iter()
            .find(|(_, seen)| now.saturating_sub(*seen) < LINE_TTL_NANOS)
            .map(|(text, _)| text.as_str())
    }
}

struct Lcg(u64);

impl Lcg {
    fn next(&mut self, bound: u64) -> u64 {
        self.0 = self.0.wrapping_mul(6364136223846793005).wrapping_add(1442695040888963407);
        (self.0 >> 33) % bound
    }
}

fn compare_with_blockwise(seed: u64, alphabet: &[u8], max_chunk: u64, rounds: usize) {
    let mut random = Lcg(seed);
    let mut buffer = OutputBuffer::new();
    let mut model = BlockwiseBuffer::new();
    let mut now = 0u64;
    for round in 0..rounds {
        let length = random.next(max_chunk + 1);
        let mut chunk = Vec::new();
        for _ in 0..length {
            chunk.push(alphabet[random.next(alphabet.len() as u64) as usize]);
        }
        now += random.next(900_000_000);
        buffer.append_stripped(&chunk, now);
        model.append(&chunk, now);
        assert_eq!(buffer.get_recent_text_at(now), model.recent_text(now), "round {}", round);
        assert_eq!(buffer.get_last_line_at(now), model.last_line(now), "round {}", round);
        assert_eq!(
            buffer.get_last_line_at(now),
            buffer.get_recent_text_at(now).lines().next(),
            "round {}",
            round
        );
        let later = now + random.next(2_500_000_000);
        assert_eq!(buffer.get_recent_text_at(later), model.recent_text(later), "round {}", round);
    }
}

#[test]
fn line_by_line_decoding_agrees_with_decoding_the_block() {
    let alphabet: &[u8] = b"ab \t\r\n\n\xc3\xa9\xe4\xb8\x96\xff\xf0\x9f";
    for seed in 0..40 {
        compare_with_blockwise(seed, alphabet, 24, 200);
    }
}

#[test]
fn overflowing_chunks_agree_with_decoding_the_block() {
    let alphabet: &[u8] = b"abcdefgh \r\xc3\xa9\xe4\xb8\x96";
    for seed in 0..4 {
        compare_with_blockwise(seed, alphabet, 6000, 30);
    }
    let alphabet: &[u8] = b"abcdefghijklmnopqrstuvwxyz0123456789 \n\xe4\xb8\x96";
    for seed in 0..4 {
        compare_with_blockwise(seed, alphabet, 9000, 30);
    }
}

#[test]
fn control_codes_never_reach_the_lines() {
    let mut raw = OutputBuffer::new();
    raw.append_stripped(b"a\tb\x1b[0m\r\r\nc\x07\x00d\n\x01\x02\n", 0);
    assert_eq!(raw.get_recent_text_at(0), "cd\nab[0m");
    assert_eq!(raw.get_last_line_at(0), Some("cd"));

    let mut buffer = OutputBuffer::new();
    buffer.append_at(b"\x1b[1mbold\x1b[0m\tx\r\nnext\x08\x1b[K\r\n", 0);
    let window = buffer.get_recent_text_at(0);
    assert_eq!(window, "next\nboldx");
    assert!(window.chars().all(|c| c == '\n' || c >= ' '));
    assert_eq!(buffer.get_last_line_at(0), window.lines().next());
}

#[test]
fn last_line_is_the_first_line_of_the_window() {
    let mut buffer = OutputBuffer::new();
    assert_eq!(buffer.get_last_line_at(0), None);
    assert_eq!(buffer.get_recent_text_at(0), "");
    buffer.append_stripped(b"x\ny\n", 0);
    assert_eq!(buffer.get_last_line_at(0), Some("y"));
    assert_eq!(buffer.get_recent_text_at(0), "y\nx");
    buffer.append_stripped(b"a\r\r\nb\n", 1);
    assert_eq!(buffer.get_recent_text_at(1), "b\na\ny\nx");
    assert_eq!(buffer.get_last_line_at(1), buffer.get_recent_text_at(1).lines().next());
    let later = LINE_TTL_NANOS;
    assert_eq!(buffer.get_recent_text_at(later), "b\na");
    assert_eq!(buffer.get_last_line_at(later), Some("b"));
}
