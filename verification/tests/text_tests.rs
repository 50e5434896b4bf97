use boop_pty::clock::{elapsed_nanos, time_stamp, Clock};
use boop_pty::detector::text::{char_is_whitespace, chars_of, is_blank_text};
use boop_pty::ipc::json::{push_decimal, push_signed_decimal};

#[test]
fn white_space_is_what_unicode_says() {
    let mut c = '\0';
    loop {
        assert_eq!(char_is_whitespace(c), c.is_whitespace(), "{:?}", c);
        if c == char::MAX {
            break;
        }
        c = match char::from_u32(c as u32 + 1) {
            Some(next) => next,
            // step over the surrogates
            None => '\u{e000}',
        };
    }
}

#[test]
fn blank_text_is_text_that_trims_to_nothing() {
    for text in ["", " ", "\t\r\n", "\u{a0}\u{2003}\u{3000}", " x ", "x", "\u{200b}", "\u{feff}"] {
        assert_eq!(is_blank_text(text), text.trim().is_empty(), "{:?}", text);
    }
    assert!(is_blank_text(""));
    assert!(is_blank_text(" \t "));
    assert!(!is_blank_text(" . "));
}

#[test]
fn characters_come_out_in_order() {
    assert_eq!(chars_of("a\u{e9}\u{4e16}\u{1f600}z"), vec!['a', '\u{e9}', '\u{4e16}', '\u{1f600}', 'z']);
    assert_eq!(chars_of(""), Vec::<char>::new());
}

#[test]
fn numbers_render_in_decimal() {
    for n in [0u64, 1, 9, 10, 11, 99, 100, 101, 12345, 1_000_000, u32::MAX as u64, u64::MAX] {
        let mut out = String::from("n=");
        push_decimal(&mut out, n);
        assert_eq!(out, format!("n={}", n));
    }
    for n in [0i64, 1, -1, 9, -9, 10, -10, 2147483647, -2147483648, i64::MAX, i64::MIN] {
        let mut out = String::from("n=");
        push_signed_decimal(&mut out, n);
        assert_eq!(out, format!("n={}", n));
    }
}

#[test]
fn elapsed_time_saturates_at_zero() {
    assert_eq!(elapsed_nanos(10, 3), 7);
    assert_eq!(elapsed_nanos(3, 3), 0);
    assert_eq!(elapsed_nanos(3, 10), 0);
    assert_eq!(elapsed_nanos(u64::MAX, 0), u64::MAX);
}

#[test]
fn clock_does_not_run_backwards() {
    let clock = Clock::start();
    let mut last = clock.now();
    for _ in 0..1000 {
        let now = clock.now();
        assert!(now >= last);
        last = now;
    }
}

#[test]
fn time_stamp_is_held_at_its_maximum() {
    assert_eq!(time_stamp(0), 0);
    assert_eq!(time_stamp(1_500_000_000), 1_500_000_000);
    assert_eq!(time_stamp(u64::MAX as u128), u64::MAX);
    assert_eq!(time_stamp(u64::MAX as u128 + 1), u64::MAX);
    assert_eq!(time_stamp(u128::MAX), u64::MAX);
}
