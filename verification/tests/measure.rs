use headson::utils::measure::{count_output_stats, OutputStats};

fn lines(s: &str) -> usize {
    count_output_stats(s, false).lines
}

#[test]
fn an_empty_text_has_no_lines() {
    assert_eq!(count_output_stats("", true), OutputStats { bytes: 0, chars: 0, lines: 0 });
}

#[test]
fn a_text_without_breaks_is_one_line() {
    assert_eq!(count_output_stats("abc", false), OutputStats { bytes: 3, chars: 0, lines: 1 });
}

#[test]
fn each_kind_of_break_counts_once() {
    assert_eq!(lines("a\nb"), 2);
    assert_eq!(lines("a\rb"), 2);
    assert_eq!(lines("a\r\nb"), 2);
    assert_eq!(lines("a\n"), 2);
    assert_eq!(lines("\n"), 2);
    assert_eq!(lines("\r\n"), 2);
    assert_eq!(lines("\r\r\n"), 3);
    assert_eq!(lines("\n\r"), 3);
    assert_eq!(lines("a\r\n\r\nb\rc\nd"), 5);
}

#[test]
fn characters_are_counted_only_on_request() {
    let s = "h\u{e9}llo \u{1f600}\n";
    assert_eq!(count_output_stats(s, true), OutputStats { bytes: 12, chars: 8, lines: 2 });
    assert_eq!(count_output_stats(s, false), OutputStats { bytes: 12, chars: 0, lines: 2 });
}

#[test]
fn escape_sequences_are_counted_like_any_text() {
    let s = "\u{1b}[32mok\u{1b}[0m";
    assert_eq!(count_output_stats(s, true), OutputStats { bytes: 11, chars: 11, lines: 1 });
}
