use conmon_log::lines::{complete_prefix, next_line};

#[test]
fn next_line_ends_behind_the_newline() {
    assert_eq!(next_line(b"ab\ncd\n", 0), Some(3));
    assert_eq!(next_line(b"ab\ncd\n", 3), Some(6));
    assert_eq!(next_line(b"ab\ncd\n", 6), None);
    assert_eq!(next_line(b"ab\ncd", 3), None);
    assert_eq!(next_line(b"ab", 7), None);
}

#[test]
fn complete_prefix_stops_behind_the_last_newline() {
    assert_eq!(complete_prefix(b""), 0);
    assert_eq!(complete_prefix(b"abc"), 0);
    assert_eq!(complete_prefix(b"abc\n"), 4);
    assert_eq!(complete_prefix(b"abc\nde"), 4);
    assert_eq!(complete_prefix(b"\n\nx"), 2);
}
