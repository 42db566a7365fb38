use extension_catalog::text::{first_line, push_decimal};

#[test]
fn first_line_stops_at_the_line_feed() {
    assert_eq!(first_line("Line one\nLine two"), "Line one");
}

#[test]
fn first_line_of_a_single_line_is_the_whole_text() {
    assert_eq!(first_line("No line feed here"), "No line feed here");
}

#[test]
fn first_line_of_the_empty_text_is_empty() {
    assert_eq!(first_line(""), "");
}

#[test]
fn first_line_is_empty_when_the_text_starts_with_a_line_feed() {
    assert_eq!(first_line("\nsecond"), "");
}

#[test]
fn first_line_takes_only_the_first_of_many_lines() {
    assert_eq!(first_line("a\nb\nc\n"), "a");
}

#[test]
fn first_line_keeps_a_carriage_return() {
    assert_eq!(first_line("dos line\r\nnext"), "dos line\r");
}

#[test]
fn first_line_counts_characters_not_bytes() {
    assert_eq!(first_line("Übersicht für Käufer\nzweite Zeile"), "Übersicht für Käufer");
    assert_eq!(first_line("日本語\n二行目"), "日本語");
}

#[test]
fn push_decimal_renders_single_digits() {
    for (n, text) in [(0u32, "0"), (1, "1"), (5, "5"), (9, "9")] {
        let mut out = String::new();
        push_decimal(&mut out, n);
        assert_eq!(out, text);
    }
}

#[test]
fn push_decimal_renders_without_leading_zeros() {
    for (n, text) in [(10u32, "10"), (50, "50"), (101, "101"), (125, "125"), (1000, "1000")] {
        let mut out = String::new();
        push_decimal(&mut out, n);
        assert_eq!(out, text);
    }
}

#[test]
fn push_decimal_renders_the_largest_number() {
    let mut out = String::new();
    push_decimal(&mut out, u32::MAX);
    assert_eq!(out, "4294967295");
}

#[test]
fn push_decimal_appends_to_what_is_there() {
    let mut out = String::from("page=");
    push_decimal(&mut out, 42);
    assert_eq!(out, "page=42");
}
