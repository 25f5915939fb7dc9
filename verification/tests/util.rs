use verse_lsp::util::get_word_at_cursor;

#[test]
fn test_word_in_middle() {
    let (w, s, e) = get_word_at_cursor("foo Bar baz", 5).unwrap();
    assert_eq!(w, "Bar");
    assert_eq!(s, 4);
    assert_eq!(e, 7);
}

#[test]
fn test_word_at_start() {
    let (w, _, _) = get_word_at_cursor("MyClass : something", 0).unwrap();
    assert_eq!(w, "MyClass");
}

#[test]
fn test_cursor_on_space_returns_none() {
    assert!(get_word_at_cursor("foo bar", 3).is_none());
}

#[test]
fn test_column_beyond_line_returns_none() {
    assert!(get_word_at_cursor("foo", 100).is_none());
}

#[test]
fn word_offsets_are_bytes() {
    let (w, s, e) = get_word_at_cursor("é ab_1 x", 4).unwrap();
    assert_eq!(w, "ab_1");
    assert_eq!((s, e), (3, 7));
}

#[test]
fn cursor_on_digit_gives_none() {
    assert!(get_word_at_cursor("x1", 1).is_none());
}

#[test]
fn cursor_inside_multibyte_char_gives_none() {
    assert!(get_word_at_cursor("éa", 1).is_none());
}
