use packetsmith::buffer::{tokenize_json, SyntaxTokenType, TextBuffer, TextPosition};

#[test]
fn test_text_buffer_insert_and_backspace() {
    let mut buffer = TextBuffer::new();
    buffer.insert_text("hello");
    assert_eq!(buffer.to_string(), "hello");
    assert_eq!(buffer.cursor(), TextPosition::new(0, 5));

    buffer.backspace();
    assert_eq!(buffer.to_string(), "hell");
}

#[test]
fn test_bracket_matching() {
    let buffer = TextBuffer::from_text("{\"key\": [1, 2]}");
    let mut b2 = buffer.clone();
    b2.set_cursor(TextPosition::new(0, 0));
    assert_eq!(b2.find_matching_bracket(), Some(TextPosition::new(0, 14)));

    b2.set_cursor(TextPosition::new(0, 8));
    assert_eq!(b2.find_matching_bracket(), Some(TextPosition::new(0, 13)));

    b2.set_cursor(TextPosition::new(0, 14));
    assert_eq!(b2.find_matching_bracket(), Some(TextPosition::new(0, 0)));

    b2.set_cursor(TextPosition::new(0, 13));
    assert_eq!(b2.find_matching_bracket(), Some(TextPosition::new(0, 8)));
}

#[test]
fn test_search() {
    let buffer = TextBuffer::from_text("apple banana apple");
    let matches = buffer.search("apple");
    assert_eq!(matches.len(), 2);
    assert_eq!(matches[0], TextPosition::new(0, 0));
    assert_eq!(matches[1], TextPosition::new(0, 13));
}

#[test]
fn undo_reverts_typed_text() {
    let mut buffer = TextBuffer::from_text("ab\ncd");
    buffer.set_cursor(TextPosition::new(1, 1));
    buffer.insert_text("XYZ");
    assert_eq!(buffer.to_string(), "ab\ncXYZd");
    buffer.undo();
    assert_eq!(buffer.to_string(), "ab\ncd");
    assert_eq!(buffer.cursor(), TextPosition::new(1, 1));
}

#[test]
fn undo_reverts_a_line_break() {
    let mut buffer = TextBuffer::from_text("hello world");
    buffer.set_cursor(TextPosition::new(0, 5));
    buffer.insert_newline();
    assert_eq!(buffer.lines(), vec!["hello".to_string(), " world".to_string()]);
    assert_eq!(buffer.cursor(), TextPosition::new(1, 0));
    buffer.undo();
    assert_eq!(buffer.lines(), vec!["hello world".to_string()]);
    assert_eq!(buffer.cursor(), TextPosition::new(0, 5));
}

#[test]
fn undo_reverts_backspace_joining_lines() {
    let mut buffer = TextBuffer::from_text("one\ntwo");
    buffer.set_cursor(TextPosition::new(1, 0));
    buffer.backspace();
    assert_eq!(buffer.line_count(), 1);
    assert_eq!(buffer.to_string(), "onetwo");
    assert_eq!(buffer.cursor(), TextPosition::new(0, 3));
    buffer.undo();
    assert_eq!(buffer.to_string(), "one\ntwo");
}

#[test]
fn cursor_is_clamped_into_the_buffer() {
    let mut buffer = TextBuffer::from_text("ab\nc");
    buffer.set_cursor(TextPosition::new(9, 9));
    assert_eq!(buffer.cursor(), TextPosition::new(1, 1));
    buffer.set_cursor(TextPosition::new(0, 7));
    assert_eq!(buffer.cursor(), TextPosition::new(0, 2));
    assert!(buffer.selection().is_none());
}

#[test]
fn typing_a_line_feed_splits_the_line() {
    let mut buffer = TextBuffer::new();
    buffer.insert_char('a');
    buffer.insert_char('\n');
    buffer.insert_char('b');
    assert_eq!(buffer.lines(), vec!["a".to_string(), "b".to_string()]);
    assert!(!buffer.delete_selection());
}

#[test]
fn brackets_without_partner_find_nothing() {
    let mut buffer = TextBuffer::from_text("(a\nb");
    buffer.set_cursor(TextPosition::new(0, 0));
    assert_eq!(buffer.find_matching_bracket(), None);
    buffer.set_cursor(TextPosition::new(0, 1));
    assert_eq!(buffer.find_matching_bracket(), None);
    let mut nested = TextBuffer::from_text("f(x, (y)\n)");
    nested.set_cursor(TextPosition::new(1, 0));
    assert_eq!(nested.find_matching_bracket(), Some(TextPosition::new(0, 1)));
}

#[test]
fn search_does_not_overlap_and_ignores_empty_queries() {
    let buffer = TextBuffer::from_text("aaaa\nxaa");
    assert_eq!(
        buffer.search("aa"),
        vec![TextPosition::new(0, 0), TextPosition::new(0, 2), TextPosition::new(1, 1)]
    );
    assert!(buffer.search("").is_empty());
}

#[test]
fn json_tokens_mark_strings_and_punctuation() {
    let tokens = tokenize_json("{\"a\": [1]}");
    let kinds: Vec<(SyntaxTokenType, usize, usize)> =
        tokens.iter().map(|t| (t.token_type, t.start_col, t.end_col)).collect();
    assert_eq!(
        kinds,
        vec![
            (SyntaxTokenType::Punctuation, 0, 1),
            (SyntaxTokenType::String, 1, 4),
            (SyntaxTokenType::Punctuation, 4, 5),
            (SyntaxTokenType::Punctuation, 6, 7),
            (SyntaxTokenType::Punctuation, 8, 9),
            (SyntaxTokenType::Punctuation, 9, 10),
        ]
    );
}

#[test]
fn columns_count_bytes_of_utf8() {
    let mut buffer = TextBuffer::new();
    buffer.insert_text("é");
    assert_eq!(buffer.cursor(), TextPosition::new(0, 2));
    buffer.insert_text("a");
    assert_eq!(buffer.cursor(), TextPosition::new(0, 3));
    buffer.set_cursor(TextPosition::new(0, 2));
    assert_eq!(buffer.cursor(), TextPosition::new(0, 2));
    buffer.insert_newline();
    assert_eq!(buffer.to_string(), "é\na");
    assert_eq!(buffer.lines(), vec!["é".to_string(), "a".to_string()]);

    let mut clamped = TextBuffer::from_text("día");
    clamped.set_cursor(TextPosition::new(0, 99));
    assert_eq!(clamped.cursor(), TextPosition::new(0, 4));
    clamped.backspace();
    assert_eq!(clamped.to_string(), "dí");
    assert_eq!(clamped.cursor(), TextPosition::new(0, 3));
    clamped.undo();
    assert_eq!(clamped.to_string(), "día");
}

#[test]
fn undo_of_text_with_wide_characters_removes_its_bytes() {
    let mut buffer = TextBuffer::from_text("ab");
    buffer.set_cursor(TextPosition::new(0, 1));
    buffer.insert_text("ñü");
    assert_eq!(buffer.to_string(), "añüb");
    assert_eq!(buffer.cursor(), TextPosition::new(0, 5));
    buffer.undo();
    assert_eq!(buffer.to_string(), "ab");
    assert_eq!(buffer.cursor(), TextPosition::new(0, 1));
}

#[test]
fn search_reports_byte_columns() {
    let buffer = TextBuffer::from_text("héllo wörld wö");
    let matches = buffer.search("wö");
    assert_eq!(matches, vec![TextPosition::new(0, 7), TextPosition::new(0, 14)]);
}

#[test]
fn a_buffer_gives_back_the_text_it_was_made_from() {
    for text in ["", "one line", "a\nb\n\nc", "é\n{ \"k\": 1 }"] {
        let b = TextBuffer::from_text(text);
        assert_eq!(b.to_string(), text);
        assert_eq!(b.line_count(), text.split('\n').count());
        assert_eq!(b.cursor(), TextPosition::new(0, 0));
        assert_eq!(b.selection(), None);
    }
}

#[test]
fn undo_can_be_checked_before_it_runs() {
    let mut buffer = TextBuffer::from_text("é");
    assert!(buffer.can_undo());
    assert!(buffer.is_valid_pos(TextPosition::new(0, 0)));
    assert!(!buffer.is_valid_pos(TextPosition::new(0, 1)));
    assert!(buffer.is_valid_pos(TextPosition::new(0, 2)));
    assert!(!buffer.is_valid_pos(TextPosition::new(1, 0)));
    buffer.set_cursor(TextPosition::new(0, 2));
    buffer.insert_text("x");
    assert!(buffer.can_undo());
    buffer.undo();
    assert_eq!(buffer.to_string(), "é");
}
