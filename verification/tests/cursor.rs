use atlas_core::lexer::lexer_state::LexerState;
use atlas_core::lexer::test_lexer::{number, LexerState as SteppingState, TestLexer, TestSystem};
use atlas_core::utils::chars::{char_width, decimal_digit, to_chars, to_text, word_part, word_start};
use atlas_core::utils::span::{BytePos, Span};

#[test]
fn cursor_advances_by_encoded_width() {
    let input: Vec<char> = "aé€😀".chars().collect();
    let mut state = LexerState::new(BytePos(10), &input, "unit");
    assert_eq!(state.current_pos, BytePos(10));
    assert_eq!(state.path, "unit");
    assert_eq!(state.peek(), Some(&'a'));
    assert_eq!(state.current_pos, BytePos(10));
    assert_eq!(state.next(), Some('a'));
    assert_eq!(state.position(), BytePos(11));
    assert_eq!(state.next(), Some('é'));
    assert_eq!(state.position(), BytePos(13));
    assert_eq!(state.peek(), Some(&'€'));
    assert_eq!(state.next(), Some('€'));
    assert_eq!(state.position(), BytePos(16));
    assert_eq!(state.next(), Some('😀'));
    assert_eq!(state.position(), BytePos(20));
    assert_eq!(state.peek(), None);
    assert_eq!(state.next(), None);
    assert_eq!(state.position(), BytePos(20));
    assert_eq!(state.path(), "unit");
}

#[test]
fn copy_of_a_cursor_leaves_no_trace() {
    let input: Vec<char> = "ab".chars().collect();
    let state = LexerState::new(BytePos(0), &input, "unit");
    let mut trial = state;
    assert_eq!(trial.next(), Some('a'));
    assert_eq!(trial.next(), Some('b'));
    assert_eq!(state.current_pos, BytePos(0));
    assert_eq!(state.peek(), Some(&'a'));
}

#[test]
fn cursor_over_nothing() {
    let input: Vec<char> = Vec::new();
    let mut state = LexerState::new(BytePos(7), &input, "unit");
    assert_eq!(state.peek(), None);
    assert_eq!(state.next(), None);
    assert_eq!(state.current_pos, BytePos(7));
}

#[test]
fn widths_of_characters() {
    assert_eq!(char_width('\0'), 1);
    assert_eq!(char_width('\u{7f}'), 1);
    assert_eq!(char_width('\u{80}'), 2);
    assert_eq!(char_width('\u{7ff}'), 2);
    assert_eq!(char_width('\u{800}'), 3);
    assert_eq!(char_width('\u{ffff}'), 3);
    assert_eq!(char_width('\u{10000}'), 4);
    assert_eq!(char_width('\u{10ffff}'), 4);
    for c in ['a', 'é', '€', '😀', '٣'] {
        assert_eq!(char_width(c), c.len_utf8());
    }
}

#[test]
fn classes_of_characters() {
    for c in ['0', '5', '9'] {
        assert!(decimal_digit(c));
        assert!(!word_start(c));
        assert!(word_part(c));
    }
    for c in ['a', 'z', 'A', 'Z', '_', 'é', 'ß', 'λ', '中'] {
        assert!(!decimal_digit(c));
        assert!(word_start(c));
        assert!(word_part(c));
    }
    for c in ['٣', '²'] {
        assert!(!decimal_digit(c));
        assert!(!word_start(c));
        assert!(word_part(c));
    }
    for c in [' ', '+', '/', ':', '@', '[', '`', '{', '\u{7f}', '€', '😀'] {
        assert!(!decimal_digit(c));
        assert!(!word_start(c));
        assert!(!word_part(c));
    }
}

#[test]
fn text_and_characters_convert_both_ways() {
    assert_eq!(to_chars("aé€"), vec!['a', 'é', '€']);
    assert_eq!(to_chars(""), Vec::<char>::new());
    assert_eq!(to_text(&['a', 'é', '€']), "aé€");
    assert_eq!(to_text(&[]), "");
}

#[test]
fn positions_and_spans() {
    assert_eq!(BytePos(3).shift_by(4), BytePos(7));
    assert_eq!(BytePos::from(5), BytePos(5));
    assert_eq!(usize::from(BytePos(5)), 5);
    assert_eq!(BytePos::default(), BytePos(0));
    let span = Span::new(BytePos(2), BytePos(6), "unit");
    assert_eq!(span, Span { start: BytePos(2), end: BytePos(6), path: "unit" });
    assert_eq!(span.len(), 4);
    let empty = Span::empty_at(BytePos(6), "unit");
    assert_eq!(empty, Span { start: BytePos(6), end: BytePos(6), path: "unit" });
    assert_eq!(empty.len(), 0);
}

#[test]
fn stepping_cursor_looks_then_keeps() {
    let input = ['a', 'b', 'c'];
    let mut state = SteppingState::new(BytePos(0), &input, false);
    assert_eq!(state.peek(), Some(&'b'));
    assert_eq!(state.next(), Some('b'));
    assert_eq!(state.current_pos, BytePos(0));
    assert_eq!(state.next(), Some('b'));
    state.keep();
    assert_eq!(state.current_pos, BytePos(1));
    state.keep();
    assert_eq!(state.current_pos, BytePos(1));
    assert_eq!(state.next(), Some('c'));
    state.keep();
    assert_eq!(state.position(), BytePos(2));
    assert_eq!(state.next(), None);
    assert_eq!(state.peek(), None);
    state.keep();
    assert_eq!(state.current_pos, BytePos(2));
}

#[test]
fn stepping_cursor_starts_with_a_step_to_keep() {
    let input = ['a', 'b'];
    let mut state = SteppingState::new(BytePos(0), &input, true);
    state.keep();
    assert_eq!(state.current_pos, BytePos(1));
    let mut far = SteppingState::new(BytePos(usize::MAX), &input, false);
    assert_eq!(far.next(), None);
    assert_eq!(far.peek(), None);
}

#[test]
fn number_reader_returns_the_text() {
    for (text, expected, last) in [
        ("536.1", "536.1", 4),
        ("536.1.2", "536.1", 4),
        ("536.", "536", 2),
        ("536.x", "536", 2),
        ("7", "7", 0),
        ("7+1", "7", 0),
        ("12ab", "12", 1),
    ] {
        let input: Vec<char> = text.chars().collect();
        let mut state = SteppingState::new(BytePos(0), &input, false);
        assert_eq!(number(input[0], &mut state), Some(String::from(expected)));
        assert_eq!(state.current_pos, BytePos(last));
    }
    let input = ['x', '1'];
    let mut state = SteppingState::new(BytePos(0), &input, false);
    assert_eq!(number('x', &mut state), None);
    assert_eq!(state.current_pos, BytePos(0));
    let mut state = SteppingState::new(BytePos(1), &input, false);
    assert_eq!(number('1', &mut state), Some(String::from("1")));
}

#[test]
fn test_lexer_without_readers_reads_nothing() {
    let mut lex = TestLexer::new();
    assert_eq!(lex.it, vec!['5', '3', '6', '.', '1']);
    assert_eq!(lex.current_pos, BytePos(0));
    assert_eq!(lex.tokenize(), None);
    lex.add_system(TestSystem::Number);
    assert_eq!(lex.tokenize(), Some(String::from("536.1")));
    assert_eq!(lex.current_pos, BytePos(0));
    lex.current_pos = BytePos(3);
    assert_eq!(lex.tokenize(), None);
    lex.current_pos = BytePos(4);
    assert_eq!(lex.tokenize(), Some(String::from("1")));
    lex.current_pos = BytePos(5);
    assert_eq!(lex.tokenize(), None);
}

#[test]
fn cursor_is_refused_where_the_end_does_not_fit() {
    let input = ['a', 'b'];
    let state = LexerState::try_new(BytePos(usize::MAX - 2), &input, "unit").unwrap();
    assert_eq!(state.current_pos, BytePos(usize::MAX - 2));
    assert_eq!(state.peek(), Some(&'a'));
    assert!(LexerState::try_new(BytePos(usize::MAX - 1), &input, "unit").is_none());
    assert!(LexerState::try_new(BytePos(usize::MAX - 2), &['é', 'a'], "unit").is_none());
    assert!(LexerState::try_new(BytePos(usize::MAX), &[], "unit").is_some());
    let mut last = LexerState::try_new(BytePos(usize::MAX - 3), &['€'], "unit").unwrap();
    assert_eq!(last.next(), Some('€'));
    assert_eq!(last.current_pos, BytePos(usize::MAX));
}
