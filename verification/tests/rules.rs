use atlas_core::interfaces::error::Error;
use atlas_core::interfaces::lexer::lexer_errors::{Fault, LexicalError};
use atlas_core::interfaces::lexer::token::{Literal, Symbol, Token, TokenKind};
use atlas_core::lexer::config::{
    EitherSymbol, LexerConfig, NumericSuffix, NumericType, SingleSymbol,
};
use atlas_core::lexer::keyword::default_keyword;
use atlas_core::lexer::lexer_state::LexerState;
use atlas_core::lexer::number::{
    default_number, make_literal, parse_decimal, take_suffix, take_text,
};
use atlas_core::lexer::scan::{take_run, CharClass};
use atlas_core::lexer::string::default_string;
use atlas_core::lexer::symbol::default_symbol;
use atlas_core::lexer::whitespace::default_whitespace;
use atlas_core::lexer::{attempt_all, run_system};
use atlas_core::lexer::model::System;
use atlas_core::utils::span::{BytePos, Span, Spanned};
use internment::Intern;

fn chars(text: &str) -> Vec<char> {
    text.chars().collect()
}

fn span(start: usize, end: usize) -> Span {
    Span { start: BytePos(start), end: BytePos(end), path: "unit" }
}

fn name(text: &str) -> Intern<String> {
    Intern::new(text.to_string())
}

fn config() -> LexerConfig {
    LexerConfig::new(
        vec![SingleSymbol { key: '+', symbol: Symbol::Plus }],
        vec![
            EitherSymbol {
                first: '-',
                second: '>',
                combined: Symbol::RArrow,
                fallback: Symbol::Minus,
            },
            EitherSymbol {
                first: '.',
                second: '.',
                combined: Symbol::DoubleDot,
                fallback: Symbol::Dot,
            },
        ],
        &["let", "été"],
        vec![
            NumericSuffix::new("_u8", NumericType::U8),
            NumericSuffix::new("_i8", NumericType::I8),
            NumericSuffix::new("_i16", NumericType::I16),
            NumericSuffix::new("_i32", NumericType::I32),
            NumericSuffix::new("_i64", NumericType::I64),
            NumericSuffix::new("_i128", NumericType::I128),
            NumericSuffix::new("_u16", NumericType::U16),
            NumericSuffix::new("_u32", NumericType::U32),
            NumericSuffix::new("_u64", NumericType::U64),
            NumericSuffix::new("_u128", NumericType::U128),
            NumericSuffix::new("f", NumericType::F32),
            NumericSuffix::new("d", NumericType::F64),
        ],
        false,
        '"',
    )
    .unwrap()
}

fn number(text: &str) -> (Result<Option<Token>, LexicalError>, usize) {
    let input = chars(text);
    let mut state = LexerState::new(BytePos(0), &input, "unit");
    let result = default_number(input[0], &mut state, &config());
    (result, state.current_pos.0)
}

fn literal(text: &str) -> Literal {
    match number(text).0 {
        Ok(Some(token)) => match token.kind() {
            TokenKind::Literal(literal) => literal,
            other => panic!("not a literal: {:?}", other),
        },
        other => panic!("not accepted: {:?}", other),
    }
}

#[test]
fn whitespace_rule_reads_one_blank() {
    for (text, kind) in [
        (" x", TokenKind::WhiteSpace),
        ("\tx", TokenKind::Tabulation),
        ("\nx", TokenKind::NewLine),
        ("\r\n", TokenKind::CarriageReturn),
    ] {
        let input = chars(text);
        let mut state = LexerState::new(BytePos(4), &input, "unit");
        let result = default_whitespace(input[0], &mut state);
        assert_eq!(result, Ok(Some(Token::new(span(4, 5), kind))));
        assert_eq!(state.current_pos, BytePos(5));
        assert_eq!(state.peek(), Some(&input[1]));
    }
}

#[test]
fn whitespace_rule_declines_the_rest() {
    let input = chars("x ");
    let mut state = LexerState::new(BytePos(0), &input, "unit");
    assert_eq!(default_whitespace('x', &mut state), Ok(None));
    assert_eq!(state.current_pos, BytePos(0));
    assert_eq!(state.peek(), Some(&'x'));
}

#[test]
fn symbol_rule_pairs_and_singles() {
    let config = config();
    for (text, symbol, end) in [
        ("->x", Symbol::RArrow, 2),
        ("-x", Symbol::Minus, 1),
        ("-", Symbol::Minus, 1),
        ("..", Symbol::DoubleDot, 2),
        (".-", Symbol::Dot, 1),
        ("+>", Symbol::Plus, 1),
    ] {
        let input = chars(text);
        let mut state = LexerState::new(BytePos(0), &input, "unit");
        let result = default_symbol(input[0], &mut state, &config);
        assert_eq!(result, Ok(Some(Token::new(span(0, end), TokenKind::Symbol(symbol)))));
        assert_eq!(state.current_pos, BytePos(end));
    }
}

#[test]
fn symbol_rule_declines_unmapped_characters() {
    let input = chars(">-");
    let mut state = LexerState::new(BytePos(0), &input, "unit");
    assert_eq!(default_symbol('>', &mut state, &config()), Ok(None));
    assert_eq!(state.current_pos, BytePos(0));
}

#[test]
fn keyword_rule_reads_a_whole_word() {
    let config = config();
    let input = chars("let_1 x");
    let mut state = LexerState::new(BytePos(0), &input, "unit");
    let result = default_keyword('l', &mut state, &config);
    assert_eq!(
        result,
        Ok(Some(Token::new(span(0, 5), TokenKind::Literal(Literal::Identifier(name("let_1"))))))
    );
    let input = chars("let x");
    let mut state = LexerState::new(BytePos(0), &input, "unit");
    let result = default_keyword('l', &mut state, &config);
    assert_eq!(result, Ok(Some(Token::new(span(0, 3), TokenKind::Keyword(name("let"))))));
    assert_eq!(state.peek(), Some(&' '));
}

#[test]
fn keyword_rule_knows_letters_beyond_ascii() {
    let config = config();
    let input = chars("été+");
    let mut state = LexerState::new(BytePos(0), &input, "unit");
    let result = default_keyword('é', &mut state, &config);
    assert_eq!(result, Ok(Some(Token::new(span(0, 5), TokenKind::Keyword(name("été"))))));
    let input = chars("x٣é y");
    let mut state = LexerState::new(BytePos(0), &input, "unit");
    let result = default_keyword('x', &mut state, &config);
    assert_eq!(
        result,
        Ok(Some(Token::new(span(0, 5), TokenKind::Literal(Literal::Identifier(name("x٣é"))))))
    );
}

#[test]
fn keyword_rule_declines_digits_and_signs() {
    let config = config();
    for text in ["1a", "+a", "٣a", "€"] {
        let input = chars(text);
        let mut state = LexerState::new(BytePos(0), &input, "unit");
        assert_eq!(default_keyword(input[0], &mut state, &config), Ok(None));
        assert_eq!(state.current_pos, BytePos(0));
    }
}

#[test]
fn string_rule_reads_up_to_the_next_quote() {
    let config = config();
    let input = chars("\"a b\\ü\" x");
    let mut state = LexerState::new(BytePos(1), &input, "unit");
    let result = default_string('"', &mut state, &config);
    assert_eq!(
        result,
        Ok(Some(Token::new(
            span(1, 9),
            TokenKind::Literal(Literal::StringLiteral(name("a b\\ü")))
        )))
    );
    assert_eq!(state.peek(), Some(&' '));
    let input = chars("\"\"");
    let mut state = LexerState::new(BytePos(0), &input, "unit");
    let result = default_string('"', &mut state, &config);
    assert_eq!(
        result,
        Ok(Some(Token::new(span(0, 2), TokenKind::Literal(Literal::StringLiteral(name(""))))))
    );
}

#[test]
fn string_rule_reports_a_missing_quote() {
    let config = config();
    for text in ["\"abc", "\""] {
        let input = chars(text);
        let mut state = LexerState::new(BytePos(0), &input, "unit");
        let error = default_string('"', &mut state, &config).unwrap_err();
        assert_eq!(
            error,
            LexicalError::new(Fault::UnterminatedString, span(0, text.len()), false)
        );
        assert_eq!(error.code(), 2);
        assert_eq!(error.message(), "unterminated string literal");
        assert_eq!(error.help(), Some(String::from("add the closing quote")));
    }
    let input = chars("'a'");
    let mut state = LexerState::new(BytePos(0), &input, "unit");
    assert_eq!(default_string('\'', &mut state, &config), Ok(None));
}

#[test]
fn string_rule_uses_the_configured_quote() {
    let config = LexerConfig::new(vec![], vec![], &[], vec![], false, '\'').unwrap();
    let input = chars("'a\"b'");
    let mut state = LexerState::new(BytePos(0), &input, "unit");
    let result = default_string('\'', &mut state, &config);
    assert_eq!(
        result,
        Ok(Some(Token::new(span(0, 5), TokenKind::Literal(Literal::StringLiteral(name("a\"b"))))))
    );
}

#[test]
fn number_rule_reads_integers() {
    assert_eq!(number("0"), (Ok(Some(Token::new(span(0, 1), TokenKind::Literal(Literal::Int(0))))), 1));
    assert_eq!(literal("007"), Literal::Int(7));
    assert_eq!(literal("9223372036854775807"), Literal::Int(i64::MAX));
    assert_eq!(number("42abc").1, 2);
    assert_eq!(literal("42abc"), Literal::Int(42));
    assert_eq!(number("42.").1, 2);
    assert_eq!(number("42.x").1, 2);
    assert_eq!(number("42..5").1, 2);
}

#[test]
fn number_rule_reads_fractions() {
    assert_eq!(literal("3.25"), Literal::Float(name("3.25")));
    assert_eq!(number("3.25.1").1, 4);
    assert_eq!(literal("3.25.1"), Literal::Float(name("3.25")));
    assert_eq!(literal("10.0f"), Literal::F32(name("10.0")));
    assert_eq!(literal("10d"), Literal::F64(name("10")));
    assert_eq!(number("10.5d").1, 5);
}

#[test]
fn number_rule_reads_typed_integers() {
    assert_eq!(literal("255_u8"), Literal::U8(255));
    assert_eq!(literal("127_i8"), Literal::I8(127));
    assert_eq!(literal("32767_i16"), Literal::I16(i16::MAX));
    assert_eq!(literal("2147483647_i32"), Literal::I32(i32::MAX));
    assert_eq!(literal("9223372036854775807_i64"), Literal::I64(i64::MAX));
    assert_eq!(
        literal("170141183460469231731687303715884105727_i128"),
        Literal::I128(i128::MAX)
    );
    assert_eq!(literal("65535_u16"), Literal::U16(u16::MAX));
    assert_eq!(literal("4294967295_u32"), Literal::U32(u32::MAX));
    assert_eq!(literal("18446744073709551615_u64"), Literal::U64(u64::MAX));
    assert_eq!(
        literal("340282366920938463463374607431768211455_u128"),
        Literal::U128(u128::MAX)
    );
    assert_eq!(number("12_u8x").1, 5);
}

#[test]
fn number_rule_reports_what_does_not_fit() {
    for text in [
        "9223372036854775808",
        "256_u8",
        "128_i8",
        "32768_i16",
        "2147483648_i32",
        "9223372036854775808_i64",
        "170141183460469231731687303715884105728_i128",
        "65536_u16",
        "4294967296_u32",
        "18446744073709551616_u64",
        "340282366920938463463374607431768211456_u128",
        "99999999999999999999999999999999999999999999",
        "1.5_u8",
    ] {
        let (result, _) = number(text);
        let error = result.unwrap_err();
        assert_eq!(error, LexicalError::new(Fault::MalformedNumber, span(0, text.len()), false));
        assert_eq!(error.code(), 3);
        assert_eq!(error.message(), "numeric literal does not fit its type");
        assert_eq!(error.help(), None);
    }
}

#[test]
fn number_rule_declines_what_is_no_digit() {
    for text in ["a1", ".5", "٣"] {
        let input = chars(text);
        let mut state = LexerState::new(BytePos(0), &input, "unit");
        assert_eq!(default_number(input[0], &mut state, &config()), Ok(None));
        assert_eq!(state.current_pos, BytePos(0));
    }
}

#[test]
fn first_matching_suffix_wins() {
    let config = LexerConfig::new(
        vec![],
        vec![],
        &[],
        vec![
            NumericSuffix::new("_i1", NumericType::I8),
            NumericSuffix::new("_i16", NumericType::I16),
        ],
        false,
        '"',
    )
    .unwrap();
    let input = chars("5_i16");
    let mut state = LexerState::new(BytePos(0), &input, "unit");
    let result = default_number('5', &mut state, &config);
    assert_eq!(result, Ok(Some(Token::new(span(0, 4), TokenKind::Literal(Literal::I8(5))))));
    assert_eq!(state.peek(), Some(&'6'));
}

#[test]
fn parse_decimal_values() {
    assert_eq!(parse_decimal(&chars("")), Some(0));
    assert_eq!(parse_decimal(&chars("0")), Some(0));
    assert_eq!(parse_decimal(&chars("0012")), Some(12));
    assert_eq!(parse_decimal(&chars("340282366920938463463374607431768211455")), Some(u128::MAX));
    assert_eq!(parse_decimal(&chars("340282366920938463463374607431768211456")), None);
    assert_eq!(parse_decimal(&chars("3402823669209384634633746074317682114550")), None);
}

#[test]
fn make_literal_by_type() {
    assert_eq!(make_literal(None, false, &chars("12")), Some(Literal::Int(12)));
    assert_eq!(make_literal(None, true, &chars("1.2")), Some(Literal::Float(name("1.2"))));
    assert_eq!(make_literal(Some(NumericType::U8), false, &chars("12")), Some(Literal::U8(12)));
    assert_eq!(make_literal(Some(NumericType::U8), false, &chars("300")), None);
    assert_eq!(make_literal(Some(NumericType::U8), true, &chars("1.2")), None);
    assert_eq!(
        make_literal(Some(NumericType::F64), false, &chars("12")),
        Some(Literal::F64(name("12")))
    );
}

#[test]
fn take_text_consumes_all_or_nothing() {
    let input = chars("abcé");
    let mut state = LexerState::new(BytePos(0), &input, "unit");
    assert!(!take_text(&mut state, &chars("abd")));
    assert_eq!(state.current_pos, BytePos(0));
    assert!(!take_text(&mut state, &chars("abcéx")));
    assert_eq!(state.current_pos, BytePos(0));
    assert!(take_text(&mut state, &chars("")));
    assert_eq!(state.current_pos, BytePos(0));
    assert!(take_text(&mut state, &chars("abcé")));
    assert_eq!(state.current_pos, BytePos(5));
    assert_eq!(state.peek(), None);
}

#[test]
fn take_suffix_finds_the_type() {
    let rules = vec![
        NumericSuffix::new("_a", NumericType::U8),
        NumericSuffix::new("_b", NumericType::F32),
    ];
    let input = chars("_b!");
    let mut state = LexerState::new(BytePos(0), &input, "unit");
    assert_eq!(take_suffix(&mut state, &rules), Some(NumericType::F32));
    assert_eq!(state.current_pos, BytePos(2));
    assert_eq!(take_suffix(&mut state, &rules), None);
    assert_eq!(state.current_pos, BytePos(2));
}

#[test]
fn take_run_stops_at_the_first_stranger() {
    let input = chars("12ab_é٣ \"");
    let mut state = LexerState::new(BytePos(0), &input, "unit");
    let mut taken = vec!['x'];
    take_run(&mut state, CharClass::Digit, &mut taken);
    assert_eq!(taken, chars("x12"));
    assert_eq!(state.current_pos, BytePos(2));
    take_run(&mut state, CharClass::Digit, &mut taken);
    assert_eq!(taken, chars("x12"));
    take_run(&mut state, CharClass::WordPart, &mut taken);
    assert_eq!(taken, chars("x12ab_é٣"));
    assert_eq!(state.current_pos, BytePos(9));
    take_run(&mut state, CharClass::Except('"'), &mut taken);
    assert_eq!(taken, chars("x12ab_é٣ "));
    assert_eq!(state.peek(), Some(&'"'));
    assert!(CharClass::Except('a').has('b'));
    assert!(!CharClass::Except('a').has('a'));
}

#[test]
fn systems_answer_as_their_rules() {
    let config = config();
    let input = chars("12 ");
    for (system, accepts) in [
        (System::Number, true),
        (System::Symbol, false),
        (System::Keyword, false),
        (System::WhiteSpace, false),
        (System::StringLiteral, false),
    ] {
        let mut state = LexerState::new(BytePos(0), &input, "unit");
        let result = run_system(system, '1', &mut state, &config).unwrap();
        assert_eq!(result.is_some(), accepts);
    }
}

#[test]
fn attempt_all_takes_the_first_answer() {
    let config = config();
    let input = chars("-> 1");
    let mut state = LexerState::new(BytePos(0), &input, "unit");
    let systems = vec![System::Number, System::Keyword, System::Symbol];
    let result = attempt_all(&systems, '-', &mut state, &config);
    assert_eq!(result, Ok(Some(Token::new(span(0, 2), TokenKind::Symbol(Symbol::RArrow)))));
    assert_eq!(state.current_pos, BytePos(2));
    let result = attempt_all(&systems, ' ', &mut state, &config);
    assert_eq!(result, Ok(None));
    assert_eq!(state.current_pos, BytePos(2));
    assert_eq!(attempt_all(&vec![], ' ', &mut state, &config), Ok(None));
    assert_eq!(Token::new(span(0, 2), TokenKind::SoI).span(), span(0, 2));
}

#[test]
fn word_behind_a_number_is_left_alone_by_default() {
    let config = config();
    assert!(!config.has_strict_suffixes());
    let input = chars("12abc+");
    let mut state = LexerState::new(BytePos(0), &input, "unit");
    let result = default_number('1', &mut state, &config);
    assert_eq!(result, Ok(Some(Token::new(span(0, 2), TokenKind::Literal(Literal::Int(12))))));
    assert_eq!(state.peek(), Some(&'a'));
}

#[test]
fn word_behind_a_number_is_an_error_when_suffixes_are_strict() {
    let config = config().strict_suffixes(true);
    assert!(config.has_strict_suffixes());
    for (text, end) in [("12abc+", 5), ("1.5_x y", 5), ("7é", 3), ("7_", 2)] {
        let input = chars(text);
        let mut state = LexerState::new(BytePos(0), &input, "unit");
        let error = default_number(input[0], &mut state, &config).unwrap_err();
        assert_eq!(error, LexicalError::new(Fault::UnknownSuffix, span(0, end), false));
        assert_eq!(error.code(), 4);
        assert_eq!(error.message(), "numeric literal has an unknown suffix");
        assert_eq!(error.help(), None);
    }
    for (text, literal, end) in [
        ("12_u8", Literal::U8(12), 5),
        ("12 abc", Literal::Int(12), 2),
        ("12+a", Literal::Int(12), 2),
        ("12", Literal::Int(12), 2),
        ("12.a", Literal::Int(12), 2),
        ("12_u8abc", Literal::U8(12), 5),
    ] {
        let input = chars(text);
        let mut state = LexerState::new(BytePos(0), &input, "unit");
        let result = default_number(input[0], &mut state, &config);
        assert_eq!(result, Ok(Some(Token::new(span(0, end), TokenKind::Literal(literal)))));
    }
    let relaxed = config.strict_suffixes(false);
    assert!(!relaxed.has_strict_suffixes());
}
