use atlas_core::interfaces::error::Error;
use atlas_core::interfaces::lexer::lexer_errors::{Fault, LexicalError};
use atlas_core::interfaces::lexer::token::{Literal, Symbol, Token, TokenKind};
use atlas_core::lexer::config::{
    EitherSymbol, LexerConfig, NumericSuffix, NumericType, SingleSymbol,
};
use atlas_core::lexer::model::System;
use atlas_core::lexer::test_lexer::{TestLexer, TestSystem};
use atlas_core::lexer::AtlasLexer;
use atlas_core::utils::span::{BytePos, Span, Spanned};
use internment::Intern;

fn single(key: char, symbol: Symbol) -> SingleSymbol {
    SingleSymbol { key, symbol }
}

fn either(first: char, second: char, combined: Symbol, fallback: Symbol) -> EitherSymbol {
    EitherSymbol { first, second, combined, fallback }
}

fn full_config(allow_whitespace: bool) -> LexerConfig {
    let single = vec![
        single('(', Symbol::LParen),
        single(')', Symbol::RParen),
        single('{', Symbol::LBrace),
        single('}', Symbol::RBrace),
        single('[', Symbol::LBracket),
        single(']', Symbol::RBracket),
        single(',', Symbol::Comma),
        single('+', Symbol::Plus),
        single('/', Symbol::Slash),
        single('*', Symbol::Star),
        single('^', Symbol::Caret),
        single('%', Symbol::Percent),
        single('\\', Symbol::Backslash),
        single('_', Symbol::Underscore),
        single(';', Symbol::SemiColon),
        single('\'', Symbol::Quote),
        single('?', Symbol::Question),
    ];
    let either = vec![
        either('=', '=', Symbol::DoubleEq, Symbol::Eq),
        either('!', '=', Symbol::NEq, Symbol::Bang),
        either('.', '.', Symbol::DoubleDot, Symbol::Dot),
        either(':', ':', Symbol::DoubleColon, Symbol::Colon),
        either('-', '>', Symbol::RArrow, Symbol::Minus),
        either('<', '=', Symbol::LtEq, Symbol::LAngle),
        either('>', '=', Symbol::GtEq, Symbol::RAngle),
        either('&', '&', Symbol::And, Symbol::Ampersand),
        either('|', '|', Symbol::Or, Symbol::Pipe),
        either('~', '>', Symbol::FatArrow, Symbol::Tilde),
    ];
    let keywords = [
        "then", "if", "else", "struct", "true", "false", "let", "import", "return", "enum",
        "List", "end", "do", "i8", "i16", "i32", "int", "i128", "u8", "u16", "u32", "u64",
        "u128", "f32", "f64", "string", "List", "char",
    ];
    let suffixes = vec![
        NumericSuffix::new("_i8", NumericType::I8),
        NumericSuffix::new("_i16", NumericType::I16),
        NumericSuffix::new("_32", NumericType::I32),
        NumericSuffix::new("_i64", NumericType::I64),
        NumericSuffix::new("_i128", NumericType::I128),
        NumericSuffix::new("_u8", NumericType::U8),
        NumericSuffix::new("_u16", NumericType::U16),
        NumericSuffix::new("_u32", NumericType::U32),
        NumericSuffix::new("_u64", NumericType::U64),
        NumericSuffix::new("_u128", NumericType::U128),
        NumericSuffix::new("_f32", NumericType::F32),
        NumericSuffix::new("_f64", NumericType::F64),
    ];
    LexerConfig::new(single, either, &keywords, suffixes, allow_whitespace, '"').unwrap()
}

fn plain_config() -> LexerConfig {
    LexerConfig::new(vec![], vec![], &[], vec![], false, '"').unwrap()
}

fn scan_with(config: LexerConfig, text: &str) -> Result<Vec<Token>, LexicalError> {
    let mut lexer = AtlasLexer::default(config);
    lexer.set_source(String::from(text));
    lexer.tokenize()
}

fn kinds(tokens: &[Token]) -> Vec<TokenKind> {
    tokens.iter().map(|token| token.kind()).collect()
}

fn name(text: &str) -> Intern<String> {
    Intern::new(text.to_string())
}

fn span(start: usize, end: usize) -> Span {
    Span { start: BytePos(start), end: BytePos(end), path: "<stdin>" }
}

#[test]
fn test_lexer() {
    let mut lex = TestLexer::new();
    lex.add_system(TestSystem::Number);
    let value: Option<f32> = lex.tokenize().map(|text| text.parse().unwrap());
    assert_eq!(value, Some(536.1));
}

#[test]
fn test_macros() {
    let mut lexer = AtlasLexer::default(full_config(false));
    lexer.set_source(String::from(":: - -> <= ~> : == !="));
    lexer.set_path("./test.atlas");
    let tokens = lexer.tokenize().unwrap();
    for token in tokens {
        println!("{:?}", token);
    }
}

#[test]
fn symbols_of_the_sample_line() {
    let mut lexer = AtlasLexer::default(full_config(false));
    lexer.set_source(String::from(":: - -> <= ~> : == !="));
    lexer.set_path("./test.atlas");
    let tokens = lexer.tokenize().unwrap();
    assert_eq!(
        kinds(&tokens),
        vec![
            TokenKind::SoI,
            TokenKind::Symbol(Symbol::DoubleColon),
            TokenKind::Symbol(Symbol::Minus),
            TokenKind::Symbol(Symbol::RArrow),
            TokenKind::Symbol(Symbol::LtEq),
            TokenKind::Symbol(Symbol::FatArrow),
            TokenKind::Symbol(Symbol::Colon),
            TokenKind::Symbol(Symbol::DoubleEq),
            TokenKind::Symbol(Symbol::NEq),
            TokenKind::EoI,
        ]
    );
    assert_eq!(tokens[1].span().path, "./test.atlas");
    assert_eq!(tokens[3].span().start, BytePos(5));
    assert_eq!(tokens[3].span().end, BytePos(7));
}

#[test]
fn integer_literal() {
    let tokens = scan_with(plain_config(), "123").unwrap();
    assert_eq!(
        tokens,
        vec![
            Token::new(span(0, 0), TokenKind::SoI),
            Token::new(span(0, 3), TokenKind::Literal(Literal::Int(123))),
            Token::new(span(3, 3), TokenKind::EoI),
        ]
    );
}

#[test]
fn fractional_literal() {
    let tokens = scan_with(plain_config(), "1.5").unwrap();
    assert_eq!(tokens.len(), 3);
    match tokens[1].kind() {
        TokenKind::Literal(Literal::Float(text)) => {
            assert_eq!(text.as_str(), "1.5");
            let value: f64 = text.parse().unwrap();
            assert_eq!(value, 1.5);
        }
        other => panic!("expected a float, found {:?}", other),
    }
    assert_eq!(tokens[1].span(), span(0, 3));
}

#[test]
fn point_without_digit_is_a_symbol() {
    let tokens = scan_with(full_config(false), "1.").unwrap();
    assert_eq!(
        tokens,
        vec![
            Token::new(span(0, 0), TokenKind::SoI),
            Token::new(span(0, 1), TokenKind::Literal(Literal::Int(1))),
            Token::new(span(1, 2), TokenKind::Symbol(Symbol::Dot)),
            Token::new(span(2, 2), TokenKind::EoI),
        ]
    );
}

#[test]
fn suffix_gives_the_type() {
    let config = LexerConfig::new(
        vec![],
        vec![],
        &[],
        vec![NumericSuffix::new("_i8", NumericType::I8)],
        false,
        '"',
    )
    .unwrap();
    let tokens = scan_with(config, "12_i8").unwrap();
    assert_eq!(
        tokens,
        vec![
            Token::new(span(0, 0), TokenKind::SoI),
            Token::new(span(0, 5), TokenKind::Literal(Literal::I8(12))),
            Token::new(span(5, 5), TokenKind::EoI),
        ]
    );
}

#[test]
fn keyword_then_identifier_without_blanks() {
    let config = LexerConfig::new(vec![], vec![], &["if"], vec![], false, '"').unwrap();
    let tokens = scan_with(config, "if x").unwrap();
    assert_eq!(
        tokens,
        vec![
            Token::new(span(0, 0), TokenKind::SoI),
            Token::new(span(0, 2), TokenKind::Keyword(name("if"))),
            Token::new(span(3, 4), TokenKind::Literal(Literal::Identifier(name("x")))),
            Token::new(span(4, 4), TokenKind::EoI),
        ]
    );
}

#[test]
fn keyword_then_identifier_with_blanks() {
    let config = LexerConfig::new(vec![], vec![], &["if"], vec![], true, '"').unwrap();
    let tokens = scan_with(config, "if x").unwrap();
    assert_eq!(
        tokens,
        vec![
            Token::new(span(0, 0), TokenKind::SoI),
            Token::new(span(0, 2), TokenKind::Keyword(name("if"))),
            Token::new(span(2, 3), TokenKind::WhiteSpace),
            Token::new(span(3, 4), TokenKind::Literal(Literal::Identifier(name("x")))),
            Token::new(span(4, 4), TokenKind::EoI),
        ]
    );
}

#[test]
fn double_colon_and_colon() {
    let pair = vec![either(':', ':', Symbol::DoubleColon, Symbol::Colon)];
    let config = LexerConfig::new(vec![], pair.clone(), &[], vec![], false, '"').unwrap();
    assert_eq!(
        scan_with(config, "::").unwrap(),
        vec![
            Token::new(span(0, 0), TokenKind::SoI),
            Token::new(span(0, 2), TokenKind::Symbol(Symbol::DoubleColon)),
            Token::new(span(2, 2), TokenKind::EoI),
        ]
    );
    let config = LexerConfig::new(vec![], pair, &[], vec![], false, '"').unwrap();
    assert_eq!(
        scan_with(config, ":").unwrap(),
        vec![
            Token::new(span(0, 0), TokenKind::SoI),
            Token::new(span(0, 1), TokenKind::Symbol(Symbol::Colon)),
            Token::new(span(1, 1), TokenKind::EoI),
        ]
    );
}

#[test]
fn unknown_character_stops_a_strict_scan() {
    let mut lexer = AtlasLexer::default(plain_config());
    lexer.set_source(String::from("ab € cd"));
    let error = lexer.tokenize().unwrap_err();
    assert_eq!(error.fault, Fault::UnknownChar('€'));
    assert_eq!(error.span(), span(3, 6));
    assert!(!error.recoverable());
    assert_eq!(error.code(), 1);
    assert_eq!(lexer.position(), BytePos(3));
    assert!(lexer.errors().is_empty());
}

#[test]
fn unknown_character_is_skipped_by_a_recovering_scan() {
    let mut lexer = AtlasLexer::default(plain_config());
    lexer.set_source(String::from("ab € cd"));
    lexer.set_recover(true);
    let tokens = lexer.tokenize().unwrap();
    assert_eq!(
        tokens,
        vec![
            Token::new(span(0, 0), TokenKind::SoI),
            Token::new(span(0, 2), TokenKind::Literal(Literal::Identifier(name("ab")))),
            Token::new(span(3, 6), TokenKind::UnknownChar('€')),
            Token::new(span(7, 9), TokenKind::Literal(Literal::Identifier(name("cd")))),
            Token::new(span(9, 9), TokenKind::EoI),
        ]
    );
    assert_eq!(
        lexer.errors(),
        &vec![LexicalError::new(Fault::UnknownChar('€'), span(3, 6), true)]
    );
    assert!(lexer.errors()[0].recoverable());
    assert_eq!(lexer.position(), BytePos(9));
}

#[test]
fn empty_text_gives_the_two_sentinels() {
    let tokens = scan_with(plain_config(), "").unwrap();
    assert_eq!(
        tokens,
        vec![Token::new(span(0, 0), TokenKind::SoI), Token::new(span(0, 0), TokenKind::EoI)]
    );
}

#[test]
fn scanner_without_rules_accepts_nothing() {
    let mut lexer = AtlasLexer::new("input", String::from("a"), plain_config());
    let error = lexer.tokenize().unwrap_err();
    assert_eq!(error.fault, Fault::UnknownChar('a'));
    assert_eq!(
        error.span(),
        Span { start: BytePos(0), end: BytePos(1), path: "input" }
    );
}

#[test]
fn every_success_is_bracketed_by_sentinels() {
    for text in ["", "a", "1 + 2", "let x = \"s\";", "  \t\r\n"] {
        let tokens = scan_with(full_config(true), text).unwrap();
        assert!(tokens.len() >= 2);
        assert_eq!(tokens[0], Token::new(span(0, 0), TokenKind::SoI));
        assert_eq!(
            tokens[tokens.len() - 1],
            Token::new(span(text.len(), text.len()), TokenKind::EoI)
        );
    }
}

#[test]
fn spans_are_monotonic_and_inside_the_text() {
    let text = "let été = 12_u8 + 3.25; \"ü\" :: x";
    for allow in [false, true] {
        let tokens = scan_with(full_config(allow), text).unwrap();
        for token in &tokens {
            assert!(token.span().start.0 <= token.span().end.0);
            assert!(token.span().end.0 <= text.len());
        }
        for pair in tokens.windows(2) {
            assert!(pair[0].span().end.0 <= pair[1].span().start.0);
        }
    }
}

#[test]
fn spans_rebuild_the_text() {
    let text = "let été = 12_u8 + 3.25;\n\t\"ü\" :: € x\r\n";
    let mut lexer = AtlasLexer::default(full_config(true));
    lexer.set_source(String::from(text));
    lexer.set_recover(true);
    let tokens = lexer.tokenize().unwrap();
    let mut rebuilt = String::new();
    for token in &tokens {
        rebuilt.push_str(&text[token.span().start.0..token.span().end.0]);
    }
    assert_eq!(rebuilt, text);
}

#[test]
fn scanning_twice_gives_the_same_tokens() {
    let text = "if x == 12_i16 then \"yes\" else y_2";
    let mut lexer = AtlasLexer::default(full_config(false));
    lexer.set_source(String::from(text));
    let first = lexer.tokenize().unwrap();
    let second = lexer.tokenize().unwrap();
    assert_eq!(first, second);
    let third = scan_with(full_config(false), text).unwrap();
    assert_eq!(first, third);
}

#[test]
fn first_rule_wins() {
    let text = "_a";
    let tokens = scan_with(full_config(false), text).unwrap();
    assert_eq!(
        kinds(&tokens),
        vec![
            TokenKind::SoI,
            TokenKind::Symbol(Symbol::Underscore),
            TokenKind::Literal(Literal::Identifier(name("a"))),
            TokenKind::EoI,
        ]
    );
    let mut lexer = AtlasLexer::new("<stdin>", String::from(text), full_config(false));
    lexer.add_system(System::Keyword).add_system(System::Symbol);
    let tokens = lexer.tokenize().unwrap();
    assert_eq!(
        kinds(&tokens),
        vec![TokenKind::SoI, TokenKind::Literal(Literal::Identifier(name("_a"))), TokenKind::EoI]
    );
}

#[test]
fn rule_error_stops_a_recovering_scan_too() {
    let mut lexer = AtlasLexer::default(plain_config());
    lexer.set_source(String::from("a \"bc"));
    lexer.set_recover(true);
    let error = lexer.tokenize().unwrap_err();
    assert_eq!(error, LexicalError::new(Fault::UnterminatedString, span(2, 5), false));
    assert_eq!(lexer.position(), BytePos(2));
}

#[test]
fn strict_suffixes_stop_the_scan() {
    let text = "x = 12abc";
    let tokens = scan_with(full_config(false), text).unwrap();
    assert_eq!(
        kinds(&tokens),
        vec![
            TokenKind::SoI,
            TokenKind::Literal(Literal::Identifier(name("x"))),
            TokenKind::Symbol(Symbol::Eq),
            TokenKind::Literal(Literal::Int(12)),
            TokenKind::Literal(Literal::Identifier(name("abc"))),
            TokenKind::EoI,
        ]
    );
    let error = scan_with(full_config(false).strict_suffixes(true), text).unwrap_err();
    assert_eq!(error, LexicalError::new(Fault::UnknownSuffix, span(4, 9), false));
}

#[test]
fn literal_out_of_range_stops_the_scan() {
    let error = scan_with(full_config(false), "a 300_u8 b").unwrap_err();
    assert_eq!(error, LexicalError::new(Fault::MalformedNumber, span(2, 8), false));
    assert_eq!(error.code(), 3);
}

#[test]
fn blanks_are_dropped_or_kept_by_policy() {
    let text = " \t\r\n";
    let dropped = scan_with(full_config(false), text).unwrap();
    assert_eq!(kinds(&dropped), vec![TokenKind::SoI, TokenKind::EoI]);
    assert_eq!(dropped[1].span(), span(4, 4));
    let kept = scan_with(full_config(true), text).unwrap();
    assert_eq!(
        kinds(&kept),
        vec![
            TokenKind::SoI,
            TokenKind::WhiteSpace,
            TokenKind::Tabulation,
            TokenKind::CarriageReturn,
            TokenKind::NewLine,
            TokenKind::EoI,
        ]
    );
}
