//! The scanner: its cursor, its rules and the driver that applies them.

use crate::interfaces::lexer::lexer_errors::{Fault, LexicalError, LexicalErrorView};
use crate::interfaces::lexer::token::{KindView, Token, TokenKind, TokenView};
use crate::lexer::config::LexerConfig;
use crate::lexer::keyword::default_keyword;
use crate::lexer::laws::{in_order, lemma_lex_in_order, lemma_scan_in_order, lemma_scan_sentinels};
use crate::lexer::lexer_state::LexerState;
use crate::lexer::model::{
    attempt, in_progress, lemma_attempt_progress, lemma_progress_accept, lemma_progress_done,
    lemma_progress_skip, lemma_progress_start, lemma_progress_stop, Rules, System,
};
use crate::lexer::number::default_number;
use crate::lexer::scan::{lemma_first, rule_post, token_to_here};
use crate::lexer::string::default_string;
use crate::lexer::symbol::default_symbol;
use crate::lexer::whitespace::default_whitespace;
use crate::utils::chars::{text_width, to_chars};
use crate::utils::span::{BytePos, Span};
use vstd::prelude::*;

/// The configuration of a scanner.
pub mod config;
/// The rule for words.
pub mod keyword;
/// What holds of every scan.
pub mod laws;
/// The trial cursor handed to each rule.
pub mod lexer_state;
/// What a scan is.
pub mod model;
/// The rule for numeric literals.
pub mod number;
/// What a rule can answer, and how a run of like characters is consumed.
pub mod scan;
/// The rule for quoted strings.
pub mod string;
/// The rule for symbols.
pub mod symbol;
/// A second cursor design, with a step that can be taken back.
pub mod test_lexer;
/// The rule for blanks.
pub mod whitespace;

verus! {

/// What each of `tokens` stands for.
pub open spec fn token_views(tokens: Seq<Token>) -> Seq<TokenView> {
    tokens.map_values(|token: Token| token@)
}

/// What each of `errors` stands for.
pub open spec fn error_views(errors: Seq<LexicalError>) -> Seq<LexicalErrorView> {
    errors.map_values(|error: LexicalError| error@)
}

/// What the result of a scan stands for.
pub open spec fn scan_view(result: Result<Vec<Token>, LexicalError>) -> Result<
    Seq<TokenView>,
    LexicalErrorView,
> {
    match result {
        Ok(tokens) => Ok(token_views(tokens@)),
        Err(error) => Err(error@),
    }
}

/// Offers the input to one rule.
pub fn run_system(system: System, c: char, state: &mut LexerState, config: &LexerConfig) -> (result:
    Result<Option<Token>, LexicalError>)
    requires
        old(state).wf(),
        old(state).rest().len() > 0,
        old(state).rest()[0] == c,
    ensures
        rule_post(
            *old(state),
            *final(state),
            system.outcome(config@, old(state).rest()),
            result,
        ),
{
    match system {
        System::Number => default_number(c, state, config),
        System::Symbol => default_symbol(c, state, config),
        System::Keyword => default_keyword(c, state, config),
        System::WhiteSpace => default_whitespace(c, state),
        System::StringLiteral => default_string(c, state, config),
    }
}

/// Offers the input to each of `systems` in order, each on a cursor of its own, until
/// one does not decline. The cursor of that one becomes the cursor of the caller.
pub fn attempt_all(
    systems: &Vec<System>,
    c: char,
    state: &mut LexerState,
    config: &LexerConfig,
) -> (result: Result<Option<Token>, LexicalError>)
    requires
        old(state).wf(),
        old(state).rest().len() > 0,
        old(state).rest()[0] == c,
    ensures
        rule_post(
            *old(state),
            *final(state),
            attempt(systems@, config@, old(state).rest()),
            result,
        ),
{
    let ghost rest = state.rest();
    let mut i: usize = 0;
    assert(systems@.skip(0) =~= systems@);
    while i < systems.len()
        invariant
            i <= systems.len(),
            *state == *old(state),
            state.wf(),
            rest == state.rest(),
            rest.len() > 0,
            rest[0] == c,
            attempt(systems@, config@, rest) == attempt(systems@.skip(i as int), config@, rest),
        decreases systems.len() - i,
    {
        let mut trial = *state;
        let result = run_system(systems[i], c, &mut trial, config);
        proof {
            assert(systems@.skip(i as int)[0] == systems@[i as int]);
            assert(systems@.skip(i as int).drop_first() =~= systems@.skip(i + 1));
        }
        match result {
            Ok(None) => {},
            _ => {
                *state = trial;
                return result;
            },
        }
        i = i + 1;
    }
    Ok(None)
}

/// The driver of a scan. It owns the configuration, the ordered list of rules, the
/// source text and the position that the scan has reached.
#[derive(Debug)]
pub struct AtlasLexer {
    sys: Vec<System>,
    path: &'static str,
    /// The byte offset that the last scan reached.
    pub current_pos: BytePos,
    /// The text to scan.
    pub source: String,
    config: LexerConfig,
    recover: bool,
    errors: Vec<LexicalError>,
}

impl AtlasLexer {
    /// The rules of the scanner, as far as a scan depends on them.
    pub closed spec fn rules(&self) -> Rules {
        Rules { systems: self.sys@, config: self.config@, recover: self.recover, path: self.path }
    }

    /// The text to scan.
    pub closed spec fn text(&self) -> Seq<char> {
        self.source@
    }

    /// The byte offset that the last scan reached.
    pub closed spec fn pos(&self) -> nat {
        self.current_pos@
    }

    /// The errors that the last scan went on after.
    pub closed spec fn logged(&self) -> Seq<LexicalErrorView> {
        error_views(self.errors@)
    }

    /// A scanner of `source` without any rule.
    pub fn new(path: &'static str, source: String, config: LexerConfig) -> (lexer: Self)
        ensures
            lexer.rules() == (Rules {
                systems: Seq::<System>::empty(),
                config: config@,
                recover: false,
                path,
            }),
            lexer.text() == source@,
            lexer.pos() == 0,
            lexer.logged() == Seq::<LexicalErrorView>::empty(),
    {
        let lexer = Self {
            sys: Vec::new(),
            path,
            current_pos: BytePos(0),
            source,
            config,
            recover: false,
            errors: Vec::new(),
        };
        assert(lexer.logged() =~= Seq::<LexicalErrorView>::empty());
        lexer
    }

    /// A scanner of the empty text, named `<stdin>`, with the five rules in their
    /// usual order: numbers, symbols, words, blanks, strings.
    pub fn default(config: LexerConfig) -> (lexer: Self)
        ensures
            lexer.rules() == (Rules {
                systems: seq![
                    System::Number,
                    System::Symbol,
                    System::Keyword,
                    System::WhiteSpace,
                    System::StringLiteral,
                ],
                config: config@,
                recover: false,
                path: "<stdin>",
            }),
            lexer.text() == Seq::<char>::empty(),
            lexer.pos() == 0,
            lexer.logged() == Seq::<LexicalErrorView>::empty(),
    {
        let mut lexer = AtlasLexer::new("<stdin>", String::new(), config);
        lexer.add_system(System::Number);
        lexer.add_system(System::Symbol);
        lexer.add_system(System::Keyword);
        lexer.add_system(System::WhiteSpace);
        lexer.add_system(System::StringLiteral);
        assert(lexer.rules().systems =~= seq![
            System::Number,
            System::Symbol,
            System::Keyword,
            System::WhiteSpace,
            System::StringLiteral,
        ]);
        lexer
    }

    /// Replaces the text to scan.
    pub fn set_source(&mut self, source: String) -> (lexer: &mut Self)
        ensures
            lexer.rules() == old(self).rules(),
            lexer.text() == source@,
            lexer.pos() == old(self).pos(),
            lexer.logged() == old(self).logged(),
            *final(self) == *final(lexer),
    {
        self.source = source;
        self
    }

    /// Renames the source.
    pub fn set_path(&mut self, new_path: &'static str) -> (lexer: &mut Self)
        ensures
            lexer.rules() == (Rules { path: new_path, ..old(self).rules() }),
            lexer.text() == old(self).text(),
            lexer.pos() == old(self).pos(),
            lexer.logged() == old(self).logged(),
            *final(self) == *final(lexer),
    {
        self.path = new_path;
        self
    }

    /// Adds a rule behind those that the scanner has.
    pub fn add_system(&mut self, s: System) -> (lexer: &mut Self)
        ensures
            lexer.rules() == (Rules {
                systems: old(self).rules().systems.push(s),
                ..old(self).rules()
            }),
            lexer.text() == old(self).text(),
            lexer.pos() == old(self).pos(),
            lexer.logged() == old(self).logged(),
            *final(self) == *final(lexer),
    {
        self.sys.push(s);
        self
    }

    /// Says whether the scanner skips a character that no rule accepts.
    pub fn set_recover(&mut self, recover: bool) -> (lexer: &mut Self)
        ensures
            lexer.rules() == (Rules { recover, ..old(self).rules() }),
            lexer.text() == old(self).text(),
            lexer.pos() == old(self).pos(),
            lexer.logged() == old(self).logged(),
            *final(self) == *final(lexer),
    {
        self.recover = recover;
        self
    }

    /// The byte offset that the last scan reached.
    pub fn position(&self) -> (pos: BytePos)
        ensures
            pos@ == self.pos(),
    {
        self.current_pos
    }

    /// The errors that the last scan went on after.
    pub fn errors(&self) -> (errors: &Vec<LexicalError>)
        ensures
            error_views(errors@) == self.logged(),
    {
        &self.errors
    }

    /// Scans the source from its first byte.
    ///
    /// The result is what the model of the scan gives for the rules and the text of
    /// the scanner: the tokens kept, between a start and an end sentinel, or the
    /// error that stopped the scan. A scan that succeeds never hands out less than
    /// the two sentinels, and its tokens lie in order inside the text. The scanner
    /// keeps its rules and its text; its position is where the scan ended, and its
    /// log holds the errors that the scan went on after.
    pub fn tokenize(&mut self) -> (result: Result<Vec<Token>, LexicalError>)
        ensures
            final(self).rules() == old(self).rules(),
            final(self).text() == old(self).text(),
            scan_view(result) == old(self).rules().scan(old(self).text()),
            final(self).pos() == old(self).rules().lex(0, old(self).text()).end,
            final(self).logged() == old(self).rules().lex(0, old(self).text()).errors,
            result matches Ok(tokens) ==> {
                &&& tokens@.len() >= 2
                &&& tokens@.first()@ == old(self).rules().sentinel(0, KindView::SoI)
                &&& tokens@.last()@ == old(self).rules().sentinel(
                    text_width(old(self).text()),
                    KindView::EoI,
                )
                &&& in_order(token_views(tokens@), 0, text_width(old(self).text()))
                &&& final(self).pos() == text_width(old(self).text())
            },
            result matches Err(error) ==> {
                &&& error@.start <= error@.end <= text_width(old(self).text())
                &&& final(self).pos() == error@.start
            },
    {
        proof {
            lemma_scan_sentinels(self.rules(), self.text());
            lemma_scan_in_order(self.rules(), self.text());
            lemma_lex_in_order(self.rules(), 0, self.text());
        }
        let ghost rules = self.rules();
        let ghost full = rules.lex(0, self.text());
        let chars = to_chars(self.source.as_str());
        let width = self.source.as_str().as_bytes().len();
        assert(text_width(chars@) == width);
        let path = self.path;
        let allow_whitespace = self.config.allow_whitespace();
        let mut state = LexerState::new(BytePos(0), chars.as_slice(), path);
        let mut errors: Vec<LexicalError> = Vec::new();
        let mut tokens: Vec<Token> = Vec::new();
        tokens.push(token_to_here(BytePos(0), &state, TokenKind::SoI));
        proof {
            lemma_progress_start(rules, self.text());
            assert(token_views(tokens@) =~= seq![rules.sentinel(0, KindView::SoI)]);
            assert(error_views(errors@) =~= Seq::<LexicalErrorView>::empty());
        }
        loop
            invariant
                state.wf(),
                state.source() == path,
                rules == self.rules(),
                rules == old(self).rules(),
                self.text() == old(self).text(),
                path == rules.path,
                allow_whitespace == rules.config.allow_whitespace,
                full == rules.lex(0, old(self).text()),
                in_progress(
                    rules,
                    full,
                    token_views(tokens@),
                    error_views(errors@),
                    state.pos(),
                    state.rest(),
                ),
            ensures
                state.wf(),
                state.source() == path,
                rules == self.rules(),
                self.text() == old(self).text(),
                full == rules.lex(0, old(self).text()),
                seq![rules.sentinel(0, KindView::SoI)] + full.output == token_views(tokens@),
                full.errors == error_views(errors@),
                full.fatal is None,
                full.end == state.pos(),
                path == rules.path,
            decreases state.rest().len(),
        {
            let ghost pos = state.pos();
            let ghost rest = state.rest();
            let ghost views = token_views(tokens@);
            let ghost logged = error_views(errors@);
            let c: char = match state.peek() {
                Some(c) => *c,
                None => {
                    proof {
                        lemma_progress_done(rules, full, views, logged, pos, rest);
                    }
                    break;
                },
            };
            let start = state.position();
            let mut trial = state;
            proof {
                lemma_attempt_progress(rules.systems, rules.config, rest);
            }
            match attempt_all(&self.sys, c, &mut trial, &self.config) {
                Ok(Some(token)) => {
                    proof {
                        lemma_progress_accept(rules, full, views, logged, pos, rest);
                        assert(token_views(tokens@.push(token)) =~= views.push(token@));
                    }
                    if allow_whitespace || !token.kind().is_blank() {
                        tokens.push(token);
                    }
                    state = trial;
                },
                Ok(None) => {
                    proof {
                        lemma_first(rest);
                    }
                    state.next();
                    let error = LexicalError::new(
                        Fault::UnknownChar(c),
                        Span { start, end: state.position(), path },
                        self.recover,
                    );
                    if !self.recover {
                        proof {
                            lemma_progress_stop(rules, full, views, logged, pos, rest);
                            lemma_lex_in_order(rules, 0, old(self).text());
                        }
                        self.current_pos = start;
                        self.errors = errors;
                        return Err(error);
                    }
                    let token = token_to_here(start, &state, TokenKind::UnknownChar(c));
                    proof {
                        lemma_progress_skip(rules, full, views, logged, pos, rest);
                        assert(token_views(tokens@.push(token)) =~= views.push(token@));
                        assert(error_views(errors@.push(error)) =~= logged.push(error@));
                    }
                    tokens.push(token);
                    errors.push(error);
                },
                Err(error) => {
                    proof {
                        lemma_progress_stop(rules, full, views, logged, pos, rest);
                        lemma_lex_in_order(rules, 0, old(self).text());
                    }
                    self.current_pos = start;
                    self.errors = errors;
                    return Err(error);
                },
            }
        }
        let end = state.position();
        let last = token_to_here(end, &state, TokenKind::EoI);
        proof {
            assert(last@ == rules.sentinel(full.end, KindView::EoI));
            assert(token_views(tokens@.push(last)) =~= seq![rules.sentinel(0, KindView::SoI)]
                + full.output + seq![rules.sentinel(full.end, KindView::EoI)]);
        }
        tokens.push(last);
        self.current_pos = end;
        self.errors = errors;
        Ok(tokens)
    }
}

} // verus!
