//! What a scan is: the mathematical model that the driver is held to.

use crate::interfaces::lexer::lexer_errors::{Fault, LexicalErrorView};
use crate::interfaces::lexer::token::{KindView, TokenView};
use crate::lexer::config::{lemma_suffix_lookup, ConfigView};
use crate::lexer::keyword::keyword_outcome;
use crate::lexer::number::{number_len, number_outcome, whole_len};
use crate::lexer::scan::{lemma_run_len_maximal, CharClass, Outcome};
use crate::lexer::string::string_outcome;
use crate::lexer::symbol::symbol_outcome;
use crate::lexer::whitespace::whitespace_outcome;
use crate::utils::chars::{lemma_char_is_scalar, text_width};
use vstd::prelude::*;

verus! {

/// The rules that a scanner can be made of.
#[derive(Debug, Clone, Copy, PartialEq, Eq, Structural, Hash)]
pub enum System {
    /// Numeric literals.
    Number,
    /// One- and two-character symbols.
    Symbol,
    /// Keywords and identifiers.
    Keyword,
    /// Blanks.
    WhiteSpace,
    /// Quoted strings.
    StringLiteral,
}

impl System {
    /// What the rule answers to the input `rest`.
    pub open spec fn outcome(self, config: ConfigView, rest: Seq<char>) -> Outcome {
        match self {
            System::Number => number_outcome(config, rest),
            System::Symbol => symbol_outcome(config, rest),
            System::Keyword => keyword_outcome(config, rest),
            System::WhiteSpace => whitespace_outcome(rest),
            System::StringLiteral => string_outcome(config, rest),
        }
    }
}

/// The answer of the first of `systems` that does not decline; where all decline, the
/// answer is to decline.
pub open spec fn attempt(systems: Seq<System>, config: ConfigView, rest: Seq<char>) -> Outcome
    decreases systems.len(),
{
    if systems.len() == 0 {
        Outcome::Decline
    } else {
        match systems[0].outcome(config, rest) {
            Outcome::Decline => attempt(systems.drop_first(), config, rest),
            answer => answer,
        }
    }
}

/// A rule that accepts takes at least one character, and no rule takes more than
/// there is.
pub proof fn lemma_outcome_progress(system: System, config: ConfigView, rest: Seq<char>)
    ensures
        match system.outcome(config, rest) {
            Outcome::Decline => true,
            Outcome::Accept { taken, .. } => 1 <= taken <= rest.len(),
            Outcome::Fail { taken, .. } => 1 <= taken <= rest.len(),
        },
{
    if rest.len() > 0 {
        lemma_run_len_maximal(rest.drop_first(), CharClass::WordPart);
        lemma_run_len_maximal(rest.drop_first(), CharClass::Except(config.quote));
        lemma_run_len_maximal(rest, CharClass::Digit);
        let whole = whole_len(rest) as int;
        if whole + 1 <= rest.len() {
            lemma_run_len_maximal(rest.skip(whole + 1), CharClass::Digit);
        }
        let len = number_len(rest) as int;
        if len <= rest.len() {
            lemma_suffix_lookup(config.suffixes, rest.skip(len));
            if len < rest.len() {
                lemma_run_len_maximal(rest.skip(len).drop_first(), CharClass::WordPart);
            }
        }
    }
}

/// What holds of each rule holds of the first that answers.
pub proof fn lemma_attempt_progress(systems: Seq<System>, config: ConfigView, rest: Seq<char>)
    ensures
        match attempt(systems, config, rest) {
            Outcome::Decline => true,
            Outcome::Accept { taken, .. } => 1 <= taken <= rest.len(),
            Outcome::Fail { taken, .. } => 1 <= taken <= rest.len(),
        },
    decreases systems.len(),
{
    if systems.len() > 0 {
        lemma_outcome_progress(systems[0], config, rest);
        lemma_attempt_progress(systems.drop_first(), config, rest);
    }
}

/// What a scanner is made of, as far as a scan depends on it.
pub struct Rules {
    /// The rules, in the order they are tried.
    pub systems: Seq<System>,
    /// The tables that the rules consult.
    pub config: ConfigView,
    /// Whether a character that no rule accepts is skipped.
    pub recover: bool,
    /// Name of the source.
    pub path: &'static str,
}

/// What a scan of some input comes to.
pub struct Lexed {
    /// Every token read, blanks included, in order.
    pub trace: Seq<TokenView>,
    /// The tokens that are handed out.
    pub output: Seq<TokenView>,
    /// The errors that the scan went on after.
    pub errors: Seq<LexicalErrorView>,
    /// The error that stopped the scan, if one did.
    pub fatal: Option<LexicalErrorView>,
    /// The position at which the scan ended.
    pub end: nat,
}

impl Rules {
    /// Whether a token of this kind is handed out.
    pub open spec fn keeps(self, kind: KindView) -> bool {
        self.config.allow_whitespace || !kind.is_blank()
    }

    /// The token of kind `kind` made of the first `taken` characters of `rest`, which
    /// starts at byte `pos`.
    pub open spec fn token(self, pos: nat, rest: Seq<char>, taken: nat, kind: KindView) -> TokenView {
        TokenView {
            start: pos,
            end: pos + text_width(rest.take(taken as int)),
            path: self.path,
            kind,
        }
    }

    /// The error `fault` in the first `taken` characters of `rest`, which starts at
    /// byte `pos`.
    pub open spec fn error(
        self,
        pos: nat,
        rest: Seq<char>,
        taken: nat,
        fault: Fault,
        recoverable: bool,
    ) -> LexicalErrorView {
        LexicalErrorView {
            fault,
            start: pos,
            end: pos + text_width(rest.take(taken as int)),
            path: self.path,
            recoverable,
        }
    }

    /// The scan of `rest`, which starts at byte `pos`.
    ///
    /// At each position the rules are tried in order and the first answer counts. A
    /// token that is accepted joins the trace, and the output unless it is a blank
    /// that the configuration drops; the scan goes on behind it. An error of a rule
    /// stops the scan. Where every rule declines, the character is unknown: a
    /// recovering scanner records the error, reads the character as a token of its
    /// own and goes on; any other stops.
    pub open spec fn lex(self, pos: nat, rest: Seq<char>) -> Lexed
        decreases rest.len(),
    {
        if rest.len() == 0 {
            Lexed { trace: seq![], output: seq![], errors: seq![], fatal: None, end: pos }
        } else {
            proof {
                lemma_attempt_progress(self.systems, self.config, rest);
            }
            match attempt(self.systems, self.config, rest) {
                Outcome::Accept { taken, kind } => {
                    let token = self.token(pos, rest, taken, kind);
                    let tail = self.lex(token.end, rest.skip(taken as int));
                    Lexed {
                        trace: seq![token] + tail.trace,
                        output: if self.keeps(kind) {
                            seq![token] + tail.output
                        } else {
                            tail.output
                        },
                        errors: tail.errors,
                        fatal: tail.fatal,
                        end: tail.end,
                    }
                },
                Outcome::Fail { taken, fault } => Lexed {
                    trace: seq![],
                    output: seq![],
                    errors: seq![],
                    fatal: Some(self.error(pos, rest, taken, fault, false)),
                    end: pos,
                },
                Outcome::Decline => {
                    let error = self.error(pos, rest, 1, Fault::UnknownChar(rest[0]), self.recover);
                    if self.recover {
                        let token = self.token(pos, rest, 1, KindView::UnknownChar(rest[0]));
                        let tail = self.lex(token.end, rest.skip(1));
                        Lexed {
                            trace: seq![token] + tail.trace,
                            output: seq![token] + tail.output,
                            errors: seq![error] + tail.errors,
                            fatal: tail.fatal,
                            end: tail.end,
                        }
                    } else {
                        Lexed {
                            trace: seq![],
                            output: seq![],
                            errors: seq![],
                            fatal: Some(error),
                            end: pos,
                        }
                    }
                },
            }
        }
    }

    /// The empty token that marks the start or the end of the input.
    pub open spec fn sentinel(self, pos: nat, kind: KindView) -> TokenView {
        TokenView { start: pos, end: pos, path: self.path, kind }
    }

    /// What a scan of `text` hands out: the tokens kept, between the two sentinels; or
    /// the error that stopped it.
    pub open spec fn scan(self, text: Seq<char>) -> Result<Seq<TokenView>, LexicalErrorView> {
        let lexed = self.lex(0, text);
        match lexed.fatal {
            Some(error) => Err(error),
            None => Ok(
                seq![self.sentinel(0, KindView::SoI)] + lexed.output + seq![
                    self.sentinel(lexed.end, KindView::EoI),
                ],
            ),
        }
    }
}

/// What a driver has to keep true while it works through the input: the tokens and
/// errors gathered so far, followed by what the scan of the rest comes to, are what
/// the scan of the whole comes to.
pub open spec fn in_progress(
    rules: Rules,
    full: Lexed,
    tokens: Seq<TokenView>,
    errors: Seq<LexicalErrorView>,
    pos: nat,
    rest: Seq<char>,
) -> bool {
    let here = rules.lex(pos, rest);
    &&& seq![rules.sentinel(0, KindView::SoI)] + full.output == tokens + here.output
    &&& full.errors == errors + here.errors
    &&& full.fatal == here.fatal
    &&& full.end == here.end
}

/// At the start of a scan only the first sentinel has been gathered.
pub proof fn lemma_progress_start(rules: Rules, text: Seq<char>)
    ensures
        in_progress(
            rules,
            rules.lex(0, text),
            seq![rules.sentinel(0, KindView::SoI)],
            Seq::<LexicalErrorView>::empty(),
            0,
            text,
        ),
{
    let full = rules.lex(0, text);
    assert(Seq::<LexicalErrorView>::empty() + full.errors =~= full.errors);
}

/// With no input left, what has been gathered is the whole scan.
pub proof fn lemma_progress_done(
    rules: Rules,
    full: Lexed,
    tokens: Seq<TokenView>,
    errors: Seq<LexicalErrorView>,
    pos: nat,
    rest: Seq<char>,
)
    requires
        in_progress(rules, full, tokens, errors, pos, rest),
        rest.len() == 0,
    ensures
        seq![rules.sentinel(0, KindView::SoI)] + full.output == tokens,
        full.errors == errors,
        full.fatal is None,
        full.end == pos,
{
    let here = rules.lex(pos, rest);
    assert(tokens + here.output =~= tokens);
    assert(errors + here.errors =~= errors);
}

/// A token that a rule accepts is gathered, unless it is a blank to be dropped, and
/// the scan goes on behind it.
pub proof fn lemma_progress_accept(
    rules: Rules,
    full: Lexed,
    tokens: Seq<TokenView>,
    errors: Seq<LexicalErrorView>,
    pos: nat,
    rest: Seq<char>,
)
    requires
        in_progress(rules, full, tokens, errors, pos, rest),
        rest.len() > 0,
        attempt(rules.systems, rules.config, rest) is Accept,
    ensures
        ({
            let taken = attempt(rules.systems, rules.config, rest)->Accept_taken;
            let kind = attempt(rules.systems, rules.config, rest)->Accept_kind;
            let token = rules.token(pos, rest, taken, kind);
            in_progress(
                rules,
                full,
                if rules.keeps(kind) {
                    tokens.push(token)
                } else {
                    tokens
                },
                errors,
                token.end,
                rest.skip(taken as int),
            )
        }),
{
    let taken = attempt(rules.systems, rules.config, rest)->Accept_taken;
    let kind = attempt(rules.systems, rules.config, rest)->Accept_kind;
    let token = rules.token(pos, rest, taken, kind);
    let here = rules.lex(pos, rest);
    let tail = rules.lex(token.end, rest.skip(taken as int));
    if rules.keeps(kind) {
        assert(tokens + here.output =~= tokens.push(token) + tail.output);
    }
}

/// An unknown character that a recovering scanner skips is gathered as a token, its
/// error is gathered too, and the scan goes on behind it.
pub proof fn lemma_progress_skip(
    rules: Rules,
    full: Lexed,
    tokens: Seq<TokenView>,
    errors: Seq<LexicalErrorView>,
    pos: nat,
    rest: Seq<char>,
)
    requires
        in_progress(rules, full, tokens, errors, pos, rest),
        rest.len() > 0,
        attempt(rules.systems, rules.config, rest) is Decline,
        rules.recover,
    ensures
        ({
            let token = rules.token(pos, rest, 1, KindView::UnknownChar(rest[0]));
            let error = rules.error(pos, rest, 1, Fault::UnknownChar(rest[0]), true);
            in_progress(
                rules,
                full,
                tokens.push(token),
                errors.push(error),
                token.end,
                rest.skip(1),
            )
        }),
{
    let token = rules.token(pos, rest, 1, KindView::UnknownChar(rest[0]));
    let error = rules.error(pos, rest, 1, Fault::UnknownChar(rest[0]), true);
    let here = rules.lex(pos, rest);
    let tail = rules.lex(token.end, rest.skip(1));
    lemma_char_is_scalar(rest[0]);
    assert(tokens + here.output =~= tokens.push(token) + tail.output);
    assert(errors + here.errors =~= errors.push(error) + tail.errors);
}

/// An error of a rule, or an unknown character that is not skipped, ends the scan.
pub proof fn lemma_progress_stop(
    rules: Rules,
    full: Lexed,
    tokens: Seq<TokenView>,
    errors: Seq<LexicalErrorView>,
    pos: nat,
    rest: Seq<char>,
)
    requires
        in_progress(rules, full, tokens, errors, pos, rest),
        rest.len() > 0,
        attempt(rules.systems, rules.config, rest) is Fail || (attempt(
            rules.systems,
            rules.config,
            rest,
        ) is Decline && !rules.recover),
    ensures
        full.errors == errors,
        full.end == pos,
        full.fatal == Some(
            match attempt(rules.systems, rules.config, rest) {
                Outcome::Fail { taken, fault } => rules.error(pos, rest, taken, fault, false),
                _ => rules.error(pos, rest, 1, Fault::UnknownChar(rest[0]), false),
            },
        ),
{
    let here = rules.lex(pos, rest);
    assert(errors + here.errors =~= errors);
}

} // verus!
