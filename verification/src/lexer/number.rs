//! The rule for numeric literals.

use crate::interfaces::lexer::lexer_errors::{Fault, LexicalError};
use crate::interfaces::lexer::token::{KindView, Literal, LiteralView, Token, TokenKind};
use crate::intern::intern_string;
use crate::lexer::config::{
    lemma_suffix_lookup, suffix_lookup, suffix_views, ConfigView, LexerConfig, NumericSuffix,
    NumericType,
};
use crate::lexer::lexer_state::LexerState;
use crate::lexer::scan::{
    error_to_here, lemma_advance, lemma_first, lemma_run_len_maximal, rule_post, run_len,
    take_run, token_to_here, CharClass, Outcome,
};
use crate::lexer::keyword::word_len;
use crate::utils::chars::{
    decimal_digit, digit_value, is_digit, is_word_start, text_width, to_text, word_start,
};
use crate::utils::decimal::nat_text;
use vstd::prelude::*;

verus! {

/// The number that a run of decimal digits stands for.
pub open spec fn decimal_value(digits: Seq<char>) -> nat
    decreases digits.len(),
{
    if digits.len() == 0 {
        0
    } else {
        10 * decimal_value(digits.drop_last()) + digit_value(digits.last())
    }
}

/// A prefix of a run of digits never stands for more than the whole run.
pub proof fn lemma_decimal_value_prefix(digits: Seq<char>, n: int)
    requires
        0 <= n <= digits.len(),
    ensures
        decimal_value(digits.take(n)) <= decimal_value(digits),
    decreases digits.len() - n,
{
    if n < digits.len() {
        lemma_decimal_value_prefix(digits, n + 1);
        assert(digits.take(n + 1).drop_last() =~= digits.take(n));
    } else {
        assert(digits.take(n) =~= digits);
    }
}

/// Reading back what [`nat_text`] writes gives the number that was written.
pub proof fn lemma_decimal_round_trip(n: nat)
    ensures
        decimal_value(nat_text(n)) == n,
        nat_text(n).len() > 0,
        forall|i: int| 0 <= i < nat_text(n).len() ==> is_digit(#[trigger] nat_text(n)[i]),
    decreases n,
{
    if n >= 10 {
        lemma_decimal_round_trip(n / 10);
        assert(nat_text(n).drop_last() =~= nat_text(n / 10));
    } else {
        assert(nat_text(n).drop_last() =~= Seq::<char>::empty());
        assert(decimal_value(Seq::<char>::empty()) == 0);
    }
}

/// The number that `digits` stands for, unless it is too large for a `u128`.
pub fn parse_decimal(digits: &[char]) -> (value: Option<u128>)
    requires
        forall|i: int| 0 <= i < digits@.len() ==> is_digit(#[trigger] digits@[i]),
    ensures
        value matches Some(v) ==> v == decimal_value(digits@),
        value is None ==> decimal_value(digits@) > u128::MAX,
{
    let mut value: u128 = 0;
    let mut i: usize = 0;
    while i < digits.len()
        invariant
            i <= digits.len(),
            forall|i: int| 0 <= i < digits@.len() ==> is_digit(#[trigger] digits@[i]),
            value == decimal_value(digits@.take(i as int)),
        decreases digits.len() - i,
    {
        let digit: u128 = (digits[i] as u32 - '0' as u32) as u128;
        proof {
            assert(digits@.take(i + 1).drop_last() =~= digits@.take(i as int));
            assert(digits@.take(i + 1).last() == digits@[i as int]);
            assert(digit == digit_value(digits@[i as int]));
        }
        if value > (u128::MAX - digit) / 10 {
            proof {
                lemma_decimal_value_prefix(digits@, i + 1);
            }
            return None;
        }
        value = value * 10 + digit;
        i = i + 1;
    }
    assert(digits@.take(digits.len() as int) =~= digits@);
    Some(value)
}

/// Length of the run of digits at the start of `rest`.
pub open spec fn whole_len(rest: Seq<char>) -> nat {
    run_len(rest, CharClass::Digit)
}

/// Whether the digits at the start of `rest` are followed by a decimal point and at
/// least one more digit.
pub open spec fn has_fraction(rest: Seq<char>) -> bool {
    let n = whole_len(rest) as int;
    n + 1 < rest.len() && rest[n] == '.' && is_digit(rest[n + 1])
}

/// Length of the number at the start of `rest`, without its suffix: the digits, and
/// where a fraction follows, the point and the digits after it.
pub open spec fn number_len(rest: Seq<char>) -> nat {
    let n = whole_len(rest);
    if has_fraction(rest) {
        n + 1 + run_len(rest.skip(n as int + 1), CharClass::Digit)
    } else {
        n
    }
}

/// The literal that the text of a number is read as. Without a suffix a number with
/// a fraction is a `Float`, and one without is an `Int`. With a suffix it is of the
/// type that the suffix names. A number with a fraction is no integer, and an integer
/// must not be greater than the largest value of its type.
pub open spec fn literal_of(
    ty: Option<NumericType>,
    fractional: bool,
    text: Seq<char>,
) -> Option<LiteralView> {
    let value = decimal_value(text);
    match ty {
        None => if fractional {
            Some(LiteralView::Float(text))
        } else if value <= i64::MAX {
            Some(LiteralView::Int(value as i64))
        } else {
            None
        },
        Some(NumericType::F32) => Some(LiteralView::F32(text)),
        Some(NumericType::F64) => Some(LiteralView::F64(text)),
        Some(_) if fractional => None,
        Some(NumericType::I8) => if value <= i8::MAX {
            Some(LiteralView::I8(value as i8))
        } else {
            None
        },
        Some(NumericType::I16) => if value <= i16::MAX {
            Some(LiteralView::I16(value as i16))
        } else {
            None
        },
        Some(NumericType::I32) => if value <= i32::MAX {
            Some(LiteralView::I32(value as i32))
        } else {
            None
        },
        Some(NumericType::I64) => if value <= i64::MAX {
            Some(LiteralView::I64(value as i64))
        } else {
            None
        },
        Some(NumericType::I128) => if value <= i128::MAX {
            Some(LiteralView::I128(value as i128))
        } else {
            None
        },
        Some(NumericType::U8) => if value <= u8::MAX {
            Some(LiteralView::U8(value as u8))
        } else {
            None
        },
        Some(NumericType::U16) => if value <= u16::MAX {
            Some(LiteralView::U16(value as u16))
        } else {
            None
        },
        Some(NumericType::U32) => if value <= u32::MAX {
            Some(LiteralView::U32(value as u32))
        } else {
            None
        },
        Some(NumericType::U64) => if value <= u64::MAX {
            Some(LiteralView::U64(value as u64))
        } else {
            None
        },
        Some(NumericType::U128) => if value <= u128::MAX {
            Some(LiteralView::U128(value as u128))
        } else {
            None
        },
    }
}

/// Whether `after`, the input behind a number, goes on with a word that a strict
/// configuration does not accept: a word that starts with no configured suffix.
pub open spec fn unknown_suffix(config: ConfigView, after: Seq<char>) -> bool {
    &&& config.strict_suffixes
    &&& suffix_lookup(config.suffixes, after) is None
    &&& after.len() > 0
    &&& is_word_start(after[0])
}

/// Input that starts with a digit is read as a number: the longest run of digits,
/// then a point and more digits where a digit follows the point, then the first
/// configured suffix that the input goes on with. The number is in error, suffix
/// included, where its text is no value of the type it is read as. Under a strict
/// configuration the number and the word behind it are in error where that word
/// starts with no configured suffix. Anything else is declined.
pub open spec fn number_outcome(config: ConfigView, rest: Seq<char>) -> Outcome {
    if rest.len() > 0 && is_digit(rest[0]) {
        let len = number_len(rest);
        let text = rest.take(len as int);
        let after = rest.skip(len as int);
        let (ty, taken) = match suffix_lookup(config.suffixes, after) {
            Some(rule) => (Some(rule.ty), len + rule.suffix.len()),
            None => (None, len),
        };
        if unknown_suffix(config, after) {
            Outcome::Fail { taken: len + word_len(after), fault: Fault::UnknownSuffix }
        } else {
            match literal_of(ty, has_fraction(rest), text) {
                Some(literal) => Outcome::Accept { taken, kind: KindView::Literal(literal) },
                None => Outcome::Fail { taken, fault: Fault::MalformedNumber },
            }
        }
    } else {
        Outcome::Decline
    }
}

/// Consumes `text` if the input goes on with it, and nothing otherwise.
pub fn take_text(state: &mut LexerState, text: &[char]) -> (taken: bool)
    requires
        old(state).wf(),
    ensures
        taken == text@.is_prefix_of(old(state).rest()),
        !taken ==> *final(state) == *old(state),
        taken ==> {
            &&& final(state).wf()
            &&& final(state).source() == old(state).source()
            &&& final(state).rest() == old(state).rest().skip(text@.len() as int)
            &&& final(state).pos() == old(state).pos() + text_width(
                old(state).rest().take(text@.len() as int),
            )
        },
{
    let ghost rest = state.rest();
    let mut trial = *state;
    let mut i: usize = 0;
    proof {
        assert(rest.skip(0) =~= rest);
        assert(rest.take(0) =~= Seq::<char>::empty());
        lemma_advance(rest, 0, 0);
    }
    while i < text.len()
        invariant
            i <= text.len(),
            i <= rest.len(),
            *state == *old(state),
            rest == old(state).rest(),
            trial.wf(),
            trial.source() == old(state).source(),
            trial.rest() == rest.skip(i as int),
            trial.pos() == old(state).pos() + text_width(rest.take(i as int)),
            forall|k: int| 0 <= k < i ==> text@[k] == rest[k],
        decreases text.len() - i,
    {
        let matched: bool = match trial.next() {
            Some(c) => c == text[i],
            None => false,
        };
        if !matched {
            proof {
                if text@.is_prefix_of(rest) {
                    assert(text@[i as int] == rest.subrange(0, text@.len() as int)[i as int]);
                }
            }
            return false;
        }
        proof {
            lemma_first(rest.skip(i as int));
            lemma_advance(rest, i as int, 1);
        }
        i = i + 1;
    }
    proof {
        assert(text@ =~= rest.subrange(0, text@.len() as int));
    }
    *state = trial;
    true
}

/// Consumes the first of `rules` whose suffix the input goes on with, and says which
/// type it names.
pub fn take_suffix(state: &mut LexerState, rules: &Vec<NumericSuffix>) -> (found: Option<
    NumericType,
>)
    requires
        old(state).wf(),
    ensures
        match suffix_lookup(suffix_views(rules@), old(state).rest()) {
            Some(rule) => {
                &&& found == Some(rule.ty)
                &&& final(state).wf()
                &&& final(state).source() == old(state).source()
                &&& final(state).rest() == old(state).rest().skip(rule.suffix.len() as int)
                &&& final(state).pos() == old(state).pos() + text_width(
                    old(state).rest().take(rule.suffix.len() as int),
                )
            },
            None => found is None && *final(state) == *old(state),
        },
{
    let ghost views = suffix_views(rules@);
    let ghost rest = state.rest();
    let mut i: usize = 0;
    assert(views.skip(0) =~= views);
    while i < rules.len()
        invariant
            i <= rules.len(),
            *state == *old(state),
            state.wf(),
            rest == state.rest(),
            views == suffix_views(rules@),
            suffix_lookup(views, rest) == suffix_lookup(views.skip(i as int), rest),
        decreases rules.len() - i,
    {
        proof {
            assert(views.skip(i as int)[0] == rules@[i as int]@);
            assert(views.skip(i as int).drop_first() =~= views.skip(i + 1));
        }
        if take_text(state, rules[i].suffix.as_slice()) {
            return Some(rules[i].ty);
        }
        i = i + 1;
    }
    None
}

/// The literal that the text of a number is read as, unless it is no value of the
/// type asked for.
pub fn make_literal(ty: Option<NumericType>, fractional: bool, text: &Vec<char>) -> (literal:
    Option<Literal>)
    requires
        !fractional ==> forall|i: int| 0 <= i < text@.len() ==> is_digit(#[trigger] text@[i]),
    ensures
        match literal_of(ty, fractional, text@) {
            Some(view) => literal matches Some(l) && l@ == view,
            None => literal is None,
        },
{
    match ty {
        None if fractional => {
            return Some(Literal::Float(intern_string(to_text(text.as_slice()))));
        },
        Some(NumericType::F32) => {
            return Some(Literal::F32(intern_string(to_text(text.as_slice()))));
        },
        Some(NumericType::F64) => {
            return Some(Literal::F64(intern_string(to_text(text.as_slice()))));
        },
        _ => {},
    }
    if fractional {
        return None;
    }
    let value: u128 = match parse_decimal(text.as_slice()) {
        Some(value) => value,
        None => {
            return None;
        },
    };
    match ty {
        None => if value <= i64::MAX as u128 {
            Some(Literal::Int(value as i64))
        } else {
            None
        },
        Some(NumericType::I8) => if value <= i8::MAX as u128 {
            Some(Literal::I8(value as i8))
        } else {
            None
        },
        Some(NumericType::I16) => if value <= i16::MAX as u128 {
            Some(Literal::I16(value as i16))
        } else {
            None
        },
        Some(NumericType::I32) => if value <= i32::MAX as u128 {
            Some(Literal::I32(value as i32))
        } else {
            None
        },
        Some(NumericType::I64) => if value <= i64::MAX as u128 {
            Some(Literal::I64(value as i64))
        } else {
            None
        },
        Some(NumericType::I128) => if value <= i128::MAX as u128 {
            Some(Literal::I128(value as i128))
        } else {
            None
        },
        Some(NumericType::U8) => if value <= u8::MAX as u128 {
            Some(Literal::U8(value as u8))
        } else {
            None
        },
        Some(NumericType::U16) => if value <= u16::MAX as u128 {
            Some(Literal::U16(value as u16))
        } else {
            None
        },
        Some(NumericType::U32) => if value <= u32::MAX as u128 {
            Some(Literal::U32(value as u32))
        } else {
            None
        },
        Some(NumericType::U64) => if value <= u64::MAX as u128 {
            Some(Literal::U64(value as u64))
        } else {
            None
        },
        Some(NumericType::U128) => Some(Literal::U128(value)),
        Some(NumericType::F32) => None,
        Some(NumericType::F64) => None,
    }
}

/// Reads a numeric literal.
pub fn default_number(c: char, state: &mut LexerState, config: &LexerConfig) -> (result: Result<
    Option<Token>,
    LexicalError,
>)
    requires
        old(state).wf(),
        old(state).rest().len() > 0,
        old(state).rest()[0] == c,
    ensures
        rule_post(
            *old(state),
            *final(state),
            number_outcome(config@, old(state).rest()),
            result,
        ),
{
    if !decimal_digit(c) {
        return Ok(None);
    }
    let start = state.position();
    let ghost rest = state.rest();
    let ghost whole = whole_len(rest) as int;
    let ghost len = number_len(rest) as int;
    let mut text: Vec<char> = Vec::new();
    take_run(state, CharClass::Digit, &mut text);
    proof {
        lemma_run_len_maximal(rest, CharClass::Digit);
        assert(text@ =~= rest.take(whole));
    }
    let mut fractional = false;
    let mut trial = *state;
    let point: bool = match trial.next() {
        Some(next) => next == '.',
        None => false,
    };
    let digit_follows: bool = match trial.peek() {
        Some(next) => decimal_digit(*next),
        None => false,
    };
    if point && digit_follows {
        proof {
            lemma_first(rest.skip(whole));
            lemma_advance(rest, whole, 1);
            lemma_run_len_maximal(rest.skip(whole + 1), CharClass::Digit);
            lemma_advance(rest, whole + 1, len - whole - 1);
            assert(rest.take(whole + 1) =~= rest.take(whole).push('.'));
        }
        text.push('.');
        *state = trial;
        take_run(state, CharClass::Digit, &mut text);
        fractional = true;
    }
    assert(fractional == has_fraction(rest));
    assert(text@ =~= rest.take(len));
    assert(state.rest() == rest.skip(len));
    assert(state.pos() == old(state).pos() + text_width(rest.take(len)));
    let ty = take_suffix(state, config.suffixes());
    if ty.is_none() && config.has_strict_suffixes() {
        let word_follows: bool = match state.peek() {
            Some(next) => word_start(*next),
            None => false,
        };
        if word_follows {
            let ghost after = rest.skip(len);
            let mut word: Vec<char> = Vec::new();
            state.next();
            take_run(state, CharClass::WordPart, &mut word);
            proof {
                let n = run_len(after.drop_first(), CharClass::WordPart) as int;
                lemma_first(after);
                lemma_run_len_maximal(after.drop_first(), CharClass::WordPart);
                lemma_advance(after, 1, n);
                lemma_advance(rest, len, 1 + n);
            }
            return Err(error_to_here(start, state, Fault::UnknownSuffix));
        }
    }
    proof {
        lemma_suffix_lookup(config@.suffixes, rest.skip(len));
        match suffix_lookup(config@.suffixes, rest.skip(len)) {
            Some(rule) => {
                assert(rule.suffix.len() <= rest.skip(len).len());
                lemma_advance(rest, len, rule.suffix.len() as int);
            },
            None => {},
        }
    }
    match make_literal(ty, fractional, &text) {
        Some(literal) => Ok(Some(token_to_here(start, state, TokenKind::Literal(literal)))),
        None => Err(error_to_here(start, state, Fault::MalformedNumber)),
    }
}

} // verus!
