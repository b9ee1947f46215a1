//! What holds of every scan.

use crate::interfaces::lexer::lexer_errors::LexicalError;
use crate::interfaces::lexer::token::{KindView, Token, TokenView};
use crate::lexer::model::{attempt, lemma_attempt_progress, Rules};
use crate::lexer::scan::{lemma_advance, Outcome};
use crate::lexer::scan_view;
use crate::utils::chars::{lemma_char_is_scalar, lemma_encode_concat, text_width};
use vstd::prelude::*;
use vstd::utf8::*;

verus! {

/// A scan that succeeds hands out at least two tokens: it starts with the empty
/// start sentinel at byte 0 and ends with the empty end sentinel where the scan
/// ended. There is no empty success.
pub proof fn lemma_scan_sentinels(rules: Rules, text: Seq<char>)
    ensures
        rules.scan(text) matches Ok(tokens) ==> {
            &&& tokens.len() >= 2
            &&& tokens.first() == rules.sentinel(0, KindView::SoI)
            &&& tokens.last() == rules.sentinel(rules.lex(0, text).end, KindView::EoI)
        },
        rules.scan(text) is Ok <==> rules.lex(0, text).fatal is None,
{
}

/// Two scans of the same text by the same rules come to the same: the same tokens,
/// or the same error.
pub proof fn lemma_scan_deterministic(
    rules: Rules,
    text: Seq<char>,
    first: Result<Vec<Token>, LexicalError>,
    second: Result<Vec<Token>, LexicalError>,
)
    requires
        scan_view(first) == rules.scan(text),
        scan_view(second) == rules.scan(text),
    ensures
        scan_view(first) == scan_view(second),
{
}

/// Every token lies between `low` and `high`, and none starts before the one in
/// front of it ends.
pub open spec fn in_order(tokens: Seq<TokenView>, low: nat, high: nat) -> bool {
    &&& forall|i: int|
        0 <= i < tokens.len() ==> low <= (#[trigger] tokens[i]).start <= tokens[i].end <= high
    &&& forall|i: int, j: int|
        0 <= i < j < tokens.len() ==> (#[trigger] tokens[i]).end <= (#[trigger] tokens[j]).start
}

/// A token in front of tokens in order, which ends where they begin, keeps the order.
pub proof fn lemma_in_order_cons(
    token: TokenView,
    tokens: Seq<TokenView>,
    low: nat,
    high: nat,
)
    requires
        low <= token.start <= token.end <= high,
        in_order(tokens, token.end, high),
    ensures
        in_order(seq![token] + tokens, low, high),
{
    let all = seq![token] + tokens;
    assert forall|i: int| 0 <= i < all.len() implies low <= (#[trigger] all[i]).start
        <= all[i].end <= high by {
        if i > 0 {
            assert(all[i] == tokens[i - 1]);
        }
    }
    assert forall|i: int, j: int| 0 <= i < j < all.len() implies (#[trigger] all[i]).end <= (
    #[trigger] all[j]).start by {
        assert(all[j] == tokens[j - 1]);
        if i > 0 {
            assert(all[i] == tokens[i - 1]);
        }
    }
}

/// Tokens in order stay in order between wider limits.
pub proof fn lemma_in_order_widen(tokens: Seq<TokenView>, low: nat, inner: nat, high: nat)
    requires
        low <= inner,
        in_order(tokens, inner, high),
    ensures
        in_order(tokens, low, high),
{
}

/// The tokens read from `rest`, which starts at byte `pos`, lie in order between
/// `pos` and the end of `rest`, those handed out as well as those read; so do the
/// errors; and the scan ends inside those limits, at the very end if nothing stopped it.
pub proof fn lemma_lex_in_order(rules: Rules, pos: nat, rest: Seq<char>)
    ensures
        ({
            let lexed = rules.lex(pos, rest);
            let high = pos + text_width(rest);
            &&& in_order(lexed.trace, pos, high)
            &&& in_order(lexed.output, pos, high)
            &&& pos <= lexed.end <= high
            &&& lexed.fatal is None ==> lexed.end == high
            &&& lexed.fatal matches Some(error) ==> lexed.end == error.start <= error.end <= high
            &&& forall|i: int|
                0 <= i < lexed.errors.len() ==> pos <= (#[trigger] lexed.errors[i]).start
                    <= lexed.errors[i].end <= high
        }),
    decreases rest.len(),
{
    let lexed = rules.lex(pos, rest);
    let high = pos + text_width(rest);
    if rest.len() == 0 {
        assert(rest =~= Seq::<char>::empty());
    } else {
        lemma_attempt_progress(rules.systems, rules.config, rest);
        lemma_char_is_scalar(rest[0]);
        match attempt(rules.systems, rules.config, rest) {
            Outcome::Accept { taken, kind } => {
                let token = rules.token(pos, rest, taken, kind);
                let tail = rules.lex(token.end, rest.skip(taken as int));
                lemma_advance(rest, taken as int, rest.len() - taken);
                assert(rest.take(rest.len() as int) =~= rest);
                assert(rest.skip(taken as int).take(rest.len() - taken) =~= rest.skip(
                    taken as int,
                ));
                lemma_lex_in_order(rules, token.end, rest.skip(taken as int));
                lemma_in_order_cons(token, tail.trace, pos, high);
                if rules.keeps(kind) {
                    lemma_in_order_cons(token, tail.output, pos, high);
                } else {
                    lemma_in_order_widen(tail.output, pos, token.end, high);
                }
            },
            Outcome::Fail { taken, fault } => {
                lemma_advance(rest, taken as int, rest.len() - taken);
                assert(rest.take(rest.len() as int) =~= rest);
            },
            Outcome::Decline => {
                lemma_advance(rest, 1, rest.len() - 1);
                assert(rest.take(rest.len() as int) =~= rest);
                assert(rest.skip(1).take(rest.len() - 1) =~= rest.skip(1));
                if rules.recover {
                    let token = rules.token(pos, rest, 1, KindView::UnknownChar(rest[0]));
                    let tail = rules.lex(token.end, rest.skip(1));
                    lemma_lex_in_order(rules, token.end, rest.skip(1));
                    lemma_in_order_cons(token, tail.trace, pos, high);
                    lemma_in_order_cons(token, tail.output, pos, high);
                    assert forall|i: int| 0 <= i < lexed.errors.len() implies pos <= (
                    #[trigger] lexed.errors[i]).start <= lexed.errors[i].end <= high by {
                        if i > 0 {
                            assert(lexed.errors[i] == tail.errors[i - 1]);
                        }
                    }
                }
            },
        }
    }
}

/// The spans of a scan that succeeds are monotonic: every token, the two sentinels
/// included, lies inside the text, and none starts before the one in front of it
/// ends.
pub proof fn lemma_scan_in_order(rules: Rules, text: Seq<char>)
    ensures
        rules.scan(text) matches Ok(tokens) ==> in_order(tokens, 0, text_width(text)),
        rules.scan(text) matches Err(error) ==> error.start <= error.end <= text_width(text),
{
    lemma_lex_in_order(rules, 0, text);
    let lexed = rules.lex(0, text);
    if lexed.fatal is None {
        let first = rules.sentinel(0, KindView::SoI);
        let last = rules.sentinel(lexed.end, KindView::EoI);
        let tokens = seq![first] + lexed.output + seq![last];
        let high = text_width(text);
        assert forall|i: int| 0 <= i < tokens.len() implies 0 <= (#[trigger] tokens[i]).start
            <= tokens[i].end <= high by {
            if 0 < i < tokens.len() - 1 {
                assert(tokens[i] == lexed.output[i - 1]);
            }
        }
        assert forall|i: int, j: int| 0 <= i < j < tokens.len() implies (
        #[trigger] tokens[i]).end <= (#[trigger] tokens[j]).start by {
            if 0 < i {
                assert(tokens[i] == lexed.output[i - 1]);
            }
            if j < tokens.len() - 1 {
                assert(tokens[j] == lexed.output[j - 1]);
            }
        }
    }
}

/// The pieces of `source` that the spans of `tokens` denote, one after the other.
pub open spec fn slices(source: Seq<u8>, tokens: Seq<TokenView>) -> Seq<u8>
    decreases tokens.len(),
{
    if tokens.len() == 0 {
        seq![]
    } else {
        source.subrange(tokens[0].start as int, tokens[0].end as int) + slices(
            source,
            tokens.drop_first(),
        )
    }
}

/// Where `rest` is what `source` holds from byte `pos` on, the tokens read from
/// `rest` denote, one after the other, all that `source` holds from `pos` on.
pub proof fn lemma_lex_round_trip(rules: Rules, source: Seq<u8>, pos: nat, rest: Seq<char>)
    requires
        pos <= source.len(),
        source.subrange(pos as int, source.len() as int) == encode_utf8(rest),
        rules.lex(pos, rest).fatal is None,
    ensures
        slices(source, rules.lex(pos, rest).trace) == source.subrange(
            pos as int,
            source.len() as int,
        ),
    decreases rest.len(),
{
    let lexed = rules.lex(pos, rest);
    let tail_bytes = source.subrange(pos as int, source.len() as int);
    if rest.len() == 0 {
        assert(rest =~= Seq::<char>::empty());
        assert(tail_bytes =~= Seq::<u8>::empty());
    } else {
        lemma_attempt_progress(rules.systems, rules.config, rest);
        lemma_char_is_scalar(rest[0]);
        let taken: int = match attempt(rules.systems, rules.config, rest) {
            Outcome::Accept { taken, .. } => taken as int,
            _ => 1,
        };
        let token = lexed.trace[0];
        let tail = rules.lex(token.end, rest.skip(taken));
        assert(lexed.trace.drop_first() =~= tail.trace);
        lemma_encode_concat(rest.take(taken), rest.skip(taken));
        assert(rest.take(taken) + rest.skip(taken) =~= rest);
        assert(source.subrange(token.end as int, source.len() as int) =~= encode_utf8(
            rest.skip(taken),
        )) by {
            assert(tail_bytes.subrange(text_width(rest.take(taken)) as int, tail_bytes.len() as int)
                =~= encode_utf8(rest.skip(taken)));
        }
        lemma_lex_round_trip(rules, source, token.end, rest.skip(taken));
        assert(source.subrange(pos as int, token.end as int) + source.subrange(
            token.end as int,
            source.len() as int,
        ) =~= tail_bytes);
    }
}

/// Round trip: the source slices that the spans of all the tokens read denote,
/// blanks included, make up the source text again, byte for byte.
pub proof fn lemma_scan_round_trip(rules: Rules, text: Seq<char>)
    requires
        rules.scan(text) is Ok,
    ensures
        slices(encode_utf8(text), rules.lex(0, text).trace) == encode_utf8(text),
{
    let source = encode_utf8(text);
    assert(source.subrange(0, source.len() as int) =~= source);
    lemma_lex_round_trip(rules, source, 0, text);
}

/// A scanner that keeps blanks hands out every token it reads.
pub proof fn lemma_output_is_trace(rules: Rules, pos: nat, rest: Seq<char>)
    requires
        rules.config.allow_whitespace,
    ensures
        rules.lex(pos, rest).output == rules.lex(pos, rest).trace,
    decreases rest.len(),
{
    if rest.len() > 0 {
        lemma_attempt_progress(rules.systems, rules.config, rest);
        match attempt(rules.systems, rules.config, rest) {
            Outcome::Accept { taken, kind } => {
                let token = rules.token(pos, rest, taken, kind);
                lemma_output_is_trace(rules, token.end, rest.skip(taken as int));
            },
            Outcome::Fail { .. } => {},
            Outcome::Decline => {
                if rules.recover {
                    let token = rules.token(pos, rest, 1, KindView::UnknownChar(rest[0]));
                    lemma_output_is_trace(rules, token.end, rest.skip(1));
                }
            },
        }
    }
}

/// The pieces that tokens denote, followed by the piece of one more token.
pub proof fn lemma_slices_push(source: Seq<u8>, tokens: Seq<TokenView>, last: TokenView)
    ensures
        slices(source, tokens.push(last)) == slices(source, tokens) + source.subrange(
            last.start as int,
            last.end as int,
        ),
    decreases tokens.len(),
{
    let piece = source.subrange(last.start as int, last.end as int);
    if tokens.len() == 0 {
        assert(tokens.push(last).drop_first() =~= tokens);
        assert(slices(source, tokens.push(last)) =~= slices(source, tokens) + piece);
    } else {
        lemma_slices_push(source, tokens.drop_first(), last);
        assert(tokens.push(last).drop_first() =~= tokens.drop_first().push(last));
        assert(slices(source, tokens.push(last)) =~= slices(source, tokens) + piece);
    }
}

/// Round trip for a scanner that keeps blanks: the source slices that the spans of
/// the tokens handed out denote make up the source text again, byte for byte.
pub proof fn lemma_scan_round_trip_kept(rules: Rules, text: Seq<char>)
    requires
        rules.config.allow_whitespace,
        rules.scan(text) is Ok,
    ensures
        slices(encode_utf8(text), rules.scan(text)->Ok_0) == encode_utf8(text),
{
    let source = encode_utf8(text);
    let lexed = rules.lex(0, text);
    let first = rules.sentinel(0, KindView::SoI);
    let last = rules.sentinel(lexed.end, KindView::EoI);
    lemma_output_is_trace(rules, 0, text);
    lemma_lex_in_order(rules, 0, text);
    lemma_scan_round_trip(rules, text);
    lemma_slices_push(source, seq![first] + lexed.output, last);
    assert((seq![first] + lexed.output).push(last) =~= seq![first] + lexed.output + seq![last]);
    assert((seq![first] + lexed.output).drop_first() =~= lexed.output);
    assert(source.subrange(0, 0) + slices(source, lexed.output) =~= slices(source, lexed.output));
    assert(source + source.subrange(lexed.end as int, lexed.end as int) =~= source);
}

} // verus!
