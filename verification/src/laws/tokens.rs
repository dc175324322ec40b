//! Laws of the token sequence as a whole.

use vstd::prelude::*;
use vstd::std_specs::cmp::PartialEqSpec;
use vstd::utf8::{
    decode_utf8, encode_utf8, encode_utf8_decode_utf8, encode_utf8_valid_utf8, valid_utf8,
};
use crate::bytes::{lemma_run_len, lemma_run_unique, PERCENT};
use crate::directive::{Directive, Token};
use crate::grammar::{directive, lemma_token_span, parse, parse_from, token};
use crate::laws::encoding::lemma_ascii_in_text;
use crate::laws::sources::{is_source_of, lemma_round_trip};
use crate::outcome::{Outcome, Reason};

verus! {

/// The empty format string has no token, and is read to its end.
pub proof fn lemma_empty(s: Seq<u8>)
    requires
        s.len() == 0,
    ensures
        parse(s).tokens == Seq::<Token>::empty(),
        parse(s).stop is None,
{
}

/// A format string without `%` is one run of literal text: it reads as the
/// single token that holds the whole of it. This asks that the string is
/// not empty, since the empty string has no token at all, and that it is
/// text.
pub proof fn lemma_plain_text(s: Seq<u8>)
    requires
        s.len() > 0,
        valid_utf8(s),
        forall|k: int| 0 <= k < s.len() ==> s[k] != PERCENT,
    ensures
        parse(s).tokens == seq![Token::Literal(decode_utf8(s))],
        parse(s).sources == seq![s],
        parse(s).stop is None,
{
    lemma_run_unique(s, PERCENT, s.len() as int);
    assert(s.skip(0) =~= s);
    assert(s.take(s.len() as int) =~= s);
    assert(s.subrange(0, s.len() as int) =~= s);
    assert(parse_from(s, s.len()).tokens.len() == 0);
    assert(parse(s).tokens =~= seq![Token::Literal(decode_utf8(s))]);
    assert(parse(s).sources =~= seq![s]);
}

/// A text without the character `%` reads as one run of literal text that
/// holds it all, provided that it is not empty.
pub proof fn lemma_plain_text_chars(text: Seq<char>)
    requires
        text.len() > 0,
        !text.contains('%'),
    ensures
        parse(encode_utf8(text)).tokens == seq![Token::Literal(text)],
        parse(encode_utf8(text)).stop is None,
{
    let s = encode_utf8(text);
    encode_utf8_valid_utf8(text);
    encode_utf8_decode_utf8(text);
    lemma_ascii_in_text(s, PERCENT);
    assert forall|k: int| 0 <= k < s.len() implies s[k] != PERCENT by {
        if s[k] == PERCENT {
            assert(s.contains(PERCENT));
        }
    }
    if s.len() == 0 {
        assert(decode_utf8(s) =~= Seq::<char>::empty());
    }
    lemma_plain_text(s);
}

/// Reading is a function of the input. Two results that both meet the
/// contract of the parser on the same bytes end alike and hold as many
/// tokens, and their tokens are equal under `==`, place by place.
pub proof fn lemma_same_input_same_tokens(
    input: Seq<u8>,
    first: (Vec<Directive>, Outcome),
    second: (Vec<Directive>, Outcome),
)
    requires
        first.0.deep_view() == parse(input).tokens,
        first.1@ == parse(input).stop,
        second.0.deep_view() == parse(input).tokens,
        second.1@ == parse(input).stop,
    ensures
        first.0.len() == second.0.len(),
        forall|i: int| 0 <= i < first.0.len() ==> (#[trigger] first.0[i]).eq_spec(&second.0[i]),
        first.1 == second.1,
{
    assert(first.0.deep_view().len() == first.0.len());
    assert(second.0.deep_view().len() == second.0.len());
    assert forall|i: int| 0 <= i < first.0.len() implies (#[trigger] first.0[i]).eq_spec(
        &second.0[i],
    ) by {
        assert(first.0.deep_view()[i] == first.0[i]@);
        assert(second.0.deep_view()[i] == second.0[i]@);
    }
}

/// No token carries an empty text: a name in braces, a run of literal text
/// and the literal `%` all hold at least one character.
pub proof fn lemma_text_not_empty(s: Seq<u8>)
    ensures
        forall|i: int|
            0 <= i < parse(s).tokens.len() ==> ((#[trigger] parse(s).tokens[i]).text() matches Some(
                text,
            ) ==> text.len() > 0),
{
    lemma_round_trip(s);
    assert forall|i: int| 0 <= i < parse(s).tokens.len() implies ((#[trigger] parse(
        s,
    ).tokens[i]).text() matches Some(text) ==> text.len() > 0) by {
        let source = parse(s).sources[i];
        assert(is_source_of(source, parse(s).tokens[i]));
        reveal(is_source_of);
        lemma_run_len(source, PERCENT);
    }
}

/// Among the tokens read from `pos` on, a run of literal text holds no `%`
/// and is followed by a `%`, if by anything; the first source begins at
/// `pos`.
proof fn lemma_runs_from(s: Seq<u8>, pos: nat)
    requires
        pos <= s.len(),
    ensures
        parse_from(s, pos).sources.len() > 0 ==> pos < s.len() && parse_from(s, pos).sources[0][0]
            == s[pos as int],
        forall|i: int|
            0 <= i < parse_from(s, pos).sources.len() && (#[trigger] parse_from(
                s,
                pos,
            ).sources[i])[0] != PERCENT ==> {
                &&& !parse_from(s, pos).sources[i].contains(PERCENT)
                &&& i + 1 < parse_from(s, pos).sources.len() ==> parse_from(s, pos).sources[i
                    + 1][0] == PERCENT
            },
    decreases s.len() - pos,
{
    let p = parse_from(s, pos);
    if pos < s.len() {
        let here = s.skip(pos as int);
        if token(here) is Ok {
            let n = token(here)->Ok_0.1;
            lemma_token_span(here);
            lemma_run_len(here, PERCENT);
            let rest = parse_from(s, pos + n);
            lemma_runs_from(s, pos + n);
            assert forall|i: int|
                0 <= i < p.sources.len() && (#[trigger] p.sources[i])[0] != PERCENT implies {
                &&& !p.sources[i].contains(PERCENT)
                &&& i + 1 < p.sources.len() ==> p.sources[i + 1][0] == PERCENT
            } by {
                if i > 0 {
                    assert(p.sources[i] == rest.sources[i - 1]);
                    if i + 1 < p.sources.len() {
                        assert(p.sources[i + 1] == rest.sources[i]);
                    }
                } else {
                    if i + 1 < p.sources.len() {
                        assert(p.sources[1] == rest.sources[0]);
                    }
                }
            }
        }
    }
}

/// Runs of literal text are whole. The source of a token begins with `%`
/// or is a run of literal text; a run holds no `%`, neither among its bytes
/// nor among the characters of its token, and the token after a run, if
/// there is one, is not a run: two runs never stand side by side. The one
/// literal that is no run is the `%` that `%%` stands for.
pub proof fn lemma_literal_runs(s: Seq<u8>)
    ensures
        forall|i: int|
            0 <= i < parse(s).tokens.len() && (#[trigger] parse(s).sources[i])[0] != PERCENT ==> {
                &&& !parse(s).sources[i].contains(PERCENT)
                &&& parse(s).tokens[i] matches Token::Literal(text) && !text.contains('%')
                &&& i + 1 < parse(s).tokens.len() ==> parse(s).sources[i + 1][0] == PERCENT
            },
        forall|i: int|
            0 <= i < parse(s).tokens.len() && (#[trigger] parse(s).sources[i])[0] == PERCENT
                && parse(s).tokens[i] is Literal ==> {
                &&& parse(s).sources[i] == seq![PERCENT, PERCENT]
                &&& parse(s).tokens[i] == Token::Literal(seq!['%'])
            },
{
    lemma_round_trip(s);
    lemma_runs_from(s, 0);
    assert forall|i: int|
        0 <= i < parse(s).tokens.len() && (#[trigger] parse(s).sources[i])[0] != PERCENT implies {
        &&& !parse(s).sources[i].contains(PERCENT)
        &&& parse(s).tokens[i] matches Token::Literal(text) && !text.contains('%')
        &&& i + 1 < parse(s).tokens.len() ==> parse(s).sources[i + 1][0] == PERCENT
    } by {
        let source = parse(s).sources[i];
        assert(is_source_of(source, parse(s).tokens[i]));
        reveal(is_source_of);
        let text = parse(s).tokens[i]->Literal_0;
        encode_utf8_valid_utf8(text);
        encode_utf8_decode_utf8(text);
        lemma_ascii_in_text(source, PERCENT);
    }
    assert forall|i: int|
        0 <= i < parse(s).tokens.len() && (#[trigger] parse(s).sources[i])[0] == PERCENT && parse(
            s,
        ).tokens[i] is Literal implies {
        &&& parse(s).sources[i] == seq![PERCENT, PERCENT]
        &&& parse(s).tokens[i] == Token::Literal(seq!['%'])
    } by {
        let source = parse(s).sources[i];
        assert(is_source_of(source, parse(s).tokens[i]));
        reveal(is_source_of);
        assert(source =~= seq![PERCENT, PERCENT]);
    }
}

/// The reading from `pos` on has no more tokens than there are bytes left,
/// and stops early only at bytes that are no token.
proof fn lemma_stop_from(s: Seq<u8>, pos: nat)
    requires
        pos <= s.len(),
    ensures
        parse_from(s, pos).tokens.len() <= s.len() - pos,
        parse_from(s, pos).stop matches Some((at, why)) ==> {
            &&& pos <= at < s.len()
            &&& token(s.skip(at as int)) == Err::<(Token, nat), Reason>(why)
        },
    decreases s.len() - pos,
{
    if pos < s.len() {
        let here = s.skip(pos as int);
        lemma_token_span(here);
        if token(here) is Ok {
            lemma_stop_from(s, pos + token(here)->Ok_0.1);
        }
    }
}

/// Where a reading stops early, and how long it can be.
///
/// There are no more tokens than bytes. A reading that stops early stops
/// inside the input, at bytes that are no token, and gives the reason why
/// they are none. It stops either at a `%`, with the reason why no
/// directive stands there, or at a run of literal text that is not
/// well-formed UTF-8.
pub proof fn lemma_stop(s: Seq<u8>)
    ensures
        parse(s).tokens.len() <= s.len(),
        parse(s).stop matches Some((at, why)) ==> {
            &&& at < s.len()
            &&& token(s.skip(at as int)) == Err::<(Token, nat), Reason>(why)
            &&& s[at as int] == PERCENT ==> directive(s.skip(at as int)) == Err::<
                (Token, nat),
                Reason,
            >(why)
            &&& s[at as int] != PERCENT ==> why == Reason::InvalidUtf8
        },
{
    lemma_stop_from(s, 0);
    if parse(s).stop is Some {
        let at = parse(s).stop->Some_0.0 as int;
        lemma_run_len(s.skip(at), PERCENT);
    }
}

} // verus!
