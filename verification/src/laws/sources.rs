//! Every token has a source: the reading accounts for the input, byte for
//! byte.

use vstd::prelude::*;
use vstd::string::StringSliceAdditionalSpecFns;
use vstd::utf8::{decode_utf8_encode_utf8, encode_utf8};
use crate::bytes::{lemma_run_len, lemma_run_unique, run_len, CLOSE_BRACE, PERCENT};
use crate::directive::Token;
use crate::grammar::{
    braces, custom_pid, custom_port, directive_body, keyword, lemma_token_span, named, parse,
    parse_from, token, Parse,
};
use crate::laws::forms::lemma_first_match_wins;
use crate::laws::words::lemma_prefix;
use crate::outcome::Reason;

verus! {

/// A run that ends within the first `m` bytes is the run of those bytes too.
proof fn lemma_run_local(s: Seq<u8>, stop: u8, m: int)
    requires
        run_len(s, stop) <= m <= s.len(),
    ensures
        run_len(s.take(m), stop) == run_len(s, stop),
{
    lemma_run_len(s, stop);
    lemma_run_unique(s.take(m), stop, run_len(s, stop) as int);
}

/// A parameter read from some bytes is read alike from any prefix of them
/// that holds it.
proof fn lemma_braces_local(s: Seq<u8>, m: int)
    requires
        braces(s) is Ok,
        braces(s)->Ok_0.1 <= m <= s.len(),
    ensures
        braces(s.take(m)) == braces(s),
{
    let n = braces(s)->Ok_0.1 as int;
    assert(s.take(m).skip(1) =~= s.skip(1).take(m - 1));
    lemma_run_local(s.skip(1), CLOSE_BRACE, m - 1);
    assert(s.take(m).subrange(1, n - 1) =~= s.subrange(1, n - 1));
}

/// Whether a word stands at the head of some bytes is decided by any prefix
/// of them that is as long as the word.
proof fn lemma_prefix_local(w: Seq<u8>, s: Seq<u8>, m: int)
    requires
        0 <= m <= s.len(),
    ensures
        w.is_prefix_of(s.take(m)) <==> w.is_prefix_of(s) && w.len() <= m,
{
    lemma_prefix(w, s);
    lemma_prefix(w, s.take(m));
}

/// A word read from some bytes is read alike from the bytes it spans.
proof fn lemma_keyword_local<T>(s: Seq<u8>, word: &str, value: T)
    ensures
        keyword(s, word, value) matches Ok((_, n)) ==> n <= s.len() && keyword(
            s.take(n as int),
            word,
            value,
        ) == keyword(s, word, value),
{
    if keyword(s, word, value) is Ok {
        lemma_prefix_local(word.spec_bytes(), s, word.spec_bytes().len() as int);
    }
}

/// A named parameter read from some bytes is read alike from the bytes it
/// spans.
proof fn lemma_named_local(s: Seq<u8>, marker: &str)
    ensures
        named(s, marker) matches Ok((_, n)) ==> n <= s.len() && named(s.take(n as int), marker)
            == named(s, marker),
{
    if named(s, marker) is Ok {
        let n = named(s, marker)->Ok_0.1 as int;
        let b = braces(s)->Ok_0.1 as int;
        lemma_braces_local(s, n);
        assert(s.take(n).skip(b) =~= s.skip(b).take(n - b));
        lemma_prefix_local(marker.spec_bytes(), s.skip(b), n - b);
    }
}

/// A port or process-id form read from some bytes is read alike from the
/// bytes it spans.
proof fn lemma_custom_local(s: Seq<u8>)
    ensures
        custom_port(s) matches Ok((_, n)) ==> n <= s.len() && custom_port(s.take(n as int))
            == custom_port(s),
        custom_pid(s) matches Ok((_, n)) ==> n <= s.len() && custom_pid(s.take(n as int))
            == custom_pid(s),
{
    if custom_port(s) is Ok {
        let n = custom_port(s)->Ok_0.1 as int;
        let b = braces(s)->Ok_0.1 as int;
        lemma_braces_local(s, n);
        assert(s.take(n).skip(b) =~= s.skip(b).take(n - b));
        lemma_prefix_local("p".spec_bytes(), s.skip(b), n - b);
    }
    if custom_pid(s) is Ok {
        let n = custom_pid(s)->Ok_0.1 as int;
        let b = braces(s)->Ok_0.1 as int;
        lemma_braces_local(s, n);
        assert(s.take(n).skip(b) =~= s.skip(b).take(n - b));
        lemma_prefix_local("P".spec_bytes(), s.skip(b), n - b);
    }
}

/// What follows a `%` is read alike from the bytes that it spans as from
/// the whole input: nothing after a directive has a say in it.
pub proof fn lemma_directive_body_local(s: Seq<u8>)
    ensures
        directive_body(s) matches Ok((_, n)) ==> (n <= s.len() && directive_body(
            s.take(n as int),
        ) == directive_body(s)),
{
    if directive_body(s) is Ok {
        let n = directive_body(s)->Ok_0.1 as int;
        let head = s.take(n);
        lemma_keyword_local(s, "{c}a", Token::PeerIP);
        lemma_named_local(s, "C");
        lemma_named_local(s, "e");
        lemma_named_local(s, "i");
        lemma_named_local(s, "n");
        lemma_named_local(s, "o");
        lemma_custom_local(s);
        lemma_keyword_local(s, ">s", Token::FinalStatus);
        lemma_named_local(s, "^ti");
        lemma_named_local(s, "^to");
        lemma_first_match_wins(head);
    }
}

/// A token is read alike from the bytes that it spans as from the whole
/// input.
pub proof fn lemma_token_local(s: Seq<u8>)
    ensures
        token(s) matches Ok((_, n)) ==> 1 <= n <= s.len() && token(s.take(n as int)) == token(s),
{
    lemma_token_span(s);
    if token(s) is Ok {
        let n = token(s)->Ok_0.1 as int;
        if s[0] == PERCENT {
            lemma_directive_body_local(s.skip(1));
            assert(s.take(n).skip(1) =~= s.skip(1).take(n - 1));
        } else {
            lemma_run_local(s, PERCENT, n);
            assert(s.take(n).take(n) =~= s.take(n));
        }
    }
}

/// Where the reading of `s` ends: at the place where it stopped, or at the
/// end of the input.
pub open spec fn end_of(s: Seq<u8>, p: Parse) -> int {
    match p.stop {
        Some((at, _)) => at as int,
        None => s.len() as int,
    }
}

/// Whether `source` is the place that `found` was read from: read alone, it
/// is that token from end to end; and where it is a run of literal text,
/// the token holds that text, byte for byte.
#[verifier::opaque]
pub open spec fn is_source_of(source: Seq<u8>, found: Token) -> bool {
    &&& source.len() > 0
    &&& token(source) == Ok::<(Token, nat), Reason>((found, source.len()))
    &&& source[0] != PERCENT ==> (found matches Token::Literal(text) && encode_utf8(text)
        == source)
}

/// The bytes that a token spans are its source.
proof fn lemma_token_source(s: Seq<u8>)
    ensures
        token(s) matches Ok((found, n)) ==> 1 <= n <= s.len() && is_source_of(
            s.take(n as int),
            found,
        ),
{
    reveal(is_source_of);
    lemma_token_local(s);
    if token(s) is Ok {
        let n = token(s)->Ok_0.1;
        let source = s.take(n as int);
        if source[0] != PERCENT {
            decode_utf8_encode_utf8(source);
        }
    }
}

/// The sources of the tokens read from `pos` on are the input from `pos` to
/// the place where the reading ends.
proof fn lemma_sources_from(s: Seq<u8>, pos: nat)
    requires
        pos <= s.len(),
    ensures
        parse_from(s, pos).sources.len() == parse_from(s, pos).tokens.len(),
        forall|i: int|
            0 <= i < parse_from(s, pos).tokens.len() ==> is_source_of(
                #[trigger] parse_from(s, pos).sources[i],
                parse_from(s, pos).tokens[i],
            ),
        pos <= end_of(s, parse_from(s, pos)) <= s.len(),
        parse_from(s, pos).stop is Some ==> end_of(s, parse_from(s, pos)) < s.len(),
        parse_from(s, pos).sources.flatten() == s.subrange(
            pos as int,
            end_of(s, parse_from(s, pos)),
        ),
    decreases s.len() - pos,
{
    let p = parse_from(s, pos);
    if pos >= s.len() {
        assert(p.sources.flatten() =~= s.subrange(pos as int, s.len() as int));
    } else {
        let here = s.skip(pos as int);
        lemma_token_source(here);
        match token(here) {
            Err(why) => {
                assert(p.sources.flatten() =~= s.subrange(pos as int, pos as int));
            },
            Ok((first, n)) => {
                let source = s.subrange(pos as int, pos as int + n);
                assert(source =~= here.take(n as int));
                let rest = parse_from(s, pos + n);
                lemma_sources_from(s, pos + n);
                assert(p.tokens == seq![first] + rest.tokens);
                assert(p.sources == seq![source] + rest.sources);
                assert forall|i: int| 0 <= i < p.tokens.len() implies is_source_of(
                    #[trigger] p.sources[i],
                    p.tokens[i],
                ) by {
                    if i > 0 {
                        assert(p.sources[i] == rest.sources[i - 1]);
                        assert(p.tokens[i] == rest.tokens[i - 1]);
                    }
                }
                assert(p.sources.drop_first() =~= rest.sources);
                assert(p.sources.first() == source);
                assert(p.sources.flatten() == source + rest.sources.flatten());
                assert(source + s.subrange(pos as int + n, end_of(s, rest)) =~= s.subrange(
                    pos as int,
                    end_of(s, p),
                ));
            },
        }
    }
}

/// The tokens account for the input, byte for byte.
///
/// Every token has a source, the bytes it was read from. Joined in order,
/// the sources are the input up to the place where the reading ended: the
/// whole input where it was read to its end. Each source, read alone, is
/// its token and nothing else, and the source of a run of literal text is
/// the text of its token.
pub proof fn lemma_round_trip(s: Seq<u8>)
    ensures
        parse(s).sources.len() == parse(s).tokens.len(),
        forall|i: int|
            0 <= i < parse(s).tokens.len() ==> is_source_of(
                #[trigger] parse(s).sources[i],
                parse(s).tokens[i],
            ),
        parse(s).stop is None ==> parse(s).sources.flatten() == s,
        parse(s).stop matches Some((at, _)) ==> at < s.len() && parse(s).sources.flatten()
            == s.take(at as int),
{
    lemma_sources_from(s, 0);
    assert(s.subrange(0, s.len() as int) =~= s);
}

} // verus!
