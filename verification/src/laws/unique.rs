//! There is one way to read a format string: whatever cuts the input into
//! tokens by the rules of the grammar is the reading of the parser.

use vstd::prelude::*;
use vstd::string::StringSliceAdditionalSpecFns;
use crate::bytes::{lemma_run_len, lemma_run_unique, run_len, CLOSE_BRACE, PERCENT};
use crate::directive::Token;
use crate::grammar::{
    braces, custom_pid, custom_port, directive_body, keyword, named, parse, parse_from, token,
};
use crate::laws::forms::lemma_first_match_wins;
use crate::laws::sources::{is_source_of, lemma_round_trip};
use crate::laws::tokens::lemma_literal_runs;
use crate::laws::words::lemma_prefix;
use crate::outcome::Reason;

verus! {

/// A parameter read from the first `m` bytes is read alike from all of them.
proof fn lemma_braces_extends(s: Seq<u8>, m: int)
    requires
        0 <= m <= s.len(),
        braces(s.take(m)) is Ok,
    ensures
        braces(s) == braces(s.take(m)),
{
    let head = s.take(m);
    let n = braces(head)->Ok_0.1 as int;
    lemma_run_len(head.skip(1), CLOSE_BRACE);
    assert(head.skip(1) =~= s.skip(1).take(m - 1));
    assert(head.skip(1)[n - 2] == s.skip(1)[n - 2]);
    assert forall|k: int| 0 <= k < n - 2 implies s.skip(1)[k] != CLOSE_BRACE by {
        assert(head.skip(1)[k] == s.skip(1)[k]);
    }
    lemma_run_unique(s.skip(1), CLOSE_BRACE, n - 2);
    assert(head.subrange(1, n - 1) =~= s.subrange(1, n - 1));
}

/// A word that stands at the head of the first `m` bytes stands at the
/// head of all of them.
proof fn lemma_prefix_extends(w: Seq<u8>, s: Seq<u8>, m: int)
    requires
        0 <= m <= s.len(),
        w.is_prefix_of(s.take(m)),
    ensures
        w.is_prefix_of(s),
{
    lemma_prefix(w, s);
    lemma_prefix(w, s.take(m));
}

/// A fixed word read from the first `m` bytes is read alike from all of
/// them.
proof fn lemma_keyword_extends<T>(s: Seq<u8>, m: int, word: &str, value: T)
    requires
        0 <= m <= s.len(),
    ensures
        keyword(s.take(m), word, value) is Ok ==> keyword(s, word, value) == keyword(
            s.take(m),
            word,
            value,
        ),
{
    if keyword(s.take(m), word, value) is Ok {
        lemma_prefix_extends(word.spec_bytes(), s, m);
    }
}

/// A named parameter read from the first `m` bytes is read alike from all
/// of them.
proof fn lemma_named_extends(s: Seq<u8>, m: int, marker: &str)
    requires
        0 <= m <= s.len(),
    ensures
        named(s.take(m), marker) is Ok ==> named(s, marker) == named(s.take(m), marker),
{
    if named(s.take(m), marker) is Ok {
        let b = braces(s.take(m))->Ok_0.1 as int;
        lemma_braces_extends(s, m);
        assert(s.take(m).skip(b) =~= s.skip(b).take(m - b));
        lemma_prefix_extends(marker.spec_bytes(), s.skip(b), m - b);
    }
}

/// A port or process-id form read from the first `m` bytes is read alike
/// from all of them.
proof fn lemma_custom_extends(s: Seq<u8>, m: int)
    requires
        0 <= m <= s.len(),
    ensures
        custom_port(s.take(m)) is Ok ==> custom_port(s) == custom_port(s.take(m)),
        custom_pid(s.take(m)) is Ok ==> custom_pid(s) == custom_pid(s.take(m)),
{
    if braces(s.take(m)) is Ok {
        let b = braces(s.take(m))->Ok_0.1 as int;
        lemma_braces_extends(s, m);
        assert(s.take(m).skip(b) =~= s.skip(b).take(m - b));
        if custom_port(s.take(m)) is Ok {
            lemma_prefix_extends("p".spec_bytes(), s.skip(b), m - b);
        }
        if custom_pid(s.take(m)) is Ok {
            lemma_prefix_extends("P".spec_bytes(), s.skip(b), m - b);
        }
    }
}

/// What is read after a `%` from the first `m` bytes is read alike from all
/// of them: no directive is the beginning of a longer one.
pub proof fn lemma_directive_body_extends(s: Seq<u8>, m: int)
    requires
        0 <= m <= s.len(),
    ensures
        directive_body(s.take(m)) is Ok ==> directive_body(s) == directive_body(s.take(m)),
{
    if directive_body(s.take(m)) is Ok {
        lemma_keyword_extends(s, m, "{c}a", Token::PeerIP);
        lemma_named_extends(s, m, "C");
        lemma_named_extends(s, m, "e");
        lemma_named_extends(s, m, "i");
        lemma_named_extends(s, m, "n");
        lemma_named_extends(s, m, "o");
        lemma_custom_extends(s, m);
        lemma_keyword_extends(s, m, ">s", Token::FinalStatus);
        lemma_named_extends(s, m, "^ti");
        lemma_named_extends(s, m, "^to");
        lemma_first_match_wins(s);
    }
}

/// A source that stands at the head of some bytes is the token read there,
/// provided that a run of literal text goes on to the next `%` or to the
/// end.
proof fn lemma_token_extends(s: Seq<u8>, n: int, found: Token)
    requires
        0 <= n <= s.len(),
        is_source_of(s.take(n), found),
        s[0] != PERCENT ==> (n == s.len() || s[n] == PERCENT),
    ensures
        n >= 1,
        token(s) == Ok::<(Token, nat), Reason>((found, n as nat)),
{
    reveal(is_source_of);
    let head = s.take(n);
    if s[0] == PERCENT {
        assert(head.skip(1) =~= s.skip(1).take(n - 1));
        lemma_directive_body_extends(s.skip(1), n - 1);
    } else {
        lemma_run_len(head, PERCENT);
        assert(run_len(head, PERCENT) == n);
        assert forall|k: int| 0 <= k < n implies s[k] != PERCENT by {
            assert(head[k] == s[k]);
        }
        lemma_run_unique(s, PERCENT, n);
        assert(head.take(n) =~= head);
    }
}

/// Whether `tokens`, read from `sources`, cut the bytes `s` into tokens by
/// the rules: the sources, joined in order, are `s`; each source is the
/// place that its token was read from; and of two sources side by side,
/// one at least begins with `%`, so that no run of literal text is cut in
/// two.
pub open spec fn is_reading_of(s: Seq<u8>, tokens: Seq<Token>, sources: Seq<Seq<u8>>) -> bool {
    &&& tokens.len() == sources.len()
    &&& sources.flatten() == s
    &&& forall|i: int| 0 <= i < sources.len() ==> is_source_of(#[trigger] sources[i], tokens[i])
    &&& forall|i: int|
        0 <= i < sources.len() - 1 ==> (#[trigger] sources[i])[0] == PERCENT || sources[i + 1][0]
            == PERCENT
}

/// What cuts the input from `pos` on into tokens is the reading from `pos`
/// on.
proof fn lemma_unique_from(s: Seq<u8>, pos: nat, tokens: Seq<Token>, sources: Seq<Seq<u8>>)
    requires
        pos <= s.len(),
        is_reading_of(s.skip(pos as int), tokens, sources),
    ensures
        parse_from(s, pos).tokens == tokens,
        parse_from(s, pos).sources == sources,
        parse_from(s, pos).stop is None,
    decreases sources.len(),
{
    let here = s.skip(pos as int);
    if sources.len() == 0 {
        assert(tokens =~= Seq::<Token>::empty());
        assert(sources =~= Seq::<Seq<u8>>::empty());
    } else {
        let source = sources[0];
        let n = source.len() as int;
        let later = sources.drop_first();
        assert(sources.flatten() == source + later.flatten());
        assert(is_source_of(source, tokens[0]));
        assert(source.len() > 0) by {
            reveal(is_source_of);
        }
        assert(here.take(n) =~= source);
        assert(here.skip(n) =~= later.flatten());
        assert(here.skip(n) =~= s.skip(pos + n));
        if here[0] != PERCENT && n < here.len() {
            assert(later.len() > 0) by {
                if later.len() == 0 {
                    assert(later.flatten() =~= Seq::<u8>::empty());
                }
            }
            assert(is_source_of(sources[1], tokens[1]));
            assert(sources[1].len() > 0) by {
                reveal(is_source_of);
            }
            assert(later.flatten() == later[0] + later.drop_first().flatten());
            assert(later[0] == sources[1]);
            assert(here[n] == later.flatten()[0]);
            assert(source[0] == here[0]);
        }
        lemma_token_extends(here, n, tokens[0]);
        assert forall|i: int| 0 <= i < later.len() implies is_source_of(
            #[trigger] later[i],
            tokens.drop_first()[i],
        ) by {
            assert(later[i] == sources[i + 1]);
        }
        assert forall|i: int| 0 <= i < later.len() - 1 implies (#[trigger] later[i])[0] == PERCENT
            || later[i + 1][0] == PERCENT by {
            assert(later[i] == sources[i + 1]);
            assert(later[i + 1] == sources[i + 2]);
        }
        lemma_unique_from(s, (pos + n) as nat, tokens.drop_first(), later);
        assert(s.subrange(pos as int, pos + n) =~= source);
        assert(parse_from(s, pos).tokens =~= tokens);
        assert(parse_from(s, pos).sources =~= sources);
    }
}

/// There is one way to read a format string. Sources and tokens cut the
/// input into tokens by the rules exactly when the parser reads the input
/// to its end and they are the sources and tokens that it finds.
pub proof fn lemma_reading_is_unique(s: Seq<u8>, tokens: Seq<Token>, sources: Seq<Seq<u8>>)
    ensures
        is_reading_of(s, tokens, sources) <==> {
            &&& parse(s).stop is None
            &&& parse(s).tokens == tokens
            &&& parse(s).sources == sources
        },
{
    if is_reading_of(s, tokens, sources) {
        assert(s.skip(0) =~= s);
        lemma_unique_from(s, 0, tokens, sources);
    }
    if parse(s).stop is None && parse(s).tokens == tokens && parse(s).sources == sources {
        lemma_round_trip(s);
        lemma_literal_runs(s);
    }
}

} // verus!
