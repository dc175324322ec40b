//! Laws of the forms that may follow a `%`: their order decides nothing,
//! and each reason is given on a stated set of inputs.

use vstd::prelude::*;
use vstd::string::StringSliceAdditionalSpecFns;
use vstd::utf8::valid_utf8;
use crate::bytes::{lemma_run_len, lemma_run_unique, run_len, CLOSE_BRACE, OPEN_BRACE};
use crate::directive::Token;
use crate::grammar::{
    braces, code, custom_pid, custom_port, directive_body, env_var, final_status, note, peer_ip,
    req_cookie, req_header, req_trailer, res_header, res_trailer, settled,
};
use crate::laws::words::{
    is_pid_word, is_port_word, lemma_markers, lemma_markers_apart, lemma_prefix, lemma_whole_words,
    lemma_words,
};
use crate::outcome::Reason;

verus! {

/// The parameter that `s` opens with, where `s[0]` is `{` and the first `}`
/// stands at `close`.
proof fn lemma_braces_at(s: Seq<u8>, close: int)
    requires
        0 < close < s.len(),
        s[0] == OPEN_BRACE,
        s[close] == CLOSE_BRACE,
        forall|k: int| 0 < k < close ==> s[k] != CLOSE_BRACE,
    ensures
        run_len(s.skip(1), CLOSE_BRACE) == close - 1,
        close > 1 ==> braces(s) == Ok::<(Seq<u8>, nat), Reason>(
            (s.subrange(1, close), (close + 1) as nat),
        ),
        close == 1 ==> braces(s) == Err::<(Seq<u8>, nat), Reason>(Reason::EmptyParameter),
{
    lemma_run_unique(s.skip(1), CLOSE_BRACE, close - 1);
}

/// The order of the forms decides nothing: whenever one of them gives a
/// final answer on some bytes, a match or a reason other than
/// `UnknownDirective`, that is the answer of the directive body as a whole.
pub proof fn lemma_first_match_wins(s: Seq<u8>)
    ensures
        settled(peer_ip(s)) ==> directive_body(s) == peer_ip(s),
        settled(req_cookie(s)) ==> directive_body(s) == req_cookie(s),
        settled(env_var(s)) ==> directive_body(s) == env_var(s),
        settled(req_header(s)) ==> directive_body(s) == req_header(s),
        settled(note(s)) ==> directive_body(s) == note(s),
        settled(res_header(s)) ==> directive_body(s) == res_header(s),
        settled(custom_port(s)) ==> directive_body(s) == custom_port(s),
        settled(custom_pid(s)) ==> directive_body(s) == custom_pid(s),
        settled(final_status(s)) ==> directive_body(s) == final_status(s),
        settled(req_trailer(s)) ==> directive_body(s) == req_trailer(s),
        settled(res_trailer(s)) ==> directive_body(s) == res_trailer(s),
        settled(code(s)) ==> directive_body(s) == code(s),
{
    lemma_markers();
    lemma_prefix("{c}a".spec_bytes(), s);
    lemma_prefix(">s".spec_bytes(), s);
    if peer_ip(s) is Ok {
        lemma_braces_at(s, 2);
    }
    if braces(s) is Ok {
        lemma_markers_apart(s.skip(braces(s)->Ok_0.1 as int));
    }
}

/// Whether the bytes after a parameter begin with a marker of one of the
/// forms that take the parameter as text.
pub open spec fn text_marker_follows(after: Seq<u8>) -> bool {
    ||| "C".spec_bytes().is_prefix_of(after)
    ||| "e".spec_bytes().is_prefix_of(after)
    ||| "i".spec_bytes().is_prefix_of(after)
    ||| "n".spec_bytes().is_prefix_of(after)
    ||| "o".spec_bytes().is_prefix_of(after)
    ||| "^ti".spec_bytes().is_prefix_of(after)
    ||| "^to".spec_bytes().is_prefix_of(after)
}

/// The inputs on which each reason is given for what follows a `%`.
///
/// A parameter is unterminated where a `{` is opened and no `}` follows;
/// empty where `}` follows the `{` at once; a mismatch where well-formed
/// braces stand before `p` or `P` and do not hold one of the three words of
/// that form; invalid text where well-formed braces stand before the marker
/// of a form that takes text and do not hold well-formed UTF-8. On every
/// other input that is no directive the reason is `UnknownDirective`.
pub proof fn lemma_reasons(s: Seq<u8>)
    ensures
        directive_body(s) == Err::<(Token, nat), Reason>(Reason::UnterminatedParameter) <==> {
            &&& s.len() > 0
            &&& s[0] == OPEN_BRACE
            &&& forall|k: int| 0 < k < s.len() ==> s[k] != CLOSE_BRACE
        },
        directive_body(s) == Err::<(Token, nat), Reason>(Reason::EmptyParameter) <==> {
            &&& s.len() > 1
            &&& s[0] == OPEN_BRACE
            &&& s[1] == CLOSE_BRACE
        },
        directive_body(s) == Err::<(Token, nat), Reason>(Reason::LiteralSetMismatch) <==> {
            &&& braces(s) matches Ok((word, n))
            &&& {
                ||| "p".spec_bytes().is_prefix_of(s.skip(n as int)) && !is_port_word(word)
                ||| "P".spec_bytes().is_prefix_of(s.skip(n as int)) && !is_pid_word(word)
            }
        },
        directive_body(s) == Err::<(Token, nat), Reason>(Reason::InvalidUtf8) <==> {
            &&& braces(s) matches Ok((name, n))
            &&& text_marker_follows(s.skip(n as int))
            &&& !valid_utf8(name)
        },
{
    lemma_markers();
    lemma_words();
    lemma_first_match_wins(s);
    if s.len() > 0 && s[0] == OPEN_BRACE {
        lemma_run_len(s.skip(1), CLOSE_BRACE);
        let n = run_len(s.skip(1), CLOSE_BRACE) as int;
        assert forall|k: int| 0 < k < n + 1 implies s[k] != CLOSE_BRACE by {
            assert(s[k] == s.skip(1)[k - 1]);
        }
        if n + 1 < s.len() {
            assert(s[n + 1] == s.skip(1)[n]);
        }
        if braces(s) is Ok {
            let word = braces(s)->Ok_0.0;
            lemma_whole_words(word);
        }
    }
}

} // verus!
