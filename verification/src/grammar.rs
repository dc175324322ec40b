//! The grammar of format strings, as functions on byte sequences.
//!
//! Every form is a function from the bytes at some position to a [`Match`]:
//! the value read and the number of bytes it spans, or the reason why the
//! bytes are not of that form.

use vstd::prelude::*;
use vstd::string::StringSliceAdditionalSpecFns;
use vstd::utf8::{decode_utf8, valid_utf8};
use crate::bytes::{lemma_run_len, run_len, CLOSE_BRACE, OPEN_BRACE, PERCENT};
use crate::directive::{code_token, PIDType, PortType, Token};
use crate::outcome::Reason;

verus! {

/// What a form finds at the head of a byte sequence: a value and the number
/// of bytes that it spans, or the reason why the bytes are not of that form.
pub type Match<T> = Result<(T, nat), Reason>;

/// Whether a match is final. The one answer that is not is
/// `UnknownDirective`, which leaves the bytes to the next form.
pub open spec fn settled<T>(m: Match<T>) -> bool {
    m != Err::<(T, nat), Reason>(Reason::UnknownDirective)
}

/// The first of two forms, unless it leaves the bytes to the second.
pub open spec fn or_else<T>(first: Match<T>, second: Match<T>) -> Match<T> {
    if settled(first) {
        first
    } else {
        second
    }
}

/// A match that spans `extra` bytes more.
pub open spec fn longer<T>(m: Match<T>, extra: nat) -> Match<T> {
    match m {
        Ok((value, n)) => Ok((value, n + extra)),
        Err(why) => Err(why),
    }
}

/// A fixed word: the bytes begin with the bytes of `word`, which stand for
/// `value`.
pub open spec fn keyword<T>(s: Seq<u8>, word: &str, value: T) -> Match<T> {
    if word.spec_bytes().is_prefix_of(s) {
        Ok((value, word.spec_bytes().len()))
    } else {
        Err(Reason::UnknownDirective)
    }
}

/// A parameter: `{`, then one or more bytes other than `}`, then `}`. The
/// value is the bytes between the braces.
pub open spec fn braces(s: Seq<u8>) -> Match<Seq<u8>> {
    if s.len() == 0 || s[0] != OPEN_BRACE {
        Err(Reason::UnknownDirective)
    } else {
        let n = run_len(s.skip(1), CLOSE_BRACE);
        if n + 1 >= s.len() {
            Err(Reason::UnterminatedParameter)
        } else if n == 0 {
            Err(Reason::EmptyParameter)
        } else {
            Ok((s.subrange(1, 1 + n as int), n + 2))
        }
    }
}

/// A parameter followed by the bytes of `marker`, where the parameter is
/// text. The value is that text.
pub open spec fn named(s: Seq<u8>, marker: &str) -> Match<Seq<char>> {
    match braces(s) {
        Err(why) => Err(why),
        Ok((name, n)) => {
            if !marker.spec_bytes().is_prefix_of(s.skip(n as int)) {
                Err(Reason::UnknownDirective)
            } else if !valid_utf8(name) {
                Err(Reason::InvalidUtf8)
            } else {
                Ok((decode_utf8(name), n + marker.spec_bytes().len()))
            }
        },
    }
}

/// One of the words `canonical`, `local` and `remote`.
pub open spec fn port_type(s: Seq<u8>) -> Match<PortType> {
    let canonical = keyword(s, "canonical", PortType::Canonical);
    let local = keyword(s, "local", PortType::Local);
    let remote = keyword(s, "remote", PortType::Remote);
    if canonical is Ok {
        canonical
    } else if local is Ok {
        local
    } else if remote is Ok {
        remote
    } else {
        Err(Reason::LiteralSetMismatch)
    }
}

/// One of the words `pid`, `tid` and `hextid`.
pub open spec fn pid_type(s: Seq<u8>) -> Match<PIDType> {
    let pid = keyword(s, "pid", PIDType::PID);
    let tid = keyword(s, "tid", PIDType::TID);
    let hextid = keyword(s, "hextid", PIDType::HexTID);
    if pid is Ok {
        pid
    } else if tid is Ok {
        tid
    } else if hextid is Ok {
        hextid
    } else {
        Err(Reason::LiteralSetMismatch)
    }
}

/// `{c}a`: the peer address.
pub open spec fn peer_ip(s: Seq<u8>) -> Match<Token> {
    keyword(s, "{c}a", Token::PeerIP)
}

/// `{name}C`: a cookie.
pub open spec fn req_cookie(s: Seq<u8>) -> Match<Token> {
    match named(s, "C") {
        Ok((name, n)) => Ok((Token::Cookie(name), n)),
        Err(why) => Err(why),
    }
}

/// `{name}e`: an environment variable.
pub open spec fn env_var(s: Seq<u8>) -> Match<Token> {
    match named(s, "e") {
        Ok((name, n)) => Ok((Token::EnvVar(name), n)),
        Err(why) => Err(why),
    }
}

/// `{name}i`: a request header.
pub open spec fn req_header(s: Seq<u8>) -> Match<Token> {
    match named(s, "i") {
        Ok((name, n)) => Ok((Token::ReqHeader(name), n)),
        Err(why) => Err(why),
    }
}

/// `{name}n`: a note of another module.
pub open spec fn note(s: Seq<u8>) -> Match<Token> {
    match named(s, "n") {
        Ok((name, n)) => Ok((Token::Note(name), n)),
        Err(why) => Err(why),
    }
}

/// `{name}o`: a response header.
pub open spec fn res_header(s: Seq<u8>) -> Match<Token> {
    match named(s, "o") {
        Ok((name, n)) => Ok((Token::ResHeader(name), n)),
        Err(why) => Err(why),
    }
}

/// `{canonical}p`, `{local}p` or `{remote}p`: a port. Braces that hold
/// anything else before a `p` are a mismatch.
pub open spec fn custom_port(s: Seq<u8>) -> Match<Token> {
    match braces(s) {
        Err(why) => Err(why),
        Ok((word, n)) => {
            if !"p".spec_bytes().is_prefix_of(s.skip(n as int)) {
                Err(Reason::UnknownDirective)
            } else {
                match port_type(word) {
                    Ok((port, k)) if k == word.len() => Ok(
                        (Token::Port(port), n + "p".spec_bytes().len()),
                    ),
                    _ => Err(Reason::LiteralSetMismatch),
                }
            }
        },
    }
}

/// `{pid}P`, `{tid}P` or `{hextid}P`: a process or thread id. Braces that
/// hold anything else before a `P` are a mismatch.
pub open spec fn custom_pid(s: Seq<u8>) -> Match<Token> {
    match braces(s) {
        Err(why) => Err(why),
        Ok((word, n)) => {
            if !"P".spec_bytes().is_prefix_of(s.skip(n as int)) {
                Err(Reason::UnknownDirective)
            } else {
                match pid_type(word) {
                    Ok((pid, k)) if k == word.len() => Ok(
                        (Token::PID(pid), n + "P".spec_bytes().len()),
                    ),
                    _ => Err(Reason::LiteralSetMismatch),
                }
            }
        },
    }
}

/// `>s`: the final status.
pub open spec fn final_status(s: Seq<u8>) -> Match<Token> {
    keyword(s, ">s", Token::FinalStatus)
}

/// `{name}^ti`: a request trailer.
pub open spec fn req_trailer(s: Seq<u8>) -> Match<Token> {
    match named(s, "^ti") {
        Ok((name, n)) => Ok((Token::ReqTrailer(name), n)),
        Err(why) => Err(why),
    }
}

/// `{name}^to`: a response trailer.
pub open spec fn res_trailer(s: Seq<u8>) -> Match<Token> {
    match named(s, "^to") {
        Ok((name, n)) => Ok((Token::ResTrailer(name), n)),
        Err(why) => Err(why),
    }
}

/// A one-character code.
pub open spec fn code(s: Seq<u8>) -> Match<Token> {
    if s.len() == 0 {
        Err(Reason::UnknownDirective)
    } else {
        match code_token(s[0] as char) {
            Some(token) => Ok((token, 1)),
            None => Err(Reason::UnknownDirective),
        }
    }
}

/// What may follow a `%`: the parameterized forms, each tried in turn, and
/// last the one-character codes.
pub open spec fn directive_body(s: Seq<u8>) -> Match<Token> {
    or_else(
        peer_ip(s),
        or_else(
            req_cookie(s),
            or_else(
                env_var(s),
                or_else(
                    req_header(s),
                    or_else(
                        note(s),
                        or_else(
                            res_header(s),
                            or_else(
                                custom_port(s),
                                or_else(
                                    custom_pid(s),
                                    or_else(
                                        final_status(s),
                                        or_else(
                                            req_trailer(s),
                                            or_else(res_trailer(s), code(s)),
                                        ),
                                    ),
                                ),
                            ),
                        ),
                    ),
                ),
            ),
        ),
    )
}

/// A directive: `%`, then one of the forms of `directive_body`.
pub open spec fn directive(s: Seq<u8>) -> Match<Token> {
    if s.len() == 0 || s[0] != PERCENT {
        Err(Reason::UnknownDirective)
    } else {
        longer(directive_body(s.skip(1)), 1)
    }
}

/// A run of literal text: the longest run of bytes without `%`, which must
/// not be empty and must be text.
pub open spec fn constant(s: Seq<u8>) -> Match<Token> {
    let n = run_len(s, PERCENT);
    if n == 0 {
        Err(Reason::UnknownDirective)
    } else if !valid_utf8(s.take(n as int)) {
        Err(Reason::InvalidUtf8)
    } else {
        Ok((Token::Literal(decode_utf8(s.take(n as int))), n))
    }
}

/// One token: a directive, or else a run of literal text.
pub open spec fn token(s: Seq<u8>) -> Match<Token> {
    or_else(directive(s), constant(s))
}

/// A match of a directive's body lies within the bytes it was found in.
pub proof fn lemma_directive_body_span(s: Seq<u8>)
    ensures
        directive_body(s) matches Ok((_, n)) ==> n <= s.len(),
{
}

/// Every step advances: a token spans at least one byte, and no more than
/// there are.
pub proof fn lemma_token_span(s: Seq<u8>)
    ensures
        token(s) matches Ok((_, n)) ==> 1 <= n <= s.len(),
{
    lemma_run_len(s, PERCENT);
    if s.len() > 0 {
        lemma_directive_body_span(s.skip(1));
    }
}

/// The reading of a whole format string.
pub ghost struct Parse {
    /// The tokens, in the order in which they stand in the input.
    pub tokens: Seq<Token>,
    /// For each token, the bytes that it was read from.
    pub sources: Seq<Seq<u8>>,
    /// Where the reading stopped before the end of the input, and why; none
    /// where every byte belongs to a token.
    pub stop: Option<(nat, Reason)>,
}

/// The reading of `s` from position `pos` on: token after token, until the
/// input ends or the bytes at hand are no token.
pub open spec fn parse_from(s: Seq<u8>, pos: nat) -> Parse
    decreases s.len() - pos,
    via parse_from_decreases
{
    if pos >= s.len() {
        Parse { tokens: seq![], sources: seq![], stop: None }
    } else {
        match token(s.skip(pos as int)) {
            Err(why) => Parse { tokens: seq![], sources: seq![], stop: Some((pos, why)) },
            Ok((first, n)) => {
                let rest = parse_from(s, pos + n);
                Parse {
                    tokens: seq![first] + rest.tokens,
                    sources: seq![s.subrange(pos as int, pos as int + n)] + rest.sources,
                    stop: rest.stop,
                }
            },
        }
    }
}

#[via_fn]
proof fn parse_from_decreases(s: Seq<u8>, pos: nat) {
    if pos < s.len() {
        lemma_token_span(s.skip(pos as int));
    }
}

/// The reading of a whole format string, from its first byte.
pub open spec fn parse(s: Seq<u8>) -> Parse {
    parse_from(s, 0)
}

} // verus!
