//! The recognizers: one function for each form of the grammar, from bytes to
//! the value read and the bytes that remain.

use vstd::prelude::*;
use vstd::string::StringSliceAdditionalSpecFns;
use vstd::utf8::encode_utf8_valid_utf8;
use crate::bytes::{scan_run, skip, starts_with, take, CLOSE_BRACE, OPEN_BRACE, PERCENT};
use crate::directive::{Directive, PIDType, PortType};
use crate::grammar;
use crate::grammar::Match;
use crate::laws::encoding::lemma_text_is_never_invalid;
use crate::outcome::{Outcome, Reason};
use crate::text::text_of;

verus! {

/// Whether `res`, the answer of a recognizer on `input`, is the match
/// `expected`: on a match, the value found has the expected value as its
/// view and the rest is the input without the bytes matched; otherwise the
/// reason is the expected one.
pub open spec fn yields<T: View>(
    res: Result<(&[u8], T), Reason>,
    input: Seq<u8>,
    expected: Match<T::V>,
) -> bool {
    match expected {
        Ok((value, n)) => {
            &&& res matches Ok((rest, found))
            &&& found@ == value
            &&& n <= input.len()
            &&& rest@ == input.skip(n as int)
        },
        Err(why) => res matches Err(e) && e == why,
    }
}

/// Reads a parameter in braces: `{`, one or more bytes other than `}`, and
/// `}`. Gives the bytes after the closing brace and the bytes between the
/// braces. The parameter is unterminated where the input ends before any
/// `}`, and empty where `}` follows `{` at once.
pub fn parens(input: &[u8]) -> (res: Result<(&[u8], &[u8]), Reason>)
    ensures
        yields(res, input@, grammar::braces(input@)),
{
    if input.len() == 0 || input[0] != OPEN_BRACE {
        return Err(Reason::UnknownDirective);
    }
    let inner = skip(input, 1);
    let n = scan_run(inner, CLOSE_BRACE);
    if n + 1 >= input.len() {
        Err(Reason::UnterminatedParameter)
    } else if n == 0 {
        Err(Reason::EmptyParameter)
    } else {
        let name = take(inner, n);
        assert(name@ =~= input@.subrange(1, 1 + n as int));
        Ok((skip(input, n + 2), name))
    }
}

/// Reads a fixed word at the head of the input. Gives the bytes after it.
pub fn word_parser<'a>(input: &'a [u8], word: &str) -> (res: Result<&'a [u8], Reason>)
    ensures
        res is Ok <==> word.spec_bytes().is_prefix_of(input@),
        res matches Ok(rest) ==> rest@ == input@.skip(word.spec_bytes().len() as int),
        res matches Err(why) ==> why == Reason::UnknownDirective,
{
    if starts_with(input, word) {
        assert(word.spec_bytes().len() <= input.len());
        Ok(skip(input, word.len()))
    } else {
        Err(Reason::UnknownDirective)
    }
}

/// Reads a parameter in braces that is followed by `marker`. Gives the
/// bytes after the marker and the parameter as text; a parameter before
/// the marker that is not well-formed UTF-8 is refused.
pub fn named_parser<'a>(input: &'a [u8], marker: &str) -> (res: Result<
    (&'a [u8], String),
    Reason,
>)
    ensures
        yields(res, input@, grammar::named(input@, marker)),
{
    match parens(input) {
        Err(why) => Err(why),
        Ok((after, name)) => {
            match word_parser(after, marker) {
                Err(why) => Err(why),
                Ok(rest) => {
                    match text_of(name) {
                        None => Err(Reason::InvalidUtf8),
                        Some(text) => {
                            assert(rest@ =~= input@.skip(
                                (name@.len() + 2 + marker.spec_bytes().len()) as int,
                            ));
                            Ok((rest, text))
                        },
                    }
                },
            }
        },
    }
}

/// Reads `{c}a`.
pub fn peer_ip_parser(input: &[u8]) -> (res: Result<(&[u8], Directive), Reason>)
    ensures
        yields(res, input@, grammar::peer_ip(input@)),
{
    match word_parser(input, "{c}a") {
        Ok(rest) => Ok((rest, Directive::PeerIP)),
        Err(why) => Err(why),
    }
}

/// Reads `{name}C`.
pub fn req_cookie_parser(input: &[u8]) -> (res: Result<(&[u8], Directive), Reason>)
    ensures
        yields(res, input@, grammar::req_cookie(input@)),
{
    match named_parser(input, "C") {
        Ok((rest, name)) => Ok((rest, Directive::Cookie(name))),
        Err(why) => Err(why),
    }
}

/// Reads `{name}e`.
pub fn env_var_parser(input: &[u8]) -> (res: Result<(&[u8], Directive), Reason>)
    ensures
        yields(res, input@, grammar::env_var(input@)),
{
    match named_parser(input, "e") {
        Ok((rest, name)) => Ok((rest, Directive::EnvVar(name))),
        Err(why) => Err(why),
    }
}

/// Reads `{name}i`.
pub fn req_header_parser(input: &[u8]) -> (res: Result<(&[u8], Directive), Reason>)
    ensures
        yields(res, input@, grammar::req_header(input@)),
{
    match named_parser(input, "i") {
        Ok((rest, name)) => Ok((rest, Directive::ReqHeader(name))),
        Err(why) => Err(why),
    }
}

/// Reads `{name}n`.
pub fn note_parser(input: &[u8]) -> (res: Result<(&[u8], Directive), Reason>)
    ensures
        yields(res, input@, grammar::note(input@)),
{
    match named_parser(input, "n") {
        Ok((rest, name)) => Ok((rest, Directive::Note(name))),
        Err(why) => Err(why),
    }
}

/// Reads `{name}o`.
pub fn res_header_parser(input: &[u8]) -> (res: Result<(&[u8], Directive), Reason>)
    ensures
        yields(res, input@, grammar::res_header(input@)),
{
    match named_parser(input, "o") {
        Ok((rest, name)) => Ok((rest, Directive::ResHeader(name))),
        Err(why) => Err(why),
    }
}

/// Reads the word `canonical`.
pub fn port_type_parser_c(input: &[u8]) -> (res: Result<(&[u8], PortType), Reason>)
    ensures
        yields(res, input@, grammar::keyword(input@, "canonical", PortType::Canonical)),
{
    match word_parser(input, "canonical") {
        Ok(rest) => Ok((rest, PortType::Canonical)),
        Err(why) => Err(why),
    }
}

/// Reads the word `local`.
pub fn port_type_parser_l(input: &[u8]) -> (res: Result<(&[u8], PortType), Reason>)
    ensures
        yields(res, input@, grammar::keyword(input@, "local", PortType::Local)),
{
    match word_parser(input, "local") {
        Ok(rest) => Ok((rest, PortType::Local)),
        Err(why) => Err(why),
    }
}

/// Reads the word `remote`.
pub fn port_type_parser_r(input: &[u8]) -> (res: Result<(&[u8], PortType), Reason>)
    ensures
        yields(res, input@, grammar::keyword(input@, "remote", PortType::Remote)),
{
    match word_parser(input, "remote") {
        Ok(rest) => Ok((rest, PortType::Remote)),
        Err(why) => Err(why),
    }
}

/// Reads one of the three words that name a port; anything else at the
/// head of the input is a mismatch.
pub fn port_type_parser(input: &[u8]) -> (res: Result<(&[u8], PortType), Reason>)
    ensures
        yields(res, input@, grammar::port_type(input@)),
{
    let canonical = port_type_parser_c(input);
    if canonical.is_ok() {
        return canonical;
    }
    let local = port_type_parser_l(input);
    if local.is_ok() {
        return local;
    }
    let remote = port_type_parser_r(input);
    if remote.is_ok() {
        return remote;
    }
    Err(Reason::LiteralSetMismatch)
}

/// Reads `{canonical}p`, `{local}p` or `{remote}p`. Braces before a `p`
/// that hold anything but one of the three words are a mismatch.
pub fn custom_port_parser(input: &[u8]) -> (res: Result<(&[u8], Directive), Reason>)
    ensures
        yields(res, input@, grammar::custom_port(input@)),
{
    match parens(input) {
        Err(why) => Err(why),
        Ok((after, word)) => {
            match word_parser(after, "p") {
                Err(why) => Err(why),
                Ok(rest) => {
                    assert(rest@ =~= input@.skip(
                        (word@.len() + 2 + "p".spec_bytes().len()) as int,
                    ));
                    match port_type_parser(word) {
                        Ok((left, port)) if left.len() == 0 => Ok((rest, Directive::Port(port))),
                        _ => Err(Reason::LiteralSetMismatch),
                    }
                },
            }
        },
    }
}

/// Reads the word `pid`.
pub fn pid_type_parser_p(input: &[u8]) -> (res: Result<(&[u8], PIDType), Reason>)
    ensures
        yields(res, input@, grammar::keyword(input@, "pid", PIDType::PID)),
{
    match word_parser(input, "pid") {
        Ok(rest) => Ok((rest, PIDType::PID)),
        Err(why) => Err(why),
    }
}

/// Reads the word `tid`.
pub fn pid_type_parser_t(input: &[u8]) -> (res: Result<(&[u8], PIDType), Reason>)
    ensures
        yields(res, input@, grammar::keyword(input@, "tid", PIDType::TID)),
{
    match word_parser(input, "tid") {
        Ok(rest) => Ok((rest, PIDType::TID)),
        Err(why) => Err(why),
    }
}

/// Reads the word `hextid`.
pub fn pid_type_parser_h(input: &[u8]) -> (res: Result<(&[u8], PIDType), Reason>)
    ensures
        yields(res, input@, grammar::keyword(input@, "hextid", PIDType::HexTID)),
{
    match word_parser(input, "hextid") {
        Ok(rest) => Ok((rest, PIDType::HexTID)),
        Err(why) => Err(why),
    }
}

/// Reads one of the three words that name a process or thread id; anything
/// else at the head of the input is a mismatch.
pub fn pid_type_parser(input: &[u8]) -> (res: Result<(&[u8], PIDType), Reason>)
    ensures
        yields(res, input@, grammar::pid_type(input@)),
{
    let pid = pid_type_parser_p(input);
    if pid.is_ok() {
        return pid;
    }
    let tid = pid_type_parser_t(input);
    if tid.is_ok() {
        return tid;
    }
    let hextid = pid_type_parser_h(input);
    if hextid.is_ok() {
        return hextid;
    }
    Err(Reason::LiteralSetMismatch)
}

/// Reads `{pid}P`, `{tid}P` or `{hextid}P`. Braces before a `P` that hold
/// anything but one of the three words are a mismatch.
pub fn custom_pid_parser(input: &[u8]) -> (res: Result<(&[u8], Directive), Reason>)
    ensures
        yields(res, input@, grammar::custom_pid(input@)),
{
    match parens(input) {
        Err(why) => Err(why),
        Ok((after, word)) => {
            match word_parser(after, "P") {
                Err(why) => Err(why),
                Ok(rest) => {
                    assert(rest@ =~= input@.skip(
                        (word@.len() + 2 + "P".spec_bytes().len()) as int,
                    ));
                    match pid_type_parser(word) {
                        Ok((left, pid)) if left.len() == 0 => Ok((rest, Directive::PID(pid))),
                        _ => Err(Reason::LiteralSetMismatch),
                    }
                },
            }
        },
    }
}

/// Reads `>s`.
pub fn final_status_parser(input: &[u8]) -> (res: Result<(&[u8], Directive), Reason>)
    ensures
        yields(res, input@, grammar::final_status(input@)),
{
    match word_parser(input, ">s") {
        Ok(rest) => Ok((rest, Directive::FinalStatus)),
        Err(why) => Err(why),
    }
}

/// Reads `{name}^ti`.
pub fn req_trailer_parser(input: &[u8]) -> (res: Result<(&[u8], Directive), Reason>)
    ensures
        yields(res, input@, grammar::req_trailer(input@)),
{
    match named_parser(input, "^ti") {
        Ok((rest, name)) => Ok((rest, Directive::ReqTrailer(name))),
        Err(why) => Err(why),
    }
}

/// Reads `{name}^to`.
pub fn res_trailer_parser(input: &[u8]) -> (res: Result<(&[u8], Directive), Reason>)
    ensures
        yields(res, input@, grammar::res_trailer(input@)),
{
    match named_parser(input, "^to") {
        Ok((rest, name)) => Ok((rest, Directive::ResTrailer(name))),
        Err(why) => Err(why),
    }
}

/// Reads a one-character code.
pub fn code_parser(input: &[u8]) -> (res: Result<(&[u8], Directive), Reason>)
    ensures
        yields(res, input@, grammar::code(input@)),
{
    if input.len() == 0 {
        return Err(Reason::UnknownDirective);
    }
    match Directive::from_code(input[0] as char) {
        Some(found) => Ok((skip(input, 1), found)),
        None => Err(Reason::UnknownDirective),
    }
}

/// Whether a recognizer's answer is final: a match, or a reason that rules
/// out every form.
fn is_settled(res: &Result<(&[u8], Directive), Reason>) -> (settled: bool)
    ensures
        settled == !(res matches Err(Reason::UnknownDirective)),
{
    match res {
        Err(Reason::UnknownDirective) => false,
        _ => true,
    }
}

/// Reads what follows a `%`: tries each parameterized form in turn, then the
/// one-character codes, and stops at the first answer that is final.
pub fn directive_body_parser(input: &[u8]) -> (res: Result<(&[u8], Directive), Reason>)
    ensures
        yields(res, input@, grammar::directive_body(input@)),
{
    let found = peer_ip_parser(input);
    if is_settled(&found) {
        return found;
    }
    let found = req_cookie_parser(input);
    if is_settled(&found) {
        return found;
    }
    let found = env_var_parser(input);
    if is_settled(&found) {
        return found;
    }
    let found = req_header_parser(input);
    if is_settled(&found) {
        return found;
    }
    let found = note_parser(input);
    if is_settled(&found) {
        return found;
    }
    let found = res_header_parser(input);
    if is_settled(&found) {
        return found;
    }
    let found = custom_port_parser(input);
    if is_settled(&found) {
        return found;
    }
    let found = custom_pid_parser(input);
    if is_settled(&found) {
        return found;
    }
    let found = final_status_parser(input);
    if is_settled(&found) {
        return found;
    }
    let found = req_trailer_parser(input);
    if is_settled(&found) {
        return found;
    }
    let found = res_trailer_parser(input);
    if is_settled(&found) {
        return found;
    }
    code_parser(input)
}

/// Reads one directive at the head of the input: `%` and what follows it.
/// Gives the directive and the bytes after it, which are fewer than the
/// input; or the reason why no directive stands there.
pub fn directive_parser(input: &[u8]) -> (res: Result<(&[u8], Directive), Reason>)
    ensures
        yields(res, input@, grammar::directive(input@)),
        res matches Ok((rest, _)) ==> rest@.len() < input@.len(),
{
    if input.len() == 0 || input[0] != PERCENT {
        return Err(Reason::UnknownDirective);
    }
    match directive_body_parser(skip(input, 1)) {
        Ok((rest, found)) => {
            proof {
                let n = grammar::directive_body(input@.skip(1))->Ok_0.1;
                assert(rest@ =~= input@.skip(n as int + 1));
            }
            Ok((rest, found))
        },
        Err(why) => Err(why),
    }
}

/// Reads one run of literal text: everything up to the next `%` or to the
/// end of the input. Gives the text and the bytes after it, which are fewer
/// than the input. There is no run where the input is empty or begins with
/// `%`, and none where the bytes of the run are not well-formed UTF-8.
pub fn constant_parser(input: &[u8]) -> (res: Result<(&[u8], Directive), Reason>)
    ensures
        yields(res, input@, grammar::constant(input@)),
        res matches Ok((rest, _)) ==> rest@.len() < input@.len(),
{
    let n = scan_run(input, PERCENT);
    if n == 0 {
        return Err(Reason::UnknownDirective);
    }
    match text_of(take(input, n)) {
        Some(text) => Ok((skip(input, n), Directive::Literal(text))),
        None => Err(Reason::InvalidUtf8),
    }
}

/// Reads one token: a directive, or else a run of literal text. A token
/// spans at least one byte, so the bytes after it are fewer than the input.
pub fn token_parser(input: &[u8]) -> (res: Result<(&[u8], Directive), Reason>)
    ensures
        yields(res, input@, grammar::token(input@)),
        res matches Ok((rest, _)) ==> rest@.len() < input@.len(),
{
    let found = directive_parser(input);
    if is_settled(&found) {
        return found;
    }
    constant_parser(input)
}

/// Reads a whole format string. Gives the tokens in the order in which they
/// stand in the input, and says whether the input was read to its end.
/// Where it was not, the tokens are those before the first place that is no
/// token, and the outcome names that place, which lies inside the input,
/// and the reason. There are never more tokens than bytes.
pub fn logformat_parser(input: &[u8]) -> (res: (Vec<Directive>, Outcome))
    ensures
        res.0.deep_view() == grammar::parse(input@).tokens,
        res.1@ == grammar::parse(input@).stop,
        res.0.len() <= input@.len(),
        res.1 matches Outcome::Malformed { offset, .. } ==> offset < input@.len(),
{
    let mut tokens: Vec<Directive> = Vec::new();
    let mut pos: usize = 0;
    while pos < input.len()
        invariant
            tokens.len() <= pos <= input@.len(),
            grammar::parse(input@).tokens == tokens.deep_view() + grammar::parse_from(
                input@,
                pos as nat,
            ).tokens,
            grammar::parse(input@).stop == grammar::parse_from(input@, pos as nat).stop,
        decreases input@.len() - pos,
    {
        proof {
            grammar::lemma_token_span(input@.skip(pos as int));
        }
        match token_parser(skip(input, pos)) {
            Err(why) => {
                return (tokens, Outcome::Malformed { offset: pos, reason: why });
            },
            Ok((rest, found)) => {
                let ghost before = tokens.deep_view();
                let ghost after = grammar::parse_from(input@, (input@.len() - rest@.len()) as nat);
                tokens.push(found);
                assert(tokens.deep_view() =~= before.push(found@));
                assert(before + (seq![found@] + after.tokens) =~= before.push(found@)
                    + after.tokens);
                pos = input.len() - rest.len();
            },
        }
    }
    (tokens, Outcome::Complete)
}

/// Reads a format string that is given as text. The tokens and the outcome
/// are those of [`logformat_parser`] on the bytes of the text, and a text
/// is never refused for its encoding.
pub fn parse(format: &str) -> (res: (Vec<Directive>, Outcome))
    ensures
        res.0.deep_view() == grammar::parse(format.spec_bytes()).tokens,
        res.1@ == grammar::parse(format.spec_bytes()).stop,
        res.0.len() <= format.spec_bytes().len(),
        res.1 matches Outcome::Malformed { offset, reason } ==> offset
            < format.spec_bytes().len() && reason != Reason::InvalidUtf8,
{
    proof {
        encode_utf8_valid_utf8(format@);
        lemma_text_is_never_invalid(format.spec_bytes());
    }
    logformat_parser(format.as_bytes())
}

} // verus!
