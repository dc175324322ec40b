//! Laws that tie the bytes of a format string to its characters.

use vstd::prelude::*;
use vstd::string::StringSliceAdditionalSpecFns;
use vstd::utf8::{
    decode_first_scalar, decode_utf8, decode_utf8_first_scalar,
    is_char_boundary_iff_not_is_continuation_byte, length_of_first_scalar, pop_first_scalar,
    valid_utf8, valid_utf8_split,
};
use crate::bytes::{lemma_run_len, run_len, CLOSE_BRACE, PERCENT};
use crate::directive::Token;
use crate::grammar::{braces, directive_body, lemma_token_span, parse, parse_from, token};
use crate::laws::forms::lemma_reasons;
use crate::laws::words::{lemma_markers, lemma_markers_apart, lemma_prefix};
use crate::outcome::Reason;

verus! {

/// An ASCII character stands in a text exactly where its byte stands in the
/// encoding of the text: no byte of a longer encoding is an ASCII byte.
pub proof fn lemma_ascii_in_text(bytes: Seq<u8>, b: u8)
    requires
        valid_utf8(bytes),
        b <= 0x7f,
    ensures
        decode_utf8(bytes).contains(b as char) <==> bytes.contains(b),
    decreases bytes.len(),
{
    if bytes.len() > 0 {
        let first = decode_first_scalar(bytes) as char;
        let k = length_of_first_scalar(bytes);
        let rest = pop_first_scalar(bytes);
        let text = decode_utf8(bytes);
        lemma_ascii_in_text(rest, b);
        decode_utf8_first_scalar(bytes);
        assert(b & 0x7f == b) by (bit_vector)
            requires
                b <= 0x7f,
        ;
        let wide = b as u32;
        assert((wide & 0x7f) as u8 == b) by (bit_vector)
            requires
                wide == b as u32,
                b <= 0x7f,
        ;
        if first == b as char {
            assert(bytes.take(k)[0] == b);
            assert(bytes[0] == b);
        }
        if text.contains(b as char) {
            let i = choose|i: int| 0 <= i < text.len() && text[i] == b as char;
            if i > 0 {
                assert(decode_utf8(rest)[i - 1] == b as char);
                let j = choose|j: int| 0 <= j < rest.len() && rest[j] == b;
                assert(bytes[j + k] == b);
            }
        }
        if bytes.contains(b) {
            let j = choose|j: int| 0 <= j < bytes.len() && bytes[j] == b;
            if j >= k {
                assert(rest[j - k] == b);
                let i = choose|i: int| 0 <= i < decode_utf8(rest).len() && decode_utf8(rest)[i]
                    == b as char;
                assert(text[i + 1] == b as char);
            } else {
                assert(j == 0);
                assert(text[0] == b as char);
            }
        }
    }
}

/// A text can be cut before and after any of its ASCII bytes: what stands
/// before the byte, what stands from it on and what stands after it are
/// texts again.
pub proof fn lemma_cut_at_ascii(s: Seq<u8>, k: int)
    requires
        valid_utf8(s),
        0 <= k < s.len(),
        s[k] <= 0x7f,
    ensures
        valid_utf8(s.take(k)),
        valid_utf8(s.skip(k)),
        valid_utf8(s.skip(k + 1)),
{
    is_char_boundary_iff_not_is_continuation_byte(s, k);
    valid_utf8_split(s, k);
    let tail = s.skip(k);
    assert(tail =~= s.subrange(k, s.len() as int));
    assert(tail[0] == s[k]);
    assert(pop_first_scalar(tail) =~= s.skip(k + 1));
}

/// A directive ends with an ASCII byte.
proof fn lemma_directive_body_ends_ascii(s: Seq<u8>)
    ensures
        directive_body(s) matches Ok((_, n)) ==> 1 <= n <= s.len() && s[n - 1] <= 0x7f,
{
    if directive_body(s) is Ok {
        lemma_markers();
        lemma_prefix("{c}a".spec_bytes(), s);
        lemma_prefix(">s".spec_bytes(), s);
        if braces(s) is Ok {
            let b = braces(s)->Ok_0.1 as int;
            let after = s.skip(b);
            lemma_markers_apart(after);
            assert(after.len() > 0 ==> after[0] == s[b]);
            assert(after.len() > 2 ==> after[2] == s[b + 2]);
        }
    }
}

/// In a text, the name in a parameter is a text.
proof fn lemma_name_is_text(s: Seq<u8>)
    requires
        valid_utf8(s),
    ensures
        braces(s) matches Ok((name, _)) ==> valid_utf8(name),
{
    if braces(s) is Ok {
        let n = braces(s)->Ok_0.1 as int;
        lemma_run_len(s.skip(1), CLOSE_BRACE);
        lemma_cut_at_ascii(s, 0);
        lemma_cut_at_ascii(s.skip(1), n - 2);
        assert(s.skip(1).take(n - 2) =~= s.subrange(1, n - 1));
    }
}

/// In a text, no token is refused for its encoding, and what stands after
/// a token is a text again.
proof fn lemma_token_of_text(s: Seq<u8>)
    requires
        valid_utf8(s),
    ensures
        token(s) != Err::<(Token, nat), Reason>(Reason::InvalidUtf8),
        token(s) matches Ok((_, n)) ==> valid_utf8(s.skip(n as int)),
{
    lemma_token_span(s);
    if s.len() > 0 {
        if s[0] == PERCENT {
            let body = s.skip(1);
            lemma_cut_at_ascii(s, 0);
            lemma_reasons(body);
            lemma_name_is_text(body);
            lemma_directive_body_ends_ascii(body);
            if directive_body(body) is Ok {
                let n = directive_body(body)->Ok_0.1 as int;
                lemma_cut_at_ascii(body, n - 1);
                assert(body.skip(n) =~= s.skip(n + 1));
            }
        } else {
            lemma_run_len(s, PERCENT);
            let n = run_len(s, PERCENT) as int;
            if n < s.len() {
                lemma_cut_at_ascii(s, n);
            } else {
                assert(s.take(n) =~= s);
                assert(s.skip(n) =~= Seq::<u8>::empty());
            }
        }
    }
}

/// Where the input from `pos` on is a text, the reading from `pos` on is not
/// refused for its encoding.
proof fn lemma_text_from(s: Seq<u8>, pos: nat)
    requires
        pos <= s.len(),
        valid_utf8(s.skip(pos as int)),
    ensures
        !(parse_from(s, pos).stop matches Some((_, Reason::InvalidUtf8))),
    decreases s.len() - pos,
{
    if pos < s.len() {
        let here = s.skip(pos as int);
        lemma_token_of_text(here);
        lemma_token_span(here);
        if token(here) is Ok {
            let n = token(here)->Ok_0.1;
            assert(here.skip(n as int) =~= s.skip(pos as int + n));
            lemma_text_from(s, pos + n);
        }
    }
}

/// A format string that is text is never refused for its encoding: the
/// reason `InvalidUtf8` is given only for input that is not well-formed
/// UTF-8 as a whole.
pub proof fn lemma_text_is_never_invalid(s: Seq<u8>)
    requires
        valid_utf8(s),
    ensures
        !(parse(s).stop matches Some((_, Reason::InvalidUtf8))),
{
    assert(s.skip(0) =~= s);
    lemma_text_from(s, 0);
}

} // verus!
