//! The bytes of the grammar's fixed words, and what it means for bytes to
//! begin with one of them.

use vstd::prelude::*;
use vstd::string::StringSliceAdditionalSpecFns;
use vstd::utf8::is_ascii_chars_encode_utf8;
use crate::grammar::{pid_type, port_type};

verus! {

/// A sequence begins with a word exactly when it is as long and holds the
/// word's bytes at the word's places.
pub proof fn lemma_prefix(w: Seq<u8>, s: Seq<u8>)
    ensures
        w.is_prefix_of(s) <==> (w.len() <= s.len() && forall|k: int|
            0 <= k < w.len() ==> s[k] == w[k]),
{
    if w.len() <= s.len() {
        if w.is_prefix_of(s) {
            assert forall|k: int| 0 <= k < w.len() implies s[k] == w[k] by {
                assert(s.subrange(0, w.len() as int)[k] == s[k]);
            }
        }
        if forall|k: int| 0 <= k < w.len() ==> s[k] == w[k] {
            assert(w =~= s.subrange(0, w.len() as int));
        }
    }
}

/// The bytes of the markers that follow a parameter, and of the two fixed
/// forms.
pub proof fn lemma_markers()
    ensures
        "C".spec_bytes() == seq!['C' as u8],
        "e".spec_bytes() == seq!['e' as u8],
        "i".spec_bytes() == seq!['i' as u8],
        "n".spec_bytes() == seq!['n' as u8],
        "o".spec_bytes() == seq!['o' as u8],
        "p".spec_bytes() == seq!['p' as u8],
        "P".spec_bytes() == seq!['P' as u8],
        "^ti".spec_bytes() == seq!['^' as u8, 't' as u8, 'i' as u8],
        "^to".spec_bytes() == seq!['^' as u8, 't' as u8, 'o' as u8],
        ">s".spec_bytes() == seq!['>' as u8, 's' as u8],
        "{c}a".spec_bytes() == seq!['{' as u8, 'c' as u8, '}' as u8, 'a' as u8],
{
    reveal_strlit("C");
    reveal_strlit("e");
    reveal_strlit("i");
    reveal_strlit("n");
    reveal_strlit("o");
    reveal_strlit("p");
    reveal_strlit("P");
    reveal_strlit("^ti");
    reveal_strlit("^to");
    reveal_strlit(">s");
    reveal_strlit("{c}a");
    is_ascii_chars_encode_utf8("C"@);
    is_ascii_chars_encode_utf8("e"@);
    is_ascii_chars_encode_utf8("i"@);
    is_ascii_chars_encode_utf8("n"@);
    is_ascii_chars_encode_utf8("o"@);
    is_ascii_chars_encode_utf8("p"@);
    is_ascii_chars_encode_utf8("P"@);
    is_ascii_chars_encode_utf8("^ti"@);
    is_ascii_chars_encode_utf8("^to"@);
    is_ascii_chars_encode_utf8(">s"@);
    is_ascii_chars_encode_utf8("{c}a"@);
    assert("C".spec_bytes() =~= seq!['C' as u8]);
    assert("e".spec_bytes() =~= seq!['e' as u8]);
    assert("i".spec_bytes() =~= seq!['i' as u8]);
    assert("n".spec_bytes() =~= seq!['n' as u8]);
    assert("o".spec_bytes() =~= seq!['o' as u8]);
    assert("p".spec_bytes() =~= seq!['p' as u8]);
    assert("P".spec_bytes() =~= seq!['P' as u8]);
    assert("^ti".spec_bytes() =~= seq!['^' as u8, 't' as u8, 'i' as u8]);
    assert("^to".spec_bytes() =~= seq!['^' as u8, 't' as u8, 'o' as u8]);
    assert(">s".spec_bytes() =~= seq!['>' as u8, 's' as u8]);
    assert("{c}a".spec_bytes() =~= seq!['{' as u8, 'c' as u8, '}' as u8, 'a' as u8]);
}

/// Which marker the bytes after a parameter begin with is read off their
/// first bytes.
pub proof fn lemma_markers_apart(after: Seq<u8>)
    ensures
        "C".spec_bytes().is_prefix_of(after) <==> after.len() > 0 && after[0] == 'C' as u8,
        "e".spec_bytes().is_prefix_of(after) <==> after.len() > 0 && after[0] == 'e' as u8,
        "i".spec_bytes().is_prefix_of(after) <==> after.len() > 0 && after[0] == 'i' as u8,
        "n".spec_bytes().is_prefix_of(after) <==> after.len() > 0 && after[0] == 'n' as u8,
        "o".spec_bytes().is_prefix_of(after) <==> after.len() > 0 && after[0] == 'o' as u8,
        "p".spec_bytes().is_prefix_of(after) <==> after.len() > 0 && after[0] == 'p' as u8,
        "P".spec_bytes().is_prefix_of(after) <==> after.len() > 0 && after[0] == 'P' as u8,
        "^ti".spec_bytes().is_prefix_of(after) <==> after.len() > 2 && after[0] == '^' as u8
            && after[1] == 't' as u8 && after[2] == 'i' as u8,
        "^to".spec_bytes().is_prefix_of(after) <==> after.len() > 2 && after[0] == '^' as u8
            && after[1] == 't' as u8 && after[2] == 'o' as u8,
{
    lemma_markers();
    lemma_prefix("C".spec_bytes(), after);
    lemma_prefix("e".spec_bytes(), after);
    lemma_prefix("i".spec_bytes(), after);
    lemma_prefix("n".spec_bytes(), after);
    lemma_prefix("o".spec_bytes(), after);
    lemma_prefix("p".spec_bytes(), after);
    lemma_prefix("P".spec_bytes(), after);
    lemma_prefix("^ti".spec_bytes(), after);
    lemma_prefix("^to".spec_bytes(), after);
}

/// The bytes of the words that name a port or a process id.
pub proof fn lemma_words()
    ensures
        "canonical".spec_bytes() == seq![
            'c' as u8,
            'a' as u8,
            'n' as u8,
            'o' as u8,
            'n' as u8,
            'i' as u8,
            'c' as u8,
            'a' as u8,
            'l' as u8,
        ],
        "local".spec_bytes() == seq!['l' as u8, 'o' as u8, 'c' as u8, 'a' as u8, 'l' as u8],
        "remote".spec_bytes() == seq![
            'r' as u8,
            'e' as u8,
            'm' as u8,
            'o' as u8,
            't' as u8,
            'e' as u8,
        ],
        "pid".spec_bytes() == seq!['p' as u8, 'i' as u8, 'd' as u8],
        "tid".spec_bytes() == seq!['t' as u8, 'i' as u8, 'd' as u8],
        "hextid".spec_bytes() == seq![
            'h' as u8,
            'e' as u8,
            'x' as u8,
            't' as u8,
            'i' as u8,
            'd' as u8,
        ],
{
    reveal_strlit("canonical");
    reveal_strlit("local");
    reveal_strlit("remote");
    reveal_strlit("pid");
    reveal_strlit("tid");
    reveal_strlit("hextid");
    is_ascii_chars_encode_utf8("canonical"@);
    is_ascii_chars_encode_utf8("local"@);
    is_ascii_chars_encode_utf8("remote"@);
    is_ascii_chars_encode_utf8("pid"@);
    is_ascii_chars_encode_utf8("tid"@);
    is_ascii_chars_encode_utf8("hextid"@);
    assert("canonical".spec_bytes() =~= seq![
        'c' as u8,
        'a' as u8,
        'n' as u8,
        'o' as u8,
        'n' as u8,
        'i' as u8,
        'c' as u8,
        'a' as u8,
        'l' as u8,
    ]);
    assert("local".spec_bytes() =~= seq!['l' as u8, 'o' as u8, 'c' as u8, 'a' as u8, 'l' as u8]);
    assert("remote".spec_bytes() =~= seq![
        'r' as u8,
        'e' as u8,
        'm' as u8,
        'o' as u8,
        't' as u8,
        'e' as u8,
    ]);
    assert("pid".spec_bytes() =~= seq!['p' as u8, 'i' as u8, 'd' as u8]);
    assert("tid".spec_bytes() =~= seq!['t' as u8, 'i' as u8, 'd' as u8]);
    assert("hextid".spec_bytes() =~= seq![
        'h' as u8,
        'e' as u8,
        'x' as u8,
        't' as u8,
        'i' as u8,
        'd' as u8,
    ]);
}

/// Whether `word` is one of `canonical`, `local` and `remote`.
pub open spec fn is_port_word(word: Seq<u8>) -> bool {
    ||| word == "canonical".spec_bytes()
    ||| word == "local".spec_bytes()
    ||| word == "remote".spec_bytes()
}

/// Whether `word` is one of `pid`, `tid` and `hextid`.
pub open spec fn is_pid_word(word: Seq<u8>) -> bool {
    ||| word == "pid".spec_bytes()
    ||| word == "tid".spec_bytes()
    ||| word == "hextid".spec_bytes()
}

/// A word in braces is accepted by a port or process-id form exactly when it
/// is, from end to end, one of the three words of that form.
pub proof fn lemma_whole_words(word: Seq<u8>)
    ensures
        is_port_word(word) <==> (port_type(word) matches Ok((_, k)) && k == word.len()),
        is_pid_word(word) <==> (pid_type(word) matches Ok((_, k)) && k == word.len()),
{
    lemma_words();
    lemma_prefix("canonical".spec_bytes(), word);
    lemma_prefix("local".spec_bytes(), word);
    lemma_prefix("remote".spec_bytes(), word);
    lemma_prefix("pid".spec_bytes(), word);
    lemma_prefix("tid".spec_bytes(), word);
    lemma_prefix("hextid".spec_bytes(), word);
    if "canonical".spec_bytes().is_prefix_of(word) && word.len() == 9 {
        assert(word =~= "canonical".spec_bytes());
    }
    if "local".spec_bytes().is_prefix_of(word) && word.len() == 5 {
        assert(word =~= "local".spec_bytes());
    }
    if "remote".spec_bytes().is_prefix_of(word) && word.len() == 6 {
        assert(word =~= "remote".spec_bytes());
    }
    if "pid".spec_bytes().is_prefix_of(word) && word.len() == 3 {
        assert(word =~= "pid".spec_bytes());
    }
    if "tid".spec_bytes().is_prefix_of(word) && word.len() == 3 {
        assert(word =~= "tid".spec_bytes());
    }
    if "hextid".spec_bytes().is_prefix_of(word) && word.len() == 6 {
        assert(word =~= "hextid".spec_bytes());
    }
}

} // verus!
