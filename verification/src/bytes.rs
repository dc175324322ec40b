//! Scanning primitives over byte strings.

use vstd::prelude::*;
use vstd::string::StringSliceAdditionalSpecFns;

verus! {

/// The byte `%`, which opens a directive.
pub const PERCENT: u8 = 0x25;

/// The byte `{`, which opens a parameter.
pub const OPEN_BRACE: u8 = 0x7b;

/// The byte `}`, which closes a parameter.
pub const CLOSE_BRACE: u8 = 0x7d;

/// The length of the longest prefix of `s` that holds no byte equal to
/// `stop`.
pub open spec fn run_len(s: Seq<u8>, stop: u8) -> nat
    decreases s.len(),
{
    if s.len() == 0 || s[0] == stop {
        0
    } else {
        1 + run_len(s.drop_first(), stop)
    }
}

/// Whether `n` is the length of the longest prefix of `s` without `stop`:
/// no byte before `n` is `stop`, and the byte at `n`, if there is one, is.
pub open spec fn is_run(s: Seq<u8>, stop: u8, n: int) -> bool {
    &&& 0 <= n <= s.len()
    &&& forall|k: int| 0 <= k < n ==> s[k] != stop
    &&& n < s.len() ==> s[n] == stop
}

/// `run_len` is a run.
pub proof fn lemma_run_len(s: Seq<u8>, stop: u8)
    ensures
        is_run(s, stop, run_len(s, stop) as int),
    decreases s.len(),
{
    if s.len() == 0 || s[0] == stop {
    } else {
        let t = s.drop_first();
        lemma_run_len(t, stop);
        let n = run_len(t, stop) as int;
        assert forall|k: int| 0 <= k < n + 1 implies s[k] != stop by {
            if k > 0 {
                assert(s[k] == t[k - 1]);
            }
        }
        if n + 1 < s.len() {
            assert(s[n + 1] == t[n]);
        }
    }
}

/// There is only one run, and `run_len` is it.
pub proof fn lemma_run_unique(s: Seq<u8>, stop: u8, n: int)
    requires
        is_run(s, stop, n),
    ensures
        run_len(s, stop) == n,
    decreases s.len(),
{
    if s.len() == 0 || s[0] == stop {
        if n > 0 {
            assert(s[0] != stop);
        }
    } else {
        let t = s.drop_first();
        assert forall|k: int| 0 <= k < n - 1 implies t[k] != stop by {
            assert(t[k] == s[k + 1]);
        }
        if n - 1 < t.len() {
            assert(t[n - 1] == s[n]);
        }
        lemma_run_unique(t, stop, n - 1);
    }
}

/// Counts the bytes at the head of `input` that come before the first
/// `stop`, or before the end where there is none.
pub fn scan_run(input: &[u8], stop: u8) -> (n: usize)
    ensures
        n == run_len(input@, stop),
        is_run(input@, stop, n as int),
{
    let mut n: usize = 0;
    while n < input.len() && input[n] != stop
        invariant
            n <= input@.len(),
            forall|k: int| 0 <= k < n ==> input@[k] != stop,
        decreases input@.len() - n,
    {
        n += 1;
    }
    proof {
        lemma_run_unique(input@, stop, n as int);
    }
    n
}

/// Whether `input` begins with the bytes of `word`.
pub fn starts_with(input: &[u8], word: &str) -> (res: bool)
    ensures
        res == word.spec_bytes().is_prefix_of(input@),
{
    let w = word.as_bytes();
    if w.len() > input.len() {
        return false;
    }
    let mut i: usize = 0;
    while i < w.len()
        invariant
            i <= w@.len() <= input@.len(),
            w@ == word.spec_bytes(),
            forall|k: int| 0 <= k < i ==> input@[k] == w@[k],
        decreases w@.len() - i,
    {
        if input[i] != w[i] {
            assert(input@.subrange(0, w@.len() as int)[i as int] != w@[i as int]);
            return false;
        }
        i += 1;
    }
    assert(input@.subrange(0, w@.len() as int) =~= w@);
    true
}

/// The input without its first `n` bytes.
pub fn skip(input: &[u8], n: usize) -> (rest: &[u8])
    requires
        n <= input@.len(),
    ensures
        rest@ == input@.skip(n as int),
{
    vstd::slice::slice_subrange(input, n, input.len())
}

/// The first `n` bytes of the input.
pub fn take(input: &[u8], n: usize) -> (head: &[u8])
    requires
        n <= input@.len(),
    ensures
        head@ == input@.take(n as int),
{
    vstd::slice::slice_subrange(input, 0, n)
}

} // verus!
