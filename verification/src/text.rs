//! Text handling shared by the clients: UTF-8 validity and splitting a
//! command line at spaces.
use vstd::prelude::*;
use vstd::string::StringSliceAdditionalSpecFns;
use vstd::utf8::valid_utf8;
use crate::bytes::copy_bytes;

verus! {

/// Whether `bytes` are valid UTF-8.
///
/// Calls `std::str::from_utf8`, which the documentation says succeeds exactly
/// when its argument is valid UTF-8; the contract states that.
#[verifier::external_body]
pub(crate) fn utf8_ok(bytes: &[u8]) -> (r: bool)
    ensures
        r == valid_utf8(bytes@),
{
    match std::str::from_utf8(bytes) {
        Ok(_) => true,
        Err(_) => false,
    }
}

/// The length of the longest prefix of `bytes` that is valid UTF-8.
pub fn utf8_valid_up_to(bytes: &[u8]) -> (r: usize)
    ensures
        r <= bytes@.len(),
        valid_utf8(bytes@.subrange(0, r as int)),
        forall|n: int| r < n <= bytes@.len() ==> !valid_utf8(#[trigger] bytes@.subrange(0, n)),
{
    let mut n: usize = bytes.len();
    let mut prefix = copy_bytes(bytes);
    assert(bytes@.subrange(0, bytes@.len() as int) =~= bytes@);
    while n > 0
        invariant
            n <= bytes@.len(),
            prefix@ == bytes@.subrange(0, n as int),
            forall|m: int| n < m <= bytes@.len() ==> !valid_utf8(#[trigger] bytes@.subrange(0, m)),
        decreases n,
    {
        if utf8_ok(prefix.as_slice()) {
            return n;
        }
        prefix.pop();
        n = n - 1;
        assert(prefix@ =~= bytes@.subrange(0, n as int));
    }
    assert(bytes@.subrange(0, 0) =~= Seq::<u8>::empty());
    0
}

/// `n` is the length of the longest prefix of `b` that is valid UTF-8.
pub open spec fn is_utf8_prefix_len(b: Seq<u8>, n: int) -> bool {
    &&& 0 <= n <= b.len()
    &&& valid_utf8(b.subrange(0, n))
    &&& forall|m: int| n < m <= b.len() ==> !valid_utf8(#[trigger] b.subrange(0, m))
}

/// The length of the longest prefix of `b` that is valid UTF-8.
pub open spec fn utf8_prefix_len(b: Seq<u8>) -> int {
    choose|n: int| is_utf8_prefix_len(b, n)
}

/// Only one length is that of the longest valid prefix.
pub proof fn lemma_utf8_prefix_len(b: Seq<u8>, n: int)
    requires
        is_utf8_prefix_len(b, n),
    ensures
        utf8_prefix_len(b) == n,
{
    let m = choose|m: int| is_utf8_prefix_len(b, m);
    assert(is_utf8_prefix_len(b, m));
    if m < n {
        assert(!valid_utf8(b.subrange(0, n)));
    }
    if n < m {
        assert(!valid_utf8(b.subrange(0, m)));
    }
}

/// Whether `bytes` are valid UTF-8.
pub fn is_utf8(bytes: &[u8]) -> (r: bool)
    ensures
        r == valid_utf8(bytes@),
{
    utf8_ok(bytes)
}

/// Position `i` holds the first space of `s`.
pub open spec fn is_first_space(s: Seq<u8>, i: int) -> bool {
    &&& 0 <= i < s.len()
    &&& s[i] == 32
    &&& forall|j: int| 0 <= j < i ==> s[j] != 32
}

/// `s` cut at its first space into what comes before and what comes after;
/// `None` when it has no space.
pub open spec fn split_space(s: Seq<u8>) -> Option<(Seq<u8>, Seq<u8>)> {
    if exists|i: int| is_first_space(s, i) {
        let i = choose|i: int| is_first_space(s, i);
        Some((s.subrange(0, i), s.subrange(i + 1, s.len() as int)))
    } else {
        None
    }
}

/// Cuts `s` at its first space.
pub fn split_space_exec(s: &[u8]) -> (r: Option<(Vec<u8>, Vec<u8>)>)
    ensures
        match r {
            Some((a, b)) => split_space(s@) == Some((a@, b@)),
            None => split_space(s@) is None,
        },
{
    let mut i: usize = 0;
    while i < s.len()
        invariant
            i <= s@.len(),
            forall|j: int| 0 <= j < i ==> s@[j] != 32,
        decreases s@.len() - i,
    {
        if s[i] == 32 {
            proof {
                assert(is_first_space(s@, i as int));
                let k = choose|k: int| is_first_space(s@, k);
                assert(k == i) by {
                    if k < i {
                        assert(s@[k] != 32);
                    }
                    if k > i {
                        assert(s@[i as int] != 32);
                    }
                }
            }
            let mut a: Vec<u8> = Vec::new();
            let mut j: usize = 0;
            while j < i
                invariant
                    j <= i,
                    i < s@.len(),
                    a@ == s@.subrange(0, j as int),
                decreases i - j,
            {
                a.push(s[j]);
                j = j + 1;
                assert(a@ =~= s@.subrange(0, j as int));
            }
            let mut b: Vec<u8> = Vec::new();
            let mut k: usize = i + 1;
            while k < s.len()
                invariant
                    i < k <= s@.len(),
                    b@ == s@.subrange(i + 1, k as int),
                decreases s@.len() - k,
            {
                b.push(s[k]);
                k = k + 1;
                assert(b@ =~= s@.subrange(i + 1, k as int));
            }
            return Some((a, b));
        }
        i = i + 1;
    }
    None
}

/// The parts of a command line, as `splitn(3, ' ')` gives them: the command,
/// then, when there is a space, the target, then, when there is a second
/// space, the rest.
pub open spec fn command_parts(line: Seq<u8>) -> (Seq<u8>, Option<Seq<u8>>, Option<Seq<u8>>) {
    match split_space(line) {
        None => (line, None, None),
        Some((cmd, rest)) => match split_space(rest) {
            None => (cmd, Some(rest), None),
            Some((target, tail)) => (cmd, Some(target), Some(tail)),
        },
    }
}

/// The bytes of ASCII text are its characters' codes.
pub proof fn lemma_ascii_bytes(s: &str)
    requires
        vstd::string::is_ascii(s),
    ensures
        s.spec_bytes() =~= Seq::new(s@.len(), |i: int| s@[i] as u8),
{
    vstd::string::is_ascii_spec_bytes(s);
}

/// `s` holds no space.
pub open spec fn no_space(s: Seq<u8>) -> bool {
    forall|i: int| 0 <= i < s.len() ==> s[i] != 32
}

/// Text without a space does not split.
pub proof fn lemma_split_none(a: Seq<u8>)
    requires
        no_space(a),
    ensures
        split_space(a) is None,
{
    if exists|i: int| is_first_space(a, i) {
        let i = choose|i: int| is_first_space(a, i);
        assert(a[i] == 32);
    }
}

/// Text without a space, a space, and more text split at that space.
pub proof fn lemma_split_at(a: Seq<u8>, b: Seq<u8>)
    requires
        no_space(a),
    ensures
        split_space(a + seq![32u8] + b) == Some((a, b)),
{
    let s = a + seq![32u8] + b;
    let n = a.len() as int;
    assert(s[n] == 32);
    assert forall|j: int| 0 <= j < n implies s[j] != 32 by {
        assert(s[j] == a[j]);
    }
    assert(is_first_space(s, n));
    let i = choose|i: int| is_first_space(s, i);
    assert(i == n) by {
        if i < n {
            assert(s[i] == a[i]);
        }
        if i > n {
            assert(s[n] == 32);
        }
    }
    assert(s.subrange(0, n) =~= a);
    assert(s.subrange(n + 1, s.len() as int) =~= b);
}

/// A command, a space and a target, and then, after another space, the rest
/// when there is one, are read back as those parts.
pub proof fn lemma_command_parts(cmd: Seq<u8>, t: Seq<u8>, rest: Option<Seq<u8>>)
    requires
        no_space(cmd),
        no_space(t),
    ensures
        command_parts(cmd + seq![32u8] + match rest {
            None => t,
            Some(b) => t + seq![32u8] + b,
        }) == (cmd, Some(t), rest),
{
    let tail = match rest {
        None => t,
        Some(b) => t + seq![32u8] + b,
    };
    lemma_split_at(cmd, tail);
    match rest {
        None => lemma_split_none(t),
        Some(b) => lemma_split_at(t, b),
    }
}

/// Splits a command line into at most three parts at spaces.
pub fn command_parts_exec(line: &[u8]) -> (r: (Vec<u8>, Option<Vec<u8>>, Option<Vec<u8>>))
    ensures
        command_parts(line@) == (r.0@, match r.1 {
            Some(v) => Some(v@),
            None => None::<Seq<u8>>,
        }, match r.2 {
            Some(v) => Some(v@),
            None => None::<Seq<u8>>,
        }),
{
    match split_space_exec(line) {
        None => (copy_bytes(line), None, None),
        Some((cmd, rest)) => match split_space_exec(rest.as_slice()) {
            None => (cmd, Some(rest), None),
            Some((target, tail)) => (cmd, Some(target), Some(tail)),
        },
    }
}

} // verus!
