//! Verified byte-sequence utilities: substring search over raw bytes and the
//! two decodings the protocol uses (UTF-8 for header text, byte-as-character
//! for multipart lines).

use vstd::prelude::*;
use vstd::utf8::{decode_utf8, valid_utf8};

verus! {

/// Pattern `p` occurs in `s` at position `i`.
pub open spec fn bmatch_at(s: Seq<u8>, p: Seq<u8>, i: int) -> bool {
    0 <= i && i + p.len() <= s.len() && s.subrange(i, i + p.len()) == p
}

/// The first position at or after `i` where `p` occurs in `s`, or `-1`.
pub open spec fn spec_bfind(s: Seq<u8>, p: Seq<u8>, i: int) -> int
    decreases s.len() - i,
{
    if i < 0 || i + p.len() > s.len() {
        -1
    } else if p.len() == 0 {
        i
    } else if s.subrange(i, i + p.len()) == p {
        i
    } else {
        spec_bfind(s, p, i + 1)
    }
}

/// What `spec_bfind` returns: either `-1` and no occurrence at or after `i`,
/// or the first occurrence at or after `i`.
pub proof fn lemma_bfind_props(s: Seq<u8>, p: Seq<u8>, i: int)
    requires
        0 <= i,
    ensures
        spec_bfind(s, p, i) == -1 ==> forall|j: int| i <= j ==> !bmatch_at(s, p, j),
        spec_bfind(s, p, i) >= 0 ==> {
            &&& spec_bfind(s, p, i) >= i
            &&& bmatch_at(s, p, spec_bfind(s, p, i))
            &&& forall|j: int| i <= j < spec_bfind(s, p, i) ==> !bmatch_at(s, p, j)
        },
    decreases s.len() - i,
{
    if i + p.len() > s.len() {
        assert forall|j: int| i <= j implies !bmatch_at(s, p, j) by {}
    } else if p.len() == 0 {
        assert(s.subrange(i, i) =~= p);
    } else if s.subrange(i, i + p.len()) == p {
    } else {
        lemma_bfind_props(s, p, i + 1);
    }
}

/// A position that matches, with none before it, is what `spec_bfind`
/// returns.
pub proof fn lemma_bfind_first(s: Seq<u8>, p: Seq<u8>, from: int, j: int)
    requires
        0 <= from <= j,
        p.len() > 0,
        bmatch_at(s, p, j),
        forall|i: int| from <= i < j ==> !bmatch_at(s, p, i),
    ensures
        spec_bfind(s, p, from) == j,
    decreases j - from,
{
    if from < j {
        assert(from + p.len() <= s.len());
        assert(!bmatch_at(s, p, from));
        assert(s.subrange(from, from + p.len()) != p);
        lemma_bfind_first(s, p, from + 1, j);
    }
}

/// The bytes of `v` from `i` to `j`.
pub fn bsubvec(v: &Vec<u8>, i: usize, j: usize) -> (r: Vec<u8>)
    requires
        i <= j <= v@.len(),
    ensures
        r@ == v@.subrange(i as int, j as int),
{
    let mut r: Vec<u8> = Vec::new();
    let mut k: usize = i;
    while k < j
        invariant
            i <= k <= j <= v@.len(),
            r@ == v@.subrange(i as int, k as int),
        decreases j - k,
    {
        r.push(v[k]);
        proof {
            assert(r@ =~= v@.subrange(i as int, k + 1 as int));
        }
        k = k + 1;
    }
    r
}

/// Whether `p` occurs in `v` at position `i`.
pub fn bmatch_at_exec(v: &Vec<u8>, p: &Vec<u8>, i: usize) -> (r: bool)
    ensures
        r == bmatch_at(v@, p@, i as int),
{
    let n = v.len();
    if i > n || p.len() > n - i {
        return false;
    }
    let mut k: usize = 0;
    while k < p.len()
        invariant
            n == v@.len(),
            i + p@.len() <= n,
            k <= p@.len(),
            forall|m: int| 0 <= m < k ==> v@[i + m] == p@[m],
        decreases p@.len() - k,
    {
        if v[i + k] != p[k] {
            proof {
                assert(v@.subrange(i as int, i + p@.len())[k as int] != p@[k as int]);
            }
            return false;
        }
        k = k + 1;
    }
    proof {
        assert(v@.subrange(i as int, i + p@.len()) =~= p@);
    }
    true
}

/// The first occurrence of `p` in `v` at or after `from`, if any.
pub fn bfind_sub(v: &Vec<u8>, p: &Vec<u8>, from: usize) -> (r: Option<usize>)
    ensures
        match r {
            Some(j) => from <= j && spec_bfind(v@, p@, from as int) == j as int,
            None => spec_bfind(v@, p@, from as int) == -1,
        },
{
    let n = v.len();
    let m = p.len();
    if m == 0 {
        if from <= n {
            proof {
                assert(v@.subrange(from as int, from as int) =~= p@);
            }
            return Some(from);
        } else {
            return None;
        }
    }
    if m > n || from > n - m {
        return None;
    }
    let mut i: usize = from;
    while i <= n - m
        invariant
            from <= i,
            n == v@.len(),
            m == p@.len(),
            1 <= m <= n,
            spec_bfind(v@, p@, from as int) == spec_bfind(v@, p@, i as int),
        decreases n - m + 1 - i,
    {
        if bmatch_at_exec(v, p, i) {
            return Some(i);
        }
        proof {
            assert(spec_bfind(v@, p@, i as int) == spec_bfind(v@, p@, i + 1 as int));
        }
        i = i + 1;
    }
    None
}

/// Each byte read as the character with the same value, the way multipart
/// lines are turned into text.
pub open spec fn spec_latin1(b: Seq<u8>) -> Seq<char> {
    Seq::new(b.len(), |i: int| b[i] as char)
}

/// The characters standing for the bytes of `v` from `i` to `j`.
pub fn latin1_chars(v: &Vec<u8>, i: usize, j: usize) -> (r: Vec<char>)
    requires
        i <= j <= v@.len(),
    ensures
        r@ == spec_latin1(v@.subrange(i as int, j as int)),
{
    let mut r: Vec<char> = Vec::new();
    let mut k: usize = i;
    while k < j
        invariant
            i <= k <= j <= v@.len(),
            r@ =~= spec_latin1(v@.subrange(i as int, k as int)),
        decreases j - k,
    {
        r.push(v[k] as char);
        proof {
            assert(r@ =~= spec_latin1(v@.subrange(i as int, k + 1 as int)));
        }
        k = k + 1;
    }
    r
}

/// Relies on `String::from_utf8`: succeeds exactly on UTF-8 input, and
/// decodes it.
#[verifier::external_body]
pub(crate) fn bytes_to_string(v: Vec<u8>) -> (r: Option<String>)
    ensures
        r is Some <==> valid_utf8(v@),
        r is Some ==> r.unwrap()@ == decode_utf8(v@),
{
    String::from_utf8(v).ok()
}

} // verus!
