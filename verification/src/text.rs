//! Verified character-sequence utilities: substring search, splitting,
//! whitespace handling, and decimal conversion.  The parsing layers state
//! their contracts in terms of the spec functions defined here.

use vstd::prelude::*;

verus! {

/// Pattern `p` occurs in `s` at position `i`.
pub open spec fn match_at(s: Seq<char>, p: Seq<char>, i: int) -> bool {
    0 <= i && i + p.len() <= s.len() && s.subrange(i, i + p.len()) == p
}

/// The first position at or after `i` where `p` occurs in `s`, or `-1`.
pub open spec fn spec_find(s: Seq<char>, p: Seq<char>, i: int) -> int
    decreases s.len() - i,
{
    if i < 0 || i + p.len() > s.len() {
        -1
    } else if p.len() == 0 {
        i
    } else if s.subrange(i, i + p.len()) == p {
        i
    } else {
        spec_find(s, p, i + 1)
    }
}

/// What `spec_find` returns: either `-1` and no occurrence at or after `i`,
/// or the first occurrence at or after `i`.
pub proof fn lemma_find_props(s: Seq<char>, p: Seq<char>, i: int)
    requires
        0 <= i,
    ensures
        spec_find(s, p, i) == -1 ==> forall|j: int| i <= j ==> !match_at(s, p, j),
        spec_find(s, p, i) >= 0 ==> {
            &&& spec_find(s, p, i) >= i
            &&& match_at(s, p, spec_find(s, p, i))
            &&& forall|j: int| i <= j < spec_find(s, p, i) ==> !match_at(s, p, j)
        },
    decreases s.len() - i,
{
    if i + p.len() > s.len() {
        assert forall|j: int| i <= j implies !match_at(s, p, j) by {}
    } else if p.len() == 0 {
        assert(s.subrange(i, i) =~= p);
    } else if s.subrange(i, i + p.len()) == p {
    } else {
        lemma_find_props(s, p, i + 1);
    }
}

/// The characters of `v` from `i` to `j`.
pub fn subvec(v: &Vec<char>, i: usize, j: usize) -> (r: Vec<char>)
    requires
        i <= j <= v@.len(),
    ensures
        r@ == v@.subrange(i as int, j as int),
{
    let mut r: Vec<char> = Vec::new();
    let mut k: usize = i;
    while k < j
        invariant
            i <= k <= j <= v@.len(),
            r@ == v@.subrange(i as int, k as int),
        decreases j - k,
    {
        r.push(v[k]);
        proof {
            assert(r@ =~= v@.subrange(i as int, k + 1 as int));
        }
        k = k + 1;
    }
    r
}

/// Whether `p` occurs in `v` at position `i`.
pub fn match_at_exec(v: &Vec<char>, p: &Vec<char>, i: usize) -> (r: bool)
    ensures
        r == match_at(v@, p@, i as int),
{
    let n = v.len();
    if i > n || p.len() > n - i {
        return false;
    }
    let mut k: usize = 0;
    while k < p.len()
        invariant
            n == v@.len(),
            i + p@.len() <= n,
            k <= p@.len(),
            forall|m: int| 0 <= m < k ==> v@[i + m] == p@[m],
        decreases p@.len() - k,
    {
        if v[i + k] != p[k] {
            proof {
                assert(v@.subrange(i as int, i + p@.len())[k as int] != p@[k as int]);
            }
            return false;
        }
        k = k + 1;
    }
    proof {
        assert(v@.subrange(i as int, i + p@.len()) =~= p@);
    }
    true
}

/// The first occurrence of `p` in `v` at or after `from`, if any.
pub fn find_sub(v: &Vec<char>, p: &Vec<char>, from: usize) -> (r: Option<usize>)
    ensures
        match r {
            Some(j) => from <= j && spec_find(v@, p@, from as int) == j as int,
            None => spec_find(v@, p@, from as int) == -1,
        },
{
    let n = v.len();
    let m = p.len();
    if m == 0 {
        if from <= n {
            proof {
                assert(v@.subrange(from as int, from as int) =~= p@);
            }
            return Some(from);
        } else {
            return None;
        }
    }
    if m > n || from > n - m {
        return None;
    }
    let mut i: usize = from;
    while i <= n - m
        invariant
            from <= i,
            n == v@.len(),
            m == p@.len(),
            1 <= m <= n,
            spec_find(v@, p@, from as int) == spec_find(v@, p@, i as int),
        decreases n - m + 1 - i,
    {
        if match_at_exec(v, p, i) {
            return Some(i);
        }
        proof {
            assert(spec_find(v@, p@, i as int) == spec_find(v@, p@, i + 1 as int));
        }
        i = i + 1;
    }
    None
}

/// Whether `p` occurs anywhere in `v`.
pub fn contains_sub(v: &Vec<char>, p: &Vec<char>) -> (r: bool)
    ensures
        r == (spec_find(v@, p@, 0) >= 0),
{
    find_sub(v, p, 0).is_some()
}

/// Character-for-character equality of two string slices.
pub fn str_eq(a: &str, b: &str) -> (r: bool)
    ensures
        r == (a@ == b@),
{
    let a_len = a.unicode_len();
    let b_len = b.unicode_len();
    if a_len != b_len {
        return false;
    }
    let mut i: usize = 0;
    while i < a_len
        invariant
            a_len == a@.len(),
            b_len == b@.len(),
            a_len == b_len,
            i <= a_len,
            forall|j: int| 0 <= j < i ==> a@[j] == b@[j],
        decreases a_len - i,
    {
        if a.get_char(i) != b.get_char(i) {
            return false;
        }
        i = i + 1;
    }
    proof {
        assert(a@ =~= b@);
    }
    true
}

/// The characters of a string slice, in order.
pub fn chars_of(s: &str) -> (r: Vec<char>)
    ensures
        r@ == s@,
{
    let n = s.unicode_len();
    let mut r: Vec<char> = Vec::new();
    let mut i: usize = 0;
    while i < n
        invariant
            n == s@.len(),
            i <= n,
            r@ == s@.subrange(0, i as int),
        decreases n - i,
    {
        r.push(s.get_char(i));
        proof {
            assert(r@ =~= s@.subrange(0, i + 1 as int));
        }
        i = i + 1;
    }
    proof {
        assert(s@.subrange(0, n as int) =~= s@);
    }
    r
}

/// `s` split at every occurrence of the separator `sep`, in order.  A string
/// without the separator is one piece; each occurrence ends a piece, so a
/// trailing separator yields a final empty piece.
pub open spec fn spec_split(s: Seq<char>, sep: Seq<char>) -> Seq<Seq<char>>
    decreases s.len(),
    via spec_split_decreases
{
    let j = spec_find(s, sep, 0);
    if sep.len() == 0 || j < 0 {
        seq![s]
    } else {
        seq![s.subrange(0, j)] + spec_split(s.subrange(j + sep.len(), s.len() as int), sep)
    }
}

#[via_fn]
proof fn spec_split_decreases(s: Seq<char>, sep: Seq<char>) {
    lemma_find_props(s, sep, 0);
}

/// `v` split at every occurrence of `sep`.
pub fn split(v: &Vec<char>, sep: &Vec<char>) -> (r: Vec<Vec<char>>)
    requires
        sep@.len() > 0,
    ensures
        r.deep_view() == spec_split(v@, sep@),
        r@.len() > 0,
{
    let mut r: Vec<Vec<char>> = Vec::new();
    let mut rest: Vec<char> = subvec(v, 0, v.len());
    proof {
        assert(v@.subrange(0, v@.len() as int) =~= v@);
    }
    loop
        invariant
            sep@.len() > 0,
            spec_split(v@, sep@) =~~= r.deep_view() + spec_split(rest@, sep@),
        decreases rest@.len(),
    {
        match find_sub(&rest, sep, 0) {
            None => {
                let ghost old_r = r.deep_view();
                let ghost old_rest = rest@;
                r.push(rest);
                proof {
                    assert(spec_split(old_rest, sep@) == seq![old_rest]);
                    assert(r.deep_view() =~~= old_r + seq![old_rest]);
                    assert(r.deep_view() =~~= spec_split(v@, sep@));
                }
                return r;
            },
            Some(j) => {
                let rn = rest.len();
                let sn = sep.len();
                proof {
                    lemma_find_props(rest@, sep@, 0);
                    assert(match_at(rest@, sep@, j as int));
                    assert(j + sn <= rn);
                }
                let piece = subvec(&rest, 0, j);
                let next = subvec(&rest, j + sn, rn);
                let ghost old_r = r.deep_view();
                let ghost old_rest = rest@;
                r.push(piece);
                rest = next;
                proof {
                    assert(spec_split(old_rest, sep@) == seq![piece@] + spec_split(rest@, sep@));
                    assert(r.deep_view() =~~= old_r + seq![piece@]);
                    assert((old_r + seq![piece@]) + spec_split(rest@, sep@) =~~= old_r + (
                    seq![piece@] + spec_split(rest@, sep@)));
                }
            },
        }
    }
}

/// ASCII whitespace, as it appears around header values and between the
/// tokens of a request's first line.
pub open spec fn spec_is_ws(c: char) -> bool {
    c == ' ' || c == '\t' || c == '\r' || c == '\n'
}

/// The first position at or after `i` holding a non-whitespace character,
/// or the end of `s`.
pub open spec fn spec_skip_ws(s: Seq<char>, i: int) -> int
    decreases s.len() - i,
{
    if !(0 <= i < s.len()) {
        i
    } else if !spec_is_ws(s[i]) {
        i
    } else {
        spec_skip_ws(s, i + 1)
    }
}

/// The first position at or after `i` holding a whitespace character, or the
/// end of `s`: the end of the token that starts at `i`.
pub open spec fn spec_scan_token(s: Seq<char>, i: int) -> int
    decreases s.len() - i,
{
    if !(0 <= i < s.len()) {
        i
    } else if spec_is_ws(s[i]) {
        i
    } else {
        spec_scan_token(s, i + 1)
    }
}

/// The last position at or before `i` preceded by a non-whitespace
/// character, or `0`.
pub open spec fn spec_rskip_ws(s: Seq<char>, i: int) -> int
    decreases i,
{
    if !(0 < i <= s.len()) {
        i
    } else if !spec_is_ws(s[i - 1]) {
        i
    } else {
        spec_rskip_ws(s, i - 1)
    }
}

/// `s` without leading and trailing whitespace.
pub open spec fn spec_trim(s: Seq<char>) -> Seq<char> {
    let a = spec_skip_ws(s, 0);
    let b = spec_rskip_ws(s, s.len() as int);
    if a < b {
        s.subrange(a, b)
    } else {
        Seq::empty()
    }
}

fn is_ws_exec(c: char) -> (r: bool)
    ensures
        r == spec_is_ws(c),
{
    c == ' ' || c == '\t' || c == '\r' || c == '\n'
}

/// The position bounds of `spec_skip_ws`.
proof fn lemma_skip_ws_bounds(s: Seq<char>, i: int)
    requires
        0 <= i <= s.len(),
    ensures
        i <= spec_skip_ws(s, i) <= s.len(),
    decreases s.len() - i,
{
    if i < s.len() && spec_is_ws(s[i]) {
        lemma_skip_ws_bounds(s, i + 1);
    }
}

/// The position bounds of `spec_scan_token`.
proof fn lemma_scan_token_bounds(s: Seq<char>, i: int)
    requires
        0 <= i <= s.len(),
    ensures
        i <= spec_scan_token(s, i) <= s.len(),
    decreases s.len() - i,
{
    if i < s.len() && !spec_is_ws(s[i]) {
        lemma_scan_token_bounds(s, i + 1);
    }
}

fn skip_ws_exec(v: &Vec<char>, from: usize) -> (r: usize)
    requires
        from <= v@.len(),
    ensures
        r == spec_skip_ws(v@, from as int),
        from <= r <= v@.len(),
{
    let n = v.len();
    let mut i: usize = from;
    while i < n && is_ws_exec(v[i])
        invariant
            from <= i <= n,
            n == v@.len(),
            spec_skip_ws(v@, from as int) == spec_skip_ws(v@, i as int),
        decreases n - i,
    {
        proof {
            assert(spec_skip_ws(v@, i as int) == spec_skip_ws(v@, i + 1 as int));
        }
        i = i + 1;
    }
    i
}

fn scan_token_exec(v: &Vec<char>, from: usize) -> (r: usize)
    requires
        from <= v@.len(),
    ensures
        r == spec_scan_token(v@, from as int),
        from <= r <= v@.len(),
{
    let n = v.len();
    let mut i: usize = from;
    while i < n && !is_ws_exec(v[i])
        invariant
            from <= i <= n,
            n == v@.len(),
            spec_scan_token(v@, from as int) == spec_scan_token(v@, i as int),
        decreases n - i,
    {
        proof {
            assert(spec_scan_token(v@, i as int) == spec_scan_token(v@, i + 1 as int));
        }
        i = i + 1;
    }
    i
}

/// The first two whitespace-separated tokens of `v`, or `None` when `v`
/// holds fewer than two.
pub open spec fn spec_two_tokens(s: Seq<char>) -> Option<(Seq<char>, Seq<char>)> {
    let a = spec_skip_ws(s, 0);
    let b = spec_scan_token(s, a);
    let c = spec_skip_ws(s, b);
    let d = spec_scan_token(s, c);
    if a == s.len() || c == s.len() {
        None
    } else {
        Some((s.subrange(a, b), s.subrange(c, d)))
    }
}

/// The first two whitespace-separated tokens of `v`, if it holds two.
pub fn two_tokens(v: &Vec<char>) -> (r: Option<(Vec<char>, Vec<char>)>)
    ensures
        match r {
            Some(t) => spec_two_tokens(v@) == Some((t.0@, t.1@)),
            None => spec_two_tokens(v@) is None,
        },
{
    let n = v.len();
    let a = skip_ws_exec(v, 0);
    if a == n {
        return None;
    }
    let b = scan_token_exec(v, a);
    let c = skip_ws_exec(v, b);
    if c == n {
        return None;
    }
    let d = scan_token_exec(v, c);
    Some((subvec(v, a, b), subvec(v, c, d)))
}

/// `v` without leading and trailing whitespace.
pub fn trim(v: &Vec<char>) -> (r: Vec<char>)
    ensures
        r@ == spec_trim(v@),
{
    let n = v.len();
    let a = skip_ws_exec(v, 0);
    let mut b: usize = n;
    while b > 0 && is_ws_exec(v[b - 1])
        invariant
            b <= n,
            n == v@.len(),
            spec_rskip_ws(v@, n as int) == spec_rskip_ws(v@, b as int),
        decreases b,
    {
        proof {
            assert(spec_rskip_ws(v@, b as int) == spec_rskip_ws(v@, b - 1 as int));
        }
        b = b - 1;
    }
    if a < b {
        subvec(v, a, b)
    } else {
        proof {
            assert(Seq::<char>::empty() =~= spec_trim(v@));
        }
        Vec::new()
    }
}

/// An ASCII capital letter folded to its small form; any other character
/// unchanged.
pub open spec fn spec_lower_char(c: char) -> char {
    if 65 <= c as int <= 90 {
        ((c as u8) + 32) as char
    } else {
        c
    }
}

/// `s` with every ASCII capital letter folded to its small form.
pub open spec fn spec_lower(s: Seq<char>) -> Seq<char> {
    s.map_values(|c: char| spec_lower_char(c))
}

/// `v` with every ASCII capital letter folded to its small form.
pub fn to_lower(v: &Vec<char>) -> (r: Vec<char>)
    ensures
        r@ == spec_lower(v@),
{
    let n = v.len();
    let mut r: Vec<char> = Vec::new();
    let mut i: usize = 0;
    while i < n
        invariant
            i <= n,
            n == v@.len(),
            r@ =~= spec_lower(v@.subrange(0, i as int)),
        decreases n - i,
    {
        let c = v[i];
        let code = c as u32;
        if 65 <= code && code <= 90 {
            r.push(((code + 32) as u8) as char);
        } else {
            r.push(c);
        }
        proof {
            assert(r@ =~= spec_lower(v@.subrange(0, i + 1 as int)));
        }
        i = i + 1;
    }
    proof {
        assert(v@.subrange(0, n as int) =~= v@);
    }
    r
}

/// The decimal digit characters.
pub open spec fn spec_digit_char(d: int) -> char {
    if d == 0 {
        '0'
    } else if d == 1 {
        '1'
    } else if d == 2 {
        '2'
    } else if d == 3 {
        '3'
    } else if d == 4 {
        '4'
    } else if d == 5 {
        '5'
    } else if d == 6 {
        '6'
    } else if d == 7 {
        '7'
    } else if d == 8 {
        '8'
    } else {
        '9'
    }
}

/// The value of a decimal digit character, or `-1` for any other character.
pub open spec fn spec_digit_val(c: char) -> int {
    if c == '0' {
        0
    } else if c == '1' {
        1
    } else if c == '2' {
        2
    } else if c == '3' {
        3
    } else if c == '4' {
        4
    } else if c == '5' {
        5
    } else if c == '6' {
        6
    } else if c == '7' {
        7
    } else if c == '8' {
        8
    } else if c == '9' {
        9
    } else {
        -1
    }
}

pub open spec fn spec_is_digit(c: char) -> bool {
    spec_digit_val(c) >= 0
}

/// The decimal digits of `n`, most significant first, without leading zeros
/// (`0` itself is the single digit `0`).
pub open spec fn spec_dec(n: nat) -> Seq<char>
    decreases n,
{
    if n < 10 {
        seq![spec_digit_char(n as int)]
    } else {
        spec_dec(n / 10).push(spec_digit_char((n % 10) as int))
    }
}

/// The number named by a sequence of decimal digit characters.
pub open spec fn spec_dec_val(s: Seq<char>) -> int
    decreases s.len(),
{
    if s.len() == 0 {
        0
    } else {
        spec_dec_val(s.drop_last()) * 10 + spec_digit_val(s.last())
    }
}

pub open spec fn spec_all_digits(s: Seq<char>) -> bool {
    forall|i: int| 0 <= i < s.len() ==> spec_is_digit(#[trigger] s[i])
}

fn digit_to_char(d: usize) -> (c: char)
    requires
        d < 10,
    ensures
        c == spec_digit_char(d as int),
{
    if d == 0 {
        '0'
    } else if d == 1 {
        '1'
    } else if d == 2 {
        '2'
    } else if d == 3 {
        '3'
    } else if d == 4 {
        '4'
    } else if d == 5 {
        '5'
    } else if d == 6 {
        '6'
    } else if d == 7 {
        '7'
    } else if d == 8 {
        '8'
    } else {
        '9'
    }
}

fn char_to_digit(c: char) -> (d: Option<usize>)
    ensures
        match d {
            Some(x) => x as int == spec_digit_val(c),
            None => !spec_is_digit(c),
        },
{
    if c == '0' {
        Some(0)
    } else if c == '1' {
        Some(1)
    } else if c == '2' {
        Some(2)
    } else if c == '3' {
        Some(3)
    } else if c == '4' {
        Some(4)
    } else if c == '5' {
        Some(5)
    } else if c == '6' {
        Some(6)
    } else if c == '7' {
        Some(7)
    } else if c == '8' {
        Some(8)
    } else if c == '9' {
        Some(9)
    } else {
        None
    }
}

/// The decimal digit characters of `n`.
pub fn usize_to_dec(n: usize) -> (r: Vec<char>)
    ensures
        r@ == spec_dec(n as nat),
    decreases n,
{
    if n < 10 {
        let mut r: Vec<char> = Vec::new();
        r.push(digit_to_char(n));
        proof {
            assert(r@ =~= spec_dec(n as nat));
        }
        r
    } else {
        let mut r = usize_to_dec(n / 10);
        r.push(digit_to_char(n % 10));
        r
    }
}

/// A serialized number parses back to itself: the digits that `spec_dec`
/// writes for `n` are digits, and they name `n`.  In particular the status
/// code written into a response's status line, and the length written into
/// a `Content-Length` header, are recovered exactly by the decimal parse.
pub proof fn lemma_dec_round_trip(n: nat)
    ensures
        spec_all_digits(spec_dec(n)),
        spec_dec_val(spec_dec(n)) == n,
    decreases n,
{
    if n < 10 {
        let s = spec_dec(n);
        assert(s =~= seq![spec_digit_char(n as int)]);
        assert(s.drop_last() =~= Seq::<char>::empty());
        assert(spec_dec_val(Seq::<char>::empty()) == 0);
        assert(s.last() == spec_digit_char(n as int));
        assert(spec_digit_val(s.last()) == n);
        assert(spec_dec_val(s) == spec_dec_val(s.drop_last()) * 10 + spec_digit_val(s.last()));
    } else {
        lemma_dec_round_trip(n / 10);
        let s = spec_dec(n);
        assert(s == spec_dec(n / 10).push(spec_digit_char((n % 10) as int)));
        assert(s.drop_last() =~= spec_dec(n / 10));
        assert(spec_digit_val(s.last()) == n % 10);
        assert(spec_dec_val(s) == spec_dec_val(s.drop_last()) * 10 + spec_digit_val(s.last()));
        assert((n / 10) * 10 + n % 10 == n) by (nonlinear_arith);
        assert forall|i: int| 0 <= i < s.len() implies spec_is_digit(#[trigger] s[i]) by {
            if i < s.len() - 1 {
                assert(s[i] == spec_dec(n / 10)[i]);
            }
        }
    }
}

/// A decimal value never goes down when digits are appended.
proof fn lemma_dec_val_grows(s: Seq<char>, i: int)
    requires
        spec_all_digits(s),
        0 <= i <= s.len(),
    ensures
        0 <= spec_dec_val(s.subrange(0, i)) <= spec_dec_val(s),
    decreases s.len() - i,
{
    if i == s.len() {
        assert(s.subrange(0, i) =~= s);
        lemma_dec_val_nonneg(s);
    } else {
        lemma_dec_val_grows(s, i + 1);
        let t = s.subrange(0, i + 1);
        assert(t.drop_last() =~= s.subrange(0, i));
        lemma_dec_val_nonneg(s.subrange(0, i));
        assert(spec_dec_val(t) == spec_dec_val(s.subrange(0, i)) * 10 + spec_digit_val(s[i]));
        assert(spec_dec_val(s.subrange(0, i)) * 10 >= spec_dec_val(s.subrange(0, i)));
    }
}

/// A string of digits names a non-negative number.
proof fn lemma_dec_val_nonneg(s: Seq<char>)
    requires
        spec_all_digits(s),
    ensures
        spec_dec_val(s) >= 0,
    decreases s.len(),
{
    if s.len() > 0 {
        assert(spec_all_digits(s.drop_last()));
        lemma_dec_val_nonneg(s.drop_last());
    }
}

/// The number named by the decimal digits `v`: `None` when `v` is empty,
/// holds any non-digit, or names a number above `usize::MAX`.
pub fn parse_dec(v: &Vec<char>) -> (r: Option<usize>)
    ensures
        match r {
            Some(x) => v@.len() > 0 && spec_all_digits(v@) && x as int == spec_dec_val(v@),
            None => v@.len() == 0 || !spec_all_digits(v@) || spec_dec_val(v@) > usize::MAX,
        },
{
    let n = v.len();
    if n == 0 {
        return None;
    }
    let mut acc: usize = 0;
    let mut i: usize = 0;
    while i < n
        invariant
            i <= n,
            n == v@.len(),
            spec_all_digits(v@.subrange(0, i as int)),
            acc as int == spec_dec_val(v@.subrange(0, i as int)),
        decreases n - i,
    {
        match char_to_digit(v[i]) {
            None => {
                return None;
            },
            Some(d) => {
                proof {
                    assert(v@.subrange(0, i + 1 as int).drop_last() =~= v@.subrange(0, i as int));
                    assert(spec_all_digits(v@.subrange(0, i + 1 as int)));
                }
                if acc > usize::MAX / 10 || (acc == usize::MAX / 10 && d > usize::MAX % 10) {
                    proof {
                        assert(spec_dec_val(v@.subrange(0, i + 1 as int)) == acc * 10 + d);
                        assert(acc * 10 + d > usize::MAX) by (nonlinear_arith)
                            requires
                                acc > usize::MAX / 10 || (acc == usize::MAX / 10 && d > usize::MAX
                                    % 10),
                                d >= 0,
                        ;
                        if spec_all_digits(v@) {
                            lemma_dec_val_grows(v@, i + 1);
                        }
                    }
                    return None;
                }
                acc = acc * 10 + d;
                i = i + 1;
            },
        }
    }
    proof {
        assert(v@.subrange(0, n as int) =~= v@);
    }
    Some(acc)
}

/// Relies on `String::push`: appends the given character to the string.
#[verifier::external_body]
fn push_char(s: &mut String, c: char)
    ensures
        final(s)@ == old(s)@.push(c),
{
    s.push(c);
}

/// A `String` holding exactly the characters of `v`.
pub fn chars_to_string(v: &Vec<char>) -> (r: String)
    ensures
        r@ == v@,
{
    let mut s = String::new();
    let mut i: usize = 0;
    while i < v.len()
        invariant
            i <= v@.len(),
            s@ == v@.subrange(0, i as int),
        decreases v@.len() - i,
    {
        push_char(&mut s, v[i]);
        proof {
            assert(s@ =~= v@.subrange(0, i + 1 as int));
        }
        i = i + 1;
    }
    proof {
        assert(v@.subrange(0, v@.len() as int) =~= v@);
    }
    s
}

} // verus!
