//! Verified helpers over byte sequences: searching, slicing, trimming,
//! prefix tests, and decimal formatting. Filenames, header values and URLs
//! are carried as bytes throughout the library.

use vstd::prelude::*;
use vstd::string::StringSliceAdditionalSpecFns;

verus! {

/// ASCII whitespace: space, tab, line feed, vertical tab, form feed,
/// carriage return. This is what gets trimmed from header parameters.
pub open spec fn is_space(b: u8) -> bool {
    b == 32 || (9 <= b && b <= 13)
}

/// The longest suffix of `s` left after dropping leading whitespace.
pub open spec fn drop_front_spaces(s: Seq<u8>) -> Seq<u8>
    decreases s.len(),
{
    if s.len() > 0 && is_space(s.first()) {
        drop_front_spaces(s.drop_first())
    } else {
        s
    }
}

/// The longest prefix of `s` left after dropping trailing whitespace.
pub open spec fn drop_back_spaces(s: Seq<u8>) -> Seq<u8>
    decreases s.len(),
{
    if s.len() > 0 && is_space(s.last()) {
        drop_back_spaces(s.drop_last())
    } else {
        s
    }
}

/// The longest suffix of `s` left after dropping leading `c` bytes.
pub open spec fn drop_front_byte(s: Seq<u8>, c: u8) -> Seq<u8>
    decreases s.len(),
{
    if s.len() > 0 && s.first() == c {
        drop_front_byte(s.drop_first(), c)
    } else {
        s
    }
}

/// The longest prefix of `s` left after dropping trailing `c` bytes.
pub open spec fn drop_back_byte(s: Seq<u8>, c: u8) -> Seq<u8>
    decreases s.len(),
{
    if s.len() > 0 && s.last() == c {
        drop_back_byte(s.drop_last(), c)
    } else {
        s
    }
}

/// `drop_front_spaces` keeps exactly the bytes from the first
/// non-whitespace index `k` on.
pub proof fn lemma_drop_front_spaces_at(s: Seq<u8>, k: int)
    requires
        0 <= k <= s.len(),
        forall|j: int| 0 <= j < k ==> is_space(s[j]),
        k == s.len() || !is_space(s[k]),
    ensures
        drop_front_spaces(s) == s.skip(k),
    decreases k,
{
    if k == 0 {
        assert(s.skip(0) =~= s);
    } else {
        lemma_drop_front_spaces_at(s.drop_first(), k - 1);
        assert(s.drop_first().skip(k - 1) =~= s.skip(k));
    }
}

/// `drop_back_spaces` keeps exactly the bytes below `k`, the index after
/// the last non-whitespace byte.
pub proof fn lemma_drop_back_spaces_at(s: Seq<u8>, k: int)
    requires
        0 <= k <= s.len(),
        forall|j: int| k <= j < s.len() ==> is_space(s[j]),
        k == 0 || !is_space(s[k - 1]),
    ensures
        drop_back_spaces(s) == s.take(k),
    decreases s.len(),
{
    if k == s.len() {
        assert(s.take(k) =~= s);
    } else {
        lemma_drop_back_spaces_at(s.drop_last(), k);
        assert(s.drop_last().take(k) =~= s.take(k));
    }
}

/// `drop_front_byte` keeps exactly the bytes from the first index `k`
/// holding something other than `c`.
pub proof fn lemma_drop_front_byte_at(s: Seq<u8>, c: u8, k: int)
    requires
        0 <= k <= s.len(),
        forall|j: int| 0 <= j < k ==> s[j] == c,
        k == s.len() || s[k] != c,
    ensures
        drop_front_byte(s, c) == s.skip(k),
    decreases k,
{
    if k == 0 {
        assert(s.skip(0) =~= s);
    } else {
        lemma_drop_front_byte_at(s.drop_first(), c, k - 1);
        assert(s.drop_first().skip(k - 1) =~= s.skip(k));
    }
}

/// `drop_back_byte` keeps exactly the bytes below `k`, the index after
/// the last byte that is not `c`.
pub proof fn lemma_drop_back_byte_at(s: Seq<u8>, c: u8, k: int)
    requires
        0 <= k <= s.len(),
        forall|j: int| k <= j < s.len() ==> s[j] == c,
        k == 0 || s[k - 1] != c,
    ensures
        drop_back_byte(s, c) == s.take(k),
    decreases s.len(),
{
    if k == s.len() {
        assert(s.take(k) =~= s);
    } else {
        lemma_drop_back_byte_at(s.drop_last(), c, k);
        assert(s.drop_last().take(k) =~= s.take(k));
    }
}

/// `s` with ASCII whitespace stripped from both ends.
pub open spec fn trim_spaces(s: Seq<u8>) -> Seq<u8> {
    drop_back_spaces(drop_front_spaces(s))
}

/// `s` with every leading and trailing occurrence of `c` stripped.
pub open spec fn trim_byte(s: Seq<u8>, c: u8) -> Seq<u8> {
    drop_back_byte(drop_front_byte(s, c), c)
}

/// The index of the first occurrence of `b` in `s`, or `s.len()` if absent.
pub open spec fn first_index_of(s: Seq<u8>, b: u8) -> int
    decreases s.len(),
{
    if s.len() == 0 {
        0
    } else if s[0] == b {
        0
    } else {
        1 + first_index_of(s.drop_first(), b)
    }
}

/// `first_index_of` is pinned by a witness: everything before `k`
/// differs from `b`, and `k` is an occurrence or the end.
pub proof fn lemma_first_index_of_at(s: Seq<u8>, b: u8, k: int)
    requires
        0 <= k <= s.len(),
        forall|j: int| 0 <= j < k ==> s[j] != b,
        k == s.len() || s[k] == b,
    ensures
        first_index_of(s, b) == k,
    decreases k,
{
    if k == 0 {
    } else {
        lemma_first_index_of_at(s.drop_first(), b, k - 1);
    }
}

/// The index of the last occurrence of `b` in `s`, or `-1` if absent.
pub open spec fn last_index_of(s: Seq<u8>, b: u8) -> int
    decreases s.len(),
{
    if s.len() == 0 {
        -1
    } else if s.last() == b {
        s.len() - 1
    } else {
        last_index_of(s.drop_last(), b)
    }
}

/// `last_index_of` is pinned by a witness: everything after `k` differs
/// from `b`, and `k` is an occurrence or `-1`.
pub proof fn lemma_last_index_of_at(s: Seq<u8>, b: u8, k: int)
    requires
        -1 <= k < s.len(),
        k >= 0 ==> s[k] == b,
        forall|j: int| k < j < s.len() ==> s[j] != b,
    ensures
        last_index_of(s, b) == k,
    decreases s.len(),
{
    if k == s.len() - 1 {
    } else if s.len() > 0 {
        lemma_last_index_of_at(s.drop_last(), b, k);
    }
}

/// `p` is a prefix of `s`.
pub open spec fn starts_with(s: Seq<u8>, p: Seq<u8>) -> bool {
    p.len() <= s.len() && s.take(p.len() as int) == p
}

/// The characters of `chars`, one byte each; meaningful when every
/// character is ASCII.
pub open spec fn ascii_seq(chars: Seq<char>) -> Seq<u8> {
    Seq::new(chars.len(), |i: int| chars[i] as u8)
}

/// The decimal digits of `n`, most significant first, as ASCII bytes.
pub open spec fn dec_digits(n: nat) -> Seq<u8>
    decreases n,
{
    if n < 10 {
        seq![(48 + n) as u8]
    } else {
        dec_digits(n / 10) + seq![(48 + n % 10) as u8]
    }
}

/// Every byte of a decimal rendering is an ASCII digit.
pub proof fn lemma_dec_digits_are_digits(n: nat)
    ensures
        forall|i: int|
            0 <= i < dec_digits(n).len() ==> 48 <= #[trigger] dec_digits(n)[i] <= 57,
    decreases n,
{
    if n >= 10 {
        lemma_dec_digits_are_digits(n / 10);
        assert forall|i: int|
            0 <= i < dec_digits(n).len() implies 48 <= #[trigger] dec_digits(n)[i] <= 57 by {
            if i < dec_digits(n / 10).len() {
                assert(dec_digits(n)[i] == dec_digits(n / 10)[i]);
            }
        }
    }
}

/// The bytes of an ASCII string literal.
pub fn ascii_bytes(s: &str) -> (r: Vec<u8>)
    requires
        vstd::string::is_ascii(s),
    ensures
        r@ == ascii_seq(s@),
{
    proof {
        vstd::string::is_ascii_spec_bytes(s);
        assert(s.spec_bytes() =~= ascii_seq(s@));
    }
    vstd::slice::slice_to_vec(s.as_bytes())
}

/// The bytes of `v` from `lo` (inclusive) to `hi` (exclusive).
pub fn subvec(v: &Vec<u8>, lo: usize, hi: usize) -> (r: Vec<u8>)
    requires
        lo <= hi <= v@.len(),
    ensures
        r@ == v@.subrange(lo as int, hi as int),
{
    let mut r: Vec<u8> = Vec::new();
    let mut i: usize = lo;
    while i < hi
        invariant
            lo <= i <= hi <= v@.len(),
            r@ == v@.subrange(lo as int, i as int),
        decreases hi - i,
    {
        r.push(v[i]);
        proof {
            assert(v@.subrange(lo as int, i as int + 1) =~= v@.subrange(lo as int, i as int).push(
                v@[i as int],
            ));
        }
        i = i + 1;
    }
    r
}

/// The index of the first occurrence of `b` in `v` at or after `from`,
/// or `v.len()` if there is none.
pub fn find_byte_from(v: &Vec<u8>, from: usize, b: u8) -> (r: usize)
    requires
        from <= v@.len(),
    ensures
        from <= r <= v@.len(),
        r < v@.len() ==> v@[r as int] == b,
        forall|j: int| from <= j < r ==> v@[j] != b,
{
    let mut i: usize = from;
    while i < v.len()
        invariant
            from <= i <= v@.len(),
            forall|j: int| from <= j < i ==> v@[j] != b,
        decreases v@.len() - i,
    {
        if v[i] == b {
            return i;
        }
        i = i + 1;
    }
    i
}

/// The index of the last occurrence of `b` in `v`, or `None`.
pub fn rfind_byte(v: &Vec<u8>, b: u8) -> (r: Option<usize>)
    ensures
        match r {
            Some(i) => i < v@.len() && v@[i as int] == b && (forall|j: int|
                i < j < v@.len() ==> v@[j] != b),
            None => forall|j: int| 0 <= j < v@.len() ==> v@[j] != b,
        },
{
    let mut i: usize = v.len();
    while i > 0
        invariant
            i <= v@.len(),
            forall|j: int| i <= j < v@.len() ==> v@[j] != b,
        decreases i,
    {
        i = i - 1;
        if v[i] == b {
            return Some(i);
        }
    }
    None
}

/// Whether `v` contains the byte `b`.
pub fn contains_byte(v: &Vec<u8>, b: u8) -> (r: bool)
    ensures
        r == v@.contains(b),
{
    let mut i: usize = 0;
    while i < v.len()
        invariant
            i <= v@.len(),
            forall|j: int| 0 <= j < i ==> v@[j] != b,
        decreases v@.len() - i,
    {
        if v[i] == b {
            assert(v@.contains(b)) by {
                assert(v@[i as int] == b);
            }
            return true;
        }
        i = i + 1;
    }
    false
}

/// Whether two byte vectors hold the same bytes.
pub fn bytes_eq(a: &Vec<u8>, b: &Vec<u8>) -> (r: bool)
    ensures
        r == (a@ == b@),
{
    if a.len() != b.len() {
        return false;
    }
    let mut i: usize = 0;
    while i < a.len()
        invariant
            a@.len() == b@.len(),
            i <= a@.len(),
            forall|j: int| 0 <= j < i ==> a@[j] == b@[j],
        decreases a@.len() - i,
    {
        if a[i] != b[i] {
            return false;
        }
        i = i + 1;
    }
    proof {
        assert(a@ =~= b@);
    }
    true
}

/// Whether `p` is a prefix of `v`.
pub fn has_prefix(v: &Vec<u8>, p: &Vec<u8>) -> (r: bool)
    ensures
        r == starts_with(v@, p@),
{
    if p.len() > v.len() {
        return false;
    }
    let mut i: usize = 0;
    while i < p.len()
        invariant
            p@.len() <= v@.len(),
            i <= p@.len(),
            forall|j: int| 0 <= j < i ==> v@[j] == p@[j],
        decreases p@.len() - i,
    {
        if v[i] != p[i] {
            assert(v@.take(p@.len() as int)[i as int] != p@[i as int]);
            return false;
        }
        i = i + 1;
    }
    proof {
        assert(v@.take(p@.len() as int) =~= p@);
    }
    true
}

/// `v` with ASCII whitespace stripped from both ends.
pub fn trim_spaces_vec(v: &Vec<u8>) -> (r: Vec<u8>)
    ensures
        r@ == trim_spaces(v@),
{
    let mut lo: usize = 0;
    while lo < v.len() && (v[lo] == 32 || (9 <= v[lo] && v[lo] <= 13))
        invariant
            lo <= v@.len(),
            forall|j: int| 0 <= j < lo ==> is_space(v@[j]),
        decreases v@.len() - lo,
    {
        lo = lo + 1;
    }
    let mut hi: usize = v.len();
    while hi > lo && (v[hi - 1] == 32 || (9 <= v[hi - 1] && v[hi - 1] <= 13))
        invariant
            lo <= hi <= v@.len(),
            forall|j: int| hi <= j < v@.len() ==> is_space(v@[j]),
        decreases hi,
    {
        hi = hi - 1;
    }
    proof {
        lemma_drop_front_spaces_at(v@, lo as int);
        lemma_drop_back_spaces_at(v@.skip(lo as int), hi - lo);
        assert(v@.skip(lo as int).take(hi - lo) =~= v@.subrange(lo as int, hi as int));
    }
    subvec(v, lo, hi)
}

/// `v` with every leading and trailing occurrence of `c` stripped.
pub fn trim_byte_vec(v: &Vec<u8>, c: u8) -> (r: Vec<u8>)
    ensures
        r@ == trim_byte(v@, c),
{
    let mut lo: usize = 0;
    while lo < v.len() && v[lo] == c
        invariant
            lo <= v@.len(),
            forall|j: int| 0 <= j < lo ==> v@[j] == c,
        decreases v@.len() - lo,
    {
        lo = lo + 1;
    }
    let mut hi: usize = v.len();
    while hi > lo && v[hi - 1] == c
        invariant
            lo <= hi <= v@.len(),
            forall|j: int| hi <= j < v@.len() ==> v@[j] == c,
        decreases hi,
    {
        hi = hi - 1;
    }
    proof {
        lemma_drop_front_byte_at(v@, c, lo as int);
        lemma_drop_back_byte_at(v@.skip(lo as int), c, hi - lo);
        assert(v@.skip(lo as int).take(hi - lo) =~= v@.subrange(lo as int, hi as int));
    }
    subvec(v, lo, hi)
}

/// The decimal digits of `n`, most significant first.
pub fn u32_digits(n: u32) -> (r: Vec<u8>)
    ensures
        r@ == dec_digits(n as nat),
    decreases n,
{
    if n < 10 {
        let mut r: Vec<u8> = Vec::new();
        r.push(48 + (n as u8));
        proof {
            assert(r@ =~= dec_digits(n as nat));
        }
        r
    } else {
        proof {
            assert(n / 10 < n) by (nonlinear_arith)
                requires
                    n >= 10,
            ;
        }
        let mut r = u32_digits(n / 10);
        r.push(48 + ((n % 10) as u8));
        proof {
            assert(r@ =~= dec_digits((n / 10) as nat).push((48 + (n as nat) % 10) as u8));
            assert(dec_digits(n as nat) == dec_digits((n as nat) / 10) + seq![
                (48 + (n as nat) % 10) as u8,
            ]);
            assert(r@ =~= dec_digits(n as nat));
        }
        r
    }
}

} // verus!
