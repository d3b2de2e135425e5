//! Duplicate elimination: parse the identifiers already present in a
//! local library directory out of its entry names, and drop them from a
//! requested identifier list. Directory reading happens outside the
//! library; only plain entry names come in.

use vstd::prelude::*;

use crate::bytes_util::{find_byte_from, first_index_of, lemma_first_index_of_at, subvec};

verus! {

pub open spec fn is_digit(b: u8) -> bool {
    48 <= b && b <= 57
}

/// The value of a most-significant-first digit string.
pub open spec fn digits_value(s: Seq<u8>) -> nat
    decreases s.len(),
{
    if s.len() == 0 {
        0
    } else {
        (digits_value(s.drop_last()) * 10 + (s.last() - 48)) as nat
    }
}

pub open spec fn all_digits(s: Seq<u8>) -> bool {
    forall|i: int| 0 <= i < s.len() ==> is_digit(s[i])
}

/// The digit body of a token: the unsigned integer parser tolerates one
/// leading `+` sign.
pub open spec fn digit_body(token: Seq<u8>) -> Seq<u8> {
    if token.len() > 0 && token[0] == 43 {
        token.drop_first()
    } else {
        token
    }
}

/// Whether a token parses as a 32-bit unsigned integer: a non-empty run
/// of decimal digits (after an optional `+`) whose value fits.
pub open spec fn parses_as_u32(token: Seq<u8>) -> bool {
    let b = digit_body(token);
    b.len() > 0 && all_digits(b) && digits_value(b) <= u32::MAX
}

/// The leading token of a directory-entry name: everything before the
/// first space, or the whole name if it has none.
pub open spec fn leading_token(name: Seq<u8>) -> Seq<u8> {
    name.take(first_index_of(name, 32))
}

/// The identifier a directory-entry name contributes: its leading token
/// parsed as a 32-bit unsigned integer, or nothing when it is not one.
pub open spec fn leading_id(name: Seq<u8>) -> Option<u32> {
    let t = leading_token(name);
    if parses_as_u32(t) {
        Some(digits_value(digit_body(t)) as u32)
    } else {
        None
    }
}

/// Extending a digit string can only grow its value.
proof fn lemma_digits_value_monotone(b: Seq<u8>, k: int)
    requires
        0 <= k <= b.len(),
        all_digits(b),
    ensures
        digits_value(b) >= digits_value(b.take(k)),
    decreases b.len(),
{
    if k == b.len() {
        assert(b.take(k) =~= b);
    } else {
        assert(all_digits(b.drop_last())) by {
            assert(forall|j: int|
                0 <= j < b.len() - 1 ==> #[trigger] b.drop_last()[j] == b[j] && is_digit(b[j]));
        }
        assert(is_digit(b.last()));
        lemma_digits_value_monotone(b.drop_last(), k);
        assert(b.drop_last().take(k) =~= b.take(k));
    }
}

/// Parse the leading space-delimited token of `name` as a 32-bit
/// unsigned integer; names whose token is not such an integer yield
/// nothing (they are expected and are not an error).
pub fn parse_leading_id(name: &Vec<u8>) -> (r: Option<u32>)
    ensures
        r == leading_id(name@),
{
    let cut = find_byte_from(name, 0, 32);
    let token = subvec(name, 0, cut);
    proof {
        lemma_first_index_of_at(name@, 32u8, cut as int);
        assert(token@ =~= leading_token(name@));
    }
    let start: usize = if token.len() > 0 && token[0] == 43 {
        1
    } else {
        0
    };
    let ghost body = digit_body(token@);
    proof {
        assert(token@.skip(start as int) =~= body);
    }
    if start == token.len() {
        return None;
    }
    let mut val: u64 = 0;
    let mut i: usize = start;
    proof {
        assert(body.take(0) =~= Seq::<u8>::empty());
    }
    while i < token.len()
        invariant
            start <= i <= token@.len(),
            token@ == leading_token(name@),
            body == digit_body(token@),
            token@.skip(start as int) =~= body,
            body.len() == token@.len() - start,
            forall|j: int| 0 <= j < i - start ==> is_digit(body[j]),
            val == digits_value(body.take(i - start)),
            val <= u32::MAX,
        decreases token@.len() - i,
    {
        let b = token[i];
        assert(body[i - start] == b);
        if !(48 <= b && b <= 57) {
            assert(!all_digits(body)) by {
                assert(0 <= i - start < body.len());
                assert(!is_digit(body[i - start]));
            }
            return None;
        }
        proof {
            assert(body.take(i - start + 1).drop_last() =~= body.take(i - start));
            assert(body.take(i - start + 1).last() == b);
        }
        val = val * 10 + ((b - 48) as u64);
        assert(val == digits_value(body.take(i - start + 1)));
        if val > 0xffff_ffff {
            proof {
                if all_digits(body) {
                    lemma_digits_value_monotone(body, i - start + 1);
                    assert(digits_value(body) > u32::MAX);
                }
            }
            return None;
        }
        i = i + 1;
    }
    proof {
        assert(body.take(body.len() as int) =~= body);
    }
    Some(val as u32)
}

/// The identifiers that a list of directory-entry names contains, in
/// order of appearance; names without a leading numeric token contribute
/// nothing.
pub open spec fn existing_ids(names: Seq<Seq<u8>>) -> Seq<u32>
    decreases names.len(),
{
    if names.len() == 0 {
        Seq::empty()
    } else {
        let rest = existing_ids(names.drop_last());
        match leading_id(names.last()) {
            Some(id) => rest.push(id),
            None => rest,
        }
    }
}

/// Collect the identifiers already present in the local library from its
/// directory-entry names.
pub fn collect_existing_ids(names: &Vec<Vec<u8>>) -> (r: Vec<u32>)
    ensures
        r@ == existing_ids(names.deep_view()),
{
    let ghost full = names.deep_view();
    let mut out: Vec<u32> = Vec::new();
    let mut i: usize = 0;
    proof {
        assert(full.len() == names@.len());
        assert(full.take(0) =~= Seq::<Seq<u8>>::empty());
        assert(out@ =~= existing_ids(full.take(0)));
    }
    while i < names.len()
        invariant
            i <= names@.len(),
            full == names.deep_view(),
            full.len() == names@.len(),
            out@ == existing_ids(full.take(i as int)),
        decreases names@.len() - i,
    {
        let name = &names[i];
        proof {
            assert(full[i as int] == names@[i as int].deep_view());
            assert(names@[i as int].deep_view() =~= names@[i as int]@);
            assert(full.take(i as int + 1).last() == name@);
            assert(full.take(i as int + 1).drop_last() =~= full.take(i as int));
        }
        match parse_leading_id(name) {
            Some(id) => {
                out.push(id);
            },
            None => {},
        }
        i = i + 1;
    }
    proof {
        assert(full.take(names@.len() as int) =~= full);
    }
    out
}

/// The requested identifiers that are not already present locally, in
/// request order; occurrences are kept as they come, so a duplicate in
/// the request survives as often as it appears.
pub open spec fn new_ids(requested: Seq<u32>, existing: Seq<u32>) -> Seq<u32> {
    requested.filter(|id: u32| !existing.contains(id))
}

fn contains_u32(v: &Vec<u32>, x: u32) -> (r: bool)
    ensures
        r == v@.contains(x),
{
    let mut i: usize = 0;
    while i < v.len()
        invariant
            i <= v@.len(),
            forall|j: int| 0 <= j < i ==> v@[j] != x,
        decreases v@.len() - i,
    {
        if v[i] == x {
            assert(v@.contains(x)) by {
                assert(v@[i as int] == x);
            }
            return true;
        }
        i = i + 1;
    }
    false
}

/// Drop every requested identifier that the local library already holds.
/// With no discoverable library (`existing` absent) nothing is filtered:
/// every requested identifier is treated as new. The second component is
/// how many occurrences were removed.
pub fn remove_duplicates(requested: Vec<u32>, existing: Option<&Vec<u32>>) -> (r: (Vec<u32>, usize))
    ensures
        r.0@ == (match existing {
            Some(e) => new_ids(requested@, e@),
            None => requested@,
        }),
        r.0@.len() <= requested@.len(),
        r.1 == requested@.len() - r.0@.len(),
{
    let e = match existing {
        Some(e) => e,
        None => {
            let total = requested.len();
            return (requested, total - total);
        },
    };
    let mut kept: Vec<u32> = Vec::new();
    let mut i: usize = 0;
    proof {
        reveal(Seq::filter);
        assert(requested@.take(0) =~= Seq::<u32>::empty());
        assert(kept@ =~= new_ids(requested@.take(0), e@));
    }
    while i < requested.len()
        invariant
            i <= requested@.len(),
            kept@ == new_ids(requested@.take(i as int), e@),
            kept@.len() <= i,
        decreases requested@.len() - i,
    {
        let id = requested[i];
        proof {
            reveal(Seq::filter);
            assert(requested@.take(i as int + 1).drop_last() =~= requested@.take(i as int));
            assert(requested@.take(i as int + 1).last() == id);
        }
        if !contains_u32(e, id) {
            kept.push(id);
        }
        i = i + 1;
    }
    proof {
        assert(requested@.take(requested@.len() as int) =~= requested@);
    }
    let removed = requested.len() - kept.len();
    (kept, removed)
}

} // verus!
