//! Filename resolution: derive a destination filename for a transfer from
//! the `content-disposition` header value, from the request URL, or from
//! the numeric identifier as a last resort.
//!
//! Names travel as bytes. The sources are tried in a fixed order of
//! kinds — the header's extended `filename*=` parameter, its plain
//! `filename=` parameter, the URL's path segments, the raw URL, the
//! numeric fallback — until one yields a non-empty candidate. The winner
//! receives up to three rounds of percent-decoding, stopping early at a
//! fixed point; decoding is lenient: a `%` not followed by two
//! hexadecimal digits passes through literally together with the bytes
//! after it, so decoding never fails. Finally the name is made safe as a
//! single path segment: directory separators are stripped, and a name
//! this empties gives way to the numeric fallback.

use vstd::prelude::*;

use crate::bytes_util::{
    ascii_bytes, ascii_seq, contains_byte, bytes_eq, dec_digits, find_byte_from, first_index_of,
    has_prefix, last_index_of, lemma_first_index_of_at, lemma_last_index_of_at, rfind_byte,
    starts_with, subvec, trim_byte, trim_byte_vec, trim_spaces, trim_spaces_vec, u32_digits,
};

verus! {

/// The `%` byte that introduces a percent-encoded octet.
pub const PERCENT: u8 = 37;

pub open spec fn is_hex_digit(b: u8) -> bool {
    (48 <= b && b <= 57) || (65 <= b && b <= 70) || (97 <= b && b <= 102)
}

pub open spec fn hex_value(b: u8) -> u8 {
    if 48 <= b && b <= 57 {
        (b - 48) as u8
    } else if 65 <= b && b <= 70 {
        (b - 55) as u8
    } else if 97 <= b && b <= 102 {
        (b - 87) as u8
    } else {
        0
    }
}

/// One pass of percent-decoding. `%XY` with two hexadecimal digits becomes
/// the byte `XY`; a `%` not followed by two hexadecimal digits passes
/// through literally together with the one or two bytes after it.
pub open spec fn decode_once(s: Seq<u8>) -> Seq<u8>
    decreases s.len(),
{
    if s.len() == 0 {
        seq![]
    } else if s[0] == PERCENT {
        if s.len() >= 3 {
            if is_hex_digit(s[1]) && is_hex_digit(s[2]) {
                seq![(16 * hex_value(s[1]) + hex_value(s[2])) as u8] + decode_once(s.skip(3))
            } else {
                seq![s[0], s[1], s[2]] + decode_once(s.skip(3))
            }
        } else {
            s
        }
    } else {
        seq![s[0]] + decode_once(s.skip(1))
    }
}

/// Up to `rounds` passes of decoding, stopping early once no `%` remains
/// or a pass changes nothing.
pub open spec fn decode_iter(s: Seq<u8>, rounds: nat) -> Seq<u8>
    decreases rounds,
{
    if rounds == 0 {
        s
    } else if !s.contains(PERCENT) {
        s
    } else {
        let d = decode_once(s);
        if d == s {
            s
        } else {
            decode_iter(d, (rounds - 1) as nat)
        }
    }
}

/// The decoding applied to a chosen candidate name: at most three passes.
pub open spec fn full_decode(s: Seq<u8>) -> Seq<u8> {
    decode_iter(s, 3)
}

/// A byte sequence without a `%` is a fixed point of decoding.
pub proof fn lemma_decode_once_no_percent(s: Seq<u8>)
    requires
        !s.contains(PERCENT),
    ensures
        decode_once(s) == s,
    decreases s.len(),
{
    if s.len() == 0 {
        assert(decode_once(s) =~= s);
    } else {
        assert(s[0] != PERCENT) by {
            if s[0] == PERCENT {
                assert(s.contains(PERCENT));
            }
        }
        assert(!s.skip(1).contains(PERCENT)) by {
            if s.skip(1).contains(PERCENT) {
                let i = choose|i: int| 0 <= i < s.skip(1).len() && s.skip(1)[i] == PERCENT;
                assert(s[i + 1] == PERCENT);
                assert(s.contains(PERCENT));
            }
        }
        lemma_decode_once_no_percent(s.skip(1));
        assert(seq![s[0]] + s.skip(1) =~= s);
    }
}

/// A fixed point of a single decoding pass is left unchanged by the
/// capped iteration: re-applying the decode step to an already-decoded
/// name is a no-op.
pub proof fn lemma_full_decode_fixed_point(s: Seq<u8>)
    requires
        decode_once(s) == s,
    ensures
        full_decode(s) == s,
{
}

/// A name carrying a single layer of encoding is decoded exactly once:
/// if one pass removes every `%`, the iteration stops after that pass and
/// does not decode the result a second time.
pub proof fn lemma_single_layer_decodes_once(s: Seq<u8>)
    requires
        !decode_once(s).contains(PERCENT),
    ensures
        full_decode(s) == decode_once(s),
{
    if !s.contains(PERCENT) {
        lemma_decode_once_no_percent(s);
    } else {
        let d = decode_once(s);
        if d != s {
            assert(full_decode(s) == decode_iter(d, 2));
            assert(decode_iter(d, 2) == d);
        }
    }
}

/// The iterated decode leaves a `%`-free sequence untouched.
pub proof fn lemma_full_decode_no_percent(s: Seq<u8>)
    requires
        !s.contains(PERCENT),
    ensures
        full_decode(s) == s,
{
}

fn is_hex_digit_exec(b: u8) -> (r: bool)
    ensures
        r == is_hex_digit(b),
{
    (48 <= b && b <= 57) || (65 <= b && b <= 70) || (97 <= b && b <= 102)
}

fn hex_value_exec(b: u8) -> (r: u8)
    ensures
        r == hex_value(b),
{
    if 48 <= b && b <= 57 {
        b - 48
    } else if 65 <= b && b <= 70 {
        b - 55
    } else if 97 <= b && b <= 102 {
        b - 87
    } else {
        0
    }
}

/// One pass of percent-decoding over a byte string.
pub fn percent_decode(input: &Vec<u8>) -> (r: Vec<u8>)
    ensures
        r@ == decode_once(input@),
{
    let n = input.len();
    let mut out: Vec<u8> = Vec::new();
    let mut i: usize = 0;
    proof {
        assert(input@.skip(0) =~= input@);
        assert(out@ + decode_once(input@) =~= decode_once(input@));
    }
    while i < n
        invariant
            i <= n == input@.len(),
            decode_once(input@) == out@ + decode_once(input@.skip(i as int)),
        decreases n - i,
    {
        let ghost rest = input@.skip(i as int);
        let b = input[i];
        assert(rest[0] == b);
        if b == PERCENT && n - i >= 3 {
            let h1 = input[i + 1];
            let h2 = input[i + 2];
            assert(rest[1] == h1 && rest[2] == h2);
            proof {
                assert(rest.skip(3) =~= input@.skip(i as int + 3));
            }
            if is_hex_digit_exec(h1) && is_hex_digit_exec(h2) {
                out.push(16 * hex_value_exec(h1) + hex_value_exec(h2));
                proof {
                    assert(out@ + decode_once(input@.skip(i as int + 3)) =~= decode_once(input@));
                }
            } else {
                out.push(b);
                out.push(h1);
                out.push(h2);
                proof {
                    assert(out@ + decode_once(input@.skip(i as int + 3)) =~= decode_once(input@));
                }
            }
            i = i + 3;
        } else if b == PERCENT {
            // fewer than three bytes remain: the tail passes through unchanged
            assert(decode_once(rest) == rest);
            out.push(b);
            if i + 1 < n {
                let c = input[i + 1];
                assert(rest[1] == c);
                out.push(c);
                proof {
                    assert(rest =~= seq![b, c]);
                }
            } else {
                proof {
                    assert(rest =~= seq![b]);
                }
            }
            i = n;
            proof {
                assert(input@.skip(n as int) =~= Seq::<u8>::empty());
                assert(out@ + decode_once(input@.skip(n as int)) =~= decode_once(input@));
            }
        } else {
            out.push(b);
            proof {
                assert(rest.skip(1) =~= input@.skip(i as int + 1));
                assert(out@ + decode_once(input@.skip(i as int + 1)) =~= decode_once(input@));
            }
            i = i + 1;
        }
    }
    proof {
        assert(input@.skip(n as int) =~= Seq::<u8>::empty());
        assert(out@ =~= decode_once(input@));
    }
    out
}

/// The `filename*=UTF-8''` parameter introducer of a disposition header.
pub open spec fn ext_form_prefix() -> Seq<u8> {
    ascii_seq("filename*=UTF-8''"@)
}

/// The plain `filename=` parameter introducer.
pub open spec fn plain_param_prefix() -> Seq<u8> {
    ascii_seq("filename="@)
}

/// The archive suffix appended to the numeric fallback name.
pub open spec fn osz_suffix() -> Seq<u8> {
    ascii_seq(".osz"@)
}

fn ext_form_prefix_vec() -> (r: Vec<u8>)
    ensures
        r@ == ext_form_prefix(),
{
    proof {
        reveal_strlit("filename*=UTF-8''");
    }
    ascii_bytes("filename*=UTF-8''")
}

fn plain_param_prefix_vec() -> (r: Vec<u8>)
    ensures
        r@ == plain_param_prefix(),
{
    proof {
        reveal_strlit("filename=");
    }
    ascii_bytes("filename=")
}

fn osz_suffix_vec() -> (r: Vec<u8>)
    ensures
        r@ == osz_suffix(),
{
    proof {
        reveal_strlit(".osz");
    }
    ascii_bytes(".osz")
}

/// The candidate a single `;`-separated parameter yields for the
/// extended attempt: the decoded value of a `filename*=` parameter
/// carrying the `UTF-8''` charset marker right after the `=` (so the
/// whole introducer is `filename*=UTF-8''`); empty otherwise.
pub open spec fn ext_part_candidate(part: Seq<u8>) -> Seq<u8> {
    let t = trim_spaces(part);
    if starts_with(t, ext_form_prefix()) {
        decode_once(t.skip(ext_form_prefix().len() as int))
    } else {
        Seq::empty()
    }
}

/// The candidate a single `;`-separated parameter yields for the plain
/// attempt: the unquoted, decoded value of a `filename=` parameter;
/// empty otherwise (note that `filename*=` does not match this
/// introducer).
pub open spec fn plain_part_candidate(part: Seq<u8>) -> Seq<u8> {
    let t = trim_spaces(part);
    if starts_with(t, plain_param_prefix()) {
        let raw = trim_byte(
            trim_byte(trim_spaces(t.skip(plain_param_prefix().len() as int)), 34),
            39,
        );
        if raw.len() > 0 {
            decode_once(raw)
        } else {
            Seq::empty()
        }
    } else {
        Seq::empty()
    }
}

/// The first non-empty extended-form candidate among the `;`-separated
/// parameters of a disposition header value, or empty.
pub open spec fn ext_param_candidate(disp: Seq<u8>) -> Seq<u8>
    decreases disp.len(),
{
    let cut = first_index_of(disp, 59);
    if 0 <= cut < disp.len() {
        let cand = ext_part_candidate(disp.take(cut));
        if cand.len() > 0 {
            cand
        } else {
            ext_param_candidate(disp.skip(cut + 1))
        }
    } else {
        // no separator lies within the value: it is a single parameter
        ext_part_candidate(disp)
    }
}

/// The first non-empty plain `filename=` candidate among the
/// `;`-separated parameters of a disposition header value, or empty.
pub open spec fn plain_param_candidate(disp: Seq<u8>) -> Seq<u8>
    decreases disp.len(),
{
    let cut = first_index_of(disp, 59);
    if 0 <= cut < disp.len() {
        let cand = plain_part_candidate(disp.take(cut));
        if cand.len() > 0 {
            cand
        } else {
            plain_param_candidate(disp.skip(cut + 1))
        }
    } else {
        plain_part_candidate(disp)
    }
}

/// The candidate a disposition header value yields. The attempts are
/// ordered by kind over the whole value: every `filename*=UTF-8''`
/// parameter is tried first, wherever it stands among the parameters,
/// and only if none yields a name is a plain `filename=` parameter
/// consulted.
pub open spec fn header_candidate(disp: Seq<u8>) -> Seq<u8> {
    let e = ext_param_candidate(disp);
    if e.len() > 0 {
        e
    } else {
        plain_param_candidate(disp)
    }
}

/// Whether a path segment ends in something that looks like a file
/// extension: a dot after at least one other byte, excluding the bare
/// current- and parent-directory names.
pub open spec fn has_extension(s: Seq<u8>) -> bool {
    s != seq![46u8] && s != seq![46u8, 46u8] && last_index_of(s, 46) >= 1
}

/// The candidate the URL's path segments yield: scanning from the last
/// segment backward, the first non-empty segment with an extension,
/// decoded; empty when no segment qualifies.
pub open spec fn segments_candidate(segs: Seq<Seq<u8>>) -> Seq<u8>
    decreases segs.len(),
{
    if segs.len() == 0 {
        Seq::empty()
    } else {
        let sg = segs.last();
        if sg.len() > 0 && sg != seq![47u8] && has_extension(sg) {
            decode_once(sg)
        } else {
            segments_candidate(segs.drop_last())
        }
    }
}

/// The candidate a raw URL string yields: the span between the last `/`
/// and the first following `?` (or the end), decoded, accepted only when
/// non-empty and carrying an extension.
pub open spec fn manual_candidate(url: Seq<u8>) -> Seq<u8> {
    let li = last_index_of(url, 47);
    if li >= 0 {
        let after = url.skip(li + 1);
        let pot = after.take(first_index_of(after, 63));
        if pot.len() > 0 && has_extension(pot) {
            decode_once(pot)
        } else {
            Seq::empty()
        }
    } else {
        Seq::empty()
    }
}

/// The guaranteed fallback: the identifier's decimal digits plus `.osz`.
pub open spec fn fallback_name(id: u32) -> Seq<u8> {
    dec_digits(id as nat) + osz_suffix()
}

/// The candidate chosen before the final decoding rounds: the ordered
/// sources are the disposition header, the parsed path segments, the raw
/// URL, and the numeric fallback; the first non-empty one wins.
pub open spec fn chosen_candidate(
    disp: Option<Seq<u8>>,
    url: Seq<u8>,
    segs: Option<Seq<Seq<u8>>>,
    id: u32,
) -> Seq<u8> {
    let h = match disp {
        Some(d) => header_candidate(d),
        None => Seq::empty(),
    };
    if h.len() > 0 {
        h
    } else {
        let g = match segs {
            Some(gs) => segments_candidate(gs),
            None => Seq::empty(),
        };
        if g.len() > 0 {
            g
        } else {
            let m = manual_candidate(url);
            if m.len() > 0 {
                m
            } else {
                fallback_name(id)
            }
        }
    }
}

/// A directory separator: `/` or `\`. A resolved filename must be safe
/// as a single path segment, so neither may survive resolution.
pub open spec fn is_separator(b: u8) -> bool {
    b == 47 || b == 92
}

/// `s` with every directory separator removed.
pub open spec fn strip_separators(s: Seq<u8>) -> Seq<u8> {
    s.filter(|b: u8| !is_separator(b))
}

/// A decoded candidate made safe as a path segment: directory
/// separators are stripped (decoding may well have produced them), and
/// a name that this empties gives way to the numeric fallback.
pub open spec fn sanitize_name(decoded: Seq<u8>, id: u32) -> Seq<u8> {
    let kept = strip_separators(decoded);
    if kept.len() > 0 {
        kept
    } else {
        fallback_name(id)
    }
}

/// The fully resolved filename: the chosen candidate after the capped
/// decoding rounds, made safe as a single path segment.
pub open spec fn resolved_filename(
    disp: Option<Seq<u8>>,
    url: Seq<u8>,
    segs: Option<Seq<Seq<u8>>>,
    id: u32,
) -> Seq<u8> {
    sanitize_name(full_decode(chosen_candidate(disp, url, segs, id)), id)
}

/// Up to three passes of percent-decoding, stopping early at a fixed
/// point, as applied to a chosen filename candidate.
pub fn percent_decode_rounds(input: Vec<u8>) -> (r: Vec<u8>)
    ensures
        r@ == full_decode(input@),
{
    let mut cur = input;
    let mut round: usize = 0;
    while round < 3
        invariant
            round <= 3,
            decode_iter(cur@, (3 - round) as nat) == full_decode(input@),
        decreases 3 - round,
    {
        if !contains_byte(&cur, PERCENT) {
            return cur;
        }
        let d = percent_decode(&cur);
        if bytes_eq(&d, &cur) {
            return cur;
        }
        cur = d;
        round = round + 1;
    }
    cur
}

fn ext_part_candidate_vec(part: &Vec<u8>) -> (r: Vec<u8>)
    ensures
        r@ == ext_part_candidate(part@),
{
    let t = trim_spaces_vec(part);
    let p = ext_form_prefix_vec();
    if has_prefix(&t, &p) {
        let rest = subvec(&t, p.len(), t.len());
        proof {
            assert(rest@ =~= t@.skip(ext_form_prefix().len() as int));
        }
        return percent_decode(&rest);
    }
    let r: Vec<u8> = Vec::new();
    proof {
        assert(r@ =~= Seq::<u8>::empty());
    }
    r
}

fn plain_part_candidate_vec(part: &Vec<u8>) -> (r: Vec<u8>)
    ensures
        r@ == plain_part_candidate(part@),
{
    let t = trim_spaces_vec(part);
    let p = plain_param_prefix_vec();
    if has_prefix(&t, &p) {
        let rest = subvec(&t, p.len(), t.len());
        proof {
            assert(rest@ =~= t@.skip(plain_param_prefix().len() as int));
        }
        let unquoted = trim_byte_vec(&trim_byte_vec(&trim_spaces_vec(&rest), 34), 39);
        if unquoted.len() > 0 {
            return percent_decode(&unquoted);
        }
    }
    let r: Vec<u8> = Vec::new();
    proof {
        assert(r@ =~= Seq::<u8>::empty());
    }
    r
}

fn ext_param_candidate_vec(d: &Vec<u8>) -> (r: Vec<u8>)
    ensures
        r@ == ext_param_candidate(d@),
{
    let mut pos: usize = 0;
    proof {
        assert(d@.skip(0) =~= d@);
    }
    loop
        invariant
            pos <= d@.len(),
            ext_param_candidate(d@) == ext_param_candidate(d@.skip(pos as int)),
        decreases d@.len() - pos,
    {
        let cut = find_byte_from(d, pos, 59);
        let part = subvec(d, pos, cut);
        proof {
            lemma_first_index_of_at(d@.skip(pos as int), 59u8, cut as int - pos as int);
            assert(d@.skip(pos as int).take(cut as int - pos as int) =~= d@.subrange(
                pos as int,
                cut as int,
            ));
        }
        let cand = ext_part_candidate_vec(&part);
        if cand.len() > 0 {
            return cand;
        }
        if cut == d.len() {
            proof {
                assert(part@ =~= d@.skip(pos as int));
            }
            let r: Vec<u8> = Vec::new();
            proof {
                assert(r@ =~= Seq::<u8>::empty());
            }
            return r;
        }
        proof {
            assert(d@.skip(pos as int).skip(cut as int - pos as int + 1) =~= d@.skip(
                cut as int + 1,
            ));
        }
        pos = cut + 1;
    }
}

fn plain_param_candidate_vec(d: &Vec<u8>) -> (r: Vec<u8>)
    ensures
        r@ == plain_param_candidate(d@),
{
    let mut pos: usize = 0;
    proof {
        assert(d@.skip(0) =~= d@);
    }
    loop
        invariant
            pos <= d@.len(),
            plain_param_candidate(d@) == plain_param_candidate(d@.skip(pos as int)),
        decreases d@.len() - pos,
    {
        let cut = find_byte_from(d, pos, 59);
        let part = subvec(d, pos, cut);
        proof {
            lemma_first_index_of_at(d@.skip(pos as int), 59u8, cut as int - pos as int);
            assert(d@.skip(pos as int).take(cut as int - pos as int) =~= d@.subrange(
                pos as int,
                cut as int,
            ));
        }
        let cand = plain_part_candidate_vec(&part);
        if cand.len() > 0 {
            return cand;
        }
        if cut == d.len() {
            proof {
                assert(part@ =~= d@.skip(pos as int));
            }
            let r: Vec<u8> = Vec::new();
            proof {
                assert(r@ =~= Seq::<u8>::empty());
            }
            return r;
        }
        proof {
            assert(d@.skip(pos as int).skip(cut as int - pos as int + 1) =~= d@.skip(
                cut as int + 1,
            ));
        }
        pos = cut + 1;
    }
}

fn header_candidate_vec(d: &Vec<u8>) -> (r: Vec<u8>)
    ensures
        r@ == header_candidate(d@),
{
    let e = ext_param_candidate_vec(d);
    if e.len() > 0 {
        e
    } else {
        plain_param_candidate_vec(d)
    }
}

/// `v` with every directory separator removed, in order.
fn strip_separators_vec(v: &Vec<u8>) -> (r: Vec<u8>)
    ensures
        r@ == strip_separators(v@),
{
    let mut kept: Vec<u8> = Vec::new();
    let mut i: usize = 0;
    proof {
        reveal(Seq::filter);
        assert(v@.take(0) =~= Seq::<u8>::empty());
        assert(kept@ =~= strip_separators(v@.take(0)));
    }
    while i < v.len()
        invariant
            i <= v@.len(),
            kept@ == strip_separators(v@.take(i as int)),
        decreases v@.len() - i,
    {
        let b = v[i];
        proof {
            reveal(Seq::filter);
            assert(v@.take(i as int + 1).drop_last() =~= v@.take(i as int));
            assert(v@.take(i as int + 1).last() == b);
        }
        if b != 47 && b != 92 {
            kept.push(b);
        }
        i = i + 1;
    }
    proof {
        assert(v@.take(v@.len() as int) =~= v@);
    }
    kept
}

pub fn has_extension_vec(s: &Vec<u8>) -> (r: bool)
    ensures
        r == has_extension(s@),
{
    if s.len() == 1 && s[0] == 46 {
        proof {
            assert(s@ =~= seq![46u8]);
        }
        return false;
    }
    if s.len() == 2 && s[0] == 46 && s[1] == 46 {
        proof {
            assert(s@ =~= seq![46u8, 46u8]);
        }
        return false;
    }
    proof {
        assert(s@ != seq![46u8]) by {
            if s@ == seq![46u8] {
                assert(s@.len() == 1 && s@[0] == 46u8);
            }
        }
        assert(s@ != seq![46u8, 46u8]) by {
            if s@ == seq![46u8, 46u8] {
                assert(s@.len() == 2 && s@[0] == 46u8 && s@[1] == 46u8);
            }
        }
    }
    match rfind_byte(s, 46) {
        Some(i) => {
            proof {
                lemma_last_index_of_at(s@, 46u8, i as int);
            }
            i >= 1
        },
        None => {
            proof {
                lemma_last_index_of_at(s@, 46u8, -1);
            }
            false
        },
    }
}

fn segments_candidate_vec(gs: &Vec<Vec<u8>>) -> (r: Vec<u8>)
    ensures
        r@ == segments_candidate(gs.deep_view()),
{
    let ghost full = gs.deep_view();
    let mut i: usize = gs.len();
    proof {
        assert(full.len() == gs@.len());
        assert(full.take(gs@.len() as int) =~= full);
    }
    while i > 0
        invariant
            i <= gs@.len(),
            full == gs.deep_view(),
            full.len() == gs@.len(),
            segments_candidate(full) == segments_candidate(full.take(i as int)),
        decreases i,
    {
        i = i - 1;
        let sg = &gs[i];
        proof {
            assert(full[i as int] == gs@[i as int].deep_view());
            assert(gs@[i as int].deep_view() =~= gs@[i as int]@);
            assert(full.take(i as int + 1).last() == sg@);
            assert(full.take(i as int + 1).drop_last() =~= full.take(i as int));
        }
        let is_lone_slash = sg.len() == 1 && sg[0] == 47;
        proof {
            if sg@.len() == 1 && sg@[0] == 47u8 {
                assert(sg@ =~= seq![47u8]);
            } else if sg@ == seq![47u8] {
                assert(sg@.len() == 1 && sg@[0] == 47u8);
            }
        }
        if sg.len() > 0 && !is_lone_slash && has_extension_vec(sg) {
            return percent_decode(sg);
        }
    }
    proof {
        assert(full.take(0) =~= Seq::<Seq<u8>>::empty());
    }
    let r: Vec<u8> = Vec::new();
    proof {
        assert(r@ =~= Seq::<u8>::empty());
    }
    r
}

fn manual_candidate_vec(url: &Vec<u8>) -> (r: Vec<u8>)
    ensures
        r@ == manual_candidate(url@),
{
    match rfind_byte(url, 47) {
        Some(li) => {
            proof {
                lemma_last_index_of_at(url@, 47u8, li as int);
            }
            let n = url.len();
            let after = subvec(url, li + 1, n);
            proof {
                assert(after@ =~= url@.skip(li as int + 1));
            }
            let qi = find_byte_from(&after, 0, 63);
            let pot = subvec(&after, 0, qi);
            proof {
                lemma_first_index_of_at(after@, 63u8, qi as int);
                assert(pot@ =~= after@.take(qi as int));
            }
            if pot.len() > 0 && has_extension_vec(&pot) {
                percent_decode(&pot)
            } else {
                let r: Vec<u8> = Vec::new();
                proof {
                    assert(r@ =~= Seq::<u8>::empty());
                }
                r
            }
        },
        None => {
            proof {
                lemma_last_index_of_at(url@, 47u8, -1);
            }
            let r: Vec<u8> = Vec::new();
            proof {
                assert(r@ =~= Seq::<u8>::empty());
            }
            r
        },
    }
}

/// The guaranteed numeric fallback name, `<id>.osz`.
pub fn fallback_name_vec(map_id: u32) -> (r: Vec<u8>)
    ensures
        r@ == fallback_name(map_id),
{
    let mut r = u32_digits(map_id);
    let mut suffix = osz_suffix_vec();
    r.append(&mut suffix);
    r
}

/// Resolve the destination filename from the disposition header value,
/// the request URL, the URL's already-parsed path segments, and the
/// numeric identifier. Pure: the result is pinned for every input.
pub fn resolve_filename(
    disposition: Option<&Vec<u8>>,
    url: &Vec<u8>,
    segments: Option<&Vec<Vec<u8>>>,
    map_id: u32,
) -> (r: Vec<u8>)
    ensures
        r@ == resolved_filename(disposition.deep_view(), url@, segments.deep_view(), map_id),
        !r@.contains(47u8),
        !r@.contains(92u8),
        r@.len() > 0,
{
    let mut chosen: Vec<u8> = Vec::new();
    proof {
        assert(chosen@ =~= Seq::<u8>::empty());
    }
    if let Some(d) = disposition {
        chosen = header_candidate_vec(d);
        proof {
            assert(d.deep_view() =~= d@);
        }
    }
    if chosen.len() == 0 {
        if let Some(gs) = segments {
            chosen = segments_candidate_vec(gs);
        }
    }
    if chosen.len() == 0 {
        chosen = manual_candidate_vec(url);
    }
    if chosen.len() == 0 {
        chosen = fallback_name_vec(map_id);
    }
    proof {
        assert(chosen@ == chosen_candidate(
            disposition.deep_view(),
            url@,
            segments.deep_view(),
            map_id,
        ));
    }
    let decoded = percent_decode_rounds(chosen);
    let kept = strip_separators_vec(&decoded);
    if kept.len() > 0 {
        proof {
            lemma_strip_separators_safe(decoded@);
        }
        kept
    } else {
        proof {
            lemma_fallback_name_safe(map_id);
        }
        fallback_name_vec(map_id)
    }
}

/// What `strip_separators` keeps holds no directory separator, so a
/// non-empty stripped name is safe as a single path segment.
pub proof fn lemma_strip_separators_safe(s: Seq<u8>)
    ensures
        !strip_separators(s).contains(47u8),
        !strip_separators(s).contains(92u8),
{
    broadcast use vstd::seq_lib::group_filter_ensures;

    let kept = strip_separators(s);
    if kept.contains(47u8) {
        let i = choose|i: int| 0 <= i < kept.len() && kept[i] == 47u8;
        assert(!is_separator(kept[i]));
    }
    if kept.contains(92u8) {
        let i = choose|i: int| 0 <= i < kept.len() && kept[i] == 92u8;
        assert(!is_separator(kept[i]));
    }
}

/// The numeric fallback is always a safe, non-empty path segment: its
/// digits lie between `0` and `9`, and its suffix holds no separator.
pub proof fn lemma_fallback_name_safe(id: u32)
    ensures
        fallback_name(id).len() > 0,
        !fallback_name(id).contains(47u8),
        !fallback_name(id).contains(92u8),
{
    crate::bytes_util::lemma_dec_digits_are_digits(id as nat);
    let name = fallback_name(id);
    let digits = dec_digits(id as nat);
    assert forall|i: int| 0 <= i < name.len() implies !is_separator(#[trigger] name[i]) by {
        if i < digits.len() {
            assert(name[i] == digits[i]);
        } else {
            reveal_strlit(".osz");
            assert(name[i] == osz_suffix()[i - digits.len()]);
        }
    }
    if name.contains(47u8) {
        let i = choose|i: int| 0 <= i < name.len() && name[i] == 47u8;
        assert(!is_separator(name[i]));
    }
    if name.contains(92u8) {
        let i = choose|i: int| 0 <= i < name.len() && name[i] == 92u8;
        assert(!is_separator(name[i]));
    }
}

/// A resolved filename is a safe path segment: it is never empty and
/// holds no directory separator, whatever the header, the URL or its
/// segments contain.
pub proof fn lemma_resolved_filename_safe(
    disp: Option<Seq<u8>>,
    url: Seq<u8>,
    segs: Option<Seq<Seq<u8>>>,
    id: u32,
)
    ensures
        resolved_filename(disp, url, segs, id).len() > 0,
        !resolved_filename(disp, url, segs, id).contains(47u8),
        !resolved_filename(disp, url, segs, id).contains(92u8),
{
    let decoded = full_decode(chosen_candidate(disp, url, segs, id));
    lemma_strip_separators_safe(decoded);
    lemma_fallback_name_safe(id);
}

/// Resolution is deterministic: from the same header value, URL, path
/// segments and identifier it always yields the same name, so resolving
/// twice gives the same string.
pub proof fn lemma_resolution_deterministic(
    disp: Option<Seq<u8>>,
    url: Seq<u8>,
    segs: Option<Seq<Seq<u8>>>,
    id: u32,
    r1: Seq<u8>,
    r2: Seq<u8>,
)
    requires
        r1 == resolved_filename(disp, url, segs, id),
        r2 == resolved_filename(disp, url, segs, id),
    ensures
        r1 == r2,
{
}

/// The path segments that parsing a URL string yields: a pure function
/// of the string alone, with no value when the string is not a valid URL
/// with a segmented path.
pub uninterp spec fn url_path_segments_of(url: Seq<u8>) -> Option<Seq<Seq<u8>>>;

/// Relies on `reqwest::Url::parse` (the `url` crate's parser) and
/// `Url::path_segments`: parsing a URL string and listing the segments of
/// its path is a pure function of the string, named here by
/// `url_path_segments_of`. `path_segments` is `None` for URLs that cannot
/// be a base; a parse failure or non-UTF-8 input (rejected by
/// `str::from_utf8`) also yields `None`.
#[verifier::external_body]
fn url_path_segments(url: &Vec<u8>) -> (r: Option<Vec<Vec<u8>>>)
    ensures
        r.deep_view() == url_path_segments_of(url@),
{
    let s = match core::str::from_utf8(url) {
        Ok(s) => s,
        Err(_) => return None,
    };
    let parsed = match reqwest::Url::parse(s) {
        Ok(u) => u,
        Err(_) => return None,
    };
    parsed.path_segments().map(|segs| segs.map(|sg| sg.as_bytes().to_vec()).collect())
}

/// Derive the destination filename for a transfer from the response's
/// `content-disposition` header value (if any), the request URL, and the
/// numeric identifier. The URL's path segments come from the URL parser;
/// everything after that call is resolved by `resolve_filename`.
pub fn extract_filename(disposition: Option<&Vec<u8>>, url: &Vec<u8>, map_id: u32) -> (r: Vec<u8>)
    ensures
        r@ == resolved_filename(
            disposition.deep_view(),
            url@,
            url_path_segments_of(url@),
            map_id,
        ),
        !r@.contains(47u8),
        !r@.contains(92u8),
        r@.len() > 0,
{
    let segments = url_path_segments(url);
    let seg_ref = segments.as_ref();
    let r = resolve_filename(disposition, url, seg_ref, map_id);
    proof {
        if seg_ref is Some {
            assert(seg_ref.deep_view() =~~= segments.deep_view());
        }
    }
    r
}

/// The character sequence that interpreting bytes as UTF-8 with the
/// replacement policy yields: a pure function of the bytes alone.
pub uninterp spec fn lossy_utf8_of(bytes: Seq<u8>) -> Seq<char>;

/// Relies on `String::from_utf8_lossy`: the result depends on the bytes
/// alone, and, as its documentation states, bytes that are valid UTF-8
/// come through unchanged.
#[verifier::external_body]
fn utf8_lossy(bytes: &Vec<u8>) -> (r: String)
    ensures
        r@ == lossy_utf8_of(bytes@),
        vstd::utf8::valid_utf8(bytes@) ==> r@ == vstd::utf8::decode_utf8(bytes@),
{
    String::from_utf8_lossy(bytes).into_owned()
}

/// The displayable text of a resolved name: its bytes interpreted as
/// UTF-8, substituting the replacement policy for invalid sequences
/// rather than failing.
pub fn filename_text(name: &Vec<u8>) -> (r: String)
    ensures
        r@ == lossy_utf8_of(name@),
        vstd::utf8::valid_utf8(name@) ==> r@ == vstd::utf8::decode_utf8(name@),
{
    utf8_lossy(name)
}

} // verus!
