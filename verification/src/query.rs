//! Query-string handling: pairs of a query string, first-match lookup,
//! removal of a parameter, rendering, and the outbound URL rewrite
//! that strips the verification token.
use vstd::prelude::*;
use crate::bytes::{
    bytes_eq, find_first, first_match_from, lemma_first_match_found, lemma_split_append_single,
    lemma_split_no_sep, match_at, push_slice, spec_split, split_bytes, views,
};

verus! {

/// The pair a query segment denotes: split at its first '=', or a key
/// with empty value when it has none.
pub open spec fn spec_pair_of(seg: Seq<u8>) -> (Seq<u8>, Seq<u8>) {
    match first_match_from(seg, seq![61u8], 0) {
        None => (seg, Seq::empty()),
        Some(k) => (seg.subrange(0, k), seg.subrange(k + 1, seg.len() as int)),
    }
}

/// The pairs of the non-empty segments, in order.
pub open spec fn spec_pairs_of_segments(segs: Seq<Seq<u8>>) -> Seq<(Seq<u8>, Seq<u8>)>
    decreases segs.len(),
{
    if segs.len() == 0 {
        Seq::empty()
    } else {
        let rest = spec_pairs_of_segments(segs.drop_last());
        if segs.last().len() == 0 {
            rest
        } else {
            rest.push(spec_pair_of(segs.last()))
        }
    }
}

/// The key/value pairs of a query string: its '&'-separated non-empty
/// segments, each split at its first '='.
pub open spec fn spec_parse_query(q: Seq<u8>) -> Seq<(Seq<u8>, Seq<u8>)> {
    spec_pairs_of_segments(spec_split(q, seq![38u8]))
}

/// The views of the byte-vector pairs in `ps`.
pub open spec fn pair_views(ps: Seq<(Vec<u8>, Vec<u8>)>) -> Seq<(Seq<u8>, Seq<u8>)> {
    ps.map_values(|p: (Vec<u8>, Vec<u8>)| (p.0@, p.1@))
}

fn pair_of(seg: &[u8]) -> (r: (Vec<u8>, Vec<u8>))
    ensures
        (r.0@, r.1@) == spec_pair_of(seg@),
{
    let mut eqsep: Vec<u8> = Vec::new();
    eqsep.push(61); // '='
    proof {
        assert(eqsep@ =~= seq![61u8]);
    }
    match find_first(seg, eqsep.as_slice()) {
        None => (vstd::slice::slice_to_vec(seg), Vec::new()),
        Some(k) => {
            let n: usize = seg.len();
            proof {
                assert(k + eqsep@.len() <= n);
            }
            (vstd::slice::slice_to_vec(&seg[0..k]), vstd::slice::slice_to_vec(&seg[k + 1..n]))
        },
    }
}

/// Parses a query string into its pairs, as `spec_parse_query`
/// describes.
pub fn parse_query(q: &[u8]) -> (r: Vec<(Vec<u8>, Vec<u8>)>)
    ensures
        pair_views(r@) == spec_parse_query(q@),
{
    let mut amp: Vec<u8> = Vec::new();
    amp.push(38); // '&'
    proof {
        assert(amp@ =~= seq![38u8]);
    }
    let segs = split_bytes(q, amp.as_slice());
    let ghost sv = views(segs@);
    let mut out: Vec<(Vec<u8>, Vec<u8>)> = Vec::new();
    let mut i: usize = 0;
    while i < segs.len()
        invariant
            0 <= i <= segs@.len(),
            sv == views(segs@),
            sv == spec_split(q@, seq![38u8]),
            pair_views(out@) == spec_pairs_of_segments(sv.take(i as int)),
        decreases segs@.len() - i,
    {
        proof {
            assert(sv.take(i + 1).drop_last() =~= sv.take(i as int));
            assert(sv.take(i + 1).last() == sv[i as int]);
            assert(sv[i as int] == segs@[i as int]@);
        }
        if segs[i].len() > 0 {
            let p = pair_of(segs[i].as_slice());
            out.push(p);
            proof {
                assert(pair_views(out@) =~= spec_pairs_of_segments(sv.take(i + 1)));
            }
        } else {
            proof {
                assert(pair_views(out@) =~= spec_pairs_of_segments(sv.take(i + 1)));
            }
        }
        i += 1;
    }
    proof {
        assert(sv.take(sv.len() as int) =~= sv);
    }
    out
}

/// The value of the first pair holding the given key, if any.
pub open spec fn spec_lookup(pairs: Seq<(Seq<u8>, Seq<u8>)>, key: Seq<u8>) -> Option<Seq<u8>>
    decreases pairs.len(),
{
    if pairs.len() == 0 {
        None
    } else if pairs[0].0 == key {
        Some(pairs[0].1)
    } else {
        spec_lookup(pairs.skip(1), key)
    }
}

/// Looks a key up among the pairs, as `spec_lookup` describes.
pub fn lookup(pairs: &Vec<(Vec<u8>, Vec<u8>)>, key: &[u8]) -> (r: Option<Vec<u8>>)
    ensures
        match r {
            Some(v) => spec_lookup(pair_views(pairs@), key@) == Some(v@),
            None => spec_lookup(pair_views(pairs@), key@) is None,
        },
{
    let ghost pv = pair_views(pairs@);
    proof {
        assert(pv.skip(0) =~= pv);
    }
    let mut i: usize = 0;
    while i < pairs.len()
        invariant
            0 <= i <= pairs@.len(),
            pv == pair_views(pairs@),
            spec_lookup(pv, key@) == spec_lookup(pv.skip(i as int), key@),
        decreases pairs@.len() - i,
    {
        proof {
            assert(pv.skip(i as int)[0] == pv[i as int]);
            assert(pv[i as int] == (pairs@[i as int].0@, pairs@[i as int].1@));
            assert(pv.skip(i as int).skip(1) =~= pv.skip(i as int + 1));
        }
        if bytes_eq(pairs[i].0.as_slice(), key) {
            return Some(vstd::slice::slice_to_vec(pairs[i].1.as_slice()));
        }
        i += 1;
    }
    proof {
        assert(pv.skip(pairs@.len() as int) =~= Seq::<(Seq<u8>, Seq<u8>)>::empty());
    }
    None
}

/// `pairs` without every pair holding `key`, order kept.
pub open spec fn spec_remove_key(
    pairs: Seq<(Seq<u8>, Seq<u8>)>,
    key: Seq<u8>,
) -> Seq<(Seq<u8>, Seq<u8>)>
    decreases pairs.len(),
{
    if pairs.len() == 0 {
        Seq::empty()
    } else {
        let rest = spec_remove_key(pairs.drop_last(), key);
        if pairs.last().0 == key {
            rest
        } else {
            rest.push(pairs.last())
        }
    }
}

/// Copies the pairs without those holding `key`, as `spec_remove_key`
/// describes.
pub fn remove_key(pairs: &Vec<(Vec<u8>, Vec<u8>)>, key: &[u8]) -> (r: Vec<(Vec<u8>, Vec<u8>)>)
    ensures
        pair_views(r@) == spec_remove_key(pair_views(pairs@), key@),
{
    let ghost pv = pair_views(pairs@);
    let mut out: Vec<(Vec<u8>, Vec<u8>)> = Vec::new();
    let mut i: usize = 0;
    while i < pairs.len()
        invariant
            0 <= i <= pairs@.len(),
            pv == pair_views(pairs@),
            pair_views(out@) == spec_remove_key(pv.take(i as int), key@),
        decreases pairs@.len() - i,
    {
        proof {
            assert(pv.take(i + 1).drop_last() =~= pv.take(i as int));
            assert(pv.take(i + 1).last() == pv[i as int]);
            assert(pv[i as int] == (pairs@[i as int].0@, pairs@[i as int].1@));
        }
        if !bytes_eq(pairs[i].0.as_slice(), key) {
            let k = vstd::slice::slice_to_vec(pairs[i].0.as_slice());
            let v = vstd::slice::slice_to_vec(pairs[i].1.as_slice());
            out.push((k, v));
            proof {
                assert(pair_views(out@) =~= spec_remove_key(pv.take(i + 1), key@));
            }
        } else {
            proof {
                assert(pair_views(out@) =~= spec_remove_key(pv.take(i + 1), key@));
            }
        }
        i += 1;
    }
    proof {
        assert(pv.take(pv.len() as int) =~= pv);
    }
    out
}

proof fn lemma_remove_key_no_key(pairs: Seq<(Seq<u8>, Seq<u8>)>, key: Seq<u8>)
    ensures
        forall|i: int| 0 <= i < spec_remove_key(pairs, key).len()
            ==> (#[trigger] spec_remove_key(pairs, key)[i]).0 != key,
    decreases pairs.len(),
{
    if pairs.len() > 0 {
        lemma_remove_key_no_key(pairs.drop_last(), key);
        let rest = spec_remove_key(pairs.drop_last(), key);
        assert forall|i: int| 0 <= i < spec_remove_key(pairs, key).len()
            implies (#[trigger] spec_remove_key(pairs, key)[i]).0 != key by {
            if pairs.last().0 == key {
                assert(spec_remove_key(pairs, key)[i] == rest[i]);
            } else if i < rest.len() {
                assert(spec_remove_key(pairs, key)[i] == rest[i]);
            } else {
                assert(spec_remove_key(pairs, key)[i] == pairs.last());
            }
        }
    }
}

proof fn lemma_lookup_absent(pairs: Seq<(Seq<u8>, Seq<u8>)>, key: Seq<u8>)
    requires
        forall|i: int| 0 <= i < pairs.len() ==> (#[trigger] pairs[i]).0 != key,
    ensures
        spec_lookup(pairs, key) is None,
    decreases pairs.len(),
{
    if pairs.len() > 0 {
        assert(forall|i: int| 0 <= i < pairs.skip(1).len()
            ==> (#[trigger] pairs.skip(1)[i]).0 != key);
        lemma_lookup_absent(pairs.skip(1), key);
    }
}

proof fn lemma_remove_key_front(pairs: Seq<(Seq<u8>, Seq<u8>)>, key: Seq<u8>)
    requires
        pairs.len() > 0,
    ensures
        spec_remove_key(pairs, key) == if pairs[0].0 == key {
            spec_remove_key(pairs.skip(1), key)
        } else {
            seq![pairs[0]] + spec_remove_key(pairs.skip(1), key)
        },
    decreases pairs.len(),
{
    if pairs.len() == 1 {
        assert(pairs.drop_last() =~= Seq::<(Seq<u8>, Seq<u8>)>::empty());
        assert(pairs.skip(1) =~= Seq::<(Seq<u8>, Seq<u8>)>::empty());
        if pairs[0].0 != key {
            assert(seq![pairs[0]] + spec_remove_key(pairs.skip(1), key) =~= seq![pairs.last()]);
            assert(spec_remove_key(pairs, key)
                == spec_remove_key(pairs.drop_last(), key).push(pairs.last()));
            assert(spec_remove_key(pairs.drop_last(), key).push(pairs.last())
                =~= seq![pairs.last()]);
        }
    } else {
        let butlast = pairs.drop_last();
        lemma_remove_key_front(butlast, key);
        assert(butlast.skip(1) =~= pairs.skip(1).drop_last());
        assert(butlast[0] == pairs[0]);
        assert(pairs.skip(1).len() > 0);
        assert(pairs.skip(1).last() == pairs.last());
        if pairs[0].0 == key {
            if pairs.last().0 == key {
            } else {
                assert(spec_remove_key(pairs, key)
                    == spec_remove_key(pairs.skip(1).drop_last(), key).push(pairs.last()));
            }
        } else {
            if pairs.last().0 == key {
            } else {
                assert((seq![pairs[0]] + spec_remove_key(pairs.skip(1).drop_last(), key)).push(
                    pairs.last()) =~= seq![pairs[0]] + spec_remove_key(pairs.skip(1).drop_last(),
                    key).push(pairs.last()));
            }
        }
    }
}

proof fn lemma_remove_key_keeps_others(
    pairs: Seq<(Seq<u8>, Seq<u8>)>,
    key: Seq<u8>,
    other: Seq<u8>,
)
    requires
        other != key,
    ensures
        spec_lookup(spec_remove_key(pairs, key), other) == spec_lookup(pairs, other),
    decreases pairs.len(),
{
    if pairs.len() > 0 {
        lemma_remove_key_front(pairs, key);
        lemma_remove_key_keeps_others(pairs.skip(1), key, other);
        if pairs[0].0 == key {
            assert(pairs[0].0 != other);
        } else {
            let tail = spec_remove_key(pairs.skip(1), key);
            let whole = seq![pairs[0]] + tail;
            assert(whole.len() > 0);
            assert(whole[0] == pairs[0]);
            assert(whole.skip(1) =~= tail);
        }
    }
}

proof fn lemma_lookup_after_push(pairs: Seq<(Seq<u8>, Seq<u8>)>, key: Seq<u8>, v: Seq<u8>)
    requires
        spec_lookup(pairs, key) is None,
    ensures
        spec_lookup(pairs.push((key, v)), key) == Some(v),
    decreases pairs.len(),
{
    if pairs.len() == 0 {
        assert(pairs.push((key, v))[0] == (key, v));
    } else {
        assert(pairs[0].0 != key);
        assert(pairs.push((key, v))[0] == pairs[0]);
        assert(pairs.push((key, v)).skip(1) =~= pairs.skip(1).push((key, v)));
        lemma_lookup_after_push(pairs.skip(1), key, v);
    }
}

proof fn lemma_lookup_push_other(
    pairs: Seq<(Seq<u8>, Seq<u8>)>,
    p: (Seq<u8>, Seq<u8>),
    other: Seq<u8>,
)
    requires
        p.0 != other,
    ensures
        spec_lookup(pairs.push(p), other) == spec_lookup(pairs, other),
    decreases pairs.len(),
{
    if pairs.len() == 0 {
        assert(pairs.push(p)[0] == p);
        assert(pairs.push(p).skip(1) =~= Seq::<(Seq<u8>, Seq<u8>)>::empty());
        assert(spec_lookup(pairs.push(p).skip(1), other)
            == spec_lookup(Seq::<(Seq<u8>, Seq<u8>)>::empty(), other));
        assert(spec_lookup(Seq::<(Seq<u8>, Seq<u8>)>::empty(), other) is None);
        assert(spec_lookup(pairs.push(p), other) is None);
    } else {
        assert(pairs.push(p)[0] == pairs[0]);
        assert(pairs.push(p).skip(1) =~= pairs.skip(1).push(p));
        lemma_lookup_push_other(pairs.skip(1), p, other);
        if pairs[0].0 == other {
            assert(spec_lookup(pairs.push(p), other) == Some(pairs[0].1));
        } else {
            assert(spec_lookup(pairs.push(p), other)
                == spec_lookup(pairs.skip(1).push(p), other));
        }
    }
}

/// The net effect of the rewrite on the outgoing pairs: the token
/// parameter maps to the application token exactly when that is
/// non-empty — the proof and access material never reaches the origin
/// under it — and every other parameter keeps its original value.
pub proof fn lemma_rewrite_pairs(
    pairs: Seq<(Seq<u8>, Seq<u8>)>,
    key: Seq<u8>,
    app: Seq<u8>,
    other: Seq<u8>,
)
    requires
        other != key,
    ensures
        ({
            let kept = spec_remove_key(pairs, key);
            let out = if app.len() > 0 {
                kept.push((key, app))
            } else {
                kept
            };
            &&& spec_lookup(out, key) == if app.len() > 0 {
                Some(app)
            } else {
                None::<Seq<u8>>
            }
            &&& spec_lookup(out, other) == spec_lookup(pairs, other)
        }),
{
    let kept = spec_remove_key(pairs, key);
    lemma_remove_key_no_key(pairs, key);
    lemma_lookup_absent(kept, key);
    lemma_remove_key_keeps_others(pairs, key, other);
    if app.len() > 0 {
        lemma_lookup_after_push(kept, key, app);
        lemma_lookup_push_other(kept, (key, app), other);
    }
}

/// The query string rendering the first `n` pairs: "key=value"
/// segments joined by '&'.
pub open spec fn spec_render_upto(pairs: Seq<(Seq<u8>, Seq<u8>)>, n: int) -> Seq<u8>
    decreases n,
{
    if n <= 0 {
        Seq::empty()
    } else {
        let seg = pairs[n - 1].0 + seq![61u8] + pairs[n - 1].1;
        if n == 1 {
            seg
        } else {
            spec_render_upto(pairs, n - 1) + seq![38u8] + seg
        }
    }
}

/// The query string rendering `pairs`.
pub open spec fn spec_render_query(pairs: Seq<(Seq<u8>, Seq<u8>)>) -> Seq<u8> {
    spec_render_upto(pairs, pairs.len() as int)
}

/// Renders pairs back into a query string, as `spec_render_query`
/// describes.
pub fn render_query(pairs: &Vec<(Vec<u8>, Vec<u8>)>) -> (r: Vec<u8>)
    ensures
        r@ == spec_render_query(pair_views(pairs@)),
{
    let ghost pv = pair_views(pairs@);
    let mut out: Vec<u8> = Vec::new();
    let mut i: usize = 0;
    while i < pairs.len()
        invariant
            0 <= i <= pairs@.len(),
            pv == pair_views(pairs@),
            out@ == spec_render_upto(pv, i as int),
        decreases pairs@.len() - i,
    {
        if i > 0 {
            out.push(38); // '&'
        }
        push_slice(&mut out, pairs[i].0.as_slice());
        out.push(61); // '='
        push_slice(&mut out, pairs[i].1.as_slice());
        proof {
            assert(pv[i as int] == (pairs@[i as int].0@, pairs@[i as int].1@));
            assert(out@ =~= spec_render_upto(pv, i as int + 1));
        }
        i += 1;
    }
    out
}

/// The query part of a URL: between the first '?' and the following
/// '#' or the end; empty when there is no '?'.
pub open spec fn spec_query_of(url: Seq<u8>) -> Seq<u8> {
    match first_match_from(url, seq![63u8], 0) {
        None => Seq::empty(),
        Some(q) => {
            let rest = url.subrange(q + 1, url.len() as int);
            match first_match_from(rest, seq![35u8], 0) {
                None => rest,
                Some(h) => rest.subrange(0, h),
            }
        },
    }
}

/// Keys free of '&' and '=', values free of '&': the shape every pair
/// parsed from a query string has.
pub open spec fn wf_pairs(pairs: Seq<(Seq<u8>, Seq<u8>)>) -> bool {
    &&& forall|i: int, j: int|
        0 <= i < pairs.len() && 0 <= j < pairs[i].0.len()
            ==> (#[trigger] pairs[i].0[j]) != 38 && pairs[i].0[j] != 61
    &&& forall|i: int, j: int|
        0 <= i < pairs.len() && 0 <= j < pairs[i].1.len() ==> (#[trigger] pairs[i].1[j]) != 38
}

proof fn lemma_pair_of_kv(k: Seq<u8>, v: Seq<u8>)
    requires
        forall|j: int| 0 <= j < k.len() ==> k[j] != 61,
    ensures
        spec_pair_of(k + seq![61u8] + v) == (k, v),
{
    let s = k + seq![61u8] + v;
    let sep = seq![61u8];
    assert(s.subrange(k.len() as int, k.len() as int + 1) =~= sep);
    assert(match_at(s, sep, k.len() as int));
    assert forall|j: int| 0 <= j < k.len() implies !match_at(s, sep, j) by {
        if match_at(s, sep, j) {
            assert(s.subrange(j, j + 1)[0] == 61);
            assert(k[j] != 61);
        }
    }
    lemma_first_match_found(s, sep, 0, k.len() as int);
    assert(s.subrange(0, k.len() as int) =~= k);
    assert(s.subrange(k.len() as int + 1, s.len() as int) =~= v);
}

proof fn lemma_render_upto_prefix(pairs: Seq<(Seq<u8>, Seq<u8>)>, m: int)
    requires
        0 <= m < pairs.len(),
    ensures
        spec_render_upto(pairs, m) == spec_render_upto(pairs.drop_last(), m),
    decreases m,
{
    if m > 0 {
        lemma_render_upto_prefix(pairs, m - 1);
        assert(pairs.drop_last()[m - 1] == pairs[m - 1]);
    }
}

proof fn lemma_pair_of_wf(seg: Seq<u8>)
    requires
        forall|j: int| 0 <= j < seg.len() ==> (#[trigger] seg[j]) != 38,
    ensures
        forall|j: int| 0 <= j < spec_pair_of(seg).0.len()
            ==> (#[trigger] spec_pair_of(seg).0[j]) != 38 && spec_pair_of(seg).0[j] != 61,
        forall|j: int| 0 <= j < spec_pair_of(seg).1.len()
            ==> (#[trigger] spec_pair_of(seg).1[j]) != 38,
{
    let sep = seq![61u8];
    match first_match_from(seg, sep, 0) {
        None => {
            crate::bytes::lemma_first_match_none_inv(seg, sep, 0);
            assert forall|j: int| 0 <= j < spec_pair_of(seg).0.len()
                implies (#[trigger] spec_pair_of(seg).0[j]) != 38 && spec_pair_of(seg).0[j]
                != 61 by {
                assert(spec_pair_of(seg).0 == seg);
                assert(!match_at(seg, sep, j));
                if seg[j] == 61 {
                    assert(seg.subrange(j, j + 1) =~= sep);
                }
            }
        },
        Some(k) => {
            crate::bytes::lemma_first_match_bounds(seg, sep, 0);
            crate::bytes::lemma_first_match_minimal(seg, sep, 0);
            assert forall|j: int| 0 <= j < spec_pair_of(seg).0.len()
                implies (#[trigger] spec_pair_of(seg).0[j]) != 38 && spec_pair_of(seg).0[j]
                != 61 by {
                assert(spec_pair_of(seg).0 == seg.subrange(0, k));
                assert(spec_pair_of(seg).0[j] == seg[j]);
                assert(!match_at(seg, sep, j));
                if seg[j] == 61 {
                    assert(seg.subrange(j, j + 1) =~= sep);
                }
            }
            assert forall|j: int| 0 <= j < spec_pair_of(seg).1.len()
                implies (#[trigger] spec_pair_of(seg).1[j]) != 38 by {
                assert(spec_pair_of(seg).1 == seg.subrange(k + 1, seg.len() as int));
                assert(spec_pair_of(seg).1[j] == seg[j + k + 1]);
            }
        },
    }
}

proof fn lemma_pairs_of_segments_wf(segs: Seq<Seq<u8>>)
    requires
        forall|p: int, j: int|
            0 <= p < segs.len() && 0 <= j < segs[p].len() ==> (#[trigger] segs[p][j]) != 38,
    ensures
        wf_pairs(spec_pairs_of_segments(segs)),
    decreases segs.len(),
{
    if segs.len() > 0 {
        assert forall|p: int, j: int|
            0 <= p < segs.drop_last().len() && 0 <= j < segs.drop_last()[p].len()
            implies (#[trigger] segs.drop_last()[p][j]) != 38 by {
            assert(segs.drop_last()[p] == segs[p]);
        }
        lemma_pairs_of_segments_wf(segs.drop_last());
        let rest = spec_pairs_of_segments(segs.drop_last());
        let whole = spec_pairs_of_segments(segs);
        if segs.last().len() == 0 {
        } else {
            let seg = segs.last();
            assert(forall|j: int| 0 <= j < seg.len() ==> (#[trigger] seg[j]) != 38);
            lemma_pair_of_wf(seg);
            assert(whole == rest.push(spec_pair_of(seg)));
            assert forall|i: int, j: int|
                0 <= i < whole.len() && 0 <= j < whole[i].0.len()
                implies (#[trigger] whole[i].0[j]) != 38 && whole[i].0[j] != 61 by {
                if i < rest.len() {
                    assert(whole[i] == rest[i]);
                } else {
                    assert(whole[i] == spec_pair_of(seg));
                }
            }
            assert forall|i: int, j: int|
                0 <= i < whole.len() && 0 <= j < whole[i].1.len()
                implies (#[trigger] whole[i].1[j]) != 38 by {
                if i < rest.len() {
                    assert(whole[i] == rest[i]);
                } else {
                    assert(whole[i] == spec_pair_of(seg));
                }
            }
        }
    }
}

/// Pairs parsed from any query string are well-formed in the sense of
/// `wf_pairs`: the segment split leaves no '&' inside a pair, and a
/// key ends at its first '='.
pub proof fn lemma_parse_query_wf(q: Seq<u8>)
    ensures
        wf_pairs(spec_parse_query(q)),
{
    crate::bytes::lemma_split_parts_no_sep(q, 38);
    lemma_pairs_of_segments_wf(spec_split(q, seq![38u8]));
}

/// Parsing the query string that renders `pairs` yields `pairs`
/// again, whenever every key is free of '&' and '=' and every value
/// free of '&' — as holds of all pairs parsed from a query string:
/// the rendering loses and invents nothing.
pub proof fn lemma_parse_render_roundtrip(pairs: Seq<(Seq<u8>, Seq<u8>)>)
    requires
        wf_pairs(pairs),
    ensures
        spec_parse_query(spec_render_query(pairs)) == pairs,
    decreases pairs.len(),
{
    let n = pairs.len() as int;
    if n == 0 {
        let empty = Seq::<u8>::empty();
        lemma_split_no_sep(empty, 38);
        assert(spec_split(empty, seq![38u8]) == seq![empty]);
        assert(seq![empty].drop_last() =~= Seq::<Seq<u8>>::empty());
        assert(spec_pairs_of_segments(Seq::<Seq<u8>>::empty())
            == Seq::<(Seq<u8>, Seq<u8>)>::empty());
        assert(spec_render_query(pairs) == empty);
        assert(spec_parse_query(spec_render_query(pairs)) =~= pairs);
    } else {
        let head = pairs.drop_last();
        let key = pairs[n - 1].0;
        let val = pairs[n - 1].1;
        let seg = key + seq![61u8] + val;
        assert forall|j: int| 0 <= j < seg.len() implies seg[j] != 38 by {
            if j < key.len() {
                assert(seg[j] == key[j]);
            } else if j == key.len() {
                assert(seg[j] == 61);
            } else {
                assert(seg[j] == val[j - key.len() - 1]);
            }
        }
        lemma_split_no_sep(seg, 38);
        lemma_pair_of_kv(key, val);
        assert(wf_pairs(head)) by {
            assert(forall|i: int| 0 <= i < head.len() ==> head[i] == pairs[i]);
        }
        lemma_parse_render_roundtrip(head);
        if n == 1 {
            assert(spec_render_query(pairs) == seg);
            assert(spec_split(seg, seq![38u8]) == seq![seg]);
            assert(seq![seg].drop_last() =~= Seq::<Seq<u8>>::empty());
            assert(spec_pairs_of_segments(Seq::<Seq<u8>>::empty())
                == Seq::<(Seq<u8>, Seq<u8>)>::empty());
            assert(seg.len() > 0);
            assert(spec_pairs_of_segments(seq![seg])
                == Seq::<(Seq<u8>, Seq<u8>)>::empty().push((key, val)));
            assert(spec_parse_query(spec_render_query(pairs)) =~= pairs);
        } else {
            lemma_render_upto_prefix(pairs, n - 1);
            let rendered_head = spec_render_query(head);
            assert(spec_render_query(pairs) == rendered_head + seq![38u8] + seg);
            lemma_split_append_single(rendered_head, seg, 38);
            let segs_head = spec_split(rendered_head, seq![38u8]);
            let segs = spec_split(spec_render_query(pairs), seq![38u8]);
            assert(segs == segs_head + seq![seg]);
            assert(segs.drop_last() =~= segs_head);
            assert(segs.last() == seg);
            assert(seg.len() > 0);
            assert(spec_pairs_of_segments(segs)
                == spec_pairs_of_segments(segs_head).push((key, val)));
            assert(spec_pairs_of_segments(segs_head) == head);
            assert(head.push((key, val)) =~= pairs);
        }
    }
}

proof fn lemma_remove_key_wf(pairs: Seq<(Seq<u8>, Seq<u8>)>, key: Seq<u8>)
    requires
        wf_pairs(pairs),
    ensures
        wf_pairs(spec_remove_key(pairs, key)),
    decreases pairs.len(),
{
    if pairs.len() > 0 {
        assert(wf_pairs(pairs.drop_last())) by {
            assert(forall|i: int| 0 <= i < pairs.drop_last().len()
                ==> #[trigger] pairs.drop_last()[i] == pairs[i]);
        }
        lemma_remove_key_wf(pairs.drop_last(), key);
        let rest = spec_remove_key(pairs.drop_last(), key);
        let whole = spec_remove_key(pairs, key);
        if pairs.last().0 == key {
        } else {
            assert(whole == rest.push(pairs.last()));
            assert forall|i: int, j: int|
                0 <= i < whole.len() && 0 <= j < whole[i].0.len()
                implies (#[trigger] whole[i].0[j]) != 38 && whole[i].0[j] != 61 by {
                if i < rest.len() {
                    assert(whole[i] == rest[i]);
                } else {
                    assert(whole[i] == pairs.last());
                    assert(pairs.last() == pairs[pairs.len() - 1]);
                }
            }
            assert forall|i: int, j: int|
                0 <= i < whole.len() && 0 <= j < whole[i].1.len()
                implies (#[trigger] whole[i].1[j]) != 38 by {
                if i < rest.len() {
                    assert(whole[i] == rest[i]);
                } else {
                    assert(whole[i] == pairs.last());
                    assert(pairs.last() == pairs[pairs.len() - 1]);
                }
            }
        }
    }
}

/// The rewrite's pair surgery round-trips through the rendered query
/// string: parsing what the rewrite renders yields exactly the kept
/// pairs — the original pairs without the token parameter, then the
/// application token under the parameter name when it is non-empty.
/// Nothing of the composite token survives, and nothing else changes.
pub proof fn lemma_rewrite_query_roundtrip(q: Seq<u8>, key: Seq<u8>, app: Seq<u8>)
    requires
        forall|j: int| 0 <= j < key.len() ==> (#[trigger] key[j]) != 38 && key[j] != 61,
        forall|j: int| 0 <= j < app.len() ==> (#[trigger] app[j]) != 38,
    ensures
        ({
            let kept = spec_remove_key(spec_parse_query(q), key);
            let out = if app.len() > 0 {
                kept.push((key, app))
            } else {
                kept
            };
            spec_parse_query(spec_render_query(out)) == out
        }),
{
    lemma_parse_query_wf(q);
    lemma_remove_key_wf(spec_parse_query(q), key);
    let kept = spec_remove_key(spec_parse_query(q), key);
    if app.len() > 0 {
        let out = kept.push((key, app));
        assert(wf_pairs(out)) by {
            assert(forall|i: int| 0 <= i < kept.len() ==> #[trigger] out[i] == kept[i]);
            assert(out[out.len() - 1] == (key, app));
        }
        lemma_parse_render_roundtrip(out);
    } else {
        lemma_parse_render_roundtrip(kept);
    }
}

/// Extracts the query part of a URL, as `spec_query_of` describes.
pub fn query_of(url: &[u8]) -> (r: Vec<u8>)
    ensures
        r@ == spec_query_of(url@),
{
    let mut qmark: Vec<u8> = Vec::new();
    qmark.push(63); // '?'
    proof {
        assert(qmark@ =~= seq![63u8]);
    }
    match find_first(url, qmark.as_slice()) {
        None => {
            let r: Vec<u8> = Vec::new();
            proof {
                assert(r@ =~= Seq::<u8>::empty());
            }
            r
        },
        Some(q) => {
            let n: usize = url.len();
            proof {
                assert(q + qmark@.len() <= n);
            }
            let rest = &url[q + 1..n];
            let mut hash: Vec<u8> = Vec::new();
            hash.push(35); // '#'
            proof {
                assert(hash@ =~= seq![35u8]);
            }
            match find_first(rest, hash.as_slice()) {
                None => vstd::slice::slice_to_vec(rest),
                Some(h) => vstd::slice::slice_to_vec(&rest[0..h]),
            }
        },
    }
}

/// The outbound URL: everything before the query kept; the query
/// replaced by the original pairs without the `token_key` parameter,
/// with `app_token` re-appended under that name when it is non-empty;
/// the fragment kept; and no '?' when no pair remains.
pub open spec fn spec_rewrite_url(url: Seq<u8>, token_key: Seq<u8>, app_token: Seq<u8>) -> Seq<u8> {
    match first_match_from(url, seq![63u8], 0) {
        None => url,
        Some(q) => {
            let base = url.subrange(0, q);
            let rest = url.subrange(q + 1, url.len() as int);
            let query = match first_match_from(rest, seq![35u8], 0) {
                None => rest,
                Some(h) => rest.subrange(0, h),
            };
            let frag = match first_match_from(rest, seq![35u8], 0) {
                None => Seq::<u8>::empty(),
                Some(h) => rest.subrange(h, rest.len() as int),
            };
            let kept = spec_remove_key(spec_parse_query(query), token_key);
            let out_pairs = if app_token.len() > 0 {
                kept.push((token_key, app_token))
            } else {
                kept
            };
            let q_part = if out_pairs.len() == 0 {
                Seq::<u8>::empty()
            } else {
                seq![63u8] + spec_render_query(out_pairs)
            };
            base + q_part + frag
        },
    }
}

/// Rewrites a URL for forwarding, as `spec_rewrite_url` describes.
pub fn rewrite_url(url: &[u8], token_key: &[u8], app_token: &[u8]) -> (r: Vec<u8>)
    ensures
        r@ == spec_rewrite_url(url@, token_key@, app_token@),
{
    let mut qmark: Vec<u8> = Vec::new();
    qmark.push(63); // '?'
    proof {
        assert(qmark@ =~= seq![63u8]);
    }
    let q = match find_first(url, qmark.as_slice()) {
        None => {
            return vstd::slice::slice_to_vec(url);
        },
        Some(q) => q,
    };
    let n: usize = url.len();
    proof {
        assert(q + qmark@.len() <= n);
    }
    let rest = &url[q + 1..n];
    let mut hash: Vec<u8> = Vec::new();
    hash.push(35); // '#'
    proof {
        assert(hash@ =~= seq![35u8]);
    }
    let rn: usize = rest.len();
    let (qend, fstart): (usize, usize) = match find_first(rest, hash.as_slice()) {
        None => (rn, rn),
        Some(h) => (h, h),
    };
    proof {
        assert(qend <= rn);
    }
    let query = &rest[0..qend];
    let frag = &rest[fstart..rn];
    proof {
        if first_match_from(rest@, seq![35u8], 0) is None {
            assert(query@ =~= rest@);
            assert(frag@ =~= Seq::<u8>::empty());
        }
    }
    let pairs = parse_query(query);
    let mut kept = remove_key(&pairs, token_key);
    let ghost kept_v = pair_views(kept@);
    if app_token.len() > 0 {
        kept.push((vstd::slice::slice_to_vec(token_key), vstd::slice::slice_to_vec(app_token)));
        proof {
            assert(pair_views(kept@) =~= kept_v.push((token_key@, app_token@)));
        }
    }
    let mut out: Vec<u8> = Vec::new();
    push_slice(&mut out, &url[0..q]);
    if kept.len() > 0 {
        out.push(63); // '?'
        let rendered = render_query(&kept);
        push_slice(&mut out, rendered.as_slice());
    }
    push_slice(&mut out, frag);
    proof {
        assert(out@ =~= spec_rewrite_url(url@, token_key@, app_token@));
    }
    out
}

} // verus!
