//! Byte-string utilities: leftmost-first splitting on a separator and
//! ASCII whitespace trimming, with full functional specifications.
use vstd::prelude::*;

verus! {

/// True when `sep` occurs in `s` starting at index `i`.
pub open spec fn match_at(s: Seq<u8>, sep: Seq<u8>, i: int) -> bool {
    &&& 0 <= i
    &&& i + sep.len() <= s.len()
    &&& s.subrange(i, i + sep.len() as int) == sep
}

/// Index of the leftmost occurrence of `sep` in `s` at or after `from`,
/// if there is one.
pub open spec fn first_match_from(s: Seq<u8>, sep: Seq<u8>, from: int) -> Option<int>
    decreases s.len() - from,
{
    if sep.len() == 0 || from < 0 || from + sep.len() > s.len() {
        None
    } else if s.subrange(from, from + sep.len() as int) == sep {
        Some(from)
    } else {
        first_match_from(s, sep, from + 1)
    }
}

pub proof fn lemma_first_match_bounds(s: Seq<u8>, sep: Seq<u8>, from: int)
    requires
        first_match_from(s, sep, from) is Some,
    ensures
        from <= first_match_from(s, sep, from)->Some_0,
        match_at(s, sep, first_match_from(s, sep, from)->Some_0),
    decreases s.len() - from,
{
    if !(sep.len() == 0 || from < 0 || from + sep.len() > s.len()) {
        if s.subrange(from, from + sep.len() as int) == sep {
        } else {
            lemma_first_match_bounds(s, sep, from + 1);
        }
    }
}

pub proof fn lemma_first_match_found(s: Seq<u8>, sep: Seq<u8>, from: int, k: int)
    requires
        1 <= sep.len(),
        0 <= from <= k,
        match_at(s, sep, k),
        forall|j: int| from <= j < k ==> !match_at(s, sep, j),
    ensures
        first_match_from(s, sep, from) == Some(k),
    decreases k - from,
{
    if from == k {
    } else {
        assert(!match_at(s, sep, from));
        lemma_first_match_found(s, sep, from + 1, k);
    }
}

proof fn lemma_first_match_none(s: Seq<u8>, sep: Seq<u8>, from: int)
    requires
        0 <= from,
        forall|j: int| from <= j ==> !match_at(s, sep, j),
    ensures
        first_match_from(s, sep, from) is None,
    decreases s.len() - from,
{
    if !(sep.len() == 0 || from + sep.len() > s.len()) {
        assert(!match_at(s, sep, from));
        lemma_first_match_none(s, sep, from + 1);
    }
}

/// Leftmost-first, non-overlapping split of `s` on `sep`; an empty
/// separator leaves `s` whole.
pub open spec fn spec_split(s: Seq<u8>, sep: Seq<u8>) -> Seq<Seq<u8>>
    decreases s.len(),
    via spec_split_decreases
{
    if sep.len() == 0 || first_match_from(s, sep, 0) is None {
        seq![s]
    } else {
        let k = first_match_from(s, sep, 0)->Some_0;
        seq![s.subrange(0, k)] + spec_split(s.subrange(k + sep.len() as int, s.len() as int), sep)
    }
}

#[via_fn]
proof fn spec_split_decreases(s: Seq<u8>, sep: Seq<u8>) {
    if !(sep.len() == 0 || first_match_from(s, sep, 0) is None) {
        lemma_first_match_bounds(s, sep, 0);
    }
}

fn is_space_byte(b: u8) -> (r: bool)
    ensures
        r == is_space(b),
{
    b == 32 || b == 9 || b == 10 || b == 13
}

/// ASCII space, tab, line feed or carriage return.
pub open spec fn is_space(b: u8) -> bool {
    b == 32 || b == 9 || b == 10 || b == 13
}

/// `s` without its leading ASCII whitespace.
pub open spec fn spec_trim_start(s: Seq<u8>) -> Seq<u8>
    decreases s.len(),
{
    if s.len() > 0 && is_space(s[0]) {
        spec_trim_start(s.skip(1))
    } else {
        s
    }
}

/// `s` without its trailing ASCII whitespace.
pub open spec fn spec_trim_end(s: Seq<u8>) -> Seq<u8>
    decreases s.len(),
{
    if s.len() > 0 && is_space(s[s.len() - 1]) {
        spec_trim_end(s.take(s.len() - 1))
    } else {
        s
    }
}

/// `s` without surrounding ASCII whitespace.
pub open spec fn spec_trim(s: Seq<u8>) -> Seq<u8> {
    spec_trim_end(spec_trim_start(s))
}

fn region_matches(s: &[u8], at: usize, sep: &[u8]) -> (r: bool)
    requires
        at + sep@.len() <= s@.len(),
    ensures
        r == match_at(s@, sep@, at as int),
{
    let slen: usize = s.len();
    let mut i: usize = 0;
    while i < sep.len()
        invariant
            at + sep@.len() <= s@.len(),
            s@.len() == slen,
            0 <= i <= sep@.len(),
            forall|j: int| 0 <= j < i ==> s@[at + j] == sep@[j],
        decreases sep@.len() - i,
    {
        if s[at + i] != sep[i] {
            proof {
                if match_at(s@, sep@, at as int) {
                    assert(s@.subrange(at as int, at + sep@.len() as int)[i as int] == sep@[i as int]);
                }
            }
            return false;
        }
        i += 1;
    }
    proof {
        assert(s@.subrange(at as int, at + sep@.len() as int) =~= sep@);
    }
    true
}

/// Index of the leftmost occurrence of `sep` in `s`, if there is one.
pub fn find_first(s: &[u8], sep: &[u8]) -> (r: Option<usize>)
    requires
        1 <= sep@.len(),
    ensures
        match r {
            Some(k) => first_match_from(s@, sep@, 0) == Some(k as int) && match_at(s@, sep@, k as int),
            None => first_match_from(s@, sep@, 0) is None,
        },
{
    if s.len() < sep.len() {
        proof {
            lemma_first_match_none(s@, sep@, 0);
        }
        return None;
    }
    let mut k: usize = 0;
    while k <= s.len() - sep.len()
        invariant
            1 <= sep@.len() <= s@.len(),
            0 <= k <= s@.len() - sep@.len() + 1,
            forall|j: int| 0 <= j < k ==> !match_at(s@, sep@, j),
        decreases s@.len() - k,
    {
        if region_matches(s, k, sep) {
            proof {
                lemma_first_match_found(s@, sep@, 0, k as int);
                assert(match_at(s@, sep@, k as int));
            }
            return Some(k);
        }
        k += 1;
    }
    proof {
        lemma_first_match_none(s@, sep@, 0);
    }
    None
}

/// The views of the byte vectors in `r`.
pub open spec fn views(r: Seq<Vec<u8>>) -> Seq<Seq<u8>> {
    r.map_values(|v: Vec<u8>| v@)
}

/// Splits `s` on the leftmost-first occurrences of `sep`, as `spec_split`
/// describes.
pub fn split_bytes(s: &[u8], sep: &[u8]) -> (r: Vec<Vec<u8>>)
    requires
        1 <= sep@.len(),
    ensures
        views(r@) == spec_split(s@, sep@),
    decreases s@.len(),
{
    match find_first(s, sep) {
        None => {
            let mut r: Vec<Vec<u8>> = Vec::new();
            r.push(vstd::slice::slice_to_vec(s));
            proof {
                assert(views(r@) =~= seq![s@]);
            }
            r
        },
        Some(k) => {
            let slen: usize = s.len();
            proof {
                lemma_first_match_bounds(s@, sep@, 0);
                assert(match_at(s@, sep@, k as int));
                assert(k + sep@.len() <= slen);
            }
            let head: Vec<u8> = vstd::slice::slice_to_vec(&s[0..k]);
            let tail_start: usize = k + sep.len();
            let mut r: Vec<Vec<u8>> = split_bytes(&s[tail_start..s.len()], sep);
            r.insert(0, head);
            proof {
                assert(views(r@) =~= seq![s@.subrange(0, k as int)]
                    + spec_split(s@.subrange(k + sep@.len() as int, s@.len() as int), sep@));
            }
            r
        },
    }
}

/// A split has at least one part.
pub proof fn lemma_split_at_least_one(s: Seq<u8>, sep: Seq<u8>)
    ensures
        spec_split(s, sep).len() >= 1,
{
    if !(sep.len() == 0 || first_match_from(s, sep, 0) is None) {
        lemma_first_match_bounds(s, sep, 0);
    }
}

pub proof fn lemma_first_match_none_inv(s: Seq<u8>, sep: Seq<u8>, from: int)
    requires
        0 <= from,
        1 <= sep.len(),
        first_match_from(s, sep, from) is None,
    ensures
        forall|j: int| from <= j ==> !match_at(s, sep, j),
    decreases s.len() - from,
{
    if from + sep.len() <= s.len() {
        lemma_first_match_none_inv(s, sep, from + 1);
        assert forall|j: int| from <= j implies !match_at(s, sep, j) by {
            if j == from {
                assert(s.subrange(from, from + sep.len() as int) != sep);
            }
        }
    } else {
        assert forall|j: int| from <= j implies !match_at(s, sep, j) by {
            assert(j + sep.len() > s.len());
        }
    }
}

pub proof fn lemma_first_match_minimal(s: Seq<u8>, sep: Seq<u8>, from: int)
    requires
        first_match_from(s, sep, from) is Some,
    ensures
        forall|j: int| from <= j < first_match_from(s, sep, from)->Some_0
            ==> !match_at(s, sep, j),
    decreases s.len() - from,
{
    if !(sep.len() == 0 || from < 0 || from + sep.len() > s.len()) {
        if s.subrange(from, from + sep.len() as int) == sep {
        } else {
            lemma_first_match_minimal(s, sep, from + 1);
            lemma_first_match_bounds(s, sep, from + 1);
        }
    }
}

/// A single-byte split distributes over concatenation at the
/// separator: `x sep y` splits into the parts of `x` followed by the
/// parts of `y`.
pub proof fn lemma_split_append_single(x: Seq<u8>, y: Seq<u8>, c: u8)
    ensures
        spec_split(x + seq![c] + y, seq![c]) == spec_split(x, seq![c]) + spec_split(y, seq![c]),
    decreases x.len(),
{
    let s = x + seq![c] + y;
    let sep = seq![c];
    match first_match_from(x, sep, 0) {
        None => {
            lemma_first_match_none_inv(x, sep, 0);
            assert forall|i: int| 0 <= i < x.len() implies x[i] != c by {
                assert(!match_at(x, sep, i));
                assert(x.subrange(i, i + 1) != sep);
                if x[i] == c {
                    assert(x.subrange(i, i + 1) =~= sep);
                }
            }
            lemma_split_prefix(x, y, c);
            assert(spec_split(x, sep) == seq![x]);
            assert(seq![x] + spec_split(y, sep) == spec_split(s, sep));
        },
        Some(k) => {
            lemma_first_match_bounds(x, sep, 0);
            lemma_first_match_minimal(x, sep, 0);
            assert(x.subrange(k, k + 1)[0] == c);
            assert(x[k] == c);
            assert(s.subrange(k, k + 1) =~= sep);
            assert(match_at(s, sep, k));
            assert forall|j: int| 0 <= j < k implies !match_at(s, sep, j) by {
                if match_at(s, sep, j) {
                    assert(s.subrange(j, j + 1)[0] == c);
                    assert(x[j] == c);
                    assert(x.subrange(j, j + 1) =~= sep);
                    assert(match_at(x, sep, j));
                }
            }
            lemma_first_match_found(s, sep, 0, k);
            assert(s.subrange(0, k) =~= x.subrange(0, k));
            assert(s.subrange(k + 1, s.len() as int)
                =~= x.subrange(k + 1, x.len() as int) + seq![c] + y);
            lemma_split_append_single(x.subrange(k + 1, x.len() as int), y, c);
            assert(seq![x.subrange(0, k)] + (spec_split(x.subrange(k + 1, x.len() as int), sep)
                + spec_split(y, sep)) =~= (seq![x.subrange(0, k)] + spec_split(
                x.subrange(k + 1, x.len() as int), sep)) + spec_split(y, sep));
        },
    }
}

/// No part of a single-byte split contains the separator.
pub proof fn lemma_split_parts_no_sep(s: Seq<u8>, c: u8)
    ensures
        forall|p: int, j: int|
            0 <= p < spec_split(s, seq![c]).len() && 0 <= j < spec_split(s, seq![c])[p].len()
                ==> (#[trigger] spec_split(s, seq![c])[p][j]) != c,
    decreases s.len(),
{
    let sep = seq![c];
    let parts = spec_split(s, sep);
    match first_match_from(s, sep, 0) {
        None => {
            lemma_first_match_none_inv(s, sep, 0);
            assert forall|p: int, j: int|
                0 <= p < parts.len() && 0 <= j < parts[p].len() implies (#[trigger] parts[p][j])
                != c by {
                assert(parts[p] == s);
                assert(!match_at(s, sep, j));
                if s[j] == c {
                    assert(s.subrange(j, j + 1) =~= sep);
                }
            }
        },
        Some(k) => {
            lemma_first_match_bounds(s, sep, 0);
            lemma_first_match_minimal(s, sep, 0);
            let rest = s.subrange(k + 1, s.len() as int);
            lemma_split_parts_no_sep(rest, c);
            let rest_parts = spec_split(rest, sep);
            assert forall|p: int, j: int|
                0 <= p < parts.len() && 0 <= j < parts[p].len() implies (#[trigger] parts[p][j])
                != c by {
                if p == 0 {
                    assert(parts[0] == s.subrange(0, k));
                    assert(!match_at(s, sep, j));
                    if s[j] == c {
                        assert(s.subrange(j, j + 1) =~= sep);
                    }
                    assert(parts[0][j] == s[j]);
                } else {
                    assert(parts[p] == rest_parts[p - 1]);
                }
            }
        },
    }
}

/// A string free of a single-byte separator stays whole under the
/// split.
pub proof fn lemma_split_no_sep(s: Seq<u8>, c: u8)
    requires
        forall|i: int| 0 <= i < s.len() ==> s[i] != c,
    ensures
        spec_split(s, seq![c]) == seq![s],
{
    assert forall|j: int| 0 <= j implies !match_at(s, seq![c], j) by {
        if match_at(s, seq![c], j) {
            assert(s.subrange(j, j + 1)[0] == c);
        }
    }
    lemma_first_match_none(s, seq![c], 0);
}

/// Splitting `a + sep + b` on a single byte that does not occur in `a`
/// keeps `a` whole as the first part and splits `b` on its own.
pub proof fn lemma_split_prefix(a: Seq<u8>, b: Seq<u8>, c: u8)
    requires
        forall|i: int| 0 <= i < a.len() ==> a[i] != c,
    ensures
        spec_split(a + seq![c] + b, seq![c]) == seq![a] + spec_split(b, seq![c]),
{
    let s = a + seq![c] + b;
    let sep = seq![c];
    assert(s.subrange(a.len() as int, a.len() as int + 1) =~= sep);
    assert(match_at(s, sep, a.len() as int));
    assert forall|j: int| 0 <= j < a.len() implies !match_at(s, sep, j) by {
        if match_at(s, sep, j) {
            assert(s.subrange(j, j + 1)[0] == sep[0]);
            assert(s[j] == c);
            assert(a[j] != c);
        }
    }
    lemma_first_match_found(s, sep, 0, a.len() as int);
    assert(s.subrange(0, a.len() as int) =~= a);
    assert(s.subrange(a.len() as int + 1, s.len() as int) =~= b);
    assert(spec_split(s, sep) == seq![a] + spec_split(b, sep));
}

/// Splitting `a + sep + b` on a single byte that occurs in neither `a`
/// nor `b` yields exactly the two parts.
pub proof fn lemma_split_two_parts(a: Seq<u8>, b: Seq<u8>, c: u8)
    requires
        forall|i: int| 0 <= i < a.len() ==> a[i] != c,
        forall|i: int| 0 <= i < b.len() ==> b[i] != c,
    ensures
        spec_split(a + seq![c] + b, seq![c]) == seq![a, b],
{
    lemma_split_prefix(a, b, c);
    assert forall|j: int| 0 <= j implies !match_at(b, seq![c], j) by {
        if match_at(b, seq![c], j) {
            assert(b.subrange(j, j + 1)[0] == c);
        }
    }
    lemma_first_match_none(b, seq![c], 0);
    assert(spec_split(b, seq![c]) == seq![b]);
    assert(seq![a] + seq![b] =~= seq![a, b]);
}

/// Compares two byte strings for plain equality.
pub fn bytes_eq(a: &[u8], b: &[u8]) -> (r: bool)
    ensures
        r == (a@ == b@),
{
    if a.len() != b.len() {
        return false;
    }
    let mut i: usize = 0;
    while i < a.len()
        invariant
            a@.len() == b@.len(),
            0 <= i <= a@.len(),
            forall|j: int| 0 <= j < i ==> a@[j] == b@[j],
        decreases a@.len() - i,
    {
        if a[i] != b[i] {
            return false;
        }
        i += 1;
    }
    proof {
        assert(a@ =~= b@);
    }
    true
}

/// Appends all of `src` to `dst`.
pub fn push_slice(dst: &mut Vec<u8>, src: &[u8])
    ensures
        final(dst)@ == old(dst)@ + src@,
{
    let mut i: usize = 0;
    while i < src.len()
        invariant
            0 <= i <= src@.len(),
            dst@ == old(dst)@ + src@.take(i as int),
        decreases src@.len() - i,
    {
        dst.push(src[i]);
        proof {
            assert(old(dst)@ + src@.take(i as int) + seq![src@[i as int]]
                =~= old(dst)@ + src@.take(i + 1));
        }
        i += 1;
    }
    proof {
        assert(src@.take(src@.len() as int) =~= src@);
    }
}

/// Copies `s` with surrounding ASCII whitespace removed, as `spec_trim`
/// describes.
pub fn trim_ascii(s: &[u8]) -> (r: Vec<u8>)
    ensures
        r@ == spec_trim(s@),
{
    proof {
        assert(s@.skip(0) =~= s@);
    }
    let mut lo: usize = 0;
    while lo < s.len() && is_space_byte(s[lo])
        invariant
            0 <= lo <= s@.len(),
            spec_trim_start(s@) == spec_trim_start(s@.skip(lo as int)),
        decreases s@.len() - lo,
    {
        proof {
            assert(s@.skip(lo as int).skip(1) =~= s@.skip(lo as int + 1));
        }
        lo += 1;
    }
    proof {
        assert(spec_trim_start(s@) == s@.skip(lo as int));
    }
    let ghost t = s@.skip(lo as int);
    proof {
        assert(t.take(s@.len() - lo as int) =~= t);
    }
    let mut hi: usize = s.len();
    while hi > lo && is_space_byte(s[hi - 1])
        invariant
            0 <= lo <= hi <= s@.len(),
            t == s@.skip(lo as int),
            spec_trim_end(t) == spec_trim_end(t.take(hi - lo as int)),
        decreases hi,
    {
        proof {
            assert(t.take(hi - lo as int).take(hi - 1 - lo as int) =~= t.take(hi - 1 - lo as int));
            assert(t.take(hi - lo as int)[hi - 1 - lo as int] == s@[hi - 1]);
        }
        hi -= 1;
    }
    proof {
        if hi > lo {
            assert(t.take(hi - lo as int)[hi - 1 - lo as int] == s@[hi - 1]);
        }
        assert(spec_trim_end(t) == t.take(hi - lo as int));
        assert(t.take(hi - lo as int) =~= s@.subrange(lo as int, hi as int));
    }
    vstd::slice::slice_to_vec(&s[lo..hi])
}

} // verus!
