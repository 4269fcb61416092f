//! Token parsing: the composite token and the proof token's numeric
//! timestamp, its canonical rendering, and the expiry check.
use vstd::prelude::*;
use crate::bytes::{
    find_first, first_match_from, push_slice, spec_split, spec_trim, split_bytes, trim_ascii,
    views,
};

verus! {

/// An ASCII decimal digit.
pub open spec fn is_digit(b: u8) -> bool {
    48 <= b <= 57
}

/// Every byte of `s` is an ASCII decimal digit.
pub open spec fn all_digits(s: Seq<u8>) -> bool {
    forall|i: int| 0 <= i < s.len() ==> is_digit(s[i])
}

/// The integer and fraction digit strings of a non-negative decimal
/// numeral (digits with at most one '.', at least one digit in all),
/// or None when `s` is not one.
pub open spec fn spec_number_parts(s: Seq<u8>) -> Option<(Seq<u8>, Seq<u8>)> {
    match first_match_from(s, seq![46u8], 0) {
        None => if s.len() > 0 && all_digits(s) {
            Some((s, Seq::empty()))
        } else {
            None
        },
        Some(d) => {
            let ipart = s.subrange(0, d);
            let fpart = s.subrange(d + 1, s.len() as int);
            if ipart.len() + fpart.len() > 0 && all_digits(ipart) && all_digits(fpart) {
                Some((ipart, fpart))
            } else {
                None
            }
        },
    }
}

fn all_digits_exec(s: &[u8]) -> (r: bool)
    ensures
        r == all_digits(s@),
{
    let mut i: usize = 0;
    while i < s.len()
        invariant
            0 <= i <= s@.len(),
            forall|j: int| 0 <= j < i ==> is_digit(s@[j]),
        decreases s@.len() - i,
    {
        if s[i] < 48 || s[i] > 57 {
            return false;
        }
        i += 1;
    }
    true
}

/// Splits a timestamp numeral into its integer and fraction digit
/// strings, as `spec_number_parts` describes.
pub fn parse_number(s: &[u8]) -> (r: Option<(Vec<u8>, Vec<u8>)>)
    ensures
        match r {
            Some(p) => spec_number_parts(s@) == Some((p.0@, p.1@)),
            None => spec_number_parts(s@) is None,
        },
{
    let mut dot: Vec<u8> = Vec::new();
    dot.push(46); // '.'
    proof {
        assert(dot@ =~= seq![46u8]);
    }
    match find_first(s, dot.as_slice()) {
        None => {
            if s.len() > 0 && all_digits_exec(s) {
                Some((vstd::slice::slice_to_vec(s), Vec::new()))
            } else {
                None
            }
        },
        Some(d) => {
            let n: usize = s.len();
            proof {
                assert(d + dot@.len() <= n);
            }
            let ipart = vstd::slice::slice_to_vec(&s[0..d]);
            let fpart = vstd::slice::slice_to_vec(&s[d + 1..n]);
            if (ipart.len() > 0 || fpart.len() > 0) && all_digits_exec(ipart.as_slice())
                && all_digits_exec(fpart.as_slice()) {
                Some((ipart, fpart))
            } else {
                None
            }
        },
    }
}

/// Value of a digit string read as a base-10 integer.
pub open spec fn int_value(s: Seq<u8>) -> int
    decreases s.len(),
{
    if s.len() == 0 {
        0
    } else {
        int_value(s.drop_last()) * 10 + (s.last() - 48)
    }
}

/// The fraction digit at position `i`, or 0 past the end.
pub open spec fn frac_digit(f: Seq<u8>, i: int) -> int {
    if 0 <= i < f.len() {
        f[i] - 48
    } else {
        0
    }
}

/// The first three fraction digits read as thousandths.
pub open spec fn frac_milli(f: Seq<u8>) -> int {
    100 * frac_digit(f, 0) + 10 * frac_digit(f, 1) + frac_digit(f, 2)
}

/// More than the validity window has elapsed between the timestamp
/// (integer digits `ipart`, fraction digits `fpart`, in seconds) and
/// `now_ms`: the timestamp in milliseconds, truncated to whole
/// milliseconds, falls short of `now_ms - window_ms`. A timestamp in
/// the future is never expired.
pub open spec fn spec_expired(ipart: Seq<u8>, fpart: Seq<u8>, now_ms: u64, window_ms: u64) -> bool {
    now_ms > window_ms && int_value(ipart) * 1000 + frac_milli(fpart) < now_ms - window_ms
}

proof fn lemma_int_value_nonneg(s: Seq<u8>)
    requires
        all_digits(s),
    ensures
        int_value(s) >= 0,
    decreases s.len(),
{
    if s.len() > 0 {
        assert(all_digits(s.drop_last())) by {
            assert(forall|i: int| 0 <= i < s.len() - 1 ==> s.drop_last()[i] == s[i]);
        }
        lemma_int_value_nonneg(s.drop_last());
    }
}

fn frac_milli_exec(f: &[u8]) -> (r: u64)
    requires
        all_digits(f@),
    ensures
        r == frac_milli(f@),
        r <= 999,
{
    let d0: u64 = if f.len() > 0 { (f[0] - 48) as u64 } else { 0 };
    let d1: u64 = if f.len() > 1 { (f[1] - 48) as u64 } else { 0 };
    let d2: u64 = if f.len() > 2 { (f[2] - 48) as u64 } else { 0 };
    100 * d0 + 10 * d1 + d2
}

/// Decides expiry for a parsed timestamp, as `spec_expired` describes.
pub fn is_expired(ipart: &[u8], fpart: &[u8], now_ms: u64, window_ms: u64) -> (r: bool)
    requires
        all_digits(ipart@),
        all_digits(fpart@),
    ensures
        r == spec_expired(ipart@, fpart@, now_ms, window_ms),
{
    if now_ms <= window_ms {
        return false;
    }
    let threshold: u64 = now_ms - window_ms;
    let mut acc: u64 = 0;
    let mut huge: bool = false;
    let mut i: usize = 0;
    while i < ipart.len()
        invariant
            all_digits(ipart@),
            0 <= i <= ipart@.len(),
            !huge ==> acc == int_value(ipart@.take(i as int)),
            huge ==> int_value(ipart@.take(i as int)) > u64::MAX,
        decreases ipart@.len() - i,
    {
        let d: u64 = (ipart[i] - 48) as u64;
        proof {
            assert(ipart@.take(i + 1).drop_last() =~= ipart@.take(i as int));
            assert(int_value(ipart@.take(i + 1))
                == int_value(ipart@.take(i as int)) * 10 + (ipart@[i as int] - 48));
        }
        if huge {
            proof {
                lemma_int_value_nonneg(ipart@.take(i as int));
            }
        } else {
            match acc.checked_mul(10) {
                Some(v) => match v.checked_add(d) {
                    Some(w) => {
                        acc = w;
                    },
                    None => {
                        huge = true;
                    },
                },
                None => {
                    huge = true;
                },
            }
        }
        i += 1;
    }
    proof {
        assert(ipart@.take(ipart@.len() as int) =~= ipart@);
    }
    if huge {
        proof {
            lemma_int_value_nonneg(ipart@);
        }
        return false;
    }
    let f3: u64 = frac_milli_exec(fpart);
    match acc.checked_mul(1000) {
        Some(v) => match v.checked_add(f3) {
            Some(total) => total < threshold,
            None => false,
        },
        None => {
            proof {
                lemma_int_value_nonneg(ipart@);
            }
            false
        },
    }
}

/// A timestamp at or after the checking time — one in the future —
/// is never expired, whatever the window: only a token's age is
/// bounded.
pub proof fn lemma_future_not_expired(ipart: Seq<u8>, fpart: Seq<u8>, now_ms: u64, window_ms: u64)
    requires
        int_value(ipart) * 1000 + frac_milli(fpart) >= now_ms,
    ensures
        !spec_expired(ipart, fpart, now_ms, window_ms),
{
}

/// Integer digits without leading zeros.
pub open spec fn strip_leading_zeros(s: Seq<u8>) -> Seq<u8>
    decreases s.len(),
{
    if s.len() > 0 && s[0] == 48 {
        strip_leading_zeros(s.skip(1))
    } else {
        s
    }
}

/// Fraction digits without trailing zeros.
pub open spec fn strip_trailing_zeros(s: Seq<u8>) -> Seq<u8>
    decreases s.len(),
{
    if s.len() > 0 && s.last() == 48 {
        strip_trailing_zeros(s.drop_last())
    } else {
        s
    }
}

/// Canonical rendering of a parsed timestamp, as the issuer renders
/// the parsed number: integer digits without leading zeros (at least
/// "0"), and the fraction without trailing zeros, preceded by '.'
/// when anything of it remains.
pub open spec fn spec_canonical_ts(ipart: Seq<u8>, fpart: Seq<u8>) -> Seq<u8> {
    let ic = if strip_leading_zeros(ipart).len() == 0 {
        seq![48u8]
    } else {
        strip_leading_zeros(ipart)
    };
    let fc = strip_trailing_zeros(fpart);
    if fc.len() == 0 {
        ic
    } else {
        ic + seq![46u8] + fc
    }
}

/// Renders a parsed timestamp canonically, as `spec_canonical_ts`
/// describes.
pub fn canonical_ts(ipart: &[u8], fpart: &[u8]) -> (r: Vec<u8>)
    ensures
        r@ == spec_canonical_ts(ipart@, fpart@),
{
    proof {
        assert(ipart@.skip(0) =~= ipart@);
    }
    let mut lo: usize = 0;
    while lo < ipart.len() && ipart[lo] == 48
        invariant
            0 <= lo <= ipart@.len(),
            strip_leading_zeros(ipart@) == strip_leading_zeros(ipart@.skip(lo as int)),
        decreases ipart@.len() - lo,
    {
        proof {
            assert(ipart@.skip(lo as int).skip(1) =~= ipart@.skip(lo as int + 1));
        }
        lo += 1;
    }
    proof {
        assert(strip_leading_zeros(ipart@) == ipart@.skip(lo as int));
    }
    let ghost f = fpart@;
    proof {
        assert(f.take(f.len() as int) =~= f);
    }
    let mut hi: usize = fpart.len();
    while hi > 0 && fpart[hi - 1] == 48
        invariant
            0 <= hi <= fpart@.len(),
            f == fpart@,
            strip_trailing_zeros(f) == strip_trailing_zeros(f.take(hi as int)),
        decreases hi,
    {
        proof {
            assert(f.take(hi as int).take(hi - 1) =~= f.take(hi - 1));
            assert(f.take(hi as int).last() == f[hi - 1]);
        }
        hi -= 1;
    }
    proof {
        if hi > 0 {
            assert(f.take(hi as int).last() == f[hi - 1]);
        }
        assert(strip_trailing_zeros(f) == f.take(hi as int));
    }
    let mut out: Vec<u8> = Vec::new();
    if lo == ipart.len() {
        out.push(48); // "0"
        proof {
            assert(out@ =~= seq![48u8]);
            assert(strip_leading_zeros(ipart@).len() == 0);
        }
    } else {
        push_slice(&mut out, &ipart[lo..ipart.len()]);
    }
    if hi > 0 {
        out.push(46); // '.'
        push_slice(&mut out, &fpart[0..hi]);
        proof {
            assert(fpart@.subrange(0, hi as int) =~= f.take(hi as int));
            assert(out@ =~= spec_canonical_ts(ipart@, fpart@));
        }
    } else {
        proof {
            assert(out@ =~= spec_canonical_ts(ipart@, fpart@));
        }
    }
    out
}

/// The parts of a composite token `proof "++" app ["++" access ...]`:
/// the proof token trimmed of surrounding whitespace, the application
/// token, and the access token when a third segment is present. None
/// when fewer than two segments result.
pub open spec fn spec_parse_composite(s: Seq<u8>) -> Option<(Seq<u8>, Seq<u8>, Option<Seq<u8>>)> {
    let parts = spec_split(s, seq![43u8, 43u8]);
    if parts.len() < 2 {
        None
    } else {
        Some(
            (
                spec_trim(parts[0]),
                parts[1],
                if parts.len() >= 3 {
                    Some(parts[2])
                } else {
                    None
                },
            ),
        )
    }
}

/// A composite token, decomposed.
pub struct CompositeToken {
    /// The proof token, `timestamp "-" digest`, trimmed.
    pub proof_token: Vec<u8>,
    /// The application-facing token, forwarded to the origin.
    pub app_token: Vec<u8>,
    /// The secondary access token, when a third segment was present.
    pub access_token: Option<Vec<u8>>,
}

impl CompositeToken {
    /// The decomposition this value holds, as `spec_parse_composite`
    /// yields it.
    pub open spec fn parts(&self) -> (Seq<u8>, Seq<u8>, Option<Seq<u8>>) {
        (
            self.proof_token@,
            self.app_token@,
            match self.access_token {
                Some(ref v) => Some(v@),
                None => None,
            },
        )
    }
}

/// Splits a composite token on `"++"`, as `spec_parse_composite`
/// describes.
pub fn parse_composite(s: &[u8]) -> (r: Option<CompositeToken>)
    ensures
        match r {
            Some(t) => spec_parse_composite(s@) == Some(t.parts()),
            None => spec_parse_composite(s@) is None,
        },
{
    let mut sep: Vec<u8> = Vec::new();
    sep.push(43); // '+'
    sep.push(43);
    proof {
        assert(sep@ =~= seq![43u8, 43u8]);
    }
    let parts = split_bytes(s, sep.as_slice());
    if parts.len() < 2 {
        return None;
    }
    let proof_token = trim_ascii(parts[0].as_slice());
    let app_token = vstd::slice::slice_to_vec(parts[1].as_slice());
    let access_token: Option<Vec<u8>> = if parts.len() >= 3 {
        Some(vstd::slice::slice_to_vec(parts[2].as_slice()))
    } else {
        None
    };
    proof {
        assert(views(parts@)[0] == parts@[0]@);
        assert(views(parts@)[1] == parts@[1]@);
        if parts@.len() >= 3 {
            assert(views(parts@)[2] == parts@[2]@);
        }
    }
    Some(CompositeToken { proof_token, app_token, access_token })
}

} // verus!
