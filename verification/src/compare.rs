//! Length-checked constant-time equality on byte strings.
use vstd::prelude::*;

verus! {

/// Equality of two byte strings. Differing lengths are rejected at
/// once (only fixed-length digests are ever compared, so no
/// secret-dependent length is exposed); on equal lengths every byte
/// pair is XORed and the results ORed together, with no early exit at
/// the first mismatching position.
pub fn constant_time_compare(a: &[u8], b: &[u8]) -> (r: bool)
    ensures
        r == (a@ == b@),
{
    if a.len() != b.len() {
        return false;
    }
    let mut acc: u8 = 0;
    let mut i: usize = 0;
    while i < a.len()
        invariant
            a@.len() == b@.len(),
            0 <= i <= a@.len(),
            (acc == 0) <==> (forall|j: int| 0 <= j < i ==> a@[j] == b@[j]),
        decreases a@.len() - i,
    {
        let x = a[i];
        let y = b[i];
        let d = x ^ y;
        proof {
            assert((x ^ y == 0) == (x == y)) by (bit_vector);
            assert(forall|p: u8, q: u8| #[trigger] (p | q) == 0 <==> p == 0 && q == 0)
                by (bit_vector);
        }
        acc = acc | d;
        i += 1;
    }
    proof {
        if acc == 0 {
            assert(a@ =~= b@);
        }
    }
    acc == 0
}

/// Byte strings of different lengths are never equal, so the
/// comparison returns false for them.
pub proof fn lemma_compare_length_mismatch(a: Seq<u8>, b: Seq<u8>)
    requires
        a.len() != b.len(),
    ensures
        a != b,
{
}

/// A byte string always compares equal to itself.
pub proof fn lemma_compare_reflexive(a: Seq<u8>)
    ensures
        a == a,
{
}

} // verus!
