//! One-bit-per-unit use maps, least significant bit of each byte first.
use vstd::prelude::*;

verus! {

/// Whether unit `k` is marked in use.
pub open spec fn bit(bm: Seq<u8>, k: int) -> bool {
    (bm[k / 8] >> ((k % 8) as u8)) & 1u8 == 1u8
}

/// Number of units that a map describes.
pub open spec fn nbits(bm: Seq<u8>) -> int {
    bm.len() as int * 8
}

/// Every unit of `[s, s + n)` lies in the map and is free.
pub open spec fn free_run(bm: Seq<u8>, s: int, n: int) -> bool {
    &&& 0 <= s
    &&& s + n <= nbits(bm)
    &&& forall|k: int| s <= k < s + n ==> !bit(bm, k)
}

proof fn lemma_byte_set(b: u8, i: u8, j: u8)
    requires
        i < 8,
        j < 8,
    ensures
        ((b | (1u8 << i)) >> j) & 1u8 == 1u8 <==> (((b >> j) & 1u8 == 1u8) || i == j),
{
    assert(((b | (1u8 << i)) >> j) & 1u8 == 1u8 <==> (((b >> j) & 1u8 == 1u8) || i == j))
        by (bit_vector)
        requires
            i < 8,
            j < 8,
    ;
}

proof fn lemma_byte_clear(b: u8, i: u8, j: u8)
    requires
        i < 8,
        j < 8,
    ensures
        ((b & !(1u8 << i)) >> j) & 1u8 == 1u8 <==> (((b >> j) & 1u8 == 1u8) && i != j),
{
    assert(((b & !(1u8 << i)) >> j) & 1u8 == 1u8 <==> (((b >> j) & 1u8 == 1u8) && i != j))
        by (bit_vector)
        requires
            i < 8,
            j < 8,
    ;
}

proof fn lemma_byte_zero(j: u8)
    requires
        j < 8,
    ensures
        (0u8 >> j) & 1u8 != 1u8,
{
    assert((0u8 >> j) & 1u8 != 1u8) by (bit_vector);
}

/// A map of zero bytes marks nothing.
pub proof fn lemma_zero_map(bm: Seq<u8>)
    requires
        forall|i: int| 0 <= i < bm.len() ==> bm[i] == 0,
    ensures
        forall|k: int| 0 <= k < nbits(bm) ==> !#[trigger] bit(bm, k),
{
    assert forall|k: int| 0 <= k < nbits(bm) implies !#[trigger] bit(bm, k) by {
        lemma_byte_zero((k % 8) as u8);
    }
}

/// Whether unit `k` is marked in use.
pub fn test_bit(bm: &Vec<u8>, k: u64) -> (r: bool)
    requires
        k < nbits(bm@),
    ensures
        r == bit(bm@, k as int),
{
    let _len: usize = bm.len();
    assert(k / 8 < bm@.len());
    let byte: u8 = bm[(k / 8) as usize];
    let sh: u8 = (k % 8) as u8;
    assert(sh as int == (k as int) % 8);
    (byte >> sh) & 1u8 == 1u8
}

/// Marks unit `k` in use.
pub fn set_bit(bm: &mut Vec<u8>, k: u64)
    requires
        k < nbits(old(bm)@),
    ensures
        final(bm)@.len() == old(bm)@.len(),
        forall|j: int| 0 <= j < nbits(old(bm)@) ==> #[trigger] bit(final(bm)@, j) == (bit(old(bm)@, j) || j == k),
{
    let _len: usize = bm.len();
    assert(k / 8 < old(bm)@.len());
    let i: usize = (k / 8) as usize;
    let sh: u8 = (k % 8) as u8;
    assert(sh as int == (k as int) % 8 && i as int == (k as int) / 8);
    let b: u8 = bm[i];
    bm.set(i, b | (1u8 << sh));
    proof {
        assert forall|j: int| 0 <= j < nbits(old(bm)@) implies #[trigger] bit(bm@, j) == (bit(old(bm)@, j) || j == k) by {
            if j / 8 == i as int {
                lemma_byte_set(b, sh, (j % 8) as u8);
                assert(j == k <==> sh == (j % 8) as u8);
            }
        }
    }
}

/// Marks unit `k` free.
pub fn clear_bit(bm: &mut Vec<u8>, k: u64)
    requires
        k < nbits(old(bm)@),
    ensures
        final(bm)@.len() == old(bm)@.len(),
        forall|j: int| 0 <= j < nbits(old(bm)@) ==> #[trigger] bit(final(bm)@, j) == (bit(old(bm)@, j) && j != k),
{
    let _len: usize = bm.len();
    assert(k / 8 < old(bm)@.len());
    let i: usize = (k / 8) as usize;
    let sh: u8 = (k % 8) as u8;
    assert(sh as int == (k as int) % 8 && i as int == (k as int) / 8);
    let b: u8 = bm[i];
    bm.set(i, b & !(1u8 << sh));
    proof {
        assert forall|j: int| 0 <= j < nbits(old(bm)@) implies #[trigger] bit(bm@, j) == (bit(old(bm)@, j) && j != k) by {
            if j / 8 == i as int {
                lemma_byte_clear(b, sh, (j % 8) as u8);
                assert(j == k <==> sh == (j % 8) as u8);
            }
        }
    }
}

/// Marks every unit of `[s, e)` in use.
pub fn set_range(bm: &mut Vec<u8>, s: u64, e: u64)
    requires
        s <= e,
        e <= nbits(old(bm)@),
    ensures
        final(bm)@.len() == old(bm)@.len(),
        forall|j: int| 0 <= j < nbits(old(bm)@) ==> #[trigger] bit(final(bm)@, j) == (bit(old(bm)@, j) || (s <= j < e)),
{
    let mut k: u64 = s;
    while k < e
        invariant
            s <= k <= e,
            e <= nbits(old(bm)@),
            bm@.len() == old(bm)@.len(),
            forall|j: int| 0 <= j < nbits(old(bm)@) ==> #[trigger] bit(bm@, j) == (bit(old(bm)@, j) || (s <= j < k)),
        decreases e - k,
    {
        set_bit(bm, k);
        k = k + 1;
    }
}

/// Marks every unit of `[s, e)` free.
pub fn clear_range(bm: &mut Vec<u8>, s: u64, e: u64)
    requires
        s <= e,
        e <= nbits(old(bm)@),
    ensures
        final(bm)@.len() == old(bm)@.len(),
        forall|j: int| 0 <= j < nbits(old(bm)@) ==> #[trigger] bit(final(bm)@, j) == (bit(old(bm)@, j) && !(s <= j < e)),
{
    let mut k: u64 = s;
    while k < e
        invariant
            s <= k <= e,
            e <= nbits(old(bm)@),
            bm@.len() == old(bm)@.len(),
            forall|j: int| 0 <= j < nbits(old(bm)@) ==> #[trigger] bit(bm@, j) == (bit(old(bm)@, j) && !(s <= j < k)),
        decreases e - k,
    {
        clear_bit(bm, k);
        k = k + 1;
    }
}

/// First index in `[1, nbits)` that is free; `None` when all are in use.
pub fn first_free_from_one(bm: &Vec<u8>) -> (r: Option<u64>)
    requires
        nbits(bm@) <= u64::MAX,
    ensures
        r matches Some(k) ==> 1 <= k < nbits(bm@) && !bit(bm@, k as int) && forall|j: int| 1 <= j < k ==> bit(bm@, j),
        r is None ==> forall|j: int| 1 <= j < nbits(bm@) ==> bit(bm@, j),
{
    let n: u64 = (bm.len() as u64) * 8;
    let mut k: u64 = 1;
    while k < n
        invariant
            n == nbits(bm@),
            1 <= k,
            forall|j: int| 1 <= j < k ==> bit(bm@, j),
        decreases n - k,
    {
        if !test_bit(bm, k) {
            return Some(k);
        }
        k = k + 1;
    }
    None
}

/// Start of the lowest run of `n` free units; `None` when no such run
/// exists or `n` is zero.
pub fn first_free_run(bm: &Vec<u8>, n: u64) -> (r: Option<u64>)
    requires
        nbits(bm@) <= u64::MAX,
    ensures
        r matches Some(s) ==> n > 0 && free_run(bm@, s as int, n as int) && forall|t: int| 0 <= t < s ==> !free_run(bm@, t, n as int),
        r is None ==> n == 0 || forall|t: int| !free_run(bm@, t, n as int),
{
    if n == 0 {
        return None;
    }
    let total: u64 = (bm.len() as u64) * 8;
    let mut start: u64 = 0;
    let mut k: u64 = 0;
    while k < total
        invariant
            total == nbits(bm@),
            n > 0,
            start <= k <= total,
            k - start < n,
            forall|j: int| start <= j < k ==> !bit(bm@, j),
            forall|t: int| 0 <= t < start ==> !free_run(bm@, t, n as int),
        decreases total - k,
    {
        if !test_bit(bm, k) {
            if k + 1 - start == n {
                return Some(start);
            }
            k = k + 1;
        } else {
            proof {
                assert forall|t: int| 0 <= t < k + 1 implies !free_run(bm@, t, n as int) by {
                    if t >= start && t + n <= nbits(bm@) {
                        assert(t <= k < t + n);
                    }
                }
            }
            k = k + 1;
            start = k;
        }
    }
    proof {
        assert forall|t: int| !free_run(bm@, t, n as int) by {
            if 0 <= t && t >= start {
                assert(t + n > total);
            }
        }
    }
    None
}

} // verus!

verus! {

/// A copy of a map.
pub fn copy_map(bm: &Vec<u8>) -> (r: Vec<u8>)
    ensures
        r@ == bm@,
{
    let mut r: Vec<u8> = Vec::new();
    let mut j: usize = 0;
    while j < bm.len()
        invariant
            j <= bm@.len(),
            r@ == bm@.subrange(0, j as int),
        decreases bm@.len() - j,
    {
        r.push(bm[j]);
        j = j + 1;
        assert(r@ =~= bm@.subrange(0, j as int));
    }
    assert(r@ =~= bm@);
    r
}

/// Two maps that mark the same units have the same free runs.
pub proof fn lemma_same_bits_same_runs(a: Seq<u8>, b: Seq<u8>, n: int)
    requires
        a.len() == b.len(),
        forall|j: int| 0 <= j < nbits(a) ==> bit(a, j) == bit(b, j),
    ensures
        forall|t: int| free_run(a, t, n) <==> free_run(b, t, n),
{
}

} // verus!

verus! {

/// Taking the lowest run of `a` units out of a map that holds a run of
/// `a + b` free units leaves a run of `b` free units.
pub proof fn lemma_second_run(bm: Seq<u8>, s: int, a: int, b: int, t: int) -> (u: int)
    requires
        a > 0,
        b >= 0,
        free_run(bm, t, a + b),
        free_run(bm, s, a),
        forall|x: int| 0 <= x < s ==> !free_run(bm, x, a),
    ensures
        0 <= u,
        u + b <= nbits(bm),
        forall|k: int| u <= k < u + b ==> !bit(bm, k) && !(s <= k < s + a),
{
    assert(free_run(bm, t, a));
    assert(s <= t);
    let u = if s + a > t { s + a } else { t };
    assert(u + b <= t + a + b);
    assert forall|k: int| u <= k < u + b implies !bit(bm, k) && !(s <= k < s + a) by {
        assert(t <= k < t + a + b);
    }
    u
}

/// Whether the map holds a run of `n` free units.
pub open spec fn has_run(bm: Seq<u8>, n: int) -> bool {
    exists|t: int| free_run(bm, t, n)
}

} // verus!
