//! Little-endian integer fields of the on-disk layout.
use vstd::prelude::*;

verus! {

pub open spec fn pow256(n: nat) -> nat
    decreases n,
{
    if n == 0 {
        1
    } else {
        256 * pow256((n - 1) as nat)
    }
}

/// The value of a little-endian byte sequence.
pub open spec fn le_value(s: Seq<u8>) -> nat
    decreases s.len(),
{
    if s.len() == 0 {
        0
    } else {
        s[0] as nat + 256 * le_value(s.subrange(1, s.len() as int))
    }
}

/// The `n` low bytes of `v`, least significant first.
pub open spec fn le_bytes(v: nat, n: nat) -> Seq<u8>
    decreases n,
{
    if n == 0 {
        Seq::empty()
    } else {
        seq![(v % 256) as u8] + le_bytes(v / 256, (n - 1) as nat)
    }
}

pub proof fn lemma_pow256_facts(n: nat)
    ensures
        pow256(n) >= 1,
        pow256(1) == 256,
        pow256(2) == 65536,
        pow256(4) == 0x1_0000_0000,
        pow256(8) == 0x1_0000_0000_0000_0000,
    decreases n,
{
    if n > 0 {
        lemma_pow256_facts((n - 1) as nat);
    }
    reveal_with_fuel(pow256, 9);
}

pub proof fn lemma_le_bytes_len(v: nat, n: nat)
    ensures
        le_bytes(v, n).len() == n,
    decreases n,
{
    if n > 0 {
        lemma_le_bytes_len(v / 256, (n - 1) as nat);
    }
}

pub proof fn lemma_le_value_bound(s: Seq<u8>)
    ensures
        le_value(s) < pow256(s.len()),
    decreases s.len(),
{
    if s.len() > 0 {
        let t = s.subrange(1, s.len() as int);
        lemma_le_value_bound(t);
        assert(pow256(s.len()) == 256 * pow256(t.len()));
        assert(s[0] as nat + 256 * le_value(t) < 256 * pow256(t.len())) by (nonlinear_arith)
            requires
                le_value(t) < pow256(t.len()),
                s[0] < 256,
        ;
    }
}

/// Reading back the bytes of a value that fits gives the value.
pub proof fn lemma_le_round_trip(v: nat, n: nat)
    requires
        v < pow256(n),
    ensures
        le_value(le_bytes(v, n)) == v,
        le_bytes(v, n).len() == n,
    decreases n,
{
    lemma_le_bytes_len(v, n);
    if n > 0 {
        let s = le_bytes(v, n);
        assert(v / 256 < pow256((n - 1) as nat)) by (nonlinear_arith)
            requires
                v < 256 * pow256((n - 1) as nat),
        ;
        lemma_le_round_trip(v / 256, (n - 1) as nat);
        assert(s.subrange(1, s.len() as int) =~= le_bytes(v / 256, (n - 1) as nat));
        assert(v == v % 256 + 256 * (v / 256)) by (nonlinear_arith);
    } else {
        assert(v == 0);
    }
}

/// Writing back the value of a byte sequence gives the sequence.
pub proof fn lemma_le_bytes_of_value(s: Seq<u8>)
    ensures
        le_bytes(le_value(s), s.len()) == s,
    decreases s.len(),
{
    if s.len() > 0 {
        let t = s.subrange(1, s.len() as int);
        lemma_le_bytes_of_value(t);
        let v = le_value(s);
        assert(v == s[0] as nat + 256 * le_value(t));
        assert(v % 256 == s[0] as nat && v / 256 == le_value(t)) by (nonlinear_arith)
            requires
                v == s[0] as nat + 256 * le_value(t),
                s[0] < 256,
        ;
        assert(le_bytes(v, s.len()) =~= s);
    } else {
        assert(le_bytes(le_value(s), 0) =~= s);
    }
}

pub proof fn lemma_le_value_zeros(n: nat)
    ensures
        le_value(Seq::new(n, |i: int| 0u8)) == 0,
    decreases n,
{
    if n > 0 {
        let s = Seq::new(n, |i: int| 0u8);
        lemma_le_value_zeros((n - 1) as nat);
        assert(s.subrange(1, s.len() as int) =~= Seq::new((n - 1) as nat, |i: int| 0u8));
    }
}

proof fn lemma_le_bytes_step(v: nat, j: nat)
    ensures
        le_bytes(v, j + 1) == le_bytes(v, j) + seq![((v / pow256(j)) % 256) as u8],
    decreases j,
{
    if j == 0 {
        assert(v / 1 == v);
        assert(le_bytes(v / 256, 0) =~= Seq::<u8>::empty());
        assert(le_bytes(v, 1) =~= seq![(v % 256) as u8]);
        assert(le_bytes(v, 0) + seq![((v / pow256(0)) % 256) as u8] =~= seq![(v % 256) as u8]);
    } else {
        lemma_le_bytes_step(v / 256, (j - 1) as nat);
        assert((v / 256) / pow256((j - 1) as nat) == v / pow256(j)) by {
            lemma_pow256_facts(j);
            vstd::arithmetic::div_mod::lemma_div_denominator(v as int, 256, pow256((j - 1) as nat) as int);
        }
        assert(le_bytes(v, j + 1) =~= le_bytes(v, j) + seq![((v / pow256(j)) % 256) as u8]);
    }
}

/// Appends the `n` low bytes of `v`, least significant first.
pub fn push_le(out: &mut Vec<u8>, v: u64, n: usize)
    requires
        n <= 8,
    ensures
        final(out)@ == old(out)@ + le_bytes(v as nat, n as nat),
{
    let mut cur: u64 = v;
    let mut j: usize = 0;
    proof {
        lemma_pow256_facts(0);
        assert(v as nat / 1 == v as nat);
        assert(out@ =~= old(out)@ + le_bytes(v as nat, 0));
    }
    while j < n
        invariant
            j <= n,
            n <= 8,
            cur as nat == v as nat / pow256(j as nat),
            out@ == old(out)@ + le_bytes(v as nat, j as nat),
        decreases n - j,
    {
        proof {
            lemma_le_bytes_step(v as nat, j as nat);
            lemma_pow256_facts(j as nat);
        }
        out.push((cur % 256) as u8);
        proof {
            assert((v as nat / pow256(j as nat)) / 256 == v as nat / pow256((j + 1) as nat)) by {
                vstd::arithmetic::div_mod::lemma_div_denominator(v as int, pow256(j as nat) as int, 256);
                assert(pow256((j + 1) as nat) == 256 * pow256(j as nat));
                assert(pow256(j as nat) * 256 == 256 * pow256(j as nat)) by (nonlinear_arith);
            }
        }
        cur = cur / 256;
        j = j + 1;
        assert(out@ =~= old(out)@ + le_bytes(v as nat, j as nat));
    }
}

/// Reads `n` little-endian bytes of `buf` starting at `off`.
pub fn read_le(buf: &[u8], off: usize, n: usize) -> (r: u64)
    requires
        n <= 8,
        off + n <= buf@.len(),
    ensures
        r as nat == le_value(buf@.subrange(off as int, off + n)),
{
    let len: usize = buf.len();
    let mut acc: u64 = 0;
    let mut j: usize = n;
    while j > 0
        invariant
            j <= n,
            n <= 8,
            off + n <= buf@.len(),
            len == buf@.len(),
            acc as nat == le_value(buf@.subrange(off + j, off + n)),
        decreases j,
    {
        proof {
            let t = buf@.subrange(off + j - 1, off + n);
            assert(t.subrange(1, t.len() as int) =~= buf@.subrange(off + j, off + n));
            lemma_le_value_bound(buf@.subrange(off + j, off + n));
            assert(pow256((n - j) as nat) <= pow256(7)) by {
                lemma_pow256_mono((n - j) as nat, 7);
            }
            lemma_pow256_facts(0);
            reveal_with_fuel(pow256, 8);
        }
        let k: usize = off + (j - 1);
        let b: u8 = buf[k];
        assert(acc < 0x100_0000_0000_0000);
        acc = acc * 256 + b as u64;
        j = j - 1;
    }
    assert(buf@.subrange(off as int, off + n) =~= buf@.subrange(off + j, off + n));
    acc
}

pub proof fn lemma_pow256_mono(a: nat, b: nat)
    requires
        a <= b,
    ensures
        pow256(a) <= pow256(b),
    decreases b,
{
    if a < b {
        lemma_pow256_mono(a, (b - 1) as nat);
        lemma_pow256_facts((b - 1) as nat);
    }
}

} // verus!
