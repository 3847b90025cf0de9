use vstd::prelude::*;
use vstd::utf8::{decode_utf8, valid_utf8};
use vstd::string::StringExecFns;

verus! {

/// Ceiling of `a / b` for a positive divisor.
pub open spec fn ceil_div(a: int, b: int) -> int {
    (a + b - 1) / b
}

/// The bytes of a NUL-terminated buffer up to (not including) the first NUL,
/// or the whole buffer when it holds no NUL.
pub open spec fn cstr_prefix(b: Seq<u8>) -> Seq<u8>
    decreases b.len(),
{
    if b.len() == 0 {
        b
    } else if b[0] == 0 {
        Seq::empty()
    } else {
        seq![b[0]] + cstr_prefix(b.subrange(1, b.len() as int))
    }
}

/// Index of the first NUL byte, or the length when there is none.
pub open spec fn first_nul(b: Seq<u8>) -> int
    decreases b.len(),
{
    if b.len() == 0 {
        0
    } else if b[0] == 0 {
        0
    } else {
        1 + first_nul(b.subrange(1, b.len() as int))
    }
}

pub proof fn lemma_first_nul(b: Seq<u8>)
    ensures
        0 <= first_nul(b) <= b.len(),
        cstr_prefix(b) == b.subrange(0, first_nul(b)),
        forall|k: int| 0 <= k < first_nul(b) ==> b[k] != 0,
        first_nul(b) < b.len() ==> b[first_nul(b)] == 0,
    decreases b.len(),
{
    if b.len() > 0 && b[0] != 0 {
        let t = b.subrange(1, b.len() as int);
        lemma_first_nul(t);
        assert(cstr_prefix(b) =~= b.subrange(0, first_nul(b)));
        assert forall|k: int| 0 <= k < first_nul(b) implies b[k] != 0 by {
            if k > 0 {
                assert(b[k] == t[k - 1]);
            }
        }
    } else if b.len() > 0 {
        assert(cstr_prefix(b) =~= b.subrange(0, 0));
    } else {
        assert(cstr_prefix(b) =~= b.subrange(0, 0));
    }
}

/// Ceiling division, `ceil(a / b)`.
pub fn fastceildiv(a: u64, b: u64) -> (r: u64)
    requires
        b > 0,
    ensures
        r as int == ceil_div(a as int, b as int),
        r * b >= a,
        r == 0 || (r - 1) * b < a,
{
    let q: u64 = a / b;
    let m: u64 = a % b;
    assert(m != 0 ==> q < u64::MAX) by (nonlinear_arith)
        requires
            q == a as int / b as int,
            m == a as int % b as int,
            b > 0,
    {
        if m != 0 {
            assert(b >= 2);
            assert(q * b <= a);
        }
    }
    let r: u64 = if m != 0 { q + 1 } else { q };
    proof {
        let ai = a as int;
        let bi = b as int;
        assert(ai == q * bi + m) by (nonlinear_arith)
            requires
                bi > 0,
                q == ai / bi,
                m == ai % bi,
        ;
        assert(0 <= m < bi);
        assert(ceil_div(ai, bi) == r) by (nonlinear_arith)
            requires
                ai == q * bi + m,
                0 <= m < bi,
                r == (if m != 0 { q + 1 } else { q as int }),
                ceil_div(ai, bi) == (ai + bi - 1) / bi,
                bi > 0,
        ;
        assert(r * bi >= ai) by (nonlinear_arith)
            requires
                ai == q * bi + m,
                0 <= m < bi,
                r == (if m != 0 { q + 1 } else { q as int }),
        ;
        assert(r == 0 || (r - 1) * bi < ai) by (nonlinear_arith)
            requires
                ai == q * bi + m,
                0 <= m < bi,
                r == (if m != 0 { q + 1 } else { q as int }),
        ;
    }
    r
}

/// Relies on `String::from_utf8`: it succeeds exactly on valid UTF-8, and then
/// holds the characters that the bytes encode.
#[verifier::external_body]
pub(crate) fn string_from_utf8(v: Vec<u8>) -> (r: Option<String>)
    ensures
        r.is_some() <==> valid_utf8(v@),
        r matches Some(s) ==> s@ == decode_utf8(v@),
{
    String::from_utf8(v).ok()
}

/// Decodes a NUL-terminated (or NUL-padded) byte buffer as UTF-8 text: the
/// bytes before the first NUL, or all of them when there is no NUL.
pub fn bytes_to_string(bytes: &[u8]) -> (r: String)
    requires
        valid_utf8(cstr_prefix(bytes@)),
    ensures
        r@ == decode_utf8(cstr_prefix(bytes@)),
{
    proof {
        lemma_first_nul(bytes@);
    }
    let n = cstr_len(bytes);
    let mut v: Vec<u8> = Vec::new();
    let mut i: usize = 0;
    while i < n
        invariant
            n <= bytes@.len(),
            0 <= i <= n,
            v@ == bytes@.subrange(0, i as int),
        decreases n - i,
    {
        v.push(bytes[i]);
        i = i + 1;
        assert(v@ =~= bytes@.subrange(0, i as int));
    }
    let r = string_from_utf8(v);
    match r {
        Some(s) => s,
        None => String::new(),
    }
}

/// Number of bytes before the first NUL (the whole length when there is none).
pub fn cstr_len(bytes: &[u8]) -> (n: usize)
    ensures
        n as int == first_nul(bytes@),
{
    proof {
        lemma_first_nul(bytes@);
    }
    let mut i: usize = 0;
    while i < bytes.len()
        invariant
            0 <= i <= bytes@.len(),
            forall|k: int| 0 <= k < i ==> bytes@[k] != 0,
            0 <= first_nul(bytes@) <= bytes@.len(),
            forall|k: int| 0 <= k < first_nul(bytes@) ==> bytes@[k] != 0,
            first_nul(bytes@) < bytes@.len() ==> bytes@[first_nul(bytes@)] == 0,
        decreases bytes@.len() - i,
    {
        if bytes[i] == 0 {
            return i;
        }
        i = i + 1;
    }
    i
}

} // verus!

verus! {

/// `s` right-aligned in a field of `c` bytes: spaces first, as many as `s` is
/// shorter than `c`; `s` itself when it is not.
pub fn shift_in_text(s: &str, c: usize) -> (r: String)
    ensures
        c <= s.len() ==> r@ == s@,
        c > s.len() ==> r@ == Seq::new((c - s.len()) as nat, |i: int| ' ') + s@,
{
    let l: usize = s.len();
    if c <= l {
        return s.to_owned();
    }
    let pad: usize = c - l;
    let mut st = String::new();
    let mut j: usize = 0;
    while j < pad
        invariant
            j <= pad,
            st@ == Seq::new(j as nat, |i: int| ' '),
        decreases pad - j,
    {
        proof {
            reveal_strlit(" ");
        }
        st.append(" ");
        j = j + 1;
        assert(st@ =~= Seq::new(j as nat, |i: int| ' '));
    }
    st.append(s);
    st
}

} // verus!
