//! Directory contents: an array of 256-byte slots, each a little-endian inode
//! number followed by a NUL-padded name.
use vstd::prelude::*;
use crate::common::{cstr_len, cstr_prefix, first_nul, lemma_first_nul};
use crate::le::{le_bytes, le_value, lemma_le_round_trip, lemma_le_value_bound, lemma_le_value_zeros, lemma_pow256_facts, push_le, read_le, pow256};

verus! {

pub const SLOT_LEN: usize = 256;

pub const NAME_LEN: usize = 252;

/// An entry as an inode number and its 252 name bytes.
pub type EntryView = (u32, Seq<u8>);

/// The 252 name bytes stored for `name`: truncated, or padded with NULs.
pub open spec fn name_slot(name: Seq<u8>) -> Seq<u8> {
    if name.len() >= 252 {
        name.subrange(0, 252)
    } else {
        name + Seq::new((252 - name.len()) as nat, |i: int| 0u8)
    }
}

/// The entry held by slot `i` of `buf`.
pub open spec fn slot_entry(buf: Seq<u8>, i: int) -> EntryView {
    (
        le_value(buf.subrange(256 * i, 256 * i + 4)) as u32,
        buf.subrange(256 * i + 4, 256 * i + 256),
    )
}

/// The entries of the first `n` slots, leaving out those with inode number 0.
pub open spec fn decode_slots(buf: Seq<u8>, n: nat) -> Seq<EntryView>
    decreases n,
{
    if n == 0 {
        Seq::empty()
    } else {
        let prev = decode_slots(buf, (n - 1) as nat);
        let e = slot_entry(buf, n - 1);
        if e.0 == 0 {
            prev
        } else {
            prev.push(e)
        }
    }
}

/// The entries that a directory's content holds.
pub open spec fn decode(buf: Seq<u8>) -> Seq<EntryView> {
    decode_slots(buf, buf.len() / 256)
}

/// One slot's bytes.
pub open spec fn encode_entry(e: EntryView) -> Seq<u8> {
    le_bytes(e.0 as nat, 4) + e.1
}

/// The slots of a list of entries, in order.
pub open spec fn encode(es: Seq<EntryView>) -> Seq<u8>
    decreases es.len(),
{
    if es.len() == 0 {
        Seq::empty()
    } else {
        encode(es.drop_last()) + encode_entry(es.last())
    }
}

/// Every name of the list has its full 252 bytes.
pub open spec fn names_sized(es: Seq<EntryView>) -> bool {
    forall|i: int| 0 <= i < es.len() ==> (#[trigger] es[i]).1.len() == 252
}

/// No entry of the list has inode number 0.
pub open spec fn all_present(es: Seq<EntryView>) -> bool {
    forall|i: int| 0 <= i < es.len() ==> (#[trigger] es[i]).0 != 0
}

/// Whether a stored name reads as `name` (the bytes before its first NUL).
pub open spec fn name_is(slot: Seq<u8>, name: Seq<u8>) -> bool {
    cstr_prefix(slot) == name
}

pub proof fn lemma_encode_len(es: Seq<EntryView>)
    requires
        names_sized(es),
    ensures
        encode(es).len() == 256 * es.len(),
    decreases es.len(),
{
    if es.len() > 0 {
        let p = es.drop_last();
        assert(names_sized(p)) by {
            assert forall|i: int| 0 <= i < p.len() implies (#[trigger] p[i]).1.len() == 252 by {
                assert(p[i] == es[i]);
            }
        }
        lemma_encode_len(p);
        crate::le::lemma_le_bytes_len(es.last().0 as nat, 4);
        assert(es.last() == es[es.len() - 1]);
    }
}

/// Slot `i` of an encoded list, followed by anything, is entry `i`.
pub proof fn lemma_encode_slot(es: Seq<EntryView>, pad: Seq<u8>, i: int)
    requires
        names_sized(es),
        0 <= i < es.len(),
    ensures
        slot_entry(encode(es) + pad, i) == es[i],
    decreases es.len(),
{
    let p = es.drop_last();
    assert(names_sized(p)) by {
        assert forall|k: int| 0 <= k < p.len() implies (#[trigger] p[k]).1.len() == 252 by {
            assert(p[k] == es[k]);
        }
    }
    lemma_encode_len(p);
    lemma_encode_len(es);
    let tail = encode_entry(es.last());
    assert(encode(es) == encode(p) + tail);
    assert(es.last() == es[es.len() - 1]);
    if i < es.len() - 1 {
        lemma_encode_slot(p, tail + pad, i);
        assert(encode(es) + pad =~= encode(p) + (tail + pad));
        assert(p[i] == es[i]);
    } else {
        let b = encode(es) + pad;
        lemma_pow256_facts(4);
        lemma_le_round_trip(es[i].0 as nat, 4);
        assert(b.subrange(256 * i, 256 * i + 4) =~= le_bytes(es[i].0 as nat, 4));
        assert(b.subrange(256 * i + 4, 256 * i + 256) =~= es[i].1);
    }
}

/// The zero-filled slots after an encoded list hold no entry.
pub proof fn lemma_decode_encoded(es: Seq<EntryView>, pad: Seq<u8>, n: nat)
    requires
        names_sized(es),
        all_present(es),
        forall|k: int| 0 <= k < pad.len() ==> pad[k] == 0,
        es.len() <= n,
        256 * n <= es.len() * 256 + pad.len(),
    ensures
        decode_slots(encode(es) + pad, n) == es,
    decreases n,
{
    lemma_decode_prefix(es, pad, es.len());
    if n > es.len() {
        lemma_decode_encoded(es, pad, (n - 1) as nat);
        let b = encode(es) + pad;
        lemma_encode_len(es);
        let z = b.subrange(256 * (n - 1), 256 * (n - 1) + 4);
        assert(z =~= Seq::new(4, |i: int| 0u8));
        lemma_le_value_zeros(4);
    }
}

proof fn lemma_decode_prefix(es: Seq<EntryView>, pad: Seq<u8>, k: nat)
    requires
        names_sized(es),
        all_present(es),
        k <= es.len(),
    ensures
        decode_slots(encode(es) + pad, k) == es.subrange(0, k as int),
    decreases k,
{
    if k > 0 {
        lemma_decode_prefix(es, pad, (k - 1) as nat);
        lemma_encode_slot(es, pad, k - 1);
        assert(es[k - 1].0 != 0);
        assert(es.subrange(0, k - 1).push(es[k - 1]) =~= es.subrange(0, k as int));
    } else {
        assert(es.subrange(0, 0) =~= Seq::<EntryView>::empty());
    }
}

/// One slot of a directory.
pub struct DentryEntry {
    pub inum: u32,
    pub filename_cstr: Vec<u8>,
}

impl View for DentryEntry {
    type V = EntryView;

    open spec fn view(&self) -> EntryView {
        (self.inum, self.filename_cstr@)
    }
}

/// A directory's entries held in memory, with the directory's inode number.
pub struct Dentry {
    pub intern: Vec<DentryEntry>,
    pub inum: u32,
}

impl Dentry {
    pub open spec fn entries(&self) -> Seq<EntryView> {
        self.intern@.map_values(|e: DentryEntry| e@)
    }

    /// Decodes the whole slots of `buf`; slots with inode number 0 are absent,
    /// and bytes after the last whole slot are ignored.
    pub fn new(buf: &[u8], inum: u32) -> (r: Self)
        ensures
            r.entries() == decode(buf@),
            r.inum == inum,
            names_sized(r.entries()),
            all_present(r.entries()),
    {
        let len: usize = buf.len();
        let n: usize = len / SLOT_LEN;
        let mut res: Vec<DentryEntry> = Vec::new();
        let mut i: usize = 0;
        while i < n
            invariant
                n == buf@.len() / 256,
                len == buf@.len(),
                i <= n,
                res@.map_values(|e: DentryEntry| e@) == decode_slots(buf@, i as nat),
                names_sized(res@.map_values(|e: DentryEntry| e@)),
                all_present(res@.map_values(|e: DentryEntry| e@)),
            decreases n - i,
        {
            assert(i * 256 + 256 <= len) by (nonlinear_arith)
                requires
                    i < n,
                    n == len / 256,
            ;
            let base: usize = i * SLOT_LEN;
            let num: u64 = read_le(buf, base, 4);
            proof {
                lemma_le_value_bound(buf@.subrange(base as int, base + 4));
                lemma_pow256_facts(4);
            }
            let mut name: Vec<u8> = Vec::new();
            let mut j: usize = 0;
            while j < NAME_LEN
                invariant
                    j <= NAME_LEN,
                    base + 256 <= buf@.len(),
                    len == buf@.len(),
                    name@ == buf@.subrange(base + 4, base + 4 + j),
                decreases NAME_LEN - j,
            {
                name.push(buf[base + 4 + j]);
                j = j + 1;
                assert(name@ =~= buf@.subrange(base + 4, base + 4 + j));
            }
            let ghost prev = res@.map_values(|e: DentryEntry| e@);
            if num != 0 {
                res.push(DentryEntry { inum: num as u32, filename_cstr: name });
                assert(res@.map_values(|e: DentryEntry| e@) =~= prev.push(slot_entry(buf@, i as int)));
            }
            i = i + 1;
        }
        Dentry { intern: res, inum }
    }

    /// The slots of the entries, zero-padded to a multiple of `block`.
    pub fn encode_padded(&self, block: usize) -> (r: Vec<u8>)
        requires
            block > 0,
            names_sized(self.entries()),
            256 * self.entries().len() + block <= usize::MAX,
        ensures
            r@.len() as int % (block as int) == 0,
            r@.len() < 256 * self.entries().len() + block,
            r@.len() >= 256 * self.entries().len(),
            r@ == encode(self.entries()) + Seq::new((r@.len() - 256 * self.entries().len()) as nat, |i: int| 0u8),
    {
        let mut ba: Vec<u8> = Vec::new();
        let mut i: usize = 0;
        while i < self.intern.len()
            invariant
                i <= self.intern@.len(),
                names_sized(self.entries()),
                ba@ == encode(self.entries().subrange(0, i as int)),
                ba@.len() == 256 * i,
                256 * self.entries().len() + block <= usize::MAX,
            decreases self.intern@.len() - i,
        {
            let e = &self.intern[i];
            assert(self.entries()[i as int] == e@);
            push_le(&mut ba, e.inum as u64, 4);
            ba.extend_from_slice(e.filename_cstr.as_slice());
            proof {
                let es = self.entries().subrange(0, i + 1);
                assert(es.drop_last() =~= self.entries().subrange(0, i as int));
                assert(es.last() == e@);
                crate::le::lemma_le_bytes_len(e.inum as nat, 4);
            }
            i = i + 1;
        }
        assert(self.entries().subrange(0, i as int) =~= self.entries());
        let ghost body = ba@;
        let rem: usize = ba.len() % block;
        let pad: usize = if rem == 0 { 0 } else { block - rem };
        let mut k: usize = 0;
        while k < pad
            invariant
                k <= pad,
                ba@ == body + Seq::new(k as nat, |i: int| 0u8),
            decreases pad - k,
        {
            ba.push(0u8);
            k = k + 1;
            assert(ba@ =~= body + Seq::new(k as nat, |i: int| 0u8));
        }
        proof {
            let l = body.len() as int;
            let b = block as int;
            assert((l + pad) % b == 0) by (nonlinear_arith)
                requires
                    b > 0,
                    rem == l % b,
                    pad == (if rem == 0 { 0 } else { b - rem }),
            ;
        }
        ba
    }
}

/// The 252 name bytes stored for `name`.
pub fn name_to_slot(name: &[u8]) -> (r: Vec<u8>)
    ensures
        r@ == name_slot(name@),
        r@.len() == 252,
{
    let mut r: Vec<u8> = Vec::new();
    let mut j: usize = 0;
    while j < NAME_LEN
        invariant
            j <= NAME_LEN,
            r@.len() == j,
            forall|k: int| 0 <= k < j ==> r@[k] == name_slot(name@)[k],
        decreases NAME_LEN - j,
    {
        if j < name.len() {
            r.push(name[j]);
        } else {
            r.push(0u8);
        }
        j = j + 1;
    }
    assert(r@ =~= name_slot(name@));
    r
}

/// Whether the stored name `slot` reads as `name`.
pub fn slot_name_is(slot: &[u8], name: &[u8]) -> (r: bool)
    ensures
        r == name_is(slot@, name@),
{
    proof {
        lemma_first_nul(slot@);
    }
    let n = cstr_len(slot);
    assert(cstr_prefix(slot@) == slot@.subrange(0, n as int));
    if n != name.len() {
        return false;
    }
    let mut j: usize = 0;
    while j < n
        invariant
            n == name@.len(),
            n <= slot@.len(),
            cstr_prefix(slot@) == slot@.subrange(0, n as int),
            j <= n,
            forall|k: int| 0 <= k < j ==> slot@[k] == name@[k],
        decreases n - j,
    {
        if slot[j] != name[j] {
            assert(cstr_prefix(slot@)[j as int] == slot@[j as int]);
            return false;
        }
        j = j + 1;
    }
    assert(cstr_prefix(slot@) =~= name@);
    true
}

} // verus!

verus! {

proof fn lemma_cstr_prefix_padded(a: Seq<u8>, z: Seq<u8>)
    requires
        forall|k: int| 0 <= k < a.len() ==> a[k] != 0,
        z.len() == 0 || z[0] == 0,
    ensures
        cstr_prefix(a + z) == a,
    decreases a.len(),
{
    if a.len() == 0 {
        assert(a + z =~= z);
        if z.len() > 0 {
            assert(cstr_prefix(z) =~= a);
        } else {
            assert(cstr_prefix(z) =~= a);
        }
    } else {
        let t = a.subrange(1, a.len() as int);
        lemma_cstr_prefix_padded(t, z);
        assert((a + z).subrange(1, (a + z).len() as int) =~= t + z);
        assert(seq![a[0]] + t =~= a);
    }
}

/// A name without NUL bytes and no longer than a slot reads back from its
/// slot: once `create_file` or `create_directory` has stored it in a
/// directory, a second creation of that name there is refused.
pub proof fn lemma_stored_name_found(es: Seq<EntryView>, n: u32, name: Seq<u8>)
    requires
        name.len() <= 252,
        forall|k: int| 0 <= k < name.len() ==> name[k] != 0,
    ensures
        name_is(name_slot(name), name),
        crate::vfs::infs::FileSystem::has_name(es.push((n, name_slot(name))), name),
{
    if name.len() == 252 {
        assert(name.subrange(0, 252) =~= name);
        lemma_cstr_prefix_padded(name, Seq::empty());
        assert(name + Seq::<u8>::empty() =~= name);
    } else {
        lemma_cstr_prefix_padded(name, Seq::new((252 - name.len()) as nat, |i: int| 0u8));
    }
    let s = es.push((n, name_slot(name)));
    assert(name_is(s[es.len() as int].1, name));
}

} // verus!
