//! The byte image of a filesystem, and reading one back.
use vstd::prelude::*;
use crate::bitmap::{bit, nbits};
use crate::le::{le_bytes, le_value, lemma_le_bytes_len, lemma_le_round_trip, lemma_pow256_facts, pow256, push_le, read_le};
use crate::vfs::infs::{extent_blocks, image_len, raw_extent_ok, FileSystem, FileSystemVersion, Inode, Superblock, MAGIC_V1};

verus! {

/// The 64 bytes of a record.
pub open spec fn inode_bytes(ino: Inode) -> Seq<u8> {
    le_bytes(ino.num as nat, 4) + le_bytes(ino.first_block as nat, 8) + le_bytes(ino.end_block as nat, 8)
        + le_bytes(ino.total_file_size as nat, 8) + le_bytes(ino.perms as nat, 2) + le_bytes(ino.uid as nat, 4)
        + le_bytes(ino.gid as nat, 4) + le_bytes(ino.hard_link_count as nat, 2) + le_bytes(ino.accessed as nat, 8)
        + le_bytes(ino.modified as nat, 8) + le_bytes(ino.created as nat, 8)
}

/// The records of a table, in order.
pub open spec fn table_bytes(t: Seq<Inode>) -> Seq<u8>
    decreases t.len(),
{
    if t.len() == 0 {
        Seq::empty()
    } else {
        table_bytes(t.drop_last()) + inode_bytes(t.last())
    }
}

/// The 32 bytes of a superblock.
pub open spec fn header_bytes(sup: Superblock) -> Seq<u8> {
    le_bytes(sup.magic as nat, 8) + le_bytes(sup.data_size as nat, 8) + le_bytes(sup.inode_count as nat, 4)
        + le_bytes(sup.data_block_size as nat, 4) + le_bytes(sup.block_count as nat, 8)
}

/// The unsigned integer of `n` bytes at `off`.
pub open spec fn field(buf: Seq<u8>, off: int, n: int) -> nat {
    le_value(buf.subrange(off, off + n))
}

/// The record whose bytes start at `off`.
pub open spec fn inode_at(buf: Seq<u8>, off: int) -> Inode {
    Inode {
        num: field(buf, off, 4) as u32,
        first_block: field(buf, off + 4, 8) as u64,
        end_block: field(buf, off + 12, 8) as u64,
        total_file_size: field(buf, off + 20, 8) as u64,
        perms: field(buf, off + 28, 2) as u16,
        uid: field(buf, off + 30, 4) as u32,
        gid: field(buf, off + 34, 4) as u32,
        hard_link_count: field(buf, off + 38, 2) as u16,
        accessed: field(buf, off + 40, 8) as u64,
        modified: field(buf, off + 48, 8) as u64,
        created: field(buf, off + 56, 8) as u64,
    }
}

pub open spec fn img_inode_count(buf: Seq<u8>) -> int {
    field(buf, 16, 4) as int
}

pub open spec fn img_block_size(buf: Seq<u8>) -> int {
    field(buf, 20, 4) as int
}

pub open spec fn img_block_count(buf: Seq<u8>) -> int {
    field(buf, 24, 8) as int
}

/// Offset of the inode table.
pub open spec fn img_table_start(buf: Seq<u8>) -> int {
    32 + img_inode_count(buf) / 8
}

/// Whether `buf` is the image of a well-formed filesystem: a version 1 magic
/// number, valid counts, the exact length, and live records whose extents
/// lie in the data region and whose inode bits are set.
pub open spec fn image_ok(buf: Seq<u8>) -> bool {
    let ic = img_inode_count(buf);
    let bs = img_block_size(buf);
    let bc = img_block_count(buf);
    &&& buf.len() >= 32
    &&& field(buf, 0, 8) == MAGIC_V1
    &&& ic % 8 == 0
    &&& bs % 256 == 0
    &&& bs > 0
    &&& buf.len() == image_len(ic, bs, bc)
    &&& buf.len() + bs <= usize::MAX
    &&& forall|k: int| 0 <= k < ic && (#[trigger] inode_at(buf, img_table_start(buf) + 64 * k)).num != 0 ==> {
        &&& raw_extent_ok(inode_at(buf, img_table_start(buf) + 64 * k), bs, (bc / 8) * 8)
        &&& bit(buf.subrange(32, img_table_start(buf)), k)
    }
}

impl FileSystem {
    /// The bytes of the filesystem: superblock, inode-use map, inode table,
    /// block-use map, data region.
    pub open spec fn image(&self) -> Seq<u8> {
        header_bytes(self.sup) + self.inode_use_cache@ + table_bytes(self.inodes@) + self.data_use_table@ + self.data@
    }

    /// The image of the filesystem.
    pub fn to_bytes(&self) -> (r: Vec<u8>)
        requires
            self.wf(),
        ensures
            r@ == self.image(),
    {
        let mut res: Vec<u8> = Vec::new();
        push_le(&mut res, self.sup.magic, 8);
        push_le(&mut res, self.sup.data_size, 8);
        push_le(&mut res, self.sup.inode_count as u64, 4);
        push_le(&mut res, self.sup.data_block_size as u64, 4);
        push_le(&mut res, self.sup.block_count, 8);
        assert(res@ =~= header_bytes(self.sup));
        res.extend_from_slice(self.inode_use_cache.as_slice());
        let ghost head = res@;
        let mut k: usize = 0;
        while k < self.inodes.len()
            invariant
                k <= self.inodes@.len(),
                res@ == head + table_bytes(self.inodes@.subrange(0, k as int)),
            decreases self.inodes@.len() - k,
        {
            let n: Inode = self.inodes[k];
            let ghost before = res@;
            push_le(&mut res, n.num as u64, 4);
            push_le(&mut res, n.first_block, 8);
            push_le(&mut res, n.end_block, 8);
            push_le(&mut res, n.total_file_size, 8);
            push_le(&mut res, n.perms as u64, 2);
            push_le(&mut res, n.uid as u64, 4);
            push_le(&mut res, n.gid as u64, 4);
            push_le(&mut res, n.hard_link_count as u64, 2);
            push_le(&mut res, n.accessed, 8);
            push_le(&mut res, n.modified, 8);
            push_le(&mut res, n.created, 8);
            proof {
                let t = self.inodes@.subrange(0, k + 1);
                assert(t.drop_last() =~= self.inodes@.subrange(0, k as int));
                assert(t.last() == n);
                assert(res@ =~= before + inode_bytes(n));
            }
            k = k + 1;
        }
        assert(self.inodes@.subrange(0, k as int) =~= self.inodes@);
        res.extend_from_slice(self.data_use_table.as_slice());
        res.extend_from_slice(self.data.as_slice());
        assert(res@ =~= self.image());
        res
    }
}

} // verus!

verus! {

/// The bytes of a field are the bytes of its value.
proof fn lemma_field_bytes(buf: Seq<u8>, off: int, n: int)
    requires
        0 <= off,
        0 <= n,
        off + n <= buf.len(),
    ensures
        le_bytes(field(buf, off, n), n as nat) == buf.subrange(off, off + n),
        field(buf, off, n) < pow256(n as nat),
{
    let s = buf.subrange(off, off + n);
    crate::le::lemma_le_bytes_of_value(s);
    crate::le::lemma_le_value_bound(s);
}

/// Reading a field back from the bytes of a value.
proof fn lemma_value_field(buf: Seq<u8>, off: int, v: nat, n: nat)
    requires
        0 <= off,
        off + n <= buf.len(),
        buf.subrange(off, off + n) == le_bytes(v, n),
        v < pow256(n),
    ensures
        field(buf, off, n as int) == v,
{
    lemma_le_round_trip(v, n);
}

/// The record read from 64 bytes gives those bytes back.
pub proof fn lemma_inode_bytes_of(buf: Seq<u8>, off: int)
    requires
        0 <= off,
        off + 64 <= buf.len(),
    ensures
        inode_bytes(inode_at(buf, off)) == buf.subrange(off, off + 64),
{
    lemma_pow256_facts(0);
    lemma_field_bytes(buf, off, 4);
    lemma_field_bytes(buf, off + 4, 8);
    lemma_field_bytes(buf, off + 12, 8);
    lemma_field_bytes(buf, off + 20, 8);
    lemma_field_bytes(buf, off + 28, 2);
    lemma_field_bytes(buf, off + 30, 4);
    lemma_field_bytes(buf, off + 34, 4);
    lemma_field_bytes(buf, off + 38, 2);
    lemma_field_bytes(buf, off + 40, 8);
    lemma_field_bytes(buf, off + 48, 8);
    lemma_field_bytes(buf, off + 56, 8);
    assert(inode_bytes(inode_at(buf, off)) =~= buf.subrange(off, off + 64));
}

/// The record read from the bytes of a record is that record.
pub proof fn lemma_inode_decode(buf: Seq<u8>, off: int, ino: Inode)
    requires
        0 <= off,
        off + 64 <= buf.len(),
        buf.subrange(off, off + 64) == inode_bytes(ino),
    ensures
        inode_at(buf, off) == ino,
{
    lemma_pow256_facts(0);
    let b = inode_bytes(ino);
    lemma_le_bytes_len(ino.num as nat, 4);
    lemma_le_bytes_len(ino.first_block as nat, 8);
    lemma_le_bytes_len(ino.end_block as nat, 8);
    lemma_le_bytes_len(ino.total_file_size as nat, 8);
    lemma_le_bytes_len(ino.perms as nat, 2);
    lemma_le_bytes_len(ino.uid as nat, 4);
    lemma_le_bytes_len(ino.gid as nat, 4);
    lemma_le_bytes_len(ino.hard_link_count as nat, 2);
    lemma_le_bytes_len(ino.accessed as nat, 8);
    lemma_le_bytes_len(ino.modified as nat, 8);
    lemma_le_bytes_len(ino.created as nat, 8);
    assert(buf.subrange(off, off + 4) =~= b.subrange(0, 4));
    assert(b.subrange(0, 4) =~= le_bytes(ino.num as nat, 4));
    lemma_value_field(buf, off, ino.num as nat, 4);
    assert(b.subrange(4, 12) =~= le_bytes(ino.first_block as nat, 8));
    assert(buf.subrange(off + 4, off + 12) =~= b.subrange(4, 12));
    lemma_value_field(buf, off + 4, ino.first_block as nat, 8);
    assert(b.subrange(12, 20) =~= le_bytes(ino.end_block as nat, 8));
    assert(buf.subrange(off + 12, off + 20) =~= b.subrange(12, 20));
    lemma_value_field(buf, off + 12, ino.end_block as nat, 8);
    assert(b.subrange(20, 28) =~= le_bytes(ino.total_file_size as nat, 8));
    assert(buf.subrange(off + 20, off + 28) =~= b.subrange(20, 28));
    lemma_value_field(buf, off + 20, ino.total_file_size as nat, 8);
    assert(b.subrange(28, 30) =~= le_bytes(ino.perms as nat, 2));
    assert(buf.subrange(off + 28, off + 30) =~= b.subrange(28, 30));
    lemma_value_field(buf, off + 28, ino.perms as nat, 2);
    assert(b.subrange(30, 34) =~= le_bytes(ino.uid as nat, 4));
    assert(buf.subrange(off + 30, off + 34) =~= b.subrange(30, 34));
    lemma_value_field(buf, off + 30, ino.uid as nat, 4);
    assert(b.subrange(34, 38) =~= le_bytes(ino.gid as nat, 4));
    assert(buf.subrange(off + 34, off + 38) =~= b.subrange(34, 38));
    lemma_value_field(buf, off + 34, ino.gid as nat, 4);
    assert(b.subrange(38, 40) =~= le_bytes(ino.hard_link_count as nat, 2));
    assert(buf.subrange(off + 38, off + 40) =~= b.subrange(38, 40));
    lemma_value_field(buf, off + 38, ino.hard_link_count as nat, 2);
    assert(b.subrange(40, 48) =~= le_bytes(ino.accessed as nat, 8));
    assert(buf.subrange(off + 40, off + 48) =~= b.subrange(40, 48));
    lemma_value_field(buf, off + 40, ino.accessed as nat, 8);
    assert(b.subrange(48, 56) =~= le_bytes(ino.modified as nat, 8));
    assert(buf.subrange(off + 48, off + 56) =~= b.subrange(48, 56));
    lemma_value_field(buf, off + 48, ino.modified as nat, 8);
    assert(b.subrange(56, 64) =~= le_bytes(ino.created as nat, 8));
    assert(buf.subrange(off + 56, off + 64) =~= b.subrange(56, 64));
    lemma_value_field(buf, off + 56, ino.created as nat, 8);
}

pub proof fn lemma_inode_bytes_len(ino: Inode)
    ensures
        inode_bytes(ino).len() == 64,
{
    lemma_le_bytes_len(ino.num as nat, 4);
    lemma_le_bytes_len(ino.first_block as nat, 8);
    lemma_le_bytes_len(ino.end_block as nat, 8);
    lemma_le_bytes_len(ino.total_file_size as nat, 8);
    lemma_le_bytes_len(ino.perms as nat, 2);
    lemma_le_bytes_len(ino.uid as nat, 4);
    lemma_le_bytes_len(ino.gid as nat, 4);
    lemma_le_bytes_len(ino.hard_link_count as nat, 2);
    lemma_le_bytes_len(ino.accessed as nat, 8);
    lemma_le_bytes_len(ino.modified as nat, 8);
    lemma_le_bytes_len(ino.created as nat, 8);
}

/// Record `k` of a table's bytes is entry `k` of the table.
pub proof fn lemma_table_slot(t: Seq<Inode>, k: int)
    requires
        0 <= k < t.len(),
    ensures
        table_bytes(t).len() == 64 * t.len(),
        table_bytes(t).subrange(64 * k, 64 * k + 64) == inode_bytes(t[k]),
    decreases t.len(),
{
    lemma_table_len(t);
    let p = t.drop_last();
    lemma_table_len(p);
    lemma_inode_bytes_len(t.last());
    if k < t.len() - 1 {
        lemma_table_slot(p, k);
        assert(table_bytes(t).subrange(64 * k, 64 * k + 64) =~= table_bytes(p).subrange(64 * k, 64 * k + 64));
    } else {
        assert(table_bytes(t).subrange(64 * k, 64 * k + 64) =~= inode_bytes(t.last()));
    }
}

pub proof fn lemma_table_len(t: Seq<Inode>)
    ensures
        table_bytes(t).len() == 64 * t.len(),
    decreases t.len(),
{
    if t.len() > 0 {
        lemma_table_len(t.drop_last());
        lemma_inode_bytes_len(t.last());
    }
}

} // verus!

verus! {

/// Whether a record's extent is well-formed and lies within `nblocks` blocks.
fn check_extent(ino: &Inode, bs: u32, nblocks: u64) -> (r: bool)
    ensures
        r == raw_extent_ok(*ino, bs as int, nblocks as int),
{
    if ino.first_block > 0 && ino.first_block - 1 > ino.end_block {
        return false;
    }
    let blocks: u128 = ino.end_block as u128 + 1 - ino.first_block as u128;
    assert(blocks == extent_blocks(*ino));
    assert(blocks * bs <= 0x1_0000_0000_0000_0000 * 0x1_0000_0000) by (nonlinear_arith)
        requires
            blocks <= 0x1_0000_0000_0000_0000,
            bs < 0x1_0000_0000,
    ;
    if ino.total_file_size as u128 > blocks * (bs as u128) {
        return false;
    }
    if ino.first_block <= ino.end_block && ino.end_block >= nblocks {
        return false;
    }
    true
}


/// Reads and checks the `ic` records of the table at `ts`.
fn read_table(buf: &[u8], ts: usize, ic: u32, bs: u32, nblocks: u64, imap: &Vec<u8>) -> (r: Option<Vec<Inode>>)
    requires
        ts == img_table_start(buf@),
        ic == img_inode_count(buf@),
        ts + 64 * ic <= buf@.len(),
        bs == img_block_size(buf@),
        nblocks == (img_block_count(buf@) / 8) * 8,
        imap@ == buf@.subrange(32, ts as int),
        imap@.len() == ic / 8,
        ic % 8 == 0,
    ensures
        r is Some <==> forall|k: int| 0 <= k < ic && (#[trigger] inode_at(buf@, ts + 64 * k)).num != 0 ==> {
            &&& raw_extent_ok(inode_at(buf@, ts + 64 * k), bs as int, nblocks as int)
            &&& bit(imap@, k)
        },
        r matches Some(t) ==> t@.len() == ic && forall|j: int| 0 <= j < ic ==> #[trigger] t@[j] == inode_at(buf@, ts + 64 * j),
{
    let len: usize = buf.len();
    let ds: usize = ts + 64 * (ic as usize);
    let mut table: Vec<Inode> = Vec::new();
    let mut k: usize = 0;
    while k < ic as usize
        invariant
            len == buf@.len(),
            ts == img_table_start(buf@),
            ic == img_inode_count(buf@),
            ds == ts + 64 * ic,
            ds <= len,
            bs == img_block_size(buf@),
            nblocks == (img_block_count(buf@) / 8) * 8,
            imap@ == buf@.subrange(32, ts as int),
            imap@.len() == ic / 8,
            ic % 8 == 0,
            k <= ic,
            table@.len() == k,
            forall|j: int| 0 <= j < k ==> #[trigger] table@[j] == inode_at(buf@, ts + 64 * j),
            forall|j: int| 0 <= j < k && (#[trigger] inode_at(buf@, ts + 64 * j)).num != 0 ==> {
                &&& raw_extent_ok(inode_at(buf@, ts + 64 * j), bs as int, nblocks as int)
                &&& bit(imap@, j)
            },
        decreases ic - k,
    {
        let off: usize = ts + 64 * k;
        let ino = Inode {
            num: read_le(buf, off, 4) as u32,
            first_block: read_le(buf, off + 4, 8),
            end_block: read_le(buf, off + 12, 8),
            total_file_size: read_le(buf, off + 20, 8),
            perms: read_le(buf, off + 28, 2) as u16,
            uid: read_le(buf, off + 30, 4) as u32,
            gid: read_le(buf, off + 34, 4) as u32,
            hard_link_count: read_le(buf, off + 38, 2) as u16,
            accessed: read_le(buf, off + 40, 8),
            modified: read_le(buf, off + 48, 8),
            created: read_le(buf, off + 56, 8),
        };
        proof {
            lemma_field_bytes(buf@, off as int, 4);
            lemma_field_bytes(buf@, off + 28, 2);
            lemma_field_bytes(buf@, off + 30, 4);
            lemma_field_bytes(buf@, off + 34, 4);
            lemma_field_bytes(buf@, off + 38, 2);
            assert(ino == inode_at(buf@, off as int));
        }
        if ino.num != 0 {
            if !check_extent(&ino, bs, nblocks) {
                return None;
            }
            if !crate::bitmap::test_bit(imap, k as u64) {
                return None;
            }
        }
        table.push(ino);
        k = k + 1;
    }
    Some(table)
}

impl FileSystem {
    /// Reads a filesystem back from its image. Fails on a buffer that is not
    /// the exact image of a well-formed filesystem: a short buffer, an unknown
    /// magic number, counts that are not multiples of 8 and 256, a length other
    /// than the one the counts give, or a live record that lies outside the
    /// data region or whose inode bit is clear.
    pub fn from_bytes(buf: &[u8]) -> (r: Option<Self>)
        ensures
            r is Some <==> image_ok(buf@),
            r matches Some(fs) ==> fs.wf() && fs.image() == buf@,
    {
        let len: usize = buf.len();
        if len < 32 {
            return None;
        }
        let mag: u64 = read_le(buf, 0, 8);
        let version = match FileSystemVersion::from(mag) {
            None => {
                return None;
            },
            Some(v) => v,
        };
        proof {
            lemma_pow256_facts(0);
            crate::le::lemma_le_value_bound(buf@.subrange(16, 20));
            crate::le::lemma_le_value_bound(buf@.subrange(20, 24));
        }
        let data_size: u64 = read_le(buf, 8, 8);
        let ic: u32 = read_le(buf, 16, 4) as u32;
        let bs: u32 = read_le(buf, 20, 4) as u32;
        let bc: u64 = read_le(buf, 24, 8);
        if ic % 8 != 0 || bs % 256 != 0 || bs == 0 {
            return None;
        }
        assert(bc * bs <= 0x1_0000_0000_0000_0000 * 0x1_0000_0000) by (nonlinear_arith)
            requires
                bc < 0x1_0000_0000_0000_0000,
                bs < 0x1_0000_0000,
        ;
        let region: u128 = (bc as u128) * (bs as u128);
        let end: u128 = 32u128 + (ic / 8) as u128 + 64u128 * ic as u128 + (bc / 8) as u128 + region;
        if end != len as u128 || len as u128 + bs as u128 > usize::MAX as u128 {
            return None;
        }
        let sup = Superblock { magic: mag, data_size, inode_count: ic, data_block_size: bs, block_count: bc, version };
        let ts: usize = 32 + (ic / 8) as usize;
        let ds: usize = ts + 64 * (ic as usize);
        let dd: usize = ds + (bc / 8) as usize;
        let imap = crate::vfs::infs::read_at_slice(buf, 32, (ic / 8) as usize);
        let nblocks: u64 = (bc / 8) * 8;
        let table = match read_table(buf, ts, ic, bs, nblocks, &imap) {
            None => {
                proof {
                    let ghost b = buf@;
                    assert(!image_ok(b)) by {
                        if image_ok(b) {
                            assert forall|k: int| 0 <= k < ic && (#[trigger] inode_at(b, ts + 64 * k)).num != 0 implies {
                                &&& raw_extent_ok(inode_at(b, ts + 64 * k), bs as int, nblocks as int)
                                &&& bit(imap@, k)
                            } by {
                                assert(inode_at(b, img_table_start(b) + 64 * k).num != 0);
                            }
                        }
                    }
                }
                return None;
            },
            Some(t) => t,
        };
        let dmap = crate::vfs::infs::read_at_slice(buf, ds, (bc / 8) as usize);
        let data = crate::vfs::infs::read_at_slice(buf, dd, len - dd);
        let fs = FileSystem { sup, inode_use_cache: imap, inodes: table, data_use_table: dmap, data };
        proof {
            assert(table@.len() == ic);
            lemma_header_of(buf@);
            lemma_table_of(buf@, ts as int, table@);
            assert(fs.image() =~= buf@);
        }
        Some(fs)
    }
}

/// The header of a buffer, read field by field, gives its first 32 bytes back.
proof fn lemma_header_of(buf: Seq<u8>)
    requires
        buf.len() >= 32,
        field(buf, 0, 8) == MAGIC_V1,
    ensures
        forall|sup: Superblock| sup.magic == field(buf, 0, 8) && sup.data_size == field(buf, 8, 8)
            && sup.inode_count == field(buf, 16, 4) && sup.data_block_size == field(buf, 20, 4)
            && sup.block_count == field(buf, 24, 8) ==> #[trigger] header_bytes(sup) == buf.subrange(0, 32),
{
    lemma_field_bytes(buf, 0, 8);
    lemma_field_bytes(buf, 8, 8);
    lemma_field_bytes(buf, 16, 4);
    lemma_field_bytes(buf, 20, 4);
    lemma_field_bytes(buf, 24, 8);
    assert forall|sup: Superblock| sup.magic == field(buf, 0, 8) && sup.data_size == field(buf, 8, 8)
        && sup.inode_count == field(buf, 16, 4) && sup.data_block_size == field(buf, 20, 4)
        && sup.block_count == field(buf, 24, 8) implies #[trigger] header_bytes(sup) == buf.subrange(0, 32) by {
        assert(header_bytes(sup) =~= buf.subrange(0, 32));
    }
}

/// A table read record by record gives its bytes back.
proof fn lemma_table_of(buf: Seq<u8>, ts: int, t: Seq<Inode>)
    requires
        0 <= ts,
        ts + 64 * t.len() <= buf.len(),
        forall|j: int| 0 <= j < t.len() ==> #[trigger] t[j] == inode_at(buf, ts + 64 * j),
    ensures
        table_bytes(t) == buf.subrange(ts, ts + 64 * t.len()),
    decreases t.len(),
{
    if t.len() > 0 {
        let p = t.drop_last();
        assert forall|j: int| 0 <= j < p.len() implies #[trigger] p[j] == inode_at(buf, ts + 64 * j) by {
            assert(p[j] == t[j]);
        }
        lemma_table_of(buf, ts, p);
        let off = ts + 64 * (t.len() - 1);
        assert(t.last() == t[t.len() - 1]);
        lemma_inode_bytes_of(buf, off);
        assert(table_bytes(t) =~= buf.subrange(ts, ts + 64 * t.len()));
    } else {
        assert(table_bytes(t) =~= buf.subrange(ts, ts));
    }
}

} // verus!

verus! {

/// What reading the image of a well-formed filesystem finds in it.
proof fn lemma_image_parts(a: FileSystem)
    requires
        a.wf(),
    ensures
        ({
            let img = a.image();
            let ic = a.sup.inode_count as int;
            let ts = 32 + ic / 8;
            let ds = ts + 64 * ic;
            let dd = ds + a.sup.block_count / 8;
            &&& img.len() == image_len(ic, a.bs(), a.sup.block_count as int)
            &&& field(img, 0, 8) == a.sup.magic
            &&& field(img, 8, 8) == a.sup.data_size
            &&& img_inode_count(img) == ic
            &&& img_block_size(img) == a.bs()
            &&& img_block_count(img) == a.sup.block_count
            &&& img_table_start(img) == ts
            &&& img.subrange(32, ts) == a.inode_use_cache@
            &&& img.subrange(ts, ds) == table_bytes(a.inodes@)
            &&& img.subrange(ds, dd) == a.data_use_table@
            &&& img.subrange(dd, img.len() as int) == a.data@
            &&& forall|k: int| 0 <= k < ic ==> #[trigger] inode_at(img, ts + 64 * k) == a.inodes@[k]
        }),
{
    let img = a.image();
    let ic = a.sup.inode_count as int;
    let ts = 32 + ic / 8;
    let ds = ts + 64 * ic;
    let dd = ds + a.sup.block_count / 8;
    let h = header_bytes(a.sup);
    lemma_pow256_facts(0);
    lemma_le_bytes_len(a.sup.magic as nat, 8);
    lemma_le_bytes_len(a.sup.data_size as nat, 8);
    lemma_le_bytes_len(a.sup.inode_count as nat, 4);
    lemma_le_bytes_len(a.sup.data_block_size as nat, 4);
    lemma_le_bytes_len(a.sup.block_count as nat, 8);
    lemma_table_len(a.inodes@);
    assert(h.len() == 32);
    assert(img.subrange(0, 8) =~= le_bytes(a.sup.magic as nat, 8));
    lemma_value_field(img, 0, a.sup.magic as nat, 8);
    assert(img.subrange(8, 16) =~= le_bytes(a.sup.data_size as nat, 8));
    lemma_value_field(img, 8, a.sup.data_size as nat, 8);
    assert(img.subrange(16, 20) =~= le_bytes(a.sup.inode_count as nat, 4));
    lemma_value_field(img, 16, a.sup.inode_count as nat, 4);
    assert(img.subrange(20, 24) =~= le_bytes(a.sup.data_block_size as nat, 4));
    lemma_value_field(img, 20, a.sup.data_block_size as nat, 4);
    assert(img.subrange(24, 32) =~= le_bytes(a.sup.block_count as nat, 8));
    lemma_value_field(img, 24, a.sup.block_count as nat, 8);
    assert(img.subrange(32, ts) =~= a.inode_use_cache@);
    assert(img.subrange(ts, ds) =~= table_bytes(a.inodes@));
    assert(img.subrange(ds, dd) =~= a.data_use_table@);
    assert(img.subrange(dd, img.len() as int) =~= a.data@);
    assert forall|k: int| 0 <= k < ic implies #[trigger] inode_at(img, ts + 64 * k) == a.inodes@[k] by {
        lemma_table_slot(a.inodes@, k);
        assert(img.subrange(ts + 64 * k, ts + 64 * k + 64) =~= table_bytes(a.inodes@).subrange(64 * k, 64 * k + 64));
        lemma_inode_decode(img, ts + 64 * k, a.inodes@[k]);
    }
}

/// Round trip: the image of a well-formed filesystem is accepted when read
/// back, and any well-formed filesystem with that image equals the first in
/// superblock, both use maps, inode table and data region. With the
/// contracts of `to_bytes` and `from_bytes`, `from_bytes(&fs.to_bytes())`
/// returns a filesystem equal to `fs`.
pub proof fn lemma_image_round_trip(a: FileSystem, b: FileSystem)
    requires
        a.wf(),
    ensures
        image_ok(a.image()),
        b.wf() && b.image() == a.image() ==> b.same(&a),
{
    let img = a.image();
    lemma_image_parts(a);
    let ts = img_table_start(img);
    assert forall|k: int| 0 <= k < img_inode_count(img) && (#[trigger] inode_at(img, img_table_start(img) + 64 * k)).num != 0 implies {
        &&& raw_extent_ok(inode_at(img, img_table_start(img) + 64 * k), img_block_size(img), (img_block_count(img) / 8) * 8)
        &&& bit(img.subrange(32, img_table_start(img)), k)
    } by {
        assert(inode_at(img, ts + 64 * k) == a.inodes@[k]);
        assert(a.inodes@[k].num != 0);
    }
    if b.wf() && b.image() == img {
        lemma_image_parts(b);
        assert(b.sup == a.sup);
        assert(b.inodes@ =~= a.inodes@) by {
            assert forall|k: int| 0 <= k < a.inodes@.len() implies b.inodes@[k] == a.inodes@[k] by {
                assert(inode_at(img, ts + 64 * k) == a.inodes@[k]);
            }
        }
    }
}

} // verus!
