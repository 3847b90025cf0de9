//! INFS: a contiguous-extent filesystem held entirely in memory.
//!
//! Layout of an image, all integers little-endian: a 32-byte superblock, the
//! inode-use map, the inode table (64 bytes per inode), the block-use map and
//! the data region.
use vstd::prelude::*;
use crate::bitmap::{bit, clear_bit, clear_range, first_free_from_one, first_free_run, free_run, nbits, set_bit, set_range, test_bit};
use crate::common::{ceil_div, cstr_prefix, fastceildiv};
use crate::le::{le_bytes, le_value, pow256, push_le, read_le};
use crate::vfs::dentry::{
    decode, encode, lemma_decode_encoded, lemma_encode_len, name_is, name_slot, name_to_slot, names_sized, all_present,
    slot_name_is, Dentry, DentryEntry, EntryView,
};
use crate::vfs::{FileDescriptor, VfsErrno, VfsResult};

verus! {

/// Magic number of version 1 images.
pub const MAGIC_V1: u64 = 0x1815f05f7470ff65;

/// Permission bits masked out of newly created files and directories.
pub const UMASK: u16 = 0o022;

pub const SUPERBLOCK_LEN: usize = 32;

pub const INODE_LEN: usize = 64;

/// Version of an image, as its magic number gives it.
#[derive(Clone, Copy, Debug, PartialEq, Eq, Structural)]
pub enum FileSystemVersion {
    V1,
}

impl FileSystemVersion {
    /// The version whose magic number is `inp`.
    pub fn from(inp: u64) -> (r: Option<Self>)
        ensures
            r == (if inp == MAGIC_V1 { Some(FileSystemVersion::V1) } else { None::<FileSystemVersion> }),
    {
        if inp == MAGIC_V1 {
            Some(FileSystemVersion::V1)
        } else {
            None
        }
    }
}

/// The fixed header of an image.
#[derive(Clone, Copy, Debug, PartialEq, Eq, Structural)]
pub struct Superblock {
    pub magic: u64,
    /// `block_count * data_block_size`, for information.
    pub data_size: u64,
    /// A multiple of 8.
    pub inode_count: u32,
    /// A multiple of 256.
    pub data_block_size: u32,
    pub block_count: u64,
    /// Determined by `magic`; not stored.
    pub version: FileSystemVersion,
}

/// The superblock of a version 1 filesystem with these counts.
pub open spec fn sup_of(inodes: u32, block_size: u32, num_blocks: u64) -> Superblock {
    Superblock {
        magic: MAGIC_V1,
        data_size: (block_size as int * num_blocks) as u64,
        inode_count: inodes,
        data_block_size: block_size,
        block_count: num_blocks,
        version: FileSystemVersion::V1,
    }
}

/// The superblock of a new version 1 filesystem.
pub fn get_sup(inodes: u32, block_size: u32, num_blocks: u64) -> (r: Superblock)
    requires
        block_size as int * num_blocks <= u64::MAX,
    ensures
        r == sup_of(inodes, block_size, num_blocks),
        r.magic == MAGIC_V1,
        r.data_size == block_size as int * num_blocks,
        r.inode_count == inodes,
        r.data_block_size == block_size,
        r.block_count == num_blocks,
        r.version == FileSystemVersion::V1,
{
    Superblock {
        magic: MAGIC_V1,
        data_size: (block_size as u64) * num_blocks,
        inode_count: inodes,
        data_block_size: block_size,
        block_count: num_blocks,
        version: FileSystemVersion::V1,
    }
}

/// One inode record.
#[derive(Clone, Copy, Debug, PartialEq, Eq, Structural)]
pub struct Inode {
    /// 0 marks a free record.
    pub num: u32,
    pub first_block: u64,
    pub end_block: u64,
    pub total_file_size: u64,
    /// Top four bits: the type tag; low twelve bits: the mode.
    pub perms: u16,
    pub uid: u32,
    pub gid: u32,
    pub hard_link_count: u16,
    pub accessed: u64,
    pub modified: u64,
    pub created: u64,
}

/// What an inode holds, by the type tag of its mode.
#[derive(Clone, Copy, Debug, PartialEq, Eq, Structural)]
pub enum DirType {
    File,
    Dir,
    Symlink,
    Hardlink,
}

pub open spec fn type_tag(perms: u16) -> int {
    (perms / 4096) as int
}

pub open spec fn empty_inode() -> Inode {
    Inode {
        num: 0,
        first_block: 0,
        end_block: 0,
        total_file_size: 0,
        perms: 0,
        uid: 0,
        gid: 0,
        hard_link_count: 0,
        accessed: 0,
        modified: 0,
        created: 0,
    }
}

/// Number of blocks of an inode's extent `[first_block, end_block]`.
pub open spec fn extent_blocks(ino: Inode) -> int {
    ino.end_block + 1 - ino.first_block
}

/// Block `k` lies in the extent of `ino`.
pub open spec fn in_extent(ino: Inode, k: int) -> bool {
    ino.first_block <= k <= ino.end_block
}

impl Inode {
    /// A free record.
    pub fn empty() -> (r: Inode)
        ensures
            r == empty_inode(),
    {
        Inode {
            num: 0,
            first_block: 0,
            end_block: 0,
            total_file_size: 0,
            perms: 0,
            uid: 0,
            gid: 0,
            hard_link_count: 0,
            accessed: 0,
            modified: 0,
            created: 0,
        }
    }

    /// The type that the mode's tag names.
    pub fn get_dirtype(&self) -> (r: DirType)
        requires
            type_tag(self.perms) < 4,
        ensures
            type_tag(self.perms) == 0 ==> r == DirType::File,
            type_tag(self.perms) == 1 ==> r == DirType::Dir,
            type_tag(self.perms) == 2 ==> r == DirType::Symlink,
            type_tag(self.perms) == 3 ==> r == DirType::Hardlink,
    {
        let t: u16 = tag_of(self.perms);
        if t == 0 {
            DirType::File
        } else if t == 1 {
            DirType::Dir
        } else if t == 2 {
            DirType::Symlink
        } else {
            DirType::Hardlink
        }
    }

    /// Whether the mode tags a directory.
    pub fn is_dir(&self) -> (r: bool)
        ensures
            r == (type_tag(self.perms) == 1),
    {
        let t: u16 = tag_of(self.perms);
        t == 1
    }
}

/// The type tag of a mode.
pub fn tag_of(perms: u16) -> (t: u16)
    ensures
        t == type_tag(perms),
{
    let t: u16 = perms >> 12;
    assert(t == perms / 4096) by (bit_vector)
        requires
            t == perms >> 12,
    ;
    t
}

/// A filesystem: superblock, both use maps, the inode table and the data region.
pub struct FileSystem {
    pub sup: Superblock,
    pub inode_use_cache: Vec<u8>,
    pub inodes: Vec<Inode>,
    pub data_use_table: Vec<u8>,
    pub data: Vec<u8>,
}

/// The extent of a record is well-formed and lies within `nblocks` blocks of
/// `bs` bytes.
pub open spec fn raw_extent_ok(ino: Inode, bs: int, nblocks: int) -> bool {
    &&& ino.first_block <= ino.end_block + 1
    &&& ino.total_file_size <= extent_blocks(ino) * bs
    &&& ino.first_block <= ino.end_block ==> ino.end_block < nblocks
}

/// Length of the image of a filesystem with these counts.
pub open spec fn image_len(inode_count: int, block_size: int, block_count: int) -> int {
    32 + inode_count / 8 + 64 * inode_count + block_count / 8 + block_count * block_size
}

impl FileSystem {
    pub open spec fn bs(&self) -> int {
        self.sup.data_block_size as int
    }

    pub open spec fn icount(&self) -> int {
        self.sup.inode_count as int
    }

    pub open spec fn ino(&self, i: int) -> Inode {
        self.inodes@[i]
    }

    /// Whether `i` names an inode in use: in range, not 0, record not free.
    pub open spec fn live(&self, i: int) -> bool {
        0 < i < self.icount() && self.inodes@[i].num != 0
    }

    pub open spec fn is_dir_at(&self, i: int) -> bool {
        self.live(i) && type_tag(self.inodes@[i].perms) == 1
    }

    /// The extent of a record is well-formed and lies in the block-use map.
    pub open spec fn extent_ok(&self, ino: Inode) -> bool {
        raw_extent_ok(ino, self.bs(), nbits(self.data_use_table@))
    }

    /// The structural invariant of a filesystem.
    pub open spec fn wf(&self) -> bool {
        &&& self.sup.magic == MAGIC_V1
        &&& self.sup.version == FileSystemVersion::V1
        &&& self.sup.inode_count % 8 == 0
        &&& self.sup.data_block_size % 256 == 0
        &&& self.sup.data_block_size > 0
        &&& self.inode_use_cache@.len() == self.icount() / 8
        &&& self.inodes@.len() == self.icount()
        &&& self.data_use_table@.len() == self.sup.block_count / 8
        &&& self.data@.len() == self.sup.block_count * self.bs()
        &&& image_len(self.icount(), self.bs(), self.sup.block_count as int) + self.bs() <= usize::MAX
        &&& forall|i: int| 0 <= i < self.icount() && (#[trigger] self.inodes@[i]).num != 0 ==> self.extent_ok(self.inodes@[i])
        &&& forall|i: int| 0 <= i < self.icount() && (#[trigger] self.inodes@[i]).num != 0 ==> bit(self.inode_use_cache@, i)
    }

    /// The bytes of a record's file.
    pub open spec fn content_of(&self, ino: Inode) -> Seq<u8> {
        if ino.total_file_size == 0 {
            Seq::empty()
        } else {
            let s = ino.first_block * self.bs();
            self.data@.subrange(s, s + ino.total_file_size)
        }
    }

    pub open spec fn content(&self, i: int) -> Seq<u8> {
        self.content_of(self.inodes@[i])
    }

    /// The entries of directory `i`.
    pub open spec fn entries(&self, i: int) -> Seq<EntryView> {
        decode(self.content(i))
    }

    /// Inode `i` is a live directory, whose content is read as a list of slots.
    pub open spec fn dir_readable(&self, i: int) -> bool {
        self.is_dir_at(i)
    }

    /// Whether directory content `es` names `name`.
    pub open spec fn has_name(es: Seq<EntryView>, name: Seq<u8>) -> bool {
        exists|k: int| 0 <= k < es.len() && name_is(#[trigger] es[k].1, name)
    }

    /// The filesystem, its block-use map aside, is that of `o`.
    pub open spec fn same_but_blocks(&self, o: &FileSystem) -> bool {
        &&& self.sup == o.sup
        &&& self.inode_use_cache@ == o.inode_use_cache@
        &&& self.inodes@ == o.inodes@
        &&& self.data@ == o.data@
    }

    /// Whether `inode` names an inode in use.
    pub fn check_inode(&self, inode: u32) -> (r: bool)
        requires
            self.wf(),
        ensures
            r == self.live(inode as int),
    {
        !(inode == 0 || inode >= self.sup.inode_count || self.inodes[inode as usize].num == 0)
    }

    /// Frees inode `inode`: clears its bit and its record.
    pub fn clear_inode(&mut self, inode: u32) -> (r: VfsResult)
        requires
            old(self).wf(),
            inode < old(self).icount(),
        ensures
            r is Ok,
            final(self).wf(),
            final(self).sup == old(self).sup,
            final(self).data_use_table@ == old(self).data_use_table@,
            final(self).data@ == old(self).data@,
            final(self).inodes@ == old(self).inodes@.update(inode as int, empty_inode()),
            final(self).inode_use_cache@.len() == old(self).inode_use_cache@.len(),
            forall|j: int| 0 <= j < old(self).icount() ==> #[trigger] bit(final(self).inode_use_cache@, j) == (bit(old(self).inode_use_cache@, j) && j != inode),
    {
        clear_bit(&mut self.inode_use_cache, inode as u64);
        self.inodes.set(inode as usize, Inode::empty());
        Ok(())
    }

    /// Frees blocks `[sb, eb]` and zero-fills their bytes.
    pub fn clear_data(&mut self, sb: u64, eb: u64) -> (r: VfsResult)
        requires
            old(self).wf(),
            sb <= eb,
            eb < nbits(old(self).data_use_table@),
        ensures
            r is Ok,
            final(self).wf(),
            final(self).sup == old(self).sup,
            final(self).inode_use_cache@ == old(self).inode_use_cache@,
            final(self).inodes@ == old(self).inodes@,
            final(self).data_use_table@.len() == old(self).data_use_table@.len(),
            forall|j: int| 0 <= j < nbits(old(self).data_use_table@) ==> #[trigger] bit(final(self).data_use_table@, j) == (bit(old(self).data_use_table@, j) && !(sb <= j <= eb)),
            final(self).data@.len() == old(self).data@.len(),
            forall|k: int| 0 <= k < old(self).data@.len() ==> #[trigger] final(self).data@[k] == (if sb * old(self).bs() <= k < (eb + 1) * old(self).bs() { 0u8 } else { old(self).data@[k] }),
    {
        clear_range(&mut self.data_use_table, sb, eb + 1);
        let s: u64 = self.sup.data_block_size as u64;
        proof {
            self.lemma_block_bound(eb as int);
            assert(sb * s <= (eb + 1) * s) by (nonlinear_arith)
                requires
                    sb <= eb + 1,
            ;
        }
        zero_at(&mut self.data, (sb * s) as usize, ((eb + 1) * s) as usize);
        Ok(())
    }

    /// Blocks of the block-use map lie in the data region.
    pub proof fn lemma_block_bound(&self, k: int)
        requires
            self.data_use_table@.len() == self.sup.block_count / 8,
            self.data@.len() == self.sup.block_count * self.bs(),
            self.bs() > 0,
            0 <= k < nbits(self.data_use_table@),
        ensures
            (k + 1) * self.bs() <= self.data@.len(),
            k * self.bs() < self.data@.len(),
            (k + 1) <= self.sup.block_count,
    {
        let b = self.bs();
        let n = self.sup.block_count as int;
        assert(self.data_use_table@.len() * 8 <= n);
        assert((k + 1) * b <= n * b && k * b < (k + 1) * b) by (nonlinear_arith)
            requires
                k + 1 <= n,
                b > 0,
        ;
    }

    /// Takes the lowest free inode number above 0.
    pub fn alloc_inode(&mut self) -> (r: Option<u32>)
        requires
            old(self).wf(),
        ensures
            final(self).sup == old(self).sup,
            final(self).inodes@ == old(self).inodes@,
            final(self).data_use_table@ == old(self).data_use_table@,
            final(self).data@ == old(self).data@,
            final(self).wf(),
            r is None <==> forall|j: int| 1 <= j < old(self).icount() ==> bit(old(self).inode_use_cache@, j),
            r is None ==> final(self).inode_use_cache@ == old(self).inode_use_cache@,
            r matches Some(k) ==> {
                &&& 1 <= k < old(self).icount()
                &&& !bit(old(self).inode_use_cache@, k as int)
                &&& forall|j: int| 1 <= j < k ==> bit(old(self).inode_use_cache@, j)
                &&& old(self).inodes@[k as int].num == 0
                &&& final(self).inode_use_cache@.len() == old(self).inode_use_cache@.len()
                &&& forall|j: int| 0 <= j < old(self).icount() ==> #[trigger] bit(final(self).inode_use_cache@, j) == (bit(old(self).inode_use_cache@, j) || j == k)
            },
    {
        let f = first_free_from_one(&self.inode_use_cache);
        match f {
            None => None,
            Some(k) => {
                set_bit(&mut self.inode_use_cache, k);
                Some(k as u32)
            },
        }
    }

    /// Takes the lowest run of `blocks` free blocks and returns its first block.
    pub fn alloc_data(&mut self, blocks: u64) -> (r: Option<u64>)
        requires
            old(self).wf(),
        ensures
            final(self).same_but_blocks(old(self)),
            final(self).wf(),
            r is None <==> (blocks == 0 || forall|t: int| !free_run(old(self).data_use_table@, t, blocks as int)),
            r is None ==> final(self).data_use_table@ == old(self).data_use_table@,
            r matches Some(s) ==> {
                &&& free_run(old(self).data_use_table@, s as int, blocks as int)
                &&& forall|t: int| 0 <= t < s ==> !free_run(old(self).data_use_table@, t, blocks as int)
                &&& final(self).data_use_table@.len() == old(self).data_use_table@.len()
                &&& forall|j: int| 0 <= j < nbits(old(self).data_use_table@) ==> #[trigger] bit(final(self).data_use_table@, j) == (bit(old(self).data_use_table@, j) || (s <= j < s + blocks))
            },
    {
        let f = first_free_run(&self.data_use_table, blocks);
        match f {
            None => None,
            Some(s) => {
                set_range(&mut self.data_use_table, s, s + blocks);
                Some(s)
            },
        }
    }
}

/// Writes `buf` into `data` at `at`.
pub fn write_at(data: &mut Vec<u8>, at: usize, buf: &[u8])
    requires
        at + buf@.len() <= old(data)@.len(),
    ensures
        final(data)@.len() == old(data)@.len(),
        forall|k: int| 0 <= k < old(data)@.len() ==> #[trigger] final(data)@[k] == (if at <= k < at + buf@.len() { buf@[k - at] } else { old(data)@[k] }),
{
    let _len: usize = data.len();
    let mut j: usize = 0;
    while j < buf.len()
        invariant
            _len == old(data)@.len(),
            j <= buf@.len(),
            at + buf@.len() <= old(data)@.len(),
            data@.len() == old(data)@.len(),
            forall|k: int| 0 <= k < old(data)@.len() ==> #[trigger] data@[k] == (if at <= k < at + j { buf@[k - at] } else { old(data)@[k] }),
        decreases buf@.len() - j,
    {
        data.set(at + j, buf[j]);
        j = j + 1;
    }
}

/// Zero-fills `data[from..to]`.
pub fn zero_at(data: &mut Vec<u8>, from: usize, to: usize)
    requires
        from <= to <= old(data)@.len(),
    ensures
        final(data)@.len() == old(data)@.len(),
        forall|k: int| 0 <= k < old(data)@.len() ==> #[trigger] final(data)@[k] == (if from <= k < to { 0u8 } else { old(data)@[k] }),
{
    let mut j: usize = from;
    while j < to
        invariant
            from <= j <= to,
            to <= old(data)@.len(),
            data@.len() == old(data)@.len(),
            forall|k: int| 0 <= k < old(data)@.len() ==> #[trigger] data@[k] == (if from <= k < j { 0u8 } else { old(data)@[k] }),
        decreases to - j,
    {
        data.set(j, 0u8);
        j = j + 1;
    }
}

/// A copy of `buf[at..at + n]`.
pub fn read_at_slice(buf: &[u8], at: usize, n: usize) -> (r: Vec<u8>)
    requires
        at + n <= buf@.len(),
    ensures
        r@ == buf@.subrange(at as int, at + n),
{
    let _l: usize = buf.len();
    let mut r: Vec<u8> = Vec::new();
    r.extend_from_slice(crate::vfs::infs::slice_of(buf, at, at + n));
    assert(r@ =~= buf@.subrange(at as int, at + n));
    r
}

/// `buf[from..to]`.
pub fn slice_of(buf: &[u8], from: usize, to: usize) -> (r: &[u8])
    requires
        from <= to <= buf@.len(),
    ensures
        r@ == buf@.subrange(from as int, to as int),
{
    vstd::slice::slice_subrange(buf, from, to)
}

/// A copy of `data[at..at + n]`.
pub fn read_at(data: &Vec<u8>, at: usize, n: usize) -> (r: Vec<u8>)
    requires
        at + n <= data@.len(),
    ensures
        r@ == data@.subrange(at as int, at + n),
{
    let _len: usize = data.len();
    let mut r: Vec<u8> = Vec::new();
    let mut j: usize = 0;
    while j < n
        invariant
            _len == data@.len(),
            j <= n,
            at + n <= data@.len(),
            r@ == data@.subrange(at as int, at + j),
        decreases n - j,
    {
        r.push(data[at + j]);
        j = j + 1;
        assert(r@ =~= data@.subrange(at as int, at + j));
    }
    r
}

} // verus!

verus! {

/// The extents of two records share a block.
pub open spec fn extents_overlap(a: Inode, b: Inode) -> bool {
    a.first_block <= b.end_block && b.first_block <= a.end_block && a.first_block <= a.end_block
        && b.first_block <= b.end_block
}

/// Bytes of the data region that the extent of `ino` covers.
pub open spec fn in_extent_bytes(ino: Inode, bs: int, k: int) -> bool {
    ino.first_block * bs <= k < (ino.end_block + 1) * bs
}

/// A record with a new extent and size, all else kept.
pub open spec fn with_extent(ino: Inode, first: u64, end: u64, size: u64) -> Inode {
    Inode { first_block: first, end_block: end, total_file_size: size, ..ino }
}

impl FileSystem {
    /// Whether `n` bytes of content fit somewhere: they need no block, or the
    /// block-use map holds a free run of enough blocks.
    pub open spec fn room_for(&self, n: int) -> bool {
        let bc = ceil_div(n, self.bs());
        n <= self.data@.len() && (bc == 0 || exists|t: int| free_run(self.data_use_table@, t, bc))
    }

    /// One free run of blocks is long enough for `len` bytes of a new inode
    /// and for the content of a directory of `entries` entries.
    pub open spec fn room_for_new(&self, len: int, entries: int) -> bool {
        let bc = ceil_div(len, self.bs());
        let pbc = ceil_div(256 * entries, self.bs());
        crate::bitmap::has_run(self.data_use_table@, bc + pbc)
    }

    /// The block-use map and the extents agree: every block of a live record's
    /// extent is marked in use, and no two live records share a block.
    pub open spec fn consistent(&self) -> bool {
        &&& forall|i: int, k: int| 0 <= i < self.icount() && self.inodes@[i].num != 0 && #[trigger] in_extent(self.inodes@[i], k)
            ==> bit(self.data_use_table@, k)
        &&& forall|i: int, j: int| 0 <= i < self.icount() && 0 <= j < self.icount() && i != j
            && self.inodes@[i].num != 0 && self.inodes@[j].num != 0
            ==> !#[trigger] extents_overlap(self.inodes@[i], self.inodes@[j])
    }

    /// Every live record but those of `a` and `b` keeps its content.
    pub open spec fn others_kept(&self, o: &FileSystem, a: int, b: int) -> bool {
        forall|j: int| 0 <= j < o.icount() && j != a && j != b && o.inodes@[j].num != 0
            ==> #[trigger] self.content(j) == o.content(j)
    }

    /// Every view of `self` equals that of `o`.
    pub open spec fn same(&self, o: &FileSystem) -> bool {
        self.same_but_blocks(o) && self.data_use_table@ == o.data_use_table@
    }

    /// A record whose extent's bytes are unchanged keeps its content.
    pub proof fn lemma_content_kept(&self, o: &FileSystem, j: int)
        requires
            o.wf(),
            o.live(j) || (0 <= j < o.icount() && o.inodes@[j].num != 0),
            self.inodes@[j] == o.inodes@[j],
            self.bs() == o.bs(),
            self.data@.len() == o.data@.len(),
            forall|k: int| 0 <= k < o.data@.len() && in_extent_bytes(o.inodes@[j], o.bs(), k) ==> self.data@[k] == o.data@[k],
        ensures
            self.content(j) == o.content(j),
    {
        let ino = o.inodes@[j];
        if ino.total_file_size > 0 {
            assert(o.extent_ok(ino));
            let b = o.bs();
            if ino.first_block > ino.end_block {
                assert(extent_blocks(ino) == 0);
                assert(extent_blocks(ino) * b == 0);
            }
            o.lemma_block_bound(ino.end_block as int);
            assert(ino.first_block * b + extent_blocks(ino) * b == (ino.end_block + 1) * b) by (nonlinear_arith)
                requires
                    extent_blocks(ino) == ino.end_block + 1 - ino.first_block,
            ;
            assert(ino.first_block * b + ino.total_file_size <= (ino.end_block + 1) * b);
            assert forall|k: int| 0 <= k < ino.total_file_size implies self.content(j)[k] == o.content(j)[k] by {
                let x = ino.first_block * b + k;
                assert(in_extent_bytes(ino, b, x));
            }
            assert(self.content(j) =~= o.content(j));
        }
    }

    pub proof fn lemma_content_len(&self, i: int)
        requires
            self.wf(),
            self.live(i),
        ensures
            self.content(i).len() == self.inodes@[i].total_file_size,
    {
        if self.inodes@[i].total_file_size > 0 {
            self.lemma_content_bound(i);
        }
    }

    proof fn lemma_content_bound(&self, i: int)
        requires
            self.wf(),
            self.live(i),
            self.inodes@[i].total_file_size > 0,
        ensures
            self.inodes@[i].first_block * self.bs() + self.inodes@[i].total_file_size <= self.data@.len(),
            self.inodes@[i].first_block <= self.inodes@[i].end_block,
    {
        let ino = self.inodes@[i];
        assert(self.extent_ok(ino));
        let b = self.bs();
        if ino.first_block > ino.end_block {
            assert(extent_blocks(ino) == 0);
            assert(extent_blocks(ino) * b == 0);
        }
        self.lemma_block_bound(ino.end_block as int);
        assert(ino.first_block * b + extent_blocks(ino) * b == (ino.end_block + 1) * b) by (nonlinear_arith)
            requires
                extent_blocks(ino) == ino.end_block + 1 - ino.first_block,
        ;
    }

    /// `self` is `o` with the content of inode `i` replaced by `buf` in a
    /// fresh run of blocks: the new run was free, the old extent's blocks are
    /// freed and its bytes zeroed, and every other record and byte is kept.
    pub open spec fn replaced(&self, o: &FileSystem, i: int, buf: Seq<u8>) -> bool {
        let oi = o.inodes@[i];
        let ni = self.inodes@[i];
        let bc = ceil_div(buf.len() as int, o.bs());
        &&& self.sup == o.sup
        &&& self.inode_use_cache@ == o.inode_use_cache@
        &&& self.inodes@ == o.inodes@.update(i, with_extent(oi, ni.first_block, ni.end_block, buf.len() as u64))
        &&& self.content(i) == buf
        &&& extent_blocks(ni) == bc
        &&& bc > 0 ==> free_run(o.data_use_table@, ni.first_block as int, bc)
        &&& self.data_use_table@.len() == o.data_use_table@.len()
        &&& forall|j: int| 0 <= j < nbits(o.data_use_table@) ==> #[trigger] bit(self.data_use_table@, j)
            == ((bit(o.data_use_table@, j) || in_extent(ni, j)) && !in_extent(oi, j))
        &&& forall|k: int| 0 <= k < o.data@.len() && !in_extent_bytes(oi, o.bs(), k) && !in_extent_bytes(ni, o.bs(), k)
            ==> #[trigger] self.data@[k] == o.data@[k]
        &&& forall|k: int| 0 <= k < o.data@.len() && in_extent_bytes(oi, o.bs(), k) && !in_extent_bytes(ni, o.bs(), k)
            ==> #[trigger] self.data@[k] == 0u8
    }

    /// Replaces the content of inode `i` by `buf`, copy-on-write: a fresh run of
    /// blocks is taken first, so that a failure leaves the file as it was; then
    /// the old extent is freed (and zero-filled) and `buf` goes to the new run.
    pub fn overwrite_inode(&mut self, i: u32, buf: &[u8]) -> (r: VfsResult)
        requires
            old(self).wf(),
            old(self).live(i as int),
        ensures
            final(self).wf(),
            r is Ok <==> old(self).room_for(buf@.len() as int),
            r is Err ==> r == Err::<(), VfsErrno>(VfsErrno::ENSTOR) && final(self).same(old(self)),
            r is Ok ==> final(self).replaced(old(self), i as int, buf@),
            r is Ok && old(self).consistent() ==> final(self).consistent() && final(self).others_kept(old(self), i as int, i as int),
    {
        let ghost o = *old(self);
        let len: usize = buf.len();
        if len > self.data.len() {
            proof {
                self.lemma_no_room(len as int);
            }
            return Err(VfsErrno::ENSTOR);
        }
        let bs: u64 = self.sup.data_block_size as u64;
        let bc: u64 = fastceildiv(len as u64, bs);
        let oi: Inode = self.inodes[i as usize];
        let mut fb: u64 = 1;
        if bc > 0 {
            match self.alloc_data(bc) {
                None => {
                    return Err(VfsErrno::ENSTOR);
                },
                Some(s) => {
                    fb = s;
                },
            }
        }
        let ghost mid = *self;
        proof {
            assert(o.extent_ok(oi));
            if bc > 0 {
                self.lemma_block_bound((fb + bc - 1) as int);
            }
        }
        if oi.first_block <= oi.end_block {
            self.clear_data(oi.first_block, oi.end_block);
        }
        let ghost cleared = *self;
        if len > 0 {
            proof {
                assert(len as int <= bc * bs) by (nonlinear_arith)
                    requires
                        bc * bs >= len,
                ;
                assert(fb * bs + bc * bs == (fb + bc) * bs) by (nonlinear_arith);
            }
            write_at(&mut self.data, (fb * bs) as usize, buf);
        }
        let mut ni: Inode = oi;
        ni.first_block = fb;
        ni.end_block = fb + bc - 1;
        ni.total_file_size = len as u64;
        self.inodes.set(i as usize, ni);
        proof {
            assert(self.extent_ok(ni)) by {
                assert(len as int <= bc * bs);
            }
            assert forall|j: int| 0 <= j < self.icount() && (#[trigger] self.inodes@[j]).num != 0 implies self.extent_ok(self.inodes@[j]) by {
                if j != i {
                    assert(self.inodes@[j] == o.inodes@[j]);
                    assert(o.extent_ok(o.inodes@[j]));
                }
            }
            assert forall|j: int| 0 <= j < self.icount() && (#[trigger] self.inodes@[j]).num != 0 implies bit(self.inode_use_cache@, j) by {
                assert(o.inodes@[j].num != 0);
            }
            if len > 0 {
                assert(self.content(i as int) =~= buf@);
            } else {
                assert(self.content(i as int) =~= buf@);
            }
            assert(self.inodes@ =~= o.inodes@.update(i as int, with_extent(oi, ni.first_block, ni.end_block, len as u64)));
            assert forall|j: int| 0 <= j < nbits(o.data_use_table@) implies #[trigger] bit(self.data_use_table@, j)
                == ((bit(o.data_use_table@, j) || in_extent(ni, j)) && !in_extent(oi, j)) by {
                assert(bit(mid.data_use_table@, j) == (bit(o.data_use_table@, j) || (bc > 0 && fb <= j < fb + bc)));
            }
            assert forall|k: int| 0 <= k < o.data@.len() && !in_extent_bytes(oi, o.bs(), k) && !in_extent_bytes(ni, o.bs(), k)
                implies #[trigger] self.data@[k] == o.data@[k] by {
                assert(cleared.data@[k] == o.data@[k]);
                if len > 0 {
                    assert(!((fb * bs) as int <= k < (fb * bs) as int + len));
                }
            }
            assert forall|k: int| 0 <= k < o.data@.len() && in_extent_bytes(oi, o.bs(), k) && !in_extent_bytes(ni, o.bs(), k)
                implies #[trigger] self.data@[k] == 0u8 by {
                assert(oi.first_block <= oi.end_block);
                assert(cleared.data@[k] == 0u8);
                if len > 0 {
                    assert(!((fb * bs) as int <= k < (fb * bs) as int + len)) by {
                        assert(len as int <= bc * bs);
                        assert((fb * bs) as int + len <= (fb + bc) * bs) by (nonlinear_arith)
                            requires
                                len as int <= bc * bs,
                        ;
                    }
                }
            }
        }
        proof {
            if o.consistent() {
                assert forall|k: int| #[trigger] in_extent(self.inodes@[i as int], k) implies 0 <= k < nbits(o.data_use_table@) && !bit(o.data_use_table@, k) by {
                    assert(bc > 0);
                }
                lemma_replace_extent(o, *self, i as int);
            }
        }
        Ok(())
    }

    proof fn lemma_no_room(&self, n: int)
        requires
            self.wf(),
            n > self.data@.len(),
        ensures
            !self.room_for(n),
    {
    }

    /// Gives inode `i`, which owns no blocks yet, the content `buf` in a fresh
    /// run of blocks.
    pub fn install_content(&mut self, i: u32, buf: &[u8]) -> (r: VfsResult)
        requires
            old(self).wf(),
            0 < i < old(self).icount(),
            old(self).inodes@[i as int].num != 0 ==> old(self).extent_ok(old(self).inodes@[i as int]),
        ensures
            final(self).wf(),
            r is Ok <==> old(self).room_for(buf@.len() as int),
            r is Err ==> r == Err::<(), VfsErrno>(VfsErrno::ENSTOR) && final(self).same(old(self)),
            r is Ok ==> {
                let oi = old(self).inodes@[i as int];
                let ni = final(self).inodes@[i as int];
                let bc = ceil_div(buf@.len() as int, old(self).bs());
                &&& final(self).sup == old(self).sup
                &&& final(self).inode_use_cache@ == old(self).inode_use_cache@
                &&& final(self).inodes@ == old(self).inodes@.update(i as int, with_extent(oi, ni.first_block, ni.end_block, buf@.len() as u64))
                &&& final(self).content(i as int) == buf@
                &&& extent_blocks(ni) == bc
                &&& bc > 0 ==> free_run(old(self).data_use_table@, ni.first_block as int, bc)
                &&& bc > 0 ==> forall|t: int| 0 <= t < ni.first_block ==> !free_run(old(self).data_use_table@, t, bc)
                &&& final(self).data_use_table@.len() == old(self).data_use_table@.len()
                &&& forall|j: int| 0 <= j < nbits(old(self).data_use_table@) ==> #[trigger] bit(final(self).data_use_table@, j)
                    == (bit(old(self).data_use_table@, j) || in_extent(ni, j))
                &&& forall|k: int| 0 <= k < old(self).data@.len() && !in_extent_bytes(ni, old(self).bs(), k)
                    ==> #[trigger] final(self).data@[k] == old(self).data@[k]
            },
    {
        let ghost o = *old(self);
        let len: usize = buf.len();
        if len > self.data.len() {
            proof {
                self.lemma_no_room(len as int);
            }
            return Err(VfsErrno::ENSTOR);
        }
        let bs: u64 = self.sup.data_block_size as u64;
        let bc: u64 = fastceildiv(len as u64, bs);
        let oi: Inode = self.inodes[i as usize];
        let mut fb: u64 = 1;
        if bc > 0 {
            match self.alloc_data(bc) {
                None => {
                    return Err(VfsErrno::ENSTOR);
                },
                Some(s) => {
                    fb = s;
                },
            }
        }
        let ghost mid = *self;
        proof {
            if bc > 0 {
                self.lemma_block_bound((fb + bc - 1) as int);
            }
        }
        if len > 0 {
            proof {
                assert(len as int <= bc * bs) by (nonlinear_arith)
                    requires
                        bc * bs >= len,
                ;
                assert(fb * bs + bc * bs == (fb + bc) * bs) by (nonlinear_arith);
            }
            write_at(&mut self.data, (fb * bs) as usize, buf);
        }
        let mut ni: Inode = oi;
        ni.first_block = fb;
        ni.end_block = fb + bc - 1;
        ni.total_file_size = len as u64;
        self.inodes.set(i as usize, ni);
        proof {
            assert(self.extent_ok(ni)) by {
                assert(len as int <= bc * bs);
            }
            assert forall|j: int| 0 <= j < self.icount() && (#[trigger] self.inodes@[j]).num != 0 implies self.extent_ok(self.inodes@[j]) by {
                if j != i {
                    assert(self.inodes@[j] == o.inodes@[j]);
                    assert(o.extent_ok(o.inodes@[j]));
                }
            }
            assert forall|j: int| 0 <= j < self.icount() && (#[trigger] self.inodes@[j]).num != 0 implies bit(self.inode_use_cache@, j) by {
                assert(o.inodes@[j].num != 0);
            }
            assert(self.content(i as int) =~= buf@);
            assert(self.inodes@ =~= o.inodes@.update(i as int, with_extent(oi, ni.first_block, ni.end_block, len as u64)));
            assert forall|k: int| 0 <= k < o.data@.len() && !in_extent_bytes(ni, o.bs(), k)
                implies #[trigger] self.data@[k] == o.data@[k] by {
                if len > 0 {
                    assert(!((fb * bs) as int <= k < (fb * bs) as int + len));
                }
            }
        }
        Ok(())
    }
}

} // verus!

verus! {

impl Dentry {
    /// The entries of directory `inum` of `fs`, when it is one that can be read.
    pub fn from_internal(inum: u32, fs: &FileSystem) -> (r: Option<Dentry>)
        requires
            fs.wf(),
        ensures
            r is Some <==> fs.dir_readable(inum as int),
            r matches Some(d) ==> d.entries() == fs.entries(inum as int) && d.inum == inum
                && names_sized(d.entries()) && all_present(d.entries()),
    {
        if !fs.check_inode(inum) {
            return None;
        }
        let ino: Inode = fs.inodes[inum as usize];
        if !ino.is_dir() {
            return None;
        }
        if ino.total_file_size == 0 {
            let empty: Vec<u8> = Vec::new();
            let d = Dentry::new(empty.as_slice(), inum);
            assert(empty@ =~= fs.content(inum as int));
            return Some(d);
        }
        proof {
            fs.lemma_content_bound(inum as int);
        }
        let bs: u64 = fs.sup.data_block_size as u64;
        let start: usize = (ino.first_block * bs) as usize;
        let buf = read_at(&fs.data, start, ino.total_file_size as usize);
        Some(Dentry::new(buf.as_slice(), inum))
    }

    /// Writes the entries back as the content of the directory. `first` is for
    /// a directory that owns no blocks yet.
    pub fn write_back(self, fs: &mut FileSystem, first: bool) -> (r: VfsResult)
        requires
            old(fs).wf(),
            old(fs).live(self.inum as int) || (first && 0 < self.inum < old(fs).icount()),
            names_sized(self.entries()),
            all_present(self.entries()),
            first && old(fs).inodes@[self.inum as int].num != 0 ==> old(fs).extent_ok(old(fs).inodes@[self.inum as int]),
        ensures
            final(fs).wf(),
            r is Err ==> r == Err::<(), VfsErrno>(VfsErrno::ENSTOR) && final(fs).same(old(fs)),
            r is Err ==> 256 * self.entries().len() > old(fs).data@.len() || old(fs).bs() + old(fs).data@.len() > usize::MAX
                || exists|l: int| 256 * self.entries().len() <= l < 256 * self.entries().len() + old(fs).bs()
                    && l % old(fs).bs() == 0 && !old(fs).room_for(l),
            r is Ok ==> final(fs).entries(self.inum as int) == self.entries()
                && final(fs).inodes@[self.inum as int].total_file_size % 256 == 0
                && final(fs).inodes@[self.inum as int].total_file_size as int % old(fs).bs() == 0
                && 256 * self.entries().len() <= final(fs).inodes@[self.inum as int].total_file_size
                    < 256 * self.entries().len() + old(fs).bs()
                && final(fs).sup == old(fs).sup
                && final(fs).inode_use_cache@ == old(fs).inode_use_cache@
                && final(fs).inodes@ == old(fs).inodes@.update(self.inum as int, with_extent(old(fs).inodes@[self.inum as int],
                    final(fs).inodes@[self.inum as int].first_block, final(fs).inodes@[self.inum as int].end_block,
                    final(fs).inodes@[self.inum as int].total_file_size)),
            !first && r is Ok && old(fs).consistent() ==> final(fs).consistent() && final(fs).others_kept(old(fs), self.inum as int, self.inum as int),
            first && r is Ok ==> forall|k: int| #[trigger] in_extent(final(fs).inodes@[self.inum as int], k) ==> bit(final(fs).data_use_table@, k),
            first && r is Ok ==> {
                let ni = final(fs).inodes@[self.inum as int];
                let bc = ceil_div(ni.total_file_size as int, old(fs).bs());
                &&& extent_blocks(ni) == bc
                &&& final(fs).data_use_table@.len() == old(fs).data_use_table@.len()
                &&& forall|j: int| 0 <= j < nbits(old(fs).data_use_table@) ==> #[trigger] bit(final(fs).data_use_table@, j)
                    == (bit(old(fs).data_use_table@, j) || in_extent(ni, j))
                &&& bc > 0 ==> free_run(old(fs).data_use_table@, ni.first_block as int, bc)
                &&& bc > 0 ==> forall|t: int| 0 <= t < ni.first_block ==> !free_run(old(fs).data_use_table@, t, bc)
            },
    {
        let bs: usize = fs.sup.data_block_size as usize;
        let n: usize = self.intern.len();
        let ghost es = self.entries();
        let dl: usize = fs.data.len();
        if n > dl / 256 || bs > usize::MAX - dl {
            return Err(VfsErrno::ENSTOR);
        }
        assert(256 * es.len() + bs <= usize::MAX) by {
            assert(es.len() == n);
            assert(256 * n <= dl);
        }
        let ba = self.encode_padded(bs);
        assert(256 * es.len() <= ba@.len() < 256 * es.len() + bs && ba@.len() as int % (bs as int) == 0);
        let r = if first {
            fs.install_content(self.inum, ba.as_slice())
        } else {
            fs.overwrite_inode(self.inum, ba.as_slice())
        };
        proof {
            if r is Ok {
                let pad = (ba@.len() - 256 * es.len()) as nat;
                lemma_encode_len(es);
                let z = Seq::new(pad, |i: int| 0u8);
                let l = ba@.len() as int;
                let b = bs as int;
                let q = l / b;
                let c = b / 256;
                assert(l == q * b) by (nonlinear_arith)
                    requires
                        l % b == 0,
                        b > 0,
                        q == l / b,
                ;
                assert(b == c * 256);
                assert(l == (q * c) * 256) by (nonlinear_arith)
                    requires
                        l == q * b,
                        b == c * 256,
                ;
                vstd::arithmetic::div_mod::lemma_mod_multiples_basic(q * c, 256);
                lemma_decode_encoded(es, z, (ba@.len() / 256) as nat);
                assert(ba@ == encode(es) + z);
            }
        }
        match r {
            Ok(()) => Ok(()),
            Err(e) => Err(VfsErrno::ENSTOR),
        }
    }
}

impl FileSystem {
    /// A descriptor at position 0 on inode `inode`, when it is in use.
    pub fn get_fd(&self, inode: u32, fd: u32) -> (r: Option<FileDescriptor>)
        requires
            self.wf(),
        ensures
            r is Some <==> self.live(inode as int),
            r matches Some(d) ==> d.inum == inode && d.pos == 0,
    {
        if !self.check_inode(inode) {
            return None;
        }
        Some(FileDescriptor { inum: inode, pos: 0 })
    }

    /// Reads `count` bytes at the descriptor's position and moves it past them.
    /// Fails when the inode is not in use or the bytes would cross the end of
    /// the file.
    pub fn read_n(&mut self, fd: &mut FileDescriptor, count: u64) -> (r: Option<Vec<u8>>)
        requires
            old(self).wf(),
        ensures
            final(self).same(old(self)),
            final(fd).inum == old(fd).inum,
            r is Some <==> old(self).live(old(fd).inum as int)
                && old(fd).pos + count <= old(self).inodes@[old(fd).inum as int].total_file_size,
            r is None ==> *final(fd) == *old(fd),
            r matches Some(v) ==> v@ == old(self).content(old(fd).inum as int).subrange(old(fd).pos as int, old(fd).pos + count)
                && final(fd).pos == old(fd).pos + count,
    {
        let i: u32 = fd.inum;
        if !self.check_inode(i) {
            return None;
        }
        let p: u64 = fd.pos;
        let size: u64 = self.inodes[i as usize].total_file_size;
        if count > size || p > size - count {
            return None;
        }
        fd.pos = p + count;
        proof {
            self.lemma_content_len(i as int);
        }
        if count == 0 {
            let v: Vec<u8> = Vec::new();
            assert(v@ =~= self.content(i as int).subrange(p as int, p + count));
            return Some(v);
        }
        proof {
            self.lemma_content_bound(i as int);
        }
        let bs: u64 = self.sup.data_block_size as u64;
        let a: usize = (self.inodes[i as usize].first_block * bs + p) as usize;
        let v = read_at(&self.data, a, count as usize);
        assert(v@ =~= self.content(i as int).subrange(p as int, p + count));
        Some(v)
    }

    /// Reads from the descriptor's position to the end of the file.
    pub fn read_to_eof(&mut self, fd: &mut FileDescriptor) -> (r: Option<Vec<u8>>)
        requires
            old(self).wf(),
        ensures
            final(self).same(old(self)),
            final(fd).inum == old(fd).inum,
            r is Some <==> old(self).live(old(fd).inum as int)
                && old(fd).pos <= old(self).inodes@[old(fd).inum as int].total_file_size,
            r is None ==> *final(fd) == *old(fd),
            r matches Some(v) ==> v@ == old(self).content(old(fd).inum as int).subrange(old(fd).pos as int, old(self).content(old(fd).inum as int).len() as int)
                && final(fd).pos == old(self).inodes@[old(fd).inum as int].total_file_size,
    {
        let i: u32 = fd.inum;
        if !self.check_inode(i) {
            return None;
        }
        let size: u64 = self.inodes[i as usize].total_file_size;
        if fd.pos > size {
            return None;
        }
        proof {
            if size > 0 {
                self.lemma_content_bound(i as int);
            }
        }
        let c: u64 = size - fd.pos;
        self.read_n(fd, c)
    }

    /// Overwrites bytes of the file in place at the descriptor's position.
    /// Fails when the inode is not in use, or with `EFPOOB` when the bytes would
    /// cross the end of the file.
    pub fn write_in_place(&mut self, fd: &mut FileDescriptor, buf: &[u8]) -> (r: VfsResult)
        requires
            old(self).wf(),
        ensures
            final(self).wf(),
            *final(fd) == *old(fd),
            !old(self).live(old(fd).inum as int) ==> r == Err::<(), VfsErrno>(VfsErrno::EINVFD),
            old(self).live(old(fd).inum as int) && old(fd).pos + buf@.len() > old(self).inodes@[old(fd).inum as int].total_file_size
                ==> r == Err::<(), VfsErrno>(VfsErrno::EFPOOB),
            old(self).live(old(fd).inum as int) && old(fd).pos + buf@.len() <= old(self).inodes@[old(fd).inum as int].total_file_size
                ==> r is Ok,
            r is Err ==> final(self).same(old(self)),
            r is Ok ==> {
                let i = old(fd).inum as int;
                let c = old(self).content(i);
                &&& old(self).live(i)
                &&& old(fd).pos + buf@.len() <= old(self).inodes@[i].total_file_size
                &&& final(self).same_but_data(old(self))
                &&& final(self).content(i) == c.subrange(0, old(fd).pos as int) + buf@ + c.subrange(old(fd).pos + buf@.len(), c.len() as int)
            },
            r is Ok && old(self).consistent() ==> final(self).consistent() && final(self).others_kept(old(self), old(fd).inum as int, old(fd).inum as int),
    {
        let i: u32 = fd.inum;
        if !self.check_inode(i) {
            return Err(VfsErrno::EINVFD);
        }
        let p: u64 = fd.pos;
        let size: u64 = self.inodes[i as usize].total_file_size;
        if buf.len() as u64 > size || p > size - buf.len() as u64 {
            return Err(VfsErrno::EFPOOB);
        }
        proof {
            self.lemma_content_len(i as int);
        }
        if buf.len() == 0 {
            assert(self.content(i as int) =~= self.content(i as int).subrange(0, p as int) + buf@ + self.content(i as int).subrange(p + buf@.len(), self.content(i as int).len() as int));
            return Ok(());
        }
        proof {
            self.lemma_content_bound(i as int);
        }
        let ghost o = *self;
        let bs: u64 = self.sup.data_block_size as u64;
        let a: usize = (self.inodes[i as usize].first_block * bs + p) as usize;
        write_at(&mut self.data, a, buf);
        proof {
            let c = o.content(i as int);
            self.lemma_content_len(i as int);
            if o.consistent() {
                let ri = o.inodes@[i as int];
                assert(o.extent_ok(ri));
                o.lemma_content_bound(i as int);
                assert(ri.first_block * o.bs() + ri.total_file_size <= (ri.end_block + 1) * o.bs()) by (nonlinear_arith)
                    requires
                        ri.total_file_size <= extent_blocks(ri) * o.bs(),
                        extent_blocks(ri) == ri.end_block + 1 - ri.first_block,
                ;
                assert forall|j: int| 0 <= j < o.icount() && j != i && j != i && o.inodes@[j].num != 0
                    implies #[trigger] self.content(j) == o.content(j) by {
                    let rj = o.inodes@[j];
                    assert(o.extent_ok(rj));
                    assert(!extents_overlap(rj, ri));
                    assert forall|b: int| 0 <= b < o.data@.len() && in_extent_bytes(rj, o.bs(), b) implies self.data@[b] == o.data@[b] by {
                        lemma_bytes_apart(rj, ri, o.bs(), b);
                    }
                    self.lemma_content_kept(&o, j);
                }
            }
            assert(self.content(i as int) =~= c.subrange(0, p as int) + buf@ + c.subrange(p + buf@.len(), c.len() as int));
        }
        Ok(())
    }

    /// Everything but the data region is that of `o`, and the region keeps its length.
    pub open spec fn same_but_data(&self, o: &FileSystem) -> bool {
        &&& self.sup == o.sup
        &&& self.inode_use_cache@ == o.inode_use_cache@
        &&& self.inodes@ == o.inodes@
        &&& self.data_use_table@ == o.data_use_table@
        &&& self.data@.len() == o.data@.len()
    }

    /// Replaces the whole file by `buf`, copy-on-write.
    pub fn overwrite(&mut self, fd: &mut FileDescriptor, buf: &[u8]) -> (r: VfsResult)
        requires
            old(self).wf(),
        ensures
            final(self).wf(),
            *final(fd) == *old(fd),
            !old(self).live(old(fd).inum as int) ==> r == Err::<(), VfsErrno>(VfsErrno::EINVFD),
            old(self).live(old(fd).inum as int) && !old(self).room_for(buf@.len() as int) ==> r == Err::<(), VfsErrno>(VfsErrno::ENSTOR),
            old(self).live(old(fd).inum as int) && old(self).room_for(buf@.len() as int) ==> r is Ok,
            r is Err ==> final(self).same(old(self)),
            r is Ok ==> final(self).replaced(old(self), old(fd).inum as int, buf@),
            r is Ok ==> {
                let i = old(fd).inum as int;
                &&& old(self).live(i)
                &&& final(self).content(i) == buf@
                &&& final(self).inodes@[i].total_file_size == buf@.len()
                &&& forall|j: int| 0 <= j < old(self).icount() && j != i ==> final(self).inodes@[j] == old(self).inodes@[j]
            },
            r is Ok && old(self).consistent() ==> final(self).consistent() && final(self).others_kept(old(self), old(fd).inum as int, old(fd).inum as int),
    {
        let i: u32 = fd.inum;
        if !self.check_inode(i) {
            return Err(VfsErrno::EINVFD);
        }
        self.overwrite_inode(i, buf)
    }

    /// Appends `buf` to the file, copy-on-write: the old content followed by
    /// `buf` goes to a fresh run of blocks.
    pub fn append(&mut self, fd: &mut FileDescriptor, buf: &[u8]) -> (r: VfsResult)
        requires
            old(self).wf(),
        ensures
            final(self).wf(),
            *final(fd) == *old(fd),
            !old(self).live(old(fd).inum as int) ==> r == Err::<(), VfsErrno>(VfsErrno::EINVFD),
            old(self).live(old(fd).inum as int)
                && !old(self).room_for(old(self).content(old(fd).inum as int).len() + buf@.len() as int) ==> r == Err::<(), VfsErrno>(VfsErrno::ENSTOR),
            old(self).live(old(fd).inum as int)
                && old(self).room_for(old(self).content(old(fd).inum as int).len() + buf@.len() as int) ==> r is Ok,
            r is Err ==> final(self).same(old(self)),
            r is Ok ==> final(self).replaced(old(self), old(fd).inum as int, old(self).content(old(fd).inum as int) + buf@),
            r is Ok ==> {
                let i = old(fd).inum as int;
                &&& old(self).live(i)
                &&& final(self).content(i) == old(self).content(i) + buf@
                &&& forall|j: int| 0 <= j < old(self).icount() && j != i ==> final(self).inodes@[j] == old(self).inodes@[j]
            },
            r is Ok && old(self).consistent() ==> final(self).consistent() && final(self).others_kept(old(self), old(fd).inum as int, old(fd).inum as int),
    {
        let i: u32 = fd.inum;
        if !self.check_inode(i) {
            return Err(VfsErrno::EINVFD);
        }
        let mut whole = FileDescriptor { inum: i, pos: 0 };
        let size: u64 = self.inodes[i as usize].total_file_size;
        proof {
            if size > 0 {
                self.lemma_content_bound(i as int);
            }
        }
        let cur = self.read_n(&mut whole, size);
        match cur {
            None => Err(VfsErrno::EINVFD),
            Some(mut v) => {
                assert(v@ =~= self.content(i as int));
                if buf.len() > self.data.len() {
                    proof {
                        self.lemma_no_room(v@.len() + buf@.len() as int);
                    }
                    return Err(VfsErrno::ENSTOR);
                }
                let ghost c = v@;
                v.extend_from_slice(buf);
                assert(v@ =~= c + buf@);
                self.overwrite_inode(i, v.as_slice())
            },
        }
    }

    /// Moves the descriptor to position 0.
    pub fn rewind_zero(&mut self, fd: &mut FileDescriptor) -> (r: VfsResult)
        requires
            old(self).wf(),
        ensures
            final(self).same(old(self)),
            final(fd).inum == old(fd).inum,
            r is Ok <==> old(self).live(old(fd).inum as int),
            r is Err ==> r == Err::<(), VfsErrno>(VfsErrno::EINVFD) && *final(fd) == *old(fd),
            r is Ok ==> final(fd).pos == 0,
    {
        if !self.check_inode(fd.inum) {
            return Err(VfsErrno::EINVFD);
        }
        fd.pos = 0;
        Ok(())
    }

    /// Moves the descriptor back by `count` bytes.
    pub fn rewind(&mut self, fd: &mut FileDescriptor, count: u64) -> (r: VfsResult)
        requires
            old(self).wf(),
        ensures
            final(self).same(old(self)),
            final(fd).inum == old(fd).inum,
            !old(self).live(old(fd).inum as int) ==> r == Err::<(), VfsErrno>(VfsErrno::EINVFD),
            old(self).live(old(fd).inum as int) && count > old(fd).pos ==> r == Err::<(), VfsErrno>(VfsErrno::EFPOOB),
            old(self).live(old(fd).inum as int) && count <= old(fd).pos ==> r is Ok && final(fd).pos == old(fd).pos - count,
            r is Err ==> *final(fd) == *old(fd),
    {
        if !self.check_inode(fd.inum) {
            return Err(VfsErrno::EINVFD);
        }
        let cp: u64 = fd.pos;
        if count > cp {
            return Err(VfsErrno::EFPOOB);
        }
        fd.pos = cp - count;
        Ok(())
    }

    /// Moves the descriptor forward by `count` bytes; the new position must lie
    /// before the end of the file.
    pub fn seek_forward(&mut self, fd: &mut FileDescriptor, count: u64) -> (r: VfsResult)
        requires
            old(self).wf(),
        ensures
            final(self).same(old(self)),
            final(fd).inum == old(fd).inum,
            !old(self).live(old(fd).inum as int) ==> r == Err::<(), VfsErrno>(VfsErrno::EINVFD),
            old(self).live(old(fd).inum as int) && old(fd).pos + count >= old(self).inodes@[old(fd).inum as int].total_file_size
                ==> r == Err::<(), VfsErrno>(VfsErrno::EFPOOB),
            old(self).live(old(fd).inum as int) && old(fd).pos + count < old(self).inodes@[old(fd).inum as int].total_file_size
                ==> r is Ok && final(fd).pos == old(fd).pos + count,
            r is Err ==> *final(fd) == *old(fd),
    {
        let i: u32 = fd.inum;
        if !self.check_inode(i) {
            return Err(VfsErrno::EINVFD);
        }
        let cp: u64 = fd.pos;
        let size: u64 = self.inodes[i as usize].total_file_size;
        if count >= size || cp >= size - count {
            return Err(VfsErrno::EFPOOB);
        }
        fd.pos = count + cp;
        Ok(())
    }

    /// Moves the descriptor to `location`, which must lie before the end of the file.
    pub fn seek(&mut self, fd: &mut FileDescriptor, location: u64) -> (r: VfsResult)
        requires
            old(self).wf(),
        ensures
            final(self).same(old(self)),
            final(fd).inum == old(fd).inum,
            !old(self).live(old(fd).inum as int) ==> r == Err::<(), VfsErrno>(VfsErrno::EINVFD),
            old(self).live(old(fd).inum as int) && location >= old(self).inodes@[old(fd).inum as int].total_file_size
                ==> r == Err::<(), VfsErrno>(VfsErrno::EFPOOB),
            old(self).live(old(fd).inum as int) && location < old(self).inodes@[old(fd).inum as int].total_file_size
                ==> r is Ok && final(fd).pos == location,
            r is Err ==> *final(fd) == *old(fd),
    {
        let i: u32 = fd.inum;
        if !self.check_inode(i) {
            return Err(VfsErrno::EINVFD);
        }
        if location >= self.inodes[i as usize].total_file_size {
            return Err(VfsErrno::EFPOOB);
        }
        fd.pos = location;
        Ok(())
    }

    /// The entries of the directory that the descriptor names.
    pub fn vfd_as_dentry(&mut self, fd: &FileDescriptor) -> (r: Option<crate::vfs::DentryView>)
        requires
            old(self).wf(),
        ensures
            final(self).same(old(self)),
            r is Some <==> old(self).dir_readable(fd.inum as int),
            r matches Some(d) ==> d.inum == fd.inum && d.listing() == crate::vfs::listing_of(old(self).entries(fd.inum as int)),
    {
        self.dentry_view(fd)
    }

    /// The entries of the directory that the descriptor names, without
    /// touching the filesystem.
    pub fn dentry_view(&self, fd: &FileDescriptor) -> (r: Option<crate::vfs::DentryView>)
        requires
            self.wf(),
        ensures
            r is Some <==> self.dir_readable(fd.inum as int),
            r matches Some(d) ==> d.inum == fd.inum && d.listing() == crate::vfs::listing_of(self.entries(fd.inum as int)),
    {
        match Dentry::from_internal(fd.inum, self) {
            None => None,
            Some(d) => Some(d.to_view()),
        }
    }

    /// The whole content of live inode `i`.
    pub fn read_content(&self, i: u32) -> (r: Vec<u8>)
        requires
            self.wf(),
            self.live(i as int),
        ensures
            r@ == self.content(i as int),
    {
        let size: u64 = self.inodes[i as usize].total_file_size;
        if size == 0 {
            let v: Vec<u8> = Vec::new();
            assert(v@ =~= self.content(i as int));
            return v;
        }
        proof {
            self.lemma_content_bound(i as int);
        }
        let bs: u64 = self.sup.data_block_size as u64;
        let a: usize = (self.inodes[i as usize].first_block * bs) as usize;
        read_at(&self.data, a, size as usize)
    }

    /// The mode of the inode.
    pub fn file_perms(&self, fd: &FileDescriptor) -> (r: Option<u16>)
        requires
            self.wf(),
        ensures
            r is Some <==> self.live(fd.inum as int),
            r matches Some(v) ==> v == self.inodes@[fd.inum as int].perms,
    {
        if !self.check_inode(fd.inum) {
            return None;
        }
        Some(self.inodes[fd.inum as usize].perms)
    }

    /// The owner of the inode.
    pub fn file_owner(&self, fd: &FileDescriptor) -> (r: Option<u32>)
        requires
            self.wf(),
        ensures
            r is Some <==> self.live(fd.inum as int),
            r matches Some(v) ==> v == self.inodes@[fd.inum as int].uid,
    {
        if !self.check_inode(fd.inum) {
            return None;
        }
        Some(self.inodes[fd.inum as usize].uid)
    }

    /// The group of the inode.
    pub fn file_group(&self, fd: &FileDescriptor) -> (r: Option<u32>)
        requires
            self.wf(),
        ensures
            r is Some <==> self.live(fd.inum as int),
            r matches Some(v) ==> v == self.inodes@[fd.inum as int].gid,
    {
        if !self.check_inode(fd.inum) {
            return None;
        }
        Some(self.inodes[fd.inum as usize].gid)
    }

    /// The size of the file in bytes.
    pub fn file_size(&self, fd: &FileDescriptor) -> (r: Option<u64>)
        requires
            self.wf(),
        ensures
            r is Some <==> self.live(fd.inum as int),
            r matches Some(v) ==> v == self.inodes@[fd.inum as int].total_file_size,
    {
        if !self.check_inode(fd.inum) {
            return None;
        }
        Some(self.inodes[fd.inum as usize].total_file_size)
    }

    /// The modification time of the inode.
    pub fn file_modified(&self, fd: &FileDescriptor) -> (r: Option<u64>)
        requires
            self.wf(),
        ensures
            r is Some <==> self.live(fd.inum as int),
            r matches Some(v) ==> v == self.inodes@[fd.inum as int].modified,
    {
        if !self.check_inode(fd.inum) {
            return None;
        }
        Some(self.inodes[fd.inum as usize].modified)
    }

    /// The number of directory entries that name the inode.
    pub fn file_hardlinks(&self, fd: &FileDescriptor) -> (r: Option<u16>)
        requires
            self.wf(),
        ensures
            r is Some <==> self.live(fd.inum as int),
            r matches Some(v) ==> v == self.inodes@[fd.inum as int].hard_link_count,
    {
        if !self.check_inode(fd.inum) {
            return None;
        }
        Some(self.inodes[fd.inum as usize].hard_link_count)
    }

    /// Sets the mode of the inode, type tag included.
    pub fn chmod(&mut self, fd: &FileDescriptor, perms: u16) -> (r: VfsResult)
        requires
            old(self).wf(),
        ensures
            final(self).wf(),
            r is Ok <==> old(self).live(fd.inum as int),
            r is Err ==> r == Err::<(), VfsErrno>(VfsErrno::EINVFD) && final(self).same(old(self)),
            r is Ok ==> final(self).inodes@ == old(self).inodes@.update(fd.inum as int, Inode { perms, ..old(self).inodes@[fd.inum as int] })
                && final(self).sup == old(self).sup
                && final(self).inode_use_cache@ == old(self).inode_use_cache@
                && final(self).data_use_table@ == old(self).data_use_table@
                && final(self).data@ == old(self).data@,
            old(self).consistent() ==> final(self).consistent(),
            forall|j: int| 0 <= j < old(self).icount() ==> #[trigger] final(self).content(j) == old(self).content(j),
    {
        let i: u32 = fd.inum;
        if !self.check_inode(i) {
            return Err(VfsErrno::EINVFD);
        }
        let ghost o = *self;
        let mut ino: Inode = self.inodes[i as usize];
        ino.perms = perms;
        self.inodes.set(i as usize, ino);
        proof {
            assert forall|j: int| 0 <= j < self.icount() && (#[trigger] self.inodes@[j]).num != 0 implies self.extent_ok(self.inodes@[j]) by {
                assert(o.extent_ok(o.inodes@[j]));
            }
            assert forall|j: int| 0 <= j < self.icount() && (#[trigger] self.inodes@[j]).num != 0 implies bit(self.inode_use_cache@, j) by {
                assert(o.inodes@[j].num != 0);
            }
            if o.consistent() {
                assert forall|a: int, k: int| 0 <= a < self.icount() && self.inodes@[a].num != 0 && #[trigger] in_extent(self.inodes@[a], k)
                    implies bit(self.data_use_table@, k) by {
                    assert(in_extent(o.inodes@[a], k));
                }
                assert forall|a: int, b: int| 0 <= a < self.icount() && 0 <= b < self.icount() && a != b
                    && self.inodes@[a].num != 0 && self.inodes@[b].num != 0
                    implies !#[trigger] extents_overlap(self.inodes@[a], self.inodes@[b]) by {
                    assert(!extents_overlap(o.inodes@[a], o.inodes@[b]));
                }
            }
            assert forall|j: int| 0 <= j < o.icount() implies #[trigger] self.content(j) == o.content(j) by {
                assert(self.inodes@[j].first_block == o.inodes@[j].first_block);
                assert(self.inodes@[j].total_file_size == o.inodes@[j].total_file_size);
            }
        }
        Ok(())
    }
}

impl DentryEntry {
    /// The entry as handed out: its name cut at the first NUL.
    pub fn convert_to_vfs(&self) -> (r: crate::vfs::VirtualDentryEntry)
        ensures
            r@ == (self.inum, cstr_prefix(self.filename_cstr@)),
    {
        proof {
            crate::common::lemma_first_nul(self.filename_cstr@);
        }
        let n = crate::common::cstr_len(self.filename_cstr.as_slice());
        let name = read_at(&self.filename_cstr, 0, n);
        crate::vfs::VirtualDentryEntry { inum: self.inum, filename: name }
    }
}

impl Dentry {
    /// The listing handed out for this directory.
    pub fn to_view(&self) -> (r: crate::vfs::DentryView)
        ensures
            r.inum == self.inum,
            r.listing() == crate::vfs::listing_of(self.entries()),
    {
        let mut v: Vec<crate::vfs::VirtualDentryEntry> = Vec::new();
        let mut k: usize = 0;
        while k < self.intern.len()
            invariant
                k <= self.intern@.len(),
                v@.map_values(|e: crate::vfs::VirtualDentryEntry| e@) == crate::vfs::listing_of(self.entries().subrange(0, k as int)),
            decreases self.intern@.len() - k,
        {
            let e = self.intern[k].convert_to_vfs();
            let ghost prev = v@.map_values(|e: crate::vfs::VirtualDentryEntry| e@);
            v.push(e);
            proof {
                assert(self.entries().subrange(0, k + 1) =~= self.entries().subrange(0, k as int).push(self.entries()[k as int]));
                assert(self.entries()[k as int] == self.intern@[k as int]@);
                assert(v@.map_values(|e: crate::vfs::VirtualDentryEntry| e@) =~= prev.push(e@));
            }
            k = k + 1;
            assert(v@.map_values(|e: crate::vfs::VirtualDentryEntry| e@) =~= crate::vfs::listing_of(self.entries().subrange(0, k as int)));
        }
        assert(self.entries().subrange(0, k as int) =~= self.entries());
        crate::vfs::DentryView { inum: self.inum, entries: v }
    }
}

} // verus!

verus! {

/// The bytes of a name given as text.
pub open spec fn text_bytes(s: &String) -> Seq<u8> {
    vstd::utf8::encode_utf8(s@)
}

/// Mode of a new regular file.
pub open spec fn new_file_perms() -> u16 {
    (0o666u16 & !UMASK) as u16
}

/// Mode of a new directory.
pub open spec fn new_dir_perms() -> u16 {
    (0o10777u16 & !UMASK) as u16
}

/// The two entries of a new directory `n` under `parent`.
pub open spec fn new_dir_entries(n: u32, parent: u32) -> Seq<EntryView> {
    seq![(n, name_slot(seq![46u8])), (parent, name_slot(seq![46u8, 46u8]))]
}

/// Inode 0 is never in use: `check_inode` and `get_fd` refuse it, and
/// `alloc_inode` never hands it out (its result is at least 1).
pub proof fn lemma_inode_zero_never_live(fs: &FileSystem)
    ensures
        !fs.live(0),
{
}

/// Block ranges that share no block share no byte.
proof fn lemma_disjoint_bytes(a: int, na: int, b: int, nb: int, bs: int, k: int)
    requires
        bs > 0,
        na >= 0,
        nb >= 0,
        a + na <= b || b + nb <= a,
        a * bs <= k < (a + na) * bs,
    ensures
        !(b * bs <= k < (b + nb) * bs),
{
    if a + na <= b {
        assert((a + na) * bs <= b * bs) by (nonlinear_arith)
            requires
                a + na <= b,
                bs > 0,
        ;
    } else {
        assert((b + nb) * bs <= a * bs) by (nonlinear_arith)
            requires
                b + nb <= a,
                bs > 0,
        ;
    }
}

impl FileSystem {
    /// The dot entries of a new directory, as its content.
    fn dot_entries(&self, n: u32, parent: u32) -> (r: Dentry)
        ensures
            r.entries() == new_dir_entries(n, parent),
            names_sized(r.entries()),
            all_present(r.entries()) <==> (n != 0 && parent != 0),
            r.inum == n,
    {
        let dot: Vec<u8> = vec![46u8];
        let dotdot: Vec<u8> = vec![46u8, 46u8];
        let mut v: Vec<DentryEntry> = Vec::new();
        v.push(DentryEntry { inum: n, filename_cstr: name_to_slot(dot.as_slice()) });
        v.push(DentryEntry { inum: parent, filename_cstr: name_to_slot(dotdot.as_slice()) });
        let r = Dentry { intern: v, inum: n };
        assert(dot@ =~= seq![46u8]);
        assert(dotdot@ =~= seq![46u8, 46u8]);
        assert(r.entries() =~= new_dir_entries(n, parent));
        r
    }

    /// Index of the first entry named `name`, if any.
    fn find_name(d: &Dentry, name: &[u8]) -> (r: Option<usize>)
        ensures
            r is None <==> !FileSystem::has_name(d.entries(), name@),
            r matches Some(k) ==> k < d.entries().len() && name_is(d.entries()[k as int].1, name@),
    {
        let mut k: usize = 0;
        while k < d.intern.len()
            invariant
                k <= d.intern@.len(),
                forall|j: int| 0 <= j < k ==> !name_is(#[trigger] d.entries()[j].1, name@),
            decreases d.intern@.len() - k,
        {
            if slot_name_is(d.intern[k].filename_cstr.as_slice(), name) {
                assert(d.entries()[k as int] == d.intern@[k as int]@);
                assert(name_is(d.entries()[k as int].1, name@));
                return Some(k);
            }
            assert(d.entries()[k as int] == d.intern@[k as int]@);
            k = k + 1;
        }
        None
    }

    /// Creates an inode named `name` in directory `dir_inode`: a regular file
    /// holding `data`, or, with `is_dir`, an empty directory.
    fn create_inode(&mut self, dir_inode: u32, name: &[u8], is_dir: bool, data: &[u8]) -> (r: Option<u32>)
        requires
            old(self).wf(),
        ensures
            final(self).wf(),
            final(self).sup == old(self).sup,
            r is None ==> final(self).same(old(self)),
            !old(self).dir_readable(dir_inode as int) ==> r is None,
            old(self).dir_readable(dir_inode as int) && FileSystem::has_name(old(self).entries(dir_inode as int), name@) ==> r is None,
            (forall|j: int| 1 <= j < old(self).icount() ==> bit(old(self).inode_use_cache@, j)) ==> r is None,
            !is_dir && !old(self).room_for(data@.len() as int) ==> r is None,
            !crate::bitmap::has_run(old(self).data_use_table@, ceil_div(256 * (old(self).entries(dir_inode as int).len() as int + 1), old(self).bs()))
                ==> r is None,
            is_dir && !crate::bitmap::has_run(old(self).data_use_table@, ceil_div(512, old(self).bs())) ==> r is None,
            old(self).dir_readable(dir_inode as int) && !FileSystem::has_name(old(self).entries(dir_inode as int), name@)
                && (exists|j: int| 1 <= j < old(self).icount() && !bit(old(self).inode_use_cache@, j))
                && old(self).room_for_new(if is_dir { 512 } else { data@.len() as int }, old(self).entries(dir_inode as int).len() as int + 1)
                ==> r is Some,
            r matches Some(n) ==> {
                &&& old(self).dir_readable(dir_inode as int)
                &&& !FileSystem::has_name(old(self).entries(dir_inode as int), name@)
                &&& 1 <= n < old(self).icount()
                &&& !bit(old(self).inode_use_cache@, n as int)
                &&& forall|j: int| 1 <= j < n ==> bit(old(self).inode_use_cache@, j)
                &&& final(self).live(n as int)
                &&& final(self).inodes@[n as int].num == n
                &&& final(self).inodes@[n as int].perms == (if is_dir { new_dir_perms() } else { new_file_perms() })
                &&& final(self).inodes@[n as int].uid == 0
                &&& final(self).inodes@[n as int].gid == 0
                &&& final(self).inodes@[n as int].hard_link_count == 1
                &&& final(self).inodes@[n as int].accessed == 0
                &&& final(self).inodes@[n as int].modified == 0
                &&& final(self).inodes@[n as int].created == 0
                &&& !is_dir ==> final(self).content(n as int) == data@
                &&& is_dir ==> final(self).dir_readable(n as int) && final(self).entries(n as int) == new_dir_entries(n, dir_inode)
                &&& final(self).dir_readable(dir_inode as int)
                &&& final(self).inodes@[dir_inode as int] == with_extent(old(self).inodes@[dir_inode as int],
                    final(self).inodes@[dir_inode as int].first_block, final(self).inodes@[dir_inode as int].end_block,
                    final(self).inodes@[dir_inode as int].total_file_size)
                &&& is_dir ==> final(self).inodes@[n as int].total_file_size == ceil_div(512, old(self).bs()) * old(self).bs()
                &&& final(self).entries(dir_inode as int) == old(self).entries(dir_inode as int).push((n, name_slot(name@)))
                &&& forall|j: int| 0 <= j < old(self).icount() && j != n && j != dir_inode ==> final(self).inodes@[j] == old(self).inodes@[j]
            },
            r matches Some(n) ==> (old(self).consistent() ==> final(self).consistent() && final(self).others_kept(old(self), n as int, dir_inode as int)),
    {
        let ghost o = *old(self);
        let d = match Dentry::from_internal(dir_inode, self) {
            None => {
                return None;
            },
            Some(d) => d,
        };
        if FileSystem::find_name(&d, name).is_some() {
            return None;
        }
        let ghost clen: int = if is_dir { 512 } else { data@.len() as int };
        let ghost cbc: int = ceil_div(clen, o.bs());
        let ghost cpbc: int = ceil_div(256 * (o.entries(dir_inode as int).len() as int + 1), o.bs());
        let ghost owed: bool = (exists|j: int| 1 <= j < o.icount() && !bit(o.inode_use_cache@, j)) && o.room_for_new(clen, o.entries(dir_inode as int).len() as int + 1);
        let ghost total: int = cbc + cpbc;
        let ghost t: int = if owed { choose|t: int| free_run(o.data_use_table@, t, total) } else { 0 };
        proof {
            lemma_ceil(clen, o.bs());
            lemma_ceil(256 * (o.entries(dir_inode as int).len() as int + 1), o.bs());
            if owed {
                lemma_run_fits(o, t, cbc, cpbc);
            }
        }
        let n: u64 = match first_free_from_one(&self.inode_use_cache) {
            None => {
                return None;
            },
            Some(n) => n,
        };
        assert(nbits(self.inode_use_cache@) == self.icount());
        let n32: u32 = n as u32;
        assert(self.inodes@[n as int].num == 0);
        // the new inode's content
        let bs: usize = self.sup.data_block_size as usize;
        let dl: usize = self.data.len();
        assert(bs <= usize::MAX - dl);
        if is_dir && dl < 512 {
            return None;
        }
        let child: Vec<u8> = if is_dir {
            let dd = self.dot_entries(n32, dir_inode);
            dd.encode_padded(bs)
        } else {
            let mut c: Vec<u8> = Vec::new();
            c.extend_from_slice(data);
            assert(c@ =~= data@);
            c
        };
        proof {
            if is_dir {
                let dd = new_dir_entries(n32, dir_inode);
                assert(dd.len() == 2);
                lemma_padded_blocks(child@.len() as int, 512, bs as int);
            }
        }
        let len: usize = child.len();
        if len > dl {
            return None;
        }
        let bsu: u64 = bs as u64;
        let bc: u64 = fastceildiv(len as u64, bsu);
        assert(bc == cbc);
        let mut fb: u64 = 1;
        if bc > 0 {
            match first_free_run(&self.data_use_table, bc) {
                None => {
                    proof {
                        if is_dir {
                            assert(!crate::bitmap::has_run(o.data_use_table@, cbc));
                        }
                        if owed {
                            assert(free_run(self.data_use_table@, t, bc as int));
                        }
                    }
                    return None;
                },
                Some(s) => {
                    fb = s;
                },
            }
        }
        // the directory's new content
        let mut d2 = d;
        let ghost old_es = d2.entries();
        d2.intern.push(DentryEntry { inum: n32, filename_cstr: name_to_slot(name) });
        assert(d2.entries() =~= old_es.push((n32, name_slot(name@))));
        let ghost es = d2.entries();
        assert(names_sized(es)) by {
            assert forall|i: int| 0 <= i < es.len() implies (#[trigger] es[i]).1.len() == 252 by {
                if i < old_es.len() {
                    assert(es[i] == old_es[i]);
                }
            }
        }
        assert(all_present(es)) by {
            assert forall|i: int| 0 <= i < es.len() implies (#[trigger] es[i]).0 != 0 by {
                if i < old_es.len() {
                    assert(es[i] == old_es[i]);
                }
            }
        }
        let m: usize = d2.intern.len();
        if m > dl / 256 {
            return None;
        }
        let pba = d2.encode_padded(bs);
        proof {
            lemma_padded_blocks(pba@.len() as int, 256 * es.len() as int, bs as int);
        }
        if pba.len() > dl {
            return None;
        }
        // will the directory's content fit once the new inode's blocks are taken?
        let mut scratch = crate::bitmap::copy_map(&self.data_use_table);
        if bc > 0 {
            set_range(&mut scratch, fb, fb + bc);
        }
        let pbc: u64 = fastceildiv(pba.len() as u64, bsu);
        proof {
            assert(pbc == cpbc);
            if !crate::bitmap::has_run(o.data_use_table@, cpbc) {
                assert forall|t: int| !free_run(scratch@, t, pbc as int) by {
                    if free_run(scratch@, t, pbc as int) {
                        assert forall|k: int| t <= k < t + pbc implies !bit(o.data_use_table@, k) by {
                            assert(!bit(scratch@, k));
                        }
                        assert(free_run(o.data_use_table@, t, cpbc));
                    }
                }
            }
            if owed && pbc > 0 {
                if bc > 0 {
                    assert(free_run(o.data_use_table@, t, bc + pbc));
                    assert(free_run(o.data_use_table@, fb as int, bc as int));
                    let u = crate::bitmap::lemma_second_run(o.data_use_table@, fb as int, bc as int, pbc as int, t);
                    assert forall|k: int| u <= k < u + pbc implies !bit(scratch@, k) by {
                        assert(!bit(o.data_use_table@, k));
                        assert(!(fb <= k < fb + bc));
                    }
                    assert(free_run(scratch@, u, pbc as int));
                } else {
                    assert(free_run(scratch@, t, pbc as int));
                }
            }
        }
        if pbc > 0 && first_free_run(&scratch, pbc).is_none() {
            return None;
        }
        // commit
        set_bit(&mut self.inode_use_cache, n);
        if bc > 0 {
            set_range(&mut self.data_use_table, fb, fb + bc);
        }
        let ghost before_dir = *self;
        proof {
            assert forall|j: int| 0 <= j < self.icount() && (#[trigger] self.inodes@[j]).num != 0 implies self.extent_ok(self.inodes@[j]) by {
                assert(o.extent_ok(o.inodes@[j]));
            }
            assert forall|j: int| 0 <= j < self.icount() && (#[trigger] self.inodes@[j]).num != 0 implies bit(self.inode_use_cache@, j) by {
                assert(bit(o.inode_use_cache@, j));
            }
            crate::bitmap::lemma_same_bits_same_runs(scratch@, self.data_use_table@, pbc as int);
            assert(self.data_use_table@.len() == scratch@.len());
            assert(self.room_for(pba@.len() as int));
            if o.consistent() {
                assert forall|i: int, k: int| 0 <= i < self.icount() && self.inodes@[i].num != 0 && #[trigger] in_extent(self.inodes@[i], k)
                    implies bit(self.data_use_table@, k) by {
                    assert(bit(o.data_use_table@, k));
                    assert(o.extent_ok(o.inodes@[i]));
                }
                assert(self.consistent());
            }
        }
        let rd = self.overwrite_inode(dir_inode, pba.as_slice());
        assert(rd is Ok);
        let ghost after_dir = *self;
        let ghost dino = self.inodes@[dir_inode as int];
        proof {
            if bc > 0 && pbc > 0 {
                // the directory's new run and the new inode's run share no block
                assert(!(dino.first_block < fb + bc && fb < dino.first_block + pbc)) by {
                    if dino.first_block < fb + bc && fb < dino.first_block + pbc {
                        let k: int = if dino.first_block >= fb { dino.first_block as int } else { fb as int };
                        assert(bit(before_dir.data_use_table@, k));
                        assert(!bit(before_dir.data_use_table@, k));
                    }
                }
            }
        }
        if len > 0 {
            proof {
                self.lemma_block_bound((fb + bc - 1) as int);
                assert(len as int <= bc * bsu) by (nonlinear_arith)
                    requires
                        bc * bsu >= len,
                ;
                assert(fb * bsu + bc * bsu == (fb + bc) * bsu) by (nonlinear_arith);
            }
            write_at(&mut self.data, (fb * bsu) as usize, child.as_slice());
        }
        let ni = Inode {
            num: n32,
            first_block: fb,
            end_block: fb + bc - 1,
            total_file_size: len as u64,
            perms: if is_dir { 0o10777u16 & !UMASK } else { 0o666u16 & !UMASK },
            uid: 0,
            gid: 0,
            hard_link_count: 1,
            accessed: 0,
            modified: 0,
            created: 0,
        };
        let ghost before_rec = *self;
        self.inodes.set(n as usize, ni);
        proof {
            assert(len as int <= bc * bsu);
            assert(self.extent_ok(ni));
            assert forall|j: int| 0 <= j < self.icount() && (#[trigger] self.inodes@[j]).num != 0 implies self.extent_ok(self.inodes@[j]) by {
                if j != n {
                    assert(after_dir.extent_ok(after_dir.inodes@[j]));
                }
            }
            assert forall|j: int| 0 <= j < self.icount() && (#[trigger] self.inodes@[j]).num != 0 implies bit(self.inode_use_cache@, j) by {
                if j != n {
                    assert(bit(after_dir.inode_use_cache@, j));
                }
            }
            // the new inode's content
            assert(self.content(n as int) =~= child@);
            // the directory's content is untouched by the write of the new inode's bytes
            assert(self.inodes@[dir_inode as int] == dino);
            assert(after_dir.content(dir_inode as int) == pba@);
            if pba@.len() > 0 {
                after_dir.lemma_content_bound(dir_inode as int);
                assert forall|k: int| dino.first_block * o.bs() <= k < dino.first_block * o.bs() + pba@.len()
                    implies #[trigger] self.data@[k] == after_dir.data@[k] by {
                    if len > 0 {
                        assert(pbc * bsu >= pba@.len());
                        assert(k < (dino.first_block + pbc) * bsu) by (nonlinear_arith)
                            requires
                                k < dino.first_block * bsu + pba@.len(),
                                pbc * bsu >= pba@.len(),
                        ;
                        lemma_disjoint_bytes(dino.first_block as int, pbc as int, fb as int, bc as int, bsu as int, k);
                    }
                }
                assert(self.content(dir_inode as int) =~= after_dir.content(dir_inode as int));
            } else {
                assert(self.content(dir_inode as int) =~= after_dir.content(dir_inode as int));
            }
            lemma_padded_decodes(es, pba@, bs as int);
            if is_dir {
                let dd = new_dir_entries(n32, dir_inode);
                assert(names_sized(dd)) by {
                    assert(dd[0].1.len() == 252);
                    assert(dd[1].1.len() == 252);
                }
                assert(all_present(dd));
                lemma_padded_decodes(dd, child@, bs as int);
            }
            lemma_new_perms();
            assert(tag_spec(ni.perms, is_dir));
        }
        proof {
            if o.consistent() {
                let ad = after_dir;
                assert forall|k: int| fb <= k < fb + bc implies 0 <= k < nbits(o.data_use_table@) && !bit(o.data_use_table@, k)
                    && bit(ad.data_use_table@, k) by {
                    assert(bc > 0);
                    assert(bit(before_dir.data_use_table@, k));
                    if in_extent(o.inodes@[dir_inode as int], k) {
                        assert(bit(o.data_use_table@, k));
                    }
                }
                assert forall|k: int| #[trigger] in_extent(ad.inodes@[dir_inode as int], k) implies !(fb <= k < fb + bc) by {
                    if fb <= k < fb + bc {
                        assert(bc > 0);
                        assert(bit(before_dir.data_use_table@, k));
                        assert(pbc > 0);
                    }
                }
                assert forall|k: int| 0 <= k < o.data@.len() && !(fb * o.bs() <= k < (fb + bc) * o.bs())
                    implies #[trigger] self.data@[k] == ad.data@[k] by {
                    if len > 0 {
                        assert(before_rec.data@[k] == ad.data@[k]);
                    }
                }
                assert(self.inodes@ =~= ad.inodes@.update(n as int, self.inodes@[n as int]));
                lemma_new_record(o, ad, *self, n as int, dir_inode as int, fb as int, bc as int);
            }
        }
        Some(n32)
    }
}

proof fn lemma_ceil(x: int, b: int)
    requires
        x >= 0,
        b > 0,
    ensures
        ceil_div(x, b) >= 0,
        ceil_div(x, b) * b >= x,
        x > 0 ==> ceil_div(x, b) > 0,
{
    let c = ceil_div(x, b);
    assert(c >= 0) by (nonlinear_arith)
        requires
            c == (x + b - 1) / b,
            x >= 0,
            b > 0,
    ;
    assert(c * b >= x) by (nonlinear_arith)
        requires
            c == (x + b - 1) / b,
            x >= 0,
            b > 0,
    {
        let r = (x + b - 1) % b;
        assert(x + b - 1 == c * b + r);
    }
    assert(x > 0 ==> c > 0) by (nonlinear_arith)
        requires
            c == (x + b - 1) / b,
            x >= 0,
            b > 0,
    ;
}

/// A length padded to a multiple of `b` takes as many blocks as the unpadded one.
proof fn lemma_padded_blocks(l: int, x: int, b: int)
    requires
        b > 0,
        x >= 0,
        x <= l < x + b,
        l % b == 0,
    ensures
        ceil_div(l, b) == ceil_div(x, b),
        l == ceil_div(x, b) * b,
{
    let q = l / b;
    assert(l == q * b) by (nonlinear_arith)
        requires
            l % b == 0,
            q == l / b,
            b > 0,
    ;
    assert(ceil_div(l, b) == q) by (nonlinear_arith)
        requires
            l == q * b,
            b > 0,
    {
        assert((q * b + b - 1) / b == q);
    }
    assert(ceil_div(x, b) == q) by (nonlinear_arith)
        requires
            l == q * b,
            x <= l < x + b,
            x >= 0,
            b > 0,
    {
        assert(x + b - 1 >= q * b);
        assert(x + b - 1 < q * b + b);
    }
}

/// A run of free blocks lies within the data region.
proof fn lemma_run_fits(fs: FileSystem, t: int, a: int, b: int)
    requires
        fs.wf(),
        a >= 0,
        b >= 0,
        free_run(fs.data_use_table@, t, a + b),
    ensures
        (a + b) * fs.bs() <= fs.data@.len(),
        a * fs.bs() <= fs.data@.len(),
        b * fs.bs() <= fs.data@.len(),
{
    let n = fs.sup.block_count as int;
    assert(nbits(fs.data_use_table@) <= n);
    assert((a + b) * fs.bs() <= n * fs.bs()) by (nonlinear_arith)
        requires
            a + b <= n,
            fs.bs() > 0,
    ;
    assert(a * fs.bs() <= (a + b) * fs.bs() && b * fs.bs() <= (a + b) * fs.bs()) by (nonlinear_arith)
        requires
            a >= 0,
            b >= 0,
            fs.bs() > 0,
    ;
}

/// A zero-padded encoding of entries decodes to the entries.
pub proof fn lemma_padded_decodes(es: Seq<EntryView>, ba: Seq<u8>, bs: int)
    requires
        names_sized(es),
        all_present(es),
        bs > 0,
        bs % 256 == 0,
        ba.len() as int % bs == 0,
        ba.len() >= 256 * es.len(),
        ba == encode(es) + Seq::new((ba.len() - 256 * es.len()) as nat, |i: int| 0u8),
    ensures
        decode(ba) == es,
        ba.len() % 256 == 0,
{
    let l = ba.len() as int;
    let q = l / bs;
    let c = bs / 256;
    assert(l == q * bs) by (nonlinear_arith)
        requires
            l % bs == 0,
            bs > 0,
            q == l / bs,
    ;
    assert(bs == c * 256);
    assert(l == (q * c) * 256) by (nonlinear_arith)
        requires
            l == q * bs,
            bs == c * 256,
    ;
    vstd::arithmetic::div_mod::lemma_mod_multiples_basic(q * c, 256);
    lemma_encode_len(es);
    let pad = (l - 256 * es.len()) as nat;
    lemma_decode_encoded(es, Seq::new(pad, |i: int| 0u8), (l / 256) as nat);
}

pub proof fn lemma_new_perms()
    ensures
        new_dir_perms() == 0o10755u16,
        new_file_perms() == 0o644u16,
        type_tag(new_dir_perms()) == 1,
        type_tag(new_file_perms()) == 0,
{
    assert((0o10777u16 & !0o022u16) == 0o10755u16) by (bit_vector);
    assert((0o666u16 & !0o022u16) == 0o644u16) by (bit_vector);
}

/// New modes tag what they create.
pub open spec fn tag_spec(perms: u16, is_dir: bool) -> bool {
    type_tag(perms) == (if is_dir { 1int } else { 0int })
}

} // verus!

verus! {

/// Whether a stored name is `.` or `..`.
pub open spec fn is_dot_name(slot: Seq<u8>) -> bool {
    name_is(slot, seq![46u8]) || name_is(slot, seq![46u8, 46u8])
}

/// Index of the first entry of `es` for inode `inum`.
pub open spec fn first_entry_of(es: Seq<EntryView>, inum: u32, k: int) -> bool {
    &&& 0 <= k < es.len()
    &&& es[k].0 == inum
    &&& forall|j: int| 0 <= j < k ==> es[j].0 != inum
}

impl FileSystem {
    /// Creates a regular file named `filename` holding `data` in directory
    /// `dir_inode`, and returns its inode number. Fails, changing nothing, when
    /// the directory is not one, already names `filename`, no inode is free, or
    /// the blocks for the data and the directory's new content cannot be had.
    pub fn create_file(&mut self, dir_inode: u32, filename: String, data: &[u8]) -> (r: Option<u32>)
        requires
            old(self).wf(),
        ensures
            final(self).wf(),
            final(self).sup == old(self).sup,
            !crate::bitmap::has_run(old(self).data_use_table@, ceil_div(256 * (old(self).entries(dir_inode as int).len() as int + 1), old(self).bs()))
                ==> r is None,
            r is None ==> final(self).same(old(self)),
            !old(self).dir_readable(dir_inode as int) ==> r is None,
            old(self).dir_readable(dir_inode as int) && FileSystem::has_name(old(self).entries(dir_inode as int), text_bytes(&filename)) ==> r is None,
            (forall|j: int| 1 <= j < old(self).icount() ==> bit(old(self).inode_use_cache@, j)) ==> r is None,
            !old(self).room_for(data@.len() as int) ==> r is None,
            old(self).dir_readable(dir_inode as int) && !FileSystem::has_name(old(self).entries(dir_inode as int), text_bytes(&filename))
                && (exists|j: int| 1 <= j < old(self).icount() && !bit(old(self).inode_use_cache@, j))
                && old(self).room_for_new(data@.len() as int, old(self).entries(dir_inode as int).len() as int + 1)
                ==> r is Some,
            r matches Some(n) ==> {
                &&& old(self).dir_readable(dir_inode as int)
                &&& !FileSystem::has_name(old(self).entries(dir_inode as int), text_bytes(&filename))
                &&& 1 <= n < old(self).icount()
                &&& !bit(old(self).inode_use_cache@, n as int)
                &&& forall|j: int| 1 <= j < n ==> bit(old(self).inode_use_cache@, j)
                &&& final(self).live(n as int)
                &&& final(self).inodes@[n as int].perms == new_file_perms()
                &&& final(self).inodes@[n as int].uid == 0
                &&& final(self).inodes@[n as int].gid == 0
                &&& final(self).inodes@[n as int].hard_link_count == 1
                &&& final(self).inodes@[n as int].total_file_size == data@.len()
                &&& final(self).content(n as int) == data@
                &&& final(self).dir_readable(dir_inode as int)
                &&& final(self).inodes@[dir_inode as int] == with_extent(old(self).inodes@[dir_inode as int],
                    final(self).inodes@[dir_inode as int].first_block, final(self).inodes@[dir_inode as int].end_block,
                    final(self).inodes@[dir_inode as int].total_file_size)
                &&& final(self).entries(dir_inode as int) == old(self).entries(dir_inode as int).push((n, name_slot(text_bytes(&filename))))
                &&& forall|j: int| 0 <= j < old(self).icount() && j != n && j != dir_inode ==> final(self).inodes@[j] == old(self).inodes@[j]
            },
            r matches Some(n) ==> (old(self).consistent() ==> final(self).consistent() && final(self).others_kept(old(self), n as int, dir_inode as int)),
    {
        let name: &[u8] = filename.as_str().as_bytes();
        let r = self.create_inode(dir_inode, name, false, data);
        proof {
            if r is Some {
                self.lemma_content_len(r->0 as int);
            }
        }
        r
    }

    /// Creates an empty directory named `name` (holding `.` and `..`) in
    /// directory `parent_inode`, and returns its inode number.
    pub fn create_directory(&mut self, parent_inode: u32, name: String) -> (r: Option<u32>)
        requires
            old(self).wf(),
        ensures
            final(self).wf(),
            final(self).sup == old(self).sup,
            !crate::bitmap::has_run(old(self).data_use_table@, ceil_div(256 * (old(self).entries(parent_inode as int).len() as int + 1), old(self).bs()))
                ==> r is None,
            r is None ==> final(self).same(old(self)),
            !old(self).dir_readable(parent_inode as int) ==> r is None,
            old(self).dir_readable(parent_inode as int) && FileSystem::has_name(old(self).entries(parent_inode as int), text_bytes(&name)) ==> r is None,
            (forall|j: int| 1 <= j < old(self).icount() ==> bit(old(self).inode_use_cache@, j)) ==> r is None,
            !crate::bitmap::has_run(old(self).data_use_table@, ceil_div(512, old(self).bs())) ==> r is None,
            old(self).dir_readable(parent_inode as int) && !FileSystem::has_name(old(self).entries(parent_inode as int), text_bytes(&name))
                && (exists|j: int| 1 <= j < old(self).icount() && !bit(old(self).inode_use_cache@, j))
                && old(self).room_for_new(512, old(self).entries(parent_inode as int).len() as int + 1)
                ==> r is Some,
            r matches Some(n) ==> {
                &&& old(self).dir_readable(parent_inode as int)
                &&& !FileSystem::has_name(old(self).entries(parent_inode as int), text_bytes(&name))
                &&& 1 <= n < old(self).icount()
                &&& !bit(old(self).inode_use_cache@, n as int)
                &&& forall|j: int| 1 <= j < n ==> bit(old(self).inode_use_cache@, j)
                &&& final(self).dir_readable(n as int)
                &&& final(self).inodes@[n as int].perms == new_dir_perms()
                &&& final(self).inodes@[n as int].hard_link_count == 1
                &&& final(self).entries(n as int) == new_dir_entries(n, parent_inode)
                &&& final(self).dir_readable(parent_inode as int)
                &&& final(self).inodes@[parent_inode as int] == with_extent(old(self).inodes@[parent_inode as int],
                    final(self).inodes@[parent_inode as int].first_block, final(self).inodes@[parent_inode as int].end_block,
                    final(self).inodes@[parent_inode as int].total_file_size)
                &&& final(self).inodes@[n as int].total_file_size == ceil_div(512, old(self).bs()) * old(self).bs()
                &&& final(self).entries(parent_inode as int) == old(self).entries(parent_inode as int).push((n, name_slot(text_bytes(&name))))
                &&& forall|j: int| 0 <= j < old(self).icount() && j != n && j != parent_inode ==> final(self).inodes@[j] == old(self).inodes@[j]
            },
            r matches Some(n) ==> (old(self).consistent() ==> final(self).consistent() && final(self).others_kept(old(self), n as int, parent_inode as int)),
    {
        let nm: &[u8] = name.as_str().as_bytes();
        let none: Vec<u8> = Vec::new();
        self.create_inode(parent_inode, nm, true, none.as_slice())
    }

    /// Adds an entry `name` for inode `deploy_inode` to directory
    /// `parent_inode` and counts the new link. Fails with `EINVFD` on an inode
    /// not in use or a parent that is not a readable directory, and with
    /// `ENSTOR` when the directory's content finds no room or the link count
    /// is full.
    pub fn hardlink(&mut self, parent_inode: u32, deploy_inode: u32, name: String) -> (r: VfsResult)
        requires
            old(self).wf(),
        ensures
            final(self).wf(),
            r is Err ==> final(self).same(old(self)),
            !old(self).dir_readable(parent_inode as int) || !old(self).live(deploy_inode as int)
                ==> r == Err::<(), VfsErrno>(VfsErrno::EINVFD),
            old(self).dir_readable(parent_inode as int) && old(self).live(deploy_inode as int)
                && old(self).inodes@[deploy_inode as int].hard_link_count < u16::MAX
                && crate::bitmap::has_run(old(self).data_use_table@, ceil_div(256 * (old(self).entries(parent_inode as int).len() as int + 1), old(self).bs()))
                ==> r is Ok,
            r is Ok ==> {
                &&& old(self).dir_readable(parent_inode as int)
                &&& old(self).live(deploy_inode as int)
                &&& final(self).dir_readable(parent_inode as int)
                &&& final(self).entries(parent_inode as int) == old(self).entries(parent_inode as int).push((deploy_inode, name_slot(text_bytes(&name))))
                &&& final(self).inodes@[deploy_inode as int].hard_link_count == old(self).inodes@[deploy_inode as int].hard_link_count + 1
                &&& deploy_inode != parent_inode ==> final(self).inodes@[deploy_inode as int] == Inode {
                    hard_link_count: (old(self).inodes@[deploy_inode as int].hard_link_count + 1) as u16,
                    ..old(self).inodes@[deploy_inode as int]
                }
                &&& forall|j: int| 0 <= j < old(self).icount() && j != parent_inode && j != deploy_inode ==> final(self).inodes@[j] == old(self).inodes@[j]
            },
            r is Ok && old(self).consistent() ==> final(self).consistent() && final(self).others_kept(old(self), parent_inode as int, parent_inode as int),
    {
        if !self.check_inode(parent_inode) || !self.check_inode(deploy_inode) {
            return Err(VfsErrno::EINVFD);
        }
        let mut p = match Dentry::from_internal(parent_inode, self) {
            None => {
                return Err(VfsErrno::EINVFD);
            },
            Some(p) => p,
        };
        if self.inodes[deploy_inode as usize].hard_link_count == u16::MAX {
            return Err(VfsErrno::ENSTOR);
        }
        let nm: &[u8] = name.as_str().as_bytes();
        let ghost old_es = p.entries();
        p.intern.push(DentryEntry { inum: deploy_inode, filename_cstr: name_to_slot(nm) });
        assert(p.entries() =~= old_es.push((deploy_inode, name_slot(nm@))));
        proof {
            let es = p.entries();
            assert forall|i: int| 0 <= i < es.len() implies (#[trigger] es[i]).1.len() == 252 by {
                if i < old_es.len() {
                    assert(es[i] == old_es[i]);
                }
            }
            assert forall|i: int| 0 <= i < es.len() implies (#[trigger] es[i]).0 != 0 by {
                if i < old_es.len() {
                    assert(es[i] == old_es[i]);
                }
            }
        }
        let ghost o = *self;
        let ghost n: int = p.entries().len() as int;
        let ghost cp: int = ceil_div(256 * n, o.bs());
        let ghost owed: bool = crate::bitmap::has_run(o.data_use_table@, cp);
        let rw = p.write_back(self, false);
        if rw.is_err() {
            proof {
                if owed {
                    lemma_ceil(256 * n, o.bs());
                    let t = choose|t: int| free_run(o.data_use_table@, t, cp);
                    lemma_run_fits(o, t, 0, cp);
                    assert forall|l: int| 256 * n <= l < 256 * n + o.bs() && l % o.bs() == 0 implies o.room_for(l) by {
                        lemma_padded_blocks(l, 256 * n, o.bs());
                    }
                }
            }
            return Err(VfsErrno::ENSTOR);
        }
        let ghost mid = *self;
        let mut t: Inode = self.inodes[deploy_inode as usize];
        t.hard_link_count = t.hard_link_count + 1;
        self.inodes.set(deploy_inode as usize, t);
        proof {
            assert forall|j: int| 0 <= j < self.icount() && (#[trigger] self.inodes@[j]).num != 0 implies self.extent_ok(self.inodes@[j]) by {
                assert(mid.extent_ok(mid.inodes@[j]));
            }
            assert forall|j: int| 0 <= j < self.icount() && (#[trigger] self.inodes@[j]).num != 0 implies bit(self.inode_use_cache@, j) by {
                assert(mid.inodes@[j].num != 0);
            }
            assert(self.content(parent_inode as int) == mid.content(parent_inode as int));
            if o.consistent() {
                assert forall|i: int, k: int| 0 <= i < self.icount() && self.inodes@[i].num != 0 && #[trigger] in_extent(self.inodes@[i], k)
                    implies bit(self.data_use_table@, k) by {
                    assert(in_extent(mid.inodes@[i], k));
                }
                assert forall|i: int, j: int| 0 <= i < self.icount() && 0 <= j < self.icount() && i != j
                    && self.inodes@[i].num != 0 && self.inodes@[j].num != 0
                    implies !#[trigger] extents_overlap(self.inodes@[i], self.inodes@[j]) by {
                    assert(!extents_overlap(mid.inodes@[i], mid.inodes@[j]));
                }
                assert forall|j: int| 0 <= j < o.icount() && j != parent_inode && j != parent_inode && o.inodes@[j].num != 0
                    implies #[trigger] self.content(j) == o.content(j) by {
                    assert(self.content(j) == mid.content(j));
                }
            }
        }
        Ok(())
    }

    /// Removes the entry of inode `inode` from directory `dir_inode`; when that
    /// was the inode's last link, its blocks (zero-filled) and its record are
    /// freed. Fails with `EINVFD` on an inode not in use, on the last link of
    /// the root (inode 1, which is never freed), a directory that is not one,
    /// `inode == dir_inode`, a directory without an entry for the
    /// inode, or a first such entry named `.` or `..`; fails with `ENSTOR`
    /// (changing nothing) when the shrunken directory finds no room.
    pub fn delete_file(&mut self, inode: u32, dir_inode: u32) -> (r: VfsResult)
        requires
            old(self).wf(),
        ensures
            final(self).wf(),
            r is Err ==> final(self).same(old(self)),
            (!old(self).live(inode as int) || !old(self).dir_readable(dir_inode as int) || inode == dir_inode)
                ==> r == Err::<(), VfsErrno>(VfsErrno::EINVFD),
            old(self).dir_readable(dir_inode as int) && (forall|k: int| 0 <= k < old(self).entries(dir_inode as int).len()
                ==> old(self).entries(dir_inode as int)[k].0 != inode) ==> r == Err::<(), VfsErrno>(VfsErrno::EINVFD),
            (forall|k: int| first_entry_of(old(self).entries(dir_inode as int), inode, k) ==> is_dot_name(old(self).entries(dir_inode as int)[k].1))
                ==> r == Err::<(), VfsErrno>(VfsErrno::EINVFD),
            inode == 1 && old(self).inodes@[1].hard_link_count <= 1 ==> r == Err::<(), VfsErrno>(VfsErrno::EINVFD),
            old(self).live(inode as int) && old(self).dir_readable(dir_inode as int) && inode != dir_inode
                && (inode != 1 || old(self).inodes@[1].hard_link_count > 1)
                && (exists|k: int| first_entry_of(old(self).entries(dir_inode as int), inode, k) && !is_dot_name(old(self).entries(dir_inode as int)[k].1))
                && crate::bitmap::has_run(old(self).data_use_table@, ceil_div(256 * (old(self).entries(dir_inode as int).len() - 1), old(self).bs()))
                ==> r is Ok,
            r is Ok ==> {
                let es = old(self).entries(dir_inode as int);
                let links = old(self).inodes@[inode as int].hard_link_count;
                &&& old(self).live(inode as int)
                &&& old(self).dir_readable(dir_inode as int)
                &&& inode != dir_inode
                &&& exists|k: int| first_entry_of(es, inode, k) && !is_dot_name(es[k].1) && final(self).entries(dir_inode as int) == es.remove(k)
                &&& final(self).dir_readable(dir_inode as int)
                &&& links <= 1 ==> !final(self).live(inode as int) && !bit(final(self).inode_use_cache@, inode as int)
                    && final(self).inodes@[inode as int] == empty_inode()
                &&& final(self).inodes@[dir_inode as int] == with_extent(old(self).inodes@[dir_inode as int],
                    final(self).inodes@[dir_inode as int].first_block, final(self).inodes@[dir_inode as int].end_block,
                    final(self).inodes@[dir_inode as int].total_file_size)
                &&& links > 1 ==> final(self).live(inode as int) && final(self).inodes@[inode as int]
                    == Inode { hard_link_count: (links - 1) as u16, ..old(self).inodes@[inode as int] }
                &&& links > 1 && old(self).consistent() ==> final(self).content(inode as int) == old(self).content(inode as int)
                &&& forall|j: int| 0 <= j < old(self).icount() && j != inode && j != dir_inode ==> final(self).inodes@[j] == old(self).inodes@[j]
            },
            r is Ok && old(self).consistent() ==> final(self).consistent() && final(self).others_kept(old(self), inode as int, dir_inode as int),
    {
        if !self.check_inode(inode) || !self.check_inode(dir_inode) || inode == dir_inode {
            return Err(VfsErrno::EINVFD);
        }
        if inode == 1 && self.inodes[1].hard_link_count <= 1 {
            return Err(VfsErrno::EINVFD);
        }
        let d = match Dentry::from_internal(dir_inode, self) {
            None => {
                return Err(VfsErrno::EINVFD);
            },
            Some(d) => d,
        };
        let ghost es = d.entries();
        let ghost o0 = *self;
        let ghost cp: int = ceil_div(256 * (es.len() - 1), o0.bs());
        let ghost owed: bool = (exists|k: int| first_entry_of(es, inode, k) && !is_dot_name(es[k].1))
            && crate::bitmap::has_run(o0.data_use_table@, cp);
        let ghost w: int = if owed { choose|k: int| first_entry_of(es, inode, k) && !is_dot_name(es[k].1) } else { 0 };
        let ghost t: int = if owed { choose|t: int| free_run(o0.data_use_table@, t, cp) } else { 0 };
        let mut k: usize = 0;
        while k < d.intern.len() && d.intern[k].inum != inode
            invariant
                k <= d.intern@.len(),
                es == d.entries(),
                forall|j: int| 0 <= j < k ==> es[j].0 != inode,
            decreases d.intern@.len() - k,
        {
            assert(es[k as int] == d.intern@[k as int]@);
            k = k + 1;
        }
        if k == d.intern.len() {
            proof {
                if owed {
                    assert(es[w].0 == inode);
                }
            }
            return Err(VfsErrno::EINVFD);
        }
        assert(es[k as int] == d.intern@[k as int]@);
        assert(first_entry_of(es, inode, k as int));
        let dot: Vec<u8> = vec![46u8];
        let dotdot: Vec<u8> = vec![46u8, 46u8];
        assert(dot@ =~= seq![46u8]);
        assert(dotdot@ =~= seq![46u8, 46u8]);
        if slot_name_is(d.intern[k].filename_cstr.as_slice(), dot.as_slice())
            || slot_name_is(d.intern[k].filename_cstr.as_slice(), dotdot.as_slice()) {
            proof {
                if owed {
                    assert(w == k) by {
                        if w < k {
                            assert(es[w].0 == inode);
                        } else if w > k {
                            assert(es[k as int].0 == inode);
                        }
                    }
                }
            }
            return Err(VfsErrno::EINVFD);
        }
        let mut d2 = d;
        d2.intern.remove(k);
        assert(d2.entries() =~= es.remove(k as int));
        let ghost es2 = d2.entries();
        proof {
            assert forall|i: int| 0 <= i < es2.len() implies (#[trigger] es2[i]).1.len() == 252 && es2[i].0 != 0 by {
                if i < k {
                    assert(es2[i] == es[i]);
                } else {
                    assert(es2[i] == es[i + 1]);
                }
            }
        }
        let bs: usize = self.sup.data_block_size as usize;
        let dl: usize = self.data.len();
        let m: usize = d2.intern.len();
        proof {
            lemma_ceil(256 * (es.len() - 1), o0.bs());
            if owed {
                lemma_run_fits(o0, t, 0, cp);
            }
        }
        assert(bs <= usize::MAX - dl);
        if m > dl / 256 {
            return Err(VfsErrno::ENSTOR);
        }
        let pba = d2.encode_padded(bs);
        proof {
            lemma_padded_blocks(pba@.len() as int, 256 * es2.len() as int, bs as int);
        }
        if pba.len() > dl {
            return Err(VfsErrno::ENSTOR);
        }
        let ino: Inode = self.inodes[inode as usize];
        let frees: bool = ino.hard_link_count <= 1;
        proof {
            assert(self.extent_ok(ino));
        }
        let mut scratch = crate::bitmap::copy_map(&self.data_use_table);
        if frees && ino.first_block <= ino.end_block {
            clear_range(&mut scratch, ino.first_block, ino.end_block + 1);
        }
        let pbc: u64 = fastceildiv(pba.len() as u64, bs as u64);
        proof {
            if owed && pbc > 0 {
                assert(pbc == cp);
                assert(free_run(scratch@, t, pbc as int));
            }
        }
        if pbc > 0 && first_free_run(&scratch, pbc).is_none() {
            return Err(VfsErrno::ENSTOR);
        }
        let ghost o = *self;
        if frees {
            if ino.first_block <= ino.end_block {
                self.clear_data(ino.first_block, ino.end_block);
            }
            self.clear_inode(inode);
        } else {
            let mut ni: Inode = ino;
            ni.hard_link_count = ino.hard_link_count - 1;
            self.inodes.set(inode as usize, ni);
            proof {
                assert forall|j: int| 0 <= j < self.icount() && (#[trigger] self.inodes@[j]).num != 0 implies self.extent_ok(self.inodes@[j]) by {
                    assert(o.extent_ok(o.inodes@[j]));
                }
                assert forall|j: int| 0 <= j < self.icount() && (#[trigger] self.inodes@[j]).num != 0 implies bit(self.inode_use_cache@, j) by {
                    assert(o.inodes@[j].num != 0);
                }
            }
        }
        let ghost o2 = *self;
        proof {
            crate::bitmap::lemma_same_bits_same_runs(scratch@, self.data_use_table@, pbc as int);
            assert(self.room_for(pba@.len() as int));
            if o.consistent() {
                assert(o.extent_ok(ino));
                assert forall|i: int| 0 <= i < self.icount() && self.inodes@[i].num != 0 implies
                    (#[trigger] self.inodes@[i]).first_block == o.inodes@[i].first_block
                    && self.inodes@[i].end_block == o.inodes@[i].end_block && o.inodes@[i].num != 0
                    && (frees ==> i != inode) by {
                    if i != inode {
                        assert(self.inodes@[i] == o.inodes@[i]);
                    }
                }
                assert forall|i: int, b: int| 0 <= i < self.icount() && self.inodes@[i].num != 0 && #[trigger] in_extent(self.inodes@[i], b)
                    implies bit(self.data_use_table@, b) by {
                    assert(in_extent(o.inodes@[i], b));
                    assert(bit(o.data_use_table@, b));
                    assert(o.extent_ok(o.inodes@[i]));
                    if frees && in_extent(ino, b) {
                        assert(extents_overlap(o.inodes@[i], o.inodes@[inode as int]));
                    }
                }
                assert forall|i: int, j: int| 0 <= i < self.icount() && 0 <= j < self.icount() && i != j
                    && self.inodes@[i].num != 0 && self.inodes@[j].num != 0
                    implies !#[trigger] extents_overlap(self.inodes@[i], self.inodes@[j]) by {
                    assert(o.inodes@[i].num != 0 && o.inodes@[j].num != 0);
                    assert(!extents_overlap(o.inodes@[i], o.inodes@[j]));
                }
                assert(self.consistent());
                assert forall|j: int| 0 <= j < o.icount() && j != inode && j != dir_inode && o.inodes@[j].num != 0
                    implies #[trigger] self.content(j) == o.content(j) by {
                    let rj = o.inodes@[j];
                    assert(o.extent_ok(rj));
                    assert(!extents_overlap(rj, ino));
                    assert forall|b: int| 0 <= b < o.data@.len() && in_extent_bytes(rj, o.bs(), b) implies self.data@[b] == o.data@[b] by {
                        if frees && ino.first_block <= ino.end_block {
                            lemma_bytes_apart(rj, ino, o.bs(), b);
                        }
                    }
                    self.lemma_content_kept(&o, j);
                }
            }
        }
        let rd = self.overwrite_inode(dir_inode, pba.as_slice());
        assert(rd is Ok);
        proof {
            lemma_padded_decodes(es2, pba@, bs as int);
            assert(self.entries(dir_inode as int) == es.remove(k as int));
            assert(!is_dot_name(es[k as int].1));
        }
        proof {
            if o.consistent() {
                assert forall|j: int| 0 <= j < o.icount() && j != inode && j != dir_inode && o.inodes@[j].num != 0
                    implies #[trigger] self.content(j) == o.content(j) by {
                    assert(o2.content(j) == o.content(j));
                    assert(o2.inodes@[j].num != 0);
                }
                if !frees {
                    assert(o2.content(inode as int) == o.content(inode as int));
                    assert(o2.inodes@[inode as int].num != 0);
                    assert(self.content(inode as int) == o2.content(inode as int));
                }
            }
        }
        Ok(())
    }
}

} // verus!

verus! {

/// `n` zero bytes.
fn zeros(n: usize) -> (r: Vec<u8>)
    ensures
        r@.len() == n,
        forall|i: int| 0 <= i < n ==> r@[i] == 0,
{
    let mut r: Vec<u8> = Vec::new();
    let mut j: usize = 0;
    while j < n
        invariant
            j <= n,
            r@.len() == j,
            forall|i: int| 0 <= i < j ==> r@[i] == 0,
        decreases n - j,
    {
        r.push(0u8);
        j = j + 1;
    }
    r
}

/// The parameters that a new filesystem accepts.
pub open spec fn valid_params(inodes: u32, block_size: u32, num_blocks: u64) -> bool {
    &&& inodes % 8 == 0
    &&& inodes >= 8
    &&& block_size % 256 == 0
    &&& block_size > 0
    &&& num_blocks >= 8
    &&& block_size as int * num_blocks <= u64::MAX
    &&& image_len(inodes as int, block_size as int, num_blocks as int) + block_size <= usize::MAX
}

impl FileSystem {
    /// A filesystem with no inode and no block in use but block 0, and a root
    /// record (inode 1) that owns no blocks.
    fn blank(inodes: u32, block_size: u32, num_blocks: u64) -> (r: FileSystem)
        requires
            valid_params(inodes, block_size, num_blocks),
        ensures
            r.wf(),
            r.sup == sup_of(inodes, block_size, num_blocks),
            r.data@.len() == block_size as int * num_blocks,
            r.live(1),
            r.inodes@[1].first_block > r.inodes@[1].end_block,
            r.inodes@[1].total_file_size == 0,
            r.inodes@[1].perms == 0o10755u16,
            r.inodes@[1].hard_link_count == 1,
            forall|j: int| 0 <= j < r.icount() && j != 1 ==> r.inodes@[j] == empty_inode(),
            forall|j: int| 0 <= j < r.icount() ==> #[trigger] bit(r.inode_use_cache@, j) == (j == 1),
            forall|j: int| 0 <= j < nbits(r.data_use_table@) ==> #[trigger] bit(r.data_use_table@, j) == (j == 0),
            nbits(r.data_use_table@) >= 8,
    {
        let sup = get_sup(inodes, block_size, num_blocks);
        let mut imap = zeros((inodes / 8) as usize);
        let mut dmap = zeros((num_blocks / 8) as usize);
        let data = zeros(((block_size as u64) * num_blocks) as usize);
        proof {
            crate::bitmap::lemma_zero_map(imap@);
            crate::bitmap::lemma_zero_map(dmap@);
        }
        set_bit(&mut imap, 1);
        set_bit(&mut dmap, 0);
        let mut table: Vec<Inode> = Vec::new();
        let mut j: u32 = 0;
        while j < inodes
            invariant
                j <= inodes,
                table@.len() == j,
                forall|i: int| 0 <= i < j ==> table@[i] == empty_inode(),
            decreases inodes - j,
        {
            table.push(Inode::empty());
            j = j + 1;
        }
        let root = Inode {
            num: 1,
            first_block: 1,
            end_block: 0,
            total_file_size: 0,
            perms: 0o10755u16,
            uid: 0,
            gid: 0,
            hard_link_count: 1,
            accessed: 0,
            modified: 0,
            created: 0,
        };
        table.set(1, root);
        let r = FileSystem { sup, inode_use_cache: imap, inodes: table, data_use_table: dmap, data };
        proof {
            assert(r.extent_ok(root));
            assert forall|i: int| 0 <= i < r.icount() && (#[trigger] r.inodes@[i]).num != 0 implies r.extent_ok(r.inodes@[i]) by {
                assert(i == 1);
            }
            assert forall|i: int| 0 <= i < r.icount() && (#[trigger] r.inodes@[i]).num != 0 implies bit(r.inode_use_cache@, i) by {
                assert(i == 1);
            }
        }
        r
    }

    /// Gives the blank root its entries.
    fn install_root(&mut self, d: Dentry)
        requires
            old(self).wf(),
            old(self).live(1),
            old(self).inodes@[1].first_block > old(self).inodes@[1].end_block,
            old(self).inodes@[1].perms == 0o10755u16,
            forall|j: int| 0 <= j < nbits(old(self).data_use_table@) ==> #[trigger] bit(old(self).data_use_table@, j) == (j == 0),
            nbits(old(self).data_use_table@) >= 8,
            old(self).sup.block_count >= 8,
            old(self).data@.len() + old(self).bs() <= usize::MAX,
            d.inum == 1,
            names_sized(d.entries()),
            all_present(d.entries()),
            1 <= d.entries().len() <= 2,
        ensures
            final(self).wf(),
            final(self).sup == old(self).sup,
            final(self).inode_use_cache@ == old(self).inode_use_cache@,
            final(self).dir_readable(1),
            final(self).entries(1) == d.entries(),
            forall|j: int| 0 <= j < old(self).icount() && j != 1 ==> final(self).inodes@[j] == old(self).inodes@[j],
            final(self).inodes@[1].hard_link_count == old(self).inodes@[1].hard_link_count,
            final(self).inodes@[1].perms == 0o10755u16,
            final(self).inodes@[1].first_block == 1,
            final(self).inodes@[1].total_file_size as int % old(self).bs() == 0,
            256 * d.entries().len() <= final(self).inodes@[1].total_file_size < 256 * d.entries().len() + old(self).bs(),
            extent_blocks(final(self).inodes@[1]) == ceil_div(final(self).inodes@[1].total_file_size as int, old(self).bs()),
            final(self).data_use_table@.len() == old(self).data_use_table@.len(),
            forall|j: int| 0 <= j < nbits(old(self).data_use_table@) ==> #[trigger] bit(final(self).data_use_table@, j)
                == (j == 0 || in_extent(final(self).inodes@[1], j)),
            (forall|j: int| 0 <= j < old(self).icount() && j != 1 ==> old(self).inodes@[j].num == 0) ==> final(self).consistent(),
    {
        let ghost es = d.entries();
        let ghost o = *self;
        let bs: usize = self.sup.data_block_size as usize;
        proof {
            // the content takes at most two blocks, and blocks 1 and 2 are free
            let len = if 256 * es.len() <= bs { bs as int } else { 512int };
            let bc = ceil_div(len, bs as int);
            assert(bc <= 2) by (nonlinear_arith)
                requires
                    bs >= 256,
                    len <= 512 || len == bs,
                    bc == (len + bs - 1) / (bs as int),
            ;
            assert(free_run(self.data_use_table@, 1, 2));
        }
        let r = d.write_back(self, true);
        proof {
            if r is Err {
                assert(free_run(o.data_use_table@, 1, 2));
                lemma_root_fits(o, es.len() as int);
                assert(o.data@.len() >= 512) by (nonlinear_arith)
                    requires
                        o.data@.len() == o.sup.block_count * o.bs(),
                        o.sup.block_count >= 8,
                        o.bs() >= 256,
                ;
                assert(false);
            }
            assert(type_tag(0o10755u16) == 1);
            assert(self.inodes@[1].perms == 0o10755u16);
            let ni = self.inodes@[1];
            let bcr = ceil_div(ni.total_file_size as int, o.bs());
            lemma_ceil(ni.total_file_size as int, o.bs());
            assert(bcr > 0);
            lemma_padded_blocks(ni.total_file_size as int, 256 * es.len() as int, o.bs());
            assert(bcr <= 2) by (nonlinear_arith)
                requires
                    bcr == ceil_div(256 * es.len() as int, o.bs()),
                    ceil_div(256 * es.len() as int, o.bs()) == (256 * es.len() as int + o.bs() - 1) / o.bs(),
                    es.len() <= 2,
                    o.bs() >= 256,
            ;
            assert(free_run(o.data_use_table@, 1, 2));
            assert(free_run(o.data_use_table@, 1, bcr));
            assert(bit(o.data_use_table@, 0));
            assert(!free_run(o.data_use_table@, 0, bcr));
            assert(ni.first_block == 1);
            if forall|j: int| 0 <= j < o.icount() && j != 1 ==> o.inodes@[j].num == 0 {
                assert forall|i: int, k: int| 0 <= i < self.icount() && self.inodes@[i].num != 0 && #[trigger] in_extent(self.inodes@[i], k)
                    implies bit(self.data_use_table@, k) by {
                    if i != 1 {
                        assert(o.inodes@[i].num == 0);
                    }
                }
                assert forall|i: int, j: int| 0 <= i < self.icount() && 0 <= j < self.icount() && i != j
                    && self.inodes@[i].num != 0 && self.inodes@[j].num != 0
                    implies !#[trigger] extents_overlap(self.inodes@[i], self.inodes@[j]) by {
                    if i != 1 {
                        assert(o.inodes@[i].num == 0);
                    } else {
                        assert(o.inodes@[j].num == 0);
                    }
                }
            }
        }
    }

    /// The filesystem used by default: 256 inodes and 1024 blocks of 4096
    /// bytes, whose root directory holds `.`.
    pub fn create_test_fs() -> (r: Self)
        ensures
            r.wf(),
            r.sup == sup_of(256, 4096, 1024),
            r.dir_readable(1),
            r.entries(1) == seq![(1u32, name_slot(seq![46u8]))],
            r.inodes@[1].hard_link_count == 1,
            r.inodes@[1].perms == 0o10755u16,
            r.inodes@[1].first_block == 1,
            r.inodes@[1].end_block == 1,
            r.inodes@[1].total_file_size == 4096,
            r.consistent(),
            forall|j: int| 0 <= j < r.icount() && j != 1 ==> r.inodes@[j] == empty_inode(),
            forall|j: int| 0 <= j < r.icount() && j != 1 ==> !r.live(j),
            forall|j: int| 0 <= j < r.icount() ==> #[trigger] bit(r.inode_use_cache@, j) == (j == 1),
            nbits(r.data_use_table@) == 1024,
            forall|j: int| 0 <= j < nbits(r.data_use_table@) ==> #[trigger] bit(r.data_use_table@, j) == (j <= 1),
    {
        let mut fs = FileSystem::blank(256, 4096, 1024);
        let dot: Vec<u8> = vec![46u8];
        assert(dot@ =~= seq![46u8]);
        let mut v: Vec<DentryEntry> = Vec::new();
        v.push(DentryEntry { inum: 1, filename_cstr: name_to_slot(dot.as_slice()) });
        let d = Dentry { intern: v, inum: 1 };
        assert(d.entries() =~= seq![(1u32, name_slot(seq![46u8]))]);
        assert(fs.data@.len() + fs.bs() <= usize::MAX);
        fs.install_root(d);
        proof {
            let ni = fs.inodes@[1];
            lemma_padded_blocks(ni.total_file_size as int, 256, fs.bs());
        }
        fs
    }
}

/// A new filesystem of `inodes` inodes and `num_blocks` blocks of
/// `block_size` bytes, whose root directory holds `.` and `..`.
pub fn mknrfs(inodes: u32, block_size: u32, num_blocks: u64) -> (r: FileSystem)
    requires
        valid_params(inodes, block_size, num_blocks),
    ensures
        r.wf(),
        r.sup == sup_of(inodes, block_size, num_blocks),
        r.dir_readable(1),
        r.entries(1) == new_dir_entries(1, 1),
        r.inodes@[1].hard_link_count == 1,
        r.inodes@[1].perms == 0o10755u16,
        r.inodes@[1].first_block == 1,
        r.inodes@[1].end_block == ceil_div(512, block_size as int),
        r.inodes@[1].total_file_size == ceil_div(512, block_size as int) * block_size,
        r.consistent(),
        forall|j: int| 0 <= j < r.icount() && j != 1 ==> r.inodes@[j] == empty_inode(),
        forall|j: int| 0 <= j < r.icount() && j != 1 ==> !r.live(j),
        forall|j: int| 0 <= j < r.icount() ==> #[trigger] bit(r.inode_use_cache@, j) == (j == 1),
        nbits(r.data_use_table@) == (num_blocks / 8) * 8,
        forall|j: int| 0 <= j < nbits(r.data_use_table@) ==> #[trigger] bit(r.data_use_table@, j) == (j <= r.inodes@[1].end_block),
{
    let mut fs = FileSystem::blank(inodes, block_size, num_blocks);
    let d = fs.dot_entries(1, 1);
    assert(fs.data@.len() + fs.bs() <= usize::MAX);
    assert(d.entries().len() == 2);
    fs.install_root(d);
    proof {
        let ni = fs.inodes@[1];
        lemma_padded_blocks(ni.total_file_size as int, 512, fs.bs());
        assert(extent_blocks(ni) == ceil_div(512, fs.bs()));
    }
    fs
}


proof fn lemma_root_fits(o: FileSystem, n: int)
    requires
        o.wf(),
        1 <= n <= 2,
        free_run(o.data_use_table@, 1, 2),
    ensures
        forall|l: int| 256 * n <= l < 256 * n + o.bs() && l % o.bs() == 0 ==> o.room_for(l),
{
    assert forall|l: int| 256 * n <= l < 256 * n + o.bs() && l % o.bs() == 0 implies o.room_for(l) by {
        let b = o.bs();
        let bc = ceil_div(l, b);
        assert(bc <= 2) by (nonlinear_arith)
            requires
                b >= 256,
                256 * n <= l < 256 * n + b,
                n <= 2,
                l % b == 0,
                bc == (l + b - 1) / b,
        {
            let q = l / b;
            assert(l == q * b);
            if l <= b {
                assert((l + b - 1) / b <= 1);
            } else {
                assert(l <= 512 + b);
            }
        }
        assert(free_run(o.data_use_table@, 1, bc));
        assert(l <= 2 * b) by (nonlinear_arith)
            requires
                b >= 256,
                l < 512 + b,
                l % b == 0,
        {
            let q = l / b;
            assert(l == q * b);
            if q >= 3 {
                assert(q * b >= 3 * b);
            }
        }
        assert(l <= o.data@.len()) by (nonlinear_arith)
            requires
                l <= 2 * b,
                o.data@.len() == o.sup.block_count * b,
                o.sup.block_count >= 8,
                b > 0,
        {
        }
    }
}

} // verus!

verus! {

/// The bytes of extents that share no block are apart.
proof fn lemma_bytes_apart(a: Inode, b: Inode, bs: int, k: int)
    requires
        bs > 0,
        a.first_block <= a.end_block + 1,
        b.first_block <= b.end_block + 1,
        !extents_overlap(a, b),
        in_extent_bytes(a, bs, k),
    ensures
        !in_extent_bytes(b, bs, k),
{
    if a.first_block > a.end_block {
        assert(a.first_block == a.end_block + 1);
    } else if b.first_block > b.end_block {
        assert(b.first_block == b.end_block + 1);
    } else {
        lemma_disjoint_bytes(a.first_block as int, a.end_block + 1 - a.first_block, b.first_block as int,
            b.end_block + 1 - b.first_block, bs, k);
    }
}

/// Moving the extent of record `i` to blocks that were free, and freeing its
/// old blocks, keeps the map and the extents in agreement and leaves every
/// other record's bytes alone.
proof fn lemma_replace_extent(o: FileSystem, f: FileSystem, i: int)
    requires
        o.wf(),
        f.wf(),
        o.consistent(),
        o.live(i),
        f.sup == o.sup,
        f.data_use_table@.len() == o.data_use_table@.len(),
        f.data@.len() == o.data@.len(),
        f.inodes@ == o.inodes@.update(i, f.inodes@[i]),
        f.inodes@[i].num == o.inodes@[i].num,
        forall|k: int| #[trigger] in_extent(f.inodes@[i], k) ==> 0 <= k < nbits(o.data_use_table@) && !bit(o.data_use_table@, k),
        forall|j: int| 0 <= j < nbits(o.data_use_table@) ==> #[trigger] bit(f.data_use_table@, j)
            == ((bit(o.data_use_table@, j) || in_extent(f.inodes@[i], j)) && !in_extent(o.inodes@[i], j)),
        forall|k: int| 0 <= k < o.data@.len() && !in_extent_bytes(o.inodes@[i], o.bs(), k) && !in_extent_bytes(f.inodes@[i], o.bs(), k)
            ==> #[trigger] f.data@[k] == o.data@[k],
    ensures
        f.consistent(),
        f.others_kept(&o, i, i),
{
    let oi = o.inodes@[i];
    let ni = f.inodes@[i];
    assert(o.extent_ok(oi));
    assert(f.extent_ok(ni));
    assert forall|a: int, k: int| 0 <= a < f.icount() && f.inodes@[a].num != 0 && #[trigger] in_extent(f.inodes@[a], k)
        implies bit(f.data_use_table@, k) by {
        if a == i {
            if in_extent(oi, k) {
                assert(in_extent(o.inodes@[i], k));
                assert(bit(o.data_use_table@, k));
            }
        } else {
            assert(f.inodes@[a] == o.inodes@[a]);
            assert(bit(o.data_use_table@, k));
            assert(o.extent_ok(o.inodes@[a]));
            if in_extent(oi, k) {
                assert(extents_overlap(o.inodes@[a], o.inodes@[i]));
            }
        }
    }
    assert forall|a: int, b: int| 0 <= a < f.icount() && 0 <= b < f.icount() && a != b
        && f.inodes@[a].num != 0 && f.inodes@[b].num != 0
        implies !#[trigger] extents_overlap(f.inodes@[a], f.inodes@[b]) by {
        if a == i || b == i {
            let j = if a == i { b } else { a };
            assert(f.inodes@[j] == o.inodes@[j]);
            if extents_overlap(f.inodes@[a], f.inodes@[b]) {
                let rj = o.inodes@[j];
                let k: int = if ni.first_block >= rj.first_block { ni.first_block as int } else { rj.first_block as int };
                assert(in_extent(ni, k));
                assert(in_extent(rj, k));
                assert(bit(o.data_use_table@, k));
            }
        } else {
            assert(f.inodes@[a] == o.inodes@[a]);
            assert(f.inodes@[b] == o.inodes@[b]);
        }
    }
    assert forall|j: int| 0 <= j < o.icount() && j != i && j != i && o.inodes@[j].num != 0
        implies #[trigger] f.content(j) == o.content(j) by {
        let rj = o.inodes@[j];
        assert(o.extent_ok(rj));
        assert(!extents_overlap(rj, oi));
        assert(!extents_overlap(rj, ni)) by {
            if extents_overlap(rj, ni) {
                let k: int = if ni.first_block >= rj.first_block { ni.first_block as int } else { rj.first_block as int };
                assert(in_extent(ni, k));
                assert(in_extent(rj, k));
                assert(bit(o.data_use_table@, k));
            }
        }
        assert forall|k: int| 0 <= k < o.data@.len() && in_extent_bytes(rj, o.bs(), k) implies f.data@[k] == o.data@[k] by {
            lemma_bytes_apart(rj, oi, o.bs(), k);
            lemma_bytes_apart(rj, ni, o.bs(), k);
        }
        f.lemma_content_kept(&o, j);
    }
}

} // verus!

verus! {

/// Giving a free record `n` the blocks `[fb, fb + bc)`, which were free before
/// and are now marked, keeps the map and the extents in agreement.
proof fn lemma_new_record(o: FileSystem, ad: FileSystem, f: FileSystem, n: int, dir: int, fb: int, bc: int)
    requires
        o.wf(),
        o.consistent(),
        ad.wf(),
        ad.consistent(),
        f.wf(),
        0 < n < o.icount(),
        o.inodes@[n].num == 0,
        o.live(dir),
        dir != n,
        ad.sup == o.sup,
        f.sup == o.sup,
        ad.data@.len() == o.data@.len(),
        f.data@.len() == o.data@.len(),
        ad.data_use_table@.len() == o.data_use_table@.len(),
        ad.inodes@ == o.inodes@.update(dir, ad.inodes@[dir]),
        ad.inodes@[dir].num == o.inodes@[dir].num,
        ad.others_kept(&o, dir, dir),
        bc >= 0,
        forall|k: int| fb <= k < fb + bc ==> 0 <= k < nbits(o.data_use_table@) && !bit(o.data_use_table@, k) && bit(ad.data_use_table@, k),
        forall|k: int| #[trigger] in_extent(ad.inodes@[dir], k) ==> !(fb <= k < fb + bc),
        f.inodes@ == ad.inodes@.update(n, f.inodes@[n]),
        f.inodes@[n].num != 0,
        bc > 0 ==> f.inodes@[n].first_block == fb && f.inodes@[n].end_block == fb + bc - 1,
        bc == 0 ==> f.inodes@[n].first_block > f.inodes@[n].end_block,
        f.data_use_table@ == ad.data_use_table@,
        forall|k: int| 0 <= k < o.data@.len() && !(fb * o.bs() <= k < (fb + bc) * o.bs()) ==> #[trigger] f.data@[k] == ad.data@[k],
    ensures
        f.consistent(),
        f.others_kept(&o, n, dir),
{
    let rn = f.inodes@[n];
    // the new blocks are apart from every live extent
    assert forall|j: int, k: int| 0 <= j < o.icount() && j != n && ad.inodes@[j].num != 0 && #[trigger] in_extent(ad.inodes@[j], k)
        implies !(fb <= k < fb + bc) by {
        if j != dir {
            assert(ad.inodes@[j] == o.inodes@[j]);
            assert(bit(o.data_use_table@, k));
        }
    }
    assert forall|a: int, k: int| 0 <= a < f.icount() && f.inodes@[a].num != 0 && #[trigger] in_extent(f.inodes@[a], k)
        implies bit(f.data_use_table@, k) by {
        if a != n {
            assert(f.inodes@[a] == ad.inodes@[a]);
        }
    }
    assert forall|a: int, b: int| 0 <= a < f.icount() && 0 <= b < f.icount() && a != b
        && f.inodes@[a].num != 0 && f.inodes@[b].num != 0
        implies !#[trigger] extents_overlap(f.inodes@[a], f.inodes@[b]) by {
        if a == n || b == n {
            let j = if a == n { b } else { a };
            assert(f.inodes@[j] == ad.inodes@[j]);
            if extents_overlap(f.inodes@[a], f.inodes@[b]) {
                let rj = ad.inodes@[j];
                let k: int = if rn.first_block >= rj.first_block { rn.first_block as int } else { rj.first_block as int };
                assert(in_extent(rn, k));
                assert(in_extent(rj, k));
            }
        } else {
            assert(f.inodes@[a] == ad.inodes@[a]);
            assert(f.inodes@[b] == ad.inodes@[b]);
        }
    }
    assert forall|j: int| 0 <= j < o.icount() && j != n && j != dir && o.inodes@[j].num != 0
        implies #[trigger] f.content(j) == o.content(j) by {
        let rj = o.inodes@[j];
        assert(ad.inodes@[j] == rj);
        assert(f.inodes@[j] == rj);
        assert(o.extent_ok(rj));
        assert forall|k: int| 0 <= k < o.data@.len() && in_extent_bytes(rj, o.bs(), k) implies f.data@[k] == ad.data@[k] by {
            if fb * o.bs() <= k < (fb + bc) * o.bs() && bc > 0 {
                let r = Inode { first_block: fb as u64, end_block: (fb + bc - 1) as u64, ..rn };
                assert(r.first_block == fb && r.end_block == fb + bc - 1) by {
                    assert(0 <= fb && fb + bc - 1 < nbits(o.data_use_table@));
                }
                assert(!extents_overlap(rj, r)) by {
                    if extents_overlap(rj, r) {
                        let q: int = if r.first_block >= rj.first_block { r.first_block as int } else { rj.first_block as int };
                        assert(in_extent(rj, q));
                        assert(in_extent(ad.inodes@[j], q));
                    }
                }
                lemma_bytes_apart(rj, r, o.bs(), k);
            }
        }
        f.lemma_content_kept(&ad, j);
        assert(ad.content(j) == o.content(j));
    }
}

} // verus!
