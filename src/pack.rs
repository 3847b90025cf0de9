//! Packing a directory tree into an image, and unpacking one. The tree is a
//! flat list in which every entry names its parent by index, parents first;
//! reading and writing the host filesystem is left to the caller.
use vstd::prelude::*;
use crate::vfs::image::image_ok;
use crate::vfs::infs::{image_len, mknrfs, new_file_perms, tag_of, text_bytes, type_tag, valid_params, FileSystem};
use crate::vfs::dentry::{name_slot, EntryView};
use crate::bitmap::bit;
use crate::common::cstr_prefix;
use vstd::utf8::{decode_utf8, valid_utf8};
use crate::vfs::FileDescriptor;

verus! {

/// What an entry of a tree is.
#[derive(Clone, Copy, Debug, PartialEq, Eq, Structural)]
pub enum EntryKind {
    File,
    Dir,
    /// A symbolic link; its data is the link's target.
    Symlink,
}

/// One entry of a tree: its parent (`None` for the root), kind, name and
/// bytes (a file's content, a link's target, nothing for a directory).
pub struct PackEntry {
    pub parent: Option<usize>,
    pub kind: EntryKind,
    pub name: String,
    pub data: Vec<u8>,
}

/// Why packing or unpacking failed.
#[derive(Clone, Copy, Debug, PartialEq, Eq, Structural)]
pub enum PackError {
    /// The counts do not make a filesystem.
    BadParams,
    /// An entry's parent is not an earlier directory.
    BadParent,
    /// An inode or a run of blocks could not be had.
    NoSpace,
    /// The buffer is not an image.
    BadImage,
    /// A name is not UTF-8.
    BadName,
    /// An inode's type tag is unknown.
    UnknownType,
    /// Directories nest deeper than there are inodes.
    TooDeep,
}

/// Mode given to symbolic links.
pub const SYMLINK_PERMS: u16 = 0o20777;

/// Every entry's parent comes before it.
pub open spec fn parents_first(es: Seq<PackEntry>) -> bool {
    forall|j: int| 0 <= j < es.len() ==> match (#[trigger] es[j]).parent {
        Some(p) => p < j,
        None => true,
    }
}

/// The inode of the directory that holds entry `i`, given the inodes that the
/// earlier entries received.
pub open spec fn parent_ino(es: Seq<PackEntry>, inos: Seq<u32>, i: int) -> u32 {
    match es[i].parent {
        None => 1u32,
        Some(p) => inos[p as int],
    }
}

/// A directory listing holds the entry `(n, name)`.
pub open spec fn has_entry(es: Seq<EntryView>, n: u32, name: Seq<u8>) -> bool {
    exists|k: int| 0 <= k < es.len() && #[trigger] es[k] == (n, name)
}

/// Entry `i` stands in `fs` as inode `inos[i]`: named in its parent
/// directory; a directory; or a file (a link) holding its data with the mode
/// of a new file (of a link).
pub open spec fn holds_entry(fs: FileSystem, es: Seq<PackEntry>, inos: Seq<u32>, i: int) -> bool {
    let n = inos[i];
    let p = parent_ino(es, inos, i);
    &&& fs.live(n as int)
    &&& fs.dir_readable(p as int)
    &&& has_entry(fs.entries(p as int), n, name_slot(text_bytes(&es[i].name)))
    &&& match es[i].kind {
        EntryKind::Dir => fs.dir_readable(n as int),
        EntryKind::File => fs.content(n as int) == es[i].data@ && fs.inodes@[n as int].perms == new_file_perms(),
        EntryKind::Symlink => fs.content(n as int) == es[i].data@ && fs.inodes@[n as int].perms == SYMLINK_PERMS,
    }
}

/// Every entry of the tree stands in `fs`, entry `i` as inode `inos[i]`.
pub open spec fn holds_tree(fs: FileSystem, es: Seq<PackEntry>, inos: Seq<u32>) -> bool {
    &&& inos.len() == es.len()
    &&& parents_first(es)
    &&& forall|i: int| 0 <= i < es.len() ==> holds_entry(fs, es, inos, i)
}

/// Adding inode `n` under directory `p` keeps every earlier entry standing.
proof fn lemma_holds_kept(o: FileSystem, f: FileSystem, es: Seq<PackEntry>, inos: Seq<u32>, i: int, n: u32, p: u32, x: EntryView)
    requires
        o.wf(),
        f.wf(),
        f.sup == o.sup,
        0 <= i <= es.len(),
        inos.len() >= i,
        forall|k: int| 0 <= k < i ==> holds_entry(o, es, inos, k),
        0 < n < o.icount(),
        o.inodes@[n as int].num == 0,
        o.dir_readable(p as int),
        p != n,
        forall|j: int| 0 <= j < o.icount() && j != n && j != p ==> f.inodes@[j] == o.inodes@[j],
        f.inodes@[p as int].num == o.inodes@[p as int].num,
        f.inodes@[p as int].perms == o.inodes@[p as int].perms,
        f.entries(p as int) == o.entries(p as int).push(x),
        forall|j: int| 0 <= j < o.icount() && j != n && j != p && o.inodes@[j].num != 0 ==> #[trigger] f.content(j) == o.content(j),
    ensures
        forall|k: int| 0 <= k < i ==> holds_entry(f, es, inos, k),
{
    assert forall|k: int| 0 <= k < i implies holds_entry(f, es, inos, k) by {
        assert(holds_entry(o, es, inos, k));
        let nk = inos[k];
        let pk = parent_ino(es, inos, k);
        assert(nk != n);
        assert(f.live(nk as int));
        assert(f.dir_readable(pk as int));
        if pk == p {
            let w = choose|w: int| 0 <= w < o.entries(p as int).len() && #[trigger] o.entries(p as int)[w] == (nk, name_slot(text_bytes(&es[k].name)));
            assert(f.entries(p as int)[w] == o.entries(p as int)[w]);
        } else {
            assert(f.content(pk as int) == o.content(pk as int));
        }
        match es[k].kind {
            EntryKind::Dir => {
                assert(f.dir_readable(nk as int));
            },
            _ => {
                if nk == p {
                    assert(type_tag(o.inodes@[p as int].perms) == 1);
                    crate::vfs::infs::lemma_new_perms();
                    assert(type_tag(SYMLINK_PERMS) == 2);
                }
                assert(f.content(nk as int) == o.content(nk as int));
            },
        }
    }
}

/// Whether the counts make a filesystem.
pub fn check_params(inodes: u32, block_size: u32, num_blocks: u64) -> (r: bool)
    ensures
        r == valid_params(inodes, block_size, num_blocks),
{
    if inodes % 8 != 0 || inodes < 8 || block_size % 256 != 0 || block_size == 0 || num_blocks < 8 {
        return false;
    }
    assert(block_size as int * num_blocks <= 0x1_0000_0000 * 0x1_0000_0000_0000_0000) by (nonlinear_arith)
        requires
            block_size < 0x1_0000_0000,
            num_blocks < 0x1_0000_0000_0000_0000,
    ;
    let region: u128 = (block_size as u128) * (num_blocks as u128);
    if region > u64::MAX as u128 {
        return false;
    }
    let total: u128 = 32u128 + (inodes / 8) as u128 + 64u128 * inodes as u128 + (num_blocks / 8) as u128 + region + block_size as u128;
    assert(total == image_len(inodes as int, block_size as int, num_blocks as int) + block_size) by {
        assert(region as int == block_size as int * num_blocks as int);
        assert(block_size as int * num_blocks as int == num_blocks as int * block_size as int) by (nonlinear_arith);
        assert((inodes / 8) as int == inodes as int / 8);
        assert((num_blocks / 8) as int == num_blocks as int / 8);
    }
    total <= usize::MAX as u128
}

/// Builds the image of a new filesystem holding the tree `entries`.
pub fn build(entries: &Vec<PackEntry>, inodes: u32, block_size: u32, num_blocks: u64) -> (r: Result<Vec<u8>, PackError>)
    ensures
        !valid_params(inodes, block_size, num_blocks) ==> r == Err::<Vec<u8>, PackError>(PackError::BadParams),
        r matches Ok(img) ==> image_ok(img@) && parents_first(entries@),
        r == Err::<Vec<u8>, PackError>(PackError::BadParent) ==> !parents_first(entries@),
        r matches Ok(img) ==> exists|fs: FileSystem, inos: Seq<u32>| #![trigger holds_tree(fs, entries@, inos)]
            fs.wf() && fs.image() == img@ && holds_tree(fs, entries@, inos),
{
    if !check_params(inodes, block_size, num_blocks) {
        return Err(PackError::BadParams);
    }
    let mut fs = mknrfs(inodes, block_size, num_blocks);
    let mut inos: Vec<u32> = Vec::new();
    let mut i: usize = 0;
    while i < entries.len()
        invariant
            fs.wf(),
            fs.consistent(),
            valid_params(inodes, block_size, num_blocks),
            i <= entries@.len(),
            inos@.len() == i,
            parents_first(entries@.subrange(0, i as int)),
            forall|k: int| 0 <= k < i ==> holds_entry(fs, entries@, inos@, k),
        decreases entries@.len() - i,
    {
        let e = &entries[i];
        let parent: u32 = match e.parent {
            None => 1,
            Some(p) => {
                if p >= i {
                    proof {
                        assert(!parents_first(entries@)) by {
                            let e = entries@[i as int];
                            assert(!(match e.parent {
                                Some(q) => q < i,
                                None => true,
                            }));
                        }
                    }
                    return Err(PackError::BadParent);
                }
                inos[p]
            },
        };
        assert(parent == parent_ino(entries@, inos@, i as int));
        let name: String = e.name.clone();
        let ghost o = fs;
        let created: Option<u32> = match e.kind {
            EntryKind::Dir => fs.create_directory(parent, name),
            EntryKind::File => fs.create_file(parent, name, e.data.as_slice()),
            EntryKind::Symlink => {
                match fs.create_file(parent, name, e.data.as_slice()) {
                    None => None,
                    Some(n) => {
                        let ghost c = fs;
                        let fd = FileDescriptor { inum: n, pos: 0 };
                        let _ = fs.chmod(&fd, SYMLINK_PERMS);
                        proof {
                            assert(fs.content(parent as int) == c.content(parent as int));
                            assert forall|j: int| 0 <= j < o.icount() && j != n && j != parent && o.inodes@[j].num != 0
                                implies #[trigger] fs.content(j) == o.content(j) by {
                                assert(fs.content(j) == c.content(j));
                            }
                            assert(fs.content(n as int) == c.content(n as int));
                        }
                        Some(n)
                    },
                }
            },
        };
        let n: u32 = match created {
            None => {
                return Err(PackError::NoSpace);
            },
            Some(n) => n,
        };
        proof {
            assert(o.inodes@[n as int].num == 0) by {
                if o.inodes@[n as int].num != 0 {
                    assert(bit(o.inode_use_cache@, n as int));
                }
            }
            assert(fs.content(parent as int) == fs.content(parent as int));
            lemma_holds_kept(o, fs, entries@, inos@, i as int, n, parent, (n, name_slot(text_bytes(&entries@[i as int].name))));
        }
        let ghost old_inos = inos@;
        inos.push(n);
        proof {
            assert forall|k: int| 0 <= k < i + 1 implies holds_entry(fs, entries@, inos@, k) by {
                if k < i {
                    assert(entries@.subrange(0, i as int)[k] == entries@[k]);
                    assert(inos@[k] == old_inos[k]);
                    assert(parent_ino(entries@, inos@, k) == parent_ino(entries@, old_inos, k));
                    assert(holds_entry(fs, entries@, old_inos, k));
                } else {
                    assert(inos@[k] == n);
                    assert(parent_ino(entries@, inos@, k) == parent);
                    let es = fs.entries(parent as int);
                    assert(es[es.len() - 1] == (n, name_slot(text_bytes(&entries@[i as int].name))));
                }
            }
            let pre = entries@.subrange(0, i + 1);
            assert forall|j: int| 0 <= j < pre.len() implies match (#[trigger] pre[j]).parent {
                Some(p) => p < j,
                None => true,
            } by {
                if j < i {
                    assert(pre[j] == entries@.subrange(0, i as int)[j]);
                }
            }
        }
        i = i + 1;
    }
    assert(entries@.subrange(0, i as int) =~= entries@);
    let img = fs.to_bytes();
    proof {
        crate::vfs::image::lemma_image_round_trip(fs, fs);
        assert(holds_tree(fs, entries@, inos@));
    }
    Ok(img)
}

/// Entry `i` of an unpacked tree comes from inode `inos[i]` of `fs`: the
/// inode is live and listed in its parent directory under the entry's name
/// (decoded as UTF-8), its type tag gives the entry's kind, and a file's or a
/// link's data is the inode's content.
pub open spec fn from_inode(fs: FileSystem, es: Seq<PackEntry>, inos: Seq<u32>, i: int) -> bool {
    let n = inos[i];
    let p = parent_ino(es, inos, i);
    let t = type_tag(fs.inodes@[n as int].perms);
    &&& fs.live(n as int)
    &&& fs.dir_readable(p as int)
    &&& exists|k: int| 0 <= k < fs.entries(p as int).len() && (#[trigger] fs.entries(p as int)[k]).0 == n
        && es[i].name@ == decode_utf8(cstr_prefix(fs.entries(p as int)[k].1))
    &&& match es[i].kind {
        EntryKind::Dir => t == 1,
        EntryKind::File => t == 0 && es[i].data@ == fs.content(n as int),
        EntryKind::Symlink => t == 2 && es[i].data@ == fs.content(n as int),
    }
}

/// Every entry of `es` comes from an inode of `fs`, parents first.
#[verifier::opaque]
pub open spec fn from_image_tree(fs: FileSystem, es: Seq<PackEntry>, inos: Seq<u32>) -> bool {
    &&& inos.len() == es.len()
    &&& parents_first(es)
    &&& forall|i: int| 0 <= i < es.len() ==> from_inode(fs, es, inos, i)
}

/// A stored name that reads as `.` or `..`.
pub open spec fn is_dot_bytes(b: Seq<u8>) -> bool {
    b == seq![46u8] || b == seq![46u8, 46u8]
}

/// Entry `x` of the tree sits under `parent`, comes from inode `n` and is
/// named by the stored bytes `name`.
pub open spec fn listed_at(es: Seq<PackEntry>, inos: Seq<u32>, parent: Option<usize>, n: u32, name: Seq<u8>, x: int) -> bool {
    &&& 0 <= x < es.len()
    &&& x < inos.len()
    &&& es[x].parent == parent
    &&& inos[x] == n
    &&& es[x].name@ == decode_utf8(name)
}

/// Each of the first `m` entries of directory `dir`, but `.` and `..`, has an
/// entry of the tree under `parent`.
pub open spec fn lists_upto(fs: FileSystem, es: Seq<PackEntry>, inos: Seq<u32>, parent: Option<usize>, dir: u32, m: int) -> bool {
    forall|k: int| 0 <= k < m && k < fs.entries(dir as int).len() && !is_dot_bytes(cstr_prefix(fs.entries(dir as int)[k].1))
        ==> exists|x: int| #[trigger] listed_at(es, inos, parent, fs.entries(dir as int)[k].0, cstr_prefix(fs.entries(dir as int)[k].1), x)
}

/// Every entry of directory `dir`, but `.` and `..`, has an entry of the tree
/// under `parent`.
pub open spec fn lists_all(fs: FileSystem, es: Seq<PackEntry>, inos: Seq<u32>, parent: Option<usize>, dir: u32) -> bool {
    lists_upto(fs, es, inos, parent, dir, fs.entries(dir as int).len() as int)
}

/// Every directory entry of the tree from index `from` on has all its
/// directory's entries under it.
pub open spec fn dirs_listed_from(fs: FileSystem, es: Seq<PackEntry>, inos: Seq<u32>, from: int) -> bool {
    forall|x: int| from <= x < es.len() && #[trigger] es[x].kind == EntryKind::Dir
        ==> lists_all(fs, es, inos, Some(x as usize), inos[x])
}

/// The tree holds every entry reachable from the root: the root's entries
/// sit at the top, and every directory's entries under it.
pub open spec fn complete_tree(fs: FileSystem, es: Seq<PackEntry>, inos: Seq<u32>) -> bool {
    lists_all(fs, es, inos, None, 1) && dirs_listed_from(fs, es, inos, 0)
}

/// Extending the tree keeps what it lists.
proof fn lemma_lists_extend(fs: FileSystem, es: Seq<PackEntry>, inos: Seq<u32>, es2: Seq<PackEntry>, inos2: Seq<u32>,
    parent: Option<usize>, dir: u32, m: int)
    requires
        inos.len() == es.len(),
        es.len() <= es2.len(),
        inos2.len() == es2.len(),
        es2.subrange(0, es.len() as int) == es,
        inos2.subrange(0, es.len() as int) == inos,
        lists_upto(fs, es, inos, parent, dir, m),
    ensures
        lists_upto(fs, es2, inos2, parent, dir, m),
{
    assert forall|k: int| 0 <= k < m && k < fs.entries(dir as int).len() && !is_dot_bytes(cstr_prefix(fs.entries(dir as int)[k].1))
        implies exists|x: int| #[trigger] listed_at(es2, inos2, parent, fs.entries(dir as int)[k].0, cstr_prefix(fs.entries(dir as int)[k].1), x) by {
        let n = fs.entries(dir as int)[k].0;
        let nm = cstr_prefix(fs.entries(dir as int)[k].1);
        assert(exists|x: int| #[trigger] listed_at(es, inos, parent, n, nm, x));
        let x = choose|x: int| #[trigger] listed_at(es, inos, parent, n, nm, x);
        assert(es2[x] == es2.subrange(0, es.len() as int)[x]);
        assert(inos2[x] == inos2.subrange(0, es.len() as int)[x]);
        assert(listed_at(es2, inos2, parent, n, nm, x));
    }
}

proof fn lemma_dirs_extend(fs: FileSystem, es: Seq<PackEntry>, inos: Seq<u32>, es2: Seq<PackEntry>, inos2: Seq<u32>, from: int)
    requires
        inos.len() == es.len(),
        es.len() <= es2.len(),
        inos2.len() == es2.len(),
        es2.subrange(0, es.len() as int) == es,
        inos2.subrange(0, es.len() as int) == inos,
        dirs_listed_from(fs, es, inos, from),
        0 <= from,
    ensures
        forall|x: int| from <= x < es.len() && #[trigger] es2[x].kind == EntryKind::Dir
            ==> lists_all(fs, es2, inos2, Some(x as usize), inos2[x]),
{
    assert forall|x: int| from <= x < es.len() && #[trigger] es2[x].kind == EntryKind::Dir
        implies lists_all(fs, es2, inos2, Some(x as usize), inos2[x]) by {
        assert(es2[x] == es2.subrange(0, es.len() as int)[x]);
        assert(inos2[x] == inos2.subrange(0, es.len() as int)[x]);
        assert(es[x].kind == EntryKind::Dir);
        lemma_lists_extend(fs, es, inos, es2, inos2, Some(x as usize), inos[x], fs.entries(inos[x] as int).len() as int);
    }
}

/// The tree under directory `dir` can be unpacked with `fuel` levels of
/// nesting left: `dir` is a live directory, and each of its entries but `.`
/// and `..` names a live inode by a UTF-8 name, with the tag of a file, a
/// directory or a link, and a directory only where fuel is left for it.
pub open spec fn tree_ok(fs: FileSystem, dir: u32, fuel: nat) -> bool
    decreases fuel,
{
    &&& fs.dir_readable(dir as int)
    &&& forall|k: int| 0 <= k < fs.entries(dir as int).len() && !is_dot_bytes(cstr_prefix(fs.entries(dir as int)[k].1)) ==> {
        let n = #[trigger] fs.entries(dir as int)[k].0;
        let t = type_tag(fs.inodes@[n as int].perms);
        &&& fs.live(n as int)
        &&& valid_utf8(cstr_prefix(fs.entries(dir as int)[k].1))
        &&& 0 <= t <= 2
        &&& t == 1 ==> fuel > 0 && tree_ok(fs, n, (fuel - 1) as nat)
    }
}

/// Every filesystem with this image can be unpacked from its root, with as
/// many levels of nesting as it has inodes.
pub open spec fn unpackable(image: Seq<u8>) -> bool {
    forall|g: FileSystem| g.wf() && #[trigger] g.image() == image ==> tree_ok(g, 1, g.sup.inode_count as nat)
}

/// `es` is a tree read out of the filesystem whose image is `image`, and
/// holds every entry reachable from its root.
pub open spec fn unpacked_from(image: Seq<u8>, es: Seq<PackEntry>) -> bool {
    exists|g: FileSystem, ns: Seq<u32>| #![trigger from_image_tree(g, es, ns)]
        g.wf() && g.image() == image && from_image_tree(g, es, ns) && complete_tree(g, es, ns)
}

proof fn lemma_tree_of(fs: FileSystem, es: Seq<PackEntry>, inos: Seq<u32>)
    requires
        inos.len() == es.len(),
        parents_first(es),
        forall|i: int| 0 <= i < es.len() ==> from_inode(fs, es, inos, i),
    ensures
        from_image_tree(fs, es, inos),
{
    reveal(from_image_tree);
}

/// Unpacks an image into a tree, parents first. Fails on a buffer that is not
/// an image, on an entry whose inode is not in use, on a name that is not
/// UTF-8, and on an unknown type tag.
pub fn unpack(image: &[u8]) -> (r: Result<Vec<PackEntry>, PackError>)
    ensures
        !image_ok(image@) ==> r == Err::<Vec<PackEntry>, PackError>(PackError::BadImage),
        r matches Ok(es) ==> parents_first(es@),
        r matches Ok(es) ==> unpacked_from(image@, es@),
        image_ok(image@) && unpackable(image@) ==> r is Ok,
{
    let fs = match FileSystem::from_bytes(image) {
        None => {
            return Err(PackError::BadImage);
        },
        Some(fs) => fs,
    };
    let mut out: Vec<PackEntry> = Vec::new();
    let mut inos: Vec<u32> = Vec::new();
    let depth: u64 = fs.sup.inode_count as u64;
    match unpack_dir(&fs, 1, None, depth, &mut out, &mut inos) {
        Ok(()) => {
            proof {
                lemma_tree_of(fs, out@, inos@);
                assert(complete_tree(fs, out@, inos@));
            }
            assert(unpacked_from(image@, out@));
            Ok(out)
        },
        Err(e) => Err(e),
    }
}

/// Appends the entries of directory `dir` (and, depth first, of its
/// subdirectories) to `out`, each under `parent`, and their inodes to `inos`.
fn unpack_dir(fs: &FileSystem, dir: u32, parent: Option<usize>, depth: u64, out: &mut Vec<PackEntry>, inos: &mut Vec<u32>) -> (r: Result<(), PackError>)
    requires
        fs.wf(),
        parents_first(old(out)@),
        old(inos)@.len() == old(out)@.len(),
        forall|i: int| 0 <= i < old(out)@.len() ==> from_inode(*fs, old(out)@, old(inos)@, i),
        parent matches Some(p) ==> p < old(out)@.len() && old(inos)@[p as int] == dir,
        parent is None ==> dir == 1,
    ensures
        parents_first(final(out)@),
        final(inos)@.len() == final(out)@.len(),
        forall|i: int| 0 <= i < final(out)@.len() ==> from_inode(*fs, final(out)@, final(inos)@, i),
        final(out)@.len() >= old(out)@.len(),
        final(out)@.subrange(0, old(out)@.len() as int) == old(out)@,
        final(inos)@.subrange(0, old(out)@.len() as int) == old(inos)@,
        r is Ok ==> lists_all(*fs, final(out)@, final(inos)@, parent, dir)
            && dirs_listed_from(*fs, final(out)@, final(inos)@, old(out)@.len() as int),
        tree_ok(*fs, dir, depth as nat) ==> r is Ok,
    decreases depth,
{
    let fd = FileDescriptor { inum: dir, pos: 0 };
    let d = match fs.dentry_view(&fd) {
        None => {
            return Err(PackError::BadImage);
        },
        Some(d) => d,
    };
    let mut k: usize = 0;
    assert(d.listing().len() == fs.entries(dir as int).len());
    while k < d.entries.len()
        invariant
            fs.wf(),
            fs.dir_readable(dir as int),
            d.listing() == crate::vfs::listing_of(fs.entries(dir as int)),
            parents_first(out@),
            inos@.len() == out@.len(),
            forall|i: int| 0 <= i < out@.len() ==> from_inode(*fs, out@, inos@, i),
            out@.len() >= old(out)@.len(),
            out@.subrange(0, old(out)@.len() as int) == old(out)@,
            inos@.subrange(0, old(out)@.len() as int) == old(inos)@,
            parent matches Some(p) ==> p < old(out)@.len() && old(inos)@[p as int] == dir,
            parent is None ==> dir == 1,
            k <= d.entries@.len(),
            d.entries@.len() == fs.entries(dir as int).len(),
            lists_upto(*fs, out@, inos@, parent, dir, k as int),
            dirs_listed_from(*fs, out@, inos@, old(out)@.len() as int),
        decreases d.entries@.len() - k,
    {
        let ent = &d.entries[k];
        assert(d.listing()[k as int] == ent@);
        let name_bytes: &[u8] = ent.filename.as_slice();
        let is_dot: bool = name_bytes.len() == 1 && name_bytes[0] == 46u8;
        let is_dotdot: bool = name_bytes.len() == 2 && name_bytes[0] == 46u8 && name_bytes[1] == 46u8;
        let ghost before0 = out@;
        let ghost before0_inos = inos@;
        proof {
            assert(d.listing().len() == fs.entries(dir as int).len());
            assert(crate::vfs::listing_of(fs.entries(dir as int))[k as int]
                == (fs.entries(dir as int)[k as int].0, cstr_prefix(fs.entries(dir as int)[k as int].1)));
            assert(cstr_prefix(fs.entries(dir as int)[k as int].1) == name_bytes@);
            if is_dot {
                assert(name_bytes@ =~= seq![46u8]);
            }
            if is_dotdot {
                assert(name_bytes@ =~= seq![46u8, 46u8]);
            }
            assert(is_dot_bytes(name_bytes@) ==> is_dot || is_dotdot);
        }
        if !is_dot && !is_dotdot {
            let mut nb: Vec<u8> = Vec::new();
            nb.extend_from_slice(name_bytes);
            assert(nb@ =~= name_bytes@);
            let name: String = match crate::common::string_from_utf8(nb) {
                None => {
                    return Err(PackError::BadName);
                },
                Some(s) => s,
            };
            let efd = match fs.get_fd(ent.inum, 0) {
                None => {
                    return Err(PackError::BadImage);
                },
                Some(f) => f,
            };
            let perms: u16 = match fs.file_perms(&efd) {
                None => {
                    return Err(PackError::BadImage);
                },
                Some(p) => p,
            };
            let tag: u16 = tag_of(perms);
            let ghost before = out@;
            let ghost before_inos = inos@;
            let n: u32 = ent.inum;
            proof {
                assert(parent matches Some(p) ==> inos@[p as int] == dir) by {
                    if parent is Some {
                        assert(inos@[parent->0 as int] == old(inos)@[parent->0 as int]) by {
                            assert(inos@.subrange(0, old(out)@.len() as int)[parent->0 as int] == inos@[parent->0 as int]);
                        }
                    }
                }
                assert(d.listing().len() == fs.entries(dir as int).len());
                assert(crate::vfs::listing_of(fs.entries(dir as int))[k as int]
                    == (fs.entries(dir as int)[k as int].0, cstr_prefix(fs.entries(dir as int)[k as int].1)));
                assert(fs.entries(dir as int)[k as int].0 == n);
                assert(cstr_prefix(fs.entries(dir as int)[k as int].1) == name_bytes@);
            }
            if tag == 1 {
                if depth == 0 {
                    return Err(PackError::TooDeep);
                }
                out.push(PackEntry { parent, kind: EntryKind::Dir, name, data: Vec::new() });
                inos.push(n);
                proof {
                    assert(out@.subrange(0, before.len() as int) =~= before);
                    assert(inos@.subrange(0, before.len() as int) =~= before_inos);
                    lemma_push_keeps(*fs, before, before_inos, out@, inos@);
                    assert(from_inode(*fs, out@, inos@, before.len() as int));
                }
                let here: usize = out.len() - 1;
                let ghost mid = out@;
                let ghost mid_inos = inos@;
                match unpack_dir(fs, n, Some(here), depth - 1, out, inos) {
                    Ok(()) => {},
                    Err(e) => {
                        return Err(e);
                    },
                }
                proof {
                    assert(out@.subrange(0, old(out)@.len() as int) =~= mid.subrange(0, old(out)@.len() as int));
                    assert(inos@.subrange(0, old(out)@.len() as int) =~= mid_inos.subrange(0, old(out)@.len() as int));
                    assert(out@.subrange(0, before.len() as int) =~= mid.subrange(0, before.len() as int));
                    assert(inos@.subrange(0, before.len() as int) =~= mid_inos.subrange(0, before.len() as int));
                    lemma_lists_extend(*fs, before, before_inos, out@, inos@, parent, dir, k as int);
                    lemma_dirs_extend(*fs, before, before_inos, out@, inos@, old(out)@.len() as int);
                    assert(out@[here as int] == mid[here as int]);
                    assert(inos@[here as int] == mid_inos[here as int]);
                    assert(listed_at(out@, inos@, parent, n, name_bytes@, here as int));
                    assert(lists_upto(*fs, out@, inos@, parent, dir, k + 1));
                    assert forall|x: int| old(out)@.len() <= x < out@.len() && #[trigger] out@[x].kind == EntryKind::Dir
                        implies lists_all(*fs, out@, inos@, Some(x as usize), inos@[x]) by {
                        if x < before.len() {
                        } else if x == here {
                            assert(inos@[x] == n);
                        } else {
                            assert(x >= mid.len());
                        }
                    }
                }
            } else if tag == 0 || tag == 2 {
                let data = fs.read_content(n);
                let kind: EntryKind = if tag == 0 { EntryKind::File } else { EntryKind::Symlink };
                out.push(PackEntry { parent, kind, name, data });
                inos.push(n);
                proof {
                    assert(out@.subrange(0, before.len() as int) =~= before);
                    assert(inos@.subrange(0, before.len() as int) =~= before_inos);
                    lemma_push_keeps(*fs, before, before_inos, out@, inos@);
                    assert(from_inode(*fs, out@, inos@, before.len() as int));
                    lemma_lists_extend(*fs, before, before_inos, out@, inos@, parent, dir, k as int);
                    lemma_dirs_extend(*fs, before, before_inos, out@, inos@, old(out)@.len() as int);
                    assert(listed_at(out@, inos@, parent, n, name_bytes@, before.len() as int));
                    assert(lists_upto(*fs, out@, inos@, parent, dir, k + 1));
                }
            } else {
                return Err(PackError::UnknownType);
            }
        }
        proof {
            if is_dot || is_dotdot {
                assert(out@ == before0);
                assert(lists_upto(*fs, out@, inos@, parent, dir, k + 1));
            }
        }
        k = k + 1;
    }
    Ok(())
}

/// Appending an entry keeps the earlier ones coming from their inodes.
proof fn lemma_push_keeps(fs: FileSystem, es: Seq<PackEntry>, inos: Seq<u32>, es2: Seq<PackEntry>, inos2: Seq<u32>)
    requires
        inos.len() == es.len(),
        es2.len() == es.len() + 1,
        inos2.len() == es2.len(),
        es2.subrange(0, es.len() as int) == es,
        inos2.subrange(0, es.len() as int) == inos,
        parents_first(es),
        match es2[es.len() as int].parent {
            Some(p) => p < es.len(),
            None => true,
        },
        forall|i: int| 0 <= i < es.len() ==> from_inode(fs, es, inos, i),
    ensures
        parents_first(es2),
        es2.subrange(0, es.len() as int) == es,
        forall|i: int| 0 <= i < es.len() ==> from_inode(fs, es2, inos2, i),
{
    assert forall|i: int| 0 <= i < es.len() implies from_inode(fs, es2, inos2, i) by {
        assert(es2[i] == es2.subrange(0, es.len() as int)[i]);
        assert(inos2[i] == inos2.subrange(0, es.len() as int)[i]);
        assert(from_inode(fs, es, inos, i));
        let e = es[i];
        assert(match e.parent {
            Some(p) => p < i,
            None => true,
        });
        match e.parent {
            Some(p) => {
                assert(inos2[p as int] == inos2.subrange(0, es.len() as int)[p as int]);
            },
            None => {},
        }
        let pp = parent_ino(es, inos, i);
        assert(parent_ino(es2, inos2, i) == pp);
        let w = choose|w: int| 0 <= w < fs.entries(pp as int).len() && (#[trigger] fs.entries(pp as int)[w]).0 == inos[i]
            && es[i].name@ == decode_utf8(cstr_prefix(fs.entries(pp as int)[w].1));
        assert(fs.entries(pp as int)[w].0 == inos2[i]);
    }
    assert forall|j: int| 0 <= j < es2.len() implies match (#[trigger] es2[j]).parent {
        Some(p) => p < j,
        None => true,
    } by {
        if j < es.len() {
            assert(es2[j] == es2.subrange(0, es.len() as int)[j]);
        }
    }
}

} // verus!
