//! Path resolution: from a slash-separated path to an inode, one directory
//! listing at a time, starting at the root inode 1.
use vstd::prelude::*;
use crate::vfs::mount::{lemma_slash_at, slash_at, tree_inv, Backend, VfsTreeNode, dest_backend, dest_path};
use crate::vfs::infs::slice_of;
use crate::vfs::{DentryView, FileDescriptor, VirtualDentryEntry, VirtualFileSystem};

verus! {

/// Index of the first entry named `name`, or the number of entries.
pub open spec fn entry_index(es: Seq<(u32, Seq<u8>)>, name: Seq<u8>) -> int
    decreases es.len(),
{
    if es.len() == 0 {
        0
    } else if entry_index(es.drop_last(), name) < es.len() - 1 {
        entry_index(es.drop_last(), name)
    } else if es.last().1 == name {
        es.len() - 1
    } else {
        es.len() as int
    }
}

/// The inode that `path` names, looked up from directory `dir`: empty
/// components are skipped, each other one must name an entry of the current
/// directory (the first such entry counts), and all but the last must be
/// directories.
pub open spec fn walk<V: VirtualFileSystem>(fs: &V, dir: u32, path: Seq<u8>) -> Option<u32>
    decreases path.len(),
{
    match fs.spec_listing(dir) {
        None => None,
        Some(es) => {
            let i = slash_at(path);
            if 0 <= i < path.len() && i == 0 {
                walk(fs, dir, path.subrange(1, path.len() as int))
            } else if 0 <= i <= path.len() {
                let k = entry_index(es, path.subrange(0, i));
                if !(0 <= k < es.len()) {
                    None
                } else if i == path.len() {
                    Some(es[k].0)
                } else {
                    walk(fs, es[k].0, path.subrange(i + 1, path.len() as int))
                }
            } else {
                None
            }
        },
    }
}

/// The path looked up for `path` typed in working directory `cwd`: a trailing
/// `/` gains a `.`, a leading `/` is dropped, and a relative path is put after
/// `cwd` (which ends in `/`).
pub open spec fn normalize(path: Seq<u8>, cwd: Seq<u8>) -> Seq<u8> {
    let p = if path.len() > 0 && path.last() == 47 { path.push(46) } else { path };
    if p.len() > 0 && p[0] == 47 {
        p.subrange(1, p.len() as int)
    } else {
        cwd + p
    }
}

proof fn lemma_entry_index(es: Seq<(u32, Seq<u8>)>, name: Seq<u8>)
    ensures
        0 <= entry_index(es, name) <= es.len(),
        entry_index(es, name) < es.len() ==> es[entry_index(es, name)].1 == name,
        forall|j: int| 0 <= j < entry_index(es, name) ==> es[j].1 != name,
    decreases es.len(),
{
    if es.len() > 0 {
        lemma_entry_index(es.drop_last(), name);
        assert forall|j: int| 0 <= j < entry_index(es, name) implies es[j].1 != name by {
            if j < es.len() - 1 {
                assert(es[j] == es.drop_last()[j]);
            }
        }
        if entry_index(es, name) < es.len() - 1 {
            assert(es[entry_index(es, name)] == es.drop_last()[entry_index(es, name)]);
        }
    }
}

/// Index of the first entry named `name`, or the number of entries.
fn find_entry(d: &DentryView, name: &[u8]) -> (k: usize)
    ensures
        k as int == entry_index(d.listing(), name@),
{
    proof {
        lemma_entry_index(d.listing(), name@);
    }
    let mut k: usize = 0;
    while k < d.entries.len()
        invariant
            k <= d.entries@.len(),
            forall|j: int| 0 <= j < k ==> d.listing()[j].1 != name@,
            0 <= entry_index(d.listing(), name@) <= d.listing().len(),
            entry_index(d.listing(), name@) < d.listing().len() ==> d.listing()[entry_index(d.listing(), name@)].1 == name@,
            forall|j: int| 0 <= j < entry_index(d.listing(), name@) ==> d.listing()[j].1 != name@,
        decreases d.entries@.len() - k,
    {
        assert(d.listing()[k as int] == d.entries@[k as int]@);
        if crate::vfs::mount::bytes_eq(d.entries[k].filename.as_slice(), name) {
            return k;
        }
        k = k + 1;
    }
    k
}

/// The inode that `path` names in `fs`, looked up from the root inode 1.
pub fn resolve<V: VirtualFileSystem>(fs: &V, path: &[u8]) -> (r: Option<u32>)
    requires
        fs.inv(),
    ensures
        r == walk(fs, 1, path@),
{
    let root = FileDescriptor { inum: 1, pos: 0 };
    let mut cur: DentryView = match fs.vfd_as_dentry(&root) {
        None => {
            return None;
        },
        Some(d) => d,
    };
    let mut pos: usize = 0;
    assert(path@.subrange(0, path@.len() as int) =~= path@);
    while pos <= path.len()
        invariant
            fs.inv(),
            pos <= path@.len(),
            Some(cur.listing()) == fs.spec_listing(cur.inum),
            walk(fs, 1, path@) == walk(fs, cur.inum, path@.subrange(pos as int, path@.len() as int)),
        decreases path@.len() - pos,
    {
        let rest: &[u8] = slice_of(path, pos, path.len());
        let i: usize = crate::vfs::mount::find_slash(rest);
        proof {
            lemma_slash_at(rest@);
        }
        if i < rest.len() && i == 0 {
            assert(rest@.subrange(1, rest@.len() as int) =~= path@.subrange(pos + 1, path@.len() as int));
            pos = pos + 1;
            continue;
        }
        let comp: &[u8] = slice_of(rest, 0, i);
        let k: usize = find_entry(&cur, comp);
        if k >= cur.entries.len() {
            return None;
        }
        assert(cur.listing()[k as int] == cur.entries@[k as int]@);
        let inum: u32 = cur.entries[k].inum;
        if i == rest.len() {
            return Some(inum);
        }
        let fd = FileDescriptor { inum, pos: 0 };
        cur = match fs.vfd_as_dentry(&fd) {
            None => {
                proof {
                    let t = rest@.subrange(i + 1, rest@.len() as int);
                    reveal_with_fuel(walk, 2);
                }
                return None;
            },
            Some(d) => d,
        };
        assert(rest@.subrange(i + 1, rest@.len() as int) =~= path@.subrange(pos + i + 1, path@.len() as int));
        pos = pos + i + 1;
    }
    None
}

/// The whole content of the file that `path` names in `fs`.
pub fn read_to_end<V: VirtualFileSystem>(fs: &mut V, path: &[u8]) -> (r: Option<Vec<u8>>)
    requires
        old(fs).inv(),
    ensures
        final(fs).inv(),
        walk(old(fs), 1, path@) is None ==> r is None,
        walk(old(fs), 1, path@) is Some && old(fs).spec_live(walk(old(fs), 1, path@)->Some_0)
            ==> (r matches Some(v) && v@ == old(fs).spec_content(walk(old(fs), 1, path@)->Some_0)),
{
    let target = match resolve(fs, path) {
        None => {
            return None;
        },
        Some(t) => t,
    };
    let mut fd = match fs.get_fd(target, 0) {
        None => {
            return None;
        },
        Some(fd) => fd,
    };
    fs.read_to_eof(&mut fd)
}

/// The inode that `path` names, typed in working directory `cwd`: the mount
/// tree picks the backend and the path it is asked for. `None` where nothing
/// is mounted or the path names nothing.
pub fn find_file(root: &VfsTreeNode, path: &[u8], cwd: &[u8]) -> (r: Option<u32>)
    requires
        tree_inv(*root),
        path@.len() + cwd@.len() + 1 <= usize::MAX,
    ensures
        dest_path(*root, normalize(path@, cwd@)) is None ==> r is None,
        *root is Mounted ==> r == walk(&root->Mounted_0, 1, normalize(path@, cwd@)),
        dest_path(*root, normalize(path@, cwd@)) matches Some(rest)
            ==> r == walk(&dest_backend(*root, normalize(path@, cwd@))->Some_0, 1, rest),
{
    let mut p: Vec<u8> = Vec::new();
    if path.len() > 0 && path[0] == 47u8 {
        p.extend_from_slice(slice_of(path, 1, path.len()));
    } else {
        p.extend_from_slice(cwd);
        p.extend_from_slice(path);
    }
    if path.len() > 0 && path[path.len() - 1] == 47u8 {
        p.push(46u8);
    }
    proof {
        let q = if path@.len() > 0 && path@.last() == 47 { path@.push(46) } else { path@ };
        if path@.len() > 0 && path@[0] == 47 {
            assert(p@ =~= q.subrange(1, q.len() as int));
        } else {
            assert(p@ =~= cwd@ + q);
        }
        assert(p@ == normalize(path@, cwd@));
    }
    match root.find_destination_fs(p.as_slice()) {
        None => None,
        Some((fs, rest)) => resolve(fs, rest.as_slice()),
    }
}

} // verus!
