//! Mount points: which backend answers for which path.
use vstd::prelude::*;
use crate::vfs::dummyfs;
use crate::vfs::infs;
use crate::vfs::{DentryView, FileDescriptor, VfsResult, VirtualFileSystem};

verus! {

/// A filesystem backend.
pub enum Backend {
    Infs(infs::FileSystem),
    Dummy(dummyfs::FileSystem),
}

/// A node of the mount tree. In a `MultiMount`, the child named `.` holds the
/// filesystem of the subtree's root.
pub enum VfsTreeNode {
    Mounted(Backend),
    MultiMount(Vec<(Vec<u8>, VfsTreeNode)>),
    Unmounted,
}

/// Every backend mounted in the tree keeps its invariant.
pub open spec fn tree_inv(node: VfsTreeNode) -> bool
    decreases node,
{
    match node {
        VfsTreeNode::Mounted(b) => b.inv(),
        VfsTreeNode::Unmounted => true,
        VfsTreeNode::MultiMount(v) => {
            &&& forall|k: int| 0 <= k < v@.len() ==> tree_inv(#[trigger] v@[k].1)
            &&& forall|a: int, b: int| 0 <= a < b < v@.len() ==> #[trigger] v@[a].0@ != #[trigger] v@[b].0@
        },
    }
}

/// Index of the first `/` of a path, or its length.
pub open spec fn slash_at(path: Seq<u8>) -> int
    decreases path.len(),
{
    if path.len() == 0 {
        0
    } else if path[0] == 47 {
        0
    } else {
        1 + slash_at(path.subrange(1, path.len() as int))
    }
}

/// Index of the first child named `name`, or the number of children.
pub open spec fn child_index(v: Seq<(Vec<u8>, VfsTreeNode)>, name: Seq<u8>) -> int
    decreases v.len(),
{
    if v.len() == 0 {
        0
    } else if child_index(v.drop_last(), name) < v.len() - 1 {
        child_index(v.drop_last(), name)
    } else if v.last().0@ == name {
        v.len() - 1
    } else {
        v.len() as int
    }
}

/// The path that the backend answering for `path` is asked for, or `None`
/// where no backend answers. In a `MultiMount`, a first component that names
/// a child mount sends the rest of the path there; otherwise the `.` child,
/// which must be mounted, is asked for the whole path.
pub open spec fn dest_path(node: VfsTreeNode, path: Seq<u8>) -> Option<Seq<u8>>
    decreases node,
{
    match node {
        VfsTreeNode::Mounted(_) => Some(path),
        VfsTreeNode::Unmounted => None,
        VfsTreeNode::MultiMount(v) => {
            let i = slash_at(path);
            let has_slash = i < path.len();
            let key = if has_slash { path.subrange(0, i) } else { seq![46u8] };
            let rest = if has_slash { path.subrange(i + 1, path.len() as int) } else { path };
            let k = child_index(v@, key);
            if 0 <= k < v@.len() {
                dest_path(v@[k].1, rest)
            } else {
                let d = child_index(v@, seq![46u8]);
                if 0 <= d < v@.len() && v@[d].1 is Mounted {
                    Some(path)
                } else {
                    None
                }
            }
        },
    }
}

/// The backend that answers for `path`, as `dest_path` routes it.
pub open spec fn dest_backend(node: VfsTreeNode, path: Seq<u8>) -> Option<Backend>
    decreases node,
{
    match node {
        VfsTreeNode::Mounted(b) => Some(b),
        VfsTreeNode::Unmounted => None,
        VfsTreeNode::MultiMount(v) => {
            let i = slash_at(path);
            let has_slash = i < path.len();
            let key = if has_slash { path.subrange(0, i) } else { seq![46u8] };
            let rest = if has_slash { path.subrange(i + 1, path.len() as int) } else { path };
            let k = child_index(v@, key);
            if 0 <= k < v@.len() {
                dest_backend(v@[k].1, rest)
            } else {
                let d = child_index(v@, seq![46u8]);
                if 0 <= d < v@.len() && v@[d].1 is Mounted {
                    Some(v@[d].1->Mounted_0)
                } else {
                    None
                }
            }
        },
    }
}

} // verus!

verus! {

/// Index of the first `/` of `path`, or its length.
pub fn find_slash(path: &[u8]) -> (i: usize)
    ensures
        i as int == slash_at(path@),
        i <= path@.len(),
{
    proof {
        lemma_slash_at(path@);
    }
    let mut i: usize = 0;
    while i < path.len()
        invariant
            i <= path@.len(),
            forall|k: int| 0 <= k < i ==> path@[k] != 47,
            0 <= slash_at(path@) <= path@.len(),
            forall|k: int| 0 <= k < slash_at(path@) ==> path@[k] != 47,
            slash_at(path@) < path@.len() ==> path@[slash_at(path@)] == 47,
        decreases path@.len() - i,
    {
        if path[i] == 47u8 {
            return i;
        }
        i = i + 1;
    }
    i
}

pub proof fn lemma_slash_at(p: Seq<u8>)
    ensures
        0 <= slash_at(p) <= p.len(),
        forall|k: int| 0 <= k < slash_at(p) ==> p[k] != 47,
        slash_at(p) < p.len() ==> p[slash_at(p)] == 47,
    decreases p.len(),
{
    if p.len() > 0 && p[0] != 47 {
        let t = p.subrange(1, p.len() as int);
        lemma_slash_at(t);
        assert forall|k: int| 0 <= k < slash_at(p) implies p[k] != 47 by {
            if k > 0 {
                assert(p[k] == t[k - 1]);
            }
        }
    }
}

proof fn lemma_child_index(v: Seq<(Vec<u8>, VfsTreeNode)>, name: Seq<u8>)
    ensures
        0 <= child_index(v, name) <= v.len(),
        child_index(v, name) < v.len() ==> v[child_index(v, name)].0@ == name,
        forall|j: int| 0 <= j < child_index(v, name) ==> v[j].0@ != name,
    decreases v.len(),
{
    if v.len() > 0 {
        lemma_child_index(v.drop_last(), name);
        assert forall|j: int| 0 <= j < child_index(v, name) implies v[j].0@ != name by {
            if j < v.len() - 1 {
                assert(v[j] == v.drop_last()[j]);
            }
        }
        if child_index(v, name) < v.len() - 1 {
            assert(v[child_index(v, name)] == v.drop_last()[child_index(v, name)]);
        }
        if child_index(v, name) == v.len() {
            assert(v[v.len() - 1].0@ != name);
        }
    }
}

/// Whether `a` and `b` hold the same bytes.
pub fn bytes_eq(a: &[u8], b: &[u8]) -> (r: bool)
    ensures
        r == (a@ == b@),
{
    if a.len() != b.len() {
        return false;
    }
    let mut i: usize = 0;
    while i < a.len()
        invariant
            a@.len() == b@.len(),
            i <= a@.len(),
            forall|k: int| 0 <= k < i ==> a@[k] == b@[k],
        decreases a@.len() - i,
    {
        if a[i] != b[i] {
            return false;
        }
        i = i + 1;
    }
    assert(a@ =~= b@);
    true
}

/// Index of the first child named `name`, or the number of children.
fn find_child(v: &Vec<(Vec<u8>, VfsTreeNode)>, name: &[u8]) -> (k: usize)
    ensures
        k as int == child_index(v@, name@),
{
    proof {
        lemma_child_index(v@, name@);
    }
    let mut k: usize = 0;
    while k < v.len()
        invariant
            k <= v@.len(),
            forall|j: int| 0 <= j < k ==> v@[j].0@ != name@,
            0 <= child_index(v@, name@) <= v@.len(),
            child_index(v@, name@) < v@.len() ==> v@[child_index(v@, name@)].0@ == name@,
            forall|j: int| 0 <= j < child_index(v@, name@) ==> v@[j].0@ != name@,
        decreases v@.len() - k,
    {
        if bytes_eq(v[k].0.as_slice(), name) {
            return k;
        }
        k = k + 1;
    }
    k
}

impl VfsTreeNode {
    /// The backend that answers for `path` (of the form `dir/dir/file`), and
    /// the path it is to be asked for; `None` where nothing is mounted there.
    pub fn find_destination_fs(&self, path: &[u8]) -> (r: Option<(&Backend, Vec<u8>)>)
        ensures
            r is Some <==> dest_path(*self, path@) is Some,
            r matches Some(p) ==> dest_path(*self, path@) == Some(p.1@) && dest_backend(*self, path@) == Some(*p.0),
            r matches Some(p) ==> (tree_inv(*self) ==> p.0.inv()),
            *self is Mounted ==> (r matches Some(p) && *p.0 == self->Mounted_0),
        decreases self,
    {
        match self {
            VfsTreeNode::Mounted(n) => {
                let mut rest: Vec<u8> = Vec::new();
                rest.extend_from_slice(path);
                assert(rest@ =~= path@);
                Some((n, rest))
            },
            VfsTreeNode::Unmounted => None,
            VfsTreeNode::MultiMount(v) => {
                let i = find_slash(path);
                let dot: Vec<u8> = vec![46u8];
                assert(dot@ =~= seq![46u8]);
                let has_slash: bool = i < path.len();
                let key: &[u8] = if has_slash { crate::vfs::infs::slice_of(path, 0, i) } else { dot.as_slice() };
                let rest: &[u8] = if has_slash { crate::vfs::infs::slice_of(path, i + 1, path.len()) } else { path };
                let k = find_child(v, key);
                if k < v.len() {
                    assert(tree_inv(*self) ==> tree_inv(v@[k as int].1));
                    proof {
                        assert(decreases_to!(*self => v@[k as int].1)) by {
                            vstd::std_specs::vec::axiom_vec_index_decreases(*v, k as int);
                        }
                    }
                    return v[k].1.find_destination_fs(rest);
                }
                let d = find_child(v, dot.as_slice());
                if d < v.len() {
                    assert(tree_inv(*self) ==> tree_inv(v@[d as int].1));
                    match &v[d].1 {
                        VfsTreeNode::Mounted(n) => {
                            let mut out: Vec<u8> = Vec::new();
                            out.extend_from_slice(path);
                            assert(out@ =~= path@);
                            return Some((n, out));
                        },
                        _ => {
                            return None;
                        },
                    }
                }
                None
            },
        }
    }

    /// The backend of a node that is a mount point.
    pub fn presume_mounted(&mut self) -> (r: Option<&mut Backend>)
        ensures
            r is Some <==> *old(self) is Mounted,
    {
        match self {
            VfsTreeNode::Mounted(n) => Some(n),
            _ => None,
        }
    }

    /// Mounts `fs` as the whole tree.
    pub fn mount_root(&mut self, fs: Backend)
        ensures
            *final(self) == VfsTreeNode::Mounted(fs),
    {
        *self = VfsTreeNode::Mounted(fs);
    }
}

/// Mounts `fs` as the whole tree.
pub fn mount_root(root: &mut VfsTreeNode, fs: Backend)
    ensures
        *final(root) == VfsTreeNode::Mounted(fs),
{
    root.mount_root(fs)
}

/// Mounts the read-only backend as the whole tree.
pub fn mount_dummy(root: &mut VfsTreeNode)
    ensures
        *final(root) == VfsTreeNode::Mounted(Backend::Dummy(dummyfs::FileSystem {})),
{
    mount_root(root, Backend::Dummy(dummyfs::FileSystem {}))
}

} // verus!

verus! {

impl VirtualFileSystem for Backend {
    open spec fn inv(&self) -> bool {
        match self {
            Backend::Infs(f) => f.inv(),
            Backend::Dummy(d) => d.inv(),
        }
    }

    open spec fn spec_live(&self, inode: u32) -> bool {
        match self {
            Backend::Infs(f) => f.spec_live(inode),
            Backend::Dummy(d) => d.spec_live(inode),
        }
    }

    open spec fn spec_listing(&self, inode: u32) -> Option<Seq<(u32, Seq<u8>)>> {
        match self {
            Backend::Infs(f) => f.spec_listing(inode),
            Backend::Dummy(d) => d.spec_listing(inode),
        }
    }

    open spec fn spec_content(&self, inode: u32) -> Seq<u8> {
        match self {
            Backend::Infs(f) => f.spec_content(inode),
            Backend::Dummy(d) => d.spec_content(inode),
        }
    }

    open spec fn spec_perms(&self, inode: u32) -> u16 {
        match self {
            Backend::Infs(f) => f.spec_perms(inode),
            Backend::Dummy(d) => d.spec_perms(inode),
        }
    }

    fn get_fd(&self, inode: u32, fd: u32) -> (r: Option<FileDescriptor>) {
        match self {
            Backend::Infs(f) => <infs::FileSystem as VirtualFileSystem>::get_fd(f, inode, fd),
            Backend::Dummy(d) => <dummyfs::FileSystem as VirtualFileSystem>::get_fd(d, inode, fd),
        }
    }

    fn delete_file(&mut self, inode: u32, dir_inode: u32) -> (r: VfsResult) {
        match self {
            Backend::Infs(f) => <infs::FileSystem as VirtualFileSystem>::delete_file(f, inode, dir_inode),
            Backend::Dummy(d) => <dummyfs::FileSystem as VirtualFileSystem>::delete_file(d, inode, dir_inode),
        }
    }

    fn create_file(&mut self, dir_inode: u32, filename: String, data: &[u8]) -> (r: Option<u32>) {
        match self {
            Backend::Infs(f) => <infs::FileSystem as VirtualFileSystem>::create_file(f, dir_inode, filename, data),
            Backend::Dummy(d) => <dummyfs::FileSystem as VirtualFileSystem>::create_file(d, dir_inode, filename, data),
        }
    }

    fn create_directory(&mut self, parent_inode: u32, name: String) -> (r: Option<u32>) {
        match self {
            Backend::Infs(f) => <infs::FileSystem as VirtualFileSystem>::create_directory(f, parent_inode, name),
            Backend::Dummy(d) => <dummyfs::FileSystem as VirtualFileSystem>::create_directory(d, parent_inode, name),
        }
    }

    fn rewind_zero(&mut self, fd: &mut FileDescriptor) -> (r: VfsResult) {
        match self {
            Backend::Infs(f) => <infs::FileSystem as VirtualFileSystem>::rewind_zero(f, fd),
            Backend::Dummy(d) => <dummyfs::FileSystem as VirtualFileSystem>::rewind_zero(d, fd),
        }
    }

    fn rewind(&mut self, fd: &mut FileDescriptor, count: u64) -> (r: VfsResult) {
        match self {
            Backend::Infs(f) => <infs::FileSystem as VirtualFileSystem>::rewind(f, fd, count),
            Backend::Dummy(d) => <dummyfs::FileSystem as VirtualFileSystem>::rewind(d, fd, count),
        }
    }

    fn seek_forward(&mut self, fd: &mut FileDescriptor, count: u64) -> (r: VfsResult) {
        match self {
            Backend::Infs(f) => <infs::FileSystem as VirtualFileSystem>::seek_forward(f, fd, count),
            Backend::Dummy(d) => <dummyfs::FileSystem as VirtualFileSystem>::seek_forward(d, fd, count),
        }
    }

    fn seek(&mut self, fd: &mut FileDescriptor, location: u64) -> (r: VfsResult) {
        match self {
            Backend::Infs(f) => <infs::FileSystem as VirtualFileSystem>::seek(f, fd, location),
            Backend::Dummy(d) => <dummyfs::FileSystem as VirtualFileSystem>::seek(d, fd, location),
        }
    }

    fn read_n(&mut self, fd: &mut FileDescriptor, count: u64) -> (r: Option<Vec<u8>>) {
        match self {
            Backend::Infs(f) => <infs::FileSystem as VirtualFileSystem>::read_n(f, fd, count),
            Backend::Dummy(d) => <dummyfs::FileSystem as VirtualFileSystem>::read_n(d, fd, count),
        }
    }

    fn read_to_eof(&mut self, fd: &mut FileDescriptor) -> (r: Option<Vec<u8>>) {
        match self {
            Backend::Infs(f) => <infs::FileSystem as VirtualFileSystem>::read_to_eof(f, fd),
            Backend::Dummy(d) => <dummyfs::FileSystem as VirtualFileSystem>::read_to_eof(d, fd),
        }
    }

    fn write_in_place(&mut self, fd: &mut FileDescriptor, buf: &[u8]) -> (r: VfsResult) {
        match self {
            Backend::Infs(f) => <infs::FileSystem as VirtualFileSystem>::write_in_place(f, fd, buf),
            Backend::Dummy(d) => <dummyfs::FileSystem as VirtualFileSystem>::write_in_place(d, fd, buf),
        }
    }

    fn overwrite(&mut self, fd: &mut FileDescriptor, buf: &[u8]) -> (r: VfsResult) {
        match self {
            Backend::Infs(f) => <infs::FileSystem as VirtualFileSystem>::overwrite(f, fd, buf),
            Backend::Dummy(d) => <dummyfs::FileSystem as VirtualFileSystem>::overwrite(d, fd, buf),
        }
    }

    fn append(&mut self, fd: &mut FileDescriptor, buf: &[u8]) -> (r: VfsResult) {
        match self {
            Backend::Infs(f) => <infs::FileSystem as VirtualFileSystem>::append(f, fd, buf),
            Backend::Dummy(d) => <dummyfs::FileSystem as VirtualFileSystem>::append(d, fd, buf),
        }
    }

    fn vfd_as_dentry(&self, fd: &FileDescriptor) -> (r: Option<DentryView>) {
        match self {
            Backend::Infs(f) => <infs::FileSystem as VirtualFileSystem>::vfd_as_dentry(f, fd),
            Backend::Dummy(d) => <dummyfs::FileSystem as VirtualFileSystem>::vfd_as_dentry(d, fd),
        }
    }

    fn file_perms(&self, fd: &FileDescriptor) -> (r: Option<u16>) {
        match self {
            Backend::Infs(f) => <infs::FileSystem as VirtualFileSystem>::file_perms(f, fd),
            Backend::Dummy(d) => <dummyfs::FileSystem as VirtualFileSystem>::file_perms(d, fd),
        }
    }

    fn file_owner(&self, fd: &FileDescriptor) -> (r: Option<u32>) {
        match self {
            Backend::Infs(f) => <infs::FileSystem as VirtualFileSystem>::file_owner(f, fd),
            Backend::Dummy(d) => <dummyfs::FileSystem as VirtualFileSystem>::file_owner(d, fd),
        }
    }

    fn file_group(&self, fd: &FileDescriptor) -> (r: Option<u32>) {
        match self {
            Backend::Infs(f) => <infs::FileSystem as VirtualFileSystem>::file_group(f, fd),
            Backend::Dummy(d) => <dummyfs::FileSystem as VirtualFileSystem>::file_group(d, fd),
        }
    }

    fn file_size(&self, fd: &FileDescriptor) -> (r: Option<u64>) {
        match self {
            Backend::Infs(f) => <infs::FileSystem as VirtualFileSystem>::file_size(f, fd),
            Backend::Dummy(d) => <dummyfs::FileSystem as VirtualFileSystem>::file_size(d, fd),
        }
    }

    fn file_modified(&self, fd: &FileDescriptor) -> (r: Option<u64>) {
        match self {
            Backend::Infs(f) => <infs::FileSystem as VirtualFileSystem>::file_modified(f, fd),
            Backend::Dummy(d) => <dummyfs::FileSystem as VirtualFileSystem>::file_modified(d, fd),
        }
    }

    fn file_hardlinks(&self, fd: &FileDescriptor) -> (r: Option<u16>) {
        match self {
            Backend::Infs(f) => <infs::FileSystem as VirtualFileSystem>::file_hardlinks(f, fd),
            Backend::Dummy(d) => <dummyfs::FileSystem as VirtualFileSystem>::file_hardlinks(d, fd),
        }
    }

    fn chmod(&mut self, fd: &FileDescriptor, perms: u16) -> (r: VfsResult) {
        match self {
            Backend::Infs(f) => <infs::FileSystem as VirtualFileSystem>::chmod(f, fd, perms),
            Backend::Dummy(d) => <dummyfs::FileSystem as VirtualFileSystem>::chmod(d, fd, perms),
        }
    }
}

} // verus!
