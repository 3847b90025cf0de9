//! A read-only backend holding one directory, inode 1, whose 4096 bytes of
//! content list only `.`.
use vstd::prelude::*;
use crate::vfs::{DentryView, FileDescriptor, VfsErrno, VfsResult, VirtualDentryEntry, VirtualFileSystem};

verus! {

pub const POOL_LEN: u64 = 4096;

/// The content of the one directory: a slot for inode 1 named `.`, then zeros.
pub open spec fn pool() -> Seq<u8> {
    seq![1u8, 0u8, 0u8, 0u8, 46u8] + Seq::new(4091, |i: int| 0u8)
}

/// The read-only backend.
pub struct FileSystem {}

/// `pool()[from..to]`.
fn pool_bytes(from: u64, to: u64) -> (r: Vec<u8>)
    requires
        from <= to <= 4096,
    ensures
        r@ == pool().subrange(from as int, to as int),
{
    let mut r: Vec<u8> = Vec::new();
    let mut k: u64 = from;
    while k < to
        invariant
            from <= k <= to,
            to <= 4096,
            r@ == pool().subrange(from as int, k as int),
        decreases to - k,
    {
        let b: u8 = if k == 0 { 1u8 } else if k == 4 { 46u8 } else { 0u8 };
        assert(b == pool()[k as int]);
        r.push(b);
        k = k + 1;
        assert(r@ =~= pool().subrange(from as int, k as int));
    }
    r
}

impl VirtualFileSystem for FileSystem {
    open spec fn inv(&self) -> bool {
        true
    }

    open spec fn spec_live(&self, inode: u32) -> bool {
        inode == 1
    }

    open spec fn spec_listing(&self, inode: u32) -> Option<Seq<(u32, Seq<u8>)>> {
        if inode == 1 {
            Some(seq![(1u32, seq![46u8])])
        } else {
            None
        }
    }

    open spec fn spec_content(&self, inode: u32) -> Seq<u8> {
        pool()
    }

    open spec fn spec_perms(&self, inode: u32) -> u16 {
        (0x1000u16 + 0o440u16) as u16
    }

    fn get_fd(&self, inode: u32, fd: u32) -> (r: Option<FileDescriptor>) {
        if inode == 1 {
            Some(FileDescriptor { inum: 1, pos: 0 })
        } else {
            None
        }
    }

    fn delete_file(&mut self, inode: u32, dir_inode: u32) -> (r: VfsResult) {
        Err(VfsErrno::EINVFD)
    }

    fn create_file(&mut self, dir_inode: u32, filename: String, data: &[u8]) -> (r: Option<u32>) {
        None
    }

    fn create_directory(&mut self, parent_inode: u32, name: String) -> (r: Option<u32>) {
        None
    }

    fn rewind_zero(&mut self, fd: &mut FileDescriptor) -> (r: VfsResult) {
        if fd.inum != 1 {
            return Err(VfsErrno::EINVFD);
        }
        fd.pos = 0;
        Ok(())
    }

    fn rewind(&mut self, fd: &mut FileDescriptor, count: u64) -> (r: VfsResult) {
        if fd.inum != 1 {
            return Err(VfsErrno::EINVFD);
        }
        let p: u64 = fd.pos;
        if p >= count {
            fd.pos = p - count;
            return Ok(());
        }
        Err(VfsErrno::EFPOOB)
    }

    fn seek_forward(&mut self, fd: &mut FileDescriptor, count: u64) -> (r: VfsResult) {
        if fd.inum != 1 {
            return Err(VfsErrno::EINVFD);
        }
        if count >= POOL_LEN || fd.pos >= POOL_LEN - count {
            return Err(VfsErrno::EFPOOB);
        }
        fd.pos = fd.pos + count;
        Ok(())
    }

    fn seek(&mut self, fd: &mut FileDescriptor, location: u64) -> (r: VfsResult) {
        if fd.inum != 1 {
            return Err(VfsErrno::EINVFD);
        }
        if location < POOL_LEN {
            fd.pos = location;
            return Ok(());
        }
        Err(VfsErrno::EFPOOB)
    }

    fn read_n(&mut self, fd: &mut FileDescriptor, count: u64) -> (r: Option<Vec<u8>>) {
        self.read_pool(fd, count)
    }

    fn read_to_eof(&mut self, fd: &mut FileDescriptor) -> (r: Option<Vec<u8>>) {
        if fd.pos > POOL_LEN {
            return None;
        }
        let c: u64 = POOL_LEN - fd.pos;
        assert(pool().subrange(0, 4096) =~= pool());
        self.read_pool(fd, c)
    }

    fn write_in_place(&mut self, fd: &mut FileDescriptor, buf: &[u8]) -> (r: VfsResult) {
        Err(VfsErrno::ENSTOR)
    }

    fn overwrite(&mut self, fd: &mut FileDescriptor, buf: &[u8]) -> (r: VfsResult) {
        Err(VfsErrno::ENSTOR)
    }

    fn append(&mut self, fd: &mut FileDescriptor, buf: &[u8]) -> (r: VfsResult) {
        Err(VfsErrno::ENSTOR)
    }

    fn vfd_as_dentry(&self, fd: &FileDescriptor) -> (r: Option<DentryView>) {
        if fd.inum != 1 {
            return None;
        }
        let mut name: Vec<u8> = Vec::new();
        name.push(46u8);
        assert(name@ =~= seq![46u8]);
        let mut v: Vec<VirtualDentryEntry> = Vec::new();
        v.push(VirtualDentryEntry { inum: 1, filename: name });
        let d = DentryView { inum: 1, entries: v };
        assert(d.listing() =~= seq![(1u32, seq![46u8])]);
        Some(d)
    }

    fn file_perms(&self, fd: &FileDescriptor) -> (r: Option<u16>) {
        Some(0x1000u16 + 0o440u16)
    }

    fn file_owner(&self, fd: &FileDescriptor) -> (r: Option<u32>) {
        Some(0)
    }

    fn file_group(&self, fd: &FileDescriptor) -> (r: Option<u32>) {
        Some(0)
    }

    fn file_size(&self, fd: &FileDescriptor) -> (r: Option<u64>) {
        Some(POOL_LEN)
    }

    fn file_modified(&self, fd: &FileDescriptor) -> (r: Option<u64>) {
        Some(0)
    }

    fn file_hardlinks(&self, fd: &FileDescriptor) -> (r: Option<u16>) {
        Some(1)
    }

    fn chmod(&mut self, fd: &FileDescriptor, perms: u16) -> (r: VfsResult) {
        Err(VfsErrno::ENSTOR)
    }
}

impl FileSystem {
    /// Reads `count` bytes of the directory's content at the descriptor's
    /// position.
    pub fn read_pool(&self, fd: &mut FileDescriptor, count: u64) -> (r: Option<Vec<u8>>)
        ensures
            final(fd).inum == old(fd).inum,
            r is Some <==> old(fd).inum == 1 && old(fd).pos + count <= 4096,
            r is None ==> *final(fd) == *old(fd),
            r matches Some(v) ==> v@ == pool().subrange(old(fd).pos as int, old(fd).pos + count)
                && final(fd).pos == old(fd).pos + count,
    {
        if fd.inum != 1 {
            return None;
        }
        let cp: u64 = fd.pos;
        if count > POOL_LEN || cp > POOL_LEN - count {
            return None;
        }
        fd.pos = cp + count;
        Some(pool_bytes(cp, cp + count))
    }
}

} // verus!
