//! The virtual-filesystem layer and its backends.
pub mod dentry;
pub mod dummyfs;
pub mod futils;
pub mod infs;
pub mod image;
pub mod infs_vfs;
pub mod mount;

use vstd::prelude::*;

verus! {

/// Why a filesystem operation failed.
#[derive(Clone, Copy, Debug, PartialEq, Eq, Structural)]
pub enum VfsErrno {
    /// The descriptor or inode is invalid, freed, or refers to itself where
    /// that is forbidden.
    EINVFD,
    /// A position lies outside the file.
    EFPOOB,
    /// No free inode, or no run of free blocks large enough.
    ENSTOR,
    /// The name already exists in the directory.
    EALREX,
}

impl VfsErrno {
    /// A description of the error.
    pub fn errno(&self) -> (r: &'static str)
        ensures
            *self == VfsErrno::EINVFD ==> r@ == "file descriptor points to nonexistent file"@,
            *self == VfsErrno::EFPOOB ==> r@ == "file seek went out of bounds"@,
            *self == VfsErrno::ENSTOR ==> r@ == "not enough space on disk"@,
            *self == VfsErrno::EALREX ==> r@ == "file already exists in directory"@,
    {
        match self {
            VfsErrno::EINVFD => "file descriptor points to nonexistent file",
            VfsErrno::EFPOOB => "file seek went out of bounds",
            VfsErrno::ENSTOR => "not enough space on disk",
            VfsErrno::EALREX => "file already exists in directory",
        }
    }
}

pub type VfsResult = Result<(), VfsErrno>;

/// An open file: an inode number and a byte position.
#[derive(Clone, Copy, Debug, PartialEq, Eq, Structural)]
pub struct FileDescriptor {
    pub inum: u32,
    pub pos: u64,
}

/// What a descriptor offers: the inode it names and a position.
pub trait VirtualFileDescriptor {
    spec fn spec_inum(&self) -> u32;

    spec fn spec_pos(&self) -> u64;

    fn get_inum(&self) -> (r: u32)
        ensures
            r == self.spec_inum(),
    ;

    fn get_pos(&self) -> (r: u64)
        ensures
            r == self.spec_pos(),
    ;

    /// Sets the position without any check; filesystems call it.
    fn set_pos_raw(&mut self, pos: u64) -> (r: VfsResult)
        ensures
            r is Ok,
            final(self).spec_pos() == pos,
            final(self).spec_inum() == old(self).spec_inum(),
    ;
}

impl VirtualFileDescriptor for FileDescriptor {
    open spec fn spec_inum(&self) -> u32 {
        self.inum
    }

    open spec fn spec_pos(&self) -> u64 {
        self.pos
    }

    fn get_inum(&self) -> (r: u32) {
        self.inum
    }

    fn get_pos(&self) -> (r: u64) {
        self.pos
    }

    fn set_pos_raw(&mut self, pos: u64) -> (r: VfsResult) {
        self.pos = pos;
        Ok(())
    }
}

/// What a directory listing offers.
pub trait VirtualDentry {
    spec fn spec_entries(&self) -> Seq<(u32, Seq<u8>)>;

    spec fn spec_inode(&self) -> u32;

    fn get_entries(&self) -> (r: Vec<VirtualDentryEntry>)
        ensures
            r@.map_values(|e: VirtualDentryEntry| e@) == self.spec_entries(),
    ;

    fn get_inode(&self) -> (r: u32)
        ensures
            r == self.spec_inode(),
    ;
}

/// The operations that every filesystem backend offers. `inv` is the
/// backend's own invariant; `spec_live` tells which inodes a descriptor can be
/// had for, and `spec_listing` what a directory lists.
pub trait VirtualFileSystem {
    spec fn inv(&self) -> bool;

    spec fn spec_live(&self, inode: u32) -> bool;

    spec fn spec_listing(&self, inode: u32) -> Option<Seq<(u32, Seq<u8>)>>;

    /// The bytes of the file that inode `inode` holds.
    spec fn spec_content(&self, inode: u32) -> Seq<u8>;

    /// The mode of inode `inode`.
    spec fn spec_perms(&self, inode: u32) -> u16;

    fn get_fd(&self, inode: u32, fd: u32) -> (r: Option<FileDescriptor>)
        requires
            self.inv(),
        ensures
            r is Some <==> self.spec_live(inode),
            r matches Some(d) ==> d.inum == inode && d.pos == 0,
    ;

    fn delete_file(&mut self, inode: u32, dir_inode: u32) -> (r: VfsResult)
        requires
            old(self).inv(),
        ensures
            final(self).inv(),
    ;

    fn create_file(&mut self, dir_inode: u32, filename: String, data: &[u8]) -> (r: Option<u32>)
        requires
            old(self).inv(),
        ensures
            final(self).inv(),
            r matches Some(n) ==> final(self).spec_live(n) && final(self).spec_content(n) == data@,
    ;

    fn create_directory(&mut self, parent_inode: u32, name: String) -> (r: Option<u32>)
        requires
            old(self).inv(),
        ensures
            final(self).inv(),
            r matches Some(n) ==> final(self).spec_live(n) && final(self).spec_listing(n) is Some,
    ;

    fn rewind_zero(&mut self, fd: &mut FileDescriptor) -> (r: VfsResult)
        requires
            old(self).inv(),
        ensures
            final(self).inv(),
            final(fd).inum == old(fd).inum,
    ;

    fn rewind(&mut self, fd: &mut FileDescriptor, count: u64) -> (r: VfsResult)
        requires
            old(self).inv(),
        ensures
            final(self).inv(),
            final(fd).inum == old(fd).inum,
    ;

    fn seek_forward(&mut self, fd: &mut FileDescriptor, count: u64) -> (r: VfsResult)
        requires
            old(self).inv(),
        ensures
            final(self).inv(),
            final(fd).inum == old(fd).inum,
    ;

    fn seek(&mut self, fd: &mut FileDescriptor, location: u64) -> (r: VfsResult)
        requires
            old(self).inv(),
        ensures
            final(self).inv(),
            final(fd).inum == old(fd).inum,
    ;

    fn read_n(&mut self, fd: &mut FileDescriptor, count: u64) -> (r: Option<Vec<u8>>)
        requires
            old(self).inv(),
        ensures
            final(self).inv(),
            final(fd).inum == old(fd).inum,
            r matches Some(v) ==> v@ == old(self).spec_content(old(fd).inum).subrange(old(fd).pos as int, old(fd).pos + count)
                && final(fd).pos == old(fd).pos + count,
    ;

    /// From position 0, reads the whole content of a live inode.
    fn read_to_eof(&mut self, fd: &mut FileDescriptor) -> (r: Option<Vec<u8>>)
        requires
            old(self).inv(),
        ensures
            final(self).inv(),
            final(fd).inum == old(fd).inum,
            old(self).spec_live(old(fd).inum) && old(fd).pos == 0
                ==> (r matches Some(v) && v@ == old(self).spec_content(old(fd).inum)),
    ;

    fn write_in_place(&mut self, fd: &mut FileDescriptor, buf: &[u8]) -> (r: VfsResult)
        requires
            old(self).inv(),
        ensures
            final(self).inv(),
            final(fd).inum == old(fd).inum,
            r is Ok ==> {
                let c = old(self).spec_content(old(fd).inum);
                final(self).spec_content(old(fd).inum) == c.subrange(0, old(fd).pos as int) + buf@
                    + c.subrange(old(fd).pos + buf@.len(), c.len() as int)
            },
    ;

    fn overwrite(&mut self, fd: &mut FileDescriptor, buf: &[u8]) -> (r: VfsResult)
        requires
            old(self).inv(),
        ensures
            final(self).inv(),
            final(fd).inum == old(fd).inum,
            r is Ok ==> final(self).spec_content(old(fd).inum) == buf@,
    ;

    fn append(&mut self, fd: &mut FileDescriptor, buf: &[u8]) -> (r: VfsResult)
        requires
            old(self).inv(),
        ensures
            final(self).inv(),
            final(fd).inum == old(fd).inum,
            r is Ok ==> final(self).spec_content(old(fd).inum) == old(self).spec_content(old(fd).inum) + buf@,
    ;

    /// The listing of the directory that the descriptor names.
    fn vfd_as_dentry(&self, fd: &FileDescriptor) -> (r: Option<DentryView>)
        requires
            self.inv(),
        ensures
            r is Some <==> self.spec_listing(fd.inum) is Some,
            r matches Some(d) ==> d.inum == fd.inum && Some(d.listing()) == self.spec_listing(fd.inum),
    ;

    fn file_perms(&self, fd: &FileDescriptor) -> (r: Option<u16>)
        requires
            self.inv(),
        ensures
            r matches Some(v) ==> v == self.spec_perms(fd.inum),
    ;

    fn file_owner(&self, fd: &FileDescriptor) -> (r: Option<u32>)
        requires
            self.inv(),
    ;

    fn file_group(&self, fd: &FileDescriptor) -> (r: Option<u32>)
        requires
            self.inv(),
    ;

    fn file_size(&self, fd: &FileDescriptor) -> (r: Option<u64>)
        requires
            self.inv(),
        ensures
            r matches Some(v) ==> v == self.spec_content(fd.inum).len(),
    ;

    fn file_modified(&self, fd: &FileDescriptor) -> (r: Option<u64>)
        requires
            self.inv(),
    ;

    fn file_hardlinks(&self, fd: &FileDescriptor) -> (r: Option<u16>)
        requires
            self.inv(),
    ;

    fn chmod(&mut self, fd: &FileDescriptor, perms: u16) -> (r: VfsResult)
        requires
            old(self).inv(),
        ensures
            final(self).inv(),
            r is Ok ==> final(self).spec_perms(fd.inum) == perms,
    ;
}

/// A directory entry as the filesystem layer hands it out: the inode number
/// and the name's bytes (up to the first NUL of its slot).
pub struct VirtualDentryEntry {
    pub inum: u32,
    pub filename: Vec<u8>,
}

impl View for VirtualDentryEntry {
    type V = (u32, Seq<u8>);

    open spec fn view(&self) -> (u32, Seq<u8>) {
        (self.inum, self.filename@)
    }
}

/// The entries of one directory.
pub struct DentryView {
    pub inum: u32,
    pub entries: Vec<VirtualDentryEntry>,
}

impl DentryView {
    pub open spec fn listing(&self) -> Seq<(u32, Seq<u8>)> {
        self.entries@.map_values(|e: VirtualDentryEntry| e@)
    }
}

impl VirtualDentryEntry {
    /// A copy of the entry.
    pub fn copy(&self) -> (r: VirtualDentryEntry)
        ensures
            r@ == self@,
    {
        let mut f: Vec<u8> = Vec::new();
        f.extend_from_slice(self.filename.as_slice());
        assert(f@ =~= self.filename@);
        VirtualDentryEntry { inum: self.inum, filename: f }
    }
}

impl VirtualDentry for DentryView {
    open spec fn spec_entries(&self) -> Seq<(u32, Seq<u8>)> {
        self.listing()
    }

    open spec fn spec_inode(&self) -> u32 {
        self.inum
    }

    fn get_entries(&self) -> (r: Vec<VirtualDentryEntry>) {
        let mut v: Vec<VirtualDentryEntry> = Vec::new();
        let mut k: usize = 0;
        while k < self.entries.len()
            invariant
                k <= self.entries@.len(),
                v@.map_values(|e: VirtualDentryEntry| e@) == self.listing().subrange(0, k as int),
            decreases self.entries@.len() - k,
        {
            let e = self.entries[k].copy();
            let ghost prev = v@.map_values(|e: VirtualDentryEntry| e@);
            v.push(e);
            assert(v@.map_values(|e: VirtualDentryEntry| e@) =~= prev.push(e@));
            k = k + 1;
            assert(self.listing().subrange(0, k as int) =~= self.listing().subrange(0, k - 1).push(self.listing()[k - 1]));
        }
        assert(self.listing().subrange(0, k as int) =~= self.listing());
        v
    }

    fn get_inode(&self) -> (r: u32) {
        self.inum
    }
}

/// A listing as names, each cut at its first NUL.
pub open spec fn listing_of(es: Seq<(u32, Seq<u8>)>) -> Seq<(u32, Seq<u8>)> {
    es.map_values(|e: (u32, Seq<u8>)| (e.0, crate::common::cstr_prefix(e.1)))
}

} // verus!
