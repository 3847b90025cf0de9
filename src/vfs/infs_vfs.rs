//! INFS as a backend of the virtual-filesystem layer.
use vstd::prelude::*;
use crate::vfs::infs::FileSystem;
use crate::vfs::{listing_of, DentryView, FileDescriptor, VfsResult, VirtualFileSystem};

verus! {

impl VirtualFileSystem for FileSystem {
    open spec fn inv(&self) -> bool {
        self.wf()
    }

    open spec fn spec_live(&self, inode: u32) -> bool {
        self.live(inode as int)
    }

    open spec fn spec_listing(&self, inode: u32) -> Option<Seq<(u32, Seq<u8>)>> {
        if self.dir_readable(inode as int) {
            Some(listing_of(self.entries(inode as int)))
        } else {
            None
        }
    }

    open spec fn spec_content(&self, inode: u32) -> Seq<u8> {
        self.content(inode as int)
    }

    open spec fn spec_perms(&self, inode: u32) -> u16 {
        self.inodes@[inode as int].perms
    }

    fn get_fd(&self, inode: u32, fd: u32) -> (r: Option<FileDescriptor>) {
        FileSystem::get_fd(self, inode, fd)
    }

    fn delete_file(&mut self, inode: u32, dir_inode: u32) -> (r: VfsResult) {
        FileSystem::delete_file(self, inode, dir_inode)
    }

    fn create_file(&mut self, dir_inode: u32, filename: String, data: &[u8]) -> (r: Option<u32>) {
        FileSystem::create_file(self, dir_inode, filename, data)
    }

    fn create_directory(&mut self, parent_inode: u32, name: String) -> (r: Option<u32>) {
        FileSystem::create_directory(self, parent_inode, name)
    }

    fn rewind_zero(&mut self, fd: &mut FileDescriptor) -> (r: VfsResult) {
        FileSystem::rewind_zero(self, fd)
    }

    fn rewind(&mut self, fd: &mut FileDescriptor, count: u64) -> (r: VfsResult) {
        FileSystem::rewind(self, fd, count)
    }

    fn seek_forward(&mut self, fd: &mut FileDescriptor, count: u64) -> (r: VfsResult) {
        FileSystem::seek_forward(self, fd, count)
    }

    fn seek(&mut self, fd: &mut FileDescriptor, location: u64) -> (r: VfsResult) {
        FileSystem::seek(self, fd, location)
    }

    fn read_n(&mut self, fd: &mut FileDescriptor, count: u64) -> (r: Option<Vec<u8>>) {
        FileSystem::read_n(self, fd, count)
    }

    fn read_to_eof(&mut self, fd: &mut FileDescriptor) -> (r: Option<Vec<u8>>) {
        proof {
            if self.live(fd.inum as int) {
                self.lemma_content_len(fd.inum as int);
                assert(self.content(fd.inum as int).subrange(0, self.content(fd.inum as int).len() as int) =~= self.content(fd.inum as int));
            }
        }
        FileSystem::read_to_eof(self, fd)
    }

    fn write_in_place(&mut self, fd: &mut FileDescriptor, buf: &[u8]) -> (r: VfsResult) {
        FileSystem::write_in_place(self, fd, buf)
    }

    fn overwrite(&mut self, fd: &mut FileDescriptor, buf: &[u8]) -> (r: VfsResult) {
        FileSystem::overwrite(self, fd, buf)
    }

    fn append(&mut self, fd: &mut FileDescriptor, buf: &[u8]) -> (r: VfsResult) {
        FileSystem::append(self, fd, buf)
    }

    fn vfd_as_dentry(&self, fd: &FileDescriptor) -> (r: Option<DentryView>) {
        self.dentry_view(fd)
    }

    fn file_perms(&self, fd: &FileDescriptor) -> (r: Option<u16>) {
        FileSystem::file_perms(self, fd)
    }

    fn file_owner(&self, fd: &FileDescriptor) -> (r: Option<u32>) {
        FileSystem::file_owner(self, fd)
    }

    fn file_group(&self, fd: &FileDescriptor) -> (r: Option<u32>) {
        FileSystem::file_group(self, fd)
    }

    fn file_size(&self, fd: &FileDescriptor) -> (r: Option<u64>) {
        proof {
            if self.live(fd.inum as int) {
                self.lemma_content_len(fd.inum as int);
            }
        }
        FileSystem::file_size(self, fd)
    }

    fn file_modified(&self, fd: &FileDescriptor) -> (r: Option<u64>) {
        FileSystem::file_modified(self, fd)
    }

    fn file_hardlinks(&self, fd: &FileDescriptor) -> (r: Option<u16>) {
        FileSystem::file_hardlinks(self, fd)
    }

    fn chmod(&mut self, fd: &FileDescriptor, perms: u16) -> (r: VfsResult) {
        FileSystem::chmod(self, fd, perms)
    }
}

} // verus!
