use infs::common::{bytes_to_string, fastceildiv, shift_in_text};
use infs::vfs::dummyfs;
use infs::vfs::futils::{find_file, read_to_end, resolve};
use infs::vfs::infs::{get_sup, mknrfs, FileSystem, FileSystemVersion, Inode, DirType, MAGIC_V1};
use infs::vfs::mount::{mount_dummy, Backend, VfsTreeNode};
use infs::vfs::{FileDescriptor, VfsErrno, VirtualDentry, VirtualFileSystem};

fn names(fs: &mut FileSystem, dir: u32) -> Vec<(u32, Vec<u8>)> {
    let fd = fs.get_fd(dir, 0).unwrap();
    let d = fs.vfd_as_dentry(&fd).unwrap();
    d.get_entries().into_iter().map(|e| (e.inum, e.filename)).collect()
}

#[test]
fn round_trip_of_image() {
    let mut fs = mknrfs(256, 4096, 1024);
    fs.create_file(1, "a.txt".to_string(), b"hello").unwrap();
    let d = fs.create_directory(1, "d".to_string()).unwrap();
    fs.create_file(d, "b".to_string(), &[7u8; 5000]).unwrap();
    let img = fs.to_bytes();
    let back = FileSystem::from_bytes(&img).unwrap();
    assert_eq!(back.to_bytes(), img);
    assert_eq!(back.sup, fs.sup);
    assert_eq!(back.inodes, fs.inodes);
    assert_eq!(back.inode_use_cache, fs.inode_use_cache);
    assert_eq!(back.data_use_table, fs.data_use_table);
    assert_eq!(back.data, fs.data);
}

#[test]
fn round_trip_small_blocks() {
    let fs = mknrfs(8, 256, 8);
    let img = fs.to_bytes();
    assert_eq!(img.len(), 32 + 1 + 8 * 64 + 1 + 8 * 256);
    let back = FileSystem::from_bytes(&img).unwrap();
    assert_eq!(back.to_bytes(), img);
}

#[test]
fn image_layout_header() {
    let fs = mknrfs(16, 512, 16);
    let img = fs.to_bytes();
    assert_eq!(&img[0..8], &MAGIC_V1.to_le_bytes());
    assert_eq!(&img[8..16], &(512u64 * 16).to_le_bytes());
    assert_eq!(&img[16..20], &16u32.to_le_bytes());
    assert_eq!(&img[20..24], &512u32.to_le_bytes());
    assert_eq!(&img[24..32], &16u64.to_le_bytes());
    // root inode record: number 1, directory mode
    let rec = &img[32 + 2 + 64..32 + 2 + 128];
    assert_eq!(&rec[0..4], &1u32.to_le_bytes());
    assert_eq!(&rec[28..30], &0o10755u16.to_le_bytes());
}

#[test]
fn from_bytes_rejects_bad_images() {
    let fs = mknrfs(8, 256, 8);
    let img = fs.to_bytes();
    assert!(FileSystem::from_bytes(&img[..31]).is_none());
    assert!(FileSystem::from_bytes(&img[..img.len() - 1]).is_none());
    let mut longer = img.clone();
    longer.push(0);
    assert!(FileSystem::from_bytes(&longer).is_none());
    let mut bad_magic = img.clone();
    bad_magic[0] ^= 1;
    assert!(FileSystem::from_bytes(&bad_magic).is_none());
    let mut bad_count = img.clone();
    bad_count[16] = 9;
    assert!(FileSystem::from_bytes(&bad_count).is_none());
}

#[test]
fn version_from_magic() {
    assert_eq!(FileSystemVersion::from(0x1815f05f7470ff65), Some(FileSystemVersion::V1));
    assert_eq!(FileSystemVersion::from(0), None);
}

#[test]
fn superblock_fields() {
    let s = get_sup(256, 4096, 1024);
    assert_eq!(s.magic, MAGIC_V1);
    assert_eq!(s.data_size, 4194304);
    assert_eq!(s.inode_count, 256);
    assert_eq!(s.data_block_size, 4096);
    assert_eq!(s.block_count, 1024);
}

#[test]
fn inode_zero_is_never_valid() {
    let mut fs = mknrfs(8, 256, 8);
    assert!(!fs.check_inode(0));
    assert!(fs.get_fd(0, 0).is_none());
    let mut seen = Vec::new();
    while let Some(n) = fs.alloc_inode() {
        assert_ne!(n, 0);
        seen.push(n);
    }
    assert_eq!(seen, vec![2, 3, 4, 5, 6, 7]);
}

#[test]
fn create_then_read_back() {
    let mut fs = FileSystem::create_test_fs();
    let n = fs.create_file(1, "a.txt".to_string(), b"hi").unwrap();
    let mut fd = fs.get_fd(n, 0).unwrap();
    assert_eq!(fs.read_to_eof(&mut fd).unwrap(), b"hi".to_vec());
    assert_eq!(fs.file_size(&fd), Some(2));
    assert_eq!(fs.file_perms(&fd), Some(0o644));
    assert_eq!(fs.file_hardlinks(&fd), Some(1));
    assert_eq!(fs.file_owner(&fd), Some(0));
    assert_eq!(fs.file_group(&fd), Some(0));
    assert_eq!(fs.file_modified(&fd), Some(0));
}

#[test]
fn duplicate_name_is_refused() {
    let mut fs = FileSystem::create_test_fs();
    fs.create_file(1, "a.txt".to_string(), b"hi").unwrap();
    let before = names(&mut fs, 1).len();
    assert_eq!(fs.create_file(1, "a.txt".to_string(), b"other"), None);
    assert_eq!(fs.create_directory(1, "a.txt".to_string()), None);
    assert_eq!(names(&mut fs, 1).len(), before);
}

#[test]
fn delete_refuses_dot_entries() {
    let mut fs = mknrfs(256, 4096, 1024);
    let d = fs.create_directory(1, "d".to_string()).unwrap();
    assert_eq!(fs.delete_file(d, d), Err(VfsErrno::EINVFD));
    assert_eq!(fs.delete_file(1, d), Err(VfsErrno::EINVFD));
    assert_eq!(fs.delete_file(1, 1), Err(VfsErrno::EINVFD));
    assert!(fs.get_fd(1, 0).is_some());
}

#[test]
fn delete_frees_last_link() {
    let mut fs = mknrfs(256, 4096, 1024);
    let n = fs.create_file(1, "f".to_string(), b"data").unwrap();
    let m = fs.create_file(1, "g".to_string(), b"more").unwrap();
    let before = names(&mut fs, 1);
    assert_eq!(fs.delete_file(n, 1), Ok(()));
    assert!(fs.get_fd(n, 0).is_none());
    let after = names(&mut fs, 1);
    assert_eq!(after.len(), before.len() - 1);
    assert!(after.iter().all(|e| e.0 != n));
    assert!(after.iter().any(|e| e.0 == m));
    assert_eq!(fs.delete_file(n, 1), Err(VfsErrno::EINVFD));
}

#[test]
fn hardlink_counts_links() {
    let mut fs = mknrfs(256, 4096, 1024);
    let n = fs.create_file(1, "f".to_string(), b"data").unwrap();
    assert_eq!(fs.hardlink(1, n, "g".to_string()), Ok(()));
    let fd = fs.get_fd(n, 0).unwrap();
    assert_eq!(fs.file_hardlinks(&fd), Some(2));
    assert_eq!(fs.delete_file(n, 1), Ok(()));
    let mut fd = fs.get_fd(n, 0).unwrap();
    assert_eq!(fs.file_hardlinks(&fd), Some(1));
    assert_eq!(fs.read_to_eof(&mut fd).unwrap(), b"data".to_vec());
    let listed = names(&mut fs, 1);
    assert!(listed.iter().any(|e| e.0 == n && e.1 == b"g".to_vec()));
    assert_eq!(fs.hardlink(1, 99, "x".to_string()), Err(VfsErrno::EINVFD));
}

#[test]
fn alloc_data_failure_keeps_map() {
    let mut fs = mknrfs(8, 256, 8);
    let before = fs.data_use_table.clone();
    assert_eq!(fs.alloc_data(7), None);
    assert_eq!(fs.data_use_table, before);
    assert_eq!(fs.alloc_data(0), None);
    assert_eq!(fs.data_use_table, before);
    // blocks 0 (reserved) and 1..=2 (root) are taken
    assert_eq!(fs.alloc_data(2), Some(3));
    assert_eq!(fs.alloc_data(3), Some(5));
    assert_eq!(fs.alloc_data(1), None);
}

#[test]
fn clear_data_zeroes_blocks() {
    let mut fs = mknrfs(8, 256, 8);
    let s = fs.alloc_data(2).unwrap();
    fs.data[(s as usize) * 256] = 9;
    assert_eq!(fs.clear_data(s, s + 1), Ok(()));
    assert_eq!(fs.data[(s as usize) * 256], 0);
    assert_eq!(fs.alloc_data(2), Some(s));
}

#[test]
fn read_boundaries() {
    let mut fs = FileSystem::create_test_fs();
    let n = fs.create_file(1, "f".to_string(), b"abcdef").unwrap();
    let mut fd = fs.get_fd(n, 0).unwrap();
    assert_eq!(fs.read_n(&mut fd, 2).unwrap(), b"ab".to_vec());
    assert_eq!(fd.pos, 2);
    assert_eq!(fs.read_n(&mut fd, 5), None);
    assert_eq!(fd.pos, 2);
    assert_eq!(fs.read_n(&mut fd, 4).unwrap(), b"cdef".to_vec());
    assert_eq!(fs.read_to_eof(&mut fd).unwrap(), Vec::<u8>::new());
}

#[test]
fn seeking() {
    let mut fs = FileSystem::create_test_fs();
    let n = fs.create_file(1, "f".to_string(), b"abcdef").unwrap();
    let mut fd = fs.get_fd(n, 0).unwrap();
    assert_eq!(fs.seek(&mut fd, 6), Err(VfsErrno::EFPOOB));
    assert_eq!(fs.seek(&mut fd, 5), Ok(()));
    assert_eq!(fd.pos, 5);
    assert_eq!(fs.rewind(&mut fd, 6), Err(VfsErrno::EFPOOB));
    assert_eq!(fs.rewind(&mut fd, 2), Ok(()));
    assert_eq!(fd.pos, 3);
    assert_eq!(fs.seek_forward(&mut fd, 3), Err(VfsErrno::EFPOOB));
    assert_eq!(fs.seek_forward(&mut fd, 2), Ok(()));
    assert_eq!(fd.pos, 5);
    assert_eq!(fs.rewind_zero(&mut fd), Ok(()));
    assert_eq!(fd.pos, 0);
    let mut bad = FileDescriptor { inum: 77, pos: 0 };
    assert_eq!(fs.rewind_zero(&mut bad), Err(VfsErrno::EINVFD));
}

#[test]
fn writes() {
    let mut fs = FileSystem::create_test_fs();
    let n = fs.create_file(1, "f".to_string(), b"abcdef").unwrap();
    let mut fd = fs.get_fd(n, 0).unwrap();
    fd.pos = 2;
    assert_eq!(fs.write_in_place(&mut fd, b"XYZW"), Ok(()));
    assert_eq!(fs.write_in_place(&mut fd, b"XYZWV"), Err(VfsErrno::EFPOOB));
    let mut r = fs.get_fd(n, 0).unwrap();
    assert_eq!(fs.read_to_eof(&mut r).unwrap(), b"abXYZW".to_vec());
    assert_eq!(fs.overwrite(&mut fd, b"new content"), Ok(()));
    let mut r = fs.get_fd(n, 0).unwrap();
    assert_eq!(fs.read_to_eof(&mut r).unwrap(), b"new content".to_vec());
    assert_eq!(fs.append(&mut fd, b"!!"), Ok(()));
    let mut r = fs.get_fd(n, 0).unwrap();
    assert_eq!(fs.read_to_eof(&mut r).unwrap(), b"new content!!".to_vec());
    assert_eq!(fs.overwrite(&mut fd, b""), Ok(()));
    assert_eq!(fs.file_size(&fd), Some(0));
}

#[test]
fn overwrite_without_room() {
    let mut fs = mknrfs(8, 256, 8);
    let n = fs.create_file(1, "f".to_string(), b"x").unwrap();
    let mut fd = fs.get_fd(n, 0).unwrap();
    let before = fs.to_bytes();
    assert_eq!(fs.overwrite(&mut fd, &[1u8; 256 * 5]), Err(VfsErrno::ENSTOR));
    assert_eq!(fs.to_bytes(), before);
}

#[test]
fn chmod_sets_mode() {
    let mut fs = FileSystem::create_test_fs();
    let n = fs.create_file(1, "f".to_string(), b"x").unwrap();
    let fd = fs.get_fd(n, 0).unwrap();
    assert_eq!(fs.chmod(&fd, 0o20777), Ok(()));
    assert_eq!(fs.file_perms(&fd), Some(0o20777));
    let bad = FileDescriptor { inum: 200, pos: 0 };
    assert_eq!(fs.chmod(&bad, 0), Err(VfsErrno::EINVFD));
}

#[test]
fn directories_hold_dot_entries() {
    let mut fs = mknrfs(256, 4096, 1024);
    let d = fs.create_directory(1, "sub".to_string()).unwrap();
    assert_eq!(names(&mut fs, d), vec![(d, b".".to_vec()), (1, b"..".to_vec())]);
    assert_eq!(names(&mut fs, 1), vec![(1, b".".to_vec()), (1, b"..".to_vec()), (d, b"sub".to_vec())]);
    let fd = fs.get_fd(d, 0).unwrap();
    assert_eq!(fs.file_perms(&fd), Some(0o10755));
    let f = fs.create_file(1, "plain".to_string(), b"x").unwrap();
    let ffd = fs.get_fd(f, 0).unwrap();
    assert!(fs.vfd_as_dentry(&ffd).is_none());
}

#[test]
fn test_fs_root_holds_dot() {
    let mut fs = FileSystem::create_test_fs();
    assert_eq!(names(&mut fs, 1), vec![(1, b".".to_vec())]);
    assert_eq!(fs.sup.block_count, 1024);
}

#[test]
fn long_names_are_truncated() {
    let mut fs = FileSystem::create_test_fs();
    let long = "x".repeat(300);
    let n = fs.create_file(1, long, b"").unwrap();
    let listed = names(&mut fs, 1);
    assert!(listed.iter().any(|e| e.0 == n && e.1.len() == 252));
}

#[test]
fn empty_file() {
    let mut fs = FileSystem::create_test_fs();
    let n = fs.create_file(1, "e".to_string(), b"").unwrap();
    let mut fd = fs.get_fd(n, 0).unwrap();
    assert_eq!(fs.read_to_eof(&mut fd).unwrap(), Vec::<u8>::new());
    assert_eq!(fs.delete_file(n, 1), Ok(()));
}

#[test]
fn no_free_inode() {
    let mut fs = mknrfs(8, 256, 64);
    for i in 0..6 {
        assert!(fs.create_file(1, format!("f{}", i), b"").is_some());
    }
    assert_eq!(fs.create_file(1, "last".to_string(), b""), None);
}

#[test]
fn errno_texts() {
    assert_eq!(VfsErrno::EINVFD.errno(), "file descriptor points to nonexistent file");
    assert_eq!(VfsErrno::EFPOOB.errno(), "file seek went out of bounds");
    assert_eq!(VfsErrno::ENSTOR.errno(), "not enough space on disk");
    assert_eq!(VfsErrno::EALREX.errno(), "file already exists in directory");
}

#[test]
fn dirtype_from_mode() {
    let mut i = Inode::empty();
    assert_eq!(i.get_dirtype(), DirType::File);
    i.perms = 0o10755;
    assert_eq!(i.get_dirtype(), DirType::Dir);
    i.perms = 0o20777;
    assert_eq!(i.get_dirtype(), DirType::Symlink);
    i.perms = 0o30000;
    assert_eq!(i.get_dirtype(), DirType::Hardlink);
}

#[test]
fn ceil_division() {
    assert_eq!(fastceildiv(0, 4096), 0);
    assert_eq!(fastceildiv(1, 4096), 1);
    assert_eq!(fastceildiv(4096, 4096), 1);
    assert_eq!(fastceildiv(4097, 4096), 2);
    assert_eq!(fastceildiv(u64::MAX, 2), 1u64 << 63);
}

#[test]
fn cstr_to_text() {
    assert_eq!(bytes_to_string(b"ab\0cd"), "ab");
    assert_eq!(bytes_to_string(b"abc"), "abc");
    assert_eq!(bytes_to_string(b"\0"), "");
}

#[test]
fn right_align() {
    assert_eq!(shift_in_text("ab", 5), "   ab");
    assert_eq!(shift_in_text("abcdef", 3), "abcdef");
    assert_eq!(shift_in_text("", 2), "  ");
}

#[test]
fn dummy_backend() {
    let mut d = dummyfs::FileSystem {};
    let mut fd = VirtualFileSystem::get_fd(&d, 1, 0).unwrap();
    let all = VirtualFileSystem::read_to_eof(&mut d, &mut fd).unwrap();
    assert_eq!(all.len(), 4096);
    assert_eq!(&all[..5], &[1, 0, 0, 0, b'.']);
    assert!(VirtualFileSystem::get_fd(&d, 2, 0).is_none());
    let view = VirtualFileSystem::vfd_as_dentry(&d, &FileDescriptor { inum: 1, pos: 0 }).unwrap();
    assert_eq!(view.get_inode(), 1);
    assert_eq!(view.get_entries()[0].filename, b".".to_vec());
    assert_eq!(VirtualFileSystem::create_file(&mut d, 1, "x".to_string(), b""), None);
}

#[test]
fn mount_and_resolve() {
    let mut fs = mknrfs(256, 4096, 1024);
    let d = fs.create_directory(1, "home".to_string()).unwrap();
    let f = fs.create_file(d, "notes".to_string(), b"n").unwrap();
    assert_eq!(resolve(&fs, b"home/notes"), Some(f));
    assert_eq!(resolve(&fs, b"home//notes"), Some(f));
    assert_eq!(resolve(&fs, b"home/missing"), None);
    assert_eq!(resolve(&fs, b"home/notes/deeper"), None);
    let mut fs = fs;
    assert_eq!(read_to_end(&mut fs, b"home/notes"), Some(b"n".to_vec()));
    assert_eq!(read_to_end(&mut fs, b"home/nothing"), None);
    let mut root = VfsTreeNode::Unmounted;
    assert_eq!(find_file(&root, b"/home", b"/"), None);
    root.mount_root(Backend::Infs(fs));
    assert_eq!(find_file(&root, b"/home/notes", b"/"), Some(f));
    assert_eq!(find_file(&root, b"notes", b"home/"), Some(f));
    assert_eq!(find_file(&root, b"/home/", b"/"), Some(d));
    let mut other = VfsTreeNode::Unmounted;
    mount_dummy(&mut other);
    assert_eq!(find_file(&other, b"/", b"/"), Some(1));
    assert!(other.presume_mounted().is_some());
}

#[test]
fn multi_mount_routes_by_first_component() {
    let fs = mknrfs(8, 256, 8);
    let tree = VfsTreeNode::MultiMount(vec![
        (b".".to_vec(), VfsTreeNode::Mounted(Backend::Infs(fs))),
        (b"dev".to_vec(), VfsTreeNode::Mounted(Backend::Dummy(dummyfs::FileSystem {}))),
    ]);
    let (b, rest) = tree.find_destination_fs(b"dev/x").unwrap();
    assert!(matches!(b, Backend::Dummy(_)));
    assert_eq!(rest, b"x".to_vec());
    let (b, rest) = tree.find_destination_fs(b"etc/x").unwrap();
    assert!(matches!(b, Backend::Infs(_)));
    assert_eq!(rest, b"etc/x".to_vec());
    let (b, rest) = tree.find_destination_fs(b"file").unwrap();
    assert!(matches!(b, Backend::Infs(_)));
    assert_eq!(rest, b"file".to_vec());
    assert!(VfsTreeNode::MultiMount(vec![]).find_destination_fs(b"a/b").is_none());
}

#[test]
fn root_is_never_freed() {
    let mut fs = mknrfs(256, 4096, 1024);
    let d = fs.create_directory(1, "d".to_string()).unwrap();
    let e = fs.create_directory(d, "e".to_string()).unwrap();
    assert_eq!(fs.hardlink(e, 1, "up".to_string()), Ok(()));
    assert_eq!(fs.hardlink(e, 1, "up2".to_string()), Ok(()));
    assert_eq!(fs.delete_file(1, e), Ok(()));
    // the root's last link is never taken away
    fs.inodes[1].hard_link_count = 1;
    assert_eq!(fs.delete_file(1, e), Err(VfsErrno::EINVFD));
    assert!(fs.get_fd(1, 0).is_some());
}

#[test]
fn directory_with_odd_size_still_lists() {
    let mut fs = mknrfs(256, 4096, 1024);
    let f = fs.create_file(1, "f".to_string(), &[0u8; 300]).unwrap();
    let fd = fs.get_fd(f, 0).unwrap();
    assert_eq!(fs.chmod(&fd, 0o10755), Ok(()));
    let view = fs.vfd_as_dentry(&fd).unwrap();
    assert_eq!(view.get_entries().len(), 0);
}

#[test]
fn fresh_test_fs_layout() {
    let fs = FileSystem::create_test_fs();
    assert_eq!(fs.inodes[1].first_block, 1);
    assert_eq!(fs.inodes[1].end_block, 1);
    assert_eq!(fs.inodes[1].total_file_size, 4096);
    assert_eq!(fs.data_use_table[0], 0b11);
    assert_eq!(fs.inode_use_cache[0], 0b10);
}
