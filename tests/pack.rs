use infs::pack::{build, unpack, EntryKind, PackEntry, PackError};

fn entry(parent: Option<usize>, kind: EntryKind, name: &str, data: &[u8]) -> PackEntry {
    PackEntry { parent, kind, name: name.to_string(), data: data.to_vec() }
}

fn paths(es: &[PackEntry]) -> Vec<(String, EntryKind, Vec<u8>)> {
    let mut out: Vec<(String, EntryKind, Vec<u8>)> = Vec::new();
    for (i, e) in es.iter().enumerate() {
        let mut p = e.name.clone();
        let mut cur = e.parent;
        while let Some(j) = cur {
            assert!(j < i);
            p = format!("{}/{}", es[j].name, p);
            cur = es[j].parent;
        }
        out.push((p, e.kind, e.data.clone()));
    }
    out.sort_by(|a, b| a.0.cmp(&b.0));
    out
}

#[test]
fn build_then_unpack_keeps_tree() {
    let tree = vec![
        entry(None, EntryKind::File, "readme", b"hello world"),
        entry(None, EntryKind::Dir, "src", b""),
        entry(Some(1), EntryKind::File, "main.rs", &[42u8; 9000]),
        entry(Some(1), EntryKind::Dir, "empty", b""),
        entry(Some(1), EntryKind::Symlink, "link", b"../readme"),
        entry(Some(3), EntryKind::File, "zero", b""),
    ];
    let img = build(&tree, 256, 4096, 1024).unwrap();
    let back = unpack(&img).unwrap();
    assert_eq!(paths(&back), paths(&tree));
}

#[test]
fn build_rejects_bad_params_and_parents() {
    assert_eq!(build(&vec![], 12, 4096, 1024).err(), Some(PackError::BadParams));
    assert_eq!(build(&vec![], 256, 4000, 1024).err(), Some(PackError::BadParams));
    let bad = vec![entry(Some(0), EntryKind::File, "self", b"")];
    assert_eq!(build(&bad, 256, 4096, 1024).err(), Some(PackError::BadParent));
    let big = vec![entry(None, EntryKind::File, "big", &[1u8; 256 * 9])];
    assert_eq!(build(&big, 8, 256, 8).err(), Some(PackError::NoSpace));
}

#[test]
fn unpack_rejects_non_images() {
    assert_eq!(unpack(&[0u8; 10]).err(), Some(PackError::BadImage));
}

#[test]
fn unpack_rejects_unknown_type() {
    let tree = vec![entry(None, EntryKind::File, "f", b"x")];
    let mut img = build(&tree, 8, 256, 8).unwrap();
    // inode 2's mode lies at offset 28 of its record
    let off = 32 + 1 + 2 * 64 + 28;
    img[off..off + 2].copy_from_slice(&0o50000u16.to_le_bytes());
    assert_eq!(unpack(&img).err(), Some(PackError::UnknownType));
}
