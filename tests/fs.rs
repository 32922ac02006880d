use ostree_mount::adapter::{join_path, ChildInfo, DirEntry, FsError, TreeFs};
use ostree_mount::attr::{info2attr, FileKind, Metadata, SourceKind, Timestamp};
use ostree_mount::table::{InodeTable, ROOT_INO};

fn stamp() -> Timestamp {
    Timestamp { secs: 1_700_000_000, nanos: 5 }
}

fn dir_meta() -> Metadata {
    Metadata { kind: SourceKind::Directory, size: 0, mtime: stamp() }
}

fn file_meta(size: u64) -> Metadata {
    Metadata { kind: SourceKind::Regular, size, mtime: stamp() }
}

fn child(name: &str, meta: Metadata) -> ChildInfo {
    ChildInfo { name: name.to_string(), meta }
}

fn names(es: &[DirEntry]) -> Vec<String> {
    es.iter().map(|e| e.name.clone()).collect()
}

#[test]
fn hello_snapshot_scenario() {
    let mut fs = TreeFs::new();
    // Listing the root shows the one directory `a`.
    let root_path = fs.resolve_path(ROOT_INO).unwrap();
    assert_eq!(root_path, "");
    let listed = fs.readdir(ROOT_INO, 0, Some(vec![child("a", dir_meta())])).unwrap();
    assert_eq!(listed.len(), 1);
    assert_eq!(listed[0].name, "a");
    assert_eq!(listed[0].kind, FileKind::Directory);
    assert_eq!(listed[0].offset, 1);

    // Resolving `a` under the root gives a non-root directory.
    let a_path = fs.lookup_path(ROOT_INO, &"a".to_string()).unwrap();
    assert_eq!(a_path, "a");
    let a = fs.lookup(ROOT_INO, &"a".to_string(), Some(dir_meta())).unwrap();
    assert_ne!(a.ino, 1);
    assert_eq!(a.ino, listed[0].ino);
    assert_eq!(a.kind, FileKind::Directory);
    assert_eq!(a.perm, 0o755);

    // Listing `a` shows `b.txt`.
    assert_eq!(fs.resolve_path(a.ino).unwrap(), "a");
    let inner = fs.readdir(a.ino, 0, Some(vec![child("b.txt", file_meta(13))])).unwrap();
    assert_eq!(names(&inner), vec!["b.txt".to_string()]);
    assert_eq!(inner[0].kind, FileKind::RegularFile);

    // Resolving `b.txt` gives a 13-byte regular file.
    assert_eq!(fs.lookup_path(a.ino, &"b.txt".to_string()).unwrap(), "a/b.txt");
    let b = fs.lookup(a.ino, &"b.txt".to_string(), Some(file_meta(13))).unwrap();
    assert_eq!(b.kind, FileKind::RegularFile);
    assert_eq!(b.size, 13);
    assert_eq!(b.perm, 0o644);
    assert_eq!(b.ino, inner[0].ino);

    // Reading it returns the content.
    let content = b"Hello World!\n".to_vec();
    let data = fs.read(b.ino, 0, 4096, Some(content.clone())).unwrap();
    assert_eq!(data, content);
    assert_eq!(data.len(), 13);
}

#[test]
fn getattr_of_unknown_inode_is_not_found() {
    let fs = TreeFs::new();
    assert_eq!(fs.getattr(7, Some(file_meta(3))), Err(FsError::NotFound));
    assert_eq!(fs.getattr(0, Some(file_meta(3))), Err(FsError::NotFound));
    assert!(fs.resolve_path(7).is_none());
}

#[test]
fn getattr_of_root_and_known_inode() {
    let mut fs = TreeFs::new();
    let root = fs.getattr(ROOT_INO, Some(dir_meta())).unwrap();
    assert_eq!(root.ino, 1);
    assert_eq!(root.size, 4096);
    assert_eq!(root.kind, FileKind::Directory);
    let f = fs.lookup(ROOT_INO, &"f".to_string(), Some(file_meta(9))).unwrap();
    let again = fs.getattr(f.ino, Some(file_meta(9))).unwrap();
    assert_eq!(again, f);
    assert_eq!(fs.getattr(f.ino, None), Err(FsError::NotFound));
}

#[test]
fn table_starts_with_root_and_counts_up() {
    let mut t = InodeTable::new();
    assert_eq!(t.len(), 1);
    assert_eq!(t.resolve_inode(&String::new()), Some(1));
    let x = t.assign_or_get(&"x".to_string());
    assert_eq!(x, 2);
    let y = t.assign_or_get(&"y".to_string());
    assert_eq!(y, 3);
    assert_eq!(t.len(), 3);
}

#[test]
fn assign_is_stable_across_other_assignments() {
    let mut t = InodeTable::new();
    let p = "dir/file".to_string();
    let first = t.assign_or_get(&p);
    t.assign_or_get(&"other".to_string());
    let second = t.assign_or_get(&p);
    assert_eq!(first, second);
    assert_eq!(t.len(), 3);
}

#[test]
fn table_directions_are_inverse() {
    let mut t = InodeTable::new();
    for p in ["a", "a/b", "c"] {
        t.assign_or_get(&p.to_string());
    }
    for ino in 1..=t.len() {
        let p = t.resolve_path(ino).unwrap();
        assert_eq!(t.resolve_inode(&p), Some(ino));
    }
    assert_eq!(t.resolve_path(t.len() + 1), None);
    assert_eq!(t.resolve_inode(&"missing".to_string()), None);
}

#[test]
fn root_stays_one_whatever_the_order() {
    let mut t = InodeTable::new();
    t.assign_or_get(&"z".to_string());
    assert_eq!(t.assign_or_get(&String::new()), 1);
    assert_eq!(t.resolve_path(1).unwrap(), "");
    assert_eq!(t.len(), 2);
}

#[test]
fn fresh_numbers_grow() {
    let mut t = InodeTable::new();
    let mut last = 1;
    for p in ["p", "q", "r", "s"] {
        let ino = t.assign_or_get(&p.to_string());
        assert!(ino > last);
        last = ino;
    }
}

fn three_children() -> Vec<ChildInfo> {
    vec![child("x", file_meta(1)), child("y", dir_meta()), child("z", file_meta(3))]
}

#[test]
fn listing_twice_gives_the_same_entries() {
    let mut fs = TreeFs::new();
    let first = fs.readdir(ROOT_INO, 1, Some(three_children())).unwrap();
    let count = fs.inode_count();
    let second = fs.readdir(ROOT_INO, 1, Some(three_children())).unwrap();
    assert_eq!(names(&first), vec!["y".to_string(), "z".to_string()]);
    assert_eq!(names(&first), names(&second));
    let inos: Vec<u64> = first.iter().map(|e| e.ino).collect();
    let inos2: Vec<u64> = second.iter().map(|e| e.ino).collect();
    assert_eq!(inos, inos2);
    assert_eq!(fs.inode_count(), count);
}

#[test]
fn listing_from_offset_is_a_suffix() {
    let mut fs = TreeFs::new();
    let full = fs.readdir(ROOT_INO, 0, Some(three_children())).unwrap();
    assert_eq!(full.iter().map(|e| e.offset).collect::<Vec<_>>(), vec![1, 2, 3]);
    for k in 0..=3usize {
        let part = fs.readdir(ROOT_INO, k as i64, Some(three_children())).unwrap();
        assert_eq!(part.len(), 3 - k);
        for (i, e) in part.iter().enumerate() {
            assert_eq!(e.ino, full[k + i].ino);
            assert_eq!(e.offset, full[k + i].offset);
            assert_eq!(e.name, full[k + i].name);
            assert_eq!(e.kind, full[k + i].kind);
        }
    }
}

#[test]
fn listing_past_the_end_or_negative_is_empty() {
    let mut fs = TreeFs::new();
    assert!(fs.readdir(ROOT_INO, 9, Some(three_children())).unwrap().is_empty());
    assert!(fs.readdir(ROOT_INO, -1, Some(three_children())).unwrap().is_empty());
    assert!(fs.readdir(ROOT_INO, 0, Some(Vec::new())).unwrap().is_empty());
    assert_eq!(fs.inode_count(), 1);
}

#[test]
fn listing_errors_are_not_found() {
    let mut fs = TreeFs::new();
    assert!(matches!(fs.readdir(5, 0, Some(three_children())), Err(FsError::NotFound)));
    assert!(matches!(fs.readdir(ROOT_INO, 0, None), Err(FsError::NotFound)));
    assert_eq!(fs.inode_count(), 1);
}

#[test]
fn listing_builds_child_paths_under_the_directory() {
    let mut fs = TreeFs::new();
    let d = fs.lookup(ROOT_INO, &"d".to_string(), Some(dir_meta())).unwrap();
    let es = fs.readdir(d.ino, 0, Some(vec![child("e", file_meta(2))])).unwrap();
    assert_eq!(fs.resolve_path(es[0].ino).unwrap(), "d/e");
    assert_eq!(fs.resolve_inode(&"d/e".to_string()), Some(es[0].ino));
}

#[test]
fn lookup_miss_allocates_nothing() {
    let mut fs = TreeFs::new();
    assert_eq!(fs.lookup(ROOT_INO, &"nope".to_string(), None), Err(FsError::NotFound));
    assert_eq!(fs.inode_count(), 1);
    assert_eq!(fs.resolve_inode(&"nope".to_string()), None);
    assert_eq!(fs.lookup(42, &"x".to_string(), Some(file_meta(1))), Err(FsError::NotFound));
    assert_eq!(fs.inode_count(), 1);
}

#[test]
fn lookup_twice_keeps_the_number() {
    let mut fs = TreeFs::new();
    let a = fs.lookup(ROOT_INO, &"a".to_string(), Some(dir_meta())).unwrap();
    let b = fs.lookup(ROOT_INO, &"a".to_string(), Some(dir_meta())).unwrap();
    assert_eq!(a.ino, 2);
    assert_eq!(a.ino, b.ino);
    assert_eq!(fs.inode_count(), 2);
}

#[test]
fn directory_size_floor() {
    let attr = info2attr(&dir_meta(), 4);
    assert_eq!(attr.size, 4096);
    assert_eq!(attr.kind, FileKind::Directory);
    let sized = info2attr(&Metadata { kind: SourceKind::Directory, size: 70, mtime: stamp() }, 4);
    assert_eq!(sized.size, 70);
}

#[test]
fn translation_fields() {
    let attr = info2attr(&file_meta(13), 9);
    assert_eq!(attr.ino, 9);
    assert_eq!(attr.size, 13);
    assert_eq!(attr.blocks, 0);
    assert_eq!(attr.atime, stamp());
    assert_eq!(attr.mtime, stamp());
    assert_eq!(attr.ctime, stamp());
    assert_eq!(attr.crtime, stamp());
    assert_eq!(attr.perm, 0o644);
    assert_eq!(attr.nlink, 0);
    assert_eq!(attr.uid, 1000);
    assert_eq!(attr.gid, 1000);
    assert_eq!(attr.blksize, 512);
    // An empty regular file is reported with the nominal size too.
    assert_eq!(info2attr(&file_meta(0), 9).size, 4096);
}

#[test]
fn other_kinds_become_regular_files() {
    for kind in [
        SourceKind::Unknown,
        SourceKind::SymbolicLink,
        SourceKind::Special,
        SourceKind::Shortcut,
        SourceKind::Mountable,
    ] {
        let attr = info2attr(&Metadata { kind, size: 5, mtime: stamp() }, 3);
        assert_eq!(attr.kind, FileKind::RegularFile);
        assert_eq!(attr.perm, 0o644);
    }
}

#[test]
fn read_windows() {
    let mut fs = TreeFs::new();
    let f = fs.lookup(ROOT_INO, &"f".to_string(), Some(file_meta(13))).unwrap();
    let content = b"Hello World!\n".to_vec();
    assert_eq!(fs.read(f.ino, 6, 5, Some(content.clone())).unwrap(), b"World".to_vec());
    assert_eq!(fs.read(f.ino, 11, 100, Some(content.clone())).unwrap(), b"!\n".to_vec());
    assert!(fs.read(f.ino, 13, 4, Some(content.clone())).unwrap().is_empty());
    assert!(fs.read(f.ino, 50, 4, Some(content.clone())).unwrap().is_empty());
    assert!(fs.read(f.ino, -3, 4, Some(content.clone())).unwrap().is_empty());
    assert!(fs.read(f.ino, 0, 0, Some(content.clone())).unwrap().is_empty());
}

#[test]
fn read_errors_are_not_found() {
    let fs = TreeFs::new();
    assert_eq!(fs.read(3, 0, 10, Some(vec![1, 2])), Err(FsError::NotFound));
    assert_eq!(fs.read(ROOT_INO, 0, 10, None), Err(FsError::NotFound));
}

#[test]
fn join_paths() {
    assert_eq!(join_path(&String::new(), &"a".to_string()), "a");
    assert_eq!(join_path(&"a".to_string(), &"b.txt".to_string()), "a/b.txt");
    assert_eq!(join_path(&"a/b".to_string(), &"c".to_string()), "a/b/c");
}
