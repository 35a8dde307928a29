use qrfs::dir::{
    create_directory, is_directory, list_directory, parent_inode, remove_directory, rename_entry,
    DirEntry, DirError,
};
use qrfs::files::{
    access, create, getattr, lookup, open, opendir, read, readdir, statfs, ReaddirEntry, StatFs,
};
use qrfs::fs::{Directory, FileKind, Inode, Named, QrfsInner};
use qrfs::meta::{load_inode_disk, read_superblock, write_inode_disk, write_superblock};
use qrfs::mount::{mount, read_directory_from_disk};
use qrfs::store::{BlockStore, FsError};

fn fresh_store(n: usize) -> BlockStore {
    let mut store = BlockStore::new(vec![vec![0u8; 1024]; n]);
    qrfs::mkfs::format(&mut store, 100).unwrap();
    store
}

fn mounted(n: usize) -> QrfsInner {
    mount(fresh_store(n), 200).unwrap()
}

fn root_dir_inode() -> Inode {
    Inode {
        ino: 1,
        kind: FileKind::Directory,
        perm: 0o755,
        uid: 0,
        gid: 0,
        size: 0,
        atime: 100,
        mtime: 100,
        ctime: 100,
        nlink: 2,
    }
}

#[test]
fn new_inodes_have_the_standard_attributes() {
    assert_eq!(
        Inode::dir(5, 9),
        Inode {
            ino: 5,
            kind: FileKind::Directory,
            perm: 0o755,
            uid: 0,
            gid: 0,
            size: 0,
            atime: 9,
            mtime: 9,
            ctime: 9,
            nlink: 2
        }
    );
    assert_eq!(
        Inode::file(6, 77, 9),
        Inode {
            ino: 6,
            kind: FileKind::RegularFile,
            perm: 0o644,
            uid: 0,
            gid: 0,
            size: 77,
            atime: 9,
            mtime: 9,
            ctime: 9,
            nlink: 1
        }
    );
    assert!(Inode::dir(1, 0).is_dir());
    assert!(!Inode::file(1, 0, 0).is_dir());
}

#[test]
fn a_directory_keeps_names_apart_and_in_order() {
    let mut d = Directory::new(1);
    assert!(d.is_empty());
    d.insert("b", 2);
    d.insert("a", 3);
    d.insert("b", 4);
    assert_eq!(
        d.entries,
        vec![Named { name: "b".to_string(), ino: 4 }, Named { name: "a".to_string(), ino: 3 }]
    );
    assert_eq!(d.get("a"), Some(3));
    assert_eq!(d.get("b"), Some(4));
    assert_eq!(d.get("c"), None);
    assert_eq!(d.position("a"), 1);
    assert_eq!(d.position("zz"), 2);
    assert!(d.contains("a"));
    assert!(!d.contains(""));
    assert_eq!(d.remove("b"), Some(4));
    assert_eq!(d.remove("b"), None);
    assert_eq!(d.entries, vec![Named { name: "a".to_string(), ino: 3 }]);
    assert_eq!(d.copy(), d);
}

#[test]
fn mounting_a_fresh_filesystem() {
    let inner = mounted(10);
    assert_eq!(inner.superblock.total_blocks, 10);
    assert_eq!(inner.free_blocks, 7);
    assert_eq!(inner.free_inodes, 8);
    assert_eq!(inner.next_ino, 2);
    assert_eq!(inner.inodes.len(), 1);
    assert_eq!(inner.inodes.get(&1), Some(&root_dir_inode()));
    assert_eq!(inner.directories.len(), 1);
    assert_eq!(inner.directories.get(&1), Some(&Directory { parent: 1, entries: vec![] }));
}

#[test]
fn mounting_refuses_what_is_no_filesystem() {
    assert_eq!(mount(BlockStore::new(vec![]), 0).err(), Some(FsError::NoBlocks));
    assert_eq!(
        mount(BlockStore::new(vec![vec![0u8; 100]]), 0).err(),
        Some(FsError::ShortBlock { index: 0 })
    );
    assert_eq!(
        mount(BlockStore::new(vec![vec![0u8; 1024]; 10]), 0).err(),
        Some(FsError::BadMagic { found: 0 })
    );
    let mut store = fresh_store(10);
    let mut sb = read_superblock(&store).unwrap();
    sb.version = 2;
    write_superblock(&mut store, &sb).unwrap();
    assert_eq!(mount(store, 0).err(), Some(FsError::BadVersion { found: 2 }));
}

#[test]
fn mounting_without_any_inode_in_use_makes_a_root() {
    let mut store = fresh_store(10);
    let sb = read_superblock(&store).unwrap();
    write_inode_disk(&mut store, &sb, 1, &qrfs::disk::InodeDisk::zeroed()).unwrap();
    let inner = mount(store, 55).unwrap();
    assert_eq!(inner.inodes.len(), 1);
    assert_eq!(inner.inodes.get(&1), Some(&Inode::dir(1, 55)));
    assert_eq!(inner.next_ino, 2);
}

fn store_with_root_entries() -> BlockStore {
    let mut store = fresh_store(10);
    let sb = read_superblock(&store).unwrap();
    let mut root = load_inode_disk(&store, &sb, 1).unwrap();
    root.direct_blocks[0] = 3;
    write_inode_disk(&mut store, &sb, 1, &root).unwrap();
    let mut file = qrfs::disk::InodeDisk::zeroed();
    file.id = 4;
    file.file_type = 1;
    file.nlink = 1;
    file.size = 12;
    file.perm = 0o600;
    file.uid = 7;
    file.gid = 8;
    file.atime = 1;
    file.mtime = 2;
    file.ctime = 3;
    write_inode_disk(&mut store, &sb, 4, &file).unwrap();
    let mut block = Vec::new();
    for (ino, name) in [(1u32, "."), (9, ".."), (4, "a"), (1, "self"), (6, "a")] {
        let mut field = [0u8; 56];
        field[..name.len()].copy_from_slice(name.as_bytes());
        qrfs::disk::DirEntryDisk { inode: ino, name: field }.encode(&mut block);
    }
    store.write_fs_block(3, &block).unwrap();
    store
}

#[test]
fn reading_a_directory_from_the_store() {
    let store = store_with_root_entries();
    let sb = read_superblock(&store).unwrap();
    let entry = |ino: u64, name: &str, file_type: FileKind| DirEntry {
        ino,
        name: name.to_string(),
        file_type,
    };
    assert_eq!(
        read_directory_from_disk(&store, &sb, 1),
        Ok(vec![
            entry(1, ".", FileKind::Directory),
            entry(9, "..", FileKind::RegularFile),
            entry(4, "a", FileKind::RegularFile),
            entry(1, "self", FileKind::Directory),
            entry(6, "a", FileKind::RegularFile),
        ])
    );
    assert_eq!(
        read_directory_from_disk(&store, &sb, 4),
        Err(FsError::NotADirectory { ino: 4, file_type: 1 })
    );
    assert_eq!(
        read_directory_from_disk(&store, &sb, 0),
        Err(FsError::InodeOutOfRange { ino: 0, max_inodes: 9 })
    );
    assert_eq!(read_directory_from_disk(&fresh_store(10), &sb, 1), Ok(vec![]));
}

#[test]
fn mounting_reads_inodes_and_the_root_directory() {
    let inner = mount(store_with_root_entries(), 0).unwrap();
    assert_eq!(inner.next_ino, 5);
    assert_eq!(inner.inodes.len(), 2);
    assert_eq!(
        inner.inodes.get(&4),
        Some(&Inode {
            ino: 4,
            kind: FileKind::RegularFile,
            perm: 0o600,
            uid: 7,
            gid: 8,
            size: 12,
            atime: 1,
            mtime: 2,
            ctime: 3,
            nlink: 1
        })
    );
    assert_eq!(
        inner.directories.get(&1),
        Some(&Directory {
            parent: 9,
            entries: vec![
                Named { name: "a".to_string(), ino: 6 },
                Named { name: "self".to_string(), ino: 1 }
            ]
        })
    );
}

#[test]
fn queries_on_a_fresh_filesystem() {
    let inner = mounted(10);
    assert_eq!(getattr(&inner, 1), Some(root_dir_inode()));
    assert_eq!(getattr(&inner, 2), None);
    assert!(access(1));
    assert!(!access(2));
    assert_eq!(opendir(&inner, 1), Ok(1));
    assert_eq!(opendir(&inner, 2), Err(DirError::NotDirectory));
    assert_eq!(open(&inner, 1), Ok(1));
    assert_eq!(open(&inner, 2), Err(DirError::NotFound));
    assert_eq!(lookup(&inner, 1, "x"), Err(DirError::NotFound));
    assert_eq!(lookup(&inner, 2, "x"), Err(DirError::NotFound));
    assert!(is_directory(&inner, 1));
    assert!(!is_directory(&inner, 2));
    assert_eq!(parent_inode(&inner, 1), Some(1));
    assert_eq!(parent_inode(&inner, 7), Some(7));
    assert_eq!(
        statfs(&inner),
        StatFs {
            blocks: 10,
            bfree: 7,
            bavail: 7,
            files: 9,
            ffree: 8,
            bsize: 1024,
            namelen: 255,
            frsize: 1024
        }
    );
}

#[test]
fn creating_a_file_writes_its_record() {
    let mut inner = mounted(10);
    let inode = create(&mut inner, 1, "a.txt", 300).unwrap();
    assert_eq!(inode, Inode::file(2, 0, 300));
    assert_eq!(inner.next_ino, 3);
    assert_eq!(inner.free_inodes, 7);
    assert_eq!(inner.superblock.free_inodes, 7);
    assert_eq!(read_superblock(&inner.store), Ok(inner.superblock));
    let rec = load_inode_disk(&inner.store, &inner.superblock, 2).unwrap();
    assert_eq!(rec.id, 2);
    assert_eq!(rec.file_type, 1);
    assert_eq!(rec.perm, 0o644);
    assert_eq!(rec.nlink, 1);
    assert_eq!(rec.size, 0);
    assert_eq!((rec.atime, rec.mtime, rec.ctime), (300, 300, 300));
    assert_eq!(rec.direct_blocks, [0u32; 12]);
    assert_eq!(lookup(&inner, 1, "a.txt"), Ok(inode));
    assert_eq!(getattr(&inner, 2), Some(inode));
    assert_eq!(open(&inner, 2), Ok(2));
}

#[test]
fn creating_a_file_can_fail() {
    let mut inner = mounted(10);
    assert_eq!(create(&mut inner, 5, "a", 1), Err(DirError::NotDirectory));
    create(&mut inner, 1, "a", 1).unwrap();
    assert_eq!(create(&mut inner, 1, "a", 1), Err(DirError::Exists));
    for k in 0..7 {
        create(&mut inner, 1, &format!("f{k}"), 1).unwrap();
    }
    assert_eq!(inner.next_ino, 10);
    assert_eq!(inner.free_inodes, 0);
    assert_eq!(create(&mut inner, 1, "last", 1), Err(DirError::NoSpace));
    assert_eq!(inner.next_ino, 10);
    let mut broken = mounted(10);
    broken.store.blocks[1] = vec![];
    assert_eq!(create(&mut broken, 1, "a", 1), Err(DirError::Io));
    assert_eq!(broken.next_ino, 2);
    assert_eq!(lookup(&broken, 1, "a"), Err(DirError::NotFound));
}

#[test]
fn writing_and_reading_a_file() {
    let mut inner = mounted(10);
    create(&mut inner, 1, "a", 300).unwrap();
    let data: Vec<u8> = (0..2000).map(|i| (i % 200) as u8 + 1).collect();
    assert_eq!(inner.free_blocks, 6);
    assert_eq!(qrfs::files::write(&mut inner, 2, 0, &data, 400), Ok(2000));
    assert_eq!(inner.free_blocks, 4);
    assert_eq!(inner.superblock.free_blocks, 4);
    let inode = getattr(&inner, 2).unwrap();
    assert_eq!(inode.size, 2000);
    assert_eq!(inode.mtime, 400);
    assert_eq!(inode.ctime, 400);
    assert_eq!(inode.atime, 300);
    let rec = load_inode_disk(&inner.store, &inner.superblock, 2).unwrap();
    assert_eq!(rec.direct_blocks, [4, 5, 0, 0, 0, 0, 0, 0, 0, 0, 0, 0]);
    assert_eq!(rec.size, 2000);
    assert_eq!(read(&inner, 2, 0, 4096), Ok(data.clone()));
    assert_eq!(read(&inner, 2, 1990, 4096), Ok(data[1990..].to_vec()));
    assert_eq!(read(&inner, 2, 2000, 10), Ok(vec![]));
    assert_eq!(&inner.store.blocks[5][976..], &[0u8; 48][..]);
    let again = mount(BlockStore::new(inner.store.blocks.clone()), 0).unwrap();
    assert_eq!(getattr(&again, 2).unwrap().size, 2000);
    assert_eq!(lookup(&again, 1, "a").unwrap().ino, 2);
    assert_eq!(read(&again, 2, 0, 4096), Ok(data));
    assert_eq!(again.free_blocks, 4);
    assert_eq!(again.next_ino, 3);
}

#[test]
fn reading_and_writing_can_fail() {
    let mut inner = mounted(10);
    create(&mut inner, 1, "a", 1).unwrap();
    assert_eq!(read(&inner, 2, -1, 10), Err(DirError::Invalid));
    assert_eq!(read(&inner, 1, 0, 10), Err(DirError::IsDirectory));
    assert_eq!(read(&inner, 0, 0, 10), Err(DirError::Io));
    assert_eq!(read(&inner, 3, 0, 10), Ok(vec![]));
    assert_eq!(qrfs::files::write(&mut inner, 2, -1, &[1], 1), Err(DirError::Invalid));
    assert_eq!(qrfs::files::write(&mut inner, 3, 0, &[1], 1), Err(DirError::NotFound));
    assert_eq!(qrfs::files::write(&mut inner, 1, 0, &[1], 1), Err(DirError::IsDirectory));
    let mut rec = load_inode_disk(&inner.store, &inner.superblock, 2).unwrap();
    rec.direct_blocks[0] = 1;
    rec.size = 10;
    write_inode_disk(&mut inner.store, &inner.superblock.clone(), 2, &rec).unwrap();
    assert_eq!(read(&inner, 2, 0, 10), Err(DirError::Io));
    assert_eq!(qrfs::files::write(&mut inner, 2, 0, &[1], 1), Err(DirError::Io));
    rec.direct_blocks[0] = 0;
    write_inode_disk(&mut inner.store, &inner.superblock.clone(), 2, &rec).unwrap();
    for _ in 0..6 {
        qrfs::allocator::alloc_block(&mut inner.store, &mut inner.superblock).unwrap();
    }
    assert_eq!(
        qrfs::allocator::alloc_block(&mut inner.store, &mut inner.superblock),
        Err(FsError::NoSpace)
    );
    assert_eq!(qrfs::files::write(&mut inner, 2, 0, &[1], 1), Err(DirError::NoSpace));
    assert_eq!(getattr(&inner, 2).unwrap().size, 0);
}

#[test]
fn making_listing_and_removing_directories() {
    let mut inner = mounted(10);
    let sub = create_directory(&mut inner, 1, "sub", 0o755, 500).unwrap();
    assert_eq!(sub, Inode::dir(2, 500));
    create(&mut inner, 1, "file", 600).unwrap();
    create_directory(&mut inner, 2, "deep", 0, 700).unwrap();
    assert_eq!(inner.next_ino, 5);
    assert_eq!(parent_inode(&inner, 2), Some(1));
    assert_eq!(parent_inode(&inner, 4), Some(2));
    assert!(is_directory(&inner, 2));
    assert!(!is_directory(&inner, 3));
    let entry = |ino: u64, name: &str, file_type: FileKind| DirEntry {
        ino,
        name: name.to_string(),
        file_type,
    };
    assert_eq!(
        list_directory(&inner, 1),
        Ok(vec![entry(2, "sub", FileKind::Directory), entry(3, "file", FileKind::RegularFile)])
    );
    assert_eq!(list_directory(&inner, 4), Ok(vec![]));
    assert_eq!(list_directory(&inner, 3), Err(DirError::NotDirectory));
    assert_eq!(create_directory(&mut inner, 1, "sub", 0, 1), Err(DirError::NotSupported));
    assert_eq!(create_directory(&mut inner, 3, "x", 0, 1), Err(DirError::NotDirectory));
    assert_eq!(create_directory(&mut inner, 9, "x", 0, 1), Err(DirError::NotDirectory));
    assert_eq!(remove_directory(&mut inner, 1, "sub", 900), Err(DirError::NotEmpty));
    assert_eq!(remove_directory(&mut inner, 1, "file", 900), Err(DirError::NotDirectory));
    assert_eq!(remove_directory(&mut inner, 1, "none", 900), Err(DirError::NotFound));
    assert_eq!(remove_directory(&mut inner, 3, "x", 900), Err(DirError::NotDirectory));
    assert_eq!(remove_directory(&mut inner, 2, "deep", 900), Ok(()));
    assert_eq!(getattr(&inner, 4), None);
    assert_eq!(list_directory(&inner, 4), Err(DirError::NotDirectory));
    assert_eq!(remove_directory(&mut inner, 1, "sub", 900), Ok(()));
    assert_eq!(list_directory(&inner, 1), Ok(vec![entry(3, "file", FileKind::RegularFile)]));
}

#[test]
fn the_root_is_never_removed() {
    let mut inner = mounted(10);
    let mut root = inner.directories.remove(&1).unwrap();
    root.insert("me", 1);
    inner.directories.insert(1, Directory { parent: 1, entries: vec![] });
    inner.directories.insert(7, root);
    inner.inodes.insert(7, Inode::dir(7, 0));
    assert_eq!(remove_directory(&mut inner, 7, "me", 900), Err(DirError::NotSupported));
    assert!(is_directory(&inner, 1));
}

#[test]
fn inode_ids_run_out() {
    let mut inner = mounted(10);
    inner.next_ino = u64::MAX;
    assert_eq!(create_directory(&mut inner, 1, "x", 0, 1), Err(DirError::NoSpace));
    assert_eq!(list_directory(&inner, 1), Ok(vec![]));
}

#[test]
fn a_listing_with_an_unknown_inode_fails() {
    let mut inner = mounted(10);
    let mut root = inner.directories.remove(&1).unwrap();
    root.insert("ghost", 42);
    inner.directories.insert(1, root);
    assert_eq!(list_directory(&inner, 1), Err(DirError::NotFound));
    assert_eq!(readdir(&inner, 1, 0), Err(DirError::NotFound));
    assert_eq!(lookup(&inner, 1, "ghost"), Err(DirError::NotFound));
}

#[test]
fn renaming_moves_an_entry() {
    let mut inner = mounted(10);
    create_directory(&mut inner, 1, "a", 0, 1).unwrap();
    create_directory(&mut inner, 1, "b", 0, 1).unwrap();
    create(&mut inner, 1, "f", 1).unwrap();
    create(&mut inner, 3, "g", 1).unwrap();
    assert_eq!(rename_entry(&mut inner, 1, "f", 2, "moved", 900), Ok(()));
    assert_eq!(lookup(&inner, 1, "f"), Err(DirError::NotFound));
    assert_eq!(lookup(&inner, 2, "moved").unwrap().ino, 4);
    assert_eq!(rename_entry(&mut inner, 1, "b", 2, "b2", 900), Ok(()));
    assert_eq!(parent_inode(&inner, 3), Some(2));
    assert_eq!(lookup(&inner, 2, "b2").unwrap().ino, 3);
    assert_eq!(lookup(&inner, 3, "g").unwrap().ino, 5);
    assert_eq!(rename_entry(&mut inner, 2, "b2", 2, "moved", 900), Ok(()));
    assert_eq!(lookup(&inner, 2, "moved").unwrap().ino, 3);
    assert_eq!(lookup(&inner, 2, "b2"), Err(DirError::NotFound));
    assert_eq!(inner.directories.get(&2).unwrap().entries.len(), 1);
    assert_eq!(rename_entry(&mut inner, 2, "moved", 2, "moved", 900), Ok(()));
    assert_eq!(lookup(&inner, 2, "moved").unwrap().ino, 3);
    assert_eq!(rename_entry(&mut inner, 1, "nope", 2, "x", 900), Err(DirError::NotFound));
    assert_eq!(rename_entry(&mut inner, 4, "x", 2, "x", 900), Err(DirError::NotDirectory));
    assert_eq!(rename_entry(&mut inner, 1, "a", 4, "x", 900), Err(DirError::NotDirectory));
    assert_eq!(lookup(&inner, 1, "a").unwrap().ino, 2);
}

#[test]
fn reading_a_directory_by_offset() {
    let mut inner = mounted(10);
    create_directory(&mut inner, 1, "sub", 0, 1).unwrap();
    create(&mut inner, 2, "x", 1).unwrap();
    create(&mut inner, 2, "y", 1).unwrap();
    let line = |ino: u64, offset: i64, kind: FileKind, name: &str| ReaddirEntry {
        ino,
        offset,
        kind,
        name: name.to_string(),
    };
    let all = vec![
        line(2, 1, FileKind::Directory, "."),
        line(1, 2, FileKind::Directory, ".."),
        line(3, 3, FileKind::RegularFile, "x"),
        line(4, 4, FileKind::RegularFile, "y"),
    ];
    assert_eq!(readdir(&inner, 2, 0), Ok(all.clone()));
    assert_eq!(readdir(&inner, 2, 1), Ok(all[1..].to_vec()));
    assert_eq!(readdir(&inner, 2, 2), Ok(all[2..].to_vec()));
    assert_eq!(readdir(&inner, 2, 3), Ok(all[3..].to_vec()));
    assert_eq!(readdir(&inner, 2, 4), Ok(vec![]));
    assert_eq!(readdir(&inner, 2, i64::MAX), Ok(vec![]));
    assert_eq!(readdir(&inner, 2, -5), Ok(vec![]));
    assert_eq!(readdir(&inner, 3, 0), Err(DirError::NotFound));
}

#[test]
fn errors_have_the_error_numbers_of_the_system() {
    assert_eq!(DirError::NotDirectory.as_errno(), libc::ENOTDIR);
    assert_eq!(DirError::NotFound.as_errno(), libc::ENOENT);
    assert_eq!(DirError::NotEmpty.as_errno(), libc::ENOTEMPTY);
    assert_eq!(DirError::NoSpace.as_errno(), libc::ENOSPC);
    assert_eq!(DirError::NotSupported.as_errno(), libc::ENOSYS);
    assert_eq!(DirError::Exists.as_errno(), libc::EEXIST);
    assert_eq!(DirError::IsDirectory.as_errno(), libc::EISDIR);
    assert_eq!(DirError::Invalid.as_errno(), libc::EINVAL);
    assert_eq!(DirError::Io.as_errno(), libc::EIO);
}

#[test]
fn the_bitmap_marks_metadata_and_what_the_files_hold() {
    let mut inner = mounted(20);
    create(&mut inner, 1, "a", 1).unwrap();
    create(&mut inner, 1, "b", 1).unwrap();
    qrfs::files::write(&mut inner, 2, 0, &[1u8; 3000], 2).unwrap();
    qrfs::files::write(&mut inner, 3, 5000, &[2u8; 10], 2).unwrap();
    qrfs::files::write(&mut inner, 2, 2000, &[3u8; 3000], 2).unwrap();
    let sb = inner.superblock;
    let bitmap = qrfs::meta::load_bitmap(&inner.store, &sb).unwrap();
    let mut claimed = vec![false; sb.total_blocks as usize];
    for ino in 1..=sb.max_inodes as u64 {
        let rec = load_inode_disk(&inner.store, &sb, ino).unwrap();
        for b in rec.direct_blocks {
            if b != 0 {
                assert!(!claimed[b as usize]);
                claimed[b as usize] = true;
            }
        }
    }
    for b in 0..sb.total_blocks {
        let marked = qrfs::bitmap::bit_is_set(&bitmap, b);
        assert_eq!(marked, b < sb.data_blocks_start || claimed[b as usize]);
    }
    assert_eq!(claimed.iter().filter(|c| **c).count(), 7);
    assert_eq!(sb.free_blocks, 20 - sb.data_blocks_start - 7);
    assert_eq!(inner.free_blocks, sb.free_blocks);
}

#[test]
fn what_was_made_is_found_again_after_a_remount() {
    let mut inner = mounted(30);
    create_directory(&mut inner, 1, "docs", 0, 10).unwrap();
    create(&mut inner, 2, "note", 11).unwrap();
    create_directory(&mut inner, 2, "old", 0, 12).unwrap();
    create(&mut inner, 1, "top", 13).unwrap();
    qrfs::files::write(&mut inner, 3, 0, b"hello", 14).unwrap();
    rename_entry(&mut inner, 2, "old", 1, "new", 15).unwrap();
    create_directory(&mut inner, 4, "leaf", 0, 16).unwrap();
    let again = mount(BlockStore::new(inner.store.blocks.clone()), 99).unwrap();
    assert_eq!(again.inodes, inner.inodes);
    assert_eq!(again.directories, inner.directories);
    assert_eq!(again.next_ino, inner.next_ino);
    assert_eq!(again.free_blocks, inner.free_blocks);
    assert_eq!(again.free_inodes, inner.free_inodes);
    assert_eq!(again.superblock, inner.superblock);
    assert_eq!(lookup(&again, 2, "note").unwrap().ino, 3);
    assert_eq!(lookup(&again, 1, "new").unwrap().ino, 4);
    assert_eq!(lookup(&again, 4, "leaf").unwrap().ino, 6);
    assert_eq!(parent_inode(&again, 6), Some(4));
    assert_eq!(parent_inode(&again, 4), Some(1));
    assert_eq!(parent_inode(&again, 2), Some(1));
    assert_eq!(read(&again, 3, 0, 100), Ok(b"hello".to_vec()));
}

#[test]
fn removing_a_directory_gives_its_inode_and_block_back() {
    let mut inner = mounted(30);
    create_directory(&mut inner, 1, "d", 0, 1).unwrap();
    create_directory(&mut inner, 2, "e", 0, 2).unwrap();
    let (free_blocks, free_inodes) = (inner.free_blocks, inner.free_inodes);
    remove_directory(&mut inner, 2, "e", 3).unwrap();
    assert_eq!(inner.free_inodes, free_inodes + 1);
    assert_eq!(inner.free_blocks, free_blocks);
    remove_directory(&mut inner, 1, "d", 4).unwrap();
    assert_eq!(inner.free_inodes, free_inodes + 2);
    assert_eq!(inner.free_blocks, free_blocks + 1);
    assert_eq!(inner.superblock.free_blocks, inner.free_blocks);
    assert_eq!(
        load_inode_disk(&inner.store, &inner.superblock, 2),
        Ok(qrfs::disk::InodeDisk::zeroed())
    );
    let again = mount(BlockStore::new(inner.store.blocks.clone()), 99).unwrap();
    assert_eq!(again.directories, inner.directories);
    assert_eq!(again.inodes, inner.inodes);
    assert_eq!(list_directory(&again, 1), Ok(vec![]));
}

#[test]
fn a_directory_holds_seventeen_entries() {
    let mut inner = mounted(400);
    for k in 0..17 {
        create(&mut inner, 1, &format!("f{k}"), 1).unwrap();
    }
    let before = BlockStore::new(inner.store.blocks.clone());
    assert_eq!(create(&mut inner, 1, "one-too-many", 1), Err(DirError::NoSpace));
    assert_eq!(create_directory(&mut inner, 1, "one-too-many", 0, 1), Err(DirError::NoSpace));
    assert_eq!(inner.store, before);
    assert_eq!(inner.next_ino, 19);
    assert_eq!(rename_entry(&mut inner, 1, "f3", 1, "renamed", 2), Ok(()));
    assert_eq!(lookup(&inner, 1, "renamed").unwrap().ino, 5);
    let again = mount(BlockStore::new(inner.store.blocks.clone()), 99).unwrap();
    assert_eq!(again.directories, inner.directories);
}

#[test]
fn a_name_that_cannot_be_stored_is_refused() {
    let mut inner = mounted(30);
    let before = BlockStore::new(inner.store.blocks.clone());
    assert_eq!(create(&mut inner, 1, "", 1), Err(DirError::Invalid));
    assert_eq!(create(&mut inner, 1, &"x".repeat(57), 1), Err(DirError::Invalid));
    assert_eq!(create(&mut inner, 1, "a\0b", 1), Err(DirError::Invalid));
    assert_eq!(create_directory(&mut inner, 1, &"\u{e9}".repeat(29), 0, 1), Err(DirError::Invalid));
    assert_eq!(inner.store, before);
    assert_eq!(inner.next_ino, 2);
    assert_eq!(create(&mut inner, 1, &"x".repeat(56), 1).unwrap().ino, 2);
    assert_eq!(create_directory(&mut inner, 1, &"\u{e9}".repeat(28), 0, 1).unwrap().ino, 3);
    let again = mount(BlockStore::new(inner.store.blocks.clone()), 99).unwrap();
    assert_eq!(again.directories, inner.directories);
}

#[test]
fn directories_need_an_inode_slot() {
    let mut inner = mounted(10);
    for k in 0..8 {
        create_directory(&mut inner, 1, &format!("d{k}"), 0, 1).unwrap();
    }
    assert_eq!(inner.free_inodes, 0);
    assert_eq!(create_directory(&mut inner, 1, "more", 0, 1), Err(DirError::NoSpace));
    let mut broken = mounted(10);
    let mut root = load_inode_disk(&broken.store, &broken.superblock, 1).unwrap();
    root.file_type = 1;
    write_inode_disk(&mut broken.store, &broken.superblock.clone(), 1, &root).unwrap();
    assert_eq!(create_directory(&mut broken, 1, "x", 0, 1), Err(DirError::NotDirectory));
    assert_eq!(create(&mut broken, 1, "x", 1), Err(DirError::NotDirectory));
}

#[test]
fn a_move_that_fails_at_the_second_directory_has_written_the_first() {
    let mut inner = mounted(30);
    create_directory(&mut inner, 1, "a", 0, 1).unwrap();
    create(&mut inner, 1, "f", 2).unwrap();
    let mut root = load_inode_disk(&inner.store, &inner.superblock, 1).unwrap();
    root.file_type = 1;
    write_inode_disk(&mut inner.store, &inner.superblock.clone(), 1, &root).unwrap();
    let directories = inner.directories.clone();
    assert_eq!(rename_entry(&mut inner, 1, "f", 2, "g", 3), Err(DirError::NotDirectory));
    assert_eq!(inner.directories, directories);
    let sub = read_directory_from_disk(&inner.store, &inner.superblock, 2).unwrap();
    assert_eq!(sub.len(), 1);
    assert_eq!(sub[0].name, "g");
    assert_eq!(sub[0].ino, 3);
}

fn made_up_numbers() -> qrfs::dir::ErrorNumbers {
    qrfs::dir::ErrorNumbers {
        not_directory: 101,
        not_found: 102,
        not_empty: 103,
        no_space: 104,
        not_supported: 105,
        exists: 106,
        is_directory: 107,
        invalid: 108,
        io: -109,
    }
}

#[test]
fn each_error_picks_its_own_number() {
    let numbers = made_up_numbers();
    assert_eq!(DirError::NotDirectory.errno_among(&numbers), 101);
    assert_eq!(DirError::NotFound.errno_among(&numbers), 102);
    assert_eq!(DirError::NotEmpty.errno_among(&numbers), 103);
    assert_eq!(DirError::NoSpace.errno_among(&numbers), 104);
    assert_eq!(DirError::NotSupported.errno_among(&numbers), 105);
    assert_eq!(DirError::Exists.errno_among(&numbers), 106);
    assert_eq!(DirError::IsDirectory.errno_among(&numbers), 107);
    assert_eq!(DirError::Invalid.errno_among(&numbers), 108);
    assert_eq!(DirError::Io.errno_among(&numbers), -109);
}

#[test]
fn the_error_number_is_picked_among_those_of_the_system() {
    let system = qrfs::dir::ErrorNumbers {
        not_directory: libc::ENOTDIR,
        not_found: libc::ENOENT,
        not_empty: libc::ENOTEMPTY,
        no_space: libc::ENOSPC,
        not_supported: libc::ENOSYS,
        exists: libc::EEXIST,
        is_directory: libc::EISDIR,
        invalid: libc::EINVAL,
        io: libc::EIO,
    };
    for e in [
        DirError::NotDirectory,
        DirError::NotFound,
        DirError::NotEmpty,
        DirError::NoSpace,
        DirError::NotSupported,
        DirError::Exists,
        DirError::IsDirectory,
        DirError::Invalid,
        DirError::Io,
    ] {
        assert_eq!(e.as_errno(), e.errno_among(&system));
    }
}
