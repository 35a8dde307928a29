use qrfs::fsck::backend::FsckBackend;
use qrfs::fsck::blocks::{check_bitmap_global, check_blocks_global};
use qrfs::fsck::dirs::{check_dirs, check_orphan_inodes};
use qrfs::fsck::disk_backend::QrfsBackend;
use qrfs::fsck::mock::MockBackend;
use qrfs::fsck::passes::{check_inodes_basic, check_superblock};
use qrfs::fsck::run_fsck;
use qrfs::fsck::types::{Dirent, Finding, FsckReport, Inode, Superblock};
use qrfs::store::BlockStore;

fn inode(is_dir: bool, direct: Vec<u32>) -> Inode {
    Inode { in_use: true, is_dir, size: 0, direct, indirect1: None, indirect2: None }
}

fn free_slot(direct: Vec<u32>) -> Inode {
    Inode { in_use: false, is_dir: false, size: 0, direct, indirect1: None, indirect2: None }
}

fn dirent(inode: u32, name: &str, is_dir: bool) -> Dirent {
    Dirent { inode, name: name.to_string(), is_dir, valid: true }
}

/// Two inodes: the root directory, which lists a file, and that file.
fn sound() -> MockBackend {
    MockBackend {
        superblock: Superblock { magic: 0x1234, num_inodes: 2, num_blocks: 4, root_inode: 0, data_start: 0 },
        inodes: vec![inode(true, vec![1]), inode(false, vec![2, 3])],
        blocks: vec![vec![0u8; 4]; 4],
        dirs: vec![vec![dirent(1, "file", false)]],
        bitmap: vec![false, true, true, true],
    }
}

#[test]
fn a_new_report_is_clean() {
    let r = FsckReport::new();
    assert!(r.blocks_ok);
    assert!(r.inodes_ok);
    assert!(r.errors.is_empty());
    assert_eq!(r.error_count(), 0);
}

#[test]
fn a_sound_filesystem_has_no_findings() {
    let report = run_fsck(&sound());
    assert_eq!(report.errors, vec![]);
    assert!(report.blocks_ok);
    assert!(report.inodes_ok);
}

#[test]
fn running_twice_gives_the_same_report() {
    let mut backend = sound();
    backend.superblock.num_blocks = 9;
    backend.inodes.push(inode(false, vec![2, 2, 77]));
    let first = run_fsck(&backend);
    let second = run_fsck(&backend);
    assert!(!first.errors.is_empty());
    assert_eq!(first, second);
}

#[test]
fn an_inode_count_that_is_off_is_reported() {
    let backend = MockBackend {
        superblock: Superblock { magic: 0x1234, num_inodes: 2, num_blocks: 1, root_inode: 0, data_start: 0 },
        inodes: vec![inode(true, vec![])],
        blocks: vec![],
        dirs: vec![],
        bitmap: vec![false],
    };
    let report = run_fsck(&backend);
    assert!(report.errors.contains(&Finding::InodeCountMismatch { declared: 2, actual: 1 }));
    assert!(!report.inodes_ok);
    assert!(report.blocks_ok);
    assert_eq!(report.errors.len(), 1);
}

#[test]
fn a_block_listed_twice_by_one_inode_is_reported() {
    let mut backend = sound();
    backend.inodes[1].direct = vec![2, 3, 2];
    let mut report = FsckReport::new();
    check_inodes_basic(&backend, &mut report);
    assert_eq!(report.errors, vec![Finding::DuplicateInInode { inode: 1, block: 2 }]);
    assert!(!report.inodes_ok);
    assert!(report.blocks_ok);
    let full = run_fsck(&backend);
    assert!(full.errors.contains(&Finding::DuplicateInInode { inode: 1, block: 2 }));
    assert!(full.errors.contains(&Finding::DuplicateDirect { inode: 1, block: 2 }));
}

#[test]
fn an_entry_with_the_wrong_type_is_reported() {
    let mut backend = sound();
    backend.dirs[0] = vec![dirent(1, "file", true)];
    let report = run_fsck(&backend);
    assert_eq!(
        report.errors,
        vec![Finding::WrongEntryType { dir: 0, name: "file".to_string() }]
    );
    assert!(report.inodes_ok);
    assert!(report.blocks_ok);
}

#[test]
fn the_superblock_pass_reports_each_violation() {
    let backend = MockBackend {
        superblock: Superblock { magic: 7, num_inodes: 0, num_blocks: 0, root_inode: 5, data_start: 0 },
        inodes: vec![inode(true, vec![])],
        blocks: vec![],
        dirs: vec![],
        bitmap: vec![true, false],
    };
    let mut report = FsckReport::new();
    check_superblock(&backend, &mut report);
    assert_eq!(
        report.errors,
        vec![
            Finding::BadMagic,
            Finding::InodeCountMismatch { declared: 0, actual: 1 },
            Finding::BlockCountMismatch { declared: 0, bitmap_len: 2 },
            Finding::RootOutOfRange { root: 5 },
            Finding::ZeroBlocks,
            Finding::ZeroInodes,
        ]
    );
    assert!(!report.blocks_ok);
    assert!(!report.inodes_ok);
}

#[test]
fn a_wrong_magic_alone_clears_no_rollup() {
    let mut backend = sound();
    backend.superblock.magic = 0;
    let report = run_fsck(&backend);
    assert_eq!(report.errors, vec![Finding::BadMagic]);
    assert!(report.blocks_ok && report.inodes_ok);
}

#[test]
fn the_basic_pass_reports_in_order() {
    let mut backend = sound();
    backend.inodes[0].size = u32::MAX;
    backend.inodes[1] = Inode {
        in_use: true,
        is_dir: false,
        size: 1,
        direct: vec![4, 2, 9, 2],
        indirect1: Some(4),
        indirect2: Some(3),
    };
    let mut report = FsckReport::new();
    check_inodes_basic(&backend, &mut report);
    assert_eq!(
        report.errors,
        vec![
            Finding::InvalidSize { inode: 0 },
            Finding::DirectOutOfRange { inode: 1, block: 4 },
            Finding::DirectOutOfRange { inode: 1, block: 9 },
            Finding::Indirect1OutOfRange { inode: 1, block: 4 },
            Finding::DuplicateInInode { inode: 1, block: 2 },
            Finding::DuplicateInInode { inode: 1, block: 4 },
        ]
    );
    assert!(!report.inodes_ok);
    assert!(report.blocks_ok);
}

#[test]
fn the_uniqueness_pass_reports_every_repeat() {
    let mut backend = sound();
    backend.inodes = vec![
        Inode { in_use: true, is_dir: true, size: 0, direct: vec![1, 2], indirect1: Some(3), indirect2: None },
        Inode { in_use: true, is_dir: false, size: 0, direct: vec![2, 5, 5], indirect1: Some(5), indirect2: Some(1) },
        Inode { in_use: true, is_dir: false, size: 0, direct: vec![], indirect1: None, indirect2: Some(3) },
    ];
    let mut report = FsckReport::new();
    check_blocks_global(&backend, &backend.superblock.clone(), &mut report);
    assert_eq!(
        report.errors,
        vec![
            Finding::DuplicateDirect { inode: 1, block: 2 },
            Finding::DuplicateDirect { inode: 1, block: 5 },
            Finding::DuplicateIndirect1 { inode: 1, block: 5 },
            Finding::DuplicateIndirect2 { inode: 1, block: 1 },
            Finding::DuplicateIndirect2 { inode: 2, block: 3 },
        ]
    );
    assert!(!report.blocks_ok);
    assert!(report.inodes_ok);
}

#[test]
fn the_uniqueness_pass_is_silent_when_all_pointers_differ() {
    let mut backend = sound();
    backend.inodes = vec![
        Inode { in_use: true, is_dir: true, size: 0, direct: vec![1, 2], indirect1: Some(3), indirect2: None },
        Inode { in_use: true, is_dir: false, size: 0, direct: vec![4, 5], indirect1: Some(6), indirect2: Some(7) },
    ];
    let mut report = FsckReport::new();
    check_blocks_global(&backend, &backend.superblock.clone(), &mut report);
    assert_eq!(report.errors, vec![]);
}

#[test]
fn the_directory_pass_reports_names_targets_and_types() {
    let mut backend = sound();
    backend.inodes.push(inode(true, vec![]));
    backend.superblock.num_inodes = 3;
    backend.dirs = vec![
        vec![dirent(1, "", false), dirent(9, "gone", false), dirent(2, "sub", false)],
        vec![dirent(0, "ignored", true)],
        vec![dirent(0, "up", true), dirent(3, "", true)],
    ];
    let mut report = FsckReport::new();
    check_dirs(&backend, &mut report);
    assert_eq!(
        report.errors,
        vec![
            Finding::EmptyName { dir: 0 },
            Finding::DanglingEntry { dir: 0, name: "gone".to_string(), target: 9 },
            Finding::WrongEntryType { dir: 0, name: "sub".to_string() },
            Finding::EmptyName { dir: 2 },
            Finding::DanglingEntry { dir: 2, name: "".to_string(), target: 3 },
        ]
    );
    assert!(report.inodes_ok);
    assert!(report.blocks_ok);
}

#[test]
fn the_directory_pass_reports_a_root_that_is_no_directory() {
    let mut backend = sound();
    backend.inodes[0].is_dir = false;
    let mut report = FsckReport::new();
    check_dirs(&backend, &mut report);
    assert_eq!(report.errors, vec![Finding::RootNotDirectory]);
    assert!(!report.inodes_ok);
}

#[test]
fn the_directory_pass_is_skipped_when_the_root_was_flagged() {
    let mut backend = sound();
    backend.superblock.root_inode = 2;
    backend.dirs[0] = vec![dirent(7, "gone", false)];
    let report = run_fsck(&backend);
    assert_eq!(
        report.errors,
        vec![Finding::RootOutOfRange { root: 2 }, Finding::Orphan { inode: 0 }, Finding::Orphan { inode: 1 }]
    );
    let mut alone = FsckReport::new();
    check_dirs(&backend, &mut alone);
    assert_eq!(alone.errors, vec![Finding::RootMissing]);
    assert!(!alone.inodes_ok);
}

#[test]
fn the_bitmap_pass_reports_both_directions() {
    let mut backend = sound();
    backend.bitmap = vec![true, false, true, true];
    backend.inodes[1].indirect1 = Some(200);
    let mut report = FsckReport::new();
    check_bitmap_global(&backend, &backend.superblock.clone(), &mut report);
    assert_eq!(
        report.errors,
        vec![Finding::UsedButUnclaimed { block: 0 }, Finding::FreeButClaimed { block: 1 }]
    );
    assert!(!report.blocks_ok);
    assert!(report.inodes_ok);
}

#[test]
fn the_bitmap_pass_stops_at_a_bitmap_of_the_wrong_length() {
    let mut backend = sound();
    backend.bitmap = vec![true; 3];
    let mut report = FsckReport::new();
    check_bitmap_global(&backend, &backend.superblock.clone(), &mut report);
    assert_eq!(report.errors, vec![Finding::BitmapSizeMismatch { actual: 3, expected: 4 }]);
    assert!(!report.blocks_ok);
}

#[test]
fn the_orphan_pass_reports_what_no_entry_names() {
    let mut backend = sound();
    backend.inodes.push(inode(false, vec![]));
    backend.inodes.push(inode(true, vec![]));
    backend.inodes.push(inode(false, vec![]));
    backend.dirs = vec![vec![dirent(1, "file", false)], vec![], vec![], vec![dirent(4, "x", false)]];
    let mut report = FsckReport::new();
    check_orphan_inodes(&backend, &mut report);
    assert_eq!(report.errors, vec![Finding::Orphan { inode: 2 }, Finding::Orphan { inode: 3 }]);
    assert!(!report.inodes_ok);
    assert!(report.blocks_ok);
}

#[test]
fn entries_of_inodes_that_are_no_directories_do_not_count() {
    let mut backend = sound();
    backend.inodes.push(inode(false, vec![]));
    backend.dirs = vec![vec![dirent(1, "file", false)], vec![dirent(2, "hidden", false)]];
    let mut report = FsckReport::new();
    check_orphan_inodes(&backend, &mut report);
    assert_eq!(report.errors, vec![Finding::Orphan { inode: 2 }]);
}

#[test]
fn the_mock_backend_hands_out_copies() {
    let backend = sound();
    assert_eq!(backend.load_superblock(), backend.superblock);
    assert_eq!(backend.load_all_inodes(), backend.inodes);
    assert_eq!(backend.load_block_bitmap(), backend.bitmap);
    assert_eq!(backend.read_inode(1), Some(inode(false, vec![2, 3])));
    assert_eq!(backend.read_inode(2), None);
    assert_eq!(backend.read_block(3), Some(vec![0u8; 4]));
    assert_eq!(backend.read_block(4), None);
    assert_eq!(backend.read_dir(0), vec![dirent(1, "file", false)]);
    assert_eq!(backend.read_dir(1), vec![]);
}

fn formatted_backend() -> QrfsBackend {
    let mut store = BlockStore::new(vec![vec![0u8; 1024]; 10]);
    qrfs::mkfs::format(&mut store, 1).unwrap();
    QrfsBackend::new(store)
}

#[test]
fn the_store_backend_reads_a_fresh_filesystem() {
    let backend = formatted_backend();
    assert_eq!(
        backend.load_superblock(),
        Superblock { magic: 0x1234, num_inodes: 10, num_blocks: 10, root_inode: 1, data_start: 3 }
    );
    let inodes = backend.load_all_inodes();
    assert_eq!(inodes.len(), 10);
    assert_eq!(inodes[0], free_slot(vec![]));
    assert_eq!(inodes[1], inode(true, vec![0; 12]));
    assert_eq!(inodes[2], free_slot(vec![0; 12]));
    assert_eq!(backend.read_inode(1), Some(inode(true, vec![0; 12])));
    assert_eq!(backend.read_inode(0), Some(free_slot(vec![])));
    assert_eq!(backend.read_inode(10), None);
    assert_eq!(
        backend.load_block_bitmap(),
        vec![true, true, true, false, false, false, false, false, false, false]
    );
    assert_eq!(backend.read_dir(1), vec![]);
    assert_eq!(backend.read_block(9), Some(vec![0u8; 1024]));
    assert_eq!(backend.read_block(10), None);
}

#[test]
fn the_store_backend_reads_the_root_directory() {
    let mut backend = formatted_backend();
    let sb = backend.load_superblock_disk().unwrap();
    let mut root = backend.load_inode_disk(1, &sb).unwrap();
    root.direct_blocks[0] = 3;
    qrfs::meta::write_inode_disk(&mut backend.store, &sb, 1, &root).unwrap();
    let mut block = Vec::new();
    for (ino, name) in [(1u32, "."), (1, ".."), (0, "free"), (2, "hello.txt"), (3, "")] {
        let mut field = [0u8; 56];
        field[..name.len()].copy_from_slice(name.as_bytes());
        qrfs::disk::DirEntryDisk { inode: ino, name: field }.encode(&mut block);
    }
    let mut long = [b'x'; 56];
    long[55] = b'y';
    qrfs::disk::DirEntryDisk { inode: 4, name: long }.encode(&mut block);
    let mut bad = [0u8; 56];
    bad[0] = 0xFF;
    bad[1] = b'a';
    qrfs::disk::DirEntryDisk { inode: 5, name: bad }.encode(&mut block);
    backend.store.write_fs_block(3, &block).unwrap();
    let mut long_name = "x".repeat(55);
    long_name.push('y');
    assert_eq!(
        backend.read_dir(1),
        vec![
            dirent(1, ".", true),
            dirent(1, "..", true),
            dirent(2, "hello.txt", false),
            dirent(4, &long_name, false),
            dirent(5, "\u{FFFD}a", false),
        ]
    );
    assert_eq!(backend.read_root_dir(&sb), backend.read_dir(1));
    assert_eq!(backend.read_dir(2), vec![]);
    assert_eq!(backend.read_dir(0), vec![]);
    assert_eq!(backend.read_dir(10), vec![]);
}

#[test]
fn the_store_backend_reads_what_the_filesystem_wrote() {
    let mut store = BlockStore::new(vec![vec![0u8; 1024]; 30]);
    qrfs::mkfs::format(&mut store, 1).unwrap();
    let mut inner = qrfs::mount::mount(store, 2).unwrap();
    qrfs::files::create(&mut inner, 1, "a", 3).unwrap();
    qrfs::dir::create_directory(&mut inner, 1, "d", 0, 4).unwrap();
    qrfs::files::create(&mut inner, 3, "b", 5).unwrap();
    qrfs::files::write(&mut inner, 4, 0, &[7u8; 1500], 6).unwrap();
    let backend = QrfsBackend::new(inner.store);
    assert_eq!(backend.read_dir(1), vec![dirent(2, "a", false), dirent(3, "d", true)]);
    assert_eq!(backend.read_dir(3), vec![dirent(4, "b", false)]);
    assert_eq!(backend.read_dir(2), vec![]);
    assert_eq!(backend.read_dir(4), vec![]);
    let mut report = FsckReport::new();
    check_superblock(&backend, &mut report);
    check_dirs(&backend, &mut report);
    assert_eq!(report.errors, vec![]);
    assert!(report.blocks_ok && report.inodes_ok);
    let mut orphans = FsckReport::new();
    check_orphan_inodes(&backend, &mut orphans);
    assert_eq!(orphans.errors, vec![]);
    let mut lost = backend;
    let sb = lost.load_superblock_disk().unwrap();
    let mut record = lost.load_inode_disk(4, &sb).unwrap();
    record.id = 9;
    qrfs::meta::write_inode_disk(&mut lost.store, &sb, 9, &record).unwrap();
    check_orphan_inodes(&lost, &mut orphans);
    assert_eq!(orphans.errors, vec![Finding::Orphan { inode: 9 }]);
}

#[test]
fn the_store_backend_reports_an_unreadable_store_as_empty() {
    let backend = QrfsBackend::new(BlockStore::new(vec![vec![0u8; 10]]));
    assert_eq!(
        backend.load_superblock(),
        Superblock { magic: 0, num_inodes: 0, num_blocks: 0, root_inode: 0, data_start: 0 }
    );
    assert_eq!(backend.load_all_inodes(), vec![]);
    assert_eq!(backend.load_block_bitmap(), vec![]);
    assert_eq!(backend.read_dir(0), vec![]);
    assert_eq!(backend.read_inode(0), None);
    let report = run_fsck(&backend);
    assert_eq!(
        report.errors,
        vec![
            Finding::BadMagic,
            Finding::RootOutOfRange { root: 0 },
            Finding::ZeroBlocks,
            Finding::ZeroInodes,
        ]
    );
    assert!(!report.blocks_ok);
    assert!(!report.inodes_ok);
}

#[test]
fn the_checker_finds_nothing_on_a_fresh_filesystem() {
    let report = run_fsck(&formatted_backend());
    assert_eq!(report.errors, vec![]);
    assert!(report.blocks_ok);
    assert!(report.inodes_ok);
}

#[test]
fn the_checker_finds_nothing_on_a_filesystem_in_use() {
    let mut store = BlockStore::new(vec![vec![0u8; 1024]; 30]);
    qrfs::mkfs::format(&mut store, 1).unwrap();
    let mut inner = qrfs::mount::mount(store, 2).unwrap();
    qrfs::files::create(&mut inner, 1, "a", 3).unwrap();
    qrfs::dir::create_directory(&mut inner, 1, "d", 0, 4).unwrap();
    qrfs::files::create(&mut inner, 3, "b", 5).unwrap();
    qrfs::files::write(&mut inner, 4, 0, &[7u8; 1500], 6).unwrap();
    qrfs::dir::remove_directory(&mut inner, 1, "nothing", 7).unwrap_err();
    let report = run_fsck(&QrfsBackend::new(inner.store));
    assert_eq!(report.errors, vec![]);
    assert!(report.blocks_ok && report.inodes_ok);
}

#[test]
fn a_wrong_magic_number_on_the_store_is_reported() {
    let mut backend = formatted_backend();
    let mut sb = backend.load_superblock_disk().unwrap();
    sb.magic = 0x1234;
    qrfs::meta::write_superblock(&mut backend.store, &sb).unwrap();
    assert_eq!(backend.load_superblock().magic, 0);
    let report = run_fsck(&backend);
    assert_eq!(report.errors, vec![Finding::BadMagic]);
    assert!(report.blocks_ok && report.inodes_ok);
    sb.magic = 0;
    qrfs::meta::write_superblock(&mut backend.store, &sb).unwrap();
    assert_eq!(run_fsck(&backend).errors, vec![Finding::BadMagic]);
}

#[test]
fn a_pointer_of_zero_names_no_block() {
    let mut backend = sound();
    backend.superblock.num_blocks = 10;
    backend.bitmap = vec![false, false, false, false, false, false, false, true, true, false];
    backend.inodes = vec![inode(true, vec![0, 7]), inode(false, vec![0, 8, 0])];
    backend.inodes[1].indirect1 = Some(0);
    let mut report = FsckReport::new();
    check_inodes_basic(&backend, &mut report);
    check_blocks_global(&backend, &backend.superblock.clone(), &mut report);
    check_bitmap_global(&backend, &backend.superblock.clone(), &mut report);
    assert_eq!(report.errors, vec![]);
    assert!(report.blocks_ok && report.inodes_ok);
    backend.bitmap[0] = true;
    check_bitmap_global(&backend, &backend.superblock.clone(), &mut report);
    assert_eq!(report.errors, vec![Finding::UsedButUnclaimed { block: 0 }]);
}

#[test]
fn an_indirect_pointer_that_repeats_a_direct_one_is_reported() {
    let mut backend = sound();
    backend.superblock.num_blocks = 10;
    backend.superblock.num_inodes = 1;
    backend.inodes = vec![inode(true, vec![5])];
    backend.inodes[0].indirect1 = Some(5);
    let mut report = FsckReport::new();
    check_inodes_basic(&backend, &mut report);
    assert_eq!(report.errors, vec![Finding::DuplicateInInode { inode: 0, block: 5 }]);
    assert!(!report.inodes_ok);
    assert!(report.blocks_ok);
    backend.inodes[0].indirect2 = Some(5);
    let mut second = FsckReport::new();
    check_inodes_basic(&backend, &mut second);
    assert_eq!(
        second.errors,
        vec![
            Finding::DuplicateInInode { inode: 0, block: 5 },
            Finding::DuplicateInInode { inode: 0, block: 5 },
        ]
    );
}

#[test]
fn the_blocks_before_the_data_region_count_as_used() {
    let mut backend = sound();
    backend.superblock.num_blocks = 10;
    backend.superblock.data_start = 3;
    backend.inodes = vec![inode(true, vec![4]), inode(false, vec![0])];
    backend.bitmap = vec![true, true, true, false, true, false, false, false, false, false];
    let sb = backend.superblock;
    let mut report = FsckReport::new();
    check_bitmap_global(&backend, &sb, &mut report);
    assert_eq!(report.errors, vec![]);
    assert!(report.blocks_ok);
    backend.bitmap[1] = false;
    backend.bitmap[5] = true;
    check_bitmap_global(&backend, &sb, &mut report);
    assert_eq!(
        report.errors,
        vec![Finding::FreeButClaimed { block: 1 }, Finding::UsedButUnclaimed { block: 5 }]
    );
    assert!(!report.blocks_ok);
    assert!(report.inodes_ok);
}

#[test]
fn a_free_slot_is_no_orphan() {
    let mut backend = sound();
    backend.superblock.num_inodes = 4;
    backend.inodes.push(free_slot(vec![]));
    backend.inodes.push(inode(false, vec![]));
    backend.dirs = vec![vec![dirent(1, "file", false)], vec![], vec![], vec![]];
    let mut report = FsckReport::new();
    check_orphan_inodes(&backend, &mut report);
    assert_eq!(report.errors, vec![Finding::Orphan { inode: 3 }]);
    assert!(!report.inodes_ok);
}
