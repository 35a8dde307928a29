use qrfs::fsck::quick::{
    check_superblock_fields, quick_check, read_bitmap, read_inode_table, read_run, Problem,
    Warning,
};
use qrfs::meta::{read_superblock, write_bitmap, write_inode_disk, write_superblock};
use qrfs::store::{BlockStore, FsError};

fn fresh_store(n: usize) -> BlockStore {
    let mut store = BlockStore::new(vec![vec![0u8; 1024]; n]);
    qrfs::mkfs::format(&mut store, 100).unwrap();
    store
}

#[test]
fn a_fresh_filesystem_passes_the_quick_check() {
    let store = fresh_store(10);
    let report = quick_check(&store).unwrap();
    assert_eq!(report.superblock, read_superblock(&store).unwrap());
    assert_eq!(report.errors, vec![]);
    assert_eq!(report.warnings, vec![]);
}

#[test]
fn a_run_is_read_over_as_many_blocks_as_it_takes() {
    let store = BlockStore::new(vec![vec![1u8; 1024], vec![2u8; 1024], vec![3u8; 1024]]);
    let mut want = vec![1u8; 1024];
    want.extend_from_slice(&[2u8; 6]);
    assert_eq!(read_run(&store, 0, 1030), Ok(want));
    assert_eq!(read_run(&store, 2, 1024), Ok(vec![3u8; 1024]));
    assert_eq!(read_run(&store, 3, 0), Ok(vec![]));
    assert_eq!(
        read_run(&store, 2, 1025),
        Err(FsError::RegionOutOfRange { first: 2, end: 4, blocks: 3 })
    );
}

#[test]
fn the_whole_inode_table_is_read() {
    let store = fresh_store(40);
    let sb = read_superblock(&store).unwrap();
    let inodes = read_inode_table(&store, &sb).unwrap();
    assert_eq!(inodes.len(), 36);
    assert_eq!(inodes[0].id, 1);
    assert_eq!(inodes[0].file_type, 2);
    for ino in 1..=36u64 {
        assert_eq!(inodes[ino as usize - 1], qrfs::meta::load_inode_disk(&store, &sb, ino).unwrap());
    }
    assert_eq!(read_bitmap(&store, &sb), Ok(vec![0b0011_1111, 0, 0, 0, 0]));
}

#[test]
fn counters_that_are_off_are_warnings() {
    let mut store = fresh_store(10);
    let mut sb = read_superblock(&store).unwrap();
    sb.free_blocks = 6;
    sb.free_inodes = 9;
    write_superblock(&mut store, &sb).unwrap();
    let report = quick_check(&store).unwrap();
    assert_eq!(report.errors, vec![]);
    assert_eq!(
        report.warnings,
        vec![
            Warning::InodeCounter { used: 1, free: 9, max_inodes: 9 },
            Warning::BlockCounter { used_bits: 3, free: 6, total_blocks: 10 },
        ]
    );
    write_bitmap(&mut store, &sb, &[0b0000_1111, 0]).unwrap();
    let report = quick_check(&store).unwrap();
    assert_eq!(report.warnings, vec![Warning::InodeCounter { used: 1, free: 9, max_inodes: 9 }]);
}

#[test]
fn a_superblock_out_of_order_gives_errors() {
    let mut store = fresh_store(10);
    let mut sb = read_superblock(&store).unwrap();
    sb.magic = 1;
    sb.version = 2;
    sb.block_size = 512;
    sb.total_blocks = 11;
    sb.data_blocks_start = 11;
    write_superblock(&mut store, &sb).unwrap();
    let report = quick_check(&store).unwrap();
    assert_eq!(
        report.errors,
        vec![
            Problem::BadMagic { found: 1 },
            Problem::BadVersion { found: 2 },
            Problem::BadBlockSize { found: 512 },
            Problem::BadTotalBlocks { total_blocks: 11, blocks: 10 },
            Problem::DataStartOutOfRange,
        ]
    );
}

#[test]
fn every_field_check_has_its_problem() {
    let mut sb = read_superblock(&fresh_store(10)).unwrap();
    assert_eq!(check_superblock_fields(&sb, 10), vec![]);
    assert_eq!(check_superblock_fields(&sb, 11), vec![]);
    sb.inode_table_start = 0;
    sb.free_bitmap_start = 10;
    sb.root_inode = 10;
    assert_eq!(
        check_superblock_fields(&sb, 10),
        vec![
            Problem::InodeTableAtZero,
            Problem::BitmapRange,
            Problem::RootOutOfRange { root: 10, max_inodes: 9 },
        ]
    );
    sb.inode_table_start = 9;
    sb.inode_table_blocks = 2;
    sb.free_bitmap_start = 2;
    sb.root_inode = 0;
    assert_eq!(
        check_superblock_fields(&sb, 10),
        vec![Problem::InodeTableRange, Problem::RootOutOfRange { root: 0, max_inodes: 9 }]
    );
    sb.total_blocks = 0;
    sb.inode_table_start = 0;
    sb.inode_table_blocks = 0;
    sb.free_bitmap_start = 0;
    sb.free_bitmap_blocks = 0;
    sb.data_blocks_start = 0;
    sb.root_inode = 1;
    assert_eq!(
        check_superblock_fields(&sb, 10),
        vec![Problem::BadTotalBlocks { total_blocks: 0, blocks: 10 }, Problem::InodeTableAtZero]
    );
}

#[test]
fn the_root_must_be_a_directory_with_a_record() {
    let mut store = fresh_store(10);
    let mut sb = read_superblock(&store).unwrap();
    let mut root = qrfs::meta::load_inode_disk(&store, &sb, 1).unwrap();
    root.file_type = 1;
    write_inode_disk(&mut store, &sb, 1, &root).unwrap();
    assert_eq!(
        quick_check(&store).unwrap().errors,
        vec![Problem::RootNotDirectory { file_type: 1 }]
    );
    sb.root_inode = 0;
    write_superblock(&mut store, &sb).unwrap();
    assert_eq!(
        quick_check(&store).unwrap().errors,
        vec![Problem::RootOutOfRange { root: 0, max_inodes: 9 }, Problem::RootMissing]
    );
}

#[test]
fn the_quick_check_fails_when_it_cannot_read() {
    assert_eq!(quick_check(&BlockStore::new(vec![])), Err(FsError::NoBlocks));
    assert_eq!(
        quick_check(&BlockStore::new(vec![vec![0u8; 3]])),
        Err(FsError::ShortBlock { index: 0 })
    );
    let mut store = fresh_store(10);
    store.blocks[1] = vec![];
    assert_eq!(quick_check(&store), Err(FsError::ShortBlock { index: 1 }));
    let mut store = fresh_store(10);
    let mut sb = read_superblock(&store).unwrap();
    sb.free_bitmap_start = 10;
    write_superblock(&mut store, &sb).unwrap();
    assert_eq!(
        quick_check(&store),
        Err(FsError::RegionOutOfRange { first: 10, end: 11, blocks: 10 })
    );
}
