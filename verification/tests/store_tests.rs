use qrfs::disk::InodeDisk;
use qrfs::layout::build_layout;
use qrfs::meta::{
    load_bitmap, load_inode_disk, read_superblock, write_bitmap, write_inode_disk,
    write_superblock,
};
use qrfs::mkfs::FormatError;
use qrfs::layout::LayoutError;
use qrfs::store::{BlockStore, FsError};

fn blank_store(n: usize) -> BlockStore {
    BlockStore::new(vec![vec![0xEEu8; 1024]; n])
}

#[test]
fn a_block_reads_as_its_first_1024_bytes() {
    let mut long = vec![7u8; 1500];
    long[1023] = 9;
    let store = BlockStore::new(vec![vec![1u8; 1024], long]);
    assert_eq!(store.len(), 2);
    assert_eq!(store.read_fs_block(0), Ok(vec![1u8; 1024]));
    let mut want = vec![7u8; 1024];
    want[1023] = 9;
    assert_eq!(store.read_fs_block(1), Ok(want));
}

#[test]
fn reading_a_missing_or_short_block_fails() {
    let store = BlockStore::new(vec![vec![1u8; 1024], vec![2u8; 1023]]);
    assert_eq!(store.read_fs_block(2), Err(FsError::BlockOutOfRange { index: 2, blocks: 2 }));
    assert_eq!(store.read_fs_block(1), Err(FsError::ShortBlock { index: 1 }));
}

#[test]
fn writing_a_block_pads_and_cuts() {
    let mut store = BlockStore::new(vec![vec![1u8; 10], vec![2u8; 2000]]);
    assert_eq!(store.write_fs_block(0, &[5, 6, 7]), Ok(()));
    let mut want = vec![0u8; 1024];
    want[0] = 5;
    want[1] = 6;
    want[2] = 7;
    assert_eq!(store.blocks[0], want);
    assert_eq!(store.write_fs_block(1, &vec![3u8; 1500]), Ok(()));
    assert_eq!(store.blocks[1], vec![3u8; 1024]);
    assert_eq!(
        store.write_fs_block(2, &[1]),
        Err(FsError::BlockOutOfRange { index: 2, blocks: 2 })
    );
    assert_eq!(store.blocks.len(), 2);
}

#[test]
fn a_region_reads_as_its_blocks_in_a_row() {
    let store = BlockStore::new(vec![vec![0u8; 1024], vec![1u8; 1024], vec![2u8; 1030]]);
    let mut want = vec![1u8; 1024];
    want.extend_from_slice(&[2u8; 1024]);
    assert_eq!(store.read_region(1, 2), Ok(want));
    assert_eq!(store.read_region(3, 0), Ok(vec![]));
    assert_eq!(
        store.read_region(2, 2),
        Err(FsError::RegionOutOfRange { first: 2, end: 4, blocks: 3 })
    );
}

#[test]
fn a_region_with_a_short_block_fails_at_the_first_one() {
    let store = BlockStore::new(vec![
        vec![0u8; 1024],
        vec![1u8; 10],
        vec![2u8; 1024],
        vec![3u8; 0],
    ]);
    assert_eq!(store.read_region(0, 4), Err(FsError::ShortBlock { index: 1 }));
    assert_eq!(store.read_region(2, 2), Err(FsError::ShortBlock { index: 3 }));
}

#[test]
fn write_blocks_spreads_data_over_blocks() {
    let mut store = blank_store(4);
    let mut data = vec![1u8; 1024];
    data.extend_from_slice(&[2u8; 100]);
    assert_eq!(store.write_blocks(1, &data), Ok(()));
    assert_eq!(store.blocks[0], vec![0xEEu8; 1024]);
    assert_eq!(store.blocks[1], vec![1u8; 1024]);
    let mut second = vec![0u8; 1024];
    second[..100].copy_from_slice(&[2u8; 100]);
    assert_eq!(store.blocks[2], second);
    assert_eq!(store.blocks[3], vec![0xEEu8; 1024]);
}

#[test]
fn write_blocks_beyond_the_store_changes_nothing() {
    let mut store = blank_store(2);
    assert_eq!(
        store.write_blocks(1, &vec![1u8; 1025]),
        Err(FsError::RegionOutOfRange { first: 1, end: 3, blocks: 2 })
    );
    assert_eq!(store, blank_store(2));
    assert_eq!(store.write_blocks(2, &[]), Ok(()));
    assert_eq!(store, blank_store(2));
}

#[test]
fn superblock_goes_to_block_zero_and_comes_back() {
    let mut store = blank_store(3);
    let l = build_layout(10).unwrap();
    let (sb, _, _) = qrfs::layout::init_fresh_fs(&l, 5);
    assert_eq!(write_superblock(&mut store, &sb), Ok(()));
    assert_eq!(&store.blocks[0][0..4], &[0x53, 0x46, 0x52, 0x51]);
    assert_eq!(&store.blocks[0][116..1024], &[0u8; 908][..]);
    assert_eq!(read_superblock(&store), Ok(sb));
}

#[test]
fn superblock_of_an_empty_or_short_store_fails() {
    let mut empty = BlockStore::new(vec![]);
    let l = build_layout(10).unwrap();
    let (sb, _, _) = qrfs::layout::init_fresh_fs(&l, 5);
    assert_eq!(write_superblock(&mut empty, &sb), Err(FsError::NoBlocks));
    assert_eq!(read_superblock(&empty), Err(FsError::NoBlocks));
    let short = BlockStore::new(vec![vec![0u8; 200]]);
    assert_eq!(read_superblock(&short), Err(FsError::ShortBlock { index: 0 }));
}

#[test]
fn format_ten_blocks() {
    let mut store = blank_store(10);
    let sb = qrfs::mkfs::format(&mut store, 777).unwrap();
    assert_eq!(sb.total_blocks, 10);
    assert!(sb.max_inodes >= 1);
    assert_eq!(sb.max_inodes, 9);
    assert_eq!(sb.data_blocks_start, 3);
    assert_eq!(sb.free_blocks, 7);
    assert_eq!(sb.free_inodes, 8);
    assert_eq!(read_superblock(&store), Ok(sb));
    let root = load_inode_disk(&store, &sb, 1).unwrap();
    assert_eq!(root.id, 1);
    assert_eq!(root.file_type, 2);
    assert_eq!(root.nlink, 2);
    assert_eq!(root.perm, 0o755);
    assert_eq!(root.mtime, 777);
    for ino in 2..=9u64 {
        assert_eq!(load_inode_disk(&store, &sb, ino), Ok(InodeDisk::zeroed()));
    }
    let bitmap = load_bitmap(&store, &sb).unwrap();
    assert_eq!(bitmap, vec![0b0000_0111, 0]);
    for b in 0..sb.data_blocks_start {
        assert!(qrfs::bitmap::bit_is_set(&bitmap, b));
    }
    for b in sb.data_blocks_start..sb.total_blocks {
        assert!(!qrfs::bitmap::bit_is_set(&bitmap, b));
        assert_eq!(store.blocks[b as usize], vec![0u8; 1024]);
    }
    assert_eq!(&store.blocks[2][2..], &[0u8; 1022][..]);
}

#[test]
fn format_fails_before_it_writes() {
    let mut empty = BlockStore::new(vec![]);
    assert_eq!(qrfs::mkfs::format(&mut empty, 0), Err(FormatError::NoBlocks));
    let mut two = blank_store(2);
    assert_eq!(
        qrfs::mkfs::format(&mut two, 0),
        Err(FormatError::Layout(LayoutError::TooFewBlocks { total_blocks: 2 }))
    );
    assert_eq!(two, blank_store(2));
    let mut three = blank_store(3);
    assert_eq!(
        qrfs::mkfs::format(&mut three, 0),
        Err(FormatError::Layout(LayoutError::NoDataBlocks {
            total_blocks: 3,
            data_blocks_start: 3
        }))
    );
    assert_eq!(three, blank_store(3));
}

#[test]
fn format_accepts_blocks_of_any_size() {
    let mut store = BlockStore::new(vec![vec![], vec![1u8; 3], vec![2u8; 5000], vec![]]);
    let sb = qrfs::mkfs::format(&mut store, 1).unwrap();
    assert_eq!(sb.total_blocks, 4);
    for block in &store.blocks {
        assert_eq!(block.len(), 1024);
    }
}

#[test]
fn inode_records_lie_across_block_borders() {
    let mut store = blank_store(40);
    let sb = qrfs::mkfs::format(&mut store, 1).unwrap();
    assert_eq!(sb.inode_table_blocks, 4);
    assert_eq!(sb.max_inodes, 36);
    let mut inode = InodeDisk::zeroed();
    inode.id = 10;
    inode.file_type = 1;
    inode.nlink = 1;
    inode.size = 0xFFFF_FFFF_FFFF_FFFF;
    inode.direct_blocks = [9, 10, 11, 12, 13, 14, 15, 16, 17, 18, 19, 20];
    assert_eq!(write_inode_disk(&mut store, &sb, 10, &inode), Ok(()));
    assert_eq!(load_inode_disk(&store, &sb, 10), Ok(inode));
    assert_eq!(load_inode_disk(&store, &sb, 9), Ok(InodeDisk::zeroed()));
    assert_eq!(load_inode_disk(&store, &sb, 11), Ok(InodeDisk::zeroed()));
    assert_eq!(load_inode_disk(&store, &sb, 1).unwrap().id, 1);
    assert_eq!(&store.blocks[1][1008..1012], &[10, 0, 0, 0]);
    assert_eq!(&store.blocks[2][0..4], &[0xFF, 0xFF, 0xFF, 0xFF]);
}

#[test]
fn inode_ids_out_of_range_are_refused() {
    let mut store = blank_store(10);
    let sb = qrfs::mkfs::format(&mut store, 1).unwrap();
    assert_eq!(
        load_inode_disk(&store, &sb, 0),
        Err(FsError::InodeOutOfRange { ino: 0, max_inodes: 9 })
    );
    assert_eq!(
        load_inode_disk(&store, &sb, 10),
        Err(FsError::InodeOutOfRange { ino: 10, max_inodes: 9 })
    );
    let before = BlockStore::new(store.blocks.clone());
    assert_eq!(
        write_inode_disk(&mut store, &sb, 10, &InodeDisk::zeroed()),
        Err(FsError::InodeOutOfRange { ino: 10, max_inodes: 9 })
    );
    assert_eq!(store, before);
}

#[test]
fn an_inode_beyond_the_table_is_refused() {
    let mut store = blank_store(10);
    let mut sb = qrfs::mkfs::format(&mut store, 1).unwrap();
    sb.max_inodes = 10;
    assert_eq!(load_inode_disk(&store, &sb, 9).unwrap(), InodeDisk::zeroed());
    assert_eq!(load_inode_disk(&store, &sb, 10), Err(FsError::InodeOutsideTable { ino: 10 }));
}

#[test]
fn an_inode_table_beyond_the_store_is_refused() {
    let mut store = blank_store(10);
    let mut sb = qrfs::mkfs::format(&mut store, 1).unwrap();
    sb.inode_table_start = 9;
    sb.inode_table_blocks = 2;
    assert_eq!(
        load_inode_disk(&store, &sb, 1),
        Err(FsError::RegionOutOfRange { first: 9, end: 11, blocks: 10 })
    );
    let mut broken = BlockStore::new(store.blocks.clone());
    broken.blocks[1] = vec![0u8; 5];
    sb.inode_table_start = 1;
    sb.inode_table_blocks = 1;
    assert_eq!(load_inode_disk(&broken, &sb, 1), Err(FsError::ShortBlock { index: 1 }));
}

#[test]
fn bitmap_is_cut_to_one_bit_per_block() {
    let mut store = blank_store(10);
    let sb = qrfs::mkfs::format(&mut store, 1).unwrap();
    assert_eq!(write_bitmap(&mut store, &sb, &[0xFF, 0x01, 0x55]), Ok(()));
    assert_eq!(load_bitmap(&store, &sb), Ok(vec![0xFF, 0x01]));
    assert_eq!(&store.blocks[2][0..4], &[0xFF, 0x01, 0x55, 0]);
}

#[test]
fn mkfs_regions_that_are_too_small_are_refused() {
    let mut store = blank_store(10);
    let l = build_layout(10).unwrap();
    let before = BlockStore::new(store.blocks.clone());
    assert_eq!(
        qrfs::mkfs::write_bitmap(&mut store, &l, &vec![0u8; 1025]),
        Err(FsError::RegionTooSmall { bytes: 1025, capacity: 1024 })
    );
    let inodes = vec![InodeDisk::zeroed(); 10];
    assert_eq!(
        qrfs::mkfs::write_inode_table(&mut store, &l, &inodes),
        Err(FsError::RegionTooSmall { bytes: 1120, capacity: 1024 })
    );
    assert_eq!(store, before);
}

#[test]
fn a_store_without_room_for_data_is_not_formatted() {
    let mut store = BlockStore::new(vec![vec![9u8; 1024]; 3]);
    let before = store.blocks.clone();
    assert_eq!(
        qrfs::mkfs::format(&mut store, 1),
        Err(qrfs::mkfs::FormatError::Layout(qrfs::layout::LayoutError::NoDataBlocks {
            total_blocks: 3,
            data_blocks_start: 3,
        }))
    );
    assert_eq!(store.blocks, before);
    let mut four = BlockStore::new(vec![vec![9u8; 1024]; 4]);
    assert_eq!(qrfs::mkfs::format(&mut four, 1).unwrap().total_blocks, 4);
}

#[test]
fn changed_blocks_are_written_bitmap_first() {
    let mut store = BlockStore::new(vec![vec![0u8; 1024]; 10]);
    let sb = qrfs::mkfs::format(&mut store, 1).unwrap();
    assert_eq!(qrfs::meta::write_order(&sb, 10), vec![2, 0, 3, 4, 5, 6, 7, 8, 9, 1]);
    assert_eq!(qrfs::meta::write_order(&sb, 5), vec![2, 0, 3, 4, 1]);
    assert_eq!(qrfs::meta::write_order(&sb, 2), vec![0, 1]);
    assert_eq!(qrfs::meta::write_order(&sb, 0), Vec::<u64>::new());
    let mut wide = sb;
    wide.inode_table_blocks = u32::MAX;
    wide.free_bitmap_start = u32::MAX;
    wide.free_bitmap_blocks = u32::MAX;
    assert_eq!(qrfs::meta::write_order(&wide, 4), vec![0, 3, 1, 2, 3]);
}
