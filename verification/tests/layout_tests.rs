use qrfs::bitmap::bit_is_set;
use qrfs::layout::{build_layout, init_fresh_fs, FsLayout, LayoutError};

#[test]
fn layout_of_ten_blocks() {
    let l = build_layout(10).unwrap();
    assert_eq!(
        l,
        FsLayout {
            total_blocks: 10,
            inode_table_start: 1,
            inode_table_blocks: 1,
            free_bitmap_start: 2,
            free_bitmap_blocks: 1,
            data_blocks_start: 3,
            max_inodes: 9,
        }
    );
}

#[test]
fn layout_of_a_hundred_blocks() {
    let l = build_layout(100).unwrap();
    assert_eq!(l.inode_table_blocks, 10);
    assert_eq!(l.max_inodes, 90);
    assert_eq!(l.free_bitmap_start, 11);
    assert_eq!(l.free_bitmap_blocks, 1);
    assert_eq!(l.data_blocks_start, 12);
}

#[test]
fn layout_needs_a_second_bitmap_block_beyond_8192_blocks() {
    assert_eq!(build_layout(8192).unwrap().free_bitmap_blocks, 1);
    let l = build_layout(8193).unwrap();
    assert_eq!(l.inode_table_blocks, 819);
    assert_eq!(l.free_bitmap_blocks, 2);
    assert_eq!(l.data_blocks_start, 1 + 819 + 2);
    assert_eq!(l.max_inodes, 9 * 819);
}

#[test]
fn layout_of_the_largest_block_count() {
    let l = build_layout(u32::MAX).unwrap();
    assert_eq!(l.inode_table_blocks, 429_496_729);
    assert_eq!(l.max_inodes, 3_865_470_561);
    assert_eq!(l.free_bitmap_blocks, 524_288);
    assert_eq!(l.data_blocks_start, 1 + 429_496_729 + 524_288);
}

#[test]
fn layout_needs_three_blocks() {
    assert_eq!(build_layout(0), Err(LayoutError::TooFewBlocks { total_blocks: 0 }));
    assert_eq!(build_layout(2), Err(LayoutError::TooFewBlocks { total_blocks: 2 }));
}

#[test]
fn layout_of_three_blocks_leaves_no_data_block() {
    assert_eq!(
        build_layout(3),
        Err(LayoutError::NoDataBlocks { total_blocks: 3, data_blocks_start: 3 })
    );
}

#[test]
fn layout_of_four_blocks_is_the_smallest() {
    let l = build_layout(4).unwrap();
    assert_eq!(l.data_blocks_start, 3);
    assert_eq!(l.max_inodes, 9);
}

#[test]
fn regions_follow_each_other() {
    for t in [4u32, 5, 9, 10, 11, 19, 20, 99, 1000, 8192, 8193, 65_536, 1_000_000, u32::MAX] {
        let l = build_layout(t).unwrap();
        assert!(l.is_valid());
        assert!(l.inode_table_start + l.inode_table_blocks <= l.free_bitmap_start);
        assert!(l.free_bitmap_start + l.free_bitmap_blocks <= l.data_blocks_start);
        assert!(l.free_bitmap_start <= l.data_blocks_start);
        assert!(l.data_blocks_start <= l.total_blocks);
        assert!(l.max_inodes >= 1);
    }
}

#[test]
fn a_layout_that_was_not_planned_is_not_valid() {
    let mut l = build_layout(10).unwrap();
    l.data_blocks_start = 4;
    assert!(!l.is_valid());
    let mut l = build_layout(10).unwrap();
    l.total_blocks = 2;
    assert!(!l.is_valid());
}

#[test]
fn fresh_filesystem_of_ten_blocks() {
    let l = build_layout(10).unwrap();
    let (sb, inodes, bitmap) = init_fresh_fs(&l, 1234);
    assert_eq!(sb.magic, 0x5152_4653);
    assert_eq!(sb.version, 1);
    assert_eq!(sb.block_size, 1024);
    assert_eq!(sb.total_blocks, 10);
    assert_eq!(sb.data_blocks_start, 3);
    assert_eq!(sb.max_inodes, 9);
    assert_eq!(sb.root_inode, 1);
    assert_eq!(sb.free_blocks, 7);
    assert_eq!(sb.free_inodes, 8);
    assert_eq!(sb.reserved, [0u8; 64]);
    assert_eq!(inodes.len(), 9);
    assert_eq!(inodes[0].id, 1);
    assert_eq!(inodes[0].file_type, 2);
    assert_eq!(inodes[0].perm, 0o755);
    assert_eq!(inodes[0].nlink, 2);
    assert_eq!(inodes[0].size, 0);
    assert_eq!(inodes[0].atime, 1234);
    assert_eq!(inodes[0].mtime, 1234);
    assert_eq!(inodes[0].ctime, 1234);
    assert_eq!(inodes[0].direct_blocks, [0u32; 12]);
    for inode in &inodes[1..] {
        assert_eq!(*inode, qrfs::disk::InodeDisk::zeroed());
    }
    assert_eq!(bitmap, vec![0b0000_0111, 0]);
    for b in 0..16u32 {
        assert_eq!(bit_is_set(&bitmap, b), b < 3);
    }
}
