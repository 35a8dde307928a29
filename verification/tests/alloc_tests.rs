use qrfs::allocator::{alloc_block, find_free, free_block};
use qrfs::meta::{load_bitmap, read_superblock, write_bitmap};
use qrfs::store::{BlockStore, FsError};

fn formatted(n: usize) -> (BlockStore, qrfs::disk::SuperblockDisk) {
    let mut store = BlockStore::new(vec![vec![0u8; 1024]; n]);
    let sb = qrfs::mkfs::format(&mut store, 1).unwrap();
    (store, sb)
}

#[test]
fn find_free_is_first_fit() {
    let bitmap = vec![0b0001_0111u8, 0xFF];
    assert_eq!(find_free(&bitmap, 0, 16), Some(3));
    assert_eq!(find_free(&bitmap, 4, 16), Some(5));
    assert_eq!(find_free(&bitmap, 8, 16), None);
    assert_eq!(find_free(&bitmap, 8, 100), None);
    assert_eq!(find_free(&bitmap, 5, 5), None);
    assert_eq!(find_free(&bitmap, 9, 3), None);
}

#[test]
fn allocation_takes_the_first_free_data_block() {
    let (mut store, mut sb) = formatted(10);
    assert_eq!(alloc_block(&mut store, &mut sb), Ok(3));
    assert_eq!(sb.free_blocks, 6);
    assert_eq!(load_bitmap(&store, &sb), Ok(vec![0b0000_1111, 0]));
    assert_eq!(read_superblock(&store), Ok(sb));
    assert_eq!(alloc_block(&mut store, &mut sb), Ok(4));
    assert_eq!(sb.free_blocks, 5);
    assert_eq!(load_bitmap(&store, &sb), Ok(vec![0b0001_1111, 0]));
}

#[test]
fn allocation_fills_the_data_region_and_then_fails() {
    let (mut store, mut sb) = formatted(10);
    for want in 3..10u32 {
        assert_eq!(alloc_block(&mut store, &mut sb), Ok(want));
    }
    assert_eq!(sb.free_blocks, 0);
    assert_eq!(load_bitmap(&store, &sb), Ok(vec![0xFF, 0b0000_0011]));
    let before = BlockStore::new(store.blocks.clone());
    let sb_before = sb;
    assert_eq!(alloc_block(&mut store, &mut sb), Err(FsError::NoSpace));
    assert_eq!(store, before);
    assert_eq!(sb, sb_before);
}

#[test]
fn allocation_does_not_count_below_zero() {
    let (mut store, mut sb) = formatted(10);
    sb.free_blocks = 0;
    assert_eq!(alloc_block(&mut store, &mut sb), Ok(3));
    assert_eq!(sb.free_blocks, 0);
}

#[test]
fn allocation_skips_blocks_that_are_taken() {
    let (mut store, mut sb) = formatted(10);
    assert_eq!(write_bitmap(&mut store, &sb, &[0b0101_1111, 0]), Ok(()));
    assert_eq!(alloc_block(&mut store, &mut sb), Ok(5));
    assert_eq!(alloc_block(&mut store, &mut sb), Ok(7));
    assert_eq!(alloc_block(&mut store, &mut sb), Ok(8));
}

#[test]
fn allocation_fails_when_the_bitmap_cannot_be_read() {
    let (mut store, mut sb) = formatted(10);
    store.blocks[2] = vec![0u8; 100];
    assert_eq!(alloc_block(&mut store, &mut sb), Err(FsError::ShortBlock { index: 2 }));
    sb.free_bitmap_start = 10;
    assert_eq!(
        alloc_block(&mut store, &mut sb),
        Err(FsError::RegionOutOfRange { first: 10, end: 11, blocks: 10 })
    );
}

#[test]
fn freeing_gives_the_block_back() {
    let (mut store, mut sb) = formatted(10);
    assert_eq!(alloc_block(&mut store, &mut sb), Ok(3));
    assert_eq!(alloc_block(&mut store, &mut sb), Ok(4));
    assert_eq!(free_block(&mut store, &mut sb, 3), Ok(true));
    assert_eq!(sb.free_blocks, 6);
    assert_eq!(load_bitmap(&store, &sb), Ok(vec![0b0001_0111, 0]));
    assert_eq!(read_superblock(&store), Ok(sb));
    assert_eq!(alloc_block(&mut store, &mut sb), Ok(3));
}

#[test]
fn freeing_a_free_block_changes_nothing() {
    let (mut store, mut sb) = formatted(10);
    let before = BlockStore::new(store.blocks.clone());
    assert_eq!(free_block(&mut store, &mut sb, 5), Ok(false));
    assert_eq!(sb.free_blocks, 7);
    assert_eq!(store, before);
}

#[test]
fn freeing_outside_the_data_region_is_refused() {
    let (mut store, mut sb) = formatted(10);
    assert_eq!(
        free_block(&mut store, &mut sb, 2),
        Err(FsError::BlockOutOfRange { index: 2, blocks: 10 })
    );
    assert_eq!(
        free_block(&mut store, &mut sb, 10),
        Err(FsError::BlockOutOfRange { index: 10, blocks: 10 })
    );
    assert_eq!(load_bitmap(&store, &sb), Ok(vec![0b0000_0111, 0]));
}

#[test]
fn freeing_an_inode_gives_its_blocks_back() {
    let (mut store, mut sb) = formatted(10);
    let mut inode = qrfs::disk::InodeDisk::zeroed();
    inode.id = 2;
    inode.file_type = 1;
    inode.nlink = 1;
    qrfs::meta::write_inode_disk(&mut store, &sb, 2, &inode).unwrap();
    sb.free_inodes = 7;
    let data = vec![9u8; 2500];
    qrfs::write::write_file_data(&mut store, &mut sb, 2, &mut inode, 0, &data, 5).unwrap();
    assert_eq!(sb.free_blocks, 4);
    assert_eq!(load_bitmap(&store, &sb), Ok(vec![0b0011_1111, 0]));
    assert_eq!(qrfs::allocator::free_inode(&mut store, &mut sb, 2), Ok(()));
    assert_eq!(sb.free_blocks, 7);
    assert_eq!(sb.free_inodes, 8);
    assert_eq!(load_bitmap(&store, &sb), Ok(vec![0b0000_0111, 0]));
    assert_eq!(qrfs::meta::load_inode_disk(&store, &sb, 2), Ok(qrfs::disk::InodeDisk::zeroed()));
    assert_eq!(read_superblock(&store), Ok(sb));
    assert_eq!(alloc_block(&mut store, &mut sb), Ok(3));
}

#[test]
fn freeing_an_inode_skips_pointers_outside_the_data_region() {
    let (mut store, mut sb) = formatted(10);
    let mut inode = qrfs::disk::InodeDisk::zeroed();
    inode.id = 2;
    inode.direct_blocks = [1, 5, 5, 10, 0, 0, 0, 0, 0, 0, 0, 9];
    qrfs::meta::write_inode_disk(&mut store, &sb, 2, &inode).unwrap();
    write_bitmap(&mut store, &sb, &[0b0010_0111, 0]).unwrap();
    sb.free_blocks = 6;
    assert_eq!(qrfs::allocator::free_inode(&mut store, &mut sb, 2), Ok(()));
    assert_eq!(load_bitmap(&store, &sb), Ok(vec![0b0000_0111, 0]));
    assert_eq!(sb.free_blocks, 7);
}

#[test]
fn freeing_an_inode_that_cannot_be_reached_changes_nothing() {
    let (mut store, mut sb) = formatted(10);
    let before = BlockStore::new(store.blocks.clone());
    assert_eq!(
        qrfs::allocator::free_inode(&mut store, &mut sb, 0),
        Err(FsError::InodeOutOfRange { ino: 0, max_inodes: 9 })
    );
    store.blocks[2] = vec![];
    assert_eq!(
        qrfs::allocator::free_inode(&mut store, &mut sb, 1),
        Err(FsError::ShortBlock { index: 2 })
    );
    store.blocks[2] = before.blocks[2].clone();
    assert_eq!(store, before);
}
