use qrfs::disk::{InodeDisk, SuperblockDisk};
use qrfs::mapper::read_file_data;
use qrfs::meta::{load_bitmap, load_inode_disk, read_superblock, write_bitmap, write_inode_disk};
use qrfs::store::{BlockStore, FsError};
use qrfs::write::{plan_write, write_file_data};

fn store_with_empty_file(n: usize) -> (BlockStore, SuperblockDisk, InodeDisk) {
    let mut store = BlockStore::new(vec![vec![0x11u8; 1024]; n]);
    let sb = qrfs::mkfs::format(&mut store, 1).unwrap();
    let mut inode = InodeDisk::zeroed();
    inode.id = 2;
    inode.file_type = 1;
    inode.perm = 0o644;
    inode.nlink = 1;
    inode.atime = 5;
    inode.mtime = 5;
    inode.ctime = 5;
    write_inode_disk(&mut store, &sb, 2, &inode).unwrap();
    (store, sb, inode)
}

fn pattern(n: usize) -> Vec<u8> {
    (0..n).map(|i| (i % 253 + 1) as u8).collect()
}

#[test]
fn writing_2000_bytes_takes_two_blocks() {
    let (mut store, mut sb, mut inode) = store_with_empty_file(10);
    let data = pattern(2000);
    assert_eq!(write_file_data(&mut store, &mut sb, 2, &mut inode, 0, &data, 99), Ok(2000));
    assert_eq!(sb.free_blocks, 5);
    assert_eq!(read_superblock(&store), Ok(sb));
    assert_eq!(inode.direct_blocks, [3, 4, 0, 0, 0, 0, 0, 0, 0, 0, 0, 0]);
    assert_eq!(inode.size, 2000);
    assert_eq!(inode.mtime, 99);
    assert_eq!(inode.ctime, 99);
    assert_eq!(inode.atime, 5);
    assert_eq!(load_inode_disk(&store, &sb, 2), Ok(inode));
    assert_eq!(load_bitmap(&store, &sb), Ok(vec![0b0001_1111, 0]));
    assert_eq!(&store.blocks[3][..], &data[..1024]);
    assert_eq!(&store.blocks[4][..976], &data[1024..]);
    assert_eq!(&store.blocks[4][976..], &[0u8; 48][..]);
    assert_eq!(read_file_data(&store, &sb, &inode, 0, 4096), Ok(data));
    assert_eq!(store.blocks[5], vec![0u8; 1024]);
}

#[test]
fn the_tail_of_the_last_block_reads_as_zeros_when_the_file_grows() {
    let (mut store, mut sb, mut inode) = store_with_empty_file(10);
    let data = pattern(2000);
    write_file_data(&mut store, &mut sb, 2, &mut inode, 0, &data, 99).unwrap();
    assert_eq!(write_file_data(&mut store, &mut sb, 2, &mut inode, 2047, &[7], 100), Ok(1));
    assert_eq!(inode.size, 2048);
    assert_eq!(sb.free_blocks, 5);
    let back = read_file_data(&store, &sb, &inode, 0, 4096).unwrap();
    assert_eq!(back.len(), 2048);
    assert_eq!(&back[..2000], &data[..]);
    assert_eq!(&back[2000..2047], &[0u8; 47][..]);
    assert_eq!(back[2047], 7);
}

#[test]
fn writing_into_a_block_keeps_the_bytes_around() {
    let (mut store, mut sb, mut inode) = store_with_empty_file(10);
    let data = pattern(1500);
    write_file_data(&mut store, &mut sb, 2, &mut inode, 0, &data, 1).unwrap();
    assert_eq!(
        write_file_data(&mut store, &mut sb, 2, &mut inode, 1000, &[0xF0; 100], 2),
        Ok(100)
    );
    assert_eq!(inode.size, 1500);
    assert_eq!(sb.free_blocks, 5);
    let back = read_file_data(&store, &sb, &inode, 0, 5000).unwrap();
    assert_eq!(&back[..1000], &data[..1000]);
    assert_eq!(&back[1000..1100], &[0xF0u8; 100][..]);
    assert_eq!(&back[1100..], &data[1100..]);
}

#[test]
fn writing_behind_a_hole_leaves_the_hole() {
    let (mut store, mut sb, mut inode) = store_with_empty_file(10);
    assert_eq!(
        write_file_data(&mut store, &mut sb, 2, &mut inode, 3 * 1024 + 10, &[1, 2, 3], 9),
        Ok(3)
    );
    assert_eq!(inode.direct_blocks, [0, 0, 0, 3, 0, 0, 0, 0, 0, 0, 0, 0]);
    assert_eq!(inode.size, 3085);
    assert_eq!(sb.free_blocks, 6);
    let back = read_file_data(&store, &sb, &inode, 0, 10_000).unwrap();
    assert_eq!(back.len(), 3085);
    assert_eq!(&back[..3082], &vec![0u8; 3082][..]);
    assert_eq!(&back[3082..], &[1, 2, 3]);
    assert_eq!(&store.blocks[3][..10], &[0u8; 10]);
}

#[test]
fn a_fresh_block_is_zeroed_whatever_it_held() {
    let (mut store, mut sb, mut inode) = store_with_empty_file(10);
    store.blocks[3] = vec![0xEEu8; 1024];
    write_file_data(&mut store, &mut sb, 2, &mut inode, 4, &[9, 9], 1).unwrap();
    let mut want = vec![0u8; 1024];
    want[4] = 9;
    want[5] = 9;
    assert_eq!(store.blocks[3], want);
}

#[test]
fn an_empty_write_refreshes_the_times_only() {
    let (mut store, mut sb, mut inode) = store_with_empty_file(10);
    assert_eq!(write_file_data(&mut store, &mut sb, 2, &mut inode, 100, &[], 42), Ok(0));
    assert_eq!(inode.size, 100);
    assert_eq!(inode.mtime, 42);
    assert_eq!(inode.direct_blocks, [0u32; 12]);
    assert_eq!(sb.free_blocks, 7);
    assert_eq!(load_inode_disk(&store, &sb, 2), Ok(inode));
}

#[test]
fn bytes_beyond_the_direct_pointers_are_not_stored() {
    let (mut store, mut sb, mut inode) = store_with_empty_file(30);
    let data = pattern(2000);
    assert_eq!(
        write_file_data(&mut store, &mut sb, 2, &mut inode, 11 * 1024 + 24, &data, 1),
        Ok(1000)
    );
    assert_eq!(inode.size, 11 * 1024 + 24 + 2000);
    assert_eq!(inode.direct_blocks[11], 5);
    let back = read_file_data(&store, &sb, &inode, 11 * 1024 + 24, 5000).unwrap();
    assert_eq!(back, data[..1000].to_vec());
    assert_eq!(write_file_data(&mut store, &mut sb, 2, &mut inode, 12 * 1024, &data, 1), Ok(0));
    assert_eq!(inode.size, 12 * 1024 + 2000);
}

#[test]
fn a_write_without_space_changes_nothing() {
    let (mut store, mut sb, mut inode) = store_with_empty_file(10);
    write_bitmap(&mut store, &sb, &[0xFF, 0b0000_0001]).unwrap();
    let before = BlockStore::new(store.blocks.clone());
    let (sb0, inode0) = (sb, inode);
    let data = pattern(1025);
    assert_eq!(
        write_file_data(&mut store, &mut sb, 2, &mut inode, 0, &data, 9),
        Err(FsError::NoSpace)
    );
    assert_eq!(store, before);
    assert_eq!(sb, sb0);
    assert_eq!(inode, inode0);
    assert_eq!(write_file_data(&mut store, &mut sb, 2, &mut inode, 0, &data[..1024], 9), Ok(1024));
    assert_eq!(inode.direct_blocks[0], 9);
}

#[test]
fn a_write_through_a_bad_pointer_changes_nothing() {
    let (mut store, mut sb, mut inode) = store_with_empty_file(10);
    inode.direct_blocks[1] = 1;
    let before = BlockStore::new(store.blocks.clone());
    assert_eq!(
        write_file_data(&mut store, &mut sb, 2, &mut inode, 0, &pattern(2000), 9),
        Err(FsError::BlockOutOfRange { index: 1, blocks: 10 })
    );
    assert_eq!(store, before);
    assert_eq!(sb.free_blocks, 7);
    assert_eq!(inode.direct_blocks[0], 0);
}

#[test]
fn a_write_to_an_inode_that_cannot_be_reached_is_refused() {
    let (mut store, mut sb, mut inode) = store_with_empty_file(10);
    assert_eq!(
        write_file_data(&mut store, &mut sb, 10, &mut inode, 0, &[1], 9),
        Err(FsError::InodeOutOfRange { ino: 10, max_inodes: 9 })
    );
    assert_eq!(
        write_file_data(&mut store, &mut sb, 2, &mut inode, u64::MAX, &[1], 9),
        Err(FsError::RegionTooSmall { bytes: u64::MAX, capacity: 12288 })
    );
}

#[test]
fn a_plan_takes_blocks_first_fit_and_keeps_what_is_there() {
    let (store, sb, _) = store_with_empty_file(10);
    let direct = [0u32, 5, 0, 0, 0, 0, 0, 0, 0, 0, 0, 0];
    let bitmap = vec![0b0010_0111u8, 0];
    let plan = plan_write(&store, &sb, &direct, bitmap, 0, 3).unwrap();
    assert_eq!(plan.direct, [3, 5, 4, 0, 0, 0, 0, 0, 0, 0, 0, 0]);
    assert_eq!(plan.bitmap, vec![0b0011_1111, 0]);
    assert_eq!(plan.fresh, 2);
}
