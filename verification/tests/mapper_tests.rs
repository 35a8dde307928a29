use qrfs::disk::InodeDisk;
use qrfs::mapper::{map_range, map_span, read_file_data, Segment};
use qrfs::store::{BlockStore, FsError};

const DIRECT: [u32; 12] = [10, 11, 0, 13, 14, 15, 16, 17, 18, 19, 20, 21];

#[test]
fn a_range_inside_one_block_is_one_run() {
    assert_eq!(
        map_range(&DIRECT, 5000, 100, 50),
        vec![Segment { slot: 0, block: 10, start: 100, end: 150 }]
    );
    assert_eq!(
        map_range(&DIRECT, 5000, 1024, 1024),
        vec![Segment { slot: 1, block: 11, start: 0, end: 1024 }]
    );
}

#[test]
fn a_range_over_three_blocks_is_three_runs() {
    assert_eq!(
        map_range(&DIRECT, 5000, 1000, 2000),
        vec![
            Segment { slot: 0, block: 10, start: 1000, end: 1024 },
            Segment { slot: 1, block: 11, start: 0, end: 1024 },
            Segment { slot: 2, block: 0, start: 0, end: 952 },
        ]
    );
}

#[test]
fn a_range_is_cut_at_the_file_size() {
    assert_eq!(
        map_range(&DIRECT, 1500, 1000, 2000),
        vec![
            Segment { slot: 0, block: 10, start: 1000, end: 1024 },
            Segment { slot: 1, block: 11, start: 0, end: 476 },
        ]
    );
    assert_eq!(map_range(&DIRECT, 1500, 1500, 10), vec![]);
    assert_eq!(map_range(&DIRECT, 1500, 9999, 10), vec![]);
    assert_eq!(map_range(&DIRECT, 1500, 0, 0), vec![]);
    assert_eq!(map_range(&DIRECT, 0, 0, 10), vec![]);
}

#[test]
fn the_mapper_stops_after_the_twelfth_slot() {
    assert_eq!(
        map_range(&DIRECT, 1_000_000, 11 * 1024 + 1000, 5000),
        vec![Segment { slot: 11, block: 21, start: 1000, end: 1024 }]
    );
    assert_eq!(map_range(&DIRECT, 1_000_000, 12 * 1024, 5000), vec![]);
    assert_eq!(map_span(&DIRECT, 0, u64::MAX).len(), 12);
    assert_eq!(
        map_span(&DIRECT, 0, u64::MAX)[11],
        Segment { slot: 11, block: 21, start: 0, end: 1024 }
    );
    assert_eq!(map_span(&DIRECT, u64::MAX, u64::MAX), vec![]);
    assert_eq!(map_span(&DIRECT, 5, 4), vec![]);
}

#[test]
fn a_range_that_ends_on_a_block_border_does_not_touch_the_next_block() {
    assert_eq!(
        map_span(&DIRECT, 0, 2048),
        vec![
            Segment { slot: 0, block: 10, start: 0, end: 1024 },
            Segment { slot: 1, block: 11, start: 0, end: 1024 },
        ]
    );
}

fn store_with_file() -> (BlockStore, qrfs::disk::SuperblockDisk, InodeDisk) {
    let mut store = BlockStore::new(vec![vec![0u8; 1024]; 10]);
    let sb = qrfs::mkfs::format(&mut store, 1).unwrap();
    store.blocks[4] = (0..1024).map(|i| (i % 251) as u8).collect();
    store.blocks[6] = vec![0xABu8; 1024];
    let mut inode = InodeDisk::zeroed();
    inode.id = 2;
    inode.file_type = 1;
    inode.nlink = 1;
    inode.size = 3000;
    inode.direct_blocks[0] = 4;
    inode.direct_blocks[2] = 6;
    (store, sb, inode)
}

#[test]
fn reading_follows_the_pointers_and_fills_holes_with_zeros() {
    let (store, sb, inode) = store_with_file();
    let data = read_file_data(&store, &sb, &inode, 1000, 1100).unwrap();
    assert_eq!(data.len(), 1100);
    for k in 0..24 {
        assert_eq!(data[k], ((1000 + k) % 251) as u8);
    }
    assert_eq!(&data[24..1048], &[0u8; 1024][..]);
    assert_eq!(&data[1048..1100], &[0xABu8; 52][..]);
}

#[test]
fn reading_stops_at_the_file_size() {
    let (store, sb, inode) = store_with_file();
    assert_eq!(read_file_data(&store, &sb, &inode, 2990, 100), Ok(vec![0xABu8; 10]));
    assert_eq!(read_file_data(&store, &sb, &inode, 3000, 100), Ok(vec![]));
    assert_eq!(read_file_data(&store, &sb, &inode, 0, 0), Ok(vec![]));
    assert_eq!(read_file_data(&store, &sb, &inode, 0, u32::MAX).unwrap().len(), 3000);
}

#[test]
fn reading_stops_at_what_the_direct_pointers_reach() {
    let (store, sb, mut inode) = store_with_file();
    inode.size = 1_000_000;
    let data = read_file_data(&store, &sb, &inode, 12_000, 5000).unwrap();
    assert_eq!(data, vec![0u8; 288]);
    assert_eq!(read_file_data(&store, &sb, &inode, 12_288, 5000), Ok(vec![]));
}

#[test]
fn reading_through_a_bad_pointer_fails() {
    let (store, sb, mut inode) = store_with_file();
    inode.direct_blocks[1] = 2;
    assert_eq!(
        read_file_data(&store, &sb, &inode, 0, 3000),
        Err(FsError::BlockOutOfRange { index: 2, blocks: 10 })
    );
    inode.direct_blocks[1] = 10;
    assert_eq!(
        read_file_data(&store, &sb, &inode, 0, 3000),
        Err(FsError::BlockOutOfRange { index: 10, blocks: 10 })
    );
    assert_eq!(read_file_data(&store, &sb, &inode, 0, 1024).unwrap().len(), 1024);
    let (mut store, sb, inode) = store_with_file();
    store.blocks[6] = vec![1u8; 3];
    assert_eq!(
        read_file_data(&store, &sb, &inode, 0, 3000),
        Err(FsError::ShortBlock { index: 6 })
    );
    store.blocks.truncate(5);
    assert_eq!(
        read_file_data(&store, &sb, &inode, 0, 3000),
        Err(FsError::BlockOutOfRange { index: 6, blocks: 5 })
    );
}
