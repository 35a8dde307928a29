use qrfs::bytes::{push_u16, push_u32, push_u64, read_u16, read_u32, read_u64};
use qrfs::disk::{
    DirEntryDisk, InodeDisk, ShortBufferError, SuperblockDisk, DIR_ENTRY_DISK_SIZE,
    INODE_DISK_SIZE, SUPERBLOCK_DISK_SIZE,
};

fn sample_superblock() -> SuperblockDisk {
    let mut reserved = [0u8; 64];
    reserved[0] = 0xAA;
    reserved[63] = 0x55;
    SuperblockDisk {
        magic: 0x5152_4653,
        version: 1,
        block_size: 1024,
        total_blocks: 10,
        inode_table_start: 1,
        inode_table_blocks: 1,
        free_bitmap_start: 2,
        free_bitmap_blocks: 1,
        data_blocks_start: 3,
        max_inodes: 9,
        root_inode: 1,
        free_blocks: 7,
        free_inodes: 8,
        reserved,
    }
}

fn sample_inode() -> InodeDisk {
    InodeDisk {
        id: 7,
        file_type: 1,
        perm: 0o644,
        uid: 1000,
        gid: 100,
        size: 0x0102_0304_0506_0708,
        atime: 11,
        mtime: 22,
        ctime: 33,
        nlink: 1,
        direct_blocks: [3, 4, 5, 0, 0, 0, 0, 0, 0, 0, 0, 0xDEAD_BEEF],
        indirect_block: 40,
        double_indirect_block: 41,
        _padding: 42,
    }
}

#[test]
fn integers_are_little_endian() {
    let mut out = Vec::new();
    push_u16(&mut out, 0x1234);
    push_u32(&mut out, 0x5152_4653);
    push_u64(&mut out, 0x0102_0304_0506_0708);
    assert_eq!(
        out,
        vec![0x34, 0x12, 0x53, 0x46, 0x52, 0x51, 0x08, 0x07, 0x06, 0x05, 0x04, 0x03, 0x02, 0x01]
    );
    assert_eq!(read_u16(&out, 0), 0x1234);
    assert_eq!(read_u32(&out, 2), 0x5152_4653);
    assert_eq!(read_u64(&out, 6), 0x0102_0304_0506_0708);
}

#[test]
fn integers_at_their_limits_round_trip() {
    let mut out = Vec::new();
    push_u16(&mut out, u16::MAX);
    push_u32(&mut out, u32::MAX);
    push_u64(&mut out, u64::MAX);
    push_u64(&mut out, 0);
    assert_eq!(out.len(), 22);
    assert_eq!(read_u16(&out, 0), u16::MAX);
    assert_eq!(read_u32(&out, 2), u32::MAX);
    assert_eq!(read_u64(&out, 6), u64::MAX);
    assert_eq!(read_u64(&out, 14), 0);
}

#[test]
fn superblock_has_the_documented_layout() {
    let sb = sample_superblock();
    let mut out = Vec::new();
    sb.encode(&mut out);
    assert_eq!(out.len(), SUPERBLOCK_DISK_SIZE);
    assert_eq!(out.len(), 116);
    assert_eq!(&out[0..4], &[0x53, 0x46, 0x52, 0x51]);
    assert_eq!(&out[4..8], &[1, 0, 0, 0]);
    assert_eq!(&out[8..12], &[0, 4, 0, 0]);
    assert_eq!(&out[12..16], &[10, 0, 0, 0]);
    assert_eq!(&out[16..20], &[1, 0, 0, 0]);
    assert_eq!(&out[20..24], &[1, 0, 0, 0]);
    assert_eq!(&out[24..28], &[2, 0, 0, 0]);
    assert_eq!(&out[28..32], &[1, 0, 0, 0]);
    assert_eq!(&out[32..36], &[3, 0, 0, 0]);
    assert_eq!(&out[36..40], &[9, 0, 0, 0]);
    assert_eq!(&out[40..44], &[1, 0, 0, 0]);
    assert_eq!(&out[44..48], &[7, 0, 0, 0]);
    assert_eq!(&out[48..52], &[8, 0, 0, 0]);
    assert_eq!(out[52], 0xAA);
    assert_eq!(out[115], 0x55);
}

#[test]
fn superblock_round_trips() {
    let sb = sample_superblock();
    let mut out = Vec::new();
    sb.encode(&mut out);
    assert_eq!(SuperblockDisk::decode(&out), Ok(sb));
}

#[test]
fn superblock_decodes_from_a_longer_buffer() {
    let sb = sample_superblock();
    let mut out = Vec::new();
    sb.encode(&mut out);
    out.resize(1024, 0xFF);
    assert_eq!(SuperblockDisk::decode(&out), Ok(sb));
}

#[test]
fn superblock_short_buffer_is_an_error() {
    let sb = sample_superblock();
    let mut out = Vec::new();
    sb.encode(&mut out);
    out.truncate(115);
    assert_eq!(
        SuperblockDisk::decode(&out),
        Err(ShortBufferError { needed: 116, available: 115 })
    );
    assert_eq!(
        SuperblockDisk::decode(&[]),
        Err(ShortBufferError { needed: 116, available: 0 })
    );
}

#[test]
fn inode_has_the_documented_layout() {
    let inode = sample_inode();
    let mut out = Vec::new();
    inode.encode(&mut out);
    assert_eq!(out.len(), INODE_DISK_SIZE);
    assert_eq!(out.len(), 112);
    assert_eq!(&out[0..4], &[7, 0, 0, 0]);
    assert_eq!(&out[4..6], &[1, 0]);
    assert_eq!(&out[6..8], &[0xA4, 0x01]);
    assert_eq!(&out[8..12], &[0xE8, 0x03, 0, 0]);
    assert_eq!(&out[12..16], &[100, 0, 0, 0]);
    assert_eq!(&out[16..24], &[8, 7, 6, 5, 4, 3, 2, 1]);
    assert_eq!(&out[24..32], &[11, 0, 0, 0, 0, 0, 0, 0]);
    assert_eq!(&out[32..40], &[22, 0, 0, 0, 0, 0, 0, 0]);
    assert_eq!(&out[40..48], &[33, 0, 0, 0, 0, 0, 0, 0]);
    assert_eq!(&out[48..52], &[1, 0, 0, 0]);
    assert_eq!(&out[52..56], &[3, 0, 0, 0]);
    assert_eq!(&out[56..60], &[4, 0, 0, 0]);
    assert_eq!(&out[96..100], &[0xEF, 0xBE, 0xAD, 0xDE]);
    assert_eq!(&out[100..104], &[40, 0, 0, 0]);
    assert_eq!(&out[104..108], &[41, 0, 0, 0]);
    assert_eq!(&out[108..112], &[42, 0, 0, 0]);
}

#[test]
fn inode_round_trips() {
    let inode = sample_inode();
    let mut out = Vec::new();
    inode.encode(&mut out);
    assert_eq!(InodeDisk::decode(&out, 0), Ok(inode));
}

#[test]
fn inode_round_trips_at_an_odd_offset() {
    let inode = sample_inode();
    let mut out = vec![0xEEu8; 3];
    inode.encode(&mut out);
    out.push(0x77);
    assert_eq!(InodeDisk::decode(&out, 3), Ok(inode));
}

#[test]
fn inode_short_buffer_is_an_error() {
    let inode = sample_inode();
    let mut out = Vec::new();
    inode.encode(&mut out);
    assert_eq!(
        InodeDisk::decode(&out, 1),
        Err(ShortBufferError { needed: 112, available: 111 })
    );
    assert_eq!(
        InodeDisk::decode(&out, 500),
        Err(ShortBufferError { needed: 112, available: 0 })
    );
}

#[test]
fn zeroed_inode_is_all_zero_bytes() {
    let mut out = Vec::new();
    InodeDisk::zeroed().encode(&mut out);
    assert_eq!(out, vec![0u8; 112]);
}

#[test]
fn dir_entry_has_the_documented_layout_and_round_trips() {
    let mut name = [0u8; 56];
    name[0] = b'a';
    name[1] = b'b';
    let entry = DirEntryDisk { inode: 0x0102_0304, name };
    let mut out = Vec::new();
    entry.encode(&mut out);
    assert_eq!(out.len(), DIR_ENTRY_DISK_SIZE);
    assert_eq!(out.len(), 60);
    assert_eq!(&out[0..6], &[4, 3, 2, 1, b'a', b'b']);
    assert_eq!(&out[6..60], &[0u8; 54][..]);
    assert_eq!(DirEntryDisk::decode(&out, 0), Ok(entry));
}

#[test]
fn dir_entry_short_buffer_is_an_error() {
    assert_eq!(
        DirEntryDisk::decode(&[0u8; 59], 0),
        Err(ShortBufferError { needed: 60, available: 59 })
    );
    assert_eq!(
        DirEntryDisk::decode(&[0u8; 120], 61),
        Err(ShortBufferError { needed: 60, available: 59 })
    );
}
