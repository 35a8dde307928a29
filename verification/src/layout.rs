//! The layout planner: where the regions of a fresh filesystem go, and what
//! its first superblock, inode table and bitmap hold.
use vstd::prelude::*;
use crate::bitmap::{bit_at, lemma_zero_byte_has_no_bit};
use crate::disk::{InodeDisk, SuperblockDisk, FILE_TYPE_DIRECTORY};
use crate::{QRFS_BLOCK_SIZE, QRFS_MAGIC, QRFS_VERSION};

verus! {

/// Inode records that fit into one block.
pub const INODES_PER_BLOCK: u32 = 9;

/// Permission bits of a fresh root directory.
pub const ROOT_PERM: u16 = 0o755;

/// Why no layout could be planned.
#[derive(Clone, Copy, Debug, PartialEq, Eq)]
pub enum LayoutError {
    /// Fewer than three blocks were offered.
    TooFewBlocks { total_blocks: u32 },
    /// The metadata regions would leave no block for data.
    NoDataBlocks { total_blocks: u32, data_blocks_start: u32 },
}

/// The region boundaries of a filesystem over `total_blocks` blocks.
#[derive(Clone, Copy, Debug, PartialEq, Eq)]
pub struct FsLayout {
    pub total_blocks: u32,
    pub inode_table_start: u32,
    pub inode_table_blocks: u32,
    pub free_bitmap_start: u32,
    pub free_bitmap_blocks: u32,
    pub data_blocks_start: u32,
    pub max_inodes: u32,
}

/// Blocks given to the inode table: a tenth of all blocks, at least one.
pub open spec fn planned_inode_table_blocks(total_blocks: int) -> int {
    let tenth = if total_blocks / 10 < 1 {
        1
    } else {
        total_blocks / 10
    };
    if tenth > total_blocks - 2 {
        1
    } else {
        tenth
    }
}

/// Bytes of a bitmap with one bit per block.
pub open spec fn bitmap_bytes(total_blocks: int) -> int {
    (total_blocks + 7) / 8
}

/// Blocks given to the bitmap: as many as its bytes need.
pub open spec fn planned_bitmap_blocks(total_blocks: int) -> int {
    (bitmap_bytes(total_blocks) + QRFS_BLOCK_SIZE - 1) / (QRFS_BLOCK_SIZE as int)
}

/// First data block: block 0 is the superblock, the inode table and the
/// bitmap follow it.
pub open spec fn planned_data_start(total_blocks: int) -> int {
    1 + planned_inode_table_blocks(total_blocks) + planned_bitmap_blocks(total_blocks)
}

impl FsLayout {
    /// Whether this is the layout that the planner gives for its block count.
    pub open spec fn valid(self) -> bool {
        &&& self.total_blocks >= 3
        &&& self.inode_table_start == 1
        &&& self.inode_table_blocks == planned_inode_table_blocks(self.total_blocks as int)
        &&& self.free_bitmap_start == 1 + self.inode_table_blocks
        &&& self.free_bitmap_blocks == planned_bitmap_blocks(self.total_blocks as int)
        &&& self.data_blocks_start == planned_data_start(self.total_blocks as int)
        &&& self.data_blocks_start < self.total_blocks
        &&& self.max_inodes == INODES_PER_BLOCK * self.inode_table_blocks
    }

    /// Whether this is the layout that the planner gives for its block count.
    pub fn is_valid(&self) -> (r: bool)
        ensures
            r == self.valid(),
    {
        match build_layout(self.total_blocks) {
            Ok(l) => l.inode_table_start == self.inode_table_start && l.inode_table_blocks
                == self.inode_table_blocks && l.free_bitmap_start == self.free_bitmap_start
                && l.free_bitmap_blocks == self.free_bitmap_blocks && l.data_blocks_start
                == self.data_blocks_start && l.max_inodes == self.max_inodes,
            Err(_) => false,
        }
    }
}

/// In a valid layout the regions follow each other inside the block range:
/// the inode table ends where the bitmap starts or before, the bitmap ends
/// where the data starts or before, and the data starts inside the range.
pub proof fn lemma_valid_layout_is_ordered(l: FsLayout)
    requires
        l.valid(),
    ensures
        1 <= l.inode_table_start,
        l.inode_table_start + l.inode_table_blocks <= l.free_bitmap_start,
        l.free_bitmap_start + l.free_bitmap_blocks <= l.data_blocks_start,
        l.free_bitmap_start <= l.data_blocks_start,
        l.data_blocks_start <= l.total_blocks,
        l.inode_table_blocks >= 1,
        l.free_bitmap_blocks >= 1,
        l.max_inodes >= 1,
        bitmap_bytes(l.total_blocks as int) <= l.free_bitmap_blocks * QRFS_BLOCK_SIZE,
{
}

/// Plans the regions of a filesystem over `total_blocks` blocks.
///
/// Fails when fewer than three blocks are offered, or when superblock, inode
/// table and bitmap leave no block for data.  The inode record has a fixed
/// size of 112 bytes, so nine of them fit a block whatever the input.
pub fn build_layout(total_blocks: u32) -> (r: Result<FsLayout, LayoutError>)
    ensures
        match r {
            Ok(l) => l.valid() && l.total_blocks == total_blocks,
            Err(LayoutError::TooFewBlocks { total_blocks: t }) => total_blocks < 3 && t
                == total_blocks,
            Err(LayoutError::NoDataBlocks { total_blocks: t, data_blocks_start: d }) => {
                &&& total_blocks >= 3
                &&& planned_data_start(total_blocks as int) >= total_blocks
                &&& t == total_blocks
                &&& d == planned_data_start(total_blocks as int)
            },
        },
{
    if total_blocks < 3 {
        return Err(LayoutError::TooFewBlocks { total_blocks });
    }
    let mut inode_table_blocks: u32 = total_blocks / 10;
    if inode_table_blocks < 1 {
        inode_table_blocks = 1;
    }
    if inode_table_blocks > total_blocks - 2 {
        inode_table_blocks = 1;
    }
    let max_inodes: u32 = INODES_PER_BLOCK * inode_table_blocks;
    let bitmap_bytes: u32 = total_blocks / 8 + (if total_blocks % 8 != 0 {
        1u32
    } else {
        0u32
    });
    let free_bitmap_blocks: u32 = (bitmap_bytes + QRFS_BLOCK_SIZE - 1) / QRFS_BLOCK_SIZE;
    let inode_table_start: u32 = 1;
    let free_bitmap_start: u32 = inode_table_start + inode_table_blocks;
    let data_blocks_start: u32 = free_bitmap_start + free_bitmap_blocks;
    if data_blocks_start >= total_blocks {
        return Err(LayoutError::NoDataBlocks { total_blocks, data_blocks_start });
    }
    Ok(
        FsLayout {
            total_blocks,
            inode_table_start,
            inode_table_blocks,
            free_bitmap_start,
            free_bitmap_blocks,
            data_blocks_start,
            max_inodes,
        },
    )
}

/// The superblock of a fresh filesystem with layout `l`.
pub open spec fn fresh_superblock(l: FsLayout, sb: SuperblockDisk) -> bool {
    &&& sb.magic == QRFS_MAGIC
    &&& sb.version == QRFS_VERSION
    &&& sb.block_size == QRFS_BLOCK_SIZE
    &&& sb.total_blocks == l.total_blocks
    &&& sb.inode_table_start == l.inode_table_start
    &&& sb.inode_table_blocks == l.inode_table_blocks
    &&& sb.free_bitmap_start == l.free_bitmap_start
    &&& sb.free_bitmap_blocks == l.free_bitmap_blocks
    &&& sb.data_blocks_start == l.data_blocks_start
    &&& sb.max_inodes == l.max_inodes
    &&& sb.root_inode == 1
    &&& sb.free_blocks == l.total_blocks - l.data_blocks_start
    &&& sb.free_inodes == l.max_inodes - 1
    &&& forall|i: int| 0 <= i < 64 ==> sb.reserved@[i] == 0
}

/// The inode record of a fresh root directory made at time `now`.
pub open spec fn fresh_root_inode(now: u64, inode: InodeDisk) -> bool {
    &&& inode.id == 1
    &&& inode.file_type == FILE_TYPE_DIRECTORY
    &&& inode.perm == ROOT_PERM
    &&& inode.uid == 0
    &&& inode.gid == 0
    &&& inode.size == 0
    &&& inode.atime == now
    &&& inode.mtime == now
    &&& inode.ctime == now
    &&& inode.nlink == 2
    &&& forall|k: int| 0 <= k < 12 ==> inode.direct_blocks@[k] == 0
    &&& inode.indirect_block == 0
    &&& inode.double_indirect_block == 0
    &&& inode._padding == 0
}

/// The inode table of a fresh filesystem: the root directory in the first
/// slot, every other slot free.
pub open spec fn fresh_inode_table(l: FsLayout, now: u64, inodes: Seq<InodeDisk>) -> bool {
    &&& inodes.len() == l.max_inodes
    &&& fresh_root_inode(now, inodes[0])
    &&& forall|i: int| 1 <= i < inodes.len() ==> (#[trigger] inodes[i]).is_zeroed()
}

/// The bitmap of a fresh filesystem: one bit per block, set for exactly the
/// blocks before the data region.
pub open spec fn fresh_bitmap(l: FsLayout, bitmap: Seq<u8>) -> bool {
    &&& bitmap.len() == bitmap_bytes(l.total_blocks as int)
    &&& forall|b: int| 0 <= b < 8 * bitmap.len() ==> (#[trigger] bit_at(bitmap, b) <==> b < l.data_blocks_start)
}

/// What a fresh filesystem with layout `layout` holds, made at time `now`
/// (seconds since the epoch): the superblock, the inode table with the root
/// directory in its first slot, and the bitmap with the metadata blocks
/// marked used.
pub fn init_fresh_fs(layout: &FsLayout, now: u64) -> (r: (SuperblockDisk, Vec<InodeDisk>, Vec<u8>))
    requires
        layout.valid(),
    ensures
        fresh_superblock(*layout, r.0),
        fresh_inode_table(*layout, now, r.1@),
        fresh_bitmap(*layout, r.2@),
{
    let data_blocks: u32 = layout.total_blocks - layout.data_blocks_start;
    let superblock = SuperblockDisk {
        magic: QRFS_MAGIC,
        version: QRFS_VERSION,
        block_size: QRFS_BLOCK_SIZE,
        total_blocks: layout.total_blocks,
        inode_table_start: layout.inode_table_start,
        inode_table_blocks: layout.inode_table_blocks,
        free_bitmap_start: layout.free_bitmap_start,
        free_bitmap_blocks: layout.free_bitmap_blocks,
        data_blocks_start: layout.data_blocks_start,
        max_inodes: layout.max_inodes,
        root_inode: 1,
        free_blocks: data_blocks,
        free_inodes: layout.max_inodes - 1,
        reserved: [0u8; 64],
    };
    let mut inodes: Vec<InodeDisk> = Vec::new();
    inodes.push(
        InodeDisk {
            id: 1,
            file_type: FILE_TYPE_DIRECTORY,
            perm: ROOT_PERM,
            uid: 0,
            gid: 0,
            size: 0,
            atime: now,
            mtime: now,
            ctime: now,
            nlink: 2,
            direct_blocks: [0u32; 12],
            indirect_block: 0,
            double_indirect_block: 0,
            _padding: 0,
        },
    );
    let mut i: u32 = 1;
    while i < layout.max_inodes
        invariant
            1 <= i <= layout.max_inodes,
            inodes@.len() == i,
            fresh_root_inode(now, inodes@[0]),
            forall|j: int| 1 <= j < inodes@.len() ==> (#[trigger] inodes@[j]).is_zeroed(),
        decreases layout.max_inodes - i,
    {
        inodes.push(InodeDisk::zeroed());
        i += 1;
    }
    let nbytes: u32 = layout.total_blocks / 8 + (if layout.total_blocks % 8 != 0 {
        1u32
    } else {
        0u32
    });
    let mut bitmap: Vec<u8> = Vec::new();
    let mut n: u32 = 0;
    while n < nbytes
        invariant
            n <= nbytes,
            bitmap@.len() == n,
            forall|k: int| 0 <= k < bitmap@.len() ==> bitmap@[k] == 0,
        decreases nbytes - n,
    {
        bitmap.push(0u8);
        n += 1;
    }
    proof {
        assert forall|b: int| 0 <= b < 8 * bitmap@.len() implies !bit_at(bitmap@, b) by {
            lemma_zero_byte_has_no_bit((b % 8) as u8);
        }
    }
    let mut b: u32 = 0;
    while b < layout.data_blocks_start
        invariant
            b <= layout.data_blocks_start,
            layout.data_blocks_start < layout.total_blocks,
            bitmap@.len() == bitmap_bytes(layout.total_blocks as int),
            forall|j: int| 0 <= j < 8 * bitmap@.len() ==> (#[trigger] bit_at(bitmap@, j) <==> j < b),
        decreases layout.data_blocks_start - b,
    {
        crate::bitmap::bitmap_set(&mut bitmap, b, true);
        b += 1;
    }
    (superblock, inodes, bitmap)
}

} // verus!
