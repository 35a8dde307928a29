//! The quick check of a store: the superblock's fields held against each
//! other and against the store, the root inode, and the two counters held
//! against the inode table and the bitmap.
//!
//! What makes the filesystem unusable is an error.  A counter that is off
//! is a warning: the bitmap and the inode table are what counts.
use vstd::prelude::*;
use crate::bitmap::{bit_at, bit_is_set};
use crate::disk::{InodeDisk, SuperblockDisk, FILE_TYPE_DIRECTORY, INODE_DISK_SIZE};
use crate::layout::bitmap_bytes;
use crate::meta::{
    lemma_the_superblock, read_superblock, the_inode, the_superblock, lemma_the_inode,
};
use crate::store::{
    block_data, blocks_for, readable, region_bytes, region_read_result, region_readable,
    BlockStore, FsError,
};
use crate::{QRFS_BLOCK_SIZE, QRFS_MAGIC, QRFS_VERSION};

verus! {

/// Something that makes the filesystem unusable.
#[derive(Clone, Copy, Debug, PartialEq, Eq)]
pub enum Problem {
    /// The magic number is not this filesystem's.
    BadMagic { found: u32 },
    /// The version is not the supported one.
    BadVersion { found: u32 },
    /// The block size is not 1024.
    BadBlockSize { found: u32 },
    /// The block count is zero or more than the store has blocks.
    BadTotalBlocks { total_blocks: u32, blocks: u64 },
    /// The inode table starts at block 0, which is the superblock's.
    InodeTableAtZero,
    /// The inode table does not lie inside the block range.
    InodeTableRange,
    /// The bitmap does not lie inside the block range.
    BitmapRange,
    /// The data region starts beyond the last block.
    DataStartOutOfRange,
    /// The root inode id is 0 or beyond the inode count.
    RootOutOfRange { root: u32, max_inodes: u32 },
    /// The root inode is no directory.
    RootNotDirectory { file_type: u16 },
    /// The root inode has no record in the inode table.
    RootMissing,
    /// The bitmap has fewer bits than there are blocks.
    BitmapTooSmall { bits: u64, blocks: u32 },
}

/// A counter that does not fit what the store holds.
#[derive(Clone, Copy, Debug, PartialEq, Eq)]
pub enum Warning {
    /// Inodes in use and free inodes do not add up to the inode count.
    InodeCounter { used: u64, free: u32, max_inodes: u32 },
    /// The bits set in the bitmap are not as many as the blocks that the
    /// free-block counter leaves.
    BlockCounter { used_bits: u64, free: u32, total_blocks: u32 },
}

/// What the quick check found.
#[derive(Clone, Debug, PartialEq, Eq)]
pub struct QuickReport {
    /// The superblock that was checked.
    pub superblock: SuperblockDisk,
    /// What makes the filesystem unusable, in the order of the checks.
    pub errors: Vec<Problem>,
    /// The counters that are off.
    pub warnings: Vec<Warning>,
}

/// The one problem `p` if `cond` holds, nothing otherwise.
pub open spec fn problem_if(cond: bool, p: Problem) -> Seq<Problem> {
    if cond {
        seq![p]
    } else {
        Seq::empty()
    }
}

/// What is wrong with the superblock's fields, for a store of `blocks`
/// blocks.
pub open spec fn superblock_problems(sb: SuperblockDisk, blocks: int) -> Seq<Problem> {
    let last = if sb.total_blocks > 0 {
        sb.total_blocks - 1
    } else {
        0
    };
    problem_if(sb.magic != QRFS_MAGIC, Problem::BadMagic { found: sb.magic }) + problem_if(
        sb.version != QRFS_VERSION,
        Problem::BadVersion { found: sb.version },
    ) + problem_if(
        sb.block_size != QRFS_BLOCK_SIZE,
        Problem::BadBlockSize { found: sb.block_size },
    ) + problem_if(
        sb.total_blocks == 0 || sb.total_blocks > blocks,
        Problem::BadTotalBlocks { total_blocks: sb.total_blocks, blocks: blocks as u64 },
    ) + problem_if(sb.inode_table_start == 0, Problem::InodeTableAtZero) + problem_if(
        sb.inode_table_start > last || sb.inode_table_start + sb.inode_table_blocks
            > sb.total_blocks,
        Problem::InodeTableRange,
    ) + problem_if(
        sb.free_bitmap_start > last || sb.free_bitmap_start + sb.free_bitmap_blocks
            > sb.total_blocks,
        Problem::BitmapRange,
    ) + problem_if(sb.data_blocks_start > last, Problem::DataStartOutOfRange) + problem_if(
        sb.root_inode == 0 || sb.root_inode > sb.max_inodes,
        Problem::RootOutOfRange { root: sb.root_inode, max_inodes: sb.max_inodes },
    )
}

/// Checks the superblock's fields, for a store of `blocks` blocks.
pub fn check_superblock_fields(sb: &SuperblockDisk, blocks: usize) -> (problems: Vec<Problem>)
    ensures
        problems@ == superblock_problems(*sb, blocks as int),
{
    let mut problems: Vec<Problem> = Vec::new();
    let max_block: u32 = if sb.total_blocks > 0 {
        sb.total_blocks - 1
    } else {
        0
    };
    assert(problems@ =~= Seq::empty());
    note_problem(&mut problems, sb.magic != QRFS_MAGIC, Problem::BadMagic { found: sb.magic });
    assert(problems@ =~= problem_if(sb.magic != QRFS_MAGIC, Problem::BadMagic { found: sb.magic }));
    note_problem(
        &mut problems,
        sb.version != QRFS_VERSION,
        Problem::BadVersion { found: sb.version },
    );
    note_problem(
        &mut problems,
        sb.block_size != QRFS_BLOCK_SIZE,
        Problem::BadBlockSize { found: sb.block_size },
    );
    note_problem(
        &mut problems,
        sb.total_blocks == 0 || sb.total_blocks as u64 > blocks as u64,
        Problem::BadTotalBlocks { total_blocks: sb.total_blocks, blocks: blocks as u64 },
    );
    note_problem(&mut problems, sb.inode_table_start == 0, Problem::InodeTableAtZero);
    note_problem(
        &mut problems,
        sb.inode_table_start > max_block || sb.inode_table_start as u64
            + sb.inode_table_blocks as u64 > sb.total_blocks as u64,
        Problem::InodeTableRange,
    );
    note_problem(
        &mut problems,
        sb.free_bitmap_start > max_block || sb.free_bitmap_start as u64
            + sb.free_bitmap_blocks as u64 > sb.total_blocks as u64,
        Problem::BitmapRange,
    );
    note_problem(&mut problems, sb.data_blocks_start > max_block, Problem::DataStartOutOfRange);
    note_problem(
        &mut problems,
        sb.root_inode == 0 || sb.root_inode > sb.max_inodes,
        Problem::RootOutOfRange { root: sb.root_inode, max_inodes: sb.max_inodes },
    );
    problems
}

/// Adds `p` to `problems` if `cond` holds.
fn note_problem(problems: &mut Vec<Problem>, cond: bool, p: Problem)
    ensures
        final(problems)@ == old(problems)@ + problem_if(cond, p),
{
    if cond {
        problems.push(p);
    }
    assert(problems@ =~= old(problems)@ + problem_if(cond, p));
}

/// The first `len` bytes that lie on the store from block `first` on.
pub open spec fn run_bytes(store: Seq<Seq<u8>>, first: int, len: int) -> Seq<u8> {
    region_bytes(store, first, blocks_for(len)).subrange(0, len)
}

/// Reads the `len` bytes that lie on the store from block `first` on,
/// over as many blocks as they take.
///
/// Fails when those blocks reach beyond the store, or else at the first of
/// them that holds fewer bytes than a block has.
pub fn read_run(store: &BlockStore, first: u32, len: u64) -> (r: Result<Vec<u8>, FsError>)
    ensures
        match r {
            Ok(bytes) => region_readable(store@, first as int, blocks_for(len as int))
                && bytes@ == run_bytes(store@, first as int, len as int),
            Err(e) => region_read_result(
                store@,
                first as int,
                blocks_for(len as int),
                Err(e),
            ),
        },
{
    let count: u64 = len / 1024 + (if len % 1024 != 0 {
        1u64
    } else {
        0u64
    });
    let mut buf = match store.read_region(first, count) {
        Ok(buf) => buf,
        Err(e) => {
            return Err(e);
        },
    };
    if len <= buf.len() as u64 {
        buf.truncate(len as usize);
    }
    Ok(buf)
}

/// The inode records that the inode table holds, one for each inode id.
pub open spec fn table_inodes(bytes: Seq<u8>, n: int) -> Seq<InodeDisk> {
    Seq::new(n as nat, |i: int| the_inode(bytes, i * INODE_DISK_SIZE))
}

/// Reads the whole inode table: the records of the inodes `1..=max_inodes`,
/// which lie one after the other from the table's first block on.
pub fn read_inode_table(store: &BlockStore, sb: &SuperblockDisk) -> (r: Result<
    Vec<InodeDisk>,
    FsError,
>)
    ensures
        match r {
            Ok(inodes) => {
                &&& region_readable(
                    store@,
                    sb.inode_table_start as int,
                    blocks_for(sb.max_inodes * INODE_DISK_SIZE),
                )
                &&& inodes@ == table_inodes(
                    run_bytes(
                        store@,
                        sb.inode_table_start as int,
                        sb.max_inodes * INODE_DISK_SIZE,
                    ),
                    sb.max_inodes as int,
                )
            },
            Err(e) => region_read_result(
                store@,
                sb.inode_table_start as int,
                blocks_for(sb.max_inodes * INODE_DISK_SIZE),
                Err(e),
            ),
        },
{
    let total_bytes: u64 = sb.max_inodes as u64 * INODE_DISK_SIZE as u64;
    let buf = match read_run(store, sb.inode_table_start, total_bytes) {
        Ok(buf) => buf,
        Err(e) => {
            return Err(e);
        },
    };
    let mut inodes: Vec<InodeDisk> = Vec::new();
    let mut i: u32 = 0;
    let len: usize = buf.len();
    while i < sb.max_inodes
        invariant
            i <= sb.max_inodes,
            len == buf@.len(),
            buf@.len() == sb.max_inodes * INODE_DISK_SIZE,
            inodes@.len() == i,
            forall|k: int|
                0 <= k < i ==> #[trigger] inodes@[k] == the_inode(buf@, k * INODE_DISK_SIZE),
        decreases sb.max_inodes - i,
    {
        match InodeDisk::decode(buf.as_slice(), i as usize * INODE_DISK_SIZE) {
            Ok(inode) => {
                proof {
                    lemma_the_inode(inode, buf@, i * INODE_DISK_SIZE);
                }
                inodes.push(inode);
            },
            Err(_) => {
                vstd::pervasive::unreached()
            },
        }
        i += 1;
    }
    assert(inodes@ =~= table_inodes(buf@, sb.max_inodes as int));
    Ok(inodes)
}

/// Reads the bitmap: one bit per block, from the bitmap's first block on.
pub fn read_bitmap(store: &BlockStore, sb: &SuperblockDisk) -> (r: Result<Vec<u8>, FsError>)
    ensures
        match r {
            Ok(bitmap) => {
                &&& region_readable(
                    store@,
                    sb.free_bitmap_start as int,
                    blocks_for(bitmap_bytes(sb.total_blocks as int)),
                )
                &&& bitmap@ == run_bytes(
                    store@,
                    sb.free_bitmap_start as int,
                    bitmap_bytes(sb.total_blocks as int),
                )
            },
            Err(e) => region_read_result(
                store@,
                sb.free_bitmap_start as int,
                blocks_for(bitmap_bytes(sb.total_blocks as int)),
                Err(e),
            ),
        },
{
    let needed: u64 = sb.total_blocks as u64 / 8 + (if sb.total_blocks % 8 != 0 {
        1u64
    } else {
        0u64
    });
    read_run(store, sb.free_bitmap_start, needed)
}

/// How many of the first `n` inode records are in use: those with an id
/// and a file type other than zero.
pub open spec fn used_inodes(inodes: Seq<InodeDisk>, n: int) -> int
    decreases n,
{
    if n <= 0 {
        0
    } else {
        used_inodes(inodes, n - 1) + (if inodes[n - 1].id != 0 && inodes[n - 1].file_type != 0 {
            1int
        } else {
            0int
        })
    }
}

/// How many of the first `n` blocks the bitmap marks as used.
pub open spec fn used_bits(bitmap: Seq<u8>, n: int) -> int
    decreases n,
{
    if n <= 0 {
        0
    } else {
        used_bits(bitmap, n - 1) + (if bit_at(bitmap, n - 1) {
            1int
        } else {
            0int
        })
    }
}

/// What is wrong with the root inode: it has no record, or it is no
/// directory.
pub open spec fn root_problems(sb: SuperblockDisk, inodes: Seq<InodeDisk>) -> Seq<Problem> {
    if sb.root_inode == 0 || sb.root_inode > inodes.len() {
        seq![Problem::RootMissing]
    } else {
        problem_if(
            inodes[sb.root_inode - 1].file_type != FILE_TYPE_DIRECTORY,
            Problem::RootNotDirectory { file_type: inodes[sb.root_inode - 1].file_type },
        )
    }
}

/// What is wrong with the bitmap's size.
pub open spec fn bitmap_problems(sb: SuperblockDisk, bitmap: Seq<u8>) -> Seq<Problem> {
    problem_if(
        bitmap.len() * 8 < sb.total_blocks,
        Problem::BitmapTooSmall { bits: (bitmap.len() * 8) as u64, blocks: sb.total_blocks },
    )
}

/// The counters that are off: the inodes in use and the free inodes do not
/// add up to the inode count; the bits set in a bitmap that is large enough
/// are not as many as the blocks that the free-block counter leaves.
pub open spec fn counter_warnings(sb: SuperblockDisk, inodes: Seq<InodeDisk>, bitmap: Seq<u8>) -> Seq<
    Warning,
> {
    let used = used_inodes(inodes, inodes.len() as int);
    let bits = used_bits(bitmap, sb.total_blocks as int);
    (if used + sb.free_inodes != sb.max_inodes {
        seq![
            Warning::InodeCounter {
                used: used as u64,
                free: sb.free_inodes,
                max_inodes: sb.max_inodes,
            },
        ]
    } else {
        Seq::empty()
    }) + (if bitmap.len() * 8 >= sb.total_blocks && bits != sb.total_blocks - sb.free_blocks {
        seq![
            Warning::BlockCounter {
                used_bits: bits as u64,
                free: sb.free_blocks,
                total_blocks: sb.total_blocks,
            },
        ]
    } else {
        Seq::empty()
    })
}

/// Counts the inode records in use.
pub fn count_used_inodes(inodes: &Vec<InodeDisk>) -> (n: u64)
    requires
        inodes@.len() <= u32::MAX,
    ensures
        n == used_inodes(inodes@, inodes@.len() as int),
        n <= inodes@.len(),
{
    let mut n: u64 = 0;
    let mut i: usize = 0;
    while i < inodes.len()
        invariant
            i <= inodes@.len(),
            inodes@.len() <= u32::MAX,
            n == used_inodes(inodes@, i as int),
            n <= i,
        decreases inodes@.len() - i,
    {
        if inodes[i].id != 0 && inodes[i].file_type != 0 {
            n += 1;
        }
        i += 1;
    }
    n
}

/// Counts the blocks among the first `total` that the bitmap marks as used.
pub fn count_used_bits(bitmap: &Vec<u8>, total: u32) -> (n: u64)
    ensures
        n == used_bits(bitmap@, total as int),
        n <= total,
{
    let mut n: u64 = 0;
    let mut b: u32 = 0;
    while b < total
        invariant
            b <= total,
            n == used_bits(bitmap@, b as int),
            n <= b,
        decreases total - b,
    {
        if bit_is_set(bitmap.as_slice(), b) {
            n += 1;
        }
        b += 1;
    }
    n
}

/// Whether `report` is what the quick check finds on `store`.
pub open spec fn quick_checked(store: Seq<Seq<u8>>, report: QuickReport) -> bool {
    let sb = report.superblock;
    let inodes = table_inodes(
        run_bytes(store, sb.inode_table_start as int, sb.max_inodes * INODE_DISK_SIZE),
        sb.max_inodes as int,
    );
    let bitmap = run_bytes(
        store,
        sb.free_bitmap_start as int,
        bitmap_bytes(sb.total_blocks as int),
    );
    &&& sb == the_superblock(block_data(store, 0))
    &&& report.errors@ == superblock_problems(sb, store.len() as int) + root_problems(sb, inodes)
        + bitmap_problems(sb, bitmap)
    &&& report.warnings@ == counter_warnings(sb, inodes, bitmap)
}

/// Why the quick check cannot be made, if there is a reason: in this
/// order, the superblock, the inode table or the bitmap cannot be read.
pub open spec fn quick_check_error(store: Seq<Seq<u8>>, e: FsError) -> bool {
    if store.len() == 0 {
        e == FsError::NoBlocks
    } else if !readable(store, 0) {
        e == FsError::ShortBlock { index: 0 }
    } else {
        let sb = the_superblock(block_data(store, 0));
        let table_blocks = blocks_for(sb.max_inodes * INODE_DISK_SIZE);
        if !region_readable(store, sb.inode_table_start as int, table_blocks) {
            region_read_result(store, sb.inode_table_start as int, table_blocks, Err(e))
        } else {
            region_read_result(
                store,
                sb.free_bitmap_start as int,
                blocks_for(bitmap_bytes(sb.total_blocks as int)),
                Err(e),
            )
        }
    }
}

/// Checks a store quickly: reads the superblock, the inode table and the
/// bitmap, and reports what is wrong with them.  The filesystem is usable
/// as far as this check can tell exactly when `errors` is empty.
///
/// Fails when one of the three cannot be read.
pub fn quick_check(store: &BlockStore) -> (r: Result<QuickReport, FsError>)
    ensures
        match r {
            Ok(report) => quick_checked(store@, report),
            Err(e) => quick_check_error(store@, e),
        },
{
    let sb = match read_superblock(store) {
        Ok(sb) => sb,
        Err(e) => {
            return Err(e);
        },
    };
    proof {
        lemma_the_superblock(sb, block_data(store@, 0));
    }
    let mut errors = check_superblock_fields(&sb, store.len());
    let inodes = match read_inode_table(store, &sb) {
        Ok(inodes) => inodes,
        Err(e) => {
            return Err(e);
        },
    };
    let bitmap = match read_bitmap(store, &sb) {
        Ok(bitmap) => bitmap,
        Err(e) => {
            return Err(e);
        },
    };
    let ghost e1 = errors@;
    if sb.root_inode == 0 || sb.root_inode as usize > inodes.len() {
        errors.push(Problem::RootMissing);
    } else {
        let root = &inodes[(sb.root_inode - 1) as usize];
        if root.file_type != FILE_TYPE_DIRECTORY {
            errors.push(Problem::RootNotDirectory { file_type: root.file_type });
        }
    }
    let ghost e2 = errors@;
    assert(e2 =~= e1 + root_problems(sb, inodes@));
    let mut warnings: Vec<Warning> = Vec::new();
    let used: u64 = count_used_inodes(&inodes);
    if used + sb.free_inodes as u64 != sb.max_inodes as u64 {
        warnings.push(
            Warning::InodeCounter { used, free: sb.free_inodes, max_inodes: sb.max_inodes },
        );
    }
    let bits_in_bitmap: u64 = bitmap.len() as u64 * 8;
    if bits_in_bitmap < sb.total_blocks as u64 {
        errors.push(Problem::BitmapTooSmall { bits: bits_in_bitmap, blocks: sb.total_blocks });
    } else {
        let used_bits: u64 = count_used_bits(&bitmap, sb.total_blocks);
        if used_bits + sb.free_blocks as u64 != sb.total_blocks as u64 {
            warnings.push(
                Warning::BlockCounter {
                    used_bits,
                    free: sb.free_blocks,
                    total_blocks: sb.total_blocks,
                },
            );
        }
    }
    assert(errors@ =~= e2 + bitmap_problems(sb, bitmap@));
    assert(warnings@ =~= counter_warnings(sb, inodes@, bitmap@));
    Ok(QuickReport { superblock: sb, errors, warnings })
}

} // verus!
