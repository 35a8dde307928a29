//! The metadata on the store: the superblock in block 0, the inode table
//! and the bitmap in their regions.
//!
//! The inode table is one run of bytes over its blocks: the record of inode
//! `ino` starts at byte `(ino - 1) * 112` of the region, and may lie across
//! two blocks.
use vstd::prelude::*;
use crate::disk::{
    lemma_inode_decoded_once, lemma_superblock_decoded_once, lemma_superblock_layout, InodeDisk,
    SuperblockDisk, INODE_DISK_SIZE,
};
use crate::layout::bitmap_bytes;
use crate::store::{
    block_data, lemma_region_after_write, padded_block, readable, region_bytes, region_read_result,
    region_readable, with_chunks, BlockStore, FsError, BLOCK,
};

verus! {

/// Writes the superblock to block 0, filled up with zeros.
///
/// Fails, and changes nothing, when the store has no block.
pub fn write_superblock(store: &mut BlockStore, sb: &SuperblockDisk) -> (r: Result<(), FsError>)
    ensures
        match r {
            Ok(()) => old(store)@.len() > 0 && final(store)@ == old(store)@.update(
                0,
                padded_block(sb.to_bytes()),
            ),
            Err(e) => old(store)@.len() == 0 && final(store)@ == old(store)@ && e
                == FsError::NoBlocks,
        },
{
    if store.len() == 0 {
        return Err(FsError::NoBlocks);
    }
    let mut buf: Vec<u8> = Vec::new();
    sb.encode(&mut buf);
    assert(buf@ =~= sb.to_bytes());
    match store.write_fs_block(0, buf.as_slice()) {
        Ok(()) => Ok(()),
        Err(e) => Err(e),
    }
}

/// Reads the superblock from block 0.
///
/// Fails when the store has no block, or when block 0 is not readable.
pub fn read_superblock(store: &BlockStore) -> (r: Result<SuperblockDisk, FsError>)
    ensures
        match r {
            Ok(sb) => readable(store@, 0) && sb.decoded_from(block_data(store@, 0)),
            Err(e) => !readable(store@, 0) && e == (if store@.len() == 0 {
                FsError::NoBlocks
            } else {
                FsError::ShortBlock { index: 0 }
            }),
        },
{
    if store.len() == 0 {
        return Err(FsError::NoBlocks);
    }
    let buf = match store.read_fs_block(0) {
        Ok(buf) => buf,
        Err(e) => {
            return Err(e);
        },
    };
    match SuperblockDisk::decode(buf.as_slice()) {
        Ok(sb) => Ok(sb),
        Err(_) => vstd::pervasive::unreached(),
    }
}

/// A superblock written to a block is the superblock read from it.
pub proof fn lemma_superblock_in_block(sb: SuperblockDisk)
    ensures
        sb.decoded_from(padded_block(sb.to_bytes())),
        sb.decoded_from(block_data(seq![padded_block(sb.to_bytes())], 0)),
{
    lemma_superblock_layout(sb);
    let s = sb.to_bytes();
    let b = padded_block(s);
    assert forall|i: int| 0 <= i < 116 implies b[i] == s[i] by {}
    assert(b.subrange(52, 116) =~= s.subrange(52, 116));
    assert(block_data(seq![b], 0) =~= b);
}

/// Byte offset of the record of inode `ino` in the inode table.
pub open spec fn inode_offset(ino: int) -> int {
    (ino - 1) * INODE_DISK_SIZE
}

/// Whether the record of inode `ino` can be reached: the id is in range,
/// the inode table is readable, and the record lies inside it.
pub open spec fn inode_slot_ok(store: Seq<Seq<u8>>, sb: SuperblockDisk, ino: int) -> bool {
    &&& 1 <= ino <= sb.max_inodes
    &&& region_readable(store, sb.inode_table_start as int, sb.inode_table_blocks as int)
    &&& inode_offset(ino) + INODE_DISK_SIZE <= sb.inode_table_blocks * BLOCK
}

/// The bytes of the inode table.
pub open spec fn inode_table_bytes(store: Seq<Seq<u8>>, sb: SuperblockDisk) -> Seq<u8> {
    region_bytes(store, sb.inode_table_start as int, sb.inode_table_blocks as int)
}

/// What going to the record of inode `ino` must give: the record; or, in
/// this order, that the id is out of range, that the inode table reaches
/// beyond the store or holds an unreadable block, that the record lies
/// beyond the table's end.
pub open spec fn inode_load_result(
    store: Seq<Seq<u8>>,
    sb: SuperblockDisk,
    ino: u64,
    r: Result<InodeDisk, FsError>,
) -> bool {
    if ino == 0 || ino > sb.max_inodes {
        r == Err::<InodeDisk, FsError>(
            FsError::InodeOutOfRange { ino, max_inodes: sb.max_inodes },
        )
    } else if !region_readable(
        store,
        sb.inode_table_start as int,
        sb.inode_table_blocks as int,
    ) {
        r is Err && region_read_result(
            store,
            sb.inode_table_start as int,
            sb.inode_table_blocks as int,
            Err(r->Err_0),
        )
    } else if inode_offset(ino as int) + INODE_DISK_SIZE > sb.inode_table_blocks * BLOCK {
        r == Err::<InodeDisk, FsError>(FsError::InodeOutsideTable { ino })
    } else {
        r is Ok && r->Ok_0.decoded_from(inode_table_bytes(store, sb), inode_offset(ino as int))
    }
}

/// Reads the record of inode `ino` from the inode table.
pub fn load_inode_disk(store: &BlockStore, superblock: &SuperblockDisk, ino: u64) -> (r: Result<
    InodeDisk,
    FsError,
>)
    ensures
        inode_load_result(store@, *superblock, ino, r),
        r is Ok <==> inode_slot_ok(store@, *superblock, ino as int),
{
    if ino == 0 || ino > superblock.max_inodes as u64 {
        return Err(FsError::InodeOutOfRange { ino, max_inodes: superblock.max_inodes });
    }
    let buf = match store.read_region(
        superblock.inode_table_start,
        superblock.inode_table_blocks as u64,
    ) {
        Ok(buf) => buf,
        Err(e) => {
            return Err(e);
        },
    };
    let idx_bytes: u64 = (ino - 1) * (INODE_DISK_SIZE as u64);
    if idx_bytes + INODE_DISK_SIZE as u64 > buf.len() as u64 {
        return Err(FsError::InodeOutsideTable { ino });
    }
    match InodeDisk::decode(buf.as_slice(), idx_bytes as usize) {
        Ok(inode) => Ok(inode),
        Err(_) => vstd::pervasive::unreached(),
    }
}

/// `bytes` with the bytes from `at` on replaced by `patch`.
pub open spec fn splice(bytes: Seq<u8>, at: int, patch: Seq<u8>) -> Seq<u8> {
    Seq::new(
        bytes.len(),
        |i: int|
            if at <= i < at + patch.len() {
                patch[i - at]
            } else {
                bytes[i]
            },
    )
}

/// The store after the record of inode `ino` was replaced by `inode`.
pub open spec fn with_inode(store: Seq<Seq<u8>>, sb: SuperblockDisk, ino: int, inode: InodeDisk) -> Seq<
    Seq<u8>,
> {
    with_chunks(
        store,
        sb.inode_table_start as int,
        sb.inode_table_blocks as int,
        splice(inode_table_bytes(store, sb), inode_offset(ino), inode.to_bytes()),
    )
}

/// Writes `inode` as the record of inode `ino`: reads the inode table,
/// replaces the record's 112 bytes, and writes the table back.
///
/// Fails, and changes nothing, where reading the record would fail.
pub fn write_inode_disk(
    store: &mut BlockStore,
    superblock: &SuperblockDisk,
    ino: u64,
    inode: &InodeDisk,
) -> (r: Result<(), FsError>)
    ensures
        match r {
            Ok(()) => inode_slot_ok(old(store)@, *superblock, ino as int) && final(store)@
                == with_inode(old(store)@, *superblock, ino as int, *inode),
            Err(e) => !inode_slot_ok(old(store)@, *superblock, ino as int) && final(store)@
                == old(store)@ && inode_load_result(old(store)@, *superblock, ino, Err(e)),
        },
{
    if ino == 0 || ino > superblock.max_inodes as u64 {
        return Err(FsError::InodeOutOfRange { ino, max_inodes: superblock.max_inodes });
    }
    let mut buf = match store.read_region(
        superblock.inode_table_start,
        superblock.inode_table_blocks as u64,
    ) {
        Ok(buf) => buf,
        Err(e) => {
            return Err(e);
        },
    };
    let idx_bytes: u64 = (ino - 1) * (INODE_DISK_SIZE as u64);
    if idx_bytes + INODE_DISK_SIZE as u64 > buf.len() as u64 {
        return Err(FsError::InodeOutsideTable { ino });
    }
    let at: usize = idx_bytes as usize;
    let mut record: Vec<u8> = Vec::new();
    inode.encode(&mut record);
    assert(record@ =~= inode.to_bytes());
    let ghost table = buf@;
    let table_len: usize = buf.len();
    let mut k: usize = 0;
    while k < INODE_DISK_SIZE
        invariant
            k <= INODE_DISK_SIZE,
            table_len == table.len(),
            record@.len() == INODE_DISK_SIZE,
            at + INODE_DISK_SIZE <= table.len(),
            buf@.len() == table.len(),
            forall|i: int|
                0 <= i < table.len() ==> #[trigger] buf@[i] == (if at <= i < at + k {
                    record@[i - at]
                } else {
                    table[i]
                }),
        decreases INODE_DISK_SIZE - k,
    {
        buf[at + k] = record[k];
        k += 1;
    }
    assert(buf@ =~= splice(table, at as int, inode.to_bytes()));
    match store.write_chunks(
        superblock.inode_table_start,
        superblock.inode_table_blocks as u64,
        buf.as_slice(),
    ) {
        Ok(()) => Ok(()),
        Err(e) => Err(e),
    }
}

/// The bitmap as the store holds it: the bytes of the bitmap region, cut to
/// one bit per block.
pub open spec fn stored_bitmap(store: Seq<Seq<u8>>, sb: SuperblockDisk) -> Seq<u8> {
    let region = region_bytes(store, sb.free_bitmap_start as int, sb.free_bitmap_blocks as int);
    if bitmap_bytes(sb.total_blocks as int) <= region.len() {
        region.subrange(0, bitmap_bytes(sb.total_blocks as int))
    } else {
        region
    }
}

/// Reads the bitmap: the bytes of the bitmap region, cut to one bit per
/// block.
///
/// Fails when the region reaches beyond the store or holds an unreadable
/// block.
pub fn load_bitmap(store: &BlockStore, superblock: &SuperblockDisk) -> (r: Result<Vec<u8>, FsError>)
    ensures
        match r {
            Ok(bitmap) => region_readable(
                store@,
                superblock.free_bitmap_start as int,
                superblock.free_bitmap_blocks as int,
            ) && bitmap@ == stored_bitmap(store@, *superblock),
            Err(e) => region_read_result(
                store@,
                superblock.free_bitmap_start as int,
                superblock.free_bitmap_blocks as int,
                Err(e),
            ),
        },
{
    let mut buf = match store.read_region(
        superblock.free_bitmap_start,
        superblock.free_bitmap_blocks as u64,
    ) {
        Ok(buf) => buf,
        Err(e) => {
            return Err(e);
        },
    };
    let needed: u64 = superblock.total_blocks as u64 / 8 + (if superblock.total_blocks % 8 != 0 {
        1u64
    } else {
        0u64
    });
    if needed <= buf.len() as u64 {
        buf.truncate(needed as usize);
    }
    Ok(buf)
}

/// Writes the bitmap over the bitmap region; what the region holds beyond
/// the bitmap's bytes is zero.
///
/// Fails, and changes nothing, when the region reaches beyond the store.
pub fn write_bitmap(store: &mut BlockStore, superblock: &SuperblockDisk, bitmap: &[u8]) -> (r:
    Result<(), FsError>)
    ensures
        match r {
            Ok(()) => superblock.free_bitmap_start + superblock.free_bitmap_blocks <= old(
                store,
            )@.len() && final(store)@ == with_chunks(
                old(store)@,
                superblock.free_bitmap_start as int,
                superblock.free_bitmap_blocks as int,
                bitmap@,
            ),
            Err(e) => {
                &&& superblock.free_bitmap_start + superblock.free_bitmap_blocks > old(
                    store,
                )@.len()
                &&& final(store)@ == old(store)@
                &&& e == FsError::RegionOutOfRange {
                    first: superblock.free_bitmap_start as u64,
                    end: (superblock.free_bitmap_start + superblock.free_bitmap_blocks) as u64,
                    blocks: old(store)@.len() as u64,
                }
            },
        },
{
    store.write_chunks(
        superblock.free_bitmap_start,
        superblock.free_bitmap_blocks as u64,
        bitmap,
    )
}

/// A bitmap written to the bitmap region is the bitmap read from it, where
/// it has one bit per block and the region can take it.
pub proof fn lemma_bitmap_after_write(store: Seq<Seq<u8>>, sb: SuperblockDisk, bitmap: Seq<u8>)
    requires
        sb.free_bitmap_start + sb.free_bitmap_blocks <= store.len(),
        bitmap.len() == bitmap_bytes(sb.total_blocks as int),
        bitmap.len() <= sb.free_bitmap_blocks * BLOCK,
    ensures
        stored_bitmap(
            with_chunks(
                store,
                sb.free_bitmap_start as int,
                sb.free_bitmap_blocks as int,
                bitmap,
            ),
            sb,
        ) == bitmap,
{
    lemma_region_after_write(
        store,
        sb.free_bitmap_start as int,
        sb.free_bitmap_blocks as int,
        bitmap,
    );
    let after = with_chunks(
        store,
        sb.free_bitmap_start as int,
        sb.free_bitmap_blocks as int,
        bitmap,
    );
    assert(stored_bitmap(after, sb) =~= bitmap);
}

/// The superblock that the first 116 bytes of `block` hold.
pub open spec fn the_superblock(block: Seq<u8>) -> SuperblockDisk {
    choose|sb: SuperblockDisk| sb.decoded_from(block)
}

/// The inode record that the 112 bytes of `bytes` from `at` on hold.
pub open spec fn the_inode(bytes: Seq<u8>, at: int) -> InodeDisk {
    choose|inode: InodeDisk| inode.decoded_from(bytes, at)
}

/// A superblock that decodes from `block` is the superblock of `block`.
pub proof fn lemma_the_superblock(sb: SuperblockDisk, block: Seq<u8>)
    requires
        sb.decoded_from(block),
    ensures
        the_superblock(block) == sb,
{
    lemma_superblock_decoded_once(sb, the_superblock(block), block);
}

/// An inode record that decodes from a place is the record of that place.
pub proof fn lemma_the_inode(inode: InodeDisk, bytes: Seq<u8>, at: int)
    requires
        inode.decoded_from(bytes, at),
    ensures
        the_inode(bytes, at) == inode,
{
    lemma_inode_decoded_once(inode, the_inode(bytes, at), bytes, at);
}

/// The block indexes from `first` up to `end`, in order; none where `end`
/// is not above `first`.
pub open spec fn block_run(first: int, end: int) -> Seq<u64> {
    if end <= first {
        Seq::empty()
    } else {
        Seq::new((end - first) as nat, |i: int| (first + i) as u64)
    }
}

/// `x`, or `len` where `x` is beyond it.
pub open spec fn within(x: int, len: int) -> int {
    if x < len {
        x
    } else {
        len
    }
}

/// The order in which the blocks of a store of `len` blocks are brought to
/// the medium after a change: the bitmap region, then the superblock, then
/// the data region, then the inode table.  A bitmap that is on the medium
/// before the counters and the records that rest on it is what the checker
/// takes for the truth after an interruption.
pub open spec fn flush_order(sb: SuperblockDisk, len: int) -> Seq<u64> {
    block_run(
        within(sb.free_bitmap_start as int, len),
        within(sb.free_bitmap_start + sb.free_bitmap_blocks, len),
    ) + block_run(0, within(1, len)) + block_run(within(sb.data_blocks_start as int, len), len)
        + block_run(
        within(sb.inode_table_start as int, len),
        within(sb.inode_table_start + sb.inode_table_blocks, len),
    )
}

/// Appends the block indexes from `first` up to `end`.
fn push_run(order: &mut Vec<u64>, first: u64, end: u64)
    ensures
        final(order)@ == old(order)@ + block_run(first as int, end as int),
{
    let mut i: u64 = first;
    assert(order@ =~= old(order)@ + block_run(first as int, first as int));
    while i < end
        invariant
            first <= i,
            i <= end || end <= first,
            end <= first ==> i == first,
            order@ == old(order)@ + block_run(first as int, i as int),
        decreases end - i,
    {
        order.push(i);
        i += 1;
        assert(order@ =~= old(order)@ + block_run(first as int, i as int));
    }
    assert(block_run(first as int, i as int) =~= block_run(first as int, end as int));
}

/// The smaller of `x` and `len`.
fn cap(x: u64, len: u64) -> (r: u64)
    ensures
        r == within(x as int, len as int),
{
    if x < len {
        x
    } else {
        len
    }
}

/// The order in which the blocks of a store of `len` blocks are written to
/// the medium after a change: see `flush_order`.
pub fn write_order(sb: &SuperblockDisk, len: u64) -> (order: Vec<u64>)
    ensures
        order@ == flush_order(*sb, len as int),
{
    let mut order: Vec<u64> = Vec::new();
    let bitmap: u64 = sb.free_bitmap_start as u64;
    let table: u64 = sb.inode_table_start as u64;
    push_run(&mut order, cap(bitmap, len), cap(bitmap + sb.free_bitmap_blocks as u64, len));
    assert(order@ =~= block_run(
        within(sb.free_bitmap_start as int, len as int),
        within(sb.free_bitmap_start + sb.free_bitmap_blocks, len as int),
    ));
    push_run(&mut order, 0, cap(1, len));
    push_run(&mut order, cap(sb.data_blocks_start as u64, len), len);
    push_run(&mut order, cap(table, len), cap(table + sb.inode_table_blocks as u64, len));
    order
}

} // verus!
