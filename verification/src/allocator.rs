//! The free-space allocator: first fit over the bitmap's data region.
//!
//! Allocation persists the bitmap first and the superblock after it.  The
//! bitmap is what counts: the superblock's counter only follows it.
use vstd::prelude::*;
use crate::bitmap::{bit_at, bitmap_set, bitmap_test, byte_with_bit};
use crate::disk::{InodeDisk, SuperblockDisk};
use crate::meta::{load_bitmap, stored_bitmap, write_bitmap, write_superblock};
use crate::store::{
    padded_block, region_read_result, region_readable, with_chunks, BlockStore, FsError,
};

verus! {

/// Whether the allocator takes `block` for used: its bit is set, or the
/// bitmap has no byte for it.
pub open spec fn taken(bitmap: Seq<u8>, block: int) -> bool {
    block / 8 >= bitmap.len() || bit_at(bitmap, block)
}

/// Whether `block` is the first block from `from` up to `to` that is not
/// taken.
pub open spec fn first_free(bitmap: Seq<u8>, from: int, to: int, block: int) -> bool {
    &&& from <= block < to
    &&& !taken(bitmap, block)
    &&& forall|k: int| from <= k < block ==> taken(bitmap, k)
}

/// Whether every block from `from` up to `to` is taken.
pub open spec fn none_free(bitmap: Seq<u8>, from: int, to: int) -> bool {
    forall|k: int| from <= k < to ==> taken(bitmap, k)
}

/// The bitmap with the bit of `block` set to `used`; unchanged where it has
/// no byte for `block`.
pub open spec fn with_bit(bitmap: Seq<u8>, block: int, used: bool) -> Seq<u8> {
    if 0 <= block && block / 8 < bitmap.len() {
        bitmap.update(block / 8, byte_with_bit(bitmap[block / 8], (block % 8) as u8, used))
    } else {
        bitmap
    }
}

/// The superblock with its free-block counter set to `free_blocks`.
pub open spec fn with_free_blocks(sb: SuperblockDisk, free_blocks: u32) -> SuperblockDisk {
    SuperblockDisk { free_blocks, ..sb }
}

/// The free-block counter after one block was taken: one less, but not
/// below zero.
pub open spec fn one_less(free_blocks: u32) -> u32 {
    if free_blocks > 0 {
        (free_blocks - 1) as u32
    } else {
        0
    }
}

/// The free-block counter after one block was given back: one more, but
/// not beyond the largest number.
pub open spec fn one_more(free_blocks: u32) -> u32 {
    if free_blocks < u32::MAX {
        (free_blocks + 1) as u32
    } else {
        u32::MAX
    }
}

/// The first block from `from` up to `to` that is not taken.
pub fn find_free(bitmap: &[u8], from: u32, to: u32) -> (r: Option<u32>)
    ensures
        match r {
            Some(block) => first_free(bitmap@, from as int, to as int, block as int),
            None => none_free(bitmap@, from as int, to as int),
        },
{
    let mut b: u32 = from;
    while b < to
        invariant
            from <= b,
            forall|k: int| from <= k < b ==> taken(bitmap@, k),
        decreases to - b,
    {
        if !bitmap_test(bitmap, b) {
            return Some(b);
        }
        b += 1;
    }
    None
}

/// Takes the first free block of the data region: sets its bit, counts the
/// free-block counter down, writes the bitmap and then the superblock, and
/// gives back the block's index.
///
/// Fails with `NoSpace`, and changes nothing, when no block of the data
/// region is free.  Fails, and changes nothing, when the bitmap cannot be
/// read.
pub fn alloc_block(store: &mut BlockStore, sb: &mut SuperblockDisk) -> (r: Result<u32, FsError>)
    ensures
        match r {
            Ok(block) => {
                let bitmap = stored_bitmap(old(store)@, *old(sb));
                &&& region_readable(
                    old(store)@,
                    old(sb).free_bitmap_start as int,
                    old(sb).free_bitmap_blocks as int,
                )
                &&& first_free(
                    bitmap,
                    old(sb).data_blocks_start as int,
                    old(sb).total_blocks as int,
                    block as int,
                )
                &&& *final(sb) == with_free_blocks(*old(sb), one_less(old(sb).free_blocks))
                &&& final(store)@ == with_chunks(
                    old(store)@,
                    old(sb).free_bitmap_start as int,
                    old(sb).free_bitmap_blocks as int,
                    with_bit(bitmap, block as int, true),
                ).update(0, padded_block(final(sb).to_bytes()))
            },
            Err(FsError::NoSpace) => {
                &&& region_readable(
                    old(store)@,
                    old(sb).free_bitmap_start as int,
                    old(sb).free_bitmap_blocks as int,
                )
                &&& none_free(
                    stored_bitmap(old(store)@, *old(sb)),
                    old(sb).data_blocks_start as int,
                    old(sb).total_blocks as int,
                )
                &&& *final(sb) == *old(sb)
                &&& final(store)@ == old(store)@
            },
            Err(e) => {
                &&& region_read_result(
                    old(store)@,
                    old(sb).free_bitmap_start as int,
                    old(sb).free_bitmap_blocks as int,
                    Err(e),
                )
                &&& *final(sb) == *old(sb)
                &&& final(store)@ == old(store)@
            },
        },
{
    let mut bitmap = match load_bitmap(store, sb) {
        Ok(bitmap) => bitmap,
        Err(e) => {
            return Err(e);
        },
    };
    let block = match find_free(bitmap.as_slice(), sb.data_blocks_start, sb.total_blocks) {
        Some(block) => block,
        None => {
            return Err(FsError::NoSpace);
        },
    };
    bitmap_set(&mut bitmap, block, true);
    if sb.free_blocks > 0 {
        sb.free_blocks -= 1;
    }
    match write_bitmap(store, sb, bitmap.as_slice()) {
        Ok(()) => {},
        Err(e) => {
            return Err(e);
        },
    }
    match write_superblock(store, sb) {
        Ok(()) => {},
        Err(e) => {
            return Err(e);
        },
    }
    Ok(block)
}

/// Gives `block` back: clears its bit, counts the free-block counter up,
/// writes the bitmap and then the superblock.  Tells whether the block was
/// marked used; if it was not, nothing is written.
///
/// Fails, and changes nothing, when `block` is not in the data region, or
/// when the bitmap cannot be read.
pub fn free_block(store: &mut BlockStore, sb: &mut SuperblockDisk, block: u32) -> (r: Result<
    bool,
    FsError,
>)
    ensures
        match r {
            Ok(was_used) => {
                let bitmap = stored_bitmap(old(store)@, *old(sb));
                &&& old(sb).data_blocks_start <= block < old(sb).total_blocks
                &&& region_readable(
                    old(store)@,
                    old(sb).free_bitmap_start as int,
                    old(sb).free_bitmap_blocks as int,
                )
                &&& was_used == bit_at(bitmap, block as int)
                &&& was_used ==> *final(sb) == with_free_blocks(
                    *old(sb),
                    one_more(old(sb).free_blocks),
                ) && final(store)@ == with_chunks(
                    old(store)@,
                    old(sb).free_bitmap_start as int,
                    old(sb).free_bitmap_blocks as int,
                    with_bit(bitmap, block as int, false),
                ).update(0, padded_block(final(sb).to_bytes()))
                &&& !was_used ==> *final(sb) == *old(sb) && final(store)@ == old(store)@
            },
            Err(FsError::BlockOutOfRange { index, blocks }) => {
                &&& !(old(sb).data_blocks_start <= block < old(sb).total_blocks)
                &&& index == block
                &&& blocks == old(sb).total_blocks
                &&& *final(sb) == *old(sb)
                &&& final(store)@ == old(store)@
            },
            Err(e) => {
                &&& old(sb).data_blocks_start <= block < old(sb).total_blocks
                &&& region_read_result(
                    old(store)@,
                    old(sb).free_bitmap_start as int,
                    old(sb).free_bitmap_blocks as int,
                    Err(e),
                )
                &&& *final(sb) == *old(sb)
                &&& final(store)@ == old(store)@
            },
        },
{
    if block < sb.data_blocks_start || block >= sb.total_blocks {
        return Err(
            FsError::BlockOutOfRange { index: block as u64, blocks: sb.total_blocks as u64 },
        );
    }
    let mut bitmap = match load_bitmap(store, sb) {
        Ok(bitmap) => bitmap,
        Err(e) => {
            return Err(e);
        },
    };
    if !crate::bitmap::bit_is_set(bitmap.as_slice(), block) {
        return Ok(false);
    }
    bitmap_set(&mut bitmap, block, false);
    if sb.free_blocks < 0xFFFF_FFFF {
        sb.free_blocks += 1;
    }
    match write_bitmap(store, sb, bitmap.as_slice()) {
        Ok(()) => {},
        Err(e) => {
            return Err(e);
        },
    }
    match write_superblock(store, sb) {
        Ok(()) => {},
        Err(e) => {
            return Err(e);
        },
    }
    Ok(true)
}

} // verus!

verus! {

/// The bitmap after the blocks that the first `k` of the pointers name were
/// given back: the bit of every such block that lies in the data region is
/// cleared.
pub open spec fn released_bitmap(
    bitmap: Seq<u8>,
    sb: SuperblockDisk,
    direct: Seq<u32>,
    k: int,
) -> Seq<u8>
    decreases k,
{
    if k <= 0 {
        bitmap
    } else {
        let before = released_bitmap(bitmap, sb, direct, k - 1);
        let p = direct[k - 1];
        if sb.data_blocks_start <= p < sb.total_blocks {
            with_bit(before, p as int, false)
        } else {
            before
        }
    }
}

/// How many blocks were marked used and are given back when the blocks
/// that the first `k` of the pointers name are released.
pub open spec fn released_count(bitmap: Seq<u8>, sb: SuperblockDisk, direct: Seq<u32>, k: int) -> int
    decreases k,
{
    if k <= 0 {
        0
    } else {
        let before = released_bitmap(bitmap, sb, direct, k - 1);
        let p = direct[k - 1];
        released_count(bitmap, sb, direct, k - 1) + (if sb.data_blocks_start <= p
            < sb.total_blocks && bit_at(before, p as int) {
            1int
        } else {
            0int
        })
    }
}

/// The counter after `n` were given back: `n` more, but not beyond the
/// largest number.
pub open spec fn more_by(counter: u32, n: int) -> u32 {
    if counter + n > u32::MAX {
        u32::MAX
    } else {
        (counter + n) as u32
    }
}

/// The record of a free slot.
pub open spec fn zero_record() -> InodeDisk {
    InodeDisk {
        id: 0,
        file_type: 0,
        perm: 0,
        uid: 0,
        gid: 0,
        size: 0,
        atime: 0,
        mtime: 0,
        ctime: 0,
        nlink: 0,
        direct_blocks: crate::consistency::pointers_from(Seq::empty(), 0),
        indirect_block: 0,
        double_indirect_block: 0,
        _padding: 0,
    }
}

/// The record of a free slot is zeroed.
pub proof fn lemma_zero_record_is_zeroed()
    ensures
        zero_record().is_zeroed(),
{
    assert forall|k: int| 0 <= k < 12 implies zero_record().direct_blocks@[k] == 0 by {
        crate::consistency::lemma_pointers_from(Seq::empty(), 0, k);
    }
}

/// There is one record of a free slot.
pub proof fn lemma_zero_record(rec: InodeDisk)
    requires
        rec.is_zeroed(),
    ensures
        rec == zero_record(),
{
    lemma_zero_record_is_zeroed();
    assert(rec.direct_blocks =~= zero_record().direct_blocks);
}

/// What giving inode `ino` back leaves: the bitmap without the bits of the
/// blocks that its direct pointers name, a zeroed record in its place, and
/// the superblock with both counters counted up.
pub open spec fn inode_freed(store: Seq<Seq<u8>>, sb: SuperblockDisk, ino: u64) -> (
    Seq<Seq<u8>>,
    SuperblockDisk,
) {
    let rec = crate::meta::the_inode(
        crate::meta::inode_table_bytes(store, sb),
        crate::meta::inode_offset(ino as int),
    );
    let bitmap = stored_bitmap(store, sb);
    let sb1 = SuperblockDisk {
        free_blocks: more_by(sb.free_blocks, released_count(bitmap, sb, rec.direct_blocks@, 12)),
        free_inodes: one_more(sb.free_inodes),
        ..sb
    };
    (
        crate::meta::with_inode(
            with_chunks(
                store,
                sb.free_bitmap_start as int,
                sb.free_bitmap_blocks as int,
                released_bitmap(bitmap, sb, rec.direct_blocks@, 12),
            ),
            sb1,
            ino as int,
            zero_record(),
        ).update(0, padded_block(sb1.to_bytes())),
        sb1,
    )
}

/// Gives inode `ino` back: clears the bits of the blocks that its direct
/// pointers name, writes a zeroed record in its place, counts the free
/// blocks and the free inodes up, and writes the bitmap, the record and the
/// superblock.
///
/// Fails, and changes nothing, when the record cannot be reached or the
/// bitmap cannot be read.
pub fn free_inode(store: &mut BlockStore, sb: &mut SuperblockDisk, ino: u64) -> (r: Result<
    (),
    FsError,
>)
    ensures
        match r {
            Ok(()) => {
                &&& crate::meta::inode_slot_ok(old(store)@, *old(sb), ino as int)
                &&& region_readable(
                    old(store)@,
                    old(sb).free_bitmap_start as int,
                    old(sb).free_bitmap_blocks as int,
                )
                &&& final(store)@ == inode_freed(old(store)@, *old(sb), ino).0
                &&& *final(sb) == inode_freed(old(store)@, *old(sb), ino).1
            },
            Err(e) => {
                &&& *final(sb) == *old(sb)
                &&& final(store)@ == old(store)@
                &&& if !crate::meta::inode_slot_ok(old(store)@, *old(sb), ino as int) {
                    crate::meta::inode_load_result(old(store)@, *old(sb), ino, Err(e))
                } else {
                    !region_readable(
                        old(store)@,
                        old(sb).free_bitmap_start as int,
                        old(sb).free_bitmap_blocks as int,
                    ) && region_read_result(
                        old(store)@,
                        old(sb).free_bitmap_start as int,
                        old(sb).free_bitmap_blocks as int,
                        Err(e),
                    )
                }
            },
        },
{
    let rec = match crate::meta::load_inode_disk(store, sb, ino) {
        Ok(rec) => rec,
        Err(e) => {
            return Err(e);
        },
    };
    proof {
        crate::meta::lemma_the_inode(
            rec,
            crate::meta::inode_table_bytes(store@, *sb),
            crate::meta::inode_offset(ino as int),
        );
    }
    let mut bitmap = match load_bitmap(store, sb) {
        Ok(bitmap) => bitmap,
        Err(e) => {
            return Err(e);
        },
    };
    let ghost bitmap0 = bitmap@;
    let mut freed: u32 = 0;
    let mut k: usize = 0;
    while k < 12
        invariant
            k <= 12,
            freed <= k,
            bitmap@ == released_bitmap(bitmap0, *sb, rec.direct_blocks@, k as int),
            freed == released_count(bitmap0, *sb, rec.direct_blocks@, k as int),
        decreases 12 - k,
    {
        let p: u32 = rec.direct_blocks[k];
        if sb.data_blocks_start <= p && p < sb.total_blocks {
            if crate::bitmap::bit_is_set(bitmap.as_slice(), p) {
                freed += 1;
            }
            bitmap_set(&mut bitmap, p, false);
        }
        k += 1;
    }
    match write_bitmap(store, sb, bitmap.as_slice()) {
        Ok(()) => {},
        Err(_) => {
            vstd::pervasive::unreached()
        },
    }
    sb.free_blocks = if sb.free_blocks as u64 + freed as u64 > 0xFFFF_FFFF {
        0xFFFF_FFFF
    } else {
        sb.free_blocks + freed
    };
    if sb.free_inodes < 0xFFFF_FFFF {
        sb.free_inodes += 1;
    }
    proof {
        crate::store::lemma_region_after_write(
            old(store)@,
            sb.free_bitmap_start as int,
            sb.free_bitmap_blocks as int,
            bitmap@,
        );
    }
    let zeroed = crate::disk::InodeDisk::zeroed();
    proof {
        lemma_zero_record(zeroed);
    }
    match crate::meta::write_inode_disk(store, sb, ino, &zeroed) {
        Ok(()) => {},
        Err(_) => {
            vstd::pervasive::unreached()
        },
    }
    match write_superblock(store, sb) {
        Ok(()) => {},
        Err(_) => {
            vstd::pervasive::unreached()
        },
    }
    Ok(())
}

} // verus!
