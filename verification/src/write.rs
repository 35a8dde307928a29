//! Writing file data: which blocks a write takes, and what the store holds
//! after it.
//!
//! A write first plans, without touching the store: every hole among the
//! slots that it touches gets the first block that the bitmap has free, and
//! every block that is there already is checked.  Only a plan that went
//! through is carried out: the bitmap and the superblock are written if a
//! block was taken, then the data blocks, then the inode record.  A write
//! that fails has changed nothing.
use vstd::prelude::*;
use crate::allocator::{find_free, first_free, none_free, taken, with_bit, with_free_blocks};
use crate::bitmap::{bit_at, bitmap_set};
use crate::disk::{InodeDisk, SuperblockDisk};
use crate::mapper::{
    check_pointer, covered, lemma_segment_covers, map_span, pointer_error, reach_end, segment_at,
    segment_count, span_segments, DIRECT_CAPACITY,
};
use crate::meta::{
    inode_load_result, inode_slot_ok, load_bitmap, load_inode_disk, stored_bitmap, with_inode,
    write_bitmap, write_inode_disk, write_superblock,
};
use crate::store::{
    block_data, lemma_region_after_write, padded_block, region_read_result,
    region_readable, with_chunks, BlockStore, FsError, BLOCK,
};

verus! {

/// The first block from `from` up to `to` that is not taken, where there is
/// one.
pub open spec fn the_first_free(bitmap: Seq<u8>, from: int, to: int) -> int {
    choose|b: int| first_free(bitmap, from, to, b)
}

/// There is at most one first free block.
pub proof fn lemma_first_free_is_one(bitmap: Seq<u8>, from: int, to: int, a: int, b: int)
    requires
        first_free(bitmap, from, to, a),
        first_free(bitmap, from, to, b),
    ensures
        a == b,
{
}

/// What a write has planned: the direct pointers and the bitmap as they
/// will be, and how many blocks were taken.
pub struct PlanModel {
    pub direct: Seq<u32>,
    pub bitmap: Seq<u8>,
    pub fresh: int,
}

/// The plan for the first `k` of the slots from `first` on.  A slot that
/// names a block keeps it, if the block can be used.  A slot with a hole
/// takes the first free block of the data region, whose bit is then set.
/// The plan fails at the first slot whose block cannot be used, for which
/// no block is free, or whose new block is block 0 or lies beyond the store.
pub open spec fn plan_slots(
    store: Seq<Seq<u8>>,
    sb: SuperblockDisk,
    direct: Seq<u32>,
    bitmap: Seq<u8>,
    first: int,
    k: int,
) -> Result<PlanModel, FsError>
    decreases k,
{
    if k <= 0 {
        Ok(PlanModel { direct, bitmap, fresh: 0 })
    } else {
        match plan_slots(store, sb, direct, bitmap, first, k - 1) {
            Err(e) => Err(e),
            Ok(p) => {
                let slot = first + k - 1;
                let from = sb.data_blocks_start as int;
                let to = sb.total_blocks as int;
                if p.direct[slot] != 0 {
                    match pointer_error(store, sb, p.direct[slot]) {
                        Some(e) => Err(e),
                        None => Ok(p),
                    }
                } else if none_free(p.bitmap, from, to) {
                    Err(FsError::NoSpace)
                } else {
                    let b = the_first_free(p.bitmap, from, to);
                    if b == 0 || b >= store.len() {
                        Err(
                            FsError::BlockOutOfRange {
                                index: b as u64,
                                blocks: store.len() as u64,
                            },
                        )
                    } else {
                        Ok(
                            PlanModel {
                                direct: p.direct.update(slot, b as u32),
                                bitmap: with_bit(p.bitmap, b, true),
                                fresh: p.fresh + 1,
                            },
                        )
                    }
                }
            },
        }
    }
}

/// What a write has planned.
pub struct WritePlan {
    /// The direct pointers as they will be.
    pub direct: [u32; 12],
    /// The bitmap as it will be.
    pub bitmap: Vec<u8>,
    /// How many blocks were taken.
    pub fresh: u32,
}

impl View for WritePlan {
    type V = PlanModel;

    open spec fn view(&self) -> PlanModel {
        PlanModel { direct: self.direct@, bitmap: self.bitmap@, fresh: self.fresh as int }
    }
}

/// The view of a result that holds a plan.
pub open spec fn plan_result(r: Result<WritePlan, FsError>) -> Result<PlanModel, FsError> {
    match r {
        Ok(p) => Ok(p@),
        Err(e) => Err(e),
    }
}

/// Plans a write that touches `count` slots from `first` on.
pub fn plan_write(
    store: &BlockStore,
    sb: &SuperblockDisk,
    direct: &[u32; 12],
    bitmap: Vec<u8>,
    first: u32,
    count: u32,
) -> (r: Result<WritePlan, FsError>)
    requires
        first + count <= 12,
    ensures
        plan_result(r) == plan_slots(
            store@,
            *sb,
            direct@,
            bitmap@,
            first as int,
            count as int,
        ),
{
    let mut plan = WritePlan { direct: *direct, bitmap, fresh: 0 };
    let ghost bitmap0 = plan.bitmap@;
    let mut k: u32 = 0;
    while k < count
        invariant
            k <= count,
            first + count <= 12,
            plan.fresh <= k,
            bitmap0 == bitmap@,
            Ok::<PlanModel, FsError>(plan@) == plan_slots(
                store@,
                *sb,
                direct@,
                bitmap0,
                first as int,
                k as int,
            ),
        decreases count - k,
    {
        let slot: usize = (first + k) as usize;
        let block: u32 = plan.direct[slot];
        if block != 0 {
            match check_pointer(store, sb, block) {
                Ok(()) => {},
                Err(e) => {
                    proof {
                        assert(plan_slots(
                            store@,
                            *sb,
                            direct@,
                            bitmap0,
                            first as int,
                            k + 1,
                        ) == Err::<PlanModel, FsError>(e));
                        lemma_plan_fails_on(
                            store@,
                            *sb,
                            direct@,
                            bitmap0,
                            first as int,
                            k + 1,
                            count as int,
                        );
                    }
                    return Err(e);
                },
            }
        } else {
            match find_free(plan.bitmap.as_slice(), sb.data_blocks_start, sb.total_blocks) {
                None => {
                    proof {
                        lemma_plan_fails_on(
                            store@,
                            *sb,
                            direct@,
                            bitmap0,
                            first as int,
                            k + 1,
                            count as int,
                        );
                    }
                    return Err(FsError::NoSpace);
                },
                Some(b) => {
                    proof {
                        let from = sb.data_blocks_start as int;
                        let to = sb.total_blocks as int;
                        lemma_first_free_is_one(
                            plan.bitmap@,
                            from,
                            to,
                            b as int,
                            the_first_free(plan.bitmap@, from, to),
                        );
                    }
                    if b == 0 || b as usize >= store.blocks.len() {
                        proof {
                            lemma_plan_fails_on(
                                store@,
                                *sb,
                                direct@,
                                bitmap0,
                                first as int,
                                k + 1,
                                count as int,
                            );
                        }
                        return Err(
                            FsError::BlockOutOfRange {
                                index: b as u64,
                                blocks: store.blocks.len() as u64,
                            },
                        );
                    }
                    bitmap_set(&mut plan.bitmap, b, true);
                    plan.direct[slot] = b;
                    plan.fresh += 1;
                },
            }
        }
        k += 1;
    }
    Ok(plan)
}

/// A plan that has failed stays failed, with the same error.
pub proof fn lemma_plan_fails_on(
    store: Seq<Seq<u8>>,
    sb: SuperblockDisk,
    direct: Seq<u32>,
    bitmap: Seq<u8>,
    first: int,
    k: int,
    n: int,
)
    requires
        k <= n,
        plan_slots(store, sb, direct, bitmap, first, k) is Err,
    ensures
        plan_slots(store, sb, direct, bitmap, first, n) == plan_slots(
            store,
            sb,
            direct,
            bitmap,
            first,
            k,
        ),
    decreases n - k,
{
    if k < n {
        lemma_plan_fails_on(store, sb, direct, bitmap, first, k, n - 1);
    }
}

/// `base` with the bytes from `start` on replaced by `part`.
pub open spec fn overlay(base: Seq<u8>, start: int, part: Seq<u8>) -> Seq<u8> {
    Seq::new(
        BLOCK as nat,
        |i: int|
            if start <= i < start + part.len() {
                part[i - start]
            } else {
                base[i]
            },
    )
}

/// The store after the first `k` runs of a write were carried out.  Each
/// run replaces the block that its slot names: by what the block held,
/// or by zeros where the slot was a hole, with the run's part of `data`
/// laid over it.
pub open spec fn write_runs(
    store: Seq<Seq<u8>>,
    old_direct: Seq<u32>,
    new_direct: Seq<u32>,
    offset: int,
    end: int,
    data: Seq<u8>,
    k: int,
) -> Seq<Seq<u8>>
    decreases k,
{
    if k <= 0 {
        store
    } else {
        let prev = write_runs(store, old_direct, new_direct, offset, end, data, k - 1);
        let seg = segment_at(new_direct, offset, end, k - 1);
        let base = if old_direct[seg.slot as int] == 0 {
            padded_block(Seq::empty())
        } else {
            block_data(prev, seg.block as int)
        };
        let part = data.subrange(
            covered(offset, end, k - 1) - offset,
            covered(offset, end, k) - offset,
        );
        prev.update(seg.block as int, overlay(base, seg.start as int, part))
    }
}

/// Whether every block that is readable in `before` is readable in
/// `after`, and the two have the same number of blocks.
pub open spec fn keeps_readable(before: Seq<Seq<u8>>, after: Seq<Seq<u8>>) -> bool {
    &&& after.len() == before.len()
    &&& forall|j: int| 0 <= j < before.len() && before[j].len() >= BLOCK ==> (#[trigger] after[j]).len() >= BLOCK
}

/// Carries out the runs of a write.
fn write_data_runs(
    store: &mut BlockStore,
    old_direct: &[u32; 12],
    new_direct: &[u32; 12],
    offset: u64,
    data: &[u8],
)
    requires
        offset + data@.len() <= u64::MAX,
        forall|k: int|
            0 <= k < segment_count(offset as int, offset + data@.len()) ==> {
                let seg = #[trigger] segment_at(new_direct@, offset as int, offset + data@.len(), k);
                &&& seg.block < old(store)@.len()
                &&& old_direct@[seg.slot as int] != 0 ==> old(store)@[seg.block as int].len()
                    >= BLOCK
            },
    ensures
        final(store)@ == write_runs(
            old(store)@,
            old_direct@,
            new_direct@,
            offset as int,
            offset + data@.len(),
            data@,
            segment_count(offset as int, offset + data@.len()),
        ),
        keeps_readable(old(store)@, final(store)@),
{
    let end: u64 = offset + data.len() as u64;
    let segments = map_span(new_direct, offset, end);
    let mut k: usize = 0;
    while k < segments.len()
        invariant
            k <= segments@.len(),
            end == offset + data@.len(),
            segments@ == span_segments(new_direct@, offset as int, end as int),
            keeps_readable(old(store)@, store@),
            forall|k: int|
                0 <= k < segment_count(offset as int, end as int) ==> {
                    let seg = #[trigger] segment_at(new_direct@, offset as int, end as int, k);
                    &&& seg.block < old(store)@.len()
                    &&& old_direct@[seg.slot as int] != 0 ==> old(store)@[seg.block as int].len()
                        >= BLOCK
                },
            store@ == write_runs(
                old(store)@,
                old_direct@,
                new_direct@,
                offset as int,
                end as int,
                data@,
                k as int,
            ),
        decreases segments@.len() - k,
    {
        let seg = segments[k];
        proof {
            assert(seg == segment_at(new_direct@, offset as int, end as int, k as int));
            lemma_segment_covers(new_direct@, offset as int, end as int, k as int);
        }
        let ghost prev = store@;
        let mut block: Vec<u8> = if old_direct[seg.slot as usize] == 0 {
            BlockStore::zero_block()
        } else {
            match store.read_fs_block(seg.block) {
                Ok(block) => block,
                Err(_) => {
                    vstd::pervasive::unreached()
                },
            }
        };
        let ghost base = block@;
        let from: u64 = seg.slot as u64 * 1024 + seg.start as u64 - offset;
        let ghost part = data@.subrange(
            covered(offset as int, end as int, k as int) - offset,
            covered(offset as int, end as int, k + 1) - offset,
        );
        let total: usize = data.len();
        let mut i: u32 = seg.start;
        while i < seg.end
            invariant
                seg.start <= i <= seg.end <= 1024,
                block@.len() == 1024,
                base.len() == 1024,
                total == data@.len(),
                from + (seg.end - seg.start) <= data@.len(),
                part == data@.subrange(from as int, from + (seg.end - seg.start)),
                forall|j: int|
                    0 <= j < 1024 ==> #[trigger] block@[j] == (if seg.start <= j < i {
                        part[j - seg.start]
                    } else {
                        base[j]
                    }),
            decreases seg.end - i,
        {
            block[i as usize] = data[(from + (i - seg.start) as u64) as usize];
            i += 1;
        }
        assert(block@ =~= overlay(base, seg.start as int, part));
        match store.write_fs_block(seg.block, block.as_slice()) {
            Ok(()) => {},
            Err(_) => {
                vstd::pervasive::unreached()
            },
        }
        proof {
            assert(padded_block(block@) =~= block@);
        }
        k += 1;
    }
}

/// The store after what a plan took was made known: unchanged where no
/// block was taken; else with the plan's bitmap in the bitmap region and,
/// written after it, the superblock in block 0.
pub open spec fn persist_alloc(store: Seq<Seq<u8>>, sb: SuperblockDisk, plan: PlanModel) -> Seq<
    Seq<u8>,
> {
    if plan.fresh > 0 {
        with_chunks(
            store,
            sb.free_bitmap_start as int,
            sb.free_bitmap_blocks as int,
            plan.bitmap,
        ).update(0, padded_block(sb.to_bytes()))
    } else {
        store
    }
}

/// The free-block counter after `n` blocks were taken: `n` less, but not
/// below zero.
pub open spec fn fewer(free_blocks: u32, n: int) -> u32 {
    if free_blocks >= n {
        (free_blocks - n) as u32
    } else {
        0
    }
}

/// The size of a file after `len` bytes were written at `offset`: the old
/// size, or where the write ends if that is more.
pub open spec fn size_after(size: u64, offset: int, len: int) -> u64 {
    if offset + len > u64::MAX {
        u64::MAX
    } else if offset + len > size {
        (offset + len) as u64
    } else {
        size
    }
}

/// Whether `after` is the inode record `before` after a write at time
/// `now`: with the planned pointers, the new size and fresh modify and
/// change times, and everything else as it was.
pub open spec fn inode_after_write(
    before: InodeDisk,
    after: InodeDisk,
    direct: Seq<u32>,
    offset: int,
    len: int,
    now: u64,
) -> bool {
    &&& after.direct_blocks@ == direct
    &&& after.size == size_after(before.size, offset, len)
    &&& after.mtime == now
    &&& after.ctime == now
    &&& after.id == before.id
    &&& after.file_type == before.file_type
    &&& after.perm == before.perm
    &&& after.uid == before.uid
    &&& after.gid == before.gid
    &&& after.atime == before.atime
    &&& after.nlink == before.nlink
    &&& after.indirect_block == before.indirect_block
    &&& after.double_indirect_block == before.double_indirect_block
    &&& after._padding == before._padding
}

/// What a write that went through has done.
#[verifier::opaque]
pub open spec fn write_done(
    store0: Seq<Seq<u8>>,
    sb0: SuperblockDisk,
    ino: u64,
    inode0: InodeDisk,
    offset: u64,
    data: Seq<u8>,
    now: u64,
    store1: Seq<Seq<u8>>,
    sb1: SuperblockDisk,
    inode1: InodeDisk,
    written: u32,
) -> bool {
    let end = offset + data.len();
    let count = segment_count(offset as int, end);
    &&& end <= u64::MAX
    &&& inode_slot_ok(store0, sb0, ino as int)
    &&& region_readable(store0, sb0.free_bitmap_start as int, sb0.free_bitmap_blocks as int)
    &&& plan_slots(
        store0,
        sb0,
        inode0.direct_blocks@,
        stored_bitmap(store0, sb0),
        offset as int / (BLOCK as int),
        count,
    ) matches Ok(plan)
    &&& sb1 == with_free_blocks(sb0, fewer(sb0.free_blocks, plan.fresh))
    &&& inode_after_write(inode0, inode1, plan.direct, offset as int, data.len() as int, now)
    &&& written == reach_end(offset as int, end) - offset
    &&& store1 == with_inode(
        write_runs(
            persist_alloc(store0, sb1, plan),
            inode0.direct_blocks@,
            plan.direct,
            offset as int,
            end,
            data,
            count,
        ),
        sb1,
        ino as int,
        inode1,
    )
}

/// Why a write fails: in this order, because its end cannot be told in 64
/// bits, because the inode's record cannot be reached, because the bitmap
/// cannot be read, because the plan fails.
pub open spec fn write_refused(
    store0: Seq<Seq<u8>>,
    sb0: SuperblockDisk,
    ino: u64,
    inode0: InodeDisk,
    offset: u64,
    data: Seq<u8>,
    e: FsError,
) -> bool {
    let end = offset + data.len();
    if end > u64::MAX {
        e == FsError::RegionTooSmall { bytes: u64::MAX, capacity: DIRECT_CAPACITY }
    } else if !inode_slot_ok(store0, sb0, ino as int) {
        inode_load_result(store0, sb0, ino, Err(e))
    } else if !region_readable(
        store0,
        sb0.free_bitmap_start as int,
        sb0.free_bitmap_blocks as int,
    ) {
        region_read_result(
            store0,
            sb0.free_bitmap_start as int,
            sb0.free_bitmap_blocks as int,
            Err(e),
        )
    } else {
        plan_slots(
            store0,
            sb0,
            inode0.direct_blocks@,
            stored_bitmap(store0, sb0),
            offset as int / (BLOCK as int),
            segment_count(offset as int, end),
        ) == Err::<PlanModel, FsError>(e)
    }
}

/// Checks that the record of inode `ino` can be reached.
pub fn check_inode_slot(store: &BlockStore, sb: &SuperblockDisk, ino: u64) -> (r: Result<
    (),
    FsError,
>)
    ensures
        match r {
            Ok(()) => inode_slot_ok(store@, *sb, ino as int),
            Err(e) => !inode_slot_ok(store@, *sb, ino as int) && inode_load_result(
                store@,
                *sb,
                ino,
                Err(e),
            ),
        },
{
    match load_inode_disk(store, sb, ino) {
        Ok(_) => Ok(()),
        Err(e) => Err(e),
    }
}

/// Writes `data` at `offset` of the file whose record is inode `ino` and
/// is held in `inode`.  `now` is the time in seconds since the epoch.
///
/// Holes among the blocks that the write touches are filled with blocks
/// taken from the bitmap, first fit.  Bytes beyond what the direct pointers
/// reach are not stored; the number of bytes stored is given back.  The
/// file's size becomes the write's end if that is more than it was, and
/// the modify and change times become `now`.
///
/// A write that fails has changed nothing.
pub fn write_file_data(
    store: &mut BlockStore,
    sb: &mut SuperblockDisk,
    ino: u64,
    inode: &mut InodeDisk,
    offset: u64,
    data: &[u8],
    now: u64,
) -> (r: Result<u32, FsError>)
    ensures
        match r {
            Ok(written) => write_done(
                old(store)@,
                *old(sb),
                ino,
                *old(inode),
                offset,
                data@,
                now,
                final(store)@,
                *final(sb),
                *final(inode),
                written,
            ),
            Err(e) => {
                &&& final(store)@ == old(store)@
                &&& *final(sb) == *old(sb)
                &&& *final(inode) == *old(inode)
                &&& write_refused(old(store)@, *old(sb), ino, *old(inode), offset, data@, e)
            },
        },
        r is Ok ==> offset + data@.len() <= u64::MAX,
        r is Ok ==> keeps_readable(old(store)@, final(store)@),
{
    reveal(write_done);
    let len: usize = data.len();
    if len as u64 > 0xFFFF_FFFF_FFFF_FFFF - offset {
        return Err(
            FsError::RegionTooSmall { bytes: 0xFFFF_FFFF_FFFF_FFFF, capacity: DIRECT_CAPACITY },
        );
    }
    let end: u64 = offset + len as u64;
    match check_inode_slot(store, sb, ino) {
        Ok(()) => {},
        Err(e) => {
            return Err(e);
        },
    }
    let bitmap = match load_bitmap(store, sb) {
        Ok(bitmap) => bitmap,
        Err(e) => {
            return Err(e);
        },
    };
    let segments = map_span(&inode.direct_blocks, offset, end);
    let count: u32 = segments.len() as u32;
    let first: u32 = if count == 0 {
        0
    } else {
        (offset / 1024) as u32
    };
    proof {
        assert(segments@.len() == segment_count(offset as int, end as int));
        if count == 0 {
            lemma_plan_of_nothing(
                store@,
                *sb,
                inode.direct_blocks@,
                bitmap@,
                0,
                offset as int / (BLOCK as int),
            );
        }
    }
    let plan = match plan_write(store, sb, &inode.direct_blocks, bitmap, first, count) {
        Ok(plan) => plan,
        Err(e) => {
            return Err(e);
        },
    };
    proof {
        lemma_plan_keeps(
            store@,
            *sb,
            inode.direct_blocks@,
            stored_bitmap(store@, *sb),
            offset as int / (BLOCK as int),
            count as int,
        );
        assert forall|k: int| 0 <= k < segment_count(offset as int, end as int) implies ({
            let seg = #[trigger] segment_at(plan.direct@, offset as int, end as int, k);
            &&& seg.block < store@.len()
            &&& inode.direct_blocks@[seg.slot as int] != 0 ==> store@[seg.block as int].len()
                >= BLOCK
        }) by {
            lemma_segment_covers(plan.direct@, offset as int, end as int, k);
        }
    }
    let written = commit_write(store, sb, ino, inode, &plan, offset, data, now);
    Ok(written)
}

/// Carries out a plan: makes known what was taken, writes the data blocks,
/// and writes the inode record with the new pointers, size and times.
fn commit_write(
    store: &mut BlockStore,
    sb: &mut SuperblockDisk,
    ino: u64,
    inode: &mut InodeDisk,
    plan: &WritePlan,
    offset: u64,
    data: &[u8],
    now: u64,
) -> (written: u32)
    requires
        offset + data@.len() <= u64::MAX,
        inode_slot_ok(old(store)@, *old(sb), ino as int),
        old(sb).free_bitmap_start + old(sb).free_bitmap_blocks <= old(store)@.len(),
        plan.fresh > 0 ==> old(store)@.len() > 0,
        forall|k: int|
            0 <= k < segment_count(offset as int, offset + data@.len()) ==> {
                let seg = #[trigger] segment_at(plan.direct@, offset as int, offset + data@.len(), k);
                &&& seg.block < old(store)@.len()
                &&& old(inode).direct_blocks@[seg.slot as int] != 0 ==> old(
                    store,
                )@[seg.block as int].len() >= BLOCK
            },
    ensures
        *final(sb) == with_free_blocks(*old(sb), fewer(old(sb).free_blocks, plan.fresh as int)),
        inode_after_write(
            *old(inode),
            *final(inode),
            plan.direct@,
            offset as int,
            data@.len() as int,
            now,
        ),
        written == reach_end(offset as int, offset + data@.len()) - offset,
        keeps_readable(old(store)@, final(store)@),
        final(store)@ == with_inode(
            write_runs(
                persist_alloc(old(store)@, *final(sb), plan@),
                old(inode).direct_blocks@,
                plan.direct@,
                offset as int,
                offset + data@.len(),
                data@,
                segment_count(offset as int, offset + data@.len()),
            ),
            *final(sb),
            ino as int,
            *final(inode),
        ),
{
    let end: u64 = offset + data.len() as u64;
    let ghost store0 = store@;
    if plan.fresh > 0 {
        if sb.free_blocks >= plan.fresh {
            sb.free_blocks -= plan.fresh;
        } else {
            sb.free_blocks = 0;
        }
        match write_bitmap(store, sb, plan.bitmap.as_slice()) {
            Ok(()) => {},
            Err(_) => {
                vstd::pervasive::unreached()
            },
        }
        match write_superblock(store, sb) {
            Ok(()) => {},
            Err(_) => {
                vstd::pervasive::unreached()
            },
        }
    }
    let ghost store1 = store@;
    proof {
        assert(store1 == persist_alloc(store0, *sb, plan@));
        assert(keeps_readable(store0, store1)) by {
            if plan.fresh > 0 {
                lemma_region_after_write(
                    store0,
                    sb.free_bitmap_start as int,
                    sb.free_bitmap_blocks as int,
                    plan.bitmap@,
                );
            }
        }
    }
    let old_direct: [u32; 12] = inode.direct_blocks;
    write_data_runs(store, &old_direct, &plan.direct, offset, data);
    let ghost store2 = store@;
    inode.direct_blocks = plan.direct;
    if end > inode.size {
        inode.size = end;
    }
    inode.mtime = now;
    inode.ctime = now;
    proof {
        assert(keeps_readable(store0, store2));
        assert(inode_slot_ok(store2, *sb, ino as int));
    }
    match write_inode_disk(store, sb, ino, inode) {
        Ok(()) => {},
        Err(_) => {
            vstd::pervasive::unreached()
        },
    }
    proof {
        lemma_region_after_write(
            store2,
            sb.inode_table_start as int,
            sb.inode_table_blocks as int,
            crate::meta::splice(
                crate::meta::inode_table_bytes(store2, *sb),
                crate::meta::inode_offset(ino as int),
                inode.to_bytes(),
            ),
        );
        assert(keeps_readable(store2, store@));
    }
    let written: u64 = if end <= offset || offset >= DIRECT_CAPACITY {
        0
    } else if end > DIRECT_CAPACITY {
        DIRECT_CAPACITY - offset
    } else {
        end - offset
    };
    written as u32
}

/// A plan over no slot plans nothing, wherever it starts.
pub proof fn lemma_plan_of_nothing(
    store: Seq<Seq<u8>>,
    sb: SuperblockDisk,
    direct: Seq<u32>,
    bitmap: Seq<u8>,
    a: int,
    b: int,
)
    ensures
        plan_slots(store, sb, direct, bitmap, a, 0) == plan_slots(store, sb, direct, bitmap, b, 0),
{
}

/// What a plan that went through holds: every slot that it touched names
/// a block inside the store, and a block that was there before is readable;
/// the slots that it did not touch are as they were.
pub proof fn lemma_plan_keeps(
    store: Seq<Seq<u8>>,
    sb: SuperblockDisk,
    direct: Seq<u32>,
    bitmap: Seq<u8>,
    first: int,
    k: int,
)
    requires
        0 <= first,
        0 <= k,
        k > 0 ==> first + k <= direct.len(),
    ensures
        plan_slots(store, sb, direct, bitmap, first, k) matches Ok(plan) ==> {
            &&& plan.direct.len() == direct.len()
            &&& 0 <= plan.fresh <= k
            &&& forall|slot: int|
                first <= slot < first + k ==> {
                    &&& 0 < (#[trigger] plan.direct[slot]) < store.len()
                    &&& direct[slot] != 0 ==> plan.direct[slot] == direct[slot]
                        && store[direct[slot] as int].len() >= BLOCK
                }
            &&& forall|slot: int|
                0 <= slot < direct.len() && !(first <= slot < first + k)
                    ==> #[trigger] plan.direct[slot] == direct[slot]
            &&& plan.fresh > 0 ==> store.len() > 0
        },
    decreases k,
{
    if k > 0 {
        lemma_plan_keeps(store, sb, direct, bitmap, first, k - 1);
        match plan_slots(store, sb, direct, bitmap, first, k - 1) {
            Ok(p) => {
                let slot = first + k - 1;
                let from = sb.data_blocks_start as int;
                let to = sb.total_blocks as int;
                if p.direct[slot] == 0 && !none_free(p.bitmap, from, to) {
                    let w = choose|w: int| from <= w < to && !taken(p.bitmap, w);
                    lemma_some_first_free(p.bitmap, from, to, w);
                    let b = the_first_free(p.bitmap, from, to);
                    assert(first_free(p.bitmap, from, to, b));
                }
            },
            Err(_) => {},
        }
    }
}

/// Where some block is free, there is a first free block.
pub proof fn lemma_some_first_free(bitmap: Seq<u8>, from: int, to: int, w: int)
    requires
        from <= w < to,
        !taken(bitmap, w),
    ensures
        exists|b: int| first_free(bitmap, from, to, b),
    decreases w - from,
{
    if forall|k: int| from <= k < w ==> taken(bitmap, k) {
        assert(first_free(bitmap, from, to, w));
    } else {
        let v = choose|v: int| from <= v < w && !taken(bitmap, v);
        let hi = v + 1;
        lemma_some_first_free(bitmap, from, hi, v);
        let b = choose|b: int| first_free(bitmap, from, hi, b);
        assert(first_free(bitmap, from, to, b));
    }
}

/// The block that the `k`-th run of a write goes to.
pub open spec fn run_block(new_direct: Seq<u32>, offset: int, k: int) -> int {
    new_direct[offset / (BLOCK as int) + k] as int
}

/// What the `k`-th run of a write leaves in its block, where no earlier run
/// has touched the block: what `store` held there, or zeros where the slot
/// was a hole, with the run's part of `data` laid over it.
pub open spec fn run_content(
    store: Seq<Seq<u8>>,
    old_direct: Seq<u32>,
    new_direct: Seq<u32>,
    offset: int,
    end: int,
    data: Seq<u8>,
    k: int,
) -> Seq<u8> {
    let seg = segment_at(new_direct, offset, end, k);
    let base = if old_direct[seg.slot as int] == 0 {
        padded_block(Seq::empty())
    } else {
        block_data(store, seg.block as int)
    };
    overlay(
        base,
        seg.start as int,
        data.subrange(covered(offset, end, k) - offset, covered(offset, end, k + 1) - offset),
    )
}

/// Whether the first `n` runs of a write go to blocks of the store, each to
/// a block of its own.
pub open spec fn runs_apart(len: int, new_direct: Seq<u32>, offset: int, n: int) -> bool {
    &&& forall|k: int| 0 <= k < n ==> 0 <= #[trigger] run_block(new_direct, offset, k) < len
    &&& forall|k1: int, k2: int|
        0 <= k1 < k2 < n ==> #[trigger] run_block(new_direct, offset, k1) != #[trigger] run_block(
            new_direct,
            offset,
            k2,
        )
}

/// Where each run goes to a block of its own, the runs of a write leave in
/// each of these blocks what that run wrote, and every other block as it
/// was.
pub proof fn lemma_write_runs(
    store: Seq<Seq<u8>>,
    old_direct: Seq<u32>,
    new_direct: Seq<u32>,
    offset: int,
    end: int,
    data: Seq<u8>,
    n: int,
)
    requires
        0 <= offset,
        0 <= n <= segment_count(offset, end),
        new_direct.len() == 12,
        runs_apart(store.len() as int, new_direct, offset, n),
    ensures
        ({
            let after = write_runs(store, old_direct, new_direct, offset, end, data, n);
            &&& after.len() == store.len()
            &&& forall|k: int|
                0 <= k < n ==> #[trigger] after[run_block(new_direct, offset, k)] == run_content(
                    store,
                    old_direct,
                    new_direct,
                    offset,
                    end,
                    data,
                    k,
                )
            &&& forall|j: int|
                0 <= j < store.len() && (forall|k: int|
                    0 <= k < n ==> run_block(new_direct, offset, k) != j) ==> #[trigger] after[j]
                    == store[j]
        }),
    decreases n,
{
    if n > 0 {
        lemma_write_runs(store, old_direct, new_direct, offset, end, data, n - 1);
        let prev = write_runs(store, old_direct, new_direct, offset, end, data, n - 1);
        let after = write_runs(store, old_direct, new_direct, offset, end, data, n);
        lemma_segment_covers(new_direct, offset, end, n - 1);
        let seg = segment_at(new_direct, offset, end, n - 1);
        let block = run_block(new_direct, offset, n - 1);
        assert(seg.block as int == block);
        assert(prev[block] == store[block]) by {
            assert forall|k: int| 0 <= k < n - 1 implies run_block(new_direct, offset, k)
                != block by {}
        }
        assert(after[block] == run_content(
            store,
            old_direct,
            new_direct,
            offset,
            end,
            data,
            n - 1,
        ));
        assert forall|k: int| 0 <= k < n implies #[trigger] after[run_block(
            new_direct,
            offset,
            k,
        )] == run_content(store, old_direct, new_direct, offset, end, data, k) by {
            if k < n - 1 {
                assert(run_block(new_direct, offset, k) != block);
                assert(after[run_block(new_direct, offset, k)] == prev[run_block(
                    new_direct,
                    offset,
                    k,
                )]);
            }
        }
        assert forall|j: int|
            0 <= j < store.len() && (forall|k: int|
                0 <= k < n ==> run_block(new_direct, offset, k) != j) implies #[trigger] after[j]
            == store[j] by {
            assert(run_block(new_direct, offset, n - 1) != j);
            assert(forall|k: int| 0 <= k < n - 1 ==> run_block(new_direct, offset, k) != j);
            assert(after[j] == prev[j]);
        }
    }
}

/// Whether slot `s` is one of the `k` slots from `first` on, was a hole,
/// and has got block `b`.
pub open spec fn filled(direct: Seq<u32>, planned: Seq<u32>, first: int, k: int, s: int, b: int) -> bool {
    first <= s < first + k && direct[s] == 0 && planned[s] == b
}

/// Whether one of the `k` slots from `first` on was a hole and has got
/// block `b`.
pub open spec fn newly_taken(direct: Seq<u32>, planned: Seq<u32>, first: int, k: int, b: int) -> bool {
    exists|s: int| #[trigger] filled(direct, planned, first, k, s, b)
}

/// What a plan that went through has taken.  Each hole among the slots has
/// got a block of the data region that was free and that no other hole has
/// got; in the planned bitmap exactly these blocks are marked in addition.
/// A slot that named a block names it still, and the block can be used.
/// A plan that has taken nothing has changed nothing.
pub open spec fn plan_facts(
    store: Seq<Seq<u8>>,
    sb: SuperblockDisk,
    direct: Seq<u32>,
    bitmap: Seq<u8>,
    first: int,
    k: int,
    plan: PlanModel,
) -> bool {
    &&& plan.bitmap.len() == bitmap.len()
    &&& plan.direct.len() == direct.len()
    &&& plan.fresh >= 0
    &&& plan.fresh == 0 ==> plan.bitmap == bitmap && plan.direct == direct
    &&& forall|b: int|
        #[trigger] bit_at(plan.bitmap, b) <==> (bit_at(bitmap, b) || newly_taken(
            direct,
            plan.direct,
            first,
            k,
            b,
        ))
    &&& forall|s: int, b: int|
        #[trigger] filled(direct, plan.direct, first, k, s, b) ==> {
            &&& sb.data_blocks_start <= b < sb.total_blocks
            &&& 0 < b < store.len()
            &&& !bit_at(bitmap, b)
        }
    &&& forall|s1: int, s2: int, b: int|
        #[trigger] filled(direct, plan.direct, first, k, s1, b) && #[trigger] filled(
            direct,
            plan.direct,
            first,
            k,
            s2,
            b,
        ) ==> s1 == s2
    &&& forall|s: int|
        first <= s < first + k && direct[s] != 0 ==> {
            &&& #[trigger] plan.direct[s] == direct[s]
            &&& pointer_error(store, sb, direct[s]) is None
        }
    &&& forall|s: int|
        0 <= s < direct.len() && !(first <= s < first + k) ==> #[trigger] plan.direct[s]
            == direct[s]
}

/// A plan that went through has taken what `plan_facts` says.
pub proof fn lemma_plan_takes(
    store: Seq<Seq<u8>>,
    sb: SuperblockDisk,
    direct: Seq<u32>,
    bitmap: Seq<u8>,
    first: int,
    k: int,
)
    requires
        0 <= first,
        0 <= k,
        first + k <= direct.len(),
    ensures
        plan_slots(store, sb, direct, bitmap, first, k) matches Ok(plan) ==> plan_facts(
            store,
            sb,
            direct,
            bitmap,
            first,
            k,
            plan,
        ),
    decreases k,
{
    if k > 0 {
        lemma_plan_takes(store, sb, direct, bitmap, first, k - 1);
        if let Ok(p) = plan_slots(store, sb, direct, bitmap, first, k - 1) {
            if let Ok(plan) = plan_slots(store, sb, direct, bitmap, first, k) {
                assert(plan_facts(store, sb, direct, bitmap, first, k - 1, p));
                if direct[first + k - 1] != 0 {
                    lemma_plan_step_kept(store, sb, direct, bitmap, first, k, p, plan);
                } else {
                    lemma_plan_step_taken(store, sb, direct, bitmap, first, k, p, plan);
                }
            }
        }
    } else {
        if let Ok(plan) = plan_slots(store, sb, direct, bitmap, first, k) {
            assert forall|b: int| !newly_taken(direct, plan.direct, first, k, b) by {
                if newly_taken(direct, plan.direct, first, k, b) {
                    let s = choose|s: int| #[trigger] filled(direct, plan.direct, first, k, s, b);
                }
            }
        }
    }
}

/// The step of `lemma_plan_takes` for a slot that names a block.
proof fn lemma_plan_step_kept(
    store: Seq<Seq<u8>>,
    sb: SuperblockDisk,
    direct: Seq<u32>,
    bitmap: Seq<u8>,
    first: int,
    k: int,
    p: PlanModel,
    plan: PlanModel,
)
    requires
        0 <= first,
        0 < k,
        first + k <= direct.len(),
        plan_slots(store, sb, direct, bitmap, first, k - 1) == Ok::<PlanModel, FsError>(p),
        plan_slots(store, sb, direct, bitmap, first, k) == Ok::<PlanModel, FsError>(plan),
        plan_facts(store, sb, direct, bitmap, first, k - 1, p),
        direct[first + k - 1] != 0,
    ensures
        plan_facts(store, sb, direct, bitmap, first, k, plan),
{
    let slot = first + k - 1;
    assert(p.direct[slot] == direct[slot]);
    assert(plan == p);
    assert forall|s: int, b: int|
        filled(direct, plan.direct, first, k, s, b) <==> filled(
            direct,
            p.direct,
            first,
            k - 1,
            s,
            b,
        ) by {}
    assert forall|b: int|
        newly_taken(direct, plan.direct, first, k, b) <==> newly_taken(
            direct,
            p.direct,
            first,
            k - 1,
            b,
        ) by {
        if newly_taken(direct, plan.direct, first, k, b) {
            let s = choose|s: int| #[trigger] filled(direct, plan.direct, first, k, s, b);
            assert(filled(direct, p.direct, first, k - 1, s, b));
        }
        if newly_taken(direct, p.direct, first, k - 1, b) {
            let s = choose|s: int| #[trigger] filled(direct, p.direct, first, k - 1, s, b);
            assert(filled(direct, plan.direct, first, k, s, b));
        }
    }
    assert forall|b: int|
        #[trigger] bit_at(plan.bitmap, b) <==> (bit_at(bitmap, b) || newly_taken(
            direct,
            plan.direct,
            first,
            k,
            b,
        )) by {
        assert(bit_at(p.bitmap, b) <==> (bit_at(bitmap, b) || newly_taken(
            direct,
            p.direct,
            first,
            k - 1,
            b,
        )));
    }
    assert forall|s: int, b: int|
        #[trigger] filled(direct, plan.direct, first, k, s, b) implies {
        &&& sb.data_blocks_start <= b < sb.total_blocks
        &&& 0 < b < store.len()
        &&& !bit_at(bitmap, b)
    } by {
        assert(filled(direct, p.direct, first, k - 1, s, b));
    }
    assert forall|s1: int, s2: int, b: int|
        #[trigger] filled(direct, plan.direct, first, k, s1, b) && #[trigger] filled(
            direct,
            plan.direct,
            first,
            k,
            s2,
            b,
        ) implies s1 == s2 by {
        assert(filled(direct, p.direct, first, k - 1, s1, b));
        assert(filled(direct, p.direct, first, k - 1, s2, b));
    }
    assert forall|s: int| first <= s < first + k && direct[s] != 0 implies {
        &&& #[trigger] plan.direct[s] == direct[s]
        &&& pointer_error(store, sb, direct[s]) is None
    } by {
        if s < slot {
            assert(p.direct[s] == direct[s]);
        }
    }
    assert forall|s: int|
        0 <= s < direct.len() && !(first <= s < first + k) implies #[trigger] plan.direct[s]
        == direct[s] by {
        assert(p.direct[s] == direct[s]);
    }
}

/// The step of `lemma_plan_takes` for a slot that was a hole.
proof fn lemma_plan_step_taken(
    store: Seq<Seq<u8>>,
    sb: SuperblockDisk,
    direct: Seq<u32>,
    bitmap: Seq<u8>,
    first: int,
    k: int,
    p: PlanModel,
    plan: PlanModel,
)
    requires
        0 <= first,
        0 < k,
        first + k <= direct.len(),
        plan_slots(store, sb, direct, bitmap, first, k - 1) == Ok::<PlanModel, FsError>(p),
        plan_slots(store, sb, direct, bitmap, first, k) == Ok::<PlanModel, FsError>(plan),
        plan_facts(store, sb, direct, bitmap, first, k - 1, p),
        direct[first + k - 1] == 0,
    ensures
        plan_facts(store, sb, direct, bitmap, first, k, plan),
{
    let slot = first + k - 1;
    let from = sb.data_blocks_start as int;
    let to = sb.total_blocks as int;
    assert(p.direct[slot] == direct[slot]);
    let w = choose|w: int| from <= w < to && !taken(p.bitmap, w);
    lemma_some_first_free(p.bitmap, from, to, w);
    let nb = the_first_free(p.bitmap, from, to);
    assert(first_free(p.bitmap, from, to, nb));
    assert(plan.direct == p.direct.update(slot, nb as u32));
    assert(plan.bitmap == with_bit(p.bitmap, nb, true));
    assert(plan.fresh == p.fresh + 1);
    assert(!bit_at(p.bitmap, nb));
    assert(bit_at(p.bitmap, nb) <==> (bit_at(bitmap, nb) || newly_taken(
        direct,
        p.direct,
        first,
        k - 1,
        nb,
    )));
    assert(!newly_taken(direct, p.direct, first, k - 1, nb));
    assert forall|s: int, b: int|
        filled(direct, plan.direct, first, k, s, b) <==> (filled(
            direct,
            p.direct,
            first,
            k - 1,
            s,
            b,
        ) || (s == slot && b == nb)) by {}
    assert forall|b: int|
        newly_taken(direct, plan.direct, first, k, b) <==> (newly_taken(
            direct,
            p.direct,
            first,
            k - 1,
            b,
        ) || b == nb) by {
        if newly_taken(direct, plan.direct, first, k, b) {
            let s = choose|s: int| #[trigger] filled(direct, plan.direct, first, k, s, b);
            if !(s == slot && b == nb) {
                assert(filled(direct, p.direct, first, k - 1, s, b));
            }
        }
        if newly_taken(direct, p.direct, first, k - 1, b) {
            let s = choose|s: int| #[trigger] filled(direct, p.direct, first, k - 1, s, b);
            assert(filled(direct, plan.direct, first, k, s, b));
        }
        if b == nb {
            assert(filled(direct, plan.direct, first, k, slot, nb));
        }
    }
    assert forall|b: int|
        #[trigger] bit_at(plan.bitmap, b) <==> (bit_at(bitmap, b) || newly_taken(
            direct,
            plan.direct,
            first,
            k,
            b,
        )) by {
        crate::bitmap::lemma_bitmap_with_bit(p.bitmap, nb, true, b);
        assert(bit_at(p.bitmap, b) <==> (bit_at(bitmap, b) || newly_taken(
            direct,
            p.direct,
            first,
            k - 1,
            b,
        )));
    }
    assert forall|s: int, b: int|
        #[trigger] filled(direct, plan.direct, first, k, s, b) implies {
        &&& sb.data_blocks_start <= b < sb.total_blocks
        &&& 0 < b < store.len()
        &&& !bit_at(bitmap, b)
    } by {
        if !(s == slot && b == nb) {
            assert(filled(direct, p.direct, first, k - 1, s, b));
        }
    }
    assert forall|s1: int, s2: int, b: int|
        #[trigger] filled(direct, plan.direct, first, k, s1, b) && #[trigger] filled(
            direct,
            plan.direct,
            first,
            k,
            s2,
            b,
        ) implies s1 == s2 by {
        if b == nb {
            if s1 != slot {
                assert(filled(direct, p.direct, first, k - 1, s1, b));
                assert(newly_taken(direct, p.direct, first, k - 1, nb));
            }
            if s2 != slot {
                assert(filled(direct, p.direct, first, k - 1, s2, b));
                assert(newly_taken(direct, p.direct, first, k - 1, nb));
            }
        } else {
            assert(filled(direct, p.direct, first, k - 1, s1, b));
            assert(filled(direct, p.direct, first, k - 1, s2, b));
        }
    }
    assert forall|s: int| first <= s < first + k && direct[s] != 0 implies {
        &&& #[trigger] plan.direct[s] == direct[s]
        &&& pointer_error(store, sb, direct[s]) is None
    } by {
        assert(p.direct[s] == direct[s]);
    }
    assert forall|s: int|
        0 <= s < direct.len() && !(first <= s < first + k) implies #[trigger] plan.direct[s]
        == direct[s] by {
        assert(p.direct[s] == direct[s]);
    }
}

/// What a write leaves: the store, the superblock and the inode record,
/// and the number of bytes stored.
pub struct WriteOutcome {
    pub store: Seq<Seq<u8>>,
    pub sb: SuperblockDisk,
    pub inode: InodeDisk,
    pub written: u32,
}

/// What a write that goes through leaves, as a function of what it found.
pub open spec fn write_outcome(
    store0: Seq<Seq<u8>>,
    sb0: SuperblockDisk,
    ino: u64,
    inode0: InodeDisk,
    offset: u64,
    data: Seq<u8>,
    now: u64,
) -> WriteOutcome {
    let end = offset + data.len();
    let count = segment_count(offset as int, end);
    let plan = plan_slots(
        store0,
        sb0,
        inode0.direct_blocks@,
        stored_bitmap(store0, sb0),
        offset as int / (BLOCK as int),
        count,
    )->Ok_0;
    let sb = with_free_blocks(sb0, fewer(sb0.free_blocks, plan.fresh));
    let inode = InodeDisk {
        direct_blocks: crate::consistency::pointers_from(plan.direct, 12),
        size: size_after(inode0.size, offset as int, data.len() as int),
        mtime: now,
        ctime: now,
        ..inode0
    };
    WriteOutcome {
        store: with_inode(
            write_runs(
                persist_alloc(store0, sb, plan),
                inode0.direct_blocks@,
                plan.direct,
                offset as int,
                end,
                data,
                count,
            ),
            sb,
            ino as int,
            inode,
        ),
        sb,
        inode,
        written: (reach_end(offset as int, end) - offset) as u32,
    }
}

/// Whether a write goes through: its end can be told in 64 bits, the
/// inode's record can be reached, the bitmap can be read, and the plan
/// goes through.
pub open spec fn write_goes_through(
    store0: Seq<Seq<u8>>,
    sb0: SuperblockDisk,
    ino: u64,
    inode0: InodeDisk,
    offset: u64,
    data: Seq<u8>,
) -> bool {
    &&& offset + data.len() <= u64::MAX
    &&& inode_slot_ok(store0, sb0, ino as int)
    &&& region_readable(store0, sb0.free_bitmap_start as int, sb0.free_bitmap_blocks as int)
    &&& plan_slots(
        store0,
        sb0,
        inode0.direct_blocks@,
        stored_bitmap(store0, sb0),
        offset as int / (BLOCK as int),
        segment_count(offset as int, offset + data.len()),
    ) is Ok
}

/// A write that went through has left what `write_outcome` tells.
pub proof fn lemma_write_outcome(
    store0: Seq<Seq<u8>>,
    sb0: SuperblockDisk,
    ino: u64,
    inode0: InodeDisk,
    offset: u64,
    data: Seq<u8>,
    now: u64,
    store1: Seq<Seq<u8>>,
    sb1: SuperblockDisk,
    inode1: InodeDisk,
    written: u32,
)
    requires
        write_done(store0, sb0, ino, inode0, offset, data, now, store1, sb1, inode1, written),
    ensures
        write_goes_through(store0, sb0, ino, inode0, offset, data),
        write_outcome(store0, sb0, ino, inode0, offset, data, now) == (WriteOutcome {
            store: store1,
            sb: sb1,
            inode: inode1,
            written,
        }),
{
    reveal(write_done);
    let out = write_outcome(store0, sb0, ino, inode0, offset, data, now);
    let end = offset + data.len();
    let count = segment_count(offset as int, end);
    let first = offset as int / (BLOCK as int);
    let plan = plan_slots(
        store0,
        sb0,
        inode0.direct_blocks@,
        stored_bitmap(store0, sb0),
        first,
        count,
    )->Ok_0;
    if count > 0 {
        lemma_segment_covers(inode0.direct_blocks@, offset as int, end, count - 1);
    }
    lemma_plan_keeps(store0, sb0, inode0.direct_blocks@, stored_bitmap(store0, sb0), first, count);
    assert(plan.direct.len() == 12);
    assert(out.inode.direct_blocks =~= inode1.direct_blocks) by {
        assert forall|i: int| 0 <= i < 12 implies out.inode.direct_blocks[i]
            == inode1.direct_blocks[i] by {
            crate::consistency::lemma_pointers_from(plan.direct, 12, i);
        }
    }
    assert(out.inode == inode1);
}

/// A write that goes through does what `write_outcome` tells.
pub proof fn lemma_write_goes_through(
    store0: Seq<Seq<u8>>,
    sb0: SuperblockDisk,
    ino: u64,
    inode0: InodeDisk,
    offset: u64,
    data: Seq<u8>,
    now: u64,
)
    requires
        write_goes_through(store0, sb0, ino, inode0, offset, data),
    ensures
        ({
            let out = write_outcome(store0, sb0, ino, inode0, offset, data, now);
            write_done(
                store0,
                sb0,
                ino,
                inode0,
                offset,
                data,
                now,
                out.store,
                out.sb,
                out.inode,
                out.written,
            )
        }),
{
    reveal(write_done);
    let out = write_outcome(store0, sb0, ino, inode0, offset, data, now);
    let end = offset + data.len();
    let count = segment_count(offset as int, end);
    let first = offset as int / (BLOCK as int);
    let plan = plan_slots(
        store0,
        sb0,
        inode0.direct_blocks@,
        stored_bitmap(store0, sb0),
        first,
        count,
    )->Ok_0;
    if count > 0 {
        lemma_segment_covers(inode0.direct_blocks@, offset as int, end, count - 1);
    }
    lemma_plan_keeps(store0, sb0, inode0.direct_blocks@, stored_bitmap(store0, sb0), first, count);
    assert(plan.direct.len() == 12);
    assert(out.inode.direct_blocks@ =~= plan.direct) by {
        assert forall|i: int| 0 <= i < 12 implies out.inode.direct_blocks[i] == plan.direct[i] by {
            crate::consistency::lemma_pointers_from(plan.direct, 12, i);
        }
    }
    assert(0 <= reach_end(offset as int, end) - offset <= u32::MAX);
}

} // verus!
