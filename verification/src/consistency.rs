//! What holds of a filesystem that this library has made and written.
//!
//! A filesystem is consistent when its regions lie in order inside the
//! store, every direct pointer of every inode record is zero or names a
//! block of the data region, no two pointers name the same block, and the
//! bitmap marks exactly the blocks before the data region and those that a
//! pointer names.  The formatter makes a consistent filesystem, and writing
//! to a file keeps it consistent.
use vstd::prelude::*;
use crate::bytes::{
    le_u16, le_u32, le_u64, lemma_u16_bytes_of_read, lemma_u32_bytes_of_read,
    lemma_u64_bytes_of_read,
};
use crate::disk::{lemma_inode_layout, InodeDisk, SuperblockDisk, INODE_DISK_SIZE};
use crate::allocator::released_bitmap;
use crate::bitmap::{bit_at, lemma_bitmap_with_bit};
use crate::layout::{
    bitmap_bytes, fresh_bitmap, fresh_root_inode, lemma_valid_layout_is_ordered, FsLayout,
};
use crate::meta::{
    inode_offset, inode_slot_ok, inode_table_bytes, lemma_the_inode, splice, stored_bitmap,
    the_inode, with_inode,
};
use crate::mkfs::{
    freshly_formatted, lemma_inode_decodes_from_same, lemma_le_u16_same, lemma_le_u32_same,
    lemma_le_u64_same, same_bytes,
};
use crate::mapper::{
    covered, file_byte, file_bytes, lemma_segment_covers, reach_end, segment_at, segment_count,
    DIRECT_CAPACITY,
};
use crate::meta::lemma_bitmap_after_write;
use crate::mount::record_of;
use crate::write::{
    filled, lemma_plan_takes, lemma_write_runs, newly_taken, persist_alloc, plan_facts, plan_slots,
    run_block, run_content, runs_apart, write_done, write_runs, PlanModel,
};
use crate::store::{
    lemma_region_after_write, padded_block, readable, region_bytes, region_readable, with_chunks, BLOCK,
};

verus! {

/// The array of twelve numbers whose first `n` are those of `s`, and whose
/// others are zero.
pub open spec fn pointers_from(s: Seq<u32>, n: int) -> [u32; 12]
    decreases n,
{
    if n <= 0 {
        vstd::array::spec_array_fill_for_copy_type::<u32, 12>(0u32)
    } else {
        vstd::array::spec_array_update(pointers_from(s, n - 1), n - 1, s[n - 1])
    }
}

/// The array of twelve numbers holds what it was made from.
pub proof fn lemma_pointers_from(s: Seq<u32>, n: int, i: int)
    requires
        0 <= n <= 12,
        0 <= i < 12,
    ensures
        pointers_from(s, n)@[i] == (if i < n {
            s[i]
        } else {
            0u32
        }),
    decreases n,
{
    broadcast use vstd::array::group_array_axioms;

    if n > 0 {
        lemma_pointers_from(s, n - 1, i);
    }
}

/// The inode record that the 112 bytes of `bytes` from `at` on hold, field
/// by field.
pub open spec fn inode_at(bytes: Seq<u8>, at: int) -> InodeDisk {
    InodeDisk {
        id: le_u32(bytes, at) as u32,
        file_type: le_u16(bytes, at + 4) as u16,
        perm: le_u16(bytes, at + 6) as u16,
        uid: le_u32(bytes, at + 8) as u32,
        gid: le_u32(bytes, at + 12) as u32,
        size: le_u64(bytes, at + 16) as u64,
        atime: le_u64(bytes, at + 24) as u64,
        mtime: le_u64(bytes, at + 32) as u64,
        ctime: le_u64(bytes, at + 40) as u64,
        nlink: le_u32(bytes, at + 48) as u32,
        direct_blocks: pointers_from(
            Seq::new(12, |k: int| le_u32(bytes, at + 52 + 4 * k) as u32),
            12,
        ),
        indirect_block: le_u32(bytes, at + 100) as u32,
        double_indirect_block: le_u32(bytes, at + 104) as u32,
        _padding: le_u32(bytes, at + 108) as u32,
    }
}

/// Every 112 bytes hold an inode record, and one only.
pub proof fn lemma_inode_at(bytes: Seq<u8>, at: int)
    requires
        0 <= at,
        at + INODE_DISK_SIZE <= bytes.len(),
    ensures
        inode_at(bytes, at).decoded_from(bytes, at),
        the_inode(bytes, at) == inode_at(bytes, at),
{
    let x = inode_at(bytes, at);
    lemma_u32_bytes_of_read(bytes, at);
    lemma_u16_bytes_of_read(bytes, at + 4);
    lemma_u16_bytes_of_read(bytes, at + 6);
    lemma_u32_bytes_of_read(bytes, at + 8);
    lemma_u32_bytes_of_read(bytes, at + 12);
    lemma_u64_bytes_of_read(bytes, at + 16);
    lemma_u64_bytes_of_read(bytes, at + 24);
    lemma_u64_bytes_of_read(bytes, at + 32);
    lemma_u64_bytes_of_read(bytes, at + 40);
    lemma_u32_bytes_of_read(bytes, at + 48);
    lemma_u32_bytes_of_read(bytes, at + 100);
    lemma_u32_bytes_of_read(bytes, at + 104);
    lemma_u32_bytes_of_read(bytes, at + 108);
    let s = Seq::new(12, |k: int| le_u32(bytes, at + 52 + 4 * k) as u32);
    assert forall|k: int| 0 <= k < 12 implies x.direct_blocks@[k] == le_u32(
        bytes,
        at + 52 + 4 * k,
    ) by {
        lemma_pointers_from(s, 12, k);
        lemma_u32_bytes_of_read(bytes, at + 52 + 4 * k);
    }
    lemma_the_inode(x, bytes, at);
}

/// Whether the regions lie in order inside the store, the inode table has
/// room for every inode and the bitmap region for one bit per block, and
/// every block before the data region is readable.
pub open spec fn regions_ok(store: Seq<Seq<u8>>, sb: SuperblockDisk) -> bool {
    &&& 1 <= sb.inode_table_start
    &&& sb.inode_table_start + sb.inode_table_blocks <= sb.free_bitmap_start
    &&& sb.free_bitmap_start + sb.free_bitmap_blocks <= sb.data_blocks_start
    &&& sb.data_blocks_start <= sb.total_blocks <= store.len()
    &&& sb.max_inodes * INODE_DISK_SIZE <= sb.inode_table_blocks * BLOCK
    &&& bitmap_bytes(sb.total_blocks as int) <= sb.free_bitmap_blocks * BLOCK
    &&& forall|j: int| 0 <= j < sb.data_blocks_start ==> (#[trigger] store[j]).len() >= BLOCK
}

/// The `k`-th direct pointer of inode `ino`.
pub open spec fn pointer(store: Seq<Seq<u8>>, sb: SuperblockDisk, ino: int, k: int) -> u32 {
    record_of(store, sb, ino).direct_blocks@[k]
}

/// Whether `ino` is an inode id and `k` the index of a direct pointer.
pub open spec fn is_slot(sb: SuperblockDisk, ino: int, k: int) -> bool {
    1 <= ino <= sb.max_inodes && 0 <= k < 12
}

/// Whether some direct pointer of some inode names block `b`.
pub open spec fn names_block(store: Seq<Seq<u8>>, sb: SuperblockDisk, b: int) -> bool {
    exists|ino: int, k: int| is_slot(sb, ino, k) && b != 0 && #[trigger] pointer(store, sb, ino, k) == b
}

/// Whether every direct pointer is zero or names a block of the data region.
pub open spec fn pointers_in_range(store: Seq<Seq<u8>>, sb: SuperblockDisk) -> bool {
    forall|ino: int, k: int|
        is_slot(sb, ino, k) ==> {
            let p = #[trigger] pointer(store, sb, ino, k);
            p == 0 || sb.data_blocks_start <= p < sb.total_blocks
        }
}

/// Whether no block is named by two direct pointers, be they of one inode
/// or of two.
pub open spec fn pointers_unique(store: Seq<Seq<u8>>, sb: SuperblockDisk) -> bool {
    forall|i1: int, k1: int, i2: int, k2: int|
        is_slot(sb, i1, k1) && is_slot(sb, i2, k2) && (i1 != i2 || k1 != k2) && pointer(
            store,
            sb,
            i1,
            k1,
        ) != 0 ==> #[trigger] pointer(store, sb, i1, k1) != #[trigger] pointer(store, sb, i2, k2)
}

/// Whether the bitmap marks a block as used exactly when the block lies
/// before the data region or a direct pointer names it.
pub open spec fn bitmap_agrees(store: Seq<Seq<u8>>, sb: SuperblockDisk) -> bool {
    forall|b: int|
        0 <= b < sb.total_blocks ==> (#[trigger] bit_at(stored_bitmap(store, sb), b) <==> (b
            < sb.data_blocks_start || names_block(store, sb, b)))
}

/// Whether the filesystem is consistent.
pub open spec fn consistent(store: Seq<Seq<u8>>, sb: SuperblockDisk) -> bool {
    &&& regions_ok(store, sb)
    &&& pointers_in_range(store, sb)
    &&& pointers_unique(store, sb)
    &&& bitmap_agrees(store, sb)
}

/// A freshly formatted filesystem is consistent: no pointer names a block,
/// and the bitmap marks exactly the blocks before the data region.
pub proof fn lemma_fresh_is_consistent(
    store: Seq<Seq<u8>>,
    l: FsLayout,
    sb: SuperblockDisk,
    now: u64,
)
    requires
        l.valid(),
        freshly_formatted(store, l, sb, now),
    ensures
        consistent(store, sb),
        forall|b: int| !names_block(store, sb, b),
{
    lemma_valid_layout_is_ordered(l);
    assert forall|ino: int, k: int| is_slot(sb, ino, k) implies #[trigger] pointer(
        store,
        sb,
        ino,
        k,
    ) == 0 by {
        let rec = the_inode(inode_table_bytes(store, sb), inode_offset(ino));
        if ino == 1 {
            assert(fresh_root_inode(now, rec));
        } else {
            assert(rec.is_zeroed());
        }
    }
    assert forall|b: int| !names_block(store, sb, b) by {
        if names_block(store, sb, b) {
            let (ino, k) = choose|ino: int, k: int|
                is_slot(sb, ino, k) && b != 0 && #[trigger] pointer(store, sb, ino, k) == b;
            assert(pointer(store, sb, ino, k) == 0);
        }
    }
    assert(regions_ok(store, sb)) by {
        assert forall|j: int| 0 <= j < sb.data_blocks_start implies (#[trigger] store[j]).len()
            >= BLOCK by {
            if j == 0 {
                assert(store[0].len() == BLOCK);
            }
        }
    }
    assert(bitmap_agrees(store, sb)) by {
        let bitmap = stored_bitmap(store, sb);
        assert(fresh_bitmap(l, bitmap));
        assert forall|b: int| 0 <= b < sb.total_blocks implies (#[trigger] bit_at(bitmap, b) <==> (
        b < sb.data_blocks_start || names_block(store, sb, b))) by {
            assert(b < 8 * bitmap.len());
        }
    }
}

/// Equal bytes hold equal inode records.
pub proof fn lemma_inode_at_same(a: Seq<u8>, b: Seq<u8>, at: int)
    requires
        forall|i: int| 0 <= i < INODE_DISK_SIZE ==> #[trigger] a[at + i] == b[at + i],
    ensures
        inode_at(a, at) == inode_at(b, at),
{
    let n = INODE_DISK_SIZE as int;
    let t = Seq::new(112, |i: int| a[at + i]);
    assert(same_bytes(a, at, t, n));
    assert(same_bytes(b, at, t, n));
    lemma_le_u32_same(a, at, t, n, 0);
    lemma_le_u32_same(b, at, t, n, 0);
    lemma_le_u16_same(a, at, t, n, 4);
    lemma_le_u16_same(b, at, t, n, 4);
    lemma_le_u16_same(a, at, t, n, 6);
    lemma_le_u16_same(b, at, t, n, 6);
    lemma_le_u32_same(a, at, t, n, 8);
    lemma_le_u32_same(b, at, t, n, 8);
    lemma_le_u32_same(a, at, t, n, 12);
    lemma_le_u32_same(b, at, t, n, 12);
    lemma_le_u64_same(a, at, t, n, 16);
    lemma_le_u64_same(b, at, t, n, 16);
    lemma_le_u64_same(a, at, t, n, 24);
    lemma_le_u64_same(b, at, t, n, 24);
    lemma_le_u64_same(a, at, t, n, 32);
    lemma_le_u64_same(b, at, t, n, 32);
    lemma_le_u64_same(a, at, t, n, 40);
    lemma_le_u64_same(b, at, t, n, 40);
    lemma_le_u32_same(a, at, t, n, 48);
    lemma_le_u32_same(b, at, t, n, 48);
    lemma_le_u32_same(a, at, t, n, 100);
    lemma_le_u32_same(b, at, t, n, 100);
    lemma_le_u32_same(a, at, t, n, 104);
    lemma_le_u32_same(b, at, t, n, 104);
    lemma_le_u32_same(a, at, t, n, 108);
    lemma_le_u32_same(b, at, t, n, 108);
    let sa = Seq::new(12, |k: int| le_u32(a, at + 52 + 4 * k) as u32);
    let sb = Seq::new(12, |k: int| le_u32(b, at + 52 + 4 * k) as u32);
    assert(sa =~= sb) by {
        assert forall|k: int| 0 <= k < 12 implies sa[k] == sb[k] by {
            lemma_le_u32_same(a, at, t, n, 52 + 4 * k);
            lemma_le_u32_same(b, at, t, n, 52 + 4 * k);
        }
    }
}

/// Laying the bytes of a record over a place of the inode table puts the
/// record there and changes no record at any other place.
pub proof fn lemma_spliced_records(
    table: Seq<u8>,
    at: int,
    t: Seq<u8>,
    x: InodeDisk,
    at2: int,
)
    requires
        t.len() == INODE_DISK_SIZE,
        x.decoded_from(t, 0),
        0 <= at,
        at + INODE_DISK_SIZE <= table.len(),
        0 <= at2,
        at2 + INODE_DISK_SIZE <= table.len(),
        at2 == at || at2 + INODE_DISK_SIZE <= at || at + INODE_DISK_SIZE <= at2,
    ensures
        the_inode(splice(table, at, t), at2) == (if at2 == at {
            x
        } else {
            the_inode(table, at2)
        }),
{
    let spliced = splice(table, at, t);
    if at2 == at {
        assert(same_bytes(spliced, at, t, INODE_DISK_SIZE as int));
        lemma_inode_decodes_from_same(x, spliced, at, t);
        lemma_the_inode(x, spliced, at);
    } else {
        assert forall|i: int| 0 <= i < INODE_DISK_SIZE implies #[trigger] spliced[at2 + i]
            == table[at2 + i] by {}
        lemma_inode_at_same(spliced, table, at2);
        lemma_inode_at(spliced, at2);
        lemma_inode_at(table, at2);
    }
}

/// Writing the record of one inode changes that record and no other, and
/// no block outside the inode table.
pub proof fn lemma_records_after_with_inode(
    store: Seq<Seq<u8>>,
    sb: SuperblockDisk,
    ino: int,
    x: InodeDisk,
    other: int,
)
    requires
        inode_slot_ok(store, sb, ino),
        1 <= other <= sb.max_inodes,
        inode_offset(other) + INODE_DISK_SIZE <= sb.inode_table_blocks * BLOCK,
    ensures
        ({
            let after = with_inode(store, sb, ino, x);
            &&& after.len() == store.len()
            &&& region_readable(after, sb.inode_table_start as int, sb.inode_table_blocks as int)
            &&& inode_slot_ok(after, sb, other)
            &&& forall|j: int|
                0 <= j < store.len() && !(sb.inode_table_start <= j < sb.inode_table_start
                    + sb.inode_table_blocks) ==> #[trigger] after[j] == store[j]
            &&& record_of(after, sb, other) == (if other == ino {
                x
            } else {
                record_of(store, sb, other)
            })
        }),
{
    let its = sb.inode_table_start as int;
    let itb = sb.inode_table_blocks as int;
    let at = inode_offset(ino);
    let at2 = inode_offset(other);
    let t = record_bytes(x);
    lemma_record_bytes(x);
    lemma_record_slots(
        store,
        its,
        itb,
        at,
        at2,
        t,
        x,
    );
}

/// `lemma_records_after_with_inode` on the parts of the superblock that it
/// needs.
proof fn lemma_record_slots(
    store: Seq<Seq<u8>>,
    its: int,
    itb: int,
    at: int,
    at2: int,
    t: Seq<u8>,
    x: InodeDisk,
)
    requires
        0 <= its,
        0 <= itb,
        region_readable(store, its, itb),
        t.len() == INODE_DISK_SIZE,
        x.decoded_from(t, 0),
        0 <= at,
        at + INODE_DISK_SIZE <= itb * BLOCK,
        0 <= at2,
        at2 + INODE_DISK_SIZE <= itb * BLOCK,
        at2 == at || at2 + INODE_DISK_SIZE <= at || at + INODE_DISK_SIZE <= at2,
    ensures
        ({
            let table = region_bytes(store, its, itb);
            let after = with_chunks(store, its, itb, splice(table, at, t));
            &&& after.len() == store.len()
            &&& region_readable(after, its, itb)
            &&& forall|j: int|
                0 <= j < store.len() && !(its <= j < its + itb) ==> #[trigger] after[j]
                    == store[j]
            &&& the_inode(region_bytes(after, its, itb), at2) == (if at2 == at {
                x
            } else {
                the_inode(table, at2)
            })
        }),
{
    let table = region_bytes(store, its, itb);
    lemma_table_after_with_inode(store, its, itb, at, t);
    lemma_spliced_records(table, at, t, x, at2);
}

/// The bytes of an inode record.
pub closed spec fn record_bytes(x: InodeDisk) -> Seq<u8> {
    x.to_bytes()
}

/// The bytes of an inode record are 112, and the record decodes from them.
pub proof fn lemma_record_bytes(x: InodeDisk)
    ensures
        record_bytes(x) == x.to_bytes(),
        record_bytes(x).len() == INODE_DISK_SIZE,
        x.decoded_from(record_bytes(x), 0),
{
    lemma_inode_layout(x);
}

/// Writing the inode table back with some bytes laid over it leaves a
/// readable table that holds those bytes, and changes no block outside it.
proof fn lemma_table_after_with_inode(
    store: Seq<Seq<u8>>,
    its: int,
    itb: int,
    at: int,
    t: Seq<u8>,
)
    requires
        0 <= its,
        0 <= itb,
        region_readable(store, its, itb),
    ensures
        ({
            let table = region_bytes(store, its, itb);
            let after = with_chunks(store, its, itb, splice(table, at, t));
            &&& after.len() == store.len()
            &&& region_readable(after, its, itb)
            &&& region_bytes(after, its, itb) == splice(table, at, t)
            &&& forall|j: int|
                0 <= j < store.len() && !(its <= j < its + itb) ==> #[trigger] after[j]
                    == store[j]
        }),
{
    let table = region_bytes(store, its, itb);
    let spliced = splice(table, at, t);
    lemma_region_after_write(store, its, itb, spliced);
    let after = with_chunks(store, its, itb, spliced);
    assert(region_bytes(after, its, itb) =~= spliced);
}

/// Whether two superblocks tell the same regions and the same inode count.
pub open spec fn same_regions(a: SuperblockDisk, b: SuperblockDisk) -> bool {
    &&& a.total_blocks == b.total_blocks
    &&& a.inode_table_start == b.inode_table_start
    &&& a.inode_table_blocks == b.inode_table_blocks
    &&& a.free_bitmap_start == b.free_bitmap_start
    &&& a.free_bitmap_blocks == b.free_bitmap_blocks
    &&& a.data_blocks_start == b.data_blocks_start
    &&& a.max_inodes == b.max_inodes
}

/// The store after a write, as the write leaves it.
pub open spec fn written_store(
    store0: Seq<Seq<u8>>,
    sb1: SuperblockDisk,
    ino: int,
    d0: Seq<u32>,
    plan: PlanModel,
    offset: int,
    end: int,
    data: Seq<u8>,
    inode1: InodeDisk,
) -> Seq<Seq<u8>> {
    with_inode(
        write_runs(
            persist_alloc(store0, sb1, plan),
            d0,
            plan.direct,
            offset,
            end,
            data,
            segment_count(offset, end),
        ),
        sb1,
        ino,
        inode1,
    )
}

/// What the blocks of a store hold after a write whose runs go to data
/// blocks, each to a block of its own: the regions are in order as before;
/// the bitmap is the planned one; the record of the inode is the new one
/// and every other record is as it was; each block that a run went to
/// holds what the run wrote, and every other data block is as it was.
pub proof fn lemma_written_store(
    store0: Seq<Seq<u8>>,
    sb0: SuperblockDisk,
    sb1: SuperblockDisk,
    ino: int,
    d0: Seq<u32>,
    plan: PlanModel,
    offset: int,
    end: int,
    data: Seq<u8>,
    inode1: InodeDisk,
)
    requires
        regions_ok(store0, sb0),
        same_regions(sb0, sb1),
        1 <= ino <= sb0.max_inodes,
        0 <= offset,
        plan.direct.len() == 12,
        plan.bitmap.len() == stored_bitmap(store0, sb0).len(),
        plan.fresh >= 0,
        plan.fresh == 0 ==> plan.bitmap == stored_bitmap(store0, sb0),
        runs_apart(store0.len() as int, plan.direct, offset, segment_count(offset, end)),
        forall|k: int|
            0 <= k < segment_count(offset, end) ==> sb0.data_blocks_start <= #[trigger] run_block(
                plan.direct,
                offset,
                k,
            ),
    ensures
        ({
            let after = written_store(store0, sb1, ino, d0, plan, offset, end, data, inode1);
            &&& after.len() == store0.len()
            &&& regions_ok(after, sb1)
            &&& stored_bitmap(after, sb1) == plan.bitmap
            &&& forall|other: int|
                1 <= other <= sb0.max_inodes ==> #[trigger] record_of(after, sb1, other) == (
                if other == ino {
                    inode1
                } else {
                    record_of(store0, sb0, other)
                })
            &&& forall|k: int|
                0 <= k < segment_count(offset, end) ==> #[trigger] after[run_block(
                    plan.direct,
                    offset,
                    k,
                )] == run_content(store0, d0, plan.direct, offset, end, data, k)
            &&& forall|j: int|
                sb0.data_blocks_start <= j < store0.len() && (forall|k: int|
                    0 <= k < segment_count(offset, end) ==> run_block(plan.direct, offset, k)
                        != j) ==> #[trigger] after[j] == store0[j]
        }),
{
    let its = sb0.inode_table_start as int;
    let itb = sb0.inode_table_blocks as int;
    let fbs = sb0.free_bitmap_start as int;
    let fbb = sb0.free_bitmap_blocks as int;
    let ds = sb0.data_blocks_start as int;
    let n = segment_count(offset, end);
    let a = persist_alloc(store0, sb1, plan);
    let b = write_runs(a, d0, plan.direct, offset, end, data, n);
    let c = with_inode(b, sb1, ino, inode1);
    // the store after the bitmap and the superblock were written
    assert(a.len() == store0.len());
    if plan.fresh > 0 {
        lemma_region_after_write(store0, fbs, fbb, plan.bitmap);
        lemma_bitmap_after_write(store0, sb1, plan.bitmap);
        let w = with_chunks(store0, fbs, fbb, plan.bitmap);
        assert(region_bytes(a, fbs, fbb) =~= region_bytes(w, fbs, fbb)) by {
            assert forall|j: int| fbs <= j < fbs + fbb implies a[j] == w[j] by {}
        }
    }
    assert(stored_bitmap(a, sb1) == plan.bitmap);
    assert forall|j: int| its <= j < store0.len() && !(fbs <= j < fbs + fbb) implies #[trigger] a[j]
        == store0[j] by {}
    assert forall|j: int| 0 <= j < ds implies (#[trigger] a[j]).len() >= BLOCK by {
        assert(store0[j].len() >= BLOCK);
    }
    // the store after the data blocks were written
    lemma_write_runs(a, d0, plan.direct, offset, end, data, n);
    assert forall|j: int| 0 <= j < ds implies #[trigger] b[j] == a[j] by {
        assert forall|k: int| 0 <= k < n implies run_block(plan.direct, offset, k) != j by {}
    }
    assert(region_bytes(b, fbs, fbb) =~= region_bytes(a, fbs, fbb)) by {
        assert forall|j: int| fbs <= j < fbs + fbb implies b[j] == a[j] by {}
    }
    assert(region_bytes(b, its, itb) =~= region_bytes(store0, its, itb)) by {
        assert forall|j: int| its <= j < its + itb implies b[j] == store0[j] by {
            assert(b[j] == a[j]);
        }
    }
    assert(inode_slot_ok(b, sb1, ino)) by {
        assert forall|j: int| its <= j < its + itb implies b[j].len() >= BLOCK by {
            assert(b[j] == a[j]);
        }
    }
    assert forall|k: int| 0 <= k < n implies #[trigger] b[run_block(plan.direct, offset, k)]
        == run_content(store0, d0, plan.direct, offset, end, data, k) by {
        lemma_segment_covers(plan.direct, offset, end, k);
        let block = run_block(plan.direct, offset, k);
        assert(a[block] == store0[block]);
    }
    // the store after the inode's record was written
    assert forall|other: int| 1 <= other <= sb0.max_inodes implies #[trigger] record_of(
        c,
        sb1,
        other,
    ) == (if other == ino {
        inode1
    } else {
        record_of(store0, sb0, other)
    }) by {
        lemma_records_after_with_inode(b, sb1, ino, inode1, other);
    }
    lemma_records_after_with_inode(b, sb1, ino, inode1, ino);
    assert(region_bytes(c, fbs, fbb) =~= region_bytes(b, fbs, fbb)) by {
        assert forall|j: int| fbs <= j < fbs + fbb implies c[j] == b[j] by {}
    }
    assert forall|j: int| 0 <= j < ds implies (#[trigger] c[j]).len() >= BLOCK by {
        if its <= j < its + itb {
        } else {
            assert(c[j] == b[j]);
            assert(b[j] == a[j]);
        }
    }
    assert forall|k: int| 0 <= k < n implies #[trigger] c[run_block(plan.direct, offset, k)]
        == run_content(store0, d0, plan.direct, offset, end, data, k) by {
        let block = run_block(plan.direct, offset, k);
        assert(c[block] == b[block]);
    }
    assert forall|j: int|
        ds <= j < store0.len() && (forall|k: int|
            0 <= k < n ==> run_block(plan.direct, offset, k) != j) implies #[trigger] c[j]
        == store0[j] by {
        assert(c[j] == b[j]);
        assert(b[j] == a[j]);
    }
}

/// Whether the pointers of inode `ino` have become those of `plan` and
/// the pointers of every other inode are as they were.
pub open spec fn pointers_replaced(
    store0: Seq<Seq<u8>>,
    sb0: SuperblockDisk,
    store1: Seq<Seq<u8>>,
    sb1: SuperblockDisk,
    ino: int,
    planned: Seq<u32>,
) -> bool {
    forall|i: int, k: int|
        is_slot(sb0, i, k) ==> #[trigger] pointer(store1, sb1, i, k) == (if i == ino {
            planned[k]
        } else {
            pointer(store0, sb0, i, k)
        })
}

/// A planned pointer is the pointer that was there, or the block that the
/// plan has taken for a hole.
pub proof fn lemma_planned_pointer(
    store0: Seq<Seq<u8>>,
    sb0: SuperblockDisk,
    d0: Seq<u32>,
    bitmap0: Seq<u8>,
    first: int,
    count: int,
    plan: PlanModel,
    k: int,
)
    requires
        plan_facts(store0, sb0, d0, bitmap0, first, count, plan),
        d0.len() == 12,
        0 <= k < 12,
    ensures
        plan.direct[k] == d0[k] || filled(d0, plan.direct, first, count, k, plan.direct[k] as int),
        filled(d0, plan.direct, first, count, k, plan.direct[k] as int) ==> d0[k] == 0
            && plan.direct[k] != 0,
{
    if first <= k < first + count {
        if d0[k] != 0 {
            assert(plan.direct[k] == d0[k]);
        } else {
            assert(filled(d0, plan.direct, first, count, k, plan.direct[k] as int));
        }
    } else {
        assert(plan.direct[k] == d0[k]);
    }
}

/// After a plan was carried out, a block is named by a pointer exactly when
/// it was named before or the plan has taken it.
pub proof fn lemma_names_after_plan(
    store0: Seq<Seq<u8>>,
    sb0: SuperblockDisk,
    store1: Seq<Seq<u8>>,
    sb1: SuperblockDisk,
    ino: int,
    first: int,
    count: int,
    plan: PlanModel,
    b: int,
)
    requires
        same_regions(sb0, sb1),
        1 <= ino <= sb0.max_inodes,
        0 <= first,
        count > 0 ==> first + count <= 12,
        record_of(store0, sb0, ino).direct_blocks@.len() == 12,
        plan_facts(
            store0,
            sb0,
            record_of(store0, sb0, ino).direct_blocks@,
            stored_bitmap(store0, sb0),
            first,
            count,
            plan,
        ),
        pointers_replaced(store0, sb0, store1, sb1, ino, plan.direct),
    ensures
        names_block(store1, sb1, b) <==> (names_block(store0, sb0, b) || newly_taken(
            record_of(store0, sb0, ino).direct_blocks@,
            plan.direct,
            first,
            count,
            b,
        )),
{
    let d0 = record_of(store0, sb0, ino).direct_blocks@;
    let bitmap0 = stored_bitmap(store0, sb0);
    if names_block(store1, sb1, b) {
        let (i, k) = choose|i: int, k: int|
            is_slot(sb1, i, k) && b != 0 && #[trigger] pointer(store1, sb1, i, k) == b;
        assert(is_slot(sb0, i, k));
        if i == ino {
            lemma_planned_pointer(store0, sb0, d0, bitmap0, first, count, plan, k);
            if plan.direct[k] == d0[k] {
                assert(pointer(store0, sb0, ino, k) == b);
            }
        } else {
            assert(pointer(store0, sb0, i, k) == b);
        }
    }
    if names_block(store0, sb0, b) {
        let (i, k) = choose|i: int, k: int|
            is_slot(sb0, i, k) && b != 0 && #[trigger] pointer(store0, sb0, i, k) == b;
        assert(is_slot(sb1, i, k));
        if i == ino {
            lemma_planned_pointer(store0, sb0, d0, bitmap0, first, count, plan, k);
            assert(d0[k] != 0);
            assert(pointer(store1, sb1, ino, k) == b);
        } else {
            assert(pointer(store1, sb1, i, k) == b);
        }
    }
    if newly_taken(d0, plan.direct, first, count, b) {
        let s = choose|s: int| #[trigger] filled(d0, plan.direct, first, count, s, b);
        assert(is_slot(sb1, ino, s));
        assert(pointer(store1, sb1, ino, s) == b);
    }
}

/// Carrying out a plan keeps a filesystem consistent: the blocks that the
/// plan has taken were free and unnamed, so no block is named twice, and
/// the planned bitmap marks exactly what is named.
pub proof fn lemma_consistent_after_plan(
    store0: Seq<Seq<u8>>,
    sb0: SuperblockDisk,
    store1: Seq<Seq<u8>>,
    sb1: SuperblockDisk,
    ino: int,
    first: int,
    count: int,
    plan: PlanModel,
)
    requires
        consistent(store0, sb0),
        same_regions(sb0, sb1),
        regions_ok(store1, sb1),
        1 <= ino <= sb0.max_inodes,
        0 <= first,
        count > 0 ==> first + count <= 12,
        record_of(store0, sb0, ino).direct_blocks@.len() == 12,
        plan_facts(
            store0,
            sb0,
            record_of(store0, sb0, ino).direct_blocks@,
            stored_bitmap(store0, sb0),
            first,
            count,
            plan,
        ),
        stored_bitmap(store1, sb1) == plan.bitmap,
        pointers_replaced(store0, sb0, store1, sb1, ino, plan.direct),
    ensures
        consistent(store1, sb1),
{
    let d0 = record_of(store0, sb0, ino).direct_blocks@;
    let bitmap0 = stored_bitmap(store0, sb0);
    assert forall|k: int| 0 <= k < 12 implies pointer(store0, sb0, ino, k) == #[trigger] d0[k] by {}
    // what each pointer of the inode is after the plan
    assert forall|k: int| 0 <= k < 12 implies (#[trigger] plan.direct[k] == d0[k] || (filled(
        d0,
        plan.direct,
        first,
        count,
        k,
        plan.direct[k] as int,
    ) && !names_block(store0, sb0, plan.direct[k] as int) && plan.direct[k] != 0)) by {
        lemma_planned_pointer(store0, sb0, d0, bitmap0, first, count, plan, k);
        if filled(d0, plan.direct, first, count, k, plan.direct[k] as int) {
            let b = plan.direct[k] as int;
            assert(!bit_at(bitmap0, b));
            assert(sb0.data_blocks_start <= b < sb0.total_blocks);
        }
    }
    assert(pointers_in_range(store1, sb1)) by {
        assert forall|i: int, k: int| is_slot(sb1, i, k) implies ({
            let p = #[trigger] pointer(store1, sb1, i, k);
            p == 0 || sb1.data_blocks_start <= p < sb1.total_blocks
        }) by {
            assert(is_slot(sb0, i, k));
            if i == ino {
                if plan.direct[k] == d0[k] {
                    assert(pointer(store0, sb0, ino, k) == d0[k]);
                }
            } else {
                assert(pointer(store1, sb1, i, k) == pointer(store0, sb0, i, k));
            }
        }
    }
    assert(pointers_unique(store1, sb1)) by {
        assert forall|i1: int, k1: int, i2: int, k2: int|
            is_slot(sb1, i1, k1) && is_slot(sb1, i2, k2) && (i1 != i2 || k1 != k2) && pointer(
                store1,
                sb1,
                i1,
                k1,
            ) != 0 implies #[trigger] pointer(store1, sb1, i1, k1) != #[trigger] pointer(
            store1,
            sb1,
            i2,
            k2,
        ) by {
            assert(is_slot(sb0, i1, k1) && is_slot(sb0, i2, k2));
            let new1 = pointer(store1, sb1, i1, k1);
            let new2 = pointer(store1, sb1, i2, k2);
            let old1 = pointer(store0, sb0, i1, k1);
            let old2 = pointer(store0, sb0, i2, k2);
            let kept1 = new1 == old1;
            let kept2 = new2 == old2;
            if kept1 && kept2 {
                assert(old1 != old2);
            } else if kept1 {
                // the second is newly taken, so nothing named it before
                assert(i2 == ino);
                assert(!names_block(store0, sb0, new2 as int));
                assert(old1 != new2);
            } else if kept2 {
                assert(i1 == ino);
                assert(!names_block(store0, sb0, new1 as int));
                if new2 != 0 {
                    assert(old2 != new1);
                }
            } else {
                assert(i1 == ino && i2 == ino);
                assert(filled(d0, plan.direct, first, count, k1, new1 as int));
                assert(filled(d0, plan.direct, first, count, k2, new2 as int));
            }
        }
    }
    assert(bitmap_agrees(store1, sb1)) by {
        assert forall|b: int| 0 <= b < sb1.total_blocks implies (#[trigger] bit_at(
            stored_bitmap(store1, sb1),
            b,
        ) <==> (b < sb1.data_blocks_start || names_block(store1, sb1, b))) by {
            lemma_names_after_plan(store0, sb0, store1, sb1, ino, first, count, plan, b);
            assert(bit_at(plan.bitmap, b) <==> (bit_at(bitmap0, b) || newly_taken(
                d0,
                plan.direct,
                first,
                count,
                b,
            )));
            assert(bit_at(bitmap0, b) <==> (b < sb0.data_blocks_start || names_block(
                store0,
                sb0,
                b,
            )));
        }
    }
}

/// In a consistent filesystem the runs of a planned write go to blocks of
/// the data region, each to a block of its own.
pub proof fn lemma_runs_go_apart(
    store0: Seq<Seq<u8>>,
    sb0: SuperblockDisk,
    ino: int,
    offset: int,
    end: int,
    plan: PlanModel,
)
    requires
        consistent(store0, sb0),
        1 <= ino <= sb0.max_inodes,
        0 <= offset,
        record_of(store0, sb0, ino).direct_blocks@.len() == 12,
        plan_facts(
            store0,
            sb0,
            record_of(store0, sb0, ino).direct_blocks@,
            stored_bitmap(store0, sb0),
            offset / (BLOCK as int),
            segment_count(offset, end),
            plan,
        ),
    ensures
        runs_apart(store0.len() as int, plan.direct, offset, segment_count(offset, end)),
        forall|k: int|
            0 <= k < segment_count(offset, end) ==> sb0.data_blocks_start <= #[trigger] run_block(
                plan.direct,
                offset,
                k,
            ) < sb0.total_blocks,
{
    let d0 = record_of(store0, sb0, ino).direct_blocks@;
    let bitmap0 = stored_bitmap(store0, sb0);
    let first = offset / (BLOCK as int);
    let n = segment_count(offset, end);
    assert forall|k: int| 0 <= k < n implies (sb0.data_blocks_start <= #[trigger] run_block(
        plan.direct,
        offset,
        k,
    ) < sb0.total_blocks && (plan.direct[first + k] == d0[first + k] && d0[first + k] != 0
        || filled(d0, plan.direct, first, n, first + k, run_block(plan.direct, offset, k)))) by {
        lemma_segment_covers(d0, offset, end, k);
        let slot = first + k;
        if d0[slot] != 0 {
            assert(plan.direct[slot] == d0[slot]);
        } else {
            assert(filled(d0, plan.direct, first, n, slot, plan.direct[slot] as int));
        }
    }
    assert forall|k1: int, k2: int| 0 <= k1 < k2 < n implies #[trigger] run_block(
        plan.direct,
        offset,
        k1,
    ) != #[trigger] run_block(plan.direct, offset, k2) by {
        lemma_segment_covers(d0, offset, end, k1);
        lemma_segment_covers(d0, offset, end, k2);
        let s1 = first + k1;
        let s2 = first + k2;
        let b1 = run_block(plan.direct, offset, k1);
        let b2 = run_block(plan.direct, offset, k2);
        assert(is_slot(sb0, ino, s1) && is_slot(sb0, ino, s2));
        let new1 = filled(d0, plan.direct, first, n, s1, b1);
        let new2 = filled(d0, plan.direct, first, n, s2, b2);
        if !new1 && !new2 {
            assert(pointer(store0, sb0, ino, s1) != pointer(store0, sb0, ino, s2));
        } else if new1 && new2 {
            if b1 == b2 {
                assert(s1 == s2);
            }
        } else if new1 {
            assert(!bit_at(bitmap0, b1));
            assert(pointer(store0, sb0, ino, s2) == b2);
            assert(names_block(store0, sb0, b2));
            assert(bit_at(bitmap0, b2));
        } else {
            assert(!bit_at(bitmap0, b2));
            assert(pointer(store0, sb0, ino, s1) == b1);
            assert(names_block(store0, sb0, b1));
            assert(bit_at(bitmap0, b1));
        }
    }
}

/// What holds after a write of `data` from `offset` up to `end` to inode
/// `ino` of a consistent filesystem.
pub open spec fn after_write(
    store0: Seq<Seq<u8>>,
    sb0: SuperblockDisk,
    store1: Seq<Seq<u8>>,
    sb1: SuperblockDisk,
    ino: int,
    plan: PlanModel,
    offset: int,
    end: int,
    data: Seq<u8>,
) -> bool {
    let d0 = record_of(store0, sb0, ino).direct_blocks@;
    let n = segment_count(offset, end);
    &&& consistent(store0, sb0)
    &&& consistent(store1, sb1)
    &&& same_regions(sb0, sb1)
    &&& store1.len() == store0.len()
    &&& 1 <= ino <= sb0.max_inodes
    &&& 0 <= offset
    &&& end == offset + data.len()
    &&& d0.len() == 12
    &&& plan.direct.len() == 12
    &&& plan_facts(
        store0,
        sb0,
        d0,
        stored_bitmap(store0, sb0),
        offset / (BLOCK as int),
        n,
        plan,
    )
    &&& pointers_replaced(store0, sb0, store1, sb1, ino, plan.direct)
    &&& forall|k: int|
        0 <= k < n ==> #[trigger] store1[run_block(plan.direct, offset, k)] == run_content(
            store0,
            d0,
            plan.direct,
            offset,
            end,
            data,
            k,
        )
    &&& forall|j: int|
        sb0.data_blocks_start <= j < store0.len() && (forall|k: int|
            0 <= k < n ==> run_block(plan.direct, offset, k) != j) ==> #[trigger] store1[j]
            == store0[j]
}

/// A block that a write went to is a block of the data region that can be
/// read.
pub proof fn lemma_block_written(
    store0: Seq<Seq<u8>>,
    sb0: SuperblockDisk,
    store1: Seq<Seq<u8>>,
    sb1: SuperblockDisk,
    ino: int,
    plan: PlanModel,
    offset: int,
    end: int,
    data: Seq<u8>,
    slot: int,
)
    requires
        after_write(store0, sb0, store1, sb1, ino, plan, offset, end, data),
        offset / (BLOCK as int) <= slot < offset / (BLOCK as int) + segment_count(offset, end),
    ensures
        plan.direct[slot] != 0,
        readable(store1, plan.direct[slot] as int),
{
    let k = slot - offset / (BLOCK as int);
    lemma_runs_go_apart(store0, sb0, ino, offset, end, plan);
    let block = run_block(plan.direct, offset, k);
    assert(sb0.data_blocks_start <= block < sb0.total_blocks);
    assert(store1[block].len() == BLOCK);
}

/// A byte that was written is read back.
pub proof fn lemma_byte_written(
    store0: Seq<Seq<u8>>,
    sb0: SuperblockDisk,
    store1: Seq<Seq<u8>>,
    sb1: SuperblockDisk,
    ino: int,
    plan: PlanModel,
    offset: int,
    end: int,
    data: Seq<u8>,
    p: int,
)
    requires
        after_write(store0, sb0, store1, sb1, ino, plan, offset, end, data),
        offset <= p < reach_end(offset, end),
    ensures
        file_byte(store1, plan.direct, p) == data[p - offset],
{
    let d0 = record_of(store0, sb0, ino).direct_blocks@;
    let first = offset / (BLOCK as int);
    let n = segment_count(offset, end);
    let slot = p / (BLOCK as int);
    let k = slot - first;
    assert(0 <= k < n);
    lemma_segment_covers(plan.direct, offset, end, k);
    lemma_runs_go_apart(store0, sb0, ino, offset, end, plan);
    let seg = segment_at(plan.direct, offset, end, k);
    let block = run_block(plan.direct, offset, k);
    assert(covered(offset, end, k) <= p < covered(offset, end, k + 1));
    let part = data.subrange(
        covered(offset, end, k) - offset,
        covered(offset, end, k + 1) - offset,
    );
    let content = run_content(store0, d0, plan.direct, offset, end, data, k);
    assert(store1[block] == content);
    let i = p % (BLOCK as int);
    assert(seg.start <= i < seg.start + part.len());
    assert(content[i] == part[i - seg.start]);
}

/// A byte of the file that the write did not reach is as it was.
pub proof fn lemma_byte_kept(
    store0: Seq<Seq<u8>>,
    sb0: SuperblockDisk,
    store1: Seq<Seq<u8>>,
    sb1: SuperblockDisk,
    ino: int,
    plan: PlanModel,
    offset: int,
    end: int,
    data: Seq<u8>,
    p: int,
)
    requires
        after_write(store0, sb0, store1, sb1, ino, plan, offset, end, data),
        0 <= p < DIRECT_CAPACITY,
        !(offset <= p < reach_end(offset, end)),
    ensures
        file_byte(store1, plan.direct, p) == file_byte(
            store0,
            record_of(store0, sb0, ino).direct_blocks@,
            p,
        ),
{
    let d0 = record_of(store0, sb0, ino).direct_blocks@;
    let first = offset / (BLOCK as int);
    let n = segment_count(offset, end);
    let slot = p / (BLOCK as int);
    let i = p % (BLOCK as int);
    lemma_runs_go_apart(store0, sb0, ino, offset, end, plan);
    assert(is_slot(sb0, ino, slot));
    if first <= slot < first + n {
        let k = slot - first;
        lemma_segment_covers(plan.direct, offset, end, k);
        let seg = segment_at(plan.direct, offset, end, k);
        let block = run_block(plan.direct, offset, k);
        let content = run_content(store0, d0, plan.direct, offset, end, data, k);
        assert(store1[block] == content);
        assert(!(covered(offset, end, k) <= p < covered(offset, end, k + 1)));
        let part = data.subrange(
            covered(offset, end, k) - offset,
            covered(offset, end, k + 1) - offset,
        );
        assert(!(seg.start <= i < seg.start + part.len()));
        if d0[slot] != 0 {
            assert(plan.direct[slot] == d0[slot]);
        }
    } else {
        let q = d0[slot];
        assert(plan.direct[slot] == q);
        if q != 0 {
            assert(pointer(store0, sb0, ino, slot) == q);
            lemma_block_untouched(store0, sb0, store1, sb1, ino, plan, offset, end, data, ino, slot);
        }
    }
}

/// A block that a pointer outside the write names is as it was.
pub proof fn lemma_block_untouched(
    store0: Seq<Seq<u8>>,
    sb0: SuperblockDisk,
    store1: Seq<Seq<u8>>,
    sb1: SuperblockDisk,
    ino: int,
    plan: PlanModel,
    offset: int,
    end: int,
    data: Seq<u8>,
    i: int,
    slot: int,
)
    requires
        after_write(store0, sb0, store1, sb1, ino, plan, offset, end, data),
        is_slot(sb0, i, slot),
        pointer(store0, sb0, i, slot) != 0,
        i != ino || !(offset / (BLOCK as int) <= slot < offset / (BLOCK as int) + segment_count(
            offset,
            end,
        )),
    ensures
        pointer(store1, sb1, i, slot) == pointer(store0, sb0, i, slot),
        store1[pointer(store0, sb0, i, slot) as int] == store0[pointer(store0, sb0, i, slot) as int],
{
    let first = offset / (BLOCK as int);
    let n = segment_count(offset, end);
    let q = pointer(store0, sb0, i, slot);
    assert(is_slot(sb1, i, slot));
    assert(pointer(store1, sb1, i, slot) == q);
    assert forall|k: int| 0 <= k < n implies run_block(plan.direct, offset, k) != q by {
        lemma_segment_covers(plan.direct, offset, end, k);
        let s = first + k;
        assert(is_slot(sb1, ino, s));
        assert(pointer(store1, sb1, ino, s) == plan.direct[s]);
        assert(pointer(store1, sb1, i, slot) != pointer(store1, sb1, ino, s));
    }
    assert(sb0.data_blocks_start <= q < sb0.total_blocks);
}

/// Writing to a file keeps the filesystem consistent.  The record of the
/// file is the new one and every other record is as it was.  Every slot
/// that the write reached names a block that can be read.  What was
/// written is read back; the bytes of the file that the write did not
/// reach, and the bytes of every other file, are as they were.
pub proof fn lemma_write_keeps_consistent(
    store0: Seq<Seq<u8>>,
    sb0: SuperblockDisk,
    ino: u64,
    offset: u64,
    data: Seq<u8>,
    now: u64,
    store1: Seq<Seq<u8>>,
    sb1: SuperblockDisk,
    inode1: InodeDisk,
    written: u32,
)
    requires
        consistent(store0, sb0),
        write_done(
            store0,
            sb0,
            ino,
            record_of(store0, sb0, ino as int),
            offset,
            data,
            now,
            store1,
            sb1,
            inode1,
            written,
        ),
    ensures
        consistent(store1, sb1),
        forall|other: int|
            1 <= other <= sb0.max_inodes ==> #[trigger] record_of(store1, sb1, other) == (
            if other == ino {
                inode1
            } else {
                record_of(store0, sb0, other)
            }),
        forall|slot: int|
            offset as int / (BLOCK as int) <= slot < offset as int / (BLOCK as int)
                + segment_count(offset as int, offset + data.len()) ==> {
                &&& #[trigger] inode1.direct_blocks@[slot] != 0
                &&& readable(store1, inode1.direct_blocks@[slot] as int)
            },
        file_bytes(store1, inode1.direct_blocks@, offset as int, offset + written)
            == data.subrange(0, written as int),
        forall|p: int|
            0 <= p < DIRECT_CAPACITY && !(offset <= p < offset + written) ==> #[trigger] file_byte(
                store1,
                inode1.direct_blocks@,
                p,
            ) == file_byte(store0, record_of(store0, sb0, ino as int).direct_blocks@, p),
        forall|other: int, p: int|
            1 <= other <= sb0.max_inodes && other != ino && 0 <= p < DIRECT_CAPACITY
                ==> #[trigger] file_byte(
                store1,
                record_of(store1, sb1, other).direct_blocks@,
                p,
            ) == file_byte(store0, record_of(store0, sb0, other).direct_blocks@, p),
{
    reveal(write_done);
    let inode0 = record_of(store0, sb0, ino as int);
    let d0 = inode0.direct_blocks@;
    let bitmap0 = stored_bitmap(store0, sb0);
    let end = offset + data.len();
    let first = offset as int / (BLOCK as int);
    let n = segment_count(offset as int, end);
    let plan = plan_slots(store0, sb0, d0, bitmap0, first, n)->Ok_0;
    if n > 0 {
        lemma_segment_covers(d0, offset as int, end, n - 1);
        lemma_plan_takes(store0, sb0, d0, bitmap0, first, n);
    } else {
        assert forall|b: int| !newly_taken(d0, plan.direct, first, n, b) by {
            if newly_taken(d0, plan.direct, first, n, b) {
                let s = choose|s: int| #[trigger] filled(d0, plan.direct, first, n, s, b);
            }
        }
    }
    assert(plan_facts(store0, sb0, d0, bitmap0, first, n, plan));
    lemma_runs_go_apart(store0, sb0, ino as int, offset as int, end, plan);
    lemma_written_store(store0, sb0, sb1, ino as int, d0, plan, offset as int, end, data, inode1);
    assert(store1 == written_store(
        store0,
        sb1,
        ino as int,
        d0,
        plan,
        offset as int,
        end,
        data,
        inode1,
    ));
    assert(pointers_replaced(store0, sb0, store1, sb1, ino as int, plan.direct)) by {
        assert forall|i: int, k: int| is_slot(sb0, i, k) implies #[trigger] pointer(
            store1,
            sb1,
            i,
            k,
        ) == (if i == ino {
            plan.direct[k]
        } else {
            pointer(store0, sb0, i, k)
        }) by {
            assert(record_of(store1, sb1, i) == (if i == ino {
                inode1
            } else {
                record_of(store0, sb0, i)
            }));
        }
    }
    lemma_consistent_after_plan(store0, sb0, store1, sb1, ino as int, first, n, plan);
    assert(after_write(store0, sb0, store1, sb1, ino as int, plan, offset as int, end, data));
    assert(written == reach_end(offset as int, end) - offset);
    assert forall|slot: int| first <= slot < first + n implies {
        &&& #[trigger] inode1.direct_blocks@[slot] != 0
        &&& readable(store1, inode1.direct_blocks@[slot] as int)
    } by {
        lemma_block_written(
            store0,
            sb0,
            store1,
            sb1,
            ino as int,
            plan,
            offset as int,
            end,
            data,
            slot,
        );
    }
    assert(file_bytes(store1, inode1.direct_blocks@, offset as int, offset + written)
        =~= data.subrange(0, written as int)) by {
        assert forall|i: int| 0 <= i < written implies file_byte(
            store1,
            inode1.direct_blocks@,
            offset + i,
        ) == data[i] by {
            lemma_byte_written(
                store0,
                sb0,
                store1,
                sb1,
                ino as int,
                plan,
                offset as int,
                end,
                data,
                offset + i,
            );
        }
    }
    assert forall|p: int|
        0 <= p < DIRECT_CAPACITY && !(offset <= p < offset + written) implies #[trigger] file_byte(
        store1,
        inode1.direct_blocks@,
        p,
    ) == file_byte(store0, d0, p) by {
        lemma_byte_kept(store0, sb0, store1, sb1, ino as int, plan, offset as int, end, data, p);
    }
    assert forall|other: int, p: int|
        1 <= other <= sb0.max_inodes && other != ino && 0 <= p < DIRECT_CAPACITY implies #[trigger] file_byte(
        store1,
        record_of(store1, sb1, other).direct_blocks@,
        p,
    ) == file_byte(store0, record_of(store0, sb0, other).direct_blocks@, p) by {
        let slot = p / (BLOCK as int);
        assert(is_slot(sb0, other, slot));
        assert(record_of(store1, sb1, other) == record_of(store0, sb0, other));
        if pointer(store0, sb0, other, slot) != 0 {
            lemma_block_untouched(
                store0,
                sb0,
                store1,
                sb1,
                ino as int,
                plan,
                offset as int,
                end,
                data,
                other,
                slot,
            );
        }
    }
}

/// Writing the record of a new file, and the superblock after it, keeps the
/// filesystem consistent, where the record that was in the slot named no
/// block.  The new record names none, and every other record is as it was.
pub proof fn lemma_create_keeps_consistent(
    store0: Seq<Seq<u8>>,
    sb0: SuperblockDisk,
    sb1: SuperblockDisk,
    ino: int,
    rec: InodeDisk,
)
    requires
        consistent(store0, sb0),
        same_regions(sb0, sb1),
        1 <= ino <= sb0.max_inodes,
        forall|k: int| 0 <= k < 12 ==> pointer(store0, sb0, ino, k) == 0,
        forall|k: int| 0 <= k < 12 ==> rec.direct_blocks@[k] == 0,
    ensures
        consistent(with_inode(store0, sb1, ino, rec).update(0, padded_block(sb1.to_bytes())), sb1),
        forall|other: int|
            1 <= other <= sb0.max_inodes ==> #[trigger] record_of(
                with_inode(store0, sb1, ino, rec).update(0, padded_block(sb1.to_bytes())),
                sb1,
                other,
            ) == (if other == ino {
                rec
            } else {
                record_of(store0, sb0, other)
            }),
{
    let its = sb0.inode_table_start as int;
    let itb = sb0.inode_table_blocks as int;
    let fbs = sb0.free_bitmap_start as int;
    let fbb = sb0.free_bitmap_blocks as int;
    let a = with_inode(store0, sb1, ino, rec);
    let b = a.update(0, padded_block(sb1.to_bytes()));
    assert(inode_slot_ok(store0, sb1, ino));
    lemma_records_after_with_inode(store0, sb1, ino, rec, ino);
    assert(region_bytes(b, its, itb) =~= region_bytes(a, its, itb));
    assert(region_bytes(b, fbs, fbb) =~= region_bytes(store0, fbs, fbb)) by {
        assert forall|j: int| fbs <= j < fbs + fbb implies b[j] == store0[j] by {
            assert(a[j] == store0[j]);
        }
    }
    assert(stored_bitmap(b, sb1) == stored_bitmap(store0, sb0));
    assert forall|other: int| 1 <= other <= sb0.max_inodes implies #[trigger] record_of(
        b,
        sb1,
        other,
    ) == (if other == ino {
        rec
    } else {
        record_of(store0, sb0, other)
    }) by {
        lemma_records_after_with_inode(store0, sb1, ino, rec, other);
        assert(record_of(b, sb1, other) == record_of(a, sb1, other));
    }
    assert forall|i: int, k: int| is_slot(sb0, i, k) implies #[trigger] pointer(b, sb1, i, k)
        == pointer(store0, sb0, i, k) by {
        assert(record_of(b, sb1, i) == (if i == ino {
            rec
        } else {
            record_of(store0, sb0, i)
        }));
    }
    assert(regions_ok(b, sb1)) by {
        assert forall|j: int| 0 <= j < sb1.data_blocks_start implies (#[trigger] b[j]).len()
            >= BLOCK by {
            if j != 0 && !(its <= j < its + itb) {
                assert(a[j] == store0[j]);
            }
        }
    }
    assert forall|x: int| names_block(b, sb1, x) <==> names_block(store0, sb0, x) by {
        if names_block(b, sb1, x) {
            let (i, k) = choose|i: int, k: int|
                is_slot(sb1, i, k) && x != 0 && #[trigger] pointer(b, sb1, i, k) == x;
            assert(is_slot(sb0, i, k));
            assert(pointer(store0, sb0, i, k) == x);
        }
        if names_block(store0, sb0, x) {
            let (i, k) = choose|i: int, k: int|
                is_slot(sb0, i, k) && x != 0 && #[trigger] pointer(store0, sb0, i, k) == x;
            assert(is_slot(sb1, i, k));
            assert(pointer(b, sb1, i, k) == x);
        }
    }
    assert(pointers_in_range(b, sb1)) by {
        assert forall|i: int, k: int| is_slot(sb1, i, k) implies ({
            let p = #[trigger] pointer(b, sb1, i, k);
            p == 0 || sb1.data_blocks_start <= p < sb1.total_blocks
        }) by {
            assert(is_slot(sb0, i, k));
            assert(pointer(b, sb1, i, k) == pointer(store0, sb0, i, k));
        }
    }
    assert(pointers_unique(b, sb1)) by {
        assert forall|i1: int, k1: int, i2: int, k2: int|
            is_slot(sb1, i1, k1) && is_slot(sb1, i2, k2) && (i1 != i2 || k1 != k2) && pointer(
                b,
                sb1,
                i1,
                k1,
            ) != 0 implies #[trigger] pointer(b, sb1, i1, k1) != #[trigger] pointer(
            b,
            sb1,
            i2,
            k2,
        ) by {
            assert(is_slot(sb0, i1, k1) && is_slot(sb0, i2, k2));
            assert(pointer(b, sb1, i1, k1) == pointer(store0, sb0, i1, k1));
            assert(pointer(b, sb1, i2, k2) == pointer(store0, sb0, i2, k2));
        }
    }
    assert(bitmap_agrees(b, sb1)) by {
        assert forall|x: int| 0 <= x < sb1.total_blocks implies (#[trigger] bit_at(
            stored_bitmap(b, sb1),
            x,
        ) <==> (x < sb1.data_blocks_start || names_block(b, sb1, x))) by {
            assert(bit_at(stored_bitmap(store0, sb0), x) <==> (x < sb0.data_blocks_start
                || names_block(store0, sb0, x)));
        }
    }
}

/// Whether one of the first `k` pointers names block `b` of the data
/// region.
pub open spec fn among(sb: SuperblockDisk, direct: Seq<u32>, k: int, b: int) -> bool {
    exists|j: int|
        0 <= j < k && #[trigger] direct[j] == b && sb.data_blocks_start <= b < sb.total_blocks
}

/// After the blocks of some pointers were released, a block is marked
/// exactly when it was marked and none of the pointers names it.
pub proof fn lemma_released_bits(
    bitmap: Seq<u8>,
    sb: SuperblockDisk,
    direct: Seq<u32>,
    k: int,
    b: int,
)
    requires
        0 <= k <= direct.len(),
    ensures
        released_bitmap(bitmap, sb, direct, k).len() == bitmap.len(),
        bit_at(released_bitmap(bitmap, sb, direct, k), b) <==> (bit_at(bitmap, b) && !among(
            sb,
            direct,
            k,
            b,
        )),
    decreases k,
{
    if k > 0 {
        lemma_released_bits(bitmap, sb, direct, k - 1, b);
        let before = released_bitmap(bitmap, sb, direct, k - 1);
        let p = direct[k - 1];
        if sb.data_blocks_start <= p < sb.total_blocks {
            if p as int / 8 < before.len() {
                lemma_bitmap_with_bit(before, p as int, false, b);
            }
        }
        if among(sb, direct, k, b) {
            let j = choose|j: int|
                0 <= j < k && #[trigger] direct[j] == b && sb.data_blocks_start <= b
                    < sb.total_blocks;
            if j < k - 1 {
                assert(among(sb, direct, k - 1, b));
            }
        }
        if among(sb, direct, k - 1, b) {
            let j = choose|j: int|
                0 <= j < k - 1 && #[trigger] direct[j] == b && sb.data_blocks_start <= b
                    < sb.total_blocks;
            assert(direct[j] == b);
        }
        if p == b && sb.data_blocks_start <= b < sb.total_blocks {
            assert(direct[k - 1] == b);
        }
    }
}

/// Giving an inode back keeps the filesystem consistent: its pointers name
/// nothing any more, and the bits of the blocks that they named are clear.
pub proof fn lemma_free_inode_keeps_consistent(
    store0: Seq<Seq<u8>>,
    sb0: SuperblockDisk,
    sb1: SuperblockDisk,
    ino: int,
    zeroed: InodeDisk,
)
    requires
        consistent(store0, sb0),
        same_regions(sb0, sb1),
        1 <= ino <= sb0.max_inodes,
        zeroed.is_zeroed(),
    ensures
        consistent(
            with_inode(
                with_chunks(
                    store0,
                    sb0.free_bitmap_start as int,
                    sb0.free_bitmap_blocks as int,
                    released_bitmap(
                        stored_bitmap(store0, sb0),
                        sb0,
                        record_of(store0, sb0, ino).direct_blocks@,
                        12,
                    ),
                ),
                sb1,
                ino,
                zeroed,
            ).update(0, padded_block(sb1.to_bytes())),
            sb1,
        ),
{
    let its = sb0.inode_table_start as int;
    let itb = sb0.inode_table_blocks as int;
    let fbs = sb0.free_bitmap_start as int;
    let fbb = sb0.free_bitmap_blocks as int;
    let bitmap0 = stored_bitmap(store0, sb0);
    let d0 = record_of(store0, sb0, ino).direct_blocks@;
    let bitmap1 = released_bitmap(bitmap0, sb0, d0, 12);
    let a = with_chunks(store0, fbs, fbb, bitmap1);
    let b = with_inode(a, sb1, ino, zeroed);
    let c = b.update(0, padded_block(sb1.to_bytes()));
    lemma_released_bits(bitmap0, sb0, d0, 12, 0);
    lemma_region_after_write(store0, fbs, fbb, bitmap1);
    lemma_bitmap_after_write(store0, sb1, bitmap1);
    assert(region_bytes(a, its, itb) =~= region_bytes(store0, its, itb)) by {
        assert forall|j: int| its <= j < its + itb implies a[j] == store0[j] by {}
    }
    assert(inode_slot_ok(a, sb1, ino)) by {
        assert forall|j: int| its <= j < its + itb implies a[j].len() >= BLOCK by {
            assert(a[j] == store0[j]);
        }
    }
    lemma_records_after_with_inode(a, sb1, ino, zeroed, ino);
    assert(region_bytes(c, its, itb) =~= region_bytes(b, its, itb));
    assert(region_bytes(c, fbs, fbb) =~= region_bytes(a, fbs, fbb)) by {
        assert forall|j: int| fbs <= j < fbs + fbb implies c[j] == a[j] by {
            assert(b[j] == a[j]);
        }
    }
    assert(stored_bitmap(c, sb1) == bitmap1);
    assert forall|i: int, k: int| is_slot(sb0, i, k) implies #[trigger] pointer(c, sb1, i, k) == (
    if i == ino {
        0u32
    } else {
        pointer(store0, sb0, i, k)
    }) by {
        lemma_records_after_with_inode(a, sb1, ino, zeroed, i);
        assert(record_of(c, sb1, i) == record_of(b, sb1, i));
        assert(record_of(a, sb1, i) == record_of(store0, sb0, i));
    }
    assert(regions_ok(c, sb1)) by {
        assert forall|j: int| 0 <= j < sb1.data_blocks_start implies (#[trigger] c[j]).len()
            >= BLOCK by {
            if j != 0 && !(its <= j < its + itb) {
                assert(b[j] == a[j]);
                if !(fbs <= j < fbs + fbb) {
                    assert(a[j] == store0[j]);
                }
            }
        }
    }
    assert forall|x: int| names_block(c, sb1, x) <==> (names_block(store0, sb0, x) && !among(
        sb0,
        d0,
        12,
        x,
    )) by {
        if names_block(c, sb1, x) {
            let (i, k) = choose|i: int, k: int|
                is_slot(sb1, i, k) && x != 0 && #[trigger] pointer(c, sb1, i, k) == x;
            assert(is_slot(sb0, i, k));
            assert(i != ino);
            assert(pointer(store0, sb0, i, k) == x);
            if among(sb0, d0, 12, x) {
                let j = choose|j: int|
                    0 <= j < 12 && #[trigger] d0[j] == x && sb0.data_blocks_start <= x
                        < sb0.total_blocks;
                assert(is_slot(sb0, ino, j));
                assert(pointer(store0, sb0, ino, j) == x);
                assert(pointer(store0, sb0, i, k) != pointer(store0, sb0, ino, j));
            }
        }
        if names_block(store0, sb0, x) && !among(sb0, d0, 12, x) {
            let (i, k) = choose|i: int, k: int|
                is_slot(sb0, i, k) && x != 0 && #[trigger] pointer(store0, sb0, i, k) == x;
            assert(is_slot(sb1, i, k));
            if i == ino {
                assert(d0[k] == x);
                assert(sb0.data_blocks_start <= x < sb0.total_blocks);
                assert(among(sb0, d0, 12, x));
            }
            assert(pointer(c, sb1, i, k) == x);
        }
    }
    assert(pointers_in_range(c, sb1)) by {
        assert forall|i: int, k: int| is_slot(sb1, i, k) implies ({
            let p = #[trigger] pointer(c, sb1, i, k);
            p == 0 || sb1.data_blocks_start <= p < sb1.total_blocks
        }) by {
            assert(is_slot(sb0, i, k));
            if i != ino {
                assert(pointer(c, sb1, i, k) == pointer(store0, sb0, i, k));
            }
        }
    }
    assert(pointers_unique(c, sb1)) by {
        assert forall|i1: int, k1: int, i2: int, k2: int|
            is_slot(sb1, i1, k1) && is_slot(sb1, i2, k2) && (i1 != i2 || k1 != k2) && pointer(
                c,
                sb1,
                i1,
                k1,
            ) != 0 implies #[trigger] pointer(c, sb1, i1, k1) != #[trigger] pointer(
            c,
            sb1,
            i2,
            k2,
        ) by {
            assert(is_slot(sb0, i1, k1) && is_slot(sb0, i2, k2));
            assert(i1 != ino);
            assert(pointer(c, sb1, i1, k1) == pointer(store0, sb0, i1, k1));
            if i2 != ino {
                assert(pointer(c, sb1, i2, k2) == pointer(store0, sb0, i2, k2));
            }
        }
    }
    assert(bitmap_agrees(c, sb1)) by {
        assert forall|x: int| 0 <= x < sb1.total_blocks implies (#[trigger] bit_at(
            stored_bitmap(c, sb1),
            x,
        ) <==> (x < sb1.data_blocks_start || names_block(c, sb1, x))) by {
            lemma_released_bits(bitmap0, sb0, d0, 12, x);
            assert(bit_at(bitmap0, x) <==> (x < sb0.data_blocks_start || names_block(
                store0,
                sb0,
                x,
            )));
        }
    }
}

} // verus!
