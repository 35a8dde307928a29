//! The formatter: lays a fresh filesystem over the blocks of a store.
use vstd::prelude::*;

use crate::disk::{lemma_inode_layout, InodeDisk, SuperblockDisk, INODE_DISK_SIZE};
use crate::layout::{
    build_layout, fresh_bitmap, fresh_inode_table, fresh_root_inode, fresh_superblock,
    init_fresh_fs, lemma_valid_layout_is_ordered, planned_data_start, FsLayout, LayoutError,
};
use crate::meta::{
    inode_offset, inode_table_bytes, lemma_bitmap_after_write, lemma_the_inode, stored_bitmap,
    the_inode, write_superblock,
};
use crate::store::{
    lemma_region_after_write, padded_block, padded_to, region_bytes, region_readable, with_chunks,
    BlockStore, FsError, BLOCK,
};

verus! {

/// Why a store could not be formatted.
#[derive(Clone, Copy, Debug, PartialEq, Eq)]
pub enum FormatError {
    /// The store holds no block at all.
    NoBlocks,
    /// The store holds more blocks than a 32-bit block count can tell.
    TooManyBlocks,
    /// No layout fits the number of blocks.
    Layout(LayoutError),
}

/// The bytes of a list of inode records, one record after the other.
pub open spec fn inodes_bytes(inodes: Seq<InodeDisk>) -> Seq<u8> {
    Seq::new(
        (inodes.len() * INODE_DISK_SIZE) as nat,
        |i: int| inodes[i / (INODE_DISK_SIZE as int)].to_bytes()[i % (INODE_DISK_SIZE as int)],
    )
}

/// Encodes a list of inode records, one record after the other.
pub fn encode_inodes(inodes: &[InodeDisk]) -> (data: Vec<u8>)
    ensures
        data@ == inodes_bytes(inodes@),
{
    let mut data: Vec<u8> = Vec::new();
    let mut k: usize = 0;
    while k < inodes.len()
        invariant
            k <= inodes@.len(),
            data@ == inodes_bytes(inodes@.subrange(0, k as int)),
        decreases inodes@.len() - k,
    {
        let ghost head = data@;
        inodes[k].encode(&mut data);
        proof {
            let next = inodes_bytes(inodes@.subrange(0, k + 1));
            assert(data@.len() == next.len());
            assert forall|i: int| 0 <= i < next.len() implies data@[i] == next[i] by {
                if i < head.len() {
                    assert(i / (INODE_DISK_SIZE as int) < k);
                    assert(data@[i] == head[i]);
                } else {
                    assert(i / (INODE_DISK_SIZE as int) == k);
                    assert(i % (INODE_DISK_SIZE as int) == i - head.len());
                }
            }
            assert(data@ =~= next);
        }
        k += 1;
    }
    assert(inodes@.subrange(0, inodes@.len() as int) =~= inodes@);
    data
}

/// Writes the inode records over the inode table region; what the region
/// holds beyond them is zero.
///
/// Fails, and changes nothing, when the records need more bytes than the
/// region has, or when the region reaches beyond the store.
pub fn write_inode_table(store: &mut BlockStore, layout: &FsLayout, inodes: &[InodeDisk]) -> (r:
    Result<(), FsError>)
    ensures
        match r {
            Ok(()) => {
                &&& inodes@.len() * INODE_DISK_SIZE <= layout.inode_table_blocks * BLOCK
                &&& layout.inode_table_start + layout.inode_table_blocks <= old(store)@.len()
                &&& final(store)@ == with_chunks(
                    old(store)@,
                    layout.inode_table_start as int,
                    layout.inode_table_blocks as int,
                    inodes_bytes(inodes@),
                )
            },
            Err(FsError::RegionTooSmall { bytes, capacity }) => {
                &&& inodes@.len() * INODE_DISK_SIZE > layout.inode_table_blocks * BLOCK
                &&& bytes == inodes@.len() * INODE_DISK_SIZE
                &&& capacity == layout.inode_table_blocks * BLOCK
                &&& final(store)@ == old(store)@
            },
            Err(e) => {
                &&& inodes@.len() * INODE_DISK_SIZE <= layout.inode_table_blocks * BLOCK
                &&& layout.inode_table_start + layout.inode_table_blocks > old(store)@.len()
                &&& final(store)@ == old(store)@
                &&& e == FsError::RegionOutOfRange {
                    first: layout.inode_table_start as u64,
                    end: (layout.inode_table_start + layout.inode_table_blocks) as u64,
                    blocks: old(store)@.len() as u64,
                }
            },
        },
{
    let data = encode_inodes(inodes);
    let max_bytes: u64 = layout.inode_table_blocks as u64 * BLOCK as u64;
    if data.len() as u64 > max_bytes {
        return Err(FsError::RegionTooSmall { bytes: data.len() as u64, capacity: max_bytes });
    }
    store.write_chunks(layout.inode_table_start, layout.inode_table_blocks as u64, data.as_slice())
}

/// Writes the bitmap over the bitmap region; what the region holds beyond
/// the bitmap's bytes is zero.
///
/// Fails, and changes nothing, when the bitmap needs more bytes than the
/// region has, or when the region reaches beyond the store.
pub fn write_bitmap(store: &mut BlockStore, layout: &FsLayout, bitmap: &[u8]) -> (r: Result<
    (),
    FsError,
>)
    ensures
        match r {
            Ok(()) => {
                &&& bitmap@.len() <= layout.free_bitmap_blocks * BLOCK
                &&& layout.free_bitmap_start + layout.free_bitmap_blocks <= old(store)@.len()
                &&& final(store)@ == with_chunks(
                    old(store)@,
                    layout.free_bitmap_start as int,
                    layout.free_bitmap_blocks as int,
                    bitmap@,
                )
            },
            Err(FsError::RegionTooSmall { bytes, capacity }) => {
                &&& bitmap@.len() > layout.free_bitmap_blocks * BLOCK
                &&& bytes == bitmap@.len()
                &&& capacity == layout.free_bitmap_blocks * BLOCK
                &&& final(store)@ == old(store)@
            },
            Err(e) => {
                &&& bitmap@.len() <= layout.free_bitmap_blocks * BLOCK
                &&& layout.free_bitmap_start + layout.free_bitmap_blocks > old(store)@.len()
                &&& final(store)@ == old(store)@
                &&& e == FsError::RegionOutOfRange {
                    first: layout.free_bitmap_start as u64,
                    end: (layout.free_bitmap_start + layout.free_bitmap_blocks) as u64,
                    blocks: old(store)@.len() as u64,
                }
            },
        },
{
    let max_bytes: u64 = layout.free_bitmap_blocks as u64 * BLOCK as u64;
    if bitmap.len() as u64 > max_bytes {
        return Err(FsError::RegionTooSmall { bytes: bitmap.len() as u64, capacity: max_bytes });
    }
    store.write_chunks(layout.free_bitmap_start, layout.free_bitmap_blocks as u64, bitmap)
}

/// Fills every block of the data region with zeros.
///
/// Fails, and changes nothing, when the data region is not inside the store.
pub fn zero_data_blocks(store: &mut BlockStore, layout: &FsLayout) -> (r: Result<(), FsError>)
    ensures
        match r {
            Ok(()) => {
                &&& layout.data_blocks_start <= layout.total_blocks <= old(store)@.len()
                &&& final(store)@ == with_chunks(
                    old(store)@,
                    layout.data_blocks_start as int,
                    layout.total_blocks - layout.data_blocks_start,
                    Seq::empty(),
                )
            },
            Err(e) => {
                &&& !(layout.data_blocks_start <= layout.total_blocks <= old(store)@.len())
                &&& final(store)@ == old(store)@
                &&& e == FsError::RegionOutOfRange {
                    first: layout.data_blocks_start as u64,
                    end: layout.total_blocks as u64,
                    blocks: old(store)@.len() as u64,
                }
            },
        },
{
    if layout.data_blocks_start > layout.total_blocks || layout.total_blocks as u64
        > store.len() as u64 {
        return Err(
            FsError::RegionOutOfRange {
                first: layout.data_blocks_start as u64,
                end: layout.total_blocks as u64,
                blocks: store.len() as u64,
            },
        );
    }
    let none: Vec<u8> = Vec::new();
    match store.write_chunks(
        layout.data_blocks_start,
        (layout.total_blocks - layout.data_blocks_start) as u64,
        none.as_slice(),
    ) {
        Ok(()) => Ok(()),
        Err(e) => Err(e),
    }
}

/// What a freshly formatted store holds, for the layout `l` of its block
/// count: the superblock in block 0; a readable inode table with the root
/// directory as inode 1 and free records in all other slots; a readable
/// bitmap that marks exactly the blocks before the data region; zeros in
/// every data block.
pub open spec fn freshly_formatted(
    store: Seq<Seq<u8>>,
    l: FsLayout,
    sb: SuperblockDisk,
    now: u64,
) -> bool {
    &&& store.len() == l.total_blocks
    &&& fresh_superblock(l, sb)
    &&& store[0] == padded_block(sb.to_bytes())
    &&& region_readable(store, l.inode_table_start as int, l.inode_table_blocks as int)
    &&& region_readable(store, l.free_bitmap_start as int, l.free_bitmap_blocks as int)
    &&& forall|ino: int|
        1 <= ino <= l.max_inodes ==> (if ino == 1 {
            fresh_root_inode(now, #[trigger] the_inode(inode_table_bytes(store, sb), inode_offset(ino)))
        } else {
            (#[trigger] the_inode(inode_table_bytes(store, sb), inode_offset(ino))).is_zeroed()
        })
    &&& fresh_bitmap(l, stored_bitmap(store, sb))
    &&& forall|j: int|
        l.data_blocks_start <= j < l.total_blocks ==> #[trigger] store[j] == padded_block(
            Seq::empty(),
        )
}

/// Whether the `n` bytes of `s` from `at` on are the first `n` bytes of `t`.
pub open spec fn same_bytes(s: Seq<u8>, at: int, t: Seq<u8>, n: int) -> bool {
    forall|i: int| 0 <= i < n ==> #[trigger] t[i] == s[at + i]
}

/// A 16-bit field reads the same from equal bytes.
pub proof fn lemma_le_u16_same(s: Seq<u8>, at: int, t: Seq<u8>, n: int, c: int)
    requires
        same_bytes(s, at, t, n),
        0 <= c,
        c + 2 <= n,
    ensures
        crate::bytes::le_u16(s, at + c) == crate::bytes::le_u16(t, c),
{
    assert(t[c] == s[at + c] && t[c + 1] == s[at + c + 1]);
}

/// A 32-bit field reads the same from equal bytes.
pub proof fn lemma_le_u32_same(s: Seq<u8>, at: int, t: Seq<u8>, n: int, c: int)
    requires
        same_bytes(s, at, t, n),
        0 <= c,
        c + 4 <= n,
    ensures
        crate::bytes::le_u32(s, at + c) == crate::bytes::le_u32(t, c),
{
    assert(t[c] == s[at + c] && t[c + 1] == s[at + c + 1]);
    assert(t[c + 2] == s[at + c + 2] && t[c + 3] == s[at + c + 3]);
}

/// A 64-bit field reads the same from equal bytes.
pub proof fn lemma_le_u64_same(s: Seq<u8>, at: int, t: Seq<u8>, n: int, c: int)
    requires
        same_bytes(s, at, t, n),
        0 <= c,
        c + 8 <= n,
    ensures
        crate::bytes::le_u64(s, at + c) == crate::bytes::le_u64(t, c),
{
    lemma_le_u32_same(s, at, t, n, c);
    lemma_le_u32_same(s, at, t, n, c + 4);
}

/// A record decodes from any place where the bytes are those that it
/// decodes from.
pub proof fn lemma_inode_decodes_from_same(inode: InodeDisk, s: Seq<u8>, at: int, t: Seq<u8>)
    requires
        same_bytes(s, at, t, INODE_DISK_SIZE as int),
        inode.decoded_from(t, 0),
    ensures
        inode.decoded_from(s, at),
{
    let n = INODE_DISK_SIZE as int;
    lemma_le_u32_same(s, at, t, n, 0);
    lemma_le_u16_same(s, at, t, n, 4);
    lemma_le_u16_same(s, at, t, n, 6);
    lemma_le_u32_same(s, at, t, n, 8);
    lemma_le_u32_same(s, at, t, n, 12);
    lemma_le_u64_same(s, at, t, n, 16);
    lemma_le_u64_same(s, at, t, n, 24);
    lemma_le_u64_same(s, at, t, n, 32);
    lemma_le_u64_same(s, at, t, n, 40);
    lemma_le_u32_same(s, at, t, n, 48);
    assert forall|k: int| 0 <= k < 12 implies inode.direct_blocks@[k] == crate::bytes::le_u32(
        s,
        at + 52 + 4 * k,
    ) by {
        lemma_le_u32_same(s, at, t, n, 52 + 4 * k);
    }
    lemma_le_u32_same(s, at, t, n, 100);
    lemma_le_u32_same(s, at, t, n, 104);
    lemma_le_u32_same(s, at, t, n, 108);
}

/// The records of a fresh inode table are found again in the table's bytes.
proof fn lemma_fresh_table_decodes(
    bytes: Seq<u8>,
    l: FsLayout,
    inodes: Seq<InodeDisk>,
    now: u64,
    ino: int,
)
    requires
        l.valid(),
        fresh_inode_table(l, now, inodes),
        bytes == padded_to(inodes_bytes(inodes), l.inode_table_blocks * BLOCK),
        1 <= ino <= l.max_inodes,
    ensures
        the_inode(bytes, inode_offset(ino)) == inodes[ino - 1],
{
    let at = inode_offset(ino);
    let mine = inodes[ino - 1];
    let t = mine.to_bytes();
    lemma_inode_layout(mine);
    assert forall|i: int| 0 <= i < 112 implies #[trigger] t[i] == bytes[at + i] by {
        assert((at + i) / (INODE_DISK_SIZE as int) == ino - 1);
        assert((at + i) % (INODE_DISK_SIZE as int) == i);
        assert(at + i < inodes.len() * INODE_DISK_SIZE);
    }
    lemma_inode_decodes_from_same(mine, bytes, at, t);
    lemma_the_inode(mine, bytes, at);
}

/// Writing the inode table, the bitmap and zeroed data blocks to a store
/// that holds the superblock gives a freshly formatted store.
proof fn lemma_format_result(
    s1: Seq<Seq<u8>>,
    l: FsLayout,
    sb: SuperblockDisk,
    inodes: Seq<InodeDisk>,
    bitmap: Seq<u8>,
    now: u64,
)
    requires
        l.valid(),
        s1.len() == l.total_blocks,
        s1[0] == padded_block(sb.to_bytes()),
        fresh_superblock(l, sb),
        fresh_inode_table(l, now, inodes),
        fresh_bitmap(l, bitmap),
    ensures
        freshly_formatted(
            with_chunks(
                with_chunks(
                    with_chunks(
                        s1,
                        l.inode_table_start as int,
                        l.inode_table_blocks as int,
                        inodes_bytes(inodes),
                    ),
                    l.free_bitmap_start as int,
                    l.free_bitmap_blocks as int,
                    bitmap,
                ),
                l.data_blocks_start as int,
                l.total_blocks - l.data_blocks_start,
                Seq::empty(),
            ),
            l,
            sb,
            now,
        ),
{
    lemma_valid_layout_is_ordered(l);
    let its = l.inode_table_start as int;
    let itb = l.inode_table_blocks as int;
    let fbs = l.free_bitmap_start as int;
    let fbb = l.free_bitmap_blocks as int;
    let ds = l.data_blocks_start as int;
    let total = l.total_blocks as int;
    let table = inodes_bytes(inodes);
    let s2 = with_chunks(s1, its, itb, table);
    let s3 = with_chunks(s2, fbs, fbb, bitmap);
    let s4 = with_chunks(s3, ds, total - ds, Seq::empty());
    lemma_region_after_write(s1, its, itb, table);
    lemma_region_after_write(s2, fbs, fbb, bitmap);
    lemma_region_after_write(s3, ds, total - ds, Seq::empty());
    lemma_bitmap_after_write(s2, sb, bitmap);
    assert(s4[0] == s1[0]);
    assert(region_bytes(s4, its, itb) =~= region_bytes(s2, its, itb)) by {
        assert forall|j: int| its <= j < its + itb implies s4[j] == s2[j] by {
            assert(s3[j] == s2[j]);
        }
    }
    assert(region_bytes(s4, fbs, fbb) =~= region_bytes(s3, fbs, fbb)) by {
        assert forall|j: int| fbs <= j < fbs + fbb implies s4[j] == s3[j] by {}
    }
    assert(stored_bitmap(s4, sb) == stored_bitmap(s3, sb));
    assert forall|ino: int| 1 <= ino <= l.max_inodes implies (if ino == 1 {
        fresh_root_inode(
            now,
            #[trigger] the_inode(inode_table_bytes(s4, sb), inode_offset(ino)),
        )
    } else {
        (#[trigger] the_inode(inode_table_bytes(s4, sb), inode_offset(ino))).is_zeroed()
    }) by {
        lemma_fresh_table_decodes(inode_table_bytes(s4, sb), l, inodes, now, ino);
    }
    assert(region_readable(s4, its, itb)) by {
        assert forall|j: int| its <= j < its + itb implies s4[j].len() >= BLOCK by {
            assert(s4[j] == s2[j]);
        }
    }
    assert(region_readable(s4, fbs, fbb)) by {
        assert forall|j: int| fbs <= j < fbs + fbb implies s4[j].len() >= BLOCK by {
            assert(s4[j] == s3[j]);
        }
    }
    assert forall|j: int| ds <= j < total implies #[trigger] s4[j] == padded_block(
        Seq::empty(),
    ) by {
        assert(s4[j] == crate::store::chunk_block(Seq::empty(), j - ds));
        assert(crate::store::chunk_block(Seq::empty(), j - ds) =~= padded_block(Seq::empty()));
    }
}

/// Writes the parts of a fresh filesystem to the store, in the order
/// superblock, inode table, bitmap, data blocks.
fn write_fresh(
    store: &mut BlockStore,
    layout: &FsLayout,
    superblock: &SuperblockDisk,
    inodes: &Vec<InodeDisk>,
    bitmap: &Vec<u8>,
)
    requires
        old(store)@.len() == layout.total_blocks,
        old(store)@.len() > 0,
        layout.inode_table_start + layout.inode_table_blocks <= layout.total_blocks,
        layout.free_bitmap_start + layout.free_bitmap_blocks <= layout.total_blocks,
        layout.data_blocks_start <= layout.total_blocks,
        inodes@.len() * INODE_DISK_SIZE <= layout.inode_table_blocks * BLOCK,
        bitmap@.len() <= layout.free_bitmap_blocks * BLOCK,
    ensures
        final(store)@ == with_chunks(
            with_chunks(
                with_chunks(
                    old(store)@.update(0, padded_block(superblock.to_bytes())),
                    layout.inode_table_start as int,
                    layout.inode_table_blocks as int,
                    inodes_bytes(inodes@),
                ),
                layout.free_bitmap_start as int,
                layout.free_bitmap_blocks as int,
                bitmap@,
            ),
            layout.data_blocks_start as int,
            layout.total_blocks - layout.data_blocks_start,
            Seq::empty(),
        ),
{
    match write_superblock(store, superblock) {
        Ok(()) => {},
        Err(_) => {
            vstd::pervasive::unreached()
        },
    }
    match write_inode_table(store, layout, inodes.as_slice()) {
        Ok(()) => {},
        Err(_) => {
            vstd::pervasive::unreached()
        },
    }
    match write_bitmap(store, layout, bitmap.as_slice()) {
        Ok(()) => {},
        Err(_) => {
            vstd::pervasive::unreached()
        },
    }
    match zero_data_blocks(store, layout) {
        Ok(()) => {},
        Err(_) => {
            vstd::pervasive::unreached()
        },
    }
}

/// The region boundaries that a superblock tells.
pub open spec fn layout_of(sb: SuperblockDisk) -> FsLayout {
    FsLayout {
        total_blocks: sb.total_blocks,
        inode_table_start: sb.inode_table_start,
        inode_table_blocks: sb.inode_table_blocks,
        free_bitmap_start: sb.free_bitmap_start,
        free_bitmap_blocks: sb.free_bitmap_blocks,
        data_blocks_start: sb.data_blocks_start,
        max_inodes: sb.max_inodes,
    }
}

/// Formats the store with a layout planned for its number of blocks.
pub fn format_with(store: &mut BlockStore, layout: &FsLayout, now: u64) -> (sb: SuperblockDisk)
    requires
        layout.valid(),
        old(store)@.len() == layout.total_blocks,
    ensures
        freshly_formatted(final(store)@, *layout, sb, now),
{
    proof {
        lemma_valid_layout_is_ordered(*layout);
    }
    let (superblock, inodes, bitmap) = init_fresh_fs(layout, now);
    write_fresh(store, layout, &superblock, &inodes, &bitmap);
    proof {
        let s1 = old(store)@.update(0, padded_block(superblock.to_bytes()));
        lemma_format_result(s1, *layout, superblock, inodes@, bitmap@, now);
    }
    superblock
}

/// Formats the store: plans the layout for its number of blocks, and writes
/// the superblock, the inode table, the bitmap and zeroed data blocks.
/// `now` is the time in seconds since the epoch that the root directory gets.
///
/// The filesystem that it leaves is consistent: the bitmap marks exactly
/// the blocks before the data region, and no inode names a block.
///
/// Fails before anything is written when the store is empty, holds more
/// than `u32::MAX` blocks, or is too small for a layout.
pub fn format(store: &mut BlockStore, now: u64) -> (r: Result<SuperblockDisk, FormatError>)
    ensures
        match r {
            Ok(sb) => sb.total_blocks == old(store)@.len() && layout_of(sb).valid()
                && freshly_formatted(final(store)@, layout_of(sb), sb, now)
                && crate::consistency::consistent(final(store)@, sb),
            Err(FormatError::NoBlocks) => old(store)@.len() == 0 && final(store)@ == old(store)@,
            Err(FormatError::TooManyBlocks) => old(store)@.len() > u32::MAX && final(store)@
                == old(store)@,
            Err(FormatError::Layout(e)) => {
                &&& 0 < old(store)@.len() <= u32::MAX
                &&& final(store)@ == old(store)@
                &&& match e {
                    LayoutError::TooFewBlocks { total_blocks } => total_blocks == old(
                        store,
                    )@.len() && total_blocks < 3,
                    LayoutError::NoDataBlocks { total_blocks, data_blocks_start } => {
                        &&& total_blocks == old(store)@.len()
                        &&& total_blocks >= 3
                        &&& planned_data_start(total_blocks as int) >= total_blocks
                        &&& data_blocks_start == planned_data_start(total_blocks as int)
                    },
                }
            },
        },
{
    let n: usize = store.len();
    if n == 0 {
        return Err(FormatError::NoBlocks);
    }
    if n > 0xFFFF_FFFF {
        return Err(FormatError::TooManyBlocks);
    }
    match build_layout(n as u32) {
        Ok(layout) => {
            let sb = format_with(store, &layout, now);
            assert(layout_of(sb) == layout);
            assert(sb.total_blocks == layout.total_blocks);
            proof {
                crate::consistency::lemma_fresh_is_consistent(store@, layout, sb, now);
            }
            Ok(sb)
        },
        Err(e) => Err(FormatError::Layout(e)),
    }
}

} // verus!
