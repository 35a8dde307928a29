//! The file data mapper: which block holds which bytes of a file.
//!
//! A file's bytes lie in the blocks that the twelve direct pointers of its
//! inode name: byte `p` is byte `p % 1024` of the block in slot `p / 1024`.
//! A pointer of zero is a hole, which reads as zeros.  The indirect
//! pointers are not followed, so a file holds at most `12 * 1024` bytes of
//! data and the mapper stops after slot 11.
use vstd::prelude::*;
use crate::disk::{InodeDisk, SuperblockDisk, DIRECT_BLOCKS};
use crate::store::{BlockStore, FsError, BLOCK};

verus! {

/// Bytes that the direct pointers of one inode can address.
pub const DIRECT_CAPACITY: u64 = 12288;

/// A run of bytes inside one block of a file.
#[derive(Clone, Copy, Debug, PartialEq, Eq)]
pub struct Segment {
    /// Which of the inode's direct pointers names the block.
    pub slot: u32,
    /// The pointer's value: the block's index, or zero for a hole.
    pub block: u32,
    /// First byte of the run, counted inside the block.
    pub start: u32,
    /// End of the run, counted inside the block.
    pub end: u32,
}

/// Where a request for `len` bytes from `offset` ends in a file of `size`
/// bytes: at the file's end at the latest, and at `offset` itself where
/// that lies at or behind the file's end.
pub open spec fn clipped_end(size: int, offset: int, len: int) -> int {
    if offset >= size {
        offset
    } else if offset + len <= size {
        offset + len
    } else {
        size
    }
}

/// Number of blocks that the bytes from `offset` up to `end` touch, as far
/// as the direct pointers reach.
pub open spec fn segment_count(offset: int, end: int) -> int {
    if end <= offset || offset >= DIRECT_CAPACITY {
        0
    } else if end > DIRECT_CAPACITY {
        DIRECT_BLOCKS - offset / (BLOCK as int)
    } else {
        (end - 1) / (BLOCK as int) - offset / (BLOCK as int) + 1
    }
}

/// The `k`-th run of the bytes from `offset` up to `end`: it lies in slot
/// `offset / 1024 + k`, starts inside the block only in the first slot and
/// ends inside the block only in the slot that holds the last byte.
pub open spec fn segment_at(direct: Seq<u32>, offset: int, end: int, k: int) -> Segment {
    let slot = offset / (BLOCK as int) + k;
    Segment {
        slot: slot as u32,
        block: direct[slot],
        start: if k == 0 {
            (offset % (BLOCK as int)) as u32
        } else {
            0
        },
        end: if slot == (end - 1) / (BLOCK as int) {
            (end - slot * BLOCK) as u32
        } else {
            BLOCK as u32
        },
    }
}

/// The runs of the bytes from `offset` up to `end`, slot by slot.
pub open spec fn span_segments(direct: Seq<u32>, offset: int, end: int) -> Seq<Segment> {
    Seq::new(segment_count(offset, end) as nat, |k: int| segment_at(direct, offset, end, k))
}

/// The runs that a request for `len` bytes from `offset` reads in a file of
/// `size` bytes.
pub open spec fn mapped(direct: Seq<u32>, size: int, offset: int, len: int) -> Seq<Segment> {
    span_segments(direct, offset, clipped_end(size, offset, len))
}

/// End of the bytes from `offset` up to `end` that the direct pointers reach.
pub open spec fn reach_end(offset: int, end: int) -> int {
    if end <= offset || offset >= DIRECT_CAPACITY {
        offset
    } else if end > DIRECT_CAPACITY {
        DIRECT_CAPACITY as int
    } else {
        end
    }
}

/// The runs of the bytes from `offset` up to `end`, slot by slot, as far as
/// the direct pointers reach.
pub fn map_span(direct: &[u32; 12], offset: u64, end: u64) -> (segments: Vec<Segment>)
    ensures
        segments@ == span_segments(direct@, offset as int, end as int),
{
    let mut segments: Vec<Segment> = Vec::new();
    if end <= offset || offset >= DIRECT_CAPACITY {
        assert(segments@ =~= span_segments(direct@, offset as int, end as int));
        return segments;
    }
    let first: u64 = offset / 1024;
    let last: u64 = (end - 1) / 1024;
    let stop: u64 = if last > 11 {
        11
    } else {
        last
    };
    let mut slot: u64 = first;
    while slot <= stop
        invariant
            first <= slot <= stop + 1,
            stop <= 11,
            first == offset / 1024,
            last == (end - 1) / 1024,
            stop == (if last > 11 {
                11
            } else {
                last
            }),
            offset < end,
            offset < DIRECT_CAPACITY,
            segments@.len() == slot - first,
            forall|k: int|
                0 <= k < segments@.len() ==> #[trigger] segments@[k] == segment_at(
                    direct@,
                    offset as int,
                    end as int,
                    k,
                ),
        decreases stop + 1 - slot,
    {
        let start: u32 = if slot == first {
            (offset % 1024) as u32
        } else {
            0
        };
        let seg_end: u32 = if slot == last {
            (end - slot * 1024) as u32
        } else {
            1024
        };
        segments.push(
            Segment { slot: slot as u32, block: direct[slot as usize], start, end: seg_end },
        );
        slot += 1;
    }
    assert(segments@ =~= span_segments(direct@, offset as int, end as int));
    segments
}

/// The runs that a request for `len` bytes from `offset` reads in a file of
/// `size` bytes with the direct pointers `direct`.
pub fn map_range(direct: &[u32; 12], size: u64, offset: u64, len: u32) -> (segments: Vec<Segment>)
    ensures
        segments@ == mapped(direct@, size as int, offset as int, len as int),
{
    let end: u64 = if offset >= size {
        offset
    } else if size - offset >= len as u64 {
        offset + len as u64
    } else {
        size
    };
    map_span(direct, offset, end)
}

/// Why the block that a pointer names cannot be used as a data block: it
/// lies outside the data region, beyond the store, or is not readable.
pub open spec fn pointer_error(store: Seq<Seq<u8>>, sb: SuperblockDisk, block: u32) -> Option<
    FsError,
> {
    if block < sb.data_blocks_start || block >= sb.total_blocks {
        Some(FsError::BlockOutOfRange { index: block as u64, blocks: sb.total_blocks as u64 })
    } else if block >= store.len() {
        Some(FsError::BlockOutOfRange { index: block as u64, blocks: store.len() as u64 })
    } else if store[block as int].len() < BLOCK {
        Some(FsError::ShortBlock { index: block as u64 })
    } else {
        None
    }
}

/// Checks that `block` can be used as a data block.
pub fn check_pointer(store: &BlockStore, sb: &SuperblockDisk, block: u32) -> (r: Result<
    (),
    FsError,
>)
    ensures
        match r {
            Ok(()) => pointer_error(store@, *sb, block) is None,
            Err(e) => pointer_error(store@, *sb, block) == Some(e),
        },
{
    if block < sb.data_blocks_start || block >= sb.total_blocks {
        return Err(
            FsError::BlockOutOfRange { index: block as u64, blocks: sb.total_blocks as u64 },
        );
    }
    if block as usize >= store.blocks.len() {
        return Err(
            FsError::BlockOutOfRange { index: block as u64, blocks: store.blocks.len() as u64 },
        );
    }
    assert(store.blocks@[block as int]@ == store@[block as int]);
    if store.blocks[block as usize].len() < BLOCK {
        return Err(FsError::ShortBlock { index: block as u64 });
    }
    Ok(())
}

/// Byte `p` of the file with the direct pointers `direct`: zero in a hole.
pub open spec fn file_byte(store: Seq<Seq<u8>>, direct: Seq<u32>, p: int) -> u8 {
    let block = direct[p / (BLOCK as int)];
    if block == 0 {
        0u8
    } else {
        store[block as int][p % (BLOCK as int)]
    }
}

/// The bytes of the file from `offset` up to `end`.
pub open spec fn file_bytes(store: Seq<Seq<u8>>, direct: Seq<u32>, offset: int, end: int) -> Seq<
    u8,
> {
    Seq::new((end - offset) as nat, |k: int| file_byte(store, direct, offset + k))
}

/// Whether the first `n` of the runs name only holes and usable blocks.
pub open spec fn segments_usable(
    store: Seq<Seq<u8>>,
    sb: SuperblockDisk,
    segments: Seq<Segment>,
    n: int,
) -> bool {
    forall|k: int|
        0 <= k < n ==> (#[trigger] segments[k]).block == 0 || pointer_error(
            store,
            sb,
            segments[k].block,
        ) is None
}

/// Where the first `k` runs of the bytes from `offset` up to `end` end.
pub open spec fn covered(offset: int, end: int, k: int) -> int {
    if k <= 0 {
        offset
    } else if k >= segment_count(offset, end) {
        reach_end(offset, end)
    } else {
        (offset / (BLOCK as int) + k) * BLOCK
    }
}

/// The `k`-th run starts where the runs before it end, and ends where the
/// runs up to it end.
pub proof fn lemma_segment_covers(direct: Seq<u32>, offset: int, end: int, k: int)
    requires
        0 <= offset,
        0 <= k < segment_count(offset, end),
    ensures
        ({
            let seg = segment_at(direct, offset, end, k);
            let slot = offset / (BLOCK as int) + k;
            &&& 0 <= slot < DIRECT_BLOCKS
            &&& seg.slot == slot
            &&& seg.start <= seg.end <= BLOCK
            &&& slot * BLOCK + seg.start == covered(offset, end, k)
            &&& slot * BLOCK + seg.end == covered(offset, end, k + 1)
        }),
{
}

/// Reads `len` bytes from `offset` of the file that `inode` describes.
///
/// The request is cut at the file's size and at what the direct pointers
/// reach.  A hole reads as zeros.  Fails at the first run, in file order,
/// whose block cannot be used.
pub fn read_file_data(
    store: &BlockStore,
    sb: &SuperblockDisk,
    inode: &InodeDisk,
    offset: u64,
    len: u32,
) -> (r: Result<Vec<u8>, FsError>)
    ensures
        ({
            let direct = inode.direct_blocks@;
            let end = clipped_end(inode.size as int, offset as int, len as int);
            let segments = mapped(direct, inode.size as int, offset as int, len as int);
            match r {
                Ok(data) => segments_usable(store@, *sb, segments, segments.len() as int)
                    && data@ == file_bytes(
                    store@,
                    direct,
                    offset as int,
                    reach_end(offset as int, end),
                ),
                Err(e) => exists|k: int|
                    0 <= k < segments.len() && segments_usable(store@, *sb, segments, k)
                        && (#[trigger] segments[k]).block != 0 && pointer_error(
                        store@,
                        *sb,
                        segments[k].block,
                    ) == Some(e),
            }
        }),
{
    let segments = map_range(&inode.direct_blocks, inode.size, offset, len);
    let ghost direct = inode.direct_blocks@;
    let ghost end = clipped_end(inode.size as int, offset as int, len as int);
    let mut result: Vec<u8> = Vec::new();
    let mut k: usize = 0;
    assert(result@ =~= file_bytes(store@, direct, offset as int, offset as int));
    while k < segments.len()
        invariant
            k <= segments@.len(),
            direct == inode.direct_blocks@,
            end == clipped_end(inode.size as int, offset as int, len as int),
            segments@ == span_segments(direct, offset as int, end),
            segments_usable(store@, *sb, segments@, k as int),
            result@ == file_bytes(store@, direct, offset as int, covered(offset as int, end, k as int)),
        decreases segments@.len() - k,
    {
        let seg = segments[k];
        let ghost slot = offset / 1024 + k;
        proof {
            assert(seg == segment_at(direct, offset as int, end, k as int));
            lemma_segment_covers(direct, offset as int, end, k as int);
        }
        if seg.block != 0 {
            match check_pointer(store, sb, seg.block) {
                Ok(()) => {},
                Err(e) => {
                    proof {
                        let found = mapped(
                            direct,
                            inode.size as int,
                            offset as int,
                            len as int,
                        );
                        assert(found == segments@);
                        assert(found[k as int] == seg);
                        assert(found[k as int].block != 0 && pointer_error(
                            store@,
                            *sb,
                            found[k as int].block,
                        ) == Some(e));
                    }
                    return Err(e);
                },
            }
        }
        let mut i: u32 = seg.start;
        while i < seg.end
            invariant
                seg.start <= i <= seg.end <= 1024,
                0 <= slot < 12,
                direct.len() == 12,
                seg.block == direct[slot],
                seg.block != 0 ==> pointer_error(store@, *sb, seg.block) is None,
                0 <= offset <= slot * 1024 + seg.start,
                result@ == file_bytes(store@, direct, offset as int, slot * 1024 + i),
            decreases seg.end - i,
        {
            if seg.block == 0 {
                result.push(0u8);
            } else {
                let block = &store.blocks[seg.block as usize];
                assert(block@ == store@[seg.block as int]);
                result.push(block[i as usize]);
            }
            proof {
                let p = slot * 1024 + i;
                assert(p / 1024 == slot && p % 1024 == i as int);
                assert(result@ =~= file_bytes(store@, direct, offset as int, p + 1));
            }
            i += 1;
        }
        k += 1;
    }
    Ok(result)
}

} // verus!
