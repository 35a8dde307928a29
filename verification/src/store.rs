//! The block store: a list of blocks addressed by index, and the regions of
//! consecutive blocks that hold the inode table and the bitmap.
//!
//! Block `i` of the store stands for the `i`-th backing file.  A block is
//! readable when it holds at least a block's worth of bytes; what is read
//! from it are its first 1024 bytes.  Writing a block replaces what it
//! holds by exactly 1024 bytes.
use vstd::prelude::*;

verus! {

/// Size of a block as a `usize`.
pub const BLOCK: usize = 1024;

/// Why an operation on the filesystem failed.
#[derive(Clone, Copy, Debug, PartialEq, Eq)]
pub enum FsError {
    /// The store holds no block at all.
    NoBlocks,
    /// A block index at or beyond the number of blocks.
    BlockOutOfRange { index: u64, blocks: u64 },
    /// A region of blocks that reaches beyond the number of blocks.
    RegionOutOfRange { first: u64, end: u64, blocks: u64 },
    /// A block that holds fewer bytes than a block has.
    ShortBlock { index: u64 },
    /// More bytes than the region they were meant for can take.
    RegionTooSmall { bytes: u64, capacity: u64 },
    /// An inode id of zero or beyond the superblock's inode count.
    InodeOutOfRange { ino: u64, max_inodes: u32 },
    /// An inode whose record lies beyond the end of the inode table.
    InodeOutsideTable { ino: u64 },
    /// An inode that was expected to be a directory and is none.
    NotADirectory { ino: u64, file_type: u16 },
    /// No free block is left in the data region.
    NoSpace,
    /// The superblock's magic number is not this filesystem's.
    BadMagic { found: u32 },
    /// The superblock's version is not the supported one.
    BadVersion { found: u32 },
}

/// The blocks of a filesystem, by index.
#[derive(Debug, PartialEq, Eq)]
pub struct BlockStore {
    pub blocks: Vec<Vec<u8>>,
}

impl View for BlockStore {
    type V = Seq<Seq<u8>>;

    open spec fn view(&self) -> Seq<Seq<u8>> {
        Seq::new(self.blocks@.len(), |i: int| self.blocks@[i]@)
    }
}

/// Whether block `i` exists and holds a block's worth of bytes.
pub open spec fn readable(store: Seq<Seq<u8>>, i: int) -> bool {
    0 <= i < store.len() && store[i].len() >= BLOCK
}

/// What reading block `i` gives: its first 1024 bytes.
pub open spec fn block_data(store: Seq<Seq<u8>>, i: int) -> Seq<u8> {
    store[i].subrange(0, BLOCK as int)
}

/// `data` cut or filled up with zeros to exactly one block.
pub open spec fn padded_block(data: Seq<u8>) -> Seq<u8> {
    Seq::new(
        BLOCK as nat,
        |i: int|
            if i < data.len() {
                data[i]
            } else {
                0u8
            },
    )
}

/// Whether the `count` blocks from `first` on all exist and are readable.
pub open spec fn region_readable(store: Seq<Seq<u8>>, first: int, count: int) -> bool {
    first + count <= store.len() && forall|j: int|
        first <= j < first + count ==> store[j].len() >= BLOCK
}

/// The bytes of the `count` blocks from `first` on, one block after the other.
pub open spec fn region_bytes(store: Seq<Seq<u8>>, first: int, count: int) -> Seq<u8> {
    Seq::new(
        (count * BLOCK) as nat,
        |i: int| store[first + i / (BLOCK as int)][i % (BLOCK as int)],
    )
}

/// Whether `j` is the first block from `first` on that is not readable.
pub open spec fn first_short_block(store: Seq<Seq<u8>>, first: int, j: int) -> bool {
    &&& first <= j < store.len()
    &&& store[j].len() < BLOCK
    &&& forall|k: int| first <= k < j ==> store[k].len() >= BLOCK
}

/// What reading the region of `count` blocks from `first` on must give:
/// the region's bytes; or, where the region reaches beyond the store, that
/// error; or else the first block in it that is not readable.
pub open spec fn region_read_result(
    store: Seq<Seq<u8>>,
    first: int,
    count: int,
    r: Result<Seq<u8>, FsError>,
) -> bool {
    match r {
        Ok(bytes) => region_readable(store, first, count) && bytes == region_bytes(
            store,
            first,
            count,
        ),
        Err(FsError::RegionOutOfRange { first: f, end, blocks }) => {
            &&& first + count > store.len()
            &&& f == first
            &&& end == capped_u64(first + count)
            &&& blocks == store.len()
        },
        Err(FsError::ShortBlock { index }) => {
            &&& first + count <= store.len()
            &&& index < first + count
            &&& first_short_block(store, first, index as int)
        },
        Err(_) => false,
    }
}

/// The view of a result that holds bytes.
pub open spec fn bytes_result(r: Result<Vec<u8>, FsError>) -> Result<Seq<u8>, FsError> {
    match r {
        Ok(v) => Ok(v@),
        Err(e) => Err(e),
    }
}

impl BlockStore {
    /// A store over the given blocks.
    pub fn new(blocks: Vec<Vec<u8>>) -> (store: BlockStore)
        ensures
            store.blocks == blocks,
    {
        BlockStore { blocks }
    }

    /// Number of blocks.
    pub fn len(&self) -> (n: usize)
        ensures
            n == self@.len(),
    {
        self.blocks.len()
    }

    /// A block of zeros.
    pub fn zero_block() -> (block: Vec<u8>)
        ensures
            block@ == padded_block(Seq::empty()),
    {
        let mut block: Vec<u8> = Vec::new();
        let mut i: usize = 0;
        while i < BLOCK
            invariant
                i <= BLOCK,
                block@.len() == i,
                forall|k: int| 0 <= k < i ==> #[trigger] block@[k] == 0,
            decreases BLOCK - i,
        {
            block.push(0u8);
            i += 1;
        }
        assert(block@ =~= padded_block(Seq::empty()));
        block
    }

    /// Reads block `block_index`: its first 1024 bytes.
    ///
    /// Fails when there is no such block, or when it holds fewer bytes.
    pub fn read_fs_block(&self, block_index: u32) -> (r: Result<Vec<u8>, FsError>)
        ensures
            match r {
                Ok(data) => readable(self@, block_index as int) && data@ == block_data(
                    self@,
                    block_index as int,
                ),
                Err(e) => !readable(self@, block_index as int) && e == (if block_index
                    >= self@.len() {
                    FsError::BlockOutOfRange {
                        index: block_index as u64,
                        blocks: self@.len() as u64,
                    }
                } else {
                    FsError::ShortBlock { index: block_index as u64 }
                }),
            },
    {
        let idx: usize = block_index as usize;
        if idx >= self.blocks.len() {
            return Err(
                FsError::BlockOutOfRange {
                    index: block_index as u64,
                    blocks: self.blocks.len() as u64,
                },
            );
        }
        let block = &self.blocks[idx];
        assert(block@ == self@[idx as int]);
        if block.len() < BLOCK {
            return Err(FsError::ShortBlock { index: block_index as u64 });
        }
        let mut buf: Vec<u8> = Vec::new();
        let mut i: usize = 0;
        while i < BLOCK
            invariant
                i <= BLOCK,
                block@.len() >= BLOCK,
                buf@ == block@.subrange(0, i as int),
            decreases BLOCK - i,
        {
            buf.push(block[i]);
            i += 1;
            assert(buf@ =~= block@.subrange(0, i as int));
        }
        Ok(buf)
    }

    /// Writes `data` to block `block_index`, cut or filled up with zeros to
    /// exactly one block.
    ///
    /// Fails, and changes nothing, when there is no such block.
    pub fn write_fs_block(&mut self, block_index: u32, data: &[u8]) -> (r: Result<(), FsError>)
        ensures
            match r {
                Ok(()) => block_index < old(self)@.len() && final(self)@ == old(self)@.update(
                    block_index as int,
                    padded_block(data@),
                ),
                Err(e) => block_index >= old(self)@.len() && final(self)@ == old(self)@ && e == (
                FsError::BlockOutOfRange {
                    index: block_index as u64,
                    blocks: old(self)@.len() as u64,
                }),
            },
    {
        let idx: usize = block_index as usize;
        if idx >= self.blocks.len() {
            return Err(
                FsError::BlockOutOfRange {
                    index: block_index as u64,
                    blocks: self.blocks.len() as u64,
                },
            );
        }
        let mut buf: Vec<u8> = Vec::new();
        let mut i: usize = 0;
        while i < BLOCK
            invariant
                i <= BLOCK,
                buf@.len() == i,
                forall|k: int| 0 <= k < i ==> #[trigger] buf@[k] == padded_block(data@)[k],
            decreases BLOCK - i,
        {
            if i < data.len() {
                buf.push(data[i]);
            } else {
                buf.push(0u8);
            }
            i += 1;
        }
        assert(buf@ =~= padded_block(data@));
        self.blocks[idx] = buf;
        assert(self@ =~= old(self)@.update(block_index as int, padded_block(data@)));
        Ok(())
    }

    /// Reads the `count` blocks from `first` on into one buffer.
    ///
    /// Fails when the region reaches beyond the store, or else at the first
    /// block in it that holds fewer bytes than a block has.
    pub fn read_region(&self, first: u32, count: u64) -> (r: Result<Vec<u8>, FsError>)
        ensures
            region_read_result(self@, first as int, count as int, bytes_result(r)),
    {
        let total: usize = self.blocks.len();
        if count > total as u64 || first as u64 > total as u64 - count {
            let end: u64 = if count <= 0xFFFF_FFFF_FFFF_FFFF - first as u64 {
                first as u64 + count
            } else {
                0xFFFF_FFFF_FFFF_FFFF
            };
            return Err(
                FsError::RegionOutOfRange { first: first as u64, end, blocks: total as u64 },
            );
        }
        let end: u64 = first as u64 + count;
        let mut buf: Vec<u8> = Vec::new();
        let mut j: usize = first as usize;
        let last: usize = end as usize;
        while j < last
            invariant
                first <= j <= last,
                last == first + count,
                last <= self@.len(),
                forall|k: int| first <= k < j ==> self@[k].len() >= BLOCK,
                buf@ == region_bytes(self@, first as int, j - first),
            decreases last - j,
        {
            let block = &self.blocks[j];
            assert(block@ == self@[j as int]);
            if block.len() < BLOCK {
                return Err(FsError::ShortBlock { index: j as u64 });
            }
            let ghost head = buf@;
            let mut i: usize = 0;
            while i < BLOCK
                invariant
                    i <= BLOCK,
                    block@.len() >= BLOCK,
                    buf@ == head + block@.subrange(0, i as int),
                decreases BLOCK - i,
            {
                buf.push(block[i]);
                i += 1;
                assert(buf@ =~= head + block@.subrange(0, i as int));
            }
            proof {
                let next = region_bytes(self@, first as int, j + 1 - first);
                assert(buf@.len() == next.len());
                assert forall|p: int| 0 <= p < next.len() implies buf@[p] == next[p] by {
                    if p < head.len() {
                        assert(buf@[p] == head[p]);
                    } else {
                        assert(p / (BLOCK as int) == j - first);
                        assert(p % (BLOCK as int) == p - head.len());
                    }
                }
                assert(buf@ =~= next);
            }
            j += 1;
        }
        Ok(buf)
    }

    /// Writes `count` blocks from `first` on: the `c`-th of them takes the
    /// `c`-th block's worth of `data`, filled up with zeros where `data`
    /// ends.
    ///
    /// Fails, and changes nothing, when the blocks reach beyond the store.
    pub fn write_chunks(&mut self, first: u32, count: u64, data: &[u8]) -> (r: Result<(), FsError>)
        ensures
            match r {
                Ok(()) => first + count <= old(self)@.len() && final(self)@ == with_chunks(
                    old(self)@,
                    first as int,
                    count as int,
                    data@,
                ),
                Err(e) => {
                    &&& first + count > old(self)@.len()
                    &&& final(self)@ == old(self)@
                    &&& e == FsError::RegionOutOfRange {
                        first: first as u64,
                        end: capped_u64(first + count),
                        blocks: old(self)@.len() as u64,
                    }
                },
            },
    {
        let total: usize = self.blocks.len();
        if count > total as u64 || first as u64 > total as u64 - count {
            let end: u64 = if count <= 0xFFFF_FFFF_FFFF_FFFF - first as u64 {
                first as u64 + count
            } else {
                0xFFFF_FFFF_FFFF_FFFF
            };
            return Err(
                FsError::RegionOutOfRange { first: first as u64, end, blocks: total as u64 },
            );
        }
        let n: usize = data.len();
        let full: usize = n / BLOCK;
        let mut c: usize = 0;
        let cnt: usize = count as usize;
        while c < cnt
            invariant
                c <= cnt,
                cnt == count,
                n == data@.len(),
                full == n / BLOCK,
                total == self@.len(),
                first + cnt <= total,
                self@ == with_chunks(old(self)@, first as int, c as int, data@),
            decreases cnt - c,
        {
            let mut buf: Vec<u8> = Vec::new();
            let mut i: usize = 0;
            while i < BLOCK
                invariant
                    i <= BLOCK,
                    n == data@.len(),
                    full == n / BLOCK,
                    buf@.len() == i,
                    forall|k: int|
                        0 <= k < i ==> #[trigger] buf@[k] == chunk_block(data@, c as int)[k],
                decreases BLOCK - i,
            {
                if c <= full && i < n - c * BLOCK {
                    buf.push(data[c * BLOCK + i]);
                } else {
                    buf.push(0u8);
                }
                i += 1;
            }
            assert(buf@ =~= chunk_block(data@, c as int));
            let ghost before = self@;
            self.blocks[first as usize + c] = buf;
            proof {
                let after = with_chunks(old(self)@, first as int, c + 1, data@);
                assert(self@.len() == after.len());
                assert forall|j: int| 0 <= j < after.len() implies self@[j] == after[j] by {
                    if j != first + c {
                        assert(self@[j] == before[j]);
                    }
                }
                assert(self@ =~= after);
            }
            c += 1;
        }
        Ok(())
    }

    /// Writes `data` over the blocks from `start_block` on, one block's
    /// worth to each; the last block is filled up with zeros.
    ///
    /// Fails, and changes nothing, when the blocks that `data` needs reach
    /// beyond the store.
    pub fn write_blocks(&mut self, start_block: u32, data: &[u8]) -> (r: Result<(), FsError>)
        ensures
            match r {
                Ok(()) => start_block + blocks_for(data@.len() as int) <= old(self)@.len()
                    && final(self)@ == with_chunks(
                    old(self)@,
                    start_block as int,
                    blocks_for(data@.len() as int),
                    data@,
                ),
                Err(e) => {
                    &&& start_block + blocks_for(data@.len() as int) > old(self)@.len()
                    &&& final(self)@ == old(self)@
                    &&& e == FsError::RegionOutOfRange {
                        first: start_block as u64,
                        end: capped_u64(start_block + blocks_for(data@.len() as int)),
                        blocks: old(self)@.len() as u64,
                    }
                },
            },
    {
        let n: usize = data.len();
        let needed: u64 = (n / BLOCK) as u64 + (if n % BLOCK != 0 {
            1u64
        } else {
            0u64
        });
        self.write_chunks(start_block, needed, data)
    }
}

/// Blocks needed to hold `len` bytes.
pub open spec fn blocks_for(len: int) -> int {
    (len + BLOCK - 1) / (BLOCK as int)
}

/// The `c`-th block's worth of `data`, filled up with zeros.
pub open spec fn chunk_block(data: Seq<u8>, c: int) -> Seq<u8> {
    Seq::new(
        BLOCK as nat,
        |i: int|
            if c * BLOCK + i < data.len() {
                data[c * BLOCK + i]
            } else {
                0u8
            },
    )
}

/// `x`, or the largest 64-bit number where `x` is larger.
pub open spec fn capped_u64(x: int) -> u64 {
    if x > u64::MAX {
        u64::MAX
    } else {
        x as u64
    }
}

/// `store` after `count` blocks from `first` on were written with `data`:
/// the `c`-th of them holds the `c`-th block's worth of `data`, filled up
/// with zeros; every other block is as it was.
pub open spec fn with_chunks(store: Seq<Seq<u8>>, first: int, count: int, data: Seq<u8>) -> Seq<
    Seq<u8>,
> {
    Seq::new(
        store.len(),
        |j: int|
            if first <= j < first + count {
                chunk_block(data, j - first)
            } else {
                store[j]
            },
    )
}

/// `data` cut or filled up with zeros to exactly `len` bytes.
pub open spec fn padded_to(data: Seq<u8>, len: int) -> Seq<u8> {
    Seq::new(
        len as nat,
        |i: int|
            if i < data.len() {
                data[i]
            } else {
                0u8
            },
    )
}

/// What was written to a region is what the region then holds, and the
/// blocks outside the region are as they were.
pub proof fn lemma_region_after_write(store: Seq<Seq<u8>>, first: int, count: int, data: Seq<u8>)
    requires
        0 <= first,
        0 <= count,
        first + count <= store.len(),
    ensures
        region_readable(with_chunks(store, first, count, data), first, count),
        region_bytes(with_chunks(store, first, count, data), first, count) == padded_to(
            data,
            count * BLOCK,
        ),
        with_chunks(store, first, count, data).len() == store.len(),
        forall|j: int|
            0 <= j < store.len() && !(first <= j < first + count) ==> #[trigger] with_chunks(
                store,
                first,
                count,
                data,
            )[j] == store[j],
{
    let after = with_chunks(store, first, count, data);
    let got = region_bytes(after, first, count);
    let want = padded_to(data, count * BLOCK);
    assert(got.len() == want.len());
    assert forall|i: int| 0 <= i < got.len() implies got[i] == want[i] by {
        let c = i / (BLOCK as int);
        let k = i % (BLOCK as int);
        assert(0 <= c < count);
        assert(after[first + c] == chunk_block(data, c));
        assert(c * BLOCK + k == i);
    }
    assert(got =~= want);
}

} // verus!
