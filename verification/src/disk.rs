//! The three on-disk records and their byte-exact encoding.
//!
//! Every record has a fixed size and a fixed field order.  Integers are stored
//! least significant byte first and fields follow each other without gaps, so
//! a record can be read from any position of a buffer.  The codec checks
//! lengths only: what the fields hold is the caller's business.
use vstd::prelude::*;
use crate::bytes::{
    le_u16, le_u32, le_u64, lemma_u16_roundtrip, lemma_u32_roundtrip, lemma_u64_roundtrip,
    push_u16, push_u32, push_u64, read_u16, read_u32, read_u64, u16_le_bytes, u32_le_bytes,
    u64_le_bytes,
};

verus! {

/// Bytes taken by an encoded superblock.
pub const SUPERBLOCK_DISK_SIZE: usize = 116;

/// Bytes taken by an encoded inode record.
pub const INODE_DISK_SIZE: usize = 112;

/// Bytes taken by an encoded directory entry.
pub const DIR_ENTRY_DISK_SIZE: usize = 60;

/// Number of direct block pointers in an inode record.
pub const DIRECT_BLOCKS: usize = 12;

/// File type stored in a free inode slot.
pub const FILE_TYPE_FREE: u16 = 0;

/// File type of a regular file.
pub const FILE_TYPE_REGULAR: u16 = 1;

/// File type of a directory.
pub const FILE_TYPE_DIRECTORY: u16 = 2;

/// A buffer held fewer bytes than the record that was to be read from it.
#[derive(Clone, Copy, Debug, PartialEq, Eq)]
pub struct ShortBufferError {
    /// Size of the record.
    pub needed: usize,
    /// Bytes that the buffer held.
    pub available: usize,
}

/// The record in block 0 that describes the whole filesystem.
#[derive(Clone, Copy, Debug, PartialEq, Eq)]
pub struct SuperblockDisk {
    pub magic: u32,
    pub version: u32,
    pub block_size: u32,
    pub total_blocks: u32,
    pub inode_table_start: u32,
    pub inode_table_blocks: u32,
    pub free_bitmap_start: u32,
    pub free_bitmap_blocks: u32,
    pub data_blocks_start: u32,
    pub max_inodes: u32,
    pub root_inode: u32,
    pub free_blocks: u32,
    pub free_inodes: u32,
    pub reserved: [u8; 64],
}

/// One slot of the inode table.
#[derive(Clone, Copy, Debug, PartialEq, Eq)]
pub struct InodeDisk {
    pub id: u32,
    pub file_type: u16,
    pub perm: u16,
    pub uid: u32,
    pub gid: u32,
    pub size: u64,
    pub atime: u64,
    pub mtime: u64,
    pub ctime: u64,
    pub nlink: u32,
    pub direct_blocks: [u32; 12],
    pub indirect_block: u32,
    pub double_indirect_block: u32,
    pub _padding: u32,
}

/// One entry of a directory's data block.
#[derive(Clone, Copy, Debug, PartialEq, Eq)]
pub struct DirEntryDisk {
    pub inode: u32,
    pub name: [u8; 56],
}

/// Appending twice is appending what was put together first.
pub proof fn lemma_concat_twice(a: Seq<u8>, b: Seq<u8>, c: Seq<u8>)
    ensures
        (a + b) + c == a + (b + c),
{
    assert((a + b) + c =~= a + (b + c));
}

/// Appends the two bytes of `x` to `out`, which holds `acc` behind `base`.
fn put_u16(out: &mut Vec<u8>, x: u16, Ghost(base): Ghost<Seq<u8>>, Ghost(acc): Ghost<Seq<u8>>)
    requires
        old(out)@ == base + acc,
    ensures
        final(out)@ == base + (acc + u16_le_bytes(x)),
{
    push_u16(out, x);
    proof {
        lemma_concat_twice(base, acc, u16_le_bytes(x));
    }
}

/// Appends the four bytes of `x` to `out`, which holds `acc` behind `base`.
fn put_u32(out: &mut Vec<u8>, x: u32, Ghost(base): Ghost<Seq<u8>>, Ghost(acc): Ghost<Seq<u8>>)
    requires
        old(out)@ == base + acc,
    ensures
        final(out)@ == base + (acc + u32_le_bytes(x)),
{
    push_u32(out, x);
    proof {
        lemma_concat_twice(base, acc, u32_le_bytes(x));
    }
}

/// Appends the eight bytes of `x` to `out`, which holds `acc` behind `base`.
fn put_u64(out: &mut Vec<u8>, x: u64, Ghost(base): Ghost<Seq<u8>>, Ghost(acc): Ghost<Seq<u8>>)
    requires
        old(out)@ == base + acc,
    ensures
        final(out)@ == base + (acc + u64_le_bytes(x)),
{
    push_u64(out, x);
    proof {
        lemma_concat_twice(base, acc, u64_le_bytes(x));
    }
}

/// The bytes of a list of 32-bit numbers, each least significant byte first.
pub open spec fn u32s_le_bytes(v: Seq<u32>) -> Seq<u8> {
    Seq::new(4 * v.len(), |i: int| u32_le_bytes(v[i / 4])[i % 4])
}

impl SuperblockDisk {
    /// The 116 bytes of the record: thirteen 32-bit fields in declaration
    /// order, then the reserved bytes.
    pub open spec fn to_bytes(self) -> Seq<u8> {
        u32_le_bytes(self.magic) + u32_le_bytes(self.version) + u32_le_bytes(self.block_size)
            + u32_le_bytes(self.total_blocks) + u32_le_bytes(self.inode_table_start)
            + u32_le_bytes(self.inode_table_blocks) + u32_le_bytes(self.free_bitmap_start)
            + u32_le_bytes(self.free_bitmap_blocks) + u32_le_bytes(self.data_blocks_start)
            + u32_le_bytes(self.max_inodes) + u32_le_bytes(self.root_inode) + u32_le_bytes(
            self.free_blocks,
        ) + u32_le_bytes(self.free_inodes) + self.reserved@
    }

    /// Whether `self` is the record that the first 116 bytes of `buf` hold.
    pub open spec fn decoded_from(self, buf: Seq<u8>) -> bool {
        &&& self.magic == le_u32(buf, 0)
        &&& self.version == le_u32(buf, 4)
        &&& self.block_size == le_u32(buf, 8)
        &&& self.total_blocks == le_u32(buf, 12)
        &&& self.inode_table_start == le_u32(buf, 16)
        &&& self.inode_table_blocks == le_u32(buf, 20)
        &&& self.free_bitmap_start == le_u32(buf, 24)
        &&& self.free_bitmap_blocks == le_u32(buf, 28)
        &&& self.data_blocks_start == le_u32(buf, 32)
        &&& self.max_inodes == le_u32(buf, 36)
        &&& self.root_inode == le_u32(buf, 40)
        &&& self.free_blocks == le_u32(buf, 44)
        &&& self.free_inodes == le_u32(buf, 48)
        &&& self.reserved@ == buf.subrange(52, 116)
    }

    /// Appends the record's 116 bytes to `out`.
    pub fn encode(&self, out: &mut Vec<u8>)
        ensures
            final(out)@ == old(out)@ + self.to_bytes(),
            self.to_bytes().len() == SUPERBLOCK_DISK_SIZE,
    {
        let ghost base = out@;
        push_u32(out, self.magic);
        let ghost c1 = u32_le_bytes(self.magic);
        put_u32(out, self.version, Ghost(base), Ghost(c1));
        let ghost c2 = c1 + u32_le_bytes(self.version);
        put_u32(out, self.block_size, Ghost(base), Ghost(c2));
        let ghost c3 = c2 + u32_le_bytes(self.block_size);
        put_u32(out, self.total_blocks, Ghost(base), Ghost(c3));
        let ghost c4 = c3 + u32_le_bytes(self.total_blocks);
        put_u32(out, self.inode_table_start, Ghost(base), Ghost(c4));
        let ghost c5 = c4 + u32_le_bytes(self.inode_table_start);
        put_u32(out, self.inode_table_blocks, Ghost(base), Ghost(c5));
        let ghost c6 = c5 + u32_le_bytes(self.inode_table_blocks);
        put_u32(out, self.free_bitmap_start, Ghost(base), Ghost(c6));
        let ghost c7 = c6 + u32_le_bytes(self.free_bitmap_start);
        put_u32(out, self.free_bitmap_blocks, Ghost(base), Ghost(c7));
        let ghost c8 = c7 + u32_le_bytes(self.free_bitmap_blocks);
        put_u32(out, self.data_blocks_start, Ghost(base), Ghost(c8));
        let ghost c9 = c8 + u32_le_bytes(self.data_blocks_start);
        put_u32(out, self.max_inodes, Ghost(base), Ghost(c9));
        let ghost c10 = c9 + u32_le_bytes(self.max_inodes);
        put_u32(out, self.root_inode, Ghost(base), Ghost(c10));
        let ghost c11 = c10 + u32_le_bytes(self.root_inode);
        put_u32(out, self.free_blocks, Ghost(base), Ghost(c11));
        let ghost c12 = c11 + u32_le_bytes(self.free_blocks);
        put_u32(out, self.free_inodes, Ghost(base), Ghost(c12));
        let ghost c13 = c12 + u32_le_bytes(self.free_inodes);
        let ghost head = out@;
        let mut i: usize = 0;
        while i < 64
            invariant
                i <= 64,
                out@ == head + self.reserved@.subrange(0, i as int),
            decreases 64 - i,
        {
            out.push(self.reserved[i]);
            i += 1;
            assert(out@ =~= head + self.reserved@.subrange(0, i as int));
        }
        proof {
            assert(self.reserved@.subrange(0, 64) =~= self.reserved@);
            lemma_concat_twice(base, c13, self.reserved@);
            lemma_superblock_layout(*self);
        }
    }

    /// Reads a record from the first 116 bytes of `buf`.
    ///
    /// Fails exactly when `buf` is shorter than that.
    pub fn decode(buf: &[u8]) -> (r: Result<SuperblockDisk, ShortBufferError>)
        ensures
            match r {
                Ok(sb) => buf@.len() >= SUPERBLOCK_DISK_SIZE && sb.decoded_from(buf@),
                Err(e) => buf@.len() < SUPERBLOCK_DISK_SIZE && e == (ShortBufferError {
                    needed: SUPERBLOCK_DISK_SIZE,
                    available: buf@.len() as usize,
                }),
            },
    {
        if buf.len() < SUPERBLOCK_DISK_SIZE {
            return Err(ShortBufferError { needed: SUPERBLOCK_DISK_SIZE, available: buf.len() });
        }
        let mut reserved: [u8; 64] = [0u8; 64];
        let mut i: usize = 0;
        while i < 64
            invariant
                i <= 64,
                buf@.len() >= 116,
                forall|k: int| 0 <= k < i ==> reserved@[k] == buf@[52 + k],
            decreases 64 - i,
        {
            reserved[i] = buf[52 + i];
            i += 1;
        }
        assert(reserved@ =~= buf@.subrange(52, 116));
        Ok(
            SuperblockDisk {
                magic: read_u32(buf, 0),
                version: read_u32(buf, 4),
                block_size: read_u32(buf, 8),
                total_blocks: read_u32(buf, 12),
                inode_table_start: read_u32(buf, 16),
                inode_table_blocks: read_u32(buf, 20),
                free_bitmap_start: read_u32(buf, 24),
                free_bitmap_blocks: read_u32(buf, 28),
                data_blocks_start: read_u32(buf, 32),
                max_inodes: read_u32(buf, 36),
                root_inode: read_u32(buf, 40),
                free_blocks: read_u32(buf, 44),
                free_inodes: read_u32(buf, 48),
                reserved,
            },
        )
    }
}

impl InodeDisk {
    /// The 112 bytes of the record: the fields in declaration order, without
    /// gaps between them.
    pub open spec fn to_bytes(self) -> Seq<u8> {
        u32_le_bytes(self.id) + u16_le_bytes(self.file_type) + u16_le_bytes(self.perm)
            + u32_le_bytes(self.uid) + u32_le_bytes(self.gid) + u64_le_bytes(self.size)
            + u64_le_bytes(self.atime) + u64_le_bytes(self.mtime) + u64_le_bytes(self.ctime)
            + u32_le_bytes(self.nlink) + u32s_le_bytes(self.direct_blocks@) + u32_le_bytes(
            self.indirect_block,
        ) + u32_le_bytes(self.double_indirect_block) + u32_le_bytes(self._padding)
    }

    /// Whether `self` is the record that the 112 bytes of `buf` from `at` on hold.
    pub open spec fn decoded_from(self, buf: Seq<u8>, at: int) -> bool {
        &&& self.id == le_u32(buf, at)
        &&& self.file_type == le_u16(buf, at + 4)
        &&& self.perm == le_u16(buf, at + 6)
        &&& self.uid == le_u32(buf, at + 8)
        &&& self.gid == le_u32(buf, at + 12)
        &&& self.size == le_u64(buf, at + 16)
        &&& self.atime == le_u64(buf, at + 24)
        &&& self.mtime == le_u64(buf, at + 32)
        &&& self.ctime == le_u64(buf, at + 40)
        &&& self.nlink == le_u32(buf, at + 48)
        &&& forall|k: int| 0 <= k < 12 ==> self.direct_blocks@[k] == le_u32(buf, at + 52 + 4 * k)
        &&& self.indirect_block == le_u32(buf, at + 100)
        &&& self.double_indirect_block == le_u32(buf, at + 104)
        &&& self._padding == le_u32(buf, at + 108)
    }

    /// The record of a free slot: every field zero.
    pub open spec fn is_zeroed(self) -> bool {
        &&& self.id == 0
        &&& self.file_type == 0
        &&& self.perm == 0
        &&& self.uid == 0
        &&& self.gid == 0
        &&& self.size == 0
        &&& self.atime == 0
        &&& self.mtime == 0
        &&& self.ctime == 0
        &&& self.nlink == 0
        &&& forall|k: int| 0 <= k < 12 ==> self.direct_blocks@[k] == 0
        &&& self.indirect_block == 0
        &&& self.double_indirect_block == 0
        &&& self._padding == 0
    }

    /// A record with every field zero.
    pub fn zeroed() -> (r: InodeDisk)
        ensures
            r.is_zeroed(),
    {
        InodeDisk {
            id: 0,
            file_type: 0,
            perm: 0,
            uid: 0,
            gid: 0,
            size: 0,
            atime: 0,
            mtime: 0,
            ctime: 0,
            nlink: 0,
            direct_blocks: [0u32; 12],
            indirect_block: 0,
            double_indirect_block: 0,
            _padding: 0,
        }
    }

    /// Appends the record's 112 bytes to `out`.
    pub fn encode(&self, out: &mut Vec<u8>)
        ensures
            final(out)@ == old(out)@ + self.to_bytes(),
            self.to_bytes().len() == INODE_DISK_SIZE,
    {
        let ghost base = out@;
        push_u32(out, self.id);
        let ghost c1 = u32_le_bytes(self.id);
        put_u16(out, self.file_type, Ghost(base), Ghost(c1));
        let ghost c2 = c1 + u16_le_bytes(self.file_type);
        put_u16(out, self.perm, Ghost(base), Ghost(c2));
        let ghost c3 = c2 + u16_le_bytes(self.perm);
        put_u32(out, self.uid, Ghost(base), Ghost(c3));
        let ghost c4 = c3 + u32_le_bytes(self.uid);
        put_u32(out, self.gid, Ghost(base), Ghost(c4));
        let ghost c5 = c4 + u32_le_bytes(self.gid);
        put_u64(out, self.size, Ghost(base), Ghost(c5));
        let ghost c6 = c5 + u64_le_bytes(self.size);
        put_u64(out, self.atime, Ghost(base), Ghost(c6));
        let ghost c7 = c6 + u64_le_bytes(self.atime);
        put_u64(out, self.mtime, Ghost(base), Ghost(c7));
        let ghost c8 = c7 + u64_le_bytes(self.mtime);
        put_u64(out, self.ctime, Ghost(base), Ghost(c8));
        let ghost c9 = c8 + u64_le_bytes(self.ctime);
        put_u32(out, self.nlink, Ghost(base), Ghost(c9));
        let ghost c10 = c9 + u32_le_bytes(self.nlink);
        let ghost head = out@;
        let mut k: usize = 0;
        proof {
            assert(u32s_le_bytes(self.direct_blocks@.subrange(0, 0)) =~= Seq::empty());
            assert(head + Seq::<u8>::empty() =~= head);
        }
        while k < 12
            invariant
                k <= 12,
                out@ == head + u32s_le_bytes(self.direct_blocks@.subrange(0, k as int)),
            decreases 12 - k,
        {
            let ghost before = u32s_le_bytes(self.direct_blocks@.subrange(0, k as int));
            put_u32(out, self.direct_blocks[k], Ghost(head), Ghost(before));
            proof {
                let v = self.direct_blocks@.subrange(0, k as int);
                lemma_u32s_push(v, self.direct_blocks@[k as int]);
                assert(v.push(self.direct_blocks@[k as int]) =~= self.direct_blocks@.subrange(
                    0,
                    k + 1,
                ));
            }
            k += 1;
        }
        proof {
            assert(self.direct_blocks@.subrange(0, 12) =~= self.direct_blocks@);
            lemma_concat_twice(base, c10, u32s_le_bytes(self.direct_blocks@));
        }
        let ghost c11 = c10 + u32s_le_bytes(self.direct_blocks@);
        put_u32(out, self.indirect_block, Ghost(base), Ghost(c11));
        let ghost c12 = c11 + u32_le_bytes(self.indirect_block);
        put_u32(out, self.double_indirect_block, Ghost(base), Ghost(c12));
        let ghost c13 = c12 + u32_le_bytes(self.double_indirect_block);
        put_u32(out, self._padding, Ghost(base), Ghost(c13));
        proof {
            lemma_inode_layout(*self);
        }
    }

    /// Reads a record from the 112 bytes of `buf` that start at `at`.
    ///
    /// Fails exactly when fewer than 112 bytes follow `at`.
    pub fn decode(buf: &[u8], at: usize) -> (r: Result<InodeDisk, ShortBufferError>)
        ensures
            match r {
                Ok(inode) => at + INODE_DISK_SIZE <= buf@.len() && inode.decoded_from(
                    buf@,
                    at as int,
                ),
                Err(e) => at + INODE_DISK_SIZE > buf@.len() && e == (ShortBufferError {
                    needed: INODE_DISK_SIZE,
                    available: if at <= buf@.len() {
                        (buf@.len() - at) as usize
                    } else {
                        0
                    },
                }),
            },
    {
        let n: usize = buf.len();
        if at > n || n - at < INODE_DISK_SIZE {
            let available: usize = if at <= n {
                n - at
            } else {
                0
            };
            return Err(ShortBufferError { needed: INODE_DISK_SIZE, available });
        }
        let mut direct: [u32; 12] = [0u32; 12];
        let mut k: usize = 0;
        while k < 12
            invariant
                k <= 12,
                at + 112 <= buf@.len(),
                buf@.len() == n,
                forall|j: int| 0 <= j < k ==> direct@[j] == le_u32(buf@, at + 52 + 4 * j),
            decreases 12 - k,
        {
            direct[k] = read_u32(buf, at + 52 + 4 * k);
            k += 1;
        }
        Ok(
            InodeDisk {
                id: read_u32(buf, at),
                file_type: read_u16(buf, at + 4),
                perm: read_u16(buf, at + 6),
                uid: read_u32(buf, at + 8),
                gid: read_u32(buf, at + 12),
                size: read_u64(buf, at + 16),
                atime: read_u64(buf, at + 24),
                mtime: read_u64(buf, at + 32),
                ctime: read_u64(buf, at + 40),
                nlink: read_u32(buf, at + 48),
                direct_blocks: direct,
                indirect_block: read_u32(buf, at + 100),
                double_indirect_block: read_u32(buf, at + 104),
                _padding: read_u32(buf, at + 108),
            },
        )
    }
}

impl DirEntryDisk {
    /// The 60 bytes of the entry: the inode id, then the name field.
    pub open spec fn to_bytes(self) -> Seq<u8> {
        u32_le_bytes(self.inode) + self.name@
    }

    /// Whether `self` is the entry that the 60 bytes of `buf` from `at` on hold.
    pub open spec fn decoded_from(self, buf: Seq<u8>, at: int) -> bool {
        &&& self.inode == le_u32(buf, at)
        &&& self.name@ == buf.subrange(at + 4, at + 60)
    }

    /// Appends the entry's 60 bytes to `out`.
    pub fn encode(&self, out: &mut Vec<u8>)
        ensures
            final(out)@ == old(out)@ + self.to_bytes(),
            self.to_bytes().len() == DIR_ENTRY_DISK_SIZE,
    {
        push_u32(out, self.inode);
        let ghost head = out@;
        let mut i: usize = 0;
        while i < 56
            invariant
                i <= 56,
                out@ == head + self.name@.subrange(0, i as int),
            decreases 56 - i,
        {
            out.push(self.name[i]);
            i += 1;
            assert(out@ =~= head + self.name@.subrange(0, i as int));
        }
        assert(self.name@.subrange(0, 56) =~= self.name@);
        assert(out@ =~= old(out)@ + self.to_bytes());
    }

    /// Reads an entry from the 60 bytes of `buf` that start at `at`.
    ///
    /// Fails exactly when fewer than 60 bytes follow `at`.
    pub fn decode(buf: &[u8], at: usize) -> (r: Result<DirEntryDisk, ShortBufferError>)
        ensures
            match r {
                Ok(entry) => at + DIR_ENTRY_DISK_SIZE <= buf@.len() && entry.decoded_from(
                    buf@,
                    at as int,
                ),
                Err(e) => at + DIR_ENTRY_DISK_SIZE > buf@.len() && e == (ShortBufferError {
                    needed: DIR_ENTRY_DISK_SIZE,
                    available: if at <= buf@.len() {
                        (buf@.len() - at) as usize
                    } else {
                        0
                    },
                }),
            },
    {
        let n: usize = buf.len();
        if at > n || n - at < DIR_ENTRY_DISK_SIZE {
            let available: usize = if at <= n {
                n - at
            } else {
                0
            };
            return Err(ShortBufferError { needed: DIR_ENTRY_DISK_SIZE, available });
        }
        let mut name: [u8; 56] = [0u8; 56];
        let mut i: usize = 0;
        while i < 56
            invariant
                i <= 56,
                at + 60 <= buf@.len(),
                buf@.len() == n,
                forall|k: int| 0 <= k < i ==> name@[k] == buf@[at + 4 + k],
            decreases 56 - i,
        {
            name[i] = buf[at + 4 + i];
            i += 1;
        }
        assert(name@ =~= buf@.subrange(at + 4, at + 60));
        Ok(DirEntryDisk { inode: read_u32(buf, at), name })
    }
}

/// What a sequence holds is still there, at the same place, after more is
/// appended, and what was appended follows it.
pub proof fn lemma_append_keeps(a: Seq<u8>, f: Seq<u8>)
    ensures
        (a + f).len() == a.len() + f.len(),
        (a + f).subrange(a.len() as int, (a.len() + f.len()) as int) == f,
        forall|lo: int, hi: int|
            0 <= lo <= hi <= a.len() ==> #[trigger] (a + f).subrange(lo, hi) == a.subrange(lo, hi),
{
    assert((a + f).subrange(a.len() as int, (a.len() + f.len()) as int) =~= f);
    assert forall|lo: int, hi: int| 0 <= lo <= hi <= a.len() implies #[trigger] (a + f).subrange(
        lo,
        hi,
    ) == a.subrange(lo, hi) by {
        assert((a + f).subrange(lo, hi) =~= a.subrange(lo, hi));
    }
}

/// A two-byte field that holds the bytes of `x` reads back as `x`.
pub proof fn lemma_le_u16_of_field(s: Seq<u8>, at: int, x: u16)
    requires
        0 <= at,
        at + 2 <= s.len(),
        s.subrange(at, at + 2) == u16_le_bytes(x),
    ensures
        le_u16(s, at) == x,
{
    let f = s.subrange(at, at + 2);
    assert(s[at] == f[0] && s[at + 1] == f[1]);
    lemma_u16_roundtrip(Seq::empty(), x, Seq::empty());
    assert(Seq::<u8>::empty() + u16_le_bytes(x) + Seq::<u8>::empty() =~= u16_le_bytes(x));
}

/// A four-byte field that holds the bytes of `x` reads back as `x`.
pub proof fn lemma_le_u32_of_field(s: Seq<u8>, at: int, x: u32)
    requires
        0 <= at,
        at + 4 <= s.len(),
        s.subrange(at, at + 4) == u32_le_bytes(x),
    ensures
        le_u32(s, at) == x,
{
    let f = s.subrange(at, at + 4);
    assert(s[at] == f[0] && s[at + 1] == f[1] && s[at + 2] == f[2] && s[at + 3] == f[3]);
    lemma_u32_roundtrip(Seq::empty(), x, Seq::empty());
    assert(Seq::<u8>::empty() + u32_le_bytes(x) + Seq::<u8>::empty() =~= u32_le_bytes(x));
}

/// An eight-byte field that holds the bytes of `x` reads back as `x`.
pub proof fn lemma_le_u64_of_field(s: Seq<u8>, at: int, x: u64)
    requires
        0 <= at,
        at + 8 <= s.len(),
        s.subrange(at, at + 8) == u64_le_bytes(x),
    ensures
        le_u64(s, at) == x,
{
    let f = s.subrange(at, at + 8);
    assert forall|k: int| 0 <= k < 8 implies s[at + k] == u64_le_bytes(x)[k] by {
        assert(s[at + k] == f[k]);
    }
    lemma_u64_roundtrip(Seq::empty(), x, Seq::empty());
    let e = Seq::<u8>::empty() + u64_le_bytes(x) + Seq::<u8>::empty();
    assert(e =~= u64_le_bytes(x));
    assert(u64_le_bytes(x).len() == 8);
    assert(s[at] == e[0] && s[at + 1] == e[1] && s[at + 2] == e[2] && s[at + 3] == e[3]);
    assert(s[at + 4] == e[4] && s[at + 5] == e[5] && s[at + 6] == e[6] && s[at + 7] == e[7]);
}

/// The `k`-th number of a list stands in the four bytes at `4 * k` of the
/// list's bytes.
pub proof fn lemma_u32s_field(v: Seq<u32>, k: int)
    requires
        0 <= k < v.len(),
    ensures
        u32s_le_bytes(v).len() == 4 * v.len(),
        u32s_le_bytes(v).subrange(4 * k, 4 * k + 4) == u32_le_bytes(v[k]),
{
    assert(u32s_le_bytes(v).subrange(4 * k, 4 * k + 4) =~= u32_le_bytes(v[k]));
}

/// Appending a number to a list appends its four bytes to the list's bytes.
pub proof fn lemma_u32s_push(v: Seq<u32>, x: u32)
    ensures
        u32s_le_bytes(v.push(x)) == u32s_le_bytes(v) + u32_le_bytes(x),
{
    let a = u32s_le_bytes(v.push(x));
    let b = u32s_le_bytes(v) + u32_le_bytes(x);
    assert(a.len() == b.len());
    assert forall|i: int| 0 <= i < a.len() implies a[i] == b[i] by {
        if i < 4 * v.len() {
            assert(i / 4 < v.len());
        } else {
            assert(i / 4 == v.len());
            assert(i % 4 == i - 4 * v.len());
        }
    }
    assert(a =~= b);
}

/// Encoding a superblock and decoding the bytes gives the same record: the
/// only record that the bytes of `sb` decode to is `sb` itself.
pub proof fn lemma_superblock_roundtrip(sb: SuperblockDisk, back: SuperblockDisk)
    requires
        back.decoded_from(sb.to_bytes()),
    ensures
        sb.to_bytes().len() == SUPERBLOCK_DISK_SIZE,
        sb.decoded_from(sb.to_bytes()),
        back == sb,
{
    lemma_superblock_layout(sb);
    assert(back.reserved =~= sb.reserved);
}

/// The bytes of a superblock are 116, and the record decodes from them.
pub proof fn lemma_superblock_layout(sb: SuperblockDisk)
    ensures
        sb.to_bytes().len() == SUPERBLOCK_DISK_SIZE,
        sb.decoded_from(sb.to_bytes()),
{
    let c1 = u32_le_bytes(sb.magic);
    let c2 = c1 + u32_le_bytes(sb.version);
    let c3 = c2 + u32_le_bytes(sb.block_size);
    let c4 = c3 + u32_le_bytes(sb.total_blocks);
    let c5 = c4 + u32_le_bytes(sb.inode_table_start);
    let c6 = c5 + u32_le_bytes(sb.inode_table_blocks);
    let c7 = c6 + u32_le_bytes(sb.free_bitmap_start);
    let c8 = c7 + u32_le_bytes(sb.free_bitmap_blocks);
    let c9 = c8 + u32_le_bytes(sb.data_blocks_start);
    let c10 = c9 + u32_le_bytes(sb.max_inodes);
    let c11 = c10 + u32_le_bytes(sb.root_inode);
    let c12 = c11 + u32_le_bytes(sb.free_blocks);
    let c13 = c12 + u32_le_bytes(sb.free_inodes);
    let s = c13 + sb.reserved@;
    assert(s == sb.to_bytes());
    assert(c1.subrange(0, 4) =~= c1);
    lemma_append_keeps(c1, u32_le_bytes(sb.version));
    lemma_append_keeps(c2, u32_le_bytes(sb.block_size));
    lemma_append_keeps(c3, u32_le_bytes(sb.total_blocks));
    lemma_append_keeps(c4, u32_le_bytes(sb.inode_table_start));
    lemma_append_keeps(c5, u32_le_bytes(sb.inode_table_blocks));
    lemma_append_keeps(c6, u32_le_bytes(sb.free_bitmap_start));
    lemma_append_keeps(c7, u32_le_bytes(sb.free_bitmap_blocks));
    lemma_append_keeps(c8, u32_le_bytes(sb.data_blocks_start));
    lemma_append_keeps(c9, u32_le_bytes(sb.max_inodes));
    lemma_append_keeps(c10, u32_le_bytes(sb.root_inode));
    lemma_append_keeps(c11, u32_le_bytes(sb.free_blocks));
    lemma_append_keeps(c12, u32_le_bytes(sb.free_inodes));
    lemma_append_keeps(c13, sb.reserved@);
    lemma_le_u32_of_field(s, 0, sb.magic);
    lemma_le_u32_of_field(s, 4, sb.version);
    lemma_le_u32_of_field(s, 8, sb.block_size);
    lemma_le_u32_of_field(s, 12, sb.total_blocks);
    lemma_le_u32_of_field(s, 16, sb.inode_table_start);
    lemma_le_u32_of_field(s, 20, sb.inode_table_blocks);
    lemma_le_u32_of_field(s, 24, sb.free_bitmap_start);
    lemma_le_u32_of_field(s, 28, sb.free_bitmap_blocks);
    lemma_le_u32_of_field(s, 32, sb.data_blocks_start);
    lemma_le_u32_of_field(s, 36, sb.max_inodes);
    lemma_le_u32_of_field(s, 40, sb.root_inode);
    lemma_le_u32_of_field(s, 44, sb.free_blocks);
    lemma_le_u32_of_field(s, 48, sb.free_inodes);
}

/// Encoding an inode record and decoding the bytes gives the same record: the
/// only record that the bytes of `inode` decode to is `inode` itself.
pub proof fn lemma_inode_roundtrip(inode: InodeDisk, back: InodeDisk)
    requires
        back.decoded_from(inode.to_bytes(), 0),
    ensures
        inode.to_bytes().len() == INODE_DISK_SIZE,
        inode.decoded_from(inode.to_bytes(), 0),
        back == inode,
{
    lemma_inode_layout(inode);
    assert(back.direct_blocks =~= inode.direct_blocks);
}

/// The `k`-th direct pointer reads back from its place in the record.
proof fn lemma_pointer_in_record(s: Seq<u8>, direct: Seq<u32>, k: int)
    requires
        s.len() >= 100,
        direct.len() == 12,
        s.subrange(52, 100) == u32s_le_bytes(direct),
        0 <= k < 12,
    ensures
        direct[k] == le_u32(s, 52 + 4 * k),
{
    lemma_u32s_field(direct, k);
    assert(s.subrange(52 + 4 * k, 52 + 4 * k + 4) =~= s.subrange(52, 100).subrange(
        4 * k,
        4 * k + 4,
    ));
    lemma_le_u32_of_field(s, 52 + 4 * k, direct[k]);
}

/// Where the fields of an inode record stand in its bytes.
proof fn lemma_inode_fields(inode: InodeDisk)
    ensures
        ({
            let s = inode.to_bytes();
            &&& s.len() == INODE_DISK_SIZE
            &&& s.subrange(0, 4) == u32_le_bytes(inode.id)
            &&& s.subrange(4, 6) == u16_le_bytes(inode.file_type)
            &&& s.subrange(6, 8) == u16_le_bytes(inode.perm)
            &&& s.subrange(8, 12) == u32_le_bytes(inode.uid)
            &&& s.subrange(12, 16) == u32_le_bytes(inode.gid)
            &&& s.subrange(16, 24) == u64_le_bytes(inode.size)
            &&& s.subrange(24, 32) == u64_le_bytes(inode.atime)
            &&& s.subrange(32, 40) == u64_le_bytes(inode.mtime)
            &&& s.subrange(40, 48) == u64_le_bytes(inode.ctime)
            &&& s.subrange(48, 52) == u32_le_bytes(inode.nlink)
            &&& s.subrange(52, 100) == u32s_le_bytes(inode.direct_blocks@)
            &&& s.subrange(100, 104) == u32_le_bytes(inode.indirect_block)
            &&& s.subrange(104, 108) == u32_le_bytes(inode.double_indirect_block)
            &&& s.subrange(108, 112) == u32_le_bytes(inode._padding)
        }),
{
    let c1 = u32_le_bytes(inode.id);
    let c2 = c1 + u16_le_bytes(inode.file_type);
    let c3 = c2 + u16_le_bytes(inode.perm);
    let c4 = c3 + u32_le_bytes(inode.uid);
    let c5 = c4 + u32_le_bytes(inode.gid);
    let c6 = c5 + u64_le_bytes(inode.size);
    let c7 = c6 + u64_le_bytes(inode.atime);
    let c8 = c7 + u64_le_bytes(inode.mtime);
    let c9 = c8 + u64_le_bytes(inode.ctime);
    let c10 = c9 + u32_le_bytes(inode.nlink);
    let direct = u32s_le_bytes(inode.direct_blocks@);
    let c11 = c10 + direct;
    let c12 = c11 + u32_le_bytes(inode.indirect_block);
    let c13 = c12 + u32_le_bytes(inode.double_indirect_block);
    let s = c13 + u32_le_bytes(inode._padding);
    assert(s == inode.to_bytes());
    assert(c1.subrange(0, 4) =~= c1);
    assert(u64_le_bytes(inode.size).len() == 8);
    assert(u64_le_bytes(inode.atime).len() == 8);
    assert(u64_le_bytes(inode.mtime).len() == 8);
    assert(u64_le_bytes(inode.ctime).len() == 8);
    assert(direct.len() == 48);
    lemma_append_keeps(c1, u16_le_bytes(inode.file_type));
    lemma_append_keeps(c2, u16_le_bytes(inode.perm));
    lemma_append_keeps(c3, u32_le_bytes(inode.uid));
    lemma_append_keeps(c4, u32_le_bytes(inode.gid));
    assert(c5.len() == 16);
    assert(c5.subrange(0, 4) == c1);
    assert(c5.subrange(4, 6) == u16_le_bytes(inode.file_type));
    assert(c5.subrange(6, 8) == u16_le_bytes(inode.perm));
    assert(c5.subrange(8, 12) == u32_le_bytes(inode.uid));
    lemma_append_keeps(c5, u64_le_bytes(inode.size));
    lemma_append_keeps(c6, u64_le_bytes(inode.atime));
    lemma_append_keeps(c7, u64_le_bytes(inode.mtime));
    lemma_append_keeps(c8, u64_le_bytes(inode.ctime));
    lemma_append_keeps(c9, u32_le_bytes(inode.nlink));
    assert(c10.len() == 52);
    assert(c10.subrange(0, 4) == c1);
    assert(c10.subrange(4, 6) == u16_le_bytes(inode.file_type));
    assert(c10.subrange(6, 8) == u16_le_bytes(inode.perm));
    assert(c10.subrange(8, 12) == u32_le_bytes(inode.uid));
    assert(c10.subrange(12, 16) == u32_le_bytes(inode.gid));
    assert(c10.subrange(16, 24) == u64_le_bytes(inode.size));
    assert(c10.subrange(24, 32) == u64_le_bytes(inode.atime));
    assert(c10.subrange(32, 40) == u64_le_bytes(inode.mtime));
    assert(c10.subrange(40, 48) == u64_le_bytes(inode.ctime));
    lemma_append_keeps(c10, direct);
    lemma_append_keeps(c11, u32_le_bytes(inode.indirect_block));
    lemma_append_keeps(c12, u32_le_bytes(inode.double_indirect_block));
    lemma_append_keeps(c13, u32_le_bytes(inode._padding));
    assert(s.len() == 112);
}

/// The bytes of an inode record are 112, and the record decodes from them.
pub proof fn lemma_inode_layout(inode: InodeDisk)
    ensures
        inode.to_bytes().len() == INODE_DISK_SIZE,
        inode.decoded_from(inode.to_bytes(), 0),
{
    let s = inode.to_bytes();
    lemma_inode_fields(inode);
    lemma_le_u32_of_field(s, 0, inode.id);
    lemma_le_u16_of_field(s, 4, inode.file_type);
    lemma_le_u16_of_field(s, 6, inode.perm);
    lemma_le_u32_of_field(s, 8, inode.uid);
    lemma_le_u32_of_field(s, 12, inode.gid);
    lemma_le_u64_of_field(s, 16, inode.size);
    lemma_le_u64_of_field(s, 24, inode.atime);
    lemma_le_u64_of_field(s, 32, inode.mtime);
    lemma_le_u64_of_field(s, 40, inode.ctime);
    lemma_le_u32_of_field(s, 48, inode.nlink);
    assert forall|k: int| 0 <= k < 12 implies inode.direct_blocks@[k] == le_u32(
        s,
        52 + 4 * k,
    ) by {
        lemma_pointer_in_record(s, inode.direct_blocks@, k);
    }
    lemma_le_u32_of_field(s, 100, inode.indirect_block);
    lemma_le_u32_of_field(s, 104, inode.double_indirect_block);
    lemma_le_u32_of_field(s, 108, inode._padding);
}

/// Encoding a directory entry and decoding the bytes gives the same entry:
/// the only entry that the bytes of `entry` decode to is `entry` itself.
pub proof fn lemma_dir_entry_roundtrip(entry: DirEntryDisk, back: DirEntryDisk)
    requires
        back.decoded_from(entry.to_bytes(), 0),
    ensures
        entry.to_bytes().len() == DIR_ENTRY_DISK_SIZE,
        entry.decoded_from(entry.to_bytes(), 0),
        back == entry,
{
    let s = entry.to_bytes();
    lemma_append_keeps(u32_le_bytes(entry.inode), entry.name@);
    assert(u32_le_bytes(entry.inode).subrange(0, 4) =~= u32_le_bytes(entry.inode));
    assert(s.subrange(0, 4) =~= u32_le_bytes(entry.inode));
    lemma_le_u32_of_field(s, 0, entry.inode);
    assert(s.subrange(4, 60) =~= entry.name@);
    assert(back.name =~= entry.name);
}

} // verus!

verus! {

/// Two superblocks that decode from the same bytes are the same record.
pub proof fn lemma_superblock_decoded_once(a: SuperblockDisk, b: SuperblockDisk, s: Seq<u8>)
    requires
        a.decoded_from(s),
        b.decoded_from(s),
    ensures
        a == b,
{
    assert(a.reserved =~= b.reserved);
}

/// Two inode records that decode from the same place are the same record.
pub proof fn lemma_inode_decoded_once(a: InodeDisk, b: InodeDisk, s: Seq<u8>, at: int)
    requires
        a.decoded_from(s, at),
        b.decoded_from(s, at),
    ensures
        a == b,
{
    assert(a.direct_blocks =~= b.direct_blocks);
}

} // verus!
