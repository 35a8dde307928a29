//! The backend that reads a real store: it decodes the superblock, the
//! inode table, the bitmap and the directories from the store's blocks.
//!
//! What cannot be read is reported as absent, not as an error: a superblock
//! that cannot be read gives a zeroed superblock and no inodes, an inode
//! whose record cannot be reached gives an empty inode.  The checker then
//! reports what does not fit.
use vstd::prelude::*;
use crate::bitmap::{bit_at, bit_is_set};
use crate::dirent::{entries_in, raw_models, unpack_entries, RawEntryModel};
use crate::disk::{InodeDisk, SuperblockDisk, FILE_TYPE_DIRECTORY};
use crate::fsck::backend::{FsModel, FsckBackend};
use crate::fsck::types::{
    dirent_models, inode_models, Dirent, DirentModel, Inode, InodeModel, Superblock, FSCK_MAGIC,
};
use crate::meta::{
    inode_offset, inode_slot_ok, inode_table_bytes, lemma_the_inode, lemma_the_superblock,
    load_bitmap, read_superblock, stored_bitmap, the_inode, the_superblock,
};
use crate::store::{block_data, readable, region_readable, BlockStore};
use crate::QRFS_MAGIC;

verus! {

/// The backend over the blocks of a store.
pub struct QrfsBackend {
    pub store: BlockStore,
}

/// The superblock that block 0 holds, if block 0 can be read.
pub open spec fn disk_superblock(store: Seq<Seq<u8>>) -> Option<SuperblockDisk> {
    if readable(store, 0) {
        Some(the_superblock(block_data(store, 0)))
    } else {
        None
    }
}

/// One more than `x`, or zero where `x` is the largest number.
pub open spec fn next_u32(x: u32) -> u32 {
    if x == u32::MAX {
        0
    } else {
        (x + 1) as u32
    }
}

/// The magic number as the checker gets it: the one that it expects
/// exactly where the disk holds this filesystem's, else 0.
pub open spec fn fsck_magic(magic: u32) -> u32 {
    if magic == QRFS_MAGIC {
        FSCK_MAGIC
    } else {
        0
    }
}

/// The superblock as the checker gets it: the magic number by
/// `fsck_magic`, one inode more than the inode table has slots (slot 0 is
/// reserved), the block count, the root inode id and the start of the data
/// region.  All zero where block 0 cannot be read.
pub open spec fn fsck_superblock(store: Seq<Seq<u8>>) -> Superblock {
    match disk_superblock(store) {
        Some(d) => Superblock {
            magic: fsck_magic(d.magic),
            num_inodes: next_u32(d.max_inodes),
            num_blocks: d.total_blocks,
            root_inode: d.root_inode,
            data_start: d.data_blocks_start,
        },
        None => Superblock {
            magic: 0,
            num_inodes: 0,
            num_blocks: 0,
            root_inode: 0,
            data_start: 0,
        },
    }
}

/// The inode that stands for a slot without a record.
pub open spec fn empty_inode() -> InodeModel {
    InodeModel {
        in_use: false,
        is_dir: false,
        size: 0,
        direct: Seq::empty(),
        indirect1: None,
        indirect2: None,
    }
}

/// An inode record as the checker gets it: in use where neither its id nor
/// its link count is 0, a directory where the file type says so, the low
/// 32 bits of the size, the twelve direct pointers, and the indirect
/// pointers where they are not zero.
pub open spec fn inode_model_of(d: InodeDisk) -> InodeModel {
    InodeModel {
        in_use: d.id != 0 && d.nlink != 0,
        is_dir: d.file_type == FILE_TYPE_DIRECTORY,
        size: (d.size % 0x1_0000_0000) as u32,
        direct: d.direct_blocks@,
        indirect1: if d.indirect_block != 0 {
            Some(d.indirect_block)
        } else {
            None
        },
        indirect2: if d.double_indirect_block != 0 {
            Some(d.double_indirect_block)
        } else {
            None
        },
    }
}

/// Inode `ino` as the checker gets it: its record, or the empty inode
/// where the record cannot be reached.
pub open spec fn fsck_inode(store: Seq<Seq<u8>>, d: SuperblockDisk, ino: int) -> InodeModel {
    if inode_slot_ok(store, d, ino) {
        inode_model_of(the_inode(inode_table_bytes(store, d), inode_offset(ino)))
    } else {
        empty_inode()
    }
}

/// All inodes as the checker gets them: slot 0, which is reserved, and one
/// for each slot of the inode table.  None where block 0 cannot be read.
pub open spec fn fsck_inodes(store: Seq<Seq<u8>>) -> Seq<InodeModel> {
    match disk_superblock(store) {
        Some(d) => Seq::new((d.max_inodes + 1) as nat, |i: int| fsck_inode(store, d, i)),
        None => Seq::empty(),
    }
}

/// The bitmap as the checker gets it: one mark per block.  Empty where
/// block 0 or the bitmap region cannot be read.
pub open spec fn fsck_bitmap(store: Seq<Seq<u8>>) -> Seq<bool> {
    match disk_superblock(store) {
        Some(d) => if region_readable(
            store,
            d.free_bitmap_start as int,
            d.free_bitmap_blocks as int,
        ) {
            Seq::new(d.total_blocks as nat, |b: int| bit_at(stored_bitmap(store, d), b))
        } else {
            Seq::empty()
        },
        None => Seq::empty(),
    }
}

/// Whether the record of inode `ino` says that it is a directory.  An
/// entry of a directory block holds no type of its own: the checker gets
/// the type that its target has on the store.
pub open spec fn target_is_dir(store: Seq<Seq<u8>>, d: SuperblockDisk, ino: u32) -> bool {
    fsck_inode(store, d, ino as int).is_dir
}

/// Entries of a directory block as the checker gets them.
pub open spec fn dirents_of(store: Seq<Seq<u8>>, d: SuperblockDisk, raw: Seq<RawEntryModel>) -> Seq<
    DirentModel,
> {
    Seq::new(
        raw.len(),
        |i: int|
            DirentModel {
                inode: raw[i].ino,
                name: raw[i].name,
                is_dir: target_is_dir(store, d, raw[i].ino),
                valid: true,
            },
    )
}

/// The entries of the directory `ino`: those of the block that the first
/// direct pointer of its inode names.  None where `ino` is 0, its record
/// cannot be reached or is no directory, the pointer is 0, or the block
/// cannot be read.
pub open spec fn dir_entries(store: Seq<Seq<u8>>, d: SuperblockDisk, ino: u32) -> Seq<DirentModel> {
    if ino == 0 || !inode_slot_ok(store, d, ino as int) {
        Seq::empty()
    } else {
        let inode = the_inode(inode_table_bytes(store, d), inode_offset(ino as int));
        let block = inode.direct_blocks@[0];
        if inode.file_type != FILE_TYPE_DIRECTORY || block == 0 || !readable(
            store,
            block as int,
        ) {
            Seq::empty()
        } else {
            dirents_of(store, d, entries_in(block_data(store, block as int), 17))
        }
    }
}

/// The entries of the root directory.
pub open spec fn root_entries(store: Seq<Seq<u8>>, d: SuperblockDisk) -> Seq<DirentModel> {
    dir_entries(store, d, d.root_inode)
}

/// The state that the store's blocks tell.
pub open spec fn store_model(store: Seq<Seq<u8>>) -> FsModel {
    FsModel {
        superblock: fsck_superblock(store),
        inodes: fsck_inodes(store),
        bitmap: fsck_bitmap(store),
        dirs: match disk_superblock(store) {
            Some(d) => Map::new(|ino: u32| true, |ino: u32| dir_entries(store, d, ino)),
            None => Map::empty(),
        },
        blocks: Map::new(
            |block: u32| readable(store, block as int),
            |block: u32| block_data(store, block as int),
        ),
    }
}

/// The checker's inode for an inode record.
pub fn inode_from_disk(d: &InodeDisk) -> (inode: Inode)
    ensures
        inode@ == inode_model_of(*d),
{
    let mut direct: Vec<u32> = Vec::new();
    let mut k: usize = 0;
    while k < 12
        invariant
            k <= 12,
            direct@ == d.direct_blocks@.subrange(0, k as int),
        decreases 12 - k,
    {
        direct.push(d.direct_blocks[k]);
        k += 1;
        assert(direct@ =~= d.direct_blocks@.subrange(0, k as int));
    }
    assert(direct@ =~= d.direct_blocks@);
    Inode {
        in_use: d.id != 0 && d.nlink != 0,
        is_dir: d.file_type == FILE_TYPE_DIRECTORY,
        size: (d.size % 0x1_0000_0000) as u32,
        direct,
        indirect1: if d.indirect_block != 0 {
            Some(d.indirect_block)
        } else {
            None
        },
        indirect2: if d.double_indirect_block != 0 {
            Some(d.double_indirect_block)
        } else {
            None
        },
    }
}

/// The checker's inode for a slot without a record.
pub fn blank_inode() -> (inode: Inode)
    ensures
        inode@ == empty_inode(),
{
    Inode {
        in_use: false,
        is_dir: false,
        size: 0,
        direct: Vec::new(),
        indirect1: None,
        indirect2: None,
    }
}

impl QrfsBackend {
    /// A backend over the blocks of `store`.
    pub fn new(store: BlockStore) -> (backend: QrfsBackend)
        ensures
            backend.store == store,
    {
        QrfsBackend { store }
    }

    /// The superblock of block 0, if block 0 can be read.
    pub fn load_superblock_disk(&self) -> (r: Option<SuperblockDisk>)
        ensures
            r == disk_superblock(self.store@),
    {
        match read_superblock(&self.store) {
            Ok(sb) => {
                proof {
                    lemma_the_superblock(sb, block_data(self.store@, 0));
                }
                Some(sb)
            },
            Err(_) => None,
        }
    }

    /// The record of inode `ino`, if it can be reached.
    pub fn load_inode_disk(&self, ino: u32, sb: &SuperblockDisk) -> (r: Option<InodeDisk>)
        ensures
            match r {
                Some(inode) => inode_slot_ok(self.store@, *sb, ino as int) && inode == the_inode(
                    inode_table_bytes(self.store@, *sb),
                    inode_offset(ino as int),
                ),
                None => !inode_slot_ok(self.store@, *sb, ino as int),
            },
    {
        match crate::meta::load_inode_disk(&self.store, sb, ino as u64) {
            Ok(inode) => {
                proof {
                    lemma_the_inode(
                        inode,
                        inode_table_bytes(self.store@, *sb),
                        inode_offset(ino as int),
                    );
                }
                Some(inode)
            },
            Err(_) => None,
        }
    }

    /// The entries of the directory `ino`, read from the block that the
    /// first direct pointer of its inode names.  Each entry gets the type
    /// that the record of its target has.
    pub fn read_directory(&self, sb: &SuperblockDisk, ino: u32) -> (entries: Vec<Dirent>)
        ensures
            dirent_models(entries@) == dir_entries(self.store@, *sb, ino),
    {
        let mut result: Vec<Dirent> = Vec::new();
        assert(dirent_models(result@) =~= Seq::empty());
        if ino == 0 {
            return result;
        }
        let inode = match self.load_inode_disk(ino, sb) {
            Some(inode) => inode,
            None => {
                return result;
            },
        };
        if inode.file_type != FILE_TYPE_DIRECTORY {
            return result;
        }
        let block: u32 = inode.direct_blocks[0];
        if block == 0 {
            return result;
        }
        let buf = match self.store.read_fs_block(block) {
            Ok(buf) => buf,
            Err(_) => {
                return result;
            },
        };
        let raw = unpack_entries(buf.as_slice());
        let ghost found = entries_in(buf@, 17);
        let ghost all = dirents_of(self.store@, *sb, found);
        let mut k: usize = 0;
        while k < raw.len()
            invariant
                k <= raw@.len(),
                raw_models(raw@) == found,
                all == dirents_of(self.store@, *sb, found),
                dirent_models(result@) == all.subrange(0, k as int),
            decreases raw@.len() - k,
        {
            let e = &raw[k];
            let ghost before = dirent_models(result@);
            let is_dir = match self.load_inode_disk(e.ino, sb) {
                Some(target) => target.file_type == FILE_TYPE_DIRECTORY,
                None => false,
            };
            result.push(Dirent { inode: e.ino, name: e.name.clone(), is_dir, valid: true });
            proof {
                let added = DirentModel { inode: e.ino, name: e.name@, is_dir, valid: true };
                assert(found[k as int] == raw@[k as int]@);
                assert(dirent_models(result@) =~= before.push(added));
                assert(all.subrange(0, k + 1) =~= all.subrange(0, k as int).push(added));
            }
            k += 1;
        }
        assert(all.subrange(0, raw@.len() as int) =~= all);
        result
    }

    /// The entries of the root directory.
    pub fn read_root_dir(&self, sb: &SuperblockDisk) -> (entries: Vec<Dirent>)
        ensures
            dirent_models(entries@) == root_entries(self.store@, *sb),
    {
        self.read_directory(sb, sb.root_inode)
    }
}

impl FsckBackend for QrfsBackend {
    open spec fn model(&self) -> FsModel {
        store_model(self.store@)
    }

    fn load_superblock(&self) -> (sb: Superblock) {
        match self.load_superblock_disk() {
            Some(sb) => Superblock {
                magic: if sb.magic == QRFS_MAGIC {
                    FSCK_MAGIC
                } else {
                    0
                },
                num_inodes: if sb.max_inodes == 0xFFFF_FFFF {
                    0
                } else {
                    sb.max_inodes + 1
                },
                num_blocks: sb.total_blocks,
                root_inode: sb.root_inode,
                data_start: sb.data_blocks_start,
            },
            None => Superblock {
                magic: 0,
                num_inodes: 0,
                num_blocks: 0,
                root_inode: 0,
                data_start: 0,
            },
        }
    }

    fn read_inode(&self, ino: u32) -> (r: Option<Inode>) {
        let sb = match self.load_superblock_disk() {
            Some(sb) => sb,
            None => {
                return None;
            },
        };
        if ino > sb.max_inodes {
            return None;
        }
        match self.load_inode_disk(ino, &sb) {
            Some(d) => Some(inode_from_disk(&d)),
            None => Some(blank_inode()),
        }
    }

    fn read_block(&self, block: u32) -> (r: Option<Vec<u8>>) {
        match self.store.read_fs_block(block) {
            Ok(data) => Some(data),
            Err(_) => None,
        }
    }

    fn read_dir(&self, ino: u32) -> (entries: Vec<Dirent>) {
        let none: Vec<Dirent> = Vec::new();
        assert(dirent_models(none@) =~= Seq::empty());
        let sb = match self.load_superblock_disk() {
            Some(sb) => sb,
            None => {
                return none;
            },
        };
        self.read_directory(&sb, ino)
    }

    fn load_all_inodes(&self) -> (inodes: Vec<Inode>) {
        let mut result: Vec<Inode> = Vec::new();
        assert(inode_models(result@) =~= Seq::empty());
        let sb = match self.load_superblock_disk() {
            Some(sb) => sb,
            None => {
                return result;
            },
        };
        result.push(blank_inode());
        let mut ino: u32 = 0;
        while ino < sb.max_inodes
            invariant
                ino <= sb.max_inodes,
                result@.len() == ino + 1,
                forall|i: int|
                    0 <= i <= ino ==> (#[trigger] result@[i])@ == fsck_inode(self.store@, sb, i),
            decreases sb.max_inodes - ino,
        {
            ino += 1;
            match self.load_inode_disk(ino, &sb) {
                Some(d) => {
                    result.push(inode_from_disk(&d));
                },
                None => {
                    result.push(blank_inode());
                },
            }
        }
        assert(inode_models(result@) =~= fsck_inodes(self.store@));
        result
    }

    fn load_block_bitmap(&self) -> (bitmap: Vec<bool>) {
        let mut bitmap: Vec<bool> = Vec::new();
        let sb = match self.load_superblock_disk() {
            Some(sb) => sb,
            None => {
                return bitmap;
            },
        };
        let buf = match load_bitmap(&self.store, &sb) {
            Ok(buf) => buf,
            Err(_) => {
                return bitmap;
            },
        };
        let mut b: u32 = 0;
        while b < sb.total_blocks
            invariant
                b <= sb.total_blocks,
                bitmap@.len() == b,
                forall|i: int| 0 <= i < b ==> #[trigger] bitmap@[i] == bit_at(buf@, i),
            decreases sb.total_blocks - b,
        {
            bitmap.push(bit_is_set(buf.as_slice(), b));
            b += 1;
        }
        assert(bitmap@ =~= fsck_bitmap(self.store@));
        bitmap
    }
}

} // verus!
