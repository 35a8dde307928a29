//! A backend held in memory, for running the checker on a made-up state.
use vstd::prelude::*;
use crate::fsck::backend::{
    clone_bytes, clone_dirents, clone_inode, clone_inodes, clone_marks, FsModel, FsckBackend,
};
use crate::fsck::types::{dirent_models, inode_models, Dirent, Inode, Superblock};

verus! {

/// A filesystem state given as plain values.
pub struct MockBackend {
    pub superblock: Superblock,
    pub inodes: Vec<Inode>,
    pub blocks: Vec<Vec<u8>>,
    pub dirs: Vec<Vec<Dirent>>,
    pub bitmap: Vec<bool>,
}

impl FsckBackend for MockBackend {
    open spec fn model(&self) -> FsModel {
        FsModel {
            superblock: self.superblock,
            inodes: inode_models(self.inodes@),
            bitmap: self.bitmap@,
            dirs: Map::new(
                |ino: u32| ino < self.dirs@.len(),
                |ino: u32| dirent_models(self.dirs@[ino as int]@),
            ),
            blocks: Map::new(
                |block: u32| block < self.blocks@.len(),
                |block: u32| self.blocks@[block as int]@,
            ),
        }
    }

    fn load_superblock(&self) -> (sb: Superblock) {
        self.superblock
    }

    fn read_inode(&self, ino: u32) -> (r: Option<Inode>) {
        if (ino as usize) < self.inodes.len() {
            Some(clone_inode(&self.inodes[ino as usize]))
        } else {
            None
        }
    }

    fn read_block(&self, block: u32) -> (r: Option<Vec<u8>>) {
        if (block as usize) < self.blocks.len() {
            Some(clone_bytes(&self.blocks[block as usize]))
        } else {
            None
        }
    }

    fn read_dir(&self, ino: u32) -> (entries: Vec<Dirent>) {
        if (ino as usize) < self.dirs.len() {
            clone_dirents(&self.dirs[ino as usize])
        } else {
            let none: Vec<Dirent> = Vec::new();
            assert(dirent_models(none@) =~= Seq::empty());
            none
        }
    }

    fn load_all_inodes(&self) -> (inodes: Vec<Inode>) {
        clone_inodes(&self.inodes)
    }

    fn load_block_bitmap(&self) -> (bitmap: Vec<bool>) {
        clone_marks(&self.bitmap)
    }
}

} // verus!
