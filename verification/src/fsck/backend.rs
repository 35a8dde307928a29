//! What the checker needs from the storage under it.
use vstd::prelude::*;
use crate::fsck::types::{
    dirent_models, inode_models, Dirent, DirentModel, Inode, InodeModel, Superblock,
};

verus! {

/// The state of a filesystem as a backend reports it.
pub struct FsModel {
    /// The superblock.
    pub superblock: Superblock,
    /// All inodes, by id; slot 0 is reserved.
    pub inodes: Seq<InodeModel>,
    /// One mark per block, `true` = used.
    pub bitmap: Seq<bool>,
    /// The entries of each directory that has any, by inode id.
    pub dirs: Map<u32, Seq<DirentModel>>,
    /// The raw blocks that can be read, by index.
    pub blocks: Map<u32, Seq<u8>>,
}

impl FsModel {
    /// The entries listed for inode `ino`: none where the backend lists
    /// nothing for it.
    pub open spec fn dir(self, ino: int) -> Seq<DirentModel> {
        if 0 <= ino <= u32::MAX && self.dirs.contains_key(ino as u32) {
            self.dirs[ino as u32]
        } else {
            Seq::empty()
        }
    }
}

/// Read access to a filesystem.  The checker is written against this trait
/// alone, so it can run on a fixture in memory as well as on a real store.
///
/// A backend stands for one unchanging state, its `model`; every method
/// reports a part of it.
pub trait FsckBackend {
    /// The state that this backend reports.
    spec fn model(&self) -> FsModel;

    /// The superblock.
    fn load_superblock(&self) -> (sb: Superblock)
        ensures
            sb == self.model().superblock,
    ;

    /// The inode with id `ino`, if there is one.
    fn read_inode(&self, ino: u32) -> (r: Option<Inode>)
        ensures
            match r {
                Some(inode) => ino < self.model().inodes.len() && inode@
                    == self.model().inodes[ino as int],
                None => ino >= self.model().inodes.len(),
            },
    ;

    /// The raw block with index `block`, if it can be read.
    fn read_block(&self, block: u32) -> (r: Option<Vec<u8>>)
        ensures
            match r {
                Some(data) => self.model().blocks.contains_key(block) && data@
                    == self.model().blocks[block],
                None => !self.model().blocks.contains_key(block),
            },
    ;

    /// The entries of the directory with inode id `ino`.
    fn read_dir(&self, ino: u32) -> (entries: Vec<Dirent>)
        ensures
            dirent_models(entries@) == self.model().dir(ino as int),
    ;

    /// All inodes, by id.
    fn load_all_inodes(&self) -> (inodes: Vec<Inode>)
        ensures
            inode_models(inodes@) == self.model().inodes,
    ;

    /// One mark per block, `true` = used.
    fn load_block_bitmap(&self) -> (bitmap: Vec<bool>)
        ensures
            bitmap@ == self.model().bitmap,
    ;
}

/// A copy of `inode`.
pub fn clone_inode(inode: &Inode) -> (r: Inode)
    ensures
        r@ == inode@,
{
    let mut direct: Vec<u32> = Vec::new();
    let mut k: usize = 0;
    while k < inode.direct.len()
        invariant
            k <= inode.direct@.len(),
            direct@ == inode.direct@.subrange(0, k as int),
        decreases inode.direct@.len() - k,
    {
        direct.push(inode.direct[k]);
        k += 1;
        assert(direct@ =~= inode.direct@.subrange(0, k as int));
    }
    assert(direct@ =~= inode.direct@);
    Inode {
        in_use: inode.in_use,
        is_dir: inode.is_dir,
        size: inode.size,
        direct,
        indirect1: inode.indirect1,
        indirect2: inode.indirect2,
    }
}

/// A copy of a list of inodes.
pub fn clone_inodes(inodes: &Vec<Inode>) -> (r: Vec<Inode>)
    ensures
        inode_models(r@) == inode_models(inodes@),
{
    let mut out: Vec<Inode> = Vec::new();
    let mut k: usize = 0;
    while k < inodes.len()
        invariant
            k <= inodes@.len(),
            out@.len() == k,
            forall|j: int| 0 <= j < k ==> (#[trigger] out@[j])@ == inodes@[j]@,
        decreases inodes@.len() - k,
    {
        out.push(clone_inode(&inodes[k]));
        k += 1;
    }
    assert(inode_models(out@) =~= inode_models(inodes@));
    out
}

/// A copy of a list of directory entries.
pub fn clone_dirents(entries: &Vec<Dirent>) -> (r: Vec<Dirent>)
    ensures
        dirent_models(r@) == dirent_models(entries@),
{
    let mut out: Vec<Dirent> = Vec::new();
    let mut k: usize = 0;
    while k < entries.len()
        invariant
            k <= entries@.len(),
            out@.len() == k,
            forall|j: int| 0 <= j < k ==> (#[trigger] out@[j])@ == entries@[j]@,
        decreases entries@.len() - k,
    {
        let e = &entries[k];
        out.push(Dirent { inode: e.inode, name: e.name.clone(), is_dir: e.is_dir, valid: e.valid });
        k += 1;
    }
    assert(dirent_models(out@) =~= dirent_models(entries@));
    out
}

/// A copy of a list of bytes.
pub fn clone_bytes(data: &Vec<u8>) -> (r: Vec<u8>)
    ensures
        r@ == data@,
{
    let mut out: Vec<u8> = Vec::new();
    let mut k: usize = 0;
    while k < data.len()
        invariant
            k <= data@.len(),
            out@ == data@.subrange(0, k as int),
        decreases data@.len() - k,
    {
        out.push(data[k]);
        k += 1;
        assert(out@ =~= data@.subrange(0, k as int));
    }
    assert(out@ =~= data@);
    out
}

/// A copy of a list of marks.
pub fn clone_marks(marks: &Vec<bool>) -> (r: Vec<bool>)
    ensures
        r@ == marks@,
{
    let mut out: Vec<bool> = Vec::new();
    let mut k: usize = 0;
    while k < marks.len()
        invariant
            k <= marks@.len(),
            out@ == marks@.subrange(0, k as int),
        decreases marks@.len() - k,
    {
        out.push(marks[k]);
        k += 1;
        assert(out@ =~= marks@.subrange(0, k as int));
    }
    assert(out@ =~= marks@);
    out
}

} // verus!
