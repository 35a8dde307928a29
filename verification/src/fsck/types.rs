//! What the checker reads and what it reports.
use vstd::prelude::*;

verus! {

/// Magic number that the checker expects.  A backend reports it for a
/// superblock that holds the magic number of its own format.
pub const FSCK_MAGIC: u32 = 0x1234;

/// Size that marks an inode's size field as invalid.
pub const INVALID_SIZE: u32 = 0xFFFF_FFFF;

/// The superblock as the checker sees it.
#[derive(Clone, Copy, Debug, PartialEq, Eq)]
pub struct Superblock {
    pub magic: u32,
    pub num_inodes: u32,
    pub num_blocks: u32,
    pub root_inode: u32,
    /// First block of the data region.  The blocks before it hold the
    /// filesystem's own records and count as used; 0 where there are none.
    pub data_start: u32,
}

/// An inode as the checker sees it.
#[derive(Clone, Debug, PartialEq, Eq)]
pub struct Inode {
    /// Whether the slot holds an inode; a free slot is no orphan.
    pub in_use: bool,
    pub is_dir: bool,
    pub size: u32,
    /// The direct pointers; 0 stands for no block.
    pub direct: Vec<u32>,
    pub indirect1: Option<u32>,
    pub indirect2: Option<u32>,
}

/// An inode as a mathematical value.
pub struct InodeModel {
    pub in_use: bool,
    pub is_dir: bool,
    pub size: u32,
    pub direct: Seq<u32>,
    pub indirect1: Option<u32>,
    pub indirect2: Option<u32>,
}

impl View for Inode {
    type V = InodeModel;

    open spec fn view(&self) -> InodeModel {
        InodeModel {
            in_use: self.in_use,
            is_dir: self.is_dir,
            size: self.size,
            direct: self.direct@,
            indirect1: self.indirect1,
            indirect2: self.indirect2,
        }
    }
}

/// A directory entry as the checker sees it.
#[derive(Clone, Debug, PartialEq, Eq)]
pub struct Dirent {
    pub inode: u32,
    pub name: String,
    pub is_dir: bool,
    pub valid: bool,
}

/// A directory entry as a mathematical value.
pub struct DirentModel {
    pub inode: u32,
    pub name: Seq<char>,
    pub is_dir: bool,
    pub valid: bool,
}

impl View for Dirent {
    type V = DirentModel;

    open spec fn view(&self) -> DirentModel {
        DirentModel { inode: self.inode, name: self.name@, is_dir: self.is_dir, valid: self.valid }
    }
}

/// The block-usage bitmap as the checker sees it: `true` = used.
#[derive(Clone, Debug, PartialEq, Eq)]
pub struct Bitmap {
    pub blocks: Vec<bool>,
}

impl View for Bitmap {
    type V = Seq<bool>;

    open spec fn view(&self) -> Seq<bool> {
        self.blocks@
    }
}

/// The models of a list of inodes.
pub open spec fn inode_models(inodes: Seq<Inode>) -> Seq<InodeModel> {
    inodes.map_values(|i: Inode| i@)
}

/// The models of a list of directory entries.
pub open spec fn dirent_models(entries: Seq<Dirent>) -> Seq<DirentModel> {
    entries.map_values(|e: Dirent| e@)
}

/// One thing that the checker found wrong.
#[derive(Clone, Debug, PartialEq, Eq)]
pub enum Finding {
    /// The superblock's magic number is not the expected one.
    BadMagic,
    /// The superblock's inode count differs from the number of inodes.
    InodeCountMismatch { declared: u32, actual: usize },
    /// The superblock's block count differs from the bitmap's length.
    BlockCountMismatch { declared: u32, bitmap_len: usize },
    /// The superblock's root inode id is not below the number of inodes.
    RootOutOfRange { root: u32 },
    /// The superblock's block count is zero.
    ZeroBlocks,
    /// The superblock's inode count is zero.
    ZeroInodes,
    /// An inode's size is the invalid marker.
    InvalidSize { inode: usize },
    /// A direct pointer is not below the block count.
    DirectOutOfRange { inode: usize, block: u32 },
    /// The single-indirect pointer is not below the block count.
    Indirect1OutOfRange { inode: usize, block: u32 },
    /// The double-indirect pointer is not below the block count.
    Indirect2OutOfRange { inode: usize, block: u32 },
    /// A direct pointer repeats an earlier one of the same inode.
    DuplicateInInode { inode: usize, block: u32 },
    /// A direct pointer repeats a pointer seen before, in any inode.
    DuplicateDirect { inode: usize, block: u32 },
    /// The single-indirect pointer repeats a pointer seen before.
    DuplicateIndirect1 { inode: usize, block: u32 },
    /// The double-indirect pointer repeats a pointer seen before.
    DuplicateIndirect2 { inode: usize, block: u32 },
    /// The root inode id is not below the number of inodes.
    RootMissing,
    /// The root inode is not a directory.
    RootNotDirectory,
    /// A directory holds an entry with an empty name.
    EmptyName { dir: usize },
    /// A directory entry names an inode that does not exist.
    DanglingEntry { dir: usize, name: String, target: u32 },
    /// A directory entry's declared type differs from its target's.
    WrongEntryType { dir: usize, name: String },
    /// The bitmap's length differs from the superblock's block count.
    BitmapSizeMismatch { actual: usize, expected: u32 },
    /// The bitmap marks a block used that no inode points to.
    UsedButUnclaimed { block: usize },
    /// The bitmap marks a block free that some inode points to.
    FreeButClaimed { block: usize },
    /// No directory entry names this inode, and it is not the root.
    Orphan { inode: usize },
}

/// A finding as a mathematical value.
pub enum FindingModel {
    BadMagic,
    InodeCountMismatch { declared: int, actual: int },
    BlockCountMismatch { declared: int, bitmap_len: int },
    RootOutOfRange { root: int },
    ZeroBlocks,
    ZeroInodes,
    InvalidSize { inode: int },
    DirectOutOfRange { inode: int, block: int },
    Indirect1OutOfRange { inode: int, block: int },
    Indirect2OutOfRange { inode: int, block: int },
    DuplicateInInode { inode: int, block: int },
    DuplicateDirect { inode: int, block: int },
    DuplicateIndirect1 { inode: int, block: int },
    DuplicateIndirect2 { inode: int, block: int },
    RootMissing,
    RootNotDirectory,
    EmptyName { dir: int },
    DanglingEntry { dir: int, name: Seq<char>, target: int },
    WrongEntryType { dir: int, name: Seq<char> },
    BitmapSizeMismatch { actual: int, expected: int },
    UsedButUnclaimed { block: int },
    FreeButClaimed { block: int },
    Orphan { inode: int },
}

impl FindingModel {
    /// Whether this finding means that the blocks are not in order.
    pub open spec fn affects_blocks(self) -> bool {
        match self {
            FindingModel::BlockCountMismatch { .. } => true,
            FindingModel::ZeroBlocks => true,
            FindingModel::DuplicateDirect { .. } => true,
            FindingModel::DuplicateIndirect1 { .. } => true,
            FindingModel::DuplicateIndirect2 { .. } => true,
            FindingModel::BitmapSizeMismatch { .. } => true,
            FindingModel::UsedButUnclaimed { .. } => true,
            FindingModel::FreeButClaimed { .. } => true,
            _ => false,
        }
    }

    /// Whether this finding means that the inodes are not in order.
    pub open spec fn affects_inodes(self) -> bool {
        match self {
            FindingModel::InodeCountMismatch { .. } => true,
            FindingModel::RootOutOfRange { .. } => true,
            FindingModel::ZeroInodes => true,
            FindingModel::InvalidSize { .. } => true,
            FindingModel::DirectOutOfRange { .. } => true,
            FindingModel::Indirect1OutOfRange { .. } => true,
            FindingModel::Indirect2OutOfRange { .. } => true,
            FindingModel::DuplicateInInode { .. } => true,
            FindingModel::RootMissing => true,
            FindingModel::RootNotDirectory => true,
            FindingModel::Orphan { .. } => true,
            _ => false,
        }
    }
}

impl View for Finding {
    type V = FindingModel;

    open spec fn view(&self) -> FindingModel {
        match *self {
            Finding::BadMagic => FindingModel::BadMagic,
            Finding::InodeCountMismatch { declared, actual } => FindingModel::InodeCountMismatch {
                declared: declared as int,
                actual: actual as int,
            },
            Finding::BlockCountMismatch { declared, bitmap_len } => {
                FindingModel::BlockCountMismatch {
                    declared: declared as int,
                    bitmap_len: bitmap_len as int,
                }
            },
            Finding::RootOutOfRange { root } => FindingModel::RootOutOfRange { root: root as int },
            Finding::ZeroBlocks => FindingModel::ZeroBlocks,
            Finding::ZeroInodes => FindingModel::ZeroInodes,
            Finding::InvalidSize { inode } => FindingModel::InvalidSize { inode: inode as int },
            Finding::DirectOutOfRange { inode, block } => FindingModel::DirectOutOfRange {
                inode: inode as int,
                block: block as int,
            },
            Finding::Indirect1OutOfRange { inode, block } => FindingModel::Indirect1OutOfRange {
                inode: inode as int,
                block: block as int,
            },
            Finding::Indirect2OutOfRange { inode, block } => FindingModel::Indirect2OutOfRange {
                inode: inode as int,
                block: block as int,
            },
            Finding::DuplicateInInode { inode, block } => FindingModel::DuplicateInInode {
                inode: inode as int,
                block: block as int,
            },
            Finding::DuplicateDirect { inode, block } => FindingModel::DuplicateDirect {
                inode: inode as int,
                block: block as int,
            },
            Finding::DuplicateIndirect1 { inode, block } => FindingModel::DuplicateIndirect1 {
                inode: inode as int,
                block: block as int,
            },
            Finding::DuplicateIndirect2 { inode, block } => FindingModel::DuplicateIndirect2 {
                inode: inode as int,
                block: block as int,
            },
            Finding::RootMissing => FindingModel::RootMissing,
            Finding::RootNotDirectory => FindingModel::RootNotDirectory,
            Finding::EmptyName { dir } => FindingModel::EmptyName { dir: dir as int },
            Finding::DanglingEntry { dir, name, target } => FindingModel::DanglingEntry {
                dir: dir as int,
                name: name@,
                target: target as int,
            },
            Finding::WrongEntryType { dir, name } => FindingModel::WrongEntryType {
                dir: dir as int,
                name: name@,
            },
            Finding::BitmapSizeMismatch { actual, expected } => FindingModel::BitmapSizeMismatch {
                actual: actual as int,
                expected: expected as int,
            },
            Finding::UsedButUnclaimed { block } => FindingModel::UsedButUnclaimed {
                block: block as int,
            },
            Finding::FreeButClaimed { block } => FindingModel::FreeButClaimed {
                block: block as int,
            },
            Finding::Orphan { inode } => FindingModel::Orphan { inode: inode as int },
        }
    }
}

impl Finding {
    /// Whether this finding means that the blocks are not in order.
    pub fn affects_blocks(&self) -> (r: bool)
        ensures
            r == self@.affects_blocks(),
    {
        match self {
            Finding::BlockCountMismatch { .. } => true,
            Finding::ZeroBlocks => true,
            Finding::DuplicateDirect { .. } => true,
            Finding::DuplicateIndirect1 { .. } => true,
            Finding::DuplicateIndirect2 { .. } => true,
            Finding::BitmapSizeMismatch { .. } => true,
            Finding::UsedButUnclaimed { .. } => true,
            Finding::FreeButClaimed { .. } => true,
            _ => false,
        }
    }

    /// Whether this finding means that the inodes are not in order.
    pub fn affects_inodes(&self) -> (r: bool)
        ensures
            r == self@.affects_inodes(),
    {
        match self {
            Finding::InodeCountMismatch { .. } => true,
            Finding::RootOutOfRange { .. } => true,
            Finding::ZeroInodes => true,
            Finding::InvalidSize { .. } => true,
            Finding::DirectOutOfRange { .. } => true,
            Finding::Indirect1OutOfRange { .. } => true,
            Finding::Indirect2OutOfRange { .. } => true,
            Finding::DuplicateInInode { .. } => true,
            Finding::RootMissing => true,
            Finding::RootNotDirectory => true,
            Finding::Orphan { .. } => true,
            _ => false,
        }
    }
}

/// What a run of the checker gives back.
#[derive(Debug, PartialEq, Eq)]
pub struct FsckReport {
    /// No finding so far says that the blocks are not in order.
    pub blocks_ok: bool,
    /// No finding so far says that the inodes are not in order.
    pub inodes_ok: bool,
    /// The findings, in the order in which they were made.
    pub errors: Vec<Finding>,
}

/// A report as a mathematical value.
#[verifier::ext_equal]
pub struct ReportModel {
    pub blocks_ok: bool,
    pub inodes_ok: bool,
    pub errors: Seq<FindingModel>,
}

impl ReportModel {
    /// The report of a run that has found nothing yet.
    pub open spec fn empty() -> ReportModel {
        ReportModel { blocks_ok: true, inodes_ok: true, errors: Seq::empty() }
    }

    /// This report after `found` was added to it: the findings follow those
    /// already there, and a rollup that any of them affects is `false`.
    pub open spec fn with(self, found: Seq<FindingModel>) -> ReportModel {
        ReportModel {
            blocks_ok: self.blocks_ok && forall|i: int|
                0 <= i < found.len() ==> !(#[trigger] found[i]).affects_blocks(),
            inodes_ok: self.inodes_ok && forall|i: int|
                0 <= i < found.len() ==> !(#[trigger] found[i]).affects_inodes(),
            errors: self.errors + found,
        }
    }
}

/// Adding findings in two steps is adding them in one.
pub proof fn lemma_with_with(r: ReportModel, a: Seq<FindingModel>, b: Seq<FindingModel>)
    ensures
        r.with(a).with(b) == r.with(a + b),
        r.with(Seq::empty()) == r,
{
    let x = r.with(a).with(b);
    let y = r.with(a + b);
    assert(x.errors =~= y.errors);
    if x.blocks_ok {
        assert forall|i: int| 0 <= i < (a + b).len() implies !(#[trigger] (a + b)[i]).affects_blocks() by {
            if i < a.len() {
                assert((a + b)[i] == a[i]);
            } else {
                assert((a + b)[i] == b[i - a.len()]);
            }
        }
    }
    if y.blocks_ok {
        assert forall|i: int| 0 <= i < a.len() implies !(#[trigger] a[i]).affects_blocks() by {
            assert((a + b)[i] == a[i]);
        }
        assert forall|i: int| 0 <= i < b.len() implies !(#[trigger] b[i]).affects_blocks() by {
            assert((a + b)[i + a.len()] == b[i]);
        }
    }
    if x.inodes_ok {
        assert forall|i: int| 0 <= i < (a + b).len() implies !(#[trigger] (a + b)[i]).affects_inodes() by {
            if i < a.len() {
                assert((a + b)[i] == a[i]);
            } else {
                assert((a + b)[i] == b[i - a.len()]);
            }
        }
    }
    if y.inodes_ok {
        assert forall|i: int| 0 <= i < a.len() implies !(#[trigger] a[i]).affects_inodes() by {
            assert((a + b)[i] == a[i]);
        }
        assert forall|i: int| 0 <= i < b.len() implies !(#[trigger] b[i]).affects_inodes() by {
            assert((a + b)[i + a.len()] == b[i]);
        }
    }
    assert(x =~= y);
    assert(r.with(Seq::empty()) =~= r);
}

/// The one finding `f` if `cond` holds, nothing otherwise.
pub open spec fn found_if(cond: bool, f: FindingModel) -> Seq<FindingModel> {
    if cond {
        seq![f]
    } else {
        Seq::empty()
    }
}

impl View for FsckReport {
    type V = ReportModel;

    open spec fn view(&self) -> ReportModel {
        ReportModel {
            blocks_ok: self.blocks_ok,
            inodes_ok: self.inodes_ok,
            errors: self.errors@.map_values(|f: Finding| f@),
        }
    }
}

impl FsckReport {
    /// A report without findings: both rollups `true`.
    pub fn new() -> (r: FsckReport)
        ensures
            r@ == ReportModel::empty(),
    {
        let r = FsckReport { blocks_ok: true, inodes_ok: true, errors: Vec::new() };
        assert(r@.errors =~= Seq::empty());
        r
    }

    /// Adds one finding and clears the rollups that it affects.
    pub fn record(&mut self, f: Finding)
        ensures
            final(self)@ == old(self)@.with(seq![f@]),
    {
        let hits_blocks: bool = f.affects_blocks();
        let hits_inodes: bool = f.affects_inodes();
        let ghost found = seq![f@];
        self.errors.push(f);
        if hits_blocks {
            self.blocks_ok = false;
        }
        if hits_inodes {
            self.inodes_ok = false;
        }
        proof {
            assert(found[0] == f@);
            assert(self@.errors =~= old(self)@.errors + found);
            assert(self@ =~= old(self)@.with(found));
        }
    }

    /// Adds `f` if `cond` holds.
    pub fn record_if(&mut self, cond: bool, f: Finding)
        ensures
            final(self)@ == old(self)@.with(found_if(cond, f@)),
    {
        if cond {
            self.record(f);
        } else {
            proof {
                lemma_with_with(self@, Seq::empty(), Seq::empty());
            }
        }
    }

    /// How many findings the report holds.
    pub fn error_count(&self) -> (n: usize)
        ensures
            n == self@.errors.len(),
    {
        self.errors.len()
    }
}

} // verus!
