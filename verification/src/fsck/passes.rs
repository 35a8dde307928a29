//! The six passes of the checker.
//!
//! Each pass asks the backend for the state afresh, adds what it finds to
//! the report and never stops the run.  What a pass finds is given by a spec
//! function of the backend's model; the pass's contract says that exactly
//! those findings are added, in that order.
use vstd::prelude::*;
use crate::fsck::backend::FsckBackend;
use crate::fsck::blocks::lemma_push_to_set;
use crate::fsck::types::{
    found_if, inode_models, lemma_with_with, Finding, FindingModel, FsckReport, Inode, InodeModel,
    ReportModel, Superblock, FSCK_MAGIC, INVALID_SIZE,
};

verus! {

/// Adds `f` to the report if `cond` holds, and adds its model to the
/// findings counted since the report was `start`.
pub(crate) fn note(
    report: &mut FsckReport,
    cond: bool,
    f: Finding,
    Ghost(start): Ghost<ReportModel>,
    Ghost(so_far): Ghost<Seq<FindingModel>>,
)
    requires
        old(report)@ == start.with(so_far),
    ensures
        final(report)@ == start.with(so_far + found_if(cond, f@)),
{
    proof {
        lemma_with_with(start, so_far, found_if(cond, f@));
    }
    report.record_if(cond, f);
}

/// What the superblock pass finds: a wrong magic number, an inode count that
/// differs from the number of inodes, a block count that differs from the
/// bitmap's length, a root inode id that is not below the number of inodes,
/// a block count of zero, an inode count of zero.
pub open spec fn superblock_findings(sb: Superblock, num_inodes: int, bitmap_len: int) -> Seq<
    FindingModel,
> {
    found_if(sb.magic != FSCK_MAGIC, FindingModel::BadMagic) + found_if(
        sb.num_inodes != num_inodes,
        FindingModel::InodeCountMismatch { declared: sb.num_inodes as int, actual: num_inodes },
    ) + found_if(
        sb.num_blocks != bitmap_len,
        FindingModel::BlockCountMismatch { declared: sb.num_blocks as int, bitmap_len },
    ) + found_if(
        sb.root_inode >= num_inodes,
        FindingModel::RootOutOfRange { root: sb.root_inode as int },
    ) + found_if(sb.num_blocks == 0, FindingModel::ZeroBlocks) + found_if(
        sb.num_inodes == 0,
        FindingModel::ZeroInodes,
    )
}

/// The superblock pass on plain values.
pub fn superblock_pass(sb: &Superblock, num_inodes: usize, bitmap_len: usize, report: &mut FsckReport)
    ensures
        final(report)@ == old(report)@.with(
            superblock_findings(*sb, num_inodes as int, bitmap_len as int),
        ),
{
    let ghost start = report@;
    let ghost f0 = Seq::<FindingModel>::empty();
    proof {
        lemma_with_with(start, f0, f0);
    }
    note(report, sb.magic != FSCK_MAGIC, Finding::BadMagic, Ghost(start), Ghost(f0));
    let ghost f1 = f0 + found_if(sb.magic != FSCK_MAGIC, FindingModel::BadMagic);
    let c2: bool = sb.num_inodes as usize != num_inodes;
    let g2 = Finding::InodeCountMismatch { declared: sb.num_inodes, actual: num_inodes };
    let ghost f2 = f1 + found_if(c2, g2@);
    note(report, c2, g2, Ghost(start), Ghost(f1));
    let c3: bool = sb.num_blocks as usize != bitmap_len;
    let g3 = Finding::BlockCountMismatch { declared: sb.num_blocks, bitmap_len };
    let ghost f3 = f2 + found_if(c3, g3@);
    note(report, c3, g3, Ghost(start), Ghost(f2));
    let c4: bool = sb.root_inode as usize >= num_inodes;
    let g4 = Finding::RootOutOfRange { root: sb.root_inode };
    let ghost f4 = f3 + found_if(c4, g4@);
    note(report, c4, g4, Ghost(start), Ghost(f3));
    note(report, sb.num_blocks == 0, Finding::ZeroBlocks, Ghost(start), Ghost(f4));
    let ghost f5 = f4 + found_if(sb.num_blocks == 0, FindingModel::ZeroBlocks);
    note(report, sb.num_inodes == 0, Finding::ZeroInodes, Ghost(start), Ghost(f5));
    proof {
        let f6 = f5 + found_if(sb.num_inodes == 0, FindingModel::ZeroInodes);
        assert(f6 =~= superblock_findings(*sb, num_inodes as int, bitmap_len as int));
    }
}

/// Pass 1: holds the superblock against the number of inodes and the
/// bitmap's length.
pub fn check_superblock<B: FsckBackend>(backend: &B, report: &mut FsckReport)
    ensures
        final(report)@ == old(report)@.with(
            superblock_findings(
                backend.model().superblock,
                backend.model().inodes.len() as int,
                backend.model().bitmap.len() as int,
            ),
        ),
{
    let sb = backend.load_superblock();
    let inodes = backend.load_all_inodes();
    let bitmap = backend.load_block_bitmap();
    assert(inode_models(inodes@).len() == inodes@.len());
    superblock_pass(&sb, inodes.len(), bitmap.len(), report);
}

/// The direct pointers among the first `n` that are not below `total`.
pub open spec fn direct_range_findings(inode: int, direct: Seq<u32>, total: u32, n: int) -> Seq<
    FindingModel,
>
    decreases n,
{
    if n <= 0 {
        Seq::empty()
    } else {
        direct_range_findings(inode, direct, total, n - 1) + found_if(
            direct[n - 1] >= total,
            FindingModel::DirectOutOfRange { inode, block: direct[n - 1] as int },
        )
    }
}

/// The pointers of an inode in their order: the direct ones, then the
/// single-indirect, then the double-indirect one.
pub open spec fn pointers(inode: InodeModel) -> Seq<u32> {
    inode.direct + (match inode.indirect1 {
        Some(b) => seq![b],
        None => Seq::empty(),
    }) + (match inode.indirect2 {
        Some(b) => seq![b],
        None => Seq::empty(),
    })
}

/// The pointers among the first `n` of one inode that name a block which
/// an earlier pointer of that inode names too.  A pointer of 0 names no
/// block.
pub open spec fn repeated_findings(inode: int, ptrs: Seq<u32>, n: int) -> Seq<FindingModel>
    decreases n,
{
    if n <= 0 {
        Seq::empty()
    } else {
        repeated_findings(inode, ptrs, n - 1) + found_if(
            ptrs[n - 1] != 0 && ptrs.subrange(0, n - 1).contains(ptrs[n - 1]),
            FindingModel::DuplicateInInode { inode, block: ptrs[n - 1] as int },
        )
    }
}

/// The pointers of an inode, in their order.
pub fn pointers_of(inode: &Inode) -> (ptrs: Vec<u32>)
    ensures
        ptrs@ == pointers(inode@),
{
    let mut ptrs: Vec<u32> = Vec::new();
    let mut k: usize = 0;
    while k < inode.direct.len()
        invariant
            k <= inode.direct@.len(),
            ptrs@ == inode.direct@.subrange(0, k as int),
        decreases inode.direct@.len() - k,
    {
        ptrs.push(inode.direct[k]);
        k += 1;
        assert(ptrs@ =~= inode.direct@.subrange(0, k as int));
    }
    assert(ptrs@ =~= inode.direct@);
    let ghost d = ptrs@;
    match inode.indirect1 {
        Some(b) => {
            ptrs.push(b);
            assert(ptrs@ =~= d + seq![b]);
        },
        None => {
            assert(ptrs@ =~= d + Seq::<u32>::empty());
        },
    }
    let ghost d1 = ptrs@;
    match inode.indirect2 {
        Some(b) => {
            ptrs.push(b);
            assert(ptrs@ =~= d1 + seq![b]);
        },
        None => {
            assert(ptrs@ =~= d1 + Seq::<u32>::empty());
        },
    }
    ptrs
}

/// What the basic pass finds in one inode: an invalid size, each direct
/// pointer out of range, each indirect pointer out of range, each pointer,
/// direct or indirect, that names a block which an earlier pointer of the
/// inode names.
pub open spec fn inode_basic_findings(idx: int, inode: InodeModel, total: u32) -> Seq<
    FindingModel,
> {
    found_if(inode.size == INVALID_SIZE, FindingModel::InvalidSize { inode: idx })
        + direct_range_findings(idx, inode.direct, total, inode.direct.len() as int) + found_if(
        inode.indirect1 is Some && inode.indirect1->0 >= total,
        FindingModel::Indirect1OutOfRange { inode: idx, block: inode.indirect1->0 as int },
    ) + found_if(
        inode.indirect2 is Some && inode.indirect2->0 >= total,
        FindingModel::Indirect2OutOfRange { inode: idx, block: inode.indirect2->0 as int },
    ) + repeated_findings(idx, pointers(inode), pointers(inode).len() as int)
}

/// What the basic pass finds in the first `n` inodes.
pub open spec fn inodes_basic_findings(inodes: Seq<InodeModel>, total: u32, n: int) -> Seq<
    FindingModel,
>
    decreases n,
{
    if n <= 0 {
        Seq::empty()
    } else {
        inodes_basic_findings(inodes, total, n - 1) + inode_basic_findings(
            n - 1,
            inodes[n - 1],
            total,
        )
    }
}

/// The basic pass on one inode.
pub fn inode_basic_pass(idx: usize, inode: &Inode, total: u32, report: &mut FsckReport)
    ensures
        final(report)@ == old(report)@.with(inode_basic_findings(idx as int, inode@, total)),
{
    broadcast use vstd::std_specs::hash::group_hash_axioms;

    let ghost start = report@;
    let ghost f0 = Seq::<FindingModel>::empty();
    proof {
        lemma_with_with(start, f0, f0);
    }
    note(
        report,
        inode.size == INVALID_SIZE,
        Finding::InvalidSize { inode: idx },
        Ghost(start),
        Ghost(f0),
    );
    let ghost f1 = f0 + found_if(
        inode.size == INVALID_SIZE,
        FindingModel::InvalidSize { inode: idx as int },
    );
    let mut k: usize = 0;
    while k < inode.direct.len()
        invariant
            k <= inode.direct@.len(),
            report@ == start.with(
                f1 + direct_range_findings(idx as int, inode.direct@, total, k as int),
            ),
        decreases inode.direct@.len() - k,
    {
        let blk: u32 = inode.direct[k];
        let ghost before = f1 + direct_range_findings(idx as int, inode.direct@, total, k as int);
        note(
            report,
            blk >= total,
            Finding::DirectOutOfRange { inode: idx, block: blk },
            Ghost(start),
            Ghost(before),
        );
        k += 1;
        assert(before + found_if(
            blk >= total,
            FindingModel::DirectOutOfRange { inode: idx as int, block: blk as int },
        ) =~= f1 + direct_range_findings(idx as int, inode.direct@, total, k as int));
    }
    let ghost f2 = f1 + direct_range_findings(
        idx as int,
        inode.direct@,
        total,
        inode.direct@.len() as int,
    );
    let c3: bool = match inode.indirect1 {
        Some(b) => b >= total,
        None => false,
    };
    let b3: u32 = match inode.indirect1 {
        Some(b) => b,
        None => 0,
    };
    let g3 = Finding::Indirect1OutOfRange { inode: idx, block: b3 };
    let ghost f3 = f2 + found_if(c3, g3@);
    note(report, c3, g3, Ghost(start), Ghost(f2));
    let c4: bool = match inode.indirect2 {
        Some(b) => b >= total,
        None => false,
    };
    let b4: u32 = match inode.indirect2 {
        Some(b) => b,
        None => 0,
    };
    let g4 = Finding::Indirect2OutOfRange { inode: idx, block: b4 };
    let ghost f4 = f3 + found_if(c4, g4@);
    note(report, c4, g4, Ghost(start), Ghost(f3));
    let all = pointers_of(inode);
    let ghost ptrs = all@;
    let mut seen: std::collections::HashSet<u32> = std::collections::HashSet::new();
    let mut j: usize = 0;
    proof {
        assert(f4 + repeated_findings(idx as int, ptrs, 0) =~= f4);
        assert(ptrs.subrange(0, 0).to_set() =~= Set::<u32>::empty());
    }
    while j < all.len()
        invariant
            j <= ptrs.len(),
            ptrs == all@,
            seen@ == ptrs.subrange(0, j as int).to_set(),
            report@ == start.with(f4 + repeated_findings(idx as int, ptrs, j as int)),
        decreases ptrs.len() - j,
    {
        let blk: u32 = all[j];
        let ghost before = f4 + repeated_findings(idx as int, ptrs, j as int);
        let fresh: bool = seen.insert(blk);
        let again: bool = blk != 0 && !fresh;
        note(
            report,
            again,
            Finding::DuplicateInInode { inode: idx, block: blk },
            Ghost(start),
            Ghost(before),
        );
        proof {
            let prefix = ptrs.subrange(0, j as int);
            lemma_push_to_set(prefix, blk);
            assert(ptrs.subrange(0, j + 1) =~= prefix.push(blk));
        }
        j += 1;
        assert(before + found_if(
            again,
            FindingModel::DuplicateInInode { inode: idx as int, block: blk as int },
        ) =~= f4 + repeated_findings(idx as int, ptrs, j as int));
    }
    proof {
        assert(f4 + repeated_findings(idx as int, ptrs, ptrs.len() as int)
            =~= inode_basic_findings(idx as int, inode@, total));
    }
}

/// Pass 2: checks each inode by itself: its size, the range of its
/// pointers, and that no two of its pointers name the same block.
pub fn check_inodes_basic<B: FsckBackend>(backend: &B, report: &mut FsckReport)
    ensures
        final(report)@ == old(report)@.with(
            inodes_basic_findings(
                backend.model().inodes,
                backend.model().superblock.num_blocks,
                backend.model().inodes.len() as int,
            ),
        ),
{
    let sb = backend.load_superblock();
    let total_blocks: u32 = sb.num_blocks;
    let inodes = backend.load_all_inodes();
    let ghost start = report@;
    let ghost models = inode_models(inodes@);
    proof {
        lemma_with_with(start, Seq::empty(), Seq::empty());
    }
    let mut idx: usize = 0;
    while idx < inodes.len()
        invariant
            idx <= inodes@.len(),
            models == inode_models(inodes@),
            report@ == start.with(inodes_basic_findings(models, total_blocks, idx as int)),
        decreases inodes@.len() - idx,
    {
        proof {
            lemma_with_with(
                start,
                inodes_basic_findings(models, total_blocks, idx as int),
                inode_basic_findings(idx as int, inodes@[idx as int]@, total_blocks),
            );
        }
        inode_basic_pass(idx, &inodes[idx], total_blocks, report);
        idx += 1;
    }
}

} // verus!
