//! The two passes that hold the inodes' block pointers against each other
//! and against the bitmap.
use vstd::prelude::*;
use crate::fsck::backend::FsckBackend;
use crate::fsck::passes::note;
use crate::fsck::types::{
    found_if, inode_models, lemma_with_with, Finding, FindingModel, FsckReport, Inode,
    InodeModel, Superblock,
};

verus! {

/// The block that an indirect pointer names, if it names one.
pub open spec fn option_set(p: Option<u32>) -> Set<u32> {
    match p {
        Some(b) => set![b],
        None => Set::empty(),
    }
}

/// The blocks that an inode points to.  A pointer of 0 names no block.
pub open spec fn claims(inode: InodeModel) -> Set<u32> {
    (inode.direct.to_set() + option_set(inode.indirect1) + option_set(inode.indirect2)).remove(0)
}

/// The blocks that the first `n` inodes point to.
pub open spec fn claims_before(inodes: Seq<InodeModel>, n: int) -> Set<u32>
    decreases n,
{
    if n <= 0 {
        Set::empty()
    } else {
        claims_before(inodes, n - 1) + claims(inodes[n - 1])
    }
}

/// The set of a sequence with one more element is the sequence's set with
/// that element.
pub proof fn lemma_push_to_set(s: Seq<u32>, x: u32)
    ensures
        s.push(x).to_set() == s.to_set().insert(x),
        s.to_set().contains(x) <==> s.contains(x),
{
    assert forall|y: u32| s.push(x).to_set().contains(y) implies s.to_set().insert(x).contains(
        y,
    ) by {
        let i = choose|i: int| 0 <= i < s.push(x).len() && s.push(x)[i] == y;
        if i < s.len() {
            assert(s[i] == y);
        }
    }
    assert forall|y: u32| s.to_set().insert(x).contains(y) implies s.push(x).to_set().contains(
        y,
    ) by {
        if y == x {
            assert(s.push(x)[s.len() as int] == y);
        } else {
            let i = choose|i: int| 0 <= i < s.len() && s[i] == y;
            assert(s.push(x)[i] == y);
        }
    }
    assert(s.push(x).to_set() =~= s.to_set().insert(x));
}

/// The direct pointers among the first `n` of an inode that name a block
/// which was seen before: in an earlier inode (`seen`) or earlier in this
/// one.  A pointer of 0 names no block.
pub open spec fn global_direct_findings(
    inode: int,
    direct: Seq<u32>,
    seen: Set<u32>,
    n: int,
) -> Seq<FindingModel>
    decreases n,
{
    if n <= 0 {
        Seq::empty()
    } else {
        global_direct_findings(inode, direct, seen, n - 1) + found_if(
            direct[n - 1] != 0 && (seen.contains(direct[n - 1]) || direct.subrange(
                0,
                n - 1,
            ).contains(direct[n - 1])),
            FindingModel::DuplicateDirect { inode, block: direct[n - 1] as int },
        )
    }
}

/// What the uniqueness pass finds in one inode, given the blocks that
/// earlier inodes point to: each pointer that names a block which was seen
/// before, the direct ones first, then the single-indirect, then the
/// double-indirect one.
pub open spec fn inode_global_findings(idx: int, inode: InodeModel, seen: Set<u32>) -> Seq<
    FindingModel,
> {
    global_direct_findings(idx, inode.direct, seen, inode.direct.len() as int) + found_if(
        inode.indirect1 is Some && inode.indirect1->0 != 0 && (seen
            + inode.direct.to_set()).contains(inode.indirect1->0),
        FindingModel::DuplicateIndirect1 { inode: idx, block: inode.indirect1->0 as int },
    ) + found_if(
        inode.indirect2 is Some && inode.indirect2->0 != 0 && (seen + inode.direct.to_set()
            + option_set(inode.indirect1)).contains(inode.indirect2->0),
        FindingModel::DuplicateIndirect2 { inode: idx, block: inode.indirect2->0 as int },
    )
}

/// What the uniqueness pass finds in the first `n` inodes.
pub open spec fn global_findings(inodes: Seq<InodeModel>, n: int) -> Seq<FindingModel>
    decreases n,
{
    if n <= 0 {
        Seq::empty()
    } else {
        global_findings(inodes, n - 1) + inode_global_findings(
            n - 1,
            inodes[n - 1],
            claims_before(inodes, n - 1),
        )
    }
}

/// The uniqueness pass on one inode: `seen` holds the blocks met so far and
/// takes up this inode's.
pub fn inode_global_pass(
    idx: usize,
    inode: &Inode,
    seen: &mut std::collections::HashSet<u32>,
    report: &mut FsckReport,
)
    ensures
        final(seen)@ == old(seen)@ + claims(inode@),
        final(report)@ == old(report)@.with(
            inode_global_findings(idx as int, inode@, old(seen)@),
        ),
{
    broadcast use vstd::std_specs::hash::group_hash_axioms;

    let ghost start = report@;
    let ghost seen0 = seen@;
    let ghost direct = inode.direct@;
    proof {
        lemma_with_with(start, Seq::empty(), Seq::empty());
        assert(direct.subrange(0, 0).to_set() =~= Set::empty());
        assert(seen0 + direct.subrange(0, 0).to_set().remove(0) =~= seen0);
    }
    let mut k: usize = 0;
    while k < inode.direct.len()
        invariant
            k <= direct.len(),
            direct == inode.direct@,
            seen@ == seen0 + direct.subrange(0, k as int).to_set().remove(0),
            report@ == start.with(global_direct_findings(idx as int, direct, seen0, k as int)),
        decreases direct.len() - k,
    {
        let blk: u32 = inode.direct[k];
        let ghost before = global_direct_findings(idx as int, direct, seen0, k as int);
        let again: bool = blk != 0 && !seen.insert(blk);
        note(
            report,
            again,
            Finding::DuplicateDirect { inode: idx, block: blk },
            Ghost(start),
            Ghost(before),
        );
        proof {
            let prefix = direct.subrange(0, k as int);
            lemma_push_to_set(prefix, blk);
            assert(direct.subrange(0, k + 1) =~= prefix.push(blk));
            assert(seen@ =~= seen0 + direct.subrange(0, k + 1).to_set().remove(0));
        }
        k += 1;
    }
    proof {
        assert(direct.subrange(0, direct.len() as int) =~= direct);
    }
    let ghost f1 = global_direct_findings(idx as int, direct, seen0, direct.len() as int);
    let ghost seen1 = seen@;
    let mut c2: bool = false;
    let mut b2: u32 = 0;
    match inode.indirect1 {
        Some(b) => {
            c2 = b != 0 && !seen.insert(b);
            b2 = b;
        },
        None => {},
    }
    let g2 = Finding::DuplicateIndirect1 { inode: idx, block: b2 };
    let ghost f2 = f1 + found_if(c2, g2@);
    note(report, c2, g2, Ghost(start), Ghost(f1));
    proof {
        assert(seen@ =~= seen0 + (direct.to_set() + option_set(inode.indirect1)).remove(0));
    }
    let mut c3: bool = false;
    let mut b3: u32 = 0;
    match inode.indirect2 {
        Some(b) => {
            c3 = b != 0 && !seen.insert(b);
            b3 = b;
        },
        None => {},
    }
    let g3 = Finding::DuplicateIndirect2 { inode: idx, block: b3 };
    note(report, c3, g3, Ghost(start), Ghost(f2));
    proof {
        assert(seen@ =~= seen0 + claims(inode@));
        assert(f2 + found_if(c3, g3@) =~= inode_global_findings(idx as int, inode@, seen0));
    }
}

/// Pass 3: puts every block that a pointer of an inode names into one set,
/// in inode order, and reports each pointer whose block was in the set
/// already.  A pointer of 0 names no block.
pub fn check_blocks_global<B: FsckBackend>(backend: &B, _sb: &Superblock, report: &mut FsckReport)
    ensures
        final(report)@ == old(report)@.with(
            global_findings(backend.model().inodes, backend.model().inodes.len() as int),
        ),
{
    let inodes = backend.load_all_inodes();
    let mut seen: std::collections::HashSet<u32> = std::collections::HashSet::new();
    let ghost start = report@;
    let ghost models = inode_models(inodes@);
    proof {
        lemma_with_with(start, Seq::empty(), Seq::empty());
    }
    let mut idx: usize = 0;
    while idx < inodes.len()
        invariant
            idx <= inodes@.len(),
            models == inode_models(inodes@),
            seen@ == claims_before(models, idx as int),
            report@ == start.with(global_findings(models, idx as int)),
        decreases inodes@.len() - idx,
    {
        proof {
            lemma_with_with(
                start,
                global_findings(models, idx as int),
                inode_global_findings(idx as int, inodes@[idx as int]@, seen@),
            );
        }
        inode_global_pass(idx, &inodes[idx], &mut seen, report);
        idx += 1;
    }
}

/// Where the first `n` marks of the bitmap differ from the blocks in
/// `claimed`: a block marked used that is not among them, a block marked
/// free that is.
pub open spec fn bitmap_divergences(bitmap: Seq<bool>, claimed: Set<u32>, n: int) -> Seq<
    FindingModel,
>
    decreases n,
{
    if n <= 0 {
        Seq::empty()
    } else {
        bitmap_divergences(bitmap, claimed, n - 1) + found_if(
            bitmap[n - 1] && !claimed.contains((n - 1) as u32),
            FindingModel::UsedButUnclaimed { block: n - 1 },
        ) + found_if(
            !bitmap[n - 1] && claimed.contains((n - 1) as u32),
            FindingModel::FreeButClaimed { block: n - 1 },
        )
    }
}

/// The blocks that are in use: those before the data region, which hold
/// the filesystem's own records, and those that an inode points to.
pub open spec fn blocks_in_use(sb: Superblock, inodes: Seq<InodeModel>) -> Set<u32> {
    Set::new(|b: u32| b < sb.data_start) + claims_before(inodes, inodes.len() as int)
}

/// What the bitmap pass finds: a bitmap of the wrong length, and nothing
/// more; or else every block whose mark differs from whether the block is
/// in use.
pub open spec fn bitmap_findings(sb: Superblock, inodes: Seq<InodeModel>, bitmap: Seq<bool>) -> Seq<
    FindingModel,
> {
    if bitmap.len() != sb.num_blocks {
        seq![
            FindingModel::BitmapSizeMismatch {
                actual: bitmap.len() as int,
                expected: sb.num_blocks as int,
            },
        ]
    } else {
        bitmap_divergences(bitmap, blocks_in_use(sb, inodes), sb.num_blocks as int)
    }
}

/// Marks in `used` every block below `used.len()` that `inode` points to.
pub fn mark_claims(inode: &Inode, used: &mut Vec<bool>)
    requires
        old(used)@.len() <= u32::MAX,
    ensures
        final(used)@.len() == old(used)@.len(),
        forall|b: int|
            0 <= b < old(used)@.len() ==> #[trigger] final(used)@[b] == (old(used)@[b] || claims(
                inode@,
            ).contains(b as u32)),
{
    let n: usize = used.len();
    let ghost direct = inode.direct@;
    let ghost used0 = used@;
    let mut k: usize = 0;
    proof {
        assert(direct.subrange(0, 0).to_set() =~= Set::empty());
    }
    while k < inode.direct.len()
        invariant
            k <= direct.len(),
            direct == inode.direct@,
            used@.len() == n,
            n == used0.len(),
            n <= u32::MAX,
            forall|b: int|
                0 <= b < n ==> #[trigger] used@[b] == (used0[b] || (b != 0 && direct.subrange(
                    0,
                    k as int,
                ).to_set().contains(b as u32))),
        decreases direct.len() - k,
    {
        let blk: u32 = inode.direct[k];
        let ghost before = used@;
        if blk != 0 && (blk as usize) < n {
            used[blk as usize] = true;
        }
        proof {
            let prefix = direct.subrange(0, k as int);
            lemma_push_to_set(prefix, blk);
            assert(direct.subrange(0, k + 1) =~= prefix.push(blk));
            assert forall|b: int| 0 <= b < n implies used@[b] == (used0[b] || (b != 0
                && prefix.push(blk).to_set().contains(b as u32))) by {
                assert(before[b] == (used0[b] || (b != 0 && prefix.to_set().contains(b as u32))));
                assert(prefix.to_set().insert(blk).contains(b as u32) == (b as u32 == blk
                    || prefix.to_set().contains(b as u32)));
            }
        }
        k += 1;
    }
    proof {
        assert(direct.subrange(0, direct.len() as int) =~= direct);
    }
    let ghost used1 = used@;
    match inode.indirect1 {
        Some(blk) => {
            if blk != 0 && (blk as usize) < n {
                used[blk as usize] = true;
            }
        },
        None => {},
    }
    let ghost used2 = used@;
    match inode.indirect2 {
        Some(blk) => {
            if blk != 0 && (blk as usize) < n {
                used[blk as usize] = true;
            }
        },
        None => {},
    }
    proof {
        assert forall|b: int| 0 <= b < n implies used@[b] == (used0[b] || claims(inode@).contains(
            b as u32,
        )) by {
            assert(used1[b] == (used0[b] || (b != 0 && direct.to_set().contains(b as u32))));
            assert(used2[b] == (used1[b] || (b != 0 && option_set(inode.indirect1).contains(
                b as u32,
            ))));
            assert(used@[b] == (used2[b] || (b != 0 && option_set(inode.indirect2).contains(
                b as u32,
            ))));
        }
    }
}

/// Pass 5: holds the bitmap against the blocks in use: those before the
/// data region and those that the inodes point to.  A bitmap of the wrong
/// length is reported and ends this pass.
pub fn check_bitmap_global<B: FsckBackend>(backend: &B, sb: &Superblock, report: &mut FsckReport)
    ensures
        final(report)@ == old(report)@.with(
            bitmap_findings(*sb, backend.model().inodes, backend.model().bitmap),
        ),
{
    let bitmap = backend.load_block_bitmap();
    let inodes = backend.load_all_inodes();
    if bitmap.len() != sb.num_blocks as usize {
        report.record(
            Finding::BitmapSizeMismatch { actual: bitmap.len(), expected: sb.num_blocks },
        );
        return ;
    }
    let n: usize = bitmap.len();
    let ghost models = inode_models(inodes@);
    let mut in_use: Vec<bool> = Vec::new();
    let mut i: usize = 0;
    while i < n
        invariant
            i <= n,
            n <= u32::MAX,
            in_use@.len() == i,
            forall|b: int| 0 <= b < i ==> #[trigger] in_use@[b] == (b < sb.data_start),
        decreases n - i,
    {
        in_use.push(i < sb.data_start as usize);
        i += 1;
    }
    let mut idx: usize = 0;
    while idx < inodes.len()
        invariant
            idx <= inodes@.len(),
            models == inode_models(inodes@),
            in_use@.len() == n,
            n <= u32::MAX,
            forall|b: int|
                0 <= b < n ==> #[trigger] in_use@[b] == (b < sb.data_start || claims_before(
                    models,
                    idx as int,
                ).contains(b as u32)),
        decreases inodes@.len() - idx,
    {
        mark_claims(&inodes[idx], &mut in_use);
        idx += 1;
    }
    let ghost start = report@;
    let ghost claimed = blocks_in_use(*sb, models);
    proof {
        lemma_with_with(start, Seq::empty(), Seq::empty());
    }
    let mut block: usize = 0;
    while block < n
        invariant
            block <= n,
            n == bitmap@.len(),
            n <= u32::MAX,
            in_use@.len() == n,
            forall|b: int| 0 <= b < n ==> #[trigger] in_use@[b] == claimed.contains(b as u32),
            report@ == start.with(bitmap_divergences(bitmap@, claimed, block as int)),
        decreases n - block,
    {
        let bitmap_says_used: bool = bitmap[block];
        let inode_says_used: bool = in_use[block];
        let ghost f0 = bitmap_divergences(bitmap@, claimed, block as int);
        let g1 = Finding::UsedButUnclaimed { block };
        let c1: bool = bitmap_says_used && !inode_says_used;
        note(report, c1, g1, Ghost(start), Ghost(f0));
        let ghost f1 = f0 + found_if(c1, g1@);
        let g2 = Finding::FreeButClaimed { block };
        let c2: bool = !bitmap_says_used && inode_says_used;
        note(report, c2, g2, Ghost(start), Ghost(f1));
        block += 1;
    }
}

} // verus!
