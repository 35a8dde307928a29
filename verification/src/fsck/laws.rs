//! What holds of the checker's findings.
use vstd::prelude::*;
use crate::fsck::backend::FsModel;
use crate::fsck::blocks::{
    bitmap_divergences, bitmap_findings, blocks_in_use, claims, claims_before,
    global_direct_findings, global_findings, inode_global_findings, option_set,
};
use crate::fsck::passes::{pointers, repeated_findings};
use crate::fsck::dirs::{named_before, orphan_findings, referenced, targets_in};
use crate::fsck::fsck_report;
use crate::fsck::types::{found_if, FindingModel, InodeModel, ReportModel, Superblock};

verus! {

/// Two runs of the checker on the same state give the same report.
pub proof fn lemma_fsck_is_repeatable(m: FsModel, first: ReportModel, second: ReportModel)
    requires
        first == fsck_report(m),
        second == fsck_report(m),
    ensures
        first == second,
{
}

/// The pointers of the first `n` inodes, one inode after the other.
pub open spec fn all_pointers(inodes: Seq<InodeModel>, n: int) -> Seq<u32>
    decreases n,
{
    if n <= 0 {
        Seq::empty()
    } else {
        all_pointers(inodes, n - 1) + pointers(inodes[n - 1])
    }
}

/// Whether no block is named twice in `s`: no two places hold the same
/// pointer, but for the pointer 0, which names no block.
pub open spec fn names_no_block_twice(s: Seq<u32>) -> bool {
    forall|i: int, j: int|
        0 <= i < s.len() && 0 <= j < s.len() && i != j && s[i] != 0 ==> s[i] != s[j]
}

/// The blocks that an inode claims are the values of its pointers, but
/// for 0.
pub proof fn lemma_pointers_set(inode: InodeModel)
    ensures
        pointers(inode).to_set().remove(0) == claims(inode),
{
    let i1 = match inode.indirect1 {
        Some(b) => seq![b],
        None => Seq::<u32>::empty(),
    };
    let i2 = match inode.indirect2 {
        Some(b) => seq![b],
        None => Seq::<u32>::empty(),
    };
    vstd::seq_lib::seq_to_set_distributes_over_add(inode.direct + i1, i2);
    vstd::seq_lib::seq_to_set_distributes_over_add(inode.direct, i1);
    assert(i1.to_set() =~= option_set(inode.indirect1)) by {
        if inode.indirect1 is Some {
            assert(i1[0] == inode.indirect1->0);
        }
    }
    assert(i2.to_set() =~= option_set(inode.indirect2)) by {
        if inode.indirect2 is Some {
            assert(i2[0] == inode.indirect2->0);
        }
    }
    assert(pointers(inode).to_set().remove(0) =~= claims(inode));
}

/// The blocks that the first `n` inodes claim are the values of their
/// pointers, but for 0.
pub proof fn lemma_claims_are_pointers(inodes: Seq<InodeModel>, n: int)
    requires
        0 <= n <= inodes.len(),
    ensures
        claims_before(inodes, n) == all_pointers(inodes, n).to_set().remove(0),
    decreases n,
{
    if n > 0 {
        lemma_claims_are_pointers(inodes, n - 1);
        let inode = inodes[n - 1];
        let a = all_pointers(inodes, n - 1);
        let p = pointers(inode);
        vstd::seq_lib::seq_to_set_distributes_over_add(a, p);
        lemma_pointers_set(inode);
        assert(claims_before(inodes, n) =~= (a + p).to_set().remove(0));
    } else {
        assert(all_pointers(inodes, n).to_set().remove(0) =~= Set::empty());
    }
}

/// Adding a pointer to a list keeps it free of blocks named twice exactly
/// when the list was so and the pointer is 0 or not in the list.
pub proof fn lemma_one_more_pointer(prefix: Seq<u32>, last: u32)
    ensures
        names_no_block_twice(prefix.push(last)) <==> (names_no_block_twice(prefix) && (last != 0
            ==> !prefix.contains(last))),
{
    let s = prefix.push(last);
    let n = s.len() as int;
    if names_no_block_twice(s) {
        assert forall|i: int, j: int|
            0 <= i < prefix.len() && 0 <= j < prefix.len() && i != j && prefix[i]
                != 0 implies prefix[i] != prefix[j] by {
            assert(s[i] == prefix[i] && s[j] == prefix[j]);
        }
        if last != 0 && prefix.contains(last) {
            let i = choose|i: int| 0 <= i < prefix.len() && prefix[i] == last;
            assert(s[i] == last && s[n - 1] == last);
            assert(s[n - 1] != s[i]);
        }
    }
    if names_no_block_twice(prefix) && (last != 0 ==> !prefix.contains(last)) {
        assert forall|i: int, j: int|
            0 <= i < n && 0 <= j < n && i != j && s[i] != 0 implies s[i] != s[j] by {
            if i < n - 1 {
                assert(s[i] == prefix[i]);
                assert(prefix.contains(prefix[i]));
            }
            if j < n - 1 {
                assert(s[j] == prefix[j]);
                assert(prefix.contains(prefix[j]));
            }
        }
    }
}

/// The uniqueness pass finds nothing among the first `n` direct pointers of
/// an inode exactly when none of the blocks that they name was seen before
/// and no two of them name the same block.
pub proof fn lemma_direct_clean(idx: int, direct: Seq<u32>, seen: Set<u32>, n: int)
    requires
        0 <= n <= direct.len(),
    ensures
        global_direct_findings(idx, direct, seen, n).len() == 0 <==> (names_no_block_twice(
            direct.subrange(0, n),
        ) && forall|k: int| 0 <= k < n && direct[k] != 0 ==> !seen.contains(#[trigger] direct[k])),
    decreases n,
{
    if n > 0 {
        lemma_direct_clean(idx, direct, seen, n - 1);
        let prefix = direct.subrange(0, n - 1);
        let last = direct[n - 1];
        assert(direct.subrange(0, n) =~= prefix.push(last));
        lemma_one_more_pointer(prefix, last);
    } else {
        assert(direct.subrange(0, n) =~= Seq::empty());
    }
}

/// The uniqueness pass finds nothing in an inode exactly when no two of its
/// pointers name the same block and none of its blocks was seen before.
pub proof fn lemma_inode_clean(idx: int, inode: InodeModel, seen: Set<u32>)
    ensures
        inode_global_findings(idx, inode, seen).len() == 0 <==> (names_no_block_twice(
            pointers(inode),
        ) && seen.disjoint(claims(inode))),
{
    let direct = inode.direct;
    let n = direct.len() as int;
    lemma_direct_clean(idx, direct, seen, n);
    assert(direct.subrange(0, n) =~= direct);
    let i1 = match inode.indirect1 {
        Some(b) => seq![b],
        None => Seq::<u32>::empty(),
    };
    let i2 = match inode.indirect2 {
        Some(b) => seq![b],
        None => Seq::<u32>::empty(),
    };
    let d1 = direct + i1;
    let p = pointers(inode);
    assert(p == d1 + i2);
    lemma_pointers_set(inode);
    vstd::seq_lib::seq_to_set_distributes_over_add(direct, i1);
    assert(i1.to_set() =~= option_set(inode.indirect1)) by {
        if inode.indirect1 is Some {
            assert(i1[0] == inode.indirect1->0);
        }
    }
    if inode.indirect1 is Some {
        assert(d1 =~= direct.push(inode.indirect1->0));
        lemma_one_more_pointer(direct, inode.indirect1->0);
    } else {
        assert(d1 =~= direct);
    }
    if inode.indirect2 is Some {
        assert(p =~= d1.push(inode.indirect2->0));
        lemma_one_more_pointer(d1, inode.indirect2->0);
    } else {
        assert(p =~= d1);
    }
    let clean = inode_global_findings(idx, inode, seen).len() == 0;
    let unique = names_no_block_twice(p) && seen.disjoint(claims(inode));
    if clean {
        assert forall|b: u32| seen.contains(b) implies !claims(inode).contains(b) by {
            if b != 0 && direct.to_set().contains(b) {
                let k = choose|k: int| 0 <= k < direct.len() && direct[k] == b;
                assert(seen.contains(direct[k]));
            }
        }
        assert(unique);
    }
    if unique {
        assert forall|k: int| 0 <= k < n && direct[k] != 0 implies !seen.contains(
            #[trigger] direct[k],
        ) by {
            assert(direct.contains(direct[k]));
            assert(claims(inode).contains(direct[k]));
        }
        if inode.indirect1 is Some && inode.indirect1->0 != 0 {
            let b = inode.indirect1->0;
            assert(claims(inode).contains(b));
            assert(direct.to_set().contains(b) <==> direct.contains(b));
        }
        if inode.indirect2 is Some && inode.indirect2->0 != 0 {
            let b = inode.indirect2->0;
            assert(claims(inode).contains(b));
            assert(d1.to_set().contains(b) <==> d1.contains(b));
            assert(d1.to_set() =~= direct.to_set() + option_set(inode.indirect1));
        }
        assert(global_direct_findings(idx, direct, seen, n).len() == 0);
        assert(clean);
    }
}

/// No block is named twice: the uniqueness pass finds nothing in the first
/// `n` inodes exactly when no two of all their pointers, taken together,
/// name the same block.  No block is then claimed by two inodes, nor twice
/// by one.  A pointer of 0 names no block.
pub proof fn lemma_global_pass_clean_iff_unique(inodes: Seq<InodeModel>, n: int)
    requires
        0 <= n <= inodes.len(),
    ensures
        global_findings(inodes, n).len() == 0 <==> names_no_block_twice(all_pointers(inodes, n)),
    decreases n,
{
    if n > 0 {
        lemma_global_pass_clean_iff_unique(inodes, n - 1);
        let inode = inodes[n - 1];
        let seen = claims_before(inodes, n - 1);
        let a = all_pointers(inodes, n - 1);
        let p = pointers(inode);
        lemma_inode_clean(n - 1, inode, seen);
        lemma_claims_are_pointers(inodes, n - 1);
        lemma_pointers_set(inode);
        assert(all_pointers(inodes, n) == a + p);
        let s = a + p;
        if names_no_block_twice(a) && names_no_block_twice(p) && seen.disjoint(claims(inode)) {
            assert forall|i: int, j: int|
                0 <= i < s.len() && 0 <= j < s.len() && i != j && s[i] != 0 implies s[i]
                != s[j] by {
                if i < a.len() && j >= a.len() {
                    assert(a.contains(a[i]));
                    assert(p.contains(p[j - a.len()]));
                    assert(seen.contains(a[i]));
                    if s[i] == s[j] {
                        assert(claims(inode).contains(p[j - a.len()]));
                    }
                } else if i >= a.len() && j < a.len() {
                    assert(a.contains(a[j]));
                    assert(p.contains(p[i - a.len()]));
                    assert(claims(inode).contains(p[i - a.len()]));
                    if s[i] == s[j] {
                        assert(seen.contains(a[j]));
                    }
                }
            }
        }
        if names_no_block_twice(s) {
            assert forall|i: int, j: int|
                0 <= i < a.len() && 0 <= j < a.len() && i != j && a[i] != 0 implies a[i]
                != a[j] by {
                assert(s[i] == a[i] && s[j] == a[j]);
            }
            assert forall|i: int, j: int|
                0 <= i < p.len() && 0 <= j < p.len() && i != j && p[i] != 0 implies p[i]
                != p[j] by {
                assert(s[a.len() + i] == p[i] && s[a.len() + j] == p[j]);
            }
            assert forall|b: u32| seen.contains(b) implies !claims(inode).contains(b) by {
                if claims(inode).contains(b) {
                    let i = choose|i: int| 0 <= i < a.len() && a[i] == b;
                    let j = choose|j: int| 0 <= j < p.len() && p[j] == b;
                    assert(s[i] == b && s[a.len() + j] == b);
                }
            }
        }
    }
}

/// The basic pass finds no repeat among the first `n` pointers of an inode
/// exactly when no two of them name the same block.
pub proof fn lemma_no_repeat_within(idx: int, ptrs: Seq<u32>, n: int)
    requires
        0 <= n <= ptrs.len(),
    ensures
        repeated_findings(idx, ptrs, n).len() == 0 <==> names_no_block_twice(ptrs.subrange(0, n)),
    decreases n,
{
    if n > 0 {
        lemma_no_repeat_within(idx, ptrs, n - 1);
        assert(ptrs.subrange(0, n) =~= ptrs.subrange(0, n - 1).push(ptrs[n - 1]));
        lemma_one_more_pointer(ptrs.subrange(0, n - 1), ptrs[n - 1]);
    }
}

/// The bitmap pass finds nothing among the first `n` blocks exactly when
/// each of them is marked used if and only if it is among `claimed`.
pub proof fn lemma_divergences_clean(bitmap: Seq<bool>, claimed: Set<u32>, n: int)
    requires
        0 <= n <= bitmap.len(),
    ensures
        bitmap_divergences(bitmap, claimed, n).len() == 0 <==> (forall|b: int|
            0 <= b < n ==> (#[trigger] bitmap[b] <==> claimed.contains(b as u32))),
    decreases n,
{
    if n > 0 {
        lemma_divergences_clean(bitmap, claimed, n - 1);
    }
}

/// The bitmap agrees with the inodes: the bitmap pass finds nothing exactly
/// when the bitmap has one mark per block and each block is marked used if
/// and only if it lies before the data region or some inode points to it.
pub proof fn lemma_bitmap_pass_clean_iff_agrees(
    sb: Superblock,
    inodes: Seq<InodeModel>,
    bitmap: Seq<bool>,
)
    ensures
        bitmap_findings(sb, inodes, bitmap).len() == 0 <==> (bitmap.len() == sb.num_blocks
            && forall|b: int|
            0 <= b < bitmap.len() ==> (#[trigger] bitmap[b] <==> (b < sb.data_start
                || claims_before(inodes, inodes.len() as int).contains(b as u32)))),
{
    if bitmap.len() == sb.num_blocks {
        lemma_divergences_clean(bitmap, blocks_in_use(sb, inodes), sb.num_blocks as int);
    }
}

/// An inode is named by the first `n` entries exactly when one of them has
/// it as its target.
pub proof fn lemma_targets_in(entries: Seq<crate::fsck::types::DirentModel>, n: int, i: int)
    requires
        0 <= n <= entries.len(),
    ensures
        targets_in(entries, n).contains(i) <==> exists|k: int|
            0 <= k < n && (#[trigger] entries[k]).inode == i,
    decreases n,
{
    if n > 0 {
        lemma_targets_in(entries, n - 1, i);
        if targets_in(entries, n).contains(i) {
            if entries[n - 1].inode == i {
            } else {
                let k = choose|k: int| 0 <= k < n - 1 && (#[trigger] entries[k]).inode == i;
                assert(0 <= k < n && entries[k].inode == i);
            }
        }
    }
}

/// Whether an entry of a directory among the first `n` inodes names inode `i`.
pub open spec fn named_by_some_dir(m: FsModel, n: int, i: int) -> bool {
    exists|d: int, k: int|
        0 <= d < n && m.inodes[d].is_dir && 0 <= k < m.dir(d).len() && (#[trigger] m.dir(
            d,
        )[k]).inode == i
}

/// The set of named inodes holds exactly the targets of the directories'
/// entries.
pub proof fn lemma_named_before(m: FsModel, n: int, i: int)
    requires
        0 <= n <= m.inodes.len(),
    ensures
        named_before(m, n).contains(i) <==> named_by_some_dir(m, n, i),
    decreases n,
{
    if n > 0 {
        lemma_named_before(m, n - 1, i);
        let d = n - 1;
        lemma_targets_in(m.dir(d), m.dir(d).len() as int, i);
        if named_before(m, n).contains(i) {
            if named_before(m, n - 1).contains(i) {
                let (d0, k0) = choose|d0: int, k0: int|
                    0 <= d0 < n - 1 && m.inodes[d0].is_dir && 0 <= k0 < m.dir(d0).len() && (
                    #[trigger] m.dir(d0)[k0]).inode == i;
                assert(0 <= d0 < n && m.inodes[d0].is_dir && 0 <= k0 < m.dir(d0).len() && m.dir(
                    d0,
                )[k0].inode == i);
            } else {
                let k = choose|k: int|
                    0 <= k < m.dir(d).len() && (#[trigger] m.dir(d)[k]).inode == i;
                assert(0 <= d < n && m.inodes[d].is_dir && 0 <= k < m.dir(d).len() && m.dir(
                    d,
                )[k].inode == i);
            }
        }
        if named_by_some_dir(m, n, i) {
            let (d0, k0) = choose|d0: int, k0: int|
                0 <= d0 < n && m.inodes[d0].is_dir && 0 <= k0 < m.dir(d0).len() && (
                #[trigger] m.dir(d0)[k0]).inode == i;
            if d0 < n - 1 {
                assert(named_by_some_dir(m, n - 1, i));
            } else {
                assert(m.dir(d)[k0].inode == i);
            }
        }
    }
}

/// Whether the orphan pass reports inode `i` among the first `n`.
pub open spec fn reported_orphan(m: FsModel, n: int, i: int) -> bool {
    orphan_findings(m, n).contains(FindingModel::Orphan { inode: i })
}

/// The orphan pass reports, among the first `n` inodes, exactly those that
/// are in use and not referenced.
pub proof fn lemma_orphans_reported(m: FsModel, n: int, i: int)
    requires
        0 <= n,
    ensures
        reported_orphan(m, n, i) <==> (0 <= i < n && m.inodes[i].in_use && !referenced(
            m,
        ).contains(i)),
    decreases n,
{
    if n > 0 {
        lemma_orphans_reported(m, n - 1, i);
        let prev = orphan_findings(m, n - 1);
        let last = found_if(
            m.inodes[n - 1].in_use && !referenced(m).contains(n - 1),
            FindingModel::Orphan { inode: n - 1 },
        );
        let f = FindingModel::Orphan { inode: i };
        if (prev + last).contains(f) {
            let k = choose|k: int| 0 <= k < (prev + last).len() && (prev + last)[k] == f;
            if k < prev.len() {
                assert(prev[k] == f);
            } else {
                assert(last[k - prev.len()] == f);
            }
        }
        if prev.contains(f) {
            let k = choose|k: int| 0 <= k < prev.len() && prev[k] == f;
            assert((prev + last)[k] == f);
        }
        if i == n - 1 && m.inodes[i].in_use && !referenced(m).contains(i) {
            assert(last[0] == f);
            assert((prev + last)[prev.len() as int] == f);
        }
    }
}

/// Every inode is either reachable or reported: an inode is reported as an
/// orphan exactly when it is in use, it is not the root, and no entry of
/// any directory names it.
pub proof fn lemma_orphan_iff_unreferenced(m: FsModel, i: int)
    requires
        0 <= i < m.inodes.len(),
    ensures
        reported_orphan(m, m.inodes.len() as int, i) <==> (m.inodes[i].in_use && i
            != m.superblock.root_inode && !named_by_some_dir(m, m.inodes.len() as int, i)),
{
    lemma_orphans_reported(m, m.inodes.len() as int, i);
    lemma_named_before(m, m.inodes.len() as int, i);
}

} // verus!
