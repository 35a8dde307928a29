//! The two passes that walk the directories: what the entries name, and
//! which inodes no entry names.
use vstd::prelude::*;
use crate::fsck::backend::{FsModel, FsckBackend};
use crate::fsck::passes::note;
use crate::fsck::types::{
    dirent_models, found_if, inode_models, lemma_with_with, Dirent, DirentModel, Finding,
    FindingModel, FsckReport, Inode, InodeModel, ReportModel,
};

verus! {

/// Whether the report holds the superblock pass's finding that the root
/// inode id is out of range.
pub open spec fn root_flagged(report: ReportModel) -> bool {
    exists|i: int|
        0 <= i < report.errors.len() && (#[trigger] report.errors[i]) is RootOutOfRange
}

/// What the directory pass finds in one entry of directory `dir`: an empty
/// name; a target that is no inode, which ends the look at this entry; a
/// declared type that differs from the target's.
pub open spec fn dir_entry_findings(dir: int, entry: DirentModel, inodes: Seq<InodeModel>) -> Seq<
    FindingModel,
> {
    found_if(entry.name.len() == 0, FindingModel::EmptyName { dir }) + (if entry.inode
        >= inodes.len() {
        seq![
            FindingModel::DanglingEntry { dir, name: entry.name, target: entry.inode as int },
        ]
    } else {
        found_if(
            entry.is_dir != inodes[entry.inode as int].is_dir,
            FindingModel::WrongEntryType { dir, name: entry.name },
        )
    })
}

/// What the directory pass finds in the first `n` entries of directory `dir`.
pub open spec fn dir_findings(
    dir: int,
    entries: Seq<DirentModel>,
    inodes: Seq<InodeModel>,
    n: int,
) -> Seq<FindingModel>
    decreases n,
{
    if n <= 0 {
        Seq::empty()
    } else {
        dir_findings(dir, entries, inodes, n - 1) + dir_entry_findings(
            dir,
            entries[n - 1],
            inodes,
        )
    }
}

/// What the directory pass finds in the directories among the first `n`
/// inodes.
pub open spec fn all_dirs_findings(m: FsModel, n: int) -> Seq<FindingModel>
    decreases n,
{
    if n <= 0 {
        Seq::empty()
    } else {
        all_dirs_findings(m, n - 1) + (if m.inodes[n - 1].is_dir {
            dir_findings(n - 1, m.dir(n - 1), m.inodes, m.dir(n - 1).len() as int)
        } else {
            Seq::empty()
        })
    }
}

/// What the directory pass finds, given the report as it was before the
/// pass.  Nothing, if the report says already that the root inode id is out
/// of range.  Only that the root is missing, if its id is out of range.
/// Otherwise: a root that is no directory, then every directory's entries.
pub open spec fn dirs_findings(m: FsModel, before: ReportModel) -> Seq<FindingModel> {
    if root_flagged(before) {
        Seq::empty()
    } else if m.superblock.root_inode >= m.inodes.len() {
        seq![FindingModel::RootMissing]
    } else {
        found_if(
            !m.inodes[m.superblock.root_inode as int].is_dir,
            FindingModel::RootNotDirectory,
        ) + all_dirs_findings(m, m.inodes.len() as int)
    }
}

/// Whether the report holds the superblock pass's finding that the root
/// inode id is out of range.
pub fn has_root_flag(report: &FsckReport) -> (r: bool)
    ensures
        r == root_flagged(report@),
{
    let mut i: usize = 0;
    while i < report.errors.len()
        invariant
            i <= report.errors@.len(),
            forall|j: int| 0 <= j < i ==> !((#[trigger] report@.errors[j]) is RootOutOfRange),
        decreases report.errors@.len() - i,
    {
        match &report.errors[i] {
            Finding::RootOutOfRange { .. } => {
                assert(report@.errors[i as int] is RootOutOfRange);
                return true;
            },
            _ => {
                assert(!(report@.errors[i as int] is RootOutOfRange));
            },
        }
        i += 1;
    }
    false
}

/// The directory pass on the entries of one directory.
pub fn dir_pass(dir: usize, entries: &Vec<Dirent>, inodes: &Vec<Inode>, report: &mut FsckReport)
    ensures
        final(report)@ == old(report)@.with(
            dir_findings(
                dir as int,
                dirent_models(entries@),
                inode_models(inodes@),
                entries@.len() as int,
            ),
        ),
{
    let ghost start = report@;
    let ghost models = inode_models(inodes@);
    let ghost listed = dirent_models(entries@);
    proof {
        lemma_with_with(start, Seq::empty(), Seq::empty());
    }
    let mut k: usize = 0;
    while k < entries.len()
        invariant
            k <= entries@.len(),
            models == inode_models(inodes@),
            listed == dirent_models(entries@),
            report@ == start.with(dir_findings(dir as int, listed, models, k as int)),
        decreases entries@.len() - k,
    {
        let entry = &entries[k];
        let ghost f0 = dir_findings(dir as int, listed, models, k as int);
        let c1: bool = entry.name.as_str().is_empty();
        note(report, c1, Finding::EmptyName { dir }, Ghost(start), Ghost(f0));
        let ghost f1 = f0 + found_if(c1, FindingModel::EmptyName { dir: dir as int });
        assert(listed[k as int] == entry@);
        if entry.inode as usize >= inodes.len() {
            let g = Finding::DanglingEntry {
                dir,
                name: entry.name.clone(),
                target: entry.inode,
            };
            let ghost gm = g@;
            note(report, true, g, Ghost(start), Ghost(f1));
            assert(f1 + found_if(true, gm) =~= dir_findings(dir as int, listed, models, k + 1));
        } else {
            let target = &inodes[entry.inode as usize];
            assert(models[entry.inode as int] == target@);
            let c2: bool = entry.is_dir != target.is_dir;
            let g = Finding::WrongEntryType { dir, name: entry.name.clone() };
            let ghost gm = g@;
            note(report, c2, g, Ghost(start), Ghost(f1));
            assert(f1 + found_if(c2, gm) =~= dir_findings(dir as int, listed, models, k + 1));
        }
        k += 1;
    }
}

/// The entries that the backend lists for the inode with index `idx`.
pub fn entries_of<B: FsckBackend>(backend: &B, idx: usize) -> (entries: Vec<Dirent>)
    ensures
        dirent_models(entries@) == backend.model().dir(idx as int),
{
    if idx <= 0xFFFF_FFFF {
        backend.read_dir(idx as u32)
    } else {
        let none: Vec<Dirent> = Vec::new();
        assert(dirent_models(none@) =~= Seq::empty());
        none
    }
}

/// Pass 4: checks that the root is a directory and what every directory's
/// entries name.  The pass is skipped when the report already holds the
/// finding that the root inode id is out of range.
pub fn check_dirs<B: FsckBackend>(backend: &B, report: &mut FsckReport)
    ensures
        final(report)@ == old(report)@.with(dirs_findings(backend.model(), old(report)@)),
{
    let sb = backend.load_superblock();
    let inodes = backend.load_all_inodes();
    let ghost start = report@;
    let ghost m = backend.model();
    proof {
        lemma_with_with(start, Seq::empty(), Seq::empty());
        assert(inode_models(inodes@).len() == inodes@.len());
    }
    if has_root_flag(report) {
        return ;
    }
    if sb.root_inode as usize >= inodes.len() {
        report.record(Finding::RootMissing);
        return ;
    }
    let root_is_dir: bool = inodes[sb.root_inode as usize].is_dir;
    assert(m.inodes[sb.root_inode as int] == inodes@[sb.root_inode as int]@);
    note(report, !root_is_dir, Finding::RootNotDirectory, Ghost(start), Ghost(Seq::empty()));
    let ghost f0 = Seq::<FindingModel>::empty() + found_if(
        !root_is_dir,
        FindingModel::RootNotDirectory,
    );
    proof {
        assert(f0 + all_dirs_findings(m, 0) =~= f0);
        assert(f0 =~= found_if(!root_is_dir, FindingModel::RootNotDirectory));
    }
    let mut idx: usize = 0;
    while idx < inodes.len()
        invariant
            idx <= inodes@.len(),
            m == backend.model(),
            m.inodes == inode_models(inodes@),
            report@ == start.with(f0 + all_dirs_findings(m, idx as int)),
        decreases inodes@.len() - idx,
    {
        assert(m.inodes[idx as int] == inodes@[idx as int]@);
        if inodes[idx].is_dir {
            let entries = entries_of(backend, idx);
            proof {
                lemma_with_with(
                    start,
                    f0 + all_dirs_findings(m, idx as int),
                    dir_findings(
                        idx as int,
                        m.dir(idx as int),
                        m.inodes,
                        m.dir(idx as int).len() as int,
                    ),
                );
                assert(dirent_models(entries@).len() == entries@.len());
            }
            dir_pass(idx, &entries, &inodes, report);
            assert(f0 + all_dirs_findings(m, idx as int) + dir_findings(
                idx as int,
                m.dir(idx as int),
                m.inodes,
                m.dir(idx as int).len() as int,
            ) =~= f0 + all_dirs_findings(m, idx + 1));
        } else {
            assert(f0 + all_dirs_findings(m, idx as int) =~= f0 + all_dirs_findings(m, idx + 1));
        }
        idx += 1;
    }
}

/// The inodes that the first `n` of `entries` name.
pub open spec fn targets_in(entries: Seq<DirentModel>, n: int) -> Set<int>
    decreases n,
{
    if n <= 0 {
        Set::empty()
    } else {
        targets_in(entries, n - 1).insert(entries[n - 1].inode as int)
    }
}

/// The inodes that the entries of the directories among the first `n`
/// inodes name.
pub open spec fn named_before(m: FsModel, n: int) -> Set<int>
    decreases n,
{
    if n <= 0 {
        Set::empty()
    } else {
        named_before(m, n - 1) + (if m.inodes[n - 1].is_dir {
            targets_in(m.dir(n - 1), m.dir(n - 1).len() as int)
        } else {
            Set::empty()
        })
    }
}

/// The root, if its id is the id of an inode.
pub open spec fn root_set(m: FsModel) -> Set<int> {
    if m.superblock.root_inode < m.inodes.len() {
        set![m.superblock.root_inode as int]
    } else {
        Set::empty()
    }
}

/// The inodes that count as reachable: the root, and every inode that an
/// entry of some directory names.
pub open spec fn referenced(m: FsModel) -> Set<int> {
    root_set(m) + named_before(m, m.inodes.len() as int)
}

/// The inodes among the first `n` that are in use and not referenced.  A
/// free slot holds no inode, so it is no orphan.
pub open spec fn orphan_findings(m: FsModel, n: int) -> Seq<FindingModel>
    decreases n,
{
    if n <= 0 {
        Seq::empty()
    } else {
        orphan_findings(m, n - 1) + found_if(
            m.inodes[n - 1].in_use && !referenced(m).contains(n - 1),
            FindingModel::Orphan { inode: n - 1 },
        )
    }
}

/// Marks in `referenced` every inode below `referenced.len()` that one of
/// `entries` names.
pub fn mark_targets(entries: &Vec<Dirent>, referenced: &mut Vec<bool>)
    ensures
        final(referenced)@.len() == old(referenced)@.len(),
        forall|i: int|
            0 <= i < old(referenced)@.len() ==> #[trigger] final(referenced)@[i] == (old(
                referenced,
            )@[i] || targets_in(dirent_models(entries@), entries@.len() as int).contains(i)),
{
    let n: usize = referenced.len();
    let ghost listed = dirent_models(entries@);
    let ghost marks0 = referenced@;
    let mut k: usize = 0;
    while k < entries.len()
        invariant
            k <= entries@.len(),
            listed == dirent_models(entries@),
            referenced@.len() == n,
            n == marks0.len(),
            forall|i: int|
                0 <= i < n ==> #[trigger] referenced@[i] == (marks0[i] || targets_in(
                    listed,
                    k as int,
                ).contains(i)),
        decreases entries@.len() - k,
    {
        let target: u32 = entries[k].inode;
        assert(listed[k as int] == entries@[k as int]@);
        if (target as usize) < n {
            referenced[target as usize] = true;
        }
        k += 1;
    }
}

/// Pass 6: reports every inode in use that is neither the root nor named
/// by an entry of any directory.
pub fn check_orphan_inodes<B: FsckBackend>(backend: &B, report: &mut FsckReport)
    ensures
        final(report)@ == old(report)@.with(
            orphan_findings(backend.model(), backend.model().inodes.len() as int),
        ),
{
    let sb = backend.load_superblock();
    let inodes = backend.load_all_inodes();
    let n: usize = inodes.len();
    let ghost m = backend.model();
    proof {
        assert(inode_models(inodes@).len() == inodes@.len());
    }
    let mut referenced_marks: Vec<bool> = Vec::new();
    let mut i: usize = 0;
    while i < n
        invariant
            i <= n,
            referenced_marks@.len() == i,
            forall|j: int| 0 <= j < i ==> !(#[trigger] referenced_marks@[j]),
        decreases n - i,
    {
        referenced_marks.push(false);
        i += 1;
    }
    if (sb.root_inode as usize) < n {
        referenced_marks[sb.root_inode as usize] = true;
    }
    let mut idx: usize = 0;
    while idx < n
        invariant
            idx <= n,
            n == inodes@.len(),
            m == backend.model(),
            m.inodes == inode_models(inodes@),
            referenced_marks@.len() == n,
            forall|j: int|
                0 <= j < n ==> #[trigger] referenced_marks@[j] == (root_set(m) + named_before(
                    m,
                    idx as int,
                )).contains(j),
        decreases n - idx,
    {
        assert(m.inodes[idx as int] == inodes@[idx as int]@);
        if inodes[idx].is_dir {
            let entries = entries_of(backend, idx);
            assert(dirent_models(entries@).len() == entries@.len());
            mark_targets(&entries, &mut referenced_marks);
        }
        idx += 1;
    }
    let ghost start = report@;
    proof {
        lemma_with_with(start, Seq::empty(), Seq::empty());
    }
    let mut ino: usize = 0;
    while ino < n
        invariant
            ino <= n,
            n == m.inodes.len(),
            n == inodes@.len(),
            m.inodes == inode_models(inodes@),
            referenced_marks@.len() == n,
            forall|j: int|
                0 <= j < n ==> #[trigger] referenced_marks@[j] == referenced(m).contains(j),
            report@ == start.with(orphan_findings(m, ino as int)),
        decreases n - ino,
    {
        let ghost f0 = orphan_findings(m, ino as int);
        assert(m.inodes[ino as int] == inodes@[ino as int]@);
        note(
            report,
            inodes[ino].in_use && !referenced_marks[ino],
            Finding::Orphan { inode: ino },
            Ghost(start),
            Ghost(f0),
        );
        ino += 1;
    }
}

} // verus!
