//! The consistency checker: six passes over what a backend reports of a
//! filesystem, each of which only reads and only adds to a report.
use vstd::prelude::*;

pub mod backend;
pub mod blocks;
pub mod disk_backend;
pub mod dirs;
pub mod laws;
pub mod mock;
pub mod passes;
pub mod quick;
pub mod text;
pub mod types;

use crate::fsck::backend::{FsModel, FsckBackend};
use crate::fsck::blocks::{bitmap_findings, check_bitmap_global, check_blocks_global, global_findings};
use crate::fsck::dirs::{check_dirs, check_orphan_inodes, dirs_findings, orphan_findings};
use crate::fsck::passes::{
    check_inodes_basic, check_superblock, inodes_basic_findings, superblock_findings,
};
use crate::fsck::types::{FsckReport, ReportModel};

verus! {

/// The report of a run of the checker on a filesystem in state `m`: the
/// findings of the six passes, one pass after the other.
pub open spec fn fsck_report(m: FsModel) -> ReportModel {
    let r1 = ReportModel::empty().with(
        superblock_findings(m.superblock, m.inodes.len() as int, m.bitmap.len() as int),
    );
    let r2 = r1.with(
        inodes_basic_findings(m.inodes, m.superblock.num_blocks, m.inodes.len() as int),
    );
    let r3 = r2.with(global_findings(m.inodes, m.inodes.len() as int));
    let r4 = r3.with(dirs_findings(m, r3));
    let r5 = r4.with(bitmap_findings(m.superblock, m.inodes, m.bitmap));
    r5.with(orphan_findings(m, m.inodes.len() as int))
}

/// Runs the six passes on `backend` and gives back what they found.
pub fn run_fsck<B: FsckBackend>(backend: &B) -> (report: FsckReport)
    ensures
        report@ == fsck_report(backend.model()),
{
    let mut report = FsckReport::new();
    check_superblock(backend, &mut report);
    check_inodes_basic(backend, &mut report);
    let sb = backend.load_superblock();
    check_blocks_global(backend, &sb, &mut report);
    check_dirs(backend, &mut report);
    check_bitmap_global(backend, &sb, &mut report);
    check_orphan_inodes(backend, &mut report);
    report
}

} // verus!
