//! Writing a directory to the store.
//!
//! A directory's entries are stored in the block that the first direct
//! pointer of its inode names, one entry of 60 bytes after the other.  The
//! block is written as the data of the directory's inode, so that it is
//! taken from the bitmap like a block of a file.
use vstd::prelude::*;
use crate::consistency::{
    consistent, lemma_create_keeps_consistent, lemma_write_keeps_consistent, pointer,
};
use crate::dir::DirError;
use crate::dirent::{
    all_fit, entry_fits, lemma_slots_of_packed_block, pack_entries, packed_block, raw_models,
    PackError, RawEntry, RawEntryModel, ENTRIES_PER_BLOCK,
};
use crate::disk::{InodeDisk, SuperblockDisk, FILE_TYPE_DIRECTORY};
use crate::fs::{Directory, DirectoryModel, Inode};
use crate::meta::{inode_slot_ok, stored_bitmap, with_inode, write_inode_disk, write_superblock};
use crate::mount::{directory_listing, disk_listing, load_record, record_of};
use crate::store::{
    block_data, padded_block, readable, region_readable, BlockStore, FsError, BLOCK,
};
use crate::write::{
    keeps_readable, lemma_write_goes_through, lemma_write_outcome, plan_slots, size_after,
    write_file_data, write_outcome, WriteOutcome,
};
use std::collections::HashMap;

verus! {

/// The entries that are stored for a directory: its entries, in order.
pub open spec fn stored_entries(d: DirectoryModel) -> Seq<RawEntryModel> {
    Seq::new(
        d.entries.len(),
        |i: int| RawEntryModel { ino: d.entries[i].ino as u32, name: d.entries[i].name },
    )
}

/// Whether the first `n` entries name inodes whose ids fit 32 bits.
pub open spec fn ids_fit(d: DirectoryModel, n: int) -> bool {
    forall|i: int| 0 <= i < n ==> (#[trigger] d.entries[i]).ino <= u32::MAX
}

/// Why the directory `d` cannot be written as the directory with inode
/// `ino`, if there is a reason.  In this order: it has more than seventeen
/// entries; an entry cannot be stored; the inode's record cannot be
/// reached; the record is no directory's; the bitmap cannot be read; no
/// block is free for it, or the block that it has cannot be used.
pub open spec fn persist_error(
    store: Seq<Seq<u8>>,
    sb: SuperblockDisk,
    ino: u64,
    d: DirectoryModel,
) -> Option<DirError> {
    if d.entries.len() > ENTRIES_PER_BLOCK {
        Some(DirError::NoSpace)
    } else if !ids_fit(d, d.entries.len() as int) || !all_fit(
        stored_entries(d),
        d.entries.len() as int,
    ) {
        Some(DirError::Invalid)
    } else if !inode_slot_ok(store, sb, ino as int) {
        Some(DirError::Io)
    } else if record_of(store, sb, ino as int).file_type != FILE_TYPE_DIRECTORY {
        Some(DirError::NotDirectory)
    } else if !region_readable(store, sb.free_bitmap_start as int, sb.free_bitmap_blocks as int) {
        Some(DirError::Io)
    } else {
        match plan_slots(
            store,
            sb,
            record_of(store, sb, ino as int).direct_blocks@,
            stored_bitmap(store, sb),
            0,
            1,
        ) {
            Ok(_) => None,
            Err(FsError::NoSpace) => Some(DirError::NoSpace),
            Err(_) => Some(DirError::Io),
        }
    }
}

/// What writing the directory `d` as the directory with inode `ino` leaves:
/// what writing its block as the first 1024 bytes of the inode's data
/// leaves.
pub open spec fn persisted(
    store: Seq<Seq<u8>>,
    sb: SuperblockDisk,
    ino: u64,
    d: DirectoryModel,
    now: u64,
) -> WriteOutcome {
    write_outcome(
        store,
        sb,
        ino,
        record_of(store, sb, ino as int),
        0,
        packed_block(stored_entries(d)),
        now,
    )
}

/// The entries of a directory as they are stored.
fn entries_to_store(dir: &Directory) -> (r: Option<Vec<RawEntry>>)
    ensures
        match r {
            Some(raw) => ids_fit(dir@, dir@.entries.len() as int) && raw_models(raw@)
                == stored_entries(dir@),
            None => !ids_fit(dir@, dir@.entries.len() as int),
        },
{
    let mut raw: Vec<RawEntry> = Vec::new();
    let mut i: usize = 0;
    while i < dir.entries.len()
        invariant
            i <= dir.entries@.len(),
            ids_fit(dir@, i as int),
            raw@.len() == i,
            forall|j: int|
                0 <= j < i ==> (#[trigger] raw@[j])@ == stored_entries(dir@)[j],
        decreases dir.entries@.len() - i,
    {
        let e = &dir.entries[i];
        assert(dir@.entries[i as int] == e@);
        if e.ino > 0xFFFF_FFFF {
            return None;
        }
        raw.push(RawEntry { ino: e.ino as u32, name: e.name.clone() });
        i += 1;
    }
    assert(raw_models(raw@) =~= stored_entries(dir@));
    Some(raw)
}

/// Whether the entries of `d` can be stored in one block.
pub open spec fn fits_block(d: DirectoryModel) -> bool {
    &&& d.entries.len() <= ENTRIES_PER_BLOCK
    &&& ids_fit(d, d.entries.len() as int)
    &&& all_fit(stored_entries(d), d.entries.len() as int)
}

/// The block that holds the entries of a directory.
fn directory_block(dir: &Directory) -> (r: Result<Vec<u8>, DirError>)
    ensures
        match r {
            Ok(block) => fits_block(dir@) && block@ == packed_block(stored_entries(dir@)),
            Err(e) => !fits_block(dir@) && e == (if dir@.entries.len() > ENTRIES_PER_BLOCK {
                DirError::NoSpace
            } else {
                DirError::Invalid
            }),
        },
{
    assert(dir@.entries.len() == dir.entries@.len());
    if dir.entries.len() > ENTRIES_PER_BLOCK {
        return Err(DirError::NoSpace);
    }
    let raw = match entries_to_store(dir) {
        Some(raw) => raw,
        None => {
            return Err(DirError::Invalid);
        },
    };
    assert(raw_models(raw@).len() == raw@.len());
    assert(stored_entries(dir@).len() == dir@.entries.len());
    match pack_entries(&raw) {
        Ok(block) => Ok(block),
        Err(PackError::BadEntry { index }) => {
            assert(!entry_fits(stored_entries(dir@)[index as int]));
            Err(DirError::Invalid)
        },
        Err(PackError::TooMany) => Err(DirError::NoSpace),
    }
}

/// The record of the directory with inode `ino`.
fn directory_record(store: &BlockStore, sb: &SuperblockDisk, ino: u64) -> (r: Result<
    crate::disk::InodeDisk,
    DirError,
>)
    ensures
        match r {
            Ok(rec) => {
                &&& inode_slot_ok(store@, *sb, ino as int)
                &&& rec == record_of(store@, *sb, ino as int)
                &&& rec.file_type == FILE_TYPE_DIRECTORY
            },
            Err(e) => if !inode_slot_ok(store@, *sb, ino as int) {
                e == DirError::Io
            } else {
                e == DirError::NotDirectory && record_of(store@, *sb, ino as int).file_type
                    != FILE_TYPE_DIRECTORY
            },
        },
{
    let rec = match load_record(store, sb, ino) {
        Ok(rec) => rec,
        Err(_) => {
            return Err(DirError::Io);
        },
    };
    if rec.file_type != FILE_TYPE_DIRECTORY {
        return Err(DirError::NotDirectory);
    }
    Ok(rec)
}

/// What holds after the block of a directory was written.
proof fn lemma_persisted(
    store0: Seq<Seq<u8>>,
    sb0: SuperblockDisk,
    ino: u64,
    d: DirectoryModel,
    now: u64,
    store1: Seq<Seq<u8>>,
    sb1: SuperblockDisk,
    rec1: crate::disk::InodeDisk,
    written: u32,
)
    requires
        fits_block(d),
        inode_slot_ok(store0, sb0, ino as int),
        record_of(store0, sb0, ino as int).file_type == FILE_TYPE_DIRECTORY,
        crate::write::write_done(
            store0,
            sb0,
            ino,
            record_of(store0, sb0, ino as int),
            0,
            packed_block(stored_entries(d)),
            now,
            store1,
            sb1,
            rec1,
            written,
        ),
    ensures
        persist_error(store0, sb0, ino, d) is None,
        store1 == persisted(store0, sb0, ino, d, now).store,
        sb1 == persisted(store0, sb0, ino, d, now).sb,
        crate::consistency::same_regions(sb0, sb1),
        sb1.free_inodes == sb0.free_inodes,
        consistent(store0, sb0) ==> {
            &&& consistent(store1, sb1)
            &&& forall|other: int|
                1 <= other <= sb0.max_inodes && other != ino ==> #[trigger] record_of(
                    store1,
                    sb1,
                    other,
                ) == record_of(store0, sb0, other)
        },
{
    let block = packed_block(stored_entries(d));
    lemma_write_outcome(
        store0,
        sb0,
        ino,
        record_of(store0, sb0, ino as int),
        0,
        block,
        now,
        store1,
        sb1,
        rec1,
        written,
    );
    if consistent(store0, sb0) {
        lemma_write_keeps_consistent(store0, sb0, ino, 0, block, now, store1, sb1, rec1, written);
    }
}

/// Why the block of a directory could not be written.
proof fn lemma_not_persisted(
    store0: Seq<Seq<u8>>,
    sb0: SuperblockDisk,
    ino: u64,
    d: DirectoryModel,
    cause: FsError,
)
    requires
        fits_block(d),
        inode_slot_ok(store0, sb0, ino as int),
        record_of(store0, sb0, ino as int).file_type == FILE_TYPE_DIRECTORY,
        crate::write::write_refused(
            store0,
            sb0,
            ino,
            record_of(store0, sb0, ino as int),
            0,
            packed_block(stored_entries(d)),
            cause,
        ),
    ensures
        persist_error(store0, sb0, ino, d) == Some(
            if cause == FsError::NoSpace {
                DirError::NoSpace
            } else {
                DirError::Io
            },
        ),
{
}

/// Writes the directory `dir` to the store as the directory with inode
/// `ino`, at time `now`.  A directory that has no block yet takes the
/// first free one.  A consistent filesystem stays consistent, and no other
/// inode's record changes.
///
/// Fails, and changes nothing, for the reason that `persist_error` tells.
pub fn persist_directory(
    store: &mut BlockStore,
    sb: &mut SuperblockDisk,
    ino: u64,
    dir: &Directory,
    now: u64,
) -> (r: Result<(), DirError>)
    ensures
        match r {
            Ok(()) => {
                let out = persisted(old(store)@, *old(sb), ino, dir@, now);
                &&& persist_error(old(store)@, *old(sb), ino, dir@) is None
                &&& final(store)@ == out.store
                &&& *final(sb) == out.sb
                &&& keeps_readable(old(store)@, final(store)@)
                &&& crate::consistency::same_regions(*old(sb), *final(sb))
                &&& final(sb).free_inodes == old(sb).free_inodes
                &&& consistent(old(store)@, *old(sb)) ==> {
                    &&& consistent(final(store)@, *final(sb))
                    &&& forall|other: int|
                        1 <= other <= old(sb).max_inodes && other != ino ==> #[trigger] record_of(
                            final(store)@,
                            *final(sb),
                            other,
                        ) == record_of(old(store)@, *old(sb), other)
                }
            },
            Err(e) => {
                &&& persist_error(old(store)@, *old(sb), ino, dir@) == Some(e)
                &&& final(store)@ == old(store)@
                &&& *final(sb) == *old(sb)
            },
        },
{
    let block = match directory_block(dir) {
        Ok(block) => block,
        Err(e) => {
            return Err(e);
        },
    };
    let mut rec = match directory_record(store, sb, ino) {
        Ok(rec) => rec,
        Err(e) => {
            return Err(e);
        },
    };
    let ghost before = rec;
    match write_file_data(store, sb, ino, &mut rec, 0, block.as_slice(), now) {
        Ok(written) => {
            proof {
                lemma_persisted(
                    old(store)@,
                    *old(sb),
                    ino,
                    dir@,
                    now,
                    store@,
                    *sb,
                    rec,
                    written,
                );
            }
            Ok(())
        },
        Err(cause) => {
            proof {
                lemma_not_persisted(old(store)@, *old(sb), ino, dir@, cause);
            }
            Err(
                match cause {
                    FsError::NoSpace => DirError::NoSpace,
                    _ => DirError::Io,
                },
            )
        },
    }
}

/// The counter after one was taken: one less, but not below zero.
pub open spec fn less_one(n: u32) -> u32 {
    if n > 0 {
        (n - 1) as u32
    } else {
        0
    }
}

/// What entering a new inode leaves: the directory `d` written as the
/// directory `parent`, then the record `rec` written as the record of
/// `ino`, then the superblock written with one free inode less.
pub open spec fn entered(
    store: Seq<Seq<u8>>,
    sb: SuperblockDisk,
    parent: u64,
    d: DirectoryModel,
    ino: u64,
    rec: InodeDisk,
    now: u64,
) -> (Seq<Seq<u8>>, SuperblockDisk) {
    let p = persisted(store, sb, parent, d, now);
    let sb1 = SuperblockDisk { free_inodes: less_one(p.sb.free_inodes), ..p.sb };
    (with_inode(p.store, sb1, ino as int, rec).update(0, padded_block(sb1.to_bytes())), sb1)
}

/// Enters a new inode: writes the directory `dir`, which names it, as the
/// directory `parent`; writes its record `rec`; and writes the superblock
/// with one free inode less.  A consistent filesystem stays consistent
/// where the slot of the new inode named no block and is not the parent's.
///
/// Fails, and changes nothing, where the directory cannot be written.
pub(crate) fn enter_inode(
    store: &mut BlockStore,
    sb: &mut SuperblockDisk,
    parent: u64,
    dir: &Directory,
    ino: u64,
    rec: &InodeDisk,
    now: u64,
) -> (r: Result<(), DirError>)
    requires
        inode_slot_ok(old(store)@, *old(sb), ino as int),
        forall|k: int| 0 <= k < 12 ==> rec.direct_blocks@[k] == 0,
    ensures
        match r {
            Ok(()) => {
                let out = entered(old(store)@, *old(sb), parent, dir@, ino, *rec, now);
                &&& persist_error(old(store)@, *old(sb), parent, dir@) is None
                &&& final(store)@ == out.0
                &&& *final(sb) == out.1
                &&& consistent(old(store)@, *old(sb)) && ino != parent && (forall|k: int|
                    0 <= k < 12 ==> pointer(old(store)@, *old(sb), ino as int, k) == 0)
                    ==> consistent(final(store)@, *final(sb))
            },
            Err(e) => {
                &&& persist_error(old(store)@, *old(sb), parent, dir@) == Some(e)
                &&& final(store)@ == old(store)@
                &&& *final(sb) == *old(sb)
            },
        },
{
    match persist_directory(store, sb, parent, dir, now) {
        Ok(()) => {},
        Err(e) => {
            return Err(e);
        },
    }
    let ghost mid = store@;
    let ghost mid_sb = *sb;
    if sb.free_inodes > 0 {
        sb.free_inodes -= 1;
    }
    proof {
        assert(inode_slot_ok(mid, *sb, ino as int));
    }
    match write_inode_disk(store, sb, ino, rec) {
        Ok(()) => {},
        Err(_) => {
            vstd::pervasive::unreached()
        },
    }
    match write_superblock(store, sb) {
        Ok(()) => {},
        Err(_) => {
            vstd::pervasive::unreached()
        },
    }
    proof {
        if consistent(old(store)@, *old(sb)) && ino != parent && (forall|k: int|
            0 <= k < 12 ==> pointer(old(store)@, *old(sb), ino as int, k) == 0) {
            assert(1 <= ino <= old(sb).max_inodes);
            assert(record_of(mid, mid_sb, ino as int) == record_of(
                old(store)@,
                *old(sb),
                ino as int,
            ));
            assert forall|k: int| 0 <= k < 12 implies pointer(mid, mid_sb, ino as int, k)
                == 0 by {
                assert(pointer(old(store)@, *old(sb), ino as int, k) == 0);
            }
            lemma_create_keeps_consistent(mid, mid_sb, *sb, ino as int, *rec);
        }
    }
    Ok(())
}

/// The inode that is kept in memory for a directory, after the directory
/// was written at time `now`: its size covers the block of entries, and
/// its modify and change times are `now`.
pub open spec fn written_directory(inode: Inode, now: u64) -> Inode {
    Inode { size: size_after(inode.size, 0, BLOCK as int), mtime: now, ctime: now, ..inode }
}

/// The inodes in memory after the directory `dir` was written at time
/// `now`.
pub open spec fn touched(inodes: Map<u64, Inode>, dir: u64, now: u64) -> Map<u64, Inode> {
    if inodes.contains_key(dir) {
        inodes.insert(dir, written_directory(inodes[dir], now))
    } else {
        inodes
    }
}

/// Brings the inode that is kept in memory for the directory `dir` up to
/// what writing the directory at time `now` has left in its record.
pub(crate) fn touch_directory(inodes: &mut HashMap<u64, Inode>, dir: u64, now: u64)
    ensures
        final(inodes)@ == touched(old(inodes)@, dir, now),
{
    broadcast use vstd::std_specs::hash::group_hash_axioms;

    let inode: Inode = match inodes.get(&dir) {
        Some(inode) => *inode,
        None => {
            return ;
        },
    };
    let size: u64 = if inode.size < BLOCK as u64 {
        BLOCK as u64
    } else {
        inode.size
    };
    inodes.insert(dir, Inode { size, mtime: now, ctime: now, ..inode });
}

/// A directory that was written is read back.  After a directory was
/// written to a consistent filesystem, its listing on the store holds its
/// entries, in their order, each with the kind that the record of its
/// inode tells.
pub proof fn lemma_written_directory_is_read_back(
    store: Seq<Seq<u8>>,
    sb: SuperblockDisk,
    ino: u64,
    d: DirectoryModel,
    now: u64,
)
    requires
        consistent(store, sb),
        persist_error(store, sb, ino, d) is None,
    ensures
        ({
            let out = persisted(store, sb, ino, d, now);
            &&& consistent(out.store, out.sb)
            &&& directory_listing(out.store, out.sb, ino) == disk_listing(
                out.store,
                out.sb,
                stored_entries(d),
            )
        }),
{
    let raw = stored_entries(d);
    let block = packed_block(raw);
    let rec = record_of(store, sb, ino as int);
    let out = persisted(store, sb, ino, d, now);
    assert(crate::mapper::segment_count(0, 0u64 + block.len()) == 1);
    lemma_write_goes_through(store, sb, ino, rec, 0, block, now);
    lemma_write_keeps_consistent(
        store,
        sb,
        ino,
        0,
        block,
        now,
        out.store,
        out.sb,
        out.inode,
        out.written,
    );
    assert(record_of(out.store, out.sb, ino as int) == out.inode);
    let b = out.inode.direct_blocks@[0];
    assert(b != 0 && readable(out.store, b as int));
    assert(out.written == BLOCK);
    let read = crate::mapper::file_bytes(out.store, out.inode.direct_blocks@, 0, 0 + out.written);
    assert(block_data(out.store, b as int) =~= block) by {
        assert forall|p: int| 0 <= p < BLOCK implies block_data(out.store, b as int)[p]
            == block[p] by {
            assert(read[p] == crate::mapper::file_byte(out.store, out.inode.direct_blocks@, 0 + p));
            assert(block.subrange(0, out.written as int)[p] == block[p]);
        }
    }
    lemma_slots_of_packed_block(raw, ENTRIES_PER_BLOCK as int);
    assert(inode_slot_ok(out.store, out.sb, ino as int));
}

} // verus!
