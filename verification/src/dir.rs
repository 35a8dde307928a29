//! The operations on directories of a mounted filesystem.
//!
//! Every change of a directory is written to the store before the state in
//! memory follows it; the inode that is kept for the directory then gets
//! the size and the times that writing it has left in its record.  An
//! operation that fails has changed nothing, with one exception: a move
//! between two directories that fails at the second of them has written
//! the first.
use vstd::prelude::*;
use crate::errno::{
    eexist, einval, eio, eisdir, enoent, enospc, enosys, enotdir, enotempty,
};
use crate::allocator::{free_inode, inode_freed, lemma_zero_record_is_zeroed, zero_record};
use crate::consistency::{consistent, lemma_free_inode_keeps_consistent, pointer};
use crate::disk::{InodeDisk, SuperblockDisk, FILE_TYPE_DIRECTORY};
use crate::files::same_state;
use crate::fs::{
    dir_inode, dir_models, Directory, DirectoryModel, FileKind, Inode, NamedModel, QrfsInner,
    DIR_PERM,
};
use crate::meta::inode_slot_ok;
use crate::persist::{
    enter_inode, entered, less_one, persist_directory, persist_error, persisted, touch_directory,
    touched,
};
use crate::write::check_inode_slot;

verus! {

/// Why an operation of the mounted filesystem failed.
#[derive(Clone, Copy, Debug, PartialEq, Eq)]
pub enum DirError {
    /// The inode is no directory.
    NotDirectory,
    /// There is no such entry or inode.
    NotFound,
    /// The directory has entries.
    NotEmpty,
    /// No inode or block is left.
    NoSpace,
    /// The operation is not supported.
    NotSupported,
    /// The name is taken.
    Exists,
    /// The inode is a directory.
    IsDirectory,
    /// An argument is out of range.
    Invalid,
    /// The store could not be read or written.
    Io,
}

impl DirError {
    /// The operating system's error number for this error.
    pub fn as_errno(&self) -> i32 {
        let numbers = ErrorNumbers {
            not_directory: enotdir(),
            not_found: enoent(),
            not_empty: enotempty(),
            no_space: enospc(),
            not_supported: enosys(),
            exists: eexist(),
            is_directory: eisdir(),
            invalid: einval(),
            io: eio(),
        };
        self.errno_among(&numbers)
    }

    /// The error number for this error among `numbers`.  `as_errno` hands
    /// it the numbers that `libc` has for the machine; they differ between
    /// machines, so no value is stated there.
    pub fn errno_among(&self, numbers: &ErrorNumbers) -> (r: i32)
        ensures
            r == errno_of(*self, *numbers),
    {
        match self {
            DirError::NotDirectory => numbers.not_directory,
            DirError::NotFound => numbers.not_found,
            DirError::NotEmpty => numbers.not_empty,
            DirError::NoSpace => numbers.no_space,
            DirError::NotSupported => numbers.not_supported,
            DirError::Exists => numbers.exists,
            DirError::IsDirectory => numbers.is_directory,
            DirError::Invalid => numbers.invalid,
            DirError::Io => numbers.io,
        }
    }
}

/// The error numbers of an operating system, one for each kind of error:
/// in the order of the fields, its numbers for "not a directory", "no such
/// file or directory", "directory not empty", "no space left", "function
/// not implemented", "file exists", "is a directory", "invalid argument"
/// and "input/output error".
#[derive(Clone, Copy, Debug, PartialEq, Eq)]
pub struct ErrorNumbers {
    pub not_directory: i32,
    pub not_found: i32,
    pub not_empty: i32,
    pub no_space: i32,
    pub not_supported: i32,
    pub exists: i32,
    pub is_directory: i32,
    pub invalid: i32,
    pub io: i32,
}

/// The error number that stands for the error `e` among `numbers`.
pub open spec fn errno_of(e: DirError, numbers: ErrorNumbers) -> i32 {
    match e {
        DirError::NotDirectory => numbers.not_directory,
        DirError::NotFound => numbers.not_found,
        DirError::NotEmpty => numbers.not_empty,
        DirError::NoSpace => numbers.no_space,
        DirError::NotSupported => numbers.not_supported,
        DirError::Exists => numbers.exists,
        DirError::IsDirectory => numbers.is_directory,
        DirError::Invalid => numbers.invalid,
        DirError::Io => numbers.io,
    }
}

/// One line of a directory listing.
#[derive(Clone, Debug, PartialEq, Eq)]
pub struct DirEntry {
    pub ino: u64,
    pub name: String,
    pub file_type: FileKind,
}

/// One line of a directory listing as a mathematical value.
pub struct DirEntryModel {
    pub ino: u64,
    pub name: Seq<char>,
    pub file_type: FileKind,
}

impl View for DirEntry {
    type V = DirEntryModel;

    open spec fn view(&self) -> DirEntryModel {
        DirEntryModel { ino: self.ino, name: self.name@, file_type: self.file_type }
    }
}

/// The models of a listing.
pub open spec fn listing_models(entries: Seq<DirEntry>) -> Seq<DirEntryModel> {
    entries.map_values(|e: DirEntry| e@)
}

/// The directories of a mounted filesystem as mathematical values.
pub open spec fn dirs_model(inner: QrfsInner) -> Map<u64, DirectoryModel> {
    dir_models(inner.directories@)
}

/// Whether `ino` is an inode in use and a directory.
pub open spec fn is_dir_inode(inodes: Map<u64, Inode>, ino: u64) -> bool {
    inodes.contains_key(ino) && inodes[ino].kind is Directory
}

/// Whether every one of the first `n` entries names an inode in use.
pub open spec fn all_known(entries: Seq<NamedModel>, inodes: Map<u64, Inode>, n: int) -> bool {
    forall|i: int| 0 <= i < n ==> inodes.contains_key((#[trigger] entries[i]).ino)
}

/// The listing of a directory: its entries in order, each with the kind of
/// the inode that it names.
pub open spec fn listing_of(entries: Seq<NamedModel>, inodes: Map<u64, Inode>) -> Seq<
    DirEntryModel,
> {
    Seq::new(
        entries.len(),
        |i: int|
            DirEntryModel {
                ino: entries[i].ino,
                name: entries[i].name,
                file_type: inodes[entries[i].ino].kind,
            },
    )
}

/// Whether `ino` is an inode in use and a directory.
pub fn is_directory(inner: &QrfsInner, ino: u64) -> (r: bool)
    ensures
        r == is_dir_inode(inner.inodes@, ino),
{
    broadcast use vstd::std_specs::hash::group_hash_axioms;

    match inner.inodes.get(&ino) {
        Some(inode) => inode.is_dir(),
        None => false,
    }
}

/// Lists the directory `ino`: its entries in order, each with the kind of
/// the inode that it names.
///
/// Fails with `NotDirectory` when `ino` is not among the directories, and
/// with `NotFound` when an entry names an inode that is not in use.
pub fn list_directory(inner: &QrfsInner, ino: u64) -> (r: Result<Vec<DirEntry>, DirError>)
    ensures
        match r {
            Ok(entries) => {
                &&& inner.directories@.contains_key(ino)
                &&& all_known(
                    inner.directories@[ino]@.entries,
                    inner.inodes@,
                    inner.directories@[ino]@.entries.len() as int,
                )
                &&& listing_models(entries@) == listing_of(
                    inner.directories@[ino]@.entries,
                    inner.inodes@,
                )
            },
            Err(e) => if !inner.directories@.contains_key(ino) {
                e == DirError::NotDirectory
            } else {
                e == DirError::NotFound && !all_known(
                    inner.directories@[ino]@.entries,
                    inner.inodes@,
                    inner.directories@[ino]@.entries.len() as int,
                )
            },
        },
{
    broadcast use vstd::std_specs::hash::group_hash_axioms;

    let dir = match inner.directories.get(&ino) {
        Some(dir) => dir,
        None => {
            return Err(DirError::NotDirectory);
        },
    };
    let mut entries: Vec<DirEntry> = Vec::new();
    let mut i: usize = 0;
    while i < dir.entries.len()
        invariant
            i <= dir.entries@.len(),
            inner.directories@.contains_key(ino),
            inner.directories@[ino] == *dir,
            all_known(dir@.entries, inner.inodes@, i as int),
            entries@.len() == i,
            forall|j: int|
                0 <= j < i ==> (#[trigger] entries@[j])@ == listing_of(
                    dir@.entries,
                    inner.inodes@,
                )[j],
        decreases dir.entries@.len() - i,
    {
        let e = &dir.entries[i];
        assert(dir@.entries[i as int] == e@);
        let inode = match inner.inodes.get(&e.ino) {
            Some(inode) => inode,
            None => {
                assert(!inner.inodes@.contains_key(dir@.entries[i as int].ino));
                return Err(DirError::NotFound);
            },
        };
        entries.push(DirEntry { ino: e.ino, name: e.name.clone(), file_type: inode.kind });
        i += 1;
    }
    assert(listing_models(entries@) =~= listing_of(dir@.entries, inner.inodes@));
    Ok(entries)
}

/// The parent of the directory `ino`; `ino` itself where it is not among
/// the directories.
pub fn parent_inode(inner: &QrfsInner, ino: u64) -> (r: Option<u64>)
    ensures
        r == Some(
            if inner.directories@.contains_key(ino) {
                inner.directories@[ino].parent
            } else {
                ino
            },
        ),
{
    broadcast use vstd::std_specs::hash::group_hash_axioms;

    match inner.directories.get(&ino) {
        Some(dir) => Some(dir.parent),
        None => Some(ino),
    }
}

/// Whether `rec` is the record of a new, empty directory with inode id
/// `ino`, made at time `now`.
pub open spec fn is_new_dir_record(ino: u64, now: u64, rec: InodeDisk) -> bool {
    &&& rec.id == ino
    &&& rec.file_type == FILE_TYPE_DIRECTORY
    &&& rec.perm == DIR_PERM
    &&& rec.uid == 0
    &&& rec.gid == 0
    &&& rec.size == 0
    &&& rec.atime == now
    &&& rec.mtime == now
    &&& rec.ctime == now
    &&& rec.nlink == 2
    &&& forall|k: int| 0 <= k < 12 ==> rec.direct_blocks@[k] == 0
    &&& rec.indirect_block == 0
    &&& rec.double_indirect_block == 0
    &&& rec._padding == 0
}

/// The record of a new, empty directory.
pub open spec fn new_dir_record(ino: u64, now: u64) -> InodeDisk {
    choose|rec: InodeDisk| is_new_dir_record(ino, now, rec)
}

/// There is one record of a new directory.
pub proof fn lemma_new_dir_record(ino: u64, now: u64, rec: InodeDisk)
    requires
        is_new_dir_record(ino, now, rec),
    ensures
        new_dir_record(ino, now) == rec,
{
    let other = new_dir_record(ino, now);
    assert(is_new_dir_record(ino, now, other));
    assert(other.direct_blocks =~= rec.direct_blocks);
}

/// Why no directory `name` can be made below `parent`, if there is a
/// reason.  In this order: `parent` is no directory; the name is taken; no
/// inode slot is left for the next id; the slot cannot be reached; the
/// parent with the new entry cannot be written.
pub open spec fn create_directory_error(inner: QrfsInner, parent: u64, name: Seq<char>) -> Option<
    DirError,
> {
    if !is_dir_inode(inner.inodes@, parent) || !inner.directories@.contains_key(parent) {
        Some(DirError::NotDirectory)
    } else if inner.directories@[parent]@.has(name) {
        Some(DirError::NotSupported)
    } else if inner.next_ino == 0 || inner.next_ino > inner.superblock.max_inodes {
        Some(DirError::NoSpace)
    } else if !inode_slot_ok(inner.store@, inner.superblock, inner.next_ino as int) {
        Some(DirError::Io)
    } else {
        persist_error(
            inner.store@,
            inner.superblock,
            parent,
            inner.directories@[parent]@.with_entry(name, inner.next_ino),
        )
    }
}

/// Makes the directory `name` below `parent`, at time `now`.  The new
/// directory gets the next inode id and is empty.  The parent is written
/// with the new entry, the directory's record is written to the inode
/// table, the free-inode counters are counted down, and the superblock is
/// written.  Gives back the new inode.  A consistent filesystem stays
/// consistent where the slot that the record goes to named no block.
pub fn create_directory(
    inner: &mut QrfsInner,
    parent: u64,
    name: &str,
    _mode: u32,
    now: u64,
) -> (r: Result<Inode, DirError>)
    ensures
        match r {
            Ok(inode) => {
                let new_ino = old(inner).next_ino;
                let listed = old(inner).directories@[parent]@.with_entry(name@, new_ino);
                let out = entered(
                    old(inner).store@,
                    old(inner).superblock,
                    parent,
                    listed,
                    new_ino,
                    new_dir_record(new_ino, now),
                    now,
                );
                &&& create_directory_error(*old(inner), parent, name@) is None
                &&& inode == dir_inode(new_ino, now)
                &&& final(inner).next_ino == new_ino + 1
                &&& final(inner).inodes@ == touched(old(inner).inodes@, parent, now).insert(
                    new_ino,
                    inode,
                )
                &&& dirs_model(*final(inner)) == dirs_model(*old(inner)).insert(
                    parent,
                    listed,
                ).insert(new_ino, DirectoryModel { parent, entries: Seq::empty() })
                &&& final(inner).store@ == out.0
                &&& final(inner).superblock == out.1
                &&& final(inner).free_inodes == less_one(old(inner).free_inodes)
                &&& final(inner).free_blocks == final(inner).superblock.free_blocks
                &&& consistent(old(inner).store@, old(inner).superblock) && new_ino != parent
                    && (forall|k: int|
                    0 <= k < 12 ==> pointer(
                        old(inner).store@,
                        old(inner).superblock,
                        new_ino as int,
                        k,
                    ) == 0) ==> consistent(final(inner).store@, final(inner).superblock)
            },
            Err(e) => create_directory_error(*old(inner), parent, name@) == Some(e)
                && same_state(*old(inner), *final(inner)),
        },
{
    broadcast use vstd::std_specs::hash::group_hash_axioms;

    if !is_directory(inner, parent) {
        return Err(DirError::NotDirectory);
    }
    let mut listed = match inner.directories.get(&parent) {
        Some(parent_dir) => {
            if parent_dir.contains(name) {
                return Err(DirError::NotSupported);
            }
            parent_dir.copy()
        },
        None => {
            return Err(DirError::NotDirectory);
        },
    };
    let new_ino: u64 = inner.next_ino;
    if new_ino == 0 || new_ino > inner.superblock.max_inodes as u64 {
        return Err(DirError::NoSpace);
    }
    match check_inode_slot(&inner.store, &inner.superblock, new_ino) {
        Ok(()) => {},
        Err(_) => {
            return Err(DirError::Io);
        },
    }
    listed.insert(name, new_ino);
    let inode = Inode::dir(new_ino, now);
    let disk_inode = InodeDisk {
        id: new_ino as u32,
        file_type: FILE_TYPE_DIRECTORY,
        perm: inode.perm,
        uid: inode.uid,
        gid: inode.gid,
        size: 0,
        atime: now,
        mtime: now,
        ctime: now,
        nlink: 2,
        direct_blocks: [0u32; 12],
        indirect_block: 0,
        double_indirect_block: 0,
        _padding: 0,
    };
    proof {
        lemma_new_dir_record(new_ino, now, disk_inode);
    }
    match enter_inode(
        &mut inner.store,
        &mut inner.superblock,
        parent,
        &listed,
        new_ino,
        &disk_inode,
        now,
    ) {
        Ok(()) => {},
        Err(e) => {
            return Err(e);
        },
    }
    inner.next_ino = new_ino + 1;
    touch_directory(&mut inner.inodes, parent, now);
    inner.inodes.insert(new_ino, inode);
    inner.directories.insert(parent, listed);
    inner.directories.insert(new_ino, Directory::new(parent));
    if inner.free_inodes > 0 {
        inner.free_inodes -= 1;
    }
    inner.free_blocks = inner.superblock.free_blocks;
    proof {
        assert(dirs_model(*inner) =~= dirs_model(*old(inner)).insert(
            parent,
            old(inner).directories@[parent]@.with_entry(name@, new_ino),
        ).insert(new_ino, DirectoryModel { parent, entries: Seq::empty() }));
    }
    Ok(inode)
}

/// Why the directory `name` below `parent` cannot be removed, if there is
/// a reason.  In this order: `parent` is not among the directories; there
/// is no such entry; what it names is the root, or no directory; the
/// directory has entries; the parent without the entry cannot be written.
pub open spec fn remove_directory_error(inner: QrfsInner, parent: u64, name: Seq<char>) -> Option<
    DirError,
> {
    if !inner.directories@.contains_key(parent) {
        Some(DirError::NotDirectory)
    } else if !inner.directories@[parent]@.has(name) {
        Some(DirError::NotFound)
    } else {
        let child = inner.directories@[parent]@.get(name);
        if child == inner.superblock.root_inode {
            Some(DirError::NotSupported)
        } else if !is_dir_inode(inner.inodes@, child) || !inner.directories@.contains_key(child) {
            Some(DirError::NotDirectory)
        } else if inner.directories@[child]@.entries.len() != 0 {
            Some(DirError::NotEmpty)
        } else {
            persist_error(
                inner.store@,
                inner.superblock,
                parent,
                inner.directories@[parent]@.without(name),
            )
        }
    }
}

/// What removing the directory `child`, which `listed` does not name any
/// more, leaves on the store: `listed` written as the directory `parent`,
/// and then the inode of `child` given back, where it has a record.
pub open spec fn removed(
    store: Seq<Seq<u8>>,
    sb: SuperblockDisk,
    parent: u64,
    listed: DirectoryModel,
    child: u64,
    now: u64,
) -> (Seq<Seq<u8>>, SuperblockDisk) {
    let p = persisted(store, sb, parent, listed, now);
    if inode_slot_ok(p.store, p.sb, child as int) {
        inode_freed(p.store, p.sb, child)
    } else {
        (p.store, p.sb)
    }
}

/// Removes the empty directory `name` below `parent`, at time `now`: its
/// entry, its directory and its inode.  The parent is written without the
/// entry, and the inode is given back.  The root is never removed.  A
/// consistent filesystem stays consistent.
pub fn remove_directory(inner: &mut QrfsInner, parent: u64, name: &str, now: u64) -> (r: Result<
    (),
    DirError,
>)
    ensures
        match r {
            Ok(()) => {
                let child = old(inner).directories@[parent]@.get(name@);
                let listed = old(inner).directories@[parent]@.without(name@);
                let out = removed(
                    old(inner).store@,
                    old(inner).superblock,
                    parent,
                    listed,
                    child,
                    now,
                );
                &&& remove_directory_error(*old(inner), parent, name@) is None
                &&& final(inner).inodes@ == touched(old(inner).inodes@, parent, now).remove(
                    child,
                )
                &&& dirs_model(*final(inner)) == dirs_model(*old(inner)).insert(
                    parent,
                    listed,
                ).remove(child)
                &&& final(inner).next_ino == old(inner).next_ino
                &&& final(inner).store@ == out.0
                &&& final(inner).superblock == out.1
                &&& final(inner).free_blocks == final(inner).superblock.free_blocks
                &&& final(inner).free_inodes == final(inner).superblock.free_inodes
                &&& consistent(old(inner).store@, old(inner).superblock) ==> consistent(
                    final(inner).store@,
                    final(inner).superblock,
                )
            },
            Err(e) => remove_directory_error(*old(inner), parent, name@) == Some(e)
                && same_state(*old(inner), *final(inner)),
        },
{
    broadcast use vstd::std_specs::hash::group_hash_axioms;

    let (child_ino, mut listed) = match inner.directories.get(&parent) {
        Some(parent_dir) => match parent_dir.get(name) {
            Some(ino) => (ino, parent_dir.copy()),
            None => {
                return Err(DirError::NotFound);
            },
        },
        None => {
            return Err(DirError::NotDirectory);
        },
    };
    if child_ino == inner.superblock.root_inode as u64 {
        return Err(DirError::NotSupported);
    }
    if !is_directory(inner, child_ino) {
        return Err(DirError::NotDirectory);
    }
    match inner.directories.get(&child_ino) {
        Some(child_dir) => {
            if !child_dir.is_empty() {
                return Err(DirError::NotEmpty);
            }
        },
        None => {
            return Err(DirError::NotDirectory);
        },
    }
    listed.remove(name);
    match persist_directory(&mut inner.store, &mut inner.superblock, parent, &listed, now) {
        Ok(()) => {},
        Err(e) => {
            return Err(e);
        },
    }
    let ghost mid = inner.store@;
    let ghost mid_sb = inner.superblock;
    match check_inode_slot(&inner.store, &inner.superblock, child_ino) {
        Ok(()) => {
            match free_inode(&mut inner.store, &mut inner.superblock, child_ino) {
                Ok(()) => {},
                Err(_) => {
                    vstd::pervasive::unreached()
                },
            }
            proof {
                if consistent(mid, mid_sb) {
                    lemma_zero_record_is_zeroed();
                    lemma_free_inode_keeps_consistent(
                        mid,
                        mid_sb,
                        inner.superblock,
                        child_ino as int,
                        zero_record(),
                    );
                }
            }
        },
        Err(_) => {},
    }
    inner.directories.insert(parent, listed);
    inner.directories.remove(&child_ino);
    touch_directory(&mut inner.inodes, parent, now);
    inner.inodes.remove(&child_ino);
    inner.free_blocks = inner.superblock.free_blocks;
    inner.free_inodes = inner.superblock.free_inodes;
    proof {
        assert(dirs_model(*inner) =~= dirs_model(*old(inner)).insert(
            parent,
            old(inner).directories@[parent]@.without(name@),
        ).remove(child_ino));
    }
    Ok(())
}

/// Why the entry `name` of `parent` cannot be moved to `newparent`, if
/// there is a reason: one of the two is no directory; there is no such
/// entry.
pub open spec fn rename_error(inner: QrfsInner, parent: u64, name: Seq<char>, newparent: u64) -> Option<
    DirError,
> {
    if !is_dir_inode(inner.inodes@, parent) || !is_dir_inode(inner.inodes@, newparent)
        || !inner.directories@.contains_key(parent) || !inner.directories@.contains_key(
        newparent,
    ) {
        Some(DirError::NotDirectory)
    } else if !inner.directories@[parent]@.has(name) {
        Some(DirError::NotFound)
    } else {
        None
    }
}

/// The directories after the entry `name` of `parent` was moved to
/// `newparent` under the name `newname`: the entry is gone from `parent`,
/// `newname` names the child in `newparent`, and a child that is a
/// directory has `newparent` as its parent.
pub open spec fn renamed(
    dirs: Map<u64, DirectoryModel>,
    parent: u64,
    name: Seq<char>,
    newparent: u64,
    newname: Seq<char>,
) -> Map<u64, DirectoryModel> {
    let child = dirs[parent].get(name);
    let d1 = dirs.insert(parent, dirs[parent].without(name));
    let d2 = d1.insert(newparent, d1[newparent].with_entry(newname, child));
    if d2.contains_key(child) {
        d2.insert(child, DirectoryModel { parent: newparent, entries: d2[child].entries })
    } else {
        d2
    }
}

/// The directory `newparent` as it is after the move: with `newname`
/// naming the child, and without `name` where it is `parent` itself.
pub open spec fn listed_after_move(
    dirs: Map<u64, DirectoryModel>,
    parent: u64,
    name: Seq<char>,
    newparent: u64,
    newname: Seq<char>,
) -> DirectoryModel {
    let child = dirs[parent].get(name);
    if parent == newparent {
        dirs[parent].without(name).with_entry(newname, child)
    } else {
        dirs[newparent].with_entry(newname, child)
    }
}

/// Moves the entry `name` of `parent` to `newparent` under the name
/// `newname`, at time `now`.  An entry `newname` that is there already is
/// replaced.  The directory that gets the entry is written first; where
/// the entry moves between two directories, the one that loses it is
/// written after that.  A consistent filesystem stays consistent.
///
/// A move that fails leaves the state in memory as it was.  It has changed
/// nothing on the store, unless it fails when the second directory is
/// written: the first is then written already.
pub fn rename_entry(
    inner: &mut QrfsInner,
    parent: u64,
    name: &str,
    newparent: u64,
    newname: &str,
    now: u64,
) -> (r: Result<(), DirError>)
    ensures
        ({
            let dirs = dirs_model(*old(inner));
            let gets = listed_after_move(dirs, parent, name@, newparent, newname@);
            let first = persisted(
                old(inner).store@,
                old(inner).superblock,
                newparent,
                gets,
                now,
            );
            match r {
                Ok(()) => {
                    &&& rename_error(*old(inner), parent, name@, newparent) is None
                    &&& persist_error(old(inner).store@, old(inner).superblock, newparent, gets)
                        is None
                    &&& dirs_model(*final(inner)) == renamed(
                        dirs,
                        parent,
                        name@,
                        newparent,
                        newname@,
                    )
                    &&& final(inner).inodes@ == touched(
                        touched(old(inner).inodes@, newparent, now),
                        parent,
                        now,
                    )
                    &&& final(inner).next_ino == old(inner).next_ino
                    &&& final(inner).free_inodes == old(inner).free_inodes
                    &&& final(inner).free_blocks == final(inner).superblock.free_blocks
                    &&& if parent == newparent {
                        final(inner).store@ == first.store && final(inner).superblock == first.sb
                    } else {
                        let second = persisted(
                            first.store,
                            first.sb,
                            parent,
                            dirs[parent].without(name@),
                            now,
                        );
                        &&& persist_error(
                            first.store,
                            first.sb,
                            parent,
                            dirs[parent].without(name@),
                        ) is None
                        &&& final(inner).store@ == second.store
                        &&& final(inner).superblock == second.sb
                    }
                    &&& consistent(old(inner).store@, old(inner).superblock) ==> consistent(
                        final(inner).store@,
                        final(inner).superblock,
                    )
                },
                Err(e) => {
                    &&& final(inner).inodes == old(inner).inodes
                    &&& final(inner).directories == old(inner).directories
                    &&& final(inner).next_ino == old(inner).next_ino
                    &&& final(inner).free_inodes == old(inner).free_inodes
                    &&& match rename_error(*old(inner), parent, name@, newparent) {
                        Some(refused) => e == refused && same_state(*old(inner), *final(inner)),
                        None => match persist_error(
                            old(inner).store@,
                            old(inner).superblock,
                            newparent,
                            gets,
                        ) {
                            Some(refused) => e == refused && same_state(
                                *old(inner),
                                *final(inner),
                            ),
                            None => {
                                &&& parent != newparent
                                &&& persist_error(
                                    first.store,
                                    first.sb,
                                    parent,
                                    dirs[parent].without(name@),
                                ) == Some(e)
                                &&& final(inner).store@ == first.store
                                &&& final(inner).superblock == first.sb
                                &&& final(inner).free_blocks == first.sb.free_blocks
                            },
                        },
                    }
                },
            }
        }),
{
    broadcast use vstd::std_specs::hash::group_hash_axioms;

    if !is_directory(inner, parent) || !is_directory(inner, newparent) {
        return Err(DirError::NotDirectory);
    }
    let mut gets = match inner.directories.get(&newparent) {
        Some(d) => d.copy(),
        None => {
            return Err(DirError::NotDirectory);
        },
    };
    let (child_ino, mut loses) = match inner.directories.get(&parent) {
        Some(parent_dir) => match parent_dir.get(name) {
            Some(ino) => (ino, parent_dir.copy()),
            None => {
                return Err(DirError::NotFound);
            },
        },
        None => {
            return Err(DirError::NotDirectory);
        },
    };
    let ghost d0 = dirs_model(*inner);
    loses.remove(name);
    if parent == newparent {
        gets.remove(name);
    }
    gets.insert(newname, child_ino);
    match persist_directory(&mut inner.store, &mut inner.superblock, newparent, &gets, now) {
        Ok(()) => {},
        Err(e) => {
            return Err(e);
        },
    }
    if parent != newparent {
        match persist_directory(&mut inner.store, &mut inner.superblock, parent, &loses, now) {
            Ok(()) => {},
            Err(e) => {
                inner.free_blocks = inner.superblock.free_blocks;
                return Err(e);
            },
        }
        inner.directories.insert(parent, loses);
    }
    touch_directory(&mut inner.inodes, newparent, now);
    touch_directory(&mut inner.inodes, parent, now);
    let ghost d1 = dirs_model(*inner);
    inner.directories.insert(newparent, gets);
    let ghost d2 = dirs_model(*inner);
    match inner.directories.remove(&child_ino) {
        Some(child_dir) => {
            let mut moved = child_dir;
            moved.parent = newparent;
            inner.directories.insert(child_ino, moved);
        },
        None => {},
    }
    inner.free_blocks = inner.superblock.free_blocks;
    proof {
        let w = d0.insert(parent, d0[parent].without(name@));
        assert(d2 =~= w.insert(newparent, w[newparent].with_entry(newname@, child_ino)));
        assert(dirs_model(*inner) =~= renamed(d0, parent, name@, newparent, newname@));
    }
    Ok(())
}

} // verus!
