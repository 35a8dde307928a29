//! The operations on files and the queries of a mounted filesystem.
//!
//! An operation that fails has changed nothing.
use vstd::prelude::*;
use crate::consistency::{consistent, lemma_write_keeps_consistent, pointer};
use crate::dir::{
    all_known, dirs_model, is_dir_inode, is_directory, list_directory, listing_models,
    listing_of, parent_inode, DirEntryModel, DirError,
};
use crate::disk::{InodeDisk, FILE_TYPE_DIRECTORY, FILE_TYPE_REGULAR};
use crate::fs::{file_inode, FileKind, Inode, QrfsInner, FILE_PERM};
use crate::mapper::{clipped_end, file_bytes, mapped, reach_end, read_file_data, segments_usable};
use crate::meta::inode_slot_ok;
use crate::persist::{enter_inode, entered, less_one, persist_error, touch_directory, touched};
use crate::mount::{load_record, record_of};
use crate::store::FsError;
use crate::write::{check_inode_slot, size_after, write_done, write_file_data, write_refused};
use crate::ROOT_INO;

verus! {

/// Longest name that the filesystem reports.
pub const NAME_MAX: u32 = 255;

/// Most entries of a directory that can be read: every line needs an
/// offset, and offsets are signed 64-bit numbers.
pub const MAX_LISTING: u64 = 0x7FFF_FFFF_FFFF_0000;

/// The numbers that describe a mounted filesystem as a whole.
#[derive(Clone, Copy, Debug, PartialEq, Eq)]
pub struct StatFs {
    /// Blocks in all.
    pub blocks: u64,
    /// Free blocks.
    pub bfree: u64,
    /// Free blocks for unprivileged users.
    pub bavail: u64,
    /// Inode slots in all.
    pub files: u64,
    /// Free inode slots.
    pub ffree: u64,
    /// Block size.
    pub bsize: u32,
    /// Longest name.
    pub namelen: u32,
    /// Fragment size.
    pub frsize: u32,
}

/// One line of what reading a directory gives.
#[derive(Clone, Debug, PartialEq, Eq)]
pub struct ReaddirEntry {
    pub ino: u64,
    /// The offset from which reading goes on behind this line.
    pub offset: i64,
    pub kind: FileKind,
    pub name: String,
}

/// One line of what reading a directory gives, as a mathematical value.
pub struct ReaddirModel {
    pub ino: u64,
    pub offset: int,
    pub kind: FileKind,
    pub name: Seq<char>,
}

impl View for ReaddirEntry {
    type V = ReaddirModel;

    open spec fn view(&self) -> ReaddirModel {
        ReaddirModel {
            ino: self.ino,
            offset: self.offset as int,
            kind: self.kind,
            name: self.name@,
        }
    }
}

/// The models of what reading a directory gives.
pub open spec fn readdir_models(lines: Seq<ReaddirEntry>) -> Seq<ReaddirModel> {
    lines.map_values(|e: ReaddirEntry| e@)
}

/// The inode `ino`, if it is in use.
pub fn getattr(inner: &QrfsInner, ino: u64) -> (r: Option<Inode>)
    ensures
        match r {
            Some(inode) => inner.inodes@.contains_key(ino) && inode == inner.inodes@[ino],
            None => !inner.inodes@.contains_key(ino),
        },
{
    broadcast use vstd::std_specs::hash::group_hash_axioms;

    match inner.inodes.get(&ino) {
        Some(inode) => Some(*inode),
        None => None,
    }
}

/// Whether `parent` is among the directories, has an entry `name`, and the
/// inode that the entry names is in use.
pub open spec fn resolves(inner: QrfsInner, parent: u64, name: Seq<char>) -> bool {
    &&& inner.directories@.contains_key(parent)
    &&& inner.directories@[parent]@.has(name)
    &&& inner.inodes@.contains_key(inner.directories@[parent]@.get(name))
}

/// The inode that `name` names in the directory `parent`.
///
/// Fails with `NotFound` when `parent` is not among the directories, has no
/// such entry, or the entry names an inode that is not in use.
pub fn lookup(inner: &QrfsInner, parent: u64, name: &str) -> (r: Result<Inode, DirError>)
    ensures
        match r {
            Ok(inode) => resolves(*inner, parent, name@) && inode == inner.inodes@[inner.directories@[parent]@.get(
                name@,
            )],
            Err(e) => !resolves(*inner, parent, name@) && e == DirError::NotFound,
        },
{
    broadcast use vstd::std_specs::hash::group_hash_axioms;

    let dir = match inner.directories.get(&parent) {
        Some(dir) => dir,
        None => {
            return Err(DirError::NotFound);
        },
    };
    let child_ino: u64 = match dir.get(name) {
        Some(ino) => ino,
        None => {
            return Err(DirError::NotFound);
        },
    };
    match inner.inodes.get(&child_ino) {
        Some(inode) => Ok(*inode),
        None => Err(DirError::NotFound),
    }
}

/// Whether `ino` may be accessed: only the root may.
pub fn access(ino: u64) -> (r: bool)
    ensures
        r == (ino == ROOT_INO),
{
    ino == ROOT_INO
}

/// Opens the directory `ino`: gives back the handle, which is `ino` itself.
///
/// Fails with `NotDirectory` when `ino` is no directory in use.
pub fn opendir(inner: &QrfsInner, ino: u64) -> (r: Result<u64, DirError>)
    ensures
        match r {
            Ok(fh) => is_dir_inode(inner.inodes@, ino) && fh == ino,
            Err(e) => !is_dir_inode(inner.inodes@, ino) && e == DirError::NotDirectory,
        },
{
    if !is_directory(inner, ino) {
        return Err(DirError::NotDirectory);
    }
    Ok(ino)
}

/// Opens the inode `ino`: gives back the handle, which is `ino` itself.
///
/// Fails with `NotFound` when `ino` is not in use.
pub fn open(inner: &QrfsInner, ino: u64) -> (r: Result<u64, DirError>)
    ensures
        match r {
            Ok(fh) => inner.inodes@.contains_key(ino) && fh == ino,
            Err(e) => !inner.inodes@.contains_key(ino) && e == DirError::NotFound,
        },
{
    broadcast use vstd::std_specs::hash::group_hash_axioms;

    if !inner.inodes.contains_key(&ino) {
        return Err(DirError::NotFound);
    }
    Ok(ino)
}

/// The numbers that describe the filesystem as a whole.
pub fn statfs(inner: &QrfsInner) -> (r: StatFs)
    ensures
        r == (StatFs {
            blocks: inner.superblock.total_blocks as u64,
            bfree: inner.free_blocks as u64,
            bavail: inner.free_blocks as u64,
            files: inner.superblock.max_inodes as u64,
            ffree: inner.free_inodes as u64,
            bsize: inner.superblock.block_size,
            namelen: NAME_MAX,
            frsize: inner.superblock.block_size,
        }),
{
    StatFs {
        blocks: inner.superblock.total_blocks as u64,
        bfree: inner.free_blocks as u64,
        bavail: inner.free_blocks as u64,
        files: inner.superblock.max_inodes as u64,
        ffree: inner.free_inodes as u64,
        bsize: inner.superblock.block_size,
        namelen: NAME_MAX,
        frsize: inner.superblock.block_size,
    }
}

/// The line `.` of a directory.
pub open spec fn dot_line(ino: u64) -> ReaddirModel {
    ReaddirModel { ino, offset: 1, kind: FileKind::Directory, name: crate::mount::dot() }
}

/// The line `..` of a directory.
pub open spec fn dotdot_line(parent: u64) -> ReaddirModel {
    ReaddirModel { ino: parent, offset: 2, kind: FileKind::Directory, name: crate::mount::dotdot() }
}

/// The lines of a listing from index `from` on; line `i` carries the
/// offset `i + 3`.
pub open spec fn listed_lines(listing: Seq<DirEntryModel>, from: int) -> Seq<ReaddirModel> {
    Seq::new(
        if from < listing.len() {
            (listing.len() - from) as nat
        } else {
            0
        },
        |k: int|
            ReaddirModel {
                ino: listing[from + k].ino,
                offset: from + k + 3,
                kind: listing[from + k].file_type,
                name: listing[from + k].name,
            },
    )
}

/// What reading a directory from `offset` on gives: at offset 0 the line
/// `.`, up to offset 1 the line `..`, and then the lines of the listing,
/// of which offset `n` from 2 on skips the first `n - 2`.  A negative
/// offset lies behind every line.
pub open spec fn readdir_lines(
    ino: u64,
    parent: u64,
    listing: Seq<DirEntryModel>,
    offset: int,
) -> Seq<ReaddirModel> {
    if offset < 0 {
        Seq::empty()
    } else if offset == 0 {
        seq![dot_line(ino), dotdot_line(parent)] + listed_lines(listing, 0)
    } else if offset == 1 {
        seq![dotdot_line(parent)] + listed_lines(listing, 0)
    } else {
        listed_lines(listing, offset - 2)
    }
}

/// Reads the directory `ino` from `offset` on.
///
/// Fails with `NotFound` when `ino` is not among the directories, when an
/// entry names an inode that is not in use, or when the directory has more
/// entries than offsets can tell.
pub fn readdir(inner: &QrfsInner, ino: u64, offset: i64) -> (r: Result<
    Vec<ReaddirEntry>,
    DirError,
>)
    ensures
        match r {
            Ok(lines) => {
                let entries = inner.directories@[ino]@.entries;
                &&& inner.directories@.contains_key(ino)
                &&& readdir_models(lines@) == readdir_lines(
                    ino,
                    inner.directories@[ino].parent,
                    listing_of(entries, inner.inodes@),
                    offset as int,
                )
            },
            Err(e) => {
                &&& e == DirError::NotFound
                &&& !inner.directories@.contains_key(ino) || !all_known(
                    inner.directories@[ino]@.entries,
                    inner.inodes@,
                    inner.directories@[ino]@.entries.len() as int,
                ) || inner.directories@[ino]@.entries.len() > MAX_LISTING
            },
        },
{
    broadcast use vstd::std_specs::hash::group_hash_axioms;

    let entries = match list_directory(inner, ino) {
        Ok(entries) => entries,
        Err(_) => {
            return Err(DirError::NotFound);
        },
    };
    if entries.len() as u64 > MAX_LISTING {
        proof {
            assert(listing_models(entries@).len() == entries@.len());
        }
        return Err(DirError::NotFound);
    }
    let parent: u64 = match parent_inode(inner, ino) {
        Some(p) => p,
        None => ino,
    };
    let ghost listing = listing_models(entries@);
    let mut lines: Vec<ReaddirEntry> = Vec::new();
    if offset < 0 {
        assert(readdir_models(lines@) =~= Seq::empty());
        return Ok(lines);
    }
    if offset == 0 {
        lines.push(
            ReaddirEntry { ino, offset: 1, kind: FileKind::Directory, name: dot_name() },
        );
    }
    if offset <= 1 {
        lines.push(
            ReaddirEntry {
                ino: parent,
                offset: 2,
                kind: FileKind::Directory,
                name: dotdot_name(),
            },
        );
    }
    let ghost head = readdir_models(lines@);
    let from: u64 = if offset <= 1 {
        0
    } else {
        (offset - 2) as u64
    };
    proof {
        assert(head =~= (if offset == 0 {
            seq![dot_line(ino), dotdot_line(parent)]
        } else if offset == 1 {
            seq![dotdot_line(parent)]
        } else {
            Seq::empty()
        }));
    }
    let n: usize = entries.len();
    let mut i: usize = if from < n as u64 {
        from as usize
    } else {
        n
    };
    let ghost start = i;
    while i < n
        invariant
            start <= i <= n,
            n == entries@.len(),
            n <= MAX_LISTING,
            listing == listing_models(entries@),
            lines@.len() == head.len() + (i - start),
            forall|k: int| 0 <= k < head.len() ==> (#[trigger] lines@[k])@ == head[k],
            forall|k: int|
                0 <= k < i - start ==> (#[trigger] lines@[head.len() + k])@ == listed_lines(
                    listing,
                    start as int,
                )[k],
        decreases n - i,
    {
        let e = &entries[i];
        assert(listing[i as int] == e@);
        lines.push(
            ReaddirEntry {
                ino: e.ino,
                offset: (i as u64 + 3) as i64,
                kind: e.file_type,
                name: e.name.clone(),
            },
        );
        i += 1;
    }
    proof {
        let rest = listed_lines(listing, start as int);
        assert(listing.len() == n);
        assert(rest.len() == n - start);
        assert forall|k: int| 0 <= k < lines@.len() implies readdir_models(lines@)[k] == (head
            + rest)[k] by {
            if k < head.len() {
                assert(lines@[k]@ == head[k]);
            } else {
                assert(lines@[head.len() + (k - head.len())]@ == rest[k - head.len()]);
            }
        }
        assert(readdir_models(lines@) =~= head + listed_lines(listing, start as int));
        if from >= n {
            assert(listed_lines(listing, from as int) =~= listed_lines(listing, start as int));
        }
        assert(head + listed_lines(listing, from as int) =~= readdir_lines(
            ino,
            parent,
            listing,
            offset as int,
        ));
    }
    Ok(lines)
}

/// The name `.`.
fn dot_name() -> (s: String)
    ensures
        s@ == crate::mount::dot(),
{
    proof {
        reveal_strlit(".");
    }
    let s = ".".to_owned();
    assert(s@ =~= crate::mount::dot());
    s
}

/// The name `..`.
fn dotdot_name() -> (s: String)
    ensures
        s@ == crate::mount::dotdot(),
{
    proof {
        reveal_strlit("..");
    }
    let s = "..".to_owned();
    assert(s@ =~= crate::mount::dotdot());
    s
}

/// Whether `rec` is the record of a new, empty regular file with inode id
/// `ino`, made at time `now`.
pub open spec fn is_new_file_record(ino: u64, now: u64, rec: InodeDisk) -> bool {
    &&& rec.id == ino
    &&& rec.file_type == FILE_TYPE_REGULAR
    &&& rec.perm == FILE_PERM
    &&& rec.uid == 0
    &&& rec.gid == 0
    &&& rec.size == 0
    &&& rec.atime == now
    &&& rec.mtime == now
    &&& rec.ctime == now
    &&& rec.nlink == 1
    &&& forall|k: int| 0 <= k < 12 ==> rec.direct_blocks@[k] == 0
    &&& rec.indirect_block == 0
    &&& rec.double_indirect_block == 0
    &&& rec._padding == 0
}

/// The record of a new, empty regular file.
pub open spec fn new_file_record(ino: u64, now: u64) -> InodeDisk {
    choose|rec: InodeDisk| is_new_file_record(ino, now, rec)
}

/// Why no file `name` can be made below `parent`, if there is a reason.
/// In this order: `parent` is not among the directories; the name is
/// taken; no inode slot is left for the next id; the slot cannot be
/// reached; the directory with the new entry cannot be written.
pub open spec fn create_error(inner: QrfsInner, parent: u64, name: Seq<char>) -> Option<DirError> {
    if !inner.directories@.contains_key(parent) {
        Some(DirError::NotDirectory)
    } else if inner.directories@[parent]@.has(name) {
        Some(DirError::Exists)
    } else if inner.next_ino == 0 || inner.next_ino > inner.superblock.max_inodes {
        Some(DirError::NoSpace)
    } else if !inode_slot_ok(inner.store@, inner.superblock, inner.next_ino as int) {
        Some(DirError::Io)
    } else {
        persist_error(
            inner.store@,
            inner.superblock,
            parent,
            inner.directories@[parent]@.with_entry(name, inner.next_ino),
        )
    }
}

/// Makes the empty regular file `name` below `parent`, at time `now`.  The
/// file gets the next inode id.  The directory is written with the new
/// entry, the file's record is written to the inode table, the free-inode
/// counters are counted down, and the superblock is written.  The inode
/// that is kept for the directory gets the size and the times that
/// writing it has left in its record.  Gives back the new inode.  A
/// consistent filesystem stays consistent where the slot that the record
/// goes to named no block.
pub fn create(inner: &mut QrfsInner, parent: u64, name: &str, now: u64) -> (r: Result<
    Inode,
    DirError,
>)
    ensures
        match r {
            Ok(inode) => {
                let ino = old(inner).next_ino;
                let listed = old(inner).directories@[parent]@.with_entry(name@, ino);
                let out = entered(
                    old(inner).store@,
                    old(inner).superblock,
                    parent,
                    listed,
                    ino,
                    new_file_record(ino, now),
                    now,
                );
                &&& create_error(*old(inner), parent, name@) is None
                &&& inode == file_inode(ino, 0, now)
                &&& final(inner).next_ino == ino + 1
                &&& final(inner).inodes@ == touched(old(inner).inodes@, parent, now).insert(
                    ino,
                    inode,
                )
                &&& dirs_model(*final(inner)) == dirs_model(*old(inner)).insert(parent, listed)
                &&& final(inner).store@ == out.0
                &&& final(inner).superblock == out.1
                &&& final(inner).free_inodes == less_one(old(inner).free_inodes)
                &&& final(inner).free_blocks == final(inner).superblock.free_blocks
                &&& consistent(old(inner).store@, old(inner).superblock) && ino != parent && (
                forall|k: int|
                    0 <= k < 12 ==> pointer(
                        old(inner).store@,
                        old(inner).superblock,
                        ino as int,
                        k,
                    ) == 0) ==> consistent(final(inner).store@, final(inner).superblock)
            },
            Err(e) => create_error(*old(inner), parent, name@) == Some(e) && same_state(
                *old(inner),
                *final(inner),
            ),
        },
{
    broadcast use vstd::std_specs::hash::group_hash_axioms;

    let mut listed = match inner.directories.get(&parent) {
        Some(parent_dir) => {
            if parent_dir.contains(name) {
                return Err(DirError::Exists);
            }
            parent_dir.copy()
        },
        None => {
            return Err(DirError::NotDirectory);
        },
    };
    let ino: u64 = inner.next_ino;
    if ino == 0 || ino > inner.superblock.max_inodes as u64 {
        return Err(DirError::NoSpace);
    }
    match check_inode_slot(&inner.store, &inner.superblock, ino) {
        Ok(()) => {},
        Err(_) => {
            return Err(DirError::Io);
        },
    }
    listed.insert(name, ino);
    let inode = Inode::file(ino, 0, now);
    let disk_inode = InodeDisk {
        id: ino as u32,
        file_type: FILE_TYPE_REGULAR,
        perm: inode.perm,
        uid: inode.uid,
        gid: inode.gid,
        size: 0,
        atime: now,
        mtime: now,
        ctime: now,
        nlink: 1,
        direct_blocks: [0u32; 12],
        indirect_block: 0,
        double_indirect_block: 0,
        _padding: 0,
    };
    proof {
        lemma_new_file_record(ino, now, disk_inode);
    }
    match enter_inode(
        &mut inner.store,
        &mut inner.superblock,
        parent,
        &listed,
        ino,
        &disk_inode,
        now,
    ) {
        Ok(()) => {},
        Err(e) => {
            return Err(e);
        },
    }
    inner.next_ino = ino + 1;
    touch_directory(&mut inner.inodes, parent, now);
    inner.inodes.insert(ino, inode);
    inner.directories.insert(parent, listed);
    if inner.free_inodes > 0 {
        inner.free_inodes -= 1;
    }
    inner.free_blocks = inner.superblock.free_blocks;
    proof {
        assert(dirs_model(*inner) =~= dirs_model(*old(inner)).insert(
            parent,
            old(inner).directories@[parent]@.with_entry(name@, ino),
        ));
    }
    Ok(inode)
}

/// There is one record of a new file.
pub proof fn lemma_new_file_record(ino: u64, now: u64, rec: InodeDisk)
    requires
        is_new_file_record(ino, now, rec),
    ensures
        new_file_record(ino, now) == rec,
{
    let other = new_file_record(ino, now);
    assert(is_new_file_record(ino, now, other));
    assert(other.direct_blocks =~= rec.direct_blocks);
}

/// Why the file `ino` cannot be read from `offset`, if there is a reason
/// that shows before its data is looked at: the offset is negative; the
/// inode's record cannot be reached; the inode is a directory.
pub open spec fn read_refused(inner: QrfsInner, ino: u64, offset: i64) -> Option<DirError> {
    if offset < 0 {
        Some(DirError::Invalid)
    } else if !inode_slot_ok(inner.store@, inner.superblock, ino as int) {
        Some(DirError::Io)
    } else if record_of(inner.store@, inner.superblock, ino as int).file_type
        == FILE_TYPE_DIRECTORY {
        Some(DirError::IsDirectory)
    } else {
        None
    }
}

/// Reads `size` bytes from `offset` of the file `ino`, as far as the file
/// and its direct pointers reach.  A hole reads as zeros.
///
/// Fails with `Io` when a block that the file names cannot be used.
pub fn read(inner: &QrfsInner, ino: u64, offset: i64, size: u32) -> (r: Result<Vec<u8>, DirError>)
    ensures
        match r {
            Ok(data) => {
                let rec = record_of(inner.store@, inner.superblock, ino as int);
                let segments = mapped(
                    rec.direct_blocks@,
                    rec.size as int,
                    offset as int,
                    size as int,
                );
                &&& read_refused(*inner, ino, offset) is None
                &&& segments_usable(
                    inner.store@,
                    inner.superblock,
                    segments,
                    segments.len() as int,
                )
                &&& data@ == file_bytes(
                    inner.store@,
                    rec.direct_blocks@,
                    offset as int,
                    reach_end(
                        offset as int,
                        clipped_end(rec.size as int, offset as int, size as int),
                    ),
                )
            },
            Err(e) => match read_refused(*inner, ino, offset) {
                Some(refused) => e == refused,
                None => {
                    let rec = record_of(inner.store@, inner.superblock, ino as int);
                    let segments = mapped(
                        rec.direct_blocks@,
                        rec.size as int,
                        offset as int,
                        size as int,
                    );
                    e == DirError::Io && !segments_usable(
                        inner.store@,
                        inner.superblock,
                        segments,
                        segments.len() as int,
                    )
                },
            },
        },
{
    if offset < 0 {
        return Err(DirError::Invalid);
    }
    let inode_disk = match load_record(&inner.store, &inner.superblock, ino) {
        Ok(rec) => rec,
        Err(_) => {
            return Err(DirError::Io);
        },
    };
    if inode_disk.file_type == FILE_TYPE_DIRECTORY {
        return Err(DirError::IsDirectory);
    }
    match read_file_data(&inner.store, &inner.superblock, &inode_disk, offset as u64, size) {
        Ok(data) => Ok(data),
        Err(_) => Err(DirError::Io),
    }
}

/// Whether two states hold the same blocks and the same bookkeeping.
pub open spec fn same_state(a: QrfsInner, b: QrfsInner) -> bool {
    &&& a.store@ == b.store@
    &&& a.superblock == b.superblock
    &&& a.free_blocks == b.free_blocks
    &&& a.free_inodes == b.free_inodes
    &&& a.inodes == b.inodes
    &&& a.directories == b.directories
    &&& a.next_ino == b.next_ino
}

/// Why the file `ino` cannot be written at `offset`, if there is a reason
/// that shows before the write is planned: the offset is negative; the
/// inode is not in use; its record cannot be reached; it is a directory.
pub open spec fn write_refused_early(inner: QrfsInner, ino: u64, offset: i64) -> Option<
    DirError,
> {
    if offset < 0 {
        Some(DirError::Invalid)
    } else if !inner.inodes@.contains_key(ino) {
        Some(DirError::NotFound)
    } else if !inode_slot_ok(inner.store@, inner.superblock, ino as int) {
        Some(DirError::Io)
    } else if record_of(inner.store@, inner.superblock, ino as int).file_type
        == FILE_TYPE_DIRECTORY {
        Some(DirError::IsDirectory)
    } else {
        None
    }
}

/// Whether `after` is the state `before` after `data` was written at
/// `offset` of the file `ino` at time `now`, and `written` bytes of it were
/// stored: store and superblock are as the write of the file's data leaves
/// them, which keeps a consistent filesystem consistent; the free-block
/// counter follows the superblock's; and the inode in memory has the new
/// size and the new modify and change times.
pub open spec fn file_written(
    before: QrfsInner,
    after: QrfsInner,
    ino: u64,
    offset: i64,
    data: Seq<u8>,
    now: u64,
    written: u32,
) -> bool {
    &&& exists|record: InodeDisk|
        #[trigger] write_done(
            before.store@,
            before.superblock,
            ino,
            record_of(before.store@, before.superblock, ino as int),
            offset as u64,
            data,
            now,
            after.store@,
            after.superblock,
            record,
            written,
        )
    &&& consistent(before.store@, before.superblock) ==> consistent(
        after.store@,
        after.superblock,
    )
    &&& after.free_blocks == after.superblock.free_blocks
    &&& after.free_inodes == before.free_inodes
    &&& after.next_ino == before.next_ino
    &&& after.directories == before.directories
    &&& after.inodes@ == before.inodes@.insert(
        ino,
        Inode {
            size: size_after(before.inodes@[ino].size, offset as int, data.len() as int),
            mtime: now,
            ctime: now,
            ..before.inodes@[ino]
        },
    )
}

/// The inode and the record of a file that can be written at `offset`.
fn writable_record(inner: &QrfsInner, ino: u64, offset: i64) -> (r: Result<
    (Inode, InodeDisk),
    DirError,
>)
    ensures
        match r {
            Ok((inode, rec)) => {
                &&& write_refused_early(*inner, ino, offset) is None
                &&& inode == inner.inodes@[ino]
                &&& rec == record_of(inner.store@, inner.superblock, ino as int)
            },
            Err(e) => write_refused_early(*inner, ino, offset) == Some(e),
        },
{
    broadcast use vstd::std_specs::hash::group_hash_axioms;

    if offset < 0 {
        return Err(DirError::Invalid);
    }
    let inode: Inode = match inner.inodes.get(&ino) {
        Some(inode) => *inode,
        None => {
            return Err(DirError::NotFound);
        },
    };
    let disk_inode = match load_record(&inner.store, &inner.superblock, ino) {
        Ok(rec) => rec,
        Err(_) => {
            return Err(DirError::Io);
        },
    };
    if disk_inode.file_type == FILE_TYPE_DIRECTORY {
        return Err(DirError::IsDirectory);
    }
    Ok((inode, disk_inode))
}

/// Writes `data` at `offset` of the file `ino`, at time `now`.  Gives back
/// the number of bytes stored.  The inode in memory gets the new size and
/// the new modify and change times, and the free-block counter follows the
/// superblock's.
///
/// Fails with `NoSpace` when a block is needed and none is free, and with
/// `Io` when the store cannot take the write.  A write that fails leaves
/// the state as it was.
pub fn write(inner: &mut QrfsInner, ino: u64, offset: i64, data: &[u8], now: u64) -> (r: Result<
    u32,
    DirError,
>)
    ensures
        match r {
            Ok(written) => write_refused_early(*old(inner), ino, offset) is None
                && file_written(*old(inner), *final(inner), ino, offset, data@, now, written),
            Err(e) => {
                &&& same_state(*old(inner), *final(inner))
                &&& match write_refused_early(*old(inner), ino, offset) {
                    Some(refused) => e == refused,
                    None => exists|cause: FsError|
                        #[trigger] write_refused(
                            old(inner).store@,
                            old(inner).superblock,
                            ino,
                            record_of(old(inner).store@, old(inner).superblock, ino as int),
                            offset as u64,
                            data@,
                            cause,
                        ) && e == (if cause == FsError::NoSpace {
                            DirError::NoSpace
                        } else {
                            DirError::Io
                        }),
                }
            },
        },
{
    broadcast use vstd::std_specs::hash::group_hash_axioms;

    let (mut inode, mut disk_inode) = match writable_record(inner, ino, offset) {
        Ok(found) => found,
        Err(e) => {
            return Err(e);
        },
    };
    let ghost before = disk_inode;
    let written = match write_file_data(
        &mut inner.store,
        &mut inner.superblock,
        ino,
        &mut disk_inode,
        offset as u64,
        data,
        now,
    ) {
        Ok(written) => written,
        Err(cause) => {
            proof {
                assert(write_refused(
                    old(inner).store@,
                    old(inner).superblock,
                    ino,
                    before,
                    offset as u64,
                    data@,
                    cause,
                ));
            }
            return Err(
                match cause {
                    FsError::NoSpace => DirError::NoSpace,
                    _ => DirError::Io,
                },
            );
        },
    };
    proof {
        assert(write_done(
            old(inner).store@,
            old(inner).superblock,
            ino,
            before,
            offset as u64,
            data@,
            now,
            inner.store@,
            inner.superblock,
            disk_inode,
            written,
        ));
    }
    let end: u64 = offset as u64 + data.len() as u64;
    if end > inode.size {
        inode.size = end;
    }
    inode.mtime = now;
    inode.ctime = now;
    let ghost mid = inner.store@;
    proof {
        if consistent(old(inner).store@, old(inner).superblock) {
            lemma_write_keeps_consistent(
                old(inner).store@,
                old(inner).superblock,
                ino,
                offset as u64,
                data@,
                now,
                inner.store@,
                inner.superblock,
                disk_inode,
                written,
            );
        }
    }
    inner.inodes.insert(ino, inode);
    inner.free_blocks = inner.superblock.free_blocks;
    proof {
        assert(inner.store@ == mid);
        assert(write_done(
            old(inner).store@,
            old(inner).superblock,
            ino,
            record_of(old(inner).store@, old(inner).superblock, ino as int),
            offset as u64,
            data@,
            now,
            inner.store@,
            inner.superblock,
            disk_inode,
            written,
        ));
        assert(file_written(*old(inner), *inner, ino, offset, data@, now, written));
    }
    Ok(written)
}

} // verus!
