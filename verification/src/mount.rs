//! Mounting: how the state in memory is built from what a store holds.
use std::collections::HashMap;
use vstd::prelude::*;
use crate::dir::{DirEntry, DirEntryModel, listing_models};
use crate::dirent::{entries_in, raw_models, unpack_entries, RawEntryModel};
use crate::disk::{InodeDisk, SuperblockDisk, FILE_TYPE_DIRECTORY};
use crate::fs::{
    dir_inode, dir_models, Directory, DirectoryModel, FileKind, Inode, QrfsInner,
};
use crate::meta::{
    inode_load_result, inode_offset, inode_slot_ok, inode_table_bytes, lemma_the_inode,
    load_inode_disk, read_superblock, the_inode,
};
use crate::store::{block_data, readable, BlockStore, FsError};
use crate::{QRFS_MAGIC, QRFS_VERSION};

verus! {

/// The record of inode `ino`, where it can be reached.
pub open spec fn record_of(store: Seq<Seq<u8>>, sb: SuperblockDisk, ino: int) -> InodeDisk {
    the_inode(inode_table_bytes(store, sb), inode_offset(ino))
}

/// Reads the record of inode `ino`.
pub fn load_record(store: &BlockStore, sb: &SuperblockDisk, ino: u64) -> (r: Result<
    InodeDisk,
    FsError,
>)
    ensures
        match r {
            Ok(rec) => inode_slot_ok(store@, *sb, ino as int) && rec == record_of(
                store@,
                *sb,
                ino as int,
            ),
            Err(e) => !inode_slot_ok(store@, *sb, ino as int) && inode_load_result(
                store@,
                *sb,
                ino,
                Err(e),
            ),
        },
{
    match load_inode_disk(store, sb, ino) {
        Ok(rec) => {
            proof {
                lemma_the_inode(rec, inode_table_bytes(store@, *sb), inode_offset(ino as int));
            }
            Ok(rec)
        },
        Err(e) => Err(e),
    }
}

/// The kind that a record's file type tells: a directory for 2, a regular
/// file for everything else.
pub open spec fn kind_of(file_type: u16) -> FileKind {
    if file_type == FILE_TYPE_DIRECTORY {
        FileKind::Directory
    } else {
        FileKind::RegularFile
    }
}

/// The kind of the inode `ino` as its record tells it; a regular file
/// where the record cannot be reached.
pub open spec fn disk_kind(store: Seq<Seq<u8>>, sb: SuperblockDisk, ino: u64) -> FileKind {
    if inode_slot_ok(store, sb, ino as int) {
        kind_of(record_of(store, sb, ino as int).file_type)
    } else {
        FileKind::RegularFile
    }
}

/// The listing of a directory block: each entry with the kind that the
/// record of its inode tells.
pub open spec fn disk_listing(store: Seq<Seq<u8>>, sb: SuperblockDisk, raw: Seq<RawEntryModel>) -> Seq<
    DirEntryModel,
> {
    Seq::new(
        raw.len(),
        |i: int|
            DirEntryModel {
                ino: raw[i].ino as u64,
                name: raw[i].name,
                file_type: disk_kind(store, sb, raw[i].ino as u64),
            },
    )
}

/// What reading the directory `ino` from the store must give.  In this
/// order: the error of going to the inode's record; that the inode is no
/// directory; an empty listing where the first direct pointer is zero; the
/// error of reading the block that it names; the listing of that block.
pub open spec fn directory_read_result(
    store: Seq<Seq<u8>>,
    sb: SuperblockDisk,
    ino: u64,
    r: Result<Seq<DirEntryModel>, FsError>,
) -> bool {
    if !inode_slot_ok(store, sb, ino as int) {
        r is Err && inode_load_result(store, sb, ino, Err(r->Err_0))
    } else {
        let rec = record_of(store, sb, ino as int);
        let block = rec.direct_blocks@[0];
        if rec.file_type != FILE_TYPE_DIRECTORY {
            r == Err::<Seq<DirEntryModel>, FsError>(
                FsError::NotADirectory { ino, file_type: rec.file_type },
            )
        } else if block == 0 {
            r == Ok::<Seq<DirEntryModel>, FsError>(Seq::empty())
        } else if block >= store.len() {
            r == Err::<Seq<DirEntryModel>, FsError>(
                FsError::BlockOutOfRange { index: block as u64, blocks: store.len() as u64 },
            )
        } else if !readable(store, block as int) {
            r == Err::<Seq<DirEntryModel>, FsError>(FsError::ShortBlock { index: block as u64 })
        } else {
            r == Ok::<Seq<DirEntryModel>, FsError>(
                disk_listing(store, sb, entries_in(block_data(store, block as int), 17)),
            )
        }
    }
}

/// The view of a result that holds a listing.
pub open spec fn listing_result(r: Result<Vec<DirEntry>, FsError>) -> Result<
    Seq<DirEntryModel>,
    FsError,
> {
    match r {
        Ok(v) => Ok(listing_models(v@)),
        Err(e) => Err(e),
    }
}

/// The kind of the inode `ino` as its record tells it.
pub fn kind_on_disk(store: &BlockStore, sb: &SuperblockDisk, ino: u64) -> (kind: FileKind)
    ensures
        kind == disk_kind(store@, *sb, ino),
{
    match load_record(store, sb, ino) {
        Ok(rec) => {
            if rec.file_type == FILE_TYPE_DIRECTORY {
                FileKind::Directory
            } else {
                FileKind::RegularFile
            }
        },
        Err(_) => FileKind::RegularFile,
    }
}

/// Reads the directory `ino` from the store: the entries of the block that
/// the first direct pointer of its inode names.
pub fn read_directory_from_disk(store: &BlockStore, superblock: &SuperblockDisk, ino: u64) -> (r:
    Result<Vec<DirEntry>, FsError>)
    ensures
        directory_read_result(store@, *superblock, ino, listing_result(r)),
{
    let inode_disk = match load_record(store, superblock, ino) {
        Ok(rec) => rec,
        Err(e) => {
            return Err(e);
        },
    };
    if inode_disk.file_type != FILE_TYPE_DIRECTORY {
        return Err(FsError::NotADirectory { ino, file_type: inode_disk.file_type });
    }
    let data_block: u32 = inode_disk.direct_blocks[0];
    let mut entries: Vec<DirEntry> = Vec::new();
    if data_block == 0 {
        assert(listing_models(entries@) =~= Seq::empty());
        return Ok(entries);
    }
    let buf = match store.read_fs_block(data_block) {
        Ok(buf) => buf,
        Err(e) => {
            return Err(e);
        },
    };
    let raw = unpack_entries(buf.as_slice());
    let ghost found = entries_in(buf@, 17);
    let mut k: usize = 0;
    while k < raw.len()
        invariant
            k <= raw@.len(),
            raw_models(raw@) == found,
            entries@.len() == k,
            forall|j: int|
                0 <= j < k ==> (#[trigger] entries@[j])@ == disk_listing(
                    store@,
                    *superblock,
                    found,
                )[j],
        decreases raw@.len() - k,
    {
        let e = &raw[k];
        assert(found[k as int] == raw@[k as int]@);
        let kind = kind_on_disk(store, superblock, e.ino as u64);
        entries.push(DirEntry { ino: e.ino as u64, name: e.name.clone(), file_type: kind });
        k += 1;
    }
    assert(listing_models(entries@) =~= disk_listing(store@, *superblock, found));
    Ok(entries)
}

/// Whether inode `ino` is in use on the store: its record can be reached
/// and has neither an id nor a link count of zero.
pub open spec fn in_use(store: Seq<Seq<u8>>, sb: SuperblockDisk, ino: int) -> bool {
    &&& inode_slot_ok(store, sb, ino)
    &&& record_of(store, sb, ino).id != 0
    &&& record_of(store, sb, ino).nlink != 0
}

/// The inode that is kept in memory for the record `rec` of inode `ino`.
pub open spec fn mounted_inode(ino: u64, rec: InodeDisk) -> Inode {
    Inode {
        ino,
        kind: kind_of(rec.file_type),
        perm: rec.perm,
        uid: rec.uid,
        gid: rec.gid,
        size: rec.size,
        atime: rec.atime,
        mtime: rec.mtime,
        ctime: rec.ctime,
        nlink: rec.nlink,
    }
}

/// The largest of the inodes `1..=n` that is in use, or 0 where none is.
pub open spec fn max_in_use(store: Seq<Seq<u8>>, sb: SuperblockDisk, n: int) -> int
    decreases n,
{
    if n <= 0 {
        0
    } else if in_use(store, sb, n) {
        n
    } else {
        max_in_use(store, sb, n - 1)
    }
}

/// The inodes `1..=n` that are in use on the store, as they are kept in
/// memory.
pub open spec fn inodes_in_use(store: Seq<Seq<u8>>, sb: SuperblockDisk, n: int) -> Map<u64, Inode> {
    Map::new(
        |ino: u64| 1 <= ino <= n && in_use(store, sb, ino as int),
        |ino: u64| mounted_inode(ino, record_of(store, sb, ino as int)),
    )
}

/// The name `.`.
pub open spec fn dot() -> Seq<char> {
    seq!['.']
}

/// The name `..`.
pub open spec fn dotdot() -> Seq<char> {
    seq!['.', '.']
}

/// The root directory that the first `n` lines of its listing on the store
/// give: `.` is passed over, `..` tells the parent, every other line is an
/// entry, and a later line replaces an earlier one of the same name.
pub open spec fn mounted_root(listing: Seq<DirEntryModel>, root: u64, n: int) -> DirectoryModel
    decreases n,
{
    if n <= 0 {
        DirectoryModel { parent: root, entries: Seq::empty() }
    } else {
        let d = mounted_root(listing, root, n - 1);
        let e = listing[n - 1];
        if e.name == dot() {
            d
        } else if e.name == dotdot() {
            DirectoryModel { parent: e.ino, entries: d.entries }
        } else {
            d.with_entry(e.name, e.ino)
        }
    }
}

/// Whether `name` is `.`.
pub fn is_dot(name: &str) -> (r: bool)
    ensures
        r == (name@ == dot()),
{
    if name.unicode_len() != 1 {
        return false;
    }
    let c = name.get_char(0);
    assert(c == '.' ==> name@ =~= dot());
    c == '.'
}

/// Whether `name` is `..`.
pub fn is_dotdot(name: &str) -> (r: bool)
    ensures
        r == (name@ == dotdot()),
{
    if name.unicode_len() != 2 {
        return false;
    }
    let c0 = name.get_char(0);
    let c1 = name.get_char(1);
    assert(c0 == '.' && c1 == '.' ==> name@ =~= dotdot());
    c0 == '.' && c1 == '.'
}

/// The root directory that its listing on the store gives.
pub fn root_from_listing(listing: &Vec<DirEntry>, root: u64) -> (d: Directory)
    ensures
        d@ == mounted_root(listing_models(listing@), root, listing@.len() as int),
{
    let mut d = Directory::new(root);
    let ghost lines = listing_models(listing@);
    let mut k: usize = 0;
    while k < listing.len()
        invariant
            k <= listing@.len(),
            lines == listing_models(listing@),
            d@ == mounted_root(lines, root, k as int),
        decreases listing@.len() - k,
    {
        let e = &listing[k];
        assert(lines[k as int] == e@);
        if is_dot(e.name.as_str()) {
        } else if is_dotdot(e.name.as_str()) {
            d.parent = e.ino;
            assert(d@.entries =~= mounted_root(lines, root, k as int).entries);
        } else {
            d.insert(e.name.as_str(), e.ino);
        }
        k += 1;
    }
    d
}

/// The inodes that a mount keeps: those in use on the store; or, where none
/// is in use, a fresh root directory alone.
pub open spec fn mounted_inodes(store: Seq<Seq<u8>>, sb: SuperblockDisk, now: u64) -> Map<
    u64,
    Inode,
> {
    let found = inodes_in_use(store, sb, sb.max_inodes as int);
    if max_in_use(store, sb, sb.max_inodes as int) == 0 && !found.contains_key(
        sb.root_inode as u64,
    ) {
        found.insert(sb.root_inode as u64, dir_inode(sb.root_inode as u64, now))
    } else {
        found
    }
}

/// The id that the first new inode gets after a mount: one more than the
/// largest id in use; where none is in use, one more than the root's id,
/// and 2 at least.
pub open spec fn mounted_next_ino(store: Seq<Seq<u8>>, sb: SuperblockDisk) -> int {
    let most = max_in_use(store, sb, sb.max_inodes as int);
    if most != 0 {
        most + 1
    } else if sb.root_inode >= 1 {
        sb.root_inode + 1
    } else {
        2
    }
}

/// The listing of the directory `ino` on the store; empty where it cannot
/// be read.
pub open spec fn directory_listing(store: Seq<Seq<u8>>, sb: SuperblockDisk, ino: u64) -> Seq<
    DirEntryModel,
> {
    let rec = record_of(store, sb, ino as int);
    let block = rec.direct_blocks@[0];
    if inode_slot_ok(store, sb, ino as int) && rec.file_type == FILE_TYPE_DIRECTORY && block != 0
        && readable(store, block as int) {
        disk_listing(store, sb, entries_in(block_data(store, block as int), 17))
    } else {
        Seq::empty()
    }
}

/// The directory `ino` as its listing on the store gives it.
pub open spec fn disk_directory(store: Seq<Seq<u8>>, sb: SuperblockDisk, ino: u64) -> DirectoryModel {
    mounted_root(
        directory_listing(store, sb, ino),
        ino,
        directory_listing(store, sb, ino).len() as int,
    )
}

/// The directories among the inodes `1..=n` that are in use on the store,
/// as their listings give them.
pub open spec fn directories_in_use(store: Seq<Seq<u8>>, sb: SuperblockDisk, n: int) -> Map<
    u64,
    DirectoryModel,
> {
    Map::new(
        |ino: u64|
            1 <= ino <= n && in_use(store, sb, ino as int) && record_of(
                store,
                sb,
                ino as int,
            ).file_type == FILE_TYPE_DIRECTORY,
        |ino: u64| disk_directory(store, sb, ino),
    )
}

/// The directories after directory `parent` has taken the first `k` of its
/// entries as its children: each entry that names another directory makes
/// `parent` that directory's parent.
pub open spec fn adopt_entries(
    dirs: Map<u64, DirectoryModel>,
    parent: u64,
    k: int,
) -> Map<u64, DirectoryModel>
    decreases k,
{
    if k <= 0 {
        dirs
    } else {
        let d = adopt_entries(dirs, parent, k - 1);
        let child = dirs[parent].entries[k - 1].ino;
        if child != parent && d.contains_key(child) {
            d.insert(child, DirectoryModel { parent, entries: d[child].entries })
        } else {
            d
        }
    }
}

/// The directories after each of the directories `1..=n`, in this order,
/// has taken its entries as its children.
pub open spec fn adopt_all(dirs: Map<u64, DirectoryModel>, n: int) -> Map<u64, DirectoryModel>
    decreases n,
{
    if n <= 0 {
        dirs
    } else {
        let d = adopt_all(dirs, n - 1);
        if d.contains_key(n as u64) {
            adopt_entries(d, n as u64, d[n as u64].entries.len() as int)
        } else {
            d
        }
    }
}

/// The directories that a mount keeps: the root and every directory in
/// use, each as its listing on the store gives it, and each below the
/// directory that names it.
pub open spec fn mounted_directories(store: Seq<Seq<u8>>, sb: SuperblockDisk) -> Map<
    u64,
    DirectoryModel,
> {
    adopt_all(
        directories_in_use(store, sb, sb.max_inodes as int).insert(
            sb.root_inode as u64,
            disk_directory(store, sb, sb.root_inode as u64),
        ),
        sb.max_inodes as int,
    )
}

/// Why a store cannot be mounted, if there is a reason: it has no block;
/// block 0 is too short; the magic number or the version is not this
/// filesystem's.
pub open spec fn mount_error(store: Seq<Seq<u8>>) -> Option<FsError> {
    if store.len() == 0 {
        Some(FsError::NoBlocks)
    } else if !readable(store, 0) {
        Some(FsError::ShortBlock { index: 0 })
    } else {
        let sb = crate::meta::the_superblock(block_data(store, 0));
        if sb.magic != QRFS_MAGIC {
            Some(FsError::BadMagic { found: sb.magic })
        } else if sb.version != QRFS_VERSION {
            Some(FsError::BadVersion { found: sb.version })
        } else {
            None
        }
    }
}

/// Whether `inner` is the state that mounting `store` at time `now` gives.
pub open spec fn mounted(store: Seq<Seq<u8>>, now: u64, inner: QrfsInner) -> bool {
    let sb = inner.superblock;
    &&& inner.store@ == store
    &&& sb == crate::meta::the_superblock(block_data(store, 0))
    &&& inner.free_blocks == sb.free_blocks
    &&& inner.free_inodes == sb.free_inodes
    &&& inner.inodes@ == mounted_inodes(store, sb, now)
    &&& dir_models(inner.directories@) == mounted_directories(store, sb)
    &&& inner.next_ino == mounted_next_ino(store, sb)
}

/// The inodes in use on the store, and the largest of their ids.
fn load_inodes(store: &BlockStore, sb: &SuperblockDisk) -> (r: (HashMap<u64, Inode>, u64))
    ensures
        r.0@ == inodes_in_use(store@, *sb, sb.max_inodes as int),
        r.1 == max_in_use(store@, *sb, sb.max_inodes as int),
{
    broadcast use vstd::std_specs::hash::group_hash_axioms;

    let mut inodes: HashMap<u64, Inode> = HashMap::new();
    let mut max_ino_used: u64 = 0;
    let mut ino: u64 = 0;
    assert(inodes@ =~= inodes_in_use(store@, *sb, 0));
    while ino < sb.max_inodes as u64
        invariant
            ino <= sb.max_inodes,
            inodes@ == inodes_in_use(store@, *sb, ino as int),
            max_ino_used == max_in_use(store@, *sb, ino as int),
        decreases sb.max_inodes - ino,
    {
        ino += 1;
        let ghost before = inodes@;
        match load_record(store, sb, ino) {
            Ok(rec) => {
                if rec.id != 0 && rec.nlink != 0 {
                    let kind = if rec.file_type == FILE_TYPE_DIRECTORY {
                        FileKind::Directory
                    } else {
                        FileKind::RegularFile
                    };
                    inodes.insert(
                        ino,
                        Inode {
                            ino,
                            kind,
                            perm: rec.perm,
                            uid: rec.uid,
                            gid: rec.gid,
                            size: rec.size,
                            atime: rec.atime,
                            mtime: rec.mtime,
                            ctime: rec.ctime,
                            nlink: rec.nlink,
                        },
                    );
                    max_ino_used = ino;
                }
            },
            Err(_) => {},
        }
        assert(inodes@ =~= inodes_in_use(store@, *sb, ino as int));
    }
    (inodes, max_ino_used)
}

/// The superblock of a store that can be mounted.
fn load_checked_superblock(store: &BlockStore) -> (r: Result<SuperblockDisk, FsError>)
    ensures
        match r {
            Ok(sb) => mount_error(store@) is None && sb == crate::meta::the_superblock(
                block_data(store@, 0),
            ),
            Err(e) => mount_error(store@) == Some(e),
        },
{
    let superblock = match read_superblock(store) {
        Ok(sb) => sb,
        Err(e) => {
            return Err(e);
        },
    };
    proof {
        crate::meta::lemma_the_superblock(superblock, block_data(store@, 0));
    }
    if superblock.magic != QRFS_MAGIC {
        return Err(FsError::BadMagic { found: superblock.magic });
    }
    if superblock.version != QRFS_VERSION {
        return Err(FsError::BadVersion { found: superblock.version });
    }
    Ok(superblock)
}

/// The directory `ino` as its listing on the store gives it; empty where
/// the listing cannot be read.
fn load_directory(store: &BlockStore, sb: &SuperblockDisk, ino: u64) -> (d: Directory)
    ensures
        d@ == disk_directory(store@, *sb, ino),
{
    let listing = match read_directory_from_disk(store, sb, ino) {
        Ok(listing) => listing,
        Err(_) => {
            let none: Vec<DirEntry> = Vec::new();
            assert(listing_models(none@) =~= Seq::empty());
            none
        },
    };
    assert(listing_models(listing@) == directory_listing(store@, *sb, ino));
    root_from_listing(&listing, ino)
}

/// The directories in use on the store, as their listings give them.
fn load_directories(store: &BlockStore, sb: &SuperblockDisk) -> (dirs: HashMap<u64, Directory>)
    ensures
        dir_models(dirs@) == directories_in_use(store@, *sb, sb.max_inodes as int),
{
    broadcast use vstd::std_specs::hash::group_hash_axioms;

    let mut dirs: HashMap<u64, Directory> = HashMap::new();
    let mut ino: u64 = 0;
    assert(dir_models(dirs@) =~= directories_in_use(store@, *sb, 0));
    while ino < sb.max_inodes as u64
        invariant
            ino <= sb.max_inodes,
            dir_models(dirs@) == directories_in_use(store@, *sb, ino as int),
        decreases sb.max_inodes - ino,
    {
        ino += 1;
        let ghost before = dir_models(dirs@);
        let ghost before_dirs = dirs@;
        match load_record(store, sb, ino) {
            Ok(rec) => {
                if rec.id != 0 && rec.nlink != 0 && rec.file_type == FILE_TYPE_DIRECTORY {
                    let d = load_directory(store, sb, ino);
                    dirs.insert(ino, d);
                    assert(dir_models(dirs@) =~= before.insert(
                        ino,
                        disk_directory(store@, *sb, ino),
                    ));
                }
            },
            Err(_) => {},
        }
        proof {
            let want = directories_in_use(store@, *sb, ino as int);
            let have = dir_models(dirs@);
            assert forall|k: u64| have.contains_key(k) <==> want.contains_key(k) by {
                if k != ino {
                    assert(before.contains_key(k) <==> want.contains_key(k));
                }
            }
            assert forall|k: u64| have.contains_key(k) implies have[k] == want[k] by {
                if k != ino {
                    assert(before.contains_key(k));
                    assert(have[k] == before[k]);
                }
            }
            assert(have =~= want);
        }
    }
    dirs
}

/// Makes `parent` the parent of every other directory that one of its
/// entries names.
fn adopt_children(dirs: &mut HashMap<u64, Directory>, parent: u64)
    requires
        old(dirs)@.contains_key(parent),
    ensures
        dir_models(final(dirs)@) == adopt_entries(
            dir_models(old(dirs)@),
            parent,
            old(dirs)@[parent]@.entries.len() as int,
        ),
{
    broadcast use vstd::std_specs::hash::group_hash_axioms;

    let mut children: Vec<u64> = Vec::new();
    match dirs.get(&parent) {
        Some(d) => {
            let mut i: usize = 0;
            while i < d.entries.len()
                invariant
                    i <= d.entries@.len(),
                    children@.len() == i,
                    forall|j: int| 0 <= j < i ==> #[trigger] children@[j] == d@.entries[j].ino,
                decreases d.entries@.len() - i,
            {
                assert(d@.entries[i as int] == d.entries@[i as int]@);
                children.push(d.entries[i].ino);
                i += 1;
            }
        },
        None => {},
    }
    let ghost start = dir_models(dirs@);
    let mut k: usize = 0;
    while k < children.len()
        invariant
            k <= children@.len(),
            start == dir_models(old(dirs)@),
            children@.len() == start[parent].entries.len(),
            forall|j: int|
                0 <= j < children@.len() ==> #[trigger] children@[j] == start[parent].entries[j].ino,
            dir_models(dirs@) == adopt_entries(start, parent, k as int),
        decreases children@.len() - k,
    {
        let child: u64 = children[k];
        if child != parent {
            match dirs.remove(&child) {
                Some(d) => {
                    let mut moved = d;
                    moved.parent = parent;
                    dirs.insert(child, moved);
                },
                None => {},
            }
        }
        k += 1;
        assert(dir_models(dirs@) =~= adopt_entries(start, parent, k as int));
    }
}

/// Lets each of the directories `1..=max`, in this order, take its entries
/// as its children.
fn adopt_all_children(dirs: &mut HashMap<u64, Directory>, max: u32)
    ensures
        dir_models(final(dirs)@) == adopt_all(dir_models(old(dirs)@), max as int),
{
    broadcast use vstd::std_specs::hash::group_hash_axioms;

    let mut ino: u64 = 0;
    while ino < max as u64
        invariant
            ino <= max,
            dir_models(dirs@) == adopt_all(dir_models(old(dirs)@), ino as int),
        decreases max - ino,
    {
        ino += 1;
        if dirs.contains_key(&ino) {
            adopt_children(dirs, ino);
        }
    }
}

/// Mounts the filesystem that `store` holds, at time `now` (seconds since
/// the epoch).  Reads the superblock, every inode record in use, and the
/// root directory and every directory in use.  A directory that cannot be
/// read is taken as empty.
pub fn mount(store: BlockStore, now: u64) -> (r: Result<QrfsInner, FsError>)
    ensures
        match r {
            Ok(inner) => mount_error(store@) is None && mounted(store@, now, inner),
            Err(e) => mount_error(store@) == Some(e),
        },
{
    broadcast use vstd::std_specs::hash::group_hash_axioms;

    let superblock = match load_checked_superblock(&store) {
        Ok(sb) => sb,
        Err(e) => {
            return Err(e);
        },
    };
    let root_ino: u64 = superblock.root_inode as u64;
    let (mut inodes, found_max) = load_inodes(&store, &superblock);
    let mut directories = load_directories(&store, &superblock);
    let root_dir = load_directory(&store, &superblock, root_ino);
    directories.insert(root_ino, root_dir);
    proof {
        assert(dir_models(directories@) =~= directories_in_use(
            store@,
            superblock,
            superblock.max_inodes as int,
        ).insert(root_ino, disk_directory(store@, superblock, root_ino)));
    }
    adopt_all_children(&mut directories, superblock.max_inodes);
    let mut max_ino_used: u64 = found_max;
    if max_ino_used == 0 {
        max_ino_used = if root_ino >= 1 {
            root_ino
        } else {
            1
        };
        if !inodes.contains_key(&root_ino) {
            inodes.insert(root_ino, Inode::dir(root_ino, now));
        }
    }
    proof {
        lemma_max_in_use_bound(store@, superblock, superblock.max_inodes as int);
    }
    let inner = QrfsInner {
        store,
        superblock,
        free_blocks: superblock.free_blocks,
        free_inodes: superblock.free_inodes,
        inodes,
        directories,
        next_ino: max_ino_used + 1,
    };
    Ok(inner)
}

/// The largest id in use is none of the ids beyond `n`.
proof fn lemma_max_in_use_bound(store: Seq<Seq<u8>>, sb: SuperblockDisk, n: int)
    requires
        0 <= n,
    ensures
        0 <= max_in_use(store, sb, n) <= n,
    decreases n,
{
    if n > 0 {
        lemma_max_in_use_bound(store, sb, n - 1);
    }
}

} // verus!
