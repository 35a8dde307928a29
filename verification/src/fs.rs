//! The mounted filesystem: the state that is kept in memory, how it is
//! built from a store, and the operations on files.
use std::collections::HashMap;
use vstd::prelude::*;
use crate::disk::SuperblockDisk;
use crate::store::BlockStore;

verus! {

/// Permission bits of a new directory.
pub const DIR_PERM: u16 = 0o755;

/// Permission bits of a new file.
pub const FILE_PERM: u16 = 0o644;

/// What an inode is.
#[derive(Clone, Copy, Debug, PartialEq, Eq)]
pub enum FileKind {
    Directory,
    RegularFile,
}

/// An inode as the mounted filesystem keeps it.  Times are seconds since
/// the epoch.
#[derive(Clone, Copy, Debug, PartialEq, Eq)]
pub struct Inode {
    pub ino: u64,
    pub kind: FileKind,
    pub perm: u16,
    pub uid: u32,
    pub gid: u32,
    pub size: u64,
    pub atime: u64,
    pub mtime: u64,
    pub ctime: u64,
    pub nlink: u32,
}

/// The inode of a new directory, made at time `now`: owned by root, empty,
/// with the two links `.` and `..`.
pub open spec fn dir_inode(ino: u64, now: u64) -> Inode {
    Inode {
        ino,
        kind: FileKind::Directory,
        perm: DIR_PERM,
        uid: 0,
        gid: 0,
        size: 0,
        atime: now,
        mtime: now,
        ctime: now,
        nlink: 2,
    }
}

/// The inode of a new regular file of `size` bytes, made at time `now`:
/// owned by root, with one link.
pub open spec fn file_inode(ino: u64, size: u64, now: u64) -> Inode {
    Inode {
        ino,
        kind: FileKind::RegularFile,
        perm: FILE_PERM,
        uid: 0,
        gid: 0,
        size,
        atime: now,
        mtime: now,
        ctime: now,
        nlink: 1,
    }
}

impl Inode {
    /// The inode of a new directory, made at time `now`.
    pub fn dir(ino: u64, now: u64) -> (inode: Inode)
        ensures
            inode == dir_inode(ino, now),
    {
        Inode {
            ino,
            kind: FileKind::Directory,
            perm: DIR_PERM,
            uid: 0,
            gid: 0,
            size: 0,
            atime: now,
            mtime: now,
            ctime: now,
            nlink: 2,
        }
    }

    /// The inode of a new regular file of `size` bytes, made at time `now`.
    pub fn file(ino: u64, size: u64, now: u64) -> (inode: Inode)
        ensures
            inode == file_inode(ino, size, now),
    {
        Inode {
            ino,
            kind: FileKind::RegularFile,
            perm: FILE_PERM,
            uid: 0,
            gid: 0,
            size,
            atime: now,
            mtime: now,
            ctime: now,
            nlink: 1,
        }
    }

    /// Whether this inode is a directory.
    pub fn is_dir(&self) -> (r: bool)
        ensures
            r == (self.kind is Directory),
    {
        match self.kind {
            FileKind::Directory => true,
            FileKind::RegularFile => false,
        }
    }
}

/// A name in a directory and the inode that it names.
#[derive(Clone, Debug, PartialEq, Eq)]
pub struct Named {
    pub name: String,
    pub ino: u64,
}

/// A name and an inode as a mathematical value.
pub struct NamedModel {
    pub name: Seq<char>,
    pub ino: u64,
}

impl View for Named {
    type V = NamedModel;

    open spec fn view(&self) -> NamedModel {
        NamedModel { name: self.name@, ino: self.ino }
    }
}

/// A directory as the mounted filesystem keeps it: its parent and its
/// entries, in the order in which they were added.  No name occurs twice.
#[derive(Clone, Debug, PartialEq, Eq)]
pub struct Directory {
    pub parent: u64,
    pub entries: Vec<Named>,
}

/// A directory as a mathematical value.
#[verifier::ext_equal]
pub struct DirectoryModel {
    pub parent: u64,
    pub entries: Seq<NamedModel>,
}

impl View for Directory {
    type V = DirectoryModel;

    open spec fn view(&self) -> DirectoryModel {
        DirectoryModel { parent: self.parent, entries: self.entries@.map_values(|e: Named| e@) }
    }
}

/// Index of the first of the first `n` entries with the name `name`, or
/// `n` where there is none.
pub open spec fn position_of(entries: Seq<NamedModel>, name: Seq<char>, n: int) -> int
    decreases n,
{
    if n <= 0 {
        0
    } else {
        let before = position_of(entries, name, n - 1);
        if before < n - 1 {
            before
        } else if entries[n - 1].name == name {
            n - 1
        } else {
            n
        }
    }
}

impl DirectoryModel {
    /// Whether no name occurs twice.
    pub open spec fn wf(self) -> bool {
        forall|i: int, j: int|
            0 <= i < j < self.entries.len() ==> (#[trigger] self.entries[i]).name != (
            #[trigger] self.entries[j]).name
    }

    /// Index of the entry with the name `name`, or the number of entries
    /// where there is none.
    pub open spec fn position(self, name: Seq<char>) -> int {
        position_of(self.entries, name, self.entries.len() as int)
    }

    /// Whether an entry has the name `name`.
    pub open spec fn has(self, name: Seq<char>) -> bool {
        self.position(name) < self.entries.len()
    }

    /// The inode that `name` names.
    pub open spec fn get(self, name: Seq<char>) -> u64 {
        self.entries[self.position(name)].ino
    }

    /// This directory with `name` naming `ino`: in place of what it named
    /// before, or as a new last entry.
    pub open spec fn with_entry(self, name: Seq<char>, ino: u64) -> DirectoryModel {
        let at = self.position(name);
        let entry = NamedModel { name, ino };
        DirectoryModel {
            parent: self.parent,
            entries: if at < self.entries.len() {
                self.entries.update(at, entry)
            } else {
                self.entries.push(entry)
            },
        }
    }

    /// This directory without the entry `name`.
    pub open spec fn without(self, name: Seq<char>) -> DirectoryModel {
        let at = self.position(name);
        DirectoryModel {
            parent: self.parent,
            entries: if at < self.entries.len() {
                self.entries.remove(at)
            } else {
                self.entries
            },
        }
    }
}

/// What the position of a name is: the first index with that name.
pub proof fn lemma_position_of(entries: Seq<NamedModel>, name: Seq<char>, n: int)
    requires
        0 <= n <= entries.len(),
    ensures
        0 <= position_of(entries, name, n) <= n,
        position_of(entries, name, n) < n ==> entries[position_of(entries, name, n)].name == name,
        forall|i: int|
            0 <= i < position_of(entries, name, n) ==> (#[trigger] entries[i]).name != name,
    decreases n,
{
    if n > 0 {
        lemma_position_of(entries, name, n - 1);
    }
}

impl Directory {
    /// An empty directory below `parent`.
    pub fn new(parent: u64) -> (d: Directory)
        ensures
            d@ == (DirectoryModel { parent, entries: Seq::empty() }),
            d@.wf(),
    {
        let d = Directory { parent, entries: Vec::new() };
        assert(d@.entries =~= Seq::empty());
        d
    }

    /// Index of the entry with the name `name`, or the number of entries
    /// where there is none.
    pub fn position(&self, name: &str) -> (at: usize)
        ensures
            at == self@.position(name@),
            at <= self.entries@.len(),
    {
        let key: String = name.to_owned();
        let mut i: usize = 0;
        while i < self.entries.len()
            invariant
                i <= self.entries@.len(),
                key@ == name@,
                position_of(self@.entries, name@, i as int) == i,
            decreases self.entries@.len() - i,
        {
            if self.entries[i].name.eq(&key) {
                proof {
                    lemma_position_found(self@.entries, name@, i as int);
                }
                return i;
            }
            i += 1;
        }
        i
    }

    /// The inode that `name` names, if it names one.
    pub fn get(&self, name: &str) -> (r: Option<u64>)
        ensures
            match r {
                Some(ino) => self@.has(name@) && ino == self@.get(name@),
                None => !self@.has(name@),
            },
    {
        let at = self.position(name);
        if at < self.entries.len() {
            Some(self.entries[at].ino)
        } else {
            None
        }
    }

    /// Whether an entry has the name `name`.
    pub fn contains(&self, name: &str) -> (r: bool)
        ensures
            r == self@.has(name@),
    {
        self.position(name) < self.entries.len()
    }

    /// Lets `name` name `ino`: in place of what it named before, or as a
    /// new last entry.
    pub fn insert(&mut self, name: &str, ino: u64)
        ensures
            final(self)@ == old(self)@.with_entry(name@, ino),
    {
        let at = self.position(name);
        let entry = Named { name: name.to_owned(), ino };
        if at < self.entries.len() {
            self.entries[at] = entry;
        } else {
            self.entries.push(entry);
        }
        assert(self@.entries =~= old(self)@.with_entry(name@, ino).entries);
    }

    /// Takes the entry `name` out, and gives back what it named.
    pub fn remove(&mut self, name: &str) -> (r: Option<u64>)
        ensures
            final(self)@ == old(self)@.without(name@),
            match r {
                Some(ino) => old(self)@.has(name@) && ino == old(self)@.get(name@),
                None => !old(self)@.has(name@),
            },
    {
        let at = self.position(name);
        if at < self.entries.len() {
            let gone = self.entries.remove(at);
            assert(self@.entries =~= old(self)@.without(name@).entries);
            Some(gone.ino)
        } else {
            assert(self@.entries =~= old(self)@.without(name@).entries);
            None
        }
    }

    /// Whether the directory has no entry.
    pub fn is_empty(&self) -> (r: bool)
        ensures
            r == (self@.entries.len() == 0),
    {
        self.entries.len() == 0
    }

    /// A copy of this directory.
    pub fn copy(&self) -> (d: Directory)
        ensures
            d@ == self@,
    {
        let mut entries: Vec<Named> = Vec::new();
        let mut i: usize = 0;
        while i < self.entries.len()
            invariant
                i <= self.entries@.len(),
                entries@.len() == i,
                forall|j: int| 0 <= j < i ==> (#[trigger] entries@[j])@ == self.entries@[j]@,
            decreases self.entries@.len() - i,
        {
            let e = &self.entries[i];
            entries.push(Named { name: e.name.clone(), ino: e.ino });
            i += 1;
        }
        let d = Directory { parent: self.parent, entries };
        assert(d@.entries =~= self@.entries);
        d
    }
}

/// Where the entry at `i` is the first with its name, the position of the
/// name is `i`, however many entries follow.
pub proof fn lemma_position_found(entries: Seq<NamedModel>, name: Seq<char>, i: int)
    requires
        0 <= i < entries.len(),
        position_of(entries, name, i) == i,
        entries[i].name == name,
    ensures
        position_of(entries, name, entries.len() as int) == i,
{
    lemma_position_stays(entries, name, i, entries.len() as int);
}

/// A position that was found among the first `n` entries is the position
/// among the first `m`, for every `m` from `n` on.
pub proof fn lemma_position_stays(entries: Seq<NamedModel>, name: Seq<char>, i: int, m: int)
    requires
        0 <= i < m <= entries.len(),
        position_of(entries, name, i) == i,
        entries[i].name == name,
    ensures
        position_of(entries, name, m) == i,
    decreases m,
{
    if m > i + 1 {
        lemma_position_stays(entries, name, i, m - 1);
    }
}

/// Adding or replacing an entry keeps the names apart.
pub proof fn lemma_with_entry_wf(d: DirectoryModel, name: Seq<char>, ino: u64)
    requires
        d.wf(),
    ensures
        d.with_entry(name, ino).wf(),
        d.with_entry(name, ino).has(name),
        d.with_entry(name, ino).get(name) == ino,
{
    let n = d.entries.len() as int;
    lemma_position_of(d.entries, name, n);
    let at = d.position(name);
    let after = d.with_entry(name, ino);
    lemma_position_of(after.entries, name, after.entries.len() as int);
    assert(after.entries[at].name == name);
    assert forall|i: int| 0 <= i < at implies (#[trigger] after.entries[i]).name != name by {
        assert(after.entries[i] == d.entries[i]);
    }
    let p = after.position(name);
    if p < at {
        assert(after.entries[p].name == name);
    }
    if p > at {
        assert(after.entries[at].name != name);
    }
    assert forall|i: int, j: int| 0 <= i < j < after.entries.len() implies (
    #[trigger] after.entries[i]).name != (#[trigger] after.entries[j]).name by {
        if i != at && j != at {
            assert(after.entries[i] == d.entries[i] && after.entries[j] == d.entries[j]);
        } else if at < n {
            if i == at {
                assert(after.entries[j] == d.entries[j]);
                assert(d.entries[at].name != d.entries[j].name);
            } else {
                assert(after.entries[i] == d.entries[i]);
                assert(d.entries[i].name != d.entries[at].name);
            }
        } else {
            assert(after.entries[i] == d.entries[i]);
        }
    }
}

/// Directories by inode id, as mathematical values.
pub open spec fn dir_models(dirs: Map<u64, Directory>) -> Map<u64, DirectoryModel> {
    Map::new(|ino: u64| dirs.contains_key(ino), |ino: u64| dirs[ino]@)
}

/// The state of a mounted filesystem.
pub struct QrfsInner {
    /// The blocks that the filesystem lies on.
    pub store: BlockStore,
    /// The superblock as it was last written.
    pub superblock: SuperblockDisk,
    /// Free data blocks.
    pub free_blocks: u32,
    /// Free inode slots.
    pub free_inodes: u32,
    /// The inodes in use, by id.
    pub inodes: HashMap<u64, Inode>,
    /// The directories, by inode id.
    pub directories: HashMap<u64, Directory>,
    /// The id that the next new inode gets.
    pub next_ino: u64,
}

} // verus!
