//! The entries of a directory's data block.
//!
//! A block holds seventeen entries of 60 bytes.  An entry with inode id 0
//! is an empty slot.  A name is the bytes of the name field up to the first
//! NUL, read as UTF-8; an entry without a name does not count.
use vstd::prelude::*;
use crate::bytes::le_u32;
use crate::disk::{DirEntryDisk, DIR_ENTRY_DISK_SIZE};

use crate::store::BLOCK;
use crate::QRFS_NAME_LEN;

verus! {

/// Entries that fit into one block.
pub const ENTRIES_PER_BLOCK: usize = 17;

/// The text that `String::from_utf8_lossy` gives for `bytes`: the bytes
/// read as UTF-8, with U+FFFD in place of every sequence that is not valid.
pub uninterp spec fn lossy_text(bytes: Seq<u8>) -> Seq<char>;

/// Reads bytes as UTF-8 by `String::from_utf8_lossy`.  Trusted: the text
/// that comes back depends on the bytes alone, and is named `lossy_text`;
/// bytes that are valid UTF-8 give the text that they encode, because
/// only invalid sequences are replaced.
#[verifier::external_body]
fn text_of(bytes: &Vec<u8>) -> (text: String)
    ensures
        text@ == lossy_text(bytes@),
        vstd::utf8::valid_utf8(bytes@) ==> text@ == vstd::utf8::decode_utf8(bytes@),
{
    String::from_utf8_lossy(bytes).into_owned()
}

/// The text of a name with the bytes `bytes`: the text that the bytes
/// encode where they are valid UTF-8, else what `lossy_text` makes of them.
pub open spec fn name_text(bytes: Seq<u8>) -> Seq<char> {
    if vstd::utf8::valid_utf8(bytes) {
        vstd::utf8::decode_utf8(bytes)
    } else {
        lossy_text(bytes)
    }
}

/// Whether the name in `field` is `n` bytes long: no NUL among the first
/// `n` bytes, and a NUL, or the field's end, after them.
pub open spec fn is_name_len(field: Seq<u8>, n: int) -> bool {
    &&& 0 <= n <= field.len()
    &&& forall|j: int| 0 <= j < n ==> field[j] != 0
    &&& n == field.len() || field[n] == 0
}

/// Length of the name in `field`.
pub open spec fn name_len(field: Seq<u8>) -> int {
    choose|n: int| is_name_len(field, n)
}

/// The bytes of the name in `field`.
pub open spec fn name_bytes(field: Seq<u8>) -> Seq<u8> {
    field.subrange(0, name_len(field))
}

/// A name has one length.
pub proof fn lemma_name_len_is(field: Seq<u8>, n: int)
    requires
        is_name_len(field, n),
    ensures
        name_len(field) == n,
{
    let m = name_len(field);
    assert(is_name_len(field, m));
    if m < n {
        assert(field[m] == 0);
    }
    if n < m {
        assert(field[n] == 0);
    }
}

/// An entry of a directory block, as it is read.
#[derive(Clone, Debug, PartialEq, Eq)]
pub struct RawEntry {
    /// Inode id of the child.
    pub ino: u32,
    /// The child's name.
    pub name: String,
}

/// An entry of a directory block as a mathematical value.
pub struct RawEntryModel {
    pub ino: u32,
    pub name: Seq<char>,
}

impl View for RawEntry {
    type V = RawEntryModel;

    open spec fn view(&self) -> RawEntryModel {
        RawEntryModel { ino: self.ino, name: self.name@ }
    }
}

/// The models of a list of entries.
pub open spec fn raw_models(entries: Seq<RawEntry>) -> Seq<RawEntryModel> {
    entries.map_values(|e: RawEntry| e@)
}

/// What the slot at `at` of `block` holds: nothing where the inode id is 0
/// or the name is empty, else the one entry.
pub open spec fn entry_at(block: Seq<u8>, at: int) -> Seq<RawEntryModel> {
    let ino = le_u32(block, at) as u32;
    let name = name_text(name_bytes(block.subrange(at + 4, at + 60)));
    if ino == 0 || name.len() == 0 {
        Seq::empty()
    } else {
        seq![RawEntryModel { ino, name }]
    }
}

/// The entries of the first `n` slots of `block`.
pub open spec fn entries_in(block: Seq<u8>, n: int) -> Seq<RawEntryModel>
    decreases n,
{
    if n <= 0 {
        Seq::empty()
    } else {
        entries_in(block, n - 1) + entry_at(block, (n - 1) * DIR_ENTRY_DISK_SIZE)
    }
}

/// The number of whole slots in a buffer of `len` bytes.
pub open spec fn slots_in(len: int) -> int {
    len / (DIR_ENTRY_DISK_SIZE as int)
}

/// The bytes of the name in the name field of `entry`.
pub fn entry_name_bytes(entry: &DirEntryDisk) -> (bytes: Vec<u8>)
    ensures
        bytes@ == name_bytes(entry.name@),
{
    let mut bytes: Vec<u8> = Vec::new();
    let mut i: usize = 0;
    while i < QRFS_NAME_LEN && entry.name[i] != 0
        invariant
            i <= QRFS_NAME_LEN,
            bytes@ == entry.name@.subrange(0, i as int),
            forall|j: int| 0 <= j < i ==> entry.name@[j] != 0,
        decreases QRFS_NAME_LEN - i,
    {
        bytes.push(entry.name[i]);
        i += 1;
        assert(bytes@ =~= entry.name@.subrange(0, i as int));
    }
    proof {
        lemma_name_len_is(entry.name@, i as int);
    }
    bytes
}

/// Reads the entries of a directory's data block: every slot of 60 bytes
/// that lies wholly inside `buf`, in order, without the empty ones.
pub fn unpack_entries(buf: &[u8]) -> (entries: Vec<RawEntry>)
    ensures
        raw_models(entries@) == entries_in(buf@, slots_in(buf@.len() as int)),
{
    let mut entries: Vec<RawEntry> = Vec::new();
    let total: usize = buf.len();
    let n: usize = total / DIR_ENTRY_DISK_SIZE;
    let mut k: usize = 0;
    assert(raw_models(entries@) =~= entries_in(buf@, 0));
    while k < n
        invariant
            k <= n,
            total == buf@.len(),
            n == slots_in(buf@.len() as int),
            raw_models(entries@) == entries_in(buf@, k as int),
        decreases n - k,
    {
        let at: usize = k * DIR_ENTRY_DISK_SIZE;
        let ghost before = raw_models(entries@);
        match DirEntryDisk::decode(buf, at) {
            Ok(disk_entry) => {
                let bytes = entry_name_bytes(&disk_entry);
                let name = text_of(&bytes);
                if disk_entry.inode != 0 && !name.as_str().is_empty() {
                    entries.push(RawEntry { ino: disk_entry.inode, name });
                    assert(raw_models(entries@) =~= before + entry_at(buf@, at as int));
                } else {
                    assert(raw_models(entries@) =~= before + entry_at(buf@, at as int));
                }
            },
            Err(_) => {
                vstd::pervasive::unreached()
            },
        }
        k += 1;
    }
    entries
}

/// Whether `bytes` can stand in a name field: at least one byte, at most
/// 56, and no NUL among them.
pub open spec fn name_fits(bytes: Seq<u8>) -> bool {
    &&& 0 < bytes.len() <= QRFS_NAME_LEN
    &&& forall|i: int| 0 <= i < bytes.len() ==> bytes[i] != 0
}

/// Whether an entry can be stored: its inode id is not 0, which marks an
/// empty slot, and the UTF-8 bytes of its name can stand in a name field.
pub open spec fn entry_fits(e: RawEntryModel) -> bool {
    e.ino != 0 && name_fits(vstd::utf8::encode_utf8(e.name))
}

/// Whether the first `n` entries can be stored.
pub open spec fn all_fit(raw: Seq<RawEntryModel>, n: int) -> bool {
    forall|k: int| 0 <= k < n ==> entry_fits(#[trigger] raw[k])
}

/// A name field that holds `bytes`: the bytes, then NULs.
pub open spec fn name_field(bytes: Seq<u8>) -> Seq<u8> {
    Seq::new(
        QRFS_NAME_LEN as nat,
        |i: int|
            if i < bytes.len() {
                bytes[i]
            } else {
                0u8
            },
    )
}

/// The 60 bytes of a stored entry.
pub open spec fn packed_entry(e: RawEntryModel) -> Seq<u8> {
    crate::bytes::u32_le_bytes(e.ino) + name_field(vstd::utf8::encode_utf8(e.name))
}

/// The first `len` bytes of the entries stored one after the other.
pub open spec fn packed_run(raw: Seq<RawEntryModel>, len: int) -> Seq<u8> {
    Seq::new(
        len as nat,
        |i: int|
            packed_entry(raw[i / (DIR_ENTRY_DISK_SIZE as int)])[i % (DIR_ENTRY_DISK_SIZE as int)],
    )
}

/// A directory block that holds the entries: the entries one after the
/// other, then zeros, which are empty slots.
pub open spec fn packed_block(raw: Seq<RawEntryModel>) -> Seq<u8> {
    Seq::new(
        BLOCK as nat,
        |i: int|
            if i < raw.len() * DIR_ENTRY_DISK_SIZE {
                packed_entry(raw[i / (DIR_ENTRY_DISK_SIZE as int)])[i % (
                DIR_ENTRY_DISK_SIZE as int)]
            } else {
                0u8
            },
    )
}

/// Why entries cannot be stored in one block.
#[derive(Clone, Copy, Debug, PartialEq, Eq)]
pub enum PackError {
    /// There are more than seventeen.
    TooMany,
    /// The entry at `index` has an inode id of 0, or a name that is empty,
    /// longer than 56 bytes or holds a NUL.
    BadEntry { index: usize },
}

/// Stores the entries in one directory block.
///
/// Fails when there are more than seventeen, or else at the first entry
/// that cannot be stored.
pub fn pack_entries(entries: &Vec<RawEntry>) -> (r: Result<Vec<u8>, PackError>)
    ensures
        match r {
            Ok(block) => {
                &&& entries@.len() <= ENTRIES_PER_BLOCK
                &&& all_fit(raw_models(entries@), entries@.len() as int)
                &&& block@ == packed_block(raw_models(entries@))
            },
            Err(PackError::TooMany) => entries@.len() > ENTRIES_PER_BLOCK,
            Err(PackError::BadEntry { index }) => {
                &&& entries@.len() <= ENTRIES_PER_BLOCK
                &&& index < entries@.len()
                &&& all_fit(raw_models(entries@), index as int)
                &&& !entry_fits(raw_models(entries@)[index as int])
            },
        },
{
    if entries.len() > ENTRIES_PER_BLOCK {
        return Err(PackError::TooMany);
    }
    let ghost raw = raw_models(entries@);
    let mut block: Vec<u8> = Vec::new();
    let mut k: usize = 0;
    assert(block@ =~= packed_run(raw, 0));
    while k < entries.len()
        invariant
            k <= entries@.len(),
            entries@.len() <= ENTRIES_PER_BLOCK,
            raw == raw_models(entries@),
            all_fit(raw, k as int),
            block@ == packed_run(raw, k * DIR_ENTRY_DISK_SIZE),
        decreases entries@.len() - k,
    {
        let e = &entries[k];
        assert(raw[k as int] == e@);
        let bytes = e.name.as_str().as_bytes();
        let n: usize = bytes.len();
        if e.ino == 0 || n == 0 || n > QRFS_NAME_LEN {
            return Err(PackError::BadEntry { index: k });
        }
        assert(bytes@ == vstd::utf8::encode_utf8(raw[k as int].name));
        let mut name: [u8; 56] = [0u8; 56];
        let mut i: usize = 0;
        while i < n
            invariant
                i <= n,
                n == bytes@.len(),
                n <= QRFS_NAME_LEN,
                k < entries@.len(),
                entries@.len() <= ENTRIES_PER_BLOCK,
                raw == raw_models(entries@),
                all_fit(raw, k as int),
                bytes@ == vstd::utf8::encode_utf8(raw[k as int].name),
                forall|j: int| 0 <= j < i ==> bytes@[j] != 0,
                forall|j: int|
                    0 <= j < 56 ==> #[trigger] name@[j] == (if j < i {
                        bytes@[j]
                    } else {
                        0u8
                    }),
            decreases n - i,
        {
            if bytes[i] == 0 {
                return Err(PackError::BadEntry { index: k });
            }
            name[i] = bytes[i];
            i += 1;
        }
        assert(name@ =~= name_field(bytes@));
        let ghost head = block@;
        DirEntryDisk { inode: e.ino, name }.encode(&mut block);
        proof {
            let next = packed_run(raw, (k + 1) * DIR_ENTRY_DISK_SIZE);
            assert(block@.len() == next.len());
            assert forall|p: int| 0 <= p < next.len() implies block@[p] == next[p] by {
                if p < head.len() {
                    assert(block@[p] == head[p]);
                } else {
                    assert(p / (DIR_ENTRY_DISK_SIZE as int) == k);
                    assert(p % (DIR_ENTRY_DISK_SIZE as int) == p - head.len());
                }
            }
            assert(block@ =~= next);
        }
        k += 1;
    }
    let used: usize = block.len();
    let mut i: usize = used;
    while i < BLOCK
        invariant
            used <= i <= BLOCK,
            used == raw.len() * DIR_ENTRY_DISK_SIZE,
            block@.len() == i,
            forall|p: int| 0 <= p < i ==> #[trigger] block@[p] == packed_block(raw)[p],
        decreases BLOCK - i,
    {
        block.push(0u8);
        i += 1;
    }
    assert(block@ =~= packed_block(raw));
    Ok(block)
}

/// A name field holds the name that was put into it.
pub proof fn lemma_name_of_field(bytes: Seq<u8>)
    requires
        name_fits(bytes),
    ensures
        name_bytes(name_field(bytes)) == bytes,
{
    let field = name_field(bytes);
    assert(is_name_len(field, bytes.len() as int));
    lemma_name_len_is(field, bytes.len() as int);
    assert(field.subrange(0, bytes.len() as int) =~= bytes);
}

/// The slot of a stored entry holds that entry, and a slot behind the last
/// stored entry is empty.
pub proof fn lemma_slot_of_packed_block(raw: Seq<RawEntryModel>, k: int)
    requires
        raw.len() <= ENTRIES_PER_BLOCK,
        all_fit(raw, raw.len() as int),
        0 <= k < ENTRIES_PER_BLOCK,
    ensures
        entry_at(packed_block(raw), k * DIR_ENTRY_DISK_SIZE) == (if k < raw.len() {
            seq![raw[k]]
        } else {
            Seq::empty()
        }),
{
    let block = packed_block(raw);
    let at = k * DIR_ENTRY_DISK_SIZE;
    if k < raw.len() {
        let e = raw[k];
        let bytes = vstd::utf8::encode_utf8(e.name);
        let stored = packed_entry(e);
        assert(entry_fits(e));
        assert forall|j: int| 0 <= j < 60 implies block[at + j] == stored[j] by {
            assert((at + j) / 60 == k && (at + j) % 60 == j);
        }
        assert(block[at] == stored[0] && block[at + 1] == stored[1] && block[at + 2] == stored[2]
            && block[at + 3] == stored[3]);
        let after = name_field(bytes);
        crate::bytes::lemma_u32_roundtrip(Seq::empty(), e.ino, after);
        assert(Seq::<u8>::empty() + crate::bytes::u32_le_bytes(e.ino) + after =~= stored);
        assert(le_u32(block, at) == e.ino);
        assert(block.subrange(at + 4, at + 60) =~= after) by {
            assert forall|j: int| 0 <= j < 56 implies block[at + 4 + j] == after[j] by {
                assert(block[at + (4 + j)] == stored[4 + j]);
            }
        }
        lemma_name_of_field(bytes);
        vstd::utf8::encode_utf8_valid_utf8(e.name);
        vstd::utf8::encode_utf8_decode_utf8(e.name);
        assert(name_text(bytes) == e.name);
        assert(e.name.len() != 0) by {
            if e.name.len() == 0 {
                assert(bytes.len() == 0);
            }
        }
    } else {
        assert(at >= raw.len() * DIR_ENTRY_DISK_SIZE) by (nonlinear_arith)
            requires
                at == k * 60,
                k >= raw.len(),
                DIR_ENTRY_DISK_SIZE == 60,
        ;
        assert(block[at] == 0 && block[at + 1] == 0 && block[at + 2] == 0 && block[at + 3] == 0);
        assert(le_u32(block, at) == 0);
    }
}

/// The first `n` slots of a block of stored entries hold the first `n` of
/// the entries, or all of them where there are fewer.
pub proof fn lemma_slots_of_packed_block(raw: Seq<RawEntryModel>, n: int)
    requires
        raw.len() <= ENTRIES_PER_BLOCK,
        all_fit(raw, raw.len() as int),
        0 <= n <= ENTRIES_PER_BLOCK,
    ensures
        entries_in(packed_block(raw), n) == (if n < raw.len() {
            raw.subrange(0, n)
        } else {
            raw
        }),
    decreases n,
{
    if n > 0 {
        lemma_slots_of_packed_block(raw, n - 1);
        lemma_slot_of_packed_block(raw, n - 1);
        if n - 1 < raw.len() {
            assert(raw.subrange(0, n - 1) + seq![raw[n - 1]] =~= raw.subrange(0, n));
            assert(n == raw.len() ==> raw.subrange(0, n) =~= raw);
        } else {
            assert(raw + Seq::<RawEntryModel>::empty() =~= raw);
        }
    } else {
        assert(raw.subrange(0, 0) =~= Seq::<RawEntryModel>::empty());
        assert(raw.len() == 0 ==> raw =~= Seq::<RawEntryModel>::empty());
    }
}

/// Entries that were stored in a block are read back from it: the same
/// entries, in the same order.
pub proof fn lemma_packed_block_is_read_back(raw: Seq<RawEntryModel>)
    requires
        raw.len() <= ENTRIES_PER_BLOCK,
        all_fit(raw, raw.len() as int),
    ensures
        entries_in(packed_block(raw), slots_in(packed_block(raw).len() as int)) == raw,
{
    lemma_slots_of_packed_block(raw, ENTRIES_PER_BLOCK as int);
}

} // verus!
