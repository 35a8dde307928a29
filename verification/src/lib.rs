//! A block-structured filesystem whose medium is a list of fixed-size blocks:
//! the layout planner, the on-disk record formats, the free-block allocator,
//! the file data mapper, the mounted filesystem with its files and
//! directories, and the consistency checker.
use vstd::prelude::*;

pub mod allocator;
pub mod bitmap;
pub mod bytes;
pub mod consistency;
pub mod dir;
pub mod dirent;
pub mod disk;
mod errno;
pub mod files;
pub mod fs;
pub mod fsck;
pub mod layout;
pub mod mapper;
pub mod meta;
pub mod mkfs;
pub mod mount;
pub mod persist;
pub mod store;
pub mod write;

verus! {

/// Size in bytes of one storage block.
pub const QRFS_BLOCK_SIZE: u32 = 1024;

/// Magic number that marks block 0 as the superblock of this filesystem.
pub const QRFS_MAGIC: u32 = 0x5152_4653;

/// On-disk format version written by the formatter.
pub const QRFS_VERSION: u32 = 1;

/// Length in bytes of the name field of a directory entry.
pub const QRFS_NAME_LEN: usize = 56;

/// Inode number of the root directory.
pub const ROOT_INO: u64 = 1;

} // verus!
