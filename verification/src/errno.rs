//! The error numbers of the operating system, as the `libc` crate has them
//! for the machine that the library is built for.
//!
//! The numbers differ between machines, so nothing is stated of them.
use vstd::prelude::*;

verus! {

/// `libc::ENOENT`: no such file or directory.  Trusted; no value promised.
#[verifier::external_body]
pub(crate) fn enoent() -> i32 {
    libc::ENOENT
}

/// `libc::ENOTDIR`: not a directory.  Trusted; no value promised.
#[verifier::external_body]
pub(crate) fn enotdir() -> i32 {
    libc::ENOTDIR
}

/// `libc::ENOTEMPTY`: directory not empty.  Trusted; no value promised.
#[verifier::external_body]
pub(crate) fn enotempty() -> i32 {
    libc::ENOTEMPTY
}

/// `libc::ENOSPC`: no space left on device.  Trusted; no value promised.
#[verifier::external_body]
pub(crate) fn enospc() -> i32 {
    libc::ENOSPC
}

/// `libc::ENOSYS`: function not implemented.  Trusted; no value promised.
#[verifier::external_body]
pub(crate) fn enosys() -> i32 {
    libc::ENOSYS
}

/// `libc::EEXIST`: file exists.  Trusted; no value promised.
#[verifier::external_body]
pub(crate) fn eexist() -> i32 {
    libc::EEXIST
}

/// `libc::EINVAL`: invalid argument.  Trusted; no value promised.
#[verifier::external_body]
pub(crate) fn einval() -> i32 {
    libc::EINVAL
}

/// `libc::EIO`: input/output error.  Trusted; no value promised.
#[verifier::external_body]
pub(crate) fn eio() -> i32 {
    libc::EIO
}

/// `libc::EISDIR`: is a directory.  Trusted; no value promised.
#[verifier::external_body]
pub(crate) fn eisdir() -> i32 {
    libc::EISDIR
}

} // verus!
