//! Error numbers, from `libc`.

use vstd::prelude::*;

verus! {

/// The constant `libc::ENOENT`, the same number on every Linux target.
#[verifier::external_body]
pub(crate) fn enoent() -> (r: i32)
    ensures
        r == 2,
{
    libc::ENOENT
}

/// The constant `libc::EIO`, the same number on every Linux target.
#[verifier::external_body]
pub(crate) fn eio() -> (r: i32)
    ensures
        r == 5,
{
    libc::EIO
}

/// The constant `libc::EACCES`, the same number on every Linux target.
#[verifier::external_body]
pub(crate) fn eacces() -> (r: i32)
    ensures
        r == 13,
{
    libc::EACCES
}

/// The constant `libc::EEXIST`, the same number on every Linux target.
#[verifier::external_body]
pub(crate) fn eexist() -> (r: i32)
    ensures
        r == 17,
{
    libc::EEXIST
}

/// The constant `libc::ENOTDIR`, the same number on every Linux target.
#[verifier::external_body]
pub(crate) fn enotdir() -> (r: i32)
    ensures
        r == 20,
{
    libc::ENOTDIR
}

/// The constant `libc::EISDIR`, the same number on every Linux target.
#[verifier::external_body]
pub(crate) fn eisdir() -> (r: i32)
    ensures
        r == 21,
{
    libc::EISDIR
}

/// The constant `libc::EINVAL`, the same number on every Linux target.
#[verifier::external_body]
pub(crate) fn einval() -> (r: i32)
    ensures
        r == 22,
{
    libc::EINVAL
}

/// The constant `libc::ENOSPC`, the same number on every Linux target.
#[verifier::external_body]
pub(crate) fn enospc() -> (r: i32)
    ensures
        r == 28,
{
    libc::ENOSPC
}

/// The constant `libc::ENOTEMPTY`. On Linux its number is 39, but for SPARC
/// (66) and MIPS (93).
#[verifier::external_body]
pub(crate) fn enotempty() -> (r: i32)
    ensures
        r == 39 || r == 66 || r == 93,
{
    libc::ENOTEMPTY
}

} // verus!
