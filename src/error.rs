//! Error types of the library.
use vstd::prelude::*;

use crate::pattern::TokenError;

verus! {

/// Failures of the memory layer: scans, reads, writes and permission checks.
#[derive(Clone, Copy, Debug, PartialEq, Eq, Structural)]
pub enum MemoryError {
    /// The signature matched nowhere in the range.
    NotFound,
    /// The signature matched more than once where exactly one match was required.
    MultipleMatchesFound,
    /// A signature token is neither a byte nor a wildcard.
    InvalidPattern(TokenError),
    /// A signature without any token.
    EmptyPattern,
    /// A size that the operation cannot take.
    InvalidSize(usize),
    /// The page at this address cannot be read.
    PagePermNoRead(usize),
    /// The page at this address cannot be written.
    PagePermNoWrite(usize),
    /// The page at this address is not committed.
    PageNotCommit(usize),
}

/// Errors of the runtime core.
#[derive(Clone, Debug, PartialEq, Eq)]
pub enum Error {
    /// A scan, read or write of memory failed.
    Memory(MemoryError),
    /// No address record has this name.
    AddressRecordNotFound(String),
    /// The record's offset takes its match outside the address space.
    AddressOutOfRange(String),
    /// A memory patch already covers part of the range starting here.
    PatchAlreadyExists(usize),
    /// A hook with this identifier is already registered.
    HookAlreadyExists(u32),
    /// The address has no interception point and no native listener was supplied.
    NoListener(usize),
    /// Every sandbox identifier has been handed out.
    TooManySandboxes,
    /// No sandbox has this identifier.
    SandboxNotFound(u32),
    /// An extension's entry function returned this non-zero status.
    InitCoreExtension(i32),
    /// The text is not an unsigned 64-bit integer.
    ParseInt(String),
    /// The required version does not match the running one.
    VersionMismatch(String, String),
    /// A version or version requirement could not be parsed.
    InvalidVersion(String),
}

} // verus!
