//! Error taxonomy of the NDB layer: structural errors raised while parsing
//! pages and blocks, and the wrapping errors of the allocation-map rebuild.

use vstd::prelude::*;
use crate::node_id::NodeId;

verus! {

/// A structural violation found while reading or building an NDB value.
#[derive(Clone, Copy, Debug, PartialEq, Eq, Structural)]
pub enum NdbError {
    InvalidUnicodeBlockIndex(u64),
    InvalidAnsiBlockIndex(u32),
    InvalidBlockSize(u16),
    InvalidBlockCrc(u32),
    InvalidPageCrc(u32),
    InvalidUnicodeBlockTrailerId(u64),
    InvalidAnsiBlockTrailerId(u32),
    UnexpectedPageType(u8),
    InvalidBTreeEntryCount(usize),
    InvalidBTreeEntryMaxCount(u8),
    InvalidBTreeEntrySize(u8),
    InvalidBTreePageLevel(u8),
    InvalidBTreePagePadding(u32),
    InvalidInternalBlockType(u8),
    InvalidSubNodeBlockPadding(u32),
    InvalidInternalBlockEntryCount(u16),
    PageOutOfBounds(u64),
    SubNodeNotFound(NodeId),
    BTreeEntryNotFound(u64),
    InvalidHeaderMagic(u32),
    InvalidClientMagic(u16),
    InvalidVersion(u16),
    InvalidCryptMethod(u8),
}

pub type NdbResult<T> = Result<T, NdbError>;

/// An error of the file-level operations (the allocation-map rebuild).
///
/// The variants that carry live I/O state in a running process
/// (a denied write handle, a poisoned lock) are unit variants here; the
/// shell around the library attaches the path and the underlying error.
#[derive(Clone, Copy, Debug, PartialEq, Eq, Structural)]
pub enum PstError {
    NoWriteAccess,
    LockError,
    IntegerConversion,
    NodeDatabaseError(NdbError),
    AllocationMapPageNotFound(usize),
}

pub type PstResult<T> = Result<T, PstError>;

} // verus!
