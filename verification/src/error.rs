//! What can go wrong.

use vstd::prelude::*;

verus! {

/// Why an operation on the store failed.
#[derive(Clone, Copy, Debug, PartialEq, Eq, Structural)]
pub enum Error {
    /// The input ended in the middle of a record.
    UnexpectedEof,
    /// The bytes are no encoding of the value that was asked for.
    Deserialization,
    /// The value is too long to be encoded.
    Serialization,
    /// A key of the state column is not a shard identifier and a hash.
    MalformedStateKey,
    /// The database failed and reported this code.
    Database(i32),
}

/// Why a read of the state failed.
#[derive(Debug, PartialEq, Eq)]
pub enum StorageError {
    /// The storage failed.
    StorageInternalError,
    /// A trie node that the read needs is not there.
    TrieNodeMissing,
    /// The state is inconsistent.
    StorageInconsistentState(String),
}

/// The content of a [`StorageError`].
pub enum StorageErrorView {
    StorageInternalError,
    TrieNodeMissing,
    StorageInconsistentState(Seq<char>),
}

impl View for StorageError {
    type V = StorageErrorView;

    open spec fn view(&self) -> StorageErrorView {
        match self {
            StorageError::StorageInternalError => StorageErrorView::StorageInternalError,
            StorageError::TrieNodeMissing => StorageErrorView::TrieNodeMissing,
            StorageError::StorageInconsistentState(text) => {
                StorageErrorView::StorageInconsistentState(text@)
            },
        }
    }
}

impl Clone for StorageError {
    fn clone(&self) -> (r: Self)
        ensures
            r@ == self@,
    {
        match self {
            StorageError::StorageInternalError => StorageError::StorageInternalError,
            StorageError::TrieNodeMissing => StorageError::TrieNodeMissing,
            StorageError::StorageInconsistentState(text) => {
                StorageError::StorageInconsistentState(text.as_str().to_owned())
            },
        }
    }
}

} // verus!
