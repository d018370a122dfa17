//! The columns of the store and the kind of values that each holds.

use vstd::prelude::*;

verus! {

/// A column: a name space of its own for keys.
#[derive(Clone, Copy, Debug, PartialEq, Eq, Structural)]
pub enum DBCol {
    /// The version of the database layout.
    DbVersion,
    /// Single values about the chain: its head, its tail, the genesis record.
    BlockMisc,
    Block,
    BlockHeader,
    /// Trie nodes and values, reference counted.
    State,
    ChunkExtra,
    OutgoingReceipts,
    IncomingReceipts,
    /// Peers that are known or were known.
    Peers,
    EpochInfo,
    BlockInfo,
    Chunks,
    PartialChunks,
    BlocksToCatchup,
    StateDlInfos,
    ChallengedBlocks,
    StateHeaders,
    InvalidChunks,
    BlockExtra,
    BlockPerHeight,
    StateParts,
    EpochStart,
    AccountAnnouncements,
    NextBlockHashes,
    EpochLightClientBlocks,
    /// The shard that a receipt goes to, reference counted.
    ReceiptIdToShardId,
    PeerComponent,
    ComponentEdges,
    LastComponentNonce,
    /// Transactions by hash, reference counted.
    Transactions,
    StateChanges,
    BlockRefCount,
    TrieChanges,
    BlockMerkleTree,
    ChunkHashesByHeight,
    BlockOrdinal,
    OutcomeIds,
    ProcessedBlockHeights,
    /// Receipts by identifier, reference counted.
    Receipts,
    /// Compiled contracts.
    CachedContractCode,
    EpochValidatorInfo,
    HeaderHashesByHeight,
    StateChangesForSplitStates,
    TransactionResultForBlock,
}

/// The number of columns.
pub const COLUMN_COUNT: usize = 44;

impl DBCol {
    /// Whether the values of the column carry a reference count.
    pub open spec fn spec_is_rc(self) -> bool {
        self is State || self is Transactions || self is Receipts || self is ReceiptIdToShardId
    }

    /// Whether the values of the column carry a reference count: the last
    /// eight bytes of a stored value are the count.
    #[verifier::when_used_as_spec(spec_is_rc)]
    pub fn is_rc(self) -> (r: bool)
        ensures
            r == self.is_rc(),
    {
        match self {
            DBCol::State
            | DBCol::Transactions
            | DBCol::Receipts
            | DBCol::ReceiptIdToShardId => true,
            _ => false,
        }
    }

    /// Whether a key of the column is written at most once.
    pub open spec fn spec_is_insert_only(self) -> bool {
        match self {
            DBCol::Block
            | DBCol::BlockExtra
            | DBCol::BlockInfo
            | DBCol::ChunkExtra
            | DBCol::Chunks
            | DBCol::InvalidChunks
            | DBCol::NextBlockHashes
            | DBCol::OutcomeIds
            | DBCol::OutgoingReceipts
            | DBCol::PartialChunks
            | DBCol::StateChangesForSplitStates
            | DBCol::TransactionResultForBlock => true,
            _ => false,
        }
    }

    /// Whether a key of the column is written at most once.
    #[verifier::when_used_as_spec(spec_is_insert_only)]
    pub fn is_insert_only(self) -> (r: bool)
        ensures
            r == self.is_insert_only(),
    {
        match self {
            DBCol::Block
            | DBCol::BlockExtra
            | DBCol::BlockInfo
            | DBCol::ChunkExtra
            | DBCol::Chunks
            | DBCol::InvalidChunks
            | DBCol::NextBlockHashes
            | DBCol::OutcomeIds
            | DBCol::OutgoingReceipts
            | DBCol::PartialChunks
            | DBCol::StateChangesForSplitStates
            | DBCol::TransactionResultForBlock => true,
            _ => false,
        }
    }

    /// No column is both reference counted and insert-only.
    pub proof fn law_rc_excludes_insert_only(self)
        ensures
            !(self.is_rc() && self.is_insert_only()),
    {
    }

    /// The position of the column, which no other column has.
    pub open spec fn position(self) -> int {
        match self {
            DBCol::DbVersion => 0,
            DBCol::BlockMisc => 1,
            DBCol::Block => 2,
            DBCol::BlockHeader => 3,
            DBCol::State => 4,
            DBCol::ChunkExtra => 5,
            DBCol::OutgoingReceipts => 6,
            DBCol::IncomingReceipts => 7,
            DBCol::Peers => 8,
            DBCol::EpochInfo => 9,
            DBCol::BlockInfo => 10,
            DBCol::Chunks => 11,
            DBCol::PartialChunks => 12,
            DBCol::BlocksToCatchup => 13,
            DBCol::StateDlInfos => 14,
            DBCol::ChallengedBlocks => 15,
            DBCol::StateHeaders => 16,
            DBCol::InvalidChunks => 17,
            DBCol::BlockExtra => 18,
            DBCol::BlockPerHeight => 19,
            DBCol::StateParts => 20,
            DBCol::EpochStart => 21,
            DBCol::AccountAnnouncements => 22,
            DBCol::NextBlockHashes => 23,
            DBCol::EpochLightClientBlocks => 24,
            DBCol::ReceiptIdToShardId => 25,
            DBCol::PeerComponent => 26,
            DBCol::ComponentEdges => 27,
            DBCol::LastComponentNonce => 28,
            DBCol::Transactions => 29,
            DBCol::StateChanges => 30,
            DBCol::BlockRefCount => 31,
            DBCol::TrieChanges => 32,
            DBCol::BlockMerkleTree => 33,
            DBCol::ChunkHashesByHeight => 34,
            DBCol::BlockOrdinal => 35,
            DBCol::OutcomeIds => 36,
            DBCol::ProcessedBlockHeights => 37,
            DBCol::Receipts => 38,
            DBCol::CachedContractCode => 39,
            DBCol::EpochValidatorInfo => 40,
            DBCol::HeaderHashesByHeight => 41,
            DBCol::StateChangesForSplitStates => 42,
            DBCol::TransactionResultForBlock => 43,
        }
    }

    /// The column at a position.
    pub open spec fn at_position(i: int) -> DBCol {
        if i == 0 {
            DBCol::DbVersion
        } else if i == 1 {
            DBCol::BlockMisc
        } else if i == 2 {
            DBCol::Block
        } else if i == 3 {
            DBCol::BlockHeader
        } else if i == 4 {
            DBCol::State
        } else if i == 5 {
            DBCol::ChunkExtra
        } else if i == 6 {
            DBCol::OutgoingReceipts
        } else if i == 7 {
            DBCol::IncomingReceipts
        } else if i == 8 {
            DBCol::Peers
        } else if i == 9 {
            DBCol::EpochInfo
        } else if i == 10 {
            DBCol::BlockInfo
        } else if i == 11 {
            DBCol::Chunks
        } else if i == 12 {
            DBCol::PartialChunks
        } else if i == 13 {
            DBCol::BlocksToCatchup
        } else if i == 14 {
            DBCol::StateDlInfos
        } else if i == 15 {
            DBCol::ChallengedBlocks
        } else if i == 16 {
            DBCol::StateHeaders
        } else if i == 17 {
            DBCol::InvalidChunks
        } else if i == 18 {
            DBCol::BlockExtra
        } else if i == 19 {
            DBCol::BlockPerHeight
        } else if i == 20 {
            DBCol::StateParts
        } else if i == 21 {
            DBCol::EpochStart
        } else if i == 22 {
            DBCol::AccountAnnouncements
        } else if i == 23 {
            DBCol::NextBlockHashes
        } else if i == 24 {
            DBCol::EpochLightClientBlocks
        } else if i == 25 {
            DBCol::ReceiptIdToShardId
        } else if i == 26 {
            DBCol::PeerComponent
        } else if i == 27 {
            DBCol::ComponentEdges
        } else if i == 28 {
            DBCol::LastComponentNonce
        } else if i == 29 {
            DBCol::Transactions
        } else if i == 30 {
            DBCol::StateChanges
        } else if i == 31 {
            DBCol::BlockRefCount
        } else if i == 32 {
            DBCol::TrieChanges
        } else if i == 33 {
            DBCol::BlockMerkleTree
        } else if i == 34 {
            DBCol::ChunkHashesByHeight
        } else if i == 35 {
            DBCol::BlockOrdinal
        } else if i == 36 {
            DBCol::OutcomeIds
        } else if i == 37 {
            DBCol::ProcessedBlockHeights
        } else if i == 38 {
            DBCol::Receipts
        } else if i == 39 {
            DBCol::CachedContractCode
        } else if i == 40 {
            DBCol::EpochValidatorInfo
        } else if i == 41 {
            DBCol::HeaderHashesByHeight
        } else if i == 42 {
            DBCol::StateChangesForSplitStates
        } else {
            DBCol::TransactionResultForBlock
        }
    }

    pub proof fn lemma_position(self)
        ensures
            0 <= self.position() < COLUMN_COUNT,
            DBCol::at_position(self.position()) == self,
    {
    }

    pub fn index(self) -> (i: usize)
        ensures
            i == self.position(),
            i < COLUMN_COUNT,
    {
        match self {
            DBCol::DbVersion => 0,
            DBCol::BlockMisc => 1,
            DBCol::Block => 2,
            DBCol::BlockHeader => 3,
            DBCol::State => 4,
            DBCol::ChunkExtra => 5,
            DBCol::OutgoingReceipts => 6,
            DBCol::IncomingReceipts => 7,
            DBCol::Peers => 8,
            DBCol::EpochInfo => 9,
            DBCol::BlockInfo => 10,
            DBCol::Chunks => 11,
            DBCol::PartialChunks => 12,
            DBCol::BlocksToCatchup => 13,
            DBCol::StateDlInfos => 14,
            DBCol::ChallengedBlocks => 15,
            DBCol::StateHeaders => 16,
            DBCol::InvalidChunks => 17,
            DBCol::BlockExtra => 18,
            DBCol::BlockPerHeight => 19,
            DBCol::StateParts => 20,
            DBCol::EpochStart => 21,
            DBCol::AccountAnnouncements => 22,
            DBCol::NextBlockHashes => 23,
            DBCol::EpochLightClientBlocks => 24,
            DBCol::ReceiptIdToShardId => 25,
            DBCol::PeerComponent => 26,
            DBCol::ComponentEdges => 27,
            DBCol::LastComponentNonce => 28,
            DBCol::Transactions => 29,
            DBCol::StateChanges => 30,
            DBCol::BlockRefCount => 31,
            DBCol::TrieChanges => 32,
            DBCol::BlockMerkleTree => 33,
            DBCol::ChunkHashesByHeight => 34,
            DBCol::BlockOrdinal => 35,
            DBCol::OutcomeIds => 36,
            DBCol::ProcessedBlockHeights => 37,
            DBCol::Receipts => 38,
            DBCol::CachedContractCode => 39,
            DBCol::EpochValidatorInfo => 40,
            DBCol::HeaderHashesByHeight => 41,
            DBCol::StateChangesForSplitStates => 42,
            DBCol::TransactionResultForBlock => 43,
        }
    }

    /// The name of the column.
    pub open spec fn spec_name(self) -> &'static str {
        match self {
            DBCol::DbVersion => "DbVersion",
            DBCol::BlockMisc => "BlockMisc",
            DBCol::Block => "Block",
            DBCol::BlockHeader => "BlockHeader",
            DBCol::State => "State",
            DBCol::ChunkExtra => "ChunkExtra",
            DBCol::OutgoingReceipts => "OutgoingReceipts",
            DBCol::IncomingReceipts => "IncomingReceipts",
            DBCol::Peers => "Peers",
            DBCol::EpochInfo => "EpochInfo",
            DBCol::BlockInfo => "BlockInfo",
            DBCol::Chunks => "Chunks",
            DBCol::PartialChunks => "PartialChunks",
            DBCol::BlocksToCatchup => "BlocksToCatchup",
            DBCol::StateDlInfos => "StateDlInfos",
            DBCol::ChallengedBlocks => "ChallengedBlocks",
            DBCol::StateHeaders => "StateHeaders",
            DBCol::InvalidChunks => "InvalidChunks",
            DBCol::BlockExtra => "BlockExtra",
            DBCol::BlockPerHeight => "BlockPerHeight",
            DBCol::StateParts => "StateParts",
            DBCol::EpochStart => "EpochStart",
            DBCol::AccountAnnouncements => "AccountAnnouncements",
            DBCol::NextBlockHashes => "NextBlockHashes",
            DBCol::EpochLightClientBlocks => "EpochLightClientBlocks",
            DBCol::ReceiptIdToShardId => "ReceiptIdToShardId",
            DBCol::PeerComponent => "PeerComponent",
            DBCol::ComponentEdges => "ComponentEdges",
            DBCol::LastComponentNonce => "LastComponentNonce",
            DBCol::Transactions => "Transactions",
            DBCol::StateChanges => "StateChanges",
            DBCol::BlockRefCount => "BlockRefCount",
            DBCol::TrieChanges => "TrieChanges",
            DBCol::BlockMerkleTree => "BlockMerkleTree",
            DBCol::ChunkHashesByHeight => "ChunkHashesByHeight",
            DBCol::BlockOrdinal => "BlockOrdinal",
            DBCol::OutcomeIds => "OutcomeIds",
            DBCol::ProcessedBlockHeights => "ProcessedBlockHeights",
            DBCol::Receipts => "Receipts",
            DBCol::CachedContractCode => "CachedContractCode",
            DBCol::EpochValidatorInfo => "EpochValidatorInfo",
            DBCol::HeaderHashesByHeight => "HeaderHashesByHeight",
            DBCol::StateChangesForSplitStates => "StateChangesForSplitStates",
            DBCol::TransactionResultForBlock => "TransactionResultForBlock",
        }
    }

    /// The name of the column.
    #[verifier::when_used_as_spec(spec_name)]
    pub fn name(self) -> (s: &'static str)
        ensures
            s == self.name(),
    {
        match self {
            DBCol::DbVersion => "DbVersion",
            DBCol::BlockMisc => "BlockMisc",
            DBCol::Block => "Block",
            DBCol::BlockHeader => "BlockHeader",
            DBCol::State => "State",
            DBCol::ChunkExtra => "ChunkExtra",
            DBCol::OutgoingReceipts => "OutgoingReceipts",
            DBCol::IncomingReceipts => "IncomingReceipts",
            DBCol::Peers => "Peers",
            DBCol::EpochInfo => "EpochInfo",
            DBCol::BlockInfo => "BlockInfo",
            DBCol::Chunks => "Chunks",
            DBCol::PartialChunks => "PartialChunks",
            DBCol::BlocksToCatchup => "BlocksToCatchup",
            DBCol::StateDlInfos => "StateDlInfos",
            DBCol::ChallengedBlocks => "ChallengedBlocks",
            DBCol::StateHeaders => "StateHeaders",
            DBCol::InvalidChunks => "InvalidChunks",
            DBCol::BlockExtra => "BlockExtra",
            DBCol::BlockPerHeight => "BlockPerHeight",
            DBCol::StateParts => "StateParts",
            DBCol::EpochStart => "EpochStart",
            DBCol::AccountAnnouncements => "AccountAnnouncements",
            DBCol::NextBlockHashes => "NextBlockHashes",
            DBCol::EpochLightClientBlocks => "EpochLightClientBlocks",
            DBCol::ReceiptIdToShardId => "ReceiptIdToShardId",
            DBCol::PeerComponent => "PeerComponent",
            DBCol::ComponentEdges => "ComponentEdges",
            DBCol::LastComponentNonce => "LastComponentNonce",
            DBCol::Transactions => "Transactions",
            DBCol::StateChanges => "StateChanges",
            DBCol::BlockRefCount => "BlockRefCount",
            DBCol::TrieChanges => "TrieChanges",
            DBCol::BlockMerkleTree => "BlockMerkleTree",
            DBCol::ChunkHashesByHeight => "ChunkHashesByHeight",
            DBCol::BlockOrdinal => "BlockOrdinal",
            DBCol::OutcomeIds => "OutcomeIds",
            DBCol::ProcessedBlockHeights => "ProcessedBlockHeights",
            DBCol::Receipts => "Receipts",
            DBCol::CachedContractCode => "CachedContractCode",
            DBCol::EpochValidatorInfo => "EpochValidatorInfo",
            DBCol::HeaderHashesByHeight => "HeaderHashesByHeight",
            DBCol::StateChangesForSplitStates => "StateChangesForSplitStates",
            DBCol::TransactionResultForBlock => "TransactionResultForBlock",
        }
    }
}

} // verus!
