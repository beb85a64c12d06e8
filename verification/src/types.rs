//! Typed request and response shapes: transaction descriptors, reorg
//! options, multi-call bundles and contexts, storage pages and the
//! proof-of-work descriptor.

use vstd::prelude::*;
use crate::word::W256;
use crate::word::word_val;

verus! {

/// The result of a mining-work request: the proof-of-work parameters for
/// the next block, with the block number when one is associated.
#[derive(Clone, Copy, Debug, PartialEq, Eq, Structural)]
pub struct Work {
    pub pow_hash: W256,
    pub seed_hash: W256,
    pub target: W256,
    pub number: Option<u64>,
}

impl Default for Work {
    /// The all-zero descriptor with no associated number.
    fn default() -> (r: Self)
        ensures
            word_val(r.pow_hash) == 0,
            word_val(r.seed_hash) == 0,
            word_val(r.target) == 0,
            r.number is None,
    {
        Work {
            pow_hash: W256::zero(),
            seed_hash: W256::zero(),
            target: W256::zero(),
            number: None,
        }
    }
}

/// A structured call/transaction request. Every field but the input data is
/// optional; missing fields are completed from current state when the
/// request is turned into a transaction.
#[derive(Clone, Debug, PartialEq, Eq)]
pub struct TransactionRequest {
    /// Sender address; the node-controlled signer when absent.
    pub from: Option<W256>,
    /// Recipient address; a creation when absent.
    pub to: Option<W256>,
    /// Value carried by the transaction.
    pub value: Option<W256>,
    /// Sender nonce; the sender account's current nonce when absent.
    pub nonce: Option<u64>,
    /// Gas limit; a node default when absent.
    pub gas: Option<u64>,
    /// Call input data.
    pub input: Vec<u8>,
}

impl TransactionRequest {
    /// A request with every optional field absent and empty input.
    pub fn new() -> (r: Self)
        ensures
            r.from is None,
            r.to is None,
            r.value is None,
            r.nonce is None,
            r.gas is None,
            r.input@ =~= Seq::<u8>::empty(),
    {
        TransactionRequest {
            from: None,
            to: None,
            value: None,
            nonce: None,
            gas: None,
            input: Vec::new(),
        }
    }
}

/// A typed core plus the residual of unrecognized wire fields, kept as
/// name/raw-value pairs and passed through untouched.
#[derive(Clone, Debug, PartialEq, Eq)]
pub struct WithOtherFields<T> {
    pub inner: T,
    pub other: Vec<(String, String)>,
}

/// One transaction to be included: either a structured request or an
/// opaque pre-encoded byte sequence of an already-signed transaction.
#[derive(Clone, Debug, PartialEq, Eq)]
pub enum TransactionData {
    JSON(TransactionRequest),
    Raw(Vec<u8>),
}

/// The options of a reorg request: how many tip blocks to discard and
/// rebuild, and which transactions to mine into which of the new blocks.
#[derive(Clone, Debug, PartialEq, Eq)]
pub struct ReorgOptions {
    /// The depth of the reorg.
    pub depth: u64,
    /// Transaction descriptors paired with the new-block offset, in
    /// `[0, depth)`, that each should be mined into.
    pub tx_block_pairs: Vec<(TransactionData, u64)>,
}

/// Environment overrides applied only for the duration of a simulation.
#[derive(Clone, Debug, PartialEq, Eq)]
pub struct BlockOverrides {
    pub number: Option<u64>,
    pub time: Option<u64>,
    pub coinbase: Option<W256>,
    pub base_fee: Option<W256>,
}

/// An ordered batch of calls simulated together, with optional
/// environment overrides.
#[derive(Clone, Debug, PartialEq, Eq)]
pub struct TraceCallManyBundle {
    pub transactions: Vec<WithOtherFields<TransactionRequest>>,
    pub block_override: Option<BlockOverrides>,
}

/// A block identifier: by number, by hash, or by symbolic tag.
#[derive(Clone, Copy, Debug, PartialEq, Eq, Structural)]
pub enum BlockId {
    Number(u64),
    Hash(W256),
    Latest,
    Pending,
}

/// The execution context of a simulation: the base block and the
/// transaction-index cursor within it at which the bundle starts.
#[derive(Clone, Copy, Debug, PartialEq, Eq, Structural)]
pub struct TraceCallManyContext {
    pub block_number: Option<BlockId>,
    pub transaction_index: u64,
}

impl Default for TraceCallManyContext {
    /// No base block named (the tip is used) and cursor zero.
    fn default() -> (r: Self)
        ensures
            r.block_number is None,
            r.transaction_index == 0,
    {
        TraceCallManyContext { block_number: None, transaction_index: 0 }
    }
}

/// One storage slot: a 32-byte key mapped to a 32-byte value.
#[derive(Clone, Copy, Debug, PartialEq, Eq, Structural)]
pub struct StorageEntry {
    pub key: W256,
    pub value: W256,
}

/// One page of a storage walk: the entries of the page in ascending key
/// order, and the first key not included when more remain.
#[derive(Clone, Debug, PartialEq, Eq)]
pub struct StorageRangeAtResult {
    pub storage: Vec<StorageEntry>,
    pub next_key: Option<W256>,
}

/// The trace of one simulated call.
#[derive(Clone, Copy, Debug, PartialEq, Eq, Structural)]
pub struct CallTrace {
    /// Whether the call reverted. A revert is data, not an error.
    pub reverted: bool,
    /// The word the call read, for a read call.
    pub output: Option<W256>,
}

} // verus!
