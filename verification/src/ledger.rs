//! The state ledger: an ordered, append-only (until rolled back) sequence
//! of blocks, each owning the account state snapshot its transactions
//! produced. Blocks are addressable by number, hash, or symbolic tag.

use vstd::prelude::*;
use crate::Error;
use crate::word::{W256, word_val, word_from_u64, lemma_word_val_injective};
use crate::types::{TransactionData, BlockId};
use crate::state::{AccountV, Snapshot, snap_wf, copy_snapshot};
use crate::exec::{TxDataV, tx_decodes, step_accounts, step_trace, execute_tx, copy_tx_data};

verus! {

/// One transaction included in a block: the descriptor it came from and
/// whether its execution reverted. A revert does not keep a transaction
/// out of its block.
#[derive(Debug)]
pub struct IncludedTx {
    pub descriptor: TransactionData,
    pub reverted: bool,
}

/// The mathematical value of an included transaction.
pub ghost struct ITxV {
    pub descriptor: TxDataV,
    pub reverted: bool,
}

impl View for IncludedTx {
    type V = ITxV;

    open spec fn view(&self) -> ITxV {
        ITxV { descriptor: self.descriptor@, reverted: self.reverted }
    }
}

/// One block of the ledger.
#[derive(Debug)]
pub struct Block {
    pub number: u64,
    pub hash: W256,
    pub parent_hash: W256,
    pub transactions: Vec<IncludedTx>,
    pub state: Snapshot,
    pub timestamp: u64,
    pub target: W256,
}

/// The mathematical value of a block.
pub ghost struct BlockV {
    pub number: u64,
    pub hash: W256,
    pub parent_hash: W256,
    pub transactions: Seq<ITxV>,
    pub state: Seq<(W256, AccountV)>,
    pub timestamp: u64,
    pub target: W256,
}

impl View for Block {
    type V = BlockV;

    open spec fn view(&self) -> BlockV {
        BlockV {
            number: self.number,
            hash: self.hash,
            parent_hash: self.parent_hash,
            transactions: self.transactions@.map_values(|t: IncludedTx| t@),
            state: self.state@,
            timestamp: self.timestamp,
            target: self.target,
        }
    }
}

/// The ledger: its blocks and the counter fresh block hashes are drawn
/// from.
#[derive(Debug)]
pub struct Ledger {
    pub blocks: Vec<Block>,
    pub next_hash: u64,
}

/// The mathematical value of the ledger.
pub ghost struct LedgerV {
    pub blocks: Seq<BlockV>,
    pub next_hash: u64,
}

impl View for Ledger {
    type V = LedgerV;

    open spec fn view(&self) -> LedgerV {
        LedgerV {
            blocks: self.blocks@.map_values(|b: Block| b@),
            next_hash: self.next_hash,
        }
    }
}

/// The ledger's invariant: block numbers are the positions, parent hashes
/// chain, hashes are distinct and below the hash counter, and every
/// snapshot is well formed.
pub open spec fn ledger_wf(l: LedgerV) -> bool {
    &&& forall|i: int| 0 <= i < l.blocks.len() ==> (#[trigger] l.blocks[i]).number == i
    &&& forall|i: int| 1 <= i < l.blocks.len()
        ==> (#[trigger] l.blocks[i]).parent_hash == l.blocks[i - 1].hash
    &&& forall|i: int| 0 <= i < l.blocks.len()
        ==> word_val((#[trigger] l.blocks[i]).hash) < l.next_hash
    &&& forall|i: int, j: int| 0 <= i < j < l.blocks.len()
        ==> (#[trigger] l.blocks[i]).hash != (#[trigger] l.blocks[j]).hash
    &&& forall|i: int| 0 <= i < l.blocks.len() ==> snap_wf((#[trigger] l.blocks[i]).state)
}

/// The descriptors of a transaction sequence.
pub open spec fn descs_of(txs: Seq<ITxV>) -> Seq<TxDataV> {
    txs.map_values(|t: ITxV| t.descriptor)
}

/// The view of an executable descriptor sequence.
pub open spec fn txs_v(v: Seq<TransactionData>) -> Seq<TxDataV> {
    v.map_values(|t: TransactionData| t@)
}

/// The state a descriptor sequence leaves behind, applied in order.
pub open spec fn apply_txs(s: Seq<(W256, AccountV)>, ds: Seq<TxDataV>) -> Seq<(W256, AccountV)>
    decreases ds.len(),
{
    if ds.len() == 0 {
        s
    } else {
        apply_txs(step_accounts(s, ds[0]), ds.subrange(1, ds.len() as int))
    }
}

/// The included transactions a descriptor sequence mines: each descriptor
/// with the revert flag its execution produced, in order.
pub open spec fn mined_txs(s: Seq<(W256, AccountV)>, ds: Seq<TxDataV>) -> Seq<ITxV>
    decreases ds.len(),
{
    if ds.len() == 0 {
        Seq::empty()
    } else {
        seq![ITxV { descriptor: ds[0], reverted: step_trace(s, ds[0]).reverted }]
            + mined_txs(step_accounts(s, ds[0]), ds.subrange(1, ds.len() as int))
    }
}

/// Appending one descriptor applies it after the rest.
pub proof fn lemma_apply_txs_push(s: Seq<(W256, AccountV)>, ds: Seq<TxDataV>, d: TxDataV)
    ensures
        apply_txs(s, ds.push(d)) == step_accounts(apply_txs(s, ds), d),
        mined_txs(s, ds.push(d)) == mined_txs(s, ds).push(
            ITxV { descriptor: d, reverted: step_trace(apply_txs(s, ds), d).reverted }),
    decreases ds.len(),
{
    let e = ds.push(d);
    if ds.len() == 0 {
        assert(e[0] == d);
        assert(e.subrange(1, e.len() as int) =~= Seq::<TxDataV>::empty());
        assert(apply_txs(s, ds) == s);
        assert(mined_txs(s, ds) =~= Seq::<ITxV>::empty());
        assert(apply_txs(step_accounts(s, d), e.subrange(1, e.len() as int))
            == step_accounts(s, d));
        assert(mined_txs(step_accounts(s, d), e.subrange(1, e.len() as int))
            =~= Seq::<ITxV>::empty());
        assert(mined_txs(s, e) =~= mined_txs(s, ds).push(
            ITxV { descriptor: d, reverted: step_trace(apply_txs(s, ds), d).reverted }));
    } else {
        assert(e[0] == ds[0]);
        assert(e.subrange(1, e.len() as int) =~= ds.subrange(1, ds.len() as int).push(d));
        lemma_apply_txs_push(step_accounts(s, ds[0]), ds.subrange(1, ds.len() as int), d);
        assert(mined_txs(s, e) =~= mined_txs(s, ds).push(
            ITxV { descriptor: d, reverted: step_trace(apply_txs(s, ds), d).reverted }));
    }
}

/// The state new blocks build on: the tip's snapshot, or the empty state
/// when no block is retained.
pub open spec fn base_state(l: LedgerV) -> Seq<(W256, AccountV)> {
    if l.blocks.len() == 0 {
        Seq::empty()
    } else {
        l.blocks.last().state
    }
}

/// The block that mining the given descriptors on the ledger produces.
pub open spec fn built_block(l: LedgerV, ds: Seq<TxDataV>) -> BlockV {
    BlockV {
        number: l.blocks.len() as u64,
        hash: word_from_u64(l.next_hash),
        parent_hash: if l.blocks.len() == 0 { W256 { hi: 0, lo: 0 } } else { l.blocks.last().hash },
        transactions: mined_txs(base_state(l), ds),
        state: apply_txs(base_state(l), ds),
        timestamp: if l.blocks.len() == 0 { 0 } else { l.blocks.last().timestamp },
        target: if l.blocks.len() == 0 { W256 { hi: 0, lo: 0 } } else { l.blocks.last().target },
    }
}

/// The index of the first block with the given hash, or -1.
pub open spec fn hash_index(blocks: Seq<BlockV>, h: W256) -> int
    decreases blocks.len(),
{
    if blocks.len() == 0 {
        -1
    } else if blocks[0].hash == h {
        0
    } else {
        let rest = hash_index(blocks.subrange(1, blocks.len() as int), h);
        if rest == -1 {
            -1
        } else {
            rest + 1
        }
    }
}

/// The block a block identifier names: a number when retained, the first
/// block bearing a hash, the tip for the symbolic tags.
pub open spec fn resolve_spec(l: LedgerV, id: BlockId) -> Option<int> {
    match id {
        BlockId::Number(n) => if n < l.blocks.len() {
            Some(n as int)
        } else {
            None
        },
        BlockId::Hash(h) => {
            let i = hash_index(l.blocks, h);
            if i == -1 {
                None
            } else {
                Some(i)
            }
        },
        BlockId::Latest | BlockId::Pending => if l.blocks.len() == 0 {
            None
        } else {
            Some(l.blocks.len() - 1)
        },
    }
}

impl Ledger {
    /// The ledger's invariant.
    pub open spec fn wf(&self) -> bool {
        ledger_wf(self@)
    }

    /// A fresh ledger: a genesis block with no transactions and the empty
    /// state.
    pub fn new() -> (l: Ledger)
        ensures
            l.wf(),
            l@.blocks.len() == 1,
            l@.blocks[0].number == 0,
            l@.blocks[0].transactions =~= Seq::<ITxV>::empty(),
            l@.blocks[0].state =~= Seq::<(W256, AccountV)>::empty(),
            l@.next_hash == 1,
    {
        let genesis = Block {
            number: 0,
            hash: W256::zero(),
            parent_hash: W256::zero(),
            transactions: Vec::new(),
            state: Snapshot::empty(),
            timestamp: 0,
            target: W256::zero(),
        };
        let mut blocks: Vec<Block> = Vec::new();
        blocks.push(genesis);
        let l = Ledger { blocks, next_hash: 1 };
        proof {
            assert(l@.blocks[0].transactions =~= Seq::<ITxV>::empty());
        }
        l
    }

    /// The highest-numbered retained block.
    pub fn tip(&self) -> (b: &Block)
        requires
            self@.blocks.len() >= 1,
        ensures
            b@ == self@.blocks.last(),
    {
        &self.blocks[self.blocks.len() - 1]
    }

    /// Resolves a block identifier, failing with `NotFound` exactly when
    /// no retained block bears it.
    pub fn resolve(&self, id: &BlockId) -> (r: Result<usize, Error>)
        ensures
            match resolve_spec(self@, *id) {
                Some(i) => r == Result::<usize, Error>::Ok(i as usize)
                    && 0 <= i < self@.blocks.len(),
                None => r == Result::<usize, Error>::Err(Error::NotFound),
            },
    {
        match id {
            BlockId::Number(n) => {
                if *n < self.blocks.len() as u64 {
                    Ok(*n as usize)
                } else {
                    Err(Error::NotFound)
                }
            },
            BlockId::Hash(h) => {
                let mut i: usize = 0;
                while i < self.blocks.len()
                    invariant
                        0 <= i <= self.blocks.len(),
                        *id == BlockId::Hash(*h),
                        forall|j: int| 0 <= j < i ==> (#[trigger] self@.blocks[j]).hash != *h,
                    decreases self.blocks.len() - i,
                {
                    if self.blocks[i].hash == *h {
                        proof {
                            lemma_hash_index_is(self@.blocks, *h, i as int);
                        }
                        return Ok(i);
                    }
                    i = i + 1;
                }
                proof {
                    lemma_hash_index_none(self@.blocks, *h);
                }
                Err(Error::NotFound)
            },
            BlockId::Latest | BlockId::Pending => {
                if self.blocks.len() == 0 {
                    Err(Error::NotFound)
                } else {
                    Ok(self.blocks.len() - 1)
                }
            },
        }
    }

    /// Discards every block with a number above `to_number`, and with it
    /// every snapshot those blocks owned.
    pub fn truncate(&mut self, to_number: u64)
        requires
            old(self).wf(),
            to_number < old(self)@.blocks.len(),
        ensures
            final(self).wf(),
            final(self)@.blocks == old(self)@.blocks.subrange(0, to_number + 1),
            final(self)@.next_hash == old(self)@.next_hash,
    {
        let n = self.blocks.len();
        self.truncate_to_len((to_number as usize) + 1);
    }

    /// Keeps only the first `new_len` blocks.
    pub(crate) fn truncate_to_len(&mut self, new_len: usize)
        requires
            old(self).wf(),
            new_len <= old(self)@.blocks.len(),
        ensures
            final(self).wf(),
            final(self)@.blocks == old(self)@.blocks.subrange(0, new_len as int),
            final(self)@.next_hash == old(self)@.next_hash,
    {
        self.blocks.truncate(new_len);
        proof {
            assert(self@.blocks =~= old(self)@.blocks.subrange(0, new_len as int));
        }
    }

    /// Mines one block holding the given descriptors onto the tip.
    pub(crate) fn append_block(&mut self, txs: &Vec<TransactionData>)
        requires
            old(self).wf(),
            forall|i: int| 0 <= i < txs@.len() ==> tx_decodes((#[trigger] txs@[i])@),
            old(self)@.next_hash < u64::MAX,
        ensures
            final(self).wf(),
            final(self)@.blocks == old(self)@.blocks.push(built_block(old(self)@, txs_v(txs@))),
            final(self)@.next_hash == old(self)@.next_hash + 1,
    {
        let ghost l0 = self@;
        let ghost ds = txs_v(txs@);
        let n = self.blocks.len();
        let (parent_hash, timestamp, target, mut snap): (W256, u64, W256, Snapshot) =
            if n == 0 {
                (W256::zero(), 0, W256::zero(), Snapshot::empty())
            } else {
                let last = &self.blocks[n - 1];
                (last.hash, last.timestamp, last.target, copy_snapshot(&last.state))
            };
        proof {
            assert(snap@ == base_state(l0));
        }
        let ghost ps = snap@;
        let mut included: Vec<IncludedTx> = Vec::new();
        let mut i: usize = 0;
        while i < txs.len()
            invariant
                0 <= i <= txs@.len(),
                ds == txs_v(txs@),
                ps == base_state(l0),
                snap_wf(ps),
                snap@ == apply_txs(ps, ds.take(i as int)),
                snap_wf(snap@),
                included@.map_values(|t: IncludedTx| t@) == mined_txs(ps, ds.take(i as int)),
            decreases txs@.len() - i,
        {
            let tr = execute_tx(&mut snap, &txs[i]);
            included.push(IncludedTx { descriptor: copy_tx_data(&txs[i]), reverted: tr.reverted });
            proof {
                assert(ds.take(i as int + 1) =~= ds.take(i as int).push(txs@[i as int]@));
                lemma_apply_txs_push(ps, ds.take(i as int), txs@[i as int]@);
                assert(included@.map_values(|t: IncludedTx| t@)
                    =~= mined_txs(ps, ds.take(i as int + 1)));
            }
            i = i + 1;
        }
        proof {
            assert(ds.take(txs@.len() as int) =~= ds);
        }
        let b = Block {
            number: n as u64,
            hash: W256::from_u64(self.next_hash),
            parent_hash,
            transactions: included,
            state: snap,
            timestamp,
            target,
        };
        proof {
            assert(b@ == built_block(l0, ds));
        }
        self.blocks.push(b);
        self.next_hash = self.next_hash + 1;
        proof {
            assert(self@.blocks =~= l0.blocks.push(built_block(l0, ds)));
            let nb = built_block(l0, ds);
            assert forall|a: int| 0 <= a < self@.blocks.len()
                implies word_val((#[trigger] self@.blocks[a]).hash) < self@.next_hash by {
                if a < l0.blocks.len() {
                    assert(self@.blocks[a] == l0.blocks[a]);
                }
            }
            assert forall|a: int, c: int| 0 <= a < c < self@.blocks.len()
                implies (#[trigger] self@.blocks[a]).hash != (#[trigger] self@.blocks[c]).hash by {
                if c < l0.blocks.len() {
                    assert(self@.blocks[a] == l0.blocks[a]);
                    assert(self@.blocks[c] == l0.blocks[c]);
                } else {
                    assert(self@.blocks[a] == l0.blocks[a]);
                    assert(self@.blocks[c] == nb);
                    assert(word_val(l0.blocks[a].hash) < l0.next_hash);
                    assert(word_val(nb.hash) == l0.next_hash);
                }
            }
        }
    }

    /// Mines one block of the given descriptors onto the tip, validating
    /// them first: a raw descriptor that does not decode fails with
    /// `DecodeError`, an exhausted hash counter with `ExecutionError`,
    /// and either failure leaves the ledger untouched.
    pub fn mine_block(&mut self, txs: &Vec<TransactionData>) -> (r: Result<(), Error>)
        requires
            old(self).wf(),
        ensures
            final(self).wf(),
            (exists|i: int| 0 <= i < txs@.len() && !tx_decodes((#[trigger] txs@[i])@))
                ==> r == Result::<(), Error>::Err(Error::DecodeError)
                    && final(self)@ == old(self)@,
            (forall|i: int| 0 <= i < txs@.len() ==> tx_decodes((#[trigger] txs@[i])@))
                && old(self)@.next_hash == u64::MAX
                ==> r == Result::<(), Error>::Err(Error::ExecutionError)
                    && final(self)@ == old(self)@,
            (forall|i: int| 0 <= i < txs@.len() ==> tx_decodes((#[trigger] txs@[i])@))
                && old(self)@.next_hash < u64::MAX
                ==> r == Result::<(), Error>::Ok(())
                    && final(self)@.blocks == old(self)@.blocks.push(
                        built_block(old(self)@, txs_v(txs@)))
                    && final(self)@.next_hash == old(self)@.next_hash + 1,
    {
        let mut i: usize = 0;
        while i < txs.len()
            invariant
                0 <= i <= txs@.len(),
                self@ == old(self)@,
                old(self).wf(),
                forall|j: int| 0 <= j < i ==> tx_decodes((#[trigger] txs@[j])@),
            decreases txs@.len() - i,
        {
            let ok = match &txs[i] {
                TransactionData::JSON(_) => true,
                TransactionData::Raw(b) => b.len() > 0,
            };
            if !ok {
                return Err(Error::DecodeError);
            }
            i = i + 1;
        }
        if self.next_hash == u64::MAX {
            return Err(Error::ExecutionError);
        }
        self.append_block(txs);
        Ok(())
    }
}

/// The first hash match determined from the outside.
proof fn lemma_hash_index_is(blocks: Seq<BlockV>, h: W256, i: int)
    requires
        0 <= i < blocks.len(),
        blocks[i].hash == h,
        forall|j: int| 0 <= j < i ==> (#[trigger] blocks[j]).hash != h,
    ensures
        hash_index(blocks, h) == i,
    decreases blocks.len(),
{
    if i > 0 {
        let t = blocks.subrange(1, blocks.len() as int);
        assert(forall|j: int| 1 <= j < blocks.len() ==> (#[trigger] blocks[j]) == t[j - 1]);
        assert forall|j: int| 0 <= j < i - 1 implies (#[trigger] t[j]).hash != h by {
            assert(t[j] == blocks[j + 1]);
        }
        lemma_hash_index_is(t, h, i - 1);
    }
}

/// No hash match anywhere means -1.
proof fn lemma_hash_index_none(blocks: Seq<BlockV>, h: W256)
    requires
        forall|j: int| 0 <= j < blocks.len() ==> (#[trigger] blocks[j]).hash != h,
    ensures
        hash_index(blocks, h) == -1,
    decreases blocks.len(),
{
    if blocks.len() > 0 {
        let t = blocks.subrange(1, blocks.len() as int);
        assert forall|j: int| 0 <= j < t.len() implies (#[trigger] t[j]).hash != h by {
            assert(t[j] == blocks[j + 1]);
        }
        lemma_hash_index_none(t, h);
    }
}

} // verus!
