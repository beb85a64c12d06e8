//! The reorg engine: atomically discards the newest `depth` blocks and
//! rebuilds `depth` replacements, mining caller-supplied transactions into
//! the new blocks at the offsets the caller chose. Validation happens
//! before any mutation; a failed reorg leaves the ledger untouched.

use vstd::prelude::*;
use crate::Error;
use crate::word::{W256, word_val};
use crate::types::{TransactionData, ReorgOptions};
use crate::exec::{TxDataV, tx_decodes, copy_tx_data, step_trace};
use crate::ledger::{Ledger, LedgerV, ITxV, ledger_wf, txs_v, descs_of, mined_txs, apply_txs,
    built_block, base_state};

verus! {

/// The mathematical value of a reorg request.
pub ghost struct ReorgV {
    pub depth: u64,
    pub pairs: Seq<(TxDataV, u64)>,
}

impl View for ReorgOptions {
    type V = ReorgV;

    open spec fn view(&self) -> ReorgV {
        ReorgV {
            depth: self.depth,
            pairs: self.tx_block_pairs@.map_values(|p: (TransactionData, u64)| (p.0@, p.1)),
        }
    }
}

/// The depth lies in `[1, tip number + 1]`.
pub open spec fn depth_ok(l: LedgerV, o: ReorgV) -> bool {
    1 <= o.depth && o.depth <= l.blocks.last().number + 1
}

/// Every target offset lies in `[0, depth)`.
pub open spec fn offsets_ok(o: ReorgV) -> bool {
    forall|i: int| 0 <= i < o.pairs.len() ==> (#[trigger] o.pairs[i]).1 < o.depth
}

/// Every descriptor decodes.
pub open spec fn decodes_ok(o: ReorgV) -> bool {
    forall|i: int| 0 <= i < o.pairs.len() ==> tx_decodes((#[trigger] o.pairs[i]).0)
}

/// Enough hash-counter headroom remains for `depth` fresh blocks.
pub open spec fn headroom_ok(l: LedgerV, o: ReorgV) -> bool {
    l.next_hash + o.depth <= u64::MAX
}

/// The descriptors of the entries targeting offset `o`, in their given
/// order.
pub open spec fn descs_at(pairs: Seq<(TxDataV, u64)>, o: u64) -> Seq<TxDataV>
    decreases pairs.len(),
{
    if pairs.len() == 0 {
        Seq::empty()
    } else {
        let rest = descs_at(pairs.drop_last(), o);
        if pairs.last().1 == o {
            rest.push(pairs.last().0)
        } else {
            rest
        }
    }
}

/// Each request entry lands in exactly one per-offset descriptor list:
/// taking one more entry extends the list of its own offset by that
/// entry, at the end, and leaves every other offset's list untouched —
/// so same-offset entries keep their relative order.
pub proof fn lemma_descs_at_partition(pairs: Seq<(TxDataV, u64)>, j: int)
    requires
        0 <= j < pairs.len(),
    ensures
        descs_at(pairs.take(j + 1), pairs[j].1)
            == descs_at(pairs.take(j), pairs[j].1).push(pairs[j].0),
        forall|o: u64| o != pairs[j].1
            ==> #[trigger] descs_at(pairs.take(j + 1), o) == descs_at(pairs.take(j), o),
{
    assert(pairs.take(j + 1).drop_last() =~= pairs.take(j));
    assert(pairs.take(j + 1).last() == pairs[j]);
}

impl Ledger {
    /// Discards the newest `depth` blocks and rebuilds `depth` new ones,
    /// each holding exactly the request's entries that target its offset,
    /// in their given order, executed on the state the previous new block
    /// left. Chain height and the retained prefix are preserved; the new
    /// blocks carry hashes never used before. A depth or offset out of
    /// range fails with `InvalidReorgSpec`, an undecodable descriptor
    /// with `DecodeError`, an exhausted hash counter with
    /// `ExecutionError`, and any failure leaves the ledger untouched.
    pub fn reorg(&mut self, options: &ReorgOptions) -> (r: Result<(), Error>)
        requires
            old(self).wf(),
            old(self)@.blocks.len() >= 1,
        ensures
            final(self).wf(),
            !depth_ok(old(self)@, options@)
                ==> r == Result::<(), Error>::Err(Error::InvalidReorgSpec)
                    && final(self)@ == old(self)@,
            depth_ok(old(self)@, options@) && !offsets_ok(options@)
                ==> r == Result::<(), Error>::Err(Error::InvalidReorgSpec)
                    && final(self)@ == old(self)@,
            depth_ok(old(self)@, options@) && offsets_ok(options@) && !decodes_ok(options@)
                ==> r == Result::<(), Error>::Err(Error::DecodeError)
                    && final(self)@ == old(self)@,
            depth_ok(old(self)@, options@) && offsets_ok(options@) && decodes_ok(options@)
                && !headroom_ok(old(self)@, options@)
                ==> r == Result::<(), Error>::Err(Error::ExecutionError)
                    && final(self)@ == old(self)@,
            depth_ok(old(self)@, options@) && offsets_ok(options@) && decodes_ok(options@)
                && headroom_ok(old(self)@, options@) ==> {
                let keep = old(self)@.blocks.len() - options@.depth;
                &&& r == Result::<(), Error>::Ok(())
                &&& final(self)@.blocks.len() == old(self)@.blocks.len()
                &&& final(self)@.blocks.last().number == old(self)@.blocks.last().number
                &&& final(self)@.blocks.subrange(0, keep as int)
                    == old(self)@.blocks.subrange(0, keep as int)
                &&& final(self)@.next_hash == old(self)@.next_hash + options@.depth
                &&& forall|k: int| 0 <= k < options@.depth ==> {
                    let b = #[trigger] final(self)@.blocks[keep + k];
                    let prev = if keep + k == 0 { Seq::empty() } else {
                        final(self)@.blocks[keep + k - 1].state
                    };
                    &&& descs_of(b.transactions) == descs_at(options@.pairs, k as u64)
                    &&& b.transactions == mined_txs(prev, descs_at(options@.pairs, k as u64))
                    &&& b.state == apply_txs(prev, descs_at(options@.pairs, k as u64))
                    &&& word_val(b.hash) == old(self)@.next_hash + k
                }
            },
    {
        let ghost l0 = self@;
        let ghost ov = options@;
        let depth = options.depth;
        let tip_number = self.blocks[self.blocks.len() - 1].number;
        proof {
            assert(tip_number == l0.blocks.last().number);
        }
        if depth < 1 || depth - 1 > tip_number {
            return Err(Error::InvalidReorgSpec);
        }
        let mut i: usize = 0;
        while i < options.tx_block_pairs.len()
            invariant
                0 <= i <= options.tx_block_pairs@.len(),
                self@ == l0,
                l0 == old(self)@,
                ov == options@,
                ledger_wf(l0),
                depth_ok(l0, ov),
                forall|j: int| 0 <= j < i ==> (#[trigger] ov.pairs[j]).1 < ov.depth,
                depth == ov.depth,
            decreases options.tx_block_pairs@.len() - i,
        {
            if options.tx_block_pairs[i].1 >= depth {
                proof {
                    assert(ov.pairs[i as int].1 >= ov.depth);
                    assert(!offsets_ok(ov));
                }
                return Err(Error::InvalidReorgSpec);
            }
            i = i + 1;
        }
        let mut i: usize = 0;
        while i < options.tx_block_pairs.len()
            invariant
                0 <= i <= options.tx_block_pairs@.len(),
                self@ == l0,
                l0 == old(self)@,
                ov == options@,
                ledger_wf(l0),
                depth_ok(l0, ov),
                offsets_ok(ov),
                forall|j: int| 0 <= j < i ==> tx_decodes((#[trigger] ov.pairs[j]).0),
                depth == ov.depth,
            decreases options.tx_block_pairs@.len() - i,
        {
            let ok = match &options.tx_block_pairs[i].0 {
                TransactionData::JSON(_) => true,
                TransactionData::Raw(b) => b.len() > 0,
            };
            if !ok {
                proof {
                    assert(!tx_decodes(ov.pairs[i as int].0));
                    assert(!decodes_ok(ov));
                }
                return Err(Error::DecodeError);
            }
            i = i + 1;
        }
        if depth > u64::MAX - self.next_hash {
            return Err(Error::ExecutionError);
        }
        proof {
            assert(l0.blocks[l0.blocks.len() - 1].number == l0.blocks.len() - 1);
        }
        let keep = self.blocks.len() - (depth as usize);
        self.truncate_to_len(keep);
        let ghost lk = self@;
        let mut k: u64 = 0;
        while k < depth
            invariant
                0 <= k <= depth,
                l0 == old(self)@,
                ov == options@,
                depth == ov.depth,
                ledger_wf(l0),
                depth_ok(l0, ov),
                offsets_ok(ov),
                decodes_ok(ov),
                headroom_ok(l0, ov),
                keep == l0.blocks.len() - depth,
                lk.blocks == l0.blocks.subrange(0, keep as int),
                lk.next_hash == l0.next_hash,
                self.wf(),
                self@.blocks.len() == keep + k,
                self@.next_hash == l0.next_hash + k,
                self@.blocks.subrange(0, keep as int) == lk.blocks,
                forall|m: int| 0 <= m < k ==> {
                    let b = #[trigger] self@.blocks[keep + m];
                    let prev = if keep + m == 0 { Seq::<(W256, crate::state::AccountV)>::empty() }
                        else { self@.blocks[keep + m - 1].state };
                    &&& b.transactions == mined_txs(prev, descs_at(ov.pairs, m as u64))
                    &&& b.state == apply_txs(prev, descs_at(ov.pairs, m as u64))
                    &&& word_val(b.hash) == l0.next_hash + m
                },
            decreases depth - k,
        {
            let ghost pre = self@;
            let mut batch: Vec<TransactionData> = Vec::new();
            let mut j: usize = 0;
            while j < options.tx_block_pairs.len()
                invariant
                    0 <= j <= options.tx_block_pairs@.len(),
                    ov == options@,
                    decodes_ok(ov),
                    txs_v(batch@) == descs_at(ov.pairs.take(j as int), k),
                    forall|m: int| 0 <= m < batch@.len()
                        ==> tx_decodes((#[trigger] batch@[m])@),
                decreases options.tx_block_pairs@.len() - j,
            {
                let p = &options.tx_block_pairs[j];
                proof {
                    assert(ov.pairs.take(j as int + 1).drop_last() =~= ov.pairs.take(j as int));
                    assert(ov.pairs.take(j as int + 1).last()
                        == (options.tx_block_pairs@[j as int].0@, options.tx_block_pairs@[j as int].1));
                }
                if p.1 == k {
                    batch.push(copy_tx_data(&p.0));
                    proof {
                        assert(txs_v(batch@)
                            =~= descs_at(ov.pairs.take(j as int), k).push(ov.pairs[j as int].0));
                    }
                } else {
                    proof {
                        assert(txs_v(batch@) =~= descs_at(ov.pairs.take(j as int + 1), k));
                    }
                }
                j = j + 1;
            }
            proof {
                assert(ov.pairs.take(ov.pairs.len() as int) =~= ov.pairs);
            }
            self.append_block(&batch);
            proof {
                assert(self@.blocks.subrange(0, keep as int)
                    =~= pre.blocks.subrange(0, keep as int));
                assert(self@.blocks[keep + k] == built_block(pre, txs_v(batch@)));
                assert forall|m: int| 0 <= m < k + 1 implies {
                    let b = #[trigger] self@.blocks[keep + m];
                    let prev = if keep + m == 0 { Seq::<(W256, crate::state::AccountV)>::empty() }
                        else { self@.blocks[keep + m - 1].state };
                    &&& b.transactions == mined_txs(prev, descs_at(ov.pairs, m as u64))
                    &&& b.state == apply_txs(prev, descs_at(ov.pairs, m as u64))
                    &&& word_val(b.hash) == l0.next_hash + m
                } by {
                    if m < k {
                        assert(self@.blocks[keep + m] == pre.blocks[keep + m]);
                        if keep + m > 0 {
                            assert(self@.blocks[keep + m - 1] == pre.blocks[keep + m - 1]);
                        }
                    } else {
                        assert(base_state(pre) == (if keep + m == 0 {
                            Seq::<(W256, crate::state::AccountV)>::empty()
                        } else {
                            self@.blocks[keep + m - 1].state
                        }));
                    }
                }
            }
            k = k + 1;
        }
        proof {
            assert(self@.blocks.subrange(0, keep as int) =~= l0.blocks.subrange(0, keep as int));
            assert forall|m: int| 0 <= m < ov.depth implies
                descs_of((#[trigger] self@.blocks[keep + m]).transactions)
                    == descs_at(ov.pairs, m as u64) by {
                let prev = if keep + m == 0 { Seq::<(W256, crate::state::AccountV)>::empty() }
                    else { self@.blocks[keep + m - 1].state };
                lemma_mined_descs(prev, descs_at(ov.pairs, m as u64));
            }
        }
        Ok(())
    }
}

/// Mining keeps exactly the given descriptors, in order.
pub proof fn lemma_mined_descs(s: Seq<(W256, crate::state::AccountV)>, ds: Seq<TxDataV>)
    ensures
        descs_of(mined_txs(s, ds)) == ds,
    decreases ds.len(),
{
    if ds.len() == 0 {
        assert(descs_of(mined_txs(s, ds)) =~= ds);
    } else {
        let tail = ds.subrange(1, ds.len() as int);
        let m = mined_txs(s, ds);
        let head = ITxV { descriptor: ds[0], reverted: step_trace(s, ds[0]).reverted };
        let tailm = mined_txs(crate::exec::step_accounts(s, ds[0]), tail);
        lemma_mined_descs(crate::exec::step_accounts(s, ds[0]), tail);
        assert(m == seq![head] + tailm);
        assert(descs_of(tailm).len() == tail.len());
        assert forall|i: int| 0 <= i < m.len() implies
            (#[trigger] descs_of(m)[i]) == ds[i] by {
            assert(descs_of(m)[i] == m[i].descriptor);
            if i == 0 {
                assert(m[0] == head);
            } else {
                assert(m[i] == tailm[i - 1]);
                assert(descs_of(tailm)[i - 1] == tailm[i - 1].descriptor);
                assert(descs_of(tailm)[i - 1] == tail[i - 1]);
            }
        }
        assert(descs_of(mined_txs(s, ds)) =~= ds);
    }
}

} // verus!
