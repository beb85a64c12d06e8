//! The multi-call simulator: runs an ordered bundle of calls against a
//! pinned execution context derived from the ledger, carrying each call's
//! state effects to the next call of the same bundle, and never committing
//! anything to the ledger.

use vstd::prelude::*;
use crate::Error;
use crate::word::W256;
use crate::types::{TraceCallManyBundle, TraceCallManyContext, TransactionData,
    TransactionRequest, WithOtherFields, BlockId, CallTrace};
use crate::state::{AccountV, Snapshot};
use crate::exec::{TxDataV, step_accounts, step_trace, execute_tx, copy_request};
use crate::ledger::{Ledger, LedgerV, apply_txs, resolve_spec, descs_of};
use crate::state::copy_snapshot;

verus! {

/// The views of the bundle's structured requests.
pub open spec fn bundle_reqs(b: TraceCallManyBundle) -> Seq<crate::exec::ReqV> {
    b.transactions@.map_values(|t: WithOtherFields<TransactionRequest>| t.inner@)
}

/// The identifier the context names, the tip tag when it names none.
pub open spec fn context_id(c: TraceCallManyContext) -> BlockId {
    match c.block_number {
        Some(id) => id,
        None => BlockId::Latest,
    }
}

/// The state the bundle starts from: the resolved block's snapshot, or,
/// when the cursor lies inside that block, the state its own transactions
/// up to (exclusive) the cursor rebuild from the previous block.
pub open spec fn sim_start(l: LedgerV, i: int, cursor: u64) -> Seq<(W256, AccountV)> {
    let b = l.blocks[i];
    if cursor < b.transactions.len() {
        let prev = if i == 0 { Seq::<(W256, AccountV)>::empty() } else { l.blocks[i - 1].state };
        apply_txs(prev, descs_of(b.transactions).take(cursor as int))
    } else {
        b.state
    }
}

/// The state the bundle's calls leave on the disposable branch.
pub open spec fn apply_reqs(s: Seq<(W256, AccountV)>, reqs: Seq<crate::exec::ReqV>)
    -> Seq<(W256, AccountV)>
    decreases reqs.len(),
{
    if reqs.len() == 0 {
        s
    } else {
        apply_reqs(step_accounts(s, TxDataV::JSON(reqs[0])), reqs.subrange(1, reqs.len() as int))
    }
}

/// The traces the bundle's calls produce, each executed on the state the
/// previous calls left.
pub open spec fn bundle_traces(s: Seq<(W256, AccountV)>, reqs: Seq<crate::exec::ReqV>)
    -> Seq<CallTrace>
    decreases reqs.len(),
{
    if reqs.len() == 0 {
        Seq::empty()
    } else {
        seq![step_trace(s, TxDataV::JSON(reqs[0]))] + bundle_traces(
            step_accounts(s, TxDataV::JSON(reqs[0])), reqs.subrange(1, reqs.len() as int))
    }
}

/// Appending one call traces it after the rest.
pub proof fn lemma_bundle_traces_push(
    s: Seq<(W256, AccountV)>,
    reqs: Seq<crate::exec::ReqV>,
    r: crate::exec::ReqV,
)
    ensures
        bundle_traces(s, reqs.push(r)) == bundle_traces(s, reqs).push(
            step_trace(apply_reqs(s, reqs), TxDataV::JSON(r))),
        apply_reqs(s, reqs.push(r))
            == step_accounts(apply_reqs(s, reqs), TxDataV::JSON(r)),
    decreases reqs.len(),
{
    let e = reqs.push(r);
    if reqs.len() == 0 {
        assert(e[0] == r);
        assert(e.subrange(1, e.len() as int) =~= Seq::<crate::exec::ReqV>::empty());
        assert(apply_reqs(s, reqs) == s);
        assert(bundle_traces(s, reqs) =~= Seq::<CallTrace>::empty());
        assert(apply_reqs(step_accounts(s, TxDataV::JSON(r)), e.subrange(1, e.len() as int))
            == step_accounts(s, TxDataV::JSON(r)));
        assert(bundle_traces(step_accounts(s, TxDataV::JSON(r)), e.subrange(1, e.len() as int))
            =~= Seq::<CallTrace>::empty());
        assert(bundle_traces(s, e) =~= bundle_traces(s, reqs).push(
            step_trace(apply_reqs(s, reqs), TxDataV::JSON(r))));
    } else {
        assert(e[0] == reqs[0]);
        assert(e.subrange(1, e.len() as int)
            =~= reqs.subrange(1, reqs.len() as int).push(r));
        lemma_bundle_traces_push(
            step_accounts(s, TxDataV::JSON(reqs[0])), reqs.subrange(1, reqs.len() as int), r);
        assert(bundle_traces(s, e) =~= bundle_traces(s, reqs).push(
            step_trace(apply_reqs(s, reqs), TxDataV::JSON(r))));
    }
}

impl Ledger {
    /// The snapshot the simulation starts from: the resolved block's
    /// state, or the replay of its own transactions up to the cursor.
    fn start_snapshot(&self, idx: usize, cursor: u64) -> (s: Snapshot)
        requires
            self.wf(),
            idx < self@.blocks.len(),
        ensures
            s@ == sim_start(self@, idx as int, cursor),
            crate::state::snap_wf(s@),
    {
        let ghost l0 = self@;
        let block_txs = self.blocks[idx].transactions.len() as u64;
        if cursor < block_txs {
            let upto = cursor as usize;
            let mut s = if idx == 0 {
                Snapshot::empty()
            } else {
                copy_snapshot(&self.blocks[idx - 1].state)
            };
            proof {
                let prev = if idx == 0 { Seq::<(W256, AccountV)>::empty() }
                    else { l0.blocks[idx - 1].state };
                if idx > 0 {
                    assert(crate::state::snap_wf(l0.blocks[idx - 1].state));
                }
                assert(s@ == prev);
                assert(descs_of(l0.blocks[idx as int].transactions).take(0)
                    =~= Seq::<TxDataV>::empty());
            }
            let ghost prev = s@;
            let ghost ds = descs_of(l0.blocks[idx as int].transactions);
            let mut j: usize = 0;
            while j < upto
                invariant
                    0 <= j <= upto,
                    self@ == l0,
                    self.wf(),
                    0 <= idx < l0.blocks.len(),
                    upto <= l0.blocks[idx as int].transactions.len(),
                    ds == descs_of(l0.blocks[idx as int].transactions),
                    crate::state::snap_wf(prev),
                    s@ == apply_txs(prev, ds.take(j as int)),
                    crate::state::snap_wf(s@),
                decreases upto - j,
            {
                let tx = &self.blocks[idx].transactions[j];
                let _ = execute_tx(&mut s, &tx.descriptor);
                proof {
                    assert(ds.take(j as int + 1) =~= ds.take(j as int).push(
                        l0.blocks[idx as int].transactions[j as int].descriptor));
                    crate::ledger::lemma_apply_txs_push(prev, ds.take(j as int),
                        l0.blocks[idx as int].transactions[j as int].descriptor);
                }
                j = j + 1;
            }
            s
        } else {
            let s = copy_snapshot(&self.blocks[idx].state);
            proof {
                assert(crate::state::snap_wf(l0.blocks[idx as int].state));
            }
            s
        }
    }

    /// Runs the bundle's calls in order on a disposable snapshot,
    /// carrying each call's effects to the next.
    fn run_bundle(snap: Snapshot, bundle: &TraceCallManyBundle) -> (out: Vec<CallTrace>)
        requires
            crate::state::snap_wf(snap@),
        ensures
            out@ == bundle_traces(snap@, bundle_reqs(*bundle)),
    {
        let ghost start = snap@;
        let ghost reqs = bundle_reqs(*bundle);
        let mut scratch = snap;
        let mut traces: Vec<CallTrace> = Vec::new();
        let mut i: usize = 0;
        while i < bundle.transactions.len()
            invariant
                0 <= i <= bundle.transactions@.len(),
                reqs == bundle_reqs(*bundle),
                crate::state::snap_wf(scratch@),
                scratch@ == apply_reqs(start, reqs.take(i as int)),
                traces@ == bundle_traces(start, reqs.take(i as int)),
            decreases bundle.transactions@.len() - i,
        {
            let call = TransactionData::JSON(copy_request(&bundle.transactions[i].inner));
            let tr = execute_tx(&mut scratch, &call);
            traces.push(tr);
            proof {
                assert(call@ == TxDataV::JSON(reqs[i as int]));
                assert(reqs.take(i as int + 1) =~= reqs.take(i as int).push(reqs[i as int]));
                lemma_bundle_traces_push(start, reqs.take(i as int), reqs[i as int]);
                assert(traces@ =~= bundle_traces(start, reqs.take(i as int + 1)));
            }
            i = i + 1;
        }
        proof {
            assert(reqs.take(reqs.len() as int) =~= reqs);
            assert(bundle_reqs(*bundle).len() == bundle.transactions@.len());
        }
        traces
    }

    /// Simulates the bundle's calls, in order, against the context's
    /// block and cursor. Each call's state effects are visible to the
    /// later calls of the same bundle; nothing is ever committed, and the
    /// ledger is left exactly as it was. The bundle's environment
    /// overrides shape only the simulated environment, never account
    /// state, so no call observes them through a slot. An unresolvable
    /// context fails with `NotFound`; a revert inside the bundle is data
    /// in its trace, never a fault.
    pub fn trace_call_many(
        &mut self,
        bundle: &TraceCallManyBundle,
        context: &TraceCallManyContext,
    ) -> (r: Result<Vec<CallTrace>, Error>)
        requires
            old(self).wf(),
        ensures
            final(self)@ == old(self)@,
            match resolve_spec(old(self)@, context_id(*context)) {
                Some(i) => r is Ok && r.unwrap()@ == bundle_traces(
                    sim_start(old(self)@, i, context.transaction_index), bundle_reqs(*bundle)),
                None => r == Result::<Vec<CallTrace>, Error>::Err(Error::NotFound),
            },
    {
        let id = match &context.block_number {
            Some(id) => *id,
            None => BlockId::Latest,
        };
        let nblocks = self.blocks.len();
        let idx = match self.resolve(&id) {
            Ok(i) => i,
            Err(_) => {
                return Err(Error::NotFound);
            },
        };
        proof {
            assert(self@.blocks.len() == nblocks);
        }
        let snap = self.start_snapshot(idx, context.transaction_index);
        proof {
            assert(resolve_spec(old(self)@, context_id(*context)) == Some(idx as int));
            assert(snap@ == sim_start(old(self)@, idx as int, context.transaction_index));
        }
        let traces = Ledger::run_bundle(snap, bundle);
        proof {
            assert(traces@ == bundle_traces(
                sim_start(old(self)@, idx as int, context.transaction_index),
                bundle_reqs(*bundle)));
        }
        Ok(traces)
    }
}

} // verus!
