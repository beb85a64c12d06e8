//! The storage range paginator: a read-only walker over one account's
//! storage slots at a pinned historical state, in ascending key order,
//! `limit` entries a page, with the first excluded key handed back as the
//! cursor of the next page.

use vstd::prelude::*;
use crate::Error;
use crate::word::{W256, word_val};
use crate::types::{BlockId, StorageEntry, StorageRangeAtResult};
use crate::state::{sorted_storage, slot_lower_bound, lemma_slot_lower_bound,
    lemma_slot_lower_bound_is, acct_at, addr_index, lemma_addr_index};
use crate::ledger::{Ledger, resolve_spec};

verus! {

/// The slots at or after key value `kv`: the tail the walk still has to
/// hand out.
pub open spec fn page_tail(s: Seq<StorageEntry>, kv: int) -> Seq<StorageEntry> {
    s.subrange(slot_lower_bound(s, kv), s.len() as int)
}

/// The entries of one page: the first `limit` of the tail.
pub open spec fn page_entries(s: Seq<StorageEntry>, kv: int, limit: nat) -> Seq<StorageEntry> {
    let t = page_tail(s, kv);
    if t.len() <= limit {
        t
    } else {
        t.take(limit as int)
    }
}

/// The cursor of the next page: the first key not handed out, absent when
/// the walk is complete.
pub open spec fn page_next(s: Seq<StorageEntry>, kv: int, limit: nat) -> Option<W256> {
    let t = page_tail(s, kv);
    if t.len() > limit {
        Some(t[limit as int].key)
    } else {
        None
    }
}

/// Everything the pages from key value `kv` on hand out, concatenated in
/// page order.
pub open spec fn pages_concat(s: Seq<StorageEntry>, kv: int, limit: nat) -> Seq<StorageEntry>
    decreases page_tail(s, kv).len()
        when limit >= 1 && sorted_storage(s)
        via pages_concat_decreases
{
    let t = page_tail(s, kv);
    if t.len() <= limit {
        t
    } else {
        t.take(limit as int) + pages_concat(s, word_val(t[limit as int].key), limit)
    }
}

/// Following the cursor shortens the remaining tail by a full page.
pub proof fn lemma_page_step(s: Seq<StorageEntry>, kv: int, limit: nat)
    requires
        limit >= 1,
        sorted_storage(s),
        page_tail(s, kv).len() > limit,
    ensures
        slot_lower_bound(s, word_val(page_tail(s, kv)[limit as int].key))
            == slot_lower_bound(s, kv) + limit,
        page_tail(s, word_val(page_tail(s, kv)[limit as int].key))
            == page_tail(s, kv).skip(limit as int),
{
    let lb = slot_lower_bound(s, kv);
    lemma_slot_lower_bound(s, kv);
    let t = page_tail(s, kv);
    let kv2 = word_val(t[limit as int].key);
    assert(t[limit as int] == s[lb + limit]);
    assert forall|j: int| 0 <= j < lb + limit
        implies word_val((#[trigger] s[j]).key) < kv2 by {
        assert(word_val(s[j].key) < word_val(s[lb + limit].key));
    }
    lemma_slot_lower_bound_is(s, kv2, lb + limit);
    assert(page_tail(s, kv2) =~= t.skip(limit as int));
}

#[via_fn]
proof fn pages_concat_decreases(s: Seq<StorageEntry>, kv: int, limit: nat) {
    let t = page_tail(s, kv);
    lemma_slot_lower_bound(s, kv);
    if t.len() > limit {
        lemma_page_step(s, kv, limit);
    }
}

/// Round trip of the walk: the pages obtained by repeatedly following the
/// cursor, concatenated, are exactly the tail from the start key — every
/// slot once, no gap, no duplicate, in ascending key order.
pub proof fn lemma_paginator_round_trip(s: Seq<StorageEntry>, kv: int, limit: nat)
    requires
        limit >= 1,
        sorted_storage(s),
    ensures
        pages_concat(s, kv, limit) == page_tail(s, kv),
    decreases page_tail(s, kv).len(),
{
    let t = page_tail(s, kv);
    lemma_slot_lower_bound(s, kv);
    if t.len() > limit {
        lemma_page_step(s, kv, limit);
        lemma_paginator_round_trip(s, word_val(t[limit as int].key), limit);
        assert(t.take(limit as int) + t.skip(limit as int) =~= t);
    }
}

/// Round trip of the whole walk: started at key zero, the concatenated
/// pages are the account's full slot sequence.
pub proof fn lemma_paginator_full(s: Seq<StorageEntry>, limit: nat)
    requires
        limit >= 1,
        sorted_storage(s),
    ensures
        pages_concat(s, 0, limit) == s,
{
    if s.len() > 0 {
        assert(word_val(s[0].key) >= 0);
    }
    lemma_slot_lower_bound_is(s, 0, 0);
    lemma_paginator_round_trip(s, 0, limit);
    assert(page_tail(s, 0) =~= s);
}

/// One page of a sorted slot sequence.
pub fn page_slots(storage: &Vec<StorageEntry>, start_key: &W256, limit: usize)
    -> (r: StorageRangeAtResult)
    requires
        sorted_storage(storage@),
    ensures
        r.storage@ == page_entries(storage@, word_val(*start_key), limit as nat),
        r.next_key == page_next(storage@, word_val(*start_key), limit as nat),
{
    let ghost kv = word_val(*start_key);
    let n = storage.len();
    let mut lb: usize = 0;
    while lb < n && storage[lb].key.lt(start_key)
        invariant
            0 <= lb <= n,
            n == storage@.len(),
            kv == word_val(*start_key),
            forall|j: int| 0 <= j < lb ==> word_val((#[trigger] storage@[j]).key) < kv,
        decreases n - lb,
    {
        lb = lb + 1;
    }
    proof {
        lemma_slot_lower_bound_is(storage@, kv, lb as int);
    }
    let more = limit < n - lb;
    let end = if more { lb + limit } else { n };
    let mut out: Vec<StorageEntry> = Vec::new();
    let mut i: usize = lb;
    while i < end
        invariant
            lb <= i <= end <= n,
            n == storage@.len(),
            out@ == storage@.subrange(lb as int, i as int),
        decreases end - i,
    {
        out.push(storage[i]);
        proof {
            assert(out@ =~= storage@.subrange(lb as int, i as int + 1));
        }
        i = i + 1;
    }
    let next_key = if more { Some(storage[end].key) } else { None };
    proof {
        let t = page_tail(storage@, kv);
        if more {
            assert(out@ =~= t.take(limit as int));
            assert(t[limit as int] == storage@[end as int]);
        } else {
            assert(out@ =~= t);
        }
    }
    StorageRangeAtResult { storage: out, next_key }
}

impl Ledger {
    /// One page of the account's storage at the identified state: at most
    /// `limit` slots in ascending key order from `start_key` on, and the
    /// first excluded key when more remain. An unknown block or account
    /// fails with `NotFound`.
    pub fn storage_range_at(
        &self,
        address: &W256,
        block_id: &BlockId,
        start_key: &W256,
        limit: usize,
    ) -> (r: Result<StorageRangeAtResult, Error>)
        requires
            self.wf(),
        ensures
            match resolve_spec(self@, *block_id) {
                None => r == Result::<StorageRangeAtResult, Error>::Err(Error::NotFound),
                Some(i) => match acct_at(self@.blocks[i].state, word_val(*address)) {
                    None => r == Result::<StorageRangeAtResult, Error>::Err(Error::NotFound),
                    Some(a) => r is Ok
                        && r.unwrap().storage@
                            == page_entries(a.storage, word_val(*start_key), limit as nat)
                        && r.unwrap().next_key
                            == page_next(a.storage, word_val(*start_key), limit as nat),
                },
            },
    {
        let nblocks = self.blocks.len();
        let idx = match self.resolve(block_id) {
            Ok(i) => i,
            Err(_) => {
                return Err(Error::NotFound);
            },
        };
        proof {
            assert(self@.blocks.len() == nblocks);
            assert(resolve_spec(self@, *block_id) == Some(idx as int));
        }
        let acct = match self.blocks[idx].state.get_account(address) {
            Some(a) => a,
            None => {
                return Err(Error::NotFound);
            },
        };
        proof {
            let st = self@.blocks[idx as int].state;
            lemma_addr_index(st, word_val(*address));
            assert(acct@ == st[addr_index(st, word_val(*address))].1);
            assert(sorted_storage(acct@.storage));
        }
        Ok(page_slots(&acct.storage, start_key, limit))
    }
}

} // verus!
