use anvil_core::Error;
use anvil_core::word::W256;
use anvil_core::types::{TransactionData, TransactionRequest, WithOtherFields,
    TraceCallManyBundle, TraceCallManyContext, ReorgOptions, BlockId, StorageEntry};
use anvil_core::ledger::Ledger;
use anvil_core::state::{storage_get, storage_set};

fn w(n: u64) -> W256 {
    W256 { hi: 0, lo: n as u128 }
}

fn word_bytes(n: u64) -> Vec<u8> {
    let mut b = vec![0u8; 32];
    b[24..32].copy_from_slice(&n.to_be_bytes());
    b
}

fn req(to: W256, input: Vec<u8>) -> WithOtherFields<TransactionRequest> {
    WithOtherFields {
        inner: TransactionRequest {
            from: None,
            to: Some(to),
            value: None,
            nonce: None,
            gas: None,
            input,
        },
        other: Vec::new(),
    }
}

fn write_input(slot: u64, value: u64) -> Vec<u8> {
    let mut input = word_bytes(slot);
    input.extend_from_slice(&word_bytes(value));
    input
}

fn write_tx(to: W256, slot: u64, value: u64) -> TransactionData {
    TransactionData::JSON(TransactionRequest {
        from: None,
        to: Some(to),
        value: None,
        nonce: None,
        gas: None,
        input: write_input(slot, value),
    })
}

// Scenario: a bundle of two calls, the first writing storage slot S = 1
// and the second reading S; the second observes 1 even though nothing is
// ever committed to the ledger.
#[test]
fn simulate_write_then_read() {
    let mut l = Ledger::new();
    let addr = w(0xcc);
    let bundle = TraceCallManyBundle {
        transactions: vec![
            req(addr, write_input(5, 1)),
            req(addr, word_bytes(5)),
        ],
        block_override: None,
    };
    let ctx = TraceCallManyContext::default();
    let tip_hash_before = l.tip().hash;
    let traces = l.trace_call_many(&bundle, &ctx).unwrap();
    assert_eq!(traces.len(), 2);
    assert!(!traces[0].reverted);
    assert_eq!(traces[1].output, Some(w(1)));
    // the ledger is untouched: nothing was committed
    assert_eq!(l.tip().hash, tip_hash_before);
    assert_eq!(l.tip().number, 0);
    let page = l.storage_range_at(&addr, &BlockId::Latest, &w(0), 10);
    assert_eq!(page, Err(Error::NotFound));
}

#[test]
fn simulate_unknown_block_fails() {
    let mut l = Ledger::new();
    let bundle = TraceCallManyBundle { transactions: Vec::new(), block_override: None };
    let ctx = TraceCallManyContext {
        block_number: Some(BlockId::Number(9)),
        transaction_index: 0,
    };
    assert_eq!(l.trace_call_many(&bundle, &ctx), Err(Error::NotFound));
}

#[test]
fn simulate_reads_committed_state() {
    let mut l = Ledger::new();
    let addr = w(0xdd);
    l.mine_block(&vec![write_tx(addr, 3, 42)]).unwrap();
    let bundle = TraceCallManyBundle {
        transactions: vec![req(addr, word_bytes(3))],
        block_override: None,
    };
    // the cursor sits past the block's single transaction: its final
    // state, holding the committed write, is the base
    let ctx = TraceCallManyContext {
        block_number: Some(BlockId::Latest),
        transaction_index: 1,
    };
    let traces = l.trace_call_many(&bundle, &ctx).unwrap();
    assert_eq!(traces[0].output, Some(w(42)));
}

#[test]
fn simulate_cursor_replays_prefix() {
    let mut l = Ledger::new();
    // one block whose two transactions write the same slot in turn
    l.mine_block(&vec![write_tx(w(0xee), 1, 10), write_tx(w(0xee), 1, 20)])
        .unwrap();
    // cursor 1: only the first write has happened
    let bundle = TraceCallManyBundle {
        transactions: vec![req(w(0xee), word_bytes(1))],
        block_override: None,
    };
    let ctx = TraceCallManyContext {
        block_number: Some(BlockId::Number(1)),
        transaction_index: 1,
    };
    let traces = l.trace_call_many(&bundle, &ctx).unwrap();
    assert_eq!(traces[0].output, Some(w(10)));
    // past the end of the block: its final state is used
    let ctx_end = TraceCallManyContext {
        block_number: Some(BlockId::Number(1)),
        transaction_index: 5,
    };
    let traces = l.trace_call_many(&bundle, &ctx_end).unwrap();
    assert_eq!(traces[0].output, Some(w(20)));
}

#[test]
fn simulate_revert_does_not_abort_bundle() {
    let mut l = Ledger::new();
    let addr = w(0xef);
    let bundle = TraceCallManyBundle {
        transactions: vec![
            req(addr, write_input(2, 9)),
            req(addr, vec![1, 2, 3]),
            req(addr, word_bytes(2)),
        ],
        block_override: None,
    };
    let traces = l
        .trace_call_many(&bundle, &TraceCallManyContext::default())
        .unwrap();
    assert_eq!(traces.len(), 3);
    assert!(traces[1].reverted);
    assert!(!traces[2].reverted);
    assert_eq!(traces[2].output, Some(w(9)));
}

fn populated_ledger(addr: W256, slots: &[(u64, u64)]) -> Ledger {
    let mut l = Ledger::new();
    let txs: Vec<TransactionData> = slots
        .iter()
        .map(|(k, v)| write_tx(addr, *k, *v))
        .collect();
    l.mine_block(&txs).unwrap();
    l
}

// Paginator round trip: following next_key from key zero yields the full,
// duplicate-free, gap-free, ascending slot set.
#[test]
fn paginator_round_trip() {
    let addr = w(0x11);
    let slots = [(9, 90), (1, 10), (5, 50), (3, 30), (7, 70)];
    let l = populated_ledger(addr, &slots);
    let mut collected: Vec<StorageEntry> = Vec::new();
    let mut cursor = w(0);
    loop {
        let page = l
            .storage_range_at(&addr, &BlockId::Latest, &cursor, 2)
            .unwrap();
        assert!(page.storage.len() <= 2);
        collected.extend_from_slice(&page.storage);
        match page.next_key {
            Some(k) => cursor = k,
            None => break,
        }
    }
    let expected: Vec<(u64, u64)> = vec![(1, 10), (3, 30), (5, 50), (7, 70), (9, 90)];
    assert_eq!(collected.len(), expected.len());
    for (entry, (k, v)) in collected.iter().zip(expected.iter()) {
        assert_eq!(entry.key, w(*k));
        assert_eq!(entry.value, w(*v));
    }
}

#[test]
fn paginator_page_shape() {
    let addr = w(0x12);
    let l = populated_ledger(addr, &[(1, 1), (2, 2), (3, 3)]);
    let page = l
        .storage_range_at(&addr, &BlockId::Latest, &w(2), 1)
        .unwrap();
    assert_eq!(page.storage.len(), 1);
    assert_eq!(page.storage[0].key, w(2));
    assert_eq!(page.next_key, Some(w(3)));
    let last = l
        .storage_range_at(&addr, &BlockId::Latest, &w(3), 5)
        .unwrap();
    assert_eq!(last.storage.len(), 1);
    assert_eq!(last.next_key, None);
}

#[test]
fn paginator_unknown_account_fails() {
    let l = Ledger::new();
    let r = l.storage_range_at(&w(0x99), &BlockId::Latest, &w(0), 10);
    assert_eq!(r, Err(Error::NotFound));
    let r = l.storage_range_at(&w(0x99), &BlockId::Number(4), &w(0), 10);
    assert_eq!(r, Err(Error::NotFound));
}

#[test]
fn storage_write_and_read_back() {
    let mut slots: Vec<StorageEntry> = Vec::new();
    storage_set(&mut slots, w(5), w(50));
    storage_set(&mut slots, w(2), w(20));
    storage_set(&mut slots, w(5), w(55));
    assert_eq!(slots.len(), 2);
    assert_eq!(slots[0].key, w(2));
    assert_eq!(slots[1].key, w(5));
    assert_eq!(storage_get(&slots, &w(5)), Some(w(55)));
    assert_eq!(storage_get(&slots, &w(2)), Some(w(20)));
    assert_eq!(storage_get(&slots, &w(9)), None);
}

#[test]
fn writes_do_not_leak_across_reorg_branches() {
    let addr = w(0x21);
    let mut l = populated_ledger(addr, &[(1, 111)]);
    // discard the block holding the write
    l.reorg(&ReorgOptions { depth: 1, tx_block_pairs: Vec::new() }).unwrap();
    let r = l.storage_range_at(&addr, &BlockId::Latest, &w(0), 10);
    assert_eq!(r, Err(Error::NotFound));
}
