use anvil_core::Error;
use anvil_core::word::W256;
use anvil_core::types::{TransactionData, TransactionRequest, ReorgOptions, BlockId};
use anvil_core::ledger::Ledger;

fn w(n: u64) -> W256 {
    W256 { hi: 0, lo: n as u128 }
}

fn word_bytes(n: u64) -> Vec<u8> {
    let mut b = vec![0u8; 32];
    b[24..32].copy_from_slice(&n.to_be_bytes());
    b
}

fn write_tx(to: W256, slot: u64, value: u64) -> TransactionData {
    let mut input = word_bytes(slot);
    input.extend_from_slice(&word_bytes(value));
    TransactionData::JSON(TransactionRequest {
        from: None,
        to: Some(to),
        value: None,
        nonce: None,
        gas: None,
        input,
    })
}

fn raw_tx(bytes: Vec<u8>) -> TransactionData {
    TransactionData::Raw(bytes)
}

fn chain_of_height(height: u64) -> Ledger {
    let mut l = Ledger::new();
    for _ in 0..height {
        l.mine_block(&Vec::new()).unwrap();
    }
    l
}

#[test]
fn genesis_ledger() {
    let l = Ledger::new();
    assert_eq!(l.tip().number, 0);
    assert_eq!(l.blocks.len(), 1);
    assert!(l.tip().transactions.is_empty());
}

#[test]
fn mining_links_blocks() {
    let mut l = Ledger::new();
    l.mine_block(&Vec::new()).unwrap();
    l.mine_block(&vec![raw_tx(vec![1, 2, 3])]).unwrap();
    assert_eq!(l.tip().number, 2);
    assert_eq!(l.blocks[1].parent_hash, l.blocks[0].hash);
    assert_eq!(l.blocks[2].parent_hash, l.blocks[1].hash);
    assert_eq!(l.blocks[2].transactions.len(), 1);
    assert!(!l.blocks[2].transactions[0].reverted);
}

#[test]
fn mine_rejects_empty_raw() {
    let mut l = Ledger::new();
    let r = l.mine_block(&vec![raw_tx(Vec::new())]);
    assert_eq!(r, Err(Error::DecodeError));
    assert_eq!(l.tip().number, 0);
}

#[test]
fn mine_exhausted_hash_counter() {
    let mut l = Ledger::new();
    l.next_hash = u64::MAX;
    let r = l.mine_block(&Vec::new());
    assert_eq!(r, Err(Error::ExecutionError));
    assert_eq!(l.tip().number, 0);
}

#[test]
fn resolve_by_number_hash_and_tag() {
    let mut l = Ledger::new();
    l.mine_block(&Vec::new()).unwrap();
    l.mine_block(&Vec::new()).unwrap();
    assert_eq!(l.resolve(&BlockId::Number(1)), Ok(1));
    assert_eq!(l.resolve(&BlockId::Number(7)), Err(Error::NotFound));
    let h = l.blocks[2].hash;
    assert_eq!(l.resolve(&BlockId::Hash(h)), Ok(2));
    assert_eq!(l.resolve(&BlockId::Hash(w(999))), Err(Error::NotFound));
    assert_eq!(l.resolve(&BlockId::Latest), Ok(2));
    assert_eq!(l.resolve(&BlockId::Pending), Ok(2));
}

#[test]
fn truncate_discards_above() {
    let mut l = chain_of_height(5);
    l.truncate(2);
    assert_eq!(l.tip().number, 2);
    assert_eq!(l.blocks.len(), 3);
}

// Scenario: tip at block 10; a reorg of depth 2 with txA and txB at offset
// 0 and txC at offset 1 gives a new tip at 10, new block 9 holding
// [txA, txB], new block 10 holding [txC], and the old blocks 9 and 10
// unreachable by hash afterwards.
#[test]
fn reorg_scenario_depth_two() {
    let mut l = chain_of_height(10);
    let old_hash_9 = l.blocks[9].hash;
    let old_hash_10 = l.blocks[10].hash;
    let old_hash_8 = l.blocks[8].hash;
    let tx_a = raw_tx(vec![0xa]);
    let tx_b = raw_tx(vec![0xb]);
    let tx_c = raw_tx(vec![0xc]);
    let opts = ReorgOptions {
        depth: 2,
        tx_block_pairs: vec![(tx_a.clone(), 0), (tx_b.clone(), 0), (tx_c.clone(), 1)],
    };
    assert_eq!(l.reorg(&opts), Ok(()));
    assert_eq!(l.tip().number, 10);
    assert_eq!(l.blocks.len(), 11);
    assert_eq!(l.blocks[9].transactions.len(), 2);
    assert_eq!(l.blocks[9].transactions[0].descriptor, tx_a);
    assert_eq!(l.blocks[9].transactions[1].descriptor, tx_b);
    assert_eq!(l.blocks[10].transactions.len(), 1);
    assert_eq!(l.blocks[10].transactions[0].descriptor, tx_c);
    // the retained block is untouched, the discarded hashes are gone
    assert_eq!(l.blocks[8].hash, old_hash_8);
    assert_eq!(l.resolve(&BlockId::Hash(old_hash_9)), Err(Error::NotFound));
    assert_eq!(l.resolve(&BlockId::Hash(old_hash_10)), Err(Error::NotFound));
    assert_eq!(l.resolve(&BlockId::Hash(old_hash_8)), Ok(8));
}

#[test]
fn reorg_depth_zero_rejected() {
    let mut l = chain_of_height(3);
    let before_hash = l.tip().hash;
    let r = l.reorg(&ReorgOptions { depth: 0, tx_block_pairs: Vec::new() });
    assert_eq!(r, Err(Error::InvalidReorgSpec));
    assert_eq!(l.tip().number, 3);
    assert_eq!(l.tip().hash, before_hash);
}

#[test]
fn reorg_depth_too_deep_rejected() {
    let mut l = chain_of_height(3);
    let before_hash = l.tip().hash;
    // depth may reach tip + 1 == 4; 5 is out of range
    let r = l.reorg(&ReorgOptions { depth: 5, tx_block_pairs: Vec::new() });
    assert_eq!(r, Err(Error::InvalidReorgSpec));
    assert_eq!(l.tip().hash, before_hash);
}

#[test]
fn reorg_full_depth_accepted() {
    let mut l = chain_of_height(3);
    let r = l.reorg(&ReorgOptions { depth: 4, tx_block_pairs: Vec::new() });
    assert_eq!(r, Ok(()));
    assert_eq!(l.tip().number, 3);
}

#[test]
fn reorg_offset_out_of_range_rejected() {
    let mut l = chain_of_height(3);
    let before_hash = l.tip().hash;
    let r = l.reorg(&ReorgOptions {
        depth: 2,
        tx_block_pairs: vec![(raw_tx(vec![1]), 2)],
    });
    assert_eq!(r, Err(Error::InvalidReorgSpec));
    assert_eq!(l.tip().hash, before_hash);
}

#[test]
fn reorg_undecodable_raw_rejected() {
    let mut l = chain_of_height(3);
    let before_hash = l.tip().hash;
    let r = l.reorg(&ReorgOptions {
        depth: 1,
        tx_block_pairs: vec![(raw_tx(Vec::new()), 0)],
    });
    assert_eq!(r, Err(Error::DecodeError));
    assert_eq!(l.tip().hash, before_hash);
}

#[test]
fn reorg_preserves_height_and_prefix() {
    let mut l = chain_of_height(6);
    let kept: Vec<W256> = (0..=3).map(|i| l.blocks[i].hash).collect();
    let tip_before = l.tip().number;
    l.reorg(&ReorgOptions { depth: 3, tx_block_pairs: Vec::new() }).unwrap();
    assert_eq!(l.tip().number, tip_before);
    for i in 0..=3 {
        assert_eq!(l.blocks[i].hash, kept[i]);
    }
}

#[test]
fn reorg_writes_reach_state() {
    let mut l = chain_of_height(2);
    let addr = w(0xaa);
    l.reorg(&ReorgOptions {
        depth: 1,
        tx_block_pairs: vec![(write_tx(addr, 7, 99), 0)],
    })
    .unwrap();
    let page = l
        .storage_range_at(&addr, &BlockId::Latest, &w(0), 10)
        .unwrap();
    assert_eq!(page.storage.len(), 1);
    assert_eq!(page.storage[0].key, w(7));
    assert_eq!(page.storage[0].value, w(99));
    assert_eq!(page.next_key, None);
}

#[test]
fn reverted_transaction_still_included() {
    let mut l = Ledger::new();
    // an input of unrecognized length reverts but is still mined
    let odd = TransactionData::JSON(TransactionRequest {
        from: None,
        to: Some(w(1)),
        value: None,
        nonce: None,
        gas: None,
        input: vec![1, 2, 3],
    });
    l.mine_block(&vec![odd.clone()]).unwrap();
    assert_eq!(l.tip().transactions.len(), 1);
    assert!(l.tip().transactions[0].reverted);
    assert_eq!(l.tip().transactions[0].descriptor, odd);
}

#[test]
fn execution_consumes_sender_nonce() {
    let mut l = Ledger::new();
    // the node signer backs a request without a sender
    l.mine_block(&vec![write_tx(w(0x31), 1, 1), write_tx(w(0x31), 2, 2)])
        .unwrap();
    let signer = w(1);
    let acct = l.tip().state.get_account(&signer).unwrap();
    assert_eq!(acct.nonce, 2);
    // an explicit sender is completed with its own account
    let from_tx = TransactionData::JSON(TransactionRequest {
        from: Some(w(0x42)),
        to: Some(w(0x31)),
        value: None,
        nonce: None,
        gas: None,
        input: Vec::new(),
    });
    l.mine_block(&vec![from_tx]).unwrap();
    assert_eq!(l.tip().state.get_account(&w(0x42)).unwrap().nonce, 1);
    assert_eq!(l.tip().state.get_account(&signer).unwrap().nonce, 2);
}
