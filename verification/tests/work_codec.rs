use anvil_core::word::W256;
use anvil_core::types::Work;
use anvil_core::ledger::Ledger;
use anvil_core::work::{encode_work, decode_work};

fn w(n: u64) -> W256 {
    W256 { hi: 0, lo: n as u128 }
}

#[test]
fn work_with_number_is_four_tuple() {
    let work = Work { pow_hash: w(1), seed_hash: w(2), target: w(3), number: Some(77) };
    let wire = encode_work(&work);
    assert_eq!(wire.len(), 4);
    assert_eq!(wire[0], w(1));
    assert_eq!(wire[1], w(2));
    assert_eq!(wire[2], w(3));
    assert_eq!(wire[3], w(77));
}

#[test]
fn work_without_number_is_three_tuple() {
    let work = Work { pow_hash: w(1), seed_hash: w(2), target: w(3), number: None };
    let wire = encode_work(&work);
    assert_eq!(wire.len(), 3);
    assert_eq!(wire[2], w(3));
}

#[test]
fn decode_accepts_both_shapes() {
    let three = vec![w(1), w(2), w(3)];
    let got = decode_work(&three).unwrap();
    assert_eq!(got.number, None);
    assert_eq!(got.pow_hash, w(1));
    let four = vec![w(1), w(2), w(3), w(9)];
    let got = decode_work(&four).unwrap();
    assert_eq!(got.number, Some(9));
}

#[test]
fn decode_rejects_malformed() {
    assert_eq!(decode_work(&vec![w(1), w(2)]), None);
    assert_eq!(decode_work(&vec![w(1), w(2), w(3), w(4), w(5)]), None);
    // a fourth word too large for a block number
    let big = W256 { hi: 1, lo: 0 };
    assert_eq!(decode_work(&vec![w(1), w(2), w(3), big]), None);
}

#[test]
fn work_round_trip() {
    for number in [None, Some(0), Some(42), Some(u64::MAX)] {
        let work = Work { pow_hash: w(10), seed_hash: w(20), target: w(30), number };
        assert_eq!(decode_work(&encode_work(&work)), Some(work));
    }
}

#[test]
fn default_work_is_empty() {
    let d = Work::default();
    assert_eq!(d.number, None);
    assert_eq!(d.pow_hash, w(0));
}

#[test]
fn get_work_follows_tip() {
    let mut l = Ledger::new();
    l.mine_block(&Vec::new()).unwrap();
    l.mine_block(&Vec::new()).unwrap();
    let work = l.get_work();
    assert_eq!(work.pow_hash, l.tip().hash);
    assert_eq!(work.seed_hash, l.tip().parent_hash);
    assert_eq!(work.target, l.tip().target);
    assert_eq!(work.number, Some(3));
    // the descriptor is recomputed as the tip moves
    l.mine_block(&Vec::new()).unwrap();
    let next = l.get_work();
    assert_eq!(next.number, Some(4));
    assert_ne!(next.pow_hash, work.pow_hash);
}

#[test]
fn word_comparisons() {
    let a = W256 { hi: 0, lo: 5 };
    let b = W256 { hi: 0, lo: 9 };
    let c = W256 { hi: 1, lo: 0 };
    assert!(a.lt(&b));
    assert!(b.lt(&c));
    assert!(!c.lt(&a));
    assert!(a.le(&a));
    assert_eq!(W256::from_u64(7).to_u64(), Some(7));
    assert_eq!(c.to_u64(), None);
    assert_eq!(W256::zero(), w(0));
}
