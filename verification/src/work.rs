//! The mining work issuer and the positional wire shape of its
//! descriptor: a 4-tuple when a block number is associated, a 3-tuple
//! otherwise, and a decoder that accepts both shapes.

use vstd::prelude::*;
use crate::word::{W256, word_val, word_from_u64};
use crate::types::Work;
use crate::ledger::Ledger;

verus! {

/// The positional wire shape of a work descriptor: the three hashes, then
/// the number as a fourth word only when one is associated.
pub open spec fn work_wire(w: Work) -> Seq<W256> {
    match w.number {
        Some(n) => seq![w.pow_hash, w.seed_hash, w.target, word_from_u64(n)],
        None => seq![w.pow_hash, w.seed_hash, w.target],
    }
}

/// The descriptor a positional wire tuple denotes: three words give no
/// number, four give one when the fourth fits; anything else is malformed.
pub open spec fn work_parse(s: Seq<W256>) -> Option<Work> {
    if s.len() == 3 {
        Some(Work { pow_hash: s[0], seed_hash: s[1], target: s[2], number: None })
    } else if s.len() == 4 && word_val(s[3]) <= u64::MAX {
        Some(Work {
            pow_hash: s[0],
            seed_hash: s[1],
            target: s[2],
            number: Some(word_val(s[3]) as u64),
        })
    } else {
        None
    }
}

/// Encodes a work descriptor as its positional tuple.
pub fn encode_work(w: &Work) -> (r: Vec<W256>)
    ensures
        r@ == work_wire(*w),
        w.number is Some ==> r@.len() == 4,
        w.number is None ==> r@.len() == 3,
{
    let mut r: Vec<W256> = Vec::new();
    r.push(w.pow_hash);
    r.push(w.seed_hash);
    r.push(w.target);
    match w.number {
        Some(n) => {
            r.push(W256::from_u64(n));
            proof {
                assert(r@ =~= work_wire(*w));
            }
        },
        None => {
            proof {
                assert(r@ =~= work_wire(*w));
            }
        },
    }
    r
}

/// Decodes a positional tuple, accepting both the 3- and the 4-word
/// shape.
pub fn decode_work(v: &Vec<W256>) -> (r: Option<Work>)
    ensures
        r == work_parse(v@),
{
    if v.len() == 3 {
        Some(Work { pow_hash: v[0], seed_hash: v[1], target: v[2], number: None })
    } else if v.len() == 4 {
        match v[3].to_u64() {
            Some(n) => Some(Work {
                pow_hash: v[0],
                seed_hash: v[1],
                target: v[2],
                number: Some(n),
            }),
            None => None,
        }
    } else {
        None
    }
}

/// A work descriptor survives the round trip through its wire tuple,
/// whichever of the two shapes it takes.
pub proof fn lemma_work_round_trip(w: Work)
    ensures
        work_parse(work_wire(w)) == Some(w),
{
    match w.number {
        Some(n) => {
            assert(work_wire(w).len() == 4);
            assert(word_val(word_from_u64(n)) == n);
        },
        None => {
            assert(work_wire(w).len() == 3);
        },
    }
}

impl Ledger {
    /// The proof-of-work descriptor for the next block to be mined,
    /// derived from the tip: its hash as the proof-of-work seal base, its
    /// parent hash as the seed, its target, and the next block number.
    pub fn get_work(&self) -> (w: Work)
        requires
            self.wf(),
            self@.blocks.len() >= 1,
        ensures
            w.pow_hash == self@.blocks.last().hash,
            w.seed_hash == self@.blocks.last().parent_hash,
            w.target == self@.blocks.last().target,
            w.number == Some((self@.blocks.last().number + 1) as u64),
    {
        let n = self.blocks.len();
        let tip = &self.blocks[n - 1];
        proof {
            assert(self@.blocks[n - 1].number == n - 1);
        }
        Work {
            pow_hash: tip.hash,
            seed_hash: tip.parent_hash,
            target: tip.target,
            number: Some(tip.number + 1),
        }
    }
}

} // verus!
