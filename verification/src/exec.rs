//! The execution semantics of one transaction descriptor against a
//! snapshot. The engine emulates execution with a small deterministic
//! calling convention on the call input data: 64 bytes write a storage
//! slot of the recipient, 32 bytes read one, empty input is a plain
//! transfer, and any other length reverts. A raw pre-signed transaction
//! decodes when its byte sequence is nonempty and is included verbatim
//! with no state effect.

use vstd::prelude::*;
use crate::word::W256;
use crate::word::word_val;
use crate::types::{TransactionRequest, TransactionData, StorageEntry, CallTrace};
use crate::state::{Account, AccountV, Snapshot, snap_wf, acct_at, lookup_slot, slot_write,
    sorted_storage, storage_get, storage_set, lemma_addr_index, addr_index};

verus! {

/// The mathematical value of a structured request.
pub ghost struct ReqV {
    pub from: Option<W256>,
    pub to: Option<W256>,
    pub value: Option<W256>,
    pub nonce: Option<u64>,
    pub gas: Option<u64>,
    pub input: Seq<u8>,
}

impl View for TransactionRequest {
    type V = ReqV;

    open spec fn view(&self) -> ReqV {
        ReqV {
            from: self.from,
            to: self.to,
            value: self.value,
            nonce: self.nonce,
            gas: self.gas,
            input: self.input@,
        }
    }
}

/// The mathematical value of a transaction descriptor.
pub ghost enum TxDataV {
    JSON(ReqV),
    Raw(Seq<u8>),
}

impl View for TransactionData {
    type V = TxDataV;

    open spec fn view(&self) -> TxDataV {
        match self {
            TransactionData::JSON(req) => TxDataV::JSON(req@),
            TransactionData::Raw(b) => TxDataV::Raw(b@),
        }
    }
}

/// A descriptor decodes when it is structured, or raw and nonempty.
pub open spec fn tx_decodes(td: TxDataV) -> bool {
    match td {
        TxDataV::JSON(_) => true,
        TxDataV::Raw(b) => b.len() > 0,
    }
}

/// The big-endian integer a byte sequence denotes.
pub open spec fn be_int(s: Seq<u8>) -> int
    decreases s.len(),
{
    if s.len() == 0 {
        0
    } else {
        be_int(s.drop_last()) * 256 + s.last()
    }
}

/// 256^n.
pub open spec fn pow256(n: nat) -> int
    decreases n,
{
    if n == 0 {
        1
    } else {
        256 * pow256((n - 1) as nat)
    }
}

/// A byte sequence denotes less than 256^len.
pub proof fn lemma_be_int_bound(s: Seq<u8>)
    ensures
        0 <= be_int(s) < pow256(s.len()),
    decreases s.len(),
{
    if s.len() > 0 {
        lemma_be_int_bound(s.drop_last());
        assert(be_int(s.drop_last()) * 256 <= (pow256((s.len() - 1) as nat) - 1) * 256)
            by (nonlinear_arith)
            requires be_int(s.drop_last()) <= pow256((s.len() - 1) as nat) - 1;
    }
}

/// The word the 32 bytes at `s` denote, big-endian.
pub open spec fn word_of_bytes(s: Seq<u8>) -> W256
    recommends
        s.len() == 32,
{
    W256 {
        hi: be_int(s.subrange(0, 16)) as u128,
        lo: be_int(s.subrange(16, 32)) as u128,
    }
}

/// Reads 16 bytes at `start` as a big-endian integer.
fn u128_be(v: &Vec<u8>, start: usize) -> (r: u128)
    requires
        start + 16 <= v@.len(),
    ensures
        r == be_int(v@.subrange(start as int, start as int + 16)),
{
    proof {
        reveal_with_fuel(pow256, 17);
        assert(pow256(16) == 0x100000000000000000000000000000000int);
    }
    let ghost whole = v@.subrange(start as int, start as int + 16);
    let n = v.len();
    let mut acc: u128 = 0;
    let mut i: usize = 0;
    while i < 16
        invariant
            0 <= i <= 16,
            n == v@.len(),
            start + 16 <= n,
            whole == v@.subrange(start as int, start as int + 16),
            acc == be_int(whole.subrange(0, i as int)),
            pow256(16) == 0x100000000000000000000000000000000int,
        decreases 16 - i,
    {
        proof {
            let pre = whole.subrange(0, i as int);
            let post = whole.subrange(0, i as int + 1);
            assert(post.drop_last() =~= pre);
            assert(post.last() == v@[start as int + i]);
            lemma_be_int_bound(pre);
            lemma_pow256_le(i as nat, 15);
            assert(be_int(pre) * 256 <= (pow256(15) - 1) * 256) by (nonlinear_arith)
                requires be_int(pre) <= pow256(15) - 1;
            assert(pow256(16) == 256 * pow256(15));
            assert((pow256(15) - 1) * 256 + 255 < 256 * pow256(15));
        }
        acc = acc * 256 + (v[start + i] as u128);
        i = i + 1;
    }
    proof {
        assert(whole.subrange(0, 16) =~= whole);
    }
    acc
}

/// 256^n is at least one.
proof fn lemma_pow256_pos(n: nat)
    ensures
        pow256(n) >= 1,
    decreases n,
{
    if n > 0 {
        lemma_pow256_pos((n - 1) as nat);
        assert(256 * pow256((n - 1) as nat) >= 256) by (nonlinear_arith)
            requires pow256((n - 1) as nat) >= 1;
    }
}

/// 256^m is at most 256^n when m is at most n.
proof fn lemma_pow256_le(m: nat, n: nat)
    requires
        m <= n,
    ensures
        pow256(m) <= pow256(n),
    decreases n,
{
    if m < n {
        lemma_pow256_le(m, (n - 1) as nat);
        lemma_pow256_pos((n - 1) as nat);
        assert(pow256((n - 1) as nat) <= 256 * pow256((n - 1) as nat)) by (nonlinear_arith)
            requires pow256((n - 1) as nat) >= 1;
    }
}

/// Reads the 32 bytes at `start` as a word.
pub fn word_from_bytes(v: &Vec<u8>, start: usize) -> (r: W256)
    requires
        start + 32 <= v@.len(),
    ensures
        r == word_of_bytes(v@.subrange(start as int, start as int + 32)),
{
    let n = v.len();
    let hi = u128_be(v, start);
    let lo = u128_be(v, start + 16);
    proof {
        let s = v@.subrange(start as int, start as int + 32);
        assert(s.subrange(0, 16) =~= v@.subrange(start as int, start as int + 16));
        assert(s.subrange(16, 32) =~= v@.subrange(start as int + 16, start as int + 32));
        lemma_be_int_bound(s.subrange(0, 16));
        lemma_be_int_bound(s.subrange(16, 32));
    }
    W256 { hi, lo }
}

/// An element-for-element copy of a structured request.
pub fn copy_request(r: &TransactionRequest) -> (c: TransactionRequest)
    ensures
        c@ == r@,
{
    TransactionRequest {
        from: r.from,
        to: r.to,
        value: r.value,
        nonce: r.nonce,
        gas: r.gas,
        input: crate::state::copy_bytes(&r.input),
    }
}

/// An element-for-element copy of a transaction descriptor.
pub fn copy_tx_data(t: &TransactionData) -> (c: TransactionData)
    ensures
        c@ == t@,
{
    match t {
        TransactionData::JSON(req) => TransactionData::JSON(copy_request(req)),
        TransactionData::Raw(b) => TransactionData::Raw(crate::state::copy_bytes(b)),
    }
}

/// The node-controlled signer: the sender a structured request without a
/// `from` field is completed with.
pub open spec fn signer_word() -> W256 {
    W256 { hi: 0, lo: 1 }
}

/// The executable signer address.
pub fn signer_address() -> (r: W256)
    ensures
        r == signer_word(),
{
    W256 { hi: 0, lo: 1 }
}

/// The sender a request is completed with: its `from` field, or the node
/// signer.
pub open spec fn tx_sender(req: ReqV) -> W256 {
    match req.from {
        Some(a) => a,
        None => signer_word(),
    }
}

/// The nonce after one more transaction, saturating at the top.
pub open spec fn bump_nonce(n: u64) -> u64 {
    if n == u64::MAX {
        n
    } else {
        (n + 1) as u64
    }
}

/// The account an address resolves to, or a fresh empty account.
pub open spec fn acct_or_new(s: Seq<(W256, AccountV)>, a: W256) -> AccountV {
    match acct_at(s, word_val(a)) {
        Some(acct) => acct,
        None => AccountV {
            balance: W256 { hi: 0, lo: 0 },
            nonce: 0,
            code: Seq::empty(),
            storage: Seq::empty(),
        },
    }
}

/// The value a storage read observes: the stored word, or zero for an
/// absent slot or account.
pub open spec fn observed_slot(s: Seq<(W256, AccountV)>, a: W256, kv: int) -> W256 {
    match lookup_slot(acct_or_new(s, a).storage, kv) {
        Some(v) => v,
        None => W256 { hi: 0, lo: 0 },
    }
}

/// The state a descriptor leaves behind. A structured request is
/// completed with its sender and executed as one transaction of that
/// sender: the sender's nonce rises, and 64 bytes of input write one
/// storage slot of the recipient. A raw descriptor is included verbatim
/// with no state effect.
#[verifier::opaque]
pub open spec fn step_accounts(s: Seq<(W256, AccountV)>, td: TxDataV) -> Seq<(W256, AccountV)> {
    match td {
        TxDataV::Raw(_) => s,
        TxDataV::JSON(req) => {
            let sender = tx_sender(req);
            let a = acct_or_new(s, sender);
            let s1 = crate::state::upsert(s, sender, AccountV {
                balance: a.balance,
                nonce: bump_nonce(a.nonce),
                code: a.code,
                storage: a.storage,
            });
            match req.to {
                None => s1,
                Some(to) => if req.input.len() == 64 {
                    let b = acct_or_new(s1, to);
                    let e = StorageEntry {
                        key: word_of_bytes(req.input.subrange(0, 32)),
                        value: word_of_bytes(req.input.subrange(32, 64)),
                    };
                    crate::state::upsert(s1, to, AccountV {
                        balance: b.balance,
                        nonce: b.nonce,
                        code: b.code,
                        storage: slot_write(b.storage, e),
                    })
                } else {
                    s1
                },
            }
        },
    }
}

/// The trace a descriptor produces: a 32-byte input reads a slot; an
/// input of unrecognized length reverts; everything else succeeds with
/// no output.
#[verifier::opaque]
pub open spec fn step_trace(s: Seq<(W256, AccountV)>, td: TxDataV) -> CallTrace {
    match td {
        TxDataV::Raw(_) => CallTrace { reverted: false, output: None },
        TxDataV::JSON(req) => match req.to {
            None => CallTrace { reverted: false, output: None },
            Some(to) => if req.input.len() == 64 || req.input.len() == 0 {
                CallTrace { reverted: false, output: None }
            } else if req.input.len() == 32 {
                CallTrace {
                    reverted: false,
                    output: Some(observed_slot(s, to, word_val(word_of_bytes(req.input)))),
                }
            } else {
                CallTrace { reverted: true, output: None }
            },
        },
    }
}

/// The sorted storage of any account a well-formed snapshot resolves.
pub proof fn lemma_acct_or_new_wf(s: Seq<(W256, AccountV)>, a: W256)
    requires
        snap_wf(s),
    ensures
        sorted_storage(acct_or_new(s, a).storage),
{
    lemma_addr_index(s, word_val(a));
    if addr_index(s, word_val(a)) != -1 {
        assert(acct_or_new(s, a) == s[addr_index(s, word_val(a))].1);
    }
}

/// Executes one decoded transaction descriptor against a snapshot,
/// leaving the state and trace the execution semantics prescribe.
pub fn execute_tx(snap: &mut Snapshot, td: &TransactionData) -> (t: CallTrace)
    requires
        snap_wf(old(snap)@),
    ensures
        final(snap)@ == step_accounts(old(snap)@, td@),
        snap_wf(final(snap)@),
        t == step_trace(old(snap)@, td@),
{
    proof {
        reveal(step_accounts);
        reveal(step_trace);
    }
    match td {
        TransactionData::Raw(_) => CallTrace { reverted: false, output: None },
        TransactionData::JSON(req) => {
            // the trace reads the pre-state
            let trace = match &req.to {
                None => CallTrace { reverted: false, output: None },
                Some(to) => {
                    if req.input.len() == 64 || req.input.len() == 0 {
                        CallTrace { reverted: false, output: None }
                    } else if req.input.len() == 32 {
                        let key = word_from_bytes(&req.input, 0);
                        proof {
                            assert(req.input@.subrange(0int, 0int + 32) =~= req.input@);
                        }
                        let out = match snap.get_account(to) {
                            Some(a) => match storage_get(&a.storage, &key) {
                                Some(v) => v,
                                None => W256::zero(),
                            },
                            None => W256::zero(),
                        };
                        CallTrace { reverted: false, output: Some(out) }
                    } else {
                        CallTrace { reverted: true, output: None }
                    }
                },
            };
            // completion: the sender, whose nonce the execution consumes
            let sender = match &req.from {
                Some(a) => *a,
                None => signer_address(),
            };
            proof {
                lemma_acct_or_new_wf(old(snap)@, sender);
            }
            let mut sa = match snap.get_account(&sender) {
                Some(a) => a,
                None => Account {
                    balance: W256::zero(),
                    nonce: 0,
                    code: Vec::new(),
                    storage: Vec::new(),
                },
            };
            proof {
                assert(sa@ == acct_or_new(old(snap)@, sender));
            }
            sa.nonce = if sa.nonce == u64::MAX { u64::MAX } else { sa.nonce + 1 };
            snap.set_account(sender, sa);
            let ghost s1 = snap@;
            // the input effect runs on the completed state
            match &req.to {
                None => {},
                Some(to) => {
                    if req.input.len() == 64 {
                        let key = word_from_bytes(&req.input, 0);
                        let value = word_from_bytes(&req.input, 32);
                        proof {
                            lemma_acct_or_new_wf(s1, *to);
                            assert(req.input@.subrange(0, 32)
                                =~= req.input@.subrange(0int, 0int + 32));
                            assert(req.input@.subrange(32, 64)
                                =~= req.input@.subrange(32int, 32int + 32));
                        }
                        let mut acct = match snap.get_account(to) {
                            Some(a) => a,
                            None => Account {
                                balance: W256::zero(),
                                nonce: 0,
                                code: Vec::new(),
                                storage: Vec::new(),
                            },
                        };
                        proof {
                            assert(acct@ == acct_or_new(s1, *to));
                        }
                        storage_set(&mut acct.storage, key, value);
                        snap.set_account(*to, acct);
                    }
                },
            }
            trace
        },
    }
}

} // verus!
