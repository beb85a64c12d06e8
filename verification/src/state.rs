//! Account state snapshots: a point-in-time mapping from account address
//! to balance, nonce, code and storage. A snapshot is never mutated once
//! a block owns it; block transitions copy and update.

use vstd::prelude::*;
use crate::word::W256;
use crate::word::word_val;
use crate::word::lemma_word_val_injective;
use crate::types::StorageEntry;

verus! {

/// The state of one account.
#[derive(Debug)]
pub struct Account {
    pub balance: W256,
    pub nonce: u64,
    pub code: Vec<u8>,
    /// The account's storage slots, in strictly ascending key order.
    pub storage: Vec<StorageEntry>,
}

/// The mathematical value of an account.
pub ghost struct AccountV {
    pub balance: W256,
    pub nonce: u64,
    pub code: Seq<u8>,
    pub storage: Seq<StorageEntry>,
}

impl View for Account {
    type V = AccountV;

    open spec fn view(&self) -> AccountV {
        AccountV {
            balance: self.balance,
            nonce: self.nonce,
            code: self.code@,
            storage: self.storage@,
        }
    }
}

/// A point-in-time account state: address/account pairs. Lookup takes the
/// first pair with a matching address.
#[derive(Debug)]
pub struct Snapshot {
    pub accounts: Vec<(W256, Account)>,
}

impl View for Snapshot {
    type V = Seq<(W256, AccountV)>;

    open spec fn view(&self) -> Seq<(W256, AccountV)> {
        self.accounts@.map_values(|p: (W256, Account)| (p.0, p.1@))
    }
}

/// Storage keys strictly ascend: unique and ordered.
pub open spec fn sorted_storage(s: Seq<StorageEntry>) -> bool {
    forall|i: int, j: int|
        0 <= i < j < s.len() ==> word_val(#[trigger] s[i].key) < word_val(#[trigger] s[j].key)
}

/// Every account of the snapshot has sorted storage.
pub open spec fn snap_wf(s: Seq<(W256, AccountV)>) -> bool {
    forall|i: int| 0 <= i < s.len() ==> sorted_storage((#[trigger] s[i]).1.storage)
}

/// The value of storage slot `q`, if present: the first matching entry.
pub open spec fn lookup_slot(s: Seq<StorageEntry>, q: int) -> Option<W256>
    decreases s.len(),
{
    if s.len() == 0 {
        None
    } else if word_val(s[0].key) == q {
        Some(s[0].value)
    } else {
        lookup_slot(s.subrange(1, s.len() as int), q)
    }
}

/// The index of the first pair with address value `q`, or -1.
pub open spec fn addr_index(s: Seq<(W256, AccountV)>, q: int) -> int
    decreases s.len(),
{
    if s.len() == 0 {
        -1
    } else if word_val(s[0].0) == q {
        0
    } else {
        let rest = addr_index(s.subrange(1, s.len() as int), q);
        if rest == -1 {
            -1
        } else {
            rest + 1
        }
    }
}

/// The account at address value `q`, if present.
pub open spec fn acct_at(s: Seq<(W256, AccountV)>, q: int) -> Option<AccountV> {
    let i = addr_index(s, q);
    if i == -1 {
        None
    } else {
        Some(s[i].1)
    }
}

/// `addr_index` lands on a matching pair, and earlier pairs do not match.
pub proof fn lemma_addr_index(s: Seq<(W256, AccountV)>, q: int)
    ensures
        addr_index(s, q) == -1 ==> forall|i: int| 0 <= i < s.len() ==> word_val((#[trigger] s[i]).0) != q,
        addr_index(s, q) != -1 ==> 0 <= addr_index(s, q) < s.len()
            && word_val(s[addr_index(s, q)].0) == q
            && (forall|i: int| 0 <= i < addr_index(s, q) ==> word_val((#[trigger] s[i]).0) != q),
    decreases s.len(),
{
    if s.len() > 0 && word_val(s[0].0) != q {
        let t = s.subrange(1, s.len() as int);
        lemma_addr_index(t, q);
        assert(forall|i: int| 1 <= i < s.len() ==> (#[trigger] s[i]) == t[i - 1]);
        if addr_index(s, q) != -1 {
            assert(s[addr_index(s, q)] == t[addr_index(t, q)]);
        }
    }
}

/// The first index determined from the outside: if `s[i]` matches and no
/// earlier pair does, `addr_index` is `i`.
pub proof fn lemma_addr_index_is(s: Seq<(W256, AccountV)>, q: int, i: int)
    requires
        0 <= i < s.len(),
        word_val(s[i].0) == q,
        forall|j: int| 0 <= j < i ==> word_val((#[trigger] s[j]).0) != q,
    ensures
        addr_index(s, q) == i,
    decreases s.len(),
{
    if i > 0 {
        let t = s.subrange(1, s.len() as int);
        assert(forall|j: int| 1 <= j < s.len() ==> (#[trigger] s[j]) == t[j - 1]);
        assert forall|j: int| 0 <= j < i - 1 implies word_val((#[trigger] t[j]).0) != q by {
            assert(t[j] == s[j + 1]);
        }
        lemma_addr_index_is(t, q, i - 1);
    }
}

/// If no pair matches, `addr_index` is -1.
pub proof fn lemma_addr_index_none(s: Seq<(W256, AccountV)>, q: int)
    requires
        forall|j: int| 0 <= j < s.len() ==> word_val((#[trigger] s[j]).0) != q,
    ensures
        addr_index(s, q) == -1,
    decreases s.len(),
{
    if s.len() > 0 {
        let t = s.subrange(1, s.len() as int);
        assert forall|j: int| 0 <= j < t.len() implies word_val((#[trigger] t[j]).0) != q by {
            assert(t[j] == s[j + 1]);
        }
        lemma_addr_index_none(t, q);
    }
}

/// The first index whose key value is at least `kv`; `s.len()` when all
/// keys are below `kv`.
pub open spec fn slot_lower_bound(s: Seq<StorageEntry>, kv: int) -> int
    decreases s.len(),
{
    if s.len() == 0 {
        0
    } else if word_val(s[0].key) >= kv {
        0
    } else {
        1 + slot_lower_bound(s.subrange(1, s.len() as int), kv)
    }
}

/// The lower bound determined from the outside: if everything before `i`
/// is below `kv` and `s[i]` (when it exists) is not, the bound is `i`.
pub proof fn lemma_slot_lower_bound_is(s: Seq<StorageEntry>, kv: int, i: int)
    requires
        0 <= i <= s.len(),
        forall|j: int| 0 <= j < i ==> word_val((#[trigger] s[j]).key) < kv,
        i < s.len() ==> word_val(s[i].key) >= kv,
    ensures
        slot_lower_bound(s, kv) == i,
    decreases s.len(),
{
    if i > 0 {
        let t = s.subrange(1, s.len() as int);
        assert(forall|j: int| 1 <= j < s.len() ==> (#[trigger] s[j]) == t[j - 1]);
        assert forall|j: int| 0 <= j < i - 1 implies word_val((#[trigger] t[j]).key) < kv by {
            assert(t[j] == s[j + 1]);
        }
        lemma_slot_lower_bound_is(t, kv, i - 1);
    }
}

/// The basic bounds and meaning of `slot_lower_bound`.
pub proof fn lemma_slot_lower_bound(s: Seq<StorageEntry>, kv: int)
    requires
        sorted_storage(s),
    ensures
        0 <= slot_lower_bound(s, kv) <= s.len(),
        forall|j: int| 0 <= j < slot_lower_bound(s, kv) ==> word_val((#[trigger] s[j]).key) < kv,
        forall|j: int| slot_lower_bound(s, kv) <= j < s.len() ==> word_val((#[trigger] s[j]).key) >= kv,
    decreases s.len(),
{
    if s.len() > 0 && word_val(s[0].key) < kv {
        let t = s.subrange(1, s.len() as int);
        assert(forall|j: int| 1 <= j < s.len() ==> (#[trigger] s[j]) == t[j - 1]);
        lemma_slot_lower_bound(t, kv);
    }
}

/// Writing a slot of a sorted sequence: replace the entry with the same
/// key, or place the new entry at its ordered position.
pub open spec fn slot_write(s: Seq<StorageEntry>, e: StorageEntry) -> Seq<StorageEntry> {
    let i = slot_lower_bound(s, word_val(e.key));
    if i < s.len() && word_val(s[i].key) == word_val(e.key) {
        s.update(i, e)
    } else {
        s.insert(i, e)
    }
}

/// A slot write keeps the keys sorted and changes exactly the written key.
pub proof fn lemma_slot_write(s: Seq<StorageEntry>, e: StorageEntry)
    requires
        sorted_storage(s),
    ensures
        sorted_storage(slot_write(s, e)),
        forall|q: int| #[trigger] lookup_slot(slot_write(s, e), q)
            == (if q == word_val(e.key) { Some(e.value) } else { lookup_slot(s, q) }),
{
    let kv = word_val(e.key);
    let i = slot_lower_bound(s, kv);
    lemma_slot_lower_bound(s, kv);
    lemma_lookup_write(s, i, e, kv, i < s.len() && word_val(s[i].key) == kv);
    if i < s.len() && word_val(s[i].key) == kv {
        let t = s.update(i, e);
        assert forall|a: int, b: int| 0 <= a < b < t.len()
            implies word_val((#[trigger] t[a]).key) < word_val((#[trigger] t[b]).key) by {
            assert(word_val(t[a].key) == word_val(s[a].key));
            assert(word_val(t[b].key) == word_val(s[b].key));
        }
    } else {
        let t = s.insert(i, e);
        assert forall|a: int, b: int| 0 <= a < b < t.len()
            implies word_val((#[trigger] t[a]).key) < word_val((#[trigger] t[b]).key) by {
            assert(t[a] == (if a < i { s[a] } else if a == i { e } else { s[a - 1] }));
            assert(t[b] == (if b < i { s[b] } else if b == i { e } else { s[b - 1] }));
        }
    }
}

/// Reads storage slot `key` of a sorted slot sequence.
pub fn storage_get(s: &Vec<StorageEntry>, key: &W256) -> (r: Option<W256>)
    ensures
        r == lookup_slot(s@, word_val(*key)),
{
    let ghost q = word_val(*key);
    proof {
        assert(s@.subrange(0, s@.len() as int) =~= s@);
    }
    let mut i: usize = 0;
    while i < s.len()
        invariant
            0 <= i <= s.len(),
            q == word_val(*key),
            lookup_slot(s@, q) == lookup_slot(s@.subrange(i as int, s@.len() as int), q),
        decreases s.len() - i,
    {
        let e = s[i];
        proof {
            assert(s@.subrange(i as int, s@.len() as int)[0] == s@[i as int]);
        }
        if e.key == *key {
            return Some(e.value);
        }
        proof {
            lemma_word_val_injective(e.key, *key);
            assert(s@.subrange(i as int, s@.len() as int).subrange(
                1, s@.subrange(i as int, s@.len() as int).len() as int)
                =~= s@.subrange(i as int + 1, s@.len() as int));
        }
        i = i + 1;
    }
    None
}

/// Writes storage slot `key := value`, keeping the keys strictly ascending.
pub fn storage_set(s: &mut Vec<StorageEntry>, key: W256, value: W256)
    requires
        sorted_storage(old(s)@),
    ensures
        final(s)@ == slot_write(old(s)@, StorageEntry { key, value }),
        sorted_storage(final(s)@),
        forall|q: int| #[trigger] lookup_slot(final(s)@, q)
            == (if q == word_val(key) { Some(value) } else { lookup_slot(old(s)@, q) }),
{
    let ghost orig = s@;
    let ghost kv = word_val(key);
    let mut i: usize = 0;
    while i < s.len() && s[i].key.lt(&key)
        invariant
            0 <= i <= s.len(),
            s@ == orig,
            orig == old(s)@,
            kv == word_val(key),
            forall|j: int| 0 <= j < i ==> word_val((#[trigger] orig[j]).key) < kv,
        decreases s.len() - i,
    {
        i = i + 1;
    }
    proof {
        lemma_slot_lower_bound_is(orig, kv, i as int);
        lemma_slot_write(orig, StorageEntry { key, value });
    }
    let e = StorageEntry { key, value };
    if i < s.len() && s[i].key == key {
        s[i] = e;
        proof {
            assert(s@ =~= slot_write(orig, e));
        }
    } else {
        proof {
            if i < s.len() {
                lemma_word_val_injective(s@[i as int].key, key);
            }
        }
        s.insert(i, e);
        proof {
            assert(s@ =~= slot_write(orig, e));
        }
    }
}

/// What an in-place update or a positional insert of entry `e` at the
/// lower-bound position `i` does to every slot lookup.
proof fn lemma_lookup_write(s: Seq<StorageEntry>, i: int, e: StorageEntry, kv: int, replace: bool)
    requires
        kv == word_val(e.key),
        0 <= i <= s.len(),
        forall|j: int| 0 <= j < i ==> word_val((#[trigger] s[j]).key) != kv,
        replace ==> i < s.len() && word_val(s[i].key) == kv,
    ensures
        replace ==> forall|q: int| #[trigger] lookup_slot(s.update(i, e), q)
            == (if q == kv { Some(e.value) } else { lookup_slot(s, q) }),
        !replace ==> forall|q: int| #[trigger] lookup_slot(s.insert(i, e), q)
            == (if q == kv { Some(e.value) } else { lookup_slot(s, q) }),
    decreases s.len(),
{
    if i == 0 {
        if replace {
            let t = s.update(0, e);
            assert(t.subrange(1, t.len() as int) =~= s.subrange(1, s.len() as int));
            assert forall|q: int| #[trigger] lookup_slot(t, q)
                == (if q == kv { Some(e.value) } else { lookup_slot(s, q) }) by {
                if q != kv {
                    lemma_lookup_tail_skip(s, q);
                    lemma_lookup_tail_skip(t, q);
                }
            }
        } else {
            let t = s.insert(0, e);
            assert(t.subrange(1, t.len() as int) =~= s);
            assert forall|q: int| #[trigger] lookup_slot(t, q)
                == (if q == kv { Some(e.value) } else { lookup_slot(s, q) }) by {
                assert(t[0] == e);
                if q != kv {
                    lemma_lookup_tail_skip(t, q);
                }
            }
        }
    } else {
        let s1 = s.subrange(1, s.len() as int);
        lemma_lookup_write(s1, i - 1, e, kv, replace);
        let t = if replace { s.update(i, e) } else { s.insert(i, e) };
        assert(t.subrange(1, t.len() as int)
            =~= (if replace { s1.update(i - 1, e) } else { s1.insert(i - 1, e) }));
        assert(t[0] == s[0]);
        assert forall|q: int| #[trigger] lookup_slot(t, q)
            == (if q == kv { Some(e.value) } else { lookup_slot(s, q) }) by {
            if word_val(s[0].key) != q {
                lemma_lookup_tail_skip(s, q);
                lemma_lookup_tail_skip(t, q);
            }
        }
    }
}

/// When the head key does not match, lookup passes to the tail.
proof fn lemma_lookup_tail_skip(s: Seq<StorageEntry>, q: int)
    requires
        s.len() > 0,
        word_val(s[0].key) != q,
    ensures
        lookup_slot(s, q) == lookup_slot(s.subrange(1, s.len() as int), q),
{
}

/// An element-for-element copy of a byte vector.
pub fn copy_bytes(v: &Vec<u8>) -> (r: Vec<u8>)
    ensures
        r@ == v@,
{
    let mut r: Vec<u8> = Vec::new();
    let mut i: usize = 0;
    while i < v.len()
        invariant
            0 <= i <= v.len(),
            r@ == v@.subrange(0, i as int),
        decreases v.len() - i,
    {
        r.push(v[i]);
        proof {
            assert(r@ =~= v@.subrange(0, i as int + 1));
        }
        i = i + 1;
    }
    proof {
        assert(v@.subrange(0, v@.len() as int) =~= v@);
    }
    r
}

/// An element-for-element copy of a slot sequence.
pub fn copy_storage(v: &Vec<StorageEntry>) -> (r: Vec<StorageEntry>)
    ensures
        r@ == v@,
{
    let mut r: Vec<StorageEntry> = Vec::new();
    let mut i: usize = 0;
    while i < v.len()
        invariant
            0 <= i <= v.len(),
            r@ == v@.subrange(0, i as int),
        decreases v.len() - i,
    {
        r.push(v[i]);
        proof {
            assert(r@ =~= v@.subrange(0, i as int + 1));
        }
        i = i + 1;
    }
    proof {
        assert(v@.subrange(0, v@.len() as int) =~= v@);
    }
    r
}

/// A copy of an account with the same mathematical value.
pub fn copy_account(a: &Account) -> (r: Account)
    ensures
        r@ == a@,
{
    Account {
        balance: a.balance,
        nonce: a.nonce,
        code: copy_bytes(&a.code),
        storage: copy_storage(&a.storage),
    }
}

/// A copy of a snapshot with the same mathematical value.
pub fn copy_snapshot(s: &Snapshot) -> (r: Snapshot)
    ensures
        r@ == s@,
{
    let mut accounts: Vec<(W256, Account)> = Vec::new();
    let mut i: usize = 0;
    while i < s.accounts.len()
        invariant
            0 <= i <= s.accounts.len(),
            accounts@.len() == i,
            forall|j: int| 0 <= j < i ==> (#[trigger] accounts@[j]).0 == s.accounts@[j].0
                && accounts@[j].1@ == s.accounts@[j].1@,
        decreases s.accounts.len() - i,
    {
        let p = &s.accounts[i];
        accounts.push((p.0, copy_account(&p.1)));
        i = i + 1;
    }
    let r = Snapshot { accounts };
    proof {
        assert(r@ =~= s@);
    }
    r
}

impl Snapshot {
    /// The empty snapshot: no accounts.
    pub fn empty() -> (r: Snapshot)
        ensures
            r@ =~= Seq::<(W256, AccountV)>::empty(),
            snap_wf(r@),
    {
        Snapshot { accounts: Vec::new() }
    }

    /// The account at `addr`, copied out, or `None` when unknown.
    pub fn get_account(&self, addr: &W256) -> (r: Option<Account>)
        ensures
            match r {
                Some(a) => acct_at(self@, word_val(*addr)) == Some(a@),
                None => acct_at(self@, word_val(*addr)) is None,
            },
    {
        let ghost q = word_val(*addr);
        let mut i: usize = 0;
        while i < self.accounts.len()
            invariant
                0 <= i <= self.accounts.len(),
                q == word_val(*addr),
                forall|j: int| 0 <= j < i ==> word_val((#[trigger] self@[j]).0) != q,
            decreases self.accounts.len() - i,
        {
            let p = &self.accounts[i];
            if p.0 == *addr {
                proof {
                    lemma_addr_index_is(self@, q, i as int);
                }
                return Some(copy_account(&p.1));
            }
            proof {
                lemma_word_val_injective(p.0, *addr);
            }
            i = i + 1;
        }
        proof {
            lemma_addr_index_none(self@, q);
        }
        None
    }

    /// Sets the account at `addr`, replacing the existing entry or adding
    /// one. Every other address keeps its account.
    pub fn set_account(&mut self, addr: W256, acct: Account)
        ensures
            final(self)@ == upsert(old(self)@, addr, acct@),
            forall|q: int| #[trigger] acct_at(final(self)@, q)
                == (if q == word_val(addr) { Some(acct@) } else { acct_at(old(self)@, q) }),
            snap_wf(old(self)@) && sorted_storage(acct@.storage) ==> snap_wf(final(self)@),
    {
        let ghost orig = self@;
        let ghost qv = word_val(addr);
        let mut i: usize = 0;
        while i < self.accounts.len()
            invariant
                0 <= i <= self.accounts.len(),
                self@ == orig,
                orig == old(self)@,
                qv == word_val(addr),
                forall|j: int| 0 <= j < i ==> word_val((#[trigger] orig[j]).0) != qv,
            decreases self.accounts.len() - i,
        {
            if self.accounts[i].0 == addr {
                proof {
                    lemma_addr_index_is(orig, qv, i as int);
                }
                self.accounts[i] = (addr, acct);
                proof {
                    assert(self@ =~= orig.update(i as int, (addr, acct@)));
                    lemma_upsert(orig, addr, acct@);
                    assert forall|k: int| 0 <= k < self@.len()
                        && snap_wf(orig) && sorted_storage(acct@.storage)
                        implies sorted_storage((#[trigger] self@[k]).1.storage) by {
                        if k != i {
                            assert(self@[k] == orig[k]);
                        }
                    }
                }
                return;
            }
            proof {
                lemma_word_val_injective(self.accounts@[i as int].0, addr);
            }
            i = i + 1;
        }
        proof {
            lemma_addr_index_none(orig, qv);
        }
        self.accounts.push((addr, acct));
        proof {
            assert(self@ =~= orig.push((addr, acct@)));
            lemma_upsert(orig, addr, acct@);
            assert forall|k: int| 0 <= k < self@.len()
                && snap_wf(orig) && sorted_storage(acct@.storage)
                implies sorted_storage((#[trigger] self@[k]).1.storage) by {
                if k != orig.len() {
                    assert(self@[k] == orig[k]);
                }
            }
        }
    }
}

/// Setting an address of a snapshot: replace the first matching pair, or
/// append one.
pub open spec fn upsert(s: Seq<(W256, AccountV)>, a: W256, acct: AccountV) -> Seq<(W256, AccountV)> {
    let i = addr_index(s, word_val(a));
    if i == -1 {
        s.push((a, acct))
    } else {
        s.update(i, (a, acct))
    }
}

/// An upsert changes exactly the written address.
pub proof fn lemma_upsert(s: Seq<(W256, AccountV)>, a: W256, acct: AccountV)
    ensures
        forall|q: int| #[trigger] acct_at(upsert(s, a, acct), q)
            == (if q == word_val(a) { Some(acct) } else { acct_at(s, q) }),
{
    let qv = word_val(a);
    lemma_addr_index(s, qv);
    let i = addr_index(s, qv);
    if i == -1 {
        lemma_set_account_seq(s, upsert(s, a, acct), s.len() as int, qv);
    } else {
        lemma_set_account_seq(s, upsert(s, a, acct), i, qv);
    }
}

/// What replacing position `i` (or appending, when `i == s.len()`) with a
/// pair whose address first matches there does to every lookup.
proof fn lemma_set_account_seq(s: Seq<(W256, AccountV)>, t: Seq<(W256, AccountV)>, i: int, qv: int)
    requires
        0 <= i <= s.len(),
        t.len() == (if i == s.len() { s.len() + 1 } else { s.len() as nat }),
        forall|j: int| 0 <= j < s.len() && j != i ==> (#[trigger] t[j]) == s[j],
        i < t.len(),
        word_val(t[i].0) == qv,
        forall|j: int| 0 <= j < i ==> word_val((#[trigger] s[j]).0) != qv,
        i < s.len() ==> word_val(s[i].0) == qv,
    ensures
        forall|q: int| #[trigger] acct_at(t, q)
            == (if q == qv { Some(t[i].1) } else { acct_at(s, q) }),
{
    assert forall|q: int| #[trigger] acct_at(t, q)
        == (if q == qv { Some(t[i].1) } else { acct_at(s, q) }) by {
        if q == qv {
            lemma_addr_index_is(t, q, i);
        } else {
            lemma_addr_index(s, q);
            let k = addr_index(s, q);
            if k == -1 {
                assert forall|j: int| 0 <= j < t.len()
                    implies word_val((#[trigger] t[j]).0) != q by {
                    if j != i {
                        assert(t[j] == s[j]);
                    }
                }
                lemma_addr_index_none(t, q);
            } else {
                assert(word_val(s[k].0) == q);
                assert(k != i);
                assert(t[k] == s[k]);
                assert forall|j: int| 0 <= j < k
                    implies word_val((#[trigger] t[j]).0) != q by {
                    if j != i {
                        assert(t[j] == s[j]);
                    }
                }
                lemma_addr_index_is(t, q, k);
            }
        }
    }
}

} // verus!
