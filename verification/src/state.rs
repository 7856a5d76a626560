//! Contract storage, account records, and the world state.
use vstd::prelude::*;
use crate::types::{Address, Bytes, Bytes32};
use crate::errors::VmError;
use crate::keccak::keccak256;

verus! {

/// The 32-byte zero word, the default of every never-written slot.
pub open spec fn zero_word() -> Seq<u8> {
    Seq::new(32, |i: int| 0u8)
}

/// First-match lookup in an association list of storage slots.
pub open spec fn slot_lookup(s: Seq<(Bytes32, Bytes32)>, k: Seq<u8>) -> Option<Seq<u8>>
    decreases s.len(),
{
    if s.len() == 0 {
        None
    } else if s[0].0@ == k {
        Some(s[0].1@)
    } else {
        slot_lookup(s.skip(1), k)
    }
}

/// A first match at index i, with no earlier match, decides the lookup.
proof fn lemma_slot_lookup_index(s: Seq<(Bytes32, Bytes32)>, k: Seq<u8>, i: int)
    requires
        0 <= i < s.len(),
        s[i].0@ == k,
        forall|j: int| 0 <= j < i ==> s[j].0@ != k,
    ensures
        slot_lookup(s, k) == Some(s[i].1@),
    decreases i,
{
    if i > 0 {
        assert(s.skip(1)[i - 1] == s[i]);
        assert(forall|j: int| 0 <= j < i - 1 ==> #[trigger] s.skip(1)[j].0@ == s[j + 1].0@);
        lemma_slot_lookup_index(s.skip(1), k, i - 1);
    }
}

/// With no match anywhere the lookup is empty.
proof fn lemma_slot_lookup_none(s: Seq<(Bytes32, Bytes32)>, k: Seq<u8>)
    requires
        forall|j: int| 0 <= j < s.len() ==> s[j].0@ != k,
    ensures
        slot_lookup(s, k) is None,
    decreases s.len(),
{
    if s.len() > 0 {
        assert(forall|j: int| 0 <= j < s.len() - 1 ==> #[trigger] s.skip(1)[j].0@ == s[j + 1].0@);
        lemma_slot_lookup_none(s.skip(1), k);
    }
}

/// Replacing the value at an index keeps every other key's lookup.
proof fn lemma_slot_lookup_update(
    s: Seq<(Bytes32, Bytes32)>,
    i: int,
    p: (Bytes32, Bytes32),
    k: Seq<u8>,
)
    requires
        0 <= i < s.len(),
        p.0@ == s[i].0@,
        k != p.0@,
    ensures
        slot_lookup(s.update(i, p), k) == slot_lookup(s, k),
    decreases i,
{
    let s2 = s.update(i, p);
    if i == 0 {
        assert(s2.skip(1) =~= s.skip(1));
    } else {
        assert(s2[0] == s[0]);
        if s[0].0@ != k {
            assert(s2.skip(1) =~= s.skip(1).update(i - 1, p));
            assert(s.skip(1)[i - 1] == s[i]);
            lemma_slot_lookup_update(s.skip(1), i - 1, p, k);
        }
    }
}

/// Appending a pair changes only that key's lookup, when the key is new.
proof fn lemma_slot_lookup_push(
    s: Seq<(Bytes32, Bytes32)>,
    p: (Bytes32, Bytes32),
    k: Seq<u8>,
)
    requires
        forall|j: int| 0 <= j < s.len() ==> s[j].0@ != p.0@,
    ensures
        slot_lookup(s.push(p), p.0@) == Some(p.1@),
        k != p.0@ ==> slot_lookup(s.push(p), k) == slot_lookup(s, k),
    decreases s.len(),
{
    let s2 = s.push(p);
    assert(s2[s.len() as int] == p);
    assert(forall|j: int| 0 <= j < s.len() ==> #[trigger] s2[j] == s[j]);
    lemma_slot_lookup_index(s2, p.0@, s.len() as int);
    if k != p.0@ {
        if s.len() == 0 {
            assert(s2.skip(1) =~= Seq::<(Bytes32, Bytes32)>::empty());
            assert(slot_lookup(s2.skip(1), k) is None);
            assert(s2[0] == p);
            assert(slot_lookup(s2, k) is None);
            assert(slot_lookup(s, k) is None);
        } else {
            assert(s2.skip(1) =~= s.skip(1).push(p));
            assert(forall|j: int|
                0 <= j < s.len() - 1 ==> #[trigger] s.skip(1)[j].0@ == s[j + 1].0@);
            lemma_slot_lookup_push(s.skip(1), p, k);
            assert(s2[0] == s[0]);
            if s[0].0@ == k {
                assert(slot_lookup(s2, k) == Some(s[0].1@));
                assert(slot_lookup(s, k) == Some(s[0].1@));
            } else {
                assert(slot_lookup(s2, k) == slot_lookup(s2.skip(1), k));
                assert(slot_lookup(s, k) == slot_lookup(s.skip(1), k));
            }
        }
    }
}

/// Replacing the matching slot keeps every other key's lookup and the
/// uniqueness of keys.
proof fn lemma_slot_put_set(
    s_old: Seq<(Bytes32, Bytes32)>,
    s_new: Seq<(Bytes32, Bytes32)>,
    pair: (Bytes32, Bytes32),
    i: int,
)
    requires
        0 <= i < s_old.len(),
        s_new == s_old.update(i, pair),
        s_old[i].0@ == pair.0@,
        forall|a: int, b: int|
            0 <= a < b < s_old.len() ==> (#[trigger] s_old[a]).0@ != (#[trigger] s_old[b]).0@,
    ensures
        slot_lookup(s_new, pair.0@) == Some(pair.1@),
        forall|k: Seq<u8>|
            k != pair.0@ ==> #[trigger] slot_lookup(s_new, k) == slot_lookup(s_old, k),
        forall|a: int, b: int|
            0 <= a < b < s_new.len() ==> (#[trigger] s_new[a]).0@ != (#[trigger] s_new[b]).0@,
{
    assert forall|j: int| 0 <= j < i implies s_new[j].0@ != pair.0@ by {
        assert(s_old[j].0@ != s_old[i].0@);
    }
    lemma_slot_lookup_index(s_new, pair.0@, i);
    assert forall|k: Seq<u8>|
        k != pair.0@ implies #[trigger] slot_lookup(s_new, k) == slot_lookup(s_old, k) by {
        lemma_slot_lookup_update(s_old, i, pair, k);
    }
    assert forall|a: int, b: int|
        0 <= a < b < s_new.len() implies (#[trigger] s_new[a]).0@ != (
    #[trigger] s_new[b]).0@ by {
        assert(s_new[a].0@ == s_old[a].0@);
        assert(s_new[b].0@ == s_old[b].0@);
    }
}

/// One account's storage: a mapping from 32-byte keys to 32-byte values,
/// held as an association list with unique keys.
pub struct Storage {
    slots: Vec<(Bytes32, Bytes32)>,
}

impl Storage {
    /// Keys appear at most once.
    pub closed spec fn wf(&self) -> bool {
        forall|i: int, j: int|
            0 <= i < j < self.slots@.len() ==> (#[trigger] self.slots@[i]).0@ != (
            #[trigger] self.slots@[j]).0@
    }

    /// The value a load of `k` returns: the stored word, or zero.
    pub closed spec fn slot_view(&self, k: Seq<u8>) -> Seq<u8> {
        match self.spec_lookup(k) {
            Some(v) => v,
            None => zero_word(),
        }
    }

    /// Whether key `k` was ever stored.
    pub closed spec fn has_slot(&self, k: Seq<u8>) -> bool {
        self.spec_lookup(k) is Some
    }

    closed spec fn spec_lookup(&self, k: Seq<u8>) -> Option<Seq<u8>> {
        slot_lookup(self.slots@, k)
    }

    /// Empty storage: every key reads as zero.
    pub fn new() -> (r: Storage)
        ensures
            r.wf(),
            forall|k: Seq<u8>| !(#[trigger] r.has_slot(k)),
            forall|k: Seq<u8>| #[trigger] r.slot_view(k) == zero_word(),
    {
        let r = Storage { slots: Vec::new() };
        proof {
            assert forall|k: Seq<u8>| !(#[trigger] r.has_slot(k)) by {
                lemma_slot_lookup_none(r.slots@, k);
            }
            assert forall|k: Seq<u8>| #[trigger] r.slot_view(k) == zero_word() by {
                lemma_slot_lookup_none(r.slots@, k);
            }
        }
        r
    }

    /// A key never stored reads as the zero word, in any storage.
    pub proof fn lemma_unwritten_slot_zero(&self, k: Seq<u8>)
        requires
            !self.has_slot(k),
        ensures
            self.slot_view(k) == zero_word(),
    {
    }

    /// Reads the word at `key`; a never-written key reads as zero.
    pub fn load(&self, key: &Bytes32) -> (r: Bytes32)
        ensures
            r@ == self.slot_view(key@),
            r@.len() == 32,
    {
        let n = self.slots.len();
        let mut i: usize = 0;
        while i < n
            invariant
                i <= n,
                n == self.slots@.len(),
                forall|j: int| 0 <= j < i ==> (#[trigger] self.slots@[j]).0@ != key@,
            decreases n - i,
        {
            if self.slots[i].0.eq_word(key) {
                proof {
                    lemma_slot_lookup_index(self.slots@, key@, i as int);
                }
                let r = self.slots[i].1.dup();
                r.wf_facts();
                return r;
            }
            i += 1;
        }
        proof {
            lemma_slot_lookup_none(self.slots@, key@);
        }
        let z = Bytes32::zero();
        proof {
            assert(z@ =~= zero_word());
        }
        z
    }

    /// Writes the word at `key`, replacing any earlier value.
    pub fn store(&mut self, key: &Bytes32, value: &Bytes32)
        requires
            old(self).wf(),
        ensures
            final(self).wf(),
            final(self).slot_view(key@) == value@,
            final(self).has_slot(key@),
            forall|k: Seq<u8>|
                k != key@ ==> #[trigger] final(self).slot_view(k) == old(self).slot_view(k),
            forall|k: Seq<u8>|
                k != key@ ==> #[trigger] final(self).has_slot(k) == old(self).has_slot(k),
    {
        let n = self.slots.len();
        let mut i: usize = 0;
        while i < n
            invariant
                i <= n,
                n == self.slots@.len(),
                self.wf(),
                self == old(self),
                forall|j: int| 0 <= j < i ==> (#[trigger] self.slots@[j]).0@ != key@,
            decreases n - i,
        {
            if self.slots[i].0.eq_word(key) {
                let pair = (key.dup(), value.dup());
                self.slots.set(i, pair);
                proof {
                    assert(self.slots@ =~= old(self).slots@.update(i as int, pair));
                    lemma_slot_put_set(old(self).slots@, self.slots@, pair, i as int);
                }
                return;
            }
            i += 1;
        }
        let pair = (key.dup(), value.dup());
        let ghost s_old = self.slots@;
        self.slots.push(pair);
        proof {
            assert(self.slots@ =~= s_old.push(pair));
            lemma_slot_lookup_push(s_old, pair, key@);
            assert forall|k: Seq<u8>| k != key@ implies #[trigger] slot_lookup(
                self.slots@,
                k,
            ) == slot_lookup(s_old, k) by {
                lemma_slot_lookup_push(s_old, pair, k);
            }
            assert forall|a: int, b: int|
                0 <= a < b < self.slots@.len() implies (#[trigger] self.slots@[a]).0@ != (
            #[trigger] self.slots@[b]).0@ by {
                if b < self.slots@.len() - 1 {
                    assert(self.slots@[a].0@ == s_old[a].0@);
                    assert(self.slots@[b].0@ == s_old[b].0@);
                } else {
                    assert(self.slots@[b] == pair);
                    assert(self.slots@[a].0@ == s_old[a].0@);
                }
            }
        }
    }

    /// Copies the storage, slot for slot.
    pub fn snapshot(&self) -> (r: Storage)
        ensures
            r.wf() == self.wf(),
            forall|k: Seq<u8>| #[trigger] r.slot_view(k) == self.slot_view(k),
            forall|k: Seq<u8>| #[trigger] r.has_slot(k) == self.has_slot(k),
    {
        let n = self.slots.len();
        let mut v: Vec<(Bytes32, Bytes32)> = Vec::new();
        let mut i: usize = 0;
        while i < n
            invariant
                i <= n,
                n == self.slots@.len(),
                v@.len() == i,
                forall|j: int|
                    0 <= j < i ==> (#[trigger] v@[j]).0@ == self.slots@[j].0@ && v@[j].1@
                        == self.slots@[j].1@,
            decreases n - i,
        {
            let pair = (self.slots[i].0.dup(), self.slots[i].1.dup());
            v.push(pair);
            i += 1;
        }
        let r = Storage { slots: v };
        proof {
            lemma_slot_lookup_congruence(r.slots@, self.slots@);
            if self.wf() {
                assert forall|a: int, b: int|
                    0 <= a < b < r.slots@.len() implies (#[trigger] r.slots@[a]).0@ != (
                #[trigger] r.slots@[b]).0@ by {
                    assert(self.slots@[a].0@ != self.slots@[b].0@);
                }
            }
            if r.wf() {
                assert forall|a: int, b: int|
                    0 <= a < b < self.slots@.len() implies (#[trigger] self.slots@[a]).0@ != (
                #[trigger] self.slots@[b]).0@ by {
                    assert(r.slots@[a].0@ != r.slots@[b].0@);
                }
            }
        }
        r
    }
}

/// One account: address, balance, nonce, code, and storage.
pub struct AccountState {
    pub address: Address,
    pub balance: Bytes32,
    pub nonce: Bytes32,
    pub code: Bytes,
    pub storage: Storage,
}

impl AccountState {
    /// An account's storage keys are unique.
    pub open spec fn wf(&self) -> bool {
        self.storage.wf()
    }

    /// A fresh account with zero balance, zero nonce, no code, no storage.
    pub fn new(address: Address) -> (r: AccountState)
        ensures
            r.wf(),
            r.address@ == address@,
            r.balance.val() == 0,
            r.nonce.val() == 0,
            r.code@.len() == 0,
            forall|k: Seq<u8>| #[trigger] r.storage.slot_view(k) == zero_word(),
    {
        AccountState {
            address: address.dup(),
            balance: Bytes32::zero(),
            nonce: Bytes32::zero(),
            code: Bytes::new(),
            storage: Storage::new(),
        }
    }

    /// Copies the account record.
    pub fn snapshot(&self) -> (r: AccountState)
        ensures
            r.wf() == self.wf(),
            r.address@ == self.address@,
            r.balance@ == self.balance@,
            r.nonce@ == self.nonce@,
            r.code@ == self.code@,
            forall|k: Seq<u8>| #[trigger] r.storage.slot_view(k) == self.storage.slot_view(k),
    {
        AccountState {
            address: self.address.dup(),
            balance: self.balance.dup(),
            nonce: self.nonce.dup(),
            code: self.code.dup(),
            storage: self.storage.snapshot(),
        }
    }
}

/// First-match lookup of an account by address bytes.
pub open spec fn acct_lookup(s: Seq<AccountState>, a: Seq<u8>) -> Option<AccountState>
    decreases s.len(),
{
    if s.len() == 0 {
        None
    } else if s[0].address@ == a {
        Some(s[0])
    } else {
        acct_lookup(s.skip(1), a)
    }
}

/// A first match at index i, with no earlier match, decides the lookup.
proof fn lemma_acct_lookup_index(s: Seq<AccountState>, a: Seq<u8>, i: int)
    requires
        0 <= i < s.len(),
        s[i].address@ == a,
        forall|j: int| 0 <= j < i ==> s[j].address@ != a,
    ensures
        acct_lookup(s, a) == Some(s[i]),
    decreases i,
{
    if i > 0 {
        assert(s.skip(1)[i - 1] == s[i]);
        assert(forall|j: int|
            0 <= j < i - 1 ==> #[trigger] s.skip(1)[j].address@ == s[j + 1].address@);
        lemma_acct_lookup_index(s.skip(1), a, i - 1);
    }
}

/// With no match anywhere the lookup is empty.
proof fn lemma_acct_lookup_none(s: Seq<AccountState>, a: Seq<u8>)
    requires
        forall|j: int| 0 <= j < s.len() ==> s[j].address@ != a,
    ensures
        acct_lookup(s, a) is None,
    decreases s.len(),
{
    if s.len() > 0 {
        assert(forall|j: int|
            0 <= j < s.len() - 1 ==> #[trigger] s.skip(1)[j].address@ == s[j + 1].address@);
        lemma_acct_lookup_none(s.skip(1), a);
    }
}

/// Replacing the record at an index keeps every other address's lookup.
proof fn lemma_acct_lookup_update(s: Seq<AccountState>, i: int, p: AccountState, a: Seq<u8>)
    requires
        0 <= i < s.len(),
        p.address@ == s[i].address@,
        a != p.address@,
    ensures
        acct_lookup(s.update(i, p), a) == acct_lookup(s, a),
    decreases i,
{
    let s2 = s.update(i, p);
    if i == 0 {
        assert(s2.skip(1) =~= s.skip(1));
    } else {
        assert(s2[0] == s[0]);
        if s[0].address@ != a {
            assert(s2.skip(1) =~= s.skip(1).update(i - 1, p));
            assert(s.skip(1)[i - 1] == s[i]);
            lemma_acct_lookup_update(s.skip(1), i - 1, p, a);
        }
    }
}

/// Appending a record with a new address changes only that address.
proof fn lemma_acct_lookup_push(s: Seq<AccountState>, p: AccountState, a: Seq<u8>)
    requires
        forall|j: int| 0 <= j < s.len() ==> s[j].address@ != p.address@,
    ensures
        acct_lookup(s.push(p), p.address@) == Some(p),
        a != p.address@ ==> acct_lookup(s.push(p), a) == acct_lookup(s, a),
    decreases s.len(),
{
    let s2 = s.push(p);
    assert(s2[s.len() as int] == p);
    assert(forall|j: int| 0 <= j < s.len() ==> #[trigger] s2[j] == s[j]);
    lemma_acct_lookup_index(s2, p.address@, s.len() as int);
    if a != p.address@ {
        if s.len() == 0 {
            assert(s2.skip(1) =~= Seq::<AccountState>::empty());
            assert(acct_lookup(s2.skip(1), a) is None);
            assert(s2[0] == p);
            assert(acct_lookup(s2, a) is None);
            assert(acct_lookup(s, a) is None);
        } else {
            assert(s2.skip(1) =~= s.skip(1).push(p));
            assert(forall|j: int|
                0 <= j < s.len() - 1 ==> #[trigger] s.skip(1)[j].address@ == s[j + 1].address@);
            lemma_acct_lookup_push(s.skip(1), p, a);
            assert(s2[0] == s[0]);
            if s[0].address@ == a {
                assert(acct_lookup(s2, a) == Some(s[0]));
                assert(acct_lookup(s, a) == Some(s[0]));
            } else {
                assert(acct_lookup(s2, a) == acct_lookup(s2.skip(1), a));
                assert(acct_lookup(s, a) == acct_lookup(s.skip(1), a));
            }
        }
    }
}

/// Replacing the matching record keeps every other address's lookup and
/// the list's well-formedness.
proof fn lemma_put_set(s_old: Seq<AccountState>, s_new: Seq<AccountState>, acc: AccountState, i: int)
    requires
        0 <= i < s_old.len(),
        s_new == s_old.update(i, acc),
        s_old[i].address@ == acc.address@,
        acc.wf(),
        forall|x: int, y: int|
            0 <= x < y < s_old.len() ==> (#[trigger] s_old[x]).address@ != (
            #[trigger] s_old[y]).address@,
        forall|x: int| 0 <= x < s_old.len() ==> (#[trigger] s_old[x]).wf(),
    ensures
        acct_lookup(s_new, acc.address@) == Some(acc),
        forall|a: Seq<u8>|
            a != acc.address@ ==> #[trigger] acct_lookup(s_new, a) == acct_lookup(s_old, a),
        forall|x: int, y: int|
            0 <= x < y < s_new.len() ==> (#[trigger] s_new[x]).address@ != (
            #[trigger] s_new[y]).address@,
        forall|x: int| 0 <= x < s_new.len() ==> (#[trigger] s_new[x]).wf(),
{
    assert forall|j: int| 0 <= j < i implies s_new[j].address@ != acc.address@ by {
        assert(s_old[j].address@ != s_old[i].address@);
    }
    lemma_acct_lookup_index(s_new, acc.address@, i);
    assert forall|a: Seq<u8>|
        a != acc.address@ implies #[trigger] acct_lookup(s_new, a) == acct_lookup(s_old, a) by {
        lemma_acct_lookup_update(s_old, i, acc, a);
    }
    assert forall|x: int, y: int|
        0 <= x < y < s_new.len() implies (#[trigger] s_new[x]).address@ != (
    #[trigger] s_new[y]).address@ by {
        assert(s_new[x].address@ == s_old[x].address@);
        assert(s_new[y].address@ == s_old[y].address@);
    }
    assert forall|x: int| 0 <= x < s_new.len() implies (#[trigger] s_new[x]).wf() by {
        if x != i {
            assert(s_new[x] == s_old[x]);
        }
    }
}

/// Appending a record with a fresh address keeps every other address's
/// lookup and the list's well-formedness.
proof fn lemma_put_push(s_old: Seq<AccountState>, s_new: Seq<AccountState>, acc: AccountState)
    requires
        s_new == s_old.push(acc),
        acc.wf(),
        forall|j: int| 0 <= j < s_old.len() ==> (#[trigger] s_old[j]).address@ != acc.address@,
        forall|x: int, y: int|
            0 <= x < y < s_old.len() ==> (#[trigger] s_old[x]).address@ != (
            #[trigger] s_old[y]).address@,
        forall|x: int| 0 <= x < s_old.len() ==> (#[trigger] s_old[x]).wf(),
    ensures
        acct_lookup(s_new, acc.address@) == Some(acc),
        forall|a: Seq<u8>|
            a != acc.address@ ==> #[trigger] acct_lookup(s_new, a) == acct_lookup(s_old, a),
        forall|x: int, y: int|
            0 <= x < y < s_new.len() ==> (#[trigger] s_new[x]).address@ != (
            #[trigger] s_new[y]).address@,
        forall|x: int| 0 <= x < s_new.len() ==> (#[trigger] s_new[x]).wf(),
{
    lemma_acct_lookup_push(s_old, acc, acc.address@);
    assert forall|a: Seq<u8>|
        a != acc.address@ implies #[trigger] acct_lookup(s_new, a) == acct_lookup(s_old, a) by {
        lemma_acct_lookup_push(s_old, acc, a);
    }
    assert forall|x: int, y: int|
        0 <= x < y < s_new.len() implies (#[trigger] s_new[x]).address@ != (
    #[trigger] s_new[y]).address@ by {
        if y < s_new.len() - 1 {
            assert(s_new[x].address@ == s_old[x].address@);
            assert(s_new[y].address@ == s_old[y].address@);
        } else {
            assert(s_new[y] == acc);
            assert(s_new[x].address@ == s_old[x].address@);
        }
    }
    assert forall|x: int| 0 <= x < s_new.len() implies (#[trigger] s_new[x]).wf() by {
        if x < s_new.len() - 1 {
            assert(s_new[x] == s_old[x]);
        }
    }
}

/// The world state: a mapping from addresses to account records, held as
/// an association list with unique addresses.
pub struct State {
    accounts: Vec<AccountState>,
}

impl State {
    /// Addresses are unique and each account's storage is well formed.
    pub closed spec fn wf(&self) -> bool {
        (forall|i: int, j: int|
            0 <= i < j < self.accounts@.len() ==> (#[trigger] self.accounts@[i]).address@ != (
            #[trigger] self.accounts@[j]).address@) && (forall|i: int|
            0 <= i < self.accounts@.len() ==> (#[trigger] self.accounts@[i]).wf())
    }

    closed spec fn spec_find(&self, a: Seq<u8>) -> Option<AccountState> {
        acct_lookup(self.accounts@, a)
    }

    /// The balance held at address `a`; zero for a missing account.
    pub closed spec fn balance_of(&self, a: Seq<u8>) -> nat {
        match self.spec_find(a) {
            Some(acc) => acc.balance.val(),
            None => 0,
        }
    }

    /// The nonce at address `a`; zero for a missing account.
    pub closed spec fn nonce_of(&self, a: Seq<u8>) -> nat {
        match self.spec_find(a) {
            Some(acc) => acc.nonce.val(),
            None => 0,
        }
    }

    /// The code installed at address `a`; empty for a missing account.
    pub closed spec fn code_of(&self, a: Seq<u8>) -> Seq<u8> {
        match self.spec_find(a) {
            Some(acc) => acc.code@,
            None => Seq::empty(),
        }
    }

    /// The storage word at address `a`, key `k`; zero when never written.
    pub closed spec fn slot_of(&self, a: Seq<u8>, k: Seq<u8>) -> Seq<u8> {
        match self.spec_find(a) {
            Some(acc) => acc.storage.slot_view(k),
            None => zero_word(),
        }
    }

    /// An empty world: every read returns its default.
    pub fn new() -> (r: State)
        ensures
            r.wf(),
            forall|a: Seq<u8>| #[trigger] r.balance_of(a) == 0,
            forall|a: Seq<u8>| #[trigger] r.nonce_of(a) == 0,
            forall|a: Seq<u8>| (#[trigger] r.code_of(a)).len() == 0,
            forall|a: Seq<u8>, k: Seq<u8>| #[trigger] r.slot_of(a, k) == zero_word(),
    {
        let r = State { accounts: Vec::new() };
        proof {
            assert forall|a: Seq<u8>| #[trigger] r.spec_find(a) is None by {
                lemma_acct_lookup_none(r.accounts@, a);
            }
        }
        r
    }

    /// The index of the account at `addr`, if present.
    fn find_index(&self, addr: &Address) -> (r: Option<usize>)
        ensures
            r is Some ==> r->0 < self.accounts@.len() && self.accounts@[
                r->0 as int
            ].address@ == addr@ && (forall|j: int|
                0 <= j < r->0 ==> (#[trigger] self.accounts@[j]).address@ != addr@) && self.spec_find(
                addr@,
            ) == Some(self.accounts@[r->0 as int]),
            r is None ==> self.spec_find(addr@) is None && (forall|j: int|
                0 <= j < self.accounts@.len() ==> (#[trigger] self.accounts@[j]).address@
                    != addr@),
    {
        let n = self.accounts.len();
        let mut i: usize = 0;
        while i < n
            invariant
                i <= n,
                n == self.accounts@.len(),
                forall|j: int| 0 <= j < i ==> (#[trigger] self.accounts@[j]).address@ != addr@,
            decreases n - i,
        {
            if self.accounts[i].address.eq_addr(addr) {
                proof {
                    lemma_acct_lookup_index(self.accounts@, addr@, i as int);
                }
                return Some(i);
            }
            i += 1;
        }
        proof {
            lemma_acct_lookup_none(self.accounts@, addr@);
        }
        None
    }

    /// The balance at `addr`; zero for a missing account.
    pub fn balance(&self, addr: &Address) -> (r: Bytes32)
        ensures
            r.val() == self.balance_of(addr@),
            r@.len() == 32,
    {
        match self.find_index(addr) {
            Some(i) => {
                let r = self.accounts[i].balance.dup();
                r.wf_facts();
                r
            },
            None => Bytes32::zero(),
        }
    }

    /// The nonce at `addr`; zero for a missing account.
    pub fn nonce(&self, addr: &Address) -> (r: Bytes32)
        ensures
            r.val() == self.nonce_of(addr@),
            r@.len() == 32,
    {
        match self.find_index(addr) {
            Some(i) => {
                let r = self.accounts[i].nonce.dup();
                r.wf_facts();
                r
            },
            None => Bytes32::zero(),
        }
    }

    /// The code at `addr`; empty for a missing account.
    pub fn code(&self, addr: &Address) -> (r: Bytes)
        ensures
            r@ == self.code_of(addr@),
    {
        match self.find_index(addr) {
            Some(i) => self.accounts[i].code.dup(),
            None => {
                proof {
                    assert(Seq::<u8>::empty() =~= self.code_of(addr@));
                }
                Bytes::new()
            },
        }
    }

    /// The code size at `addr`.
    pub fn code_size(&self, addr: &Address) -> (r: usize)
        ensures
            r == self.code_of(addr@).len(),
    {
        self.code(addr).len()
    }

    /// The Keccak-256 hash of the code at `addr`; for a missing or empty
    /// account this is the canonical hash of the empty byte string.
    pub fn code_hash(&self, addr: &Address) -> (r: Bytes32)
        ensures
            r@ == keccak256(self.code_of(addr@)),
    {
        let c = self.code(addr);
        let digest = crate::keccak::keccak256_of(c.as_slice());
        let r = Bytes32::from_vec(digest);
        proof {
            assert(r@ =~= keccak256(self.code_of(addr@)));
        }
        r
    }

    /// Reads storage slot `key` of the account at `addr`; zero when the
    /// account is missing or the slot was never written.
    pub fn storage_load(&self, addr: &Address, key: &Bytes32) -> (r: Bytes32)
        ensures
            r@ == self.slot_of(addr@, key@),
            r@.len() == 32,
    {
        match self.find_index(addr) {
            Some(i) => self.accounts[i].storage.load(key),
            None => {
                let z = Bytes32::zero();
                proof {
                    assert(z@ =~= zero_word());
                }
                z
            },
        }
    }
}

impl State {
    /// Replaces or appends the record for `acc.address`, leaving every
    /// other address untouched.
    fn put(&mut self, acc: AccountState)
        requires
            old(self).wf(),
            acc.wf(),
        ensures
            final(self).wf(),
            final(self).spec_find(acc.address@) == Some(acc),
            forall|a: Seq<u8>|
                a != acc.address@ ==> #[trigger] final(self).spec_find(a) == old(
                    self,
                ).spec_find(a),
    {
        let ghost addr = acc.address@;
        match self.find_index(&acc.address) {
            Some(i) => {
                let ghost s_old = self.accounts@;
                self.accounts.set(i, acc);
                proof {
                    assert(self.accounts@ =~= s_old.update(i as int, acc));
                    lemma_put_set(s_old, self.accounts@, acc, i as int);
                }
            },
            None => {
                let ghost s_old = self.accounts@;
                self.accounts.push(acc);
                proof {
                    assert(self.accounts@ =~= s_old.push(acc));
                    lemma_put_push(s_old, self.accounts@, acc);
                }
            },
        }
    }

    /// Writes storage slot `key` of the account at `addr`, creating the
    /// account when absent.
    pub fn storage_store(&mut self, addr: &Address, key: &Bytes32, value: &Bytes32)
        requires
            old(self).wf(),
        ensures
            final(self).wf(),
            final(self).slot_of(addr@, key@) == value@,
            forall|k: Seq<u8>|
                k != key@ ==> #[trigger] final(self).slot_of(addr@, k) == old(self).slot_of(
                    addr@,
                    k,
                ),
            forall|a: Seq<u8>, k: Seq<u8>|
                a != addr@ ==> #[trigger] final(self).slot_of(a, k) == old(self).slot_of(a, k),
            forall|a: Seq<u8>| #[trigger] final(self).balance_of(a) == old(self).balance_of(a),
            forall|a: Seq<u8>| #[trigger] final(self).nonce_of(a) == old(self).nonce_of(a),
            forall|a: Seq<u8>| #[trigger] final(self).code_of(a) == old(self).code_of(a),
    {
        let acc = match self.find_index(addr) {
            Some(i) => {
                let entry = &self.accounts[i];
                let mut stor = entry.storage.snapshot();
                stor.store(key, value);
                AccountState {
                    address: entry.address.dup(),
                    balance: entry.balance.dup(),
                    nonce: entry.nonce.dup(),
                    code: entry.code.dup(),
                    storage: stor,
                }
            },
            None => {
                let mut fresh = AccountState::new(addr.dup());
                fresh.storage.store(key, value);
                fresh
            },
        };
        self.put(acc);
    }

    /// Moves `value` from `from` to `to`. A zero value moves nothing and
    /// always succeeds; otherwise the sender must hold at least `value`,
    /// else the transfer fails with insufficient balance and changes
    /// nothing. The recipient is created when absent; its new balance is
    /// reduced mod 2^256.
    pub fn transfer(&mut self, from: &Address, to: &Address, value: &Bytes32) -> (r:
        Result<(), VmError>)
        requires
            old(self).wf(),
        ensures
            final(self).wf(),
            r is Ok <==> (value.val() == 0 || old(self).balance_of(from@) >= value.val()),
            r is Err ==> *final(self) == *old(self) && r->Err_0 is InsufficientBalance,
            value.val() == 0 ==> *final(self) == *old(self),
            r is Ok && value.val() > 0 && to@ != from@ ==> final(self).balance_of(from@) == old(
                self,
            ).balance_of(from@) - value.val() && final(self).balance_of(to@) == (old(
                self,
            ).balance_of(to@) + value.val()) % crate::types::word_mod(),
            r is Ok && value.val() > 0 && to@ == from@ ==> final(self).balance_of(from@) == old(
                self,
            ).balance_of(from@),
            forall|a: Seq<u8>|
                a != from@ && a != to@ ==> #[trigger] final(self).balance_of(a) == old(
                    self,
                ).balance_of(a),
            forall|a: Seq<u8>| #[trigger] final(self).nonce_of(a) == old(self).nonce_of(a),
            forall|a: Seq<u8>| #[trigger] final(self).code_of(a) == old(self).code_of(a),
            forall|a: Seq<u8>, k: Seq<u8>|
                #[trigger] final(self).slot_of(a, k) == old(self).slot_of(a, k),
    {
        if value.is_zero() {
            return Ok(());
        }
        let bal = self.balance(from);
        if bal.lt_word(value) {
            return Err(VmError::InsufficientBalance);
        }
        // Debit the sender, which must already exist since its balance
        // covers the non-zero value.
        match self.find_index(from) {
            Some(i) => {
                let entry = &self.accounts[i];
                let new_bal = entry.balance.wrapping_sub(value);
                let acc = AccountState {
                    address: entry.address.dup(),
                    balance: new_bal,
                    nonce: entry.nonce.dup(),
                    code: entry.code.dup(),
                    storage: entry.storage.snapshot(),
                };
                proof {
                    lemma_acct_lookup_index(self.accounts@, from@, i as int);
                }
                self.put(acc);
            },
            None => {
                proof {
                    assert(false);
                }
            },
        }
        // Credit the recipient in the debited state.
        let cur = self.balance(to);
        let credited = cur.wrapping_add(value);
        match self.find_index(to) {
            Some(i) => {
                let entry = &self.accounts[i];
                let acc = AccountState {
                    address: entry.address.dup(),
                    balance: credited,
                    nonce: entry.nonce.dup(),
                    code: entry.code.dup(),
                    storage: entry.storage.snapshot(),
                };
                self.put(acc);
            },
            None => {
                let mut fresh = AccountState::new(to.dup());
                fresh.balance = credited;
                self.put(fresh);
            },
        }
        proof {
            crate::types::lemma_word_mod_facts();
            crate::arith::lemma_be_val_bound(bal@);
            if to@ == from@ {
                vstd::arithmetic::div_mod::lemma_small_mod(
                    old(self).balance_of(from@),
                    crate::types::word_mod(),
                );
            }
        }
        Ok(())
    }

    /// Installs a fresh account at `addr` with the given code and balance:
    /// zero nonce and empty storage, replacing any earlier record.
    pub fn create(&mut self, addr: &Address, code: Bytes, value: &Bytes32)
        requires
            old(self).wf(),
        ensures
            final(self).wf(),
            final(self).balance_of(addr@) == value.val(),
            final(self).nonce_of(addr@) == 0,
            final(self).code_of(addr@) == code@,
            forall|k: Seq<u8>| #[trigger] final(self).slot_of(addr@, k) == zero_word(),
            forall|a: Seq<u8>|
                a != addr@ ==> #[trigger] final(self).balance_of(a) == old(self).balance_of(a),
            forall|a: Seq<u8>|
                a != addr@ ==> #[trigger] final(self).nonce_of(a) == old(self).nonce_of(a),
            forall|a: Seq<u8>|
                a != addr@ ==> #[trigger] final(self).code_of(a) == old(self).code_of(a),
            forall|a: Seq<u8>, k: Seq<u8>|
                a != addr@ ==> #[trigger] final(self).slot_of(a, k) == old(self).slot_of(a, k),
    {
        let acc = AccountState {
            address: addr.dup(),
            balance: value.dup(),
            nonce: Bytes32::zero(),
            code,
            storage: Storage::new(),
        };
        self.put(acc);
    }

    /// Clears the account at `addr`: zero balance and nonce, empty code
    /// and storage.
    pub fn delete(&mut self, addr: &Address)
        requires
            old(self).wf(),
        ensures
            final(self).wf(),
            final(self).balance_of(addr@) == 0,
            final(self).nonce_of(addr@) == 0,
            final(self).code_of(addr@).len() == 0,
            forall|k: Seq<u8>| #[trigger] final(self).slot_of(addr@, k) == zero_word(),
            forall|a: Seq<u8>|
                a != addr@ ==> #[trigger] final(self).balance_of(a) == old(self).balance_of(a),
            forall|a: Seq<u8>|
                a != addr@ ==> #[trigger] final(self).nonce_of(a) == old(self).nonce_of(a),
            forall|a: Seq<u8>|
                a != addr@ ==> #[trigger] final(self).code_of(a) == old(self).code_of(a),
            forall|a: Seq<u8>, k: Seq<u8>|
                a != addr@ ==> #[trigger] final(self).slot_of(a, k) == old(self).slot_of(a, k),
    {
        let acc = AccountState::new(addr.dup());
        self.put(acc);
    }

    /// Installs the given record, replacing any earlier one at its address.
    pub fn insert(&mut self, account: AccountState)
        requires
            old(self).wf(),
            account.wf(),
        ensures
            final(self).wf(),
            final(self).balance_of(account.address@) == account.balance.val(),
            final(self).nonce_of(account.address@) == account.nonce.val(),
            final(self).code_of(account.address@) == account.code@,
            forall|k: Seq<u8>|
                #[trigger] final(self).slot_of(account.address@, k) == account.storage.slot_view(
                    k,
                ),
            forall|a: Seq<u8>|
                a != account.address@ ==> #[trigger] final(self).balance_of(a) == old(
                    self,
                ).balance_of(a),
            forall|a: Seq<u8>|
                a != account.address@ ==> #[trigger] final(self).nonce_of(a) == old(
                    self,
                ).nonce_of(a),
            forall|a: Seq<u8>|
                a != account.address@ ==> #[trigger] final(self).code_of(a) == old(
                    self,
                ).code_of(a),
            forall|a: Seq<u8>, k: Seq<u8>|
                a != account.address@ ==> #[trigger] final(self).slot_of(a, k) == old(
                    self,
                ).slot_of(a, k),
    {
        self.put(account);
    }

    /// Deep-copies the world state; every read agrees with the original.
    pub fn snapshot(&self) -> (r: State)
        requires
            self.wf(),
        ensures
            r.wf(),
            forall|a: Seq<u8>| #[trigger] r.balance_of(a) == self.balance_of(a),
            forall|a: Seq<u8>| #[trigger] r.nonce_of(a) == self.nonce_of(a),
            forall|a: Seq<u8>| #[trigger] r.code_of(a) == self.code_of(a),
            forall|a: Seq<u8>, k: Seq<u8>| #[trigger] r.slot_of(a, k) == self.slot_of(a, k),
    {
        let n = self.accounts.len();
        let mut v: Vec<AccountState> = Vec::new();
        let mut i: usize = 0;
        while i < n
            invariant
                i <= n,
                n == self.accounts@.len(),
                v@.len() == i,
                forall|j: int|
                    0 <= j < i ==> (#[trigger] v@[j]).address@ == self.accounts@[j].address@
                        && v@[j].balance@ == self.accounts@[j].balance@ && v@[j].nonce@
                        == self.accounts@[j].nonce@ && v@[j].code@ == self.accounts@[j].code@
                        && v@[j].wf() == self.accounts@[j].wf(),
                forall|j: int, k: Seq<u8>|
                    0 <= j < i ==> #[trigger] v@[j].storage.slot_view(k)
                        == self.accounts@[j].storage.slot_view(k),
            decreases n - i,
    {
            let copy = self.accounts[i].snapshot();
            v.push(copy);
            i += 1;
        }
        let r = State { accounts: v };
        proof {
            lemma_acct_congruence(r.accounts@, self.accounts@);
            assert forall|x: int, y: int|
                0 <= x < y < r.accounts@.len() implies (#[trigger] r.accounts@[x]).address@ != (
            #[trigger] r.accounts@[y]).address@ by {
                assert(self.accounts@[x].address@ != self.accounts@[y].address@);
            }
            assert forall|x: int|
                0 <= x < r.accounts@.len() implies (#[trigger] r.accounts@[x]).wf() by {
                assert(self.accounts@[x].wf());
            }
        }
        r
    }
}

/// Account lists equal pairwise on every projection agree on every read.
proof fn lemma_acct_congruence(x: Seq<AccountState>, y: Seq<AccountState>)
    requires
        x.len() == y.len(),
        forall|j: int|
            0 <= j < x.len() ==> (#[trigger] x[j]).address@ == y[j].address@ && x[j].balance@
                == y[j].balance@ && x[j].nonce@ == y[j].nonce@ && x[j].code@ == y[j].code@,
        forall|j: int, k: Seq<u8>|
            0 <= j < x.len() ==> #[trigger] x[j].storage.slot_view(k) == y[j].storage.slot_view(
                k,
            ),
    ensures
        forall|a: Seq<u8>|
            (#[trigger] acct_lookup(x, a) is Some) == (acct_lookup(y, a) is Some),
        forall|a: Seq<u8>|
            acct_lookup(x, a) is Some ==> (#[trigger] acct_lookup(x, a))->0.balance@
                == acct_lookup(y, a)->0.balance@ && acct_lookup(x, a)->0.nonce@ == acct_lookup(
                y,
                a,
            )->0.nonce@ && acct_lookup(x, a)->0.code@ == acct_lookup(y, a)->0.code@,
        forall|a: Seq<u8>, k: Seq<u8>|
            acct_lookup(x, a) is Some ==> #[trigger] acct_lookup(x, a)->0.storage.slot_view(k)
                == acct_lookup(y, a)->0.storage.slot_view(k),
    decreases x.len(),
{
    if x.len() > 0 {
        assert(forall|j: int| 0 <= j < x.len() - 1 ==> #[trigger] x.skip(1)[j] == x[j + 1]);
        assert(forall|j: int| 0 <= j < y.len() - 1 ==> #[trigger] y.skip(1)[j] == y[j + 1]);
        lemma_acct_congruence(x.skip(1), y.skip(1));
        assert forall|a: Seq<u8>|
            (#[trigger] acct_lookup(x, a) is Some) == (acct_lookup(y, a) is Some) by {
            assert((acct_lookup(x.skip(1), a) is Some) == (acct_lookup(y.skip(1), a) is Some));
        }
        assert forall|a: Seq<u8>|
            acct_lookup(x, a) is Some implies (#[trigger] acct_lookup(x, a))->0.balance@
            == acct_lookup(y, a)->0.balance@ && acct_lookup(x, a)->0.nonce@ == acct_lookup(
            y,
            a,
        )->0.nonce@ && acct_lookup(x, a)->0.code@ == acct_lookup(y, a)->0.code@ by {
            if x[0].address@ != a {
                assert(acct_lookup(x.skip(1), a) is Some);
            }
        }
        assert forall|a: Seq<u8>, k: Seq<u8>|
            acct_lookup(x, a) is Some implies #[trigger] acct_lookup(x, a)->0.storage.slot_view(
            k,
        ) == acct_lookup(y, a)->0.storage.slot_view(k) by {
            if x[0].address@ != a {
                assert(acct_lookup(x.skip(1), a) is Some);
                assert(acct_lookup(x.skip(1), a)->0.storage.slot_view(k) == acct_lookup(
                    y.skip(1),
                    a,
                )->0.storage.slot_view(k));
            }
        }
    }
}

/// Lists equal pairwise on key and value views agree on every lookup.
proof fn lemma_slot_lookup_congruence(a: Seq<(Bytes32, Bytes32)>, b: Seq<(Bytes32, Bytes32)>)
    requires
        a.len() == b.len(),
        forall|j: int|
            0 <= j < a.len() ==> (#[trigger] a[j]).0@ == b[j].0@ && a[j].1@ == b[j].1@,
    ensures
        forall|k: Seq<u8>| #[trigger] slot_lookup(a, k) == slot_lookup(b, k),
    decreases a.len(),
{
    if a.len() > 0 {
        assert(forall|j: int|
            0 <= j < a.len() - 1 ==> #[trigger] a.skip(1)[j] == a[j + 1]);
        assert(forall|j: int|
            0 <= j < b.len() - 1 ==> #[trigger] b.skip(1)[j] == b[j + 1]);
        lemma_slot_lookup_congruence(a.skip(1), b.skip(1));
        assert forall|k: Seq<u8>| #[trigger] slot_lookup(a, k) == slot_lookup(b, k) by {
            assert(slot_lookup(a.skip(1), k) == slot_lookup(b.skip(1), k));
        }
    }
}

} // verus!
