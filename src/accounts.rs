use vstd::prelude::*;

use crate::crypto::PublicKey;
use crate::keyed::{lemma_map_of, lemma_map_of_push, lemma_map_of_update, map_of, unique_keys};

verus! {

/// The balance and the next expected nonce of a registered key.
#[derive(Debug, Clone, Copy, PartialEq, Eq, Structural)]
pub struct Account {
    pub balance: u64,
    pub nonce: u64,
}

impl Account {
    pub fn get_balance(&self) -> (r: u64)
        ensures
            r == self.balance,
    {
        self.balance
    }

    pub fn get_nonce(&self) -> (r: u64)
        ensures
            r == self.nonce,
    {
        self.nonce
    }
}

/// Sum of the balances of all entries.
pub open spec fn entries_total(s: Seq<(Seq<u8>, Account)>) -> int
    decreases s.len(),
{
    if s.len() == 0 {
        0
    } else {
        entries_total(s.drop_last()) + s.last().1.balance
    }
}

pub proof fn lemma_entries_update(s: Seq<(Seq<u8>, Account)>, i: int, a: Account)
    requires
        unique_keys(s),
        0 <= i < s.len(),
    ensures
        unique_keys(s.update(i, (s[i].0, a))),
        map_of(s.update(i, (s[i].0, a))) == map_of(s).insert(s[i].0, a),
        entries_total(s.update(i, (s[i].0, a))) == entries_total(s) - s[i].1.balance + a.balance,
    decreases s.len(),
{
    lemma_map_of_update(s, i, a);
    let u = s.update(i, (s[i].0, a));
    if i < s.len() - 1 {
        let p = s.drop_last();
        assert(unique_keys(p));
        lemma_entries_update(p, i, a);
        assert(u.drop_last() =~= p.update(i, (p[i].0, a)));
    } else {
        assert(u.drop_last() =~= s.drop_last());
    }
}

pub proof fn lemma_entries_push(s: Seq<(Seq<u8>, Account)>, k: Seq<u8>, a: Account)
    requires
        unique_keys(s),
        !map_of(s).contains_key(k),
    ensures
        unique_keys(s.push((k, a))),
        map_of(s.push((k, a))) == map_of(s).insert(k, a),
        entries_total(s.push((k, a))) == entries_total(s) + a.balance,
{
    lemma_map_of_push(s, k, a);
    assert(s.push((k, a)).drop_last() =~= s);
}

pub proof fn lemma_balance_le_total(s: Seq<(Seq<u8>, Account)>, i: int)
    requires
        0 <= i < s.len(),
    ensures
        s[i].1.balance <= entries_total(s),
        entries_total(s) >= 0,
    decreases s.len(),
{
    lemma_total_nonneg(s.drop_last());
    if i < s.len() - 1 {
        lemma_balance_le_total(s.drop_last(), i);
    }
}

pub proof fn lemma_total_nonneg(s: Seq<(Seq<u8>, Account)>)
    ensures
        entries_total(s) >= 0,
    decreases s.len(),
{
    if s.len() > 0 {
        lemma_total_nonneg(s.drop_last());
    }
}

/// The registered accounts, in order of registration, one entry per key.
#[derive(Debug)]
pub struct AccountTable {
    entries: Vec<(PublicKey, Account)>,
}

impl View for AccountTable {
    type V = Seq<(Seq<u8>, Account)>;

    closed spec fn view(&self) -> Seq<(Seq<u8>, Account)> {
        self.entries@.map_values(|e: (PublicKey, Account)| (e.0@, e.1))
    }
}

impl AccountTable {
    pub open spec fn wf(&self) -> bool {
        unique_keys(self@)
    }

    pub open spec fn map(&self) -> Map<Seq<u8>, Account> {
        map_of(self@)
    }

    pub open spec fn total(&self) -> int {
        entries_total(self@)
    }

    pub fn new() -> (r: AccountTable)
        ensures
            r.wf(),
            r@ == Seq::<(Seq<u8>, Account)>::empty(),
            r.map() == Map::<Seq<u8>, Account>::empty(),
            r.total() == 0,
    {
        let r = AccountTable { entries: Vec::new() };
        assert(r@ =~= Seq::<(Seq<u8>, Account)>::empty());
        r
    }

    pub fn duplicate(&self) -> (r: AccountTable)
        ensures
            r@ == self@,
    {
        let mut entries: Vec<(PublicKey, Account)> = Vec::new();
        let mut i: usize = 0;
        while i < self.entries.len()
            invariant
                i <= self.entries@.len(),
                entries@.len() == i,
                forall|j: int|
                    0 <= j < i ==> (#[trigger] entries@[j]).0@ == self.entries@[j].0@
                        && entries@[j].1 == self.entries@[j].1,
            decreases self.entries@.len() - i,
        {
            let e = &self.entries[i];
            entries.push((e.0.clone(), e.1));
            i += 1;
        }
        let r = AccountTable { entries };
        assert(r@ =~= self@);
        r
    }

    fn find(&self, key: &PublicKey) -> (r: Option<usize>)
        requires
            self.wf(),
        ensures
            match r {
                Some(i) => i < self@.len() && self@[i as int].0 == key@,
                None => !self.map().contains_key(key@),
            },
    {
        proof {
            lemma_map_of(self@);
        }
        let mut i: usize = 0;
        while i < self.entries.len()
            invariant
                i <= self.entries@.len(),
                forall|j: int| 0 <= j < i ==> #[trigger] self@[j].0 != key@,
            decreases self.entries@.len() - i,
        {
            if self.entries[i].0 == *key {
                return Some(i);
            }
            i += 1;
        }
        None
    }

    pub fn has_account(&self, key: &PublicKey) -> (r: bool)
        requires
            self.wf(),
        ensures
            r == self.map().contains_key(key@),
    {
        proof {
            lemma_map_of(self@);
        }
        self.find(key).is_some()
    }

    pub fn get(&self, key: &PublicKey) -> (r: Option<Account>)
        requires
            self.wf(),
        ensures
            r == (if self.map().contains_key(key@) {
                Some(self.map()[key@])
            } else {
                None
            }),
    {
        proof {
            lemma_map_of(self@);
        }
        match self.find(key) {
            Some(i) => Some(self.entries[i].1),
            None => None,
        }
    }

    /// Creates the account of `key` with a zero balance and nonce,
    /// replacing any account that the key had.
    pub fn register(&mut self, key: PublicKey)
        requires
            old(self).wf(),
        ensures
            final(self).wf(),
            final(self).map() == old(self).map().insert(key@, Account { balance: 0, nonce: 0 }),
            !old(self).map().contains_key(key@) ==> final(self)@ == old(self)@.push(
                (key@, Account { balance: 0, nonce: 0 }),
            ),
            final(self).total() == old(self).total() - (if old(self).map().contains_key(key@) {
                old(self).map()[key@].balance as int
            } else {
                0
            }),
    {
        proof {
            lemma_map_of(self@);
        }
        let zero = Account { balance: 0, nonce: 0 };
        match self.find(&key) {
            Some(i) => {
                proof {
                    lemma_entries_update(self@, i as int, zero);
                }
                let ghost old_view = self@;
                self.entries.set(i, (key, zero));
                assert(self@ =~= old_view.update(i as int, (old_view[i as int].0, zero)));
            },
            None => {
                proof {
                    lemma_entries_push(self@, key@, zero);
                }
                let ghost old_view = self@;
                let ghost k = key@;
                self.entries.push((key, zero));
                assert(self@ =~= old_view.push((k, zero)));
            },
        }
    }

    /// Replaces the account of a registered key.
    pub fn set(&mut self, key: &PublicKey, account: Account)
        requires
            old(self).wf(),
            old(self).map().contains_key(key@),
        ensures
            final(self).wf(),
            final(self).map() == old(self).map().insert(key@, account),
            final(self).total() == old(self).total() - old(self).map()[key@].balance
                + account.balance,
    {
        proof {
            lemma_map_of(self@);
        }
        let i = self.find(key).unwrap();
        proof {
            lemma_entries_update(self@, i as int, account);
        }
        let ghost old_view = self@;
        let k = self.entries[i].0.clone();
        self.entries.set(i, (k, account));
        assert(self@ =~= old_view.update(i as int, (old_view[i as int].0, account)));
    }

    pub proof fn lemma_balance_le_total(&self, key: Seq<u8>)
        requires
            self.wf(),
            self.map().contains_key(key),
        ensures
            self.map()[key].balance <= self.total(),
    {
        lemma_map_of(self@);
        let i = choose|i: int| 0 <= i < self@.len() && self@[i].0 == key;
        lemma_balance_le_total(self@, i);
    }

    pub proof fn lemma_total_nonneg(&self)
        ensures
            self.total() >= 0,
    {
        lemma_total_nonneg(self@);
    }

    /// Whether both tables hold the same accounts.
    pub fn same_accounts(&self, other: &AccountTable) -> (r: bool)
        requires
            self.wf(),
            other.wf(),
        ensures
            r == (self.map() == other.map()),
    {
        proof {
            lemma_map_of(self@);
            lemma_map_of(other@);
        }
        let mut i: usize = 0;
        while i < self.entries.len()
            invariant
                self.wf(),
                other.wf(),
                i <= self@.len(),
                forall|j: int|
                    0 <= j < i ==> other.map().contains_key(#[trigger] self@[j].0) && other.map()[self@[j].0]
                        == self@[j].1,
            decreases self@.len() - i,
        {
            let e = &self.entries[i];
            assert(self@[i as int] == (e.0@, e.1));
            match other.get(&e.0) {
                Some(a) => {
                    if a != e.1 {
                        proof {
                            lemma_map_of(self@);
                            assert(self.map()[self@[i as int].0] == self@[i as int].1);
                            assert(self.map()[e.0@] != other.map()[e.0@]);
                        }
                        return false;
                    }
                },
                None => {
                    proof {
                        lemma_map_of(self@);
                    }
                    return false;
                },
            }
            i += 1;
        }
        let mut j: usize = 0;
        while j < other.entries.len()
            invariant
                self.wf(),
                other.wf(),
                j <= other@.len(),
                forall|k: int| 0 <= k < j ==> self.map().contains_key(#[trigger] other@[k].0),
            decreases other@.len() - j,
        {
            let e = &other.entries[j];
            assert(other@[j as int] == (e.0@, e.1));
            if !self.has_account(&e.0) {
                proof {
                    lemma_map_of(other@);
                }
                return false;
            }
            j += 1;
        }
        proof {
            lemma_map_of(self@);
            lemma_map_of(other@);
            assert forall|k: Seq<u8>| #[trigger] self.map().contains_key(k) implies other.map().contains_key(k)
                && other.map()[k] == self.map()[k] by {
                let x = choose|x: int| 0 <= x < self@.len() && self@[x].0 == k;
                assert(self.map()[self@[x].0] == self@[x].1);
            }
            assert forall|k: Seq<u8>| #[trigger] other.map().contains_key(k) implies self.map().contains_key(k) by {
                let x = choose|x: int| 0 <= x < other@.len() && other@[x].0 == k;
                assert(self.map().contains_key(other@[x].0));
            }
            assert(self.map() =~= other.map());
        }
        true
    }
}

} // verus!
