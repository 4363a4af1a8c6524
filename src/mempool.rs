use vstd::prelude::*;

use crate::crypto;
use crate::transaction::{tx_size, Transaction, TxModel};

verus! {

/// A pending transaction with its hash, fee and encoded size.
#[derive(Debug)]
pub struct SortedTx {
    pub hash: crypto::Hash,
    pub tx: Transaction,
    pub fee: u64,
    pub size: usize,
}

pub struct EntryModel {
    pub hash: Seq<u8>,
    pub tx: TxModel,
    pub fee: u64,
    pub size: nat,
}

impl View for SortedTx {
    type V = EntryModel;

    open spec fn view(&self) -> EntryModel {
        EntryModel { hash: self.hash@, tx: self.tx@, fee: self.fee, size: self.size as nat }
    }
}

impl SortedTx {
    pub fn get_hash(&self) -> (r: &crypto::Hash)
        ensures
            r@ == self@.hash,
    {
        &self.hash
    }

    pub fn get_tx(&self) -> (r: &Transaction)
        ensures
            r@ == self@.tx,
    {
        &self.tx
    }

    pub fn get_fee(&self) -> (r: u64)
        ensures
            r == self@.fee,
    {
        self.fee
    }

    pub fn get_size(&self) -> (r: usize)
        ensures
            r == self@.size,
    {
        self.size
    }
}

/// Pending transactions keyed by hash, kept ordered by fee, highest first;
/// among equal fees the earlier admitted comes first.
#[derive(Debug)]
pub struct Mempool {
    txs: Vec<SortedTx>,
}

/// Why the mempool refused an operation.
#[derive(Debug, Clone, Copy, PartialEq, Eq)]
pub enum MempoolError {
    TxAlreadyInMempool,
    TxNotFound,
}

/// The index of the entry with hash `h`, if any.
pub open spec fn contains_hash(s: Seq<EntryModel>, h: Seq<u8>) -> bool {
    exists|i: int| 0 <= i < s.len() && #[trigger] s[i].hash == h
}

pub open spec fn entries_wf(s: Seq<EntryModel>) -> bool {
    &&& forall|i: int, j: int| 0 <= i < j < s.len() ==> #[trigger] s[i].hash != #[trigger] s[j].hash
    &&& forall|i: int, j: int| 0 <= i < j < s.len() ==> #[trigger] s[i].fee >= #[trigger] s[j].fee
    &&& forall|i: int|
        0 <= i < s.len() ==> (#[trigger] s[i]).fee == s[i].tx.fee && s[i].size == tx_size(s[i].tx)
}

impl View for Mempool {
    type V = Seq<EntryModel>;

    closed spec fn view(&self) -> Seq<EntryModel> {
        self.txs@.map_values(|e: SortedTx| e@)
    }
}

impl Mempool {
    pub open spec fn wf(&self) -> bool {
        entries_wf(self@)
    }

    pub fn new() -> (r: Mempool)
        ensures
            r@ == Seq::<EntryModel>::empty(),
            r.wf(),
    {
        let r = Mempool { txs: Vec::new() };
        assert(r@ =~= Seq::<EntryModel>::empty());
        r
    }

    fn find(&self, hash: &crypto::Hash) -> (r: Option<usize>)
        requires
            self.wf(),
        ensures
            match r {
                Some(i) => i < self@.len() && self@[i as int].hash == hash@,
                None => !contains_hash(self@, hash@),
            },
    {
        let mut i: usize = 0;
        while i < self.txs.len()
            invariant
                i <= self.txs@.len(),
                forall|j: int| 0 <= j < i ==> #[trigger] self@[j].hash != hash@,
            decreases self.txs@.len() - i,
        {
            if self.txs[i].hash == *hash {
                return Some(i);
            }
            i += 1;
        }
        None
    }

    pub fn contains_tx(&self, hash: &crypto::Hash) -> (r: bool)
        requires
            self.wf(),
        ensures
            r == contains_hash(self@, hash@),
    {
        self.find(hash).is_some()
    }

    /// The pending transaction with hash `hash`, left in place.
    pub fn view_tx(&self, hash: &crypto::Hash) -> (r: Result<&Transaction, MempoolError>)
        requires
            self.wf(),
        ensures
            match r {
                Ok(tx) => exists|i: int|
                    0 <= i < self@.len() && #[trigger] self@[i].hash == hash@ && tx@ == self@[i].tx,
                Err(e) => !contains_hash(self@, hash@) && e == MempoolError::TxNotFound,
            },
    {
        match self.find(hash) {
            Some(i) => Ok(&self.txs[i].tx),
            None => Err(MempoolError::TxNotFound),
        }
    }

    /// Admits `tx` under `hash` behind every entry whose fee is at least
    /// as high, ahead of every lower one.
    pub fn add_tx(&mut self, hash: crypto::Hash, tx: Transaction) -> (r: Result<(), MempoolError>)
        requires
            old(self).wf(),
        ensures
            final(self).wf(),
            match r {
                Ok(()) => !contains_hash(old(self)@, hash@) && exists|p: int|
                    0 <= p <= old(self)@.len() && final(self)@ == old(self)@.insert(
                        p,
                        EntryModel { hash: hash@, tx: tx@, fee: tx@.fee, size: tx_size(tx@) },
                    ) && (forall|j: int| 0 <= j < p ==> #[trigger] old(self)@[j].fee >= tx@.fee)
                        && (forall|j: int|
                        p <= j < old(self)@.len() ==> #[trigger] old(self)@[j].fee < tx@.fee),
                Err(e) => contains_hash(old(self)@, hash@) && e == MempoolError::TxAlreadyInMempool
                    && final(self)@ == old(self)@,
            },
    {
        if self.find(&hash).is_some() {
            return Err(MempoolError::TxAlreadyInMempool);
        }
        let fee = tx.fee;
        let size = tx.size();
        let mut p: usize = 0;
        while p < self.txs.len() && self.txs[p].fee >= fee
            invariant
                p <= self.txs@.len(),
                forall|j: int| 0 <= j < p ==> #[trigger] self@[j].fee >= fee,
            decreases self.txs@.len() - p,
        {
            p += 1;
        }
        let ghost old_model = self@;
        let entry = SortedTx { hash, tx, fee, size };
        let ghost e = entry@;
        self.txs.insert(p, entry);
        proof {
            assert(self@ =~= old_model.insert(p as int, e));
            assert forall|j: int| p <= j < old_model.len() implies #[trigger] old_model[j].fee
                < fee by {
                assert(old_model[p as int].fee < fee);
                assert(old_model[p as int].fee >= old_model[j].fee);
            }
            assert forall|i: int, j: int| 0 <= i < j < self@.len() implies #[trigger] self@[i].hash
                != #[trigger] self@[j].hash by {
                if i == p {
                    assert(self@[j] == old_model[j - 1]);
                } else if j == p {
                    assert(self@[i] == old_model[i]);
                } else {
                    let oi = if i < p { i } else { i - 1 };
                    let oj = if j < p { j } else { j - 1 };
                    assert(self@[i] == old_model[oi]);
                    assert(self@[j] == old_model[oj]);
                }
            }
            assert forall|i: int, j: int| 0 <= i < j < self@.len() implies #[trigger] self@[i].fee
                >= #[trigger] self@[j].fee by {
                if i == p {
                    assert(self@[j] == old_model[j - 1]);
                } else if j == p {
                    assert(self@[i] == old_model[i]);
                } else {
                    let oi = if i < p { i } else { i - 1 };
                    let oj = if j < p { j } else { j - 1 };
                    assert(self@[i] == old_model[oi]);
                    assert(self@[j] == old_model[oj]);
                }
            }
            assert forall|i: int| 0 <= i < self@.len() implies (#[trigger] self@[i]).fee
                == self@[i].tx.fee && self@[i].size == tx_size(self@[i].tx) by {
                if i < p {
                    assert(self@[i] == old_model[i]);
                } else if i > p {
                    assert(self@[i] == old_model[i - 1]);
                }
            }
        }
        Ok(())
    }

    /// Takes the entry with hash `hash` out, keeping the order of the rest.
    pub fn remove_tx(&mut self, hash: &crypto::Hash) -> (r: Result<Transaction, MempoolError>)
        requires
            old(self).wf(),
        ensures
            final(self).wf(),
            match r {
                Ok(tx) => exists|i: int|
                    0 <= i < old(self)@.len() && #[trigger] old(self)@[i].hash == hash@
                        && tx@ == old(self)@[i].tx && final(self)@ == old(self)@.remove(i),
                Err(e) => !contains_hash(old(self)@, hash@) && e == MempoolError::TxNotFound
                    && final(self)@ == old(self)@,
            },
    {
        match self.find(hash) {
            Some(i) => {
                let ghost old_model = self@;
                let entry = self.txs.remove(i);
                proof {
                    assert(self@ =~= old_model.remove(i as int));
                    assert forall|a: int, b: int| 0 <= a < b < self@.len() implies #[trigger] self@[a].hash
                        != #[trigger] self@[b].hash && self@[a].fee >= self@[b].fee by {
                        let oa = if a < i { a } else { a + 1 };
                        let ob = if b < i { b } else { b + 1 };
                        assert(self@[a] == old_model[oa]);
                        assert(self@[b] == old_model[ob]);
                    }
                    assert forall|a: int| 0 <= a < self@.len() implies (#[trigger] self@[a]).fee
                        == self@[a].tx.fee && self@[a].size == tx_size(self@[a].tx) by {
                        let oa = if a < i { a } else { a + 1 };
                        assert(self@[a] == old_model[oa]);
                    }
                }
                Ok(entry.tx)
            },
            None => Err(MempoolError::TxNotFound),
        }
    }

    /// The pending transactions, highest fee first.
    pub fn get_sorted_txs(&self) -> (r: &Vec<SortedTx>)
        ensures
            r@.map_values(|e: SortedTx| e@) == self@,
    {
        &self.txs
    }

    pub fn size(&self) -> (r: usize)
        ensures
            r == self@.len(),
    {
        self.txs.len()
    }
}

/// The entries whose hash is not among `hs`, in their order.
pub open spec fn without_hashes(s: Seq<EntryModel>, hs: Seq<Seq<u8>>) -> Seq<EntryModel>
    decreases s.len(),
{
    if s.len() == 0 {
        Seq::empty()
    } else {
        let r = without_hashes(s.drop_last(), hs);
        if hs.contains(s.last().hash) {
            r
        } else {
            r.push(s.last())
        }
    }
}

pub fn contains_hash_in(hs: &Vec<crypto::Hash>, h: &crypto::Hash) -> (r: bool)
    ensures
        r == hs@.map_values(|x: crypto::Hash| x@).contains(h@),
{
    let ghost m = hs@.map_values(|x: crypto::Hash| x@);
    let mut i: usize = 0;
    while i < hs.len()
        invariant
            i <= hs@.len(),
            m == hs@.map_values(|x: crypto::Hash| x@),
            forall|j: int| 0 <= j < i ==> m[j] != h@,
        decreases hs@.len() - i,
    {
        if hs[i] == *h {
            assert(m[i as int] == h@);
            return true;
        }
        i += 1;
    }
    false
}

impl Clone for SortedTx {
    fn clone(&self) -> (r: Self)
        ensures
            r@ == self@,
    {
        SortedTx { hash: self.hash.clone(), tx: self.tx.clone(), fee: self.fee, size: self.size }
    }
}

impl Mempool {
    /// Drops every entry whose hash is among `hashes`, keeping the order of
    /// the others.
    pub fn remove_hashes(&mut self, hashes: &Vec<crypto::Hash>)
        requires
            old(self).wf(),
        ensures
            final(self).wf(),
            final(self)@ == without_hashes(old(self)@, hashes@.map_values(|x: crypto::Hash| x@)),
    {
        let ghost hs = hashes@.map_values(|x: crypto::Hash| x@);
        let ghost s = self@;
        let mut kept: Vec<SortedTx> = Vec::new();
        let ghost mut idx: Seq<int> = Seq::empty();
        let mut i: usize = 0;
        assert(s.take(0) =~= Seq::<EntryModel>::empty());
        while i < self.txs.len()
            invariant
                s == self@,
                entries_wf(s),
                hs == hashes@.map_values(|x: crypto::Hash| x@),
                i <= s.len(),
                kept@.map_values(|e: SortedTx| e@) == without_hashes(s.take(i as int), hs),
                idx.len() == kept@.len(),
                forall|k: int| 0 <= k < idx.len() ==> 0 <= #[trigger] idx[k] < i,
                forall|k: int| 0 <= k < idx.len() ==> kept@[k]@ == s[#[trigger] idx[k]],
                forall|a: int, b: int| 0 <= a < b < idx.len() ==> #[trigger] idx[a] < #[trigger] idx[b],
            decreases s.len() - i,
        {
            let e = &self.txs[i];
            let keep = !contains_hash_in(hashes, &e.hash);
            proof {
                assert(s.take(i + 1).drop_last() =~= s.take(i as int));
                assert(s.take(i + 1).last() == s[i as int]);
            }
            if keep {
                let ghost before = kept@.map_values(|e: SortedTx| e@);
                kept.push(e.clone());
                proof {
                    idx = idx.push(i as int);
                    assert(kept@.map_values(|e: SortedTx| e@) =~= before.push(s[i as int]));
                }
            }
            i += 1;
        }
        proof {
            assert(s.take(s.len() as int) =~= s);
            let r = kept@.map_values(|e: SortedTx| e@);
            assert forall|a: int, b: int| 0 <= a < b < r.len() implies #[trigger] r[a].hash
                != #[trigger] r[b].hash by {
                assert(r[a] == s[idx[a]]);
                assert(r[b] == s[idx[b]]);
                assert(idx[a] < idx[b]);
            }
            assert forall|a: int, b: int| 0 <= a < b < r.len() implies #[trigger] r[a].fee
                >= #[trigger] r[b].fee by {
                assert(r[a] == s[idx[a]]);
                assert(r[b] == s[idx[b]]);
                assert(idx[a] < idx[b]);
            }
            assert forall|a: int| 0 <= a < r.len() implies (#[trigger] r[a]).fee == r[a].tx.fee
                && r[a].size == tx_size(r[a].tx) by {
                assert(r[a] == s[idx[a]]);
            }
        }
        self.txs = kept;
        assert(entries_wf(self@));
    }
}

} // verus!
