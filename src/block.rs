use vstd::prelude::*;

use crate::codec::{u64_bytes, write_bytes, write_u64};
use crate::crypto;
use crate::crypto::blake3_digest;
use crate::transaction::{tx_bytes, Transaction, TxModel};

verus! {

/// A block header: its place in the chain, its proof of work, the coinbase
/// and the hashes of the transactions it includes.
#[derive(Debug)]
pub struct Block {
    pub height: u64,
    pub timestamp: u64,
    pub previous_hash: crypto::Hash,
    pub difficulty: u64,
    pub nonce: u64,
    pub miner_tx: Transaction,
    pub txs_hashes: Vec<crypto::Hash>,
}

/// A header together with the full transactions, in the order of its hashes.
#[derive(Debug)]
pub struct CompleteBlock {
    pub block: Block,
    pub transactions: Vec<Transaction>,
}

pub struct BlockModel {
    pub height: u64,
    pub timestamp: u64,
    pub previous_hash: Seq<u8>,
    pub difficulty: u64,
    pub nonce: u64,
    pub miner_tx: TxModel,
    pub txs_hashes: Seq<Seq<u8>>,
}

pub struct CompleteBlockModel {
    pub block: BlockModel,
    pub transactions: Seq<TxModel>,
}

impl View for Block {
    type V = BlockModel;

    open spec fn view(&self) -> BlockModel {
        BlockModel {
            height: self.height,
            timestamp: self.timestamp,
            previous_hash: self.previous_hash@,
            difficulty: self.difficulty,
            nonce: self.nonce,
            miner_tx: self.miner_tx@,
            txs_hashes: self.txs_hashes@.map_values(|h: crypto::Hash| h@),
        }
    }
}

impl View for CompleteBlock {
    type V = CompleteBlockModel;

    open spec fn view(&self) -> CompleteBlockModel {
        CompleteBlockModel {
            block: self.block@,
            transactions: self.transactions@.map_values(|t: Transaction| t@),
        }
    }
}

pub open spec fn hashes_bytes(hs: Seq<Seq<u8>>) -> Seq<u8>
    decreases hs.len(),
{
    if hs.len() == 0 {
        Seq::empty()
    } else {
        hashes_bytes(hs.drop_last()) + hs.last()
    }
}

pub open spec fn txs_bytes(ts: Seq<TxModel>) -> Seq<u8>
    decreases ts.len(),
{
    if ts.len() == 0 {
        Seq::empty()
    } else {
        txs_bytes(ts.drop_last()) + tx_bytes(ts.last())
    }
}

/// The byte encoding of a header; its hash is taken of these bytes.
pub open spec fn block_bytes(b: BlockModel) -> Seq<u8> {
    u64_bytes(b.height) + u64_bytes(b.timestamp) + b.previous_hash + u64_bytes(b.difficulty)
        + u64_bytes(b.nonce) + tx_bytes(b.miner_tx) + u64_bytes(b.txs_hashes.len() as u64)
        + hashes_bytes(b.txs_hashes)
}

/// The byte encoding of a complete block.
pub open spec fn complete_block_bytes(b: CompleteBlockModel) -> Seq<u8> {
    block_bytes(b.block) + u64_bytes(b.transactions.len() as u64) + txs_bytes(b.transactions)
}

pub open spec fn block_hash(b: BlockModel) -> Seq<u8> {
    blake3_digest(block_bytes(b))
}

pub open spec fn block_size(b: BlockModel) -> nat {
    block_bytes(b).len()
}

pub fn clone_hashes(hs: &Vec<crypto::Hash>) -> (r: Vec<crypto::Hash>)
    ensures
        r@.map_values(|h: crypto::Hash| h@) == hs@.map_values(|h: crypto::Hash| h@),
{
    let mut r: Vec<crypto::Hash> = Vec::new();
    let mut i: usize = 0;
    while i < hs.len()
        invariant
            i <= hs@.len(),
            r@.len() == i,
            forall|j: int| 0 <= j < i ==> #[trigger] r@[j]@ == hs@[j]@,
        decreases hs@.len() - i,
    {
        r.push(hs[i].clone());
        i += 1;
    }
    assert(r@.map_values(|h: crypto::Hash| h@) =~= hs@.map_values(|h: crypto::Hash| h@));
    r
}

pub fn clone_transactions(ts: &Vec<Transaction>) -> (r: Vec<Transaction>)
    ensures
        r@.map_values(|t: Transaction| t@) == ts@.map_values(|t: Transaction| t@),
{
    let mut r: Vec<Transaction> = Vec::new();
    let mut i: usize = 0;
    while i < ts.len()
        invariant
            i <= ts@.len(),
            r@.len() == i,
            forall|j: int| 0 <= j < i ==> #[trigger] r@[j]@ == ts@[j]@,
        decreases ts@.len() - i,
    {
        r.push(ts[i].clone());
        i += 1;
    }
    assert(r@.map_values(|t: Transaction| t@) =~= ts@.map_values(|t: Transaction| t@));
    r
}

fn write_hashes(out: &mut Vec<u8>, hs: &Vec<crypto::Hash>)
    ensures
        final(out)@ == old(out)@ + hashes_bytes(hs@.map_values(|h: crypto::Hash| h@)),
{
    let ghost start = out@;
    let ghost model = hs@.map_values(|h: crypto::Hash| h@);
    let mut i: usize = 0;
    while i < hs.len()
        invariant
            i <= hs@.len(),
            model == hs@.map_values(|h: crypto::Hash| h@),
            out@ == start + hashes_bytes(model.take(i as int)),
        decreases hs@.len() - i,
    {
        write_bytes(out, &hs[i].bytes);
        proof {
            let t = model.take(i + 1);
            assert(t.drop_last() =~= model.take(i as int));
        }
        i += 1;
        assert(out@ =~= start + hashes_bytes(model.take(i as int)));
    }
    assert(model.take(hs@.len() as int) =~= model);
}

fn write_transactions(out: &mut Vec<u8>, ts: &Vec<Transaction>)
    ensures
        final(out)@ == old(out)@ + txs_bytes(ts@.map_values(|t: Transaction| t@)),
{
    let ghost start = out@;
    let ghost model = ts@.map_values(|t: Transaction| t@);
    let mut i: usize = 0;
    while i < ts.len()
        invariant
            i <= ts@.len(),
            model == ts@.map_values(|t: Transaction| t@),
            out@ == start + txs_bytes(model.take(i as int)),
        decreases ts@.len() - i,
    {
        ts[i].write(out);
        proof {
            let t = model.take(i + 1);
            assert(t.drop_last() =~= model.take(i as int));
        }
        i += 1;
        assert(out@ =~= start + txs_bytes(model.take(i as int)));
    }
    assert(model.take(ts@.len() as int) =~= model);
}

impl Block {
    pub fn new(
        height: u64,
        timestamp: u64,
        previous_hash: crypto::Hash,
        difficulty: u64,
        miner_tx: Transaction,
        txs_hashes: Vec<crypto::Hash>,
    ) -> (r: Block)
        ensures
            r@ == (BlockModel {
                height,
                timestamp,
                previous_hash: previous_hash@,
                difficulty,
                nonce: 0,
                miner_tx: miner_tx@,
                txs_hashes: txs_hashes@.map_values(|h: crypto::Hash| h@),
            }),
    {
        Block { height, timestamp, previous_hash, difficulty, nonce: 0, miner_tx, txs_hashes }
    }

    pub fn write(&self, out: &mut Vec<u8>)
        ensures
            final(out)@ == old(out)@ + block_bytes(self@),
    {
        let ghost start = out@;
        write_u64(out, self.height);
        write_u64(out, self.timestamp);
        write_bytes(out, &self.previous_hash.bytes);
        write_u64(out, self.difficulty);
        write_u64(out, self.nonce);
        self.miner_tx.write(out);
        write_u64(out, self.txs_hashes.len() as u64);
        write_hashes(out, &self.txs_hashes);
        assert(out@ =~= start + block_bytes(self@));
    }

    pub fn to_bytes(&self) -> (r: Vec<u8>)
        ensures
            r@ == block_bytes(self@),
    {
        let mut out: Vec<u8> = Vec::new();
        self.write(&mut out);
        assert(out@ =~= block_bytes(self@));
        out
    }

    pub fn hash(&self) -> (r: crypto::Hash)
        ensures
            r@ == block_hash(self@),
            r.wf(),
    {
        crypto::Hash::digest(&self.to_bytes())
    }

    pub fn size(&self) -> (r: usize)
        ensures
            r == block_size(self@),
    {
        self.to_bytes().len()
    }
}

impl Clone for Block {
    fn clone(&self) -> (r: Self)
        ensures
            r@ == self@,
    {
        Block {
            height: self.height,
            timestamp: self.timestamp,
            previous_hash: self.previous_hash.clone(),
            difficulty: self.difficulty,
            nonce: self.nonce,
            miner_tx: self.miner_tx.clone(),
            txs_hashes: clone_hashes(&self.txs_hashes),
        }
    }
}

impl Clone for CompleteBlock {
    fn clone(&self) -> (r: Self)
        ensures
            r@ == self@,
    {
        CompleteBlock {
            block: self.block.clone(),
            transactions: clone_transactions(&self.transactions),
        }
    }
}

impl CompleteBlock {
    pub fn new(block: Block, transactions: Vec<Transaction>) -> (r: CompleteBlock)
        ensures
            r@ == (CompleteBlockModel {
                block: block@,
                transactions: transactions@.map_values(|t: Transaction| t@),
            }),
    {
        CompleteBlock { block, transactions }
    }

    pub fn to_bytes(&self) -> (r: Vec<u8>)
        ensures
            r@ == complete_block_bytes(self@),
    {
        let mut out: Vec<u8> = Vec::new();
        self.block.write(&mut out);
        write_u64(&mut out, self.transactions.len() as u64);
        write_transactions(&mut out, &self.transactions);
        assert(out@ =~= complete_block_bytes(self@));
        out
    }

    /// The hash of a complete block is the hash of its header.
    pub fn hash(&self) -> (r: crypto::Hash)
        ensures
            r@ == block_hash(self@.block),
            r.wf(),
    {
        self.block.hash()
    }

    pub fn size(&self) -> (r: usize)
        ensures
            r == block_size(self@.block),
    {
        self.block.size()
    }

    pub fn get_height(&self) -> (r: u64)
        ensures
            r == self@.block.height,
    {
        self.block.height
    }

    pub fn get_timestamp(&self) -> (r: u64)
        ensures
            r == self@.block.timestamp,
    {
        self.block.timestamp
    }

    pub fn get_difficulty(&self) -> (r: u64)
        ensures
            r == self@.block.difficulty,
    {
        self.block.difficulty
    }

    pub fn get_previous_hash(&self) -> (r: &crypto::Hash)
        ensures
            r@ == self@.block.previous_hash,
    {
        &self.block.previous_hash
    }

    pub fn get_miner_tx(&self) -> (r: &Transaction)
        ensures
            r@ == self@.block.miner_tx,
    {
        &self.block.miner_tx
    }

    pub fn get_miner(&self) -> (r: &crypto::PublicKey)
        ensures
            r@ == self@.block.miner_tx.sender,
    {
        &self.block.miner_tx.sender
    }

    pub fn get_txs_hashes(&self) -> (r: &Vec<crypto::Hash>)
        ensures
            r@.map_values(|h: crypto::Hash| h@) == self@.block.txs_hashes,
    {
        &self.block.txs_hashes
    }

    pub fn get_transactions(&self) -> (r: &Vec<Transaction>)
        ensures
            r@.map_values(|t: Transaction| t@) == self@.transactions,
    {
        &self.transactions
    }
}

} // verus!
