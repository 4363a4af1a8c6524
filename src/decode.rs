use vstd::prelude::*;
use vstd::string::StringSliceAdditionalSpecFns;

use crate::block::{
    block_bytes, complete_block_bytes, hashes_bytes, txs_bytes, Block, BlockModel, CompleteBlock,
    CompleteBlockModel,
};
use crate::codec::{
    ascii_to_string, hex_decode, hex_decode_bytes, hex_encode, hex_encode_bytes, lemma_hex_round_trip,
    lemma_u64_bytes_len, lemma_u64_round_trip, parse_u64, read_bytes, read_u64, u64_bytes,
    ReaderError,
};
use crate::crypto;
use crate::crypto::{PublicKey, Signature, HASH_SIZE, SIGNATURE_SIZE};
use crate::transaction::{
    data_bytes, output_bytes, outputs_bytes, signature_bytes, tx_bytes, tx_wf, unsigned_bytes,
    CoinbaseTx, DataModel, OutputModel, Transaction, TransactionData, TxModel, TxOutput,
};

verus! {

/// `n` transfer outputs read from `pos`, with the position after them.
pub open spec fn parse_outputs(s: Seq<u8>, pos: int, n: nat) -> Option<(Seq<OutputModel>, int)>
    decreases n,
{
    if n == 0 {
        if 0 <= pos <= s.len() {
            Some((Seq::empty(), pos))
        } else {
            None
        }
    } else {
        match parse_outputs(s, pos, (n - 1) as nat) {
            None => None,
            Some((outs, p)) => if p + 32 <= s.len() {
                match parse_u64(s, p + 32) {
                    Some((amount, q)) => Some(
                        (outs.push(OutputModel { to: s.subrange(p, p + 32), amount }), q),
                    ),
                    None => None,
                }
            } else {
                None
            },
        }
    }
}

pub open spec fn parse_data(s: Seq<u8>, pos: int) -> Option<(DataModel, int)> {
    if 0 <= pos < s.len() {
        let tag = s[pos];
        if tag == 0 {
            Some((DataModel::Registration, pos + 1))
        } else if tag == 1 {
            match parse_u64(s, pos + 1) {
                Some((block_reward, at1)) => match parse_u64(s, at1) {
                    Some((fee_reward, at2)) => Some(
                        (DataModel::Coinbase(CoinbaseTx { block_reward, fee_reward }), at2),
                    ),
                    None => None,
                },
                None => None,
            }
        } else if tag == 2 {
            match parse_u64(s, pos + 1) {
                Some((n, at1)) => match parse_outputs(s, at1, n as nat) {
                    Some((outs, at2)) => Some((DataModel::Normal(outs), at2)),
                    None => None,
                },
                None => None,
            }
        } else if tag == 3 {
            match parse_u64(s, pos + 1) {
                Some((amount, at1)) => Some((DataModel::Burn(amount), at1)),
                None => None,
            }
        } else {
            None
        }
    } else {
        None
    }
}

pub open spec fn parse_signature(s: Seq<u8>, pos: int) -> Option<(Option<Seq<u8>>, int)> {
    if 0 <= pos < s.len() {
        if s[pos] == 0 {
            Some((None, pos + 1))
        } else if s[pos] == 1 && pos + 1 + SIGNATURE_SIZE <= s.len() {
            Some((Some(s.subrange(pos + 1, pos + 1 + SIGNATURE_SIZE)), pos + 1 + SIGNATURE_SIZE))
        } else {
            None
        }
    } else {
        None
    }
}

/// The transaction encoded at `pos`, with the position after it.
pub open spec fn parse_tx(s: Seq<u8>, pos: int) -> Option<(TxModel, int)> {
    if 0 <= pos && pos + 1 + HASH_SIZE <= s.len() {
        match parse_u64(s, pos + 1 + HASH_SIZE) {
            Some((nonce, at1)) => match parse_u64(s, at1) {
                Some((fee, at2)) => match parse_data(s, at2) {
                    Some((data, at3)) => match parse_signature(s, at3) {
                        Some((signature, at4)) => Some(
                            (
                                TxModel {
                                    version: s[pos],
                                    sender: s.subrange(pos + 1, pos + 1 + HASH_SIZE),
                                    nonce,
                                    fee,
                                    data,
                                    signature,
                                },
                                at4,
                            ),
                        ),
                        None => None,
                    },
                    None => None,
                },
                None => None,
            },
            None => None,
        }
    } else {
        None
    }
}

/// `n` digests read from `pos`.
pub open spec fn parse_hashes(s: Seq<u8>, pos: int, n: nat) -> Option<(Seq<Seq<u8>>, int)>
    decreases n,
{
    if n == 0 {
        if 0 <= pos <= s.len() {
            Some((Seq::empty(), pos))
        } else {
            None
        }
    } else {
        match parse_hashes(s, pos, (n - 1) as nat) {
            None => None,
            Some((hs, p)) => if p + HASH_SIZE <= s.len() {
                Some((hs.push(s.subrange(p, p + HASH_SIZE)), p + HASH_SIZE))
            } else {
                None
            },
        }
    }
}

/// `n` transactions read from `pos`.
pub open spec fn parse_txs(s: Seq<u8>, pos: int, n: nat) -> Option<(Seq<TxModel>, int)>
    decreases n,
{
    if n == 0 {
        if 0 <= pos <= s.len() {
            Some((Seq::empty(), pos))
        } else {
            None
        }
    } else {
        match parse_txs(s, pos, (n - 1) as nat) {
            None => None,
            Some((ts, p)) => match parse_tx(s, p) {
                Some((t, q)) => Some((ts.push(t), q)),
                None => None,
            },
        }
    }
}

/// The header encoded at `pos`.
pub open spec fn parse_block(s: Seq<u8>, pos: int) -> Option<(BlockModel, int)> {
    match parse_u64(s, pos) {
        Some((height, at1)) => match parse_u64(s, at1) {
            Some((timestamp, at2)) => if at2 + HASH_SIZE <= s.len() {
                match parse_u64(s, at2 + HASH_SIZE) {
                    Some((difficulty, at3)) => match parse_u64(s, at3) {
                        Some((nonce, at4)) => match parse_tx(s, at4) {
                            Some((miner_tx, at5)) => match parse_u64(s, at5) {
                                Some((n, at6)) => match parse_hashes(s, at6, n as nat) {
                                    Some((txs_hashes, at7)) => Some(
                                        (
                                            BlockModel {
                                                height,
                                                timestamp,
                                                previous_hash: s.subrange(at2, at2 + HASH_SIZE),
                                                difficulty,
                                                nonce,
                                                miner_tx,
                                                txs_hashes,
                                            },
                                            at7,
                                        ),
                                    ),
                                    None => None,
                                },
                                None => None,
                            },
                            None => None,
                        },
                        None => None,
                    },
                    None => None,
                }
            } else {
                None
            },
            None => None,
        },
        None => None,
    }
}

/// The complete block that `s` encodes, all of `s` being used.
pub open spec fn parse_complete_block(s: Seq<u8>) -> Option<CompleteBlockModel> {
    match parse_block(s, 0) {
        Some((block, at1)) => match parse_u64(s, at1) {
            Some((n, at2)) => match parse_txs(s, at2, n as nat) {
                Some((transactions, at3)) => if at3 == s.len() {
                    Some(CompleteBlockModel { block, transactions })
                } else {
                    None
                },
                None => None,
            },
            None => None,
        },
        None => None,
    }
}

/// `s` holds `x` from position `pos` on.
pub open spec fn holds_at(s: Seq<u8>, pos: int, x: Seq<u8>) -> bool {
    0 <= pos && pos + x.len() <= s.len() && s.subrange(pos, pos + x.len()) == x
}

pub proof fn lemma_holds_split(s: Seq<u8>, pos: int, a: Seq<u8>, b: Seq<u8>)
    requires
        holds_at(s, pos, a + b),
    ensures
        holds_at(s, pos, a),
        holds_at(s, pos + a.len(), b),
{
    assert(s.subrange(pos, pos + a.len()) =~= (a + b).subrange(0, a.len() as int));
    assert((a + b).subrange(0, a.len() as int) =~= a);
    assert(s.subrange(pos + a.len(), pos + a.len() + b.len()) =~= (a + b).subrange(
        a.len() as int,
        (a.len() + b.len()) as int,
    ));
    assert((a + b).subrange(a.len() as int, (a.len() + b.len()) as int) =~= b);
}

pub proof fn lemma_holds_u64(s: Seq<u8>, pos: int, v: u64)
    requires
        holds_at(s, pos, u64_bytes(v)),
    ensures
        parse_u64(s, pos) == Some((v, pos + 8)),
{
    lemma_u64_bytes_len(v);
    lemma_u64_round_trip(v, s, pos);
}

pub proof fn lemma_parse_outputs(outs: Seq<OutputModel>, s: Seq<u8>, pos: int)
    requires
        forall|i: int| 0 <= i < outs.len() ==> #[trigger] outs[i].to.len() == HASH_SIZE,
        holds_at(s, pos, outputs_bytes(outs)),
    ensures
        parse_outputs(s, pos, outs.len()) == Some((outs, pos + outputs_bytes(outs).len())),
    decreases outs.len(),
{
    if outs.len() > 0 {
        let init = outs.drop_last();
        let o = outs.last();
        lemma_holds_split(s, pos, outputs_bytes(init), output_bytes(o));
        lemma_parse_outputs(init, s, pos);
        let p = pos + outputs_bytes(init).len();
        lemma_holds_split(s, p, o.to, u64_bytes(o.amount));
        lemma_holds_u64(s, p + 32, o.amount);
        assert(init.push(o) =~= outs);
        lemma_u64_bytes_len(o.amount);
    }
}

pub proof fn lemma_parse_hashes(hs: Seq<Seq<u8>>, s: Seq<u8>, pos: int)
    requires
        forall|i: int| 0 <= i < hs.len() ==> (#[trigger] hs[i]).len() == HASH_SIZE,
        holds_at(s, pos, hashes_bytes(hs)),
    ensures
        parse_hashes(s, pos, hs.len()) == Some((hs, pos + hashes_bytes(hs).len())),
    decreases hs.len(),
{
    if hs.len() > 0 {
        let init = hs.drop_last();
        lemma_holds_split(s, pos, hashes_bytes(init), hs.last());
        lemma_parse_hashes(init, s, pos);
        assert(init.push(hs.last()) =~= hs);
    }
}

pub proof fn lemma_parse_data(d: DataModel, s: Seq<u8>, pos: int)
    requires
        d matches DataModel::Normal(outs) ==> outs.len() <= u64::MAX && forall|i: int|
            0 <= i < outs.len() ==> #[trigger] outs[i].to.len() == HASH_SIZE,
        holds_at(s, pos, data_bytes(d)),
    ensures
        parse_data(s, pos) == Some((d, pos + data_bytes(d).len())),
{
    let e = data_bytes(d);
    assert(s[pos] == e[0]) by {
        assert(s.subrange(pos, pos + e.len())[0] == s[pos]);
    }
    match d {
        DataModel::Registration => {},
        DataModel::Coinbase(c) => {
            lemma_holds_split(s, pos, seq![1u8] + u64_bytes(c.block_reward), u64_bytes(c.fee_reward));
            lemma_holds_split(s, pos, seq![1u8], u64_bytes(c.block_reward));
            lemma_u64_bytes_len(c.block_reward);
            lemma_u64_bytes_len(c.fee_reward);
            lemma_holds_u64(s, pos + 1, c.block_reward);
            lemma_holds_u64(s, pos + 9, c.fee_reward);
        },
        DataModel::Normal(outs) => {
            let n = outs.len() as u64;
            assert(n as nat == outs.len());
            lemma_holds_split(s, pos, seq![2u8] + u64_bytes(n), outputs_bytes(outs));
            lemma_holds_split(s, pos, seq![2u8], u64_bytes(n));
            lemma_u64_bytes_len(n);
            lemma_holds_u64(s, pos + 1, n);
            lemma_parse_outputs(outs, s, pos + 9);
        },
        DataModel::Burn(a) => {
            lemma_holds_split(s, pos, seq![3u8], u64_bytes(a));
            lemma_u64_bytes_len(a);
            lemma_holds_u64(s, pos + 1, a);
        },
    }
}

pub proof fn lemma_parse_signature(g: Option<Seq<u8>>, s: Seq<u8>, pos: int)
    requires
        g matches Some(sig) ==> sig.len() == SIGNATURE_SIZE,
        holds_at(s, pos, signature_bytes(g)),
    ensures
        parse_signature(s, pos) == Some((g, pos + signature_bytes(g).len())),
{
    let e = signature_bytes(g);
    assert(s[pos] == e[0]) by {
        assert(s.subrange(pos, pos + e.len())[0] == s[pos]);
    }
    if let Some(sig) = g {
        lemma_holds_split(s, pos, seq![1u8], sig);
    }
}

pub proof fn lemma_parse_tx(t: TxModel, s: Seq<u8>, pos: int)
    requires
        tx_wf(t),
        holds_at(s, pos, tx_bytes(t)),
    ensures
        parse_tx(s, pos) == Some((t, pos + tx_bytes(t).len())),
{
    let h1 = seq![t.version] + t.sender;
    let h2 = h1 + u64_bytes(t.nonce);
    let head = h2 + u64_bytes(t.fee);
    let d = data_bytes(t.data);
    let g = signature_bytes(t.signature);
    assert(tx_bytes(t) =~= head + d + g);
    lemma_holds_split(s, pos, head + d, g);
    lemma_holds_split(s, pos, head, d);
    lemma_holds_split(s, pos, h2, u64_bytes(t.fee));
    lemma_holds_split(s, pos, h1, u64_bytes(t.nonce));
    lemma_holds_split(s, pos, seq![t.version], t.sender);
    lemma_u64_bytes_len(t.nonce);
    lemma_u64_bytes_len(t.fee);
    lemma_holds_u64(s, pos + 33, t.nonce);
    lemma_holds_u64(s, pos + 41, t.fee);
    assert(s[pos] == t.version) by {
        assert(s.subrange(pos, pos + 1)[0] == s[pos]);
    }
    assert(head.len() == 49);
    lemma_parse_data(t.data, s, pos + 49);
    lemma_parse_signature(t.signature, s, pos + 49 + d.len());
}

pub proof fn lemma_parse_txs(ts: Seq<TxModel>, s: Seq<u8>, pos: int)
    requires
        forall|i: int| 0 <= i < ts.len() ==> tx_wf(#[trigger] ts[i]),
        holds_at(s, pos, txs_bytes(ts)),
    ensures
        parse_txs(s, pos, ts.len()) == Some((ts, pos + txs_bytes(ts).len())),
    decreases ts.len(),
{
    if ts.len() > 0 {
        let init = ts.drop_last();
        lemma_holds_split(s, pos, txs_bytes(init), tx_bytes(ts.last()));
        lemma_parse_txs(init, s, pos);
        lemma_parse_tx(ts.last(), s, pos + txs_bytes(init).len());
        assert(init.push(ts.last()) =~= ts);
    }
}

pub open spec fn block_wf(h: BlockModel) -> bool {
    &&& h.previous_hash.len() == HASH_SIZE
    &&& tx_wf(h.miner_tx)
    &&& h.txs_hashes.len() <= u64::MAX
    &&& forall|i: int| 0 <= i < h.txs_hashes.len() ==> (#[trigger] h.txs_hashes[i]).len() == HASH_SIZE
}

/// Keys, digests and signatures of a block have their fixed lengths.
pub open spec fn complete_block_wf(b: CompleteBlockModel) -> bool {
    &&& block_wf(b.block)
    &&& b.transactions.len() <= u64::MAX
    &&& forall|i: int| 0 <= i < b.transactions.len() ==> tx_wf(#[trigger] b.transactions[i])
}

pub proof fn lemma_parse_block_head(h: BlockModel, s: Seq<u8>, pos: int)
    requires
        h.previous_hash.len() == HASH_SIZE,
        holds_at(
            s,
            pos,
            u64_bytes(h.height) + u64_bytes(h.timestamp) + h.previous_hash + u64_bytes(h.difficulty)
                + u64_bytes(h.nonce),
        ),
    ensures
        parse_u64(s, pos) == Some((h.height, pos + 8)),
        parse_u64(s, pos + 8) == Some((h.timestamp, pos + 16)),
        s.subrange(pos + 16, pos + 48) == h.previous_hash,
        parse_u64(s, pos + 48) == Some((h.difficulty, pos + 56)),
        parse_u64(s, pos + 56) == Some((h.nonce, pos + 64)),
{
    let a1 = u64_bytes(h.height);
    let a2 = u64_bytes(h.timestamp);
    let a3 = h.previous_hash;
    let a4 = u64_bytes(h.difficulty);
    let a5 = u64_bytes(h.nonce);
    lemma_u64_bytes_len(h.height);
    lemma_u64_bytes_len(h.timestamp);
    lemma_u64_bytes_len(h.difficulty);
    lemma_u64_bytes_len(h.nonce);
    lemma_holds_split(s, pos, a1 + a2 + a3 + a4, a5);
    lemma_holds_split(s, pos, a1 + a2 + a3, a4);
    lemma_holds_split(s, pos, a1 + a2, a3);
    lemma_holds_split(s, pos, a1, a2);
    lemma_holds_u64(s, pos, h.height);
    lemma_holds_u64(s, pos + 8, h.timestamp);
    lemma_holds_u64(s, pos + 48, h.difficulty);
    lemma_holds_u64(s, pos + 56, h.nonce);
}

pub proof fn lemma_parse_block(h: BlockModel, s: Seq<u8>, pos: int)
    requires
        block_wf(h),
        holds_at(s, pos, block_bytes(h)),
    ensures
        parse_block(s, pos) == Some((h, pos + block_bytes(h).len())),
{
    let head = u64_bytes(h.height) + u64_bytes(h.timestamp) + h.previous_hash + u64_bytes(
        h.difficulty,
    ) + u64_bytes(h.nonce);
    let a6 = tx_bytes(h.miner_tx);
    let n = h.txs_hashes.len() as u64;
    let a7 = u64_bytes(n);
    let a8 = hashes_bytes(h.txs_hashes);
    assert(block_bytes(h) =~= head + a6 + a7 + a8);
    lemma_u64_bytes_len(h.height);
    lemma_u64_bytes_len(h.timestamp);
    lemma_u64_bytes_len(h.difficulty);
    lemma_u64_bytes_len(h.nonce);
    lemma_u64_bytes_len(n);
    assert(head.len() == 64);
    lemma_holds_split(s, pos, head + a6 + a7, a8);
    lemma_holds_split(s, pos, head + a6, a7);
    lemma_holds_split(s, pos, head, a6);
    lemma_parse_block_head(h, s, pos);
    lemma_parse_tx(h.miner_tx, s, pos + 64);
    let at5: int = pos + 64 + a6.len() as int;
    lemma_holds_u64(s, at5, n);
    assert(n as nat == h.txs_hashes.len());
    lemma_parse_hashes(h.txs_hashes, s, at5 + 8);
}

/// Decoding the encoding of a well-formed complete block gives it back.
pub proof fn lemma_complete_block_round_trip(b: CompleteBlockModel)
    requires
        complete_block_wf(b),
    ensures
        parse_complete_block(complete_block_bytes(b)) == Some(b),
{
    let s = complete_block_bytes(b);
    assert(holds_at(s, 0, s)) by {
        assert(s.subrange(0, s.len() as int) =~= s);
    }
    let a = block_bytes(b.block);
    let n = b.transactions.len() as u64;
    let t1 = u64_bytes(n);
    let t2 = txs_bytes(b.transactions);
    lemma_u64_bytes_len(n);
    lemma_holds_split(s, 0, a + t1, t2);
    lemma_holds_split(s, 0, a, t1);
    lemma_parse_block(b.block, s, 0);
    lemma_holds_u64(s, a.len() as int, n);
    assert(n as nat == b.transactions.len());
    lemma_parse_txs(b.transactions, s, a.len() as int + 8);
}

pub proof fn lemma_parse_outputs_none(s: Seq<u8>, pos: int, k: nat, n: nat)
    requires
        k <= n,
        parse_outputs(s, pos, k) is None,
    ensures
        parse_outputs(s, pos, n) is None,
    decreases n - k,
{
    if k < n {
        lemma_parse_outputs_none(s, pos, k, (n - 1) as nat);
    }
}

pub proof fn lemma_parse_hashes_none(s: Seq<u8>, pos: int, k: nat, n: nat)
    requires
        k <= n,
        parse_hashes(s, pos, k) is None,
    ensures
        parse_hashes(s, pos, n) is None,
    decreases n - k,
{
    if k < n {
        lemma_parse_hashes_none(s, pos, k, (n - 1) as nat);
    }
}

pub proof fn lemma_parse_txs_none(s: Seq<u8>, pos: int, k: nat, n: nat)
    requires
        k <= n,
        parse_txs(s, pos, k) is None,
    ensures
        parse_txs(s, pos, n) is None,
    decreases n - k,
{
    if k < n {
        lemma_parse_txs_none(s, pos, k, (n - 1) as nat);
    }
}

fn read_outputs(data: &Vec<u8>, pos: usize, n: u64) -> (r: Result<(Vec<TxOutput>, usize), ReaderError>)
    requires
        pos <= data@.len(),
    ensures
        match r {
            Ok((outs, next)) => parse_outputs(data@, pos as int, n as nat) == Some(
                (outs@.map_values(|o: TxOutput| o@), next as int),
            ),
            Err(_) => parse_outputs(data@, pos as int, n as nat) is None,
        },
{
    let mut outs: Vec<TxOutput> = Vec::new();
    let mut p = pos;
    let mut i: u64 = 0;
    assert(outs@.map_values(|o: TxOutput| o@) =~= Seq::<OutputModel>::empty());
    while i < n
        invariant
            i <= n,
            p <= data@.len(),
            parse_outputs(data@, pos as int, i as nat) == Some(
                (outs@.map_values(|o: TxOutput| o@), p as int),
            ),
        decreases n - i,
    {
        if data.len() - p < HASH_SIZE + 8 {
            proof {
                lemma_parse_outputs_none(data@, pos as int, (i + 1) as nat, n as nat);
            }
            return Err(ReaderError::InvalidSize);
        }
        let to = match read_bytes(data, p, HASH_SIZE) {
            Ok(b) => b,
            Err(e) => {
                proof {
                    lemma_parse_outputs_none(data@, pos as int, (i + 1) as nat, n as nat);
                }
                return Err(e);
            },
        };
        let amount = match read_u64(data, p + HASH_SIZE) {
            Ok(a) => a,
            Err(e) => {
                proof {
                    lemma_parse_outputs_none(data@, pos as int, (i + 1) as nat, n as nat);
                }
                return Err(e);
            },
        };
        let ghost before = outs@.map_values(|o: TxOutput| o@);
        outs.push(TxOutput { to: PublicKey { bytes: to }, amount });
        assert(outs@.map_values(|o: TxOutput| o@) =~= before.push(
            OutputModel { to: data@.subrange(p as int, p + 32), amount },
        ));
        p = p + HASH_SIZE + 8;
        i = i + 1;
    }
    Ok((outs, p))
}

fn read_data(data: &Vec<u8>, pos: usize) -> (r: Result<(TransactionData, usize), ReaderError>)
    requires
        pos <= data@.len(),
    ensures
        match r {
            Ok((d, next)) => parse_data(data@, pos as int) == Some((d@, next as int)),
            Err(_) => parse_data(data@, pos as int) is None,
        },
{
    if pos >= data.len() {
        return Err(ReaderError::InvalidSize);
    }
    let tag = data[pos];
    if tag == 0 {
        Ok((TransactionData::Registration, pos + 1))
    } else if tag == 1 {
        let block_reward = read_u64(data, pos + 1)?;
        let fee_reward = read_u64(data, pos + 9)?;
        Ok((TransactionData::Coinbase(CoinbaseTx { block_reward, fee_reward }), pos + 17))
    } else if tag == 2 {
        let n = read_u64(data, pos + 1)?;
        let (outs, next) = read_outputs(data, pos + 9, n)?;
        Ok((TransactionData::Normal(outs), next))
    } else if tag == 3 {
        let amount = read_u64(data, pos + 1)?;
        Ok((TransactionData::Burn(amount), pos + 9))
    } else {
        Err(ReaderError::InvalidValue)
    }
}

/// Reads the transaction encoded at `pos`.
pub fn read_tx(data: &Vec<u8>, pos: usize) -> (r: Result<(Transaction, usize), ReaderError>)
    requires
        pos <= data@.len(),
    ensures
        match r {
            Ok((t, next)) => parse_tx(data@, pos as int) == Some((t@, next as int)),
            Err(_) => parse_tx(data@, pos as int) is None,
        },
{
    if data.len() - pos < 1 + HASH_SIZE {
        return Err(ReaderError::InvalidSize);
    }
    let version = data[pos];
    let sender = read_bytes(data, pos + 1, HASH_SIZE)?;
    let nonce = read_u64(data, pos + 33)?;
    let fee = read_u64(data, pos + 41)?;
    let (d, at3) = read_data(data, pos + 49)?;
    if at3 >= data.len() {
        return Err(ReaderError::InvalidSize);
    }
    let (signature, at4) = if data[at3] == 0 {
        (None, at3 + 1)
    } else if data[at3] == 1 {
        let sig = read_bytes(data, at3 + 1, SIGNATURE_SIZE)?;
        (Some(Signature { bytes: sig }), at3 + 1 + SIGNATURE_SIZE)
    } else {
        return Err(ReaderError::InvalidValue);
    };
    let t = Transaction { version, sender: PublicKey { bytes: sender }, nonce, fee, data: d, signature };
    Ok((t, at4))
}

fn read_hashes(data: &Vec<u8>, pos: usize, n: u64) -> (r: Result<(Vec<crypto::Hash>, usize), ReaderError>)
    requires
        pos <= data@.len(),
    ensures
        match r {
            Ok((hs, next)) => parse_hashes(data@, pos as int, n as nat) == Some(
                (hs@.map_values(|h: crypto::Hash| h@), next as int),
            ),
            Err(_) => parse_hashes(data@, pos as int, n as nat) is None,
        },
{
    let mut hs: Vec<crypto::Hash> = Vec::new();
    let mut p = pos;
    let mut i: u64 = 0;
    assert(hs@.map_values(|h: crypto::Hash| h@) =~= Seq::<Seq<u8>>::empty());
    while i < n
        invariant
            i <= n,
            p <= data@.len(),
            parse_hashes(data@, pos as int, i as nat) == Some(
                (hs@.map_values(|h: crypto::Hash| h@), p as int),
            ),
        decreases n - i,
    {
        if data.len() - p < HASH_SIZE {
            proof {
                lemma_parse_hashes_none(data@, pos as int, (i + 1) as nat, n as nat);
            }
            return Err(ReaderError::InvalidSize);
        }
        let b = match read_bytes(data, p, HASH_SIZE) {
            Ok(b) => b,
            Err(e) => {
                proof {
                    lemma_parse_hashes_none(data@, pos as int, (i + 1) as nat, n as nat);
                }
                return Err(e);
            },
        };
        let ghost before = hs@.map_values(|h: crypto::Hash| h@);
        hs.push(crypto::Hash { bytes: b });
        assert(hs@.map_values(|h: crypto::Hash| h@) =~= before.push(
            data@.subrange(p as int, p + HASH_SIZE),
        ));
        p = p + HASH_SIZE;
        i = i + 1;
    }
    Ok((hs, p))
}

fn read_txs(data: &Vec<u8>, pos: usize, n: u64) -> (r: Result<(Vec<Transaction>, usize), ReaderError>)
    requires
        pos <= data@.len(),
    ensures
        match r {
            Ok((ts, next)) => parse_txs(data@, pos as int, n as nat) == Some(
                (ts@.map_values(|t: Transaction| t@), next as int),
            ),
            Err(_) => parse_txs(data@, pos as int, n as nat) is None,
        },
{
    let mut ts: Vec<Transaction> = Vec::new();
    let mut p = pos;
    let mut i: u64 = 0;
    assert(ts@.map_values(|t: Transaction| t@) =~= Seq::<TxModel>::empty());
    while i < n
        invariant
            i <= n,
            p <= data@.len(),
            parse_txs(data@, pos as int, i as nat) == Some(
                (ts@.map_values(|t: Transaction| t@), p as int),
            ),
        decreases n - i,
    {
        let (t, q) = match read_tx(data, p) {
            Ok(x) => x,
            Err(e) => {
                proof {
                    lemma_parse_txs_none(data@, pos as int, (i + 1) as nat, n as nat);
                }
                return Err(e);
            },
        };
        let ghost before = ts@.map_values(|t: Transaction| t@);
        let ghost tm = t@;
        ts.push(t);
        assert(ts@.map_values(|t: Transaction| t@) =~= before.push(tm));
        p = q;
        i = i + 1;
    }
    Ok((ts, p))
}

/// Reads the header encoded at `pos`.
pub fn read_block(data: &Vec<u8>, pos: usize) -> (r: Result<(Block, usize), ReaderError>)
    requires
        pos <= data@.len(),
    ensures
        match r {
            Ok((b, next)) => parse_block(data@, pos as int) == Some((b@, next as int)),
            Err(_) => parse_block(data@, pos as int) is None,
        },
{
    if data.len() - pos < 64 {
        return Err(ReaderError::InvalidSize);
    }
    let height = read_u64(data, pos)?;
    let timestamp = read_u64(data, pos + 8)?;
    let previous_hash = read_bytes(data, pos + 16, HASH_SIZE)?;
    let difficulty = read_u64(data, pos + 48)?;
    let nonce = read_u64(data, pos + 56)?;
    let (miner_tx, at5) = read_tx(data, pos + 64)?;
    let n = read_u64(data, at5)?;
    let (txs_hashes, at7) = read_hashes(data, at5 + 8, n)?;
    let b = Block {
        height,
        timestamp,
        previous_hash: crypto::Hash { bytes: previous_hash },
        difficulty,
        nonce,
        miner_tx,
        txs_hashes,
    };
    Ok((b, at7))
}

impl CompleteBlock {
    /// Decodes a complete block from exactly the bytes `data`.
    pub fn from_bytes(data: &Vec<u8>) -> (r: Result<CompleteBlock, ReaderError>)
        ensures
            match r {
                Ok(b) => parse_complete_block(data@) == Some(b@),
                Err(_) => parse_complete_block(data@) is None,
            },
    {
        let (block, at1) = read_block(data, 0)?;
        if data.len() - at1 < 8 {
            return Err(ReaderError::InvalidSize);
        }
        let n = read_u64(data, at1)?;
        let (transactions, at3) = read_txs(data, at1 + 8, n)?;
        if at3 != data.len() {
            return Err(ReaderError::InvalidSize);
        }
        Ok(CompleteBlock { block, transactions })
    }
}

/// The characters of the hex encoding of `b`.
pub open spec fn hex_chars(b: Seq<u8>) -> Seq<char> {
    hex_encode(b).map_values(|x: u8| x as char)
}

/// The hex text of a well-formed complete block reads back as that block.
pub proof fn lemma_complete_block_hex_round_trip(b: CompleteBlockModel)
    requires
        complete_block_wf(b),
    ensures
        hex_decode(vstd::utf8::encode_utf8(hex_chars(complete_block_bytes(b))))
            == Some(complete_block_bytes(b)),
        parse_complete_block(complete_block_bytes(b)) == Some(b),
{
    let bytes = complete_block_bytes(b);
    let e = hex_encode(bytes);
    let c = hex_chars(bytes);
    lemma_hex_round_trip(bytes);
    assert(vstd::utf8::is_ascii_chars(c)) by {
        assert forall|i: int| 0 <= i < c.len() implies '\0' <= #[trigger] c[i] <= '\u{7f}' by {
            assert(e[i] < 128);
        }
    }
    vstd::utf8::is_ascii_chars_encode_utf8(c);
    assert(vstd::utf8::encode_utf8(c) =~= e);
    lemma_complete_block_round_trip(b);
}

impl CompleteBlock {
    /// The lowercase hex text of the block's encoding.
    pub fn to_hex(&self) -> (r: String)
        ensures
            r@ == hex_chars(complete_block_bytes(self@)),
    {
        let bytes = self.to_bytes();
        let hex = hex_encode_bytes(&bytes);
        proof {
            lemma_hex_round_trip(bytes@);
        }
        ascii_to_string(hex)
    }

    /// Decodes a complete block from hex text, digits of either case.
    pub fn from_hex(hex: &str) -> (r: Result<CompleteBlock, ReaderError>)
        ensures
            match r {
                Ok(b) => hex_decode(hex.spec_bytes()) matches Some(v) && parse_complete_block(v)
                    == Some(b@),
                Err(_) => hex_decode(hex.spec_bytes()) matches Some(v) ==> parse_complete_block(v)
                    is None,
            },
    {
        match hex_decode_bytes(hex.as_bytes()) {
            Some(v) => CompleteBlock::from_bytes(&v),
            None => Err(ReaderError::InvalidValue),
        }
    }
}

} // verus!
