use vstd::prelude::*;

use crate::codec::{u64_bytes, write_bytes, write_u64, write_u8};
use crate::crypto;
use crate::crypto::{
    blake3_digest, signature_valid, verify_signature, PublicKey, Signature, HASH_SIZE,
    SIGNATURE_SIZE,
};

verus! {

/// One transfer of a `Normal` transaction.
#[derive(Debug)]
pub struct TxOutput {
    pub to: PublicKey,
    pub amount: u64,
}

/// What the coinbase of a block claims.
#[derive(Debug, Clone, Copy, PartialEq, Eq, Structural)]
pub struct CoinbaseTx {
    pub block_reward: u64,
    pub fee_reward: u64,
}

/// The payload of a transaction.
#[derive(Debug)]
pub enum TransactionData {
    Registration,
    Coinbase(CoinbaseTx),
    Normal(Vec<TxOutput>),
    Burn(u64),
}

/// A transaction: a sender, its nonce, a fee, a payload and an optional
/// signature over everything else.
#[derive(Debug)]
pub struct Transaction {
    pub version: u8,
    pub sender: PublicKey,
    pub nonce: u64,
    pub fee: u64,
    pub data: TransactionData,
    pub signature: Option<Signature>,
}

pub struct OutputModel {
    pub to: Seq<u8>,
    pub amount: u64,
}

pub enum DataModel {
    Registration,
    Coinbase(CoinbaseTx),
    Normal(Seq<OutputModel>),
    Burn(u64),
}

pub struct TxModel {
    pub version: u8,
    pub sender: Seq<u8>,
    pub nonce: u64,
    pub fee: u64,
    pub data: DataModel,
    pub signature: Option<Seq<u8>>,
}

impl View for TxOutput {
    type V = OutputModel;

    open spec fn view(&self) -> OutputModel {
        OutputModel { to: self.to@, amount: self.amount }
    }
}

impl View for TransactionData {
    type V = DataModel;

    open spec fn view(&self) -> DataModel {
        match self {
            TransactionData::Registration => DataModel::Registration,
            TransactionData::Coinbase(c) => DataModel::Coinbase(*c),
            TransactionData::Normal(outs) => DataModel::Normal(outs@.map_values(|o: TxOutput| o@)),
            TransactionData::Burn(a) => DataModel::Burn(*a),
        }
    }
}

impl View for Transaction {
    type V = TxModel;

    open spec fn view(&self) -> TxModel {
        TxModel {
            version: self.version,
            sender: self.sender@,
            nonce: self.nonce,
            fee: self.fee,
            data: self.data@,
            signature: match self.signature {
                Some(s) => Some(s@),
                None => None,
            },
        }
    }
}

/// Sum of the amounts of a list of outputs.
pub open spec fn outputs_total(outs: Seq<OutputModel>) -> int
    decreases outs.len(),
{
    if outs.len() == 0 {
        0
    } else {
        outputs_total(outs.drop_last()) + outs.last().amount
    }
}

pub open spec fn output_bytes(o: OutputModel) -> Seq<u8> {
    o.to + u64_bytes(o.amount)
}

pub open spec fn outputs_bytes(outs: Seq<OutputModel>) -> Seq<u8>
    decreases outs.len(),
{
    if outs.len() == 0 {
        Seq::empty()
    } else {
        outputs_bytes(outs.drop_last()) + output_bytes(outs.last())
    }
}

pub open spec fn data_bytes(d: DataModel) -> Seq<u8> {
    match d {
        DataModel::Registration => seq![0u8],
        DataModel::Coinbase(c) => seq![1u8] + u64_bytes(c.block_reward) + u64_bytes(c.fee_reward),
        DataModel::Normal(outs) => seq![2u8] + u64_bytes(outs.len() as u64) + outputs_bytes(outs),
        DataModel::Burn(a) => seq![3u8] + u64_bytes(a),
    }
}

/// The bytes that a signature covers and that the hash is taken of.
pub open spec fn unsigned_bytes(t: TxModel) -> Seq<u8> {
    seq![t.version] + t.sender + u64_bytes(t.nonce) + u64_bytes(t.fee) + data_bytes(t.data)
}

pub open spec fn signature_bytes(s: Option<Seq<u8>>) -> Seq<u8> {
    match s {
        None => seq![0u8],
        Some(b) => seq![1u8] + b,
    }
}

/// The full byte encoding of a transaction.
pub open spec fn tx_bytes(t: TxModel) -> Seq<u8> {
    unsigned_bytes(t) + signature_bytes(t.signature)
}

pub open spec fn tx_hash(t: TxModel) -> Seq<u8> {
    blake3_digest(unsigned_bytes(t))
}

pub open spec fn tx_size(t: TxModel) -> nat {
    tx_bytes(t).len()
}

pub open spec fn is_registration(t: TxModel) -> bool {
    t.data is Registration
}

pub open spec fn is_coinbase(t: TxModel) -> bool {
    t.data is Coinbase
}

/// Every transaction but the coinbase must be signed by its sender.
pub open spec fn requires_signature(t: TxModel) -> bool {
    !is_coinbase(t)
}

/// The signature is present and verifies against the sender over the
/// unsigned bytes.
pub open spec fn has_valid_signature(t: TxModel) -> bool {
    match t.signature {
        Some(s) => signature_valid(t.sender, unsigned_bytes(t), s),
        None => false,
    }
}

/// Keys and signatures have their fixed lengths.
pub open spec fn tx_wf(t: TxModel) -> bool {
    &&& t.sender.len() == HASH_SIZE
    &&& (t.signature matches Some(s) ==> s.len() == SIGNATURE_SIZE)
    &&& (t.data matches DataModel::Normal(outs) ==> outs.len() <= u64::MAX && forall|i: int|
        0 <= i < outs.len() ==> #[trigger] outs[i].to.len() == HASH_SIZE)
}

impl Clone for TxOutput {
    fn clone(&self) -> (r: Self)
        ensures
            r@ == self@,
    {
        TxOutput { to: self.to.clone(), amount: self.amount }
    }
}

pub fn clone_outputs(outs: &Vec<TxOutput>) -> (r: Vec<TxOutput>)
    ensures
        r@.map_values(|o: TxOutput| o@) == outs@.map_values(|o: TxOutput| o@),
{
    let mut r: Vec<TxOutput> = Vec::new();
    let mut i: usize = 0;
    while i < outs.len()
        invariant
            i <= outs@.len(),
            r@.len() == i,
            forall|j: int| 0 <= j < i ==> #[trigger] r@[j]@ == outs@[j]@,
        decreases outs@.len() - i,
    {
        r.push(outs[i].clone());
        i += 1;
    }
    assert(r@.map_values(|o: TxOutput| o@) =~= outs@.map_values(|o: TxOutput| o@));
    r
}

impl Clone for TransactionData {
    fn clone(&self) -> (r: Self)
        ensures
            r@ == self@,
    {
        match self {
            TransactionData::Registration => TransactionData::Registration,
            TransactionData::Coinbase(c) => TransactionData::Coinbase(*c),
            TransactionData::Normal(outs) => TransactionData::Normal(clone_outputs(outs)),
            TransactionData::Burn(a) => TransactionData::Burn(*a),
        }
    }
}

impl Clone for Transaction {
    fn clone(&self) -> (r: Self)
        ensures
            r@ == self@,
    {
        let signature = match &self.signature {
            Some(s) => Some(s.clone()),
            None => None,
        };
        Transaction {
            version: self.version,
            sender: self.sender.clone(),
            nonce: self.nonce,
            fee: self.fee,
            data: self.data.clone(),
            signature,
        }
    }
}

pub fn write_outputs(out: &mut Vec<u8>, outs: &Vec<TxOutput>)
    ensures
        final(out)@ == old(out)@ + outputs_bytes(outs@.map_values(|o: TxOutput| o@)),
{
    let ghost start = out@;
    let ghost model = outs@.map_values(|o: TxOutput| o@);
    let mut i: usize = 0;
    while i < outs.len()
        invariant
            i <= outs@.len(),
            model == outs@.map_values(|o: TxOutput| o@),
            out@ == start + outputs_bytes(model.take(i as int)),
        decreases outs@.len() - i,
    {
        let o = &outs[i];
        write_bytes(out, &o.to.bytes);
        write_u64(out, o.amount);
        proof {
            let t = model.take(i + 1);
            assert(t.drop_last() =~= model.take(i as int));
            assert(t.last() == o@);
        }
        i += 1;
        assert(out@ =~= start + outputs_bytes(model.take(i as int)));
    }
    assert(model.take(outs@.len() as int) =~= model);
}

pub fn write_data(out: &mut Vec<u8>, d: &TransactionData)
    ensures
        final(out)@ == old(out)@ + data_bytes(d@),
{
    let ghost start = out@;
    match d {
        TransactionData::Registration => {
            write_u8(out, 0);
        },
        TransactionData::Coinbase(c) => {
            write_u8(out, 1);
            write_u64(out, c.block_reward);
            write_u64(out, c.fee_reward);
        },
        TransactionData::Normal(outs) => {
            write_u8(out, 2);
            write_u64(out, outs.len() as u64);
            write_outputs(out, outs);
        },
        TransactionData::Burn(a) => {
            write_u8(out, 3);
            write_u64(out, *a);
        },
    }
    assert(out@ =~= start + data_bytes(d@));
}

impl Transaction {
    pub fn new(nonce: u64, data: TransactionData, sender: PublicKey) -> (r: Transaction)
        ensures
            r@ == (TxModel {
                version: 0,
                sender: sender@,
                nonce,
                fee: 0,
                data: data@,
                signature: None,
            }),
    {
        Transaction { version: 0, sender, nonce, fee: 0, data, signature: None }
    }

    pub fn write_unsigned(&self, out: &mut Vec<u8>)
        ensures
            final(out)@ == old(out)@ + unsigned_bytes(self@),
    {
        let ghost start = out@;
        write_u8(out, self.version);
        write_bytes(out, &self.sender.bytes);
        write_u64(out, self.nonce);
        write_u64(out, self.fee);
        write_data(out, &self.data);
        assert(out@ =~= start + unsigned_bytes(self@));
    }

    pub fn write(&self, out: &mut Vec<u8>)
        ensures
            final(out)@ == old(out)@ + tx_bytes(self@),
    {
        let ghost start = out@;
        self.write_unsigned(out);
        match &self.signature {
            None => write_u8(out, 0),
            Some(s) => {
                write_u8(out, 1);
                write_bytes(out, &s.bytes);
            },
        }
        assert(out@ =~= start + tx_bytes(self@));
    }

    pub fn to_bytes(&self) -> (r: Vec<u8>)
        ensures
            r@ == tx_bytes(self@),
    {
        let mut out: Vec<u8> = Vec::new();
        self.write(&mut out);
        assert(out@ =~= tx_bytes(self@));
        out
    }

    /// The bytes that the signature covers.
    pub fn unsigned_bytes(&self) -> (r: Vec<u8>)
        ensures
            r@ == unsigned_bytes(self@),
    {
        let mut out: Vec<u8> = Vec::new();
        self.write_unsigned(&mut out);
        assert(out@ =~= unsigned_bytes(self@));
        out
    }

    pub fn hash(&self) -> (r: crypto::Hash)
        ensures
            r@ == tx_hash(self@),
            r.wf(),
    {
        crypto::Hash::digest(&self.unsigned_bytes())
    }

    pub fn size(&self) -> (r: usize)
        ensures
            r == tx_size(self@),
    {
        self.to_bytes().len()
    }

    pub fn is_registration(&self) -> (r: bool)
        ensures
            r == is_registration(self@),
    {
        matches!(self.data, TransactionData::Registration)
    }

    pub fn is_coinbase(&self) -> (r: bool)
        ensures
            r == is_coinbase(self@),
    {
        matches!(self.data, TransactionData::Coinbase(_))
    }

    pub fn require_signature(&self) -> (r: bool)
        ensures
            r == requires_signature(self@),
    {
        !self.is_coinbase()
    }

    pub fn has_signature(&self) -> (r: bool)
        ensures
            r == self@.signature is Some,
    {
        self.signature.is_some()
    }

    /// Whether the signature is present and verifies against the sender.
    pub fn verify_signature(&self) -> (r: bool)
        ensures
            r == has_valid_signature(self@),
    {
        match &self.signature {
            Some(s) => verify_signature(&self.sender, &self.unsigned_bytes(), s),
            None => false,
        }
    }

    /// Attaches a signature, replacing any previous one.
    pub fn set_signature(&mut self, signature: Signature)
        ensures
            final(self)@ == (TxModel { signature: Some(signature@), ..old(self)@ }),
    {
        self.signature = Some(signature);
    }

    pub fn get_sender(&self) -> (r: &PublicKey)
        ensures
            r@ == self@.sender,
    {
        &self.sender
    }

    pub fn get_nonce(&self) -> (r: u64)
        ensures
            r == self@.nonce,
    {
        self.nonce
    }

    pub fn get_fee(&self) -> (r: u64)
        ensures
            r == self@.fee,
    {
        self.fee
    }

    pub fn get_data(&self) -> (r: &TransactionData)
        ensures
            r@ == self@.data,
    {
        &self.data
    }
}

} // verus!
