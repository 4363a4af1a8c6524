use vstd::prelude::*;

use crate::accounts::{Account, AccountTable};
use crate::config::{DEV_FEE_PERCENT, REGISTRATION_DIFFICULTY};
use crate::crypto;
use crate::crypto::{PublicKey, HASH_SIZE};
use crate::difficulty::{check_difficulty, meets_difficulty};
use crate::emission::{calculate_tx_fee, tx_fee_spec};
use crate::transaction::{
    has_valid_signature, is_coinbase, is_registration, outputs_total, requires_signature, tx_size,
    DataModel, OutputModel, Transaction, TransactionData, TxModel, TxOutput,
};

verus! {

/// Why a block or a transaction was refused.
#[derive(Debug, Clone, Copy, PartialEq, Eq, Structural)]
pub enum BlockchainError {
    InvalidBlockHeight(u64, u64),
    InvalidPreviousBlockHash,
    InvalidDifficulty(u64, u64),
    TimestampIsInFuture(u64, u64),
    TimestampIsLessThanParent(u64),
    InvalidBlockTxs(u64, u64),
    InvalidTxInBlock,
    TxAlreadyInBlock,
    TxAlreadyInMempool,
    DuplicateRegistration,
    AddressNotRegistered,
    AddressAlreadyRegistered,
    InvalidTransactionSignature,
    InvalidTransactionNonce(u64, u64),
    InvalidTransactionToSender,
    InvalidTxFee(u64, u64),
    InvalidTxRegistrationPoW,
    InvalidBlockReward(u64, u64),
    InvalidFeeReward(u64, u64),
    InvalidBlockSize,
    InvalidMinerTx,
    CoinbaseTxNotAllowed,
    TxEmpty,
    NotEnoughFunds,
    InvalidCirculatingSupply(u64, u64),
    BlockNotFound,
    InvalidDevAddress,
    InvalidGenesisBlock,
    InvalidTxVersion,
    InvalidReferenceTopoheight,
    NoStableReferenceFound,
    NonceSpaceExhausted,
    TxNotFound,
    InvalidAccountState,
}

/// The outputs of a transfer, checked in order: none may pay the sender,
/// and every recipient must be registered.
pub open spec fn outputs_check(
    outs: Seq<OutputModel>,
    sender: Seq<u8>,
    acc: Map<Seq<u8>, Account>,
) -> Result<(), BlockchainError>
    decreases outs.len(),
{
    if outs.len() == 0 {
        Ok(())
    } else if outs[0].to == sender {
        Err(BlockchainError::InvalidTransactionToSender)
    } else if !acc.contains_key(outs[0].to) {
        Err(BlockchainError::AddressNotRegistered)
    } else {
        outputs_check(outs.drop_first(), sender, acc)
    }
}

/// The outcome of checking transaction `t`, whose hash is `hash`, against
/// the accounts `acc`: the first rule that fails, in this order.
pub open spec fn verify_tx_spec(
    acc: Map<Seq<u8>, Account>,
    t: TxModel,
    hash: Seq<u8>,
    disable_nonce_check: bool,
) -> Result<(), BlockchainError> {
    if requires_signature(t) && !has_valid_signature(t) {
        Err(BlockchainError::InvalidTransactionSignature)
    } else if (is_registration(t) || is_coinbase(t)) && t.fee != 0 {
        Err(BlockchainError::InvalidTxFee(0, t.fee))
    } else if !is_registration(t) && !is_coinbase(t) && t.fee < tx_fee_spec(tx_size(t)) {
        Err(BlockchainError::InvalidTxFee(tx_fee_spec(tx_size(t)) as u64, t.fee))
    } else if is_registration(t) {
        if acc.contains_key(t.sender) && !disable_nonce_check {
            Err(BlockchainError::AddressAlreadyRegistered)
        } else if !(hash.len() == HASH_SIZE && meets_difficulty(hash, REGISTRATION_DIFFICULTY)) {
            Err(BlockchainError::InvalidTxRegistrationPoW)
        } else {
            Ok(())
        }
    } else if !acc.contains_key(t.sender) {
        Err(BlockchainError::AddressNotRegistered)
    } else if !disable_nonce_check && acc[t.sender].nonce != t.nonce {
        Err(BlockchainError::InvalidTransactionNonce(acc[t.sender].nonce, t.nonce))
    } else {
        match t.data {
            DataModel::Normal(outs) => {
                if outs.len() == 0 {
                    Err(BlockchainError::TxEmpty)
                } else {
                    match outputs_check(outs, t.sender, acc) {
                        Err(e) => Err(e),
                        Ok(()) => if acc[t.sender].balance < t.fee + outputs_total(outs) {
                            Err(BlockchainError::NotEnoughFunds)
                        } else {
                            Ok(())
                        },
                    }
                }
            },
            DataModel::Burn(amount) => if acc[t.sender].balance < amount + t.fee {
                Err(BlockchainError::NotEnoughFunds)
            } else {
                Ok(())
            },
            DataModel::Coinbase(_) => Err(BlockchainError::CoinbaseTxNotAllowed),
            DataModel::Registration => Ok(()),
        }
    }
}

/// The nonce after one more transaction; it wraps at the end of its range.
pub open spec fn next_nonce(n: u64) -> u64 {
    if n == u64::MAX {
        0
    } else {
        (n + 1) as u64
    }
}

/// Credits every output to its recipient, in order.
pub open spec fn credit_outputs(acc: Map<Seq<u8>, Account>, outs: Seq<OutputModel>) -> Map<
    Seq<u8>,
    Account,
>
    decreases outs.len(),
{
    if outs.len() == 0 {
        acc
    } else {
        let a = credit_outputs(acc, outs.drop_last());
        let o = outs.last();
        a.insert(o.to, Account { balance: (a[o.to].balance + o.amount) as u64, nonce: a[o.to].nonce })
    }
}

/// The share of a block reward that goes to the dev account.
pub open spec fn dev_fee(block_reward: u64) -> int {
    block_reward * DEV_FEE_PERCENT / 100
}

/// The accounts after executing transaction `t`, `dev` being the dev key.
pub open spec fn execute_tx_spec(acc: Map<Seq<u8>, Account>, t: TxModel, dev: Seq<u8>) -> Map<
    Seq<u8>,
    Account,
> {
    let s = acc[t.sender];
    match t.data {
        DataModel::Burn(amount) => acc.insert(
            t.sender,
            Account { balance: (s.balance - (amount + t.fee)) as u64, nonce: next_nonce(s.nonce) },
        ),
        DataModel::Normal(outs) => credit_outputs(
            acc.insert(
                t.sender,
                Account {
                    balance: (s.balance - (t.fee + outputs_total(outs))) as u64,
                    nonce: next_nonce(s.nonce),
                },
            ),
            outs,
        ),
        DataModel::Registration => acc.insert(t.sender, Account { balance: 0, nonce: 0 }),
        DataModel::Coinbase(c) => {
            let cut = dev_fee(c.block_reward);
            let a1 = if DEV_FEE_PERCENT != 0 {
                acc.insert(dev, Account { balance: (acc[dev].balance + cut) as u64, nonce: acc[dev].nonce })
            } else {
                acc
            };
            a1.insert(
                t.sender,
                Account {
                    balance: (a1[t.sender].balance + (c.block_reward - cut) + c.fee_reward) as u64,
                    nonce: a1[t.sender].nonce,
                },
            )
        },
    }
}

/// Coins that executing `t` takes out of circulation.
pub open spec fn burned_by(t: TxModel) -> int {
    match t.data {
        DataModel::Burn(amount) => amount as int,
        _ => 0,
    }
}

/// Checks the outputs of a transfer in order and sums their amounts with
/// the fee.
fn check_outputs(acc: &AccountTable, outs: &Vec<TxOutput>, sender: &PublicKey, fee: u64) -> (r:
    Result<u128, BlockchainError>)
    requires
        acc.wf(),
    ensures
        match r {
            Ok(total) => outputs_check(outs@.map_values(|o: TxOutput| o@), sender@, acc.map()) is Ok && total == fee + outputs_total(
                outs@.map_values(|o: TxOutput| o@),
            ),
            Err(e) => outputs_check(outs@.map_values(|o: TxOutput| o@), sender@, acc.map()) == Err::<
                (),
                BlockchainError,
            >(e),
        },
{
    let ghost model = outs@.map_values(|o: TxOutput| o@);
    let mut total: u128 = fee as u128;
    let mut i: usize = 0;
    assert(model.subrange(0, model.len() as int) =~= model);
    assert(model.take(0) =~= Seq::<OutputModel>::empty());
    while i < outs.len()
        invariant
            model == outs@.map_values(|o: TxOutput| o@),
            acc.wf(),
            i <= outs@.len(),
            outputs_check(model, sender@, acc.map()) == outputs_check(
                model.subrange(i as int, model.len() as int),
                sender@,
                acc.map(),
            ),
            total == fee + outputs_total(model.take(i as int)),
            total <= (i + 1) * 0xffff_ffff_ffff_ffffu128,
        decreases outs@.len() - i,
    {
        let o = &outs[i];
        let ghost rest = model.subrange(i as int, model.len() as int);
        assert(rest[0] == o@);
        assert(rest.drop_first() =~= model.subrange(i + 1, model.len() as int));
        if o.to == *sender {
            return Err(BlockchainError::InvalidTransactionToSender);
        }
        if !acc.has_account(&o.to) {
            return Err(BlockchainError::AddressNotRegistered);
        }
        assert(model.take(i + 1).drop_last() =~= model.take(i as int));
        assert(total + o.amount <= (i + 2) * 0xffff_ffff_ffff_ffffu128) by (nonlinear_arith)
            requires
                total <= (i + 1) * 0xffff_ffff_ffff_ffffu128,
                o.amount <= 0xffff_ffff_ffff_ffffu64,
        ;
        assert((i + 2) * 0xffff_ffff_ffff_ffffu128 <= u128::MAX) by (nonlinear_arith)
            requires
                i < usize::MAX,
                usize::MAX <= u64::MAX,
        ;
        total = total + o.amount as u128;
        i += 1;
    }
    assert(model.subrange(model.len() as int, model.len() as int) =~= Seq::<OutputModel>::empty());
    assert(model.take(model.len() as int) =~= model);
    Ok(total)
}

/// Checks transaction `tx`, whose hash is `hash`, against the accounts.
pub fn verify_tx(
    acc: &AccountTable,
    tx: &Transaction,
    hash: &crypto::Hash,
    disable_nonce_check: bool,
) -> (r: Result<(), BlockchainError>)
    requires
        acc.wf(),
    ensures
        r == verify_tx_spec(acc.map(), tx@, hash@, disable_nonce_check),
{
    if tx.require_signature() && !tx.verify_signature() {
        return Err(BlockchainError::InvalidTransactionSignature);
    }
    let is_registration = tx.is_registration();
    if is_registration || tx.is_coinbase() {
        if tx.fee != 0 {
            return Err(BlockchainError::InvalidTxFee(0, tx.fee));
        }
    } else {
        let fee = calculate_tx_fee(tx.size());
        if tx.fee < fee {
            return Err(BlockchainError::InvalidTxFee(fee, tx.fee));
        }
    }
    if is_registration {
        if acc.has_account(&tx.sender) && !disable_nonce_check {
            return Err(BlockchainError::AddressAlreadyRegistered);
        }
        return match check_difficulty(hash, REGISTRATION_DIFFICULTY) {
            Ok(true) => Ok(()),
            _ => Err(BlockchainError::InvalidTxRegistrationPoW),
        };
    }
    let account = match acc.get(&tx.sender) {
        Some(a) => a,
        None => {
            return Err(BlockchainError::AddressNotRegistered);
        },
    };
    if !disable_nonce_check && account.nonce != tx.nonce {
        return Err(BlockchainError::InvalidTransactionNonce(account.nonce, tx.nonce));
    }
    match &tx.data {
        TransactionData::Normal(outs) => {
            if outs.len() == 0 {
                return Err(BlockchainError::TxEmpty);
            }
            let total = match check_outputs(acc, outs, &tx.sender, tx.fee) {
                Ok(t) => t,
                Err(e) => {
                    return Err(e);
                },
            };
            if (account.balance as u128) < total {
                return Err(BlockchainError::NotEnoughFunds);
            }
            Ok(())
        },
        TransactionData::Burn(amount) => {
            if (account.balance as u128) < *amount as u128 + tx.fee as u128 {
                return Err(BlockchainError::NotEnoughFunds);
            }
            Ok(())
        },
        TransactionData::Coinbase(_) => Err(BlockchainError::CoinbaseTxNotAllowed),
        TransactionData::Registration => Ok(()),
    }
}

/// What executing `t` needs of the accounts beyond the bounds on totals:
/// the checks that `verify_tx_spec` makes of balances and registrations,
/// and for the coinbase a registered miner and dev account.
pub open spec fn can_execute(acc: Map<Seq<u8>, Account>, t: TxModel, dev: Seq<u8>) -> bool {
    match t.data {
        DataModel::Burn(amount) => acc.contains_key(t.sender) && acc[t.sender].balance >= amount
            + t.fee,
        DataModel::Normal(outs) => acc.contains_key(t.sender) && outputs_check(outs, t.sender, acc) is Ok && acc[t.sender].balance >= t.fee + outputs_total(outs),
        DataModel::Registration => true,
        DataModel::Coinbase(_) => acc.contains_key(t.sender) && (DEV_FEE_PERCENT != 0
            ==> acc.contains_key(dev)),
    }
}

/// How executing `t` changes the sum of all balances.
pub open spec fn total_delta(acc: Map<Seq<u8>, Account>, t: TxModel) -> int {
    match t.data {
        DataModel::Burn(amount) => -(amount + t.fee),
        DataModel::Normal(_) => -(t.fee as int),
        DataModel::Registration => if acc.contains_key(t.sender) {
            -(acc[t.sender].balance as int)
        } else {
            0
        },
        DataModel::Coinbase(c) => c.block_reward + c.fee_reward,
    }
}

pub proof fn lemma_outputs_check_ok(outs: Seq<OutputModel>, sender: Seq<u8>, acc: Map<Seq<u8>, Account>)
    requires
        outputs_check(outs, sender, acc) is Ok,
    ensures
        forall|i: int|
            0 <= i < outs.len() ==> acc.contains_key(#[trigger] outs[i].to) && outs[i].to != sender,
    decreases outs.len(),
{
    if outs.len() > 0 {
        lemma_outputs_check_ok(outs.drop_first(), sender, acc);
        assert forall|i: int| 0 <= i < outs.len() implies acc.contains_key(#[trigger] outs[i].to)
            && outs[i].to != sender by {
            if i > 0 {
                assert(outs[i] == outs.drop_first()[i - 1]);
            }
        }
    }
}

pub proof fn lemma_outputs_total_prefix(outs: Seq<OutputModel>, i: int)
    requires
        0 <= i <= outs.len(),
    ensures
        0 <= outputs_total(outs.take(i)) <= outputs_total(outs),
    decreases outs.len(),
{
    if outs.len() > 0 {
        if i == outs.len() {
            assert(outs.take(i) =~= outs);
            lemma_outputs_total_prefix(outs.drop_last(), i - 1);
            assert(outs.drop_last().take(i - 1) =~= outs.drop_last());
        } else {
            lemma_outputs_total_prefix(outs.drop_last(), i);
            assert(outs.drop_last().take(i) =~= outs.take(i));
            lemma_outputs_total_prefix(outs.drop_last(), outs.len() - 1);
            assert(outs.drop_last().take(outs.len() - 1) =~= outs.drop_last());
        }
    } else {
        assert(outs.take(i) =~= outs);
    }
}

/// Credits the outputs of a transfer to their recipients, in order.
fn credit_all(acc: &mut AccountTable, outs: &Vec<TxOutput>, sender: Ghost<Seq<u8>>)
    requires
        old(acc).wf(),
        outputs_check(outs@.map_values(|o: TxOutput| o@), sender@, old(acc).map()) is Ok,
        old(acc).total() + outputs_total(outs@.map_values(|o: TxOutput| o@)) <= u64::MAX,
    ensures
        final(acc).wf(),
        final(acc).map() == credit_outputs(old(acc).map(), outs@.map_values(|o: TxOutput| o@)),
        final(acc).total() == old(acc).total() + outputs_total(outs@.map_values(|o: TxOutput| o@)),
        final(acc).map().dom() == old(acc).map().dom(),
{
    let ghost model = outs@.map_values(|o: TxOutput| o@);
    let ghost start = acc.map();
    let ghost t0 = acc.total();
    proof {
        lemma_outputs_check_ok(model, sender@, start);
        assert(model.take(0) =~= Seq::<OutputModel>::empty());
        acc.lemma_total_nonneg();
    }
    let mut i: usize = 0;
    while i < outs.len()
        invariant
            model == outs@.map_values(|o: TxOutput| o@),
            i <= outs@.len(),
            acc.wf(),
            acc.map() == credit_outputs(start, model.take(i as int)),
            acc.map().dom() == start.dom(),
            acc.total() == t0 + outputs_total(model.take(i as int)),
            t0 >= 0,
            t0 + outputs_total(model) <= u64::MAX,
            forall|j: int| 0 <= j < model.len() ==> start.contains_key(#[trigger] model[j].to),
        decreases outs@.len() - i,
    {
        let o = &outs[i];
        assert(model[i as int] == o@);
        assert(start.contains_key(model[i as int].to));
        let a = acc.get(&o.to).unwrap();
        proof {
            acc.lemma_balance_le_total(o.to@);
            lemma_outputs_total_prefix(model, i + 1);
            assert(model.take(i + 1).drop_last() =~= model.take(i as int));
        }
        acc.set(&o.to, Account { balance: a.balance + o.amount, nonce: a.nonce });
        i += 1;
        proof {
            assert(acc.map().dom() =~= start.dom());
        }
    }
    assert(model.take(model.len() as int) =~= model);
}

/// Applies transaction `tx` to the accounts, `dev` being the dev key.
pub fn execute_tx(acc: &mut AccountTable, tx: &Transaction, dev: &PublicKey)
    requires
        old(acc).wf(),
        can_execute(old(acc).map(), tx@, dev@),
        old(acc).total() <= u64::MAX,
        tx@.data matches DataModel::Coinbase(c) ==> old(acc).total() + c.block_reward
            + c.fee_reward <= u64::MAX,
    ensures
        final(acc).wf(),
        final(acc).map() == execute_tx_spec(old(acc).map(), tx@, dev@),
        final(acc).total() == old(acc).total() + total_delta(old(acc).map(), tx@),
        forall|k: Seq<u8>| old(acc).map().contains_key(k) ==> #[trigger] final(acc).map().contains_key(k),
{
    proof {
        acc.lemma_total_nonneg();
    }
    match &tx.data {
        TransactionData::Burn(amount) => {
            let s = acc.get(&tx.sender).unwrap();
            acc.set(
                &tx.sender,
                Account { balance: s.balance - (*amount + tx.fee), nonce: s.nonce.wrapping_add(1) },
            );
        },
        TransactionData::Normal(outs) => {
            let ghost model = outs@.map_values(|o: TxOutput| o@);
            let s = acc.get(&tx.sender).unwrap();
            let total = match check_outputs(acc, outs, &tx.sender, tx.fee) {
                Ok(t) => t,
                Err(_) => 0,
            };
            proof {
                lemma_outputs_check_ok(model, tx@.sender, acc.map());
                lemma_outputs_total_prefix(model, 0);
                assert(model.take(0) =~= Seq::<OutputModel>::empty());
            }
            let ghost before = acc.map();
            acc.set(
                &tx.sender,
                Account { balance: s.balance - total as u64, nonce: s.nonce.wrapping_add(1) },
            );
            proof {
                assert forall|j: int| 0 <= j < model.len() implies #[trigger] model[j].to
                    != tx@.sender by {}
                assert(outputs_check(model, tx@.sender, acc.map()) is Ok)
                    by {
                    assert(acc.map().dom() =~= before.dom());
                    lemma_outputs_check_domain(model, tx@.sender, before, acc.map());
                }
            }
            credit_all(acc, outs, Ghost(tx@.sender));
        },
        TransactionData::Registration => {
            acc.register(tx.sender.clone());
        },
        TransactionData::Coinbase(c) => {
            let mut reward = c.block_reward;
            assert(c.block_reward * DEV_FEE_PERCENT / 100 <= c.block_reward) by (nonlinear_arith)
                requires
                    DEV_FEE_PERCENT <= 100,
            ;
            if DEV_FEE_PERCENT != 0 {
                let cut = c.block_reward / 100 * DEV_FEE_PERCENT + c.block_reward % 100
                    * DEV_FEE_PERCENT / 100;
                assert(cut == c.block_reward * DEV_FEE_PERCENT / 100) by (nonlinear_arith)
                    requires
                        cut == c.block_reward / 100 * DEV_FEE_PERCENT + c.block_reward % 100
                            * DEV_FEE_PERCENT / 100,
                        DEV_FEE_PERCENT == 5,
                ;
                let d = acc.get(dev).unwrap();
                proof {
                    acc.lemma_balance_le_total(dev@);
                }
                acc.set(dev, Account { balance: d.balance + cut, nonce: d.nonce });
                reward = reward - cut;
            }
            let m = acc.get(&tx.sender).unwrap();
            proof {
                acc.lemma_balance_le_total(tx@.sender);
            }
            acc.set(&tx.sender, Account { balance: m.balance + reward + c.fee_reward, nonce: m.nonce });
        },
    }
}

/// A transaction that passes the checks can be executed.
pub proof fn lemma_verified_can_execute(
    acc: Map<Seq<u8>, Account>,
    t: TxModel,
    hash: Seq<u8>,
    disable_nonce_check: bool,
    dev: Seq<u8>,
)
    requires
        verify_tx_spec(acc, t, hash, disable_nonce_check) is Ok,
        !is_coinbase(t),
    ensures
        can_execute(acc, t, dev),
{
    match t.data {
        DataModel::Normal(outs) => {
            assert(acc.contains_key(t.sender));
            assert(outputs_check(outs, t.sender, acc) is Ok);
            assert(acc[t.sender].balance >= t.fee + outputs_total(outs));
        },
        DataModel::Burn(a) => {
            assert(acc.contains_key(t.sender));
        },
        _ => {},
    }
}

/// A transfer check depends only on which keys are registered.
pub proof fn lemma_outputs_check_domain(
    outs: Seq<OutputModel>,
    sender: Seq<u8>,
    a: Map<Seq<u8>, Account>,
    b: Map<Seq<u8>, Account>,
)
    requires
        a.dom() == b.dom(),
    ensures
        outputs_check(outs, sender, a) == outputs_check(outs, sender, b),
    decreases outs.len(),
{
    if outs.len() > 0 {
        lemma_outputs_check_domain(outs.drop_first(), sender, a, b);
    }
}

} // verus!
