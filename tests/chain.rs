use ed25519_dalek::{Signer, SigningKey};
use xelis_core::block::{Block, CompleteBlock};
use xelis_core::blockchain::Blockchain;
use xelis_core::config::{DEV_ADDRESS, DEV_FEE_PERCENT, MINIMUM_DIFFICULTY, REGISTRATION_DIFFICULTY};
use xelis_core::crypto;
use xelis_core::crypto::{PublicKey, Signature};
use xelis_core::difficulty::check_difficulty;
use xelis_core::emission::{calculate_tx_fee, get_block_reward};
use xelis_core::rules::BlockchainError;
use xelis_core::transaction::{CoinbaseTx, Transaction, TransactionData, TxOutput};

const NOW: u64 = 1_700_000_000;

fn dev_key() -> PublicKey {
    PublicKey::from_address(DEV_ADDRESS).unwrap()
}

fn signing_key(seed: u8) -> SigningKey {
    SigningKey::from_bytes(&[seed; 32])
}

fn key_of(sk: &SigningKey) -> PublicKey {
    PublicKey { bytes: sk.verifying_key().to_bytes().to_vec() }
}

fn sign(tx: &mut Transaction, sk: &SigningKey) {
    let sig = sk.sign(&tx.unsigned_bytes());
    tx.set_signature(Signature { bytes: sig.to_bytes().to_vec() });
}

fn mine_header(block: &mut Block, difficulty: u64) {
    while !check_difficulty(&block.hash(), difficulty).unwrap() {
        block.nonce += 1;
    }
}

fn genesis_block() -> CompleteBlock {
    let coinbase = Transaction::new(
        0,
        TransactionData::Coinbase(CoinbaseTx { block_reward: get_block_reward(0), fee_reward: 0 }),
        dev_key(),
    );
    let mut block = Block::new(0, NOW - 100, crypto::Hash::zero(), MINIMUM_DIFFICULTY, coinbase, vec![]);
    mine_header(&mut block, MINIMUM_DIFFICULTY);
    CompleteBlock::new(block, vec![])
}

fn booted_chain() -> Blockchain {
    let genesis = genesis_block();
    Blockchain::from_config(DEV_ADDRESS, &genesis.to_hex(), NOW).unwrap()
}

fn registration(sk: &SigningKey, start_nonce: u64) -> Transaction {
    let mut nonce = start_nonce;
    loop {
        let mut tx = Transaction::new(nonce, TransactionData::Registration, key_of(sk));
        sign(&mut tx, sk);
        if check_difficulty(&tx.hash(), REGISTRATION_DIFFICULTY).unwrap() {
            return tx;
        }
        nonce += 1;
    }
}

fn transfer(sk: &SigningKey, nonce: u64, to: &PublicKey, amount: u64, fee: u64) -> Transaction {
    let mut tx = Transaction::new(
        nonce,
        TransactionData::Normal(vec![TxOutput { to: to.clone(), amount }]),
        key_of(sk),
    );
    tx.fee = fee;
    sign(&mut tx, sk);
    tx
}

fn balance(chain: &Blockchain, key: &PublicKey) -> u64 {
    chain.get_account(key).unwrap().get_balance()
}

#[test]
fn dev_address_decodes() {
    let key = dev_key();
    let expected: Vec<u8> = (1..=32).collect();
    assert_eq!(key.bytes, expected);
    assert!(PublicKey::from_address("xel1qypqxpq9qcrsszg2pvxq6rs0zqg3yyc5z5tpwxqergd3c8g7rusq3f2cgd").is_none());
    assert!(PublicKey::from_address("tst1qypqxpq9qcrsszg2pvxq6rs0zqg3yyc5z5tpwxqergd3c8g7rusqenf5kj").is_none());
}

#[test]
fn chain_without_genesis_is_empty() {
    let chain = Blockchain::new(NOW).unwrap();
    assert_eq!(chain.get_height(), 0);
    assert_eq!(chain.get_supply(), 0);
    assert_eq!(chain.get_difficulty(), MINIMUM_DIFFICULTY);
    assert_eq!(chain.get_top_hash(), &crypto::Hash::zero());
    assert!(chain.get_top_block().is_err());
}

#[test]
fn complete_block_hex_round_trip() {
    let genesis = genesis_block();
    let hex = genesis.to_hex();
    let back = CompleteBlock::from_hex(&hex).unwrap();
    assert_eq!(back.to_hex(), hex);
    assert_eq!(back.hash(), genesis.hash());
    assert_eq!(CompleteBlock::from_hex(&hex.to_uppercase()).unwrap().to_hex(), hex);
    assert!(CompleteBlock::from_hex(&hex[..hex.len() - 2]).is_err());
    assert!(CompleteBlock::from_hex("zz").is_err());
}

#[test]
fn genesis_apply() {
    let genesis = genesis_block();
    let chain = booted_chain();
    assert_eq!(chain.get_height(), 1);
    assert_eq!(chain.get_top_hash(), &genesis.hash());
    let reward = get_block_reward(0);
    assert_eq!(chain.get_supply(), reward);
    let dev_cut = reward * DEV_FEE_PERCENT / 100;
    assert_eq!(balance(&chain, &dev_key()), (reward - dev_cut) + dev_cut);
    assert!(chain.check_validity().is_ok());
}

#[test]
fn genesis_must_be_mined_by_dev() {
    let other = signing_key(3);
    let coinbase = Transaction::new(
        0,
        TransactionData::Coinbase(CoinbaseTx { block_reward: get_block_reward(0), fee_reward: 0 }),
        key_of(&other),
    );
    let mut block = Block::new(0, NOW, crypto::Hash::zero(), MINIMUM_DIFFICULTY, coinbase, vec![]);
    mine_header(&mut block, MINIMUM_DIFFICULTY);
    let hex = CompleteBlock::new(block, vec![]).to_hex();
    assert_eq!(
        Blockchain::from_config(DEV_ADDRESS, &hex, NOW).unwrap_err(),
        BlockchainError::InvalidGenesisBlock
    );
    assert_eq!(
        Blockchain::from_config("nope", "", NOW).unwrap_err(),
        BlockchainError::InvalidDevAddress
    );
}

#[test]
fn block_height_must_follow_tip() {
    let mut chain = booted_chain();
    let genesis = genesis_block();
    assert_eq!(
        chain.add_new_block(genesis, NOW).unwrap_err(),
        BlockchainError::InvalidBlockHeight(1, 0)
    );
    assert_eq!(chain.get_height(), 1);
}

#[test]
fn registration_then_transfer() {
    let mut chain = booted_chain();
    let miner = signing_key(1);
    let alice = signing_key(2);
    let miner_key = key_of(&miner);
    let alice_key = key_of(&alice);

    chain.add_tx_to_mempool(registration(&miner, 0)).unwrap();
    chain.add_tx_to_mempool(registration(&alice, 0)).unwrap();
    chain.mine_block(dev_key(), NOW).unwrap();
    assert_eq!(chain.get_height(), 2);
    assert_eq!(balance(&chain, &miner_key), 0);
    assert_eq!(balance(&chain, &alice_key), 0);
    assert_eq!(chain.get_account(&alice_key).unwrap().get_nonce(), 0);

    let supply = chain.get_supply();
    let reward = get_block_reward(supply);
    chain.mine_block(miner_key.clone(), NOW).unwrap();
    let miner_reward = reward - reward * DEV_FEE_PERCENT / 100;
    assert_eq!(balance(&chain, &miner_key), miner_reward);

    let x = 12_345;
    let tx = transfer(&miner, 0, &alice_key, x, 0);
    let fee = calculate_tx_fee(tx.size());
    let tx = transfer(&miner, 0, &alice_key, x, fee);
    chain.add_tx_to_mempool(tx).unwrap();
    let reward2 = get_block_reward(chain.get_supply());
    chain.mine_block(miner_key.clone(), NOW).unwrap();
    assert_eq!(balance(&chain, &alice_key), x);
    let miner_reward2 = reward2 - reward2 * DEV_FEE_PERCENT / 100;
    assert_eq!(balance(&chain, &miner_key), miner_reward + miner_reward2 + fee - x - fee);
    assert_eq!(chain.get_account(&miner_key).unwrap().get_nonce(), 1);
    assert_eq!(chain.get_account(&alice_key).unwrap().get_nonce(), 0);
    assert_eq!(chain.get_mempool().size(), 0);
    assert!(chain.check_validity().is_ok());
}

#[test]
fn transfer_rules() {
    let mut chain = booted_chain();
    let miner = signing_key(1);
    let miner_key = key_of(&miner);
    chain.add_tx_to_mempool(registration(&miner, 0)).unwrap();
    chain.mine_block(dev_key(), NOW).unwrap();
    chain.mine_block(miner_key.clone(), NOW).unwrap();

    let stranger = key_of(&signing_key(9));
    let tx = transfer(&miner, 0, &stranger, 1, 1000);
    assert_eq!(chain.verify_transaction(&tx, false), Err(BlockchainError::AddressNotRegistered));
    let tx = transfer(&miner, 0, &miner_key, 1, 1000);
    assert_eq!(chain.verify_transaction(&tx, false), Err(BlockchainError::InvalidTransactionToSender));
    let tx = transfer(&miner, 0, &dev_key(), 1, 1);
    assert_eq!(chain.verify_transaction(&tx, false), Err(BlockchainError::InvalidTxFee(1000, 1)));
    let tx = transfer(&miner, 5, &dev_key(), 1, 1000);
    assert_eq!(
        chain.verify_transaction(&tx, false),
        Err(BlockchainError::InvalidTransactionNonce(0, 5))
    );
    let tx = transfer(&miner, 0, &dev_key(), u64::MAX - 10, 1000);
    assert_eq!(chain.verify_transaction(&tx, false), Err(BlockchainError::NotEnoughFunds));
    let mut tx = transfer(&miner, 0, &dev_key(), 1, 1000);
    tx.fee = 2000;
    assert_eq!(chain.verify_transaction(&tx, false), Err(BlockchainError::InvalidTransactionSignature));
    let mut empty = Transaction::new(0, TransactionData::Normal(vec![]), miner_key.clone());
    empty.fee = 1000;
    sign(&mut empty, &miner);
    assert_eq!(chain.verify_transaction(&empty, false), Err(BlockchainError::TxEmpty));
    let tx = transfer(&miner, 0, &dev_key(), 1, 1000);
    chain.add_tx_to_mempool(tx.clone()).unwrap();
    assert_eq!(chain.add_tx_to_mempool(tx), Err(BlockchainError::TxAlreadyInMempool));
}

#[test]
fn registration_rules() {
    let mut chain = booted_chain();
    let alice = signing_key(2);
    let reg = registration(&alice, 0);
    assert_eq!(chain.verify_transaction(&reg, false), Ok(()));
    let mut unsigned = Transaction::new(0, TransactionData::Registration, key_of(&alice));
    assert_eq!(
        chain.verify_transaction(&unsigned, false),
        Err(BlockchainError::InvalidTransactionSignature)
    );
    unsigned.fee = 5;
    sign(&mut unsigned, &alice);
    assert_eq!(chain.verify_transaction(&unsigned, false), Err(BlockchainError::InvalidTxFee(0, 5)));
    let mut nonce = 0;
    let weak = loop {
        let mut tx = Transaction::new(nonce, TransactionData::Registration, key_of(&alice));
        sign(&mut tx, &alice);
        if !check_difficulty(&tx.hash(), REGISTRATION_DIFFICULTY).unwrap() {
            break tx;
        }
        nonce += 1;
    };
    assert_eq!(chain.verify_transaction(&weak, false), Err(BlockchainError::InvalidTxRegistrationPoW));
    chain.add_tx_to_mempool(reg).unwrap();
    chain.mine_block(dev_key(), NOW).unwrap();
    let again = registration(&alice, 1000);
    assert_eq!(
        chain.verify_transaction(&again, false),
        Err(BlockchainError::AddressAlreadyRegistered)
    );
    assert_eq!(chain.verify_transaction(&again, true), Ok(()));
}

#[test]
fn double_spend_rejection() {
    let mut chain = booted_chain();
    let miner = signing_key(1);
    let miner_key = key_of(&miner);
    chain.add_tx_to_mempool(registration(&miner, 0)).unwrap();
    chain.mine_block(dev_key(), NOW).unwrap();
    chain.mine_block(miner_key.clone(), NOW).unwrap();

    let first = transfer(&miner, 0, &dev_key(), 10, 2000);
    let second = transfer(&miner, 0, &dev_key(), 20, 1000);
    chain.add_tx_to_mempool(first.clone()).unwrap();
    chain.add_tx_to_mempool(second.clone()).unwrap();
    let height = chain.get_height();
    assert_eq!(
        chain.mine_block(miner_key.clone(), NOW),
        Err(BlockchainError::InvalidTransactionNonce(1, 0))
    );
    assert_eq!(chain.get_height(), height);

    let template = chain.get_block_template(miner_key.clone(), NOW);
    assert_eq!(template.txs_hashes, vec![first.hash(), second.hash()]);
    let mut block = template.clone();
    block.txs_hashes = vec![first.hash()];
    block.miner_tx.data = TransactionData::Coinbase(CoinbaseTx {
        block_reward: get_block_reward(chain.get_supply()),
        fee_reward: 2000,
    });
    mine_header(&mut block, chain.get_difficulty());
    let complete = chain.build_complete_block_from_block(block).unwrap();
    chain.add_new_block(complete, NOW).unwrap();
    assert_eq!(
        chain.verify_transaction(&second, false),
        Err(BlockchainError::InvalidTransactionNonce(1, 0))
    );
    assert_eq!(chain.get_mempool().size(), 1);
}

#[test]
fn duplicate_registration_in_block() {
    let mut chain = booted_chain();
    let alice = signing_key(2);
    let first = registration(&alice, 0);
    let second = registration(&alice, first.nonce + 1);
    chain.add_tx_to_mempool(first).unwrap();
    chain.add_tx_to_mempool(second).unwrap();
    assert_eq!(chain.mine_block(dev_key(), NOW), Err(BlockchainError::DuplicateRegistration));
    assert_eq!(chain.get_height(), 1);
}

#[test]
fn burn_keeps_supply_accounted() {
    let mut chain = booted_chain();
    let miner = signing_key(1);
    let miner_key = key_of(&miner);
    chain.add_tx_to_mempool(registration(&miner, 0)).unwrap();
    chain.mine_block(dev_key(), NOW).unwrap();
    chain.mine_block(miner_key.clone(), NOW).unwrap();
    let before = balance(&chain, &miner_key);
    let mut burn = Transaction::new(0, TransactionData::Burn(500), miner_key.clone());
    burn.fee = 1000;
    sign(&mut burn, &miner);
    chain.add_tx_to_mempool(burn).unwrap();
    let reward = get_block_reward(chain.get_supply());
    chain.mine_block(miner_key.clone(), NOW).unwrap();
    assert_eq!(chain.get_burned(), 500);
    let miner_reward = reward - reward * DEV_FEE_PERCENT / 100;
    assert_eq!(balance(&chain, &miner_key), before - 500 - 1000 + miner_reward + 1000);
    assert!(chain.check_validity().is_ok());
}

#[test]
fn blocks_are_found_by_height_and_hash() {
    let mut chain = booted_chain();
    chain.mine_block(dev_key(), NOW).unwrap();
    let top = chain.get_top_block().unwrap();
    let hash = top.hash();
    assert_eq!(chain.get_block_by_hash(&hash).unwrap().get_height(), 1);
    assert_eq!(chain.get_block_at_height(0).unwrap().get_height(), 0);
    assert_eq!(chain.get_block_at_height(2).unwrap_err(), BlockchainError::InvalidBlockHeight(2, 2));
    assert_eq!(
        chain.get_block_by_hash(&crypto::Hash::zero()).unwrap_err(),
        BlockchainError::BlockNotFound
    );
    assert_eq!(chain.get_top_hash(), &hash);
}

#[test]
fn mining_for_unregistered_key_fails_unchanged() {
    let mut chain = booted_chain();
    let stranger = key_of(&signing_key(8));
    assert_eq!(chain.mine_block(stranger, NOW), Err(BlockchainError::AddressNotRegistered));
    assert_eq!(chain.get_height(), 1);
    assert!(chain.check_validity().is_ok());
}

#[test]
fn validity_replays_spent_balances() {
    let mut chain = booted_chain();
    let miner = signing_key(1);
    let miner_key = key_of(&miner);
    chain.add_tx_to_mempool(registration(&miner, 0)).unwrap();
    chain.mine_block(dev_key(), NOW).unwrap();
    chain.mine_block(miner_key.clone(), NOW).unwrap();
    let all = balance(&chain, &miner_key);
    let tx = transfer(&miner, 0, &dev_key(), all - 1000, 1000);
    chain.add_tx_to_mempool(tx).unwrap();
    chain.mine_block(dev_key(), NOW).unwrap();
    assert_eq!(balance(&chain, &miner_key), 0);
    assert!(chain.check_validity().is_ok());
}
