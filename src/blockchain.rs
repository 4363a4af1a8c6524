use vstd::prelude::*;

use crate::accounts::{entries_total, Account, AccountTable};
use crate::keyed::{map_of, unique_keys};
use crate::block::{block_hash, block_size, Block, BlockModel, CompleteBlock, CompleteBlockModel};
use crate::config::{
    DEV_FEE_PERCENT, MAX_BLOCK_SIZE, MAX_SUPPLY, MINIMUM_DIFFICULTY, TIMESTAMP_FUTURE_TOLERANCE,
};
use crate::crypto;
use crate::crypto::{key_of_address, PublicKey, HASH_SIZE};
use crate::decode::parse_complete_block;
use crate::codec::hex_decode;
use vstd::string::StringSliceAdditionalSpecFns;
use crate::difficulty::{calculate_difficulty, check_difficulty, meets_difficulty, next_difficulty};
use crate::emission::{block_reward_spec, get_block_reward};
use crate::mempool::{contains_hash_in, entries_wf, without_hashes, EntryModel, Mempool};
use crate::rules::{
    burned_by, can_execute, execute_tx, execute_tx_spec, total_delta, verify_tx, verify_tx_spec,
    BlockchainError,
};
use crate::transaction::{
    is_coinbase, is_registration, tx_hash, tx_size, CoinbaseTx, DataModel, Transaction,
    TransactionData, TxModel,
};

verus! {

/// The chain as a value: applied blocks, scalar state, accounts in order of
/// registration, pending transactions and the dev key.
pub struct ChainModel {
    pub blocks: Seq<CompleteBlockModel>,
    pub height: u64,
    pub supply: u64,
    pub burned: u64,
    pub top_hash: Seq<u8>,
    pub difficulty: u64,
    pub mempool: Seq<EntryModel>,
    pub accounts: Seq<(Seq<u8>, Account)>,
    pub dev: Seq<u8>,
}

/// Sum of the block rewards that the coinbases of `blocks` claim.
pub open spec fn rewards_total(blocks: Seq<CompleteBlockModel>) -> int
    decreases blocks.len(),
{
    if blocks.len() == 0 {
        0
    } else {
        rewards_total(blocks.drop_last()) + match blocks.last().block.miner_tx.data {
            DataModel::Coinbase(c) => c.block_reward as int,
            _ => 0,
        }
    }
}

/// What holds of the chain between any two operations.
pub open spec fn chain_wf(m: ChainModel) -> bool {
    &&& m.height == m.blocks.len()
    &&& m.supply <= MAX_SUPPLY
    &&& m.supply == rewards_total(m.blocks)
    &&& entries_total(m.accounts) + m.burned == m.supply
    &&& unique_keys(m.accounts)
    &&& entries_wf(m.mempool)
    &&& m.difficulty >= MINIMUM_DIFFICULTY
    &&& m.height > 0 ==> m.top_hash == block_hash(m.blocks.last().block)
}

/// The state threaded through the transactions of a block.
pub struct TxsState {
    pub acc: Map<Seq<u8>, Account>,
    pub seen: Seq<Seq<u8>>,
    pub registered: Seq<Seq<u8>>,
    pub fees: int,
    pub size: int,
    pub burned: int,
}

/// One transaction of a block, whose header lists `expected` at its place:
/// checked against the accounts as the transactions before it left them,
/// then executed.
pub open spec fn tx_step(st: TxsState, t: TxModel, expected: Seq<u8>, dev: Seq<u8>) -> Result<
    TxsState,
    BlockchainError,
> {
    let h = tx_hash(t);
    if st.seen.contains(h) {
        Err(BlockchainError::TxAlreadyInBlock)
    } else if h != expected {
        Err(BlockchainError::InvalidTxInBlock)
    } else if is_coinbase(t) {
        Err(BlockchainError::InvalidTxInBlock)
    } else if is_registration(t) && st.registered.contains(t.sender) {
        Err(BlockchainError::DuplicateRegistration)
    } else {
        match verify_tx_spec(st.acc, t, h, false) {
            Err(e) => Err(e),
            Ok(()) => Ok(
                TxsState {
                    acc: execute_tx_spec(st.acc, t, dev),
                    seen: st.seen.push(h),
                    registered: if is_registration(t) {
                        st.registered.push(t.sender)
                    } else {
                        st.registered
                    },
                    fees: st.fees + t.fee,
                    size: st.size + tx_size(t),
                    burned: st.burned + burned_by(t),
                },
            ),
        }
    }
}

/// The first `n` transactions of a block, applied in order to `acc`.
pub open spec fn txs_outcome(
    acc: Map<Seq<u8>, Account>,
    hashes: Seq<Seq<u8>>,
    txs: Seq<TxModel>,
    dev: Seq<u8>,
    n: nat,
) -> Result<TxsState, BlockchainError>
    decreases n,
{
    if n == 0 {
        Ok(
            TxsState {
                acc,
                seen: Seq::empty(),
                registered: Seq::empty(),
                fees: 0,
                size: 0,
                burned: 0,
            },
        )
    } else {
        match txs_outcome(acc, hashes, txs, dev, (n - 1) as nat) {
            Err(e) => Err(e),
            Ok(st) => tx_step(st, txs[n - 1], hashes[n - 1], dev),
        }
    }
}

/// The header checks against the tip of the chain, in order.
pub open spec fn header_check(m: ChainModel, b: CompleteBlockModel, now: u64) -> Result<
    (),
    BlockchainError,
> {
    let h = b.block;
    if h.height != m.height || h.height == u64::MAX {
        Err(BlockchainError::InvalidBlockHeight(m.height, h.height))
    } else if h.difficulty != m.difficulty || !meets_difficulty(block_hash(h), m.difficulty) {
        Err(BlockchainError::InvalidDifficulty(m.difficulty, h.difficulty))
    } else if h.timestamp > now + TIMESTAMP_FUTURE_TOLERANCE {
        Err(BlockchainError::TimestampIsInFuture(now, h.timestamp))
    } else if m.height > 0 && h.previous_hash != m.top_hash {
        Err(BlockchainError::InvalidPreviousBlockHash)
    } else if m.height > 0 && m.blocks.last().block.timestamp > h.timestamp {
        Err(BlockchainError::TimestampIsLessThanParent(h.timestamp))
    } else if h.txs_hashes.len() != b.transactions.len() {
        Err(
            BlockchainError::InvalidBlockTxs(
                h.txs_hashes.len() as u64,
                b.transactions.len() as u64,
            ),
        )
    } else {
        Ok(())
    }
}

/// The checks of the coinbase, once the transactions are applied.
pub open spec fn miner_check(m: ChainModel, b: CompleteBlockModel, st: TxsState) -> Result<
    (),
    BlockchainError,
> {
    let mtx = b.block.miner_tx;
    match mtx.data {
        DataModel::Coinbase(c) => {
            if !map_of(m.accounts).contains_key(mtx.sender) {
                Err(BlockchainError::AddressNotRegistered)
            } else if mtx.fee != 0 {
                Err(BlockchainError::InvalidTxFee(0, mtx.fee))
            } else if mtx.signature is Some {
                Err(BlockchainError::InvalidTransactionSignature)
            } else if c.block_reward != block_reward_spec(m.supply) {
                Err(BlockchainError::InvalidBlockReward(block_reward_spec(m.supply), c.block_reward))
            } else if c.fee_reward != st.fees {
                Err(BlockchainError::InvalidFeeReward(st.fees as u64, c.fee_reward))
            } else if DEV_FEE_PERCENT != 0 && !st.acc.contains_key(m.dev) {
                Err(BlockchainError::AddressNotRegistered)
            } else {
                Ok(())
            }
        },
        _ => Err(BlockchainError::InvalidMinerTx),
    }
}

/// Every check of `add_new_block`, in order; on success, the state after
/// the block's transactions.
pub open spec fn block_check(m: ChainModel, b: CompleteBlockModel, now: u64) -> Result<
    TxsState,
    BlockchainError,
> {
    match header_check(m, b, now) {
        Err(e) => Err(e),
        Ok(()) => match txs_outcome(
            map_of(m.accounts),
            b.block.txs_hashes,
            b.transactions,
            m.dev,
            b.transactions.len(),
        ) {
            Err(e) => Err(e),
            Ok(st) => if block_size(b.block) + st.size > MAX_BLOCK_SIZE {
                Err(BlockchainError::InvalidBlockSize)
            } else {
                match miner_check(m, b, st) {
                    Err(e) => Err(e),
                    Ok(()) => Ok(st),
                }
            },
        },
    }
}

/// `new` is `old` with block `b` applied.
pub open spec fn block_applied(old: ChainModel, new: ChainModel, b: CompleteBlockModel, now: u64) -> bool {
    &&& block_check(old, b, now) is Ok
    &&& new.blocks == old.blocks.push(b)
    &&& new.height == old.height + 1
    &&& new.top_hash == block_hash(b.block)
    &&& new.supply == old.supply + block_reward_spec(old.supply)
    &&& new.burned == old.burned + block_check(old, b, now)->Ok_0.burned
    &&& map_of(new.accounts) == execute_tx_spec(
        block_check(old, b, now)->Ok_0.acc,
        b.block.miner_tx,
        old.dev,
    )
    &&& new.mempool == without_hashes(old.mempool, b.block.txs_hashes)
    &&& new.difficulty == (if old.height > 2 {
        next_difficulty(
            b.block.timestamp - old.blocks.last().block.timestamp,
            b.block.difficulty,
        )
    } else {
        old.difficulty
    })
    &&& new.dev == old.dev
}

/// Once a transaction of a block fails, the block fails with its error.
pub proof fn lemma_txs_outcome_err(
    acc: Map<Seq<u8>, Account>,
    hashes: Seq<Seq<u8>>,
    txs: Seq<TxModel>,
    dev: Seq<u8>,
    k: nat,
    n: nat,
)
    requires
        k <= n,
        txs_outcome(acc, hashes, txs, dev, k) is Err,
    ensures
        txs_outcome(acc, hashes, txs, dev, n) == txs_outcome(acc, hashes, txs, dev, k),
    decreases n - k,
{
    if k < n {
        lemma_txs_outcome_err(acc, hashes, txs, dev, k, (n - 1) as nat);
    }
}

/// Fills a block template from the pending entries, highest fee first,
/// while the header and the transactions taken so far stay under
/// `MAX_BLOCK_SIZE` and the fees fit in a `u64`.
pub open spec fn fill_template(entries: Seq<EntryModel>, b: BlockModel, j: nat, size: int, fee: int) -> (
    BlockModel,
    int,
)
    decreases entries.len() - j,
{
    if j < entries.len() && block_size(b) + size < MAX_BLOCK_SIZE && fee + entries[j as int].fee
        <= u64::MAX {
        fill_template(
            entries,
            BlockModel { txs_hashes: b.txs_hashes.push(entries[j as int].hash), ..b },
            j + 1,
            size + entries[j as int].size,
            fee + entries[j as int].fee,
        )
    } else {
        (b, fee)
    }
}

pub open spec fn coinbase_model(miner: Seq<u8>, block_reward: u64, fee_reward: u64) -> TxModel {
    TxModel {
        version: 0,
        sender: miner,
        nonce: 0,
        fee: 0,
        data: DataModel::Coinbase(CoinbaseTx { block_reward, fee_reward }),
        signature: None,
    }
}

/// The block template that `miner` gets at `now`.
pub open spec fn template_spec(m: ChainModel, miner: Seq<u8>, now: u64) -> BlockModel {
    let reward = block_reward_spec(m.supply);
    let base = BlockModel {
        height: m.height,
        timestamp: now,
        previous_hash: m.top_hash,
        difficulty: m.difficulty,
        nonce: 0,
        miner_tx: coinbase_model(miner, reward, 0),
        txs_hashes: Seq::empty(),
    };
    let filled = fill_template(m.mempool, base, 0, 0, 0);
    BlockModel { miner_tx: coinbase_model(miner, reward, filled.1 as u64), ..filled.0 }
}

/// The template for `miner` at `now` with nonce `nonce`.
pub open spec fn mined_header(m: ChainModel, miner: Seq<u8>, now: u64, nonce: u64) -> BlockModel {
    BlockModel { nonce, ..template_spec(m, miner, now) }
}

/// `b` is the block that mining for `miner` at `now` assembles: the
/// template with the first nonce whose header meets the difficulty, and
/// for each listed hash the pending transaction with that hash.
pub open spec fn mined_block(m: ChainModel, miner: Seq<u8>, now: u64, b: CompleteBlockModel) -> bool {
    &&& b.block == mined_header(m, miner, now, b.block.nonce)
    &&& meets_difficulty(block_hash(b.block), m.difficulty)
    &&& forall|k: u64|
        k < b.block.nonce ==> !meets_difficulty(
            #[trigger] block_hash(mined_header(m, miner, now, k)),
            m.difficulty,
        )
    &&& b.transactions.len() == b.block.txs_hashes.len()
    &&& forall|i: int|
        0 <= i < b.block.txs_hashes.len() ==> exists|j: int|
            0 <= j < m.mempool.len() && m.mempool[j].hash == b.block.txs_hashes[i]
                && #[trigger] b.transactions[i] == m.mempool[j].tx
}

pub proof fn lemma_fill_hashes(entries: Seq<EntryModel>, b: BlockModel, j: nat, size: int, fee: int)
    requires
        j <= entries.len(),
        b.txs_hashes == entries.take(j as int).map_values(|e: EntryModel| e.hash),
    ensures
        exists|k: int|
            j <= k <= entries.len() && fill_template(entries, b, j, size, fee).0.txs_hashes
                == entries.take(k).map_values(|e: EntryModel| e.hash),
        fill_template(entries, b, j, size, fee).0.nonce == b.nonce,
    decreases entries.len() - j,
{
    if j < entries.len() && block_size(b) + size < MAX_BLOCK_SIZE && fee + entries[j as int].fee
        <= u64::MAX {
        let nb = BlockModel { txs_hashes: b.txs_hashes.push(entries[j as int].hash), ..b };
        assert(nb.txs_hashes =~= entries.take(j as int + 1).map_values(|e: EntryModel| e.hash));
        lemma_fill_hashes(
            entries,
            nb,
            j + 1,
            size + entries[j as int].size,
            fee + entries[j as int].fee,
        );
    } else {
        assert(j <= j <= entries.len());
    }
}

/// Every hash of a template is the hash of a pending transaction.
pub proof fn lemma_template_hashes(m: ChainModel, miner: Seq<u8>, now: u64)
    ensures
        forall|i: int|
            0 <= i < template_spec(m, miner, now).txs_hashes.len() ==> crate::mempool::contains_hash(
                m.mempool,
                #[trigger] template_spec(m, miner, now).txs_hashes[i],
            ),
        template_spec(m, miner, now).nonce == 0,
{
    let reward = block_reward_spec(m.supply);
    let base = BlockModel {
        height: m.height,
        timestamp: now,
        previous_hash: m.top_hash,
        difficulty: m.difficulty,
        nonce: 0,
        miner_tx: coinbase_model(miner, reward, 0),
        txs_hashes: Seq::empty(),
    };
    assert(base.txs_hashes =~= m.mempool.take(0).map_values(|e: EntryModel| e.hash));
    lemma_fill_hashes(m.mempool, base, 0, 0, 0);
    let hs = template_spec(m, miner, now).txs_hashes;
    let k = choose|k: int|
        0 <= k <= m.mempool.len() && fill_template(m.mempool, base, 0, 0, 0).0.txs_hashes
            == m.mempool.take(k).map_values(|e: EntryModel| e.hash);
    assert forall|i: int| 0 <= i < hs.len() implies crate::mempool::contains_hash(
        m.mempool,
        #[trigger] hs[i],
    ) by {
        assert(m.mempool[i].hash == hs[i]);
    }
}

/// The chain before any block, with no account.
pub open spec fn empty_chain(dev: Seq<u8>) -> ChainModel {
    ChainModel {
        blocks: Seq::empty(),
        height: 0,
        supply: 0,
        burned: 0,
        top_hash: Seq::new(HASH_SIZE as nat, |i: int| 0u8),
        difficulty: MINIMUM_DIFFICULTY,
        mempool: Seq::empty(),
        accounts: Seq::empty(),
        dev,
    }
}

/// The chain before the genesis block: only the dev account, empty.
pub open spec fn pre_genesis_chain(dev: Seq<u8>) -> ChainModel {
    ChainModel { accounts: seq![(dev, Account { balance: 0, nonce: 0 })], ..empty_chain(dev) }
}

/// The ledger rebuilt while re-checking stored blocks: the accounts, the
/// supply emitted and the coins burned so far.
pub struct Replay {
    pub acc: Map<Seq<u8>, Account>,
    pub circulating: u64,
    pub burned: int,
}

/// The accounts before the first stored block: the empty dev account, as
/// booting from a genesis block registers it.
pub open spec fn replay_start(m: ChainModel) -> Map<Seq<u8>, Account> {
    if m.blocks.len() == 0 {
        Map::empty()
    } else {
        Map::empty().insert(m.dev, Account { balance: 0, nonce: 0 })
    }
}

/// Re-checks stored block `i` of `m` on the ledger rebuilt from the blocks
/// before it, and applies it.
pub open spec fn replay_block(m: ChainModel, i: int, r: Replay) -> Result<Replay, BlockchainError> {
    let b = m.blocks[i];
    let h = b.block;
    if h.height != i {
        Err(BlockchainError::InvalidBlockHeight(h.height, i as u64))
    } else if i != 0 && block_hash(m.blocks[i - 1].block) != h.previous_hash {
        Err(BlockchainError::InvalidPreviousBlockHash)
    } else if b.transactions.len() != h.txs_hashes.len() {
        Err(BlockchainError::InvalidBlockTxs(h.txs_hashes.len() as u64, b.transactions.len() as u64))
    } else if !(h.difficulty > 0 && meets_difficulty(block_hash(h), h.difficulty)) {
        Err(BlockchainError::InvalidDifficulty(h.difficulty, 0))
    } else {
        match h.miner_tx.data {
            DataModel::Coinbase(c) => {
                let reward = block_reward_spec(r.circulating);
                if c.block_reward != reward {
                    Err(BlockchainError::InvalidBlockReward(c.block_reward, reward))
                } else {
                    match txs_outcome(r.acc, h.txs_hashes, b.transactions, m.dev, b.transactions.len()) {
                        Err(e) => Err(e),
                        Ok(st) => if c.fee_reward != st.fees {
                            Err(BlockchainError::InvalidFeeReward(st.fees as u64, c.fee_reward))
                        } else if !r.acc.contains_key(h.miner_tx.sender) {
                            Err(BlockchainError::AddressNotRegistered)
                        } else if DEV_FEE_PERCENT != 0 && !st.acc.contains_key(m.dev) {
                            Err(BlockchainError::AddressNotRegistered)
                        } else {
                            Ok(
                                Replay {
                                    acc: execute_tx_spec(st.acc, h.miner_tx, m.dev),
                                    circulating: (r.circulating + reward) as u64,
                                    burned: r.burned + st.burned,
                                },
                            )
                        },
                    }
                }
            },
            _ => Err(BlockchainError::InvalidMinerTx),
        }
    }
}

/// The first `n` stored blocks re-checked and applied in order, from the
/// empty dev account.
pub open spec fn replay_blocks(m: ChainModel, n: nat) -> Result<Replay, BlockchainError>
    decreases n,
{
    if n == 0 {
        Ok(Replay { acc: replay_start(m), circulating: 0, burned: 0 })
    } else {
        match replay_blocks(m, (n - 1) as nat) {
            Err(e) => Err(e),
            Ok(r) => if r.circulating <= MAX_SUPPLY {
                replay_block(m, n - 1, r)
            } else {
                Err(BlockchainError::InvalidCirculatingSupply(r.circulating, m.supply))
            },
        }
    }
}

/// The outcome of re-checking the whole chain from genesis: every block is
/// re-checked and applied to a ledger rebuilt from the dev account, and the
/// rebuilt supply, burned coins and accounts must be the chain's own.
pub open spec fn validity_spec(m: ChainModel) -> Result<(), BlockchainError> {
    if m.height != m.blocks.len() {
        Err(BlockchainError::InvalidBlockHeight(m.height, m.blocks.len() as u64))
    } else {
        match replay_blocks(m, m.blocks.len()) {
            Err(e) => Err(e),
            Ok(r) => if r.circulating != m.supply {
                Err(BlockchainError::InvalidCirculatingSupply(r.circulating, m.supply))
            } else if r.burned != m.burned || r.acc != map_of(m.accounts) {
                Err(BlockchainError::InvalidAccountState)
            } else {
                Ok(())
            },
        }
    }
}

/// What booting from a dev address and a genesis text gives: an error for
/// an address that names no key; the empty chain for an empty genesis;
/// otherwise `InvalidGenesisBlock` exactly when the text is not hex, does
/// not encode a complete block, or encodes one not mined by the dev key,
/// and else the genesis block applied to the chain holding only the empty
/// dev account, or the error of its checks.
pub open spec fn boot_outcome(
    dev_address: Seq<char>,
    genesis: Seq<u8>,
    now: u64,
    r: Result<Blockchain, BlockchainError>,
) -> bool {
    match key_of_address(dev_address) {
        None => r == Err::<Blockchain, BlockchainError>(BlockchainError::InvalidDevAddress),
        Some(dev) => if genesis.len() == 0 {
            r matches Ok(c) && c.wf() && c@ == empty_chain(dev)
        } else {
            match hex_decode(genesis) {
                None => r == Err::<Blockchain, BlockchainError>(BlockchainError::InvalidGenesisBlock),
                Some(v) => match parse_complete_block(v) {
                    None => r == Err::<Blockchain, BlockchainError>(
                        BlockchainError::InvalidGenesisBlock,
                    ),
                    Some(b) => if b.block.miner_tx.sender != dev {
                        r == Err::<Blockchain, BlockchainError>(BlockchainError::InvalidGenesisBlock)
                    } else {
                        match r {
                            Ok(c) => c.wf() && block_applied(pre_genesis_chain(dev), c@, b, now),
                            Err(e) => block_check(pre_genesis_chain(dev), b, now) == Err::<
                                TxsState,
                                BlockchainError,
                            >(e),
                        }
                    },
                },
            }
        },
    }
}

/// The chain state machine: it validates and applies blocks, and holds the
/// accounts and the pending transactions.
#[derive(Debug)]
pub struct Blockchain {
    blocks: Vec<CompleteBlock>,
    height: u64,
    supply: u64,
    burned: u64,
    top_hash: crypto::Hash,
    difficulty: u64,
    mempool: Mempool,
    accounts: AccountTable,
    dev_address: PublicKey,
}

impl View for Blockchain {
    type V = ChainModel;

    closed spec fn view(&self) -> ChainModel {
        ChainModel {
            blocks: self.blocks@.map_values(|b: CompleteBlock| b@),
            height: self.height,
            supply: self.supply,
            burned: self.burned,
            top_hash: self.top_hash@,
            difficulty: self.difficulty,
            mempool: self.mempool@,
            accounts: self.accounts@,
            dev: self.dev_address@,
        }
    }
}

/// Checks and applies the transactions of `block`, in order, to a copy
/// of the accounts.
fn apply_txs(acc0_table: &AccountTable, dev: &PublicKey, block: &CompleteBlock) -> (r: Result<
AppliedTxs,
BlockchainError,
>)
    requires
        acc0_table.wf(),
        0 <= acc0_table.total() <= MAX_SUPPLY,
        block@.block.txs_hashes.len() == block@.transactions.len(),
    ensures
        match r {
            Ok(a) => txs_outcome(
                acc0_table.map(),
                block@.block.txs_hashes,
                block@.transactions,
                dev@,
                block@.transactions.len(),
            ) matches Ok(st) && st.acc == a.accounts.map() && st.fees == a.fees && st.burned
                == a.burned && st.size == a.size && a.accounts.wf() && a.accounts.total()
                + a.fees + a.burned == acc0_table.total() && a.size
                <= block@.transactions.len() * 0xffff_ffff_ffff_ffffu128 && (forall|k: Seq<u8>|
                acc0_table.map().contains_key(k) ==> #[trigger] a.accounts.map().contains_key(k)),
            Err(e) => txs_outcome(
                acc0_table.map(),
                block@.block.txs_hashes,
                block@.transactions,
                dev@,
                block@.transactions.len(),
            ) == Err::<TxsState, BlockchainError>(e),
        },
{
    let ghost hs = block@.block.txs_hashes;
    let ghost ts = block@.transactions;
    let ghost acc0 = acc0_table.map();
    let ghost t0 = acc0_table.total();
    let mut acc = acc0_table.duplicate();
    let mut seen: Vec<crypto::Hash> = Vec::new();
    let mut registered: Vec<PublicKey> = Vec::new();
    let mut fees: u64 = 0;
    let mut burned: u64 = 0;
    let mut size: u128 = 0;
    let txs = block.get_transactions();
    let hashes = block.get_txs_hashes();
    let mut i: usize = 0;
    proof {
        acc.lemma_total_nonneg();
        assert(seen@.map_values(|x: crypto::Hash| x@) =~= Seq::<Seq<u8>>::empty());
        assert(registered@.map_values(|x: PublicKey| x@) =~= Seq::<Seq<u8>>::empty());
    }
    while i < txs.len()
        invariant
            acc0_table.wf(),
            txs@.map_values(|t: Transaction| t@) == ts,
            hashes@.map_values(|h: crypto::Hash| h@) == hs,
            hs.len() == ts.len(),
            ts == block@.transactions,
            hs == block@.block.txs_hashes,
            acc0 == acc0_table.map(),
            t0 == acc0_table.total(),
            0 <= t0 <= MAX_SUPPLY,
            i <= ts.len(),
            acc.wf(),
            acc.total() + fees + burned == t0,
            size <= i * 0xffff_ffff_ffff_ffffu128,
            forall|k: Seq<u8>| acc0.contains_key(k) ==> #[trigger] acc.map().contains_key(k),
            txs_outcome(acc0, hs, ts, dev@, i as nat) matches Ok(st) && st.acc == acc.map()
                && st.seen == seen@.map_values(|x: crypto::Hash| x@) && st.registered
                == registered@.map_values(|x: PublicKey| x@) && st.fees == fees && st.burned
                == burned && st.size == size,
        decreases ts.len() - i,
    {
        let tx = &txs[i];
        let hash = tx.hash();
        assert(ts[i as int] == tx@);
        assert(hs[i as int] == hashes@[i as int]@);
        let ghost st = txs_outcome(acc0, hs, ts, dev@, i as nat)->Ok_0;
        let ghost n = ts.len();
        proof {
            assert(txs_outcome(acc0, hs, ts, dev@, (i + 1) as nat) == tx_step(
                st,
                ts[i as int],
                hs[i as int],
                dev@,
            ));
        }
        if contains_hash_in(&seen, &hash) {
            proof {
                lemma_txs_outcome_err(acc0, hs, ts, dev@, (i + 1) as nat, n);
            }
            return Err(BlockchainError::TxAlreadyInBlock);
        }
        if hash != hashes[i] {
            proof {
                lemma_txs_outcome_err(acc0, hs, ts, dev@, (i + 1) as nat, n);
            }
            return Err(BlockchainError::InvalidTxInBlock);
        }
        if tx.is_coinbase() {
            proof {
                lemma_txs_outcome_err(acc0, hs, ts, dev@, (i + 1) as nat, n);
            }
            return Err(BlockchainError::InvalidTxInBlock);
        }
        let is_registration = tx.is_registration();
        if is_registration && contains_key_in(&registered, &tx.sender) {
            proof {
                lemma_txs_outcome_err(acc0, hs, ts, dev@, (i + 1) as nat, n);
            }
            return Err(BlockchainError::DuplicateRegistration);
        }
        match verify_tx(&acc, tx, &hash, false) {
            Err(e) => {
                proof {
                    lemma_txs_outcome_err(acc0, hs, ts, dev@, (i + 1) as nat, n);
                }
                return Err(e);
            },
            Ok(()) => {},
        }
        proof {
            crate::rules::lemma_verified_can_execute(acc.map(), tx@, hash@, false, dev@);
            acc.lemma_total_nonneg();
            if is_registration {
                assert(!acc.map().contains_key(tx@.sender));
            }
            if let TransactionData::Burn(a) = tx.data {
                assert(acc.map()[tx@.sender].balance >= a + tx.fee);
                acc.lemma_balance_le_total(tx@.sender);
            }
            if let TransactionData::Normal(_) = tx.data {
                acc.lemma_balance_le_total(tx@.sender);
            }
        }
        let ghost before = acc.map();
        execute_tx(&mut acc, tx, dev);
        proof {
            acc.lemma_total_nonneg();
        }
        fees = fees + tx.fee;
        if let TransactionData::Burn(a) = &tx.data {
            burned = burned + *a;
        }
        let tx_size = tx.size();
        assert(size + tx_size <= (i + 1) * 0xffff_ffff_ffff_ffffu128) by (nonlinear_arith)
            requires
                size <= i * 0xffff_ffff_ffff_ffffu128,
                tx_size <= 0xffff_ffff_ffff_ffffu128,
        ;
        assert((i + 1) * 0xffff_ffff_ffff_ffffu128 <= u128::MAX) by (nonlinear_arith)
            requires
                i < usize::MAX,
                usize::MAX <= u64::MAX,
        ;
        size = size + tx_size as u128;
        let ghost seen_before = seen@.map_values(|x: crypto::Hash| x@);
        let ghost reg_before = registered@.map_values(|x: PublicKey| x@);
        let ghost sender = tx@.sender;
        if is_registration {
            registered.push(tx.sender.clone());
            assert(registered@.map_values(|x: PublicKey| x@) =~= reg_before.push(sender));
        }
        seen.push(hash);
        assert(seen@.map_values(|x: crypto::Hash| x@) =~= seen_before.push(tx_hash(tx@)));
        i += 1;
    }
    Ok(AppliedTxs { accounts: acc, fees, burned, size })
}

fn contains_key_in(keys: &Vec<PublicKey>, k: &PublicKey) -> (r: bool)
    ensures
        r == keys@.map_values(|x: PublicKey| x@).contains(k@),
{
    let ghost m = keys@.map_values(|x: PublicKey| x@);
    let mut i: usize = 0;
    while i < keys.len()
        invariant
            i <= keys@.len(),
            m == keys@.map_values(|x: PublicKey| x@),
            forall|j: int| 0 <= j < i ==> m[j] != k@,
        decreases keys@.len() - i,
    {
        if keys[i] == *k {
            assert(m[i as int] == k@);
            return true;
        }
        i += 1;
    }
    false
}

/// A block's transactions once applied to a copy of the accounts.
struct AppliedTxs {
    accounts: AccountTable,
    fees: u64,
    burned: u64,
    size: u128,
}

impl Blockchain {
    pub open spec fn wf(&self) -> bool {
        chain_wf(self@)
    }


    /// Validates `block` against the tip of the chain and, when every check
    /// passes, applies it; otherwise the chain is left as it was.
    pub fn add_new_block(&mut self, block: CompleteBlock, now: u64) -> (r: Result<(), BlockchainError>)
        requires
            old(self).wf(),
        ensures
            final(self).wf(),
            match r {
                Ok(()) => block_applied(old(self)@, final(self)@, block@, now),
                Err(e) => block_check(old(self)@, block@, now) == Err::<TxsState, BlockchainError>(e)
                    && final(self)@ == old(self)@,
            },
    {
        let current_height = self.height;
        let current_difficulty = self.difficulty;
        let block_hash = block.hash();
        if current_height != block.get_height() || block.get_height() == u64::MAX {
            return Err(BlockchainError::InvalidBlockHeight(current_height, block.get_height()));
        }
        let meets = match check_difficulty(&block_hash, current_difficulty) {
            Ok(b) => b,
            Err(_) => false,
        };
        if current_difficulty != block.get_difficulty() || !meets {
            return Err(BlockchainError::InvalidDifficulty(current_difficulty, block.get_difficulty()));
        }
        let timestamp = block.get_timestamp();
        if timestamp > TIMESTAMP_FUTURE_TOLERANCE && timestamp - TIMESTAMP_FUTURE_TOLERANCE > now {
            return Err(BlockchainError::TimestampIsInFuture(now, timestamp));
        }
        if current_height != 0 {
            if *block.get_previous_hash() != self.top_hash {
                return Err(BlockchainError::InvalidPreviousBlockHash);
            }
            let previous = &self.blocks[self.blocks.len() - 1];
            assert(self@.blocks.last() == previous@);
            if previous.get_timestamp() > timestamp {
                return Err(BlockchainError::TimestampIsLessThanParent(timestamp));
            }
        }
        let hashes_len = block.get_txs_hashes().len();
        let txs_len = block.get_transactions().len();
        if hashes_len != txs_len {
            return Err(BlockchainError::InvalidBlockTxs(hashes_len as u64, txs_len as u64));
        }
        proof {
            self.accounts.lemma_total_nonneg();
        }
        let applied = match apply_txs(&self.accounts, &self.dev_address, &block) {
            Ok(a) => a,
            Err(e) => {
                return Err(e);
            },
        };
        let ghost st = txs_outcome(
            map_of(self@.accounts),
            block@.block.txs_hashes,
            block@.transactions,
            self@.dev,
            block@.transactions.len(),
        )->Ok_0;
        let size = block.size();
        assert(size as u128 + applied.size <= u128::MAX) by (nonlinear_arith)
            requires
                applied.size <= txs_len * 0xffff_ffff_ffff_ffffu128,
                txs_len <= 0xffff_ffff_ffff_ffffu128,
                size <= 0xffff_ffff_ffff_ffffu128,
        ;
        if size as u128 + applied.size > MAX_BLOCK_SIZE as u128 {
            return Err(BlockchainError::InvalidBlockSize);
        }
        let reward = get_block_reward(self.supply);
        let miner_tx = block.get_miner_tx();
        match miner_tx.get_data() {
            TransactionData::Coinbase(data) => {
                if !self.accounts.has_account(miner_tx.get_sender()) {
                    return Err(BlockchainError::AddressNotRegistered);
                }
                if miner_tx.get_fee() != 0 {
                    return Err(BlockchainError::InvalidTxFee(0, miner_tx.get_fee()));
                }
                if miner_tx.has_signature() {
                    return Err(BlockchainError::InvalidTransactionSignature);
                }
                if data.block_reward != reward {
                    return Err(BlockchainError::InvalidBlockReward(reward, data.block_reward));
                }
                if data.fee_reward != applied.fees {
                    return Err(BlockchainError::InvalidFeeReward(applied.fees, data.fee_reward));
                }
                if DEV_FEE_PERCENT != 0 && !applied.accounts.has_account(&self.dev_address) {
                    return Err(BlockchainError::AddressNotRegistered);
                }
            },
            _ => {
                return Err(BlockchainError::InvalidMinerTx);
            },
        }
        let mut accounts = applied.accounts;
        proof {
            accounts.lemma_total_nonneg();
        }
        execute_tx(&mut accounts, miner_tx, &self.dev_address);
        self.mempool.remove_hashes(block.get_txs_hashes());
        if current_height > 2 {
            self.difficulty = calculate_difficulty(&self.blocks[self.blocks.len() - 1], &block);
        }
        let ghost old_blocks = self@.blocks;
        self.accounts = accounts;
        self.height = current_height + 1;
        self.top_hash = block_hash;
        self.supply = self.supply + reward;
        self.burned = self.burned + applied.burned;
        self.blocks.push(block);
        proof {
            assert(self@.blocks =~= old_blocks.push(block@));
            assert(self@.blocks.drop_last() =~= old_blocks);
        }
        Ok(())
    }

    pub fn get_height(&self) -> (r: u64)
        ensures
            r == self@.height,
    {
        self.height
    }

    pub fn get_difficulty(&self) -> (r: u64)
        ensures
            r == self@.difficulty,
    {
        self.difficulty
    }

    /// The supply emitted so far. Burned coins are not deducted from it;
    /// they are counted apart (`get_burned`), and the balances add up to
    /// the supply less the burned coins.
    pub fn get_supply(&self) -> (r: u64)
        ensures
            r == self@.supply,
    {
        self.supply
    }

    /// Coins taken out of circulation by burns.
    pub fn get_burned(&self) -> (r: u64)
        ensures
            r == self@.burned,
    {
        self.burned
    }

    pub fn get_dev_address(&self) -> (r: &PublicKey)
        ensures
            r@ == self@.dev,
    {
        &self.dev_address
    }

    pub fn get_top_hash(&self) -> (r: &crypto::Hash)
        ensures
            r@ == self@.top_hash,
    {
        &self.top_hash
    }

    pub fn get_mempool(&self) -> (r: &Mempool)
        ensures
            r@ == self@.mempool,
    {
        &self.mempool
    }

    pub fn has_account(&self, account: &PublicKey) -> (r: bool)
        requires
            self.wf(),
        ensures
            r == map_of(self@.accounts).contains_key(account@),
    {
        self.accounts.has_account(account)
    }

    pub fn get_account(&self, account: &PublicKey) -> (r: Result<Account, BlockchainError>)
        requires
            self.wf(),
        ensures
            match r {
                Ok(a) => map_of(self@.accounts).contains_key(account@) && a == map_of(
                    self@.accounts,
                )[account@],
                Err(e) => !map_of(self@.accounts).contains_key(account@) && e
                    == BlockchainError::AddressNotRegistered,
            },
    {
        match self.accounts.get(account) {
            Some(a) => Ok(a),
            None => Err(BlockchainError::AddressNotRegistered),
        }
    }

    pub fn get_block_at_height(&self, height: u64) -> (r: Result<&CompleteBlock, BlockchainError>)
        requires
            self.wf(),
        ensures
            match r {
                Ok(b) => height < self@.height && b@ == self@.blocks[height as int],
                Err(e) => height >= self@.height && e == BlockchainError::InvalidBlockHeight(
                    self@.height,
                    height,
                ),
            },
    {
        if height >= self.height {
            return Err(BlockchainError::InvalidBlockHeight(self.height, height));
        }
        let len = self.blocks.len();
        assert(self@.blocks.len() == len);
        assert(height < len);
        let i = height as usize;
        let b = &self.blocks[i];
        assert(self@.blocks[height as int] == b@);
        Ok(b)
    }

    pub fn get_top_block(&self) -> (r: Result<&CompleteBlock, BlockchainError>)
        requires
            self.wf(),
        ensures
            match r {
                Ok(b) => self@.height > 0 && b@ == self@.blocks.last(),
                Err(e) => self@.height == 0 && e == BlockchainError::InvalidBlockHeight(0, 0),
            },
    {
        if self.height == 0 {
            return Err(BlockchainError::InvalidBlockHeight(0, 0));
        }
        self.get_block_at_height(self.height - 1)
    }

    /// The first applied block whose hash is `hash`.
    pub fn get_block_by_hash(&self, hash: &crypto::Hash) -> (r: Result<&CompleteBlock, BlockchainError>)
        requires
            self.wf(),
        ensures
            match r {
                Ok(b) => exists|i: int|
                    0 <= i < self@.blocks.len() && b@ == self@.blocks[i] && block_hash(
                        #[trigger] self@.blocks[i].block,
                    ) == hash@ && forall|j: int|
                        0 <= j < i ==> block_hash(#[trigger] self@.blocks[j].block) != hash@,
                Err(e) => e == BlockchainError::BlockNotFound && forall|j: int|
                    0 <= j < self@.blocks.len() ==> block_hash(#[trigger] self@.blocks[j].block)
                        != hash@,
            },
    {
        let mut i: usize = 0;
        while i < self.blocks.len()
            invariant
                i <= self@.blocks.len(),
                forall|j: int| 0 <= j < i ==> block_hash(#[trigger] self@.blocks[j].block) != hash@,
            decreases self@.blocks.len() - i,
        {
            let b = &self.blocks[i];
            assert(self@.blocks[i as int] == b@);
            if b.hash() == *hash {
                return Ok(b);
            }
            i += 1;
        }
        Err(BlockchainError::BlockNotFound)
    }

    /// Checks transaction `tx`, whose hash is `hash`, against the accounts;
    /// `disable_nonce_check` skips the nonce and the already-registered
    /// checks, as replaying the chain does.
    pub fn verify_transaction_with_hash(
        &self,
        tx: &Transaction,
        hash: &crypto::Hash,
        disable_nonce_check: bool,
    ) -> (r: Result<(), BlockchainError>)
        requires
            self.wf(),
        ensures
            r == verify_tx_spec(map_of(self@.accounts), tx@, hash@, disable_nonce_check),
    {
        verify_tx(&self.accounts, tx, hash, disable_nonce_check)
    }

    pub fn verify_transaction(&self, tx: &Transaction, disable_nonce_check: bool) -> (r: Result<
        (),
        BlockchainError,
    >)
        requires
            self.wf(),
        ensures
            r == verify_tx_spec(map_of(self@.accounts), tx@, tx_hash(tx@), disable_nonce_check),
    {
        let hash = tx.hash();
        self.verify_transaction_with_hash(tx, &hash, disable_nonce_check)
    }

    /// Admits `tx` to the mempool if it is not there yet and passes every
    /// check against the current accounts.
    pub fn add_tx_to_mempool(&mut self, tx: Transaction) -> (r: Result<(), BlockchainError>)
        requires
            old(self).wf(),
        ensures
            final(self).wf(),
            final(self)@.blocks == old(self)@.blocks,
            final(self)@.accounts == old(self)@.accounts,
            final(self)@.height == old(self)@.height,
            final(self)@.supply == old(self)@.supply,
            final(self)@.burned == old(self)@.burned,
            final(self)@.top_hash == old(self)@.top_hash,
            final(self)@.difficulty == old(self)@.difficulty,
            final(self)@.dev == old(self)@.dev,
            match r {
                Ok(()) => !crate::mempool::contains_hash(old(self)@.mempool, tx_hash(tx@))
                    && verify_tx_spec(map_of(old(self)@.accounts), tx@, tx_hash(tx@), false)
                    is Ok && exists|p: int|
                    0 <= p <= old(self)@.mempool.len() && final(self)@.mempool == old(
                        self,
                    )@.mempool.insert(
                        p,
                        EntryModel {
                            hash: tx_hash(tx@),
                            tx: tx@,
                            fee: tx@.fee,
                            size: tx_size(tx@),
                        },
                    ),
                Err(e) => final(self)@ == old(self)@ && (if crate::mempool::contains_hash(
                    old(self)@.mempool,
                    tx_hash(tx@),
                ) {
                    e == BlockchainError::TxAlreadyInMempool
                } else {
                    verify_tx_spec(map_of(old(self)@.accounts), tx@, tx_hash(tx@), false)
                        == Err::<(), BlockchainError>(e)
                }),
            },
    {
        let hash = tx.hash();
        if self.mempool.contains_tx(&hash) {
            return Err(BlockchainError::TxAlreadyInMempool);
        }
        match self.verify_transaction_with_hash(&tx, &hash, false) {
            Err(e) => {
                return Err(e);
            },
            Ok(()) => {},
        }
        match self.mempool.add_tx(hash, tx) {
            Ok(()) => Ok(()),
            Err(_) => Err(BlockchainError::TxAlreadyInMempool),
        }
    }

    fn empty(dev_address: PublicKey) -> (r: Blockchain)
        ensures
            r.wf(),
            r@ == empty_chain(dev_address@),
    {
        let r = Blockchain {
            blocks: Vec::new(),
            height: 0,
            supply: 0,
            burned: 0,
            top_hash: crypto::Hash::zero(),
            difficulty: MINIMUM_DIFFICULTY,
            mempool: Mempool::new(),
            accounts: AccountTable::new(),
            dev_address,
        };
        assert(r@.blocks =~= Seq::<CompleteBlockModel>::empty());
        r
    }

    /// A chain whose dev account is `dev_address`. With a genesis block, the
    /// dev account is registered and the block applied; the block must be
    /// mined by the dev key.
    pub fn with_genesis(dev_address: PublicKey, genesis: Option<CompleteBlock>, now: u64) -> (r: Result<
        Blockchain,
        BlockchainError,
    >)
        ensures
            match r {
                Ok(c) => c.wf() && match genesis {
                    None => c@ == empty_chain(dev_address@),
                    Some(b) => b@.block.miner_tx.sender == dev_address@ && block_applied(
                        pre_genesis_chain(dev_address@),
                        c@,
                        b@,
                        now,
                    ) && c@.accounts.len() >= 1,
                },
                Err(e) => match genesis {
                    None => false,
                    Some(b) => if b@.block.miner_tx.sender != dev_address@ {
                        e == BlockchainError::InvalidGenesisBlock
                    } else {
                        block_check(pre_genesis_chain(dev_address@), b@, now) == Err::<
                            TxsState,
                            BlockchainError,
                        >(e)
                    },
                },
            },
    {
        let mut chain = Blockchain::empty(dev_address);
        match genesis {
            None => Ok(chain),
            Some(block) => {
                if *block.get_miner() != chain.dev_address {
                    return Err(BlockchainError::InvalidGenesisBlock);
                }
                let dev = chain.dev_address.clone();
                chain.accounts.register(dev);
                assert(chain@.accounts =~= seq![(chain@.dev, Account { balance: 0, nonce: 0 })]);
                assert(chain@ == pre_genesis_chain(chain@.dev));
                match chain.add_new_block(block, now) {
                    Ok(()) => Ok(chain),
                    Err(e) => Err(e),
                }
            },
        }
    }

    /// A chain whose dev key is the one `dev_address` names, started from
    /// the genesis block that `genesis_hex` encodes, if it is not empty.
    pub fn from_config(dev_address: &str, genesis_hex: &str, now: u64) -> (r: Result<
        Blockchain,
        BlockchainError,
    >)
        ensures
            boot_outcome(dev_address@, genesis_hex.spec_bytes(), now, r),
    {
        let dev = match PublicKey::from_address(dev_address) {
            Some(k) => k,
            None => {
                return Err(BlockchainError::InvalidDevAddress);
            },
        };
        let genesis = if genesis_hex.as_bytes().len() == 0 {
            None
        } else {
            match CompleteBlock::from_hex(genesis_hex) {
                Ok(b) => Some(b),
                Err(_) => {
                    return Err(BlockchainError::InvalidGenesisBlock);
                },
            }
        };
        Blockchain::with_genesis(dev, genesis, now)
    }

    /// The chain of this build: `DEV_ADDRESS` and `GENESIS_BLOCK`, applied
    /// at `now`.
    pub fn new(now: u64) -> (r: Result<Blockchain, BlockchainError>)
        ensures
            boot_outcome(crate::config::DEV_ADDRESS@, crate::config::GENESIS_BLOCK.spec_bytes(), now, r),
            crate::config::GENESIS_BLOCK.spec_bytes().len() == 0 ==> match r {
                Ok(c) => c@ == empty_chain(c@.dev),
                Err(e) => e == BlockchainError::InvalidDevAddress,
            },
    {
        proof {
            reveal_strlit("");
            assert(crate::config::GENESIS_BLOCK@ =~= Seq::<char>::empty());
            assert(crate::config::GENESIS_BLOCK.spec_bytes() =~= Seq::<u8>::empty());
        }
        Blockchain::from_config(crate::config::DEV_ADDRESS, crate::config::GENESIS_BLOCK, now)
    }

    /// A block template for `address` at `now`: a coinbase claiming the
    /// current reward and the fees of the pending transactions taken,
    /// highest fee first, while the block stays under `MAX_BLOCK_SIZE`.
    pub fn get_block_template(&self, address: PublicKey, now: u64) -> (r: Block)
        requires
            self.wf(),
        ensures
            r@ == template_spec(self@, address@, now),
    {
        let reward = get_block_reward(self.supply);
        let ghost miner = address@;
        let coinbase = Transaction::new(
            0,
            TransactionData::Coinbase(CoinbaseTx { block_reward: reward, fee_reward: 0 }),
            address,
        );
        let mut block = Block::new(
            self.height,
            now,
            self.top_hash.clone(),
            self.difficulty,
            coinbase,
            Vec::new(),
        );
        let ghost base = block@;
        proof {
            assert(base.txs_hashes =~= Seq::<Seq<u8>>::empty());
            assert(base.miner_tx == coinbase_model(miner, reward, 0));
        }
        let txs = self.mempool.get_sorted_txs();
        let ghost entries = self@.mempool;
        let mut total_fee: u64 = 0;
        let mut tx_size: u128 = 0;
        let mut index: usize = 0;
        while index < txs.len()
            invariant
                txs@.map_values(|e: crate::mempool::SortedTx| e@) == entries,
                index <= entries.len(),
                tx_size <= MAX_BLOCK_SIZE + 0xffff_ffff_ffff_ffffu128,
                fill_template(entries, block@, index as nat, tx_size as int, total_fee as int)
                    == fill_template(entries, base, 0, 0, 0),
                block@.miner_tx == base.miner_tx,
                block@.height == base.height,
                block@.timestamp == base.timestamp,
                block@.previous_hash == base.previous_hash,
                block@.difficulty == base.difficulty,
                block@.nonce == base.nonce,
            ensures
                fill_template(entries, block@, index as nat, tx_size as int, total_fee as int) == (
                    block@,
                    total_fee as int,
                ),
                block@.miner_tx == base.miner_tx,
                block@.height == base.height,
                block@.timestamp == base.timestamp,
                block@.previous_hash == base.previous_hash,
                block@.difficulty == base.difficulty,
                block@.nonce == base.nonce,
            decreases entries.len() - index,
        {
            let size = block.size();
            if size as u128 + tx_size >= MAX_BLOCK_SIZE as u128 {
                break;
            }
            let e = &txs[index];
            assert(entries[index as int] == e@);
            if total_fee > u64::MAX - e.fee {
                break;
            }
            total_fee = total_fee + e.fee;
            tx_size = tx_size + e.size as u128;
            let ghost before = block@;
            block.txs_hashes.push(e.hash.clone());
            proof {
                assert(block@.txs_hashes =~= before.txs_hashes.push(e@.hash));
                assert(block@ == BlockModel { txs_hashes: before.txs_hashes.push(entries[index as int].hash), ..before });
            }
            index += 1;
        }
        block.miner_tx.data = TransactionData::Coinbase(
            CoinbaseTx { block_reward: reward, fee_reward: total_fee },
        );
        block
    }

    /// The complete block for `block`: each listed hash resolved, in order,
    /// to a copy of the pending transaction with that hash.
    pub fn build_complete_block_from_block(&self, block: Block) -> (r: Result<
        CompleteBlock,
        BlockchainError,
    >)
        requires
            self.wf(),
        ensures
            match r {
                Ok(cb) => cb@.block == block@ && cb@.transactions.len() == block@.txs_hashes.len()
                    && forall|i: int|
                    0 <= i < block@.txs_hashes.len() ==> exists|j: int|
                        0 <= j < self@.mempool.len() && self@.mempool[j].hash
                            == block@.txs_hashes[i] && #[trigger] cb@.transactions[i]
                            == self@.mempool[j].tx,
                Err(e) => e == BlockchainError::TxNotFound && exists|i: int|
                    0 <= i < block@.txs_hashes.len() && !crate::mempool::contains_hash(
                        self@.mempool,
                        #[trigger] block@.txs_hashes[i],
                    ),
            },
    {
        let mut transactions: Vec<Transaction> = Vec::new();
        let mut i: usize = 0;
        while i < block.txs_hashes.len()
            invariant
                self.wf(),
                i <= block@.txs_hashes.len(),
                transactions@.len() == i,
                forall|k: int|
                    0 <= k < i ==> exists|j: int|
                        0 <= j < self@.mempool.len() && self@.mempool[j].hash
                            == block@.txs_hashes[k] && #[trigger] transactions@[k]@
                            == self@.mempool[j].tx,
            decreases block@.txs_hashes.len() - i,
        {
            assert(block@.txs_hashes[i as int] == block.txs_hashes@[i as int]@);
            match self.mempool.view_tx(&block.txs_hashes[i]) {
                Ok(tx) => {
                    transactions.push(tx.clone());
                },
                Err(_) => {
                    return Err(BlockchainError::TxNotFound);
                },
            }
            i += 1;
        }
        let cb = CompleteBlock::new(block, transactions);
        proof {
            assert forall|k: int| 0 <= k < cb@.transactions.len() implies cb@.transactions[k]
                == transactions@[k]@ by {}
        }
        Ok(cb)
    }

    fn meets_difficulty(hash: &crypto::Hash, difficulty: u64) -> (r: bool)
        ensures
            r == (difficulty > 0 && hash.wf() && meets_difficulty(hash@, difficulty)),
    {
        match check_difficulty(hash, difficulty) {
            Ok(b) => b,
            Err(_) => false,
        }
    }

    /// Mines a block for `key` at `now`: takes the template, searches the
    /// nonces from zero for the first whose header meets the current
    /// difficulty, fills in the pending transactions and applies the block.
    /// It fails only when no nonce meets the difficulty or the mined block
    /// fails its checks; on any failure the chain is left as it was.
    pub fn mine_block(&mut self, key: PublicKey, now: u64) -> (r: Result<(), BlockchainError>)
        requires
            old(self).wf(),
        ensures
            final(self).wf(),
            match r {
                Ok(()) => mined_block(old(self)@, key@, now, final(self)@.blocks.last())
                    && block_applied(old(self)@, final(self)@, final(self)@.blocks.last(), now),
                Err(e) => final(self)@ == old(self)@ && ((e == BlockchainError::NonceSpaceExhausted
                    && forall|k: u64|
                    !meets_difficulty(
                        #[trigger] block_hash(mined_header(old(self)@, key@, now, k)),
                        old(self)@.difficulty,
                    )) || exists|b: CompleteBlockModel|
                    mined_block(old(self)@, key@, now, b) && block_check(old(self)@, b, now)
                        == Err::<TxsState, BlockchainError>(e)),
            },
    {
        let ghost miner = key@;
        let ghost m = self@;
        let mut block = self.get_block_template(key, now);
        proof {
            lemma_template_hashes(m, miner, now);
            assert(block@ == mined_header(m, miner, now, 0));
        }
        let mut hash = block.hash();
        let difficulty = self.difficulty;
        while !Blockchain::meets_difficulty(&hash, difficulty)
            invariant
                self.wf(),
                self@ == old(self)@,
                m == old(self)@,
                miner == key@,
                difficulty == m.difficulty,
                block@ == mined_header(m, miner, now, block.nonce),
                hash@ == block_hash(block@),
                hash.wf(),
                forall|k: u64|
                    k < block.nonce ==> !meets_difficulty(
                        #[trigger] block_hash(mined_header(m, miner, now, k)),
                        m.difficulty,
                    ),
            decreases u64::MAX - block.nonce,
        {
            if block.nonce == u64::MAX {
                proof {
                    assert forall|k: u64|
                        !meets_difficulty(
                            #[trigger] block_hash(mined_header(m, miner, now, k)),
                            m.difficulty,
                        ) by {
                        if k == block.nonce {
                            assert(block@ == mined_header(m, miner, now, k));
                        }
                    }
                }
                return Err(BlockchainError::NonceSpaceExhausted);
            }
            block.nonce = block.nonce + 1;
            hash = block.hash();
        }
        let complete = match self.build_complete_block_from_block(block) {
            Ok(c) => c,
            Err(e) => {
                return Err(e);
            },
        };
        let ghost cb = complete@;
        assert(mined_block(m, miner, now, cb));
        let r = self.add_new_block(complete, now);
        proof {
            if r is Ok {
                assert(self@.blocks.last() == cb);
            }
        }
        r
    }

    /// Re-checks stored block `i` on the ledger rebuilt from the blocks
    /// before it, and applies it.
    fn replay_block(&self, i: usize, acc: AccountTable, circulating: u64, burned: u64) -> (r: Result<
        (AccountTable, u64, u64),
        BlockchainError,
    >)
        requires
            self.wf(),
            i < self@.blocks.len(),
            acc.wf(),
            acc.total() + burned == circulating,
            circulating <= MAX_SUPPLY,
        ensures
            match r {
                Ok((a, c, bu)) => replay_block(
                    self@,
                    i as int,
                    Replay { acc: acc.map(), circulating, burned: burned as int },
                ) == Ok::<Replay, BlockchainError>(
                    Replay { acc: a.map(), circulating: c, burned: bu as int },
                ) && a.wf() && a.total() + bu == c && c <= MAX_SUPPLY,
                Err(e) => replay_block(
                    self@,
                    i as int,
                    Replay { acc: acc.map(), circulating, burned: burned as int },
                ) == Err::<Replay, BlockchainError>(e),
            },
    {
        let b = &self.blocks[i];
        assert(self@.blocks[i as int] == b@);
        if b.get_height() != i as u64 {
            return Err(BlockchainError::InvalidBlockHeight(b.get_height(), i as u64));
        }
        if i != 0 {
            let prev = &self.blocks[i - 1];
            assert(self@.blocks[i - 1] == prev@);
            if prev.hash() != *b.get_previous_hash() {
                return Err(BlockchainError::InvalidPreviousBlockHash);
            }
        }
        let txs_len = b.get_transactions().len();
        let hashes_len = b.get_txs_hashes().len();
        if txs_len != hashes_len {
            return Err(BlockchainError::InvalidBlockTxs(hashes_len as u64, txs_len as u64));
        }
        if !Blockchain::meets_difficulty(&b.hash(), b.get_difficulty()) {
            return Err(BlockchainError::InvalidDifficulty(b.get_difficulty(), 0));
        }
        let miner_tx = b.get_miner_tx();
        match miner_tx.get_data() {
            TransactionData::Coinbase(c) => {
                let reward = get_block_reward(circulating);
                if c.block_reward != reward {
                    return Err(BlockchainError::InvalidBlockReward(c.block_reward, reward));
                }
                proof {
                    acc.lemma_total_nonneg();
                }
                let applied = match apply_txs(&acc, &self.dev_address, b) {
                    Ok(a) => a,
                    Err(e) => {
                        return Err(e);
                    },
                };
                if c.fee_reward != applied.fees {
                    return Err(BlockchainError::InvalidFeeReward(applied.fees, c.fee_reward));
                }
                if !acc.has_account(miner_tx.get_sender()) {
                    return Err(BlockchainError::AddressNotRegistered);
                }
                if DEV_FEE_PERCENT != 0 && !applied.accounts.has_account(&self.dev_address) {
                    return Err(BlockchainError::AddressNotRegistered);
                }
                let mut next = applied.accounts;
                proof {
                    next.lemma_total_nonneg();
                }
                execute_tx(&mut next, miner_tx, &self.dev_address);
                Ok((next, circulating + reward, burned + applied.burned))
            },
            _ => Err(BlockchainError::InvalidMinerTx),
        }
    }

    /// Re-checks the chain from genesis: every block is re-checked (height,
    /// link, proof of work, reward, fees, transactions) and applied to a
    /// ledger rebuilt from the dev account; the rebuilt supply must be the
    /// chain's supply, and the rebuilt burned coins and accounts its own.
    pub fn check_validity(&self) -> (r: Result<(), BlockchainError>)
        requires
            self.wf(),
        ensures
            r == validity_spec(self@),
    {
        if self.height != self.blocks.len() as u64 {
            return Err(BlockchainError::InvalidBlockHeight(self.height, self.blocks.len() as u64));
        }
        let mut acc = AccountTable::new();
        if self.blocks.len() > 0 {
            acc.register(self.dev_address.clone());
        }
        proof {
            assert(acc.map() =~= replay_start(self@));
        }
        let mut circulating: u64 = 0;
        let mut burned: u64 = 0;
        let mut i: usize = 0;
        while i < self.blocks.len()
            invariant
                self.wf(),
                i <= self@.blocks.len(),
                acc.wf(),
                acc.total() + burned == circulating,
                circulating <= MAX_SUPPLY,
                replay_blocks(self@, i as nat) == Ok::<Replay, BlockchainError>(
                    Replay { acc: acc.map(), circulating, burned: burned as int },
                ),
            decreases self@.blocks.len() - i,
        {
            match self.replay_block(i, acc, circulating, burned) {
                Ok((a, c, bu)) => {
                    acc = a;
                    circulating = c;
                    burned = bu;
                },
                Err(e) => {
                    proof {
                        lemma_replay_blocks_err(self@, (i + 1) as nat, self@.blocks.len());
                    }
                    return Err(e);
                },
            }
            i += 1;
        }
        if circulating != self.supply {
            return Err(BlockchainError::InvalidCirculatingSupply(circulating, self.supply));
        }
        if burned != self.burned || !acc.same_accounts(&self.accounts) {
            return Err(BlockchainError::InvalidAccountState);
        }
        Ok(())
    }
}

pub proof fn lemma_replay_blocks_err(m: ChainModel, k: nat, n: nat)
    requires
        k <= n,
        replay_blocks(m, k) is Err,
    ensures
        replay_blocks(m, n) == replay_blocks(m, k),
    decreases n - k,
{
    if k < n {
        lemma_replay_blocks_err(m, k, (n - 1) as nat);
    }
}

/// In every well-formed chain the emitted supply is the sum of the block
/// rewards of its blocks, and the balances plus the burned coins add up to
/// it; with no burns, the balances alone add up to the supply.
pub proof fn lemma_conservation(m: ChainModel)
    requires
        chain_wf(m),
    ensures
        m.supply == rewards_total(m.blocks),
        entries_total(m.accounts) + m.burned == m.supply,
        m.burned == 0 ==> entries_total(m.accounts) == rewards_total(m.blocks),
{
}

pub proof fn lemma_txs_without_burns(
    acc: Map<Seq<u8>, Account>,
    hashes: Seq<Seq<u8>>,
    txs: Seq<TxModel>,
    dev: Seq<u8>,
    n: nat,
)
    requires
        n <= txs.len(),
        forall|i: int| 0 <= i < txs.len() ==> !(#[trigger] txs[i].data is Burn),
        txs_outcome(acc, hashes, txs, dev, n) is Ok,
    ensures
        txs_outcome(acc, hashes, txs, dev, n)->Ok_0.burned == 0,
    decreases n,
{
    if n > 0 {
        lemma_txs_without_burns(acc, hashes, txs, dev, (n - 1) as nat);
    }
}

/// Applying a block without burns leaves the burned total unchanged, so a
/// chain built from genesis by such blocks keeps its balances summing to
/// its supply.
pub proof fn lemma_no_burn_block(old: ChainModel, new: ChainModel, b: CompleteBlockModel, now: u64)
    requires
        block_applied(old, new, b, now),
        forall|i: int| 0 <= i < b.transactions.len() ==> !(#[trigger] b.transactions[i].data is Burn),
    ensures
        new.burned == old.burned,
{
    lemma_txs_without_burns(
        map_of(old.accounts),
        b.block.txs_hashes,
        b.transactions,
        old.dev,
        b.transactions.len(),
    );
}

/// Applying a block raises the height by one and never lowers the supply.
pub proof fn lemma_monotonic(old: ChainModel, new: ChainModel, b: CompleteBlockModel, now: u64)
    requires
        block_applied(old, new, b, now),
    ensures
        new.height == old.height + 1,
        new.supply >= old.supply,
{
}

/// A signed, fee-less registration passes the checks exactly when its
/// sender has no account and its hash meets `REGISTRATION_DIFFICULTY`.
pub proof fn lemma_registration_rule(acc: Map<Seq<u8>, Account>, t: TxModel, hash: Seq<u8>)
    requires
        t.data is Registration,
        crate::transaction::has_valid_signature(t),
        t.fee == 0,
        hash.len() == HASH_SIZE,
    ensures
        verify_tx_spec(acc, t, hash, false) is Ok <==> (!acc.contains_key(t.sender)
            && meets_difficulty(hash, crate::config::REGISTRATION_DIFFICULTY)),
{
}

/// A transfer of `x` from `s` to a different registered `alice`, with fee
/// `fee`, executed on the accounts: `alice` gains `x` and keeps her nonce,
/// `s` loses `x` plus the fee and its nonce moves on by one.
pub proof fn lemma_transfer_effect(acc: Map<Seq<u8>, Account>, t: TxModel, alice: Seq<u8>, x: u64, dev: Seq<u8>)
    requires
        t.data == DataModel::Normal(seq![crate::transaction::OutputModel { to: alice, amount: x }]),
        alice != t.sender,
        acc.contains_key(alice),
        acc.contains_key(t.sender),
        acc[t.sender].balance >= t.fee + x,
        acc[alice].balance + x <= u64::MAX,
    ensures
        execute_tx_spec(acc, t, dev)[alice] == (Account {
            balance: (acc[alice].balance + x) as u64,
            nonce: acc[alice].nonce,
        }),
        execute_tx_spec(acc, t, dev)[t.sender] == (Account {
            balance: (acc[t.sender].balance - x - t.fee) as u64,
            nonce: crate::rules::next_nonce(acc[t.sender].nonce),
        }),
        forall|k: Seq<u8>|
            k != alice && k != t.sender && acc.contains_key(k) ==> #[trigger] execute_tx_spec(acc, t, dev)[k]
                == acc[k],
{
    let outs = seq![crate::transaction::OutputModel { to: alice, amount: x }];
    assert(outs.drop_last() =~= Seq::<crate::transaction::OutputModel>::empty());
    assert(crate::transaction::outputs_total(outs.drop_last()) == 0);
    assert(crate::transaction::outputs_total(outs) == x);
    let debited = acc.insert(
        t.sender,
        Account {
            balance: (acc[t.sender].balance - (t.fee + x)) as u64,
            nonce: crate::rules::next_nonce(acc[t.sender].nonce),
        },
    );
    assert(crate::rules::credit_outputs(debited, outs.drop_last()) == debited);
    assert(execute_tx_spec(acc, t, dev) == debited.insert(
        alice,
        Account { balance: (debited[alice].balance + x) as u64, nonce: debited[alice].nonce },
    ));
}

/// Two transfers from one sender with the same nonce: once the first is
/// executed, the second, if signed and paying its fee, fails its nonce
/// check.
pub proof fn lemma_double_spend(
    acc: Map<Seq<u8>, Account>,
    t1: TxModel,
    t2: TxModel,
    h1: Seq<u8>,
    h2: Seq<u8>,
    dev: Seq<u8>,
)
    requires
        t1.data is Normal,
        t2.data is Normal,
        t1.sender == t2.sender,
        t1.nonce == t2.nonce,
        verify_tx_spec(acc, t1, h1, false) is Ok,
        crate::transaction::has_valid_signature(t2),
        t2.fee >= crate::emission::tx_fee_spec(tx_size(t2)),
    ensures
        verify_tx_spec(execute_tx_spec(acc, t1, dev), t2, h2, false) == Err::<(), BlockchainError>(
            BlockchainError::InvalidTransactionNonce(crate::rules::next_nonce(t1.nonce), t1.nonce),
        ),
{
    let outs = t1.data->Normal_0;
    crate::rules::lemma_outputs_check_ok(outs, t1.sender, acc);
    let debited = acc.insert(
        t1.sender,
        Account {
            balance: (acc[t1.sender].balance - (t1.fee + crate::transaction::outputs_total(outs))) as u64,
            nonce: crate::rules::next_nonce(acc[t1.sender].nonce),
        },
    );
    lemma_credit_keeps(debited, outs, t1.sender);
}

/// Crediting outputs leaves the account of a key that no output pays.
pub proof fn lemma_credit_keeps(
    acc: Map<Seq<u8>, Account>,
    outs: Seq<crate::transaction::OutputModel>,
    k: Seq<u8>,
)
    requires
        forall|i: int| 0 <= i < outs.len() ==> #[trigger] outs[i].to != k,
        acc.contains_key(k),
    ensures
        crate::rules::credit_outputs(acc, outs).contains_key(k),
        crate::rules::credit_outputs(acc, outs)[k] == acc[k],
    decreases outs.len(),
{
    if outs.len() > 0 {
        let init = outs.drop_last();
        assert forall|i: int| 0 <= i < init.len() implies #[trigger] init[i].to != k by {
            assert(init[i] == outs[i]);
        }
        lemma_credit_keeps(acc, init, k);
        assert(outs.last() == outs[outs.len() - 1]);
    }
}

/// A second registration of a sender that the same block already
/// registered fails with `DuplicateRegistration`.
pub proof fn lemma_duplicate_registration(
    st: TxsState,
    r1: TxModel,
    r2: TxModel,
    h1: Seq<u8>,
    dev: Seq<u8>,
)
    requires
        r1.data is Registration,
        r2.data is Registration,
        r1.sender == r2.sender,
        tx_step(st, r1, h1, dev) is Ok,
        !tx_step(st, r1, h1, dev)->Ok_0.seen.contains(tx_hash(r2)),
    ensures
        tx_step(tx_step(st, r1, h1, dev)->Ok_0, r2, tx_hash(r2), dev) == Err::<TxsState, BlockchainError>(
            BlockchainError::DuplicateRegistration,
        ),
{
    let st1 = tx_step(st, r1, h1, dev)->Ok_0;
    assert(st1.registered.last() == r1.sender);
    assert(st1.registered.contains(r2.sender));
}

} // verus!
