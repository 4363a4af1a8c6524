use vstd::prelude::*;

verus! {

/// Number of atomic units in one coin.
pub const COIN_VALUE: u64 = 100_000;

/// Maximum number of coins that can ever be emitted, in atomic units.
pub const MAX_SUPPLY: u64 = 18_400_000 * COIN_VALUE;

/// The block reward is the remaining emission shifted right by this factor.
pub const EMISSION_SPEED_FACTOR: u64 = 21;

/// Fee charged for each started kilobyte of a transaction.
pub const FEE_PER_KB: u64 = 1000;

/// Upper bound on the serialized size of a block and its transactions.
pub const MAX_BLOCK_SIZE: usize = 1024 * 1024 + 256 * 1024;

/// Share of each block reward, in percent, credited to the dev account.
pub const DEV_FEE_PERCENT: u64 = 5;

/// Difficulty of the first blocks, and the floor of every retarget.
pub const MINIMUM_DIFFICULTY: u64 = 16;

/// Proof of work asked of a registration transaction's hash.
pub const REGISTRATION_DIFFICULTY: u64 = 8;

/// Target time between two blocks, in seconds.
pub const BLOCK_TIME: u64 = 15;

/// Tolerated drift of a block timestamp into the future, in seconds.
pub const TIMESTAMP_FUTURE_TOLERANCE: u64 = 30;

/// Address credited with the dev share of block rewards.
pub const DEV_ADDRESS: &'static str = "xel1qypqxpq9qcrsszg2pvxq6rs0zqg3yyc5z5tpwxqergd3c8g7rusq3f2cgc";

/// Hex encoding of the genesis block; empty when the chain starts without one.
pub const GENESIS_BLOCK: &'static str = "";

/// Human-readable part of an address.
pub const ADDRESS_PREFIX: &'static str = "xel";

/// Topoheights kept below the stable topoheight before pruning.
pub const PRUNE_SAFETY_LIMIT: u64 = 80;

/// Delay added per failed connection before a stored peer is tried again.
pub const P2P_EXTEND_PEERLIST_DELAY: u64 = 60;

/// Every this many failed connections, a peer is temporarily banned.
pub const PEER_FAIL_TO_CONNECT_LIMIT: u8 = 3;

/// Length of a temporary ban after too many failed connections, in seconds.
pub const PEER_TEMP_BAN_TIME_ON_CONNECT: u64 = 60;

} // verus!
