use vstd::prelude::*;

use crate::config::{EMISSION_SPEED_FACTOR, FEE_PER_KB, MAX_SUPPLY};

verus! {

/// The reward for a block mined on top of `supply` emitted coins.
pub open spec fn block_reward_spec(supply: u64) -> u64
    recommends
        supply <= MAX_SUPPLY,
{
    ((MAX_SUPPLY - supply) as u64) >> EMISSION_SPEED_FACTOR
}

/// The minimal fee of a transaction of `size` bytes: each started
/// kilobyte costs `FEE_PER_KB`.
pub open spec fn tx_fee_spec(size: nat) -> int {
    (if size % 1024 == 0 { size / 1024 } else { size / 1024 + 1 }) * FEE_PER_KB
}

pub fn get_block_reward(supply: u64) -> (r: u64)
    requires
        supply <= MAX_SUPPLY,
    ensures
        r == block_reward_spec(supply),
        r <= MAX_SUPPLY - supply,
{
    let base_reward = (MAX_SUPPLY - supply) >> EMISSION_SPEED_FACTOR;
    assert(base_reward <= MAX_SUPPLY - supply) by (bit_vector)
        requires
            base_reward == ((MAX_SUPPLY - supply) as u64) >> 21u64,
            supply <= MAX_SUPPLY,
    ;
    base_reward
}

pub fn calculate_tx_fee(tx_size: usize) -> (r: u64)
    ensures
        r == tx_fee_spec(tx_size as nat),
{
    let mut size_in_kb = tx_size as u64 / 1024;
    if tx_size % 1024 != 0 {
        size_in_kb += 1;
    }
    assert(size_in_kb * FEE_PER_KB <= u64::MAX) by (nonlinear_arith)
        requires
            size_in_kb <= usize::MAX / 1024 + 1,
            usize::MAX <= u64::MAX,
    ;
    size_in_kb * FEE_PER_KB
}

/// A block reward never exceeds what remains to be emitted.
pub proof fn lemma_reward_within_remaining(supply: u64)
    requires
        supply <= MAX_SUPPLY,
    ensures
        block_reward_spec(supply) <= MAX_SUPPLY - supply,
{
    let x: u64 = (MAX_SUPPLY - supply) as u64;
    assert(x >> 21u64 <= x) by (bit_vector);
}

/// Each started kilobyte is charged a full `FEE_PER_KB`: a size of exactly
/// `n` kilobytes costs `n` times the rate, one byte more costs one rate more.
pub proof fn lemma_fee_rounding(n: nat)
    ensures
        tx_fee_spec(n * 1024) == n * FEE_PER_KB,
        tx_fee_spec(n * 1024 + 1) == (n + 1) * FEE_PER_KB,
{
    assert((n * 1024) % 1024 == 0 && (n * 1024) / 1024 == n) by (nonlinear_arith);
    assert((n * 1024 + 1) % 1024 == 1 && (n * 1024 + 1) / 1024 == n) by (nonlinear_arith);
}

/// The block reward never grows as more coins are emitted, and it reaches
/// zero exactly when the whole supply has been emitted, for every supply that
/// leaves at least `2^EMISSION_SPEED_FACTOR` units or none to emit.
pub proof fn lemma_block_reward_curve(a: u64, b: u64)
    requires
        a <= b <= MAX_SUPPLY,
    ensures
        block_reward_spec(b) <= block_reward_spec(a),
        (b == MAX_SUPPLY || MAX_SUPPLY - b >= 0x20_0000) ==> (block_reward_spec(b) == 0
            <==> b == MAX_SUPPLY),
{
    let x: u64 = (MAX_SUPPLY - a) as u64;
    let y: u64 = (MAX_SUPPLY - b) as u64;
    assert(y >> 21u64 <= x >> 21u64) by (bit_vector)
        requires
            y <= x,
    ;
    assert(y >= 0x20_0000 ==> y >> 21u64 != 0) by (bit_vector);
    assert(y == 0 ==> y >> 21u64 == 0) by (bit_vector);
}

} // verus!
