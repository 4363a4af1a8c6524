use xelis_core::config::{FEE_PER_KB, MAX_SUPPLY};
use xelis_core::emission::{calculate_tx_fee, get_block_reward};

#[test]
fn fee_of_whole_kilobytes() {
    assert_eq!(calculate_tx_fee(0), 0);
    assert_eq!(calculate_tx_fee(1024), FEE_PER_KB);
    assert_eq!(calculate_tx_fee(3 * 1024), 3 * FEE_PER_KB);
}

#[test]
fn fee_rounds_up_started_kilobytes() {
    assert_eq!(calculate_tx_fee(1), FEE_PER_KB);
    assert_eq!(calculate_tx_fee(1025), 2 * FEE_PER_KB);
    assert_eq!(calculate_tx_fee(5 * 1024 + 1), 6 * FEE_PER_KB);
}

#[test]
fn block_reward_values() {
    assert_eq!(get_block_reward(0), MAX_SUPPLY >> 21);
    assert_eq!(get_block_reward(MAX_SUPPLY), 0);
    assert_eq!(get_block_reward(MAX_SUPPLY - 1), 0);
    assert_eq!(get_block_reward(MAX_SUPPLY - (1 << 21)), 1);
}

#[test]
fn block_reward_never_grows() {
    let mut supply = 0u64;
    let mut last = get_block_reward(0);
    for _ in 0..1000 {
        let r = get_block_reward(supply);
        assert!(r <= last);
        last = r;
        supply += r;
        assert!(supply <= MAX_SUPPLY);
    }
}
