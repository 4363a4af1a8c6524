use vstd::prelude::*;
use vstd::arithmetic::power::pow;

use crate::block::CompleteBlock;
use crate::config::{BLOCK_TIME, MINIMUM_DIFFICULTY};
use crate::crypto;
use crate::crypto::HASH_SIZE;

verus! {

/// A digest read as a big-endian unsigned integer.
pub open spec fn be_value(s: Seq<u8>) -> nat
    decreases s.len(),
{
    if s.len() == 0 {
        0
    } else {
        (s[0] * pow(256, (s.len() - 1) as nat) + be_value(s.drop_first())) as nat
    }
}

/// The largest digest value that meets `difficulty`: the whole digest range
/// divided by the difficulty.
pub open spec fn target_of(difficulty: u64) -> int
    recommends
        difficulty > 0,
{
    (pow(256, HASH_SIZE as nat) - 1) / (difficulty as int)
}

/// A digest meets a difficulty when, read as a big-endian integer, it does
/// not exceed the difficulty's target.
pub open spec fn meets_difficulty(hash: Seq<u8>, difficulty: u64) -> bool {
    be_value(hash) <= target_of(difficulty)
}

proof fn lemma_be_value_bound(s: Seq<u8>)
    ensures
        be_value(s) < pow(256, s.len()),
    decreases s.len(),
{
    vstd::arithmetic::power::lemma_pow0(256);
    if s.len() > 0 {
        lemma_be_value_bound(s.drop_first());
        let p = pow(256, (s.len() - 1) as nat);
        vstd::arithmetic::power::lemma_pow1(256);
        vstd::arithmetic::power::lemma_pow_adds(256, (s.len() - 1) as nat, 1);
        assert(pow(256, s.len()) == 256 * p);
        assert(s[0] * p + be_value(s.drop_first()) < 256 * p) by (nonlinear_arith)
            requires
                s[0] <= 255,
                be_value(s.drop_first()) < p,
        ;
    }
}

proof fn lemma_target(h: int, d: int, p: int)
    requires
        0 <= h,
        d > 0,
        p > 0,
    ensures
        (h * d < p) <==> (h <= (p - 1) / d),
{
    let q = (p - 1) / d;
    let r = (p - 1) % d;
    assert(p - 1 == q * d + r && 0 <= r < d) by {
        vstd::arithmetic::div_mod::lemma_fundamental_div_mod(p - 1, d);
    }
    if h * d < p {
        assert(h <= q) by (nonlinear_arith)
            requires
                h * d <= q * d + r,
                0 <= r < d,
                d > 0,
        ;
    }
    if h <= q {
        assert(h * d <= q * d) by (nonlinear_arith)
            requires
                h <= q,
                d > 0,
        ;
    }
}

/// Whether `hash` meets `difficulty`. A zero difficulty or a digest of the
/// wrong width is malformed input.
pub fn check_difficulty(hash: &crypto::Hash, difficulty: u64) -> (r: Result<bool, ()>)
    ensures
        match r {
            Ok(b) => difficulty > 0 && hash.wf() && b == meets_difficulty(hash@, difficulty),
            Err(_) => difficulty == 0 || !hash.wf(),
        },
{
    if difficulty == 0 || hash.bytes.len() != HASH_SIZE {
        return Err(());
    }
    let ghost s = hash@;
    let d = difficulty as u128;
    let mut carry: u128 = 0;
    let ghost mut low: int = 0;
    let mut i: usize = HASH_SIZE;
    proof {
        vstd::arithmetic::power::lemma_pow0(256);
        assert(s.subrange(32, 32) =~= Seq::<u8>::empty());
        assert(be_value(s.subrange(32, 32)) == 0);
        assert(pow(256, 0) == 1);
    }
    while i > 0
        invariant
            s == hash@,
            s.len() == 32,
            d == difficulty,
            d > 0,
            i <= 32,
            carry <= d,
            0 <= low < pow(256, (32 - i) as nat),
            be_value(s.subrange(i as int, 32)) * d == low + carry * pow(256, (32 - i) as nat),
        decreases i,
    {
        let b = hash.bytes[i - 1] as u128;
        assert(b * d + carry <= 256 * d) by (nonlinear_arith)
            requires
                b <= 255,
                carry <= d,
        ;
        let t = b * d + carry;
        let ghost k: nat = (32 - i) as nat;
        let ghost pk = pow(256, k);
        proof {
            let sub = s.subrange(i - 1, 32);
            assert(sub.drop_first() =~= s.subrange(i as int, 32));
            assert(sub[0] == b);
            assert(sub.len() - 1 == k);
            let old_v = be_value(s.subrange(i as int, 32));
            assert(be_value(sub) == b * pk + old_v);
            vstd::arithmetic::power::lemma_pow1(256);
            vstd::arithmetic::power::lemma_pow_adds(256, k, 1);
            assert(pow(256, k + 1) == 256 * pk);
            vstd::arithmetic::power::lemma_pow_positive(256, k);
            assert(t == (t % 256) + 256 * (t / 256));
            assert(be_value(sub) * d == (low + (t % 256) * pk) + (t / 256) * pow(256, k + 1))
                by (nonlinear_arith)
                requires
                    be_value(sub) == b * pk + old_v,
                    old_v * d == low + carry * pk,
                    t == b * d + carry,
                    t == (t % 256) + 256 * (t / 256),
                    pow(256, k + 1) == 256 * pk,
            ;
            let m = t % 256;
            assert(m * pk <= 255 * pk) by (nonlinear_arith)
                requires
                    pk > 0,
                    0 <= m < 256,
            ;
            assert(0 <= (t % 256) * pk) by (nonlinear_arith)
                requires
                    0 <= t % 256,
                    pk > 0,
            ;
            low = low + (t % 256) * pk;
        }
        carry = t / 256;
        i -= 1;
    }
    proof {
        assert(s.subrange(0, 32) =~= s);
        lemma_be_value_bound(s);
        vstd::arithmetic::power::lemma_pow_positive(256, 32);
        let p = pow(256, 32);
        let v = be_value(s);
        lemma_target(v as int, d as int, p);
        if carry > 0 {
            assert(v * d >= p) by (nonlinear_arith)
                requires
                    v * d == low + carry * p,
                    carry >= 1,
                    low >= 0,
                    p > 0,
            ;
        }
    }
    Ok(carry == 0)
}

/// The difficulty after a block mined `solve_time` seconds after its parent:
/// the block's difficulty scaled by how much faster or slower than
/// `BLOCK_TIME` it came, the solve time held between half and twice
/// `BLOCK_TIME`, and never below `MINIMUM_DIFFICULTY`.
pub open spec fn next_difficulty(solve_time: int, difficulty: u64) -> u64 {
    let clamped: int = if solve_time < BLOCK_TIME / 2 {
        (BLOCK_TIME / 2) as int
    } else if solve_time > 2 * BLOCK_TIME {
        (2 * BLOCK_TIME) as int
    } else {
        solve_time
    };
    let raw = difficulty * BLOCK_TIME / clamped;
    if raw < MINIMUM_DIFFICULTY {
        MINIMUM_DIFFICULTY
    } else if raw > u64::MAX {
        u64::MAX
    } else {
        raw as u64
    }
}

/// The difficulty for the block after `current`, whose parent is `parent`.
pub fn calculate_difficulty(parent: &CompleteBlock, current: &CompleteBlock) -> (r: u64)
    ensures
        r == next_difficulty(
            current@.block.timestamp - parent@.block.timestamp,
            current@.block.difficulty,
        ),
        r >= MINIMUM_DIFFICULTY,
{
    let parent_ts = parent.get_timestamp();
    let current_ts = current.get_timestamp();
    let clamped: u64 = if current_ts < parent_ts || current_ts - parent_ts < BLOCK_TIME / 2 {
        BLOCK_TIME / 2
    } else if current_ts - parent_ts > 2 * BLOCK_TIME {
        2 * BLOCK_TIME
    } else {
        current_ts - parent_ts
    };
    let diff = current.get_difficulty() as u128;
    assert(diff * 15 <= 0xffff_ffff_ffff_ffff * 15) by (nonlinear_arith)
        requires
            diff <= 0xffff_ffff_ffff_ffff,
    ;
    let raw = diff * (BLOCK_TIME as u128) / (clamped as u128);
    if raw < MINIMUM_DIFFICULTY as u128 {
        MINIMUM_DIFFICULTY
    } else if raw > u64::MAX as u128 {
        u64::MAX
    } else {
        raw as u64
    }
}

} // verus!
