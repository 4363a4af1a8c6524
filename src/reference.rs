use vstd::prelude::*;

use crate::config::PRUNE_SAFETY_LIMIT;
use crate::rules::BlockchainError;

verus! {

/// What the pre-checks of a transaction decide, before any balance lookup:
/// an error, no further check, or the stable topoheight at or below which
/// every asset of the sender must have no usable balance newer than the
/// reference.
pub open spec fn pre_verify_spec(
    version: u8,
    required_fees: u64,
    fee: u64,
    reference_topoheight: u64,
    topoheight: u64,
    stable_topoheight: u64,
    block_version_is_v0: bool,
) -> Result<Option<u64>, BlockchainError> {
    if version != 0 {
        Err(BlockchainError::InvalidTxVersion)
    } else if required_fees > fee {
        Err(BlockchainError::InvalidTxFee(required_fees, fee))
    } else if topoheight < reference_topoheight {
        Err(BlockchainError::InvalidReferenceTopoheight)
    } else if !block_version_is_v0 && stable_topoheight >= PRUNE_SAFETY_LIMIT
        && reference_topoheight <= stable_topoheight - PRUNE_SAFETY_LIMIT {
        Ok(Some((stable_topoheight - PRUNE_SAFETY_LIMIT) as u64))
    } else {
        Ok(None)
    }
}

/// Checks a transaction's version, its fee against `required_fees`, and
/// its reference against the chain; says whether the reference is old
/// enough that the sender's usable balances must be looked up.
pub fn pre_verify_tx(
    version: u8,
    required_fees: u64,
    fee: u64,
    reference_topoheight: u64,
    topoheight: u64,
    stable_topoheight: u64,
    block_version_is_v0: bool,
) -> (r: Result<Option<u64>, BlockchainError>)
    ensures
        r == pre_verify_spec(
            version,
            required_fees,
            fee,
            reference_topoheight,
            topoheight,
            stable_topoheight,
            block_version_is_v0,
        ),
{
    if version != 0 {
        return Err(BlockchainError::InvalidTxVersion);
    }
    if required_fees > fee {
        return Err(BlockchainError::InvalidTxFee(required_fees, fee));
    }
    if topoheight < reference_topoheight {
        return Err(BlockchainError::InvalidReferenceTopoheight);
    }
    if !block_version_is_v0 && stable_topoheight >= PRUNE_SAFETY_LIMIT {
        let safety_stable_topoheight = stable_topoheight - PRUNE_SAFETY_LIMIT;
        if reference_topoheight <= safety_stable_topoheight {
            return Ok(Some(safety_stable_topoheight));
        }
    }
    Ok(None)
}

/// The verdict on one asset: the topoheight of its latest usable balance
/// at or below the safety topoheight, if there is one.
pub open spec fn stable_reference_spec(reference_topoheight: u64, usable: Option<u64>) -> Result<
    (),
    BlockchainError,
> {
    match usable {
        None => Err(BlockchainError::NoStableReferenceFound),
        Some(topo) => if topo > reference_topoheight {
            Err(BlockchainError::InvalidReferenceTopoheight)
        } else {
            Ok(())
        },
    }
}

/// Checks the usable balances of the sender's assets, in order, against
/// the reference; the first failing asset decides.
pub fn verify_stable_reference(reference_topoheight: u64, usable: &Vec<Option<u64>>) -> (r: Result<
    (),
    BlockchainError,
>)
    ensures
        match r {
            Ok(()) => forall|i: int|
                0 <= i < usable@.len() ==> stable_reference_spec(
                    reference_topoheight,
                    #[trigger] usable@[i],
                ) is Ok,
            Err(e) => exists|i: int|
                0 <= i < usable@.len() && stable_reference_spec(reference_topoheight, #[trigger] usable@[i])
                    == Err::<(), BlockchainError>(e) && forall|j: int|
                    0 <= j < i ==> stable_reference_spec(reference_topoheight, #[trigger] usable@[j]) is Ok,
        },
{
    let mut i: usize = 0;
    while i < usable.len()
        invariant
            i <= usable@.len(),
            forall|j: int|
                0 <= j < i ==> stable_reference_spec(reference_topoheight, #[trigger] usable@[j]) is Ok,
        decreases usable@.len() - i,
    {
        match usable[i] {
            None => {
                return Err(BlockchainError::NoStableReferenceFound);
            },
            Some(topo) => {
                if topo > reference_topoheight {
                    return Err(BlockchainError::InvalidReferenceTopoheight);
                }
            },
        }
        i += 1;
    }
    Ok(())
}

/// The topoheight of the block that a reference names: its recorded
/// topoheight when the hash is ordered at the referenced topoheight,
/// otherwise the reference's topoheight capped by the current one; the
/// current topoheight when the hash is not ordered.
pub open spec fn reference_block_topo_spec(
    ordered_topoheight: Option<u64>,
    reference_topoheight: u64,
    current_topoheight: u64,
) -> u64 {
    match ordered_topoheight {
        Some(topo) => if topo == reference_topoheight {
            topo
        } else if reference_topoheight < current_topoheight {
            reference_topoheight
        } else {
            current_topoheight
        },
        None => current_topoheight,
    }
}

pub fn reference_block_topoheight(
    ordered_topoheight: Option<u64>,
    reference_topoheight: u64,
    current_topoheight: u64,
) -> (r: u64)
    ensures
        r == reference_block_topo_spec(ordered_topoheight, reference_topoheight, current_topoheight),
{
    match ordered_topoheight {
        Some(topo) => {
            if topo == reference_topoheight {
                topo
            } else if reference_topoheight < current_topoheight {
                reference_topoheight
            } else {
                current_topoheight
            }
        },
        None => current_topoheight,
    }
}

/// Which balance version a transaction built on a reference is verified
/// against.
#[derive(Debug, Clone, Copy, PartialEq, Eq, Structural)]
pub enum BalanceChoice {
    /// The output balance of the sender's latest outgoing transaction,
    /// which came after the reference.
    OutputBalance,
    /// The version found with that latest output, which the reference
    /// covers exactly.
    LatestOutputVersion,
    /// The final balance at or below this topoheight.
    FinalBalanceAt(u64),
}

pub open spec fn balance_choice_spec(
    last_output_topoheight: Option<u64>,
    reference_topoheight: u64,
    reference_block_topoheight: u64,
) -> BalanceChoice {
    match last_output_topoheight {
        Some(topo) => if reference_topoheight < topo || reference_block_topoheight < topo {
            BalanceChoice::OutputBalance
        } else if topo < reference_topoheight || topo < reference_block_topoheight {
            BalanceChoice::FinalBalanceAt(
                if topo > reference_block_topoheight {
                    topo
                } else {
                    reference_block_topoheight
                },
            )
        } else {
            BalanceChoice::LatestOutputVersion
        },
        None => BalanceChoice::FinalBalanceAt(reference_block_topoheight),
    }
}

/// Chooses the balance version to verify against, from the topoheight of
/// the sender's latest output balance, if any.
pub fn choose_balance_for_reference(
    last_output_topoheight: Option<u64>,
    reference_topoheight: u64,
    reference_block_topoheight: u64,
) -> (r: BalanceChoice)
    ensures
        r == balance_choice_spec(
            last_output_topoheight,
            reference_topoheight,
            reference_block_topoheight,
        ),
{
    match last_output_topoheight {
        Some(topo) => {
            if reference_topoheight < topo || reference_block_topoheight < topo {
                BalanceChoice::OutputBalance
            } else if topo < reference_topoheight || topo < reference_block_topoheight {
                BalanceChoice::FinalBalanceAt(
                    if topo > reference_block_topoheight {
                        topo
                    } else {
                        reference_block_topoheight
                    },
                )
            } else {
                BalanceChoice::LatestOutputVersion
            }
        },
        None => BalanceChoice::FinalBalanceAt(reference_block_topoheight),
    }
}

} // verus!
