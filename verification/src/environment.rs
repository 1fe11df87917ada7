//! The state that accumulates along a path through a function: how far the
//! allocation pointer is tracked, the state of the frame, and the gas at
//! hand.

use vstd::prelude::*;
use crate::references::ApChange;

verus! {

/// The state of the local variables of the frame.
#[derive(Clone, Copy, Debug, PartialEq, Eq, Structural)]
pub enum FrameState {
    /// No local was allocated yet.
    BeforeAllocation,
    /// Locals are being allocated.
    Allocating { allocated: usize, locals_start_ap_offset: usize },
    /// The allocation of locals is closed.
    Finalized { allocated: usize },
}

/// The gas at hand.
#[derive(Clone, Copy, Debug, PartialEq, Eq, Structural)]
pub enum GasWallet {
    /// The amount at hand.
    Value(i64),
    /// Gas is not tracked.
    Disabled,
}

/// The state at a point of a path.
#[derive(Clone, Copy, Debug, PartialEq, Eq, Structural)]
pub struct Environment {
    /// The growth of the allocation pointer since it was last known.
    pub ap_tracking: ApChange,
    pub frame_state: FrameState,
    pub gas_wallet: GasWallet,
}

/// Why a branch cannot be applied to a state.
#[derive(Clone, Copy, Debug, PartialEq, Eq, Structural)]
pub enum EnvironmentError {
    /// The branch takes more gas than is at hand, or the amount is out of
    /// range.
    OutOfGas,
    /// A function returns while locals are being allocated.
    InvalidFinalFrameState,
}

/// Tracking after a change: known growth adds up as long as the sum fits in
/// a machine word; anything else is unknown.
pub open spec fn spec_update_ap_tracking(tracking: ApChange, change: ApChange) -> ApChange {
    match (tracking, change) {
        (ApChange::Known(a), ApChange::Known(b)) => if a + b <= usize::MAX {
            ApChange::Known((a + b) as usize)
        } else {
            ApChange::Unknown
        },
        _ => ApChange::Unknown,
    }
}

/// Tracking after a change.
pub fn update_ap_tracking(tracking: ApChange, change: ApChange) -> (r: ApChange)
    ensures
        r == spec_update_ap_tracking(tracking, change),
{
    match (tracking, change) {
        (ApChange::Known(a), ApChange::Known(b)) => match a.checked_add(b) {
            Some(sum) => ApChange::Known(sum),
            None => ApChange::Unknown,
        },
        _ => ApChange::Unknown,
    }
}

impl GasWallet {
    /// The wallet after `change` was taken from it; a wallet that is not
    /// tracked stays so.
    pub open spec fn spec_update(self, change: i64) -> Result<GasWallet, EnvironmentError> {
        match self {
            GasWallet::Disabled => Ok(GasWallet::Disabled),
            GasWallet::Value(v) => if 0 <= v - change <= i64::MAX {
                Ok(GasWallet::Value((v - change) as i64))
            } else {
                Err(EnvironmentError::OutOfGas)
            },
        }
    }

    /// The wallet after `change` was taken from it.
    pub fn update(&self, change: i64) -> (r: Result<GasWallet, EnvironmentError>)
        ensures
            r == self.spec_update(change),
    {
        match self {
            GasWallet::Disabled => Ok(GasWallet::Disabled),
            GasWallet::Value(v) => match v.checked_sub(change) {
                Some(rest) => if rest >= 0 {
                    Ok(GasWallet::Value(rest))
                } else {
                    Err(EnvironmentError::OutOfGas)
                },
                None => Err(EnvironmentError::OutOfGas),
            },
        }
    }
}

impl Environment {
    /// The state at the entry of a function.
    pub open spec fn spec_new(gas_wallet: GasWallet) -> Environment {
        Environment {
            ap_tracking: ApChange::Known(0),
            frame_state: FrameState::BeforeAllocation,
            gas_wallet,
        }
    }

    /// The state at the entry of a function.
    pub fn new(gas_wallet: GasWallet) -> (r: Environment)
        ensures
            r == Environment::spec_new(gas_wallet),
    {
        Environment {
            ap_tracking: ApChange::Known(0),
            frame_state: FrameState::BeforeAllocation,
            gas_wallet,
        }
    }

    /// The state after a branch that changes the allocation pointer by
    /// `ap_change` and takes `gas_change` gas.
    pub open spec fn spec_after_branch(self, ap_change: ApChange, gas_change: i64) -> Result<
        Environment,
        EnvironmentError,
    > {
        match self.gas_wallet.spec_update(gas_change) {
            Ok(wallet) => Ok(
                Environment {
                    ap_tracking: spec_update_ap_tracking(self.ap_tracking, ap_change),
                    frame_state: self.frame_state,
                    gas_wallet: wallet,
                },
            ),
            Err(e) => Err(e),
        }
    }

    /// The state after a branch.
    pub fn after_branch(&self, ap_change: ApChange, gas_change: i64) -> (r: Result<
        Environment,
        EnvironmentError,
    >)
        ensures
            r == self.spec_after_branch(ap_change, gas_change),
    {
        match self.gas_wallet.update(gas_change) {
            Ok(wallet) => Ok(
                Environment {
                    ap_tracking: update_ap_tracking(self.ap_tracking, ap_change),
                    frame_state: self.frame_state,
                    gas_wallet: wallet,
                },
            ),
            Err(e) => Err(e),
        }
    }

    /// Whether a function may return in this state: not while locals are
    /// being allocated.
    pub open spec fn spec_is_final(self) -> bool {
        !(self.frame_state is Allocating)
    }

    /// Whether a function may return in this state.
    pub fn is_final(&self) -> (r: bool)
        ensures
            r == self.spec_is_final(),
    {
        match self.frame_state {
            FrameState::Allocating { allocated: _, locals_start_ap_offset: _ } => false,
            _ => true,
        }
    }
}

} // verus!
