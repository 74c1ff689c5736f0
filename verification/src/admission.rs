//! The request-time admission gate: consulted once per inbound call, before
//! the call's own logic runs, to make a final admit/deny decision.

use vstd::prelude::*;

use crate::registry::Pallet;
use crate::registry::StateModel;
use crate::role::AccountId;

verus! {

/// Scheduling hints handed back with every admitted call: a priority derived
/// from the call's declared weight, maximum longevity, and leave to
/// propagate to peers.  The hints are advisory; the admit/deny decision that
/// carries them is not.
#[derive(Clone, Copy, PartialEq, Eq, Structural, Debug)]
pub struct ValidTransaction {
    pub priority: u64,
    pub longevity: u64,
    pub propagate: bool,
}

/// The admission-time rejection: the call is not authorized.  A denied call
/// must neither execute nor be queued or propagated.
#[derive(Clone, Copy, PartialEq, Eq, Structural, Debug)]
pub enum InvalidTransaction {
    Call,
}

/// A call by `who` addressed to `pallet` passes admission: either `who` is a
/// super admin — which bypasses the role checks for every resource — or a
/// defined role grants it access.
pub open spec fn admitted(s: StateModel, who: AccountId, pallet: Seq<u8>) -> bool {
    s.is_super_admin(who) || s.access(who, pallet)
}

/// The admission gate.  It only reads the registry; it never mutates it.
#[derive(Clone, Copy, PartialEq, Eq, Structural, Debug)]
pub struct Authorize;

impl Authorize {
    /// Decides admission for a call by `who` addressed to `pallet_name`,
    /// declared with `weight`.  Super admins are admitted on the fast path;
    /// otherwise the role-based check decides.  Admitted calls get priority
    /// equal to the declared weight, maximum longevity and leave to
    /// propagate; everything else is denied with the generic
    /// not-authorized rejection.
    pub fn validate(
        &self,
        state: &Pallet,
        who: AccountId,
        pallet_name: Vec<u8>,
        weight: u64,
    ) -> (r: Result<ValidTransaction, InvalidTransaction>)
        ensures
            admitted(state@, who, pallet_name@) ==> r == Ok::<ValidTransaction, InvalidTransaction>(
                (ValidTransaction { priority: weight, longevity: u64::MAX, propagate: true }),
            ),
            !admitted(state@, who, pallet_name@) ==> r == Err::<
                ValidTransaction,
                InvalidTransaction,
            >(InvalidTransaction::Call),
    {
        if state.super_admins(who) {
            Ok(ValidTransaction { priority: weight, longevity: u64::MAX, propagate: true })
        } else if state.verify_access(who, pallet_name) {
            Ok(ValidTransaction { priority: weight, longevity: u64::MAX, propagate: true })
        } else {
            Err(InvalidTransaction::Call)
        }
    }
}

} // verus!
