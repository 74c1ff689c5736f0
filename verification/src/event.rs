//! Notification events emitted by the management operations.

use vstd::prelude::*;

use crate::role::AccountId;

verus! {

/// The mathematical value of an [`Event`], with resource names and
/// permission tags as byte sequences.
#[verifier::ext_equal]
pub enum EventSpec {
    RoleCreated(AccountId, Seq<u8>, Seq<u8>),
    AccessRevoked(AccountId, Seq<u8>),
    AccessGranted(AccountId, Seq<u8>),
    SuperAdminAdded(AccountId),
}

/// A fire-and-forget notification recorded by the registry: who was affected,
/// and for which resource.  `RoleCreated` also carries the permission kind
/// rendered as its fixed byte tag.
#[derive(PartialEq, Eq, Debug)]
pub enum Event {
    RoleCreated(AccountId, Vec<u8>, Vec<u8>),
    AccessRevoked(AccountId, Vec<u8>),
    AccessGranted(AccountId, Vec<u8>),
    SuperAdminAdded(AccountId),
}

impl View for Event {
    type V = EventSpec;

    open spec fn view(&self) -> EventSpec {
        match self {
            Event::RoleCreated(who, pallet, tag) => EventSpec::RoleCreated(*who, pallet@, tag@),
            Event::AccessRevoked(who, pallet) => EventSpec::AccessRevoked(*who, pallet@),
            Event::AccessGranted(who, pallet) => EventSpec::AccessGranted(*who, pallet@),
            Event::SuperAdminAdded(who) => EventSpec::SuperAdminAdded(*who),
        }
    }
}

} // verus!
