//! System-wide laws of the registry and the admission gate, stated over the
//! mathematical state and proved once and for all.

use vstd::prelude::*;

use crate::admission::admitted;
use crate::permission::Permission;
use crate::registry::created;
use crate::registry::granted;
use crate::registry::revoked;
use crate::registry::StateModel;
use crate::role::role_spec;
use crate::role::AccountId;
use crate::role::RoleSpec;

verus! {

/// Creating a role is idempotent in effect.  From a well-formed state where
/// `(pallet, permission)` is not yet defined, a successful `create_role`
/// leaves the role defined at exactly one catalog position.  The resulting
/// state therefore meets the duplicate case of `create_role`'s contract: a
/// second identical call returns `RoleExisted` and changes nothing — no
/// second catalog entry and no second `RoleCreated` event.
pub proof fn lemma_create_role_idempotent(
    s: StateModel,
    who: AccountId,
    pallet: Seq<u8>,
    permission: Permission,
)
    requires
        s.wf(),
        !s.has_role(role_spec(pallet, permission)),
    ensures
        created(s, who, pallet, permission).wf(),
        created(s, who, pallet, permission).has_role(role_spec(pallet, permission)),
        created(s, who, pallet, permission).roles.len() == s.roles.len() + 1,
        forall|i: int|
            0 <= i < s.roles.len() ==> created(s, who, pallet, permission).roles[i] != role_spec(
                pallet,
                permission,
            ),
{
    let role = role_spec(pallet, permission);
    let s1 = created(s, who, pallet, permission);
    assert(s1.roles[s.roles.len() as int] == role);
    assert forall|i: int| 0 <= i < s.roles.len() implies s1.roles[i] != role by {
        if s.roles[i] == role {
            assert(s.roles.contains(role));
        }
    }
}

/// Self-grant: immediately after a successful `create_role`, the creator
/// passes `verify_access` for the new role's resource — whichever permission
/// kind the role carries.
pub proof fn lemma_create_role_self_grant(
    s: StateModel,
    who: AccountId,
    pallet: Seq<u8>,
    permission: Permission,
)
    requires
        !s.has_role(role_spec(pallet, permission)),
    ensures
        created(s, who, pallet, permission).access(who, pallet),
{
    let role = role_spec(pallet, permission);
    let s1 = created(s, who, pallet, permission);
    assert(s1.roles[s.roles.len() as int] == role);
    assert(s1.has_role(role));
    assert(s1.has_grant(who, role));
    match permission {
        Permission::Execute => assert(s1.execute_access(who, pallet)),
        Permission::Manage => assert(s1.manage_access(who, pallet)),
    }
}

/// Manage implies execute: an identity holding only the defined `Manage`
/// role for a resource passes `verify_access` for it, even with no
/// `Execute` grant at all.
pub proof fn lemma_manage_implies_execute(s: StateModel, who: AccountId, pallet: Seq<u8>)
    requires
        s.has_role(role_spec(pallet, Permission::Manage)),
        s.has_grant(who, role_spec(pallet, Permission::Manage)),
    ensures
        s.access(who, pallet),
{
}

/// Super-admin bypass: an identity in the super-admin set passes admission
/// for every resource, including resources with no defined roles at all.
pub proof fn lemma_super_admin_bypass(s: StateModel, who: AccountId)
    requires
        s.is_super_admin(who),
    ensures
        forall|pallet: Seq<u8>| #[trigger] admitted(s, who, pallet),
{
}

/// Revocation round-trip: granting a role to an identity and then revoking
/// the same role leaves the grant absent, and — provided no other grant
/// covers that identity and resource — leaves `verify_access` false for the
/// resource.
pub proof fn lemma_grant_revoke_round_trip(s: StateModel, target: AccountId, role: RoleSpec)
    requires
        forall|p: Permission|
            p != role.permission ==> !s.has_grant(target, role_spec(role.pallet, p)),
    ensures
        !revoked(granted(s, target, role), target, role).has_grant(target, role),
        !revoked(granted(s, target, role), target, role).access(target, role.pallet),
{
    let s2 = revoked(granted(s, target, role), target, role);
    let manage = role_spec(role.pallet, Permission::Manage);
    let execute = role_spec(role.pallet, Permission::Execute);
    assert(role =~= role_spec(role.pallet, role.permission));
    assert(!s2.has_grant(target, role));
    match role.permission {
        Permission::Manage => {
            assert(execute != role);
            assert(!s.has_grant(target, execute));
            assert(!s2.has_grant(target, execute));
        },
        Permission::Execute => {
            assert(manage != role);
            assert(!s.has_grant(target, manage));
            assert(!s2.has_grant(target, manage));
        },
    }
}

} // verus!
