//! The permission registry: role catalog, grant store, super-admin set, and
//! the management operations over them.

use vstd::prelude::*;

use crate::event::Event;
use crate::event::EventSpec;
use crate::permission::Permission;
use crate::role::clone_bytes;
use crate::role::role_eq;
use crate::role::role_spec;
use crate::role::AccountId;
use crate::role::Role;
use crate::role::RoleSpec;

verus! {

/// Errors of the management API.  `AccessDenied`: the caller lacks the
/// `Manage` grant required to assign or revoke for the target resource.
/// `RoleExisted`: an attempt to define a role that is already in the catalog.
#[derive(Clone, Copy, PartialEq, Eq, Structural, Debug)]
pub enum Error {
    AccessDenied,
    RoleExisted,
}

/// The mathematical state of the registry: the catalog as a sequence of role
/// values, the grant relation as a set of `(identity, role)` pairs, the
/// super-admin identities as a set, and the events emitted so far, in order.
#[verifier::ext_equal]
pub struct StateModel {
    pub roles: Seq<RoleSpec>,
    pub grants: Set<(AccountId, RoleSpec)>,
    pub super_admins: Set<AccountId>,
    pub events: Seq<EventSpec>,
}

impl StateModel {
    /// The state before any role, grant or super admin exists.
    pub open spec fn empty() -> StateModel {
        StateModel {
            roles: Seq::empty(),
            grants: Set::empty(),
            super_admins: Set::empty(),
            events: Seq::empty(),
        }
    }

    /// The catalog never holds the same role value twice.
    pub open spec fn wf(self) -> bool {
        forall|i: int, j: int| 0 <= i < j < self.roles.len() ==> self.roles[i] != self.roles[j]
    }

    /// The role is defined in the catalog.
    pub open spec fn has_role(self, role: RoleSpec) -> bool {
        self.roles.contains(role)
    }

    /// The identity holds the role.
    pub open spec fn has_grant(self, who: AccountId, role: RoleSpec) -> bool {
        self.grants.contains((who, role))
    }

    /// The identity is a super admin.
    pub open spec fn is_super_admin(self, who: AccountId) -> bool {
        self.super_admins.contains(who)
    }

    /// The identity may manage `pallet`: the `Manage` role for that resource
    /// is in the catalog and is granted to the identity.  Both conditions are
    /// required; a grant for an undefined role does not authorize.
    pub open spec fn manage_access(self, who: AccountId, pallet: Seq<u8>) -> bool {
        let role = role_spec(pallet, Permission::Manage);
        self.has_role(role) && self.has_grant(who, role)
    }

    /// The identity holds a defined `Execute` role for `pallet`.
    pub open spec fn execute_access(self, who: AccountId, pallet: Seq<u8>) -> bool {
        let role = role_spec(pallet, Permission::Execute);
        self.has_role(role) && self.has_grant(who, role)
    }

    /// The identity may execute on `pallet`: either a `Manage` or an
    /// `Execute` grant for a defined role covers it.  `Manage` deliberately
    /// subsumes `Execute` here.
    pub open spec fn access(self, who: AccountId, pallet: Seq<u8>) -> bool {
        self.manage_access(who, pallet) || self.execute_access(who, pallet)
    }
}

/// The state after a successful `create_role(who, pallet, permission)`: the
/// new role is appended to the catalog, the creator becomes its first holder,
/// and a `RoleCreated` event carries the permission's byte tag.
pub open spec fn created(
    s: StateModel,
    who: AccountId,
    pallet: Seq<u8>,
    permission: Permission,
) -> StateModel {
    let role = role_spec(pallet, permission);
    StateModel {
        roles: s.roles.push(role),
        grants: s.grants.insert((who, role)),
        events: s.events.push(EventSpec::RoleCreated(who, pallet, permission.label())),
        ..s
    }
}

/// The state after a successful `assign_role`: the target identity now holds
/// the role, and an `AccessGranted` event names it and the resource.
pub open spec fn granted(s: StateModel, target: AccountId, role: RoleSpec) -> StateModel {
    StateModel {
        grants: s.grants.insert((target, role)),
        events: s.events.push(EventSpec::AccessGranted(target, role.pallet)),
        ..s
    }
}

/// The state after a successful `revoke_access`: the grant is gone, and an
/// `AccessRevoked` event names the target identity and the resource.
pub open spec fn revoked(s: StateModel, target: AccountId, role: RoleSpec) -> StateModel {
    StateModel {
        grants: s.grants.remove((target, role)),
        events: s.events.push(EventSpec::AccessRevoked(target, role.pallet)),
        ..s
    }
}

/// The state after `add_super_admin`: the identity joins the super-admin set
/// and a `SuperAdminAdded` event records it.
pub open spec fn promoted(s: StateModel, who: AccountId) -> StateModel {
    StateModel {
        super_admins: s.super_admins.insert(who),
        events: s.events.push(EventSpec::SuperAdminAdded(who)),
        ..s
    }
}

/// The grant-relation key a stored entry stands for.
pub open spec fn grant_key(e: (AccountId, Role)) -> (AccountId, RoleSpec) {
    (e.0, e.1@)
}

/// The set of grant keys a sequence of stored entries represents.
pub open spec fn grants_of(entries: Seq<(AccountId, Role)>) -> Set<(AccountId, RoleSpec)> {
    Set::new(
        |p: (AccountId, RoleSpec)|
            exists|i: int| 0 <= i < entries.len() && grant_key(entries[i]) == p,
    )
}

/// The set of identities a sequence of stored identities represents.
pub open spec fn admins_of(ids: Seq<AccountId>) -> Set<AccountId> {
    Set::new(|a: AccountId| ids.contains(a))
}

/// The registry itself.  All mutation goes through the management methods;
/// the admission path only reads.
pub struct Pallet {
    roles: Vec<Role>,
    permissions: Vec<(AccountId, Role)>,
    super_admins: Vec<AccountId>,
    events: Vec<Event>,
}

impl View for Pallet {
    type V = StateModel;

    closed spec fn view(&self) -> StateModel {
        StateModel {
            roles: self.roles@.map_values(|r: Role| r@),
            grants: grants_of(self.permissions@),
            super_admins: admins_of(self.super_admins@),
            events: self.events@.map_values(|e: Event| e@),
        }
    }
}

impl Pallet {
    /// The grant store never holds two entries for the same key, so removing
    /// the one entry found removes the key.
    spec fn rep_inv(self) -> bool {
        forall|i: int, j: int|
            0 <= i < j < self.permissions@.len() ==> grant_key(self.permissions@[i]) != grant_key(
                self.permissions@[j],
            )
    }

    /// Well-formedness: the representation invariant, and a duplicate-free
    /// catalog.
    pub closed spec fn wf(self) -> bool {
        self.rep_inv() && self@.wf()
    }

    /// A fresh registry with no roles, grants, super admins or events.
    pub fn new() -> (r: Pallet)
        ensures
            r.wf(),
            r@ == StateModel::empty(),
    {
        let r = Pallet {
            roles: Vec::new(),
            permissions: Vec::new(),
            super_admins: Vec::new(),
            events: Vec::new(),
        };
        proof {
            assert(r@.roles =~= Seq::<RoleSpec>::empty());
            assert(r@.events =~= Seq::<EventSpec>::empty());
            assert(r@.grants =~= Set::<(AccountId, RoleSpec)>::empty());
            assert(r@.super_admins =~= Set::<AccountId>::empty());
            assert(r@ =~= StateModel::empty());
        }
        r
    }

    /// Scans the catalog for a role equal to `role`.
    fn roles_contain(&self, role: &Role) -> (r: bool)
        ensures
            r == self@.has_role(role@),
    {
        let ghost mapped = self.roles@.map_values(|x: Role| x@);
        let mut i: usize = 0;
        while i < self.roles.len()
            invariant
                i <= self.roles@.len(),
                mapped == self.roles@.map_values(|x: Role| x@),
                forall|j: int| 0 <= j < i ==> self.roles@[j]@ != role@,
            decreases self.roles@.len() - i,
        {
            if role_eq(&self.roles[i], role) {
                proof {
                    assert(mapped[i as int] == role@);
                }
                return true;
            }
            i += 1;
        }
        proof {
            assert forall|j: int| 0 <= j < mapped.len() implies mapped[j] != role@ by {
                assert(mapped[j] == self.roles@[j]@);
            }
        }
        false
    }

    /// Inserts the role if it is absent; reports whether it did.  A
    /// duplicate attempt changes nothing at all.
    fn add_role(&mut self, role: &Role) -> (r: bool)
        requires
            old(self).wf(),
        ensures
            final(self).wf(),
            r == !old(self)@.has_role(role@),
            r ==> final(self)@ == (StateModel { roles: old(self)@.roles.push(role@), ..old(self)@ }),
            !r ==> final(self)@ == old(self)@,
    {
        if self.roles_contain(role) {
            return false;
        }
        self.roles.push(role.clone());
        proof {
            let prev = old(self).roles@.map_values(|x: Role| x@);
            let now = self.roles@.map_values(|x: Role| x@);
            assert(now =~= prev.push(role@));
            assert(self@ =~= (StateModel { roles: old(self)@.roles.push(role@), ..old(self)@ }));
            assert forall|i: int, j: int| 0 <= i < j < now.len() implies now[i] != now[j] by {
                if j < now.len() - 1 {
                    assert(prev[i] == now[i] && prev[j] == now[j]);
                } else {
                    assert(now[j] == role@);
                    assert(!prev.contains(role@));
                    assert(now[i] == prev[i]);
                }
            }
        }
        true
    }

    /// Finds the index of the grant entry for `(who, role)`, if any.
    fn grant_index(&self, who: AccountId, role: &Role) -> (r: Option<usize>)
        ensures
            match r {
                Some(i) => i < self.permissions@.len() && grant_key(self.permissions@[i as int])
                    == (who, role@),
                None => !self@.has_grant(who, role@),
            },
    {
        let mut i: usize = 0;
        while i < self.permissions.len()
            invariant
                i <= self.permissions@.len(),
                forall|j: int| 0 <= j < i ==> grant_key(self.permissions@[j]) != (who, role@),
            decreases self.permissions@.len() - i,
        {
            let entry = &self.permissions[i];
            if entry.0 == who && role_eq(&entry.1, role) {
                return Some(i);
            }
            i += 1;
        }
        None
    }

    /// Point lookup in the grant store; absent means `false`.
    fn grant_present(&self, who: AccountId, role: &Role) -> (r: bool)
        ensures
            r == self@.has_grant(who, role@),
    {
        match self.grant_index(who, role) {
            Some(i) => {
                proof {
                    assert(grant_key(self.permissions@[i as int]) == (who, role@));
                }
                true
            },
            None => false,
        }
    }

    /// Upserts the grant `(who, role)`.  The store keeps one entry per key.
    fn set_grant(&mut self, who: AccountId, role: Role)
        requires
            old(self).rep_inv(),
        ensures
            final(self).rep_inv(),
            final(self)@ == (StateModel {
                grants: old(self)@.grants.insert((who, role@)),
                ..old(self)@
            }),
    {
        let ghost prev = self.permissions@;
        match self.grant_index(who, &role) {
            Some(_) => {
                proof {
                    assert(old(self)@.grants.contains((who, role@)));
                    assert(old(self)@.grants.insert((who, role@)) =~= old(self)@.grants);
                    assert(self@ =~= (StateModel {
                        grants: old(self)@.grants.insert((who, role@)),
                        ..old(self)@
                    }));
                }
            },
            None => {
                self.permissions.push((who, role));
                proof {
                    let now = self.permissions@;
                    let key = (who, role@);
                    assert(grant_key(now[now.len() - 1]) == key);
                    assert forall|p: (AccountId, RoleSpec)|
                        grants_of(now).contains(p) implies old(self)@.grants.insert(key).contains(
                        p,
                    ) by {
                        let i = choose|i: int| 0 <= i < now.len() && grant_key(now[i]) == p;
                        if i < now.len() - 1 {
                            assert(grant_key(prev[i]) == p);
                        }
                    }
                    assert forall|p: (AccountId, RoleSpec)|
                        old(self)@.grants.insert(key).contains(p) implies grants_of(now).contains(
                        p,
                    ) by {
                        if p == key {
                            assert(grant_key(now[now.len() - 1]) == p);
                        } else {
                            let i = choose|i: int| 0 <= i < prev.len() && grant_key(prev[i]) == p;
                            assert(grant_key(now[i]) == p);
                        }
                    }
                    assert(grants_of(now) =~= old(self)@.grants.insert(key));
                    assert(self@ =~= (StateModel {
                        grants: old(self)@.grants.insert(key),
                        ..old(self)@
                    }));
                    assert forall|i: int, j: int|
                        0 <= i < j < now.len() implies grant_key(now[i]) != grant_key(now[j]) by {
                        if j == now.len() - 1 {
                            assert(!old(self)@.grants.contains(key));
                            assert(grant_key(now[i]) == grant_key(prev[i]));
                        }
                    }
                }
            },
        }
    }

    /// Removes the grant `(who, role)` if present.
    fn remove_grant(&mut self, who: AccountId, role: &Role)
        requires
            old(self).rep_inv(),
        ensures
            final(self).rep_inv(),
            final(self)@ == (StateModel {
                grants: old(self)@.grants.remove((who, role@)),
                ..old(self)@
            }),
    {
        let ghost prev = self.permissions@;
        let ghost key = (who, role@);
        match self.grant_index(who, role) {
            Some(i) => {
                self.permissions.remove(i);
                proof {
                    let now = self.permissions@;
                    assert(now =~= prev.subrange(0, i as int) + prev.subrange(
                        i as int + 1,
                        prev.len() as int,
                    ));
                    assert forall|p: (AccountId, RoleSpec)|
                        grants_of(now).contains(p) implies old(self)@.grants.remove(key).contains(
                        p,
                    ) by {
                        let a = choose|a: int| 0 <= a < now.len() && grant_key(now[a]) == p;
                        if a < i {
                            assert(grant_key(prev[a]) == p);
                            assert(grant_key(prev[a]) != grant_key(prev[i as int]));
                        } else {
                            assert(grant_key(prev[a + 1]) == p);
                            assert(grant_key(prev[a + 1]) != grant_key(prev[i as int]));
                        }
                    }
                    assert forall|p: (AccountId, RoleSpec)|
                        old(self)@.grants.remove(key).contains(p) implies grants_of(now).contains(
                        p,
                    ) by {
                        let a = choose|a: int| 0 <= a < prev.len() && grant_key(prev[a]) == p;
                        if a < i {
                            assert(grant_key(now[a]) == p);
                        } else {
                            assert(a != i);
                            assert(grant_key(now[a - 1]) == p);
                        }
                    }
                    assert(grants_of(now) =~= old(self)@.grants.remove(key));
                    assert(self@ =~= (StateModel {
                        grants: old(self)@.grants.remove(key),
                        ..old(self)@
                    }));
                    assert forall|a: int, b: int|
                        0 <= a < b < now.len() implies grant_key(now[a]) != grant_key(now[b]) by {
                        let pa: int = if a < i { a } else { a + 1 };
                        let pb: int = if b < i { b } else { b + 1 };
                        assert(grant_key(now[a]) == grant_key(prev[pa]));
                        assert(grant_key(now[b]) == grant_key(prev[pb]));
                    }
                }
            },
            None => {
                proof {
                    assert(old(self)@.grants.remove(key) =~= old(self)@.grants);
                    assert(self@ =~= (StateModel {
                        grants: old(self)@.grants.remove(key),
                        ..old(self)@
                    }));
                }
            },
        }
    }

    /// Records `who` as a super admin; a second insertion changes nothing.
    fn insert_admin(&mut self, who: AccountId)
        ensures
            final(self).permissions@ == old(self).permissions@,
            final(self)@ == (StateModel {
                super_admins: old(self)@.super_admins.insert(who),
                ..old(self)@
            }),
    {
        let ghost prev = self.super_admins@;
        let mut i: usize = 0;
        let mut present = false;
        while i < self.super_admins.len()
            invariant
                i <= prev.len(),
                self.super_admins@ == prev,
                present == exists|j: int| 0 <= j < i && prev[j] == who,
            decreases prev.len() - i,
        {
            if self.super_admins[i] == who {
                present = true;
            }
            i += 1;
        }
        if !present {
            self.super_admins.push(who);
        }
        proof {
            let now = self.super_admins@;
            assert forall|a: AccountId| admins_of(now).contains(a) implies old(
                self,
            )@.super_admins.insert(who).contains(a) by {
                let j = choose|j: int| 0 <= j < now.len() && now[j] == a;
                if j < prev.len() {
                    assert(prev.contains(a));
                }
            }
            assert forall|a: AccountId|
                old(self)@.super_admins.insert(who).contains(a) implies admins_of(now).contains(
                a,
            ) by {
                if prev.contains(a) {
                    let j = choose|j: int| 0 <= j < prev.len() && prev[j] == a;
                    assert(now[j] == a);
                } else {
                    assert(a == who);
                    assert(prev.contains(who) || now[now.len() - 1] == who);
                    if prev.contains(who) {
                        let j = choose|j: int| 0 <= j < prev.len() && prev[j] == who;
                        assert(now[j] == a);
                    }
                }
            }
            assert(admins_of(now) =~= old(self)@.super_admins.insert(who));
            assert(self@ =~= (StateModel {
                super_admins: old(self)@.super_admins.insert(who),
                ..old(self)@
            }));
        }
    }

    /// Appends a notification event.
    fn deposit_event(&mut self, event: Event)
        ensures
            final(self).permissions@ == old(self).permissions@,
            final(self)@ == (StateModel { events: old(self)@.events.push(event@), ..old(self)@ }),
    {
        let ghost prev = self.events@.map_values(|e: Event| e@);
        self.events.push(event);
        proof {
            let now = self.events@.map_values(|e: Event| e@);
            assert(now =~= prev.push(event@));
            assert(self@ =~= (StateModel { events: old(self)@.events.push(event@), ..old(self)@ }));
        }
    }

    /// Defines the role `(pallet_name, permission)` and makes the caller its
    /// first holder.  The caller must already have passed the embedding
    /// system's role-creation origin check; this method does not repeat it.
    ///
    /// Fails with `RoleExisted`, changing nothing, when the role is already
    /// in the catalog; otherwise appends the role, grants it to `who`, and
    /// emits `RoleCreated`.
    pub fn create_role(
        &mut self,
        who: AccountId,
        pallet_name: Vec<u8>,
        permission: Permission,
    ) -> (r: Result<(), Error>)
        requires
            old(self).wf(),
        ensures
            final(self).wf(),
            old(self)@.has_role(role_spec(pallet_name@, permission)) ==> r == Err::<(), Error>(
                Error::RoleExisted,
            ) && final(self)@ == old(self)@,
            !old(self)@.has_role(role_spec(pallet_name@, permission)) ==> r == Ok::<(), Error>(())
                && final(self)@ == created(old(self)@, who, pallet_name@, permission),
    {
        let role = Role { pallet: clone_bytes(&pallet_name), permission };
        proof {
            assert(role@ =~= role_spec(pallet_name@, permission));
        }
        if !self.add_role(&role) {
            return Err(Error::RoleExisted);
        }
        let label = permission.as_bytes();
        self.set_grant(who, role);
        self.deposit_event(Event::RoleCreated(who, pallet_name, label));
        proof {
            assert(self@ =~= created(old(self)@, who, pallet_name@, permission));
        }
        Ok(())
    }

    /// Grants `role` to `account_id`, on the authority of `who`.  Succeeds
    /// exactly when `who` manages the role's resource; then the grant is set
    /// and `AccessGranted` is emitted.  The role value is granted as passed,
    /// whether or not it was ever defined in the catalog.
    pub fn assign_role(&mut self, who: AccountId, account_id: AccountId, role: Role) -> (r: Result<
        (),
        Error,
    >)
        requires
            old(self).wf(),
        ensures
            final(self).wf(),
            old(self)@.manage_access(who, role.pallet@) ==> r == Ok::<(), Error>(())
                && final(self)@ == granted(old(self)@, account_id, role@),
            !old(self)@.manage_access(who, role.pallet@) ==> r == Err::<(), Error>(
                Error::AccessDenied,
            ) && final(self)@ == old(self)@,
    {
        if !self.verify_manage_access(who, clone_bytes(&role.pallet)) {
            return Err(Error::AccessDenied);
        }
        let pallet_copy = clone_bytes(&role.pallet);
        self.set_grant(account_id, role);
        self.deposit_event(Event::AccessGranted(account_id, pallet_copy));
        proof {
            assert(self@ =~= granted(old(self)@, account_id, role@));
        }
        Ok(())
    }

    /// Revokes `role` from `account_id`, on the authority of `who`.  Succeeds
    /// exactly when `who` manages the role's resource; then `AccessRevoked`
    /// is emitted and the grant is removed, in that order.
    pub fn revoke_access(&mut self, who: AccountId, account_id: AccountId, role: Role) -> (r:
        Result<(), Error>)
        requires
            old(self).wf(),
        ensures
            final(self).wf(),
            old(self)@.manage_access(who, role.pallet@) ==> r == Ok::<(), Error>(())
                && final(self)@ == revoked(old(self)@, account_id, role@),
            !old(self)@.manage_access(who, role.pallet@) ==> r == Err::<(), Error>(
                Error::AccessDenied,
            ) && final(self)@ == old(self)@,
    {
        if self.verify_manage_access(who, clone_bytes(&role.pallet)) {
            self.deposit_event(Event::AccessRevoked(account_id, clone_bytes(&role.pallet)));
            self.remove_grant(account_id, &role);
            proof {
                assert(self@ =~= revoked(old(self)@, account_id, role@));
            }
            Ok(())
        } else {
            Err(Error::AccessDenied)
        }
    }

    /// Promotes `account_id` to super admin and emits `SuperAdminAdded`.  The
    /// embedding system's root-origin check must already have passed; this
    /// method does not repeat it, and it never fails.
    pub fn add_super_admin(&mut self, account_id: AccountId) -> (r: Result<(), Error>)
        requires
            old(self).wf(),
        ensures
            final(self).wf(),
            r == Ok::<(), Error>(()),
            final(self)@ == promoted(old(self)@, account_id),
    {
        self.insert_admin(account_id);
        self.deposit_event(Event::SuperAdminAdded(account_id));
        proof {
            assert(self@ =~= promoted(old(self)@, account_id));
        }
        Ok(())
    }

    /// May `account_id` execute on `pallet`?  True exactly when a defined
    /// `Manage` or `Execute` role for the resource is granted to it.
    pub fn verify_access(&self, account_id: AccountId, pallet: Vec<u8>) -> (r: bool)
        ensures
            r == self@.access(account_id, pallet@),
    {
        let execute_role = Role { pallet: clone_bytes(&pallet), permission: Permission::Execute };
        let manage_role = Role { pallet, permission: Permission::Manage };
        proof {
            assert(execute_role@ =~= role_spec(manage_role.pallet@, Permission::Execute));
            assert(manage_role@ =~= role_spec(manage_role.pallet@, Permission::Manage));
        }
        (self.roles_contain(&manage_role) && self.grant_present(account_id, &manage_role)) || (
        self.roles_contain(&execute_role) && self.grant_present(account_id, &execute_role))
    }

    /// May `account_id` manage `pallet`?  True exactly when the `Manage`
    /// role for the resource is defined and granted to it.
    pub fn verify_manage_access(&self, account_id: AccountId, pallet: Vec<u8>) -> (r: bool)
        ensures
            r == self@.manage_access(account_id, pallet@),
    {
        let role = Role { pallet, permission: Permission::Manage };
        proof {
            assert(role@ =~= role_spec(role.pallet@, Permission::Manage));
        }
        self.roles_contain(&role) && self.grant_present(account_id, &role)
    }

    /// The catalog as stored: every defined role, in insertion order.
    pub fn roles(&self) -> (r: &Vec<Role>)
        ensures
            r@.map_values(|x: Role| x@) == self@.roles,
    {
        &self.roles
    }

    /// Point lookup of the grant relation, `false` when absent.
    pub fn permissions(&self, account_id: AccountId, role: &Role) -> (r: bool)
        ensures
            r == self@.has_grant(account_id, role@),
    {
        self.grant_present(account_id, role)
    }

    /// Is `account_id` in the super-admin set?
    pub fn super_admins(&self, account_id: AccountId) -> (r: bool)
        ensures
            r == self@.is_super_admin(account_id),
    {
        let mut i: usize = 0;
        while i < self.super_admins.len()
            invariant
                i <= self.super_admins@.len(),
                forall|j: int| 0 <= j < i ==> self.super_admins@[j] != account_id,
            decreases self.super_admins@.len() - i,
        {
            if self.super_admins[i] == account_id {
                return true;
            }
            i += 1;
        }
        false
    }

    /// Every event emitted so far, oldest first.
    pub fn events(&self) -> (r: &Vec<Event>)
        ensures
            r@.map_values(|e: Event| e@) == self@.events,
    {
        &self.events
    }
}

/// The identities among the first `n` entries of `ids`.
spec fn admins_prefix(ids: Seq<AccountId>, n: int) -> Set<AccountId> {
    Set::new(|a: AccountId| exists|j: int| 0 <= j < n && ids[j] == a)
}

/// The one-time bootstrap: initial super admins, and initial roles each with
/// the identities that hold it from the start.
pub struct GenesisConfig {
    pub super_admins: Vec<AccountId>,
    pub permissions: Vec<(Role, Vec<AccountId>)>,
}

impl Default for GenesisConfig {
    /// An empty bootstrap: no super admins, no roles.
    fn default() -> (r: Self)
        ensures
            r.super_admins@.len() == 0,
            r.permissions@.len() == 0,
    {
        GenesisConfig { super_admins: Vec::new(), permissions: Vec::new() }
    }
}

impl GenesisConfig {
    /// The bootstrap roles, in list order.
    pub open spec fn role_seq(self) -> Seq<RoleSpec> {
        self.permissions@.map_values(|p: (Role, Vec<AccountId>)| p.0@)
    }

    /// No role value appears twice in the bootstrap list.
    pub open spec fn distinct_roles(self) -> bool {
        forall|i: int, j: int|
            0 <= i < j < self.role_seq().len() ==> self.role_seq()[i] != self.role_seq()[j]
    }

    /// `p` is granted by some member entry strictly before position `(k, j)`
    /// (role index, then member index within the role's list).
    pub open spec fn grant_in_prefix(self, p: (AccountId, RoleSpec), k: int, j: int) -> bool {
        exists|a: int, b: int|
            0 <= a < self.permissions@.len() && 0 <= b < self.permissions@[a].1@.len() && (a < k
                || (a == k && b < j)) && self.permissions@[a].0@ == p.1
                && self.permissions@[a].1@[b] == p.0
    }

    /// The grant pairs contributed by all entries before position `(k, j)`.
    pub open spec fn grants_prefix(self, k: int, j: int) -> Set<(AccountId, RoleSpec)> {
        Set::new(|p: (AccountId, RoleSpec)| self.grant_in_prefix(p, k, j))
    }

    /// Every grant pair the bootstrap list describes.
    pub open spec fn genesis_grants(self) -> Set<(AccountId, RoleSpec)> {
        self.grants_prefix(self.permissions@.len() as int, 0)
    }

    /// The registry state the bootstrap describes: its roles, its grants,
    /// its super admins, and no events.
    pub open spec fn genesis_model(self) -> StateModel {
        StateModel {
            roles: self.role_seq(),
            grants: self.genesis_grants(),
            super_admins: admins_of(self.super_admins@),
            events: Seq::empty(),
        }
    }

    /// Builds the initial registry.  A duplicate role in the bootstrap list
    /// is fatal — there is no caller to report to — so the whole build yields
    /// `None` exactly in that case.  No events are emitted for bootstrap
    /// state.
    pub fn build(&self) -> (r: Option<Pallet>)
        ensures
            r is Some <==> self.distinct_roles(),
            r is Some ==> r.unwrap().wf() && r.unwrap()@ == self.genesis_model(),
    {
        let mut p = Pallet::new();
        let ghost ids = self.super_admins@;
        let mut i: usize = 0;
        while i < self.super_admins.len()
            invariant
                i <= ids.len(),
                self.super_admins@ == ids,
                p.wf(),
                p@ == (StateModel { super_admins: admins_prefix(ids, i as int), ..StateModel::empty() }),
            decreases ids.len() - i,
        {
            let ghost before = p@.super_admins;
            p.insert_admin(self.super_admins[i]);
            proof {
                assert forall|a: AccountId|
                    before.insert(ids[i as int]).contains(a) implies admins_prefix(
                    ids,
                    i as int + 1,
                ).contains(a) by {
                    if before.contains(a) {
                        let j = choose|j: int| 0 <= j < i && ids[j] == a;
                        assert(0 <= j < i + 1 && ids[j] == a);
                    } else {
                        assert(ids[i as int] == a);
                    }
                }
                assert forall|a: AccountId|
                    admins_prefix(ids, i as int + 1).contains(a) implies before.insert(
                    ids[i as int],
                ).contains(a) by {
                    let j = choose|j: int| 0 <= j < i + 1 && ids[j] == a;
                    if j < i {
                        assert(admins_prefix(ids, i as int).contains(a));
                    }
                }
                assert(before.insert(ids[i as int]) =~= admins_prefix(ids, i as int + 1));
                assert(p@ =~= (StateModel {
                    super_admins: admins_prefix(ids, i as int + 1),
                    ..StateModel::empty()
                }));
            }
            i += 1;
        }
        proof {
            assert(admins_prefix(ids, ids.len() as int) =~= admins_of(ids));
            assert(p@ =~= (StateModel { super_admins: admins_of(ids), ..StateModel::empty() }));
        }
        let mut k: usize = 0;
        while k < self.permissions.len()
            invariant
                k <= self.permissions@.len(),
                p.wf(),
                p@.roles == self.role_seq().subrange(0, k as int),
                p@.grants == self.grants_prefix(k as int, 0),
                p@.super_admins == admins_of(self.super_admins@),
                p@.events == Seq::<EventSpec>::empty(),
            decreases self.permissions@.len() - k,
        {
            let role_ok = p.add_role(&self.permissions[k].0);
            if !role_ok {
                proof {
                    let rs = self.role_seq();
                    assert(p@.roles.contains(rs[k as int]));
                    let j = choose|j: int| 0 <= j < k && p@.roles[j] == rs[k as int];
                    assert(rs[j] == rs[k as int]);
                    assert(!self.distinct_roles());
                }
                return None;
            }
            proof {
                assert(p@.roles =~= self.role_seq().subrange(0, k as int + 1));
            }
            let members = &self.permissions[k].1;
            let ghost row = members@;
            let mut j: usize = 0;
            while j < members.len()
                invariant
                    j <= row.len(),
                    members@ == row,
                    row == self.permissions@[k as int].1@,
                    k < self.permissions@.len(),
                    p.wf(),
                    p@.roles == self.role_seq().subrange(0, k as int + 1),
                    p@.grants == self.grants_prefix(k as int, j as int),
                    p@.super_admins == admins_of(self.super_admins@),
                    p@.events == Seq::<EventSpec>::empty(),
                decreases row.len() - j,
            {
                let ghost before = p@.grants;
                let ghost key = (row[j as int], self.permissions@[k as int].0@);
                p.set_grant(members[j], self.permissions[k].0.clone());
                proof {
                    assert forall|q: (AccountId, RoleSpec)|
                        before.insert(key).contains(q) implies self.grant_in_prefix(
                        q,
                        k as int,
                        j as int + 1,
                    ) by {
                        if before.contains(q) {
                            let (a, b) = choose|a: int, b: int|
                                0 <= a < self.permissions@.len() && 0 <= b
                                    < self.permissions@[a].1@.len() && (a < k || (a == k && b < j))
                                    && self.permissions@[a].0@ == q.1
                                    && self.permissions@[a].1@[b] == q.0;
                            assert(a < k || (a == k && b < j + 1));
                        } else {
                            assert(self.permissions@[k as int].1@[j as int] == q.0);
                        }
                    }
                    assert forall|q: (AccountId, RoleSpec)|
                        self.grant_in_prefix(q, k as int, j as int + 1) implies before.insert(
                        key,
                    ).contains(q) by {
                        let (a, b) = choose|a: int, b: int|
                            0 <= a < self.permissions@.len() && 0 <= b
                                < self.permissions@[a].1@.len() && (a < k || (a == k && b < j + 1))
                                && self.permissions@[a].0@ == q.1
                                && self.permissions@[a].1@[b] == q.0;
                        if a < k || (a == k && b < j) {
                            assert(self.grant_in_prefix(q, k as int, j as int));
                        } else {
                            assert(q == key);
                        }
                    }
                    assert(before.insert(key) =~= self.grants_prefix(k as int, j as int + 1));
                }
                j += 1;
            }
            proof {
                assert forall|q: (AccountId, RoleSpec)|
                    self.grant_in_prefix(q, k as int, row.len() as int) implies self
                    .grant_in_prefix(q, k as int + 1, 0) by {
                    let (a, b) = choose|a: int, b: int|
                        0 <= a < self.permissions@.len() && 0 <= b < self.permissions@[a].1@.len()
                            && (a < k || (a == k && b < row.len())) && self.permissions@[a].0@
                            == q.1 && self.permissions@[a].1@[b] == q.0;
                    assert(a < k + 1);
                }
                assert forall|q: (AccountId, RoleSpec)|
                    self.grant_in_prefix(q, k as int + 1, 0) implies self.grant_in_prefix(
                    q,
                    k as int,
                    row.len() as int,
                ) by {
                    let (a, b) = choose|a: int, b: int|
                        0 <= a < self.permissions@.len() && 0 <= b < self.permissions@[a].1@.len()
                            && a < k + 1 && self.permissions@[a].0@ == q.1
                            && self.permissions@[a].1@[b] == q.0;
                    assert(a < k || (a == k && b < row.len()));
                }
                assert(self.grants_prefix(k as int, row.len() as int) =~= self.grants_prefix(
                    k as int + 1,
                    0,
                ));
            }
            k += 1;
        }
        proof {
            assert(p@.roles =~= self.role_seq());
            assert(p@ =~= self.genesis_model());
            assert(self.distinct_roles());
        }
        Some(p)
    }
}

} // verus!
