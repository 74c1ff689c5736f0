use rbac::admission::Authorize;
use rbac::admission::InvalidTransaction;
use rbac::admission::ValidTransaction;
use rbac::permission::Permission;
use rbac::registry::Pallet;
use rbac::role::Role;

#[test]
fn super_admin_bypasses_every_resource() {
    let mut rbac = Pallet::new();
    let admin: u64 = 42;
    assert!(rbac.add_super_admin(admin).is_ok());

    let gate = Authorize;
    // No role for "ledger" was ever defined, yet the super admin passes.
    let decision = gate.validate(&rbac, admin, b"ledger".to_vec(), 7);
    assert_eq!(
        decision,
        Ok(ValidTransaction { priority: 7, longevity: u64::MAX, propagate: true })
    );
    let decision = gate.validate(&rbac, admin, b"treasury".to_vec(), 0);
    assert_eq!(
        decision,
        Ok(ValidTransaction { priority: 0, longevity: u64::MAX, propagate: true })
    );
}

#[test]
fn role_holder_is_admitted() {
    let mut rbac = Pallet::new();
    let creator: u64 = 1;
    let holder: u64 = 2;
    let name = b"ledger".to_vec();
    assert!(rbac.create_role(creator, name.clone(), Permission::Manage).is_ok());
    assert!(rbac.create_role(creator, name.clone(), Permission::Execute).is_ok());
    let role = Role { pallet: name.clone(), permission: Permission::Execute };
    assert!(rbac.assign_role(creator, holder, role).is_ok());

    let gate = Authorize;
    let decision = gate.validate(&rbac, holder, name, 11);
    assert_eq!(
        decision,
        Ok(ValidTransaction { priority: 11, longevity: u64::MAX, propagate: true })
    );
}

#[test]
fn unauthorized_call_is_denied() {
    let mut rbac = Pallet::new();
    let creator: u64 = 1;
    let stranger: u64 = 9;
    let name = b"ledger".to_vec();
    assert!(rbac.create_role(creator, name.clone(), Permission::Execute).is_ok());

    let gate = Authorize;
    let decision = gate.validate(&rbac, stranger, name, 100);
    assert_eq!(decision, Err(InvalidTransaction::Call));
}

#[test]
fn revoked_holder_is_denied() {
    let mut rbac = Pallet::new();
    let creator: u64 = 1;
    let holder: u64 = 2;
    let name = b"ledger".to_vec();
    assert!(rbac.create_role(creator, name.clone(), Permission::Manage).is_ok());
    assert!(rbac.create_role(creator, name.clone(), Permission::Execute).is_ok());
    let role = Role { pallet: name.clone(), permission: Permission::Execute };
    assert!(rbac.assign_role(creator, holder, role.clone()).is_ok());
    assert!(rbac.revoke_access(creator, holder, role).is_ok());

    let gate = Authorize;
    let decision = gate.validate(&rbac, holder, name, 3);
    assert_eq!(decision, Err(InvalidTransaction::Call));
}
