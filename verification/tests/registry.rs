use rbac::event::Event;
use rbac::permission::Permission;
use rbac::registry::Error;
use rbac::registry::GenesisConfig;
use rbac::registry::Pallet;
use rbac::role::Role;

const TEST_SENDER: u64 = 1;
const TEST_ASSIGN: u64 = 2;
const PALLET_NAME: &str = "rbac";

fn pallet_name() -> Vec<u8> {
    PALLET_NAME.as_bytes().to_vec()
}

#[test]
fn create_role() {
    let mut rbac = Pallet::new();
    let origin = TEST_SENDER;
    let name = pallet_name();
    let result = rbac.create_role(origin, name.clone(), Permission::Execute);

    assert!(result.is_ok());
    assert!(rbac.events().contains(&Event::RoleCreated(
        origin,
        name,
        b"Permission::Execute".to_vec(),
    )));
}

#[test]
fn assign_role_access_denied() {
    let mut rbac = Pallet::new();
    let origin = TEST_SENDER;
    let assign = TEST_ASSIGN;
    let role = Role { pallet: pallet_name(), permission: Permission::Execute };
    let result = rbac.assign_role(origin, assign, role.clone());

    assert_eq!(result, Err(Error::AccessDenied));
    // No state change: the grant is absent and nothing was emitted.
    assert!(!rbac.permissions(assign, &role));
    assert!(rbac.events().is_empty());
}

#[test]
fn assign_role_with_access() {
    let mut rbac = Pallet::new();
    let origin = TEST_SENDER;
    let assign = TEST_ASSIGN;
    let name = pallet_name();

    let result = rbac.create_role(origin, name.clone(), Permission::Manage);
    assert!(result.is_ok());

    let result = rbac.assign_role(
        origin,
        assign,
        Role { pallet: name.clone(), permission: Permission::Execute },
    );
    assert!(result.is_ok());
    assert!(rbac.events().contains(&Event::AccessGranted(assign, name)));
}

#[test]
fn revoke_access_error() {
    let mut rbac = Pallet::new();
    let origin = TEST_SENDER;
    let assign = TEST_ASSIGN;
    let name = pallet_name();
    let result = rbac.revoke_access(
        origin,
        assign,
        Role { pallet: name, permission: Permission::Execute },
    );

    assert_eq!(result, Err(Error::AccessDenied));
    assert!(rbac.events().is_empty());
}

#[test]
fn revoke_access_ok() {
    let mut rbac = Pallet::new();
    let origin = TEST_SENDER;
    let assign = TEST_ASSIGN;
    let name = pallet_name();

    let result = rbac.create_role(origin, name.clone(), Permission::Manage);
    assert!(result.is_ok());

    let result = rbac.revoke_access(
        origin,
        assign,
        Role { pallet: name.clone(), permission: Permission::Execute },
    );
    assert!(result.is_ok());
    assert!(rbac.events().contains(&Event::AccessRevoked(assign, name)));
}

#[test]
fn create_role_twice_is_duplicate() {
    let mut rbac = Pallet::new();
    let name = b"ledger".to_vec();

    let first = rbac.create_role(TEST_SENDER, name.clone(), Permission::Execute);
    assert_eq!(first, Ok(()));
    assert_eq!(rbac.roles().len(), 1);

    let second = rbac.create_role(TEST_SENDER, name.clone(), Permission::Execute);
    assert_eq!(second, Err(Error::RoleExisted));
    // Catalog length unchanged, and only one RoleCreated event was emitted.
    assert_eq!(rbac.roles().len(), 1);
    let created: Vec<&Event> = rbac
        .events()
        .iter()
        .filter(|e| matches!(e, Event::RoleCreated(_, _, _)))
        .collect();
    assert_eq!(created.len(), 1);
}

#[test]
fn create_role_grants_creator() {
    let mut rbac = Pallet::new();
    let name = b"ledger".to_vec();

    let result = rbac.create_role(TEST_SENDER, name.clone(), Permission::Execute);
    assert!(result.is_ok());
    // Self-grant: the creator passes the access check immediately.
    assert!(rbac.verify_access(TEST_SENDER, name));
}

#[test]
fn manage_grant_implies_execute_access() {
    let mut rbac = Pallet::new();
    let name = b"ledger".to_vec();
    let holder: u64 = 5;

    assert!(rbac.create_role(TEST_SENDER, name.clone(), Permission::Manage).is_ok());
    let manage_role = Role { pallet: name.clone(), permission: Permission::Manage };
    assert!(rbac.assign_role(TEST_SENDER, holder, manage_role).is_ok());

    // Only a Manage grant exists for `holder`, yet access is granted.
    let execute_role = Role { pallet: name.clone(), permission: Permission::Execute };
    assert!(!rbac.permissions(holder, &execute_role));
    assert!(rbac.verify_access(holder, name));
}

#[test]
fn grant_then_revoke_round_trip() {
    let mut rbac = Pallet::new();
    let name = b"ledger".to_vec();

    assert!(rbac.create_role(TEST_SENDER, name.clone(), Permission::Manage).is_ok());
    // Define the Execute role too, so that B's grant covers a catalog role.
    assert!(rbac.create_role(TEST_SENDER, name.clone(), Permission::Execute).is_ok());
    let role = Role { pallet: name.clone(), permission: Permission::Execute };
    assert!(rbac.assign_role(TEST_SENDER, TEST_ASSIGN, role.clone()).is_ok());
    assert!(rbac.verify_access(TEST_ASSIGN, name.clone()));

    assert!(rbac.revoke_access(TEST_SENDER, TEST_ASSIGN, role.clone()).is_ok());
    assert!(!rbac.permissions(TEST_ASSIGN, &role));
    assert!(!rbac.verify_access(TEST_ASSIGN, name));
}

#[test]
fn grant_then_deny_scenario() {
    let mut rbac = Pallet::new();
    let name = b"ledger".to_vec();
    let a: u64 = 1;
    let b: u64 = 2;
    let c: u64 = 3;

    // A creates {"ledger", Manage} and becomes its holder.
    assert_eq!(rbac.create_role(a, name.clone(), Permission::Manage), Ok(()));
    let manage_role = Role { pallet: name.clone(), permission: Permission::Manage };
    assert!(rbac.permissions(a, &manage_role));

    // A assigns {"ledger", Execute} to B.
    let execute_role = Role { pallet: name.clone(), permission: Permission::Execute };
    assert_eq!(rbac.assign_role(a, b, execute_role.clone()), Ok(()));
    assert!(rbac.events().contains(&Event::AccessGranted(b, name.clone())));
    // The Execute role itself was never defined in the catalog, so the
    // grant dangles and does not authorize B yet.
    assert!(!rbac.verify_access(b, name.clone()));
    // Once A defines the Execute role as well, B's grant takes effect.
    assert_eq!(rbac.create_role(a, name.clone(), Permission::Execute), Ok(()));
    assert!(rbac.verify_access(b, name.clone()));

    // C holds no grants: the same assignment is denied.
    assert_eq!(rbac.assign_role(c, b, execute_role), Err(Error::AccessDenied));
}

#[test]
fn add_super_admin_records_and_notifies() {
    let mut rbac = Pallet::new();
    let admin: u64 = 42;

    assert!(!rbac.super_admins(admin));
    assert_eq!(rbac.add_super_admin(admin), Ok(()));
    assert!(rbac.super_admins(admin));
    assert!(rbac.events().contains(&Event::SuperAdminAdded(admin)));
}

#[test]
fn genesis_build_populates_state() {
    let config = GenesisConfig {
        super_admins: vec![9, 10],
        permissions: vec![
            (Role { pallet: b"ledger".to_vec(), permission: Permission::Manage }, vec![1]),
            (Role { pallet: b"ledger".to_vec(), permission: Permission::Execute }, vec![2, 3]),
        ],
    };
    let rbac = config.build().expect("distinct roles must build");

    assert!(rbac.super_admins(9));
    assert!(rbac.super_admins(10));
    assert!(!rbac.super_admins(1));
    assert_eq!(rbac.roles().len(), 2);
    assert!(rbac.verify_access(1, b"ledger".to_vec()));
    assert!(rbac.verify_access(2, b"ledger".to_vec()));
    assert!(rbac.verify_access(3, b"ledger".to_vec()));
    assert!(!rbac.verify_access(4, b"ledger".to_vec()));
    // Bootstrap emits no events.
    assert!(rbac.events().is_empty());
}

#[test]
fn genesis_build_rejects_duplicate_roles() {
    let config = GenesisConfig {
        super_admins: vec![],
        permissions: vec![
            (Role { pallet: b"ledger".to_vec(), permission: Permission::Execute }, vec![1]),
            (Role { pallet: b"ledger".to_vec(), permission: Permission::Execute }, vec![2]),
        ],
    };
    assert!(config.build().is_none());
}

#[test]
fn genesis_default_is_empty() {
    let config = GenesisConfig::default();
    assert!(config.super_admins.is_empty());
    assert!(config.permissions.is_empty());
}

#[test]
fn permission_labels_are_fixed() {
    assert_eq!(Permission::Execute.as_bytes(), b"Permission::Execute".to_vec());
    assert_eq!(Permission::Manage.as_bytes(), b"Permission::Manage".to_vec());
    assert_eq!(Permission::default(), Permission::Execute);
}

#[test]
fn dangling_grant_does_not_authorize() {
    let mut rbac = Pallet::new();
    let name = b"ledger".to_vec();

    // B is granted a role value that was never defined in the catalog:
    // the grant is stored as passed, but access still requires a defined role.
    assert!(rbac.create_role(TEST_SENDER, name.clone(), Permission::Manage).is_ok());
    let other = Role { pallet: b"treasury".to_vec(), permission: Permission::Execute };
    assert_eq!(rbac.assign_role(TEST_SENDER, TEST_ASSIGN, other.clone()), Err(Error::AccessDenied));

    // A manager of "ledger" may hand out any role value for "ledger".
    let undefined = Role { pallet: name.clone(), permission: Permission::Execute };
    let mut with_manage = Pallet::new();
    assert!(with_manage.create_role(TEST_SENDER, name.clone(), Permission::Manage).is_ok());
    assert!(with_manage.assign_role(TEST_SENDER, TEST_ASSIGN, undefined.clone()).is_ok());
    assert!(with_manage.permissions(TEST_ASSIGN, &undefined));
    // The grant dangles: its Execute role is not in the catalog, so the
    // access check still answers false.
    assert!(!with_manage.verify_access(TEST_ASSIGN, name));
}
