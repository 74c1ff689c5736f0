use rbac::permission::Permission;
use rbac::role::bytes_eq;
use rbac::role::clone_bytes;
use rbac::role::role_eq;
use rbac::role::Role;

#[test]
fn byte_vectors_compare_by_contents() {
    let a = b"ledger".to_vec();
    let b = b"ledger".to_vec();
    let c = b"treasury".to_vec();
    assert!(bytes_eq(&a, &b));
    assert!(!bytes_eq(&a, &c));
    assert!(bytes_eq(&clone_bytes(&c), &c));
}

#[test]
fn roles_compare_structurally() {
    let a = Role { pallet: b"ledger".to_vec(), permission: Permission::Execute };
    let b = Role { pallet: b"ledger".to_vec(), permission: Permission::Execute };
    let c = Role { pallet: b"ledger".to_vec(), permission: Permission::Manage };
    let d = Role { pallet: b"treasury".to_vec(), permission: Permission::Execute };
    assert!(role_eq(&a, &b));
    assert!(!role_eq(&a, &c));
    assert!(!role_eq(&a, &d));
    assert!(role_eq(&a, &a.clone()));
}
