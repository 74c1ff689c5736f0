//! Roles: a resource name paired with a permission kind.

use vstd::prelude::*;

use crate::permission::Permission;

verus! {

/// An opaque caller identity.  Nothing is assumed of it beyond equality and
/// use as a key.
pub type AccountId = u64;

/// The mathematical value of a [`Role`]: the resource name as a byte
/// sequence, and the permission kind.
#[verifier::ext_equal]
pub struct RoleSpec {
    pub pallet: Seq<u8>,
    pub permission: Permission,
}

/// Builds the role value for a resource and a permission kind.
pub open spec fn role_spec(pallet: Seq<u8>, permission: Permission) -> RoleSpec {
    RoleSpec { pallet, permission }
}

/// A role: the unit of catalog definition.  Two roles with the same resource
/// name and permission kind are the same role; a role is immutable once
/// created.
#[derive(PartialEq, Eq, Debug)]
pub struct Role {
    pub pallet: Vec<u8>,
    pub permission: Permission,
}

impl View for Role {
    type V = RoleSpec;

    open spec fn view(&self) -> RoleSpec {
        RoleSpec { pallet: self.pallet@, permission: self.permission }
    }
}

impl Clone for Role {
    fn clone(&self) -> (r: Self)
        ensures
            r@ == self@,
    {
        let r = Role { pallet: clone_bytes(&self.pallet), permission: self.permission };
        proof {
            assert(r@ =~= self@);
        }
        r
    }
}

/// Copies a byte vector, element by element.
pub fn clone_bytes(v: &Vec<u8>) -> (r: Vec<u8>)
    ensures
        r@ == v@,
{
    let mut r: Vec<u8> = Vec::new();
    let mut i: usize = 0;
    while i < v.len()
        invariant
            i <= v@.len(),
            r@ == v@.subrange(0, i as int),
        decreases v@.len() - i,
    {
        r.push(v[i]);
        proof {
            assert(r@ =~= v@.subrange(0, i as int + 1));
        }
        i += 1;
    }
    proof {
        assert(r@ =~= v@);
    }
    r
}

/// Compares two byte vectors by contents.
pub fn bytes_eq(a: &Vec<u8>, b: &Vec<u8>) -> (r: bool)
    ensures
        r == (a@ == b@),
{
    if a.len() != b.len() {
        return false;
    }
    let mut i: usize = 0;
    while i < a.len()
        invariant
            i <= a@.len(),
            a@.len() == b@.len(),
            forall|j: int| 0 <= j < i ==> a@[j] == b@[j],
        decreases a@.len() - i,
    {
        if a[i] != b[i] {
            return false;
        }
        i += 1;
    }
    proof {
        assert(a@ =~= b@);
    }
    true
}

/// Compares two roles by full structural equality: same resource name and
/// same permission kind.
pub fn role_eq(a: &Role, b: &Role) -> (r: bool)
    ensures
        r == (a@ == b@),
{
    let r = bytes_eq(&a.pallet, &b.pallet) && a.permission == b.permission;
    proof {
        if a.pallet@ == b.pallet@ && a.permission == b.permission {
            assert(a@ =~= b@);
        }
    }
    r
}

} // verus!
