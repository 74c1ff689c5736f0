//! The closed set of permission kinds a role can carry.

use vstd::prelude::*;

verus! {

/// A permission kind.  `Execute` lets an identity invoke a resource's
/// operations; `Manage` lets it grant and revoke roles for that resource and
/// subsumes `Execute` for admission purposes.
#[derive(Clone, Copy, PartialEq, Eq, Structural, Debug)]
pub enum Permission {
    Execute,
    Manage,
}

/// The fixed byte tag `"Permission::Execute"` used in notification events.
pub open spec fn execute_label() -> Seq<u8> {
    seq![
        80u8, 101, 114, 109, 105, 115, 115, 105, 111, 110, 58, 58, 69, 120, 101, 99, 117, 116, 101,
    ]
}

/// The fixed byte tag `"Permission::Manage"` used in notification events.
pub open spec fn manage_label() -> Seq<u8> {
    seq![
        80u8, 101, 114, 109, 105, 115, 115, 105, 111, 110, 58, 58, 77, 97, 110, 97, 103, 101,
    ]
}

impl Permission {
    /// The byte tag that `as_bytes` renders for this kind.
    pub open spec fn label(self) -> Seq<u8> {
        match self {
            Permission::Execute => execute_label(),
            Permission::Manage => manage_label(),
        }
    }

    /// Renders the kind as its fixed human-readable byte tag.
    pub fn as_bytes(&self) -> (r: Vec<u8>)
        ensures
            r@ == self.label(),
    {
        match self {
            Permission::Execute => {
                let r: Vec<u8> = vec![
                    80u8, 101, 114, 109, 105, 115, 115, 105, 111, 110, 58, 58, 69, 120, 101, 99, 117, 116, 101,
                ];
                proof {
                    assert(r@ =~= execute_label());
                }
                r
            },
            Permission::Manage => {
                let r: Vec<u8> = vec![
                    80u8, 101, 114, 109, 105, 115, 115, 105, 111, 110, 58, 58, 77, 97, 110, 97, 103, 101,
                ];
                proof {
                    assert(r@ =~= manage_label());
                }
                r
            },
        }
    }
}

impl Default for Permission {
    /// The default kind is `Execute`, the weaker of the two.
    fn default() -> (r: Self)
        ensures
            r == Permission::Execute,
    {
        Permission::Execute
    }
}

} // verus!
