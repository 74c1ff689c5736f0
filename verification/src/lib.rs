//! Role-based access control with a verified permission registry.
//!
//! The crate keeps a catalog of roles (a resource name paired with a
//! permission kind), a store of grants from identities to roles, and a set of
//! super-admin identities.  Management operations (create a role, assign it,
//! revoke it, promote a super admin) mutate that state through verified
//! methods of [`registry::Pallet`], and the admission gate
//! [`admission::Authorize`] answers, read-only, whether a caller may reach a
//! resource.

pub mod admission;
pub mod event;
pub mod laws;
pub mod permission;
pub mod registry;
pub mod role;
