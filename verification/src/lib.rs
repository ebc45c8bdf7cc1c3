//! A small multi-user project tracker: users register and log in through a
//! signed session cookie, own projects, and may edit or delete only the
//! projects they own.
//!
//! The crate is organised around an in-memory [`store::Store`] that models the
//! two persisted tables (`user` and `project`) together with their invariants:
//! unique identifiers, unique emails, and every project owned by an existing
//! user. Password hashing is delegated to the bcrypt crate behind a narrow
//! trusted boundary in [`passwords`]; everything else is verified.

pub mod cookie;
pub mod passwords;
pub mod serialise;
pub mod store;
