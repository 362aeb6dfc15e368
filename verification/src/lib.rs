//! Reusable groups of record fields.
//!
//! A record definition is registered once under a name, and its fields are
//! later spliced into other record definitions that ask for it by that name.
//! Fields that the receiving record declares itself always win over reused
//! fields of the same name.

pub mod compose;
pub mod laws;
pub mod record;
pub mod store;
pub mod syntax;

pub use compose::{
    compose, compose_found, definition, entry_for, lookup_all, register, registration,
    requested_keys, reusable, reuse, reuse_found, ComposeError, Lookup, ReuseError,
};
pub use record::{append_surviving, has_field, merge, Field, FieldKind, RecordDefinition};
pub use store::{Registry, StoreEntry, StoreError};
