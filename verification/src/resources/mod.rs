//! Bounded host resources for custom WIT-shaped imports.
//!
//! This table owns host values and validates guest-supplied `i32` handles.
//! It is deliberately separate from the component model's canonical handle
//! table: a future component linker will validate `own`/`borrow` transfers and
//! map them to these host values. Rust borrows protect synchronous lookups
//! today; cross-call and async borrow scopes are not implemented here.
//!
//! `model` says what a table is, `laws` what follows for its users over any
//! sequence of operations, `calls` how what goes into the table's functions and
//! comes out of them relates, `layout` how a handle word is packed.

pub mod calls;
pub mod error;
mod ids;
pub mod laws;
pub mod layout;
mod ledger;
pub mod model;
mod storage;
mod table;

pub use error::ResourceError;
pub use ids::{ResourceHandle, ResourceType};
pub use table::ResourceTable;
