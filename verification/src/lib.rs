//! A registry of tagged constructors, and the dispatcher that picks one for
//! a tagged document.
//!
//! Implementations of a capability are told apart by a tag. Each is
//! registered with a constructor; the registrations are built into a
//! [`registry::Registry`], which holds for every tag its one constructor or
//! the mark of a duplicate. The dispatcher reads the tag of a document, looks
//! it up, and hands the rest of the document to the constructor found.
//!
//! - [`value`]: the documents, as trees of plain values.
//! - [`order`]: the order in which tags are listed.
//! - [`registry`]: registrations and the registry built from them.
//! - [`dispatch`]: the choice of a constructor and the call of it.
//! - [`error`]: why no value came of a document, and the text that says so.
//! - [`capability`]: a capability and one implementation of it.

pub mod capability;
pub mod dispatch;
pub mod error;
mod once;
pub mod order;
pub mod registry;
pub mod value;
