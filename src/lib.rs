//! Change-data-capture for a stream of upstream event documents.
//!
//! Raw documents are turned into their stored form, compared with the live copy under a fixed
//! mask of volatile keys, and stored: a new document is inserted, a meaningful change archives
//! the superseded body as an immutable version, and either emits a notification. A cursor per
//! source tracks how far polling has committed.
use vstd::prelude::*;

pub mod canonical;
pub mod detect;
pub mod document;
pub mod external;
pub mod history;
pub mod json;
pub mod library;
pub mod poller;
pub mod store;
pub mod text;

pub use document::{Document, Malformation};
pub use json::JsonValue;
pub use poller::{Cursor, PageRequest, PollError, PollEvent};
pub use store::{BatchReport, Notification, Outcome, Store, VersionRecord};

verus! {

} // verus!
