//! A verified core for a plugin-hosting runtime: an in-memory registry of
//! content "sources" (script-backed or built-in plugins), a model of the
//! plugin directory they are persisted in, and the serial command protocol
//! through which a multi-threaded server drives them.
//!
//! All filesystem access and the embedded script engine live outside this
//! crate; the functions here take the outcomes of those effects as plain
//! values and are verified for every such outcome.

pub mod actor;
pub mod catalogue;
pub mod error;
pub mod input;
pub mod manager;
pub mod numfmt;
pub mod prefs;
pub mod registry;
pub mod server;
pub mod source_info;
pub mod store;
pub mod strutil;
pub mod version;

use vstd::prelude::*;

verus! {

/// Smallest id handed to built-in (local folder) sources at start-up.
pub const LOCAL_SOURCE_BASE_ID: i64 = 10000;

} // verus!
