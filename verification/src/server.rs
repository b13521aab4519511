//! The embedded GraphQL server plugin's own state: the port it was given,
//! its plugin name, and the page bootstrap script; and the built-in
//! local-folder sources registered at start-up.
//!
//! Picking a free port, spawning the server and the runtime wiring are the
//! embedder's work; this module holds what can be computed from the port
//! and the configured folders alone.

use crate::LOCAL_SOURCE_BASE_ID;
use crate::numfmt::{dec_digits, u64_to_dec};
use crate::source_info::{SourceEntry, SourceInfo, SourceKind};
use vstd::prelude::*;

verus! {

/// The embedded server plugin: it remembers the (embedder-picked) port and
/// announces it to the hosted page.
pub struct Server {
    port: u16,
}

/// The bootstrap script the hosted page is handed: it tells the page which
/// local port the server listens on.
pub open spec fn init_script_chars(port: u16) -> Seq<char> {
    "window.__TANOSHI_PORT__ = "@ + dec_digits(port as nat) + ";"@
}

impl Server {
    /// The port this server was created with.
    pub closed spec fn spec_port(&self) -> u16 {
        self.port
    }

    /// A server on the given (already picked) free port.
    pub fn new(port: u16) -> (r: Server)
        ensures
            r.spec_port() == port,
    {
        Server { port }
    }

    pub fn port(&self) -> (r: u16)
        ensures
            r == self.spec_port(),
    {
        self.port
    }

    /// The plugin's registration name.
    pub fn name(&self) -> (r: &'static str)
        ensures
            r@ == "graphql"@,
    {
        "graphql"
    }

    /// The script injected into the hosted page before it loads.
    pub fn initialization_script(&self) -> (r: Option<String>)
        ensures
            r matches Some(s) && s@ == init_script_chars(self.spec_port()),
    {
        let mut s = "window.__TANOSHI_PORT__ = ".to_owned();
        s.append(u64_to_dec(self.port as u64).as_str());
        s.append(";");
        proof {
            assert(s@ =~= init_script_chars(self.spec_port()));
        }
        Some(s)
    }
}

/// The built-in local-folder sources configured at start-up: one per
/// folder, named after it, with ids counting up from
/// [`LOCAL_SOURCE_BASE_ID`]; each starts with no preferences, no filter
/// schema, and no login.
pub fn local_source_entries(folders: &Vec<String>) -> (r: Vec<SourceEntry>)
    requires
        folders@.len() <= i64::MAX - LOCAL_SOURCE_BASE_ID,
    ensures
        r@.len() == folders@.len(),
        forall|i: int|
            0 <= i < r@.len() ==> {
                let e = (#[trigger] r@[i])@;
                &&& e.info.id == LOCAL_SOURCE_BASE_ID + i
                &&& e.info.name == folders@[i]@
                &&& e.info.url == Seq::<char>::empty()
                &&& e.info.version == "1.0.0"@
                &&& e.info.icon == Seq::<char>::empty()
                &&& e.info.need_login == false
                &&& e.preferences.len() == 0
                &&& e.filters is None
                &&& e.kind == SourceKind::BuiltIn
            },
{
    let n = folders.len();
    let mut r: Vec<SourceEntry> = Vec::new();
    let mut i: usize = 0;
    while i < n
        invariant
            i <= n,
            n == folders@.len(),
            n <= i64::MAX - LOCAL_SOURCE_BASE_ID,
            r@.len() == i,
            forall|j: int|
                0 <= j < i ==> {
                    let e = (#[trigger] r@[j])@;
                    &&& e.info.id == LOCAL_SOURCE_BASE_ID + j
                    &&& e.info.name == folders@[j]@
                    &&& e.info.url == Seq::<char>::empty()
                    &&& e.info.version == "1.0.0"@
                    &&& e.info.icon == Seq::<char>::empty()
                    &&& e.info.need_login == false
                    &&& e.preferences.len() == 0
                    &&& e.filters is None
                    &&& e.kind == SourceKind::BuiltIn
                },
        decreases n - i,
    {
        let entry = SourceEntry {
            info: SourceInfo {
                id: LOCAL_SOURCE_BASE_ID + (i as i64),
                name: folders[i].clone(),
                url: String::new(),
                version: "1.0.0".to_owned(),
                icon: String::new(),
                need_login: false,
            },
            preferences: Vec::new(),
            filters: None,
            kind: SourceKind::BuiltIn,
        };
        r.push(entry);
        i += 1;
    }
    r
}

} // verus!
