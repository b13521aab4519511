//! The source manager: the extension registry together with a model of the
//! plugin directory, and every lifecycle operation on them.
//!
//! Filesystem writes and the script engine run outside this crate; each
//! operation takes their outcomes (`write_ok`, `delete_ok`, a
//! [`LoadVerdict`]) as plain arguments and is verified for every outcome.
//! Each operation's contract is stated through one spec-level transition
//! function, so the serial command protocol can be proved over the same
//! functions.

use crate::error::SourceError;
use crate::input::{Input, InputV, inputs_view};
use crate::prefs::{
    bounded_inputs, decode_inputs, decode_spec, encode_inputs, inputs_chars, lemma_decode_of_encode,
};
use crate::registry::Registry;
use crate::source_info::{
    EntryV, Filters, FiltersV, LoadVerdict, SourceEntry, SourceInfo, SourceInfoV, SourceKind,
};
use crate::store::FileStore;
use vstd::prelude::*;

verus! {

/// The view of an optional filter schema.
pub open spec fn opt_filters_view(o: Option<Filters>) -> Option<FiltersV> {
    match o {
        Some(f) => Some(f@),
        None => None,
    }
}

/// The view of a metadata reply.
pub open spec fn info_result_view(r: Result<SourceInfo, SourceError>) -> Result<
    SourceInfoV,
    SourceError,
> {
    match r {
        Ok(i) => Ok(i@),
        Err(e) => Err(e),
    }
}

/// The view of an instance reply.
pub open spec fn entry_result_view(r: Result<SourceEntry, SourceError>) -> Result<
    EntryV,
    SourceError,
> {
    match r {
        Ok(e) => Ok(e@),
        Err(e) => Err(e),
    }
}

/// The mathematical state of a [`SourceManager`]: the registry and the two
/// kinds of files in the plugin directory.
pub struct ManagerV {
    pub sources: Map<int, EntryV>,
    pub scripts: Map<Seq<char>, Seq<u8>>,
    pub prefs: Map<Seq<char>, Seq<char>>,
}

/// The preference values a freshly loaded instance ends up with: the decoded
/// preference file when it is present and well-formed, the instance's own
/// defaults otherwise (a missing file is tolerated, and so is a malformed
/// one — an explicit choice, stated here rather than buried).
pub open spec fn applied_preferences(
    prefs: Map<Seq<char>, Seq<char>>,
    name: Seq<char>,
    defaults: Seq<InputV>,
) -> Seq<InputV> {
    if prefs.dom().contains(name) {
        match decode_spec(prefs[name]) {
            Some(es) => es,
            None => defaults,
        }
    } else {
        defaults
    }
}

/// The registry entry a successful load constructs.
pub open spec fn loaded_entry_v(
    prefs: Map<Seq<char>, Seq<char>>,
    info: SourceInfoV,
    defaults: Seq<InputV>,
    filters: Option<FiltersV>,
) -> EntryV {
    EntryV {
        info,
        preferences: applied_preferences(prefs, info.name, defaults),
        filters,
        kind: SourceKind::Script,
    }
}

// ---------------------------------------------------------------------------
// The lifecycle operations as transitions on `ManagerV`.
// ---------------------------------------------------------------------------
/// What `load` replies and the state it leaves.
pub open spec fn spec_load(mv: ManagerV, name: Seq<char>, verdict: LoadVerdict) -> (
    ManagerV,
    Result<SourceInfoV, SourceError>,
) {
    if !mv.scripts.dom().contains(name) {
        (mv, Err(SourceError::NotFound))
    } else {
        match verdict {
            LoadVerdict::Rejected => (mv, Err(SourceError::LoadError)),
            LoadVerdict::Accepted { info, defaults, filters } => (
                ManagerV {
                    sources: mv.sources.insert(
                        info.id as int,
                        loaded_entry_v(
                            mv.prefs,
                            info@,
                            inputs_view(defaults@),
                            opt_filters_view(filters),
                        ),
                    ),
                    scripts: mv.scripts,
                    prefs: mv.prefs,
                },
                Ok(info@),
            ),
        }
    }
}

/// What `install` replies and the state it leaves: the script file is
/// written first, then the load runs against the new directory contents —
/// so a rejected script still leaves the file overwritten.
pub open spec fn spec_install(
    mv: ManagerV,
    name: Seq<char>,
    bytes: Seq<u8>,
    write_ok: bool,
    verdict: LoadVerdict,
) -> (ManagerV, Result<SourceInfoV, SourceError>) {
    if !write_ok {
        (mv, Err(SourceError::IoError))
    } else {
        let written = ManagerV {
            sources: mv.sources,
            scripts: mv.scripts.insert(name, bytes),
            prefs: mv.prefs,
        };
        spec_load(written, name, verdict)
    }
}

/// What `insert` leaves: a silent overwrite, used for built-in sources.
pub open spec fn spec_insert(mv: ManagerV, entry: EntryV) -> ManagerV {
    ManagerV {
        sources: mv.sources.insert(entry.info.id, entry),
        scripts: mv.scripts,
        prefs: mv.prefs,
    }
}

/// What `unload` replies and the state it leaves.
pub open spec fn spec_unload(mv: ManagerV, id: int) -> (ManagerV, Result<EntryV, SourceError>) {
    if mv.sources.dom().contains(id) {
        (
            ManagerV { sources: mv.sources.remove(id), scripts: mv.scripts, prefs: mv.prefs },
            Ok(mv.sources[id]),
        )
    } else {
        (mv, Err(SourceError::NotFound))
    }
}

/// What `remove` replies and the state it leaves: the instance is unloaded
/// first; a failing file delete is reported but **not** rolled back, so the
/// instance stays unloaded even though the script file remains.
pub open spec fn spec_remove(mv: ManagerV, id: int, delete_ok: bool) -> (
    ManagerV,
    Result<(), SourceError>,
) {
    if !mv.sources.dom().contains(id) {
        (mv, Err(SourceError::NotFound))
    } else {
        let name = mv.sources[id].info.name;
        if delete_ok {
            (
                ManagerV {
                    sources: mv.sources.remove(id),
                    scripts: mv.scripts.remove(name),
                    prefs: mv.prefs,
                },
                Ok(()),
            )
        } else {
            (
                ManagerV { sources: mv.sources.remove(id), scripts: mv.scripts, prefs: mv.prefs },
                Err(SourceError::IoError),
            )
        }
    }
}

/// What `set_preferences` replies and the state it leaves: the preference
/// file is written before the live instance is updated, so a write failure
/// leaves the instance untouched.
pub open spec fn spec_set_preferences(
    mv: ManagerV,
    id: int,
    entries: Seq<InputV>,
    write_ok: bool,
) -> (ManagerV, Result<(), SourceError>) {
    if !mv.sources.dom().contains(id) {
        (mv, Err(SourceError::NotFound))
    } else if !write_ok {
        (mv, Err(SourceError::IoError))
    } else {
        let e = mv.sources[id];
        let updated = EntryV {
            info: e.info,
            preferences: entries,
            filters: e.filters,
            kind: e.kind,
        };
        (
            ManagerV {
                sources: mv.sources.insert(id, updated),
                scripts: mv.scripts,
                prefs: mv.prefs.insert(e.info.name, inputs_chars(entries)),
            },
            Ok(()),
        )
    }
}

/// The map a list of named files folds to, later entries winning.
pub open spec fn files_map<V: View>(l: Seq<(String, V)>) -> Map<Seq<char>, <V as View>::V>
    decreases l.len(),
{
    if l.len() == 0 {
        Map::empty()
    } else {
        files_map(l.drop_last()).insert(l.last().0@, l.last().1@)
    }
}

/// The extension registry, the model of the plugin directory it is backed
/// by, and the lifecycle operations over both.
pub struct SourceManager {
    registry: Registry,
    scripts: FileStore<Vec<u8>>,
    pref_files: FileStore<String>,
}

impl View for SourceManager {
    type V = ManagerV;

    closed spec fn view(&self) -> ManagerV {
        ManagerV { sources: self.registry@, scripts: self.scripts@, prefs: self.pref_files@ }
    }
}

impl SourceManager {
    /// Well-formedness: each backing store keeps its keys unique.
    pub closed spec fn wf(&self) -> bool {
        self.registry.wf() && self.scripts.wf() && self.pref_files.wf()
    }

    /// A manager over the given plugin-directory contents (the script files
    /// and preference files the embedder found on disk), with nothing
    /// loaded yet.
    pub fn new(scripts: Vec<(String, Vec<u8>)>, pref_files: Vec<(String, String)>) -> (r:
        SourceManager)
        ensures
            r.wf(),
            r@.sources == Map::<int, EntryV>::empty(),
            r@.scripts == files_map(scripts@),
            r@.prefs == files_map(pref_files@),
    {
        let ghost script_seq = scripts@;
        let ghost pref_seq = pref_files@;
        let mut script_store = FileStore::<Vec<u8>>::empty();
        let mut rest = scripts;
        proof {
            assert(script_seq.subrange(0, 0) =~= Seq::<(String, Vec<u8>)>::empty());
            assert(rest@ =~= script_seq.subrange(0, script_seq.len() as int));
        }
        while rest.len() > 0
            invariant
                script_store.wf(),
                rest@.len() <= script_seq.len(),
                rest@ == script_seq.subrange(
                    script_seq.len() - rest@.len(),
                    script_seq.len() as int,
                ),
                script_store@ == files_map(
                    script_seq.subrange(0, script_seq.len() - rest@.len()),
                ),
            decreases rest@.len(),
        {
            let ghost k = script_seq.len() - rest@.len();
            let (name, data) = rest.remove(0);
            proof {
                assert(name == script_seq[k as int].0 && data == script_seq[k as int].1);
                let done = script_seq.subrange(0, k + 1);
                assert(done.drop_last() =~= script_seq.subrange(0, k as int));
                assert(done.last() == script_seq[k as int]);
                assert(rest@ =~= script_seq.subrange(k + 1, script_seq.len() as int));
            }
            script_store.put(name, data);
        }
        proof {
            assert(script_seq.subrange(0, script_seq.len() as int) =~= script_seq);
        }
        let mut pref_store = FileStore::<String>::empty();
        let mut prest = pref_files;
        proof {
            assert(pref_seq.subrange(0, 0) =~= Seq::<(String, String)>::empty());
            assert(prest@ =~= pref_seq.subrange(0, pref_seq.len() as int));
        }
        while prest.len() > 0
            invariant
                pref_store.wf(),
                prest@.len() <= pref_seq.len(),
                prest@ == pref_seq.subrange(pref_seq.len() - prest@.len(), pref_seq.len() as int),
                pref_store@ == files_map(pref_seq.subrange(0, pref_seq.len() - prest@.len())),
            decreases prest@.len(),
        {
            let ghost k = pref_seq.len() - prest@.len();
            let (name, text) = prest.remove(0);
            proof {
                assert(name == pref_seq[k as int].0 && text == pref_seq[k as int].1);
                let done = pref_seq.subrange(0, k + 1);
                assert(done.drop_last() =~= pref_seq.subrange(0, k as int));
                assert(done.last() == pref_seq[k as int]);
                assert(prest@ =~= pref_seq.subrange(k + 1, pref_seq.len() as int));
            }
            pref_store.put(name, text);
        }
        proof {
            assert(pref_seq.subrange(0, pref_seq.len() as int) =~= pref_seq);
        }
        SourceManager { registry: Registry::empty(), scripts: script_store, pref_files: pref_store }
    }

    /// Loads the script named `name` from the plugin directory; `verdict` is
    /// what the script engine said about that script's contents.
    ///
    /// Fails with `NotFound` when the script file is absent (whatever the
    /// verdict), `LoadError` when the engine rejected the script; otherwise
    /// the new instance is registered under its own id, with any persisted
    /// preferences applied over its defaults.
    pub fn load(&mut self, name: &str, verdict: LoadVerdict) -> (r: Result<SourceInfo, SourceError>)
        requires
            old(self).wf(),
        ensures
            final(self).wf(),
            final(self)@ == spec_load(old(self)@, name@, verdict).0,
            info_result_view(r) == spec_load(old(self)@, name@, verdict).1,
    {
        if !self.scripts.contains(name) {
            return Err(SourceError::NotFound);
        }
        match verdict {
            LoadVerdict::Rejected => Err(SourceError::LoadError),
            LoadVerdict::Accepted { info, defaults, filters } => {
                let applied: Vec<Input> = match self.pref_files.get(info.name.as_str()) {
                    Some(text) => match decode_inputs(text.as_str()) {
                        Some(es) => es,
                        None => defaults,
                    },
                    None => defaults,
                };
                let snap = info.snapshot();
                let entry = SourceEntry {
                    info,
                    preferences: applied,
                    filters,
                    kind: SourceKind::Script,
                };
                self.registry.put(entry);
                Ok(snap)
            },
        }
    }

    /// Persists `bytes` as the script file for `name` (the embedder reports
    /// the write's success in `write_ok`), then loads it.
    pub fn install(
        &mut self,
        name: &str,
        bytes: Vec<u8>,
        write_ok: bool,
        verdict: LoadVerdict,
    ) -> (r: Result<SourceInfo, SourceError>)
        requires
            old(self).wf(),
        ensures
            final(self).wf(),
            final(self)@ == spec_install(old(self)@, name@, bytes@, write_ok, verdict).0,
            info_result_view(r) == spec_install(old(self)@, name@, bytes@, write_ok, verdict).1,
    {
        if !write_ok {
            return Err(SourceError::IoError);
        }
        self.scripts.put(name.to_owned(), bytes);
        self.load(name, verdict)
    }

    /// Registers a pre-built (e.g. built-in) instance under its own id,
    /// silently overwriting any instance already registered there.
    pub fn insert(&mut self, entry: SourceEntry) -> (r: Result<(), SourceError>)
        requires
            old(self).wf(),
        ensures
            final(self).wf(),
            final(self)@ == spec_insert(old(self)@, entry@),
            r is Ok,
    {
        self.registry.put(entry);
        Ok(())
    }

    /// Removes and returns the instance registered under `id`.
    pub fn unload(&mut self, id: i64) -> (r: Result<SourceEntry, SourceError>)
        requires
            old(self).wf(),
        ensures
            final(self).wf(),
            final(self)@ == spec_unload(old(self)@, id as int).0,
            entry_result_view(r) == spec_unload(old(self)@, id as int).1,
    {
        match self.registry.take(id) {
            Some(e) => Ok(e),
            None => Err(SourceError::NotFound),
        }
    }

    /// Unloads `id` and deletes its backing script file (the embedder
    /// reports the delete's success in `delete_ok`). A failed delete is
    /// reported but the unload stands.
    pub fn remove(&mut self, id: i64, delete_ok: bool) -> (r: Result<(), SourceError>)
        requires
            old(self).wf(),
        ensures
            final(self).wf(),
            final(self)@ == spec_remove(old(self)@, id as int, delete_ok).0,
            r == spec_remove(old(self)@, id as int, delete_ok).1,
    {
        match self.registry.take(id) {
            None => Err(SourceError::NotFound),
            Some(e) => {
                if delete_ok {
                    let _ = self.scripts.delete(e.info.name.as_str());
                    Ok(())
                } else {
                    Err(SourceError::IoError)
                }
            },
        }
    }

    /// A shared reference to the instance registered under `id`.
    pub fn get(&self, id: i64) -> (r: Result<&SourceEntry, SourceError>)
        requires
            self.wf(),
        ensures
            match r {
                Ok(e) => self@.sources.dom().contains(id as int) && e@ == self@.sources[id as int],
                Err(err) => err == SourceError::NotFound && !self@.sources.dom().contains(
                    id as int,
                ),
            },
    {
        match self.registry.lookup(id) {
            Some(e) => Ok(e),
            None => Err(SourceError::NotFound),
        }
    }

    /// The metadata snapshot of the instance registered under `id`.
    pub fn detail(&self, id: i64) -> (r: Result<SourceInfo, SourceError>)
        requires
            self.wf(),
        ensures
            match r {
                Ok(i) => self@.sources.dom().contains(id as int) && i@ == self@.sources[id as int].info,
                Err(err) => err == SourceError::NotFound && !self@.sources.dom().contains(
                    id as int,
                ),
            },
    {
        match self.registry.lookup(id) {
            Some(e) => Ok(e.info.snapshot()),
            None => Err(SourceError::NotFound),
        }
    }

    /// Whether an instance is registered under `id`.
    pub fn exist(&self, id: i64) -> (r: bool)
        requires
            self.wf(),
        ensures
            r == self@.sources.dom().contains(id as int),
    {
        self.registry.contains(id)
    }

    /// The filter schema of the instance registered under `id`.
    pub fn filters(&self, id: i64) -> (r: Result<Option<Filters>, SourceError>)
        requires
            self.wf(),
        ensures
            match r {
                Ok(f) => self@.sources.dom().contains(id as int) && opt_filters_view(f)
                    == self@.sources[id as int].filters,
                Err(err) => err == SourceError::NotFound && !self@.sources.dom().contains(
                    id as int,
                ),
            },
    {
        match self.registry.lookup(id) {
            Some(e) => match &e.filters {
                Some(f) => Ok(Some(f.snapshot())),
                None => Ok(None),
            },
            None => Err(SourceError::NotFound),
        }
    }

    /// An unordered snapshot of all registered sources' metadata: one entry
    /// per registered id, each equal to that id's instance metadata.
    pub fn list(&self) -> (r: Vec<SourceInfo>)
        requires
            self.wf(),
        ensures
            r@.len() == self.spec_count(),
            forall|i: int|
                0 <= i < r@.len() ==> self@.sources.dom().contains((#[trigger] r@[i])@.id)
                    && r@[i]@ == self@.sources[r@[i]@.id].info,
            forall|i: int, j: int| 0 <= i < j < r@.len() ==> r@[i]@.id != r@[j]@.id,
            forall|id: int|
                self@.sources.dom().contains(id) ==> exists|i: int|
                    0 <= i < r@.len() && (#[trigger] r@[i])@.id == id,
    {
        self.registry.list()
    }

    /// How many sources are registered.
    pub fn count(&self) -> (r: usize)
        requires
            self.wf(),
        ensures
            r == self.spec_count(),
    {
        self.registry.count()
    }

    /// The number of registered sources.
    pub closed spec fn spec_count(&self) -> nat {
        self.registry.spec_count()
    }

    /// Resolves the instance's display name, persists `entries` as its
    /// preference file (the embedder reports the write's success in
    /// `write_ok`), then applies the same entries to the live instance.
    /// The file is written first: a failed write leaves the instance as it
    /// was.
    pub fn set_preferences(&mut self, id: i64, entries: Vec<Input>, write_ok: bool) -> (r: Result<
        (),
        SourceError,
    >)
        requires
            old(self).wf(),
        ensures
            final(self).wf(),
            final(self)@ == spec_set_preferences(
                old(self)@,
                id as int,
                inputs_view(entries@),
                write_ok,
            ).0,
            r == spec_set_preferences(old(self)@, id as int, inputs_view(entries@), write_ok).1,
    {
        let name = match self.registry.lookup(id) {
            None => {
                return Err(SourceError::NotFound);
            },
            Some(e) => e.info.name.clone(),
        };
        if !write_ok {
            return Err(SourceError::IoError);
        }
        let text = encode_inputs(&entries);
        self.pref_files.put(name, text);
        match self.registry.take(id) {
            Some(e) => {
                let updated = SourceEntry {
                    info: e.info,
                    preferences: entries,
                    filters: e.filters,
                    kind: e.kind,
                };
                self.registry.put(updated);
                proof {
                    assert(self.registry@ =~= old(self)@.sources.insert(
                        id as int,
                        spec_set_preferences(
                            old(self)@,
                            id as int,
                            inputs_view(entries@),
                            write_ok,
                        ).0.sources[id as int],
                    ));
                }
                Ok(())
            },
            None => {
                // The id was registered a moment ago and nothing between
                // touched the registry.
                proof {
                    assert(false);
                }
                Err(SourceError::LockError)
            },
        }
    }
}

// ---------------------------------------------------------------------------
// Laws of the lifecycle.
// ---------------------------------------------------------------------------
/// A successful load followed at once by a query of the returned id always
/// finds the new instance, and its metadata equals the load's reply.
pub proof fn lemma_load_then_get(mv: ManagerV, name: Seq<char>, verdict: LoadVerdict)
    requires
        spec_load(mv, name, verdict).1 is Ok,
    ensures
        spec_load(mv, name, verdict).0.sources.dom().contains(
            spec_load(mv, name, verdict).1->Ok_0.id,
        ),
        spec_load(mv, name, verdict).0.sources[spec_load(mv, name, verdict).1->Ok_0.id].info
            == spec_load(mv, name, verdict).1->Ok_0,
{
}

/// After an unload of `id`, the id is gone: any immediate get of it fails
/// with `NotFound` (a get's contract answers `NotFound` exactly on absent
/// ids).
pub proof fn lemma_unload_then_get(mv: ManagerV, id: int)
    requires
        spec_unload(mv, id).1 is Ok,
    ensures
        !spec_unload(mv, id).0.sources.dom().contains(id),
{
}

/// Removing a nonexistent id fails with `NotFound` and leaves the registry
/// and the directory exactly as they were.
pub proof fn lemma_remove_missing(mv: ManagerV, id: int, delete_ok: bool)
    requires
        !mv.sources.dom().contains(id),
    ensures
        spec_remove(mv, id, delete_ok).0 == mv,
        spec_remove(mv, id, delete_ok).1 == Err::<(), SourceError>(SourceError::NotFound),
{
}

/// Setting preferences, then unloading and freshly loading the source from
/// its script, re-applies exactly the entries that were set: they round-trip
/// through the preference file.
pub proof fn lemma_preferences_round_trip(
    mv: ManagerV,
    id: int,
    entries: Seq<InputV>,
    info: SourceInfo,
    defaults: Vec<Input>,
    filters: Option<Filters>,
    script: Seq<char>,
)
    requires
        mv.sources.dom().contains(id),
        bounded_inputs(entries),
        // the fresh load reconstructs the instance the preferences were set on
        info.name@ == mv.sources[id].info.name,
    ensures
        ({
            let after_set = spec_set_preferences(mv, id, entries, true).0;
            let after_unload = spec_unload(after_set, id).0;
            let verdict = LoadVerdict::Accepted { info, defaults, filters };
            after_unload.scripts.dom().contains(script) ==> {
                let (post, r) = spec_load(after_unload, script, verdict);
                &&& r is Ok
                &&& post.sources.dom().contains(info.id as int)
                &&& post.sources[info.id as int].preferences == entries
            }
        }),
{
    lemma_decode_of_encode(entries);
}

} // verus!
