//! The runtime actor's command protocol: every operation of the source
//! manager as a command value, executed strictly in acceptance order.
//!
//! The embedder owns the manager on one dedicated thread, pulls commands
//! from its channel first-accepted-first-served, performs the outside work
//! (file writes, the script engine) and records the outcomes in the command,
//! then calls [`step`]. [`run_commands`] is that serial loop over a whole
//! accepted sequence; its contract says the final state is the fold of the
//! per-command transitions, so the state reached under any concurrent
//! submission equals the state of a single-threaded replay in acceptance
//! order, and [`lemma_run_state_append`] splits that replay at any point.

use crate::error::SourceError;
use crate::input::{Input, inputs_view};
use crate::manager::{
    ManagerV, SourceManager, entry_result_view, info_result_view, opt_filters_view, spec_insert,
    spec_install, spec_load, spec_remove, spec_set_preferences, spec_unload,
};
use crate::source_info::{Filters, LoadVerdict, SourceEntry, SourceInfo};
use vstd::prelude::*;

verus! {

/// One logical operation, together with the outcomes of the outside work
/// that accompanied its execution.
pub enum Command {
    Load { name: String, verdict: LoadVerdict },
    Install { name: String, bytes: Vec<u8>, write_ok: bool, verdict: LoadVerdict },
    Insert { entry: SourceEntry },
    Unload { id: i64 },
    Remove { id: i64, delete_ok: bool },
    Get { id: i64 },
    Detail { id: i64 },
    Exist { id: i64 },
    FetchFilters { id: i64 },
    List,
    SetPreferences { id: i64, entries: Vec<Input>, write_ok: bool },
}

/// What the actor sends back through the command's reply slot.
pub enum Reply {
    Info(Result<SourceInfo, SourceError>),
    Entry(Result<SourceEntry, SourceError>),
    Done(Result<(), SourceError>),
    Flag(bool),
    Schema(Result<Option<Filters>, SourceError>),
    Listing(Vec<SourceInfo>),
}

/// The state one command leaves behind.
pub open spec fn cmd_state(mv: ManagerV, c: Command) -> ManagerV {
    match c {
        Command::Load { name, verdict } => spec_load(mv, name@, verdict).0,
        Command::Install { name, bytes, write_ok, verdict } => spec_install(
            mv,
            name@,
            bytes@,
            write_ok,
            verdict,
        ).0,
        Command::Insert { entry } => spec_insert(mv, entry@),
        Command::Unload { id } => spec_unload(mv, id as int).0,
        Command::Remove { id, delete_ok } => spec_remove(mv, id as int, delete_ok).0,
        Command::SetPreferences { id, entries, write_ok } => spec_set_preferences(
            mv,
            id as int,
            inputs_view(entries@),
            write_ok,
        ).0,
        Command::Get { .. } => mv,
        Command::Detail { .. } => mv,
        Command::Exist { .. } => mv,
        Command::FetchFilters { .. } => mv,
        Command::List => mv,
    }
}

/// What the reply to one command must be, given the state it ran against.
pub open spec fn reply_matches(mv: ManagerV, c: Command, r: Reply) -> bool {
    match c {
        Command::Load { name, verdict } => r matches Reply::Info(x) && info_result_view(x)
            == spec_load(mv, name@, verdict).1,
        Command::Install { name, bytes, write_ok, verdict } => r matches Reply::Info(x)
            && info_result_view(x) == spec_install(mv, name@, bytes@, write_ok, verdict).1,
        Command::Insert { .. } => r matches Reply::Done(x) && x is Ok,
        Command::Unload { id } => r matches Reply::Entry(x) && entry_result_view(x) == spec_unload(
            mv,
            id as int,
        ).1,
        Command::Remove { id, delete_ok } => r matches Reply::Done(x) && x == spec_remove(
            mv,
            id as int,
            delete_ok,
        ).1,
        Command::SetPreferences { id, entries, write_ok } => r matches Reply::Done(x) && x
            == spec_set_preferences(mv, id as int, inputs_view(entries@), write_ok).1,
        Command::Get { id } => r matches Reply::Entry(x) && entry_result_view(x) == (
        if mv.sources.dom().contains(id as int) {
            Ok(mv.sources[id as int])
        } else {
            Err(SourceError::NotFound)
        }),
        Command::Detail { id } => r matches Reply::Info(x) && info_result_view(x) == (
        if mv.sources.dom().contains(id as int) {
            Ok(mv.sources[id as int].info)
        } else {
            Err(SourceError::NotFound)
        }),
        Command::Exist { id } => r matches Reply::Flag(b) && b == mv.sources.dom().contains(
            id as int,
        ),
        Command::FetchFilters { id } => r matches Reply::Schema(x) && (match x {
            Ok(f) => mv.sources.dom().contains(id as int) && opt_filters_view(f)
                == mv.sources[id as int].filters,
            Err(e) => e == SourceError::NotFound && !mv.sources.dom().contains(id as int),
        }),
        Command::List => r matches Reply::Listing(l) && {
            &&& forall|i: int|
                0 <= i < l@.len() ==> mv.sources.dom().contains((#[trigger] l@[i])@.id) && l@[i]@
                    == mv.sources[l@[i]@.id].info
            &&& forall|i: int, j: int| 0 <= i < j < l@.len() ==> l@[i]@.id != l@[j]@.id
            &&& forall|id: int|
                mv.sources.dom().contains(id) ==> exists|i: int|
                    0 <= i < l@.len() && (#[trigger] l@[i])@.id == id
        },
    }
}

/// Executes one dequeued command against the manager and produces the reply
/// for its reply slot. A failed command leaves the manager ready for the
/// next one: no failure affects later commands beyond its stated transition.
pub fn step(mgr: &mut SourceManager, cmd: Command) -> (r: Reply)
    requires
        old(mgr).wf(),
    ensures
        final(mgr).wf(),
        final(mgr)@ == cmd_state(old(mgr)@, cmd),
        reply_matches(old(mgr)@, cmd, r),
{
    match cmd {
        Command::Load { name, verdict } => Reply::Info(mgr.load(name.as_str(), verdict)),
        Command::Install { name, bytes, write_ok, verdict } => Reply::Info(
            mgr.install(name.as_str(), bytes, write_ok, verdict),
        ),
        Command::Insert { entry } => Reply::Done(mgr.insert(entry)),
        Command::Unload { id } => Reply::Entry(mgr.unload(id)),
        Command::Remove { id, delete_ok } => Reply::Done(mgr.remove(id, delete_ok)),
        Command::Get { id } => match mgr.get(id) {
            Ok(e) => Reply::Entry(Ok(e.snapshot())),
            Err(e) => Reply::Entry(Err(e)),
        },
        Command::Detail { id } => Reply::Info(mgr.detail(id)),
        Command::Exist { id } => Reply::Flag(mgr.exist(id)),
        Command::FetchFilters { id } => Reply::Schema(mgr.filters(id)),
        Command::List => Reply::Listing(mgr.list()),
        Command::SetPreferences { id, entries, write_ok } => Reply::Done(
            mgr.set_preferences(id, entries, write_ok),
        ),
    }
}

/// The state a whole accepted sequence leaves behind: the serial replay, in
/// acceptance order. This is a function of the initial state and the
/// sequence alone, so every execution that processes the same accepted
/// order — however concurrently the commands were submitted — ends in the
/// same state.
pub open spec fn run_state(mv: ManagerV, cs: Seq<Command>) -> ManagerV
    decreases cs.len(),
{
    if cs.len() == 0 {
        mv
    } else {
        run_state(cmd_state(mv, cs[0]), cs.drop_first())
    }
}

/// Replaying a batch and then another is replaying their concatenation: the
/// serial replay can be cut at any accepted prefix.
pub proof fn lemma_run_state_append(mv: ManagerV, a: Seq<Command>, b: Seq<Command>)
    ensures
        run_state(mv, a + b) == run_state(run_state(mv, a), b),
    decreases a.len(),
{
    if a.len() == 0 {
        assert(a + b =~= b);
    } else {
        assert((a + b)[0] == a[0]);
        assert((a + b).drop_first() =~= a.drop_first() + b);
        lemma_run_state_append(cmd_state(mv, a[0]), a.drop_first(), b);
    }
}

/// One more command extends the replay by one transition.
pub proof fn lemma_run_state_snoc(mv: ManagerV, cs: Seq<Command>, i: int)
    requires
        0 <= i < cs.len(),
    ensures
        run_state(mv, cs.subrange(0, i + 1)) == cmd_state(
            run_state(mv, cs.subrange(0, i)),
            cs[i],
        ),
{
    lemma_run_state_append(mv, cs.subrange(0, i), seq![cs[i]]);
    assert(cs.subrange(0, i) + seq![cs[i]] =~= cs.subrange(0, i + 1));
    let base = run_state(mv, cs.subrange(0, i));
    let single = seq![cs[i]];
    assert(single[0] == cs[i]);
    assert(single.drop_first() =~= Seq::<Command>::empty());
    assert(run_state(cmd_state(base, cs[i]), Seq::<Command>::empty()) == cmd_state(base, cs[i]));
    assert(run_state(base, single) == run_state(cmd_state(base, single[0]), single.drop_first()));
}

/// The actor's serial loop: processes the accepted sequence strictly in
/// order, lands exactly on the replayed state, and each command's reply is
/// the one its transition prescribes against the state every earlier
/// command left behind.
pub fn run_commands(mgr: &mut SourceManager, cmds: Vec<Command>) -> (rs: Vec<Reply>)
    requires
        old(mgr).wf(),
    ensures
        final(mgr).wf(),
        final(mgr)@ == run_state(old(mgr)@, cmds@),
        rs@.len() == cmds@.len(),
        forall|i: int|
            0 <= i < cmds@.len() ==> reply_matches(
                run_state(old(mgr)@, cmds@.subrange(0, i)),
                cmds@[i],
                #[trigger] rs@[i],
            ),
{
    let ghost all = cmds@;
    let mut rest = cmds;
    let mut out: Vec<Reply> = Vec::new();
    proof {
        assert(all.subrange(0, 0) =~= Seq::<Command>::empty());
    }
    while rest.len() > 0
        invariant
            mgr.wf(),
            out@.len() + rest@.len() == all.len(),
            rest@ == all.subrange(out@.len() as int, all.len() as int),
            mgr@ == run_state(old(mgr)@, all.subrange(0, out@.len() as int)),
            forall|i: int|
                0 <= i < out@.len() ==> reply_matches(
                    run_state(old(mgr)@, all.subrange(0, i)),
                    all[i],
                    #[trigger] out@[i],
                ),
        decreases rest@.len(),
    {
        let ghost k = out@.len() as int;
        let ghost before = rest@;
        let ghost pre = mgr@;
        let c = rest.remove(0);
        proof {
            assert(c == all[k]);
            assert(rest@ =~= all.subrange(k + 1, all.len() as int));
        }
        let r = step(mgr, c);
        out.push(r);
        proof {
            lemma_run_state_snoc(old(mgr)@, all, k);
        }
    }
    proof {
        assert(all.subrange(0, all.len() as int) =~= all);
    }
    out
}

impl SourceManager {
    /// Loads every script the embedder found in the plugin directory, in
    /// order, and counts how many loaded; a script that fails (absent file,
    /// rejected content) is skipped, not fatal.
    pub fn load_all(&mut self, jobs: Vec<(String, LoadVerdict)>) -> (count: usize)
        requires
            old(self).wf(),
        ensures
            final(self).wf(),
            final(self)@ == spec_load_all(old(self)@, jobs@).0,
            count == spec_load_all(old(self)@, jobs@).1,
    {
        let ghost all = jobs@;
        let mut rest = jobs;
        let total = rest.len();
        let mut count: usize = 0;
        while rest.len() > 0
            invariant
                self.wf(),
                all.len() == total,
                count + rest@.len() <= all.len(),
                spec_load_all(old(self)@, all).0 == spec_load_all(self@, rest@).0,
                spec_load_all(old(self)@, all).1 == count + spec_load_all(self@, rest@).1,
            decreases rest@.len(),
        {
            let ghost before = rest@;
            let ghost pre = self@;
            let (name, verdict) = rest.remove(0);
            let r = self.load(name.as_str(), verdict);
            proof {
                assert(rest@ =~= before.drop_first());
            }
            if r.is_ok() {
                count += 1;
            }
        }
        count
    }
}

/// The state and count that loading a whole directory folds to.
pub open spec fn spec_load_all(mv: ManagerV, jobs: Seq<(String, LoadVerdict)>) -> (ManagerV, nat)
    decreases jobs.len(),
{
    if jobs.len() == 0 {
        (mv, 0)
    } else {
        let first = spec_load(mv, jobs[0].0@, jobs[0].1);
        let tail = spec_load_all(first.0, jobs.drop_first());
        (
            tail.0,
            tail.1 + if first.1 is Ok {
                1nat
            } else {
                0nat
            },
        )
    }
}

} // verus!
