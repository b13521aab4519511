use tanoshi_vm::actor::{Command, Reply, run_commands, step};
use tanoshi_vm::error::SourceError;
use tanoshi_vm::manager::SourceManager;
use tanoshi_vm::source_info::{LoadVerdict, SourceEntry, SourceInfo, SourceKind};

fn info(id: i64, name: &str) -> SourceInfo {
    SourceInfo {
        id,
        name: name.to_string(),
        url: String::new(),
        version: "1.0.0".to_string(),
        icon: String::new(),
        need_login: false,
    }
}

fn entry(id: i64, name: &str) -> SourceEntry {
    SourceEntry {
        info: info(id, name),
        preferences: Vec::new(),
        filters: None,
        kind: SourceKind::BuiltIn,
    }
}

fn accepted(id: i64, name: &str) -> LoadVerdict {
    LoadVerdict::Accepted { info: info(id, name), defaults: Vec::new(), filters: None }
}

/// One interleaved acceptance order of two callers' commands, targeting the
/// same source name.
fn accepted_order() -> Vec<Command> {
    vec![
        Command::Install {
            name: "foo".to_string(),
            bytes: b"v1".to_vec(),
            write_ok: true,
            verdict: accepted(3, "foo"),
        },
        Command::Insert { entry: entry(10000, "Local") },
        Command::Unload { id: 3 },
        Command::Install {
            name: "foo".to_string(),
            bytes: b"v2".to_vec(),
            write_ok: true,
            verdict: accepted(3, "foo"),
        },
        Command::Remove { id: 3, delete_ok: true },
        Command::Exist { id: 3 },
    ]
}

/// What an observer can see of a manager's state.
fn observe(mgr: &SourceManager) -> Vec<(i64, String)> {
    let mut seen: Vec<(i64, String)> =
        mgr.list().into_iter().map(|s| (s.id, s.name)).collect();
    seen.sort();
    seen
}

#[test]
fn same_acceptance_order_reaches_same_state() {
    // the final state is a function of the accepted order alone: two
    // executions of the same order agree on everything observable
    let mut a = SourceManager::new(Vec::new(), Vec::new());
    let mut b = SourceManager::new(Vec::new(), Vec::new());
    let ra = run_commands(&mut a, accepted_order());
    let rb = run_commands(&mut b, accepted_order());
    assert_eq!(ra.len(), rb.len());
    assert_eq!(observe(&a), observe(&b));
    assert_eq!(observe(&a), vec![(10000, "Local".to_string())]);
}

#[test]
fn batched_replay_equals_split_replay() {
    // replaying the whole accepted order equals replaying any prefix first
    let cmds = accepted_order();
    let mut whole = SourceManager::new(Vec::new(), Vec::new());
    run_commands(&mut whole, cmds);

    let mut split = SourceManager::new(Vec::new(), Vec::new());
    let mut first = accepted_order();
    let second = first.split_off(3);
    run_commands(&mut split, first);
    run_commands(&mut split, second);

    assert_eq!(observe(&whole), observe(&split));
}

#[test]
fn step_replies_match_commands() {
    let mut mgr = SourceManager::new(Vec::new(), Vec::new());

    match step(&mut mgr, Command::Insert { entry: entry(5, "a") }) {
        Reply::Done(r) => assert!(r.is_ok()),
        _ => panic!("insert replies Done"),
    }
    match step(&mut mgr, Command::Exist { id: 5 }) {
        Reply::Flag(b) => assert!(b),
        _ => panic!("exist replies Flag"),
    }
    match step(&mut mgr, Command::Detail { id: 5 }) {
        Reply::Info(r) => assert_eq!(r.unwrap().name, "a"),
        _ => panic!("detail replies Info"),
    }
    match step(&mut mgr, Command::Get { id: 5 }) {
        Reply::Entry(r) => assert_eq!(r.unwrap().info.id, 5),
        _ => panic!("get replies Entry"),
    }
    match step(&mut mgr, Command::List) {
        Reply::Listing(l) => assert_eq!(l.len(), 1),
        _ => panic!("list replies Listing"),
    }
    match step(&mut mgr, Command::Unload { id: 5 }) {
        Reply::Entry(r) => assert_eq!(r.unwrap().info.name, "a"),
        _ => panic!("unload replies Entry"),
    }
    match step(&mut mgr, Command::Get { id: 5 }) {
        Reply::Entry(r) => assert_eq!(r.unwrap_err(), SourceError::NotFound),
        _ => panic!("get replies Entry"),
    }
}

#[test]
fn failed_command_does_not_stop_later_ones() {
    // one failed command must not affect subsequent commands
    let mut mgr = SourceManager::new(Vec::new(), Vec::new());
    let replies = run_commands(
        &mut mgr,
        vec![
            Command::Unload { id: 1 },
            Command::Insert { entry: entry(1, "a") },
            Command::Exist { id: 1 },
        ],
    );
    assert_eq!(replies.len(), 3);
    match &replies[0] {
        Reply::Entry(r) => assert!(r.is_err()),
        _ => panic!("unload replies Entry"),
    }
    match &replies[2] {
        Reply::Flag(b) => assert!(*b),
        _ => panic!("exist replies Flag"),
    }
}

#[test]
fn load_all_counts_successes() {
    let mut mgr = SourceManager::new(
        vec![("foo".to_string(), b"a".to_vec()), ("bar".to_string(), b"b".to_vec())],
        Vec::new(),
    );
    let jobs = vec![
        ("foo".to_string(), accepted(1, "foo")),
        ("bar".to_string(), LoadVerdict::Rejected),
        ("missing".to_string(), accepted(9, "missing")),
    ];
    let count = mgr.load_all(jobs);
    assert_eq!(count, 1);
    assert!(mgr.exist(1));
    assert!(!mgr.exist(9));
}
