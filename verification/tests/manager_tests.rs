use tanoshi_vm::error::SourceError;
use tanoshi_vm::input::Input;
use tanoshi_vm::manager::SourceManager;
use tanoshi_vm::source_info::{Filters, LoadVerdict, SourceEntry, SourceInfo, SourceKind};

fn info(id: i64, name: &str, version: &str) -> SourceInfo {
    SourceInfo {
        id,
        name: name.to_string(),
        url: String::new(),
        version: version.to_string(),
        icon: String::new(),
        need_login: false,
    }
}

fn entry(id: i64, name: &str) -> SourceEntry {
    SourceEntry {
        info: info(id, name, "1.0.0"),
        preferences: Vec::new(),
        filters: None,
        kind: SourceKind::BuiltIn,
    }
}

fn accepted(id: i64, name: &str) -> LoadVerdict {
    LoadVerdict::Accepted { info: info(id, name, "1.0.0"), defaults: Vec::new(), filters: None }
}

fn dir_with(names: &[&str]) -> Vec<(String, Vec<u8>)> {
    names.iter().map(|n| (n.to_string(), b"script".to_vec())).collect()
}

#[test]
fn load_then_get_returns_same_metadata() {
    let mut mgr = SourceManager::new(dir_with(&["foo"]), Vec::new());
    let loaded = mgr.load("foo", accepted(7, "foo")).expect("load should succeed");
    assert_eq!(loaded.id, 7);
    assert_eq!(loaded.name, "foo");
    let got = mgr.get(7).expect("get after load should succeed");
    assert_eq!(got.info, loaded);
    assert_eq!(got.kind, SourceKind::Script);
}

#[test]
fn load_missing_script_is_not_found() {
    let mut mgr = SourceManager::new(Vec::new(), Vec::new());
    let r = mgr.load("foo", accepted(7, "foo"));
    assert_eq!(r.unwrap_err(), SourceError::NotFound);
}

#[test]
fn load_rejected_script_is_load_error() {
    let mut mgr = SourceManager::new(dir_with(&["foo"]), Vec::new());
    let r = mgr.load("foo", LoadVerdict::Rejected);
    assert_eq!(r.unwrap_err(), SourceError::LoadError);
    assert!(!mgr.exist(7));
}

#[test]
fn unload_then_get_is_not_found() {
    let mut mgr = SourceManager::new(dir_with(&["foo"]), Vec::new());
    mgr.load("foo", accepted(7, "foo")).unwrap();
    let removed = mgr.unload(7).expect("unload of a loaded source succeeds");
    assert_eq!(removed.info.id, 7);
    assert_eq!(mgr.get(7).unwrap_err(), SourceError::NotFound);
    assert_eq!(mgr.unload(7).unwrap_err(), SourceError::NotFound);
}

#[test]
fn remove_missing_id_changes_nothing() {
    let mut mgr = SourceManager::new(dir_with(&["foo"]), Vec::new());
    mgr.load("foo", accepted(7, "foo")).unwrap();
    let r = mgr.remove(99, true);
    assert_eq!(r.unwrap_err(), SourceError::NotFound);
    // the registry and the directory are untouched
    assert!(mgr.exist(7));
    assert_eq!(mgr.list().len(), 1);
    assert!(mgr.load("foo", accepted(7, "foo")).is_ok());
}

#[test]
fn remove_with_failed_delete_still_unloads() {
    let mut mgr = SourceManager::new(dir_with(&["foo"]), Vec::new());
    mgr.load("foo", accepted(7, "foo")).unwrap();
    let r = mgr.remove(7, false);
    assert_eq!(r.unwrap_err(), SourceError::IoError);
    // the instance stays unloaded even though the file remains
    assert!(!mgr.exist(7));
    assert!(mgr.load("foo", accepted(7, "foo")).is_ok());
}

#[test]
fn remove_deletes_script_file() {
    let mut mgr = SourceManager::new(dir_with(&["foo"]), Vec::new());
    mgr.load("foo", accepted(7, "foo")).unwrap();
    mgr.remove(7, true).expect("remove succeeds");
    assert!(!mgr.exist(7));
    // the script file is gone, so a fresh load reports NotFound
    assert_eq!(mgr.load("foo", accepted(7, "foo")).unwrap_err(), SourceError::NotFound);
}

#[test]
fn insert_overwrites_same_id() {
    // register a built-in source with id 10000, then insert another entry
    // with the same id and a different name: still exactly one entry
    let mut mgr = SourceManager::new(Vec::new(), Vec::new());
    mgr.insert(entry(10000, "Local")).unwrap();
    let listing = mgr.list();
    assert_eq!(listing.len(), 1);
    assert_eq!(listing[0].id, 10000);
    assert_eq!(listing[0].name, "Local");

    mgr.insert(entry(10000, "Shelf")).unwrap();
    let listing = mgr.list();
    assert_eq!(listing.len(), 1);
    assert_eq!(listing[0].id, 10000);
    assert_eq!(listing[0].name, "Shelf");
}

#[test]
fn install_writes_then_loads() {
    let mut mgr = SourceManager::new(Vec::new(), Vec::new());
    let r = mgr.install("foo", b"fresh".to_vec(), true, accepted(3, "foo"));
    assert_eq!(r.unwrap().name, "foo");
    assert!(mgr.exist(3));
}

#[test]
fn install_failed_write_is_io_error() {
    let mut mgr = SourceManager::new(Vec::new(), Vec::new());
    let r = mgr.install("foo", b"fresh".to_vec(), false, accepted(3, "foo"));
    assert_eq!(r.unwrap_err(), SourceError::IoError);
    assert!(!mgr.exist(3));
    // nothing was written either
    assert_eq!(mgr.load("foo", accepted(3, "foo")).unwrap_err(), SourceError::NotFound);
}

#[test]
fn install_invalid_after_valid_overwrites_file() {
    // install("foo", valid) succeeds; install("foo", invalid) fails with
    // LoadError, but the script file has already been overwritten
    let mut mgr = SourceManager::new(Vec::new(), Vec::new());
    let first = mgr.install("foo", b"valid".to_vec(), true, accepted(3, "foo"));
    assert_eq!(first.unwrap().name, "foo");

    let second = mgr.install("foo", b"invalid".to_vec(), true, LoadVerdict::Rejected);
    assert_eq!(second.unwrap_err(), SourceError::LoadError);

    // the previously loaded instance is still registered ...
    assert!(mgr.exist(3));
    // ... and the file is still present (now with the new bytes), so a
    // fresh load against an accepting engine succeeds
    assert!(mgr.load("foo", accepted(3, "foo")).is_ok());
}

#[test]
fn preferences_round_trip_through_file() {
    // set_preferences, then reload from disk: the entries come back
    let mut mgr = SourceManager::new(dir_with(&["foo"]), Vec::new());
    mgr.load("foo", accepted(7, "foo")).unwrap();

    let prefs = vec![
        Input::Text { name: "user".to_string(), state: Some("alice".to_string()) },
        Input::Checkbox { name: "nsfw".to_string(), state: Some(false) },
        Input::Select {
            name: "lang".to_string(),
            values: vec!["en".to_string(), "de".to_string()],
            state: Some(1),
        },
    ];
    mgr.set_preferences(7, prefs.clone(), true).expect("set_preferences succeeds");

    mgr.unload(7).unwrap();
    mgr.load("foo", accepted(7, "foo")).unwrap();
    let got = mgr.get(7).unwrap();
    assert_eq!(got.preferences, prefs);
}

#[test]
fn set_preferences_failed_write_leaves_instance() {
    let mut mgr = SourceManager::new(dir_with(&["foo"]), Vec::new());
    mgr.load("foo", accepted(7, "foo")).unwrap();
    let prefs = vec![Input::Checkbox { name: "x".to_string(), state: Some(true) }];
    let r = mgr.set_preferences(7, prefs, false);
    assert_eq!(r.unwrap_err(), SourceError::IoError);
    assert!(mgr.get(7).unwrap().preferences.is_empty());
}

#[test]
fn set_preferences_unknown_id_is_not_found() {
    let mut mgr = SourceManager::new(Vec::new(), Vec::new());
    let prefs = vec![Input::Checkbox { name: "x".to_string(), state: None }];
    assert_eq!(mgr.set_preferences(5, prefs, true).unwrap_err(), SourceError::NotFound);
}

#[test]
fn load_applies_persisted_preferences_over_defaults() {
    let stored = vec![Input::Text { name: "user".to_string(), state: Some("bob".to_string()) }];
    let text = tanoshi_vm::prefs::encode_inputs(&stored);
    let mut mgr =
        SourceManager::new(dir_with(&["foo"]), vec![("foo".to_string(), text)]);
    let defaults = vec![Input::Text { name: "user".to_string(), state: None }];
    let verdict =
        LoadVerdict::Accepted { info: info(7, "foo", "1.0.0"), defaults, filters: None };
    mgr.load("foo", verdict).unwrap();
    assert_eq!(mgr.get(7).unwrap().preferences, stored);
}

#[test]
fn load_with_malformed_preference_file_keeps_defaults() {
    let mut mgr = SourceManager::new(
        dir_with(&["foo"]),
        vec![("foo".to_string(), "not a preference file".to_string())],
    );
    let defaults = vec![Input::Checkbox { name: "ok".to_string(), state: Some(true) }];
    let verdict = LoadVerdict::Accepted {
        info: info(7, "foo", "1.0.0"),
        defaults: defaults.clone(),
        filters: None,
    };
    mgr.load("foo", verdict).unwrap();
    assert_eq!(mgr.get(7).unwrap().preferences, defaults);
}

#[test]
fn detail_and_list_report_metadata() {
    let mut mgr = SourceManager::new(Vec::new(), Vec::new());
    mgr.insert(entry(1, "a")).unwrap();
    mgr.insert(entry(2, "b")).unwrap();
    assert_eq!(mgr.detail(2).unwrap().name, "b");
    assert_eq!(mgr.detail(3).unwrap_err(), SourceError::NotFound);
    let mut names: Vec<String> = mgr.list().into_iter().map(|s| s.name).collect();
    names.sort();
    assert_eq!(names, vec!["a".to_string(), "b".to_string()]);
    assert_eq!(mgr.count(), 2);
}

#[test]
fn filters_come_from_the_instance() {
    let mut mgr = SourceManager::new(dir_with(&["foo"]), Vec::new());
    let schema = Filters {
        default: "latest".to_string(),
        fields: vec![(
            "genre".to_string(),
            Input::Select {
                name: "genre".to_string(),
                values: vec!["action".to_string()],
                state: None,
            },
        )],
    };
    let verdict = LoadVerdict::Accepted {
        info: info(7, "foo", "1.0.0"),
        defaults: Vec::new(),
        filters: Some(schema.clone()),
    };
    mgr.load("foo", verdict).unwrap();
    assert_eq!(mgr.filters(7).unwrap(), Some(schema));
    assert_eq!(mgr.filters(8).unwrap_err(), SourceError::NotFound);

    mgr.insert(entry(9, "plain")).unwrap();
    assert_eq!(mgr.filters(9).unwrap(), None);
}

#[test]
fn describe_names_each_failure() {
    assert_eq!(SourceError::NotFound.describe(), "source not exists");
    assert_eq!(SourceError::LoadError.describe(), "engine rejected script");
    assert_eq!(SourceError::IoError.describe(), "filesystem failure");
    assert_eq!(SourceError::LockError.describe(), "runtime actor unavailable");
}
