use tanoshi_vm::catalogue::{CatalogueError, Source, SourceIndex, SourceMutationRoot, SourceRoot};
use tanoshi_vm::manager::SourceManager;
use tanoshi_vm::server::{Server, local_source_entries};
use tanoshi_vm::source_info::{SourceEntry, SourceInfo, SourceKind};

fn info(id: i64, name: &str, version: &str) -> SourceInfo {
    SourceInfo {
        id,
        name: name.to_string(),
        url: String::new(),
        version: version.to_string(),
        icon: String::new(),
        need_login: false,
    }
}

fn entry(id: i64, name: &str, version: &str) -> SourceEntry {
    SourceEntry {
        info: info(id, name, version),
        preferences: Vec::new(),
        filters: None,
        kind: SourceKind::BuiltIn,
    }
}

fn row(id: i64, name: &str, version: &str) -> SourceIndex {
    SourceIndex {
        id,
        name: name.to_string(),
        path: format!("/library/{}", name),
        version: version.to_string(),
        icon: String::new(),
    }
}

#[test]
fn installed_sources_sorts_and_flags_updates() {
    let root = SourceRoot {};
    let installed = vec![info(2, "b", "1.0.0"), info(1, "a", "1.0.0")];
    let catalog = vec![row(2, "b", "2.0.0"), row(9, "z", "1.0.0")];
    let sources = root.installed_sources(installed, &catalog, true).expect("versions parse");
    assert_eq!(sources.len(), 2);
    assert_eq!(sources[0].id, 1);
    assert!(!sources[0].has_update);
    assert_eq!(sources[1].id, 2);
    assert!(sources[1].has_update);
}

#[test]
fn installed_sources_without_check_has_no_flags() {
    let root = SourceRoot {};
    let installed = vec![info(2, "b", "not a version"), info(1, "a", "1.0.0")];
    let catalog = vec![row(2, "b", "2.0.0")];
    // without check_update no version is parsed, so nothing fails
    let sources = root.installed_sources(installed, &catalog, false).unwrap();
    assert_eq!(sources.len(), 2);
    assert!(!sources[0].has_update);
    assert!(!sources[1].has_update);
}

#[test]
fn installed_sources_bad_version_fails() {
    let root = SourceRoot {};
    let installed = vec![info(2, "b", "weird")];
    let catalog = vec![row(2, "b", "2.0.0")];
    let r = root.installed_sources(installed, &catalog, true);
    assert_eq!(r.unwrap_err(), CatalogueError::BadVersion);
}

#[test]
fn installed_sources_last_catalog_row_wins() {
    let root = SourceRoot {};
    let installed = vec![info(2, "b", "1.5.0")];
    // two rows for the same id: the later one decides the update flag
    let catalog = vec![row(2, "b", "9.0.0"), row(2, "b", "1.5.0")];
    let sources = root.installed_sources(installed, &catalog, true).unwrap();
    assert!(!sources[0].has_update);
}

#[test]
fn available_sources_skips_installed_ids() {
    let mut mgr = SourceManager::new(Vec::new(), Vec::new());
    mgr.insert(entry(1, "a", "1.0.0")).unwrap();
    let root = SourceRoot {};
    let catalog = vec![row(1, "a", "1.0.0"), row(7, "g", "0.3.0")];
    let sources = root.available_sources(&mgr, &catalog);
    assert_eq!(sources.len(), 1);
    assert_eq!(sources[0].id, 7);
    assert_eq!(sources[0].name, "g");
    assert_eq!(sources[0].url, "");
    assert!(!sources[0].has_update);
}

#[test]
fn source_reports_installed_metadata() {
    let mut mgr = SourceManager::new(Vec::new(), Vec::new());
    mgr.insert(entry(4, "d", "2.1.0")).unwrap();
    let root = SourceRoot {};
    let s = root.source(&mgr, 4).unwrap();
    assert_eq!(s.name(), "d");
    assert_eq!(s.version(), "2.1.0");
    assert_eq!(root.source(&mgr, 5).unwrap_err(), CatalogueError::NotFound);
}

#[test]
fn plan_install_decisions() {
    let mut mgr = SourceManager::new(Vec::new(), Vec::new());
    mgr.insert(entry(1, "a", "1.0.0")).unwrap();
    let root = SourceMutationRoot {};
    let catalog = vec![row(2, "b", "1.0.0")];
    assert_eq!(
        root.plan_install(&mgr, 1, &catalog).unwrap_err(),
        CatalogueError::AlreadyInstalled
    );
    assert_eq!(root.plan_install(&mgr, 3, &catalog).unwrap_err(), CatalogueError::NotFound);
    let picked = root.plan_install(&mgr, 2, &catalog).unwrap();
    assert_eq!(picked.id, 2);
    assert_eq!(picked.name, "b");
}

#[test]
fn plan_update_decisions() {
    let mut mgr = SourceManager::new(Vec::new(), Vec::new());
    mgr.insert(entry(1, "a", "1.0.0")).unwrap();
    mgr.insert(entry(2, "b", "bad")).unwrap();
    let root = SourceMutationRoot {};
    let catalog =
        vec![row(1, "a", "1.0.0"), row(2, "b", "2.0.0"), row(9, "z", "1.0.0")];
    // not installed
    assert_eq!(root.plan_update(&mgr, 9, &catalog).unwrap_err(), CatalogueError::NotFound);
    // no catalog row
    assert_eq!(root.plan_update(&mgr, 5, &catalog).unwrap_err(), CatalogueError::NotFound);
    // same version on both sides
    assert_eq!(root.plan_update(&mgr, 1, &catalog).unwrap_err(), CatalogueError::NoNewVersion);
    // installed version does not parse
    assert_eq!(root.plan_update(&mgr, 2, &catalog).unwrap_err(), CatalogueError::BadVersion);

    let mut mgr2 = SourceManager::new(Vec::new(), Vec::new());
    mgr2.insert(entry(1, "a", "0.9.0")).unwrap();
    let picked = root.plan_update(&mgr2, 1, &catalog).unwrap();
    assert_eq!(picked.version, "1.0.0");
}

#[test]
fn from_index_clears_runtime_fields() {
    let s = Source::from_index(row(3, "c", "1.2.3"));
    assert_eq!(s.id(), 3);
    assert_eq!(s.url(), "");
    assert_eq!(s.icon(), "");
    assert!(!s.need_login());
    assert!(!s.has_update());
    assert_eq!(s.version(), "1.2.3");
}

#[test]
fn server_announces_its_port() {
    let server = Server::new(8080);
    assert_eq!(server.port(), 8080);
    assert_eq!(server.name(), "graphql");
    assert_eq!(
        server.initialization_script(),
        Some("window.__TANOSHI_PORT__ = 8080;".to_string())
    );
}

#[test]
fn local_sources_count_up_from_base_id() {
    let folders = vec!["Books".to_string(), "Comics".to_string()];
    let entries = local_source_entries(&folders);
    assert_eq!(entries.len(), 2);
    assert_eq!(entries[0].info.id, 10000);
    assert_eq!(entries[0].info.name, "Books");
    assert_eq!(entries[1].info.id, 10001);
    assert_eq!(entries[1].info.name, "Comics");
    assert_eq!(entries[0].kind, SourceKind::BuiltIn);

    let mut mgr = SourceManager::new(Vec::new(), Vec::new());
    for e in entries {
        mgr.insert(e).unwrap();
    }
    assert_eq!(mgr.list().len(), 2);
}
