use std::time::{Duration, SystemTime};

use neogen::script_store::{
    hash_text, is_script_file_name, DirListing, FailedFile, LoadedFile, ScriptStore, StoreError,
};

fn at(secs: u64) -> SystemTime {
    SystemTime::UNIX_EPOCH + Duration::from_secs(secs)
}

fn file(name: &str, text: &str, secs: u64) -> LoadedFile {
    LoadedFile { name: name.to_string(), text: text.to_string(), mtime: at(secs) }
}

fn failed(name: &str) -> FailedFile {
    FailedFile { name: name.to_string(), reason: "stream did not contain valid UTF-8".to_string() }
}

fn listing(loaded: Vec<LoadedFile>, failed: Vec<FailedFile>) -> Result<DirListing, StoreError> {
    Ok(DirListing { loaded, failed })
}

fn names(v: &[&str]) -> Vec<String> {
    v.iter().map(|s| s.to_string()).collect()
}

#[test]
fn hash_is_fnv1a_of_the_text() {
    assert_eq!(hash_text(""), 0xcbf2_9ce4_8422_2325);
    assert_eq!(hash_text("return 1"), 0xef20_4830_cbcd_b634);
    assert_eq!(hash_text("return 2"), 0xef20_4b30_cbcd_bb4d);
}

#[test]
fn script_file_names_end_in_lua() {
    assert!(is_script_file_name("good.lua"));
    assert!(is_script_file_name("a.b.lua"));
    assert!(is_script_file_name("..lua"));
    assert!(!is_script_file_name(".lua"));
    assert!(!is_script_file_name("lua"));
    assert!(!is_script_file_name("notes.txt"));
    assert!(!is_script_file_name("x.LUA"));
    assert!(!is_script_file_name("x.luac"));
}

#[test]
fn valid_broken_and_foreign_files() {
    let store = ScriptStore::scan(
        "scripts".to_string(),
        listing(vec![file("good.lua", "print('hello')", 1)], vec![failed("broken.lua")]),
    )
    .expect("scan works");
    assert_eq!(store.names(), names(&["good.lua"]));
    let good = store.get("good.lua").expect("loaded");
    assert_eq!(good.text, "print('hello')");
    assert_eq!(good.hash, hash_text("print('hello')"));
    assert_eq!(good.mtime, at(1));
    let report = store.last_report();
    assert_eq!(report.added, names(&["good.lua"]));
    assert_eq!(report.failed.len(), 1);
    assert_eq!(report.failed[0].name, "broken.lua");
    assert!(!report.failed[0].reason.is_empty());
    assert_eq!(store.dir(), "scripts");
}

#[test]
fn refresh_reports_updates_with_new_text() {
    let mut store =
        ScriptStore::scan("d".to_string(), listing(vec![file("a.lua", "return 1", 1)], vec![])).expect("scan");
    let first_hash = store.get("a.lua").expect("loaded").hash;
    let report = store
        .refresh(listing(vec![file("a.lua", "return 2", 2)], vec![]))
        .expect("refresh");
    assert_eq!(report.added, Vec::<String>::new());
    assert_eq!(report.updated, names(&["a.lua"]));
    assert_eq!(report.removed, Vec::<String>::new());
    assert_eq!(store.get("a.lua").expect("loaded").text, "return 2");
    assert_ne!(store.get("a.lua").expect("loaded").hash, first_hash);
    assert_eq!(store.last_report(), &report);
}

#[test]
fn unchanged_files_are_not_updated() {
    let mut store =
        ScriptStore::scan("d".to_string(), listing(vec![file("a.lua", "return 1", 1)], vec![])).expect("scan");
    let report = store
        .refresh(listing(vec![file("a.lua", "return 1", 5)], vec![]))
        .expect("refresh");
    assert!(report.added.is_empty() && report.updated.is_empty() && report.removed.is_empty());
    let kept = store.get("a.lua").expect("kept");
    assert_eq!(kept.text, "return 1");
    assert_eq!(kept.mtime, at(5));
}

#[test]
fn refresh_reports_removals() {
    let mut store = ScriptStore::scan(
        "d".to_string(),
        listing(vec![file("a.lua", "return 1", 1), file("b.lua", "return 2", 1)], vec![]),
    )
    .expect("scan");
    assert_eq!(store.len(), 2);
    let report = store
        .refresh(listing(vec![file("b.lua", "return 2", 1)], vec![]))
        .expect("refresh");
    assert_eq!(report.removed, names(&["a.lua"]));
    assert!(store.get("a.lua").is_none());
    assert_eq!(store.names(), names(&["b.lua"]));
}

#[test]
fn refresh_reports_additions() {
    let mut store =
        ScriptStore::scan("d".to_string(), listing(vec![file("a.lua", "return 1", 1)], vec![])).expect("scan");
    let report = store
        .refresh(listing(vec![file("new.lua", "return 3", 2), file("a.lua", "return 1", 1)], vec![]))
        .expect("refresh");
    assert_eq!(report.added, names(&["new.lua"]));
    assert_eq!(store.len(), 2);
}

#[test]
fn failed_refresh_keeps_the_previous_version() {
    let mut store =
        ScriptStore::scan("d".to_string(), listing(vec![file("a.lua", "return 1", 1)], vec![])).expect("scan");
    let report = store.refresh(listing(vec![], vec![failed("a.lua")])).expect("refresh");
    assert_eq!(report.updated, Vec::<String>::new());
    assert_eq!(report.removed, Vec::<String>::new());
    assert_eq!(report.failed.len(), 1);
    assert_eq!(store.get("a.lua").expect("kept").text, "return 1");
}

#[test]
fn missing_directory_is_a_typed_error() {
    let missing = StoreError::DirectoryMissing { path: "nowhere".to_string() };
    match ScriptStore::scan("nowhere".to_string(), Err(missing.clone())) {
        Err(StoreError::DirectoryMissing { path }) => assert_eq!(path, "nowhere"),
        other => panic!("expected DirectoryMissing, got {other:?}"),
    }
    let mut store =
        ScriptStore::scan("d".to_string(), listing(vec![file("a.lua", "x", 1)], vec![])).expect("scan");
    assert!(matches!(store.refresh(Err(missing)), Err(StoreError::DirectoryMissing { .. })));
    assert_eq!(store.names(), names(&["a.lua"]));
    assert_eq!(store.last_report().added, names(&["a.lua"]));
}

#[test]
fn store_error_messages() {
    assert_eq!(
        StoreError::DirectoryMissing { path: "/tmp/x".to_string() }.message(),
        "script directory does not exist: /tmp/x"
    );
    assert_eq!(
        StoreError::Io { path: "/tmp/x".to_string(), message: "permission denied".to_string() }
            .message(),
        "cannot read script directory /tmp/x: permission denied"
    );
}

#[test]
fn reports_are_sorted_by_name() {
    let mut store = ScriptStore::scan(
        "d".to_string(),
        listing(
            vec![file("c.lua", "return 3", 1), file("a.lua", "return 1", 1), file("b.lua", "return 2", 1)],
            vec![],
        ),
    )
    .expect("scan");
    assert_eq!(store.last_report().added, names(&["a.lua", "b.lua", "c.lua"]));
    assert_eq!(store.names(), names(&["a.lua", "b.lua", "c.lua"]));

    let report = store
        .refresh(listing(
            vec![file("d.lua", "return 4", 2), file("c.lua", "return 3", 1), file("a.lua", "return 11", 2)],
            vec![failed("z.lua"), failed("b.lua"), failed("<directory listing>")],
        ))
        .expect("refresh");
    assert_eq!(report.updated, names(&["a.lua"]));
    assert_eq!(report.removed, Vec::<String>::new());
    assert_eq!(report.added, names(&["d.lua"]));
    let failed_names: Vec<&str> = report.failed.iter().map(|f| f.name.as_str()).collect();
    assert_eq!(failed_names, vec!["<directory listing>", "b.lua", "z.lua"]);
    assert_eq!(store.names(), names(&["a.lua", "b.lua", "c.lua", "d.lua"]));
    assert_eq!(store.get("b.lua").expect("kept").text, "return 2");
}

#[test]
fn failed_files_with_equal_names_keep_their_order() {
    let first = FailedFile { name: "<directory listing>".to_string(), reason: "first".to_string() };
    let second = FailedFile { name: "<directory listing>".to_string(), reason: "second".to_string() };
    let store = ScriptStore::scan(
        "d".to_string(),
        listing(vec![], vec![failed("b.lua"), first.clone(), second.clone()]),
    )
    .expect("scan");
    let report = store.last_report();
    assert_eq!(report.failed, vec![first, second, failed("b.lua")]);
    assert!(store.is_empty());
}

#[test]
fn every_stored_hash_is_the_hash_of_its_text() {
    let mut store = ScriptStore::scan(
        "d".to_string(),
        listing(vec![file("a.lua", "return 1", 1), file("b.lua", "return 2", 1)], vec![]),
    )
    .expect("scan");
    store
        .refresh(listing(vec![file("a.lua", "return 10", 2)], vec![failed("b.lua")]))
        .expect("refresh");
    for name in store.names() {
        let entry = store.get(&name).expect("held");
        assert_eq!(entry.hash, hash_text(&entry.text));
    }
    assert_eq!(store.get("a.lua").expect("held").hash, hash_text("return 10"));
    assert_eq!(store.get("b.lua").expect("held").text, "return 2");
}

#[test]
fn repeating_the_same_listing_reports_nothing() {
    let pass = || listing(vec![file("a.lua", "return 1", 3)], vec![failed("b.lua")]);
    let mut store = ScriptStore::scan(
        "d".to_string(),
        listing(vec![file("a.lua", "return 0", 1), file("b.lua", "return 2", 1)], vec![]),
    )
    .expect("scan");
    store.refresh(pass()).expect("first refresh");
    let names_before = store.names();
    let again = store.refresh(pass()).expect("second refresh");
    assert!(again.added.is_empty() && again.updated.is_empty() && again.removed.is_empty());
    assert_eq!(store.names(), names_before);
    assert_eq!(store.get("a.lua").expect("held").text, "return 1");
    assert_eq!(store.get("b.lua").expect("held").text, "return 2");
}
