use wsllink::error::LinkError;
use wsllink::manager::{add, list, remove};
use wsllink::store::LinkStore;

fn names(v: &[&str]) -> Vec<String> {
    v.iter().map(|s| s.to_string()).collect()
}

#[test]
fn add_then_linked_remove_then_not() {
    let mut store = LinkStore::new("C:\\links".to_string());
    assert!(!store.is_linked("grep"));
    let added = add(&mut store, &names(&["grep"]));
    assert_eq!(added.len(), 1);
    assert_eq!(added[0], Ok("C:\\links\\grep.exe".to_string()));
    assert!(store.is_linked("grep"));
    let removed = remove(&mut store, &names(&["grep"]));
    assert_eq!(removed.len(), 1);
    assert_eq!(removed[0], Ok("C:\\links\\grep.exe".to_string()));
    assert!(!store.is_linked("grep"));
}

#[test]
fn second_add_reports_already_linked() {
    let mut store = LinkStore::new("C:\\links".to_string());
    let first = add(&mut store, &names(&["sed"]));
    assert!(first[0].is_ok());
    let second = add(&mut store, &names(&["sed"]));
    assert_eq!(second[0], Err(LinkError::AlreadyLinked));
    assert_eq!(store.len(), 1);
    assert!(store.is_linked("sed"));
}

#[test]
fn add_same_name_twice_in_one_batch() {
    let mut store = LinkStore::new("C:\\links".to_string());
    let results = add(&mut store, &names(&["awk", "awk"]));
    assert_eq!(results.len(), 2);
    assert_eq!(results[0], Ok("C:\\links\\awk.exe".to_string()));
    assert_eq!(results[1], Err(LinkError::AlreadyLinked));
    assert_eq!(store.len(), 1);
}

#[test]
fn remove_absent_reports_not_linked_and_mutates_nothing() {
    let mut store = LinkStore::new("C:\\links".to_string());
    add(&mut store, &names(&["ls"]));
    let results = remove(&mut store, &names(&["cat"]));
    assert_eq!(results, vec![Err(LinkError::NotLinked)]);
    assert_eq!(store.len(), 1);
    assert!(store.is_linked("ls"));
    assert!(!store.is_linked("cat"));
}

#[test]
fn list_covers_exactly_what_was_added() {
    let mut store = LinkStore::new("C:\\links".to_string());
    add(&mut store, &names(&["b", "a"]));
    let entries = list(&store);
    assert_eq!(entries.len(), 2);
    assert_eq!(entries[0].name, "a");
    assert_eq!(entries[1].name, "b");
    for e in &entries {
        assert!(store.is_linked(&e.name));
        assert_eq!(e.target, e.name);
        assert_eq!(e.launcher_path, format!("C:\\links\\{}.exe", e.name));
    }
}

#[test]
fn enumerate_is_sorted_by_name() {
    let mut store = LinkStore::new("C:\\links".to_string());
    add(&mut store, &names(&["zeta", "alpha", "midway"]));
    assert_eq!(store.enumerate(), vec!["alpha", "midway", "zeta"]);
}

#[test]
fn batch_continues_past_a_failure() {
    let mut store = LinkStore::new("C:\\links".to_string());
    add(&mut store, &names(&["x"]));
    let results = add(&mut store, &names(&["x", "y"]));
    assert_eq!(results.len(), 2);
    assert_eq!(results[0], Err(LinkError::AlreadyLinked));
    assert_eq!(results[1], Ok("C:\\links\\y.exe".to_string()));
    assert!(store.is_linked("y"));
    assert_eq!(store.len(), 2);
}

#[test]
fn error_descriptions_are_name_scoped_fragments() {
    assert_eq!(LinkError::AlreadyLinked.describe(), "already linked");
    assert_eq!(LinkError::NotLinked.describe(), "not linked");
    assert_eq!(
        LinkError::UnmappablePath.describe(),
        "path not reachable from the subsystem"
    );
    assert_eq!(LinkError::SubsystemUnavailable.describe(), "subsystem unavailable");
    assert_eq!(LinkError::IoFailure.describe(), "filesystem operation failed");
}
