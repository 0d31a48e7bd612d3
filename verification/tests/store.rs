use ringkv::store::{run_command, CommandKind, CommandStore};

fn cmd(parts: &[&str]) -> Vec<String> {
    parts.iter().map(|p| p.to_string()).collect()
}

#[test]
fn new_store_is_empty() {
    let store = CommandStore::new();
    assert_eq!(store.len(), 0);
    assert_eq!(store.get("a"), None);
}

#[test]
fn store_insert_reports_previous_value() {
    let mut store = CommandStore::new();
    assert_eq!(store.insert("a".to_string(), "b".to_string()), None);
    assert_eq!(store.insert("a".to_string(), "c".to_string()), Some("b".to_string()));
    assert_eq!(store.get("a"), Some("c".to_string()));
    assert_eq!(store.len(), 1);
}

#[test]
fn store_remove_reports_removed_value() {
    let mut store = CommandStore::new();
    store.insert("a".to_string(), "b".to_string());
    assert_eq!(store.remove("a"), Some("b".to_string()));
    assert_eq!(store.remove("a"), None);
    assert_eq!(store.len(), 0);
}

#[test]
fn set_then_get_yields_the_value() {
    let mut store = CommandStore::new();
    let set = run_command(&cmd(&["set", "a", "b"]), &mut store);
    assert_eq!(set.kind, CommandKind::Assign);
    assert_eq!(set.value, None);
    let get = run_command(&cmd(&["get", "a"]), &mut store);
    assert_eq!(get.kind, CommandKind::Lookup);
    assert_eq!(get.value, Some("b".to_string()));
    assert_eq!(store.len(), 1);
}

#[test]
fn set_overwrites_and_reports_previous() {
    let mut store = CommandStore::new();
    run_command(&cmd(&["set", "a", "b"]), &mut store);
    let again = run_command(&cmd(&["set", "a", "c"]), &mut store);
    assert_eq!(again.kind, CommandKind::Assign);
    assert_eq!(again.value, Some("b".to_string()));
    assert_eq!(store.get("a"), Some("c".to_string()));
}

#[test]
fn get_does_not_change_the_store() {
    let mut store = CommandStore::new();
    run_command(&cmd(&["set", "a", "b"]), &mut store);
    let miss = run_command(&cmd(&["get", "zz"]), &mut store);
    assert_eq!(miss.kind, CommandKind::Lookup);
    assert_eq!(miss.value, None);
    assert_eq!(store.len(), 1);
    assert_eq!(store.get("a"), Some("b".to_string()));
}

#[test]
fn del_removes_and_reports_the_value() {
    let mut store = CommandStore::new();
    run_command(&cmd(&["set", "a", "b"]), &mut store);
    let del = run_command(&cmd(&["del", "a"]), &mut store);
    assert_eq!(del.kind, CommandKind::Delete);
    assert_eq!(del.value, Some("b".to_string()));
    assert_eq!(store.get("a"), None);
    assert_eq!(store.len(), 0);
}

#[test]
fn del_of_absent_key_reports_nothing_and_changes_nothing() {
    let mut store = CommandStore::new();
    run_command(&cmd(&["set", "a", "b"]), &mut store);
    let del = run_command(&cmd(&["del", "missing"]), &mut store);
    assert_eq!(del.kind, CommandKind::Delete);
    assert_eq!(del.value, None);
    assert_eq!(store.len(), 1);
    assert_eq!(store.get("a"), Some("b".to_string()));
}

#[test]
fn unknown_operation_is_a_no_op() {
    let mut store = CommandStore::new();
    run_command(&cmd(&["set", "a", "b"]), &mut store);
    let out = run_command(&cmd(&["incr", "a"]), &mut store);
    assert_eq!(out.kind, CommandKind::Unknown);
    assert_eq!(out.value, None);
    assert_eq!(store.get("a"), Some("b".to_string()));
    let upper = run_command(&cmd(&["GET", "a"]), &mut store);
    assert_eq!(upper.kind, CommandKind::Unknown);
}

#[test]
fn short_command_lists_are_malformed() {
    let mut store = CommandStore::new();
    run_command(&cmd(&["set", "a", "b"]), &mut store);
    assert_eq!(run_command(&cmd(&[]), &mut store).kind, CommandKind::Malformed);
    assert_eq!(run_command(&cmd(&["get"]), &mut store).kind, CommandKind::Malformed);
    assert_eq!(run_command(&cmd(&["foo"]), &mut store).kind, CommandKind::Malformed);
    let set = run_command(&cmd(&["set", "a"]), &mut store);
    assert_eq!(set.kind, CommandKind::Malformed);
    assert_eq!(set.value, None);
    assert_eq!(store.get("a"), Some("b".to_string()));
    assert_eq!(store.len(), 1);
}

#[test]
fn extra_elements_are_ignored() {
    let mut store = CommandStore::new();
    run_command(&cmd(&["set", "a", "b", "c"]), &mut store);
    assert_eq!(store.get("a"), Some("b".to_string()));
    let get = run_command(&cmd(&["get", "a", "junk"]), &mut store);
    assert_eq!(get.value, Some("b".to_string()));
}
