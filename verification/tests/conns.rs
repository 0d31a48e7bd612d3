use ringkv::conns::ConnTable;

#[test]
fn open_registers_a_connection_once() {
    let mut table = ConnTable::new();
    assert_eq!(table.len(), 0);
    assert!(!table.contains(5));
    assert!(table.open(5, 1));
    assert!(table.contains(5));
    assert_eq!(table.token_of(5), Some(1));
    assert!(!table.open(5, 2));
    assert_eq!(table.token_of(5), Some(1));
    assert_eq!(table.len(), 1);
}

#[test]
fn push_appends_in_order() {
    let mut table = ConnTable::new();
    table.open(5, 1);
    table.open(6, 2);
    assert!(table.push(5, "set".to_string()));
    assert!(table.push(6, "get".to_string()));
    assert!(table.push(5, "a".to_string()));
    assert!(!table.push(7, "x".to_string()));
    assert_eq!(table.token_of(5), Some(1));
    assert_eq!(table.close(5), Some(vec!["set".to_string(), "a".to_string()]));
    assert_eq!(table.close(6), Some(vec!["get".to_string()]));
}

#[test]
fn close_forgets_the_connection() {
    let mut table = ConnTable::new();
    table.open(5, 1);
    table.push(5, "set".to_string());
    assert_eq!(table.close(5), Some(vec!["set".to_string()]));
    assert!(!table.contains(5));
    assert_eq!(table.close(5), None);
    assert_eq!(table.token_of(5), None);
    assert!(table.open(5, 3));
    assert_eq!(table.close(5), Some(vec![]));
}
