use ringkv::registry::TokenTable;
use ringkv::token::{MessageState, Token};

#[test]
fn token_keys_are_dense_from_zero() {
    let mut table = TokenTable::new();
    assert_eq!(table.insert(Token::Accept), 0);
    assert_eq!(table.insert(Token::Poll { fd: 7, state: MessageState::Header }), 1);
    assert_eq!(table.insert(Token::Poll { fd: 8, state: MessageState::Header }), 2);
}

#[test]
fn token_get_returns_what_was_inserted() {
    let mut table = TokenTable::new();
    let a = table.insert(Token::Accept);
    let p = table.insert(Token::Poll { fd: 7, state: MessageState::Header });
    assert_eq!(table.get(a), Some(Token::Accept));
    assert_eq!(table.get(p), Some(Token::Poll { fd: 7, state: MessageState::Header }));
    assert_eq!(table.get(2), None);
    assert_eq!(table.get(usize::MAX), None);
}

#[test]
fn token_replace_keeps_the_key() {
    let mut table = TokenTable::new();
    let a = table.insert(Token::Accept);
    let p = table.insert(Token::Poll { fd: 7, state: MessageState::Header });
    let read = Token::Read { fd: 7, buf_index: 3, state: MessageState::Header, want: 4 };
    assert!(table.replace(p, read));
    assert_eq!(table.get(p), Some(read));
    assert_eq!(table.get(a), Some(Token::Accept));
    assert_eq!(table.insert(Token::Accept), 2);
}

#[test]
fn token_replace_of_missing_key_changes_nothing() {
    let mut table = TokenTable::new();
    table.insert(Token::Accept);
    assert!(!table.replace(5, Token::Poll { fd: 1, state: MessageState::Header }));
    assert_eq!(table.get(5), None);
    assert_eq!(table.get(0), Some(Token::Accept));
}

#[test]
fn token_remove_invalidates_the_key() {
    let mut table = TokenTable::new();
    table.insert(Token::Accept);
    let p = table.insert(Token::Poll { fd: 7, state: MessageState::Header });
    assert_eq!(table.remove(p), Some(Token::Poll { fd: 7, state: MessageState::Header }));
    assert_eq!(table.get(p), None);
    assert_eq!(table.remove(p), None);
    assert_eq!(table.remove(9), None);
}

#[test]
fn token_keys_are_reused_most_recent_first() {
    let mut table = TokenTable::new();
    for fd in 0..4 {
        table.insert(Token::Poll { fd, state: MessageState::Header });
    }
    table.remove(1);
    table.remove(3);
    assert_eq!(table.insert(Token::Accept), 3);
    assert_eq!(table.insert(Token::Accept), 1);
    assert_eq!(table.insert(Token::Accept), 4);
}
