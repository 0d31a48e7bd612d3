//! The command store: string keys to string values, changed by the three
//! commands `get`, `set` and `del`.

use vstd::prelude::*;
use vstd::hash_map::StringHashMap;

verus! {

/// Which command a list of strings turned out to be.
#[derive(Clone, Copy, Debug, PartialEq, Eq, Structural)]
pub enum CommandKind {
    /// `get key`: a lookup.
    Lookup,
    /// `set key value`: an insertion or overwrite.
    Assign,
    /// `del key`: a removal.
    Delete,
    /// Some other operation name: nothing was done.
    Unknown,
    /// Too few elements for the operation: nothing was done.
    Malformed,
}

/// The result of running one command.
#[derive(Debug)]
pub struct CommandOutcome {
    /// Which command ran.
    pub kind: CommandKind,
    /// For `get` the value found, for `set` the value replaced, for `del` the
    /// value removed; `None` where there was none, and for the other kinds.
    pub value: Option<String>,
}

/// The result of running one command, as a mathematical value.
pub struct OutcomeModel {
    pub kind: CommandKind,
    pub value: Option<Seq<char>>,
}

impl View for CommandOutcome {
    type V = OutcomeModel;

    open spec fn view(&self) -> OutcomeModel {
        OutcomeModel {
            kind: self.kind,
            value: match self.value {
                Some(s) => Some(s@),
                None => None,
            },
        }
    }
}

/// Which command `command` is: decided by its first element, provided the
/// list has at least two elements, and three for `set`.
pub open spec fn command_kind(command: Seq<Seq<char>>) -> CommandKind {
    if command.len() < 2 {
        CommandKind::Malformed
    } else if command[0] == "get"@ {
        CommandKind::Lookup
    } else if command[0] == "set"@ {
        if command.len() < 3 {
            CommandKind::Malformed
        } else {
            CommandKind::Assign
        }
    } else if command[0] == "del"@ {
        CommandKind::Delete
    } else {
        CommandKind::Unknown
    }
}

/// The store after running `command` on `store`.
pub open spec fn store_after(command: Seq<Seq<char>>, store: Map<Seq<char>, Seq<char>>) -> Map<
    Seq<char>,
    Seq<char>,
> {
    match command_kind(command) {
        CommandKind::Assign => store.insert(command[1], command[2]),
        CommandKind::Delete => store.remove(command[1]),
        _ => store,
    }
}

/// The value that running `command` on `store` reports: what was stored
/// under the key before, for the three commands; nothing otherwise.
pub open spec fn reported_value(
    command: Seq<Seq<char>>,
    store: Map<Seq<char>, Seq<char>>,
) -> Option<Seq<char>> {
    match command_kind(command) {
        CommandKind::Lookup | CommandKind::Assign | CommandKind::Delete => {
            if store.contains_key(command[1]) {
                Some(store[command[1]])
            } else {
                None
            }
        },
        _ => None,
    }
}

/// The outcome of running `command` on `store`.
pub open spec fn outcome_of(
    command: Seq<Seq<char>>,
    store: Map<Seq<char>, Seq<char>>,
) -> OutcomeModel {
    OutcomeModel { kind: command_kind(command), value: reported_value(command, store) }
}

/// Deleting a key that is not in the store reports no previous value and
/// leaves the store as it was.
pub proof fn lemma_del_absent(command: Seq<Seq<char>>, store: Map<Seq<char>, Seq<char>>)
    requires
        command.len() >= 2,
        command[0] == "del"@,
        !store.contains_key(command[1]),
    ensures
        outcome_of(command, store) == (OutcomeModel { kind: CommandKind::Delete, value: None }),
        store_after(command, store) == store,
{
    reveal_strlit("del");
    reveal_strlit("get");
    reveal_strlit("set");
    assert("del"@[0] != "get"@[0]);
    assert("del"@[0] != "set"@[0]);
    assert(store.remove(command[1]) =~= store);
}

/// A value that was set is what a later lookup of the same key finds.
pub proof fn lemma_get_after_set(
    key: Seq<char>,
    value: Seq<char>,
    store: Map<Seq<char>, Seq<char>>,
)
    ensures
        store_after(seq!["set"@, key, value], store) == store.insert(key, value),
        outcome_of(seq!["get"@, key], store_after(seq!["set"@, key, value], store)) == (
        OutcomeModel { kind: CommandKind::Lookup, value: Some(value) }),
{
    reveal_strlit("get");
    reveal_strlit("set");
    assert("set"@[0] != "get"@[0]);
}

/// The strings of a command list, as sequences of characters.
pub open spec fn strings_view(v: Seq<String>) -> Seq<Seq<char>> {
    v.map_values(|s: String| s@)
}

/// The in-memory mapping from keys to values.
pub struct CommandStore {
    map: StringHashMap<String>,
}

impl View for CommandStore {
    type V = Map<Seq<char>, Seq<char>>;

    closed spec fn view(&self) -> Map<Seq<char>, Seq<char>> {
        self.map@.map_values(|s: String| s@)
    }
}

impl CommandStore {
    /// An empty store.
    pub fn new() -> (s: Self)
        ensures
            s@ == Map::<Seq<char>, Seq<char>>::empty(),
    {
        let s = CommandStore { map: StringHashMap::new() };
        assert(s@ =~= Map::<Seq<char>, Seq<char>>::empty());
        s
    }

    /// The value stored under `key`, if any.
    pub fn get(&self, key: &str) -> (r: Option<String>)
        ensures
            r is Some <==> self@.contains_key(key@),
            r is Some ==> (r->0)@ == self@[key@],
    {
        match self.map.get(key) {
            Some(v) => Some(v.clone()),
            None => None,
        }
    }

    /// Stores `value` under `key` and returns the value it replaces, if any.
    pub fn insert(&mut self, key: String, value: String) -> (r: Option<String>)
        ensures
            final(self)@ == old(self)@.insert(key@, value@),
            r is Some <==> old(self)@.contains_key(key@),
            r is Some ==> (r->0)@ == old(self)@[key@],
    {
        let previous = self.get(key.as_str());
        self.map.insert(key, value);
        assert(self@ =~= old(self)@.insert(key@, value@));
        previous
    }

    /// Removes `key` and returns the value that was stored under it, if any.
    pub fn remove(&mut self, key: &str) -> (r: Option<String>)
        ensures
            final(self)@ == old(self)@.remove(key@),
            r is Some <==> old(self)@.contains_key(key@),
            r is Some ==> (r->0)@ == old(self)@[key@],
    {
        let previous = self.get(key);
        self.map.remove(key);
        assert(self@ =~= old(self)@.remove(key@));
        previous
    }

    /// The number of keys in the store.
    pub fn len(&self) -> (n: usize)
        ensures
            n == self@.len(),
    {
        broadcast use vstd::hash_map::axiom_string_hash_map_spec_len;

        assert(self@.dom() =~= self.map@.dom());
        self.map.len()
    }
}

/// Runs one command against the store.
///
/// `get key` looks the key up; `set key value` stores the value and reports
/// the one it replaces; `del key` removes the key and reports what it held.
/// Any other operation name does nothing. A list of fewer than two strings,
/// or a `set` without a value, is malformed and does nothing. Elements after
/// those that the operation uses are ignored.
pub fn run_command(command: &Vec<String>, state: &mut CommandStore) -> (outcome: CommandOutcome)
    ensures
        outcome@ == outcome_of(strings_view(command@), old(state)@),
        final(state)@ == store_after(strings_view(command@), old(state)@),
{
    let ghost cmd = strings_view(command@);
    if command.len() < 2 {
        return CommandOutcome { kind: CommandKind::Malformed, value: None };
    }
    assert(cmd[0] == command@[0]@);
    assert(cmd[1] == command@[1]@);
    let op = &command[0];
    let key = command[1].as_str();
    if *op == "get".to_owned() {
        let value = state.get(key);
        CommandOutcome { kind: CommandKind::Lookup, value }
    } else if *op == "set".to_owned() {
        if command.len() < 3 {
            return CommandOutcome { kind: CommandKind::Malformed, value: None };
        }
        assert(cmd[2] == command@[2]@);
        let value = state.insert(command[1].clone(), command[2].clone());
        CommandOutcome { kind: CommandKind::Assign, value }
    } else if *op == "del".to_owned() {
        let value = state.remove(key);
        CommandOutcome { kind: CommandKind::Delete, value }
    } else {
        CommandOutcome { kind: CommandKind::Unknown, value: None }
    }
}

} // verus!
