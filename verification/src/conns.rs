//! The live connections: for each connection identifier, the token that
//! stands for its pending operation and the commands decoded so far.

use vstd::prelude::*;
use std::collections::HashMap;
use crate::store::strings_view;

verus! {

broadcast use vstd::std_specs::hash::group_hash_axioms;

/// What is kept for one live connection.
pub struct Connection {
    token: usize,
    commands: Vec<String>,
}

/// What is kept for one live connection, as a mathematical value.
pub struct ConnModel {
    /// The key of the token that describes the connection's pending operation.
    pub token: usize,
    /// The payloads decoded so far, oldest first.
    pub commands: Seq<Seq<char>>,
}

impl View for Connection {
    type V = ConnModel;

    closed spec fn view(&self) -> ConnModel {
        ConnModel { token: self.token, commands: strings_view(self.commands@) }
    }
}

/// The table of live connections.
pub struct ConnTable {
    map: HashMap<i32, Connection>,
}

impl View for ConnTable {
    type V = Map<i32, ConnModel>;

    closed spec fn view(&self) -> Map<i32, ConnModel> {
        self.map@.map_values(|c: Connection| c@)
    }
}

impl ConnTable {
    /// A table with no connection.
    pub fn new() -> (t: Self)
        ensures
            t@ == Map::<i32, ConnModel>::empty(),
    {
        let t = ConnTable { map: HashMap::new() };
        assert(t@ =~= Map::<i32, ConnModel>::empty());
        t
    }

    /// Whether `fd` is a live connection.
    pub fn contains(&self, fd: i32) -> (r: bool)
        ensures
            r == self@.contains_key(fd),
    {
        self.map.contains_key(&fd)
    }

    /// The key of the token that describes the pending operation of `fd`, if
    /// `fd` is a live connection.
    pub fn token_of(&self, fd: i32) -> (r: Option<usize>)
        ensures
            r is Some <==> self@.contains_key(fd),
            r is Some ==> r->0 == self@[fd].token,
    {
        match self.map.get(&fd) {
            Some(c) => Some(c.token),
            None => None,
        }
    }

    /// Registers `fd` as a live connection with an empty command list, its
    /// pending operation described by `token`. Returns `false`, and changes
    /// nothing, when `fd` is already live.
    pub fn open(&mut self, fd: i32, token: usize) -> (done: bool)
        ensures
            done == !old(self)@.contains_key(fd),
            done ==> final(self)@ == old(self)@.insert(
                fd,
                ConnModel { token, commands: Seq::empty() },
            ),
            !done ==> final(self)@ == old(self)@,
    {
        if self.map.contains_key(&fd) {
            return false;
        }
        let c = Connection { token, commands: Vec::new() };
        assert(c@.commands =~= Seq::<Seq<char>>::empty());
        self.map.insert(fd, c);
        assert(self@ =~= old(self)@.insert(fd, ConnModel { token, commands: Seq::empty() }));
        true
    }

    /// Appends a decoded payload to the command list of `fd`. Returns
    /// `false`, and changes nothing, when `fd` is not a live connection.
    pub fn push(&mut self, fd: i32, payload: String) -> (done: bool)
        ensures
            done == old(self)@.contains_key(fd),
            done ==> final(self)@ == old(self)@.insert(
                fd,
                ConnModel {
                    token: old(self)@[fd].token,
                    commands: old(self)@[fd].commands.push(payload@),
                },
            ),
            !done ==> final(self)@ == old(self)@,
    {
        match self.map.remove(&fd) {
            Some(c) => {
                let ghost before = c@;
                let Connection { token, mut commands } = c;
                commands.push(payload);
                let c2 = Connection { token, commands };
                assert(c2@.commands =~= before.commands.push(payload@));
                self.map.insert(fd, c2);
                assert(self@ =~= old(self)@.insert(
                    fd,
                    ConnModel {
                        token: old(self)@[fd].token,
                        commands: old(self)@[fd].commands.push(payload@),
                    },
                ));
                true
            },
            None => {
                assert(self@ =~= old(self)@);
                false
            },
        }
    }

    /// Forgets connection `fd` and hands back its command list; `None`, and
    /// no change, when `fd` is not a live connection.
    pub fn close(&mut self, fd: i32) -> (r: Option<Vec<String>>)
        ensures
            r is Some <==> old(self)@.contains_key(fd),
            r is Some ==> strings_view((r->0)@) == old(self)@[fd].commands,
            final(self)@ == old(self)@.remove(fd),
    {
        let r = match self.map.remove(&fd) {
            Some(c) => Some(c.commands),
            None => None,
        };
        assert(self@ =~= old(self)@.remove(fd));
        r
    }

    /// The number of live connections.
    pub fn len(&self) -> (n: usize)
        ensures
            n == self@.len(),
    {
        assert(self@.dom() =~= self.map@.dom());
        self.map.len()
    }
}

} // verus!
