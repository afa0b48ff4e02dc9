//! The bookkeeping of the single-listener server: which connection has
//! which token, with tokens from an unbounded allocator.  A token comes
//! back only when its connection left the poll cleanly.
use vstd::prelude::*;
use std::collections::HashMap;
use std::collections::hash_map::Entry;
use crate::tokenpool::{accounts_for, pool_pop, pool_push, PoolModel};
use crate::tokenqueue::NextFree;

verus! {

broadcast use vstd::std_specs::hash::group_hash_axioms;

/// The abstract state of a [`Clients`] table.
pub struct ClientsModel<A> {
    /// The connections, by token.
    pub connections: Map<usize, A>,
    /// The tokens not in use.
    pub tokens: PoolModel,
}

/// Connections registered under tokens.
pub struct Clients<A> {
    connections: HashMap<usize, A>,
    tokens: NextFree,
}

impl<A> View for Clients<A> {
    type V = ClientsModel<A>;

    closed spec fn view(&self) -> ClientsModel<A> {
        ClientsModel { connections: self.connections@, tokens: self.tokens@ }
    }
}

impl<A> Clients<A> {
    /// No token is held by two connections, nor both held and free.
    pub closed spec fn wf(&self) -> bool {
        accounts_for(self.tokens@, self.connections@.dom())
    }

    /// What a consistent table guarantees: every token is free, held by
    /// one connection, or lost, never two of these.
    pub proof fn lemma_wf(&self)
        requires
            self.wf(),
        ensures
            accounts_for(self@.tokens, self@.connections.dom()),
    {
    }

    /// An empty table whose tokens start at `first`.
    pub fn new(first: usize) -> (clients: Self)
        ensures
            clients.wf(),
            clients@.connections == Map::<usize, A>::empty(),
            clients@.tokens.floor == first,
            clients@.tokens.returned.len() == 0,
    {
        let mut tokens = NextFree::new();
        let mut skipped: usize = 0;
        while skipped < first
            invariant
                skipped <= first,
                tokens@.floor == skipped,
                tokens@.ceiling == usize::MAX,
                tokens@.returned.len() == 0,
            decreases first - skipped,
        {
            tokens.pop();
            skipped = skipped + 1;
        }
        let clients = Clients { connections: HashMap::new(), tokens };
        assert(clients.connections@.dom() =~= Set::<usize>::empty());
        clients
    }

    /// Whether [`Clients::accept`] can hand out a token.
    pub fn has_next(&self) -> (available: bool)
        ensures
            available == (self@.tokens.returned.len() > 0 || self@.tokens.floor < usize::MAX),
    {
        self.tokens.has_next()
    }

    /// Whether a connection is registered under `token`.
    pub fn contains(&self, token: usize) -> (registered: bool)
        ensures
            registered == self@.connections.contains_key(token),
    {
        self.connections.contains_key(&token)
    }

    /// Registers `conn` under the lowest free token and returns it.
    pub fn accept(&mut self, conn: A) -> (token: usize)
        requires
            old(self).wf(),
            old(self)@.tokens.returned.len() > 0 || old(self)@.tokens.floor < usize::MAX,
        ensures
            final(self).wf(),
            pool_pop(old(self)@.tokens) == (final(self)@.tokens, Some(token)),
            !old(self)@.connections.contains_key(token),
            final(self)@.connections == old(self)@.connections.insert(token, conn),
    {
        let ghost held = self.connections@.dom();
        proof {
            crate::tokenpool::law_pop_hands_out_a_free_token(self.tokens@, held);
        }
        let token = self.tokens.pop();
        self.connections.insert(token, conn);
        assert(self.connections@.dom() =~= held.insert(token));
        token
    }

    /// Takes out the connection under `token`.  Its token is freed when
    /// the connection left the poll cleanly (`deregistered`), and is
    /// otherwise never handed out again.
    pub fn close(&mut self, token: usize, deregistered: bool) -> (conn: Option<A>)
        requires
            old(self).wf(),
        ensures
            final(self).wf(),
            old(self)@.connections.contains_key(token) ==> {
                &&& conn == Some(old(self)@.connections[token])
                &&& final(self)@.connections == old(self)@.connections.remove(token)
                &&& final(self)@.tokens == if deregistered {
                    pool_push(old(self)@.tokens, token)
                } else {
                    old(self)@.tokens
                }
            },
            !old(self)@.connections.contains_key(token) ==> conn is None && final(self)@ == old(
                self,
            )@,
    {
        let ghost held = self.connections@.dom();
        match self.connections.remove(&token) {
            Some(conn) => {
                assert(self.connections@.dom() =~= held.remove(token));
                if deregistered {
                    proof {
                        crate::tokenpool::law_push_of_a_held_token(self.tokens@, held, token);
                    }
                    self.tokens.push(token);
                }
                Some(conn)
            },
            None => {
                assert(self.connections@ =~= old(self)@.connections);
                None
            },
        }
    }

    /// The connection registered under `token`, to act on.
    pub fn get_mut(&mut self, token: usize) -> (conn: Option<&mut A>)
        requires
            old(self).wf(),
        ensures
            final(self).wf(),
            final(self)@.tokens == old(self)@.tokens,
            match conn {
                Some(c) => {
                    &&& old(self)@.connections.contains_key(token)
                    &&& *c == old(self)@.connections[token]
                    &&& final(self)@.connections == old(self)@.connections.insert(token, *final(c))
                },
                None => !old(self)@.connections.contains_key(token) && final(self)@ == old(self)@,
            },
    {
        if !self.connections.contains_key(&token) {
            return None;
        }
        match self.connections.entry(token) {
            Entry::Occupied(o) => Some(o.into_mut()),
            Entry::Vacant(_) => None,
        }
    }
}

} // verus!
