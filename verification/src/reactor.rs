//! The bookkeeping of a reactor: which agent answers to which token, and
//! which tokens are free.  Polling and the agents' own I/O happen around
//! it.
use vstd::prelude::*;
use vstd::multiset::Multiset;
use std::collections::HashMap;
use std::collections::hash_map::Entry;
use crate::tokenpool::{accounts_for, pool_pop, pool_push, tokens_within, PoolModel, TokenPool};

verus! {

broadcast use vstd::std_specs::hash::group_hash_axioms;

/// Why the reactor refused a request.
#[derive(Clone, Copy, Debug, PartialEq, Eq, Structural)]
pub enum ReactorError {
    /// Every token is in use: too many connections.
    ConnectionsExhausted,
}

/// The abstract state of a [`Reactor`].
pub struct ReactorModel<A> {
    /// The agents, by token.
    pub agents: Map<usize, A>,
    /// The tokens not in use.
    pub tokens: PoolModel,
}

/// A finite set of numbers below `n` has at most `n` elements.
proof fn lemma_bounded_set_len(s: Set<usize>, n: nat)
    requires
        s.finite(),
        n <= usize::MAX,
        forall|t: usize| s.contains(t) ==> t < n,
    ensures
        s.len() <= n,
    decreases n,
{
    if n == 0 {
        assert(s =~= Set::<usize>::empty());
    } else {
        let top = (n - 1) as usize;
        let rest = s.remove(top);
        lemma_bounded_set_len(rest, (n - 1) as nat);
    }
}

/// Agents registered under tokens from a bounded pool.
pub struct Reactor<A> {
    agents: HashMap<usize, A>,
    tokens: TokenPool,
}

impl<A> View for Reactor<A> {
    type V = ReactorModel<A>;

    closed spec fn view(&self) -> ReactorModel<A> {
        ReactorModel { agents: self.agents@, tokens: self.tokens@ }
    }
}

impl<A> Reactor<A> {
    /// Every token is either free or held by exactly one agent.
    pub closed spec fn wf(&self) -> bool {
        &&& accounts_for(self.tokens@, self.agents@.dom())
        &&& tokens_within(self.tokens@, self.agents@.dom(), 0)
    }

    /// What a consistent reactor guarantees: every token is either free or
    /// held by one agent, every token lies below the ceiling, so there are
    /// never more agents than tokens.
    pub proof fn lemma_wf(&self)
        requires
            self.wf(),
        ensures
            accounts_for(self@.tokens, self@.agents.dom()),
            tokens_within(self@.tokens, self@.agents.dom(), 0),
            self@.agents.len() <= self@.tokens.ceiling,
    {
        lemma_bounded_set_len(self.agents@.dom(), self.tokens@.ceiling as nat);
    }

    /// A reactor for at most `max_connections` agents at a time, with
    /// tokens `0 .. max_connections`.
    pub fn new(max_connections: usize) -> (reactor: Self)
        ensures
            reactor.wf(),
            reactor@.agents == Map::<usize, A>::empty(),
            reactor@.tokens == (PoolModel {
                floor: 0,
                ceiling: max_connections,
                returned: Multiset::<usize>::empty(),
            }),
    {
        let reactor = Reactor { agents: HashMap::new(), tokens: TokenPool::new(0, max_connections) };
        assert(reactor.agents@.dom() =~= Set::<usize>::empty());
        reactor
    }

    /// How many agents are registered.
    pub fn len(&self) -> (n: usize)
        ensures
            n == self@.agents.len(),
    {
        self.agents.len()
    }

    /// Registers `agent` under the lowest free token and returns that
    /// token; refuses when every token is in use.
    pub fn add_agent(&mut self, agent: A) -> (res: Result<usize, ReactorError>)
        requires
            old(self).wf(),
        ensures
            final(self).wf(),
            match res {
                Ok(t) => {
                    &&& pool_pop(old(self)@.tokens) == (final(self)@.tokens, Some(t))
                    &&& !old(self)@.agents.contains_key(t)
                    &&& final(self)@.agents == old(self)@.agents.insert(t, agent)
                },
                Err(e) => {
                    &&& e == ReactorError::ConnectionsExhausted
                    &&& pool_pop(old(self)@.tokens).1 is None
                    &&& final(self)@ == old(self)@
                },
            },
    {
        let ghost held = self.agents@.dom();
        proof {
            crate::tokenpool::law_pop_hands_out_a_free_token(self.tokens@, held);
            crate::tokenpool::law_pop_stays_within_range(self.tokens@, held, 0);
        }
        match self.tokens.pop() {
            Some(t) => {
                self.agents.insert(t, agent);
                assert(self.agents@.dom() =~= held.insert(t));
                Ok(t)
            },
            None => Err(ReactorError::ConnectionsExhausted),
        }
    }

    /// Whether an agent is registered under `token`.
    pub fn contains(&self, token: usize) -> (registered: bool)
        ensures
            registered == self@.agents.contains_key(token),
    {
        self.agents.contains_key(&token)
    }

    /// Takes out the agent registered under `token` and frees the token.
    pub fn rem_agent(&mut self, token: usize) -> (agent: A)
        requires
            old(self).wf(),
            old(self)@.agents.contains_key(token),
        ensures
            final(self).wf(),
            agent == old(self)@.agents[token],
            final(self)@.agents == old(self)@.agents.remove(token),
            final(self)@.tokens == pool_push(old(self)@.tokens, token),
    {
        let ghost held = self.agents@.dom();
        let agent = self.agents.remove(&token).unwrap();
        proof {
            crate::tokenpool::law_push_of_a_held_token(self.tokens@, held, token);
            crate::tokenpool::law_push_stays_within_range(self.tokens@, held, 0, token);
            assert(self.agents@.dom() =~= held.remove(token));
        }
        self.tokens.push(token);
        agent
    }

    /// The agent registered under `token`, to act on.
    pub fn agent_mut(&mut self, token: usize) -> (agent: Option<&mut A>)
        requires
            old(self).wf(),
        ensures
            final(self).wf(),
            final(self)@.tokens == old(self)@.tokens,
            match agent {
                Some(a) => {
                    &&& old(self)@.agents.contains_key(token)
                    &&& *a == old(self)@.agents[token]
                    &&& final(self)@.agents == old(self)@.agents.insert(token, *final(a))
                },
                None => !old(self)@.agents.contains_key(token) && final(self)@ == old(self)@,
            },
    {
        if !self.agents.contains_key(&token) {
            return None;
        }
        match self.agents.entry(token) {
            Entry::Occupied(o) => Some(o.into_mut()),
            Entry::Vacant(_) => None,
        }
    }
}

} // verus!
