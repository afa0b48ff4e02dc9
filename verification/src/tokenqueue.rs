//! Connection tokens for the server: an unbounded allocator that always
//! hands out the lowest free token, and the bounded [`TokenPool`].
use vstd::prelude::*;
use vstd::multiset::Multiset;
use crate::tokenpool::{pool_pop, pool_push, PoolModel};

pub use crate::tokenpool::TokenPool;

verus! {

/// Hands out the lowest free token, starting from 0: a token given back
/// with [`NextFree::push`] is reused before any new one.
pub struct NextFree {
    pool: TokenPool,
}

impl View for NextFree {
    type V = PoolModel;

    closed spec fn view(&self) -> PoolModel {
        self.pool@
    }
}

impl NextFree {
    #[verifier::type_invariant]
    spec fn unbounded(self) -> bool {
        self.pool@.ceiling == usize::MAX
    }

    /// An allocator whose first token is 0.
    pub fn new() -> (queue: Self)
        ensures
            queue@.floor == 0,
            queue@.ceiling == usize::MAX,
            queue@.returned == Multiset::<usize>::empty(),
    {
        NextFree { pool: TokenPool::new(0, usize::MAX) }
    }

    /// Whether [`NextFree::pop`] can hand out a token.
    pub fn has_next(&self) -> (available: bool)
        ensures
            available == (self@.returned.len() > 0 || self@.floor < usize::MAX),
    {
        proof {
            use_type_invariant(self);
        }
        self.pool.has_next()
    }

    /// The lowest token given back, or else the next new token.
    ///
    /// Every token below `usize::MAX` can be handed out; the counter of new
    /// tokens cannot step past `usize::MAX`.
    pub fn pop(&mut self) -> (token: usize)
        requires
            old(self)@.returned.len() > 0 || old(self)@.floor < usize::MAX,
        ensures
            (final(self)@, Some(token)) == pool_pop(old(self)@),
    {
        proof {
            use_type_invariant(&*self);
        }
        let mut pool = TokenPool::new(0, usize::MAX);
        std::mem::swap(&mut pool, &mut self.pool);
        let token = pool.pop();
        self.pool = pool;
        match token {
            Some(t) => t,
            None => {
                // The precondition leaves a token to hand out.
                proof {
                    assert(false);
                }
                0
            },
        }
    }

    /// Gives `position` back.
    pub fn push(&mut self, position: usize)
        ensures
            final(self)@ == pool_push(old(self)@, position),
    {
        proof {
            use_type_invariant(&*self);
        }
        let mut pool = TokenPool::new(0, usize::MAX);
        std::mem::swap(&mut pool, &mut self.pool);
        pool.push(position);
        self.pool = pool;
    }
}

} // verus!
