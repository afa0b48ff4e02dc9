//! A pool of integer tokens: fresh tokens are handed out in increasing
//! order from a floor up to (not including) a ceiling, and tokens given
//! back to the pool are handed out again, always the lowest one first.
use vstd::prelude::*;
use vstd::multiset::Multiset;

verus! {

broadcast use vstd::seq_lib::group_to_multiset_ensures;

/// The abstract state of a [`TokenPool`].
pub struct PoolModel {
    /// The next fresh token.
    pub floor: usize,
    /// Fresh tokens are strictly below this bound.
    pub ceiling: usize,
    /// Tokens given back and not yet handed out again.
    pub returned: Multiset<usize>,
}

/// `t` is a lowest element of `m`.
pub open spec fn is_lowest(m: Multiset<usize>, t: usize) -> bool {
    &&& m.count(t) > 0
    &&& forall|x: usize| m.count(x) > 0 ==> t <= x
}

/// The lowest element of a non-empty multiset.
pub open spec fn lowest(m: Multiset<usize>) -> usize {
    choose|t: usize| is_lowest(m, t)
}

/// What `pop` does to a pool, and what it hands out.
pub open spec fn pool_pop(p: PoolModel) -> (PoolModel, Option<usize>) {
    if p.returned.len() > 0 {
        let t = lowest(p.returned);
        (PoolModel { returned: p.returned.remove(t), ..p }, Some(t))
    } else if p.floor < p.ceiling {
        (PoolModel { floor: (p.floor + 1) as usize, ..p }, Some(p.floor))
    } else {
        (p, None)
    }
}

/// What `push` does to a pool.
pub open spec fn pool_push(p: PoolModel, t: usize) -> PoolModel {
    PoolModel { returned: p.returned.insert(t), ..p }
}

/// A lowest element is unique.
pub proof fn lemma_lowest_unique(m: Multiset<usize>, t: usize)
    requires
        is_lowest(m, t),
    ensures
        lowest(m) == t,
{
    let u = lowest(m);
    assert(is_lowest(m, u));
    assert(u <= t && t <= u);
}

/// Every non-empty multiset of tokens has a lowest element.
pub proof fn lemma_lowest_exists(m: Multiset<usize>)
    requires
        m.len() > 0,
    ensures
        is_lowest(m, lowest(m)),
    decreases m.len(),
{
    let c = m.choose();
    let rest = m.remove(c);
    if rest.len() == 0 {
        assert forall|x: usize| m.count(x) > 0 implies c <= x by {
            if x != c {
                assert(rest.count(x) == m.count(x));
            } else {
                assert(m.count(c) > 0);
            }
        }
        assert(is_lowest(m, c));
    } else {
        lemma_lowest_exists(rest);
        let r = lowest(rest);
        if c <= r {
            assert forall|x: usize| m.count(x) > 0 implies c <= x by {
                if x != c {
                    assert(rest.count(x) == m.count(x));
                }
            }
            assert(is_lowest(m, c));
        } else {
            assert forall|x: usize| m.count(x) > 0 implies r <= x by {
                if x != c {
                    assert(rest.count(x) == m.count(x));
                }
            }
            assert(m.count(r) >= rest.count(r));
            assert(is_lowest(m, r));
        }
    }
}

/// Every token is accounted for once: a returned token waits in the pool at
/// most once and is not also held by someone, and every returned or held
/// token lies below the floor, so no fresh token can collide with one.
pub open spec fn accounts_for(p: PoolModel, held: Set<usize>) -> bool {
    &&& forall|t: usize| p.returned.count(t) <= 1
    &&& forall|t: usize| p.returned.count(t) > 0 ==> !held.contains(t) && t < p.floor
    &&& forall|t: usize| held.contains(t) ==> t < p.floor
}

/// A new pool, with nothing handed out yet, accounts for every token.
pub proof fn law_new_pool_accounts_for_all(floor: usize, ceiling: usize)
    ensures
        accounts_for(
            PoolModel { floor, ceiling, returned: Multiset::<usize>::empty() },
            Set::<usize>::empty(),
        ),
{
}

/// Popping never hands out a token that someone still holds, and the
/// token handed out is then held once.
pub proof fn law_pop_hands_out_a_free_token(p: PoolModel, held: Set<usize>)
    requires
        accounts_for(p, held),
    ensures
        match pool_pop(p) {
            (q, Some(t)) => !held.contains(t) && accounts_for(q, held.insert(t)),
            (q, None) => q == p,
        },
{
    if p.returned.len() > 0 {
        lemma_lowest_exists(p.returned);
        let t = lowest(p.returned);
        let q = pool_pop(p).0;
        assert(q.returned.count(t) == 0);
        assert forall|x: usize| q.returned.count(x) > 0 implies !held.insert(t).contains(x) && x < q.floor by {
            if x == t {
                assert(q.returned.count(x) == 0);
            }
            assert(q.returned.count(x) == p.returned.count(x));
            assert(p.returned.count(x) > 0);
            assert(!held.contains(x));
        }
        assert(!held.contains(t));
        assert(accounts_for(q, held.insert(t)));
        assert forall|x: usize| q.returned.count(x) <= 1 by {
            if x != t {
                assert(q.returned.count(x) == p.returned.count(x));
            }
        }
    }
}

/// Giving back a held token makes it waiting once and no longer held.
pub proof fn law_push_of_a_held_token(p: PoolModel, held: Set<usize>, t: usize)
    requires
        accounts_for(p, held),
        held.contains(t),
    ensures
        accounts_for(pool_push(p, t), held.remove(t)),
{
    let q = pool_push(p, t);
    assert(p.returned.count(t) == 0);
    assert forall|x: usize| q.returned.count(x) <= 1 by {
        if x != t {
            assert(q.returned.count(x) == p.returned.count(x));
        }
    }
    assert forall|x: usize| q.returned.count(x) > 0 implies !held.remove(t).contains(x) && x < q.floor by {
        if x != t {
            assert(q.returned.count(x) == p.returned.count(x));
        }
    }
}

/// Every token waiting in the pool or held outside it lies between the
/// first floor `lo` and the ceiling, and the floor never moves past the
/// ceiling (it stays at `lo` when it started there or above).
pub open spec fn tokens_within(p: PoolModel, held: Set<usize>, lo: usize) -> bool {
    &&& lo <= p.floor
    &&& (p.floor <= p.ceiling || p.floor == lo)
    &&& forall|t: usize| p.returned.count(t) > 0 ==> lo <= t < p.ceiling
    &&& forall|t: usize| held.contains(t) ==> lo <= t < p.ceiling
}

/// A new pool starts within its range.
pub proof fn law_new_pool_is_within_range(floor: usize, ceiling: usize)
    ensures
        tokens_within(
            PoolModel { floor, ceiling, returned: Multiset::<usize>::empty() },
            Set::<usize>::empty(),
            floor,
        ),
{
}

/// Every token handed out lies between the first floor and the ceiling,
/// and the pool stays within its range.
pub proof fn law_pop_stays_within_range(p: PoolModel, held: Set<usize>, lo: usize)
    requires
        tokens_within(p, held, lo),
    ensures
        match pool_pop(p) {
            (q, Some(t)) => lo <= t < p.ceiling && tokens_within(q, held.insert(t), lo),
            (q, None) => tokens_within(q, held, lo),
        },
{
    if p.returned.len() > 0 {
        lemma_lowest_exists(p.returned);
        let t = lowest(p.returned);
        let q = pool_pop(p).0;
        assert forall|x: usize| q.returned.count(x) > 0 implies lo <= x < q.ceiling by {
            if x != t {
                assert(q.returned.count(x) == p.returned.count(x));
            } else {
                assert(p.returned.count(x) > 0);
            }
        }
    }
}

/// Giving back a held token keeps the pool within its range.
pub proof fn law_push_stays_within_range(p: PoolModel, held: Set<usize>, lo: usize, t: usize)
    requires
        tokens_within(p, held, lo),
        held.contains(t),
    ensures
        tokens_within(pool_push(p, t), held.remove(t), lo),
{
    let q = pool_push(p, t);
    assert forall|x: usize| q.returned.count(x) > 0 implies lo <= x < q.ceiling by {
        if x != t {
            assert(q.returned.count(x) == p.returned.count(x));
        }
    }
}

/// One call on a pool.
pub enum PoolCall {
    Pop,
    Push(usize),
}

/// Every pop in `calls`, made from `p` while the tokens in `held` are out,
/// hands out a token between `lo` and the ceiling that nobody holds, and
/// the floor never moves past the larger of `lo` and the ceiling.  The
/// claim is about runs in which every pushed token is one that is out; a
/// run that pushes anything else claims nothing from that push on.
pub open spec fn run_is_sound(p: PoolModel, held: Set<usize>, lo: usize, calls: Seq<PoolCall>) -> bool
    decreases calls.len(),
{
    &&& (p.floor <= p.ceiling || p.floor == lo)
    &&& (calls.len() > 0 ==> match calls[0] {
        PoolCall::Pop => match pool_pop(p) {
            (q, Some(t)) => lo <= t < p.ceiling && !held.contains(t) && run_is_sound(
                q,
                held.insert(t),
                lo,
                calls.drop_first(),
            ),
            (q, None) => run_is_sound(q, held, lo, calls.drop_first()),
        },
        PoolCall::Push(x) => held.contains(x) ==> run_is_sound(
            pool_push(p, x),
            held.remove(x),
            lo,
            calls.drop_first(),
        ),
    })
}

proof fn lemma_run_is_sound(p: PoolModel, held: Set<usize>, lo: usize, calls: Seq<PoolCall>)
    requires
        accounts_for(p, held),
        tokens_within(p, held, lo),
    ensures
        run_is_sound(p, held, lo, calls),
    decreases calls.len(),
{
    if calls.len() > 0 {
        match calls[0] {
            PoolCall::Pop => {
                law_pop_hands_out_a_free_token(p, held);
                law_pop_stays_within_range(p, held, lo);
                match pool_pop(p) {
                    (q, Some(t)) => lemma_run_is_sound(q, held.insert(t), lo, calls.drop_first()),
                    (q, None) => lemma_run_is_sound(q, held, lo, calls.drop_first()),
                }
            },
            PoolCall::Push(x) => {
                if held.contains(x) {
                    law_push_of_a_held_token(p, held, x);
                    law_push_stays_within_range(p, held, lo, x);
                    lemma_run_is_sound(pool_push(p, x), held.remove(x), lo, calls.drop_first());
                }
            },
        }
    }
}

/// Any run of calls on a new pool `TokenPool::new(floor, ceiling)` in which
/// only tokens that are out are pushed back hands out, at every pop, a
/// token in `floor .. ceiling` that nobody holds at that moment, and the
/// floor never passes the larger of `floor` and `ceiling`.
pub proof fn law_every_run_of_a_new_pool_is_sound(floor: usize, ceiling: usize, calls: Seq<PoolCall>)
    ensures
        run_is_sound(
            PoolModel { floor, ceiling, returned: Multiset::<usize>::empty() },
            Set::<usize>::empty(),
            floor,
            calls,
        ),
{
    lemma_run_is_sound(
        PoolModel { floor, ceiling, returned: Multiset::<usize>::empty() },
        Set::<usize>::empty(),
        floor,
        calls,
    );
}

/// A token given back below every waiting token is the next one handed
/// out, and popping it restores the pool as it was before the push.
pub proof fn law_pop_undoes_push(p: PoolModel, t: usize)
    requires
        forall|x: usize| p.returned.count(x) > 0 ==> t <= x,
    ensures
        pool_pop(pool_push(p, t)) == (p, Some(t)),
{
    let m = p.returned.insert(t);
    assert(is_lowest(m, t));
    lemma_lowest_unique(m, t);
    assert(m.remove(t) =~= p.returned);
}

/// A pool is exhausted exactly when nothing was given back and the fresh
/// tokens have run out.
pub proof fn law_exhausted_exactly_when_empty(p: PoolModel)
    ensures
        pool_pop(p).1 is None <==> (p.returned.len() == 0 && p.floor >= p.ceiling),
        pool_pop(p).1 is None ==> pool_pop(p).0 == p,
{
}

spec fn sorted_desc(s: Seq<usize>) -> bool {
    forall|i: int, j: int| 0 <= i < j < s.len() ==> s[i] >= s[j]
}

proof fn lemma_last_is_lowest(s: Seq<usize>)
    requires
        sorted_desc(s),
        s.len() > 0,
    ensures
        is_lowest(s.to_multiset(), s.last()),
        s.drop_last().to_multiset() == s.to_multiset().remove(s.last()),
{
    let t = s.last();
    assert(s.drop_last().push(t) == s);
    assert forall|x: usize| s.to_multiset().count(x) > 0 implies t <= x by {
        assert(s.contains(x));
        let k = choose|k: int| 0 <= k < s.len() && s[k] == x;
        if k < s.len() - 1 {
            assert(s[k] >= s[s.len() - 1]);
        }
    }
    assert(s.contains(t)) by {
        assert(s[s.len() - 1] == t);
    }
    assert(s.drop_last().to_multiset() =~= s.to_multiset().remove(t));
}

/// A pool of integer tokens.
///
/// Tokens given back with [`TokenPool::push`] are handed out again before
/// any fresh token, the lowest one first.  Fresh tokens run from the floor
/// given to [`TokenPool::new`] up to, and not including, the ceiling.
pub struct TokenPool {
    floor: usize,
    ceiling: usize,
    // Tokens given back, kept in descending order so that the lowest is last.
    queue: Vec<usize>,
}

impl View for TokenPool {
    type V = PoolModel;

    closed spec fn view(&self) -> PoolModel {
        PoolModel { floor: self.floor, ceiling: self.ceiling, returned: self.queue@.to_multiset() }
    }
}

impl TokenPool {
    #[verifier::type_invariant]
    spec fn queue_is_sorted(self) -> bool {
        sorted_desc(self.queue@)
    }

    /// A pool whose fresh tokens are `floor`, `floor + 1`, ..., `ceiling - 1`.
    pub fn new(floor: usize, ceiling: usize) -> (pool: Self)
        ensures
            pool@.floor == floor,
            pool@.ceiling == ceiling,
            pool@.returned == Multiset::<usize>::empty(),
    {
        let pool = TokenPool { floor: floor, ceiling: ceiling, queue: Vec::new() };
        assert(pool.queue@.to_multiset() =~= Multiset::<usize>::empty());
        pool
    }

    /// Hands out the lowest returned token if there is one, otherwise the
    /// next fresh token; `None` when the pool is exhausted.
    pub fn pop(&mut self) -> (token: Option<usize>)
        ensures
            (final(self)@, token) == pool_pop(old(self)@),
    {
        proof {
            use_type_invariant(&*self);
        }
        let ghost s = self.queue@;
        let mut queue: Vec<usize> = Vec::new();
        std::mem::swap(&mut queue, &mut self.queue);
        match queue.pop() {
            Some(n) => {
                proof {
                    lemma_last_is_lowest(s);
                    lemma_lowest_unique(s.to_multiset(), n);
                    assert(queue@ == s.drop_last());
                }
                self.queue = queue;
                Some(n)
            },
            None => {
                self.queue = queue;
                if self.floor < self.ceiling {
                    let n = self.floor;
                    self.floor = self.floor + 1;
                    Some(n)
                } else {
                    None
                }
            },
        }
    }

    /// Whether [`TokenPool::pop`] would hand out a token.
    pub fn has_next(&self) -> (available: bool)
        ensures
            available == (self@.returned.len() > 0 || self@.floor < self@.ceiling),
    {
        self.queue.len() > 0 || self.floor < self.ceiling
    }

    /// Gives `position` back to the pool.
    pub fn push(&mut self, position: usize)
        ensures
            final(self)@ == pool_push(old(self)@, position),
    {
        proof {
            use_type_invariant(&*self);
        }
        let mut queue: Vec<usize> = Vec::new();
        std::mem::swap(&mut queue, &mut self.queue);
        let mut i: usize = 0;
        while i < queue.len() && queue[i] >= position
            invariant
                i <= queue.len(),
                sorted_desc(queue@),
                forall|k: int| 0 <= k < i ==> queue@[k] >= position,
            decreases queue.len() - i,
        {
            i = i + 1;
        }
        let ghost s = queue@;
        proof {
            assert forall|a: int, b: int| 0 <= a < b < s.insert(i as int, position).len() implies
                s.insert(i as int, position)[a] >= s.insert(i as int, position)[b] by {
                if b < i {
                } else if b == i {
                } else if a < i {
                    assert(s[a] >= position);
                    assert(s[a] >= s[b - 1]);
                } else if a == i {
                    assert(s[i as int] < position);
                    if b - 1 > i {
                        assert(s[i as int] >= s[b - 1]);
                    }
                } else {
                    assert(s[a - 1] >= s[b - 1]);
                }
            }
        }
        queue.insert(i, position);
        self.queue = queue;
    }
}

} // verus!
