use vstd::prelude::*;
use crate::point::Point;
use crate::random::random_index;

verus! {

/// How the next reference vertex may relate to the one chosen before it.
#[derive(Clone, Copy, Debug, PartialEq, Eq, Structural)]
pub enum Policy {
    /// Any candidate, independently of the last one.
    Any,
    /// Any candidate but the last one chosen.
    NotPrevious,
    /// A candidate that shares its x or its y with the last one chosen.
    SharesCoordinate,
}

/// Whether `policy` lets `next` follow `prev`.
pub open spec fn admits(policy: Policy, prev: Point, next: Point) -> bool {
    match policy {
        Policy::Any => true,
        Policy::NotPrevious => next.x != prev.x || next.y != prev.y,
        Policy::SharesCoordinate => next.x == prev.x || next.y == prev.y,
    }
}

/// The candidates that may follow `prev`, in their order.
pub open spec fn admissible_of(policy: Policy, prev: Point, candidates: Seq<Point>) -> Seq<Point> {
    candidates.filter(|c: Point| admits(policy, prev, c))
}

/// Some candidate may follow `prev`.
pub open spec fn has_successor_in(policy: Policy, candidates: Seq<Point>, prev: Point) -> bool {
    exists|j: int| 0 <= j < candidates.len() && admits(policy, prev, #[trigger] candidates[j])
}

/// After any candidate, some candidate may follow.
pub open spec fn never_stuck(policy: Policy, candidates: Seq<Point>) -> bool {
    forall|i: int|
        0 <= i < candidates.len() ==> has_successor_in(policy, candidates, #[trigger] candidates[i])
}

/// A sequence of references that `policy` allows, each a candidate, the first
/// one following `prev`.
pub open spec fn is_walk(policy: Policy, candidates: Seq<Point>, prev: Point, refs: Seq<Point>) -> bool {
    forall|i: int|
        #![trigger refs[i]]
        0 <= i < refs.len() ==> candidates.contains(refs[i]) && admits(
            policy,
            if i == 0 {
                prev
            } else {
                refs[i - 1]
            },
            refs[i],
        )
}

/// Picks reference vertices one after another, remembering the last pick.
#[derive(Debug)]
pub struct VertexRule {
    pub policy: Policy,
    pub candidates: Vec<Point>,
    pub previous: Point,
}

impl VertexRule {
    /// The last pick is a candidate, and no candidate is a dead end.
    pub open spec fn wf(&self) -> bool {
        &&& self.candidates@.contains(self.previous)
        &&& never_stuck(self.policy, self.candidates@)
    }

    /// A rule whose first pick counts as candidate `first`; `None` if there is
    /// no such candidate, or if some candidate would leave no admissible successor.
    pub fn new(policy: Policy, candidates: Vec<Point>, first: usize) -> (r: Option<VertexRule>)
        ensures
            r is Some <==> first < candidates@.len() && never_stuck(policy, candidates@),
            r matches Some(rule) ==> rule.policy == policy && rule.candidates@ == candidates@
                && rule.previous == candidates@[first as int] && rule.wf(),
    {
        if first >= candidates.len() || !check_never_stuck(policy, &candidates) {
            return None;
        }
        let previous = candidates[first];
        Some(VertexRule { policy, candidates, previous })
    }

    /// Like `new`, with the first pick drawn at random.
    pub fn start(policy: Policy, candidates: Vec<Point>) -> (r: Option<VertexRule>)
        ensures
            r is Some <==> candidates@.len() > 0 && never_stuck(policy, candidates@),
            r matches Some(rule) ==> rule.policy == policy && rule.candidates@ == candidates@
                && rule.wf(),
    {
        if candidates.len() == 0 {
            return None;
        }
        let first = random_index(candidates.len());
        VertexRule::new(policy, candidates, first)
    }

    /// The candidates that may be picked next, in order.
    pub fn admissible(&self) -> (r: Vec<Point>)
        ensures
            r@ == admissible_of(self.policy, self.previous, self.candidates@),
            forall|k: int|
                0 <= k < r@.len() ==> self.candidates@.contains(#[trigger] r@[k])
                    && admits(self.policy, self.previous, r@[k]),
    {
        let mut r: Vec<Point> = Vec::new();
        let mut i: usize = 0;
        while i < self.candidates.len()
            invariant
                i <= self.candidates@.len(),
                r@ == admissible_of(self.policy, self.previous, self.candidates@.subrange(0, i as int)),
                forall|k: int|
                    0 <= k < r@.len() ==> self.candidates@.contains(#[trigger] r@[k])
                        && admits(self.policy, self.previous, r@[k]),
            decreases self.candidates@.len() - i,
        {
            let c = self.candidates[i];
            let ok = admits_exec(self.policy, self.previous, c);
            proof {
                reveal(Seq::filter);
                assert(self.candidates@.subrange(0, i + 1).drop_last() =~= self.candidates@.subrange(0, i as int));
            }
            if ok {
                r.push(c);
            }
            proof {
                let k = i as int;
                assert(self.candidates@[k] == c);
            }
            i = i + 1;
        }
        assert(self.candidates@.subrange(0, i as int) =~= self.candidates@);
        r
    }

    /// Picks admissible candidate `index` and remembers it.
    pub fn next_point_at(&mut self, index: usize) -> (r: Point)
        requires
            old(self).wf(),
            index < admissible_of(old(self).policy, old(self).previous, old(self).candidates@).len(),
        ensures
            r == admissible_of(old(self).policy, old(self).previous, old(self).candidates@)[index as int],
            final(self).policy == old(self).policy,
            final(self).candidates@ == old(self).candidates@,
            final(self).previous == r,
            final(self).wf(),
    {
        let options = self.admissible();
        let r = options[index];
        self.previous = r;
        r
    }

    /// Picks one of the admissible candidates at random and remembers it.
    pub fn next_point(&mut self) -> (r: Point)
        requires
            old(self).wf(),
        ensures
            admits(old(self).policy, old(self).previous, r),
            old(self).candidates@.contains(r),
            final(self).policy == old(self).policy,
            final(self).candidates@ == old(self).candidates@,
            final(self).previous == r,
            final(self).wf(),
    {
        let ghost pred = |c: Point| admits(self.policy, self.previous, c);
        broadcast use vstd::seq_lib::group_filter_ensures;
        proof {
            let i = choose|i: int| 0 <= i < self.candidates@.len() && self.candidates@[i] == self.previous;
            assert(has_successor_in(self.policy, self.candidates@, self.candidates@[i]));
            let j = choose|j: int|
                0 <= j < self.candidates@.len() && admits(self.policy, self.previous, #[trigger] self.candidates@[j]);
            self.candidates@.lemma_filter_contains(pred, j);
        }
        let n = self.admissible().len();
        let index = random_index(n);
        self.next_point_at(index)
    }

    /// Draws `n` references one after another; together they form a walk
    /// that the policy allows, after the last pick before the call.
    pub fn draw(&mut self, n: usize) -> (r: Vec<Point>)
        requires
            old(self).wf(),
        ensures
            r@.len() == n,
            is_walk(old(self).policy, old(self).candidates@, old(self).previous, r@),
            final(self).previous == (if n == 0 {
                old(self).previous
            } else {
                r@.last()
            }),
            final(self).policy == old(self).policy,
            final(self).candidates@ == old(self).candidates@,
            final(self).wf(),
    {
        let mut refs: Vec<Point> = Vec::new();
        let mut i: usize = 0;
        while i < n
            invariant
                i <= n,
                refs@.len() == i,
                is_walk(old(self).policy, old(self).candidates@, old(self).previous, refs@),
                self.previous == (if i == 0 {
                    old(self).previous
                } else {
                    refs@.last()
                }),
                self.policy == old(self).policy,
                self.candidates@ == old(self).candidates@,
                self.wf(),
            decreases n - i,
        {
            let next = self.next_point();
            refs.push(next);
            i = i + 1;
        }
        refs
    }
}

/// A walk under `NotPrevious` never draws the same point twice in a row,
/// nor starts on the point picked before it.
pub proof fn lemma_walk_not_previous(candidates: Seq<Point>, prev: Point, refs: Seq<Point>)
    requires
        is_walk(Policy::NotPrevious, candidates, prev, refs),
    ensures
        forall|i: int|
            0 <= i < refs.len() - 1 ==> #[trigger] refs[i + 1].x != refs[i].x || refs[i + 1].y != refs[i].y,
        refs.len() > 0 ==> refs[0] != prev,
{
    assert forall|i: int| 0 <= i < refs.len() - 1 implies #[trigger] refs[i + 1].x != refs[i].x
        || refs[i + 1].y != refs[i].y by {
        assert(admits(Policy::NotPrevious, refs[(i + 1) - 1], refs[i + 1]));
    }
    if refs.len() > 0 {
        assert(admits(Policy::NotPrevious, prev, refs[0]));
    }
}

/// In a walk under `SharesCoordinate`, each reference shares its x or its y
/// with the one before it, the first with the point picked before it.
pub proof fn lemma_walk_shares_coordinate(candidates: Seq<Point>, prev: Point, refs: Seq<Point>)
    requires
        is_walk(Policy::SharesCoordinate, candidates, prev, refs),
    ensures
        forall|i: int|
            0 <= i < refs.len() - 1 ==> #[trigger] refs[i + 1].x == refs[i].x || refs[i + 1].y == refs[i].y,
        refs.len() > 0 ==> refs[0].x == prev.x || refs[0].y == prev.y,
{
    assert forall|i: int| 0 <= i < refs.len() - 1 implies #[trigger] refs[i + 1].x == refs[i].x
        || refs[i + 1].y == refs[i].y by {
        assert(admits(Policy::SharesCoordinate, refs[(i + 1) - 1], refs[i + 1]));
    }
    if refs.len() > 0 {
        assert(admits(Policy::SharesCoordinate, prev, refs[0]));
    }
}

/// Whether `policy` lets `next` follow `prev`.
fn admits_exec(policy: Policy, prev: Point, next: Point) -> (r: bool)
    ensures
        r == admits(policy, prev, next),
{
    match policy {
        Policy::Any => true,
        Policy::NotPrevious => next.x != prev.x || next.y != prev.y,
        Policy::SharesCoordinate => next.x == prev.x || next.y == prev.y,
    }
}

/// Whether some candidate may follow `prev`.
fn has_successor(policy: Policy, candidates: &Vec<Point>, prev: Point) -> (r: bool)
    ensures
        r == has_successor_in(policy, candidates@, prev),
{
    let mut j: usize = 0;
    while j < candidates.len()
        invariant
            j <= candidates@.len(),
            forall|m: int| 0 <= m < j ==> !admits(policy, prev, #[trigger] candidates@[m]),
        decreases candidates@.len() - j,
    {
        if admits_exec(policy, prev, candidates[j]) {
            return true;
        }
        j = j + 1;
    }
    false
}

/// Whether every candidate leaves some candidate that may follow it.
fn check_never_stuck(policy: Policy, candidates: &Vec<Point>) -> (r: bool)
    ensures
        r == never_stuck(policy, candidates@),
{
    let mut i: usize = 0;
    while i < candidates.len()
        invariant
            i <= candidates@.len(),
            forall|k: int| 0 <= k < i ==> has_successor_in(policy, candidates@, #[trigger] candidates@[k]),
        decreases candidates@.len() - i,
    {
        if !has_successor(policy, candidates, candidates[i]) {
            return false;
        }
        i = i + 1;
    }
    true
}

} // verus!
