//! A streaming multiprocessor: its warps and the queue of warps not yet handed
//! out.

use crate::warp::{fresh_warp, Warp};
use std::collections::VecDeque;
use vstd::prelude::*;

verus! {

broadcast use vstd::std_specs::vecdeque::axiom_spec_len;

/// The queue of warp indices not yet handed out. In every state it holds no
/// index twice and only indices below the number of warps it was made for (a
/// type invariant; see `lemma_sound`).
pub struct FreeQueue {
    queue: VecDeque<usize>,
    bound: usize,
}

/// A streaming multiprocessor: its warps and the queue of warps not yet handed
/// out.
pub struct SM {
    pub warps: Vec<Warp>,
    pub free_warps: FreeQueue,
}

/// A queue of free warp indices is sound for `n` warps: no index twice, each below `n`.
pub open spec fn free_ok(free: Seq<usize>, n: nat) -> bool {
    &&& free.no_duplicates()
    &&& forall|i: int| 0 <= i < free.len() ==> #[trigger] free[i] < n
}

impl FreeQueue {
    /// The queued indices, front first.
    pub closed spec fn seq(&self) -> Seq<usize> {
        self.queue@
    }

    /// The number of warps the queue was made for.
    pub closed spec fn bound(&self) -> nat {
        self.bound as nat
    }

    #[verifier::type_invariant]
    spec fn inv(&self) -> bool {
        free_ok(self.queue@, self.bound as nat)
    }

    /// The queue is sound in every state: no index twice, each below `bound`.
    pub fn lemma_sound(&self)
        ensures
            free_ok(self.seq(), self.bound()),
    {
        proof {
            use_type_invariant(self);
        }
    }

    /// The queue `0, 1, ..., n - 1`.
    pub fn new(n: usize) -> (q: FreeQueue)
        ensures
            q.seq() == Seq::new(n as nat, |i: int| i as usize),
            q.bound() == n,
    {
        let mut queue: VecDeque<usize> = VecDeque::new();
        let mut i: usize = 0;
        while i < n
            invariant
                i <= n,
                queue@ == Seq::new(i as nat, |k: int| k as usize),
            decreases n - i,
        {
            queue.push_back(i);
            i = i + 1;
            assert(queue@ =~= Seq::new(i as nat, |k: int| k as usize));
        }
        assert(queue@.no_duplicates()) by {
            assert forall|a: int, b: int|
                0 <= a < queue@.len() && 0 <= b < queue@.len() && a != b implies queue@[a]
                != queue@[b] by {}
        }
        FreeQueue { queue, bound: n }
    }

    /// The number of queued indices.
    pub fn len(&self) -> (l: usize)
        ensures
            l == self.seq().len(),
    {
        self.queue.len()
    }

    /// Takes the front index, if any.
    pub fn pop_front(&mut self) -> (r: Option<usize>)
        ensures
            final(self).bound() == old(self).bound(),
            old(self).seq().len() == 0 ==> r is None && final(self).seq() == old(self).seq(),
            old(self).seq().len() > 0 ==> r == Some(old(self).seq()[0]) && final(self).seq()
                == old(self).seq().drop_first(),
    {
        proof {
            use_type_invariant(&*self);
        }
        let ghost before = self.queue@;
        let mut q: VecDeque<usize> = VecDeque::new();
        std::mem::swap(&mut q, &mut self.queue);
        let r = q.pop_front();
        proof {
            if before.len() > 0 {
                assert(q@ =~= before.drop_first());
                assert forall|a: int, b: int|
                    0 <= a < q@.len() && 0 <= b < q@.len() && a != b implies q@[a] != q@[b] by {
                    assert(q@[a] == before[a + 1]);
                    assert(q@[b] == before[b + 1]);
                }
                assert forall|i: int| 0 <= i < q@.len() implies #[trigger] q@[i] < self.bound by {
                    assert(q@[i] == before[i + 1]);
                }
            }
        }
        self.queue = q;
        r
    }
}

impl SM {
    /// The indices of the warps not yet handed out, in the order they will be.
    pub open spec fn free(&self) -> Seq<usize> {
        self.free_warps.seq()
    }

    /// The free queue is sound for this SM's warps.
    pub open spec fn wf(&self) -> bool {
        free_ok(self.free(), self.warps@.len())
    }

    /// An SM with `quantity` fresh warps, all free, queued in index order.
    pub fn new(quantity: usize) -> (sm: SM)
        ensures
            sm.warps@.len() == quantity,
            forall|i: int| 0 <= i < quantity ==> fresh_warp(#[trigger] sm.warps@[i]@),
            sm.free() == Seq::new(quantity as nat, |i: int| i as usize),
            sm.free_warps.bound() == quantity,
            sm.wf(),
    {
        let mut warps: Vec<Warp> = Vec::new();
        let mut i: usize = 0;
        while i < quantity
            invariant
                i <= quantity,
                warps@.len() == i,
                forall|k: int| 0 <= k < i ==> fresh_warp(#[trigger] warps@[k]@),
            decreases quantity - i,
        {
            warps.push(Warp::new());
            i = i + 1;
        }
        let free_warps = FreeQueue::new(quantity);
        free_warps.lemma_sound();
        SM { warps, free_warps }
    }

    /// In every state the free queue holds no warp index twice, and only indices
    /// below the number of warps the SM was made with.
    pub fn lemma_free_sound(&self)
        ensures
            free_ok(self.free(), self.free_warps.bound()),
    {
        self.free_warps.lemma_sound();
    }

    /// Whether every warp has been handed out.
    pub fn is_full(&self) -> (b: bool)
        ensures
            b == (self.free().len() == 0),
    {
        self.free_warps.len() == 0
    }

    /// Whether `count` warps can be handed out.
    pub fn can_reserve_warps(&self, count: usize) -> (b: bool)
        ensures
            b == (self.free().len() >= count),
    {
        self.free_warps.len() >= count
    }

    /// Hands out the next `count` free warps, in queue order; nothing changes
    /// when fewer are free.
    pub fn reserve_free_warps(&mut self, count: usize) -> (r: Option<Vec<usize>>)
        ensures
            final(self).warps@ == old(self).warps@,
            old(self).free().len() < count ==> r is None && final(self).free() == old(self).free(),
            old(self).free().len() >= count ==> (r matches Some(v) && v@ == old(self).free().take(
                count as int,
            ) && final(self).free() == old(self).free().skip(count as int)),
            final(self).free_warps.bound() == old(self).free_warps.bound(),
            old(self).wf() ==> final(self).wf(),
    {
        if !self.can_reserve_warps(count) {
            return None;
        }
        let ghost start = self.free();
        let mut selected: Vec<usize> = Vec::new();
        let mut k: usize = 0;
        while k < count
            invariant
                k <= count <= start.len(),
                self.warps@ == old(self).warps@,
                start == old(self).free(),
                selected@ == start.take(k as int),
                self.free() == start.skip(k as int),
                self.free_warps.bound() == old(self).free_warps.bound(),
            decreases count - k,
        {
            let ghost before = self.free();
            let w = match self.free_warps.pop_front() {
                Some(w) => w,
                None => 0,
            };
            selected.push(w);
            k = k + 1;
            assert(selected@ =~= start.take(k as int));
            assert(self.free() =~= start.skip(k as int));
        }
        proof {
            if old(self).wf() {
                lemma_free_split(start, count as int, self.warps@.len());
            }
        }
        Some(selected)
    }
}

/// Handing out the first `count` free warps gives distinct, valid indices, and
/// none of them stays free: no warp can be handed out twice.
pub proof fn lemma_free_split(free: Seq<usize>, count: int, n: nat)
    requires
        free_ok(free, n),
        0 <= count <= free.len(),
    ensures
        free_ok(free.take(count), n),
        free_ok(free.skip(count), n),
        forall|a: int, b: int|
            0 <= a < count && 0 <= b < free.len() - count ==> #[trigger] free.take(count)[a]
                != #[trigger] free.skip(count)[b],
{
    assert(free.take(count).no_duplicates()) by {
        assert forall|a: int, b: int|
            0 <= a < count && 0 <= b < count && a != b implies free.take(count)[a] != free.take(
                count,
            )[b] by {
            assert(free.take(count)[a] == free[a]);
            assert(free.take(count)[b] == free[b]);
        }
    }
    assert(free.skip(count).no_duplicates()) by {
        assert forall|a: int, b: int|
            0 <= a < free.len() - count && 0 <= b < free.len() - count && a != b implies free.skip(
                count,
            )[a] != free.skip(count)[b] by {
            assert(free.skip(count)[a] == free[a + count]);
            assert(free.skip(count)[b] == free[b + count]);
        }
    }
    assert forall|a: int, b: int| 0 <= a < count && 0 <= b < free.len() - count implies #[trigger] free.take(
        count,
    )[a] != #[trigger] free.skip(count)[b] by {
        assert(free.take(count)[a] == free[a]);
        assert(free.skip(count)[b] == free[b + count]);
    }
    assert forall|i: int| 0 <= i < count implies #[trigger] free.take(count)[i] < n by {
        assert(free.take(count)[i] == free[i]);
    }
    assert forall|i: int| 0 <= i < free.len() - count implies #[trigger] free.skip(count)[i] < n by {
        assert(free.skip(count)[i] == free[i + count]);
    }
}

} // verus!
