//! Ordering of candidate warps before one of them is issued.

use vstd::prelude::*;
use vstd::relations::*;

verus! {

/// A scheduling candidate: (sm index, warp index, class priority, divergence score).
pub type Candidate = (usize, usize, usize, usize);

/// The key by which candidates are ordered: class priority first, then
/// divergence score, then sm index, then warp index.
pub open spec fn key_of(c: Candidate) -> (usize, usize, usize, usize) {
    (c.2, c.3, c.0, c.1)
}

/// Lexicographic `<=` on four-component keys.
pub open spec fn key_le(a: (usize, usize, usize, usize), b: (usize, usize, usize, usize)) -> bool {
    a.0 < b.0 || (a.0 == b.0 && (a.1 < b.1 || (a.1 == b.1 && (a.2 < b.2 || (a.2 == b.2
        && a.3 <= b.3)))))
}

/// Candidates compared by their keys.
pub open spec fn candidate_le(a: Candidate, b: Candidate) -> bool {
    key_le(key_of(a), key_of(b))
}

/// `candidate_le` as a relation value.
pub open spec fn candidate_order() -> spec_fn(Candidate, Candidate) -> bool {
    |a: Candidate, b: Candidate| candidate_le(a, b)
}

/// The order in which `prioritize` leaves the candidates.
pub open spec fn prioritized(s: Seq<Candidate>) -> Seq<Candidate> {
    s.sort_by(candidate_order())
}

/// `candidate_le` is a total order on candidates: every field takes part in the key,
/// so two candidates with equal keys are the same candidate.
pub proof fn lemma_candidate_le_total()
    ensures
        total_ordering(candidate_order()),
{
}

fn sort_key(item: &Candidate) -> (k: (usize, usize, usize, usize))
    ensures
        k == key_of(*item),
{
    (item.2, item.3, item.0, item.1)
}

fn key_le_exec(a: (usize, usize, usize, usize), b: (usize, usize, usize, usize)) -> (r: bool)
    ensures
        r == key_le(a, b),
{
    a.0 < b.0 || (a.0 == b.0 && (a.1 < b.1 || (a.1 == b.1 && (a.2 < b.2 || (a.2 == b.2
        && a.3 <= b.3)))))
}

/// Sorts the candidates by `(priority, divergence, sm, warp)`, smallest first.
pub fn prioritize(scored: &mut Vec<Candidate>)
    ensures
        final(scored)@ == prioritized(old(scored)@),
{
    let ghost leq = candidate_order();
    proof {
        lemma_candidate_le_total();
    }
    let n = scored.len();
    let mut out: Vec<Candidate> = Vec::new();
    let mut i: usize = 0;
    proof {
        assert(scored@.take(0) =~= Seq::<Candidate>::empty());
        assert(out@ =~= Seq::<Candidate>::empty());
    }
    while i < n
        invariant
            n == scored@.len(),
            scored@ == old(scored)@,
            i <= n,
            leq == candidate_order(),
            total_ordering(leq),
            sorted_by(out@, leq),
            out@.to_multiset() == scored@.take(i as int).to_multiset(),
        decreases n - i,
    {
        let x = scored[i];
        let kx = sort_key(&x);
        // Insertion point: after every element whose key is at most the key of `x`.
        let mut pos: usize = 0;
        loop
            invariant
                pos <= out@.len(),
                kx == key_of(x),
                leq == candidate_order(),
                total_ordering(leq),
                sorted_by(out@, leq),
                forall|k: int| 0 <= k < pos ==> candidate_le(#[trigger] out@[k], x),
            ensures
                pos <= out@.len(),
                leq == candidate_order(),
                total_ordering(leq),
                sorted_by(out@, leq),
                forall|k: int| 0 <= k < pos ==> candidate_le(#[trigger] out@[k], x),
                pos < out@.len() ==> !candidate_le(out@[pos as int], x),
            decreases out@.len() - pos,
        {
            if pos == out.len() {
                break;
            }
            if !key_le_exec(sort_key(&out[pos]), kx) {
                break;
            }
            pos = pos + 1;
        }
        proof {
            // Everything from `pos` on is strictly above `x`.
            assert forall|k: int| pos <= k < out@.len() implies leq(x, #[trigger] out@[k]) by {
                assert(leq(out@[pos as int], x) || leq(x, out@[pos as int]));
                assert(leq(x, out@[pos as int]));
                if k > pos {
                    assert(leq(out@[pos as int], out@[k]));
                }
            }
        }
        let ghost before = out@;
        out.insert(pos, x);
        proof {
            assert(out@ == before.insert(pos as int, x));
            assert forall|a: int, b: int| 0 <= a < b < out@.len() implies #[trigger] leq(out@[a], out@[b]) by {
                if b < pos {
                } else if b == pos {
                } else if a < pos {
                    assert(out@[b] == before[b - 1]);
                    assert(candidate_le(before[a], x));
                    assert(leq(before[a], x));
                    assert(leq(x, before[b - 1]));
                } else if a == pos {
                    assert(out@[b] == before[b - 1]);
                } else {
                    assert(out@[a] == before[a - 1]);
                    assert(out@[b] == before[b - 1]);
                }
            }
            vstd::seq_lib::to_multiset_insert(before, pos as int, x);
            vstd::seq_lib::to_multiset_build(scored@.take(i as int), x);
            assert(scored@.take(i as int).push(x) =~= scored@.take(i + 1));
        }
        i = i + 1;
    }
    proof {
        assert(scored@.take(n as int) =~= scored@);
        let target = prioritized(scored@);
        scored@.lemma_sort_by_ensures(leq);
        vstd::seq_lib::lemma_sorted_unique(out@, target, leq);
    }
    *scored = out;
}

/// Sorting is idempotent: prioritizing an already prioritized list leaves it unchanged.
pub proof fn lemma_prioritize_idempotent(s: Seq<Candidate>)
    ensures
        prioritized(prioritized(s)) == prioritized(s),
{
    let leq = candidate_order();
    lemma_candidate_le_total();
    s.lemma_sort_by_ensures(leq);
    let t = prioritized(s);
    t.lemma_sort_by_ensures(leq);
    vstd::seq_lib::lemma_sorted_unique(prioritized(t), t, leq);
}

/// The prioritized list is ordered by key and holds exactly the candidates that were given.
pub proof fn lemma_prioritize_sorted_permutation(s: Seq<Candidate>)
    ensures
        sorted_by(prioritized(s), candidate_order()),
        prioritized(s).to_multiset() == s.to_multiset(),
{
    let leq = candidate_order();
    lemma_candidate_le_total();
    s.lemma_sort_by_ensures(leq);
}

/// A list already ordered by key is left as it is.
pub proof fn lemma_prioritize_sorted_unchanged(s: Seq<Candidate>)
    requires
        sorted_by(s, candidate_order()),
    ensures
        prioritized(s) == s,
{
    let leq = candidate_order();
    lemma_candidate_le_total();
    s.lemma_sort_by_ensures(leq);
    vstd::seq_lib::lemma_sorted_unique(prioritized(s), s, leq);
}

} // verus!
