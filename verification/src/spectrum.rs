//! The order in which epicycles are chained.
//!
//! The arrangement rules do not need a coefficient's radius and angle, only
//! its harmonic number and a weight that ranks its radius.

use vstd::prelude::*;
use vstd::relations::{sorted_by, total_ordering};
use vstd::seq_lib::{
    commutative_foldl, lemma_fold_left_permutation, lemma_sorted_unique, to_multiset_build,
    to_multiset_insert,
};

verus! {

/// One epicycle as the arrangement rules see it.
#[derive(Clone, Copy, Debug, PartialEq, Eq, Structural)]
pub struct Harmonic {
    /// The harmonic number: how many turns the epicycle makes in one revolution.
    pub frequency: usize,
    /// The rank of the radius: a larger radius has a larger weight.
    pub weight: u32,
}

/// How the analyzed sequence is rearranged before it is chained.
#[derive(Clone, Copy, Debug, PartialEq, Eq, Structural)]
pub struct Policy {
    /// Leave out the constant term, which moves the path's centroid to the origin.
    pub centered: bool,
    /// Chain the largest circles first instead of the lowest harmonics.
    pub largest_first: bool,
}

/// `a` is chained no later than `b`: the larger weight first, and of two equal
/// weights the lower harmonic.
pub open spec fn precedes(a: Harmonic, b: Harmonic) -> bool {
    a.weight > b.weight || (a.weight == b.weight && a.frequency <= b.frequency)
}

/// Every epicycle of the chain precedes all that follow it.
pub open spec fn largest_first(chain: Seq<Harmonic>) -> bool {
    forall|i: int, j: int| 0 <= i < j < chain.len() ==> precedes(chain[i], chain[j])
}

/// The analyzed sequence: harmonic `k` at place `k`, with its weight.
pub open spec fn by_frequency(weights: Seq<u32>) -> Seq<Harmonic> {
    Seq::new(weights.len(), |k: int| Harmonic { frequency: k as usize, weight: weights[k] })
}

/// The epicycles that turn: all but the constant term.
pub open spec fn turning() -> spec_fn(Harmonic) -> bool {
    |h: Harmonic| h.frequency != 0
}

/// The chain without its constant term, the order of the others kept.
pub open spec fn centered(chain: Seq<Harmonic>) -> Seq<Harmonic> {
    chain.filter(turning())
}

/// `chain` is what `policy` makes of the analyzed sequence with these weights.
pub open spec fn arranged(weights: Seq<u32>, policy: Policy, chain: Seq<Harmonic>) -> bool {
    let kept = if policy.centered {
        centered(by_frequency(weights))
    } else {
        by_frequency(weights)
    };
    if policy.largest_first {
        chain.to_multiset() == kept.to_multiset() && largest_first(chain)
    } else {
        chain == kept
    }
}

/// Whether `a` is chained no later than `b`.
pub fn comes_before(a: &Harmonic, b: &Harmonic) -> (r: bool)
    ensures
        r == precedes(*a, *b),
{
    a.weight > b.weight || (a.weight == b.weight && a.frequency <= b.frequency)
}

/// The analyzed sequence in ascending harmonic order.
pub fn ascending(weights: &Vec<u32>) -> (r: Vec<Harmonic>)
    ensures
        r@ == by_frequency(weights@),
{
    let mut chain: Vec<Harmonic> = Vec::new();
    let mut k: usize = 0;
    while k < weights.len()
        invariant
            k <= weights.len(),
            chain.len() == k,
            forall|i: int| 0 <= i < k ==> chain[i] == by_frequency(weights@)[i],
        decreases weights.len() - k,
    {
        chain.push(Harmonic { frequency: k, weight: weights[k] });
        k += 1;
    }
    assert(chain@ =~= by_frequency(weights@));
    chain
}

/// The chain without its constant term.
pub fn without_constant(chain: &Vec<Harmonic>) -> (r: Vec<Harmonic>)
    ensures
        r@ == centered(chain@),
{
    let mut kept: Vec<Harmonic> = Vec::new();
    let mut seen: usize = 0;
    proof {
        assert(chain@.take(0) =~= Seq::<Harmonic>::empty());
        Seq::<Harmonic>::empty().lemma_filter_len(turning());
    }
    while seen < chain.len()
        invariant
            seen <= chain.len(),
            kept@ == centered(chain@.take(seen as int)),
        decreases chain.len() - seen,
    {
        let h = chain[seen];
        proof {
            assert(chain@.take(seen + 1) =~= chain@.take(seen as int).push(h));
            chain@.take(seen as int).lemma_filter_push(h, turning());
        }
        if h.frequency != 0 {
            kept.push(h);
        }
        seen += 1;
    }
    assert(chain@.take(chain.len() as int) =~= chain@);
    kept
}

/// The same epicycles, the largest first; of two equally large ones the lower
/// harmonic first.
pub fn sort_largest_first(chain: &Vec<Harmonic>) -> (r: Vec<Harmonic>)
    ensures
        r@.to_multiset() == chain@.to_multiset(),
        largest_first(r@),
{
    let mut sorted: Vec<Harmonic> = Vec::new();
    let mut taken: usize = 0;
    assert(chain@.take(0) =~= sorted@);
    while taken < chain.len()
        invariant
            taken <= chain.len(),
            sorted@.to_multiset() == chain@.take(taken as int).to_multiset(),
            largest_first(sorted@),
        decreases chain.len() - taken,
    {
        let next = chain[taken];
        let mut place: usize = 0;
        while place < sorted.len() && comes_before(&sorted[place], &next)
            invariant
                place <= sorted.len(),
                forall|i: int| 0 <= i < place ==> precedes(sorted[i], next),
            decreases sorted.len() - place,
        {
            place += 1;
        }
        proof {
            assert forall|j: int| place <= j < sorted.len() implies precedes(next, sorted[j]) by {
                if place < j {
                    assert(precedes(sorted[place as int], sorted[j]));
                }
            }
            to_multiset_insert(sorted@, place as int, next);
            to_multiset_build(chain@.take(taken as int), next);
            assert(chain@.take(taken + 1) =~= chain@.take(taken as int).push(next));
        }
        sorted.insert(place, next);
        taken += 1;
    }
    assert(chain@.take(chain.len() as int) =~= chain@);
    sorted
}

/// The analyzed sequence with these weights, rearranged as `policy` says.
pub fn arrange(weights: &Vec<u32>, policy: Policy) -> (r: Vec<Harmonic>)
    ensures
        arranged(weights@, policy, r@),
{
    let analyzed = ascending(weights);
    let kept = if policy.centered {
        without_constant(&analyzed)
    } else {
        analyzed
    };
    if policy.largest_first {
        sort_largest_first(&kept)
    } else {
        kept
    }
}

/// The largest-first order of given epicycles is one order only: two chains
/// of the same epicycles, both largest first, are equal.
pub proof fn lemma_largest_first_unique(a: Seq<Harmonic>, b: Seq<Harmonic>)
    requires
        a.to_multiset() == b.to_multiset(),
        largest_first(a),
        largest_first(b),
    ensures
        a == b,
{
    let leq = |x: Harmonic, y: Harmonic| precedes(x, y);
    assert(total_ordering(leq));
    assert(sorted_by(a, leq));
    assert(sorted_by(b, leq));
    lemma_sorted_unique(a, b, leq);
}

/// Centering the analyzed sequence takes away its first epicycle and no other.
pub proof fn lemma_centered_drops_first(weights: Seq<u32>)
    requires
        0 < weights.len() <= usize::MAX,
    ensures
        centered(by_frequency(weights)) == by_frequency(weights).drop_first(),
{
    lemma_only_first_is_constant(by_frequency(weights));
}

proof fn lemma_only_first_is_constant(chain: Seq<Harmonic>)
    requires
        chain.len() > 0,
        chain[0].frequency == 0,
        forall|i: int| 1 <= i < chain.len() ==> chain[i].frequency != 0,
    ensures
        centered(chain) == chain.drop_first(),
    decreases chain.len(),
{
    reveal(Seq::filter);
    if chain.len() == 1 {
        assert(chain.drop_last().filter(turning()) =~= Seq::<Harmonic>::empty());
        assert(chain.drop_first() =~= Seq::<Harmonic>::empty());
    } else {
        lemma_only_first_is_constant(chain.drop_last());
        assert(chain.drop_last().drop_first().push(chain.last()) =~= chain.drop_first());
    }
}

/// Chaining the largest first changes the way to the sum, not the sum:
/// whatever is accumulated over the chain without regard to order comes out
/// the same for both orders.
pub proof fn lemma_order_keeps_totals<B>(
    weights: Seq<u32>,
    centered: bool,
    sorted: Seq<Harmonic>,
    unsorted: Seq<Harmonic>,
    start: B,
    accumulate: spec_fn(B, Harmonic) -> B,
)
    requires
        arranged(weights, (Policy { centered, largest_first: true }), sorted),
        arranged(weights, (Policy { centered, largest_first: false }), unsorted),
        commutative_foldl(accumulate),
    ensures
        sorted.fold_left(start, accumulate) == unsorted.fold_left(start, accumulate),
{
    lemma_fold_left_permutation(sorted, unsorted, accumulate, start);
}

} // verus!
