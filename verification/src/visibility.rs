//! The visibility knob: which leading part of the epicycle chain is shown.

use vstd::prelude::*;

verus! {

/// The numerator of a fraction cut to at most one whole.
pub open spec fn clamped(numerator: nat, denominator: nat) -> nat {
    if numerator < denominator {
        numerator
    } else {
        denominator
    }
}

/// How many of `total` epicycles the fraction `numerator / denominator`
/// shows: the fraction is cut to at most one whole, and a started epicycle
/// counts as one.
pub open spec fn shown(total: nat, numerator: nat, denominator: nat) -> nat
    recommends
        denominator > 0,
{
    ((total * clamped(numerator, denominator) + denominator - 1) / (denominator as int)) as nat
}

/// A fraction of the chain, as a ratio of two counts: a pointer position over
/// a width, a step over a number of steps.
#[derive(Clone, Copy, Debug)]
pub struct Fraction {
    numerator: u64,
    denominator: u64,
}

impl Fraction {
    #[verifier::type_invariant]
    spec fn defined(self) -> bool {
        self.denominator > 0
    }

    /// The count above the bar.
    pub closed spec fn numerator(self) -> nat {
        self.numerator as nat
    }

    /// The count below the bar.
    pub closed spec fn denominator(self) -> nat {
        self.denominator as nat
    }

    /// The fraction `numerator / denominator`; none where the denominator is zero.
    pub fn new(numerator: u64, denominator: u64) -> (r: Option<Fraction>)
        ensures
            denominator == 0 <==> r is None,
            r matches Some(f) ==> f.numerator() == numerator && f.denominator() == denominator,
    {
        if denominator == 0 {
            None
        } else {
            Some(Fraction { numerator, denominator })
        }
    }

    /// The fraction that shows the whole chain.
    pub fn whole() -> (r: Fraction)
        ensures
            r.numerator() == 1,
            r.denominator() == 1,
    {
        Fraction { numerator: 1, denominator: 1 }
    }

    /// The fraction that shows nothing.
    pub fn nothing() -> (r: Fraction)
        ensures
            r.numerator() == 0,
            r.denominator() == 1,
    {
        Fraction { numerator: 0, denominator: 1 }
    }
}

/// The shown count is the clamped fraction of the total, rounded up: the
/// least count that is no less than `total * clamped / denominator`.
pub proof fn lemma_shown_is_ceiling(total: nat, numerator: nat, denominator: nat)
    requires
        denominator > 0,
    ensures
        shown(total, numerator, denominator) * denominator >= total * clamped(
            numerator,
            denominator,
        ),
        shown(total, numerator, denominator) * denominator < total * clamped(numerator, denominator)
            + denominator,
{
    let d = denominator as int;
    let x = total * clamped(numerator, denominator) + denominator - 1;
    assert(x >= 0) by (nonlinear_arith)
        requires
            x == total * clamped(numerator, denominator) + denominator - 1,
            denominator > 0,
    ;
    assert(x == d * (x / d) + x % d && 0 <= x % d < d && x / d >= 0) by (nonlinear_arith)
        requires
            d > 0,
            x >= 0,
    ;
    assert((x / d) * d == d * (x / d)) by (nonlinear_arith);
}

/// Nothing is shown of an empty chain or at fraction zero, never more than
/// the chain holds, and all of it from one whole upwards.
pub proof fn lemma_shown_bounds(total: nat, numerator: nat, denominator: nat)
    requires
        denominator > 0,
    ensures
        shown(total, numerator, denominator) <= total,
        numerator == 0 || total == 0 <==> shown(total, numerator, denominator) == 0,
        numerator >= denominator ==> shown(total, numerator, denominator) == total,
{
    lemma_shown_is_ceiling(total, numerator, denominator);
    let s = shown(total, numerator, denominator);
    let c = clamped(numerator, denominator);
    let d = denominator;
    assert(s <= total) by (nonlinear_arith)
        requires
            s * d < total * c + d,
            c <= d,
            d > 0,
    ;
    assert(c == 0 || total == 0 ==> s == 0) by (nonlinear_arith)
        requires
            s * d < total * c + d,
            d > 0,
    ;
    assert(s == 0 ==> c == 0 || total == 0) by (nonlinear_arith)
        requires
            s * d >= total * c,
    ;
    assert(c == d ==> s >= total) by (nonlinear_arith)
        requires
            s * d >= total * c,
            d > 0,
    ;
}

/// A larger fraction never shows fewer epicycles.
pub proof fn lemma_shown_monotone(
    total: nat,
    numerator: nat,
    denominator: nat,
    larger_numerator: nat,
    larger_denominator: nat,
)
    requires
        denominator > 0,
        larger_denominator > 0,
        numerator * larger_denominator <= larger_numerator * denominator,
    ensures
        shown(total, numerator, denominator) <= shown(
            total,
            larger_numerator,
            larger_denominator,
        ),
{
    lemma_shown_is_ceiling(total, numerator, denominator);
    lemma_shown_is_ceiling(total, larger_numerator, larger_denominator);
    let s1 = shown(total, numerator, denominator) as int;
    let s2 = shown(total, larger_numerator, larger_denominator) as int;
    let c1 = clamped(numerator, denominator) as int;
    let c2 = clamped(larger_numerator, larger_denominator) as int;
    let d1 = denominator as int;
    let d2 = larger_denominator as int;
    let t = total as int;
    assert(c1 * d2 <= c2 * d1) by (nonlinear_arith)
        requires
            numerator * d2 <= larger_numerator * d1,
            c1 == if numerator < d1 { numerator as int } else { d1 },
            c2 == if larger_numerator < d2 { larger_numerator as int } else { d2 },
            d1 > 0,
            d2 > 0,
    ;
    if s1 > s2 {
        assert(t * c1 * d2 <= t * c2 * d1) by (nonlinear_arith)
            requires
                c1 * d2 <= c2 * d1,
                t >= 0,
        ;
        assert(t * c2 * d1 <= s2 * d2 * d1) by (nonlinear_arith)
            requires
                s2 * d2 >= t * c2,
                d1 > 0,
        ;
        assert(s2 * d2 * d1 <= (s1 - 1) * d1 * d2) by (nonlinear_arith)
            requires
                s2 <= s1 - 1,
                d1 > 0,
                d2 > 0,
        ;
        assert((s1 - 1) * d1 >= t * c1) by (nonlinear_arith)
            requires
                t * c1 * d2 <= (s1 - 1) * d1 * d2,
                d2 > 0,
        ;
        assert(false) by (nonlinear_arith)
            requires
                (s1 - 1) * d1 >= t * c1,
                s1 * d1 < t * c1 + d1,
        ;
    }
}

/// Turning the knob up never takes an epicycle out of the shown chain: what a
/// smaller fraction shows is the leading part of what a larger one shows.
pub proof fn lemma_visible_prefix_grows<A>(
    chain: Seq<A>,
    numerator: nat,
    denominator: nat,
    larger_numerator: nat,
    larger_denominator: nat,
)
    requires
        denominator > 0,
        larger_denominator > 0,
        numerator * larger_denominator <= larger_numerator * denominator,
    ensures
        chain.take(shown(chain.len(), numerator, denominator) as int).is_prefix_of(
            chain.take(shown(chain.len(), larger_numerator, larger_denominator) as int),
        ),
{
    lemma_shown_monotone(
        chain.len(),
        numerator,
        denominator,
        larger_numerator,
        larger_denominator,
    );
    lemma_shown_bounds(chain.len(), numerator, denominator);
    lemma_shown_bounds(chain.len(), larger_numerator, larger_denominator);
    let few = shown(chain.len(), numerator, denominator) as int;
    let many = shown(chain.len(), larger_numerator, larger_denominator) as int;
    assert(chain.take(few) =~= chain.take(many).subrange(0, few));
}

/// How many of `total` epicycles `fraction` shows.
pub fn visible_count(total: usize, fraction: Fraction) -> (r: usize)
    ensures
        r == shown(total as nat, fraction.numerator(), fraction.denominator()),
        r <= total,
        fraction.numerator() == 0 ==> r == 0,
        fraction.numerator() >= fraction.denominator() ==> r == total,
{
    proof {
        use_type_invariant(fraction);
        lemma_shown_bounds(total as nat, fraction.numerator(), fraction.denominator());
    }
    let part: u64 = if fraction.numerator < fraction.denominator {
        fraction.numerator
    } else {
        fraction.denominator
    };
    proof {
        assert(total * part <= usize::MAX * u64::MAX) by (nonlinear_arith)
            requires
                total <= usize::MAX,
                part <= u64::MAX,
        ;
        assert(usize::MAX * u64::MAX + u64::MAX <= u128::MAX) by (nonlinear_arith)
            requires
                usize::MAX <= 0xffff_ffff_ffff_ffff,
                u64::MAX == 0xffff_ffff_ffff_ffff,
                u128::MAX == 0xffff_ffff_ffff_ffff_ffff_ffff_ffff_ffff,
        ;
    }
    let reach: u128 = (total as u128) * (part as u128) + ((fraction.denominator - 1) as u128);
    let count: u128 = reach / (fraction.denominator as u128);
    count as usize
}

/// The leading part of `chain` that `fraction` shows: nothing at fraction
/// zero, all of it from one whole upwards.
pub fn visible_part<T: Copy>(chain: &Vec<T>, fraction: Fraction) -> (r: Vec<T>)
    ensures
        r@ == chain@.take(
            shown(chain.len() as nat, fraction.numerator(), fraction.denominator()) as int,
        ),
        fraction.numerator() == 0 ==> r@ == Seq::<T>::empty(),
        fraction.numerator() >= fraction.denominator() ==> r@ == chain@,
{
    let count = visible_count(chain.len(), fraction);
    let mut part: Vec<T> = Vec::new();
    let mut i: usize = 0;
    while i < count
        invariant
            i <= count <= chain.len(),
            part@ == chain@.take(i as int),
        decreases count - i,
    {
        part.push(chain[i]);
        assert(chain@.take(i + 1) =~= chain@.take(i as int).push(chain@[i as int]));
        i += 1;
    }
    assert(chain@.take(0) =~= Seq::<T>::empty());
    assert(chain@.take(chain.len() as int) =~= chain@);
    part
}

} // verus!
