//! The outline traced so far: the points reconstructed during one revolution.

use crate::period::Period;
use vstd::arithmetic::div_mod::{lemma_mod_self_0, lemma_small_mod};
use vstd::prelude::*;

verus! {

/// How many segments join `count` traced points of a revolution of `samples`
/// sample times: one between each two neighbours, and one more that closes
/// the loop once every sample time has its point.
pub open spec fn segment_count(count: nat, samples: nat) -> nat {
    if count == samples {
        count
    } else if count == 0 {
        0
    } else {
        (count - 1) as nat
    }
}

/// The place of the point at which the segment that starts at point `i`
/// ends: the next point, which for the closing segment is the first.
pub open spec fn segment_end(i: nat, samples: nat) -> nat
    recommends
        samples > 0,
{
    (i + 1) % samples
}

/// The points of the current revolution, in the order of their sample times.
#[derive(Debug)]
pub struct Trace<P> {
    period: Period,
    points: Vec<P>,
}

impl<P> View for Trace<P> {
    type V = Seq<P>;

    /// The traced points, oldest first.
    closed spec fn view(&self) -> Seq<P> {
        self.points@
    }
}

impl<P> Trace<P> {
    /// A trace never holds more points than its revolution has sample times.
    pub closed spec fn wf(self) -> bool {
        self.points.len() <= self.period@
    }

    /// The number of sample times in the revolution that is traced.
    pub closed spec fn samples(self) -> nat {
        self.period@
    }

    /// Whether every sample time of the revolution has its point.
    pub open spec fn closed_loop(self) -> bool {
        self@.len() == self.samples()
    }

    /// An empty trace of the revolution `period`.
    pub fn new(period: Period) -> (r: Trace<P>)
        ensures
            r.wf(),
            r@ == Seq::<P>::empty(),
            r.samples() == period@,
    {
        Trace { period, points: Vec::new() }
    }

    /// The revolution that is traced.
    pub fn period(&self) -> (r: Period)
        ensures
            r@ == self.samples(),
    {
        self.period
    }

    /// The number of traced points, which never exceeds the number of sample times.
    pub fn len(&self) -> (r: usize)
        requires
            self.wf(),
        ensures
            r == self@.len(),
            r <= self.samples(),
    {
        self.points.len()
    }

    /// Whether every sample time of the revolution has its point.
    pub fn is_closed(&self) -> (r: bool)
        ensures
            r == self.closed_loop(),
    {
        self.points.len() == self.period.samples()
    }

    /// The sample time whose point comes next: after a closed loop, the first again.
    pub fn next_sample(&self) -> (r: usize)
        requires
            self.wf(),
        ensures
            r == self@.len() % self.samples(),
            r < self.samples(),
    {
        let samples = self.period.samples();
        proof {
            if self.points.len() < samples {
                lemma_small_mod(self.points.len() as nat, samples as nat);
            } else {
                lemma_mod_self_0(samples as int);
            }
        }
        if self.points.len() == samples {
            0
        } else {
            self.points.len()
        }
    }

    /// The traced points, oldest first.
    pub fn points(&self) -> (r: &Vec<P>)
        ensures
            r@ == self@,
    {
        &self.points
    }

    /// Forgets the traced points.
    pub fn reset(&mut self)
        ensures
            final(self).wf(),
            final(self)@ == Seq::<P>::empty(),
            final(self).samples() == old(self).samples(),
    {
        self.points.clear();
    }

    /// Appends the point of the next sample time. A closed loop takes no more
    /// points: it is left as it is and the point is handed back.
    pub fn push(&mut self, point: P) -> (r: Result<(), P>)
        requires
            old(self).wf(),
        ensures
            final(self).wf(),
            final(self).samples() == old(self).samples(),
            !old(self).closed_loop() ==> r is Ok && final(self)@ == old(self)@.push(point),
            old(self).closed_loop() ==> r == Err::<(), P>(point) && final(self)@ == old(self)@,
    {
        if self.points.len() == self.period.samples() {
            Err(point)
        } else {
            self.points.push(point);
            Ok(())
        }
    }

    /// Takes the point of the next sample time, starting over where the
    /// revolution is complete.
    pub fn record(&mut self, point: P)
        requires
            old(self).wf(),
        ensures
            final(self).wf(),
            final(self).samples() == old(self).samples(),
            old(self).closed_loop() ==> final(self)@ == seq![point],
            !old(self).closed_loop() ==> final(self)@ == old(self)@.push(point),
    {
        let samples = self.period.samples();
        if self.points.len() == samples {
            self.points.clear();
        }
        self.points.push(point);
        assert(Seq::<P>::empty().push(point) =~= seq![point]);
    }

    /// The segments to draw, each as the places of its two ends among the
    /// traced points.
    pub fn segments(&self) -> (r: Vec<(usize, usize)>)
        requires
            self.wf(),
        ensures
            r@.len() == segment_count(self@.len(), self.samples()),
            forall|i: int|
                0 <= i < r@.len() ==> r@[i].0 == i && r@[i].1 == segment_end(
                    i as nat,
                    self.samples(),
                ) && r@[i].1 < self@.len(),
    {
        let count = self.points.len();
        let samples = self.period.samples();
        let mut ends: Vec<(usize, usize)> = Vec::new();
        if count == 0 {
            return ends;
        }
        let mut i: usize = 0;
        while i + 1 < count
            invariant
                0 < count <= samples,
                count == self@.len(),
                samples == self.samples(),
                i + 1 <= count,
                ends@.len() == i,
                forall|j: int|
                    0 <= j < i ==> ends@[j].0 == j && ends@[j].1 == segment_end(
                        j as nat,
                        self.samples(),
                    ) && ends@[j].1 < count,
            decreases count - i,
        {
            proof {
                lemma_small_mod((i + 1) as nat, samples as nat);
            }
            ends.push((i, i + 1));
            i += 1;
        }
        if count == samples {
            proof {
                lemma_mod_self_0(samples as int);
            }
            ends.push((count - 1, 0));
        }
        ends
    }
}

} // verus!
