//! One revolution of the path, divided into equally spaced sample times.

use crate::input::InputError;
use vstd::arithmetic::div_mod::lemma_mod_multiples_vanish;
use vstd::prelude::*;

verus! {

/// The part of a revolution, in `samples`-ths, through which the harmonic
/// `frequency` has turned at sample time `sample`: whole revolutions dropped.
pub open spec fn turn(frequency: nat, sample: nat, samples: nat) -> nat
    recommends
        samples > 0,
{
    (frequency * sample) % samples
}

/// A revolution divided into at least one sample time.
#[derive(Clone, Copy, Debug, PartialEq, Eq)]
pub struct Period {
    samples: usize,
}

impl View for Period {
    type V = nat;

    /// The number of sample times.
    closed spec fn view(&self) -> nat {
        self.samples as nat
    }
}

impl Period {
    #[verifier::type_invariant]
    spec fn inhabited(self) -> bool {
        self.samples >= 1
    }

    /// The revolution of a path of `samples` points. A path without points
    /// has none and is refused as empty.
    pub fn new(samples: usize) -> (r: Result<Period, InputError>)
        ensures
            samples == 0 ==> r == Err::<Period, InputError>(InputError::Empty),
            samples > 0 ==> r is Ok && r->Ok_0@ == samples,
    {
        if samples == 0 {
            Err(InputError::Empty)
        } else {
            Ok(Period { samples })
        }
    }

    /// The number of sample times, which is never zero.
    pub fn samples(&self) -> (r: usize)
        ensures
            r == self@,
            r >= 1,
    {
        proof {
            use_type_invariant(self);
        }
        self.samples
    }

    /// How far the harmonic `frequency` has turned at sample time `sample`,
    /// as a count of sample steps below one revolution.
    pub fn turn(&self, frequency: usize, sample: usize) -> (r: usize)
        ensures
            r == turn(frequency as nat, sample as nat, self@),
            r < self@,
    {
        proof {
            use_type_invariant(self);
            assert(frequency * sample <= usize::MAX * usize::MAX) by (nonlinear_arith)
                requires
                    frequency <= usize::MAX,
                    sample <= usize::MAX,
            ;
            assert(usize::MAX * usize::MAX <= u128::MAX) by (nonlinear_arith)
                requires
                    usize::MAX <= 0xffff_ffff_ffff_ffff,
            ;
        }
        let product: u128 = (frequency as u128) * (sample as u128);
        let rest: u128 = product % (self.samples as u128);
        rest as usize
    }
}

/// A harmonic is back where it was after a whole revolution of samples, and
/// harmonics whose numbers differ by the number of samples turn alike at
/// every sample time.
pub proof fn lemma_turn_periodic(frequency: nat, sample: nat, samples: nat)
    requires
        samples > 0,
    ensures
        turn(frequency, sample + samples, samples) == turn(frequency, sample, samples),
        turn(frequency + samples, sample, samples) == turn(frequency, sample, samples),
{
    assert(frequency * (sample + samples) == samples * frequency + frequency * sample)
        by (nonlinear_arith);
    assert((frequency + samples) * sample == samples * sample + frequency * sample)
        by (nonlinear_arith);
    lemma_mod_multiples_vanish(frequency as int, (frequency * sample) as int, samples as int);
    lemma_mod_multiples_vanish(sample as int, (frequency * sample) as int, samples as int);
}

/// The constant term does not turn, and at the first sample time nothing has
/// turned yet.
pub proof fn lemma_turn_zero(frequency: nat, sample: nat, samples: nat)
    requires
        samples > 0,
    ensures
        turn(0, sample, samples) == 0,
        turn(frequency, 0, samples) == 0,
{
    assert(0 * sample == 0) by (nonlinear_arith);
    assert(frequency * 0 == 0) by (nonlinear_arith);
}

} // verus!
