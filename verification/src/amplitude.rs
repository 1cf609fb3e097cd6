use vstd::prelude::*;

verus! {

/// An exact amplitude: the rational number `num / den`.
///
/// Two amplitudes with different fields may stand for the same number; the
/// view is the number itself.
#[derive(Clone, Copy, Debug)]
pub struct Amplitude {
    pub num: i128,
    pub den: u128,
}

impl View for Amplitude {
    type V = real;

    open spec fn view(&self) -> real {
        self.num as real / self.den as real
    }
}

impl Amplitude {
    /// The denominator is not zero, so the view is a definite number.
    pub open spec fn wf(&self) -> bool {
        self.den > 0
    }
}

} // verus!
