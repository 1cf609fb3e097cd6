use vstd::prelude::*;
use crate::amplitude::Amplitude;

verus! {

/// The triangle wave at `phase`: it rises from -1 at phase 0 to 1 at phase
/// 1/2 and falls back towards -1 as the phase goes to 1.
pub open spec fn tri_wave(phase: real) -> real {
    if phase < 1real / 2real {
        4real * phase - 1real
    } else {
        -4real * phase + 3real
    }
}

/// The sawtooth wave at `phase`: a ramp from 1 at phase 0 down towards -1 as
/// the phase goes to 1.
pub open spec fn saw_wave(phase: real) -> real {
    -2real * phase + 1real
}

/// The square wave at `phase`: 1 on the first half of the period, -1 on the
/// second.
pub open spec fn square_wave(phase: real) -> real {
    if phase < 1real / 2real {
        1real
    } else {
        -1real
    }
}

/// A waveform whose value at a rational phase is a rational number.
#[derive(Clone, Copy, Debug, PartialEq, Eq, Structural)]
pub enum Shape {
    Tri,
    Saw,
    Square,
}

impl Shape {
    /// The waveform's value at `phase`.
    pub open spec fn value(self, phase: real) -> real {
        match self {
            Shape::Tri => tri_wave(phase),
            Shape::Saw => saw_wave(phase),
            Shape::Square => square_wave(phase),
        }
    }

    /// The waveform's value at phase `i / size`.
    pub fn at(self, i: usize, size: usize) -> (a: Amplitude)
        requires
            size > 0,
        ensures
            a.den == size,
            a@ == self.value((i as real) / (size as real)),
    {
        match self {
            Shape::Tri => tri(i, size),
            Shape::Saw => saw(i, size),
            Shape::Square => square(i, size),
        }
    }
}

/// On one period, every waveform stays within `[-1, 1]`.
pub proof fn lemma_value_in_range(shape: Shape, phase: real)
    requires
        0real <= phase < 1real,
    ensures
        -1real <= shape.value(phase) <= 1real,
{
}

proof fn lemma_below_half(i: int, size: int)
    by (nonlinear_arith)
    requires
        size > 0,
    ensures
        ((i as real) / (size as real) < 1real / 2real) <==> 2 * i < size,
{
}

proof fn lemma_affine_on_grid(i: int, size: int, slope: int, offset: int)
    by (nonlinear_arith)
    requires
        size > 0,
    ensures
        ((slope * i + offset * size) as real) / (size as real)
            == (slope as real) * ((i as real) / (size as real)) + (offset as real),
{
}

/// The triangle wave at phase `i / size`.
pub fn tri(i: usize, size: usize) -> (a: Amplitude)
    requires
        size > 0,
    ensures
        a.den == size,
        a@ == tri_wave((i as real) / (size as real)),
{
    proof {
        lemma_below_half(i as int, size as int);
        lemma_affine_on_grid(i as int, size as int, 4, -1);
        lemma_affine_on_grid(i as int, size as int, -4, 3);
    }
    let below: bool = (i as u128) * 2 < (size as u128);
    let num: i128 = if below {
        4 * (i as i128) - (size as i128)
    } else {
        3 * (size as i128) - 4 * (i as i128)
    };
    Amplitude { num, den: size as u128 }
}

/// The sawtooth wave at phase `i / size`.
pub fn saw(i: usize, size: usize) -> (a: Amplitude)
    requires
        size > 0,
    ensures
        a.den == size,
        a@ == saw_wave((i as real) / (size as real)),
{
    proof {
        lemma_affine_on_grid(i as int, size as int, -2, 1);
    }
    Amplitude { num: (size as i128) - 2 * (i as i128), den: size as u128 }
}

/// The square wave at phase `i / size`.
pub fn square(i: usize, size: usize) -> (a: Amplitude)
    requires
        size > 0,
    ensures
        a.den == size,
        a@ == square_wave((i as real) / (size as real)),
{
    proof {
        lemma_below_half(i as int, size as int);
        lemma_affine_on_grid(i as int, size as int, 0, 1);
        lemma_affine_on_grid(i as int, size as int, 0, -1);
    }
    let below: bool = (i as u128) * 2 < (size as u128);
    let num: i128 = if below {
        size as i128
    } else {
        -(size as i128)
    };
    Amplitude { num, den: size as u128 }
}

} // verus!
