use vstd::prelude::*;
use crate::amplitude::Amplitude;
use crate::phase::{lemma_floor_quotient, lemma_proper_fraction, phase_of, phase_step};
use crate::shape::{lemma_value_in_range, Shape};

verus! {

/// Why a table could not be built.
#[derive(Clone, Copy, Debug, PartialEq, Eq, Structural)]
pub enum TableError {
    /// A table must hold at least one sample.
    InvalidSize,
    /// The scale that the samples are measured against is zero.
    ZeroScale,
    /// A sample is larger in magnitude than the scale.
    SampleOutOfRange,
}

/// Every sample lies within `[-1, 1]`.
pub open spec fn samples_in_range(table: Seq<real>) -> bool {
    forall|i: int| 0 <= i < table.len() ==> -1real <= #[trigger] table[i] <= 1real
}

/// One period of `shape`, sampled at the `size` phases `0, 1/size, ...`.
pub open spec fn shape_table(shape: Shape, size: nat) -> Seq<real> {
    Seq::new(size, |i: int| shape.value((i as real) / (size as real)))
}

/// No sample is larger in magnitude than `scale`.
pub open spec fn within_scale(samples: Seq<i64>, scale: u64) -> bool {
    forall|i: int| 0 <= i < samples.len() ==> -(scale as int) <= #[trigger] samples[i] <= scale as int
}

/// The integer samples `nums`, each measured against `scale`.
pub open spec fn scaled(nums: Seq<int>, scale: int) -> Seq<real> {
    Seq::new(nums.len(), |i: int| (nums[i] as real) / (scale as real))
}

/// The table read at `phase` by linear interpolation. The sample at the
/// position `phase * size`, rounded down, is blended with its successor, which
/// for the last sample is the first one; the weight of the successor is
/// `phase` itself.
pub open spec fn interpolate(table: Seq<real>, phase: real) -> real {
    let size = table.len() as int;
    let i0 = (phase * (size as real)).floor();
    let i1 = (i0 + 1) % size;
    (1real - phase) * table[i0] + phase * table[i1]
}

/// The amplitude of output sample `n` for a frequency `f` at sample rate `fs`.
pub open spec fn synth_value(table: Seq<real>, n: nat, f: real, fs: real) -> real {
    interpolate(table, phase_of(n, f, fs))
}

/// The index that follows `i` in a table of `size` samples; the last index is
/// followed by the first.
pub fn next_index(i: usize, size: usize) -> (next: usize)
    requires
        i < size,
    ensures
        next == (i + 1) % (size as int),
        next < size,
        next == 0 <==> i + 1 == size,
{
    if i + 1 == size {
        assert((i + 1) % (size as int) == 0) by {
            vstd::arithmetic::div_mod::lemma_mod_self_0(size as int);
        }
        0
    } else {
        assert((i + 1) % (size as int) == i + 1) by {
            vstd::arithmetic::div_mod::lemma_small_mod((i + 1) as nat, size as nat);
        }
        i + 1
    }
}

/// One period of a waveform as integer samples over a common scale.
pub struct WaveTable {
    scale: u64,
    table: Vec<i128>,
}

impl View for WaveTable {
    type V = Seq<real>;

    closed spec fn view(&self) -> Seq<real> {
        scaled(self.table@.map_values(|x: i128| x as int), self.scale as int)
    }
}

proof fn lemma_position(p: int, q: int, size: int)
    by (nonlinear_arith)
    requires
        0 <= p < q,
        size > 0,
    ensures
        ((p as real) / (q as real)) * (size as real) == ((p * size) as real) / (q as real),
        0 <= (p * size) / q < size,
        0 <= p * size <= (q - 1) * size,
{
}

proof fn lemma_blend(p: int, q: int, a0: int, a1: int, scale: int)
    by (nonlinear_arith)
    requires
        0 <= p < q,
        scale > 0,
    ensures
        (1real - (p as real) / (q as real)) * ((a0 as real) / (scale as real)) + ((p as real) / (
        q as real)) * ((a1 as real) / (scale as real)) == (((q - p) * a0 + p * a1) as real) / ((q
            * scale) as real),
{
}

proof fn lemma_blend_bound(p: int, q: int, a0: int, a1: int, scale: int)
    by (nonlinear_arith)
    requires
        0 <= p < q,
        -scale <= a0 <= scale,
        -scale <= a1 <= scale,
    ensures
        -(q * scale) <= (q - p) * a0 <= q * scale,
        -(q * scale) <= p * a1 <= q * scale,
        -(q * scale) <= (q - p) * a0 + p * a1 <= q * scale,
{
}

proof fn lemma_product_bound(x: int, y: int, xmax: int, ymax: int)
    by (nonlinear_arith)
    requires
        0 <= x <= xmax,
        0 <= y <= ymax,
    ensures
        0 <= x * y <= xmax * ymax,
        x > 0 && y > 0 ==> x * y > 0,
{
}

proof fn lemma_unit_ratio(num: int, den: int)
    by (nonlinear_arith)
    requires
        den > 0,
        -den <= num <= den,
    ensures
        -1real <= (num as real) / (den as real) <= 1real,
{
}

proof fn lemma_unit_numerator(num: int, den: int)
    by (nonlinear_arith)
    requires
        den > 0,
        -1real <= (num as real) / (den as real) <= 1real,
    ensures
        -den <= num <= den,
{
}

impl WaveTable {
    #[verifier::type_invariant]
    spec fn inv(&self) -> bool {
        &&& self.scale > 0
        &&& self.table@.len() > 0
        &&& forall|i: int|
            0 <= i < self.table@.len() ==> -(self.scale as int) <= #[trigger] self.table@[i]
                <= self.scale as int
    }

    proof fn lemma_in_range(&self)
        requires
            self.inv(),
        ensures
            samples_in_range(self@),
    {
        assert forall|i: int| 0 <= i < self@.len() implies -1real <= #[trigger] self@[i]
            <= 1real by {
            lemma_unit_ratio(self.table@[i] as int, self.scale as int);
        }
    }

    /// The table read at phase `p / q`.
    fn at_phase(&self, p: u32, q: u32) -> (a: Amplitude)
        requires
            p < q,
        ensures
            a.wf(),
            a@ == interpolate(self@, (p as real) / (q as real)),
            -1real <= a@ <= 1real,
    {
        proof {
            use_type_invariant(self);
        }
        let size: usize = self.table.len();
        let scale: u64 = self.scale;
        proof {
            lemma_position(p as int, q as int, size as int);
            lemma_product_bound(p as int, size as int, 0xffff_ffff, 0xffff_ffff_ffff_ffff);
            lemma_floor_quotient(p * size, q as int);
        }
        let i0: usize = (((p as u128) * (size as u128)) / (q as u128)) as usize;
        let i1: usize = next_index(i0, size);
        let a0: i128 = self.table[i0];
        let a1: i128 = self.table[i1];
        proof {
            lemma_blend(p as int, q as int, a0 as int, a1 as int, scale as int);
            lemma_blend_bound(p as int, q as int, a0 as int, a1 as int, scale as int);
            lemma_product_bound(q as int, scale as int, 0xffff_ffff, 0xffff_ffff_ffff_ffff);
            lemma_unit_ratio((q - p) * a0 + p * a1, q * scale);
        }
        let num: i128 = ((q - p) as i128) * a0 + (p as i128) * a1;
        let den: u128 = (q as u128) * (scale as u128);
        Amplitude { num, den }
    }

    /// One period of `shape` in `size` samples: sample `i` is the waveform's
    /// value at phase `i / size`. A table of no samples is refused.
    pub fn new(shape: Shape, size: usize) -> (made: Result<WaveTable, TableError>)
        ensures
            made is Ok <==> size > 0,
            made matches Ok(t) ==> t@ == shape_table(shape, size as nat) && samples_in_range(t@),
            made matches Err(e) ==> e == TableError::InvalidSize,
    {
        if size == 0 {
            return Err(TableError::InvalidSize);
        }
        let mut table: Vec<i128> = Vec::new();
        let mut i: usize = 0;
        while i < size
            invariant
                size > 0,
                i <= size,
                table@.len() == i,
                forall|j: int|
                    0 <= j < i ==> -(size as int) <= #[trigger] table@[j] <= size as int,
                forall|j: int|
                    0 <= j < i ==> ((#[trigger] table@[j]) as real) / (size as real)
                        == shape.value((j as real) / (size as real)),
            decreases size - i,
        {
            let a: Amplitude = shape.at(i, size);
            proof {
                lemma_proper_fraction(i as int, size as int);
                lemma_value_in_range(shape, (i as real) / (size as real));
                lemma_unit_numerator(a.num as int, size as int);
            }
            table.push(a.num);
            i = i + 1;
        }
        let made = WaveTable { scale: size as u64, table };
        proof {
            assert(made@ =~= shape_table(shape, size as nat));
            made.lemma_in_range();
        }
        Ok(made)
    }

    /// A table of the given integer samples, each measured against `scale`:
    /// sample `i` stands for `samples[i] / scale`. The table must hold at least
    /// one sample, the scale must not be zero, and no sample may be larger in
    /// magnitude than the scale.
    pub fn from_samples(samples: Vec<i64>, scale: u64) -> (made: Result<WaveTable, TableError>)
        ensures
            match made {
                Ok(t) => {
                    &&& samples@.len() > 0
                    &&& scale > 0
                    &&& within_scale(samples@, scale)
                    &&& t@ == scaled(samples@.map_values(|x: i64| x as int), scale as int)
                    &&& samples_in_range(t@)
                },
                Err(TableError::InvalidSize) => samples@.len() == 0,
                Err(TableError::ZeroScale) => samples@.len() > 0 && scale == 0,
                Err(TableError::SampleOutOfRange) => {
                    &&& samples@.len() > 0
                    &&& scale > 0
                    &&& !within_scale(samples@, scale)
                },
            },
    {
        if samples.len() == 0 {
            return Err(TableError::InvalidSize);
        }
        if scale == 0 {
            return Err(TableError::ZeroScale);
        }
        let mut table: Vec<i128> = Vec::new();
        let mut i: usize = 0;
        while i < samples.len()
            invariant
                scale > 0,
                i <= samples@.len(),
                table@.len() == i,
                forall|j: int| 0 <= j < i ==> #[trigger] table@[j] == samples@[j],
                forall|j: int|
                    0 <= j < i ==> -(scale as int) <= #[trigger] samples@[j] <= scale as int,
            decreases samples@.len() - i,
        {
            let x: i128 = samples[i] as i128;
            if x > scale as i128 || x < -(scale as i128) {
                return Err(TableError::SampleOutOfRange);
            }
            table.push(x);
            i = i + 1;
        }
        let made = WaveTable { scale, table };
        proof {
            assert(made@ =~= scaled(samples@.map_values(|x: i64| x as int), scale as int));
            made.lemma_in_range();
        }
        Ok(made)
    }

    /// The number of samples in the table.
    pub fn size(&self) -> (size: usize)
        ensures
            size == self@.len(),
            size > 0,
    {
        proof {
            use_type_invariant(self);
        }
        self.table.len()
    }

    /// The sample at index `i`, if the table has one.
    pub fn sample(&self, i: usize) -> (sample: Option<Amplitude>)
        ensures
            sample is Some <==> i < self@.len(),
            sample matches Some(a) ==> a.wf() && a@ == self@[i as int] && -1real <= a@ <= 1real,
    {
        proof {
            use_type_invariant(self);
        }
        if i < self.table.len() {
            proof {
                lemma_unit_ratio(self.table@[i as int] as int, self.scale as int);
            }
            Some(Amplitude { num: self.table[i], den: self.scale as u128 })
        } else {
            None
        }
    }

    /// The amplitude of output sample `n` for a frequency `f` at sample rate
    /// `fs`, both counted in the same unit. A sample rate of zero gives no
    /// amplitude.
    pub fn synth(&self, n: usize, f: u32, fs: u32) -> (out: Option<Amplitude>)
        ensures
            out is Some <==> fs != 0,
            out matches Some(a) ==> a.wf() && a@ == synth_value(
                self@,
                n as nat,
                f as real,
                fs as real,
            ) && -1real <= a@ <= 1real,
    {
        if fs == 0 {
            return None;
        }
        let p: u32 = phase_step(n, f, fs);
        Some(self.at_phase(p, fs))
    }
}

} // verus!
