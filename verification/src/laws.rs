use vstd::prelude::*;
use crate::phase::{
    frac, lemma_floor_unique, lemma_frac_range, lemma_frac_shift, lemma_proper_fraction, phase_of,
};
use crate::shape::{lemma_value_in_range, Shape};
use crate::table::{interpolate, samples_in_range, shape_table, synth_value};

verus! {

proof fn lemma_cycles_apart(n1: real, n2: real, f: real, fs: real, k: real)
    by (nonlinear_arith)
    requires
        fs != 0real,
        (n2 - n1) * f == k * fs,
    ensures
        n2 * f / fs == n1 * f / fs + k,
{
}

proof fn lemma_same_cycles(n1: real, n2: real, f: real)
    by (nonlinear_arith)
    requires
        (n2 - n1) * f == 0real,
    ensures
        n2 * f == n1 * f,
{
}

/// Two output samples that lie a whole number `k` of cycles apart have the
/// same phase.
pub proof fn lemma_phase_periodic(n1: nat, n2: nat, f: real, fs: real, k: int)
    requires
        ((n2 - n1) as real) * f == (k as real) * fs,
    ensures
        phase_of(n2, f, fs) == phase_of(n1, f, fs),
{
    if fs != 0real {
        lemma_cycles_apart(n1 as real, n2 as real, f, fs, k as real);
        lemma_frac_shift((n1 as real) * f / fs, k);
    } else {
        lemma_same_cycles(n1 as real, n2 as real, f);
    }
}

/// Synthesis is periodic: two output samples that lie a whole number `k` of
/// cycles apart have the same amplitude, whatever the table holds.
pub proof fn lemma_synth_periodic(table: Seq<real>, n1: nat, n2: nat, f: real, fs: real, k: int)
    requires
        ((n2 - n1) as real) * f == (k as real) * fs,
    ensures
        synth_value(table, n2, f, fs) == synth_value(table, n1, f, fs),
{
    lemma_phase_periodic(n1, n2, f, fs, k);
}

proof fn lemma_position_bounds(phase: real, size: int)
    by (nonlinear_arith)
    requires
        0real <= phase < 1real,
        size > 0,
    ensures
        0real <= phase * (size as real),
        phase * (size as real) < (size as real),
{
}

/// For a phase within one period, both samples that interpolation reads lie
/// inside the table, and the second is the successor of the first, which for
/// the last sample is the first one.
pub proof fn lemma_neighbours_in_table(size: int, phase: real)
    requires
        size > 0,
        0real <= phase < 1real,
    ensures
        0 <= (phase * (size as real)).floor() < size,
        0 <= ((phase * (size as real)).floor() + 1) % size < size,
        (phase * (size as real)).floor() < size - 1 ==> ((phase * (size as real)).floor() + 1)
            % size == (phase * (size as real)).floor() + 1,
        (phase * (size as real)).floor() == size - 1 ==> ((phase * (size as real)).floor() + 1)
            % size == 0,
{
    lemma_position_bounds(phase, size);
    let i0 = (phase * (size as real)).floor();
    if i0 + 1 < size {
        vstd::arithmetic::div_mod::lemma_small_mod((i0 + 1) as nat, size as nat);
    } else {
        vstd::arithmetic::div_mod::lemma_mod_self_0(size);
    }
}

/// In the last interval of the table, interpolation blends the last sample
/// with the first.
pub proof fn lemma_interpolate_wraps(table: Seq<real>, phase: real)
    requires
        table.len() > 0,
        0real <= phase < 1real,
        phase * (table.len() as real) >= (table.len() - 1) as real,
    ensures
        interpolate(table, phase) == (1real - phase) * table[table.len() - 1] + phase * table[0],
{
    let size = table.len() as int;
    lemma_position_bounds(phase, size);
    lemma_floor_unique(phase * (size as real), size - 1);
    lemma_neighbours_in_table(size, phase);
}

proof fn lemma_convex(a: real, b: real, w: real)
    by (nonlinear_arith)
    requires
        -1real <= a <= 1real,
        -1real <= b <= 1real,
        0real <= w <= 1real,
    ensures
        -1real <= (1real - w) * a + w * b <= 1real,
{
}

/// Interpolation at a phase within one period stays within `[-1, 1]` when
/// every sample does.
pub proof fn lemma_interpolate_in_range(table: Seq<real>, phase: real)
    requires
        table.len() > 0,
        samples_in_range(table),
        0real <= phase < 1real,
    ensures
        -1real <= interpolate(table, phase) <= 1real,
{
    let size = table.len() as int;
    lemma_neighbours_in_table(size, phase);
    let i0 = (phase * (size as real)).floor();
    let i1 = (i0 + 1) % size;
    lemma_convex(table[i0], table[i1], phase);
}

/// Every sample of a table of one of the waveforms lies within `[-1, 1]`.
pub proof fn lemma_shape_table_in_range(shape: Shape, size: nat)
    ensures
        samples_in_range(shape_table(shape, size)),
{
    let table = shape_table(shape, size);
    assert forall|i: int| 0 <= i < table.len() implies -1real <= #[trigger] table[i] <= 1real by {
        lemma_proper_fraction(i, size as int);
        lemma_value_in_range(shape, (i as real) / (size as real));
    }
}

/// Synthesis from a table whose samples lie within `[-1, 1]` stays within
/// `[-1, 1]`, for every output sample, frequency and sample rate.
pub proof fn lemma_synth_in_range(table: Seq<real>, n: nat, f: real, fs: real)
    requires
        table.len() > 0,
        samples_in_range(table),
    ensures
        -1real <= synth_value(table, n, f, fs) <= 1real,
{
    lemma_frac_range((n as real) * f / fs);
    lemma_interpolate_in_range(table, phase_of(n, f, fs));
}

/// Output sample 0 is the table's first sample.
pub proof fn lemma_synth_at_start(table: Seq<real>, f: real, fs: real)
    requires
        table.len() > 0,
        fs != 0real,
    ensures
        synth_value(table, 0, f, fs) == table[0],
{
    assert(0real * f / fs == 0real) by (nonlinear_arith)
        requires
            fs != 0real,
    ;
    assert(frac(0real) == 0real);
}

} // verus!
