use vstd::prelude::*;

verus! {

/// The fractional part of `x`: what is left of `x` above the largest integer
/// that does not exceed it. It lies in `[0, 1)` for every `x`.
pub open spec fn frac(x: real) -> real {
    x - x.floor() as real
}

/// The phase within the current cycle at output sample `n`, for a frequency
/// `f` and a sample rate `fs` given in the same unit: the `n * f / fs` cycles
/// that have gone by, less the completed ones.
pub open spec fn phase_of(n: nat, f: real, fs: real) -> real {
    frac(n as real * f / fs)
}

/// The fractional part lies in `[0, 1)`.
pub proof fn lemma_frac_range(x: real)
    ensures
        0real <= frac(x) < 1real,
{
}

/// An integer `m` with `m <= x < m + 1` is the floor of `x`.
pub proof fn lemma_floor_unique(x: real, m: int)
    requires
        m as real <= x,
        x < (m + 1) as real,
    ensures
        x.floor() == m,
{
}

/// Adding a whole number leaves the fractional part unchanged.
pub proof fn lemma_frac_shift(x: real, k: int)
    ensures
        frac(x + k as real) == frac(x),
{
    lemma_floor_unique(x + k as real, x.floor() + k);
}

proof fn lemma_quotient_split(a: int, b: int)
    by (nonlinear_arith)
    requires
        b > 0,
    ensures
        (a as real) / (b as real) == (a / b) as real + ((a % b) as real) / (b as real),
        0 <= a % b < b,
{
}

/// A remainder over its divisor lies in `[0, 1)`.
pub proof fn lemma_proper_fraction(r: int, b: int)
    by (nonlinear_arith)
    requires
        0 <= r < b,
    ensures
        0real <= (r as real) / (b as real),
        (r as real) / (b as real) < 1real,
{
}

/// For integers `a` and `b > 0`, the floor of the real quotient `a / b` is the
/// integer quotient, and its fractional part is the remainder over `b`.
pub proof fn lemma_floor_quotient(a: int, b: int)
    requires
        b > 0,
    ensures
        ((a as real) / (b as real)).floor() == a / b,
        frac((a as real) / (b as real)) == ((a % b) as real) / (b as real),
{
    lemma_quotient_split(a, b);
    lemma_proper_fraction(a % b, b);
    lemma_floor_unique((a as real) / (b as real), a / b);
}

proof fn lemma_cycles_as_quotient(n: int, f: int, fs: int)
    by (nonlinear_arith)
    requires
        fs > 0,
    ensures
        (n as real) * (f as real) / (fs as real) == ((n * f) as real) / (fs as real),
{
}

/// The numerator, over `fs`, of the phase at output sample `n`: the remainder
/// of `n * f` on division by `fs`.
pub fn phase_step(n: usize, f: u32, fs: u32) -> (p: u32)
    requires
        fs > 0,
    ensures
        p < fs,
        p == (n * f) % (fs as int),
        (p as real) / (fs as real) == phase_of(n as nat, f as real, fs as real),
{
    assert(n * f <= 0xffff_ffff_ffff_ffff * 0xffff_ffff) by (nonlinear_arith)
        requires
            0 <= n <= 0xffff_ffff_ffff_ffff,
            0 <= f <= 0xffff_ffff,
    ;
    let cycles: u128 = (n as u128) * (f as u128);
    let p: u32 = (cycles % (fs as u128)) as u32;
    proof {
        lemma_cycles_as_quotient(n as int, f as int, fs as int);
        lemma_floor_quotient(n * f, fs as int);
    }
    p
}

} // verus!
