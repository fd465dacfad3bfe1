use vstd::arithmetic::div_mod::{lemma_div_is_ordered, lemma_fundamental_div_mod};
use vstd::arithmetic::mul::lemma_mul_inequality;
use vstd::prelude::*;

verus! {

/// The nominal output length `floor(n * target_rate / source_rate)`.
pub open spec fn nominal_len(n: nat, source_rate: nat, target_rate: nat) -> nat {
    (n * target_rate) / source_rate
}

/// The integer part of the source position `i / ratio` of output index `i`,
/// where `ratio = target_rate / source_rate`.
pub open spec fn source_index(i: int, source_rate: int, target_rate: int) -> int {
    (i * source_rate) / target_rate
}

/// The fractional part of that source position, in units of `1 / target_rate`.
pub open spec fn source_frac(i: int, source_rate: int, target_rate: int) -> int {
    (i * source_rate) % target_rate
}

/// Linear interpolation from `a` towards `b` by `num / den`, with the
/// step rounded toward zero (so the result stays between `a` and `b`).
pub open spec fn lerp(a: int, b: int, num: int, den: int) -> int {
    if a <= b {
        a + (num * (b - a)) / den
    } else {
        a - (num * (a - b)) / den
    }
}

/// Whether output index `i` has a source sample after its source position;
/// output indices without one are dropped.
pub open spec fn emits(n: nat, source_rate: int, target_rate: int, i: int) -> bool {
    source_index(i, source_rate, target_rate) + 1 < n
}

/// The resampled value at output index `i`.
pub open spec fn resampled_at(x: Seq<i16>, source_rate: int, target_rate: int, i: int) -> int {
    let k = source_index(i, source_rate, target_rate);
    lerp(x[k] as int, x[k + 1] as int, source_frac(i, source_rate, target_rate), target_rate)
}

/// The samples of `x` resampled from `source_rate` to `target_rate` by
/// linear interpolation: one value per output index of the nominal length
/// that has a source sample after its source position.
pub open spec fn is_resampled(r: Seq<i16>, x: Seq<i16>, source_rate: nat, target_rate: nat) -> bool {
    &&& r.len() <= nominal_len(x.len(), source_rate, target_rate)
    &&& forall|i: int|
        0 <= i < nominal_len(x.len(), source_rate, target_rate) ==> (i < r.len() <==> emits(
            x.len(),
            source_rate as int,
            target_rate as int,
            i,
        ))
    &&& forall|i: int|
        0 <= i < r.len() ==> r[i] as int == resampled_at(
            x,
            source_rate as int,
            target_rate as int,
            i,
        )
}

/// The resampled signal: the one sequence that `is_resampled` describes.
pub open spec fn resampled(x: Seq<i16>, source_rate: nat, target_rate: nat) -> Seq<i16> {
    choose|r: Seq<i16>| is_resampled(r, x, source_rate, target_rate)
}

/// At most one sequence is the resampling of a signal.
pub proof fn lemma_resampled_unique(
    r1: Seq<i16>,
    r2: Seq<i16>,
    x: Seq<i16>,
    source_rate: nat,
    target_rate: nat,
)
    requires
        is_resampled(r1, x, source_rate, target_rate),
        is_resampled(r2, x, source_rate, target_rate),
    ensures
        r1 == r2,
{
    if r1.len() < r2.len() {
        let i = r1.len() as int;
        assert(i < r2.len() <==> emits(x.len(), source_rate as int, target_rate as int, i));
    } else if r2.len() < r1.len() {
        let i = r2.len() as int;
        assert(i < r1.len() <==> emits(x.len(), source_rate as int, target_rate as int, i));
    }
    assert(r1 =~= r2);
}

/// Interpolates from `a` towards `b` by `num / den`.
pub(crate) fn interpolate(a: i16, b: i16, num: u64, den: u64) -> (r: i16)
    requires
        num < den,
        den <= 0x1000_0000_0000,
    ensures
        r as int == lerp(a as int, b as int, num as int, den as int),
        a <= b ==> a <= r <= b,
        b < a ==> b <= r <= a,
{
    if a <= b {
        let d: u64 = (b as i32 - a as i32) as u64;
        assert(num * d <= den * d) by (nonlinear_arith)
            requires
                num < den,
        ;
        assert(num * d <= 0x1000_0000_0000 * 65536) by (nonlinear_arith)
            requires
                num < den,
                den <= 0x1000_0000_0000,
                d <= 65535,
        ;
        let step: u64 = num * d / den;
        assert(step <= d) by {
            lemma_div_is_ordered(num * d, den * d, den as int);
            vstd::arithmetic::div_mod::lemma_div_multiples_vanish(d as int, den as int);
            assert(den * d == d * den) by (nonlinear_arith);
        }
        (a as i32 + step as i32) as i16
    } else {
        let d: u64 = (a as i32 - b as i32) as u64;
        assert(num * d <= den * d) by (nonlinear_arith)
            requires
                num < den,
        ;
        assert(num * d <= 0x1000_0000_0000 * 65536) by (nonlinear_arith)
            requires
                num < den,
                den <= 0x1000_0000_0000,
                d <= 65535,
        ;
        let step: u64 = num * d / den;
        assert(step <= d) by {
            lemma_div_is_ordered(num * d, den * d, den as int);
            vstd::arithmetic::div_mod::lemma_div_multiples_vanish(d as int, den as int);
            assert(den * d == d * den) by (nonlinear_arith);
        }
        (a as i32 - step as i32) as i16
    }
}

/// Resamples `samples` from `source_rate` to `target_rate` by linear
/// interpolation. The output has `floor(len * target_rate / source_rate)`
/// values, less those whose source position has no sample after it.
pub fn resample_signal(samples: &Vec<i16>, source_rate: u32, target_rate: u32) -> (r: Vec<i16>)
    requires
        source_rate > 0,
        nominal_len(samples@.len(), source_rate as nat, target_rate as nat) <= usize::MAX,
    ensures
        is_resampled(r@, samples@, source_rate as nat, target_rate as nat),
        r@ == resampled(samples@, source_rate as nat, target_rate as nat),
{
    let n = samples.len();
    assert((n as int) * (target_rate as int) <= usize::MAX * u32::MAX) by (nonlinear_arith)
        requires
            n <= usize::MAX,
            target_rate <= u32::MAX,
    ;
    let nominal: usize = ((n as u128) * (target_rate as u128) / (source_rate as u128)) as usize;
    let mut out: Vec<i16> = Vec::new();
    let mut i: usize = 0;
    while i < nominal
        invariant
            i <= nominal,
            n == samples@.len(),
            source_rate > 0,
            nominal == nominal_len(n as nat, source_rate as nat, target_rate as nat),
            out@.len() == i,
            forall|j: int| 0 <= j < i ==> emits(n as nat, source_rate as int, target_rate as int, j),
            forall|j: int|
                0 <= j < i ==> out@[j] as int == resampled_at(
                    samples@,
                    source_rate as int,
                    target_rate as int,
                    j,
                ),
        ensures
            is_resampled(out@, samples@, source_rate as nat, target_rate as nat),
        decreases nominal - i,
    {
        assert(target_rate > 0) by {
            if target_rate == 0 {
                assert(n as nat * 0 == 0);
            }
        }
        assert((i as int) * (source_rate as int) <= usize::MAX * u32::MAX) by (nonlinear_arith)
            requires
                i <= usize::MAX,
                source_rate <= u32::MAX,
        ;
        let pos: u128 = (i as u128) * (source_rate as u128);
        let k: u128 = pos / (target_rate as u128);
        let frac: u128 = pos % (target_rate as u128);
        if k + 1 >= n as u128 {
            assert forall|j: int| i <= j < nominal implies !emits(
                n as nat,
                source_rate as int,
                target_rate as int,
                j,
            ) by {
                lemma_mul_inequality(i as int, j, source_rate as int);
                lemma_div_is_ordered(i * source_rate, j * source_rate, target_rate as int);
            }
            break;
        }
        let a = samples[k as usize];
        let b = samples[k as usize + 1];
        let v = interpolate(a, b, frac as u64, target_rate as u64);
        out.push(v);
        i = i + 1;
    }
    proof {
        lemma_resampled_unique(
            out@,
            resampled(samples@, source_rate as nat, target_rate as nat),
            samples@,
            source_rate as nat,
            target_rate as nat,
        );
    }
    out
}

} // verus!
