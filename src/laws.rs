use crate::envelope::envelope_at;
use crate::filter::{filtered, filtered_at, valid_cutoff};
use crate::raster::Raster;
use crate::render::{
    is_flat, lemma_min_max, normalized, raster_matches, rendered, seq_max, seq_min, stretch,
    RenderError,
};
use crate::resample::{
    emits, is_resampled, lemma_resampled_unique, nominal_len, resampled, source_frac,
    source_index,
};
use crate::sync::{
    beats, coarse_offset, dot, energy, fine_offset, line_offset, rotate_left_spec, scan_best,
    valid_pattern,
};
use vstd::arithmetic::div_mod::{
    lemma_div_multiples_vanish, lemma_fundamental_div_mod, lemma_mod_multiples_basic,
    lemma_mod_pos_bound,
};
use vstd::prelude::*;

verus! {

/// Resampling at a ratio of one changes no sample: the output is the input
/// without its last sample, which has no successor to interpolate towards.
pub proof fn law_resample_identity(x: Seq<i16>, rate: nat)
    requires
        rate > 0,
    ensures
        resampled(x, rate, rate) == (if x.len() == 0 {
            x
        } else {
            x.take(x.len() - 1)
        }),
        forall|i: int| 0 <= i < resampled(x, rate, rate).len() ==> #[trigger] resampled(x, rate, rate)[i] == x[i],
{
    let n = x.len();
    let w = if n == 0 {
        x
    } else {
        x.take(n - 1)
    };
    let r = rate as int;
    lemma_div_multiples_vanish(n as int, r);
    assert(n * rate == rate * n) by (nonlinear_arith);
    assert(nominal_len(n, rate, rate) == n);
    assert forall|i: int| 0 <= i < n implies source_index(i, r, r) == i && source_frac(i, r, r) == 0 by {
        lemma_div_multiples_vanish(i, r);
        assert(i * r == r * i) by (nonlinear_arith);
        lemma_mod_multiples_basic(i, r);
    }
    assert forall|i: int| 0 <= i < nominal_len(n, rate, rate) implies (i < w.len() <==> emits(n, r, r, i)) by {
        assert(source_index(i, r, r) == i);
    }
    assert forall|i: int| 0 <= i < w.len() implies w[i] as int == crate::resample::resampled_at(x, r, r, i) by {
        assert(source_index(i, r, r) == i);
        assert(source_frac(i, r, r) == 0);
        assert(0 * (x[i + 1] - x[i]) == 0);
        assert(0 * (x[i] - x[i + 1]) == 0);
    }
    assert(is_resampled(w, x, rate, rate));
    lemma_resampled_unique(w, resampled(x, rate, rate), x, rate, rate);
}

/// When the ratio is at most one, resampling gives
/// `floor(len * ratio)` samples or one less.
pub proof fn law_resample_length(x: Seq<i16>, source_rate: nat, target_rate: nat)
    requires
        source_rate > 0,
        target_rate <= source_rate,
    ensures
        nominal_len(x.len(), source_rate, target_rate) - 1 <= resampled(x, source_rate, target_rate).len()
            <= nominal_len(x.len(), source_rate, target_rate),
{
    let n = x.len() as int;
    let s = source_rate as int;
    let t = target_rate as int;
    let nom = nominal_len(x.len(), source_rate, target_rate) as int;
    let r = resampled(x, source_rate, target_rate);
    lemma_resampled_exists(x, source_rate, target_rate);
    if r.len() < nom - 1 {
        let i = r.len() as int;
        lemma_fundamental_div_mod(n * t, s);
        lemma_mod_pos_bound(n * t, s);
        assert(nom * s <= n * t) by (nonlinear_arith)
            requires
                n * t == s * nom + (n * t) % s,
                0 <= (n * t) % s,
        ;
        assert(i * s + 2 * s <= n * t) by (nonlinear_arith)
            requires
                i + 2 <= nom,
                nom * s <= n * t,
                s > 0,
        ;
        assert(t > 0) by {
            if t == 0 {
                assert(n * t == 0);
            }
        }
        assert(i * s < (n - 1) * t) by (nonlinear_arith)
            requires
                i * s + 2 * s <= n * t,
                t <= s,
                t > 0,
        ;
        lemma_fundamental_div_mod(i * s, t);
        lemma_mod_pos_bound(i * s, t);
        let q = (i * s) / t;
        assert(q < n - 1) by (nonlinear_arith)
            requires
                i * s == t * q + (i * s) % t,
                0 <= (i * s) % t,
                i * s < (n - 1) * t,
                t > 0,
        ;
        assert(emits(x.len(), s, t, i));
    }
}

/// Some sequence is the resampling of a signal (when the source rate is
/// positive).
pub proof fn lemma_resampled_exists(x: Seq<i16>, source_rate: nat, target_rate: nat)
    requires
        source_rate > 0,
    ensures
        is_resampled(resampled(x, source_rate, target_rate), x, source_rate, target_rate),
{
    let s = source_rate as int;
    let t = target_rate as int;
    let nom = nominal_len(x.len(), source_rate, target_rate) as int;
    let k = emitting_prefix(x.len(), s, t, nom);
    let w = Seq::new(k as nat, |i: int| crate::resample::resampled_at(x, s, t, i) as i16);
    if t == 0 {
        assert(x.len() * target_rate == 0);
        assert(nom == 0);
    } else {
        lemma_emitting_prefix(x.len(), s, t, nom);
        assert forall|i: int| 0 <= i < w.len() implies w[i] as int == crate::resample::resampled_at(x, s, t, i) by {
            assert(emits(x.len(), s, t, i));
            lemma_resampled_at_range(x, s, t, i);
        }
    }
    assert(is_resampled(w, x, source_rate, target_rate));
}

/// The number of leading output indices below `k` that emit a sample.
spec fn emitting_prefix(n: nat, s: int, t: int, k: int) -> int
    decreases k,
{
    if k <= 0 {
        0
    } else {
        let p = emitting_prefix(n, s, t, k - 1);
        if p == k - 1 && emits(n, s, t, k - 1) {
            k
        } else {
            p
        }
    }
}

proof fn lemma_emitting_prefix(n: nat, s: int, t: int, k: int)
    requires
        s > 0,
        t > 0,
        k >= 0,
    ensures
        0 <= emitting_prefix(n, s, t, k) <= k,
        forall|i: int| 0 <= i < k ==> (i < emitting_prefix(n, s, t, k) <==> #[trigger] emits(n, s, t, i)),
    decreases k,
{
    if k > 0 {
        lemma_emitting_prefix(n, s, t, k - 1);
        let p = emitting_prefix(n, s, t, k - 1);
        if p < k - 1 {
            // Some earlier index does not emit, so neither does `k - 1`.
            assert(!emits(n, s, t, p));
            vstd::arithmetic::mul::lemma_mul_inequality(p, k - 1, s);
            vstd::arithmetic::div_mod::lemma_div_is_ordered(p * s, (k - 1) * s, t);
            assert(!emits(n, s, t, k - 1));
        }
        assert forall|i: int| 0 <= i < k implies (i < emitting_prefix(n, s, t, k) <==> #[trigger] emits(n, s, t, i)) by {
            if i < k - 1 {
                assert(i < p <==> emits(n, s, t, i));
            }
        }
    }
}

/// The resampled value lies between its two source samples.
proof fn lemma_resampled_at_range(x: Seq<i16>, s: int, t: int, i: int)
    requires
        s > 0,
        t > 0,
        0 <= i,
        emits(x.len(), s, t, i),
    ensures
        i16::MIN <= crate::resample::resampled_at(x, s, t, i) <= i16::MAX,
{
    let k = source_index(i, s, t);
    vstd::arithmetic::div_mod::lemma_div_pos_is_pos(i * s, t);
    assert(0 <= i * s) by (nonlinear_arith)
        requires
            0 <= i,
            s > 0,
    ;
    let num = source_frac(i, s, t);
    lemma_mod_pos_bound(i * s, t);
    let a = x[k] as int;
    let b = x[k + 1] as int;
    if a <= b {
        assert(num * (b - a) <= t * (b - a)) by (nonlinear_arith)
            requires
                0 <= num < t,
                a <= b,
        ;
        assert(0 <= num * (b - a)) by (nonlinear_arith)
            requires
                0 <= num,
                a <= b,
        ;
        vstd::arithmetic::div_mod::lemma_div_is_ordered(num * (b - a), t * (b - a), t);
        lemma_div_multiples_vanish(b - a, t);
        vstd::arithmetic::div_mod::lemma_div_pos_is_pos(num * (b - a), t);
    } else {
        assert(num * (a - b) <= t * (a - b)) by (nonlinear_arith)
            requires
                0 <= num < t,
                b < a,
        ;
        assert(0 <= num * (a - b)) by (nonlinear_arith)
            requires
                0 <= num,
                b < a,
        ;
        vstd::arithmetic::div_mod::lemma_div_is_ordered(num * (a - b), t * (a - b), t);
        lemma_div_multiples_vanish(a - b, t);
        vstd::arithmetic::div_mod::lemma_div_pos_is_pos(num * (a - b), t);
    }
}

/// A constant signal passes the low-pass filter unchanged: every output
/// equals the constant, with no overshoot.
pub proof fn law_filter_constant(x: Seq<i16>, v: i16, cutoff_hz: int, sample_rate: int)
    requires
        valid_cutoff(cutoff_hz, sample_rate),
        forall|i: int| 0 <= i < x.len() ==> x[i] == v,
    ensures
        forall|i: int| 0 <= i < x.len() ==> #[trigger] filtered(x, cutoff_hz, sample_rate)[i] == v,
{
    assert forall|i: int| 0 <= i < x.len() implies #[trigger] filtered(x, cutoff_hz, sample_rate)[i] == v by {
        lemma_filter_constant_at(x, v, cutoff_hz, sample_rate, i as nat);
    }
}

proof fn lemma_filter_constant_at(x: Seq<i16>, v: i16, cutoff_hz: int, sample_rate: int, i: nat)
    requires
        valid_cutoff(cutoff_hz, sample_rate),
        forall|j: int| 0 <= j < x.len() ==> x[j] == v,
        i < x.len(),
    ensures
        filtered_at(x, cutoff_hz, sample_rate, i) == v,
    decreases i,
{
    if i > 0 {
        lemma_filter_constant_at(x, v, cutoff_hz, sample_rate, (i - 1) as nat);
    }
    let num = crate::filter::alpha_num(cutoff_hz);
    assert(num * 0 == 0);
}

/// Every envelope level is at least zero.
pub proof fn law_envelope_nonnegative(x: Seq<i16>, window_size: int, scale_tenths: int)
    requires
        scale_tenths >= 0,
    ensures
        forall|i: int| 0 <= i < x.len() ==> #[trigger] envelope_at(x, window_size, scale_tenths, i) >= 0,
{
    assert forall|i: int| 0 <= i < x.len() implies #[trigger] envelope_at(x, window_size, scale_tenths, i) >= 0 by {
        let p = crate::envelope::peak(x, i, crate::envelope::window_end(x.len() as int, i, window_size));
        assert(p * scale_tenths >= 0) by (nonlinear_arith)
            requires
                p >= 0,
                scale_tenths >= 0,
        ;
    }
}

/// Of two normalised scores, at most one beats the other.
pub proof fn lemma_beats_asymmetric(a1: int, e1: int, a2: int, e2: int)
    ensures
        !(beats(a1, e1, a2, e2) && beats(a2, e2, a1, e1)),
{
}

/// The first `k` offsets of a line on which offset 0 scores strictly best.
proof fn lemma_scan_keeps_first(line: Seq<u32>, p: Seq<i8>, k: int)
    requires
        1 <= k,
        energy(line, p, 0) > 0,
        forall|o: int|
            1 <= o < k && energy(line, p, o) > 0 ==> #[trigger] beats(
                dot(line, p, 0),
                energy(line, p, 0),
                dot(line, p, o),
                energy(line, p, o),
            ),
    ensures
        scan_best(line, p, 0, k, 0) == (true, 0int, dot(line, p, 0), energy(line, p, 0)),
    decreases k,
{
    if k > 1 {
        lemma_scan_keeps_first(line, p, k - 1);
        let o = k - 1;
        if energy(line, p, o) > 0 {
            assert(beats(dot(line, p, 0), energy(line, p, 0), dot(line, p, o), energy(line, p, o)));
            lemma_beats_asymmetric(dot(line, p, 0), energy(line, p, 0), dot(line, p, o), energy(line, p, o));
        }
    } else {
        assert(scan_best(line, p, 0, 0, 0) == (false, 0int, 0int, 0int));
    }
}

/// A line that already starts at the sync pattern, in the sense that the
/// normalised correlation at offset 0 is strictly greater than at any other
/// offset, gets coarse position 0. When the fine search keeps it there and
/// no additional offset is asked for, the line is not rotated at all.
pub proof fn law_sync_aligned(line: Seq<u32>, p: Seq<i8>)
    requires
        valid_pattern(p),
        p.len() <= line.len(),
        energy(line, p, 0) > 0,
        forall|o: int|
            1 <= o <= line.len() - p.len() && energy(line, p, o) > 0 ==> #[trigger] beats(
                dot(line, p, 0),
                energy(line, p, 0),
                dot(line, p, o),
                energy(line, p, o),
            ),
    ensures
        coarse_offset(line, p) == 0,
        fine_offset(line, p, 0) == 0 ==> line_offset(line, p, 0) == 0 && rotate_left_spec(
            line,
            line_offset(line, p, 0),
        ) == line,
{
    lemma_scan_keeps_first(line, p, line.len() - p.len() + 1);
    assert(rotate_left_spec(line, 0) =~= line);
}

/// Rotating left by `k` and then left by `n - k` (that is, right by `k`)
/// gives back the sequence it started from.
pub proof fn law_rotation_round_trip<T>(s: Seq<T>, k: int)
    requires
        0 <= k <= s.len(),
    ensures
        rotate_left_spec(rotate_left_spec(s, k), s.len() - k) == s,
{
    let r = rotate_left_spec(s, k);
    assert(r.len() == s.len());
    assert(rotate_left_spec(r, s.len() - k) =~= s);
}

/// Rendering is deterministic: any two results that meet the renderer's
/// contract on the same signal and parameters are the same image, or the
/// same error.
pub proof fn law_render_deterministic(
    signal: Seq<u32>,
    frequency: int,
    reduction: int,
    r1: Result<Raster, RenderError>,
    r2: Result<Raster, RenderError>,
)
    requires
        raster_matches(r1, rendered(signal, frequency, reduction)),
        raster_matches(r2, rendered(signal, frequency, reduction)),
    ensures
        r1 is Ok <==> r2 is Ok,
        r1 is Err ==> r1 == r2,
        (r1 is Ok && r2 is Ok) ==> r1->Ok_0.width_spec() == r2->Ok_0.width_spec()
            && r1->Ok_0.height_spec() == r2->Ok_0.height_spec() && r1->Ok_0.pixels()
            == r2->Ok_0.pixels(),
{
}

/// After normalisation of an image that is not flat, every stretched value
/// lies in `0 ..= 255`, some pixel is 0 and some pixel is 255.
pub proof fn law_normalization_bounds(s: Seq<u8>)
    requires
        s.len() > 0,
        !is_flat(s),
    ensures
        forall|j: int|
            0 <= j < s.len() ==> 0 <= #[trigger] stretch(s[j] as int, seq_min(s) as int, seq_max(s) as int)
                <= 255,
        forall|j: int|
            0 <= j < s.len() ==> #[trigger] normalized(s)[j] as int == stretch(
                s[j] as int,
                seq_min(s) as int,
                seq_max(s) as int,
            ),
        exists|j: int| 0 <= j < s.len() && normalized(s)[j] == 0,
        exists|j: int| 0 <= j < s.len() && normalized(s)[j] == 255,
{
    lemma_min_max(s);
    let lo = seq_min(s) as int;
    let hi = seq_max(s) as int;
    assert(lo < hi);
    assert forall|j: int| 0 <= j < s.len() implies 0 <= #[trigger] stretch(s[j] as int, lo, hi) <= 255 by {
        let p = s[j] as int;
        assert(lo <= p <= hi);
        assert((p - lo) * 255 <= (hi - lo) * 255) by (nonlinear_arith)
            requires
                p <= hi,
        ;
        assert(0 <= (p - lo) * 255);
        vstd::arithmetic::div_mod::lemma_div_is_ordered((p - lo) * 255, (hi - lo) * 255, hi - lo);
        lemma_div_multiples_vanish(255, hi - lo);
        assert((hi - lo) * 255 == 255 * (hi - lo)) by (nonlinear_arith);
        vstd::arithmetic::div_mod::lemma_div_pos_is_pos((p - lo) * 255, hi - lo);
    }
    let jmin = choose|j: int| 0 <= j < s.len() && s[j] == seq_min(s);
    let jmax = choose|j: int| 0 <= j < s.len() && s[j] == seq_max(s);
    assert(stretch(s[jmin] as int, lo, hi) == 0);
    lemma_div_multiples_vanish(255, hi - lo);
    assert((hi - lo) * 255 == (hi - lo) * 255);
    assert(stretch(s[jmax] as int, lo, hi) == 255) by {
        assert((hi - lo) * 255 == 255 * (hi - lo)) by (nonlinear_arith);
    }
    assert(normalized(s)[jmin] == 0);
    assert(normalized(s)[jmax] == 255);
}

} // verus!
