use crate::envelope::MAX_LEVEL;
use vstd::prelude::*;

verus! {

/// Offsets on either side of the coarse position that the fine search scores.
pub const FINE_TUNE_RANGE: usize = 5;

/// The fixed-point scale of the fine-search weights.
pub const WEIGHT_SCALE: u64 = 1048576;

/// A bi-level synchronisation pattern: values in `{-1, +1}`, between 1 and
/// 64 of them.
pub struct SyncPattern {
    pub values: Vec<i8>,
}

/// Whether a sequence can serve as a synchronisation pattern.
pub open spec fn valid_pattern(p: Seq<i8>) -> bool {
    &&& 1 <= p.len() <= 64
    &&& forall|i: int| 0 <= i < p.len() ==> (p[i] == 1 || p[i] == -1)
}

/// The APT sync train: seven wedge pairs followed by a low tail.
pub open spec fn apt_pattern() -> Seq<i8> {
    seq![
        -1i8, -1i8, 1i8, 1i8, -1i8, -1i8, 1i8, 1i8, -1i8, -1i8, 1i8, 1i8, -1i8, -1i8, 1i8, 1i8, -1i8, -1i8, 1i8, 1i8, -1i8, -1i8, 1i8, 1i8,
        -1i8, -1i8, 1i8, 1i8, -1i8, -1i8, -1i8, -1i8, -1i8, -1i8, -1i8, -1i8,
    ]
}

impl View for SyncPattern {
    type V = Seq<i8>;

    open spec fn view(&self) -> Seq<i8> {
        self.values@
    }
}

impl SyncPattern {
    pub open spec fn wf(&self) -> bool {
        valid_pattern(self@)
    }

    /// The APT synchronisation pattern.
    pub fn apt() -> (r: SyncPattern)
        ensures
            r@ == apt_pattern(),
            r.wf(),
    {
        let values: Vec<i8> = vec![
            -1, -1, 1, 1, -1, -1, 1, 1, -1, -1, 1, 1, -1, -1, 1, 1, -1, -1, 1, 1, -1, -1, 1, 1,
            -1, -1, 1, 1, -1, -1, -1, -1, -1, -1, -1, -1,
        ];
        assert(values@ =~= apt_pattern());
        SyncPattern { values }
    }

    /// A pattern made of the given values, if they form a valid one.
    pub fn from_values(values: Vec<i8>) -> (r: Option<SyncPattern>)
        ensures
            r is Some <==> valid_pattern(values@),
            r is Some ==> r->0@ == values@,
    {
        let n = values.len();
        if n == 0 || n > 64 {
            return None;
        }
        let mut i: usize = 0;
        while i < n
            invariant
                n == values@.len(),
                i <= n,
                forall|j: int| 0 <= j < i ==> (values@[j] == 1 || values@[j] == -1),
            decreases n - i,
        {
            if values[i] != 1 && values[i] != -1 {
                return None;
            }
            i = i + 1;
        }
        Some(SyncPattern { values })
    }
}

/// Every level of the signal is at most `MAX_LEVEL`, the bound under which
/// the exact score comparisons fit in 128-bit integers. Every envelope level
/// meets it.
pub open spec fn levels_bounded(s: Seq<u32>) -> bool {
    forall|i: int| 0 <= i < s.len() ==> s[i] <= MAX_LEVEL
}

/// `sum_{i < k} line[o + i] * p[i]`.
pub open spec fn dot_upto(line: Seq<u32>, p: Seq<i8>, o: int, k: int) -> int
    decreases k,
{
    if k <= 0 {
        0
    } else {
        dot_upto(line, p, o, k - 1) + line[o + k - 1] * p[k - 1]
    }
}

/// `sum_{i < k} line[o + i]^2`.
pub open spec fn energy_upto(line: Seq<u32>, o: int, k: int) -> int
    decreases k,
{
    if k <= 0 {
        0
    } else {
        energy_upto(line, o, k - 1) + line[o + k - 1] * line[o + k - 1]
    }
}

/// The correlation of the pattern with the line at offset `o`.
pub open spec fn dot(line: Seq<u32>, p: Seq<i8>, o: int) -> int {
    dot_upto(line, p, o, p.len() as int)
}

/// The energy of the line under the pattern at offset `o`.
pub open spec fn energy(line: Seq<u32>, p: Seq<i8>, o: int) -> int {
    energy_upto(line, o, p.len() as int)
}

/// Whether the normalised score `a1 / sqrt(e1)` exceeds `a2 / sqrt(e2)`
/// (both energies positive), decided on integers: by the signs, and
/// otherwise by comparing `a1^2 * e2` with `a2^2 * e1`. The pattern's own
/// energy divides both scores alike and is left out.
pub open spec fn beats(a1: int, e1: int, a2: int, e2: int) -> bool {
    if a1 >= 0 && a2 >= 0 {
        a1 * a1 * e2 > a2 * a2 * e1
    } else if a1 <= 0 && a2 <= 0 {
        a1 * a1 * e2 < a2 * a2 * e1
    } else {
        a1 > a2
    }
}

/// The best-scoring offset among `lo .. k`, as (found, offset, dot, energy).
/// An offset of zero energy has no score (its normalised score is not a
/// number) and is never chosen; among equal scores the first one stays.
/// Without any scored offset the result holds `init` as offset.
pub open spec fn scan_best(line: Seq<u32>, p: Seq<i8>, lo: int, k: int, init: int) -> (
    bool,
    int,
    int,
    int,
)
    decreases k - lo,
{
    if k <= lo {
        (false, init, 0, 0)
    } else {
        let prev = scan_best(line, p, lo, k - 1, init);
        let a = dot(line, p, k - 1);
        let e = energy(line, p, k - 1);
        if e > 0 && (!prev.0 || beats(a, e, prev.2, prev.3)) {
            (true, k - 1, a, e)
        } else {
            prev
        }
    }
}

/// The coarse sync position: the offset of greatest normalised correlation
/// over the whole line, or 0 when the pattern is longer than the line.
pub open spec fn coarse_offset(line: Seq<u32>, p: Seq<i8>) -> int {
    if p.len() > line.len() {
        0
    } else {
        scan_best(line, p, 0, line.len() - p.len() + 1, 0).1
    }
}

/// `r` is the integer square root of `e`.
pub open spec fn is_floor_sqrt(r: int, e: int) -> bool {
    0 <= r && r * r <= e < (r + 1) * (r + 1)
}

/// The integer square root.
pub open spec fn floor_sqrt(e: int) -> int {
    choose|r: int| is_floor_sqrt(r, e)
}

/// The fixed-point normalised score `a * WEIGHT_SCALE / sqrt(e)`, with the
/// square root and the quotient rounded toward zero; 0 for zero energy.
pub open spec fn weight(a: int, e: int) -> int {
    if e <= 0 {
        0
    } else if a < 0 {
        -((-a * WEIGHT_SCALE) / floor_sqrt(e))
    } else {
        (a * WEIGHT_SCALE) / floor_sqrt(e)
    }
}

/// The sum of the weights of the offsets `lo .. k`.
pub open spec fn weight_sum(line: Seq<u32>, p: Seq<i8>, lo: int, k: int) -> int
    decreases k - lo,
{
    if k <= lo {
        0
    } else {
        weight_sum(line, p, lo, k - 1) + weight(dot(line, p, k - 1), energy(line, p, k - 1))
    }
}

/// The sum of `offset * weight` over the offsets `lo .. k`.
pub open spec fn moment_sum(line: Seq<u32>, p: Seq<i8>, lo: int, k: int) -> int
    decreases k - lo,
{
    if k <= lo {
        0
    } else {
        moment_sum(line, p, lo, k - 1) + (k - 1) * weight(
            dot(line, p, k - 1),
            energy(line, p, k - 1),
        )
    }
}

/// Every offset in `lo .. k` has positive energy, so the weighted average
/// over them is defined.
pub open spec fn all_scored(line: Seq<u32>, p: Seq<i8>, lo: int, k: int) -> bool {
    forall|o: int| lo <= o < k ==> energy(line, p, o) > 0
}

pub open spec fn fine_lo(c: int) -> int {
    if c >= FINE_TUNE_RANGE {
        c - FINE_TUNE_RANGE
    } else {
        0
    }
}

pub open spec fn fine_hi(line: Seq<u32>, p: Seq<i8>, c: int) -> int {
    if c + FINE_TUNE_RANGE < line.len() - p.len() {
        c + FINE_TUNE_RANGE
    } else {
        line.len() - p.len()
    }
}

/// The fine-tuned offset around the coarse position `c`: the score-weighted
/// average of the offsets in `c - 5 ..= c + 5` (clamped to the line), rounded
/// half away from zero and floored at 0, when every offset there is scored
/// and the total weight is positive; else the best-scoring offset there.
pub open spec fn fine_offset(line: Seq<u32>, p: Seq<i8>, c: int) -> int {
    let lo = fine_lo(c);
    let k = fine_hi(line, p, c) + 1;
    let w = weight_sum(line, p, lo, k);
    let m = moment_sum(line, p, lo, k);
    if all_scored(line, p, lo, k) && w > 0 {
        if m < 0 {
            0
        } else {
            (2 * m + w) / (2 * w)
        }
    } else {
        scan_best(line, p, lo, k, c).1
    }
}

/// The rotation applied to a line: the fine-tuned offset (the coarse one when
/// the pattern is longer than the line), saturated to `usize`, less
/// `additional_offset` (not below 0), and at most the line's length.
pub open spec fn line_offset(line: Seq<u32>, p: Seq<i8>, additional_offset: int) -> int {
    let f = if p.len() > line.len() {
        0
    } else {
        fine_offset(line, p, coarse_offset(line, p))
    };
    let f_sat = if f > usize::MAX {
        usize::MAX as int
    } else {
        f
    };
    let g = if f_sat > additional_offset {
        f_sat - additional_offset
    } else {
        0
    };
    if g < line.len() {
        g
    } else {
        line.len() as int
    }
}

/// The circular left rotation of `s` by `k`: `s[k..]` followed by `s[..k]`.
pub open spec fn rotate_left_spec<T>(s: Seq<T>, k: int) -> Seq<T> {
    s.subrange(k, s.len() as int) + s.subrange(0, k)
}

/// Line `row` of a signal cut into lines of `width` samples.
pub open spec fn line_of(signal: Seq<u32>, width: int, row: int) -> Seq<u32> {
    signal.subrange(row * width, row * width + width)
}

/// The first `rows` lines of the signal, each rotated by its own offset, in
/// order.
pub open spec fn synced(signal: Seq<u32>, width: int, p: Seq<i8>, additional_offset: int, rows: nat) -> Seq<
    u32,
>
    decreases rows,
{
    if rows == 0 {
        Seq::empty()
    } else {
        let line = line_of(signal, width, rows - 1);
        synced(signal, width, p, additional_offset, (rows - 1) as nat) + rotate_left_spec(
            line,
            line_offset(line, p, additional_offset),
        )
    }
}

proof fn lemma_floor_sqrt_unique(r1: int, r2: int, e: int)
    requires
        is_floor_sqrt(r1, e),
        is_floor_sqrt(r2, e),
    ensures
        r1 == r2,
{
    if r1 < r2 {
        assert((r1 + 1) * (r1 + 1) <= r2 * r2) by (nonlinear_arith)
            requires
                0 <= r1 + 1 <= r2,
        ;
    } else if r2 < r1 {
        assert((r2 + 1) * (r2 + 1) <= r1 * r1) by (nonlinear_arith)
            requires
                0 <= r2 + 1 <= r1,
        ;
    }
}

/// The integer square root of `e`, by bisection.
fn isqrt(e: u64) -> (r: u64)
    ensures
        is_floor_sqrt(r as int, e as int),
        r as int == floor_sqrt(e as int),
        r <= 0xffff_ffff,
{
    let mut lo: u128 = 0;
    let mut hi: u128 = 0x1_0000_0000;
    assert(0x1_0000_0000u128 * 0x1_0000_0000u128 > u64::MAX);
    while hi - lo > 1
        invariant
            lo < hi <= 0x1_0000_0000,
            lo * lo <= e,
            e < hi * hi,
        decreases hi - lo,
    {
        let mid: u128 = lo + (hi - lo) / 2;
        assert(mid * mid <= 0x1_0000_0000u128 * 0x1_0000_0000u128) by (nonlinear_arith)
            requires
                mid <= 0x1_0000_0000,
        ;
        if mid * mid <= e as u128 {
            lo = mid;
        } else {
            hi = mid;
        }
    }
    assert(hi == lo + 1);
    proof {
        let r = floor_sqrt(e as int);
        assert(is_floor_sqrt(lo as int, e as int));
        lemma_floor_sqrt_unique(r, lo as int, e as int);
    }
    lo as u64
}

proof fn lemma_dot_bounds(line: Seq<u32>, p: Seq<i8>, o: int, k: int)
    requires
        valid_pattern(p),
        levels_bounded(line),
        0 <= o,
        0 <= k <= p.len(),
        o + k <= line.len(),
    ensures
        -k * MAX_LEVEL <= dot_upto(line, p, o, k) <= k * MAX_LEVEL,
        0 <= energy_upto(line, o, k) <= k * (MAX_LEVEL * MAX_LEVEL),
    decreases k,
{
    if k > 0 {
        lemma_dot_bounds(line, p, o, k - 1);
        let v = line[o + k - 1];
        assert(p[k - 1] == 1 || p[k - 1] == -1);
        assert(v <= MAX_LEVEL);
        if p[k - 1] == 1 {
            assert(v * p[k - 1] == v);
        } else {
            assert(v * p[k - 1] == -v);
        }
        assert(v * v <= MAX_LEVEL * MAX_LEVEL) by (nonlinear_arith)
            requires
                0 <= v <= MAX_LEVEL,
        ;
    }
}

/// The correlation and energy of the line under the pattern at offset `o`.
fn correlate(line: &Vec<u32>, pattern: &SyncPattern, o: usize) -> (r: (i64, u64))
    requires
        pattern.wf(),
        levels_bounded(line@),
        o + pattern@.len() <= line@.len(),
    ensures
        r.0 as int == dot(line@, pattern@, o as int),
        r.1 as int == energy(line@, pattern@, o as int),
        -67108864 <= r.0 <= 67108864,
        r.1 <= 0x4000_0000_0000,
{
    let l = pattern.values.len();
    let n = line.len();
    let mut a: i64 = 0;
    let mut e: u64 = 0;
    let mut i: usize = 0;
    while i < l
        invariant
            l == pattern@.len(),
            pattern.wf(),
            levels_bounded(line@),
            n == line@.len(),
            o + l <= n,
            i <= l,
            a as int == dot_upto(line@, pattern@, o as int, i as int),
            e as int == energy_upto(line@, o as int, i as int),
        decreases l - i,
    {
        proof {
            lemma_dot_bounds(line@, pattern@, o as int, i as int);
            lemma_dot_bounds(line@, pattern@, o as int, i as int + 1);
        }
        assert(pattern@[i as int] == 1 || pattern@[i as int] == -1);
        assert(line@[o + i] <= MAX_LEVEL);
        let v = line[o + i];
        let s = pattern.values[i];
        assert(dot_upto(line@, pattern@, o as int, i + 1) == dot_upto(
            line@,
            pattern@,
            o as int,
            i as int,
        ) + line@[o + i] * pattern@[i as int]);
        if s > 0 {
            assert(line@[o + i] * pattern@[i as int] == v) by (nonlinear_arith)
                requires
                    pattern@[i as int] == 1,
                    line@[o + i] == v,
            ;
            a = a + v as i64;
        } else {
            assert(line@[o + i] * pattern@[i as int] == -v) by (nonlinear_arith)
                requires
                    pattern@[i as int] == -1,
                    line@[o + i] == v,
            ;
            a = a - v as i64;
        }
        assert(v as u64 * v as u64 <= 0x100_0000_0000) by (nonlinear_arith)
            requires
                v <= MAX_LEVEL,
        ;
        e = e + (v as u64) * (v as u64);
        i = i + 1;
    }
    proof {
        lemma_dot_bounds(line@, pattern@, o as int, l as int);
        assert(l * (MAX_LEVEL * MAX_LEVEL) <= 64 * (MAX_LEVEL * MAX_LEVEL)) by (nonlinear_arith)
            requires
                l <= 64,
        ;
    }
    (a, e)
}

/// Exact comparison of two normalised scores.
fn beats_exec(a1: i64, e1: u64, a2: i64, e2: u64) -> (r: bool)
    requires
        -67108864 <= a1 <= 67108864,
        -67108864 <= a2 <= 67108864,
        e1 <= 0x4000_0000_0000,
        e2 <= 0x4000_0000_0000,
    ensures
        r == beats(a1 as int, e1 as int, a2 as int, e2 as int),
{
    let x1 = a1 as i128;
    let x2 = a2 as i128;
    assert(x1 * x1 * (e2 as i128) <= 0x1000_0000_0000_0000 * 0x4000_0000_0000) by (nonlinear_arith)
        requires
            -67108864 <= x1 <= 67108864,
            0 <= e2 <= 0x4000_0000_0000,
    ;
    assert(x2 * x2 * (e1 as i128) <= 0x1000_0000_0000_0000 * 0x4000_0000_0000) by (nonlinear_arith)
        requires
            -67108864 <= x2 <= 67108864,
            0 <= e1 <= 0x4000_0000_0000,
    ;
    assert(0 <= x1 * x1 * (e2 as i128)) by (nonlinear_arith)
        requires
            0 <= e2,
    ;
    assert(0 <= x2 * x2 * (e1 as i128)) by (nonlinear_arith)
        requires
            0 <= e1,
    ;
    assert(0 <= x1 * x1 <= 0x1000_0000_0000_0000) by (nonlinear_arith)
        requires
            -67108864 <= x1 <= 67108864,
    ;
    assert(0 <= x2 * x2 <= 0x1000_0000_0000_0000) by (nonlinear_arith)
        requires
            -67108864 <= x2 <= 67108864,
    ;
    let sq1 = x1 * x1;
    let sq2 = x2 * x2;
    let lhs = sq1 * (e2 as i128);
    let rhs = sq2 * (e1 as i128);
    if a1 >= 0 && a2 >= 0 {
        lhs > rhs
    } else if a1 <= 0 && a2 <= 0 {
        lhs < rhs
    } else {
        a1 > a2
    }
}

/// Coarse search: the offset at which the pattern has the greatest
/// normalised cross-correlation with the line (the first one among equals),
/// or 0 when the pattern is longer than the line.
pub fn find_sync_position(line: &Vec<u32>, pattern: &SyncPattern) -> (r: usize)
    requires
        pattern.wf(),
        levels_bounded(line@),
    ensures
        r as int == coarse_offset(line@, pattern@),
        pattern@.len() <= line@.len() ==> r + pattern@.len() <= line@.len(),
{
    let n = line.len();
    let l = pattern.values.len();
    if l > n {
        return 0;
    }
    let mut found = false;
    let mut best: usize = 0;
    let mut best_a: i64 = 0;
    let mut best_e: u64 = 0;
    let mut o: usize = 0;
    while o <= n - l
        invariant
            n == line@.len(),
            l == pattern@.len(),
            l <= n,
            pattern.wf(),
            levels_bounded(line@),
            o <= n - l + 1,
            (found, best as int, best_a as int, best_e as int) == scan_best(
                line@,
                pattern@,
                0,
                o as int,
                0,
            ),
            best + l <= n,
            -67108864 <= best_a <= 67108864,
            best_e <= 0x4000_0000_0000,
        decreases n - l + 1 - o,
    {
        let (a, e) = correlate(line, pattern, o);
        if e > 0 && (!found || beats_exec(a, e, best_a, best_e)) {
            found = true;
            best = o;
            best_a = a;
            best_e = e;
        }
        o = o + 1;
    }
    best
}

/// The fixed-point normalised score of a correlation of positive energy.
fn weight_exec(a: i64, e: u64) -> (w: i64)
    requires
        e > 0,
        -67108864 <= a <= 67108864,
    ensures
        w as int == weight(a as int, e as int),
        -0x4000_0000_0000 <= w <= 0x4000_0000_0000,
{
    let r = isqrt(e);
    assert(r >= 1) by {
        if r == 0 {
            assert((r + 1) * (r + 1) == 1) by (nonlinear_arith)
                requires
                    r == 0,
            ;
        }
    }
    let mag: u64 = if a < 0 {
        (-a) as u64
    } else {
        a as u64
    };
    let scaled: u64 = mag * WEIGHT_SCALE;
    let q: u64 = scaled / r;
    assert(q <= scaled) by {
        vstd::arithmetic::div_mod::lemma_div_is_ordered_by_denominator(scaled as int, 1, r as int);
    }
    if a < 0 {
        -(q as i64)
    } else {
        q as i64
    }
}

/// Fine search around the coarse position `c`: the score-weighted average
/// of the offsets within 5 of it, or the best-scoring one among them when
/// that average is undefined or its total weight is not positive. The result
/// saturates at `usize::MAX`.
fn fine_tune(line: &Vec<u32>, pattern: &SyncPattern, c: usize) -> (r: usize)
    requires
        pattern.wf(),
        levels_bounded(line@),
        c + pattern@.len() <= line@.len(),
    ensures
        fine_offset(line@, pattern@, c as int) > usize::MAX ==> r == usize::MAX,
        fine_offset(line@, pattern@, c as int) <= usize::MAX ==> r as int == fine_offset(
            line@,
            pattern@,
            c as int,
        ),
{
    let n = line.len();
    let l = pattern.values.len();
    let lo: usize = if c >= FINE_TUNE_RANGE {
        c - FINE_TUNE_RANGE
    } else {
        0
    };
    let hi: usize = if FINE_TUNE_RANGE < n - l - c {
        c + FINE_TUNE_RANGE
    } else {
        n - l
    };
    assert(hi as int == fine_hi(line@, pattern@, c as int));
    let mut found = false;
    let mut best: usize = c;
    let mut best_a: i64 = 0;
    let mut best_e: u64 = 0;
    let mut scored = true;
    let mut w_sum: i128 = 0;
    let mut m_sum: i128 = 0;
    let mut o: usize = lo;
    while o <= hi
        invariant
            n == line@.len(),
            l == pattern@.len(),
            pattern.wf(),
            levels_bounded(line@),
            lo as int == fine_lo(c as int),
            hi as int == fine_hi(line@, pattern@, c as int),
            hi + l <= n,
            lo <= o <= hi + 1,
            hi - lo <= 2 * FINE_TUNE_RANGE,
            (found, best as int, best_a as int, best_e as int) == scan_best(
                line@,
                pattern@,
                lo as int,
                o as int,
                c as int,
            ),
            -67108864 <= best_a <= 67108864,
            best_e <= 0x4000_0000_0000,
            scored == all_scored(line@, pattern@, lo as int, o as int),
            scored ==> w_sum as int == weight_sum(line@, pattern@, lo as int, o as int),
            scored ==> m_sum as int == moment_sum(line@, pattern@, lo as int, o as int),
            -(o - lo) * 0x4000_0000_0000 <= w_sum <= (o - lo) * 0x4000_0000_0000,
            -(o - lo) * 0x4000_0000_0000_0000_0000_0000_0000 <= m_sum <= (o - lo)
                * 0x4000_0000_0000_0000_0000_0000_0000,
        decreases hi + 1 - o,
    {
        let (a, e) = correlate(line, pattern, o);
        if e > 0 && (!found || beats_exec(a, e, best_a, best_e)) {
            found = true;
            best = o;
            best_a = a;
            best_e = e;
        }
        if e == 0 {
            scored = false;
        } else {
            let w = weight_exec(a, e);
            assert(-0x4000_0000_0000_0000_0000_0000_0000 <= (o as int) * (w as int)
                <= 0x4000_0000_0000_0000_0000_0000_0000) by (nonlinear_arith)
                requires
                    0 <= o <= 0xffff_ffff_ffff_ffff,
                    -0x4000_0000_0000 <= w <= 0x4000_0000_0000,
            ;
            w_sum = w_sum + w as i128;
            m_sum = m_sum + (o as i128) * (w as i128);
        }
        o = o + 1;
    }
    if scored && w_sum > 0 {
        if m_sum < 0 {
            0
        } else {
            let avg: i128 = (2 * m_sum + w_sum) / (2 * w_sum);
            if avg > usize::MAX as i128 {
                usize::MAX
            } else {
                avg as usize
            }
        }
    } else {
        best
    }
}

/// The rotation that aligns a line: coarse search, fine search, then the
/// shift by `additional_offset` back from the pattern to the line start,
/// kept within the line.
pub fn line_offset_exec(line: &Vec<u32>, pattern: &SyncPattern, additional_offset: usize) -> (r: usize)
    requires
        pattern.wf(),
        levels_bounded(line@),
    ensures
        r as int == line_offset(line@, pattern@, additional_offset as int),
        r <= line@.len(),
{
    let n = line.len();
    let f: usize = if pattern.values.len() > n {
        0
    } else {
        let c = find_sync_position(line, pattern);
        fine_tune(line, pattern, c)
    };
    let g: usize = if f > additional_offset {
        f - additional_offset
    } else {
        0
    };
    if g < n {
        g
    } else {
        n
    }
}

/// The circular left rotation of `line` by `k`: `line[k..]` followed by
/// `line[..k]`.
pub fn rotate_left(line: &Vec<u32>, k: usize) -> (r: Vec<u32>)
    requires
        k <= line@.len(),
    ensures
        r@ == rotate_left_spec(line@, k as int),
{
    let n = line.len();
    let mut out: Vec<u32> = Vec::with_capacity(n);
    let mut i: usize = k;
    while i < n
        invariant
            n == line@.len(),
            k <= i <= n,
            out@ == line@.subrange(k as int, i as int),
        decreases n - i,
    {
        out.push(line[i]);
        i = i + 1;
        assert(out@ =~= line@.subrange(k as int, i as int));
    }
    let mut j: usize = 0;
    while j < k
        invariant
            n == line@.len(),
            k <= n,
            j <= k,
            out@ == line@.subrange(k as int, n as int) + line@.subrange(0, j as int),
        decreases k - j,
    {
        out.push(line[j]);
        j = j + 1;
        assert(out@ =~= line@.subrange(k as int, n as int) + line@.subrange(0, j as int));
    }
    out
}

/// Synchronises a signal line by line: it is cut into lines of
/// `frame_width` samples (a trailing partial line is dropped), and each line
/// is rotated left by its own alignment offset. The lines keep their order.
pub fn sync_apt(signal: &Vec<u32>, frame_width: usize, pattern: &SyncPattern, additional_offset: usize) -> (r: Vec<u32>)
    requires
        frame_width > 0,
        pattern.wf(),
        levels_bounded(signal@),
    ensures
        r@ == synced(
            signal@,
            frame_width as int,
            pattern@,
            additional_offset as int,
            (signal@.len() / (frame_width as nat)) as nat,
        ),
{
    let n = signal.len();
    let rows = n / frame_width;
    let mut out: Vec<u32> = Vec::new();
    let mut row: usize = 0;
    while row < rows
        invariant
            n == signal@.len(),
            frame_width > 0,
            rows == n / frame_width,
            pattern.wf(),
            levels_bounded(signal@),
            row <= rows,
            out@ == synced(
                signal@,
                frame_width as int,
                pattern@,
                additional_offset as int,
                row as nat,
            ),
        decreases rows - row,
    {
        assert(row * frame_width + frame_width <= rows * frame_width) by (nonlinear_arith)
            requires
                row < rows,
        ;
        assert(rows * frame_width <= n) by (nonlinear_arith)
            requires
                rows == n / frame_width,
                frame_width > 0,
        ;
        let start = row * frame_width;
        let mut line: Vec<u32> = Vec::with_capacity(frame_width);
        let mut i: usize = 0;
        while i < frame_width
            invariant
                n == signal@.len(),
                start + frame_width <= n,
                i <= frame_width,
                line@ == signal@.subrange(start as int, start + i),
            decreases frame_width - i,
        {
            line.push(signal[start + i]);
            i = i + 1;
            assert(line@ =~= signal@.subrange(start as int, start + i));
        }
        assert(line@ == line_of(signal@, frame_width as int, row as int));
        let k = line_offset_exec(&line, pattern, additional_offset);
        let mut rotated = rotate_left(&line, k);
        out.append(&mut rotated);
        row = row + 1;
    }
    out
}

} // verus!
