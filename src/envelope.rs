use vstd::prelude::*;

verus! {

/// An upper bound on every level the envelope detector produces
/// (`32768 * 255 / 10` is below it).
pub const MAX_LEVEL: u32 = 1048576;

pub open spec fn abs_sample(v: i16) -> nat {
    if v < 0 {
        (-(v as int)) as nat
    } else {
        v as nat
    }
}

/// The largest magnitude among `x[lo..hi]`, or zero when the range is empty.
pub open spec fn peak(x: Seq<i16>, lo: int, hi: int) -> nat
    decreases hi - lo,
{
    if hi <= lo {
        0
    } else {
        let m = peak(x, lo, hi - 1);
        let v = abs_sample(x[hi - 1]);
        if v > m {
            v
        } else {
            m
        }
    }
}

/// The end of the forward window that starts at `i`.
pub open spec fn window_end(n: int, i: int, window_size: int) -> int {
    if i + window_size < n {
        i + window_size
    } else {
        n
    }
}

/// The envelope level at index `i`: the peak magnitude over the forward
/// window `i .. min(i + window_size, n)`, scaled by `scale_tenths / 10`.
pub open spec fn envelope_at(x: Seq<i16>, window_size: int, scale_tenths: int, i: int) -> int {
    (peak(x, i, window_end(x.len() as int, i, window_size)) * scale_tenths) / 10
}

/// The envelope of a signal.
pub open spec fn enveloped(x: Seq<i16>, window_size: int, scale_tenths: int) -> Seq<u32> {
    Seq::new(x.len(), |i: int| envelope_at(x, window_size, scale_tenths, i) as u32)
}

proof fn lemma_peak_bound(x: Seq<i16>, lo: int, hi: int)
    ensures
        peak(x, lo, hi) <= 32768,
    decreases hi - lo,
{
    if hi > lo {
        lemma_peak_bound(x, lo, hi - 1);
    }
}

/// Forward-looking peak envelope detector: each output is the largest
/// magnitude in the window of `window_size` samples starting there (shorter
/// near the end), scaled by `scale_tenths / 10`. The output has the input's
/// length, and every level lies in `0 ..= MAX_LEVEL`.
pub fn envelope_detection(signal: &Vec<i16>, window_size: usize, scale_tenths: u8) -> (r: Vec<u32>)
    ensures
        r@.len() == signal@.len(),
        forall|i: int|
            0 <= i < r@.len() ==> r@[i] as int == envelope_at(
                signal@,
                window_size as int,
                scale_tenths as int,
                i,
            ),
        forall|i: int| 0 <= i < r@.len() ==> r@[i] <= MAX_LEVEL,
        r@ == enveloped(signal@, window_size as int, scale_tenths as int),
{
    let n = signal.len();
    let mut out: Vec<u32> = Vec::with_capacity(n);
    let mut i: usize = 0;
    while i < n
        invariant
            n == signal@.len(),
            i <= n,
            out@.len() == i,
            forall|j: int|
                0 <= j < i ==> out@[j] as int == envelope_at(
                    signal@,
                    window_size as int,
                    scale_tenths as int,
                    j,
                ),
            forall|j: int| 0 <= j < i ==> out@[j] <= MAX_LEVEL,
        decreases n - i,
    {
        let end: usize = if window_size < n - i {
            i + window_size
        } else {
            n
        };
        let mut m: u32 = 0;
        let mut j: usize = i;
        while j < end
            invariant
                n == signal@.len(),
                i <= j <= end <= n,
                m as nat == peak(signal@, i as int, j as int),
            decreases end - j,
        {
            let s = signal[j];
            let v: u32 = if s < 0 {
                (-(s as i32)) as u32
            } else {
                s as u32
            };
            if v > m {
                m = v;
            }
            j = j + 1;
        }
        proof {
            lemma_peak_bound(signal@, i as int, end as int);
        }
        assert(m * (scale_tenths as u32) <= 32768 * 255) by (nonlinear_arith)
            requires
                m <= 32768,
                scale_tenths <= 255,
        ;
        let level: u32 = m * (scale_tenths as u32) / 10;
        out.push(level);
        i = i + 1;
    }
    assert(out@ =~= enveloped(signal@, window_size as int, scale_tenths as int));
    out
}

} // verus!
