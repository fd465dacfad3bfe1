use crate::envelope::{envelope_detection, enveloped};
use crate::filter::{filtered, low_pass_filter, valid_cutoff};
use crate::raster::Raster;
use crate::render::{raster_matches, render, rendered, RenderError};
use crate::resample::{nominal_len, resample_signal, resampled};
use crate::sync::{apt_pattern, levels_bounded, line_of, rotate_left_spec, sync_apt, synced, SyncPattern};
use vstd::prelude::*;

verus! {

/// The APT sample rate that every recording is resampled to.
pub const APT_SAMPLE_RATE: u32 = 20800;

/// The parameters of one decoding run.
#[derive(Clone, Copy, Debug, PartialEq, Eq, Structural)]
pub struct DecodeConfig {
    pub target_sample_rate: u32,
    pub cutoff_frequency_hz: u32,
    pub envelope_window_size: usize,
    /// The envelope scaling factor, in tenths (20 scales by 2).
    pub envelope_scale_tenths: u8,
    pub sync_enabled: bool,
    pub sync_additional_offset: usize,
    pub reduction_factor: u32,
}

impl Default for DecodeConfig {
    fn default() -> (r: DecodeConfig)
        ensures
            r.target_sample_rate == APT_SAMPLE_RATE,
            r.cutoff_frequency_hz == 5000,
            r.envelope_window_size == 10,
            r.envelope_scale_tenths == 20,
            !r.sync_enabled,
            r.sync_additional_offset == 120,
            r.reduction_factor == 5,
    {
        DecodeConfig {
            target_sample_rate: APT_SAMPLE_RATE,
            cutoff_frequency_hz: 5000,
            envelope_window_size: 10,
            envelope_scale_tenths: 20,
            sync_enabled: false,
            sync_additional_offset: 120,
            reduction_factor: 5,
        }
    }
}

/// Why a recording could not be decoded.
#[derive(PartialEq, Eq, Structural, Debug, Clone, Copy)]
pub enum DecodeError {
    /// The configuration or the input format cannot be processed.
    Config,
    /// The frame, or the image after horizontal reduction, has no columns.
    DegenerateWidth,
    /// The signal holds no complete line.
    EmptySignal,
    /// Every pixel has the same luminance.
    FlatImage,
}

pub open spec fn decode_error_of(e: RenderError) -> DecodeError {
    match e {
        RenderError::DegenerateWidth => DecodeError::DegenerateWidth,
        RenderError::EmptySignal => DecodeError::EmptySignal,
        RenderError::FlatImage => DecodeError::FlatImage,
    }
}

impl DecodeError {
    /// The decode error for a rendering error.
    pub fn from_render(e: RenderError) -> (r: DecodeError)
        ensures
            r == decode_error_of(e),
    {
        match e {
            RenderError::DegenerateWidth => DecodeError::DegenerateWidth,
            RenderError::EmptySignal => DecodeError::EmptySignal,
            RenderError::FlatImage => DecodeError::FlatImage,
        }
    }
}

/// The first channel of interleaved samples: every `channels`-th sample,
/// starting with the first.
pub open spec fn downmixed(x: Seq<i16>, channels: nat) -> Seq<i16> {
    Seq::new(((x.len() + channels - 1) as int / channels as int) as nat, |i: int| x[i * channels])
}

proof fn lemma_div_exact(a: int, d: int, q: int)
    requires
        d > 0,
        q >= 0,
        q * d <= a < q * d + d,
    ensures
        a / d == q,
{
    vstd::arithmetic::div_mod::lemma_fundamental_div_mod(a, d);
    vstd::arithmetic::div_mod::lemma_mod_pos_bound(a, d);
    let q2 = a / d;
    let r2 = a % d;
    assert(0 <= q * d) by (nonlinear_arith)
        requires
            q >= 0,
            d > 0,
    ;
    assert(q2 == q) by (nonlinear_arith)
        requires
            a == d * q2 + r2,
            0 <= r2 < d,
            q * d <= a < q * d + d,
            d > 0,
    ;
}

/// Keeps the first channel of interleaved samples.
pub fn downmix(samples: &Vec<i16>, channels: u16) -> (r: Vec<i16>)
    requires
        channels > 0,
    ensures
        r@ == downmixed(samples@, channels as nat),
{
    let n = samples.len();
    let step = channels as usize;
    let mut out: Vec<i16> = Vec::new();
    let mut idx: usize = 0;
    let ghost mut k: int = 0;
    while idx < n
        invariant
            n == samples@.len(),
            step == channels,
            step > 0,
            idx <= n,
            idx < n ==> idx == k * step,
            idx == n ==> k * step >= n,
            k >= 0,
            k == out@.len(),
            k > 0 ==> (k - 1) * step < n,
            forall|i: int| 0 <= i < k ==> #[trigger] (i * step) < n,
            forall|i: int| 0 <= i < k ==> #[trigger] out@[i] == samples@[i * step],
        decreases n - idx,
    {
        out.push(samples[idx]);
        proof {
            assert((k + 1) * step == k * step + step) by (nonlinear_arith);
            assert forall|i: int| 0 <= i < k + 1 implies #[trigger] (i * step) < n by {
                if i < k {
                } else {
                    assert(i * step == k * step);
                }
            }
            k = k + 1;
        }
        if n - idx <= step {
            idx = n;
        } else {
            idx = idx + step;
        }
    }
    proof {
        if n > 0 {
            assert((k - 1) * step == k * step - step) by (nonlinear_arith);
            lemma_div_exact(n + step - 1, step as int, k);
        } else {
            assert(k == 0);
            lemma_div_exact(n + step - 1, step as int, 0);
        }
    }
    assert(out@.len() == downmixed(samples@, channels as nat).len());
    assert forall|i: int| 0 <= i < k implies #[trigger] out@[i] == downmixed(
        samples@,
        channels as nat,
    )[i] by {
        assert(i * step == i * (channels as nat));
    }
    assert(out@ =~= downmixed(samples@, channels as nat));
    out
}

/// The configuration and input format can be processed: positive rates and
/// channel count, a cutoff below the Nyquist frequency, a reduction factor
/// of at least 1.
pub open spec fn valid_config(c: DecodeConfig, channels: int, source_rate: int) -> bool {
    &&& c.target_sample_rate > 0
    &&& valid_cutoff(c.cutoff_frequency_hz as int, c.target_sample_rate as int)
    &&& c.reduction_factor >= 1
    &&& channels >= 1
    &&& source_rate > 0
}

/// The envelope signal that reaches the renderer: downmixed, resampled,
/// filtered, envelope-detected and, when enabled, synchronised.
pub open spec fn stage_signal(x: Seq<i16>, channels: nat, source_rate: nat, c: DecodeConfig) -> Seq<
    u32,
> {
    let m = downmixed(x, channels);
    let a = resampled(m, source_rate, c.target_sample_rate as nat);
    let f = filtered(a, c.cutoff_frequency_hz as int, c.target_sample_rate as int);
    let e = enveloped(f, c.envelope_window_size as int, c.envelope_scale_tenths as int);
    let fw = c.target_sample_rate / 2;
    if c.sync_enabled && fw > 0 {
        synced(
            e,
            fw as int,
            apt_pattern(),
            c.sync_additional_offset as int,
            (e.len() / (fw as nat)) as nat,
        )
    } else {
        e
    }
}

/// What decoding gives: a configuration error first, else the rendering of
/// the stage signal, with its error carried over.
pub open spec fn decoded(x: Seq<i16>, channels: nat, source_rate: nat, c: DecodeConfig) -> Result<
    (nat, nat, Seq<u8>),
    DecodeError,
> {
    if !valid_config(c, channels as int, source_rate as int) {
        Err(DecodeError::Config)
    } else {
        match rendered(
            stage_signal(x, channels, source_rate, c),
            c.target_sample_rate as int,
            c.reduction_factor as int,
        ) {
            Ok(t) => Ok(t),
            Err(e) => Err(decode_error_of(e)),
        }
    }
}

/// The sizes of a valid run fit the machine: the resampled signal in
/// `usize`, its line count in `u32`.
pub open spec fn decode_fits(n: nat, channels: nat, source_rate: nat, c: DecodeConfig) -> bool {
    valid_config(c, channels as int, source_rate as int) ==> {
        let len = nominal_len(
            ((n + channels - 1) as int / channels as int) as nat,
            source_rate,
            c.target_sample_rate as nat,
        );
        &&& len <= usize::MAX
        &&& len / ((c.target_sample_rate / 2) as nat) <= u32::MAX
    }
}

/// The synchronised signal has one full line per row.
pub proof fn lemma_synced_len(signal: Seq<u32>, width: int, p: Seq<i8>, additional_offset: int, rows: nat)
    requires
        width > 0,
        rows * width <= signal.len(),
    ensures
        synced(signal, width, p, additional_offset, rows).len() == rows * width,
    decreases rows,
{
    if rows > 0 {
        assert((rows - 1) * width == rows * width - width) by (nonlinear_arith);
        lemma_synced_len(signal, width, p, additional_offset, (rows - 1) as nat);
        let line = line_of(signal, width, rows - 1);
        assert(line.len() == width);
        let k = crate::sync::line_offset(line, p, additional_offset);
        assert(0 <= k <= line.len());
        assert(rotate_left_spec(line, k).len() == width);
    } else {
        assert(rows * width == 0) by (nonlinear_arith)
            requires
                rows == 0,
        ;
    }
}

/// Decodes an APT recording: keeps the first channel, resamples it to the
/// target rate, filters it, detects its envelope, synchronises its lines
/// when enabled, and renders the image.
pub fn decode(samples: &Vec<i16>, channels: u16, source_rate: u32, config: &DecodeConfig) -> (r:
    Result<Raster, DecodeError>)
    requires
        decode_fits(samples@.len(), channels as nat, source_rate as nat, *config),
    ensures
        raster_matches(r, decoded(samples@, channels as nat, source_rate as nat, *config)),
{
    let c = *config;
    if !(c.target_sample_rate > 0 && c.cutoff_frequency_hz > 0 && (c.cutoff_frequency_hz as u64) * 2
        < c.target_sample_rate as u64 && c.reduction_factor >= 1 && channels >= 1 && source_rate
        > 0) {
        return Err(DecodeError::Config);
    }
    let mono = downmix(samples, channels);
    let resampled_signal = resample_signal(&mono, source_rate, c.target_sample_rate);
    let filtered_signal = low_pass_filter(
        &resampled_signal,
        c.cutoff_frequency_hz,
        c.target_sample_rate,
    );
    let envelope = envelope_detection(
        &filtered_signal,
        c.envelope_window_size,
        c.envelope_scale_tenths,
    );
    let fw: usize = (c.target_sample_rate / 2) as usize;
    assert(levels_bounded(envelope@));
    let signal = if c.sync_enabled && fw > 0 {
        let pattern = SyncPattern::apt();
        let s = sync_apt(&envelope, fw, &pattern, c.sync_additional_offset);
        proof {
            let rows = (envelope@.len() / (fw as nat)) as nat;
            assert(rows * fw <= envelope@.len()) by (nonlinear_arith)
                requires
                    rows == envelope@.len() / (fw as nat),
                    fw > 0,
            ;
            lemma_synced_len(envelope@, fw as int, apt_pattern(), c.sync_additional_offset as int, rows);
            vstd::arithmetic::div_mod::lemma_div_multiples_vanish(rows as int, fw as int);
            assert(rows * fw == fw * rows) by (nonlinear_arith);
            vstd::arithmetic::div_mod::lemma_div_is_ordered(envelope@.len() as int, nominal_len(mono@.len(), source_rate as nat, c.target_sample_rate as nat) as int, fw as int);
        }
        s
    } else {
        proof {
            vstd::arithmetic::div_mod::lemma_div_is_ordered(envelope@.len() as int, nominal_len(mono@.len(), source_rate as nat, c.target_sample_rate as nat) as int, fw as int);
        }
        envelope
    };
    match render(&signal, c.target_sample_rate, c.reduction_factor) {
        Ok(img) => Ok(img),
        Err(e) => Err(DecodeError::from_render(e)),
    }
}

/// The switches of a running application.
pub struct AppState {
    pub debug: bool,
    pub benchmark_ram: bool,
    pub benchmark_cpu: bool,
    pub sync: bool,
    pub use_model: bool,
    pub use_sgbnr: bool,
}

impl AppState {
    /// A state with the given diagnostics switches and every processing
    /// option off.
    pub fn new(debug: bool, benchmark_ram: bool, benchmark_cpu: bool) -> (r: AppState)
        ensures
            r.debug == debug,
            r.benchmark_ram == benchmark_ram,
            r.benchmark_cpu == benchmark_cpu,
            !r.sync,
            !r.use_model,
            !r.use_sgbnr,
    {
        AppState { debug, benchmark_ram, benchmark_cpu, sync: false, use_model: false, use_sgbnr: false }
    }

    /// The default decoding configuration, with synchronisation as this
    /// state selects it.
    pub fn decode_config(&self) -> (r: DecodeConfig)
        ensures
            r == (DecodeConfig { sync_enabled: self.sync, ..r }),
            r.target_sample_rate == APT_SAMPLE_RATE,
            r.cutoff_frequency_hz == 5000,
            r.envelope_window_size == 10,
            r.envelope_scale_tenths == 20,
            r.sync_enabled == self.sync,
            r.sync_additional_offset == 120,
            r.reduction_factor == 5,
    {
        let mut c = DecodeConfig::default();
        c.sync_enabled = self.sync;
        c
    }
}

} // verus!
