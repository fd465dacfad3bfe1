use crate::raster::Raster;
use vstd::prelude::*;

verus! {

/// Why a signal could not be rendered.
#[derive(PartialEq, Eq, Structural, Debug, Clone, Copy)]
pub enum RenderError {
    /// The frame, or the image after horizontal reduction, has no columns.
    DegenerateWidth,
    /// The signal holds no complete line.
    EmptySignal,
    /// Every pixel has the same luminance, so contrast cannot be stretched.
    FlatImage,
}

/// The 8-bit luminance of an envelope level: `level / 32 - 32`, clamped to
/// `0 ..= 255`.
pub open spec fn luminance(level: int) -> int {
    let v = level / 32 - 32;
    if v < 0 {
        0
    } else if v > 255 {
        255
    } else {
        v
    }
}

/// The pixels of the reduced image, row-major: pixel `(px, py)` takes the
/// luminance of sample `py * frame_width + px * reduction` (nearest-neighbour
/// decimation of the full-width raster).
pub open spec fn decimated(
    signal: Seq<u32>,
    frame_width: int,
    reduction: int,
    width: nat,
    height: nat,
) -> Seq<u8> {
    Seq::new(
        width * height,
        |j: int| luminance(signal[(j / width as int) * frame_width + (j % width as int) * reduction] as int) as u8,
    )
}

/// The smallest value of a sequence (0 for an empty one).
pub open spec fn seq_min(s: Seq<u8>) -> u8
    decreases s.len(),
{
    if s.len() <= 1 {
        if s.len() == 0 {
            0
        } else {
            s[0]
        }
    } else {
        let m = seq_min(s.take(s.len() - 1));
        if s[s.len() - 1] < m {
            s[s.len() - 1]
        } else {
            m
        }
    }
}

/// The largest value of a sequence (0 for an empty one).
pub open spec fn seq_max(s: Seq<u8>) -> u8
    decreases s.len(),
{
    if s.len() <= 1 {
        if s.len() == 0 {
            0
        } else {
            s[0]
        }
    } else {
        let m = seq_max(s.take(s.len() - 1));
        if s[s.len() - 1] > m {
            s[s.len() - 1]
        } else {
            m
        }
    }
}

/// A luminance stretched from `lo ..= hi` onto `0 ..= 255`, rounded toward
/// zero.
pub open spec fn stretch(p: int, lo: int, hi: int) -> int {
    (p - lo) * 255 / (hi - lo)
}

/// The contrast-normalised pixels.
pub open spec fn normalized(s: Seq<u8>) -> Seq<u8> {
    Seq::new(s.len(), |j: int| stretch(s[j] as int, seq_min(s) as int, seq_max(s) as int) as u8)
}

/// A sequence whose values are all equal.
pub open spec fn is_flat(s: Seq<u8>) -> bool {
    seq_min(s) == seq_max(s)
}

pub proof fn lemma_min_max(s: Seq<u8>)
    requires
        s.len() > 0,
    ensures
        forall|j: int| 0 <= j < s.len() ==> seq_min(s) <= #[trigger] s[j] <= seq_max(s),
        exists|j: int| 0 <= j < s.len() && s[j] == seq_min(s),
        exists|j: int| 0 <= j < s.len() && s[j] == seq_max(s),
    decreases s.len(),
{
    if s.len() > 1 {
        let t = s.take(s.len() - 1);
        lemma_min_max(t);
        assert forall|j: int| 0 <= j < s.len() implies seq_min(s) <= #[trigger] s[j] <= seq_max(s) by {
            if j < s.len() - 1 {
                assert(t[j] == s[j]);
            }
        }
        let jmin = choose|j: int| 0 <= j < t.len() && t[j] == seq_min(t);
        let jmax = choose|j: int| 0 <= j < t.len() && t[j] == seq_max(t);
        if s[s.len() - 1] < seq_min(t) {
            assert(s[s.len() - 1] == seq_min(s));
        } else {
            assert(s[jmin] == seq_min(s));
        }
        if s[s.len() - 1] > seq_max(t) {
            assert(s[s.len() - 1] == seq_max(s));
        } else {
            assert(s[jmax] == seq_max(s));
        }
    } else {
        assert(s[0] == seq_min(s));
        assert(s[0] == seq_max(s));
    }
}

/// Splits a row-major index into its column and row.
proof fn lemma_split(j: int, w: int, h: int)
    requires
        0 <= j < w * h,
        w > 0,
    ensures
        0 <= j % w < w,
        0 <= j / w < h,
        (j / w) * w + j % w == j,
{
    vstd::arithmetic::div_mod::lemma_fundamental_div_mod(j, w);
    vstd::arithmetic::div_mod::lemma_mod_pos_bound(j, w);
    vstd::arithmetic::div_mod::lemma_div_pos_is_pos(j, w);
    let q = j / w;
    let r = j % w;
    assert(q < h) by (nonlinear_arith)
        requires
            j == w * q + r,
            0 <= r,
            j < w * h,
            w > 0,
    ;
    assert(q * w == w * q) by (nonlinear_arith);
}

/// The luminance of an envelope level.
fn luminance_exec(level: u32) -> (r: u8)
    ensures
        r as int == luminance(level as int),
{
    let v: u32 = level / 32;
    if v < 32 {
        0
    } else if v - 32 > 255 {
        255
    } else {
        (v - 32) as u8
    }
}

impl Raster {
    /// The pixels in row-major order.
    pub fn to_bytes(&self) -> (r: Vec<u8>)
        requires
            self.wf(),
        ensures
            r@ == self.pixels(),
    {
        let w = self.width();
        let h = self.height();
        let total: usize = w as usize * h as usize;
        let mut out: Vec<u8> = Vec::with_capacity(total);
        let mut j: usize = 0;
        while j < total
            invariant
                self.wf(),
                w as nat == self.width_spec(),
                h as nat == self.height_spec(),
                total == w * h,
                j <= total,
                out@ == self.pixels().take(j as int),
            decreases total - j,
        {
            proof {
                lemma_split(j as int, w as int, h as int);
            }
            let x = (j % (w as usize)) as u32;
            let y = (j / (w as usize)) as u32;
            let v = self.pixel(x, y);
            out.push(v);
            j = j + 1;
            assert(out@ =~= self.pixels().take(j as int));
        }
        assert(out@ =~= self.pixels());
        out
    }
}

/// Stretches the contrast of an image so that its darkest pixel becomes 0
/// and its brightest 255. A flat image (all pixels equal, or none) is left
/// as it is and reported.
pub fn normalize_image(img: &mut Raster) -> (r: Result<(), RenderError>)
    requires
        old(img).wf(),
    ensures
        final(img).wf(),
        final(img).width_spec() == old(img).width_spec(),
        final(img).height_spec() == old(img).height_spec(),
        is_flat(old(img).pixels()) ==> r == Err::<(), RenderError>(RenderError::FlatImage)
            && final(img).pixels() == old(img).pixels(),
        !is_flat(old(img).pixels()) ==> r is Ok && final(img).pixels() == normalized(
            old(img).pixels(),
        ),
{
    let bytes = img.to_bytes();
    let total = bytes.len();
    if total == 0 {
        return Err(RenderError::FlatImage);
    }
    let mut lo: u8 = bytes[0];
    let mut hi: u8 = bytes[0];
    let mut i: usize = 1;
    assert(bytes@.take(1).len() == 1);
    while i < total
        invariant
            total == bytes@.len(),
            1 <= i <= total,
            lo == seq_min(bytes@.take(i as int)),
            hi == seq_max(bytes@.take(i as int)),
        decreases total - i,
    {
        assert(bytes@.take(i + 1).take(i as int) =~= bytes@.take(i as int));
        let v = bytes[i];
        if v < lo {
            lo = v;
        }
        if v > hi {
            hi = v;
        }
        i = i + 1;
    }
    assert(bytes@.take(total as int) =~= bytes@);
    if lo == hi {
        return Err(RenderError::FlatImage);
    }
    proof {
        lemma_min_max(bytes@);
    }
    let w = img.width();
    let h = img.height();
    let ghost before = bytes@;
    let mut j: usize = 0;
    while j < total
        invariant
            total == bytes@.len(),
            before == bytes@,
            img.wf(),
            w as nat == img.width_spec(),
            h as nat == img.height_spec(),
            total == w * h,
            lo == seq_min(before),
            hi == seq_max(before),
            lo < hi,
            forall|k: int| 0 <= k < total ==> lo <= #[trigger] before[k] <= hi,
            j <= total,
            forall|k: int| 0 <= k < j ==> #[trigger] img.pixels()[k] == normalized(before)[k],
            forall|k: int| j <= k < total ==> #[trigger] img.pixels()[k] == before[k],
        decreases total - j,
    {
        proof {
            lemma_split(j as int, w as int, h as int);
        }
        let x = (j % (w as usize)) as u32;
        let y = (j / (w as usize)) as u32;
        let p = bytes[j];
        let num: u32 = (p - lo) as u32 * 255;
        let den: u32 = (hi - lo) as u32;
        assert(num / den <= 255) by {
            vstd::arithmetic::div_mod::lemma_div_is_ordered(num as int, den as int * 255, den as int);
            vstd::arithmetic::div_mod::lemma_div_multiples_vanish(255, den as int);
            assert(den as int * 255 == den as int * 255);
        }
        let v: u8 = (num / den) as u8;
        img.put(x, y, v);
        j = j + 1;
    }
    assert(img.pixels() =~= normalized(before));
    Ok(())
}

/// The full-width raster: sample `j` becomes pixel `j` in row-major order,
/// for the first `width * height` samples.
fn raster_scan(signal: &Vec<u32>, width: u32, height: u32) -> (r: Raster)
    requires
        width > 0,
        width * height <= signal@.len(),
    ensures
        r.wf(),
        r.width_spec() == width,
        r.height_spec() == height,
        r.pixels() == Seq::new(
            width as nat * height as nat,
            |j: int| luminance(signal@[j] as int) as u8,
        ),
{
    let n = signal.len();
    assert(width * height <= n);
    let total: usize = width as usize * height as usize;
    let mut img = Raster::blank(width, height);
    let mut j: usize = 0;
    while j < total
        invariant
            img.wf(),
            img.width_spec() == width,
            img.height_spec() == height,
            total == width * height,
            total <= signal@.len(),
            width > 0,
            j <= total,
            forall|k: int|
                0 <= k < j ==> #[trigger] img.pixels()[k] == luminance(signal@[k] as int) as u8,
        decreases total - j,
    {
        proof {
            lemma_split(j as int, width as int, height as int);
        }
        let x = (j % (width as usize)) as u32;
        let y = (j / (width as usize)) as u32;
        let v = luminance_exec(signal[j]);
        img.put(x, y, v);
        j = j + 1;
    }
    assert(img.pixels() =~= Seq::new(
        width as nat * height as nat,
        |j: int| luminance(signal@[j] as int) as u8,
    ));
    img
}

/// Nearest-neighbour horizontal decimation: column `px` of the result is
/// column `px * reduction` of `full`.
fn decimate(full: &Raster, reduction: u32, new_width: u32) -> (r: Raster)
    requires
        full.wf(),
        reduction > 0,
        new_width > 0,
        new_width == full.width_spec() / (reduction as nat),
    ensures
        r.wf(),
        r.width_spec() == new_width,
        r.height_spec() == full.height_spec(),
        forall|j: int|
            0 <= j < new_width * full.height_spec() ==> #[trigger] r.pixels()[j] == full.pixels()[(j
                / new_width as int) * full.width_spec() + (j % new_width as int) * reduction],
{
    let fw = full.width();
    let h = full.height();
    assert(new_width * h <= fw * h) by (nonlinear_arith)
        requires
            new_width <= fw,
            new_width == fw / reduction,
            reduction > 0,
    ;
    let total: usize = new_width as usize * h as usize;
    let mut img = Raster::blank(new_width, h);
    let mut j: usize = 0;
    while j < total
        invariant
            full.wf(),
            fw as nat == full.width_spec(),
            h as nat == full.height_spec(),
            img.wf(),
            img.width_spec() == new_width,
            img.height_spec() == h,
            total == new_width * h,
            reduction > 0,
            new_width > 0,
            new_width == fw / reduction,
            j <= total,
            forall|k: int|
                0 <= k < j ==> #[trigger] img.pixels()[k] == full.pixels()[(k / new_width as int)
                    * fw + (k % new_width as int) * reduction],
        decreases total - j,
    {
        proof {
            lemma_split(j as int, new_width as int, h as int);
        }
        let x = (j % (new_width as usize)) as u32;
        let y = (j / (new_width as usize)) as u32;
        assert(x * reduction < fw) by (nonlinear_arith)
            requires
                x < new_width,
                new_width == fw / reduction,
                reduction > 0,
        ;
        let v = full.pixel(x * reduction, y);
        img.put(x, y, v);
        j = j + 1;
    }
    img
}

/// The number of samples in one line at the given sample rate (two lines
/// per second).
pub open spec fn frame_width_of(frequency: int) -> int {
    frequency / 2
}

/// What rendering a signal gives: the error, or the width, height and
/// row-major pixels of the image.
pub open spec fn rendered(signal: Seq<u32>, frequency: int, reduction: int) -> Result<
    (nat, nat, Seq<u8>),
    RenderError,
> {
    let fw = frame_width_of(frequency);
    if fw <= 0 {
        Err(RenderError::DegenerateWidth)
    } else {
        let h = signal.len() / (fw as nat);
        let w = if reduction > 0 {
            fw / reduction
        } else {
            0
        };
        if h == 0 {
            Err(RenderError::EmptySignal)
        } else if w <= 0 {
            Err(RenderError::DegenerateWidth)
        } else {
            let d = decimated(signal, fw, reduction, w as nat, h);
            if is_flat(d) {
                Err(RenderError::FlatImage)
            } else {
                Ok((w as nat, h, normalized(d)))
            }
        }
    }
}

/// `r` is the image described by `expected`, or the same error.
pub open spec fn raster_matches<E>(r: Result<Raster, E>, expected: Result<(nat, nat, Seq<u8>), E>) -> bool {
    match expected {
        Ok((w, h, px)) => r matches Ok(img) && img.wf() && img.width_spec() == w
            && img.height_spec() == h && img.pixels() == px,
        Err(e) => r == Err::<Raster, E>(e),
    }
}

/// Renders an envelope signal into a contrast-normalised grayscale image:
/// lines of `frequency / 2` samples become rows (a trailing partial line is
/// dropped), each level becomes a luminance, every `reduction_factor`-th
/// column is kept, and the contrast is stretched to `0 ..= 255`.
pub fn render(signal: &Vec<u32>, frequency: u32, reduction_factor: u32) -> (r: Result<
    Raster,
    RenderError,
>)
    requires
        frequency / 2 > 0 ==> signal@.len() / ((frequency / 2) as nat) <= u32::MAX,
    ensures
        raster_matches(r, rendered(signal@, frequency as int, reduction_factor as int)),
{
    let fw: u32 = frequency / 2;
    if fw == 0 {
        return Err(RenderError::DegenerateWidth);
    }
    let n = signal.len();
    let h: u32 = (n / fw as usize) as u32;
    if h == 0 {
        return Err(RenderError::EmptySignal);
    }
    if reduction_factor == 0 {
        return Err(RenderError::DegenerateWidth);
    }
    let w: u32 = fw / reduction_factor;
    if w == 0 {
        return Err(RenderError::DegenerateWidth);
    }
    assert(fw * h <= n) by (nonlinear_arith)
        requires
            h as int == n as int / fw as int,
            fw > 0,
    ;
    let full = raster_scan(signal, fw, h);
    let mut img = decimate(&full, reduction_factor, w);
    let ghost d = decimated(signal@, fw as int, reduction_factor as int, w as nat, h as nat);
    assert(img.pixels() =~= d) by {
        assert forall|j: int| 0 <= j < w * h implies #[trigger] img.pixels()[j] == d[j] by {
            lemma_split(j, w as int, h as int);
            let x = j % (w as int);
            let y = j / (w as int);
            assert(x * reduction_factor < fw) by (nonlinear_arith)
                requires
                    0 <= x < w,
                    w == fw / reduction_factor,
                    reduction_factor > 0,
            ;
            assert(y * fw + x * reduction_factor < fw * h) by (nonlinear_arith)
                requires
                    0 <= y < h,
                    0 <= x * reduction_factor < fw,
            ;
        }
    }
    match normalize_image(&mut img) {
        Ok(()) => Ok(img),
        Err(e) => Err(e),
    }
}

} // verus!
