//! The rolling hills: a one-dimensional height field over the columns of
//! the screen. Each column's fill height is derived from a noise sample by
//! normalizing it, blending it with a fixed offset by the configured
//! amplitude, scaling by the band height and clamping to `[1, height]`.
//!
//! Samples enter as plain integers in thousandths of the noise unit, so a
//! raw sample of one is `SAMPLE_ONE`. The noise source itself lives with
//! the caller; keeping or replacing the samples across a resize is what
//! distinguishes a resize from a regeneration.

use vstd::arithmetic::div_mod::lemma_div_is_ordered;
use vstd::prelude::*;

verus! {

use crate::is_snow_glyph;
use crate::rng::random_snowflake;

/// One whole unit in thousandths: samples nominally lie in
/// `[-SAMPLE_ONE, SAMPLE_ONE]`, amplitudes and offsets in `[0, SAMPLE_ONE]`.
pub const SAMPLE_ONE: u32 = 1000;

/// The fixed blend target: half the band.
pub const OFFSET_HALF: u32 = 500;

/// A raw sample forced into the nominal `[-1000, 1000]` range.
pub open spec fn clamp_sample(s: int) -> int {
    if s < -1000 {
        -1000
    } else if s > 1000 {
        1000
    } else {
        s
    }
}

/// The blended height fraction in millionths: the sample normalized from
/// `[-1000, 1000]` to `[0, 1000]`, weighted by the amplitude, plus the
/// offset weighted by the rest.
pub open spec fn spec_blended(s: int, amp: int, off: int) -> int {
    ((clamp_sample(s) + 1000) / 2) * amp + (1000 - amp) * off
}

/// A column's fill height: the band height scaled by the blended fraction,
/// then clamped to `[1, band]` (an empty band stays empty).
pub open spec fn spec_column_height(band: int, s: int, amp: int, off: int) -> int {
    let v = band * spec_blended(s, amp, off) / 1000000;
    let lo = if v < 1 {
        1
    } else {
        v
    };
    if lo > band {
        band
    } else {
        lo
    }
}

/// The blended fraction stays within one whole, in millionths.
pub proof fn lemma_blended_bounds(s: int, amp: int, off: int)
    requires
        0 <= amp <= 1000,
        0 <= off <= 1000,
    ensures
        0 <= spec_blended(s, amp, off) <= 1000000,
{
    let norm = (clamp_sample(s) + 1000) / 2;
    assert(0 <= norm <= 1000);
    assert(0 <= norm * amp <= 1000 * amp) by (nonlinear_arith)
        requires
            0 <= norm <= 1000,
            0 <= amp,
    ;
    assert(0 <= (1000 - amp) * off <= (1000 - amp) * 1000) by (nonlinear_arith)
        requires
            0 <= off <= 1000,
            amp <= 1000,
    ;
}

/// A column's fill height lies in `[1, band]` whenever the band has any
/// height at all.
pub proof fn lemma_column_height_in_band(band: int, s: int, amp: int, off: int)
    requires
        0 <= band,
        0 <= amp <= 1000,
        0 <= off <= 1000,
    ensures
        band == 0 ==> spec_column_height(band, s, amp, off) == 0,
        band >= 1 ==> 1 <= spec_column_height(band, s, amp, off) <= band,
{
    let b = spec_blended(s, amp, off);
    lemma_blended_bounds(s, amp, off);
    assert(band * b <= band * 1000000) by (nonlinear_arith)
        requires
            0 <= band,
            b <= 1000000,
    ;
    assert(band * b >= 0) by (nonlinear_arith)
        requires
            0 <= band,
            0 <= b,
    ;
    lemma_div_is_ordered(band * b, band * 1000000, 1000000);
    assert(band * 1000000 / 1000000 == band) by (nonlinear_arith);
}

/// The fill height never falls when the sample rises: the whole pipeline
/// from raw sample to clamped cell count is monotone.
pub proof fn lemma_column_height_monotone(band: int, s1: int, s2: int, amp: int, off: int)
    requires
        s1 <= s2,
        0 <= band,
        0 <= amp <= 1000,
        0 <= off <= 1000,
    ensures
        spec_column_height(band, s1, amp, off) <= spec_column_height(band, s2, amp, off),
{
    let n1 = (clamp_sample(s1) + 1000) / 2;
    let n2 = (clamp_sample(s2) + 1000) / 2;
    lemma_div_is_ordered(clamp_sample(s1) + 1000, clamp_sample(s2) + 1000, 2);
    assert(n1 * amp <= n2 * amp) by (nonlinear_arith)
        requires
            n1 <= n2,
            0 <= amp,
    ;
    let b1 = spec_blended(s1, amp, off);
    let b2 = spec_blended(s2, amp, off);
    assert(band * b1 <= band * b2) by (nonlinear_arith)
        requires
            b1 <= b2,
            0 <= band,
    ;
    lemma_div_is_ordered(band * b1, band * b2, 1000000);
}

pub struct Hills {
    width: u16,
    height: u16,
    samples: Vec<i64>,
    content: Vec<Vec<char>>,
    amplitude: u32,
    offset: u32,
}

/// Every column in range shows at least one glyph and at most the band's
/// height, as long as the band has any height at all.
pub proof fn lemma_display_height_in_band(hills: &Hills, x: int)
    requires
        hills.wf(),
        hills.spec_height() >= 1,
        0 <= x < hills.spec_width() as int,
    ensures
        1 <= hills.spec_display_height(x) <= hills.spec_height() as int,
{
    lemma_column_height_in_band(
        hills.spec_height() as int,
        hills.spec_samples()[x] as int,
        hills.spec_amplitude() as int,
        hills.spec_offset() as int,
    );
}

impl Hills {
    pub closed spec fn spec_width(&self) -> u16 {
        self.width
    }

    pub closed spec fn spec_height(&self) -> u16 {
        self.height
    }

    pub closed spec fn spec_samples(&self) -> Seq<i64> {
        self.samples@
    }

    pub closed spec fn spec_content(&self) -> Seq<Seq<char>> {
        self.content.deep_view()
    }

    pub closed spec fn spec_amplitude(&self) -> u32 {
        self.amplitude
    }

    pub closed spec fn spec_offset(&self) -> u32 {
        self.offset
    }

    /// The height a given column shows: its glyph count inside the range,
    /// zero outside.
    pub open spec fn spec_display_height(&self, x: int) -> int {
        if 0 <= x < self.spec_width() as int {
            spec_column_height(
                self.spec_height() as int,
                self.spec_samples()[x] as int,
                self.spec_amplitude() as int,
                self.spec_offset() as int,
            )
        } else {
            0
        }
    }

    /// One sample and one glyph stack per column; every stack is exactly as
    /// tall as the height pipeline says, and holds snow glyphs only.
    pub open spec fn wf(&self) -> bool {
        &&& self.spec_samples().len() == self.spec_width() as int
        &&& self.spec_content().len() == self.spec_width() as int
        &&& self.spec_amplitude() <= 1000
        &&& self.spec_offset() <= 1000
        &&& forall|x: int|
            0 <= x < self.spec_width() as int ==> (#[trigger] self.spec_content()[x]).len()
                == self.spec_display_height(x)
        &&& forall|x: int, k: int|
            0 <= x < self.spec_width() as int && 0 <= k < self.spec_content()[x].len()
                ==> is_snow_glyph(#[trigger] self.spec_content()[x][k])
    }

    /// A fresh height field over `width` columns, one sample per column.
    /// The blend offset is fixed at half the band.
    pub fn new(width: u16, height: u16, amplitude: u32, samples: Vec<i64>) -> (h: Hills)
        requires
            samples@.len() == width as int,
            amplitude <= 1000,
        ensures
            h.wf(),
            h.spec_width() == width,
            h.spec_height() == height,
            h.spec_amplitude() == amplitude,
            h.spec_offset() == OFFSET_HALF,
            h.spec_samples() == samples@,
    {
        let mut new = Hills {
            width,
            height,
            samples,
            content: Vec::new(),
            amplitude,
            offset: OFFSET_HALF,
        };
        new.update_content();
        new
    }

    /// Recomputes every column for the new dimensions from the samples
    /// given. Handing back the samples of the same noise source makes this
    /// a plain resize; handing new ones regenerates the terrain.
    pub fn update_dimensions(&mut self, width: u16, height: u16, samples: Vec<i64>)
        requires
            old(self).wf(),
            samples@.len() == width as int,
        ensures
            final(self).wf(),
            final(self).spec_width() == width,
            final(self).spec_height() == height,
            final(self).spec_amplitude() == old(self).spec_amplitude(),
            final(self).spec_offset() == old(self).spec_offset(),
            final(self).spec_samples() == samples@,
    {
        self.width = width;
        self.height = height;
        self.samples = samples;
        self.update_content();
    }

    fn update_content(&mut self)
        requires
            old(self).spec_samples().len() == old(self).spec_width() as int,
            old(self).spec_amplitude() <= 1000,
            old(self).spec_offset() <= 1000,
        ensures
            final(self).wf(),
            final(self).spec_width() == old(self).spec_width(),
            final(self).spec_height() == old(self).spec_height(),
            final(self).spec_amplitude() == old(self).spec_amplitude(),
            final(self).spec_offset() == old(self).spec_offset(),
            final(self).spec_samples() == old(self).spec_samples(),
    {
        self.content = Vec::new();
        let mut x: u16 = 0;
        while x < self.width
            invariant
                x as int <= self.spec_width() as int,
                self.spec_width() == old(self).spec_width(),
                self.spec_height() == old(self).spec_height(),
                self.spec_amplitude() == old(self).spec_amplitude(),
                self.spec_offset() == old(self).spec_offset(),
                self.spec_samples() == old(self).spec_samples(),
                self.spec_samples().len() == self.spec_width() as int,
                self.spec_amplitude() <= 1000,
                self.spec_offset() <= 1000,
                self.spec_content().len() == x as int,
                forall|i: int|
                    0 <= i < x as int ==> (#[trigger] self.spec_content()[i]).len()
                        == self.spec_display_height(i),
                forall|i: int, k: int|
                    0 <= i < x as int && 0 <= k < self.spec_content()[i].len() ==> is_snow_glyph(
                        #[trigger] self.spec_content()[i][k],
                    ),
            decreases self.spec_width() as int - x as int,
        {
            let sample = self.samples[x as usize];
            let strip = Self::generate_strip(self.height, sample, self.amplitude, self.offset);
            let ghost prev = self.spec_content();
            self.content.push(strip);
            proof {
                assert forall|i: int| 0 <= i < x as int + 1 implies (
                #[trigger] self.spec_content()[i]).len() == self.spec_display_height(i) by {
                    if i < x as int {
                        assert(self.spec_content()[i] == prev[i]);
                    } else {
                        assert(self.spec_content()[i] =~= strip@);
                    }
                }
                assert forall|i: int, k: int|
                    0 <= i < x as int + 1 && 0 <= k < self.spec_content()[i].len() implies
                    is_snow_glyph(#[trigger] self.spec_content()[i][k]) by {
                    if i < x as int {
                        assert(self.spec_content()[i] == prev[i]);
                        assert(is_snow_glyph(prev[i][k]));
                    } else {
                        assert(self.spec_content()[i] =~= strip@);
                        assert(is_snow_glyph(strip@[k]));
                    }
                }
            }
            x = x + 1;
        }
    }

    /// One column's glyph stack: as many random snow glyphs as the height
    /// pipeline gives for this sample.
    fn generate_strip(band: u16, sample: i64, amplitude: u32, offset: u32) -> (strip: Vec<char>)
        requires
            amplitude <= 1000,
            offset <= 1000,
        ensures
            strip@.len() == spec_column_height(
                band as int,
                sample as int,
                amplitude as int,
                offset as int,
            ),
            forall|k: int| 0 <= k < strip@.len() ==> is_snow_glyph(#[trigger] strip@[k]),
    {
        let cells = Self::column_height(band, sample, amplitude, offset);
        let mut strip: Vec<char> = Vec::new();
        let mut k: u16 = 0;
        while k < cells
            invariant
                k <= cells,
                strip@.len() == k as int,
                forall|i: int| 0 <= i < strip@.len() ==> is_snow_glyph(#[trigger] strip@[i]),
            decreases cells - k,
        {
            strip.push(random_snowflake());
            k = k + 1;
        }
        strip
    }

    /// The executable height pipeline, exactly the spec's formula.
    fn column_height(band: u16, sample: i64, amplitude: u32, offset: u32) -> (h: u16)
        requires
            amplitude <= 1000,
            offset <= 1000,
        ensures
            h as int == spec_column_height(
                band as int,
                sample as int,
                amplitude as int,
                offset as int,
            ),
    {
        let s: i64 = if sample < -1000 {
            -1000
        } else if sample > 1000 {
            1000
        } else {
            sample
        };
        let norm: u64 = ((s + 1000) as u64) / 2;
        proof {
            assert(norm as int * amplitude as int <= 1000 * 1000) by (nonlinear_arith)
                requires
                    0 <= norm <= 1000,
                    0 <= amplitude <= 1000,
            ;
            assert((1000 - amplitude as int) * offset as int <= 1000 * 1000) by (nonlinear_arith)
                requires
                    0 <= offset <= 1000,
                    amplitude <= 1000,
            ;
        }
        let blended: u64 = norm * (amplitude as u64) + ((1000 - amplitude) as u64) * (offset
            as u64);
        proof {
            lemma_blended_bounds(sample as int, amplitude as int, offset as int);
            assert(band as int * blended as int <= 65535 * 1000000) by (nonlinear_arith)
                requires
                    0 <= band <= 65535,
                    0 <= blended <= 1000000,
            ;
        }
        let v: u64 = (band as u64) * blended / 1000000;
        let lo: u64 = if v < 1 {
            1
        } else {
            v
        };
        let h: u64 = if lo > band as u64 {
            band as u64
        } else {
            lo
        };
        proof {
            lemma_column_height_in_band(band as int, sample as int, amplitude as int, offset as int);
        }
        h as u16
    }

    pub fn width(&self) -> (w: u16)
        ensures
            w == self.spec_width(),
    {
        self.width
    }

    pub fn height(&self) -> (h: u16)
        ensures
            h == self.spec_height(),
    {
        self.height
    }

    pub fn content(&self) -> (c: &Vec<Vec<char>>)
        ensures
            c.deep_view() == self.spec_content(),
    {
        &self.content
    }

    /// The glyph count shown at column `x`: zero outside the range.
    pub fn display_height(&self, x: u16) -> (h: u16)
        requires
            self.wf(),
        ensures
            h as int == self.spec_display_height(x as int),
    {
        if x >= self.width {
            return 0;
        }
        proof {
            lemma_column_height_in_band(
                self.spec_height() as int,
                self.spec_samples()[x as int] as int,
                self.spec_amplitude() as int,
                self.spec_offset() as int,
            );
            assert(self.spec_content()[x as int].len() == self.content@[x as int].deep_view().len());
        }
        self.content[x as usize].len() as u16
    }

    /// The raw sample at column `x`, used only to compare columns when
    /// searching extrema; it is finer than the display height.
    pub fn real_height(&self, x: u16) -> (s: i64)
        requires
            self.wf(),
            x < self.spec_width(),
        ensures
            s == self.spec_samples()[x as int],
    {
        self.samples[x as usize]
    }
}

} // verus!
