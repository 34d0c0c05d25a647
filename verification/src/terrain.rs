//! The terrain as a whole: ground band, hills and snowfall under one
//! owner, all sharing the same dimensions within a generation, plus the
//! extrema search that placement builds on.

use vstd::prelude::*;

verus! {

use crate::ground::Ground;
use crate::hills::Hills;
use crate::hills::lemma_column_height_monotone;
use crate::snow::Snowfall;
use crate::snow::Snowflake;
use crate::snow::count_depth;
use crate::snow::flake_in_bounds;
use crate::snow::snow_cohorts_bounded;

/// The hills' blend amplitude, in thousandths.
pub const AMPLITUDE_MILLI: u32 = 600;

/// The snowfall density, in thousandths: the chance of a spawn per column
/// and tick.
pub const DENSITY_MILLI: u32 = 150;

/// The terrain band takes three tenths of the screen height.
pub open spec fn spec_band_height(screen_height: int) -> int {
    screen_height * 3 / 10
}

/// The first column holding the greatest sample: every column is at most
/// as high, and every earlier one strictly lower.
pub open spec fn is_first_max(s: Seq<i64>, i: int) -> bool {
    &&& 0 <= i < s.len()
    &&& forall|j: int| 0 <= j < s.len() ==> s[j] <= s[i]
    &&& forall|j: int| 0 <= j < i ==> s[j] < s[i]
}

/// The first column holding the least sample.
pub open spec fn is_first_min(s: Seq<i64>, i: int) -> bool {
    &&& 0 <= i < s.len()
    &&& forall|j: int| 0 <= j < s.len() ==> s[j] >= s[i]
    &&& forall|j: int| 0 <= j < i ==> s[j] > s[i]
}

/// The index the maximum search answers, defined by recursion on the
/// columns: a strictly greater sample moves the winner, a tie keeps the
/// earlier column.
pub open spec fn first_max_index(s: Seq<i64>) -> int
    decreases s.len(),
{
    if s.len() <= 1 {
        0
    } else {
        let r = first_max_index(s.drop_last());
        if s.last() > s[r] {
            s.len() - 1
        } else {
            r
        }
    }
}

/// The index the minimum search answers, ties kept on the earlier column.
pub open spec fn first_min_index(s: Seq<i64>) -> int
    decreases s.len(),
{
    if s.len() <= 1 {
        0
    } else {
        let r = first_min_index(s.drop_last());
        if s.last() < s[r] {
            s.len() - 1
        } else {
            r
        }
    }
}

/// `first_max_index` names the one column `is_first_max` describes.
pub proof fn lemma_first_max_index(s: Seq<i64>)
    requires
        s.len() > 0,
    ensures
        is_first_max(s, first_max_index(s)),
    decreases s.len(),
{
    if s.len() > 1 {
        lemma_first_max_index(s.drop_last());
        assert forall|j: int| 0 <= j < s.len() implies #[trigger] s[j] <= s[first_max_index(s)] by {
            if j < s.len() - 1 {
                assert(s.drop_last()[j] == s[j]);
            }
        }
        assert forall|j: int| 0 <= j < first_max_index(s) implies #[trigger] s[j] < s[first_max_index(s)] by {
            if j < s.len() - 1 {
                assert(s.drop_last()[j] == s[j]);
            }
        }
    }
}

/// `first_min_index` names the one column `is_first_min` describes.
pub proof fn lemma_first_min_index(s: Seq<i64>)
    requires
        s.len() > 0,
    ensures
        is_first_min(s, first_min_index(s)),
    decreases s.len(),
{
    if s.len() > 1 {
        lemma_first_min_index(s.drop_last());
        assert forall|j: int| 0 <= j < s.len() implies #[trigger] s[j] >= s[first_min_index(s)] by {
            if j < s.len() - 1 {
                assert(s.drop_last()[j] == s[j]);
            }
        }
        assert forall|j: int| 0 <= j < first_min_index(s) implies #[trigger] s[j] > s[first_min_index(s)] by {
            if j < s.len() - 1 {
                assert(s.drop_last()[j] == s[j]);
            }
        }
    }
}

/// Only one column can be the first maximum, and likewise the first
/// minimum: the searches' answers are fully determined.
pub proof fn lemma_first_extremum_unique(s: Seq<i64>, i: int, j: int)
    requires
        is_first_max(s, i) && is_first_max(s, j) || is_first_min(s, i) && is_first_min(s, j),
    ensures
        i == j,
{
    if i < j {
        assert(s[i] <= s[j] && s[i] >= s[j]);
    }
    if j < i {
        assert(s[j] <= s[i] && s[j] >= s[i]);
    }
}

pub struct TerrainManager {
    ground: Ground,
    hills: Hills,
    snowfall: Snowfall,
}

impl TerrainManager {
    pub closed spec fn spec_ground(&self) -> Ground {
        self.ground
    }

    pub closed spec fn spec_hills(&self) -> Hills {
        self.hills
    }

    pub closed spec fn spec_snowfall(&self) -> Snowfall {
        self.snowfall
    }

    /// All three layers are well formed and observe the same dimensions:
    /// one width everywhere, one band height for ground, hills and the
    /// snowfall's culling bound.
    pub open spec fn wf(&self) -> bool {
        &&& self.spec_ground().wf()
        &&& self.spec_hills().wf()
        &&& self.spec_snowfall().wf()
        &&& self.spec_hills().spec_width() == self.spec_ground().spec_width()
        &&& self.spec_snowfall().spec_width() == self.spec_ground().spec_width()
        &&& self.spec_hills().spec_height() == self.spec_ground().spec_height()
        &&& self.spec_snowfall().spec_height() == self.spec_ground().spec_height()
        &&& self.spec_ground().spec_height() as int <= spec_band_height(u16::MAX as int)
    }

    /// A fresh terrain for a `width * height` screen: ground and hills over
    /// the band, one noise sample per column, and an empty snowfall.
    pub fn new(width: u16, height: u16, samples: Vec<i64>) -> (t: TerrainManager)
        requires
            samples@.len() == width as int,
        ensures
            t.wf(),
            t.spec_ground().spec_width() == width,
            t.spec_ground().spec_height() as int == spec_band_height(height as int),
            t.spec_hills().spec_samples() == samples@,
            t.spec_hills().spec_amplitude() == AMPLITUDE_MILLI,
            t.spec_snowfall()@.len() == 0,
            t.spec_snowfall().spec_density() == DENSITY_MILLI,
    {
        let terrain_height = Self::calc_terrain_height(height);
        TerrainManager {
            ground: Ground::new(width, terrain_height),
            hills: Hills::new(width, terrain_height, AMPLITUDE_MILLI, samples),
            snowfall: Snowfall::new(width, terrain_height, DENSITY_MILLI),
        }
    }

    /// Three tenths of the screen height, rounded down.
    fn calc_terrain_height(screen_height: u16) -> (h: u16)
        ensures
            h as int == spec_band_height(screen_height as int),
            h as int <= spec_band_height(u16::MAX as int),
    {
        ((screen_height as u32) * 3 / 10) as u16
    }

    /// The combined terrain height: the ground band plus the hill band.
    pub fn height(&self) -> (h: u16)
        requires
            self.wf(),
        ensures
            h as int == self.spec_ground().spec_height() as int
                + self.spec_hills().spec_height() as int,
    {
        self.ground.height() + self.hills.height()
    }

    pub fn hills(&self) -> (h: &Hills)
        ensures
            *h == self.spec_hills(),
    {
        &self.hills
    }

    pub fn snowflakes(&self) -> (f: &Vec<Snowflake>)
        ensures
            f@ == self.spec_snowfall()@,
    {
        self.snowfall.flakes()
    }

    /// Replaces the whole terrain for the given screen, from a fresh set of
    /// samples: the counterpart of seeding a new noise source.
    pub fn regenerate(&mut self, width: u16, height: u16, samples: Vec<i64>)
        requires
            samples@.len() == width as int,
        ensures
            final(self).wf(),
            final(self).spec_ground().spec_width() == width,
            final(self).spec_ground().spec_height() as int == spec_band_height(height as int),
            final(self).spec_hills().spec_samples() == samples@,
            final(self).spec_hills().spec_amplitude() == AMPLITUDE_MILLI,
            final(self).spec_snowfall()@.len() == 0,
            final(self).spec_snowfall().spec_density() == DENSITY_MILLI,
    {
        let terrain_height = Self::calc_terrain_height(height);
        self.ground = Ground::new(width, terrain_height);
        self.hills = Hills::new(width, terrain_height, AMPLITUDE_MILLI, samples);
        self.snowfall = Snowfall::new(width, terrain_height, DENSITY_MILLI);
    }

    /// Resizes every layer to the new screen without replacing the snow:
    /// the ground keeps its surviving prefix, the hills are recomputed from
    /// the samples given (the same source's samples make this a plain
    /// resize), and the live flakes are kept for the cull to sort out.
    pub fn update_dimensions(&mut self, width: u16, height: u16, samples: Vec<i64>)
        requires
            old(self).wf(),
            samples@.len() == width as int,
        ensures
            final(self).wf(),
            final(self).spec_ground().spec_width() == width,
            final(self).spec_ground().spec_height() as int == spec_band_height(height as int),
            final(self).spec_hills().spec_samples() == samples@,
            final(self).spec_hills().spec_amplitude() == old(self).spec_hills().spec_amplitude(),
            final(self).spec_snowfall()@ == old(self).spec_snowfall()@,
            final(self).spec_snowfall().spec_density() == old(
                self,
            ).spec_snowfall().spec_density(),
            ({
                let n = width as int * spec_band_height(height as int);
                if n <= old(self).spec_ground()@.len() {
                    final(self).spec_ground()@ == old(self).spec_ground()@.take(n)
                } else {
                    final(self).spec_ground()@.take(old(self).spec_ground()@.len() as int) == old(
                        self,
                    ).spec_ground()@
                }
            }),
    {
        let terrain_height = Self::calc_terrain_height(height);
        self.ground.update_dimensions(width, terrain_height);
        self.hills.update_dimensions(width, terrain_height, samples);
        self.snowfall.update_dimensions(width, terrain_height);
    }

    /// One snow tick: cull, advance, spawn, leaving ground and hills
    /// alone. The snowfall's whole tick mapping is passed through: the
    /// in-bounds survivors come first, advanced one row, then this tick's
    /// spawns on the top row.
    pub fn update_snow(&mut self)
        requires
            old(self).wf(),
        ensures
            final(self).wf(),
            final(self).spec_ground() == old(self).spec_ground(),
            final(self).spec_hills() == old(self).spec_hills(),
            ({
                let kept = old(self).spec_snowfall()@.filter(
                    |f: Snowflake|
                        flake_in_bounds(
                            f,
                            old(self).spec_snowfall().spec_width(),
                            old(self).spec_snowfall().spec_height(),
                        ),
                );
                &&& kept.len() <= final(self).spec_snowfall()@.len() <= kept.len() + old(
                    self,
                ).spec_snowfall().spec_width() as int
                &&& forall|i: int|
                    0 <= i < kept.len() ==> {
                        &&& (#[trigger] final(self).spec_snowfall()@[i]).spec_symbol() == kept[
                            i
                        ].spec_symbol()
                        &&& final(self).spec_snowfall()@[i].spec_y() == if kept[i].spec_y()
                            < u16::MAX {
                            (kept[i].spec_y() + 1) as u16
                        } else {
                            u16::MAX
                        }
                        &&& kept[i].spec_x() - 1 <= final(self).spec_snowfall()@[i].spec_x() as int
                            <= kept[i].spec_x() + 1
                    }
                &&& forall|i: int|
                    kept.len() <= i < final(self).spec_snowfall()@.len() ==> {
                        &&& (#[trigger] final(self).spec_snowfall()@[i]).spec_y() == 0
                        &&& 0 <= final(self).spec_snowfall()@[i].spec_x() < old(
                            self,
                        ).spec_snowfall().spec_width() as i32
                    }
                &&& (old(self).spec_snowfall().spec_density() >= crate::snow::DENSITY_ONE
                    ==> final(self).spec_snowfall()@.len() == kept.len() + old(
                        self,
                    ).spec_snowfall().spec_width() as int)
            }),
            final(self).spec_snowfall()@.len() <= old(self).spec_snowfall()@.len() + old(
                self,
            ).spec_snowfall().spec_width() as int,
            count_depth(final(self).spec_snowfall()@, 0) <= old(
                self,
            ).spec_snowfall().spec_width() as int,
            old(self).spec_snowfall().spec_height() < u16::MAX && snow_cohorts_bounded(
                old(self).spec_snowfall()@,
                old(self).spec_snowfall().spec_width(),
            ) ==> snow_cohorts_bounded(
                final(self).spec_snowfall()@,
                old(self).spec_snowfall().spec_width(),
            ),
            forall|i: int|
                0 <= i < final(self).spec_snowfall()@.len() ==> {
                    &&& (#[trigger] final(self).spec_snowfall()@[i]).spec_y() as int <= old(
                        self,
                    ).spec_snowfall().spec_height() as int + 1
                    &&& -1 <= final(self).spec_snowfall()@[i].spec_x() as int <= old(
                        self,
                    ).spec_snowfall().spec_width() as int + 1
                },
            final(self).spec_snowfall().spec_width() == old(self).spec_snowfall().spec_width(),
            final(self).spec_snowfall().spec_height() == old(self).spec_snowfall().spec_height(),
            final(self).spec_snowfall().spec_density() == old(
                self,
            ).spec_snowfall().spec_density(),
    {
        self.snowfall.update_snowflakes()
    }

    pub fn ground_height(&self) -> (h: u16)
        ensures
            h == self.spec_ground().spec_height(),
    {
        self.ground.height()
    }

    pub fn ground_content(&self) -> (c: &Vec<char>)
        ensures
            c@ == self.spec_ground()@,
    {
        self.ground.content()
    }

    pub fn hills_content(&self) -> (c: &Vec<Vec<char>>)
        ensures
            c.deep_view() == self.spec_hills().spec_content(),
    {
        self.hills.content()
    }

    /// The first column whose raw sample is the greatest, with its display
    /// height. An empty terrain answers the origin.
    pub fn get_highest_point(&self) -> (p: (u16, u16))
        requires
            self.wf(),
        ensures
            self.spec_hills().spec_width() == 0 ==> p == (0u16, 0u16),
            self.spec_hills().spec_width() > 0 ==> is_first_max(
                self.spec_hills().spec_samples(),
                p.0 as int,
            ) && p.0 as int == first_max_index(self.spec_hills().spec_samples()),
            p.1 as int == self.spec_hills().spec_display_height(p.0 as int),
    {
        let w = self.hills.width();
        if w == 0 {
            return (0, 0);
        }
        let mut best: u16 = 0;
        let mut best_v: i64 = self.hills.real_height(0);
        let mut x: u16 = 1;
        while x < w
            invariant
                self.wf(),
                w == self.spec_hills().spec_width(),
                1 <= x <= w,
                best < x,
                best_v == self.spec_hills().spec_samples()[best as int],
                forall|j: int|
                    0 <= j < x as int ==> self.spec_hills().spec_samples()[j] <= best_v,
                forall|j: int|
                    0 <= j < best as int ==> self.spec_hills().spec_samples()[j] < best_v,
            decreases w - x,
        {
            let v = self.hills.real_height(x);
            if v > best_v {
                best = x;
                best_v = v;
            }
            x = x + 1;
        }
        proof {
            let s = self.spec_hills().spec_samples();
            lemma_first_max_index(s);
            lemma_first_extremum_unique(s, best as int, first_max_index(s));
        }
        (best, self.hills.display_height(best))
    }

    /// The first column whose raw sample is the least, with its display
    /// height. An empty terrain answers the origin.
    pub fn get_lowest_point(&self) -> (p: (u16, u16))
        requires
            self.wf(),
        ensures
            self.spec_hills().spec_width() == 0 ==> p == (0u16, 0u16),
            self.spec_hills().spec_width() > 0 ==> is_first_min(
                self.spec_hills().spec_samples(),
                p.0 as int,
            ) && p.0 as int == first_min_index(self.spec_hills().spec_samples()),
            p.1 as int == self.spec_hills().spec_display_height(p.0 as int),
    {
        let w = self.hills.width();
        if w == 0 {
            return (0, 0);
        }
        let mut best: u16 = 0;
        let mut best_v: i64 = self.hills.real_height(0);
        let mut x: u16 = 1;
        while x < w
            invariant
                self.wf(),
                w == self.spec_hills().spec_width(),
                1 <= x <= w,
                best < x,
                best_v == self.spec_hills().spec_samples()[best as int],
                forall|j: int|
                    0 <= j < x as int ==> self.spec_hills().spec_samples()[j] >= best_v,
                forall|j: int|
                    0 <= j < best as int ==> self.spec_hills().spec_samples()[j] > best_v,
            decreases w - x,
        {
            let v = self.hills.real_height(x);
            if v < best_v {
                best = x;
                best_v = v;
            }
            x = x + 1;
        }
        proof {
            let s = self.spec_hills().spec_samples();
            lemma_first_min_index(s);
            lemma_first_extremum_unique(s, best as int, first_min_index(s));
        }
        (best, self.hills.display_height(best))
    }
}

/// At the extrema the display heights follow the raw order: the column of
/// the greatest sample never shows fewer glyphs than the column of the
/// least one, since the whole height pipeline is monotone.
pub proof fn lemma_extrema_display_order(t: &TerrainManager, hi: int, lo: int)
    requires
        t.wf(),
        is_first_max(t.spec_hills().spec_samples(), hi),
        is_first_min(t.spec_hills().spec_samples(), lo),
    ensures
        t.spec_hills().spec_display_height(hi) >= t.spec_hills().spec_display_height(lo),
{
    let s = t.spec_hills().spec_samples();
    assert(s[lo] <= s[hi]);
    lemma_column_height_monotone(
        t.spec_hills().spec_height() as int,
        s[lo] as int,
        s[hi] as int,
        t.spec_hills().spec_amplitude() as int,
        t.spec_hills().spec_offset() as int,
    );
}

} // verus!
