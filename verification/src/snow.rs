//! Falling snow: transient point particles spawned at the top row, drifting
//! sideways by a bounded random walk, and culled once they leave the band.
//! Each tick runs cull, then advance, then spawn, in that order, so no
//! particle outlives its validity window and new flakes start at the top.

use vstd::prelude::*;
use vstd::seq_lib::group_seq_properties;

verus! {

use crate::is_snow_glyph;
use crate::rng::random_below;
use crate::rng::random_snowflake;

/// Densities are given in thousandths, so a whole probability is 1000.
pub const DENSITY_ONE: u32 = 1000;

#[derive(Clone, Copy)]
pub struct Snowflake {
    symbol: char,
    x: i32,
    y: u16,
}

impl Snowflake {
    pub closed spec fn spec_symbol(&self) -> char {
        self.symbol
    }

    pub closed spec fn spec_x(&self) -> i32 {
        self.x
    }

    pub closed spec fn spec_y(&self) -> u16 {
        self.y
    }

    pub open spec fn wf(&self) -> bool {
        is_snow_glyph(self.spec_symbol())
    }

    pub fn new(x: i32, y: u16) -> (s: Snowflake)
        ensures
            s.spec_x() == x,
            s.spec_y() == y,
            s.wf(),
    {
        Snowflake { symbol: random_snowflake(), x, y }
    }

    /// The flake's screen coordinate. The horizontal position is only
    /// meaningful while it is non-negative; a transiently negative one maps
    /// to an off-screen column, which every bounds-checked write drops.
    pub fn position(&self) -> (p: (u16, u16))
        ensures
            p.1 == self.spec_y(),
            0 <= self.spec_x() <= u16::MAX as i32 ==> p.0 as int == self.spec_x() as int,
    {
        (#[verifier::truncate] (self.x as u16), self.y)
    }

    pub fn symbol(&self) -> (c: char)
        ensures
            c == self.spec_symbol(),
    {
        self.symbol
    }

    /// The flake's column when it lies on the addressable strip, nothing
    /// when it has drifted off either side.
    pub fn column(&self) -> (c: Option<u16>)
        ensures
            match c {
                Option::Some(cx) => 0 <= self.spec_x() <= u16::MAX as i32 && cx as int
                    == self.spec_x() as int,
                Option::None => !(0 <= self.spec_x() <= u16::MAX as i32),
            },
    {
        if self.x >= 0 && self.x <= u16::MAX as i32 {
            Option::Some(self.x as u16)
        } else {
            Option::None
        }
    }
}

/// A flake is inside the band while its depth has not passed `height` and
/// its column lies in `[0, width]`, both ends included.
pub open spec fn flake_in_bounds(f: Snowflake, width: u16, height: u16) -> bool {
    &&& f.spec_y() <= height
    &&& 0 <= f.spec_x()
    &&& f.spec_x() <= width as i32
}

/// The test that picks the flakes of one depth.
pub open spec fn at_depth(y: u16) -> spec_fn(Snowflake) -> bool {
    |f: Snowflake| f.spec_y() == y
}

/// How many flakes sit at one depth.
pub open spec fn count_depth(s: Seq<Snowflake>, y: u16) -> int {
    s.filter(at_depth(y)).len() as int
}

/// No depth holds more flakes than the band has columns. A tick's spawns
/// put at most one flake on the top row per column, and every later tick
/// moves whole rows down together, so the bound persists.
pub open spec fn snow_cohorts_bounded(s: Seq<Snowflake>, width: u16) -> bool {
    forall|y: u16| #[trigger] count_depth(s, y) <= width as int
}

/// A list none of whose elements pass the test filters to nothing.
proof fn lemma_filter_none(s: Seq<Snowflake>, pred: spec_fn(Snowflake) -> bool)
    requires
        forall|i: int| 0 <= i < s.len() ==> !pred(#[trigger] s[i]),
    ensures
        s.filter(pred).len() == 0,
    decreases s.len(),
{
    reveal(Seq::filter);
    if s.len() > 0 {
        assert forall|i: int| 0 <= i < s.drop_last().len() implies !pred(
            #[trigger] s.drop_last()[i],
        ) by {
            assert(s.drop_last()[i] == s[i]);
        }
        lemma_filter_none(s.drop_last(), pred);
    }
}

/// Filtering an already filtered list keeps no more than filtering the
/// original directly.
proof fn lemma_filter_of_filter_le(
    s: Seq<Snowflake>,
    p: spec_fn(Snowflake) -> bool,
    q: spec_fn(Snowflake) -> bool,
)
    ensures
        s.filter(p).filter(q).len() <= s.filter(q).len(),
    decreases s.len(),
{
    reveal(Seq::filter);
    if s.len() > 0 {
        let d = s.drop_last();
        let l = s.last();
        lemma_filter_of_filter_le(d, p, q);
        if p(l) {
            assert(s.filter(p) == d.filter(p).push(l));
            assert(s.filter(p).drop_last() =~= d.filter(p));
            assert(s.filter(p).last() == l);
        } else {
            assert(s.filter(p) == d.filter(p));
        }
    }
}

/// Two lists of one length whose elements pass their tests in step have
/// filterings of one length.
proof fn lemma_filter_len_pointwise(
    s: Seq<Snowflake>,
    t: Seq<Snowflake>,
    p: spec_fn(Snowflake) -> bool,
    q: spec_fn(Snowflake) -> bool,
)
    requires
        s.len() == t.len(),
        forall|i: int| 0 <= i < s.len() ==> (p(#[trigger] s[i]) <==> q(#[trigger] t[i])),
    ensures
        s.filter(p).len() == t.filter(q).len(),
    decreases s.len(),
{
    reveal(Seq::filter);
    if s.len() > 0 {
        assert forall|i: int|
            0 <= i < s.drop_last().len() implies (p(#[trigger] s.drop_last()[i]) <==> q(
            #[trigger] t.drop_last()[i],
        )) by {
            assert(s.drop_last()[i] == s[i] && t.drop_last()[i] == t[i]);
        }
        lemma_filter_len_pointwise(s.drop_last(), t.drop_last(), p, q);
        assert(s.last() == s[s.len() - 1] && t.last() == t[t.len() - 1]);
    }
}

/// A list splits into what passes a test and what fails it.
proof fn lemma_filter_partition(
    s: Seq<Snowflake>,
    p: spec_fn(Snowflake) -> bool,
    np: spec_fn(Snowflake) -> bool,
)
    requires
        forall|i: int| 0 <= i < s.len() ==> (np(#[trigger] s[i]) <==> !p(s[i])),
    ensures
        s.filter(p).len() + s.filter(np).len() == s.len(),
    decreases s.len(),
{
    reveal(Seq::filter);
    if s.len() > 0 {
        assert forall|i: int|
            0 <= i < s.drop_last().len() implies (np(#[trigger] s.drop_last()[i]) <==> !p(
            s.drop_last()[i],
        )) by {
            assert(s.drop_last()[i] == s[i]);
        }
        lemma_filter_partition(s.drop_last(), p, np);
        assert(s.last() == s[s.len() - 1]);
    }
}

/// Whatever a filtering keeps was in the original list.
proof fn lemma_filter_membership(s: Seq<Snowflake>, pred: spec_fn(Snowflake) -> bool)
    ensures
        forall|i: int|
            0 <= i < s.filter(pred).len() ==> s.contains(#[trigger] s.filter(pred)[i]),
    decreases s.len(),
{
    reveal(Seq::filter);
    if s.len() > 0 {
        let d = s.drop_last();
        lemma_filter_membership(d, pred);
        assert forall|i: int| 0 <= i < s.filter(pred).len() implies s.contains(
            #[trigger] s.filter(pred)[i],
        ) by {
            let kept = s.filter(pred);
            if pred(s.last()) && i == d.filter(pred).len() {
                assert(kept[i] == s.last());
                assert(s[s.len() - 1] == s.last());
            } else {
                assert(kept[i] == d.filter(pred)[i]);
                assert(d.contains(d.filter(pred)[i]));
                let j = choose|j: int| 0 <= j < d.len() && d[j] == d.filter(pred)[i];
                assert(s[j] == d[j]);
            }
        }
    }
}

/// With every depth holding at most `width` flakes and every depth below
/// `m`, there are at most `m * width` flakes in all.
proof fn lemma_len_from_level_counts(s: Seq<Snowflake>, m: int, width: u16)
    requires
        0 <= m <= u16::MAX as int + 1,
        forall|y: u16| #[trigger] count_depth(s, y) <= width as int,
        forall|i: int| 0 <= i < s.len() ==> ((#[trigger] s[i]).spec_y() as int) < m,
    ensures
        s.len() <= m * width as int,
    decreases m,
{
    if m == 0 {
        if s.len() > 0 {
            assert((s[0].spec_y() as int) < 0);
        }
    } else {
        let top = (m - 1) as u16;
        let p = at_depth(top);
        let np = |f: Snowflake| f.spec_y() != top;
        assert forall|i: int| 0 <= i < s.len() implies (np(#[trigger] s[i]) <==> !p(s[i])) by {}
        lemma_filter_partition(s, p, np);
        assert(count_depth(s, top) <= width as int);
        let t = s.filter(np);
        assert forall|y: u16| #[trigger] count_depth(t, y) <= width as int by {
            lemma_filter_of_filter_le(s, np, at_depth(y));
            assert(count_depth(s, y) <= width as int);
        }
        lemma_filter_membership(s, np);
        assert forall|i: int| 0 <= i < t.len() implies ((#[trigger] t[i]).spec_y() as int) < m - 1 by {
            s.lemma_filter_pred(np, i);
            assert(s.contains(t[i]));
            let j = choose|j: int| 0 <= j < s.len() && s[j] == t[i];
            assert((s[j].spec_y() as int) < m);
        }
        lemma_len_from_level_counts(t, m - 1, width);
        assert((m - 1) * width as int + width as int == m * width as int) by (nonlinear_arith);
    }
}

/// The steady-state census: once no depth holds more flakes than the band
/// has columns, and every flake sits within one row of the band, the live
/// count cannot exceed `(height + 2) * width` — the depths one tick can
/// leave populated, times the spawns a row can take.
pub proof fn lemma_snow_count_steady(s: Seq<Snowflake>, width: u16, height: u16)
    requires
        height < u16::MAX,
        snow_cohorts_bounded(s, width),
        forall|i: int| 0 <= i < s.len() ==> (#[trigger] s[i]).spec_y() as int <= height as int + 1,
    ensures
        s.len() <= (height as int + 2) * width as int,
{
    lemma_len_from_level_counts(s, height as int + 2, width);
}

pub struct Snowfall {
    flakes: Vec<Snowflake>,
    width: u16,
    height: u16,
    flake_density: u32,
}

impl View for Snowfall {
    type V = Seq<Snowflake>;

    closed spec fn view(&self) -> Seq<Snowflake> {
        self.flakes@
    }
}

impl Snowfall {
    pub closed spec fn spec_width(&self) -> u16 {
        self.width
    }

    pub closed spec fn spec_height(&self) -> u16 {
        self.height
    }

    pub closed spec fn spec_density(&self) -> u32 {
        self.flake_density
    }

    pub open spec fn wf(&self) -> bool {
        &&& self.spec_density() <= DENSITY_ONE
        &&& forall|i: int| 0 <= i < self@.len() ==> (#[trigger] self@[i]).wf()
    }

    /// A fresh snowfall holds no flakes; the density is clamped to a whole
    /// probability.
    pub fn new(width: u16, height: u16, flake_density: u32) -> (s: Snowfall)
        ensures
            s.wf(),
            s@.len() == 0,
            s.spec_width() == width,
            s.spec_height() == height,
            s.spec_density() == if flake_density <= DENSITY_ONE {
                flake_density
            } else {
                DENSITY_ONE
            },
            snow_cohorts_bounded(s@, width),
    {
        let density = if flake_density <= DENSITY_ONE {
            flake_density
        } else {
            DENSITY_ONE
        };
        let s = Snowfall { flakes: Vec::new(), width, height, flake_density: density };
        proof {
            assert forall|y: u16| #[trigger] count_depth(s@, y) <= width as int by {
                s@.lemma_filter_len(at_depth(y));
            }
        }
        s
    }

    pub fn flakes(&self) -> (f: &Vec<Snowflake>)
        ensures
            f@ == self@,
    {
        &self.flakes
    }

    /// A uniformly random drift of one column: -1, 0 or +1.
    fn random_x() -> (r: i32)
        ensures
            -1 <= r <= 1,
    {
        let n = random_below(3);
        (n as i32) - 1
    }

    /// Decides one spawn. A zero density never spawns; a whole one always
    /// does.
    fn flake_chance(&self) -> (b: bool)
        ensures
            self.spec_density() == 0 ==> !b,
            self.spec_density() >= DENSITY_ONE ==> b,
    {
        let r = random_below(DENSITY_ONE);
        r < self.flake_density
    }

    /// Only the dimensions change on a resize; the live flakes are kept as
    /// they are and leave through the ordinary cull once out of bounds.
    pub fn update_dimensions(&mut self, width: u16, height: u16)
        ensures
            final(self)@ == old(self)@,
            final(self).spec_width() == width,
            final(self).spec_height() == height,
            final(self).spec_density() == old(self).spec_density(),
    {
        self.width = width;
        self.height = height;
    }

    /// Removes every flake that has left the band: what stays is exactly the
    /// in-bounds subsequence, in its original order.
    pub fn cull(&mut self)
        requires
            old(self).wf(),
        ensures
            final(self).wf(),
            final(self)@ == old(self)@.filter(
                |f: Snowflake| flake_in_bounds(f, old(self).spec_width(), old(self).spec_height()),
            ),
            forall|i: int|
                0 <= i < final(self)@.len() ==> flake_in_bounds(
                    #[trigger] final(self)@[i],
                    old(self).spec_width(),
                    old(self).spec_height(),
                ),
            final(self)@.len() <= old(self)@.len(),
            final(self).spec_width() == old(self).spec_width(),
            final(self).spec_height() == old(self).spec_height(),
            final(self).spec_density() == old(self).spec_density(),
    {
        broadcast use group_seq_properties;

        let ghost pred = |f: Snowflake|
            flake_in_bounds(f, old(self).spec_width(), old(self).spec_height());
        let mut kept: Vec<Snowflake> = Vec::new();
        let mut i: usize = 0;
        while i < self.flakes.len()
            invariant
                i <= self.flakes@.len(),
                self == old(self),
                kept@ == self.flakes@.take(i as int).filter(pred),
                old(self).wf(),
                forall|j: int| 0 <= j < kept@.len() ==> (#[trigger] kept@[j]).wf(),
                pred == (|f: Snowflake|
                    flake_in_bounds(f, old(self).spec_width(), old(self).spec_height())),
            decreases self.flakes@.len() - i,
        {
            let f = self.flakes[i];
            proof {
                assert(self.flakes@.take(i + 1).drop_last() =~= self.flakes@.take(i as int));
                assert(self.flakes@.take(i + 1).last() == f);
                reveal_with_fuel(Seq::filter, 2);
            }
            if f.y <= self.height && f.x >= 0 && f.x <= self.width as i32 {
                proof {
                    assert(f == old(self)@[i as int]);
                    assert(f.wf());
                }
                kept.push(f);
                proof {
                    assert(pred(f));
                    assert(kept@ =~= self.flakes@.take(i + 1).filter(pred));
                }
            } else {
                proof {
                    assert(!pred(f));
                    assert(kept@ =~= self.flakes@.take(i + 1).filter(pred));
                }
            }
            i = i + 1;
        }
        proof {
            assert(self.flakes@.take(self.flakes@.len() as int) =~= self.flakes@);
            old(self)@.lemma_filter_len(pred);
            assert forall|j: int| 0 <= j < kept@.len() implies flake_in_bounds(
                kept@[j],
                old(self).spec_width(),
                old(self).spec_height(),
            ) by {
                old(self)@.lemma_filter_pred(pred, j);
            }
        }
        self.flakes = kept;
    }

    /// Moves every flake one row down (saturating at the greatest depth) and
    /// one random step of at most one column sideways. Glyphs are kept.
    pub fn advance(&mut self)
        requires
            old(self).wf(),
        ensures
            final(self).wf(),
            final(self)@.len() == old(self)@.len(),
            forall|i: int|
                0 <= i < old(self)@.len() ==> {
                    &&& (#[trigger] final(self)@[i]).spec_symbol() == old(self)@[i].spec_symbol()
                    &&& final(self)@[i].spec_y() == if old(self)@[i].spec_y() < u16::MAX {
                        (old(self)@[i].spec_y() + 1) as u16
                    } else {
                        u16::MAX
                    }
                    &&& old(self)@[i].spec_x() - 1 <= final(self)@[i].spec_x() as int <= old(
                        self,
                    )@[i].spec_x() + 1
                },
            final(self).spec_width() == old(self).spec_width(),
            final(self).spec_height() == old(self).spec_height(),
            final(self).spec_density() == old(self).spec_density(),
    {
        let mut i: usize = 0;
        while i < self.flakes.len()
            invariant
                i <= self.flakes@.len(),
                self.flakes@.len() == old(self)@.len(),
                self.width == old(self).spec_width(),
                self.height == old(self).spec_height(),
                self.flake_density == old(self).spec_density(),
                forall|j: int| i as int <= j < old(self)@.len() ==> #[trigger] self.flakes@[j]
                    == old(self)@[j],
                forall|j: int| 0 <= j < old(self)@.len() ==> (#[trigger] old(self)@[j]).wf(),
                forall|j: int|
                    0 <= j < i as int ==> {
                        &&& (#[trigger] self.flakes@[j]).spec_symbol() == old(
                            self,
                        )@[j].spec_symbol()
                        &&& self.flakes@[j].spec_y() == if old(self)@[j].spec_y() < u16::MAX {
                            (old(self)@[j].spec_y() + 1) as u16
                        } else {
                            u16::MAX
                        }
                        &&& old(self)@[j].spec_x() - 1 <= self.flakes@[j].spec_x() as int <= old(
                            self,
                        )@[j].spec_x() + 1
                    },
            decreases self.flakes@.len() - i,
        {
            let mut f = self.flakes[i];
            f.y = if f.y < u16::MAX {
                f.y + 1
            } else {
                u16::MAX
            };
            let dx = Self::random_x();
            f.x = if dx < 0 {
                if f.x > i32::MIN {
                    f.x - 1
                } else {
                    f.x
                }
            } else if dx > 0 {
                if f.x < i32::MAX {
                    f.x + 1
                } else {
                    f.x
                }
            } else {
                f.x
            };
            self.flakes[i] = f;
            i = i + 1;
        }
    }

    /// Spawns at most one flake per column, each at the top row, deciding
    /// each column independently with the configured density.
    pub fn spawn(&mut self)
        requires
            old(self).wf(),
        ensures
            final(self).wf(),
            old(self)@.len() <= final(self)@.len() <= old(self)@.len() + old(
                self,
            ).spec_width() as int,
            final(self)@.take(old(self)@.len() as int) == old(self)@,
            forall|i: int|
                old(self)@.len() <= i < final(self)@.len() ==> {
                    &&& (#[trigger] final(self)@[i]).spec_y() == 0
                    &&& 0 <= final(self)@[i].spec_x() < old(self).spec_width() as i32
                    &&& final(self)@[i].wf()
                },
            old(self).spec_density() >= DENSITY_ONE ==> final(self)@.len() == old(self)@.len()
                + old(self).spec_width() as int,
            final(self).spec_width() == old(self).spec_width(),
            final(self).spec_height() == old(self).spec_height(),
            final(self).spec_density() == old(self).spec_density(),
    {
        let ghost orig = self.flakes@;
        let mut col: u16 = 0;
        while col < self.width
            invariant
                col <= self.spec_width(),
                self.width == old(self).spec_width(),
                self.height == old(self).spec_height(),
                self.flake_density == old(self).spec_density(),
                orig == old(self)@,
                orig.len() <= self.flakes@.len() <= orig.len() + col as int,
                self.flakes@.take(orig.len() as int) == orig,
                forall|j: int| 0 <= j < self.flakes@.len() ==> (#[trigger] self.flakes@[j]).wf(),
                forall|i: int|
                    orig.len() <= i < self.flakes@.len() ==> {
                        &&& (#[trigger] self.flakes@[i]).spec_y() == 0
                        &&& 0 <= self.flakes@[i].spec_x() < self.spec_width() as i32
                        &&& self.flakes@[i].wf()
                    },
                self.flake_density >= DENSITY_ONE ==> self.flakes@.len() == orig.len()
                    + col as int,
            decreases self.spec_width() - col,
        {
            if self.flake_chance() {
                self.flakes.push(Snowflake::new(col as i32, 0));
                proof {
                    assert(self.flakes@.take(orig.len() as int) =~= orig);
                }
            }
            col = col + 1;
        }
    }

    /// One animation tick: cull the stale flakes, move the survivors, then
    /// spawn new ones — in that order. The contract maps the whole step:
    /// the in-bounds survivors come first, each one row deeper, within one
    /// column of drift, glyph kept; behind them stand this tick's spawns,
    /// every one on the top row in a real column, at most one per column.
    pub fn update_snowflakes(&mut self)
        requires
            old(self).wf(),
        ensures
            final(self).wf(),
            ({
                let kept = old(self)@.filter(
                    |f: Snowflake|
                        flake_in_bounds(f, old(self).spec_width(), old(self).spec_height()),
                );
                &&& kept.len() <= final(self)@.len() <= kept.len() + old(
                    self,
                ).spec_width() as int
                &&& forall|i: int|
                    0 <= i < kept.len() ==> {
                        &&& (#[trigger] final(self)@[i]).spec_symbol() == kept[i].spec_symbol()
                        &&& final(self)@[i].spec_y() == if kept[i].spec_y() < u16::MAX {
                            (kept[i].spec_y() + 1) as u16
                        } else {
                            u16::MAX
                        }
                        &&& kept[i].spec_x() - 1 <= final(self)@[i].spec_x() as int <= kept[
                            i
                        ].spec_x() + 1
                    }
                &&& forall|i: int|
                    kept.len() <= i < final(self)@.len() ==> {
                        &&& (#[trigger] final(self)@[i]).spec_y() == 0
                        &&& 0 <= final(self)@[i].spec_x() < old(self).spec_width() as i32
                    }
                &&& (old(self).spec_density() >= DENSITY_ONE ==> final(self)@.len() == kept.len()
                    + old(self).spec_width() as int)
            }),
            final(self)@.len() <= old(self)@.len() + old(self).spec_width() as int,
            forall|i: int|
                0 <= i < final(self)@.len() ==> {
                    &&& (#[trigger] final(self)@[i]).spec_y() as int <= old(
                        self,
                    ).spec_height() as int + 1
                    &&& -1 <= final(self)@[i].spec_x() as int <= old(self).spec_width() as int + 1
                },
            count_depth(final(self)@, 0) <= old(self).spec_width() as int,
            old(self).spec_height() < u16::MAX && snow_cohorts_bounded(
                old(self)@,
                old(self).spec_width(),
            ) ==> snow_cohorts_bounded(final(self)@, old(self).spec_width()),
            final(self).spec_width() == old(self).spec_width(),
            final(self).spec_height() == old(self).spec_height(),
            final(self).spec_density() == old(self).spec_density(),
    {
        let ghost pred = |f: Snowflake|
            flake_in_bounds(f, old(self).spec_width(), old(self).spec_height());
        proof {
            old(self)@.lemma_filter_len(pred);
        }
        self.cull();
        let ghost culled = self@;
        self.advance();
        let ghost advanced = self@;
        self.spawn();
        let ghost spawns = self@.skip(advanced.len() as int);
        proof {
            let width = old(self).spec_width();
            assert(self@.take(advanced.len() as int) == advanced);
            assert(self@ =~= advanced + spawns);

            // the survivor prefix carries each culled flake one row down
            assert forall|i: int| 0 <= i < culled.len() implies {
                &&& (#[trigger] self@[i]).spec_symbol() == culled[i].spec_symbol()
                &&& self@[i].spec_y() == if culled[i].spec_y() < u16::MAX {
                    (culled[i].spec_y() + 1) as u16
                } else {
                    u16::MAX
                }
                &&& culled[i].spec_x() - 1 <= self@[i].spec_x() as int <= culled[i].spec_x() + 1
            } by {
                assert(self@[i] == self@.take(advanced.len() as int)[i]);
                assert(self@[i] == advanced[i]);
                assert(advanced[i].spec_symbol() == culled[i].spec_symbol());
            }

            // the whole tick stays within one step of the band
            assert forall|i: int| 0 <= i < self@.len() implies {
                &&& (#[trigger] self@[i]).spec_y() as int <= old(self).spec_height() as int + 1
                &&& -1 <= self@[i].spec_x() as int <= old(self).spec_width() as int + 1
            } by {
                if i < advanced.len() {
                    assert(self@[i] == self@.take(advanced.len() as int)[i]);
                    assert(self@[i] == advanced[i]);
                    assert(advanced[i].spec_symbol() == culled[i].spec_symbol());
                }
            }

            // only the spawns sit on the top row, and they number at most
            // one per column
            assert forall|i: int| 0 <= i < advanced.len() implies !(at_depth(0)(
            #[trigger] advanced[i])) by {
                assert(advanced[i].spec_symbol() == culled[i].spec_symbol());
            }
            lemma_filter_none(advanced, at_depth(0));
            Seq::filter_distributes_over_add(advanced, spawns, at_depth(0));
            spawns.lemma_filter_len(at_depth(0));
            assert(count_depth(self@, 0) <= width as int);

            // one tick keeps every depth's census bounded by the width
            if old(self).spec_height() < u16::MAX && snow_cohorts_bounded(old(self)@, width) {
                assert forall|y: u16| #[trigger] count_depth(culled, y) <= width as int by {
                    lemma_filter_of_filter_le(old(self)@, pred, at_depth(y));
                    assert(count_depth(old(self)@, y) <= width as int);
                }
                assert forall|y: u16| #[trigger] count_depth(advanced, y) <= width as int by {
                    if y == 0 {
                        assert(count_depth(advanced, 0) == 0);
                    } else {
                        assert forall|i: int| 0 <= i < advanced.len() implies (at_depth(y)(
                        #[trigger] advanced[i]) <==> at_depth((y - 1) as u16)(
                        #[trigger] culled[i])) by {
                            assert(flake_in_bounds(culled[i], width, old(self).spec_height()));
                            assert(advanced[i].spec_y() == culled[i].spec_y() + 1);
                        }
                        lemma_filter_len_pointwise(
                            advanced,
                            culled,
                            at_depth(y),
                            at_depth((y - 1) as u16),
                        );
                        assert(count_depth(culled, (y - 1) as u16) <= width as int);
                    }
                }
                assert forall|y: u16| #[trigger] count_depth(self@, y) <= width as int by {
                    Seq::filter_distributes_over_add(advanced, spawns, at_depth(y));
                    if y != 0 {
                        assert forall|i: int| 0 <= i < spawns.len() implies !(at_depth(y)(
                        #[trigger] spawns[i])) by {
                            assert(spawns[i] == self@[advanced.len() + i]);
                            assert(self@[advanced.len() + i].spec_y() == 0);
                        }
                        lemma_filter_none(spawns, at_depth(y));
                        assert(count_depth(advanced, y) <= width as int);
                    }
                }
            }
        }
    }
}

} // verus!
