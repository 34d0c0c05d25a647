//! The decorative objects: their sprites, their geometry, and the
//! placement that anchors them at the terrain's extrema — the snowman at
//! the lowest column, the tree at the highest. Placement runs once per
//! generation and is idempotent until a reset.

use vstd::prelude::*;

verus! {

use crate::renderer::Renderer;
use crate::terrain::TerrainManager;
use crate::terrain::first_max_index;
use crate::terrain::first_min_index;

/// The glyph that marks empty space inside a sprite: it is skipped when
/// compositing, so sprites do not blank out the terrain around them.
pub const TRANSPARENT: char = '#';

pub const SNOWMAN_SPRITE: &'static str = "##_==_#_\n_,(\",)|_|\n#\\/. \\-|\n#( :  )|";

pub const TREE_SPRITE: &'static str = "########\\/#|####|/\n######\\/#/#\\||/##/_/___/_\n#######\\/###|/#\\/,\n##_\\__\\_\\###|##/_____/_\n#########\\##|#/##########/\n__#_-----`##|{,-----------~\n##########\\#}{\n###########}{{\n###########}}{\n###########{{}\n########,=~{}{-_";

pub const HOUSE_SPRITE: &'static str = "#######`'::.\n##_________H\n#/\\#####_###\\\n/##\\___/^\\___\\\n|##|#[]###[]#|\n|##|###.-.###|\n@._|@@_|||_@@|";

#[derive(Clone, Copy, Debug, PartialEq, Eq, Hash)]
pub enum ObjectType {
    Snowman,
    Tree,
    House,
}

/// The sprite text of each object, rows separated by newlines.
pub closed spec fn spec_sprite(o: ObjectType) -> Seq<char> {
    match o {
        ObjectType::Snowman => SNOWMAN_SPRITE@,
        ObjectType::Tree => TREE_SPRITE@,
        ObjectType::House => HOUSE_SPRITE@,
    }
}

/// The nominal width of each object, in cells.
pub open spec fn spec_object_width(o: ObjectType) -> u16 {
    match o {
        ObjectType::Snowman => 9,
        ObjectType::Tree => 24,
        ObjectType::House => 14,
    }
}

/// The nominal height of each object, in rows.
pub open spec fn spec_object_height(o: ObjectType) -> u16 {
    match o {
        ObjectType::Snowman => 4,
        ObjectType::Tree => 11,
        ObjectType::House => 7,
    }
}

impl ObjectType {
    pub fn content(&self) -> (s: &'static str)
        ensures
            s@ == spec_sprite(*self),
    {
        match self {
            ObjectType::Snowman => SNOWMAN_SPRITE,
            ObjectType::Tree => TREE_SPRITE,
            ObjectType::House => HOUSE_SPRITE,
        }
    }

    pub fn width(&self) -> (w: u16)
        ensures
            w == spec_object_width(*self),
    {
        match self {
            ObjectType::Snowman => 9,
            ObjectType::Tree => 24,
            ObjectType::House => 14,
        }
    }

    pub fn height(&self) -> (h: u16)
        ensures
            h == spec_object_height(*self),
    {
        match self {
            ObjectType::Snowman => 4,
            ObjectType::Tree => 11,
            ObjectType::House => 7,
        }
    }

    /// The horizontal anchor offset: half the object's width, so the
    /// object is centred on its extremum column.
    pub fn offset(&self) -> (o: u16)
        ensures
            o == spec_object_width(*self) / 2,
    {
        self.width() / 2
    }
}

/// The line splitter, step by step: glyphs accumulate into the current
/// row, a newline closes it, and a non-empty trailing row closes at the
/// end of the text.
pub open spec fn lines_acc(s: Seq<char>, i: int, cur: Seq<char>, out: Seq<Seq<char>>) -> Seq<
    Seq<char>,
>
    decreases s.len() - i,
{
    if i < 0 || i >= s.len() {
        if cur.len() > 0 {
            out.push(cur)
        } else {
            out
        }
    } else if s[i] == '\n' {
        lines_acc(s, i + 1, Seq::empty(), out.push(cur))
    } else {
        lines_acc(s, i + 1, cur.push(s[i]), out)
    }
}

/// A text split into its rows at newlines; a trailing newline closes the
/// last row without opening an empty one.
pub open spec fn spec_lines(s: Seq<char>) -> Seq<Seq<char>> {
    lines_acc(s, 0, Seq::empty(), Seq::empty())
}

/// Splits a sprite's text into rows of glyphs.
pub fn sprite_lines(s: &str) -> (rows: Vec<Vec<char>>)
    ensures
        rows.deep_view() == spec_lines(s@),
{
    let n = s.unicode_len();
    let mut rows: Vec<Vec<char>> = Vec::new();
    let mut cur: Vec<char> = Vec::new();
    let mut i: usize = 0;
    proof {
        assert(rows.deep_view() =~= Seq::<Seq<char>>::empty());
    }
    while i < n
        invariant
            i <= n,
            n == s@.len(),
            spec_lines(s@) == lines_acc(s@, i as int, cur@, rows.deep_view()),
        decreases n - i,
    {
        let c = s.get_char(i);
        let ghost prev_rows = rows.deep_view();
        let ghost prev_cur = cur@;
        if c == '\n' {
            rows.push(cur);
            cur = Vec::new();
            proof {
                assert(rows.deep_view() =~~= prev_rows.push(prev_cur));
            }
        } else {
            cur.push(c);
        }
        i = i + 1;
    }
    let ghost prev_rows = rows.deep_view();
    let ghost prev_cur = cur@;
    if cur.len() > 0 {
        rows.push(cur);
        proof {
            assert(rows.deep_view() =~~= prev_rows.push(prev_cur));
        }
    }
    rows
}

/// A subtraction that stops at zero instead of wrapping: the rule every
/// screen-space computation follows here.
pub open spec fn spec_sat_sub(a: int, b: int) -> int {
    if a >= b {
        a - b
    } else {
        0
    }
}

/// A sprite's anchor row: the row just above ground band and hill column,
/// clamped to the screen.
pub open spec fn spec_anchor_y(screen_h: int, ground_h: int, hill_h: int) -> int {
    spec_sat_sub(spec_sat_sub(screen_h, ground_h), hill_h)
}

/// The anchors one placement computes: the snowman centred on the lowest
/// column, the tree centred on the highest, each resting on the terrain
/// surface at its column.
pub open spec fn spec_anchors(t: TerrainManager, screen_h: u16) -> Seq<(ObjectType, (u16, u16))> {
    let s = t.spec_hills().spec_samples();
    let lo = if s.len() == 0 {
        0
    } else {
        first_min_index(s)
    };
    let hi = if s.len() == 0 {
        0
    } else {
        first_max_index(s)
    };
    let g = t.spec_ground().spec_height() as int;
    let lo_h = t.spec_hills().spec_display_height(lo);
    let hi_h = t.spec_hills().spec_display_height(hi);
    seq![
        (
            ObjectType::Snowman,
            (
                spec_sat_sub(lo, spec_object_width(ObjectType::Snowman) as int / 2) as u16,
                spec_anchor_y(screen_h as int, g, lo_h) as u16,
            ),
        ),
        (
            ObjectType::Tree,
            (
                spec_sat_sub(hi, spec_object_width(ObjectType::Tree) as int / 2) as u16,
                spec_anchor_y(screen_h as int, g, hi_h) as u16,
            ),
        ),
    ]
}

/// What one placement call does to the cached state: an unplaced manager
/// takes the computed anchors, a placed one keeps what it has.
pub open spec fn spec_place_transition(
    state: Option<Seq<(ObjectType, (u16, u16))>>,
    anchors: Seq<(ObjectType, (u16, u16))>,
) -> Option<Seq<(ObjectType, (u16, u16))>> {
    match state {
        Option::None => Option::Some(anchors),
        Option::Some(v) => Option::Some(v),
    }
}

/// Placement is idempotent: a second run without a reset in between
/// leaves exactly the anchors of the first.
pub proof fn lemma_place_idempotent(
    state: Option<Seq<(ObjectType, (u16, u16))>>,
    anchors: Seq<(ObjectType, (u16, u16))>,
)
    ensures
        spec_place_transition(spec_place_transition(state, anchors), anchors)
            == spec_place_transition(state, anchors),
{
}

/// The anchors after a reposition: each object keeps its column, and its
/// row is recomputed from the hill height at that column.
pub open spec fn spec_repositioned(
    v: Seq<(ObjectType, (u16, u16))>,
    t: TerrainManager,
    screen_h: u16,
) -> Seq<(ObjectType, (u16, u16))> {
    Seq::new(
        v.len(),
        |i: int|
            (
                v[i].0,
                (
                    v[i].1.0,
                    spec_anchor_y(
                        screen_h as int,
                        t.spec_ground().spec_height() as int,
                        t.spec_hills().spec_display_height(v[i].1.0 as int),
                    ) as u16,
                ),
            ),
    )
}

/// The placement cache: either nothing has been placed since the last
/// reset, or the anchors of one placement run are held.
pub enum Placement {
    Unplaced,
    Placed(Vec<(ObjectType, (u16, u16))>),
}

pub struct ObjectManager {
    state: Placement,
}

impl ObjectManager {
    /// The cached anchors, or nothing before the first placement.
    pub closed spec fn spec_state(&self) -> Option<Seq<(ObjectType, (u16, u16))>> {
        match self.state {
            Placement::Unplaced => Option::None,
            Placement::Placed(v) => Option::Some(v@),
        }
    }

    /// The anchors as a sequence: empty before the first placement.
    pub open spec fn spec_positions(&self) -> Seq<(ObjectType, (u16, u16))> {
        match self.spec_state() {
            Option::None => Seq::empty(),
            Option::Some(v) => v,
        }
    }

    pub fn new() -> (m: ObjectManager)
        ensures
            m.spec_state() is None,
    {
        ObjectManager { state: Placement::Unplaced }
    }

    /// Forgets the cached anchors, so the next placement recomputes them.
    pub fn reset(&mut self)
        ensures
            final(self).spec_state() is None,
    {
        self.state = Placement::Unplaced;
    }

    /// Computes the anchors once: a manager that already holds anchors is
    /// left exactly as it is, so placing is idempotent until a reset.
    pub fn place_objects(&mut self, terrain: &TerrainManager, renderer: &Renderer)
        requires
            terrain.wf(),
        ensures
            final(self).spec_state() == spec_place_transition(
                old(self).spec_state(),
                spec_anchors(*terrain, renderer.spec_height()),
            ),
    {
        match &self.state {
            Placement::Placed(_) => {
                return ;
            },
            Placement::Unplaced => {},
        }

        let (_, height) = renderer.dimensions();
        let ground_h = terrain.ground_height();

        let (lowest_x, lowest_h) = terrain.get_lowest_point();
        let snowman_x = lowest_x.saturating_sub(ObjectType::Snowman.offset());
        let snowman_y = height.saturating_sub(ground_h).saturating_sub(lowest_h);

        let (highest_x, highest_h) = terrain.get_highest_point();
        let tree_x = highest_x.saturating_sub(ObjectType::Tree.offset());
        let tree_y = height.saturating_sub(ground_h).saturating_sub(highest_h);

        let mut v: Vec<(ObjectType, (u16, u16))> = Vec::new();
        v.push((ObjectType::Snowman, (snowman_x, snowman_y)));
        v.push((ObjectType::Tree, (tree_x, tree_y)));
        proof {
            assert(v@ =~= spec_anchors(*terrain, renderer.spec_height()));
        }
        self.state = Placement::Placed(v);
    }

    /// Recomputes each anchor's row from the hill height at its own
    /// column; the columns are kept. Before any placement this does
    /// nothing.
    pub fn update_position(&mut self, terrain: &TerrainManager, renderer: &Renderer)
        requires
            terrain.wf(),
        ensures
            final(self).spec_state() == (match old(self).spec_state() {
                Option::None => Option::<Seq<(ObjectType, (u16, u16))>>::None,
                Option::Some(v) => Option::Some(
                    spec_repositioned(v, *terrain, renderer.spec_height()),
                ),
            }),
    {
        let (_, screen_height) = renderer.dimensions();
        let ground_h = terrain.ground_height();
        let mut replacement: Option<Vec<(ObjectType, (u16, u16))>> = Option::None;

        match &self.state {
            Placement::Unplaced => {},
            Placement::Placed(v) => {
                let mut out: Vec<(ObjectType, (u16, u16))> = Vec::new();
                let mut i: usize = 0;
                while i < v.len()
                    invariant
                        i <= v@.len(),
                        terrain.wf(),
                        out@ =~= spec_repositioned(
                            v@,
                            *terrain,
                            renderer.spec_height(),
                        ).take(i as int),
                        screen_height == renderer.spec_height(),
                        ground_h == terrain.spec_ground().spec_height(),
                    decreases v@.len() - i,
                {
                    let (o, (x, _old_y)) = v[i];
                    let hill_h = terrain.hills().display_height(x);
                    let ny = screen_height.saturating_sub(ground_h).saturating_sub(hill_h);
                    out.push((o, (x, ny)));
                    i = i + 1;
                }
                proof {
                    assert(out@ =~= spec_repositioned(v@, *terrain, renderer.spec_height()));
                }
                replacement = Option::Some(out);
            },
        }

        if let Option::Some(out) = replacement {
            self.state = Placement::Placed(out);
        }
    }

    /// The anchors as plain pairs, in placement order; empty before the
    /// first placement.
    pub fn get_positions(&self) -> (ps: Vec<(ObjectType, (u16, u16))>)
        ensures
            ps@ == self.spec_positions(),
    {
        match &self.state {
            Placement::Unplaced => Vec::new(),
            Placement::Placed(v) => {
                let mut out: Vec<(ObjectType, (u16, u16))> = Vec::new();
                let mut i: usize = 0;
                while i < v.len()
                    invariant
                        i <= v@.len(),
                        out@ =~= v@.take(i as int),
                    decreases v@.len() - i,
                {
                    let p = v[i];
                    out.push(p);
                    i = i + 1;
                }
                proof {
                    assert(out@ =~= v@);
                }
                out
            },
        }
    }
}

} // verus!
