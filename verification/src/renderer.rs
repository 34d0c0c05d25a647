//! The screen buffer and its compositor: a dense column-major grid of
//! glyphs, rebuilt from scratch on every frame. Every write is bounds
//! checked and silently dropped when it falls off the grid — that rule is
//! what keeps resizing robust. The scene is painted back to front: ground,
//! hills, snow, decorative sprites.

use vstd::prelude::*;

verus! {

use crate::objects::ObjectManager;
use crate::objects::ObjectType;
use crate::objects::TRANSPARENT;
use crate::objects::spec_lines;
use crate::objects::spec_sat_sub;
use crate::objects::spec_sprite;
use crate::snow::Snowflake;
use crate::terrain::TerrainManager;

/// One bounds-checked write: the cell changes only when it lies inside the
/// `w * h` grid; everything else is left exactly as it was.
pub open spec fn spec_put(
    g: Seq<Seq<char>>,
    w: int,
    h: int,
    x: int,
    y: int,
    c: char,
) -> Seq<Seq<char>> {
    if 0 <= x < w && 0 <= y < h {
        g.update(x, g[x].update(y, c))
    } else {
        g
    }
}

/// A `w * h` grid of blanks.
pub open spec fn blank_grid(w: int, h: int) -> Seq<Seq<char>> {
    Seq::new(w as nat, |x: int| Seq::new(h as nat, |y: int| ' '))
}

/// A sequence of optional writes applied in order, later writes winning;
/// a `None` entry is a skipped (transparent or off-strip) cell.
pub open spec fn apply_writes(
    g: Seq<Seq<char>>,
    w: int,
    h: int,
    ws: Seq<Option<(u16, u16, char)>>,
) -> Seq<Seq<char>>
    decreases ws.len(),
{
    if ws.len() == 0 {
        g
    } else {
        let rest = apply_writes(g, w, h, ws.drop_last());
        match ws.last() {
            Option::None => rest,
            Option::Some(t) => spec_put(rest, w, h, t.0 as int, t.1 as int, t.2),
        }
    }
}

/// Applying one more write is one more `spec_put` (or nothing, for a
/// skipped cell).
pub proof fn lemma_apply_writes_step(
    g: Seq<Seq<char>>,
    w: int,
    h: int,
    ws: Seq<Option<(u16, u16, char)>>,
    k: int,
)
    requires
        0 <= k < ws.len(),
    ensures
        apply_writes(g, w, h, ws.take(k + 1)) == match ws[k] {
            Option::None => apply_writes(g, w, h, ws.take(k)),
            Option::Some(t) => spec_put(
                apply_writes(g, w, h, ws.take(k)),
                w,
                h,
                t.0 as int,
                t.1 as int,
                t.2,
            ),
        },
{
    assert(ws.take(k + 1).drop_last() =~= ws.take(k));
    assert(ws.take(k + 1).last() == ws[k]);
}

/// The ground band's writes: the flat buffer read in rows of `gw` glyphs,
/// the first row painted on the lowest screen row, later rows above it.
pub open spec fn ground_writes(content: Seq<char>, gw: int, screen_h: int) -> Seq<
    Option<(u16, u16, char)>,
> {
    Seq::new(
        content.len(),
        |i: int|
            {
                let row = i / gw;
                let x = i % gw;
                let y = if screen_h >= row + 1 {
                    screen_h - row - 1
                } else {
                    0
                };
                Option::Some((x as u16, y as u16, content[i]))
            },
    )
}

/// One hill column's writes: the stack grows upward from the row just
/// above the ground band, blanks skipped.
pub open spec fn hill_column_writes(col: Seq<char>, x: int, base_y: int) -> Seq<
    Option<(u16, u16, char)>,
> {
    Seq::new(
        col.len(),
        |k: int|
            if col[k] == ' ' {
                Option::None
            } else {
                let y = if base_y >= k {
                    base_y - k
                } else {
                    0
                };
                Option::Some((x as u16, y as u16, col[k]))
            },
    )
}

/// The hills painted column by column, left to right.
pub open spec fn hills_grid(
    g: Seq<Seq<char>>,
    w: int,
    h: int,
    cols: Seq<Seq<char>>,
    base_y: int,
) -> Seq<Seq<char>>
    decreases cols.len(),
{
    if cols.len() == 0 {
        g
    } else {
        let prev = hills_grid(g, w, h, cols.drop_last(), base_y);
        apply_writes(prev, w, h, hill_column_writes(cols.last(), cols.len() - 1, base_y))
    }
}

/// One flake's write: its cell when the column lies on the addressable
/// strip, nothing otherwise.
pub open spec fn flake_write(f: Snowflake) -> Option<(u16, u16, char)> {
    if 0 <= f.spec_x() <= u16::MAX as i32 {
        Option::Some((f.spec_x() as u16, f.spec_y(), f.spec_symbol()))
    } else {
        Option::None
    }
}

/// The snowflakes' writes, in the order the flakes are held.
pub open spec fn snow_writes(flakes: Seq<Snowflake>) -> Seq<Option<(u16, u16, char)>> {
    Seq::new(flakes.len(), |i: int| flake_write(flakes[i]))
}

/// One sprite row's writes at screen row `y_row`: transparent cells and
/// cells beyond the addressable strip are skipped.
pub open spec fn sprite_row_writes(row: Seq<char>, x: int, y_row: int) -> Seq<
    Option<(u16, u16, char)>,
> {
    Seq::new(
        row.len(),
        |j: int|
            if row[j] == TRANSPARENT || x + j > u16::MAX as int {
                Option::None
            } else {
                Option::Some(((x + j) as u16, y_row as u16, row[j]))
            },
    )
}

/// A sprite's first `n` drawn rows: drawn from its bottom row upward, so
/// the anchor row `y` holds the last row of the sprite, and each row above
/// sits one higher, stopping at the top of the screen.
pub open spec fn sprite_grid(
    g: Seq<Seq<char>>,
    w: int,
    h: int,
    rows: Seq<Seq<char>>,
    x: int,
    y: int,
    n: int,
) -> Seq<Seq<char>>
    decreases n,
{
    if n <= 0 || n > rows.len() {
        g
    } else {
        let prev = sprite_grid(g, w, h, rows, x, y, n - 1);
        let y_row = if y >= n - 1 {
            y - (n - 1)
        } else {
            0
        };
        apply_writes(prev, w, h, sprite_row_writes(rows[rows.len() - n], x, y_row))
    }
}

/// Every placed sprite painted in order, later sprites over earlier ones.
pub open spec fn objects_grid(
    g: Seq<Seq<char>>,
    w: int,
    h: int,
    ps: Seq<(ObjectType, (u16, u16))>,
) -> Seq<Seq<char>>
    decreases ps.len(),
{
    if ps.len() == 0 {
        g
    } else {
        let prev = objects_grid(g, w, h, ps.drop_last());
        let p = ps.last();
        let rows = spec_lines(spec_sprite(p.0));
        sprite_grid(prev, w, h, rows, p.1.0 as int, p.1.1 as int, rows.len() as int)
    }
}

/// The whole frame: a blank grid, then ground, hills, snow and sprites,
/// in that order.
pub open spec fn spec_scene(
    w: int,
    h: int,
    ground: Seq<char>,
    ground_w: int,
    ground_h: int,
    cols: Seq<Seq<char>>,
    flakes: Seq<Snowflake>,
    ps: Seq<(ObjectType, (u16, u16))>,
) -> Seq<Seq<char>> {
    let base_y = if h >= ground_h {
        h - ground_h
    } else {
        0
    };
    let g0 = blank_grid(w, h);
    let g1 = apply_writes(g0, w, h, ground_writes(ground, ground_w, h));
    let g2 = hills_grid(g1, w, h, cols, base_y);
    let g3 = apply_writes(g2, w, h, snow_writes(flakes));
    objects_grid(g3, w, h, ps)
}

pub struct Renderer {
    width: u16,
    height: u16,
    buffer: Vec<Vec<char>>,
}

impl Renderer {
    /// The grid, column major: `grid()[x][y]` is the cell at column `x`,
    /// row `y`.
    pub closed spec fn grid(&self) -> Seq<Seq<char>> {
        self.buffer.deep_view()
    }

    pub closed spec fn spec_width(&self) -> u16 {
        self.width
    }

    pub closed spec fn spec_height(&self) -> u16 {
        self.height
    }

    pub open spec fn wf(&self) -> bool {
        &&& self.grid().len() == self.spec_width() as int
        &&& forall|x: int|
            0 <= x < self.grid().len() ==> (#[trigger] self.grid()[x]).len()
                == self.spec_height() as int
    }

    /// A fresh, blank buffer of the given dimensions.
    pub fn new(width: u16, height: u16) -> (r: Renderer)
        ensures
            r.wf(),
            r.spec_width() == width,
            r.spec_height() == height,
            r.grid() == blank_grid(width as int, height as int),
    {
        let buffer = Self::blank_buffer(width, height);
        Renderer { width, height, buffer }
    }

    fn blank_buffer(width: u16, height: u16) -> (b: Vec<Vec<char>>)
        ensures
            b.deep_view() == blank_grid(width as int, height as int),
    {
        let mut buffer: Vec<Vec<char>> = Vec::new();
        let mut x: u16 = 0;
        while x < width
            invariant
                x <= width,
                buffer.deep_view().len() == x as int,
                forall|i: int|
                    0 <= i < x as int ==> (#[trigger] buffer.deep_view()[i]) =~= Seq::new(
                        height as nat,
                        |y: int| ' ',
                    ),
            decreases width - x,
        {
            let mut col: Vec<char> = Vec::new();
            let mut y: u16 = 0;
            while y < height
                invariant
                    y <= height,
                    col@.len() == y as int,
                    forall|k: int| 0 <= k < y as int ==> col@[k] == ' ',
                decreases height - y,
            {
                col.push(' ');
                y = y + 1;
            }
            let ghost prev = buffer.deep_view();
            buffer.push(col);
            proof {
                assert forall|i: int| 0 <= i < x as int + 1 implies (
                #[trigger] buffer.deep_view()[i]) =~= Seq::new(height as nat, |yy: int| ' ') by {
                    if i < x as int {
                        assert(buffer.deep_view()[i] == prev[i]);
                    } else {
                        assert(buffer.deep_view()[i] =~= col@);
                        assert(col@ =~= Seq::new(height as nat, |yy: int| ' '));
                    }
                }
            }
            x = x + 1;
        }
        proof {
            assert(buffer.deep_view() =~~= blank_grid(width as int, height as int));
        }
        buffer
    }

    pub fn dimensions(&self) -> (d: (u16, u16))
        ensures
            d.0 == self.spec_width(),
            d.1 == self.spec_height(),
    {
        (self.width, self.height)
    }

    /// Replaces the buffer by a blank one of the new dimensions.
    pub fn update_dimensions(&mut self, width: u16, height: u16)
        ensures
            final(self).wf(),
            final(self).spec_width() == width,
            final(self).spec_height() == height,
            final(self).grid() == blank_grid(width as int, height as int),
    {
        self.width = width;
        self.height = height;
        self.buffer = Self::blank_buffer(width, height);
    }

    /// The bounds-checked write: inside the grid the cell takes the glyph,
    /// outside nothing happens at all.
    pub fn write_to_buffer(&mut self, x: u16, y: u16, ch: char)
        requires
            old(self).wf(),
        ensures
            final(self).wf(),
            final(self).spec_width() == old(self).spec_width(),
            final(self).spec_height() == old(self).spec_height(),
            final(self).grid() == spec_put(
                old(self).grid(),
                old(self).spec_width() as int,
                old(self).spec_height() as int,
                x as int,
                y as int,
                ch,
            ),
    {
        if x < self.width && y < self.height {
            let ghost prev = self.grid();
            proof {
                assert(self.buffer@.len() == self.grid().len());
                assert(self.buffer@[x as int].deep_view() == self.grid()[x as int]);
            }
            self.buffer[x as usize][y as usize] = ch;
            proof {
                assert(self.grid() =~~= spec_put(
                    prev,
                    self.spec_width() as int,
                    self.spec_height() as int,
                    x as int,
                    y as int,
                    ch,
                ));
            }
        }
    }

    /// Clears every cell back to a blank.
    pub fn clear_buffer(&mut self)
        requires
            old(self).wf(),
        ensures
            final(self).wf(),
            final(self).spec_width() == old(self).spec_width(),
            final(self).spec_height() == old(self).spec_height(),
            final(self).grid() == blank_grid(
                old(self).spec_width() as int,
                old(self).spec_height() as int,
            ),
    {
        self.buffer = Self::blank_buffer(self.width, self.height);
    }

    /// One screen row as the flat run of glyphs the terminal receives.
    pub fn row_chars(&self, y: u16) -> (row: Vec<char>)
        requires
            self.wf(),
            y < self.spec_height(),
        ensures
            row@.len() == self.spec_width() as int,
            forall|x: int| 0 <= x < row@.len() ==> row@[x] == self.grid()[x][y as int],
    {
        let mut row: Vec<char> = Vec::new();
        let mut x: u16 = 0;
        while x < self.width
            invariant
                self.wf(),
                y < self.spec_height(),
                x <= self.spec_width(),
                row@.len() == x as int,
                forall|i: int| 0 <= i < x as int ==> row@[i] == self.grid()[i][y as int],
            decreases self.spec_width() - x,
        {
            proof {
                assert(self.buffer@.len() == self.grid().len());
                assert(self.buffer@[x as int].deep_view() == self.grid()[x as int]);
            }
            let c = self.buffer[x as usize][y as usize];
            row.push(c);
            x = x + 1;
        }
        row
    }

    /// Paints the ground band onto the bottom rows: the flat buffer read
    /// in rows of the ground's width, first row lowest.
    pub fn draw_ground(&mut self, terrain: &TerrainManager)
        requires
            old(self).wf(),
            terrain.wf(),
        ensures
            final(self).wf(),
            final(self).spec_width() == old(self).spec_width(),
            final(self).spec_height() == old(self).spec_height(),
            final(self).grid() == apply_writes(
                old(self).grid(),
                old(self).spec_width() as int,
                old(self).spec_height() as int,
                ground_writes(
                    terrain.spec_ground()@,
                    terrain.spec_ground().spec_width() as int,
                    old(self).spec_height() as int,
                ),
            ),
    {
        let ghost w = old(self).spec_width() as int;
        let ghost h = old(self).spec_height() as int;
        let ghost orig = old(self).grid();
        let gw = terrain.hills().width();
        let content = terrain.ground_content();
        let ghost ws = ground_writes(
            terrain.spec_ground()@,
            terrain.spec_ground().spec_width() as int,
            old(self).spec_height() as int,
        );
        let mut i: usize = 0;
        while i < content.len()
            invariant
                self.wf(),
                i <= content@.len(),
                self.spec_width() == old(self).spec_width(),
                self.spec_height() == old(self).spec_height(),
                w == old(self).spec_width() as int,
                h == old(self).spec_height() as int,
                terrain.wf(),
                gw as int == terrain.spec_ground().spec_width() as int,
                content@ == terrain.spec_ground()@,
                ws == ground_writes(terrain.spec_ground()@, gw as int, h),
                ws.len() == content@.len(),
                self.grid() == apply_writes(orig, w, h, ws.take(i as int)),
            decreases content@.len() - i,
        {
            proof {
                let gwi = gw as int;
                let ghi = terrain.spec_ground().spec_height() as int;
                assert(content@.len() == gwi * ghi);
                assert(gwi > 0) by (nonlinear_arith)
                    requires
                        0 <= gwi,
                        0 <= ghi,
                        gwi * ghi > (i as int) >= 0,
                ;
            }
            let row: usize = i / (gw as usize);
            let x: usize = i % (gw as usize);
            let y: u16 = if (self.height as usize) >= row + 1 {
                (self.height as usize - (row + 1)) as u16
            } else {
                0
            };
            proof {
                let gwi = gw as int;
                let ghi = terrain.spec_ground().spec_height() as int;
                assert((row as int) < ghi) by (nonlinear_arith)
                    requires
                        gwi > 0,
                        0 <= (i as int) < gwi * ghi,
                        (row as int) == (i as int) / gwi,
                ;
                assert((x as int) < gwi) by (nonlinear_arith)
                    requires
                        gwi > 0,
                        (x as int) == (i as int) % gwi,
                ;
                lemma_apply_writes_step(orig, w, h, ws, i as int);
            }
            let c = content[i];
            self.write_to_buffer(x as u16, y, c);
            i = i + 1;
        }
        proof {
            assert(ws.take(content@.len() as int) =~= ws);
        }
    }

    /// Paints the hill columns above the ground band, column by column,
    /// each stack rising from the row just above the band.
    pub fn draw_hills(&mut self, terrain: &TerrainManager)
        requires
            old(self).wf(),
            terrain.wf(),
        ensures
            final(self).wf(),
            final(self).spec_width() == old(self).spec_width(),
            final(self).spec_height() == old(self).spec_height(),
            final(self).grid() == hills_grid(
                old(self).grid(),
                old(self).spec_width() as int,
                old(self).spec_height() as int,
                terrain.spec_hills().spec_content(),
                spec_sat_sub(
                    old(self).spec_height() as int,
                    terrain.spec_ground().spec_height() as int,
                ),
            ),
    {
        let ghost w = old(self).spec_width() as int;
        let ghost h = old(self).spec_height() as int;
        let ghost orig = old(self).grid();
        let base_y: u16 = self.height.saturating_sub(terrain.ground_height());
        let cols = terrain.hills_content();
        let ghost cols_dv = terrain.spec_hills().spec_content();
        let mut x: usize = 0;
        while x < cols.len()
            invariant
                self.wf(),
                x <= cols_dv.len(),
                self.spec_width() == old(self).spec_width(),
                self.spec_height() == old(self).spec_height(),
                w == old(self).spec_width() as int,
                h == old(self).spec_height() as int,
                terrain.wf(),
                cols.deep_view() == cols_dv,
                cols_dv == terrain.spec_hills().spec_content(),
                cols_dv.len() == terrain.spec_hills().spec_width() as int,
                base_y as int == spec_sat_sub(h, terrain.spec_ground().spec_height() as int),
                self.grid() == hills_grid(orig, w, h, cols_dv.take(x as int), base_y as int),
            decreases cols_dv.len() - x,
        {
            let ghost col_ws = hill_column_writes(cols_dv[x as int], x as int, base_y as int);
            let ghost before_col = self.grid();
            let col_len = cols[x].len();
            proof {
                assert(cols_dv[x as int] == cols@[x as int].deep_view());
                assert(col_len as int == cols_dv[x as int].len());
                assert(cols_dv[x as int].len() == terrain.spec_hills().spec_display_height(
                    x as int,
                ));
            }
            let mut k: usize = 0;
            while k < col_len
                invariant
                    self.wf(),
                    k <= col_len,
                    self.spec_width() == old(self).spec_width(),
                    self.spec_height() == old(self).spec_height(),
                    w == old(self).spec_width() as int,
                    h == old(self).spec_height() as int,
                    terrain.wf(),
                    cols.deep_view() == cols_dv,
                    (x as int) < cols_dv.len(),
                    col_len as int == cols_dv[x as int].len(),
                    col_len <= u16::MAX as usize,
                    base_y as int == spec_sat_sub(h, terrain.spec_ground().spec_height() as int),
                    col_ws == hill_column_writes(cols_dv[x as int], x as int, base_y as int),
                    col_ws.len() == col_len as int,
                    x as int <= u16::MAX as int,
                    self.grid() == apply_writes(before_col, w, h, col_ws.take(k as int)),
                decreases col_len - k,
            {
                proof {
                    assert(cols_dv[x as int] == cols@[x as int].deep_view());
                    lemma_apply_writes_step(before_col, w, h, col_ws, k as int);
                }
                let ch = cols[x][k];
                if ch != ' ' {
                    let y: u16 = base_y.saturating_sub(k as u16);
                    self.write_to_buffer(x as u16, y, ch);
                }
                k = k + 1;
            }
            proof {
                assert(col_ws.take(col_len as int) =~= col_ws);
                assert(cols_dv.take(x as int + 1).drop_last() =~= cols_dv.take(x as int));
                assert(cols_dv.take(x as int + 1).last() == cols_dv[x as int]);
                assert(self.grid() == hills_grid(orig, w, h, cols_dv.take(x as int + 1), base_y as int));
            }
            x = x + 1;
        }
        proof {
            assert(cols_dv.take(cols_dv.len() as int) =~= cols_dv);
        }
    }

    /// Paints every live snowflake at its cell; flakes off the strip are
    /// dropped by the bounds check.
    pub fn draw_snow(&mut self, terrain: &TerrainManager)
        requires
            old(self).wf(),
        ensures
            final(self).wf(),
            final(self).spec_width() == old(self).spec_width(),
            final(self).spec_height() == old(self).spec_height(),
            final(self).grid() == apply_writes(
                old(self).grid(),
                old(self).spec_width() as int,
                old(self).spec_height() as int,
                snow_writes(terrain.spec_snowfall()@),
            ),
    {
        let ghost w = old(self).spec_width() as int;
        let ghost h = old(self).spec_height() as int;
        let ghost orig = old(self).grid();
        let flakes = terrain.snowflakes();
        let ghost ws = snow_writes(terrain.spec_snowfall()@);
        let mut i: usize = 0;
        while i < flakes.len()
            invariant
                self.wf(),
                i <= flakes@.len(),
                self.spec_width() == old(self).spec_width(),
                self.spec_height() == old(self).spec_height(),
                w == old(self).spec_width() as int,
                h == old(self).spec_height() as int,
                flakes@ == terrain.spec_snowfall()@,
                ws == snow_writes(terrain.spec_snowfall()@),
                ws.len() == flakes@.len(),
                self.grid() == apply_writes(orig, w, h, ws.take(i as int)),
            decreases flakes@.len() - i,
        {
            proof {
                lemma_apply_writes_step(orig, w, h, ws, i as int);
            }
            let f = flakes[i];
            match f.column() {
                Option::Some(cx) => {
                    let p = f.position();
                    self.write_to_buffer(cx, p.1, f.symbol());
                },
                Option::None => {},
            }
            i = i + 1;
        }
        proof {
            assert(ws.take(flakes@.len() as int) =~= ws);
        }
    }

    /// Paints every placed sprite, row by row from its bottom row upward,
    /// transparent cells skipped, clipped at the screen's edges.
    pub fn draw_objects(&mut self, objects: &ObjectManager)
        requires
            old(self).wf(),
        ensures
            final(self).wf(),
            final(self).spec_width() == old(self).spec_width(),
            final(self).spec_height() == old(self).spec_height(),
            final(self).grid() == objects_grid(
                old(self).grid(),
                old(self).spec_width() as int,
                old(self).spec_height() as int,
                objects.spec_positions(),
            ),
    {
        let ghost w = old(self).spec_width() as int;
        let ghost h = old(self).spec_height() as int;
        let ghost orig = old(self).grid();
        let positions = objects.get_positions();
        let ghost ps = objects.spec_positions();
        let mut p_i: usize = 0;
        while p_i < positions.len()
            invariant
                self.wf(),
                p_i <= ps.len(),
                self.spec_width() == old(self).spec_width(),
                self.spec_height() == old(self).spec_height(),
                w == old(self).spec_width() as int,
                h == old(self).spec_height() as int,
                positions@ == ps,
                self.grid() == objects_grid(orig, w, h, ps.take(p_i as int)),
            decreases ps.len() - p_i,
        {
            let (o, (x, y)) = positions[p_i];
            let rows = crate::objects::sprite_lines(o.content());
            let ghost rows_dv = spec_lines(spec_sprite(o));
            let nrows = rows.len();
            let ghost before_sprite = self.grid();
            let mut i: usize = 0;
            while i < nrows
                invariant
                    self.wf(),
                    i <= nrows,
                    self.spec_width() == old(self).spec_width(),
                    self.spec_height() == old(self).spec_height(),
                    w == old(self).spec_width() as int,
                    h == old(self).spec_height() as int,
                    rows.deep_view() == rows_dv,
                    nrows as int == rows_dv.len(),
                    self.grid() == sprite_grid(
                        before_sprite,
                        w,
                        h,
                        rows_dv,
                        x as int,
                        y as int,
                        i as int,
                    ),
                decreases nrows - i,
            {
                let row = &rows[nrows - 1 - i];
                let y_row: u16 = if i >= y as usize {
                    0
                } else {
                    y - (i as u16)
                };
                let ghost y_row_spec = if y as int >= i as int {
                    y as int - i as int
                } else {
                    0
                };
                let ghost row_ws = sprite_row_writes(
                    rows_dv[nrows as int - 1 - i as int],
                    x as int,
                    y_row_spec,
                );
                let ghost before_row = self.grid();
                proof {
                    assert(rows_dv[nrows as int - 1 - i] == rows@[nrows as int - 1 - i].deep_view());
                }
                let mut j: usize = 0;
                while j < row.len()
                    invariant
                        self.wf(),
                        j <= row@.len(),
                        self.spec_width() == old(self).spec_width(),
                        self.spec_height() == old(self).spec_height(),
                        w == old(self).spec_width() as int,
                        h == old(self).spec_height() as int,
                        i < nrows,
                        nrows as int == rows_dv.len(),
                        rows.deep_view() == rows_dv,
                        row@ == rows@[nrows as int - 1 - i as int]@,
                        row@ =~= rows_dv[nrows as int - 1 - i as int],
                        y_row as int == y_row_spec,
                        row_ws == sprite_row_writes(
                            rows_dv[nrows as int - 1 - i as int],
                            x as int,
                            y_row_spec,
                        ),
                        row_ws.len() == row@.len(),
                        self.grid() == apply_writes(before_row, w, h, row_ws.take(j as int)),
                    decreases row@.len() - j,
                {
                    proof {
                        lemma_apply_writes_step(before_row, w, h, row_ws, j as int);
                    }
                    let ch = row[j];
                    if ch != TRANSPARENT && j <= u16::MAX as usize {
                        let cx: usize = x as usize + j;
                        if cx <= u16::MAX as usize {
                            self.write_to_buffer(cx as u16, y_row, ch);
                        }
                    }
                    j = j + 1;
                }
                proof {
                    assert(row_ws.take(row@.len() as int) =~= row_ws);
                    assert(self.grid() == sprite_grid(
                        before_sprite,
                        w,
                        h,
                        rows_dv,
                        x as int,
                        y as int,
                        i as int + 1,
                    ));
                }
                i = i + 1;
            }
            proof {
                assert(ps.take(p_i as int + 1).drop_last() =~= ps.take(p_i as int));
                assert(ps.take(p_i as int + 1).last() == ps[p_i as int]);
                assert(self.grid() == objects_grid(orig, w, h, ps.take(p_i as int + 1)));
            }
            p_i = p_i + 1;
        }
        proof {
            assert(ps.take(ps.len() as int) =~= ps);
        }
    }

    /// One full frame: clear, then ground, hills, snow and sprites, in
    /// that order — objects always last, so nothing occludes them.
    pub fn draw_scene(&mut self, terrain: &TerrainManager, objects: &ObjectManager)
        requires
            old(self).wf(),
            terrain.wf(),
        ensures
            final(self).wf(),
            final(self).spec_width() == old(self).spec_width(),
            final(self).spec_height() == old(self).spec_height(),
            final(self).grid() == spec_scene(
                old(self).spec_width() as int,
                old(self).spec_height() as int,
                terrain.spec_ground()@,
                terrain.spec_ground().spec_width() as int,
                terrain.spec_ground().spec_height() as int,
                terrain.spec_hills().spec_content(),
                terrain.spec_snowfall()@,
                objects.spec_positions(),
            ),
    {
        self.clear_buffer();
        self.draw_ground(terrain);
        self.draw_hills(terrain);
        self.draw_snow(terrain);
        self.draw_objects(objects);
    }
}

} // verus!
