use snowscape::objects::ObjectManager;
use snowscape::objects::ObjectType;
use snowscape::objects::sprite_lines;
use snowscape::renderer::Renderer;
use snowscape::terrain::TerrainManager;

fn is_snow_glyph(c: char) -> bool {
    c == '.' || c == '+' || c == '*'
}

fn row_string(r: &Renderer, y: u16) -> String {
    r.row_chars(y).into_iter().collect()
}

#[test]
fn object_geometry_is_fixed() {
    assert_eq!(ObjectType::Snowman.width(), 9);
    assert_eq!(ObjectType::Tree.width(), 24);
    assert_eq!(ObjectType::House.width(), 14);
    assert_eq!(ObjectType::Snowman.height(), 4);
    assert_eq!(ObjectType::Tree.height(), 11);
    assert_eq!(ObjectType::House.height(), 7);
    assert_eq!(ObjectType::Snowman.offset(), 4);
    assert_eq!(ObjectType::Tree.offset(), 12);
    assert_eq!(ObjectType::House.offset(), 7);
}

#[test]
fn sprites_split_into_their_rows() {
    assert_eq!(
        sprite_lines("ab\ncd"),
        vec![vec!['a', 'b'], vec!['c', 'd']]
    );
    assert_eq!(sprite_lines(""), Vec::<Vec<char>>::new());
    assert_eq!(sprite_lines("ab\n"), vec![vec!['a', 'b']]);
    assert_eq!(
        sprite_lines(ObjectType::Snowman.content()).len(),
        ObjectType::Snowman.height() as usize
    );
    assert_eq!(
        sprite_lines(ObjectType::Tree.content()).len(),
        ObjectType::Tree.height() as usize
    );
    assert_eq!(
        sprite_lines(ObjectType::House.content()).len(),
        ObjectType::House.height() as usize
    );
}

#[test]
fn buffer_writes_are_bounds_checked() {
    let mut r = Renderer::new(3, 2);
    assert_eq!(r.dimensions(), (3, 2));
    r.write_to_buffer(2, 1, 'x');
    r.write_to_buffer(3, 0, 'y');
    r.write_to_buffer(0, 2, 'z');
    assert_eq!(row_string(&r, 0), "   ");
    assert_eq!(row_string(&r, 1), "  x");
    r.update_dimensions(2, 1);
    assert_eq!(row_string(&r, 0), "  ");
}

#[test]
fn clear_blanks_every_cell() {
    let mut r = Renderer::new(2, 2);
    r.write_to_buffer(0, 0, 'a');
    r.write_to_buffer(1, 1, 'b');
    r.clear_buffer();
    assert_eq!(row_string(&r, 0), "  ");
    assert_eq!(row_string(&r, 1), "  ");
}

#[test]
fn positions_are_empty_before_placement() {
    let m = ObjectManager::new();
    assert!(m.get_positions().is_empty());
}

#[test]
fn placement_anchors_objects_at_the_extrema() {
    // band of a 24-row screen: 7 rows; samples put the highest column at 0
    // and the lowest at 4.
    let t = TerrainManager::new(5, 24, vec![1000, 900, 800, 700, -1000]);
    let r = Renderer::new(5, 24);
    let mut m = ObjectManager::new();
    m.place_objects(&t, &r);
    let ps = m.get_positions();
    assert_eq!(ps.len(), 2);
    assert_eq!(ps[0].0, ObjectType::Snowman);
    assert_eq!(ps[1].0, ObjectType::Tree);
    // snowman: lowest column 4, display height 1, offset 4 (saturated)
    assert_eq!(ps[0].1, (0, 24 - 7 - 1));
    // tree: highest column 0, display height 5, offset 12 (saturated)
    assert_eq!(ps[1].1, (0, 24 - 7 - 5));
}

#[test]
fn placement_is_idempotent_until_reset() {
    let t = TerrainManager::new(9, 24, vec![5, -3, 8, 0, 1, -9, 2, 2, 2]);
    let r = Renderer::new(9, 24);
    let mut m = ObjectManager::new();
    m.place_objects(&t, &r);
    let first = m.get_positions();
    m.place_objects(&t, &r);
    let second = m.get_positions();
    assert_eq!(first, second);
    m.reset();
    assert!(m.get_positions().is_empty());
}

#[test]
fn update_position_keeps_columns_and_recomputes_rows() {
    let mut t = TerrainManager::new(5, 24, vec![1000, 900, 800, 700, -1000]);
    let mut r = Renderer::new(5, 24);
    let mut m = ObjectManager::new();
    m.place_objects(&t, &r);
    t.update_dimensions(5, 30, vec![1000, 900, 800, 700, -1000]);
    r.update_dimensions(5, 30);
    m.update_position(&t, &r);
    let ps = m.get_positions();
    // both anchors sit at column 0; the hill there is 7 cells tall on a
    // 30-row screen (band 9), the ground band 9 more
    assert_eq!(ps.len(), 2);
    for p in &ps {
        assert_eq!(p.1.0, 0);
        assert_eq!(p.1.1, 30 - 9 - 7);
    }
}

#[test]
fn scene_layers_paint_in_order() {
    // 4 columns, 20 rows: band 6; flat terrain of height 3 everywhere.
    let t = TerrainManager::new(4, 20, vec![0, 0, 0, 0]);
    let m = ObjectManager::new();
    let mut r = Renderer::new(4, 20);
    r.draw_scene(&t, &m);
    // ground rows: 14..19; hills stack: rows 14, 13, 12 on every column
    for y in 0..12u16 {
        assert_eq!(row_string(&r, y), "    ", "row {} stays blank", y);
    }
    for y in 12..20u16 {
        assert!(
            r.row_chars(y).into_iter().all(is_snow_glyph),
            "row {} belongs to terrain",
            y
        );
    }
}

#[test]
fn sprite_at_last_column_clips_to_its_left_edge() {
    // The terrain is five columns wide, but the buffer only one: both
    // anchors land on column 0, the buffer's last column. Only each
    // sprite's leftmost visible glyph may appear, and nothing may panic.
    let t = TerrainManager::new(5, 24, vec![1000, 900, 800, 700, -1000]);
    let mut m = ObjectManager::new();
    let wide = Renderer::new(5, 24);
    m.place_objects(&t, &wide);
    let mut r = Renderer::new(1, 24);
    r.draw_scene(&t, &m);
    // ground rows 18..23 and the hill stack of column 0 (5 cells, rows
    // 13..17) hold snow glyphs
    for y in 18..24u16 {
        assert!(is_snow_glyph(r.row_chars(y)[0]), "ground row {}", y);
    }
    // the snowman's anchor row is 16; its only opaque cell in column 0 is
    // on its second row from the top, two above the anchor
    assert_eq!(r.row_chars(14)[0], '_');
    // the hill stack of column 0 fills rows 13 and 15..17 around it
    for y in [13u16, 15, 16, 17] {
        assert!(is_snow_glyph(r.row_chars(y)[0]), "hill row {}", y);
    }
    // the tree's anchor row is 12; its only opaque cell in column 0 sits
    // five rows above, from its long branch row
    assert_eq!(r.row_chars(7)[0], '_');
    // nothing else leaks in above the terrain
    for y in 0..7u16 {
        assert_eq!(r.row_chars(y)[0], ' ', "row {}", y);
    }
    for y in 8..12u16 {
        assert_eq!(r.row_chars(y)[0], ' ', "row {}", y);
    }
}
