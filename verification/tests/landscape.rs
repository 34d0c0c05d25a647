use snowscape::ground::Ground;
use snowscape::hills::Hills;
use snowscape::rng::random_snowflake;
use snowscape::snow::Snowfall;
use snowscape::snow::Snowflake;
use snowscape::terrain::TerrainManager;

fn is_snow_glyph(c: char) -> bool {
    c == '.' || c == '+' || c == '*'
}

fn perlin_samples(seed: u32, width: u16, freq_milli: u32) -> Vec<i64> {
    let p = noise::Perlin::new(seed);
    (0..width)
        .map(|x| {
            let v = noise::NoiseFn::get(&p, [x as f64 * (freq_milli as f64 / 1000.0)]);
            (v * 1000.0) as i64
        })
        .collect()
}

#[test]
fn random_glyphs_stay_in_alphabet() {
    for _ in 0..200 {
        assert!(is_snow_glyph(random_snowflake()));
    }
}

#[test]
fn ground_new_has_full_content() {
    let g = Ground::new(4, 3);
    assert_eq!(g.width(), 4);
    assert_eq!(g.height(), 3);
    assert_eq!(g.content().len(), 12);
    assert!(g.content().iter().all(|&c| is_snow_glyph(c)));
}

#[test]
fn ground_shrink_truncates_prefix() {
    let mut g = Ground::new(4, 3);
    let before = g.content().clone();
    g.update_dimensions(2, 3);
    assert_eq!(g.content().len(), 6);
    assert_eq!(g.content()[..], before[..6]);
}

#[test]
fn ground_grow_keeps_prefix() {
    let mut g = Ground::new(2, 3);
    let before = g.content().clone();
    g.update_dimensions(5, 3);
    assert_eq!(g.content().len(), 15);
    assert_eq!(g.content()[..6], before[..]);
    assert!(g.content().iter().all(|&c| is_snow_glyph(c)));
}

#[test]
fn hill_heights_follow_the_formula() {
    // band 10, amplitude 0.6, offset 0.5:
    // sample 0     -> blended 500000  -> 5 cells
    // sample 1000  -> blended 800000  -> 8 cells
    // sample -1000 -> blended 200000  -> 2 cells
    let h = Hills::new(3, 10, 600, vec![0, 1000, -1000]);
    assert_eq!(h.display_height(0), 5);
    assert_eq!(h.display_height(1), 8);
    assert_eq!(h.display_height(2), 2);
    assert_eq!(h.display_height(3), 0);
    assert_eq!(h.real_height(0), 0);
    assert_eq!(h.real_height(1), 1000);
    assert_eq!(h.real_height(2), -1000);
    assert_eq!(h.content().len(), 3);
    assert_eq!(h.content()[1].len(), 8);
    assert!(h.content().iter().flatten().all(|&c| is_snow_glyph(c)));
}

#[test]
fn display_heights_stay_inside_the_band() {
    let samples: Vec<i64> = vec![-2000, -1000, -1, 0, 1, 17, 999, 1000, 2000, -353];
    let h = Hills::new(10, 7, 600, samples);
    for x in 0..10u16 {
        let dh = h.display_height(x);
        assert!(1 <= dh && dh <= 7, "column {} shows {}", x, dh);
    }
}

#[test]
fn hills_resize_keeps_samples_given_back() {
    let mut h = Hills::new(3, 10, 600, vec![0, 1000, -1000]);
    h.update_dimensions(2, 20, vec![0, 1000]);
    assert_eq!(h.width(), 2);
    assert_eq!(h.height(), 20);
    // band 20: sample 0 -> 10 cells, sample 1000 -> 16 cells
    assert_eq!(h.display_height(0), 10);
    assert_eq!(h.display_height(1), 16);
}

#[test]
fn snowflake_reports_its_state() {
    let f = Snowflake::new(3, 2);
    assert_eq!(f.position(), (3, 2));
    assert!(is_snow_glyph(f.symbol()));
    let off = Snowflake::new(-1, 0);
    assert!(off.column().is_none());
    assert_eq!(f.column(), Some(3));
}

#[test]
fn full_density_spawns_one_flake_per_column() {
    let mut s = Snowfall::new(5, 5, 1000);
    assert_eq!(s.flakes().len(), 0);
    s.update_snowflakes();
    assert_eq!(s.flakes().len(), 5);
    for f in s.flakes() {
        assert_eq!(f.position().1, 0);
        assert!(is_snow_glyph(f.symbol()));
    }
}

#[test]
fn zero_density_never_spawns() {
    let mut s = Snowfall::new(5, 5, 0);
    for _ in 0..20 {
        s.update_snowflakes();
    }
    assert_eq!(s.flakes().len(), 0);
}

#[test]
fn cull_leaves_only_flakes_inside_the_band() {
    let mut s = Snowfall::new(8, 5, 1000);
    for _ in 0..10 {
        s.update_snowflakes();
    }
    s.cull();
    for f in s.flakes() {
        let (_, y) = f.position();
        assert!(y <= 5);
        let c = f.column().expect("culled flakes sit on the strip");
        assert!(c <= 8);
    }
}

#[test]
fn tick_keeps_survivors_before_spawns() {
    // one column at full density: the first tick spawns one flake, the
    // second advances it one row (same glyph) and appends the new spawn
    let mut s = Snowfall::new(1, 10, 1000);
    s.update_snowflakes();
    assert_eq!(s.flakes().len(), 1);
    let first = s.flakes()[0];
    assert_eq!(first.position().1, 0);
    s.update_snowflakes();
    let after = s.flakes();
    assert_eq!(after.len(), 2);
    assert_eq!(after[0].position().1, 1);
    assert_eq!(after[0].symbol(), first.symbol());
    assert_eq!(after[1].position(), (0, 0));
}

#[test]
fn top_row_never_holds_more_than_width_flakes() {
    let width: u16 = 6;
    let mut s = Snowfall::new(width, 8, 1000);
    for _ in 0..25 {
        s.update_snowflakes();
        let top_row = s
            .flakes()
            .iter()
            .filter(|f| f.position().1 == 0)
            .count();
        assert_eq!(top_row, width as usize, "full density fills the top row");
    }
}

#[test]
fn tick_spawns_at_most_width_flakes() {
    let mut s = Snowfall::new(8, 5, 700);
    for _ in 0..30 {
        let before = s.flakes().len();
        s.update_snowflakes();
        let after = s.flakes().len();
        assert!(after <= before + 8);
    }
}

#[test]
fn snowfall_count_stabilizes_under_full_density() {
    // 100 ticks at full density on a narrow band: the live count is bounded
    // by width * band_height once spawning and culling balance.
    let width: u16 = 10;
    let band: u16 = 30;
    let mut s = Snowfall::new(width, band, 1000);
    let mut last = 0usize;
    for _ in 0..100 {
        s.update_snowflakes();
        last = s.flakes().len();
        assert!(last <= (width as usize) * (band as usize));
    }
    assert!(last >= width as usize);
}

#[test]
fn terrain_resize_gives_exact_ground_length() {
    let mut t = TerrainManager::new(80, 24, vec![0; 80]);
    t.update_dimensions(40, 24, vec![0; 40]);
    // band of a 24-row screen: 7 rows
    assert_eq!(t.ground_height(), 7);
    assert_eq!(t.ground_content().len(), 40 * 7);
}

#[test]
fn terrain_regenerate_replaces_everything() {
    let mut t = TerrainManager::new(6, 20, vec![0; 6]);
    t.update_snow();
    t.regenerate(4, 30, vec![1000, 0, -1000, 250]);
    assert_eq!(t.snowflakes().len(), 0);
    assert_eq!(t.ground_height(), 9);
    assert_eq!(t.ground_content().len(), 4 * 9);
    assert_eq!(t.hills().width(), 4);
    assert_eq!(t.hills().real_height(0), 1000);
}

#[test]
fn terrain_height_sums_both_bands() {
    let t = TerrainManager::new(5, 30, vec![0; 5]);
    assert_eq!(t.height(), 18);
}

#[test]
fn extrema_find_first_strict_winners() {
    let t = TerrainManager::new(5, 30, vec![3, 9, 9, -4, -4]);
    let (hx, hh) = t.get_highest_point();
    let (lx, lh) = t.get_lowest_point();
    assert_eq!(hx, 1, "ties resolve to the first column scanned");
    assert_eq!(lx, 3, "ties resolve to the first column scanned");
    assert_eq!(hh, t.hills().display_height(1));
    assert_eq!(lh, t.hills().display_height(3));
    assert!(hh >= lh);
}

#[test]
fn generated_terrain_orders_its_extrema() {
    let samples = perlin_samples(0xC0FFEE, 100, 20);
    let t = TerrainManager::new(100, 30, samples);
    let (hx, hh) = t.get_highest_point();
    let (lx, lh) = t.get_lowest_point();
    assert!(hh >= lh);
    assert!((hx as usize) < 100);
    assert!((lx as usize) < 100);
}
