use worldmapper::color::Color;
use worldmapper::config::{
    default_hillshading_enabled, default_sufficient_alpha, default_terrain_min_alpha, Config,
    HillShading,
};
use worldmapper::mapblock::{analyze_positions, Bbox, update_range, Position};

fn p(x: i16, y: i16, z: i16) -> Position {
    Position { x, y, z }
}

#[test]
fn defaults_match_documented_values() {
    assert_eq!(default_sufficient_alpha(), 230);
    assert_eq!(default_terrain_min_alpha(), 128);
    assert!(default_hillshading_enabled());
    let h = HillShading::default();
    assert!(h.enabled);
    assert_eq!(h.min_alpha, 128);
}

#[test]
fn get_color_looks_up_by_name() {
    let red = Color { r: 255, g: 0, b: 0, a: 255 };
    let blue = Color { r: 0, g: 0, b: 255, a: 128 };
    let config = Config {
        sufficient_alpha: 230,
        background_color: Color { r: 255, g: 255, b: 255, a: 255 },
        node_colors: vec![(b"stone".to_vec(), red), (b"water".to_vec(), blue)],
        hill_shading: HillShading::default(),
    };
    assert_eq!(config.get_color(b"stone"), Some(red));
    assert_eq!(config.get_color(b"water"), Some(blue));
    assert_eq!(config.get_color(b"air"), None);
    assert_eq!(config.get_color(b""), None);
}

#[test]
fn update_range_extends_both_ends() {
    let mut r = None;
    update_range(&mut r, 4);
    assert_eq!(r, Some(4..5));
    update_range(&mut r, 7);
    assert_eq!(r, Some(4..8));
    update_range(&mut r, -2);
    assert_eq!(r, Some(-2..8));
    update_range(&mut r, 5);
    assert_eq!(r, Some(-2..8));
}

#[test]
fn from_opt_ranges_needs_both() {
    assert!(Bbox::from_opt_ranges(None, Some(0..1)).is_none());
    assert!(Bbox::from_opt_ranges(Some(0..1), None).is_none());
    let b = Bbox::from_opt_ranges(Some(1..3), Some(-4..2)).unwrap();
    assert_eq!(b.x, 1..3);
    assert_eq!(b.z, -4..2);
}

#[test]
fn analyze_positions_empty_world_gives_empty_box() {
    let (cols, bbox) = analyze_positions(&vec![]);
    assert!(cols.is_empty());
    assert_eq!(bbox.x, 0..0);
    assert_eq!(bbox.z, 0..0);
}

#[test]
fn analyze_positions_groups_columns_descending() {
    let ps = vec![p(1, 5, 2), p(1, 9, 2), p(0, 3, 7), p(1, 7, 2)];
    let (cols, bbox) = analyze_positions(&ps);
    assert_eq!(cols.len(), 2);
    let e = cols.iter().find(|e| e.0 == (1, 2)).unwrap();
    assert_eq!(e.1, vec![9, 7, 5]);
    let e2 = cols.iter().find(|e| e.0 == (0, 7)).unwrap();
    assert_eq!(e2.1, vec![3]);
    assert_eq!(bbox.x, 0..2);
    assert_eq!(bbox.z, 2..8);
}

#[test]
fn analyze_positions_keeps_duplicate_elevations() {
    let ps = vec![p(0, 4, 0), p(0, 4, 0), p(0, 2, 0)];
    let (cols, _) = analyze_positions(&ps);
    assert_eq!(cols.len(), 1);
    assert_eq!(cols[0].0, (0, 0));
    assert_eq!(cols[0].1, vec![4, 4, 2]);
}

#[test]
fn analyze_positions_single_column_box() {
    let ps = vec![p(-3, 0, 11)];
    let (cols, bbox) = analyze_positions(&ps);
    assert_eq!(cols.len(), 1);
    assert_eq!(bbox.x, -3..-2);
    assert_eq!(bbox.z, 11..12);
}
