use worldmapper::color::Color;
use worldmapper::config::{Config, HillShading};
use worldmapper::mapblock::{
    analyze_positions, chunk_sufficient, compute_mapblock, MapBlockData, CHUNK_SIZE,
    MAPBLOCK_SIZE,
};
use worldmapper::render::{chunk_offset, terrain_for_bbox, PixelBuffer};
use worldmapper::terrain::{Terrain, TerrainCell};

const RED: Color = Color { r: 255, g: 0, b: 0, a: 255 };
const BLUE: Color = Color { r: 0, g: 0, b: 255, a: 255 };
const MIST: Color = Color { r: 0, g: 0, b: 255, a: 90 };
const GRAY: Color = Color { r: 100, g: 100, b: 100, a: 255 };
const WHITE: Color = Color { r: 255, g: 255, b: 255, a: 255 };

fn test_config(shading: bool) -> Config {
    Config {
        sufficient_alpha: 230,
        background_color: WHITE,
        node_colors: vec![
            (b"stone".to_vec(), RED),
            (b"water".to_vec(), BLUE),
            (b"mist".to_vec(), MIST),
            (b"air".to_vec(), RED),
        ],
        hill_shading: HillShading { enabled: shading, min_alpha: 128 },
    }
}

fn empty_chunk() -> Vec<TerrainCell> {
    vec![TerrainCell::default(); CHUNK_SIZE]
}

/// A block whose palette is exactly the one name "air".
fn air_block() -> MapBlockData {
    MapBlockData { param0: vec![0; MAPBLOCK_SIZE], name_id_mappings: vec![(0, b"air".to_vec())] }
}

/// A block of air with one full layer of `name` at its topmost elevation.
fn top_layer_block(name: &[u8]) -> MapBlockData {
    let mut param0 = vec![0u16; MAPBLOCK_SIZE];
    for z in 0..16 {
        for x in 0..16 {
            param0[x + 16 * 15 + 256 * z] = 1;
        }
    }
    MapBlockData {
        param0,
        name_id_mappings: vec![(0, b"air".to_vec()), (1, name.to_vec())],
    }
}

/// A block filled entirely with `name`.
fn full_block(name: &[u8]) -> MapBlockData {
    MapBlockData {
        param0: vec![1; MAPBLOCK_SIZE],
        name_id_mappings: vec![(0, b"air".to_vec()), (1, name.to_vec())],
    }
}

fn pixel(buf: &PixelBuffer, x: u32, y: u32) -> Color {
    let i = 4 * (y as usize * buf.width as usize + x as usize);
    Color { r: buf.data[i], g: buf.data[i + 1], b: buf.data[i + 2], a: buf.data[i + 3] }
}

#[test]
fn air_only_block_changes_nothing() {
    let config = test_config(false);
    let mut chunk = empty_chunk();
    chunk[3].add_background(MIST);
    chunk[77].add_background(RED);
    let before = chunk.clone();
    compute_mapblock(&air_block(), &config, 0, &mut chunk);
    assert_eq!(chunk, before);
}

#[test]
fn top_layer_paints_every_cell() {
    let config = test_config(true);
    let mut chunk = empty_chunk();
    compute_mapblock(&top_layer_block(b"stone"), &config, 160, &mut chunk);
    for cell in &chunk {
        assert_eq!(cell.ground_color, Some(RED));
        assert_eq!(cell.height, Some(175));
    }
}

#[test]
fn saturated_cell_ignores_deeper_blocks() {
    let config = test_config(false);
    let mut chunk = empty_chunk();
    compute_mapblock(&top_layer_block(b"stone"), &config, 160, &mut chunk);
    let before = chunk.clone();
    compute_mapblock(&top_layer_block(b"water"), &config, 144, &mut chunk);
    assert_eq!(chunk, before);
}

#[test]
fn one_pass_equals_separate_calls_with_carried_state() {
    let config = test_config(false);
    // A column of translucent layers: the first block already saturates.
    let block = full_block(b"mist");
    let mut one_pass = empty_chunk();
    for &y in [10i16, 9, 8].iter() {
        compute_mapblock(&block, &config, y * 16, &mut one_pass);
        if chunk_sufficient(&one_pass, config.sufficient_alpha) {
            break;
        }
    }
    let mut separate = empty_chunk();
    compute_mapblock(&block, &config, 160, &mut separate);
    compute_mapblock(&block, &config, 144, &mut separate);
    compute_mapblock(&block, &config, 128, &mut separate);
    assert_eq!(one_pass, separate);

    // A column of thin layers: no early stop, three blocks contribute.
    let thin = top_layer_block(b"mist");
    let mut one_pass = empty_chunk();
    for &y in [10i16, 9, 8].iter() {
        compute_mapblock(&thin, &config, y * 16, &mut one_pass);
        if chunk_sufficient(&one_pass, config.sufficient_alpha) {
            break;
        }
    }
    let mut separate = empty_chunk();
    compute_mapblock(&thin, &config, 160, &mut separate);
    compute_mapblock(&thin, &config, 144, &mut separate);
    compute_mapblock(&thin, &config, 128, &mut separate);
    assert_eq!(one_pass, separate);
    assert!(one_pass[0].ground_color.unwrap().a > 90);
}

#[test]
fn insert_chunk_roundtrips_through_get_color() {
    let mut t = Terrain::new(40, 40);
    let mut chunk = Vec::new();
    for i in 0..CHUNK_SIZE {
        let mut cell = TerrainCell::default();
        cell.add_background(Color { r: i as u8, g: (i / 2) as u8, b: 7, a: 255 });
        chunk.push(cell);
    }
    t.insert_chunk((3, 5), chunk.clone());
    for i in 0..CHUNK_SIZE {
        let x = 3 + (i as u32) % 16;
        let y = 5 + 15 - (i as u32) / 16;
        assert_eq!(t.get_color(x, y), chunk[i].ground_color);
    }
    // cells outside the chunk rectangle stay untouched
    assert_eq!(t.get_color(0, 0), None);
    assert_eq!(t.get_color(39, 39), None);
    assert_eq!(t.get_color(2, 5), None);
}

#[test]
fn reads_out_of_range_return_absence() {
    let t = Terrain::new(8, 8);
    assert!(t.get_cell(8, 0).is_none());
    assert!(t.get_cell(0, 8).is_none());
    assert!(t.get_color(1000, 1000).is_none());
    assert_eq!(t.height_diff_x(99, 0), None);
    assert_eq!(t.height_diff_y(0, 99), None);
}

/// Builds a 16 x 16 grid whose top chunk row carries the given elevations.
fn terrain_with_row_heights(heights: &[i16; 16]) -> Terrain {
    let mut t = Terrain::new(16, 16);
    let mut chunk = empty_chunk();
    for x in 0..16 {
        chunk[x].add_background(GRAY);
        chunk[x].set_height(heights[x]);
    }
    t.insert_chunk((0, 0), chunk);
    t
}

#[test]
fn height_diff_is_one_sided_at_edges() {
    let mut hs = [12i16; 16];
    hs[0] = 10;
    hs[15] = 20;
    let t = terrain_with_row_heights(&hs);
    // chunk row 0 lands on grid row 15
    // left edge: the cell stands in for its missing left neighbor
    assert_eq!(t.height_diff_x(0, 15), Some(2));
    // right edge: the cell stands in for its missing right neighbor
    assert_eq!(t.height_diff_x(15, 15), Some(-8));
    // flat interior
    assert_eq!(t.height_diff_x(5, 15), Some(0));
    // a cell without recorded elevation has no difference
    assert_eq!(t.height_diff_x(5, 14), None);
    // the in-bounds vertical neighbor has no elevation either
    assert_eq!(t.height_diff_y(5, 15), None);
}

#[test]
fn empty_world_renders_minimal_image() {
    let config = test_config(true);
    let (cols, bbox) = analyze_positions(&vec![]);
    assert!(cols.is_empty());
    let terrain = terrain_for_bbox(&bbox);
    assert_eq!(terrain.width(), 0);
    assert_eq!(terrain.height(), 1);
    let buf = terrain.render(&config).unwrap();
    assert_eq!(buf.width, 0);
    assert_eq!(buf.height, 1);
    assert_eq!(buf.data.len(), 0);
}

#[test]
fn single_red_surface_renders_red_region() {
    let config = test_config(true);
    let positions = vec![worldmapper::mapblock::Position { x: 0, y: 0, z: 0 }];
    let (cols, bbox) = analyze_positions(&positions);
    let mut terrain = terrain_for_bbox(&bbox);
    assert_eq!(terrain.width(), 16);
    assert_eq!(terrain.height(), 17);
    for (key, ys) in cols {
        let mut chunk = empty_chunk();
        for y in ys {
            compute_mapblock(&top_layer_block(b"stone"), &config, y * 16, &mut chunk);
            if chunk_sufficient(&chunk, config.sufficient_alpha) {
                break;
            }
        }
        let offset = chunk_offset(&bbox, key.0, key.1);
        terrain.insert_chunk(offset, chunk);
    }
    let buf = terrain.render(&config).unwrap();
    assert_eq!(buf.width, 16);
    assert_eq!(buf.height, 17);
    for y in 1..17 {
        for x in 0..16 {
            assert_eq!(pixel(&buf, x, y), RED);
        }
    }
    // the extra grid row above every chunk stays background
    for x in 0..16 {
        assert_eq!(pixel(&buf, x, 0), WHITE);
    }
}

#[test]
fn relief_shading_shades_step_boundary() {
    let mut hs = [10i16; 16];
    hs[15] = 12;
    let t = terrain_with_row_heights(&hs);
    let config = test_config(true);
    let buf = t.render(&config).unwrap();
    let unshaded = pixel(&buf, 5, 15);
    assert_eq!(unshaded, GRAY);
    // the cell beneath the step sees an ascent toward its higher neighbor
    let lower = pixel(&buf, 14, 15);
    assert_eq!(lower, Color { r: 104, g: 104, b: 104, a: 255 });
    // the cell atop the step sees a descent from its lower neighbor
    let higher = pixel(&buf, 15, 15);
    assert_eq!(higher, Color { r: 96, g: 96, b: 96, a: 255 });
}

#[test]
fn relief_shading_saturates_on_steep_cliffs() {
    let mut hs = [10i16; 16];
    hs[15] = 310;
    let t = terrain_with_row_heights(&hs);
    let config = test_config(true);
    let buf = t.render(&config).unwrap();
    // a slope of 300 shades by the full channel range
    assert_eq!(pixel(&buf, 14, 15), Color { r: 255, g: 255, b: 255, a: 255 });
    assert_eq!(pixel(&buf, 15, 15), Color { r: 0, g: 0, b: 0, a: 255 });
}

#[test]
fn shading_disabled_keeps_colors() {
    let mut hs = [10i16; 16];
    hs[15] = 12;
    let t = terrain_with_row_heights(&hs);
    let config = test_config(false);
    let buf = t.render(&config).unwrap();
    assert_eq!(pixel(&buf, 14, 15), GRAY);
    assert_eq!(pixel(&buf, 15, 15), GRAY);
}

#[test]
fn render_flattens_translucency_over_background() {
    let mut t = Terrain::new(16, 16);
    let mut chunk = empty_chunk();
    chunk[0].add_background(MIST);
    t.insert_chunk((0, 0), chunk);
    let config = test_config(false);
    let buf = t.render(&config).unwrap();
    let out = pixel(&buf, 0, 15);
    assert_eq!(out.a, 255);
    assert_eq!(out.b, 255);
    assert!(out.r > 150 && out.r < 180);
    assert_eq!(out.r, out.g);
}

#[test]
fn render_reports_oversized_dimensions() {
    let config = test_config(false);
    let wide = Terrain::new(u32::MAX as usize + 1, 0);
    assert!(matches!(
        wide.render(&config),
        Err(worldmapper::render::RenderingError::WidthTooBig)
    ));
    let tall = Terrain::new(0, u32::MAX as usize + 1);
    assert!(matches!(
        tall.render(&config),
        Err(worldmapper::render::RenderingError::HeightTooBig)
    ));
}

#[test]
fn chunk_offset_places_chunks_from_the_box() {
    let bbox = worldmapper::mapblock::Bbox { x: 0..2, z: 3..5 };
    assert_eq!(chunk_offset(&bbox, 0, 4), (0, 1));
    assert_eq!(chunk_offset(&bbox, 1, 3), (16, 17));
}
