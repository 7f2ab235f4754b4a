//! Relief shading and the final flattening of the terrain grid into an
//! opaque pixel buffer.

use crate::color::{sat_add_u8, sat_sub_u8, spec_over, Color};
use crate::config::Config;
use crate::mapblock::{Bbox, MAPBLOCK_LENGTH};
use crate::terrain::{chunk_covers, clamp_i16, Terrain};
use vstd::prelude::*;

verus! {

/// Why a terrain grid could not be rendered.
#[derive(Clone, Copy, Debug, PartialEq, Eq, Structural)]
pub enum RenderingError {
    /// The grid width does not fit the image coordinate domain.
    WidthTooBig,
    /// The grid height does not fit the image coordinate domain.
    HeightTooBig,
}

/// The shading step for a slope: twice the magnitude, saturating at the
/// channel bound.
pub open spec fn spec_shade_step(magnitude: int) -> u8 {
    if 2 * magnitude > 255 {
        255
    } else {
        (2 * magnitude) as u8
    }
}

/// The color shaded by a slope: darkened stepwise on a descent, lightened
/// on an ascent, kept on flat ground.
pub open spec fn spec_shaded(c: Color, hd: int) -> Color {
    if hd < 0 {
        let d = spec_shade_step(-hd);
        Color { r: sat_sub_u8(c.r, d), g: sat_sub_u8(c.g, d), b: sat_sub_u8(c.b, d), a: c.a }
    } else if hd > 0 {
        let d = spec_shade_step(hd);
        Color { r: sat_add_u8(c.r, d), g: sat_add_u8(c.g, d), b: sat_add_u8(c.b, d), a: c.a }
    } else {
        c
    }
}

/// Shades a color by the local elevation difference.
fn shade(color: &mut Color, height_diff: i16)
    ensures
        *final(color) == spec_shaded(*old(color), height_diff as int),
{
    if height_diff < 0 {
        let mag = -(height_diff as i32);
        let step: u8 = if mag > 127 {
            255
        } else {
            (2 * mag) as u8
        };
        color.darken(step);
    }
    if height_diff > 0 {
        let mag = height_diff as i32;
        let step: u8 = if mag > 127 {
            255
        } else {
            (2 * mag) as u8
        };
        color.lighten_up(step);
    }
}

/// An opaque RGBA pixel buffer: four bytes per pixel, rows in reading
/// order, `4 * (y * width + x)` the offset of the pixel at `(x, y)`.
pub struct PixelBuffer {
    pub width: u32,
    pub height: u32,
    pub data: Vec<u8>,
}

impl PixelBuffer {
    /// The buffer holds four bytes for each of its pixels.
    pub open spec fn wf(&self) -> bool {
        self.data@.len() == 4 * self.width * self.height
    }
}

/// The pixel at `(x, y)` of a row-major RGBA byte buffer of width `width`.
pub open spec fn spec_pixel_at(data: Seq<u8>, width: int, x: int, y: int) -> Color {
    Color {
        r: data[4 * (y * width + x)],
        g: data[4 * (y * width + x) + 1],
        b: data[4 * (y * width + x) + 2],
        a: data[4 * (y * width + x) + 3],
    }
}

impl Terrain {
    /// The total slope at `(x, y)`: the sum of the two per-axis elevation
    /// differences, a missing axis counting as flat, saturating.
    pub open spec fn spec_heightdiff(&self, x: int, y: int) -> i16 {
        let dx = match self.spec_height_diff_x(x, y) {
            Some(d) => d,
            None => 0,
        };
        let dy = match self.spec_height_diff_y(x, y) {
            Some(d) => d,
            None => 0,
        };
        clamp_i16(dx + dy)
    }

    /// The total slope at `(x, y)`.
    fn heightdiff(&self, x: u32, y: u32) -> (d: i16)
        requires
            self.wf(),
        ensures
            d == self.spec_heightdiff(x as int, y as int),
    {
        let x_diff = match self.height_diff_x(x, y) {
            Some(d) => d,
            None => 0,
        };
        let y_diff = match self.height_diff_y(x, y) {
            Some(d) => d,
            None => 0,
        };
        let s = x_diff as i32 + y_diff as i32;
        if s > i16::MAX as i32 {
            i16::MAX
        } else if s < i16::MIN as i32 {
            i16::MIN
        } else {
            s as i16
        }
    }

    /// The color of the output pixel at `(x, y)`: the cell's composited
    /// color, or the background where none exists, shaded by the local
    /// slope when relief shading is on, and finally laid over the
    /// background so that residual transparency cannot reach the output.
    pub open spec fn spec_rendered_pixel(&self, config: Config, x: int, y: int) -> Color {
        let base = match self.spec_cell(x, y).ground_color {
            Some(c) => c,
            None => config.background_color,
        };
        let shaded = if config.hill_shading.enabled {
            spec_shaded(base, self.spec_heightdiff(x, y) as int)
        } else {
            base
        };
        spec_over(shaded, config.background_color)
    }

    /// Flattens the grid into an opaque pixel buffer, shading every pixel
    /// by the local slope when relief shading is enabled. Fails with a
    /// typed error when a grid dimension does not fit the image coordinate
    /// domain.
    pub fn render(&self, config: &Config) -> (r: Result<PixelBuffer, RenderingError>)
        requires
            self.wf(),
            4 * self.spec_width() * self.spec_height() <= usize::MAX,
        ensures
            match r {
                Ok(buf) => {
                    &&& buf.wf()
                    &&& buf.width == self.spec_width()
                    &&& buf.height == self.spec_height()
                    &&& forall|x: int, y: int|
                        0 <= x < self.spec_width() && 0 <= y < self.spec_height()
                            ==> spec_pixel_at(buf.data@, self.spec_width(), x, y)
                            == self.spec_rendered_pixel(*config, x, y)
                },
                Err(RenderingError::WidthTooBig) => self.spec_width() > u32::MAX,
                Err(RenderingError::HeightTooBig) => self.spec_width() <= u32::MAX
                    && self.spec_height() > u32::MAX,
            },
    {
        if self.width() > u32::MAX as usize {
            return Err(RenderingError::WidthTooBig);
        }
        if self.height() > u32::MAX as usize {
            return Err(RenderingError::HeightTooBig);
        }
        let w = self.width() as u32;
        let h = self.height() as u32;
        let mut data: Vec<u8> = Vec::new();
        let mut y: u32 = 0;
        while y < h
            invariant
                self.wf(),
                4 * self.spec_width() * self.spec_height() <= usize::MAX,
                w == self.spec_width(),
                h == self.spec_height(),
                y <= h,
                data@.len() == 4 * ((y as int) * (w as int)),
                forall|xx: int, yy: int|
                    0 <= xx < w && 0 <= yy < y ==> spec_pixel_at(data@, w as int, xx, yy)
                        == self.spec_rendered_pixel(*config, xx, yy),
            decreases h - y,
        {
            let mut x: u32 = 0;
            while x < w
                invariant
                    self.wf(),
                    4 * self.spec_width() * self.spec_height() <= usize::MAX,
                    w == self.spec_width(),
                    h == self.spec_height(),
                    y < h,
                    x <= w,
                    data@.len() == 4 * ((y as int) * (w as int) + (x as int)),
                    forall|xx: int, yy: int|
                        0 <= xx < w && (0 <= yy < y || (yy == y && 0 <= xx < x)) ==> spec_pixel_at(
                            data@,
                            w as int,
                            xx,
                            yy,
                        ) == self.spec_rendered_pixel(*config, xx, yy),
                decreases w - x,
            {
                proof {
                    assert((y as int) * (w as int) + (x as int) < (w as int) * (h as int))
                        by (nonlinear_arith)
                        requires
                            0 <= x < w as int,
                            0 <= y < h as int,
                    ;
                }
                let mut col = match self.get_color(x, y) {
                    Some(c) => c,
                    None => config.background_color,
                };
                if config.hill_shading.enabled {
                    let hd = self.heightdiff(x, y);
                    shade(&mut col, hd);
                }
                let out = col.with_background(&config.background_color);
                let ghost data_before = data@;
                data.push(out.r);
                data.push(out.g);
                data.push(out.b);
                data.push(out.a);
                proof {
                    assert forall|xx: int, yy: int|
                        0 <= xx < w && (0 <= yy < y || (yy == y && 0 <= xx < x + 1))
                            implies spec_pixel_at(data@, w as int, xx, yy)
                        == self.spec_rendered_pixel(*config, xx, yy) by {
                        if yy < y || xx < x {
                            assert(4 * (yy * (w as int) + xx) + 3 < data_before.len())
                                by (nonlinear_arith)
                                requires
                                    0 <= xx < w as int,
                                    0 <= yy <= y as int,
                                    yy < y as int || xx < x as int,
                                    data_before.len() == 4 * ((y as int) * (w as int) + (x as int)),
                            ;
                            assert(spec_pixel_at(data@, w as int, xx, yy) == spec_pixel_at(
                                data_before,
                                w as int,
                                xx,
                                yy,
                            ));
                        } else {
                            assert(spec_pixel_at(data@, w as int, xx, yy) == out);
                        }
                    }
                }
                x += 1;
            }
            proof {
                assert(4 * ((y as int) * (w as int) + (w as int)) == 4 * (((y as int) + 1) * (
                w as int))) by (nonlinear_arith);
            }
            y += 1;
        }
        proof {
            assert(4 * ((h as int) * (w as int)) == 4 * (w as int) * (h as int))
                by (nonlinear_arith);
        }
        Ok(PixelBuffer { width: w, height: h, data })
    }
}

/// The terrain grid sized for a bounding box: one cell per voxel column of
/// the covered area, plus one extra grid row.
pub fn terrain_for_bbox(bbox: &Bbox) -> (t: Terrain)
    requires
        MAPBLOCK_LENGTH * bbox.x_span() * (MAPBLOCK_LENGTH * bbox.z_span() + 1) <= usize::MAX,
    ensures
        t.wf(),
        t.spec_width() == MAPBLOCK_LENGTH * bbox.x_span(),
        t.spec_height() == MAPBLOCK_LENGTH * bbox.z_span() + 1,
        forall|x: int, y: int|
            t.in_bounds(x, y) ==> t.spec_cell(x, y) == (crate::terrain::TerrainCell {
                ground_color: None,
                height: None,
            }),
{
    let x_span: usize = if bbox.x.end > bbox.x.start {
        (bbox.x.end as i32 - bbox.x.start as i32) as usize
    } else {
        0
    };
    let z_span: usize = if bbox.z.end > bbox.z.start {
        (bbox.z.end as i32 - bbox.z.start as i32) as usize
    } else {
        0
    };
    proof {
        assert(16 * x_span <= 16 * x_span * (16 * z_span + 1)) by (nonlinear_arith)
            requires
                0 <= x_span,
                0 <= z_span,
        ;
    }
    let width = MAPBLOCK_LENGTH * x_span;
    let height = MAPBLOCK_LENGTH * z_span + 1;
    Terrain::new(width, height)
}

/// Where a column's chunk lands on the grid built by [`terrain_for_bbox`]:
/// chunks advance with x from the box's low edge, and rows run against z,
/// the highest z landing on the top rows; the extra grid row stays above
/// every chunk.
pub fn chunk_offset(bbox: &Bbox, x: i16, z: i16) -> (offset: (u32, u32))
    requires
        bbox.x.start <= x < bbox.x.end,
        bbox.z.start <= z < bbox.z.end,
    ensures
        offset.0 == MAPBLOCK_LENGTH * (x - bbox.x.start),
        offset.1 == MAPBLOCK_LENGTH * (bbox.z.end - 1 - z) + 1,
        offset.0 + MAPBLOCK_LENGTH <= MAPBLOCK_LENGTH * bbox.x_span(),
        offset.1 + MAPBLOCK_LENGTH <= MAPBLOCK_LENGTH * bbox.z_span() + 1,
{
    let ox = (x as i32 - bbox.x.start as i32) * 16;
    let oz = (bbox.z.end as i32 - 1 - z as i32) * 16 + 1;
    (ox as u32, oz as u32)
}

/// Chunks of distinct columns land on disjoint grid rectangles: each grid
/// cell is written by exactly one chunk insertion. The offsets are those of
/// [`chunk_offset`].
pub proof fn lemma_chunk_regions_disjoint(
    bbox: Bbox,
    x1: i16,
    z1: i16,
    x2: i16,
    z2: i16,
    o1: (u32, u32),
    o2: (u32, u32),
    px: int,
    py: int,
)
    requires
        bbox.x.start <= x1 < bbox.x.end,
        bbox.z.start <= z1 < bbox.z.end,
        bbox.x.start <= x2 < bbox.x.end,
        bbox.z.start <= z2 < bbox.z.end,
        !(x1 == x2 && z1 == z2),
        o1.0 == MAPBLOCK_LENGTH * (x1 - bbox.x.start),
        o1.1 == MAPBLOCK_LENGTH * (bbox.z.end - 1 - z1) + 1,
        o2.0 == MAPBLOCK_LENGTH * (x2 - bbox.x.start),
        o2.1 == MAPBLOCK_LENGTH * (bbox.z.end - 1 - z2) + 1,
    ensures
        !(chunk_covers(o1, px, py) && chunk_covers(o2, px, py)),
{
}

} // verus!
