//! Block coordinates, the column bounding box, and per-block compositing.

use crate::color::Color;
use crate::config::Config;
use crate::terrain::{spec_add_background, spec_cell_alpha, TerrainCell};
use vstd::multiset::Multiset;
use vstd::prelude::*;
use core::ops::Range;

verus! {

/// The edge length of a cubic storage block, in voxels.
pub const MAPBLOCK_LENGTH: usize = 16;

/// The number of cells in one horizontal block face.
pub const CHUNK_SIZE: usize = MAPBLOCK_LENGTH * MAPBLOCK_LENGTH;

/// The number of voxels in one cubic block.
pub const MAPBLOCK_SIZE: usize = MAPBLOCK_LENGTH * MAPBLOCK_LENGTH * MAPBLOCK_LENGTH;

/// The fixed per-cell saturation threshold: a cell whose accumulated alpha
/// already exceeds this is skipped when a further block is composited.
pub const SATURATION_ALPHA: u8 = 230;

/// A block coordinate: one cubic storage unit of edge length
/// [`MAPBLOCK_LENGTH`] voxels per side.
#[derive(Clone, Copy, Debug, PartialEq, Eq, Structural)]
pub struct Position {
    pub x: i16,
    pub y: i16,
    pub z: i16,
}

/// The inclusive-exclusive ranges of column coordinates covering every
/// occupied column; both ranges are empty when no column exists.
#[derive(Debug)]
pub struct Bbox {
    pub x: Range<i16>,
    pub z: Range<i16>,
}

impl Bbox {
    /// How many columns the box spans along the x axis.
    pub open spec fn x_span(&self) -> int {
        if self.x.start <= self.x.end {
            self.x.end - self.x.start
        } else {
            0
        }
    }

    /// How many columns the box spans along the z axis.
    pub open spec fn z_span(&self) -> int {
        if self.z.start <= self.z.end {
            self.z.end - self.z.start
        } else {
            0
        }
    }

    /// A box exists only when both ranges exist.
    pub fn from_opt_ranges(x: Option<Range<i16>>, z: Option<Range<i16>>) -> (r: Option<Bbox>)
        ensures
            match r {
                Some(bbox) => x == Some(bbox.x) && z == Some(bbox.z),
                None => x is None || z is None,
            },
    {
        match (x, z) {
            (Some(x), Some(z)) => Some(Bbox { x, z }),
            _ => None,
        }
    }
}

/// The range extended to cover `v`: a missing range becomes `v..v+1`; an
/// existing one has its start lowered to `v` or its end raised to `v+1`
/// when `v` falls outside it.
pub open spec fn spec_extended_range(r: Option<Range<i16>>, v: i16) -> Range<i16> {
    match r {
        Some(r0) => if v < r0.start {
            Range { start: v, end: r0.end }
        } else if v >= r0.end {
            Range { start: r0.start, end: (v + 1) as i16 }
        } else {
            r0
        },
        None => Range { start: v, end: (v + 1) as i16 },
    }
}

/// Extends a running coordinate range to cover one more value.
pub fn update_range(range: &mut Option<Range<i16>>, new_value: i16)
    requires
        new_value < i16::MAX,
    ensures
        *final(range) == Some(spec_extended_range(*old(range), new_value)),
{
    match range {
        Some(r) => {
            if new_value < r.start {
                r.start = new_value;
            } else if new_value >= r.end {
                r.end = new_value + 1;
            }
        }
        None => {
            *range = Some(Range { start: new_value, end: new_value + 1 });
        }
    }
}

/// Column entries: each occupied column key with its descending list of
/// block y coordinates, ready for top-down traversal.
pub type SortedPositions = Vec<((i16, i16), Vec<i16>)>;

/// A sequence ordered for top-down traversal: never ascending.
pub open spec fn sorted_desc(s: Seq<i16>) -> bool {
    forall|a: int, b: int| 0 <= a < b < s.len() ==> s[a] >= s[b]
}

/// The multiset of y coordinates of the positions lying in the column `key`.
pub open spec fn spec_column_ys(positions: Seq<Position>, key: (i16, i16)) -> Multiset<i16>
    decreases positions.len(),
{
    if positions.len() == 0 {
        Multiset::empty()
    } else {
        let rest = spec_column_ys(positions.drop_last(), key);
        let p = positions.last();
        if p.x == key.0 && p.z == key.1 {
            rest.insert(p.y)
        } else {
            rest
        }
    }
}

/// Extending the position list by one position extends exactly the multiset
/// of its own column.
pub proof fn lemma_column_ys_push(positions: Seq<Position>, p: Position, key: (i16, i16))
    ensures
        spec_column_ys(positions.push(p), key) == if p.x == key.0 && p.z == key.1 {
            spec_column_ys(positions, key).insert(p.y)
        } else {
            spec_column_ys(positions, key)
        },
{
    assert(positions.push(p).drop_last() =~= positions);
    assert(positions.push(p).last() == p);
}

/// A column no position lies in has an empty multiset.
pub proof fn lemma_column_ys_absent(positions: Seq<Position>, key: (i16, i16))
    requires
        forall|m: int|
            0 <= m < positions.len() ==> !(positions[m].x == key.0 && positions[m].z == key.1),
    ensures
        spec_column_ys(positions, key) == Multiset::<i16>::empty(),
    decreases positions.len(),
{
    if positions.len() > 0 {
        assert(forall|m: int|
            0 <= m < positions.drop_last().len() ==> positions.drop_last()[m] == positions[m]);
        lemma_column_ys_absent(positions.drop_last(), key);
    }
}

/// Inserting an element anywhere in a sequence inserts it into the
/// sequence's multiset.
proof fn lemma_to_multiset_insert(s: Seq<i16>, i: int, a: i16)
    requires
        0 <= i <= s.len(),
    ensures
        s.insert(i, a).to_multiset() == s.to_multiset().insert(a),
{
    broadcast use vstd::seq_lib::lemma_multiset_commutative;
    broadcast use vstd::seq_lib::group_to_multiset_ensures;

    let pre = s.subrange(0, i);
    let post = s.subrange(i, s.len() as int);
    assert(s =~= pre + post);
    assert(s.insert(i, a) == pre.push(a) + post);
    assert(pre.push(a).to_multiset() =~= pre.to_multiset().insert(a));
    assert(pre.to_multiset().insert(a).add(post.to_multiset()) =~= pre.to_multiset().add(
        post.to_multiset(),
    ).insert(a));
}

/// Inserts `y` into a descending list, keeping the order: it goes in front
/// of the first strictly smaller element.
fn insert_desc(ys: &mut Vec<i16>, y: i16)
    requires
        sorted_desc(old(ys)@),
    ensures
        sorted_desc(final(ys)@),
        final(ys)@.to_multiset() == old(ys)@.to_multiset().insert(y),
        final(ys)@.len() == old(ys)@.len() + 1,
{
    let mut idx: usize = 0;
    while idx < ys.len() && ys[idx] >= y
        invariant
            idx <= ys@.len(),
            *ys == *old(ys),
            forall|m: int| 0 <= m < idx ==> ys@[m] >= y,
        decreases ys@.len() - idx,
    {
        idx += 1;
    }
    proof {
        old(ys)@.insert_ensures(idx as int, y);
        lemma_to_multiset_insert(old(ys)@, idx as int, y);
    }
    ys.insert(idx, y);
    proof {
        assert forall|a: int, b: int| 0 <= a < b < ys@.len() implies ys@[a] >= ys@[b] by {
            if b < idx {
            } else if a == idx as int {
                assert(ys@[b] == old(ys)@[b - 1]);
            } else if b == idx as int {
                assert(ys@[a] == old(ys)@[a]);
            } else if a < idx {
                assert(ys@[a] == old(ys)@[a]);
                assert(ys@[b] == old(ys)@[b - 1]);
                if idx < b - 1 {
                    assert(old(ys)@[idx as int] >= old(ys)@[b - 1]);
                }
            } else {
                assert(ys@[a] == old(ys)@[a - 1]);
                assert(ys@[b] == old(ys)@[b - 1]);
            }
        }
    }
}

/// Finds the entry of a column key, if one exists.
fn find_key(cols: &SortedPositions, key: (i16, i16)) -> (r: Option<usize>)
    ensures
        match r {
            Some(k) => k < cols@.len() && cols@[k as int].0 == key,
            None => forall|k: int| 0 <= k < cols@.len() ==> cols@[k].0 != key,
        },
{
    let mut k: usize = 0;
    while k < cols.len()
        invariant
            k <= cols@.len(),
            forall|m: int| 0 <= m < k ==> cols@[m].0 != key,
        decreases cols@.len() - k,
    {
        if cols[k].0.0 == key.0 && cols[k].0.1 == key.1 {
            return Some(k);
        }
        k += 1;
    }
    None
}

/// Groups a listing of occupied block coordinates by column, each column's
/// y list descending and ready for top-down traversal, and computes the
/// bounding box of the occupied columns; an empty listing yields the empty
/// box.
pub fn analyze_positions(positions: &Vec<Position>) -> (r: (SortedPositions, Bbox))
    requires
        forall|m: int|
            0 <= m < positions@.len() ==> (#[trigger] positions@[m]).x < i16::MAX
                && positions@[m].z < i16::MAX,
    ensures
        forall|k1: int, k2: int| 0 <= k1 < k2 < r.0@.len() ==> r.0@[k1].0 != r.0@[k2].0,
        forall|k: int|
            0 <= k < r.0@.len() ==> (#[trigger] r.0@[k]).1@.to_multiset() == spec_column_ys(
                positions@,
                r.0@[k].0,
            ),
        forall|k: int| 0 <= k < r.0@.len() ==> sorted_desc((#[trigger] r.0@[k]).1@),
        forall|k: int| 0 <= k < r.0@.len() ==> (#[trigger] r.0@[k]).1@.len() > 0,
        forall|m: int|
            0 <= m < positions@.len() ==> exists|k: int|
                0 <= k < r.0@.len() && (#[trigger] r.0@[k]).0 == ((#[trigger] positions@[m]).x,
                positions@[m].z),
        positions@.len() == 0 ==> r.1.x.start == 0 && r.1.x.end == 0 && r.1.z.start == 0
            && r.1.z.end == 0,
        positions@.len() > 0 ==> {
            &&& forall|m: int|
                0 <= m < positions@.len() ==> r.1.x.start <= (#[trigger] positions@[m]).x
                    < r.1.x.end && r.1.z.start <= positions@[m].z < r.1.z.end
            &&& exists|m: int|
                0 <= m < positions@.len() && (#[trigger] positions@[m]).x == r.1.x.start
            &&& exists|m: int|
                0 <= m < positions@.len() && (#[trigger] positions@[m]).x + 1 == r.1.x.end
            &&& exists|m: int|
                0 <= m < positions@.len() && (#[trigger] positions@[m]).z == r.1.z.start
            &&& exists|m: int|
                0 <= m < positions@.len() && (#[trigger] positions@[m]).z + 1 == r.1.z.end
        },
{
    let mut cols: SortedPositions = Vec::new();
    let mut x_range: Option<Range<i16>> = None;
    let mut z_range: Option<Range<i16>> = None;
    let mut j: usize = 0;
    while j < positions.len()
        invariant
            j <= positions@.len(),
            forall|m: int|
                0 <= m < positions@.len() ==> (#[trigger] positions@[m]).x < i16::MAX
                    && positions@[m].z < i16::MAX,
            forall|k1: int, k2: int| 0 <= k1 < k2 < cols@.len() ==> cols@[k1].0 != cols@[k2].0,
            forall|k: int|
                0 <= k < cols@.len() ==> (#[trigger] cols@[k]).1@.to_multiset() == spec_column_ys(
                    positions@.subrange(0, j as int),
                    cols@[k].0,
                ),
            forall|k: int| 0 <= k < cols@.len() ==> sorted_desc((#[trigger] cols@[k]).1@),
            forall|k: int| 0 <= k < cols@.len() ==> (#[trigger] cols@[k]).1@.len() > 0,
            forall|m: int|
                0 <= m < j ==> exists|k: int|
                    0 <= k < cols@.len() && (#[trigger] cols@[k]).0 == ((
                    #[trigger] positions@[m]).x, positions@[m].z),
            match x_range {
                None => j == 0,
                Some(xr) => j > 0 && (forall|m: int|
                    0 <= m < j ==> xr.start <= (#[trigger] positions@[m]).x < xr.end) && (
                exists|m: int| 0 <= m < j && (#[trigger] positions@[m]).x == xr.start) && (
                exists|m: int| 0 <= m < j && (#[trigger] positions@[m]).x + 1 == xr.end),
            },
            match z_range {
                None => j == 0,
                Some(zr) => j > 0 && (forall|m: int|
                    0 <= m < j ==> zr.start <= (#[trigger] positions@[m]).z < zr.end) && (
                exists|m: int| 0 <= m < j && (#[trigger] positions@[m]).z == zr.start) && (
                exists|m: int| 0 <= m < j && (#[trigger] positions@[m]).z + 1 == zr.end),
            },
        decreases positions@.len() - j,
    {
        let p = positions[j];
        update_range(&mut x_range, p.x);
        update_range(&mut z_range, p.z);
        let key = (p.x, p.z);
        let ghost prefix = positions@.subrange(0, j as int);
        let ghost prefix2 = positions@.subrange(0, j as int + 1);
        proof {
            assert(prefix2 =~= prefix.push(p));
        }
        match find_key(&cols, key) {
            Some(k) => {
                let ghost cols_before = cols@;
                insert_desc(&mut cols[k].1, p.y);
                proof {
                    assert forall|kk: int| 0 <= kk < cols@.len() implies (
                    #[trigger] cols@[kk]).1@.to_multiset() == spec_column_ys(
                        prefix2,
                        cols@[kk].0,
                    ) by {
                        lemma_column_ys_push(prefix, p, cols@[kk].0);
                        if kk != k as int {
                            assert(cols@[kk] == cols_before[kk]);
                            assert(cols@[kk].0 != key);
                        }
                    }
                    assert forall|m: int| 0 <= m < j + 1 implies exists|k2: int|
                        0 <= k2 < cols@.len() && (#[trigger] cols@[k2]).0 == ((
                        #[trigger] positions@[m]).x, positions@[m].z) by {
                        if m == j as int {
                            assert(cols@[k as int].0 == (positions@[m].x, positions@[m].z));
                        } else {
                            let k3 = choose|k3: int|
                                0 <= k3 < cols_before.len() && (#[trigger] cols_before[k3]).0 == (
                                positions@[m].x, positions@[m].z);
                            assert(cols@[k3].0 == (positions@[m].x, positions@[m].z));
                        }
                    }
                }
            },
            None => {
                let mut ys: Vec<i16> = Vec::new();
                ys.push(p.y);
                let ghost cols_before = cols@;
                cols.push((key, ys));
                proof {
                    broadcast use vstd::seq_lib::group_to_multiset_ensures;

                    lemma_column_ys_absent(prefix, key);
                    assert(ys@ =~= Seq::<i16>::empty().push(p.y));
                    assert(ys@.to_multiset() =~= Multiset::<i16>::empty().insert(p.y));
                    assert forall|kk: int| 0 <= kk < cols@.len() implies (
                    #[trigger] cols@[kk]).1@.to_multiset() == spec_column_ys(
                        prefix2,
                        cols@[kk].0,
                    ) by {
                        lemma_column_ys_push(prefix, p, cols@[kk].0);
                        if kk < cols_before.len() {
                            assert(cols@[kk] == cols_before[kk]);
                            assert(cols@[kk].0 != key);
                        } else {
                            assert(cols@[kk] == (key, ys));
                        }
                    }
                    assert forall|m: int| 0 <= m < j + 1 implies exists|k2: int|
                        0 <= k2 < cols@.len() && (#[trigger] cols@[k2]).0 == ((
                        #[trigger] positions@[m]).x, positions@[m].z) by {
                        if m == j as int {
                            assert(cols@[cols_before.len() as int].0 == (positions@[m].x,
                            positions@[m].z));
                        } else {
                            let k3 = choose|k3: int|
                                0 <= k3 < cols_before.len() && (#[trigger] cols_before[k3]).0 == (
                                positions@[m].x, positions@[m].z);
                            assert(cols@[k3].0 == (positions@[m].x, positions@[m].z));
                        }
                    }
                }
            },
        }
        j += 1;
    }
    proof {
        assert(positions@.subrange(0, positions@.len() as int) =~= positions@);
    }
    let bbox = match Bbox::from_opt_ranges(x_range, z_range) {
        Some(b) => b,
        None => Bbox {
            x: Range { start: 0, end: 0 },
            z: Range { start: 0, end: 0 },
        },
    };
    (cols, bbox)
}

/// The voxel content of one storage block: per-voxel content ids in
/// x-fastest order (flat index `x + 16*y + 256*z`), and the palette mapping
/// each id to a content name.
#[derive(Debug)]
pub struct MapBlockData {
    pub param0: Vec<u16>,
    pub name_id_mappings: Vec<(u16, Vec<u8>)>,
}

/// The content name standing in for an id the palette does not map.
pub open spec fn unknown_name() -> Seq<u8> {
    seq![117u8, 110u8, 107u8, 110u8, 111u8, 119u8, 110u8]
}

/// The content name of empty space.
pub open spec fn air_name() -> Seq<u8> {
    seq![97u8, 105u8, 114u8]
}

/// The name the palette maps `id` to: that of the first entry carrying the
/// id, or the "unknown" name when no entry does.
pub open spec fn spec_name_of_id(mappings: Seq<(u16, Vec<u8>)>, id: u16) -> Seq<u8>
    decreases mappings.len(),
{
    if mappings.len() == 0 {
        unknown_name()
    } else if mappings[0].0 == id {
        mappings[0].1@
    } else {
        spec_name_of_id(mappings.drop_first(), id)
    }
}

/// Whether the palette holds exactly the one name "air": then no voxel of
/// the block can contribute a color.
pub open spec fn spec_all_air(block: MapBlockData) -> bool {
    block.name_id_mappings@.len() == 1 && block.name_id_mappings@[0].1@ == air_name()
}

/// The display color of the voxel at local `(lx, y, lz)`, resolved through
/// the palette and the configuration.
pub open spec fn spec_voxel_color(
    block: MapBlockData,
    config: Config,
    lx: int,
    y: int,
    lz: int,
) -> Option<Color> {
    config.spec_color_of(
        spec_name_of_id(block.name_id_mappings@, block.param0@[lx + 16 * y + 256 * lz]),
    )
}

/// The cell after one colored voxel at absolute elevation `h` is
/// composited: the color goes beneath the accumulated one, and the voxel's
/// elevation is recorded once the accumulated alpha exceeds the terrain
/// threshold, and again once it exceeds the sufficient threshold.
pub open spec fn spec_apply_voxel(
    cell: TerrainCell,
    color: Color,
    config: Config,
    h: i16,
) -> TerrainCell {
    let c1 = spec_add_background(cell, color);
    let c2 = if config.hill_shading.enabled && spec_cell_alpha(c1)
        > config.hill_shading.min_alpha as int {
        TerrainCell { ground_color: c1.ground_color, height: Some(h) }
    } else {
        c1
    };
    if spec_cell_alpha(c2) > config.sufficient_alpha as int {
        TerrainCell { ground_color: c2.ground_color, height: Some(h) }
    } else {
        c2
    }
}

/// The cell after the voxels `y, y-1, ..., 0` of the block column at
/// `(lx, lz)` are scanned top-down: each colored voxel is composited
/// beneath the cell, and the scan stops early once the accumulated alpha
/// exceeds the sufficient threshold.
pub open spec fn spec_scan_column(
    cell: TerrainCell,
    block: MapBlockData,
    config: Config,
    base_height: i16,
    lx: int,
    lz: int,
    y: int,
) -> TerrainCell
    decreases y + 1,
{
    if y < 0 {
        cell
    } else {
        match spec_voxel_color(block, config, lx, y, lz) {
            None => spec_scan_column(cell, block, config, base_height, lx, lz, y - 1),
            Some(color) => {
                let c1 = spec_apply_voxel(cell, color, config, (base_height + y) as i16);
                if spec_cell_alpha(c1) > config.sufficient_alpha as int {
                    c1
                } else {
                    spec_scan_column(c1, block, config, base_height, lx, lz, y - 1)
                }
            },
        }
    }
}

/// One cell after the whole block is composited over it: kept as it is when
/// already saturated, else scanned from the top voxel layer down.
pub open spec fn spec_cell_after_block(
    cell: TerrainCell,
    block: MapBlockData,
    config: Config,
    base_height: i16,
    lx: int,
    lz: int,
) -> TerrainCell {
    if spec_cell_alpha(cell) > SATURATION_ALPHA as int {
        cell
    } else {
        spec_scan_column(cell, block, config, base_height, lx, lz, 15)
    }
}

/// The chunk after one block is composited over it: unchanged for an
/// all-air block, else every cell takes the outcome of its own block
/// column.
pub open spec fn spec_compute_mapblock(
    chunk: Seq<TerrainCell>,
    block: MapBlockData,
    config: Config,
    base_height: i16,
) -> Seq<TerrainCell> {
    if spec_all_air(block) {
        chunk
    } else {
        Seq::new(
            chunk.len(),
            |i: int| spec_cell_after_block(chunk[i], block, config, base_height, i % 16, i / 16),
        )
    }
}

impl MapBlockData {
    /// The block stores one content id per voxel.
    pub open spec fn wf(&self) -> bool {
        self.param0@.len() == MAPBLOCK_SIZE
    }

    /// Whether the palette holds exactly the one name "air".
    pub fn is_all_air(&self) -> (r: bool)
        ensures
            r == spec_all_air(*self),
    {
        if self.name_id_mappings.len() != 1 {
            return false;
        }
        let name = &self.name_id_mappings[0].1;
        if name.len() != 3 {
            return false;
        }
        let r = name[0] == 97 && name[1] == 105 && name[2] == 114;
        proof {
            if r {
                assert(name@ =~= air_name());
            }
        }
        r
    }

    /// The display color of the voxel at flat index `idx`, resolved through
    /// the palette and the configuration.
    fn node_color(&self, config: &Config, idx: usize) -> (c: Option<Color>)
        requires
            idx < self.param0@.len(),
        ensures
            c == config.spec_color_of(
                spec_name_of_id(self.name_id_mappings@, self.param0@[idx as int]),
            ),
    {
        let id = self.param0[idx];
        let n = self.name_id_mappings.len();
        proof {
            assert(self.name_id_mappings@.subrange(0, n as int) =~= self.name_id_mappings@);
        }
        let mut i: usize = 0;
        while i < n
            invariant
                i <= n,
                n == self.name_id_mappings@.len(),
                idx < self.param0@.len(),
                id == self.param0@[idx as int],
                spec_name_of_id(self.name_id_mappings@, id) == spec_name_of_id(
                    self.name_id_mappings@.subrange(i as int, n as int),
                    id,
                ),
            decreases n - i,
        {
            let ghost rest = self.name_id_mappings@.subrange(i as int, n as int);
            proof {
                assert(rest[0] == self.name_id_mappings@[i as int]);
            }
            if self.name_id_mappings[i].0 == id {
                proof {
                    assert(spec_name_of_id(rest, id) == rest[0].1@);
                }
                return config.get_color(self.name_id_mappings[i].1.as_slice());
            }
            proof {
                assert(rest.drop_first() =~= self.name_id_mappings@.subrange(
                    i as int + 1,
                    n as int,
                ));
            }
            i += 1;
        }
        let mut unknown: Vec<u8> = Vec::new();
        unknown.push(117);
        unknown.push(110);
        unknown.push(107);
        unknown.push(110);
        unknown.push(111);
        unknown.push(119);
        unknown.push(110);
        proof {
            assert(unknown@ =~= unknown_name());
        }
        config.get_color(unknown.as_slice())
    }
}

/// The chunk after a column's blocks, ordered top-down, are composited in
/// turn, each entry pairing a block's base elevation with its content;
/// consumption stops as soon as every cell is sufficiently opaque.
pub open spec fn spec_compute_column(
    chunk: Seq<TerrainCell>,
    blocks: Seq<(i16, MapBlockData)>,
    config: Config,
) -> Seq<TerrainCell>
    decreases blocks.len(),
{
    if blocks.len() == 0 {
        chunk
    } else {
        let c1 = spec_compute_mapblock(chunk, blocks[0].1, config, blocks[0].0);
        if spec_chunk_sufficient(c1, config.sufficient_alpha) {
            c1
        } else {
            spec_compute_column(c1, blocks.drop_first(), config)
        }
    }
}

/// Compositing one voxel never lowers a cell's accumulated opacity.
proof fn lemma_apply_voxel_alpha(cell: TerrainCell, color: Color, config: Config, h: i16)
    ensures
        spec_cell_alpha(spec_apply_voxel(cell, color, config, h)) >= spec_cell_alpha(cell),
{
    match cell.ground_color {
        Some(c) => crate::color::lemma_over_alpha_monotone(c, color),
        None => {},
    }
}

/// Scanning a block column never lowers a cell's accumulated opacity.
proof fn lemma_scan_column_alpha_monotone(
    cell: TerrainCell,
    block: MapBlockData,
    config: Config,
    base_height: i16,
    lx: int,
    lz: int,
    y: int,
)
    ensures
        spec_cell_alpha(spec_scan_column(cell, block, config, base_height, lx, lz, y))
            >= spec_cell_alpha(cell),
    decreases y + 1,
{
    if y >= 0 {
        match spec_voxel_color(block, config, lx, y, lz) {
            None => {
                lemma_scan_column_alpha_monotone(cell, block, config, base_height, lx, lz, y - 1);
            },
            Some(color) => {
                let c1 = spec_apply_voxel(cell, color, config, (base_height + y) as i16);
                lemma_apply_voxel_alpha(cell, color, config, (base_height + y) as i16);
                if !(spec_cell_alpha(c1) > config.sufficient_alpha as int) {
                    lemma_scan_column_alpha_monotone(
                        c1,
                        block,
                        config,
                        base_height,
                        lx,
                        lz,
                        y - 1,
                    );
                }
            },
        }
    }
}

/// Compositing a block never lowers any cell's accumulated opacity: an
/// `over` blend cannot reduce opacity below its current value.
pub proof fn lemma_compute_mapblock_alpha_monotone(
    chunk: Seq<TerrainCell>,
    block: MapBlockData,
    config: Config,
    base_height: i16,
)
    ensures
        forall|i: int|
            0 <= i < chunk.len() ==> spec_cell_alpha(
                #[trigger] spec_compute_mapblock(chunk, block, config, base_height)[i],
            ) >= spec_cell_alpha(chunk[i]),
{
    if !spec_all_air(block) {
        assert forall|i: int| 0 <= i < chunk.len() implies spec_cell_alpha(
            #[trigger] spec_compute_mapblock(chunk, block, config, base_height)[i],
        ) >= spec_cell_alpha(chunk[i]) by {
            if !(spec_cell_alpha(chunk[i]) > SATURATION_ALPHA as int) {
                lemma_scan_column_alpha_monotone(
                    chunk[i],
                    block,
                    config,
                    base_height,
                    i % 16,
                    i / 16,
                    15,
                );
            }
        }
    }
}

/// Once a cell's alpha exceeds the sufficient threshold, and the threshold
/// stands at least at the internal saturation threshold, no further block
/// changes that cell.
pub proof fn lemma_saturated_cell_stable(
    chunk: Seq<TerrainCell>,
    block: MapBlockData,
    config: Config,
    base_height: i16,
    i: int,
)
    requires
        config.sufficient_alpha >= SATURATION_ALPHA,
        0 <= i < chunk.len(),
        spec_cell_alpha(chunk[i]) > config.sufficient_alpha as int,
    ensures
        spec_compute_mapblock(chunk, block, config, base_height)[i] == chunk[i],
{
}

/// A chunk already sufficient everywhere is a fixed point of block
/// compositing, the sufficient threshold standing at least at the internal
/// saturation threshold.
pub proof fn lemma_sufficient_chunk_fixed(
    chunk: Seq<TerrainCell>,
    block: MapBlockData,
    config: Config,
    base_height: i16,
)
    requires
        config.sufficient_alpha >= SATURATION_ALPHA,
        spec_chunk_sufficient(chunk, config.sufficient_alpha),
    ensures
        spec_compute_mapblock(chunk, block, config, base_height) == chunk,
{
    assert(spec_compute_mapblock(chunk, block, config, base_height) =~= chunk);
}

/// A chunk already sufficient everywhere consumes a whole column unchanged.
proof fn lemma_sufficient_column_fixed(
    chunk: Seq<TerrainCell>,
    blocks: Seq<(i16, MapBlockData)>,
    config: Config,
)
    requires
        config.sufficient_alpha >= SATURATION_ALPHA,
        spec_chunk_sufficient(chunk, config.sufficient_alpha),
    ensures
        spec_compute_column(chunk, blocks, config) == chunk,
    decreases blocks.len(),
{
    if blocks.len() > 0 {
        lemma_sufficient_chunk_fixed(chunk, blocks[0].1, config, blocks[0].0);
    }
}

/// Split-invariance of column compositing: consuming a column's blocks in
/// one pass equals consuming a leading part and then the rest in separate
/// passes with the carried-over chunk, the sufficient threshold standing at
/// least at the internal saturation threshold.
pub proof fn lemma_column_split(
    chunk: Seq<TerrainCell>,
    blocks1: Seq<(i16, MapBlockData)>,
    blocks2: Seq<(i16, MapBlockData)>,
    config: Config,
)
    requires
        config.sufficient_alpha >= SATURATION_ALPHA,
    ensures
        spec_compute_column(chunk, blocks1 + blocks2, config) == spec_compute_column(
            spec_compute_column(chunk, blocks1, config),
            blocks2,
            config,
        ),
    decreases blocks1.len(),
{
    if blocks1.len() == 0 {
        assert(blocks1 + blocks2 =~= blocks2);
    } else {
        assert((blocks1 + blocks2)[0] == blocks1[0]);
        let c1 = spec_compute_mapblock(chunk, blocks1[0].1, config, blocks1[0].0);
        if spec_chunk_sufficient(c1, config.sufficient_alpha) {
            lemma_sufficient_column_fixed(c1, blocks2, config);
        } else {
            assert((blocks1 + blocks2).drop_first() =~= blocks1.drop_first() + blocks2);
            lemma_column_split(c1, blocks1.drop_first(), blocks2, config);
        }
    }
}

/// Within one column's compositing, the accumulated alpha of every cell is
/// monotonically non-decreasing as the scan proceeds deeper.
pub proof fn lemma_compute_column_alpha_monotone(
    chunk: Seq<TerrainCell>,
    blocks: Seq<(i16, MapBlockData)>,
    config: Config,
)
    ensures
        spec_compute_column(chunk, blocks, config).len() == chunk.len(),
        forall|i: int|
            0 <= i < chunk.len() ==> spec_cell_alpha(
                #[trigger] spec_compute_column(chunk, blocks, config)[i],
            ) >= spec_cell_alpha(chunk[i]),
    decreases blocks.len(),
{
    if blocks.len() > 0 {
        let c1 = spec_compute_mapblock(chunk, blocks[0].1, config, blocks[0].0);
        lemma_compute_mapblock_alpha_monotone(chunk, blocks[0].1, config, blocks[0].0);
        if !spec_chunk_sufficient(c1, config.sufficient_alpha) {
            lemma_compute_column_alpha_monotone(c1, blocks.drop_first(), config);
        }
    }
}

/// Once a cell's alpha exceeds the sufficient threshold, no further block
/// of the whole remaining column changes that cell, the threshold standing
/// at least at the internal saturation threshold.
pub proof fn lemma_saturated_cell_stable_column(
    chunk: Seq<TerrainCell>,
    blocks: Seq<(i16, MapBlockData)>,
    config: Config,
    i: int,
)
    requires
        config.sufficient_alpha >= SATURATION_ALPHA,
        0 <= i < chunk.len(),
        spec_cell_alpha(chunk[i]) > config.sufficient_alpha as int,
    ensures
        spec_compute_column(chunk, blocks, config).len() == chunk.len(),
        spec_compute_column(chunk, blocks, config)[i] == chunk[i],
    decreases blocks.len(),
{
    if blocks.len() > 0 {
        let c1 = spec_compute_mapblock(chunk, blocks[0].1, config, blocks[0].0);
        lemma_saturated_cell_stable(chunk, blocks[0].1, config, blocks[0].0, i);
        assert(c1.len() == chunk.len());
        if !spec_chunk_sufficient(c1, config.sufficient_alpha) {
            lemma_saturated_cell_stable_column(c1, blocks.drop_first(), config, i);
        }
    }
}

/// Whether every cell of the chunk has exceeded the sufficient alpha: the
/// column is visually resolved and no deeper block can show through.
pub open spec fn spec_chunk_sufficient(chunk: Seq<TerrainCell>, sufficient_alpha: u8) -> bool {
    forall|i: int| 0 <= i < chunk.len() ==> spec_cell_alpha(chunk[i]) > sufficient_alpha as int
}

/// Tests whether every cell of the chunk has exceeded the sufficient alpha.
pub fn chunk_sufficient(chunk: &Vec<TerrainCell>, sufficient_alpha: u8) -> (r: bool)
    ensures
        r == spec_chunk_sufficient(chunk@, sufficient_alpha),
{
    let mut i: usize = 0;
    while i < chunk.len()
        invariant
            i <= chunk@.len(),
            forall|j: int| 0 <= j < i ==> spec_cell_alpha(chunk@[j]) > sufficient_alpha as int,
        decreases chunk@.len() - i,
    {
        if chunk[i].alpha() <= sufficient_alpha {
            return false;
        }
        i += 1;
    }
    true
}

/// Composites one fetched block over the accumulated chunk of its column.
/// `base_height` is the world elevation of the block's lowest voxel layer.
pub fn compute_mapblock(
    mapblock: &MapBlockData,
    config: &Config,
    base_height: i16,
    acc: &mut Vec<TerrainCell>,
)
    requires
        mapblock.wf(),
        old(acc)@.len() == CHUNK_SIZE,
        base_height <= i16::MAX - 15,
    ensures
        final(acc)@ == spec_compute_mapblock(old(acc)@, *mapblock, *config, base_height),
        spec_all_air(*mapblock) ==> final(acc)@ == old(acc)@,
        forall|i: int|
            0 <= i < CHUNK_SIZE && spec_cell_alpha(old(acc)@[i]) > SATURATION_ALPHA as int
                ==> final(acc)@[i] == old(acc)@[i],
{
    if mapblock.is_all_air() {
        return;
    }
    let mut z: usize = 0;
    while z < MAPBLOCK_LENGTH
        invariant
            z <= MAPBLOCK_LENGTH,
            acc@.len() == CHUNK_SIZE,
            mapblock.wf(),
            base_height <= i16::MAX - 15,
            forall|i: int|
                0 <= i < CHUNK_SIZE ==> acc@[i] == if i / 16 < z {
                    spec_cell_after_block(
                        old(acc)@[i],
                        *mapblock,
                        *config,
                        base_height,
                        i % 16,
                        i / 16,
                    )
                } else {
                    old(acc)@[i]
                },
        decreases MAPBLOCK_LENGTH - z,
    {
        let mut x: usize = 0;
        while x < MAPBLOCK_LENGTH
            invariant
                x <= MAPBLOCK_LENGTH,
                z < MAPBLOCK_LENGTH,
                acc@.len() == CHUNK_SIZE,
                mapblock.wf(),
                base_height <= i16::MAX - 15,
                forall|i: int|
                    0 <= i < CHUNK_SIZE ==> acc@[i] == if i / 16 < z || (i / 16 == z && i % 16
                        < x) {
                        spec_cell_after_block(
                            old(acc)@[i],
                            *mapblock,
                            *config,
                            base_height,
                            i % 16,
                            i / 16,
                        )
                    } else {
                        old(acc)@[i]
                    },
            decreases MAPBLOCK_LENGTH - x,
        {
            let index = x + MAPBLOCK_LENGTH * z;
            let current = acc[index];
            if current.alpha() <= SATURATION_ALPHA {
                let mut cell = current;
                let mut y: usize = MAPBLOCK_LENGTH;
                while y > 0
                    invariant_except_break
                        y <= MAPBLOCK_LENGTH,
                        x < MAPBLOCK_LENGTH,
                        z < MAPBLOCK_LENGTH,
                        mapblock.wf(),
                        base_height <= i16::MAX - 15,
                        spec_scan_column(
                            current,
                            *mapblock,
                            *config,
                            base_height,
                            x as int,
                            z as int,
                            15,
                        ) == spec_scan_column(
                            cell,
                            *mapblock,
                            *config,
                            base_height,
                            x as int,
                            z as int,
                            y as int - 1,
                        ),
                    ensures
                        cell == spec_scan_column(
                            current,
                            *mapblock,
                            *config,
                            base_height,
                            x as int,
                            z as int,
                            15,
                        ),
                    decreases y,
                {
                    y -= 1;
                    let idx_v = x + 16 * y + 256 * z;
                    match mapblock.node_color(config, idx_v) {
                        Some(color) => {
                            cell.add_background(color);
                            let h = base_height + (y as i16);
                            if config.hill_shading.enabled && cell.alpha()
                                > config.hill_shading.min_alpha {
                                cell.set_height(h);
                            }
                            if cell.alpha() > config.sufficient_alpha {
                                cell.set_height(h);
                                break;
                            }
                        },
                        None => {},
                    }
                }
                acc[index] = cell;
            }
            proof {
                assert(index as int % 16 == x as int && index as int / 16 == z as int)
                    by (nonlinear_arith)
                    requires
                        index == x + 16 * z,
                        0 <= x < 16,
                        0 <= z < 16,
                ;
            }
            x += 1;
        }
        z += 1;
    }
    proof {
        assert(acc@ =~= spec_compute_mapblock(old(acc)@, *mapblock, *config, base_height));
    }
}

} // verus!
