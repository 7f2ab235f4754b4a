//! Rendering configuration: thresholds, the background color, and the
//! display color of each voxel content name.

use crate::color::Color;
use vstd::prelude::*;

verus! {

/// The opacity a composited cell must exceed before deeper voxels are
/// considered invisible and the scan may move on.
pub fn default_sufficient_alpha() -> (a: u8)
    ensures
        a == 230,
{
    230
}

/// The opacity a composited cell must exceed before a voxel's elevation is
/// recorded for relief shading.
pub fn default_terrain_min_alpha() -> (a: u8)
    ensures
        a == 128,
{
    128
}

pub fn default_hillshading_enabled() -> (e: bool)
    ensures
        e,
{
    true
}

/// Relief-shading settings.
#[derive(Clone, Copy, Debug, PartialEq, Eq, Structural)]
pub struct HillShading {
    pub enabled: bool,
    /// Which alpha a composited cell has to exceed to count as terrain.
    pub min_alpha: u8,
}

impl Default for HillShading {
    fn default() -> (h: HillShading)
        ensures
            h == (HillShading { enabled: true, min_alpha: 128 }),
    {
        HillShading { enabled: default_hillshading_enabled(), min_alpha: default_terrain_min_alpha() }
    }
}

/// The display color paired with the first key equal to `name`, if any.
pub open spec fn assoc_color(pairs: Seq<(Vec<u8>, Color)>, name: Seq<u8>) -> Option<Color>
    decreases pairs.len(),
{
    if pairs.len() == 0 {
        None
    } else if pairs[0].0@ == name {
        Some(pairs[0].1)
    } else {
        assoc_color(pairs.drop_first(), name)
    }
}

/// Rendering configuration.
#[derive(Clone, Debug)]
pub struct Config {
    /// Which opacity is considered enough to continue with the next cell.
    pub sufficient_alpha: u8,
    /// Which color to place beneath every pixel that stays translucent.
    pub background_color: Color,
    /// The display color of each voxel content name.
    pub node_colors: Vec<(Vec<u8>, Color)>,
    pub hill_shading: HillShading,
}

/// Compares a stored key with a queried content name byte for byte.
fn bytes_eq(a: &Vec<u8>, b: &[u8]) -> (r: bool)
    ensures
        r == (a@ == b@),
{
    if a.len() != b.len() {
        return false;
    }
    let mut i: usize = 0;
    while i < a.len()
        invariant
            i <= a@.len(),
            a@.len() == b@.len(),
            forall|j: int| 0 <= j < i ==> a@[j] == b@[j],
        decreases a@.len() - i,
    {
        if a[i] != b[i] {
            return false;
        }
        i += 1;
    }
    proof {
        assert(a@ =~= b@);
    }
    true
}

impl Config {
    /// The display color the configuration assigns to a content name.
    pub open spec fn spec_color_of(&self, name: Seq<u8>) -> Option<Color> {
        assoc_color(self.node_colors@, name)
    }

    /// Looks up the display color of a voxel content name.
    pub fn get_color(&self, itemstring: &[u8]) -> (c: Option<Color>)
        ensures
            c == self.spec_color_of(itemstring@),
    {
        let n = self.node_colors.len();
        proof {
            assert(self.node_colors@.subrange(0, n as int) =~= self.node_colors@);
        }
        let mut i: usize = 0;
        while i < n
            invariant
                i <= n,
                n == self.node_colors@.len(),
                assoc_color(self.node_colors@, itemstring@) == assoc_color(
                    self.node_colors@.subrange(i as int, n as int),
                    itemstring@,
                ),
            decreases n - i,
        {
            let ghost rest = self.node_colors@.subrange(i as int, n as int);
            proof {
                assert(rest[0] == self.node_colors@[i as int]);
            }
            if bytes_eq(&self.node_colors[i].0, itemstring) {
                return Some(self.node_colors[i].1);
            }
            proof {
                assert(rest.drop_first() =~= self.node_colors@.subrange(i as int + 1, n as int));
            }
            i += 1;
        }
        proof {
            assert(self.node_colors@.subrange(n as int, n as int).len() == 0);
        }
        None
    }
}

} // verus!
