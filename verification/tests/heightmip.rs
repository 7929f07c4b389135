use voxel_world::block::{BlockId, Detail};
use voxel_world::ui::Color;
use voxel_world::world::coverage::SectionPos;
use voxel_world::world::generation::{layered, TerrainGenerator};
use voxel_world::world::heightmip::{merge, BakeExtent, HeightMip, MipCell, SECTION_N};
use voxel_world::world::lod::{cell, section_span};

const FINEST: i8 = 2;

/// Ridges whose phase depends on the seed.
struct Ridges(i32);

impl TerrainGenerator for Ridges {
    fn ready(&self) -> bool {
        unreachable!()
    }
    fn reaches(&self, _wy: i32) -> bool {
        unreachable!()
    }
    fn height_spec(&self, _wx: i32, _wz: i32) -> i32 {
        unreachable!()
    }
    fn surface_spec(&self, _wx: i32, _wz: i32) -> BlockId {
        unreachable!()
    }
    fn deep_spec(&self) -> BlockId {
        unreachable!()
    }
    fn block_spec(&self, _wx: i32, _wy: i32, _wz: i32, _height: i32) -> BlockId {
        unreachable!()
    }
    fn lod_spec(&self, _wx: i32, _wy: i32, _wz: i32) -> BlockId {
        unreachable!()
    }
    fn height(&self, wx: i32, wz: i32) -> i32 {
        20 + (wx + self.0).rem_euclid(97) / 3 + (wz - self.0).rem_euclid(61) / 2
    }
    fn surface_at(&self, wx: i32, wz: i32) -> BlockId {
        BlockId(1 + ((wx.rem_euclid(200) + wz.rem_euclid(200)) / 100) as u16)
    }
    fn deep(&self) -> BlockId {
        BlockId(1)
    }
    fn block_at(&self, wx: i32, wy: i32, wz: i32, height: i32) -> BlockId {
        layered(self.surface_at(wx, wz), self.deep(), wy, height)
    }
    fn lod_block_at(&self, wx: i32, wy: i32, wz: i32) -> BlockId {
        self.block_at(wx, wy, wz, self.height(wx, wz))
    }
}

fn tint(id: BlockId) -> Color {
    Color { r: 40 * id.0 as u8, g: 100, b: 7, a: 255 }
}

#[test]
fn a_square_of_half_the_world_can_be_baked() {
    let mip = HeightMip::bake(&Ridges(7), &tint, &BakeExtent::new(0x4000_0000, 22, 24));
    let coarsest = &mip.levels[2];
    assert_eq!((coarsest.x0, coarsest.nx), (-2, 5));
    let whole = HeightMip::bake(&Ridges(7), &tint, &BakeExtent::new(i32::MAX, 25, 25));
    assert_eq!((whole.levels[0].x0, whole.levels[0].nx), (-2, 4));
}

fn small(seed: i32) -> HeightMip {
    HeightMip::bake(&Ridges(seed), &tint, &BakeExtent::new(2048, FINEST, FINEST + 3))
}

#[test]
fn e1_finest_hi_bounds_every_sampled_height() {
    let g = Ridges(7);
    let mip = small(7);
    let lvl = &mip.levels[0];
    let step = cell(Detail(lvl.detail));
    let half = step / 2;
    let span = section_span(Detail(lvl.detail));
    for sz in 0..lvl.nz.min(4) {
        for sx in 0..lvl.nx.min(4) {
            let (ax, az) = (lvl.x0 + sx as i32, lvl.z0 + sz as i32);
            let c = lvl.get(ax, az).unwrap();
            for iz in 0..SECTION_N {
                for ix in 0..SECTION_N {
                    let h = g.height(ax * span + ix * step + half, az * span + iz * step + half);
                    assert!(c.hi >= h && c.lo <= h, "[{},{}] excludes {h}", c.lo, c.hi);
                }
            }
        }
    }
}

#[test]
fn m2_parent_env_and_error_dominate_children() {
    let mip = small(11);
    let mut checked = 0;
    for w in mip.levels.windows(2) {
        let (child, parent) = (&w[0], &w[1]);
        for sz in 0..parent.nz {
            for sx in 0..parent.nx {
                let (ax, az) = (parent.x0 + sx as i32, parent.z0 + sz as i32);
                let p = parent.get(ax, az).unwrap();
                for q in 0..4 {
                    let Some(c) = child.get(2 * ax + (q & 1), 2 * az + (q >> 1)) else { continue };
                    assert!(p.lo <= c.lo && p.hi >= c.hi, "parent env does not contain child");
                    assert!(p.err() >= c.err(), "parent {} < child {}", p.err(), c.err());
                    checked += 1;
                }
            }
        }
    }
    assert!(checked > 0, "no parent/child pairs exercised");
}

#[test]
fn sparse_pyramid_shape() {
    let mip = small(5);
    for w in mip.levels.windows(2) {
        assert!(w[0].cells.len() <= w[1].cells.len(), "finer level not sparser");
    }
    let finest = &mip.levels[0];
    let past = SectionPos { detail: Detail(FINEST), x: finest.x0 + finest.nx as i32 + 1, z: 0 };
    assert_eq!(mip.summary(past, 512), (0, 512, cell(Detail(FINEST)) as i64));
    let anc = SectionPos {
        detail: Detail(mip.coarsest),
        x: past.x >> (mip.coarsest - FINEST),
        z: 0,
    };
    assert!(mip.color(anc).is_some(), "coarse ancestor should be baked");
}

#[test]
fn deterministic_in_seed() {
    let (a, b) = (small(19), small(19));
    assert_eq!(a.levels.len(), b.levels.len());
    for (x, y) in a.levels.iter().zip(b.levels.iter()) {
        assert_eq!((x.x0, x.z0, x.nx, x.nz), (y.x0, y.z0, y.nx, y.nz));
        assert_eq!(x.cells, y.cells);
    }
}

#[test]
fn summary_falls_back_beyond_extent() {
    let mip = small(3);
    let far = SectionPos { detail: Detail(FINEST), x: 1_000_000, z: 0 };
    assert_eq!(mip.summary(far, 512).2, cell(Detail(FINEST)) as i64);
    assert_eq!(mip.relief_band(far), None);
}

#[test]
fn parents_merge_bounds_and_colours() {
    let of = |lo: i32, hi: i32, r: u8| MipCell { lo, hi, color: Color { r, g: 0, b: 0, a: 255 } };
    let m = merge(&[of(3, 9, 10), of(-2, 4, 20), of(5, 30, 30), of(0, 1, 40)]);
    assert_eq!((m.lo, m.hi), (-2, 30));
    assert_eq!(m.color.r, 25);
    let mip = small(3);
    let centre = SectionPos { detail: Detail(mip.coarsest), x: 0, z: 0 };
    let band = mip.relief_band(centre).unwrap();
    assert_eq!(mip.coarse_lo(10, 10), Some(band.0));
    assert_eq!(mip.cell(centre).unwrap().err(), (band.1 - band.0) as i64);
}
