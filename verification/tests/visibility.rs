use std::collections::{HashMap, HashSet};
use voxel_world::block::{BlockId, Detail};
use voxel_world::coord::{ChunkBox, ChunkCoord, Face};
use voxel_world::world::chunk::{Chunk, CHUNK_VOLUME};
use voxel_world::world::connectivity::{pair_bit, Connectivity};
use voxel_world::world::coverage::{Coverage, QuadrantMask, SectionPos};
use voxel_world::world::occlusion::Occlusion;

const AIR: BlockId = BlockId(0);
const STONE: BlockId = BlockId(1);
const FINEST: i8 = 2;

fn is_solid(id: BlockId) -> bool {
    id == STONE
}

fn dense(fill: impl Fn(usize, usize, usize) -> BlockId) -> Chunk {
    let mut cells = Box::new([AIR; CHUNK_VOLUME]);
    for y in 0..16 {
        for z in 0..16 {
            for x in 0..16 {
                cells[Chunk::index(x, y, z)] = fill(x, y, z);
            }
        }
    }
    Chunk::from_cells(0, 0, 0, cells)
}

fn visible_count(occ: &Occlusion, origin: ChunkCoord, h: i32, v: i32) -> usize {
    let mut n = 0;
    for x in -h..=h {
        for y in -v..=v {
            for z in -h..=h {
                if occ.is_visible(ChunkCoord::new(origin.x + x, origin.y + y, origin.z + z)) {
                    n += 1;
                }
            }
        }
    }
    n
}

#[test]
fn pair_bits_are_15_distinct_values() {
    let mut bits = HashSet::new();
    for a in Face::all() {
        for b in Face::all() {
            if a.index() < b.index() {
                assert!(bits.insert(pair_bit(a, b)), "duplicate pair bit");
            }
        }
    }
    assert_eq!(bits.len(), 15);
    assert_eq!(pair_bit(Face::NegX, Face::PosX), pair_bit(Face::PosX, Face::NegX));
    assert_eq!(pair_bit(Face::NegX, Face::NegX), 0);
}

#[test]
fn uniform_solid_seals_and_uniform_air_opens() {
    assert_eq!(
        Connectivity::compute(&Chunk::from_uniform(0, 0, 0, STONE), is_solid),
        Connectivity::sealed()
    );
    assert_eq!(
        Connectivity::compute(&Chunk::from_uniform(0, 0, 0, AIR), is_solid),
        Connectivity::open()
    );
    for a in Face::all() {
        for b in Face::all() {
            assert_eq!(Connectivity::open().connects(a, b), a != b);
            assert!(!Connectivity::sealed().connects(a, b));
        }
    }
}

#[test]
fn solid_wall_splits_faces_into_two_groups() {
    let chunk = dense(|x, _, _| if x == 8 { STONE } else { AIR });
    let c = Connectivity::compute(&chunk, is_solid);
    assert!(c.connects(Face::NegX, Face::NegY));
    assert!(c.connects(Face::PosX, Face::PosY));
    assert!(!c.connects(Face::NegX, Face::PosX), "wall blocks the through line");
}

#[test]
fn straight_tube_connects_only_its_two_ends() {
    let chunk = dense(|x, _, z| if x == 8 && z == 8 { AIR } else { STONE });
    let c = Connectivity::compute(&chunk, is_solid);
    assert!(c.connects(Face::NegY, Face::PosY), "the tube joins top and bottom");
    for a in Face::all() {
        for b in Face::all() {
            let is_vertical =
                matches!((a, b), (Face::NegY, Face::PosY) | (Face::PosY, Face::NegY));
            if !is_vertical {
                assert!(!c.connects(a, b), "no pocket touches {:?}/{:?}", a, b);
            }
        }
    }
}

#[test]
fn open_field_makes_every_loaded_chunk_visible() {
    let loaded: Vec<ChunkCoord> = (-2..=2)
        .flat_map(|x| (-2..=2).flat_map(move |y| (-2..=2).map(move |z| ChunkCoord::new(x, y, z))))
        .collect();
    let origin = ChunkCoord::new(0, 0, 0);
    let mut occ = Occlusion::default();
    occ.rebuild(ChunkBox::new(origin, 2, 2), origin, |c| {
        if loaded.contains(&c) {
            Some(Connectivity::open())
        } else {
            None
        }
    });
    assert_eq!(visible_count(&occ, origin, 2, 2), loaded.len());
    assert!(loaded.iter().all(|&c| occ.is_visible(c)));
}

#[test]
fn unloaded_neighbours_bound_the_bfs() {
    let origin = ChunkCoord::new(5, -3, 2);
    let mut occ = Occlusion::default();
    occ.rebuild(ChunkBox::new(origin, 1, 1), origin, |c| {
        if c == origin {
            Some(Connectivity::open())
        } else {
            None
        }
    });
    assert_eq!(visible_count(&occ, origin, 1, 1), 1);
    assert!(occ.is_visible(origin));
}

#[test]
fn sealed_neighbour_is_drawn_but_not_passed_through() {
    let a = ChunkCoord::new(0, 0, 0);
    let b = ChunkCoord::new(1, 0, 0);
    let beyond = ChunkCoord::new(2, 0, 0);
    let mut occ = Occlusion::default();
    occ.rebuild(ChunkBox::new(a, 3, 3), a, |c| {
        if c == a {
            Some(Connectivity::open())
        } else if c == b {
            Some(Connectivity::sealed())
        } else if c == beyond {
            Some(Connectivity::open())
        } else {
            None
        }
    });
    assert!(occ.is_visible(a) && occ.is_visible(b), "the wall chunk itself is still drawn");
    assert!(!occ.is_visible(beyond), "sightline can't pass through the sealed wall");
}

#[test]
fn outside_the_box_reports_visible() {
    let origin = ChunkCoord::new(0, 0, 0);
    let mut occ = Occlusion::default();
    occ.rebuild(ChunkBox::new(origin, 1, 1), origin, |c| {
        if c.ring(origin) <= 1 && c.updown(origin) <= 1 {
            Some(Connectivity::open())
        } else {
            None
        }
    });
    assert!(occ.is_visible(ChunkCoord::new(8, 0, 0)));
}

fn cell(x: i32, detail: i8) -> (SectionPos, QuadrantMask) {
    (SectionPos { detail: Detail(detail), x, z: 0 }, QuadrantMask::all())
}

#[test]
fn cut_hard_pops_to_exactly_the_new_cut() {
    let mut c = Coverage::default();
    let old = [cell(0, FINEST + 1), cell(1, FINEST + 1)];
    c.update(&old);
    let new = [cell(5, FINEST + 2), cell(6, FINEST + 2)];
    c.update(&new);
    let drawn: HashMap<SectionPos, QuadrantMask> = c.draws().into_iter().collect();
    assert_eq!(drawn.len(), new.len(), "exactly the new cut draws");
    for (pos, _) in new {
        assert!(drawn.contains_key(&pos), "new region present");
    }
    for (pos, _) in old {
        assert!(!drawn.contains_key(&pos), "old region gone");
    }
    assert_eq!(c.tracked_regions().len(), new.len());
}

#[test]
fn patch_stream_reproduces_the_reference_draw_walk() {
    let mask = |b: u8| QuadrantMask { bits: b };
    let pos = |x: i32| SectionPos { detail: Detail(FINEST + 1), x, z: 0 };
    let script: Vec<Vec<(SectionPos, QuadrantMask)>> = (1..=15u8)
        .flat_map(|b| {
            [
                vec![(pos(0), mask(b)), (pos(1), mask(b))],
                vec![(pos(0), mask(15 - b + 1)), (pos(1), mask(b))],
                vec![(pos(0), mask(b)), (pos(2), mask(b))],
                vec![],
            ]
        })
        .collect();

    let mut c = Coverage::default();
    let mut patched: HashMap<SectionPos, QuadrantMask> = HashMap::new();
    for (step, cut) in script.iter().enumerate() {
        for (pos, m) in c.update(cut) {
            match m {
                Some(m) => patched.insert(pos, m),
                None => patched.remove(&pos),
            };
        }
        let reference: HashMap<SectionPos, QuadrantMask> = c.draws().into_iter().collect();
        assert_eq!(patched, reference, "diverged from the draw walk at step {}", step);
    }
}

#[test]
fn update_is_deterministic() {
    let seq = [
        vec![cell(0, 3), cell(1, 3)],
        vec![cell(1, 3), cell(2, 4)],
        vec![cell(2, 4)],
    ];
    let run = || {
        let mut c = Coverage::default();
        for cut in &seq {
            c.update(cut);
        }
        let mut v = c.draws();
        v.sort_by_key(|(p, _)| (p.detail.0, p.x, p.z));
        v
    };
    assert_eq!(run(), run());
}

#[test]
fn the_same_cut_reports_nothing() {
    let mut c = Coverage::default();
    let cut = [cell(0, 3), cell(4, 3)];
    assert_eq!(c.update(&cut).len(), 2);
    assert!(c.update(&cut).is_empty());
    assert_eq!(c.drawn_mask(cut[0].0), Some(QuadrantMask::all()));
    assert_eq!(c.drawn_mask(cell(9, 3).0), None);
}
