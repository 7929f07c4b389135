//! Faces of the mesher: what hides them, how corners are shaded, and how each
//! direction's slices lie in space.
use vstd::prelude::*;

use crate::block::{BlockId, HotTables};
use crate::coord::Face;

verus! {

/// Whether a face is hidden: by an opaque neighbour, or by a neighbour of the same
/// block.
pub open spec fn covered_spec(my: BlockId, nbr: BlockId, tables: HotTables) -> bool {
    tables.opaque_spec(nbr) || nbr == my
}

/// Whether a face is hidden: by an opaque neighbour, or by a neighbour of the same
/// block.
pub fn covered(my: BlockId, nbr: BlockId, tables: &HotTables) -> (b: bool)
    requires
        nbr.0 < tables.opaque@.len(),
    ensures
        b == covered_spec(my, nbr, *tables),
{
    tables.opaque(nbr) || nbr == my
}

/// One for true, zero for false.
pub open spec fn one(b: bool) -> int {
    if b {
        1
    } else {
        0
    }
}

/// The shade of a corner, `0..=3` with `3` unoccluded, from the cells around it.
/// Two occluded sides occlude it fully.
pub open spec fn vertex_ao_spec(side1: bool, side2: bool, corner: bool) -> u8 {
    if side1 && side2 {
        0
    } else {
        (3 - one(side1) - one(side2) - one(corner)) as u8
    }
}

/// The shade of a corner, `0..=3` with `3` unoccluded, from the cells around it.
/// Two occluded sides occlude it fully.
pub fn vertex_ao(side1: bool, side2: bool, corner: bool) -> (ao: u8)
    ensures
        ao == vertex_ao_spec(side1, side2, corner),
        ao <= 3,
{
    if side1 && side2 {
        return 0;
    }
    let mut occluders: u8 = 0;
    if side1 {
        occluders = occluders + 1;
    }
    if side2 {
        occluders = occluders + 1;
    }
    if corner {
        occluders = occluders + 1;
    }
    3 - occluders
}

/// One direction of the sweep: its step along the normal axis, its axes (0 for x, 1
/// for y, 2 for z), and the corners of a unit face as (normal, u, v) components,
/// counter-clockwise seen from outside.
#[derive(Clone, Copy)]
pub struct Dir {
    pub step: i32,
    pub n_axis: usize,
    pub u_axis: usize,
    pub v_axis: usize,
    pub corners: [[u8; 3]; 4],
    pub normal: Face,
}

/// The axes of a direction: normal, u and v.
pub open spec fn axes_spec(normal: Face) -> (usize, usize, usize) {
    match normal {
        Face::NegX | Face::PosX => (0usize, 2usize, 1usize),
        Face::NegY | Face::PosY => (1usize, 0usize, 2usize),
        Face::NegZ | Face::PosZ => (2usize, 0usize, 1usize),
    }
}

/// The step of a direction along its normal axis.
pub open spec fn step_of(normal: Face) -> int {
    match normal {
        Face::PosX | Face::PosY | Face::PosZ => 1,
        _ => -1,
    }
}

/// Corner `i` of a unit face as (normal, u, v) components.
pub open spec fn corner_spec(normal: Face, i: int) -> (u8, u8, u8) {
    match normal {
        Face::PosX => if i == 0 {
            (1, 0, 0)
        } else if i == 1 {
            (1, 0, 1)
        } else if i == 2 {
            (1, 1, 1)
        } else {
            (1, 1, 0)
        },
        Face::NegX => if i == 0 {
            (0, 1, 0)
        } else if i == 1 {
            (0, 1, 1)
        } else if i == 2 {
            (0, 0, 1)
        } else {
            (0, 0, 0)
        },
        Face::PosY => if i == 0 {
            (1, 0, 1)
        } else if i == 1 {
            (1, 1, 1)
        } else if i == 2 {
            (1, 1, 0)
        } else {
            (1, 0, 0)
        },
        Face::NegY => if i == 0 {
            (0, 0, 0)
        } else if i == 1 {
            (0, 1, 0)
        } else if i == 2 {
            (0, 1, 1)
        } else {
            (0, 0, 1)
        },
        Face::PosZ => if i == 0 {
            (1, 1, 0)
        } else if i == 1 {
            (1, 1, 1)
        } else if i == 2 {
            (1, 0, 1)
        } else {
            (1, 0, 0)
        },
        Face::NegZ => if i == 0 {
            (0, 0, 0)
        } else if i == 1 {
            (0, 0, 1)
        } else if i == 2 {
            (0, 1, 1)
        } else {
            (0, 1, 0)
        },
    }
}

/// The directions in sweep order.
pub open spec fn dir_face(d: int) -> Face {
    if d == 0 {
        Face::PosX
    } else if d == 1 {
        Face::NegX
    } else if d == 2 {
        Face::PosY
    } else if d == 3 {
        Face::NegY
    } else if d == 4 {
        Face::PosZ
    } else {
        Face::NegZ
    }
}

impl Dir {
    /// Whether the entries are those of the direction's normal.
    pub open spec fn wf(self) -> bool {
        &&& self.step == step_of(self.normal)
        &&& (self.n_axis, self.u_axis, self.v_axis) == axes_spec(self.normal)
        &&& forall|i: int|
            0 <= i < 4 ==> {
                let c = (#[trigger] self.corners@[i])@;
                c[0] == corner_spec(self.normal, i).0 && c[1] == corner_spec(self.normal, i).1
                    && c[2] == corner_spec(self.normal, i).2
            }
    }

    /// A direction in sweep order.
    pub fn at(d: usize) -> (r: Dir)
        requires
            d < 6,
        ensures
            r.wf(),
            r.normal == dir_face(d as int),
    {
        if d == 0 {
            Dir {
                step: 1,
                n_axis: 0,
                u_axis: 2,
                v_axis: 1,
                corners: [[1, 0, 0], [1, 0, 1], [1, 1, 1], [1, 1, 0]],
                normal: Face::PosX,
            }
        } else if d == 1 {
            Dir {
                step: -1,
                n_axis: 0,
                u_axis: 2,
                v_axis: 1,
                corners: [[0, 1, 0], [0, 1, 1], [0, 0, 1], [0, 0, 0]],
                normal: Face::NegX,
            }
        } else if d == 2 {
            Dir {
                step: 1,
                n_axis: 1,
                u_axis: 0,
                v_axis: 2,
                corners: [[1, 0, 1], [1, 1, 1], [1, 1, 0], [1, 0, 0]],
                normal: Face::PosY,
            }
        } else if d == 3 {
            Dir {
                step: -1,
                n_axis: 1,
                u_axis: 0,
                v_axis: 2,
                corners: [[0, 0, 0], [0, 1, 0], [0, 1, 1], [0, 0, 1]],
                normal: Face::NegY,
            }
        } else if d == 4 {
            Dir {
                step: 1,
                n_axis: 2,
                u_axis: 0,
                v_axis: 1,
                corners: [[1, 1, 0], [1, 1, 1], [1, 0, 1], [1, 0, 0]],
                normal: Face::PosZ,
            }
        } else {
            Dir {
                step: -1,
                n_axis: 2,
                u_axis: 0,
                v_axis: 1,
                corners: [[0, 0, 0], [0, 0, 1], [0, 1, 1], [0, 1, 0]],
                normal: Face::NegZ,
            }
        }
    }
}

/// The point with the given components along normal, u and v, as (x, y, z).
pub open spec fn point_spec(normal: Face, n: int, u: int, v: int) -> (int, int, int) {
    match normal {
        Face::NegX | Face::PosX => (n, v, u),
        Face::NegY | Face::PosY => (u, n, v),
        Face::NegZ | Face::PosZ => (u, v, n),
    }
}

/// The point with the given components along normal, u and v, as (x, y, z).
pub fn point(dir: &Dir, n: i32, u: i32, v: i32) -> (p: (i32, i32, i32))
    requires
        dir.wf(),
    ensures
        (p.0 as int, p.1 as int, p.2 as int) == point_spec(
            dir.normal,
            n as int,
            u as int,
            v as int,
        ),
{
    if dir.n_axis == 0 {
        (n, v, u)
    } else if dir.n_axis == 1 {
        (u, n, v)
    } else {
        (u, v, n)
    }
}

/// The sign of a corner component: one for a component of one, else minus one.
pub open spec fn sign(c: u8) -> i32 {
    if c > 0 {
        1
    } else {
        -1i32
    }
}

/// The u and v signs of each corner.
pub fn corner_uv(corners: &[[u8; 3]; 4]) -> (r: [[i32; 2]; 4])
    ensures
        forall|i: int|
            0 <= i < 4 ==> {
                let s = (#[trigger] r@[i])@;
                s[0] == sign(corners@[i]@[1]) && s[1] == sign(corners@[i]@[2])
            },
{
    let mut r: [[i32; 2]; 4] = [[0, 0], [0, 0], [0, 0], [0, 0]];
    let mut i: usize = 0;
    while i < 4
        invariant
            i <= 4,
            forall|k: int|
                0 <= k < i ==> {
                    let s = (#[trigger] r@[k])@;
                    s[0] == sign(corners@[k]@[1]) && s[1] == sign(corners@[k]@[2])
                },
        decreases 4 - i,
    {
        let c: [u8; 3] = corners[i];
        let su: i32 = if c[1] > 0 {
            1
        } else {
            -1
        };
        let sv: i32 = if c[2] > 0 {
            1
        } else {
            -1
        };
        r[i] = [su, sv];
        i = i + 1;
    }
    r
}

} // verus!
