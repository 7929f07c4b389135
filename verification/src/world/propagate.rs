//! The light of a chunk from its blocks, its neighbours' light and the sky.
use std::collections::VecDeque;
use vstd::prelude::*;

use crate::bits::{get_bit, word_bit};
use crate::block::{BlockId, HotTables};
use crate::coord::Face;
use crate::world::chunk::{local_of_spec, Chunk, CHUNK_VOLUME};
use crate::world::connectivity::{adjacent, on_face, waits};
use crate::world::flood::{
    carried, fed, is_light, is_spread, lemma_light_has_a_source, not_brighter, spread,
    straight_down,
};
use crate::world::light::{
    face_index, layer_cell_spec, lemma_cell_slot, lemma_slot_cell, near_layer_spec, slot_spec,
    CeilingWindow, FaceShell, LightGrid, LightLevel, Lumel, CHUNK_AREA,
};

verus! {

/// Which cells stop light.
pub open spec fn opacity(chunk: Chunk, tables: HotTables) -> Seq<bool> {
    Seq::new(CHUNK_VOLUME as nat, |i: int| tables.opaque_spec(chunk.cell(i)))
}

/// Whether the cell and all cells above it in its column let light through.
pub open spec fn clear_to_top(opaque: Seq<bool>, i: int) -> bool {
    forall|k: int| i <= k < CHUNK_VOLUME && (k - i) % 256 == 0 ==> !#[trigger] opaque[k]
}

/// The brighter of two levels.
pub open spec fn brighter(a: u8, b: u8) -> u8 {
    if a >= b {
        a
    } else {
        b
    }
}

/// What a lumel across a face lends the cell on the face: one step's less, but full
/// sky light from above stays full.
pub open spec fn lent(sky: bool, face: Face, l: Lumel) -> u8 {
    let v = if sky {
        l.sky.value()
    } else {
        l.block.value()
    };
    if sky && face == Face::PosY && v == 15 {
        15
    } else if v == 0 {
        0
    } else {
        (v - 1) as u8
    }
}

/// What the neighbour across a face lends a cell; nothing where the cell is not on
/// that face.
pub open spec fn lent_at(shell: FaceShell, sky: bool, face: Face, i: int) -> u8 {
    let l = local_of_spec(i);
    if on_face(i, face) {
        lent(sky, face, shell.lumel(face, slot_spec(face, l.0, l.1, l.2)))
    } else {
        0
    }
}

/// The brightest of what the neighbours across the first `n` faces lend a cell.
pub open spec fn lent_max(shell: FaceShell, sky: bool, i: int, n: int) -> u8
    decreases n,
{
    if n <= 0 {
        0
    } else {
        brighter(lent_max(shell, sky, i, n - 1), lent_at(shell, sky, Face::at_spec(n - 1), i))
    }
}

/// The sky light that a cell starts with: full where its column is clear up to the
/// top and open sky above it, and what the neighbours lend.
pub open spec fn sky_seeds(
    opaque: Seq<bool>,
    ceiling: CeilingWindow,
    top_y: int,
    shell: FaceShell,
) -> Seq<u8> {
    Seq::new(
        CHUNK_VOLUME as nat,
        |i: int|
            {
                let l = local_of_spec(i);
                let open = top_y >= ceiling.surface_spec(l.0, l.2) && clear_to_top(opaque, i);
                brighter(
                    if open {
                        15
                    } else {
                        0
                    },
                    lent_max(shell, true, i, 6),
                )
            },
    )
}

/// The block light that a cell starts with: what its block emits, and what the
/// neighbours lend.
pub open spec fn block_seeds(chunk: Chunk, tables: HotTables, shell: FaceShell) -> Seq<u8> {
    Seq::new(
        CHUNK_VOLUME as nat,
        |i: int|
            {
                let e = tables.emission@[chunk.cell(i).0 as int];
                brighter(
                    if e > 15 {
                        15
                    } else {
                        e
                    },
                    lent_max(shell, false, i, 6),
                )
            },
    )
}

/// The sky light of a grid.
pub open spec fn sky_of(g: LightGrid) -> Seq<u8> {
    Seq::new(CHUNK_VOLUME as nat, |i: int| g.cell(i).sky.value())
}

/// The block light of a grid.
pub open spec fn block_of(g: LightGrid) -> Seq<u8> {
    Seq::new(CHUNK_VOLUME as nat, |i: int| g.cell(i).block.value())
}

/// Whether a grid is the light of a chunk.
pub open spec fn is_chunk_light(
    chunk: Chunk,
    shell: FaceShell,
    ceiling: CeilingWindow,
    world_y0: i32,
    tables: HotTables,
    g: LightGrid,
) -> bool {
    let opaque = opacity(chunk, tables);
    &&& is_light(opaque, true, sky_seeds(opaque, ceiling, world_y0 + 16, shell), sky_of(g))
    &&& is_light(opaque, false, block_seeds(chunk, tables, shell), block_of(g))
}

/// Whether every cell of the chunk holds a block that the tables describe.
pub open spec fn described(chunk: Chunk, tables: HotTables) -> bool {
    forall|i: int| 0 <= i < CHUNK_VOLUME ==> (#[trigger] chunk.cell(i)).0 < tables.count()
}

fn opacity_of(chunk: &Chunk, tables: &HotTables) -> (out: Vec<bool>)
    requires
        chunk.wf(),
        tables.wf(),
        described(*chunk, *tables),
    ensures
        out@ == opacity(*chunk, *tables),
{
    let mut bits: [u64; 64] = [0; 64];
    let blocks = |id: BlockId| -> (b: bool)
        ensures
            b == (id.0 < tables.opaque@.len() && tables.opaque@[id.0 as int]),
        { (id.0 as usize) < tables.opaque.len() && tables.opaque[id.0 as usize] };
    chunk.fill_opacity(blocks, &mut bits);
    let mut out: Vec<bool> = Vec::with_capacity(CHUNK_VOLUME);
    while out.len() < CHUNK_VOLUME
        invariant
            chunk.wf(),
            tables.wf(),
            described(*chunk, *tables),
            out@.len() <= CHUNK_VOLUME,
            forall|i: int|
                0 <= i < CHUNK_VOLUME ==> #[trigger] word_bit(bits@, i) == (chunk@[i].0
                    < tables.opaque@.len() && tables.opaque@[chunk@[i].0 as int]),
            forall|i: int|
                0 <= i < out@.len() ==> #[trigger] out@[i] == tables.opaque_spec(chunk.cell(i)),
        decreases CHUNK_VOLUME - out@.len(),
    {
        let i: usize = out.len();
        assert(chunk.cell(i as int).0 < tables.count());
        assert(chunk@[i as int] == chunk.cell(i as int));
        out.push(get_bit(&bits, i));
    }
    assert(out@ =~= opacity(*chunk, *tables));
    out
}

fn zeroes() -> (out: Vec<u8>)
    ensures
        out@.len() == CHUNK_VOLUME,
        forall|i: int| 0 <= i < CHUNK_VOLUME ==> #[trigger] out@[i] == 0,
{
    let mut out: Vec<u8> = Vec::with_capacity(CHUNK_VOLUME);
    while out.len() < CHUNK_VOLUME
        invariant
            out@.len() <= CHUNK_VOLUME,
            forall|i: int| 0 <= i < out@.len() ==> #[trigger] out@[i] == 0,
        decreases CHUNK_VOLUME - out@.len(),
    {
        out.push(0);
    }
    out
}

/// The level of a cell that the open sky lights from straight above.
#[verifier::opaque]
spec fn column_seed(opaque: Seq<bool>, ceiling: CeilingWindow, top_y: int, i: int) -> u8 {
    let l = local_of_spec(i);
    if top_y >= ceiling.surface_spec(l.0, l.2) && clear_to_top(opaque, i) {
        15
    } else {
        0
    }
}

proof fn lemma_clear_step(opaque: Seq<bool>, i: int)
    requires
        0 <= i < CHUNK_VOLUME,
    ensures
        clear_to_top(opaque, i) == (!opaque[i] && (i + 256 < CHUNK_VOLUME ==> clear_to_top(
            opaque,
            i + 256,
        ))),
{
    if clear_to_top(opaque, i) {
        assert(!opaque[i]);
        if i + 256 < CHUNK_VOLUME {
            assert forall|k: int| i + 256 <= k < CHUNK_VOLUME && (k - (i + 256)) % 256 == 0 implies !(
            #[trigger] opaque[k]) by {
                assert((k - i) % 256 == 0);
            }
        }
    }
    if !opaque[i] && (i + 256 < CHUNK_VOLUME ==> clear_to_top(opaque, i + 256)) {
        assert forall|k: int| i <= k < CHUNK_VOLUME && (k - i) % 256 == 0 implies !(
        #[trigger] opaque[k]) by {
            if k != i {
                assert(k >= i + 256);
                assert((k - (i + 256)) % 256 == 0);
            }
        }
    }
}

/// A cell is lit from straight above as the cell above it is, or the open sky.
proof fn lemma_column_step(opaque: Seq<bool>, ceiling: CeilingWindow, top_y: int, i: int)
    requires
        0 <= i < CHUNK_VOLUME,
    ensures
        (local_of_spec(i).1 == 15) == (i + 256 >= CHUNK_VOLUME),
        column_seed(opaque, ceiling, top_y, i) == (if opaque[i] {
            0
        } else if i + 256 < CHUNK_VOLUME {
            column_seed(opaque, ceiling, top_y, i + 256)
        } else if top_y >= ceiling.surface_spec(local_of_spec(i).0, local_of_spec(i).2) {
            15
        } else {
            0
        }),
        column_seed(opaque, ceiling, top_y, i) == 0 || column_seed(opaque, ceiling, top_y, i) == 15,
{
    reveal(column_seed);
    lemma_clear_step(opaque, i);
    if i + 256 < CHUNK_VOLUME {
        assert((i + 256) % 16 == i % 16);
        assert(((i + 256) / 16) % 16 == (i / 16) % 16);
    }
}

/// Lights every column that is open to the sky from the top down to its first opaque
/// cell.
fn seed_columns(opaque: &Vec<bool>, ceiling: &CeilingWindow, top_y: i32) -> (out: Vec<u8>)
    requires
        opaque@.len() == CHUNK_VOLUME,
        ceiling.wf(),
    ensures
        out@.len() == CHUNK_VOLUME,
        forall|i: int|
            0 <= i < CHUNK_VOLUME ==> #[trigger] out@[i] == column_seed(
                opaque@,
                *ceiling,
                top_y as int,
                i,
            ),
{
    let mut out: Vec<u8> = zeroes();
    let mut n: usize = CHUNK_VOLUME;
    while n > 0
        invariant
            n <= CHUNK_VOLUME,
            opaque@.len() == CHUNK_VOLUME,
            ceiling.wf(),
            out@.len() == CHUNK_VOLUME,
            forall|i: int| 0 <= i < n ==> #[trigger] out@[i] == 0,
            forall|i: int|
                n <= i < CHUNK_VOLUME ==> #[trigger] out@[i] == column_seed(
                    opaque@,
                    *ceiling,
                    top_y as int,
                    i,
                ),
        decreases n,
    {
        n = n - 1;
        let (x, y, z) = Chunk::local_of(n);
        proof {
            lemma_column_step(opaque@, *ceiling, top_y as int, n as int);
            if n + 256 < CHUNK_VOLUME {
                lemma_column_step(opaque@, *ceiling, top_y as int, n + 256);
                assert(out@[n + 256] == column_seed(opaque@, *ceiling, top_y as int, n + 256));
            }
        }
        if !opaque[n] {
            let lit: bool = if y == 15 {
                ceiling.open_above(x, z, top_y)
            } else {
                out[n + 256] == 15
            };
            if lit {
                out.set(n, 15);
            }
        }
    }
    out
}

/// Raises the cells on a face to what the neighbour across it lends.
fn raise_face(field: &mut Vec<u8>, shell: &FaceShell, sky: bool, face: Face)
    requires
        old(field)@.len() == CHUNK_VOLUME,
        forall|i: int| 0 <= i < CHUNK_VOLUME ==> #[trigger] old(field)@[i] <= 15,
        shell.wf(),
    ensures
        final(field)@.len() == CHUNK_VOLUME,
        forall|i: int| 0 <= i < CHUNK_VOLUME ==> #[trigger] final(field)@[i] <= 15,
        forall|i: int|
            0 <= i < CHUNK_VOLUME ==> #[trigger] final(field)@[i] == brighter(
                old(field)@[i],
                lent_at(*shell, sky, face, i),
            ),
{
    let ghost before = field@;
    let mut slot: usize = 0;
    while slot < CHUNK_AREA
        invariant
            slot <= CHUNK_AREA,
            shell.wf(),
            field@.len() == CHUNK_VOLUME,
            forall|i: int| 0 <= i < CHUNK_VOLUME ==> #[trigger] field@[i] <= 15,
            forall|i: int|
                0 <= i < CHUNK_VOLUME ==> {
                    let l = local_of_spec(i);
                    #[trigger] field@[i] == if on_face(i, face) && slot_spec(face, l.0, l.1, l.2)
                        < slot {
                        brighter(before[i], lent_at(*shell, sky, face, i))
                    } else {
                        before[i]
                    }
                },
        decreases CHUNK_AREA - slot,
    {
        let c: usize = face_index(face, slot);
        let l = shell.at_slot(face, slot);
        let v: u8 = if sky {
            l.sky.get()
        } else {
            l.block.get()
        };
        let s: u8 = if sky && face == Face::PosY && v == 15 {
            15
        } else if v == 0 {
            0
        } else {
            v - 1
        };
        let ghost was = field@;
        proof {
            lemma_slot_cell(face, slot as int);
            assert(on_face(c as int, face));
            assert(s == lent_at(*shell, sky, face, c as int));
            assert(was[c as int] == before[c as int]);
        }
        if s > field[c] {
            field.set(c, s);
        }
        proof {
            assert forall|i: int| 0 <= i < CHUNK_VOLUME implies {
                let k = local_of_spec(i);
                #[trigger] field@[i] == if on_face(i, face) && slot_spec(face, k.0, k.1, k.2) < slot
                    + 1 {
                    brighter(before[i], lent_at(*shell, sky, face, i))
                } else {
                    before[i]
                }
            } by {
                let k = local_of_spec(i);
                assert(was[i] == if on_face(i, face) && slot_spec(face, k.0, k.1, k.2) < slot {
                    brighter(before[i], lent_at(*shell, sky, face, i))
                } else {
                    before[i]
                });
                if on_face(i, face) {
                    lemma_cell_slot(face, i);
                }
                if i == c {
                    assert(slot_spec(face, k.0, k.1, k.2) == slot);
                }
            }
        }
        slot = slot + 1;
    }
    proof {
        assert forall|i: int| 0 <= i < CHUNK_VOLUME implies #[trigger] field@[i] == brighter(
            before[i],
            lent_at(*shell, sky, face, i),
        ) by {
            if on_face(i, face) {
                lemma_cell_slot(face, i);
            }
        }
    }
}

/// Raises every cell on a face to what the neighbours lend.
fn seed_from_shell(field: &mut Vec<u8>, shell: &FaceShell, sky: bool)
    requires
        old(field)@.len() == CHUNK_VOLUME,
        forall|i: int| 0 <= i < CHUNK_VOLUME ==> #[trigger] old(field)@[i] <= 15,
        shell.wf(),
    ensures
        final(field)@.len() == CHUNK_VOLUME,
        forall|i: int| 0 <= i < CHUNK_VOLUME ==> #[trigger] final(field)@[i] <= 15,
        forall|i: int|
            0 <= i < CHUNK_VOLUME ==> #[trigger] final(field)@[i] == brighter(
                old(field)@[i],
                lent_max(*shell, sky, i, 6),
            ),
{
    let ghost before = field@;
    let mut k: usize = 0;
    while k < 6
        invariant
            k <= 6,
            shell.wf(),
            field@.len() == CHUNK_VOLUME,
            forall|i: int| 0 <= i < CHUNK_VOLUME ==> #[trigger] field@[i] <= 15,
            forall|i: int|
                0 <= i < CHUNK_VOLUME ==> #[trigger] field@[i] == brighter(
                    before[i],
                    lent_max(*shell, sky, i, k as int),
                ),
        decreases 6 - k,
    {
        raise_face(field, shell, sky, Face::at(k));
        k = k + 1;
    }
}

fn seeded_cells(field: &Vec<u8>) -> (queue: VecDeque<usize>)
    requires
        field@.len() == CHUNK_VOLUME,
    ensures
        forall|k: int| 0 <= k < queue@.len() ==> #[trigger] queue@[k] < CHUNK_VOLUME,
        forall|i: int| 0 <= i < CHUNK_VOLUME && #[trigger] field@[i] > 0 ==> waits(queue@, i),
{
    let mut queue: VecDeque<usize> = VecDeque::new();
    let mut i: usize = 0;
    while i < CHUNK_VOLUME
        invariant
            i <= CHUNK_VOLUME,
            field@.len() == CHUNK_VOLUME,
            forall|k: int| 0 <= k < queue@.len() ==> #[trigger] queue@[k] < CHUNK_VOLUME,
            forall|j: int| 0 <= j < i && #[trigger] field@[j] > 0 ==> waits(queue@, j),
        decreases CHUNK_VOLUME - i,
    {
        if field[i] > 0 {
            proof {
                crate::world::connectivity::lemma_push(queue@, i);
            }
            queue.push_back(i);
        }
        i = i + 1;
    }
    queue
}

fn seed_emitters(chunk: &Chunk, tables: &HotTables) -> (out: Vec<u8>)
    requires
        chunk.wf(),
        tables.wf(),
        described(*chunk, *tables),
    ensures
        out@.len() == CHUNK_VOLUME,
        forall|i: int|
            0 <= i < CHUNK_VOLUME ==> #[trigger] out@[i] == ({
                let e = tables.emission@[chunk.cell(i).0 as int];
                if e > 15 {
                    15
                } else {
                    e
                }
            }),
{
    let mut out: Vec<u8> = Vec::with_capacity(CHUNK_VOLUME);
    while out.len() < CHUNK_VOLUME
        invariant
            chunk.wf(),
            tables.wf(),
            described(*chunk, *tables),
            out@.len() <= CHUNK_VOLUME,
            forall|i: int|
                0 <= i < out@.len() ==> #[trigger] out@[i] == ({
                    let e = tables.emission@[chunk.cell(i).0 as int];
                    if e > 15 {
                        15
                    } else {
                        e
                    }
                }),
        decreases CHUNK_VOLUME - out@.len(),
    {
        let i: usize = out.len();
        let id = chunk.get_index(i);
        assert(chunk.cell(i as int).0 < tables.count());
        let e: u8 = tables.emission[id.0 as usize];
        out.push(LightLevel::new(e).get());
    }
    out
}

/// Stores sky and block light as one lumel where every cell agrees, else per cell.
fn collapse(sky: &Vec<u8>, block: &Vec<u8>) -> (g: LightGrid)
    requires
        sky@.len() == CHUNK_VOLUME,
        block@.len() == CHUNK_VOLUME,
        forall|i: int| 0 <= i < CHUNK_VOLUME ==> #[trigger] sky@[i] <= 15,
        forall|i: int| 0 <= i < CHUNK_VOLUME ==> #[trigger] block@[i] <= 15,
    ensures
        g.wf(),
        sky_of(g) == sky@,
        block_of(g) == block@,
        g.flat() is Some <==> forall|i: int|
            0 <= i < CHUNK_VOLUME ==> #[trigger] g.cell(i) == g.cell(0),
{
    let mut cells: Box<[Lumel; CHUNK_VOLUME]> = Box::new([Lumel::dark();CHUNK_VOLUME]);
    let mut same: bool = true;
    let mut i: usize = 0;
    while i < CHUNK_VOLUME
        invariant
            sky@.len() == CHUNK_VOLUME,
            block@.len() == CHUNK_VOLUME,
            forall|i: int| 0 <= i < CHUNK_VOLUME ==> #[trigger] sky@[i] <= 15,
            forall|i: int| 0 <= i < CHUNK_VOLUME ==> #[trigger] block@[i] <= 15,
            i <= CHUNK_VOLUME,
            forall|k: int| 0 <= k < i ==> (#[trigger] cells@[k])@ == (sky@[k], block@[k]),
            same <==> forall|k: int| 0 <= k < i ==> #[trigger] cells@[k] == cells@[0],
        decreases CHUNK_VOLUME - i,
    {
        assert(sky@[i as int] <= 15 && block@[i as int] <= 15);
        let l = Lumel { sky: LightLevel::new(sky[i]), block: LightLevel::new(block[i]) };
        let ghost before = cells@;
        cells[i] = l;
        if l != cells[0] {
            same = false;
            assert(cells@[i as int] != cells@[0]);
        } else {
            proof {
                if same {
                    assert forall|k: int| 0 <= k < i + 1 implies #[trigger] cells@[k]
                        == cells@[0] by {
                        if k < i {
                            assert(before[k] == before[0]);
                        }
                    }
                } else {
                    let k = choose|k: int| 0 <= k < i && #[trigger] before[k] != before[0];
                    assert(cells@[k] != cells@[0]);
                }
            }
        }
        i = i + 1;
    }
    if same {
        let g = LightGrid::uniform(cells[0]);
        proof {
            assert forall|i: int| 0 <= i < CHUNK_VOLUME implies g.cell(i)@ == (
                sky@[i],
                block@[i],
            ) by {
                assert(cells@[i] == cells@[0]);
            }
            assert(sky_of(g) =~= sky@);
            assert(block_of(g) =~= block@);
        }
        g
    } else {
        let ghost c = cells@;
        let g = LightGrid::from_cells(cells);
        proof {
            assert forall|i: int| 0 <= i < CHUNK_VOLUME implies #[trigger] g.cell(i) == c[i] by {}
            assert(sky_of(g) =~= sky@);
            assert(block_of(g) =~= block@);
            let k = choose|k: int| 0 <= k < c.len() && #[trigger] c[k] != c[0];
            assert(g.cell(k) != g.cell(0));
        }
        g
    }
}

/// The light of a chunk, from scratch. `world_y0` is the height of its lowest cells.
pub fn propagate(
    chunk: &Chunk,
    shell: &FaceShell,
    ceiling: &CeilingWindow,
    world_y0: i32,
    tables: &HotTables,
    out: &mut LightGrid,
)
    requires
        chunk.wf(),
        shell.wf(),
        ceiling.wf(),
        tables.wf(),
        described(*chunk, *tables),
        world_y0 <= i32::MAX - 16,
    ensures
        final(out).wf(),
        is_chunk_light(*chunk, *shell, *ceiling, world_y0, *tables, *final(out)),
        final(out).flat() is Some <==> forall|i: int|
            0 <= i < CHUNK_VOLUME ==> #[trigger] final(out).cell(i) == final(out).cell(0),
{
    let opaque: Vec<bool> = opacity_of(chunk, tables);
    let mut sky: Vec<u8> = seed_columns(&opaque, ceiling, world_y0 + 16);
    proof {
        reveal(column_seed);
    }
    seed_from_shell(&mut sky, shell, true);
    proof {
        reveal(column_seed);
        assert(sky@ =~= sky_seeds(opaque@, *ceiling, world_y0 + 16, *shell));
    }
    let queue = seeded_cells(&sky);
    spread(&opaque, true, &mut sky, queue);
    let mut block: Vec<u8> = seed_emitters(chunk, tables);
    seed_from_shell(&mut block, shell, false);
    proof {
        assert(block@ =~= block_seeds(*chunk, *tables, *shell));
    }
    let queue = seeded_cells(&block);
    spread(&opaque, false, &mut block, queue);
    *out = collapse(&sky, &block);
}

/// Whether no neighbour lends any light.
pub open spec fn is_dark_shell(shell: FaceShell) -> bool {
    forall|f: Face, k: int| 0 <= k < CHUNK_AREA ==> (#[trigger] shell.lumel(f, k))@ == (0u8, 0u8)
}

proof fn lemma_dark_shell(shell: FaceShell, sky: bool, i: int, n: int)
    requires
        is_dark_shell(shell),
        0 <= i < CHUNK_VOLUME,
        0 <= n <= 6,
    ensures
        lent_max(shell, sky, i, n) == 0,
    decreases n,
{
    if n > 0 {
        lemma_dark_shell(shell, sky, i, n - 1);
        let f = Face::at_spec(n - 1);
        if on_face(i, f) {
            lemma_cell_slot(f, i);
            let l = local_of_spec(i);
            assert(shell.lumel(f, slot_spec(f, l.0, l.1, l.2))@ == (0u8, 0u8));
        }
    }
}

/// A chunk of opaque blocks that emit nothing, beside dark neighbours, is dark.
pub proof fn lemma_opaque_chunk_is_dark(
    chunk: Chunk,
    shell: FaceShell,
    ceiling: CeilingWindow,
    world_y0: i32,
    tables: HotTables,
    dark: LightGrid,
)
    requires
        is_dark_shell(shell),
        forall|i: int|
            0 <= i < CHUNK_VOLUME ==> tables.opaque_spec(#[trigger] chunk.cell(i))
                && tables.emission@[chunk.cell(i).0 as int] == 0,
        dark.flat() is Some,
        dark.flat()->0@ == (0u8, 0u8),
    ensures
        is_chunk_light(chunk, shell, ceiling, world_y0, tables, dark),
{
    let opaque = opacity(chunk, tables);
    let sky = sky_seeds(opaque, ceiling, world_y0 + 16, shell);
    let block = block_seeds(chunk, tables, shell);
    assert forall|i: int| 0 <= i < CHUNK_VOLUME implies #[trigger] sky[i] == 0 && block[i] == 0 by {
        lemma_dark_shell(shell, true, i, 6);
        lemma_dark_shell(shell, false, i, 6);
        assert(tables.opaque_spec(chunk.cell(i)));
        assert(opaque[i]);
        assert(!clear_to_top(opaque, i));
    }
    lemma_flat_light(opaque, true, sky, sky_of(dark), 0);
    assert forall|i: int| 0 <= i < CHUNK_VOLUME implies #[trigger] block[i] == 0 by {
        assert(sky[i] == 0);
    }
    lemma_flat_light(opaque, false, block, block_of(dark), 0);
}

/// A clear chunk that emits nothing, with open sky above and dark neighbours, has
/// full sky light and no block light.
pub proof fn lemma_open_chunk_is_sky_lit(
    chunk: Chunk,
    shell: FaceShell,
    ceiling: CeilingWindow,
    world_y0: i32,
    tables: HotTables,
    open: LightGrid,
)
    requires
        is_dark_shell(shell),
        forall|i: int|
            0 <= i < CHUNK_VOLUME ==> !tables.opaque_spec(#[trigger] chunk.cell(i))
                && tables.emission@[chunk.cell(i).0 as int] == 0,
        forall|x: int, z: int|
            0 <= x < 16 && 0 <= z < 16 ==> world_y0 + 16 >= #[trigger] ceiling.surface_spec(x, z),
        open.flat() is Some,
        open.flat()->0@ == (15u8, 0u8),
    ensures
        is_chunk_light(chunk, shell, ceiling, world_y0, tables, open),
{
    let opaque = opacity(chunk, tables);
    let sky = sky_seeds(opaque, ceiling, world_y0 + 16, shell);
    let block = block_seeds(chunk, tables, shell);
    assert forall|i: int| 0 <= i < CHUNK_VOLUME implies !#[trigger] opaque[i] by {
        assert(!tables.opaque_spec(chunk.cell(i)));
    }
    assert forall|i: int| 0 <= i < CHUNK_VOLUME implies #[trigger] sky[i] == 15 && block[i] == 0 by {
        lemma_dark_shell(shell, true, i, 6);
        lemma_dark_shell(shell, false, i, 6);
        assert(clear_to_top(opaque, i));
        let l = local_of_spec(i);
        assert(world_y0 + 16 >= ceiling.surface_spec(l.0, l.2));
        assert(!tables.opaque_spec(chunk.cell(i)));
    }
    lemma_flat_light(opaque, true, sky, sky_of(open), 15);
    assert forall|i: int| 0 <= i < CHUNK_VOLUME implies #[trigger] block[i] == 0 by {
        assert(sky[i] == 15);
    }
    lemma_flat_light(opaque, false, block, block_of(open), 0);
}

/// Where every cell starts with the same level, that is the light.
proof fn lemma_flat_light(opaque: Seq<bool>, sky: bool, seeds: Seq<u8>, field: Seq<u8>, v: u8)
    requires
        v <= 15,
        field.len() == CHUNK_VOLUME,
        forall|i: int| 0 <= i < CHUNK_VOLUME ==> #[trigger] seeds[i] == v,
        forall|i: int| 0 <= i < CHUNK_VOLUME ==> #[trigger] field[i] == v,
    ensures
        is_light(opaque, sky, seeds, field),
{
    assert(is_spread(opaque, sky, seeds, field)) by {
        assert forall|i: int| 0 <= i < CHUNK_VOLUME implies #[trigger] field[i] >= seeds[i] by {
            assert(seeds[i] == v);
        }
    }
    assert forall|g: Seq<u8>| #[trigger] is_spread(opaque, sky, seeds, g) implies not_brighter(
        field,
        g,
    ) by {
        assert forall|i: int| 0 <= i < CHUNK_VOLUME implies #[trigger] field[i] <= g[i] by {
            assert(seeds[i] == v);
            assert(g[i] >= seeds[i]);
        }
    }
}

proof fn lemma_lent_max(shell: FaceShell, sky: bool, i: int, face: Face, n: int)
    requires
        0 <= face.index_spec() < n <= 6,
    ensures
        lent_max(shell, sky, i, n) >= lent_at(shell, sky, face, i),
    decreases n,
{
    if face.index_spec() < n - 1 {
        lemma_lent_max(shell, sky, i, face, n - 1);
    } else {
        assert(Face::at_spec(n - 1) == face);
    }
}

/// What is lent comes across some face.
proof fn lemma_lent_by(shell: FaceShell, sky: bool, i: int, n: int) -> (face: Face)
    requires
        0 <= n <= 6,
        lent_max(shell, sky, i, n) > 0,
    ensures
        lent_max(shell, sky, i, n) == lent_at(shell, sky, face, i),
        on_face(i, face),
    decreases n,
{
    let face = Face::at_spec(n - 1);
    if lent_max(shell, sky, i, n) == lent_at(shell, sky, face, i) {
        face
    } else {
        lemma_lent_by(shell, sky, i, n - 1)
    }
}

/// Whether a shell shows, across a face, the light of the chunk that lies there.
pub open spec fn borders(shell: FaceShell, face: Face, beyond: LightGrid) -> bool {
    forall|slot: int|
        0 <= slot < CHUNK_AREA ==> #[trigger] shell.lumel(face, slot) == beyond.cell(
            layer_cell_spec(face, near_layer_spec(face), slot),
        )
}

/// The cell across a face is the one that a step over the border leads to: the shell's
/// lumel for a cell on a face is the light of the next cell along the face's direction,
/// counted on into the chunk beyond.
pub proof fn lemma_across_a_border(
    shell: FaceShell,
    face: Face,
    beyond: LightGrid,
    x: int,
    y: int,
    z: int,
)
    requires
        borders(shell, face, beyond),
        0 <= x < 16,
        0 <= y < 16,
        0 <= z < 16,
        face.touches_spec(x, y, z),
    ensures
        ({
            let d = face.offset_spec();
            shell.lumel(face, slot_spec(face, x, y, z)) == beyond.cell(
                (x + d.0) % 16 + (z + d.2) % 16 * 16 + (y + d.1) % 16 * 256,
            )
        }),
{
    let s = slot_spec(face, x, y, z);
    assert(0 <= s < CHUNK_AREA);
    let (a, b) = match face {
        Face::NegX | Face::PosX => (y, z),
        Face::NegZ | Face::PosZ => (x, y),
        Face::NegY | Face::PosY => (x, z),
    };
    assert(s % 16 == a && s / 16 == b);
    assert(shell.lumel(face, s) == beyond.cell(
        layer_cell_spec(face, near_layer_spec(face), s),
    ));
}

/// Settled light is continuous across every border: a cell on a face has at least the
/// light of the cell beyond the face less one, sky and block light alike, and full sky
/// light comes down from above in full.
pub proof fn lemma_light_crosses_borders(
    chunk: Chunk,
    shell: FaceShell,
    ceiling: CeilingWindow,
    world_y0: i32,
    tables: HotTables,
    g: LightGrid,
    face: Face,
    beyond: LightGrid,
    x: int,
    y: int,
    z: int,
)
    requires
        is_chunk_light(chunk, shell, ceiling, world_y0, tables, g),
        borders(shell, face, beyond),
        0 <= x < 16,
        0 <= y < 16,
        0 <= z < 16,
        ({
            let d = face.offset_spec();
            !(0 <= x + d.0 < 16 && 0 <= y + d.1 < 16 && 0 <= z + d.2 < 16)
        }),
    ensures
        ({
            let d = face.offset_spec();
            let here = g.cell(x + z * 16 + y * 256);
            let there = beyond.cell(
                (x + d.0) % 16 + (z + d.2) % 16 * 16 + (y + d.1) % 16 * 256,
            );
            &&& here.sky.value() >= there.sky.value() - 1
            &&& here.block.value() >= there.block.value() - 1
            &&& d.1 == 1 && there.sky.value() == 15 ==> here.sky.value() >= 15
        }),
{
    let i = x + z * 16 + y * 256;
    crate::world::chunk::lemma_index_local_inverse(i, x, y, z);
    assert(local_of_spec(i) == (x, y, z));
    lemma_across_a_border(shell, face, beyond, x, y, z);
    lemma_lent_max(shell, true, i, face, 6);
    lemma_lent_max(shell, false, i, face, 6);
    let opaque = opacity(chunk, tables);
    let sky = sky_seeds(opaque, ceiling, world_y0 + 16, shell);
    let block = block_seeds(chunk, tables, shell);
    assert(sky_of(g)[i] >= sky[i]);
    assert(block_of(g)[i] >= block[i]);
}

/// Settled light fades by at most one from cell to cell: a cell that lets light in has at
/// least the light of the cell next to it less one, and full sky light comes down in
/// full.
pub proof fn lemma_light_fades_by_one(
    chunk: Chunk,
    shell: FaceShell,
    ceiling: CeilingWindow,
    world_y0: i32,
    tables: HotTables,
    g: LightGrid,
    face: Face,
    x: int,
    y: int,
    z: int,
)
    requires
        is_chunk_light(chunk, shell, ceiling, world_y0, tables, g),
        0 <= x < 16,
        0 <= y < 16,
        0 <= z < 16,
        ({
            let d = face.offset_spec();
            0 <= x + d.0 < 16 && 0 <= y + d.1 < 16 && 0 <= z + d.2 < 16
        }),
        !tables.opaque@[chunk.cell(x + z * 16 + y * 256).0 as int],
    ensures
        ({
            let d = face.offset_spec();
            let here = g.cell(x + z * 16 + y * 256);
            let there = g.cell((x + d.0) + (z + d.2) * 16 + (y + d.1) * 256);
            &&& here.sky.value() >= there.sky.value() - 1
            &&& here.block.value() >= there.block.value() - 1
            &&& d.1 == 1 && there.sky.value() == 15 ==> here.sky.value() >= 15
        }),
{
    let d = face.offset_spec();
    let i = x + z * 16 + y * 256;
    let j = (x + d.0) + (z + d.2) * 16 + (y + d.1) * 256;
    crate::world::chunk::lemma_index_local_inverse(i, x, y, z);
    crate::world::chunk::lemma_index_local_inverse(j, x + d.0, y + d.1, z + d.2);
    assert(local_of_spec(i) == (x, y, z));
    assert(local_of_spec(j) == (x + d.0, y + d.1, z + d.2));
    let opaque = opacity(chunk, tables);
    assert(fed(opaque, true, sky_of(g), j, i));
    assert(fed(opaque, false, block_of(g), j, i));
    assert(adjacent(j, i));
}

/// Settled light has all that shines on it: a block is as bright as it glows, at most
/// fifteen, and a cell is in full sky light where it and every cell above it in its
/// chunk let light through and the sky is open above.
pub proof fn lemma_light_shines(
    chunk: Chunk,
    shell: FaceShell,
    ceiling: CeilingWindow,
    world_y0: i32,
    tables: HotTables,
    g: LightGrid,
    x: int,
    y: int,
    z: int,
)
    requires
        is_chunk_light(chunk, shell, ceiling, world_y0, tables, g),
        0 <= x < 16,
        0 <= y < 16,
        0 <= z < 16,
    ensures
        ({
            let i = x + z * 16 + y * 256;
            let glow = tables.emission@[chunk.cell(i).0 as int];
            &&& g.cell(i).block.value() >= (if glow < 15 {
                glow
            } else {
                15
            })
            &&& world_y0 + 16 >= ceiling.surface_spec(x, z) && (forall|h: int|
                y <= h < 16 ==> !tables.opaque@[(#[trigger] chunk.cell(x + z * 16 + h * 256)).0 as int])
                ==> g.cell(i).sky.value() >= 15
        }),
{
    let i = x + z * 16 + y * 256;
    crate::world::chunk::lemma_index_local_inverse(i, x, y, z);
    assert(local_of_spec(i) == (x, y, z));
    let opaque = opacity(chunk, tables);
    let sky = sky_seeds(opaque, ceiling, world_y0 + 16, shell);
    let block = block_seeds(chunk, tables, shell);
    assert(sky_of(g)[i] >= sky[i]);
    assert(block_of(g)[i] >= block[i]);
    if forall|h: int|
        y <= h < 16 ==> !tables.opaque@[(#[trigger] chunk.cell(x + z * 16 + h * 256)).0 as int] {
        assert(clear_to_top(opaque, i)) by {
            assert forall|k: int| i <= k < CHUNK_VOLUME && (k - i) % 256 == 0 implies !(
            #[trigger] opaque[k]) by {
                let h = y + (k - i) / 256;
                assert(k == x + z * 16 + h * 256);
                assert(!tables.opaque@[chunk.cell(x + z * 16 + h * 256).0 as int]);
            }
        }
    }
}

/// A cell next to another lies one step along some face's direction.
proof fn lemma_step_to(i: int, j: int, x: int, y: int, z: int) -> (f: Face)
    requires
        0 <= j < CHUNK_VOLUME,
        0 <= x < 16,
        0 <= y < 16,
        0 <= z < 16,
        i == x + z * 16 + y * 256,
        adjacent(j, i),
    ensures
        !f.touches_spec(x, y, z),
        j == (x + f.offset_spec().0) + (z + f.offset_spec().2) * 16 + (y + f.offset_spec().1) * 256,
        straight_down(j, i) == (f == Face::PosY),
{
    crate::world::chunk::lemma_index_local_inverse(i, x, y, z);
    crate::world::chunk::lemma_index_local_inverse(j, 0, 0, 0);
    assert(local_of_spec(i) == (x, y, z));
    let l = local_of_spec(j);
    if l.0 == x + 1 {
        Face::PosX
    } else if l.0 == x - 1 {
        Face::NegX
    } else if l.1 == y + 1 {
        Face::PosY
    } else if l.1 == y - 1 {
        Face::NegY
    } else if l.2 == z + 1 {
        Face::PosZ
    } else {
        Face::NegZ
    }
}

/// Settled light has a source. Block light in a cell is its block's own glow, or one less
/// than in some cell next to it, in the chunk or across a face; sky light is that of an
/// open column, or comes from a cell next to it in the same way, undiminished where it is
/// full and falls straight down. Within the chunk it only enters cells that let it in.
pub proof fn lemma_light_is_from_somewhere(
    chunk: Chunk,
    shell: FaceShell,
    ceiling: CeilingWindow,
    world_y0: i32,
    tables: HotTables,
    g: LightGrid,
    x: int,
    y: int,
    z: int,
)
    requires
        is_chunk_light(chunk, shell, ceiling, world_y0, tables, g),
        0 <= x < 16,
        0 <= y < 16,
        0 <= z < 16,
    ensures
        ({
            let i = x + z * 16 + y * 256;
            let v = g.cell(i).block.value();
            ||| v == 0
            ||| v <= tables.emission@[chunk.cell(i).0 as int]
            ||| exists|f: Face|
                #![trigger f.touches_spec(x, y, z)]
                f.touches_spec(x, y, z) && shell.lumel(f, slot_spec(f, x, y, z)).block.value() == v
                    + 1
            ||| !tables.opaque@[chunk.cell(i).0 as int] && exists|f: Face|
                #![trigger f.offset_spec()]
                !f.touches_spec(x, y, z) && g.cell(
                    (x + f.offset_spec().0) + (z + f.offset_spec().2) * 16 + (y
                        + f.offset_spec().1) * 256,
                ).block.value() == v + 1
        }),
        ({
            let i = x + z * 16 + y * 256;
            let v = g.cell(i).sky.value();
            ||| v == 0
            ||| v >= 15 && world_y0 + 16 >= ceiling.surface_spec(x, z) && forall|h: int|
                y <= h < 16 ==> !tables.opaque@[(#[trigger] chunk.cell(x + z * 16 + h * 256)).0 as int]
            ||| exists|f: Face|
                #![trigger f.touches_spec(x, y, z)]
                f.touches_spec(x, y, z) && ({
                    let from = shell.lumel(f, slot_spec(f, x, y, z)).sky.value();
                    from == v + 1 || f == Face::PosY && v == 15 && from == 15
                })
            ||| !tables.opaque@[chunk.cell(i).0 as int] && exists|f: Face|
                #![trigger f.offset_spec()]
                !f.touches_spec(x, y, z) && ({
                    let from = g.cell(
                        (x + f.offset_spec().0) + (z + f.offset_spec().2) * 16 + (y
                            + f.offset_spec().1) * 256,
                    ).sky.value();
                    from == v + 1 || f == Face::PosY && v == 15 && from == 15
                })
        }),
{
    let i = x + z * 16 + y * 256;
    crate::world::chunk::lemma_index_local_inverse(i, x, y, z);
    assert(local_of_spec(i) == (x, y, z));
    let opaque = opacity(chunk, tables);
    let sky = sky_seeds(opaque, ceiling, world_y0 + 16, shell);
    let block = block_seeds(chunk, tables, shell);
    assert(sky_of(g)[i] >= sky[i]);
    assert(block_of(g)[i] >= block[i]);
    if block_of(g)[i] > block[i] {
        lemma_light_has_a_source(opaque, false, block, block_of(g), i);
        let j = choose|j: int|
            0 <= j < CHUNK_VOLUME && #[trigger] adjacent(j, i) && block_of(g)[i] == carried(
                false,
                straight_down(j, i),
                block_of(g)[j],
            );
        let f = lemma_step_to(i, j, x, y, z);
        assert(f.offset_spec() == f.offset_spec());
    } else if block[i] > 0 {
        if lent_max(shell, false, i, 6) > 0 {
            let f = lemma_lent_by(shell, false, i, 6);
            assert(f.touches_spec(x, y, z));
        }
    }
    if sky_of(g)[i] > sky[i] {
        lemma_light_has_a_source(opaque, true, sky, sky_of(g), i);
        let j = choose|j: int|
            0 <= j < CHUNK_VOLUME && #[trigger] adjacent(j, i) && sky_of(g)[i] == carried(
                true,
                straight_down(j, i),
                sky_of(g)[j],
            );
        let f = lemma_step_to(i, j, x, y, z);
        assert(f.offset_spec() == f.offset_spec());
    } else if sky[i] > 0 {
        if world_y0 + 16 >= ceiling.surface_spec(x, z) && clear_to_top(opaque, i) {
            assert forall|h: int| y <= h < 16 implies !tables.opaque@[(#[trigger] chunk.cell(
                x + z * 16 + h * 256,
            )).0 as int] by {
                let k = x + z * 16 + h * 256;
                assert(k - i == (h - y) * 256);
                assert(!opaque[k]);
            }
        } else {
            let f = lemma_lent_by(shell, true, i, 6);
            assert(f.touches_spec(x, y, z));
        }
    }
}

} // verus!
