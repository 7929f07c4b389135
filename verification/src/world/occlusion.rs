//! The visibility pass: which chunks a sightline from the camera can reach.
use vstd::prelude::*;

use crate::coord::{lemma_place_in, lemma_place_unique, ChunkBox, ChunkCoord, Face};
use crate::reach::{lemma_reach_keeps, lemma_reach_more, lemma_reach_self, lemma_reach_step, reaches};
use crate::world::connectivity::{
    has_face, holds_face, lemma_face_masks, with_face, Connectivity,
};

verus! {

/// A chunk together with the face a sightline came in by; the camera's own chunk
/// has none.
pub type Visit = (ChunkCoord, Option<Face>);

/// How every loaded chunk connects its faces.
pub type ConnFn = spec_fn(ChunkCoord) -> Option<Connectivity>;

/// Whether a lookup answers what `conn` says, wherever it answers.
pub open spec fn looks_up<F: Fn(ChunkCoord) -> Option<Connectivity>>(
    conn_of: F,
    conn: ConnFn,
) -> bool {
    forall|c: ChunkCoord, r: Option<Connectivity>| #[trigger]
        call_ensures(conn_of, (c,), r) ==> r == conn(c)
}

/// Whether a sightline passes from one visit on to another: it leaves by the face
/// across from where it comes in next, the chunk it leaves connects that face to the
/// one it came in by, and the chunk it enters is loaded and in the box.
pub open spec fn passes(
    volume: ChunkBox,
    conn: ConnFn,
    from: Visit,
    to: Visit,
) -> bool {
    match to.1 {
        Some(g) => {
            &&& volume.contains_spec(from.0)
            &&& to.0 == from.0.step_spec(g.opposite_spec())
            &&& volume.contains_spec(to.0)
            &&& conn(to.0) is Some
            &&& match from.1 {
                Some(f) => conn(from.0) is Some && conn(from.0)->0.connects_spec(
                    f,
                    g.opposite_spec(),
                ),
                None => true,
            }
        },
        None => false,
    }
}

/// The step relation of [`passes`].
pub open spec fn passing(
    volume: ChunkBox,
    conn: ConnFn,
) -> spec_fn(Visit, Visit) -> bool {
    |from: Visit, to: Visit| passes(volume, conn, from, to)
}

/// Whether a sightline from the camera's chunk comes into `c` by `f`.
pub open spec fn entered_by(
    volume: ChunkBox,
    conn: ConnFn,
    origin: ChunkCoord,
    c: ChunkCoord,
    f: Face,
) -> bool {
    reaches(passing(volume, conn), (origin, None), (c, Some(f)))
}

/// Whether a chunk of the box is seen from the camera's chunk.
pub open spec fn seen_from(
    volume: ChunkBox,
    conn: ConnFn,
    origin: ChunkCoord,
    c: ChunkCoord,
) -> bool {
    volume.contains_spec(origin) && (c == origin || exists|f: Face| #[trigger]
        entered_by(volume, conn, origin, c, f))
}

/// Whether a cell is marked visible.
pub open spec fn visible_bit(m: u8) -> bool {
    m & (1u8 << 6u8) != 0
}

/// How many faces a set lacks.
spec fn lacking(m: u8, i: int) -> nat
    decreases 6 - i,
{
    if i < 0 || i >= 6 {
        0
    } else {
        (if has_face(m, Face::at_spec(i)) {
            0nat
        } else {
            1nat
        }) + lacking(m, i + 1)
    }
}

/// How many entries are still open, over all cells from `n` on.
spec fn spare(cells: Seq<u8>, n: int) -> nat
    decreases cells.len() - n,
{
    if n < 0 || n >= cells.len() {
        0
    } else {
        lacking(cells[n], 0) + spare(cells, n + 1)
    }
}

proof fn lemma_lacking(m: u8, r: u8, f: Face, i: int)
    requires
        forall|g: Face| #[trigger] has_face(r, g) == (has_face(m, g) || f == g),
        !has_face(m, f),
        0 <= i <= 6,
    ensures
        lacking(r, i) == lacking(m, i) - (if i <= f.index_spec() {
            1int
        } else {
            0int
        }),
    decreases 6 - i,
{
    if i < 6 {
        lemma_lacking(m, r, f, i + 1);
        assert(Face::at_spec(i).index_spec() == i);
        assert(has_face(r, Face::at_spec(i)) == (has_face(m, Face::at_spec(i)) || f
            == Face::at_spec(i)));
    }
}

proof fn lemma_lacking_same(m: u8, r: u8, i: int)
    requires
        forall|g: Face| #[trigger] has_face(r, g) == has_face(m, g),
        0 <= i <= 6,
    ensures
        lacking(r, i) == lacking(m, i),
    decreases 6 - i,
{
    if i < 6 {
        lemma_lacking_same(m, r, i + 1);
        assert(has_face(r, Face::at_spec(i)) == has_face(m, Face::at_spec(i)));
    }
}

proof fn lemma_spare(cells: Seq<u8>, k: int, r: u8, n: int)
    requires
        0 <= k < cells.len(),
        0 <= n <= cells.len(),
    ensures
        spare(cells.update(k, r), n) == spare(cells, n) + (if n <= k {
            lacking(r, 0) - lacking(cells[k], 0)
        } else {
            0
        }),
    decreases cells.len() - n,
{
    if n < cells.len() {
        lemma_spare(cells, k, r, n + 1);
    }
}

fn mark_visible(m: u8) -> (r: u8)
    ensures
        visible_bit(r),
        forall|f: Face| #[trigger] has_face(r, f) == has_face(m, f),
{
    proof {
        lemma_face_masks(m, 6, 6);
        assert forall|f: Face| #[trigger] has_face(m | (1u8 << 6u8), f) == has_face(m, f) by {
            lemma_face_masks(m, 6, f.index_spec() as u8);
        }
    }
    m | (1u8 << 6u8)
}

/// The chunks seen from the camera in the last pass, over a box of chunks.
pub struct Occlusion {
    volume: ChunkBox,
    cells: Vec<u8>,
}

/// Whether a visit is marked.
spec fn marked(volume: ChunkBox, cells: Seq<u8>, c: ChunkCoord, f: Face) -> bool {
    volume.contains_spec(c) && has_face(cells[volume.place_spec(c)], f)
}

/// Whether a visit waits.
spec fn waiting(queue: Seq<(ChunkCoord, Face)>, c: ChunkCoord, f: Face) -> bool {
    exists|k: int| 0 <= k < queue.len() && #[trigger] queue[k] == (c, f)
}

/// Whether a visit was expanded.
spec fn expanded(
    volume: ChunkBox,
    cells: Seq<u8>,
    origin: ChunkCoord,
    v: Visit,
) -> bool {
    match v.1 {
        None => v.0 == origin,
        Some(f) => marked(volume, cells, v.0, f),
    }
}

/// What the pass keeps: marked visits are entered by sightlines, and every visit that
/// an expanded one passes on to is marked or waits.
spec fn walking(
    volume: ChunkBox,
    conn: ConnFn,
    origin: ChunkCoord,
    cells: Seq<u8>,
    queue: Seq<(ChunkCoord, Face)>,
) -> bool {
    &&& volume.countable()
    &&& cells.len() == volume.volume_spec()
    &&& volume.contains_spec(origin)
    &&& forall|c: ChunkCoord, f: Face| #[trigger]
        marked(volume, cells, c, f) ==> conn(c) is Some && entered_by(volume, conn, origin, c, f)
    &&& forall|k: int|
        0 <= k < queue.len() ==> ((volume.contains_spec((#[trigger] queue[k]).0) && conn(
            queue[k].0,
        ) is Some) ==> entered_by(volume, conn, origin, queue[k].0, queue[k].1))
    &&& forall|v: Visit, c: ChunkCoord, f: Face|
        #![trigger passes(volume, conn, v, (c, Some(f)))]
        passes(volume, conn, v, (c, Some(f))) && expanded(volume, cells, origin, v) ==> (marked(
            volume,
            cells,
            c,
            f,
        ) || waiting(queue, c, f))
    &&& forall|c: ChunkCoord|
        volume.contains_spec(c) ==> (#[trigger] visible_bit(cells[volume.place_spec(c)]) <==> (c
            == origin || exists|f: Face| #[trigger] marked(volume, cells, c, f)))
}

proof fn lemma_queue_push(q: Seq<(ChunkCoord, Face)>, e: (ChunkCoord, Face))
    ensures
        forall|c: ChunkCoord, f: Face| #[trigger]
            waiting(q.push(e), c, f) == (waiting(q, c, f) || (c, f) == e),
{
    let after = q.push(e);
    assert(after[q.len() as int] == e);
    assert forall|c: ChunkCoord, f: Face| #[trigger]
        waiting(after, c, f) == (waiting(q, c, f) || (c, f) == e) by {
        if waiting(q, c, f) {
            let k = choose|k: int| 0 <= k < q.len() && #[trigger] q[k] == (c, f);
            assert(after[k] == (c, f));
        }
        if waiting(after, c, f) && (c, f) != e {
            let k = choose|k: int| 0 <= k < after.len() && #[trigger] after[k] == (c, f);
            assert(q[k] == (c, f));
        }
    }
}

proof fn lemma_queue_pop(before: Seq<(ChunkCoord, Face)>)
    requires
        before.len() > 0,
    ensures
        forall|c: ChunkCoord, f: Face| #[trigger]
            waiting(before, c, f) ==> waiting(before.drop_last(), c, f) || (c, f)
                == before.last(),
{
    assert forall|c: ChunkCoord, f: Face| #[trigger] waiting(before, c, f) implies waiting(
        before.drop_last(),
        c,
        f,
    ) || (c, f) == before.last() by {
        let k = choose|k: int| 0 <= k < before.len() && #[trigger] before[k] == (c, f);
        if k < before.len() - 1 {
            assert(before.drop_last()[k] == (c, f));
        }
    }
}

/// Queues the visits that a sightline passes on to from `cur`.
fn queue_exits(
    queue: &mut Vec<(ChunkCoord, Face)>,
    coord: ChunkCoord,
    entry: Option<(Face, Connectivity)>,
)
    ensures
        old(queue)@.len() <= final(queue)@.len() <= old(queue)@.len() + 6,
        forall|k: int|
            0 <= k < old(queue)@.len() ==> #[trigger] final(queue)@[k] == old(queue)@[k],
        forall|k: int|
            old(queue)@.len() <= k < final(queue)@.len() ==> {
                let e = #[trigger] final(queue)@[k];
                &&& e.0 == coord.step_spec(e.1.opposite_spec())
                &&& entry matches Some((f, conn)) ==> conn.connects_spec(f, e.1.opposite_spec())
            },
        forall|g: Face|
            (entry matches Some((f, conn)) ==> conn.connects_spec(f, g.opposite_spec()))
                ==> #[trigger] waiting(final(queue)@, coord.step_spec(g.opposite_spec()), g),
        forall|c: ChunkCoord, f: Face|
            waiting(old(queue)@, c, f) ==> #[trigger] waiting(final(queue)@, c, f),
{
    let ghost before = queue@;
    let mut i: usize = 0;
    while i < 6
        invariant
            i <= 6,
            queue@.len() <= before.len() + i,
            before.len() <= queue@.len(),
            forall|k: int| 0 <= k < before.len() ==> #[trigger] queue@[k] == before[k],
            forall|k: int|
                before.len() <= k < queue@.len() ==> {
                    let e = #[trigger] queue@[k];
                    &&& e.0 == coord.step_spec(e.1.opposite_spec())
                    &&& entry matches Some((f, conn)) ==> conn.connects_spec(
                        f,
                        e.1.opposite_spec(),
                    )
                },
            forall|g: Face|
                g.opposite_spec().index_spec() < i && (entry matches Some((f, conn))
                    ==> conn.connects_spec(f, g.opposite_spec())) ==> #[trigger] waiting(
                    queue@,
                    coord.step_spec(g.opposite_spec()),
                    g,
                ),
            forall|c: ChunkCoord, f: Face|
                waiting(before, c, f) ==> #[trigger] waiting(queue@, c, f),
        decreases 6 - i,
    {
        let exit = Face::at(i);
        let open: bool = match entry {
            None => true,
            Some((f, conn)) => conn.connects(f, exit),
        };
        if open {
            let e = (coord.step(exit), exit.opposite());
            proof {
                lemma_queue_push(queue@, e);
            }
            queue.push(e);
        }
        i = i + 1;
    }
}

impl Default for Occlusion {
    /// No box yet: every chunk counts as seen.
    fn default() -> (o: Self)
        ensures
            o.wf(),
            forall|c: ChunkCoord| #[trigger] o.visible_spec(c),
    {
        let low = ChunkCoord { x: 0, y: 0, z: 0 };
        Occlusion { volume: ChunkBox { low, nx: 0, ny: 0, nz: 0 }, cells: Vec::new() }
    }
}

impl Occlusion {
    pub closed spec fn wf(self) -> bool {
        self.volume.countable() && self.cells@.len() == self.volume.volume_spec()
    }

    /// Whether a chunk was seen in the last pass. A chunk outside its box counts as
    /// seen.
    pub closed spec fn visible_spec(self, c: ChunkCoord) -> bool {
        self.volume.contains_spec(c) ==> visible_bit(self.cells@[self.volume.place_spec(c)])
    }

    /// Whether a chunk was seen in the last pass. A chunk outside its box counts as
    /// seen.
    pub fn is_visible(&self, coord: ChunkCoord) -> (b: bool)
        requires
            self.wf(),
        ensures
            b == self.visible_spec(coord),
    {
        match self.volume.place(coord) {
            Some(i) => self.cells[i] & (1u8 << 6u8) != 0,
            None => true,
        }
    }

    /// Finds anew which chunks of a box are seen from the camera's chunk. The camera
    /// sees out of every face of its own chunk; any other chunk is left only by faces
    /// that its connectivity joins to the face it was entered by. Chunks that are not
    /// loaded, those for which `conn_of` has no answer, are not entered.
    pub fn rebuild<F: Fn(ChunkCoord) -> Option<Connectivity>>(
        &mut self,
        volume: ChunkBox,
        origin: ChunkCoord,
        conn_of: F,
    )
        requires
            volume.countable(),
            forall|c: ChunkCoord| #[trigger] call_requires(conn_of, (c,)),
        ensures
            final(self).wf(),
            forall|conn: ConnFn, c: ChunkCoord|
                #![trigger looks_up(conn_of, conn), final(self).visible_spec(c)]
                looks_up(conn_of, conn) ==> final(self).visible_spec(c) == (volume.contains_spec(c)
                    ==> seen_from(volume, conn, origin, c)),
    {
        self.volume = volume;
        self.cells = blank(volume);
        let mut queue: Vec<(ChunkCoord, Face)> = Vec::new();
        match volume.place(origin) {
            None => {
                proof {
                    lemma_blank();
                    lemma_box_place(volume);
                    assert forall|c: ChunkCoord| #[trigger]
                        self.visible_spec(c) == !volume.contains_spec(c) by {
                        if volume.contains_spec(c) {
                            assert(self.cells@[volume.place_spec(c)] == 0);
                        }
                    }
                }
                return;
            },
            Some(idx) => {
                let ghost cells0 = self.cells@;
                let root: u8 = mark_visible(self.cells[idx]);
                self.cells.set(idx, root);
                queue_exits(&mut queue, origin, None);
                proof {
                    lemma_blank();
                    assert forall|conn: ConnFn| #[trigger]
                        looks_up(conn_of, conn) implies walking(
                        volume,
                        conn,
                        origin,
                        self.cells@,
                        queue@,
                    ) by {
                        lemma_root(volume, conn, origin, cells0, self.cells@, queue@);
                    }
                }
            },
        }
        while queue.len() > 0
            invariant
                self.volume == volume,
                volume.countable(),
                self.cells@.len() == volume.volume_spec(),
                forall|c: ChunkCoord| #[trigger] call_requires(conn_of, (c,)),
                forall|conn: ConnFn| #[trigger]
                    looks_up(conn_of, conn) ==> walking(volume, conn, origin, self.cells@, queue@),
            decreases 7 * spare(self.cells@, 0) + queue@.len(),
        {
            let ghost queue0 = queue@;
            let ghost cells0 = self.cells@;
            let (coord, face) = queue.pop().unwrap();
            proof {
                lemma_queue_pop(queue0);
                assert(queue0[queue0.len() - 1] == (coord, face));
            }
            match volume.place(coord) {
                None => {
                    proof {
                        assert forall|conn: ConnFn| #[trigger] looks_up(conn_of, conn) implies walking(
                            volume,
                            conn,
                            origin,
                            self.cells@,
                            queue@,
                        ) by {
                            lemma_skip(volume, conn, origin, cells0, queue0);
                        }
                    }
                },
                Some(idx) => match conn_of(coord) {
                    None => {
                        proof {
                            assert forall|conn: ConnFn| #[trigger] looks_up(conn_of, conn) implies walking(
                                volume,
                                conn,
                                origin,
                                self.cells@,
                                queue@,
                            ) by {
                                assert(conn(coord) is None);
                                lemma_skip(volume, conn, origin, cells0, queue0);
                            }
                        }
                    },
                    Some(c) => {
                        let seen: u8 = self.cells[idx];
                        if holds_face(seen, face) {
                            proof {
                                assert(marked(volume, cells0, coord, face));
                                assert forall|conn: ConnFn| #[trigger] looks_up(conn_of, conn) implies walking(
                                    volume,
                                    conn,
                                    origin,
                                    self.cells@,
                                    queue@,
                                ) by {
                                    lemma_skip(volume, conn, origin, cells0, queue0);
                                }
                            }
                        } else {
                            let once: u8 = with_face(seen, face);
                            let twice: u8 = mark_visible(once);
                            self.cells.set(idx, twice);
                            queue_exits(&mut queue, coord, Some((face, c)));
                            proof {
                                lemma_lacking(seen, once, face, 0);
                                lemma_lacking_same(once, twice, 0);
                                lemma_spare(cells0, idx as int, twice, 0);
                                assert forall|conn: ConnFn| #[trigger] looks_up(conn_of, conn) implies walking(
                                    volume,
                                    conn,
                                    origin,
                                    self.cells@,
                                    queue@,
                                ) by {
                                    assert(conn(coord) == Some(c));
                                    lemma_expand(
                                        volume,
                                        conn,
                                        origin,
                                        cells0,
                                        queue0,
                                        coord,
                                        face,
                                        c,
                                        twice,
                                        queue@,
                                    );
                                }
                            }
                        }
                    },
                },
            }
        }
        proof {
            assert forall|conn: ConnFn, c: ChunkCoord|
                #![trigger looks_up(conn_of, conn), self.visible_spec(c)]
                looks_up(conn_of, conn) implies self.visible_spec(c) == (volume.contains_spec(c)
                ==> seen_from(volume, conn, origin, c)) by {
                lemma_done(volume, conn, origin, self.cells@, queue@);
            }
        }
    }
}

fn blank(volume: ChunkBox) -> (cells: Vec<u8>)
    requires
        volume.countable(),
    ensures
        cells@.len() == volume.volume_spec(),
        forall|k: int| 0 <= k < cells@.len() ==> #[trigger] cells@[k] == 0,
{
    assert(volume.nx * volume.ny * volume.nz >= 0) by (nonlinear_arith)
        requires
            volume.nx >= 0,
            volume.ny >= 0,
            volume.nz >= 0,
    ;
    assert(volume.nx * volume.ny >= 0) by (nonlinear_arith)
        requires
            volume.nx >= 0,
            volume.ny >= 0,
    ;
    let n: usize = (volume.nx * volume.ny * volume.nz) as usize;
    let mut cells: Vec<u8> = Vec::with_capacity(n);
    while cells.len() < n
        invariant
            cells@.len() <= n,
            forall|k: int| 0 <= k < cells@.len() ==> #[trigger] cells@[k] == 0,
        decreases n - cells@.len(),
    {
        cells.push(0);
    }
    cells
}

proof fn lemma_blank()
    ensures
        !visible_bit(0),
        forall|f: Face| !#[trigger] has_face(0, f),
{
    lemma_face_masks(0, 0, 6);
    assert forall|f: Face| !#[trigger] has_face(0, f) by {
        lemma_face_masks(0, 0, f.index_spec() as u8);
    }
}

proof fn lemma_box_place(volume: ChunkBox)
    requires
        volume.countable(),
    ensures
        forall|c: ChunkCoord| #[trigger]
            volume.contains_spec(c) ==> 0 <= volume.place_spec(c) < volume.volume_spec(),
        forall|c: ChunkCoord, d: ChunkCoord|
            #![trigger volume.place_spec(c), volume.place_spec(d)]
            volume.contains_spec(c) && volume.contains_spec(d) && volume.place_spec(c)
                == volume.place_spec(d) ==> c == d,
{
    assert forall|c: ChunkCoord| #[trigger] volume.contains_spec(c) implies 0
        <= volume.place_spec(c) < volume.volume_spec() by {
        lemma_place_in(volume, c);
    }
    assert forall|c: ChunkCoord, d: ChunkCoord|
        #![trigger volume.place_spec(c), volume.place_spec(d)]
        volume.contains_spec(c) && volume.contains_spec(d) && volume.place_spec(c)
            == volume.place_spec(d) implies c == d by {
        lemma_place_unique(volume, c, d);
    }
}

proof fn lemma_root(
    volume: ChunkBox,
    conn: ConnFn,
    origin: ChunkCoord,
    blank: Seq<u8>,
    cells: Seq<u8>,
    queue: Seq<(ChunkCoord, Face)>,
)
    requires
        volume.countable(),
        volume.contains_spec(origin),
        blank.len() == volume.volume_spec(),
        forall|k: int| 0 <= k < blank.len() ==> #[trigger] blank[k] == 0,
        !visible_bit(0),
        forall|f: Face| !#[trigger] has_face(0, f),
        cells.len() == blank.len(),
        ({
            let k = volume.place_spec(origin);
            &&& cells == blank.update(k, cells[k])
            &&& visible_bit(cells[k])
            &&& forall|f: Face| #[trigger] has_face(cells[k], f) == has_face(blank[k], f)
        }),
        forall|k: int|
            0 <= k < queue.len() ==> (#[trigger] queue[k]).0 == origin.step_spec(
                queue[k].1.opposite_spec(),
            ),
        forall|g: Face| #[trigger] waiting(queue, origin.step_spec(g.opposite_spec()), g),
    ensures
        walking(volume, conn, origin, cells, queue),
{
    lemma_box_place(volume);
    let step = passing(volume, conn);
    let root: Visit = (origin, None);
    lemma_reach_self(step, root);
    assert forall|c: ChunkCoord, f: Face| !#[trigger] marked(volume, cells, c, f) by {
        if volume.contains_spec(c) {
            assert(blank[volume.place_spec(c)] == 0);
        }
    }
    assert forall|k: int|
        0 <= k < queue.len() && volume.contains_spec((#[trigger] queue[k]).0) && conn(
            queue[k].0,
        ) is Some implies entered_by(volume, conn, origin, queue[k].0, queue[k].1) by {
        let v: Visit = (queue[k].0, Some(queue[k].1));
        assert(step(root, v));
        lemma_reach_step(step, root, root, v);
    }
    assert forall|v: Visit, c: ChunkCoord, f: Face|
        #![trigger passes(volume, conn, v, (c, Some(f)))]
        passes(volume, conn, v, (c, Some(f))) && expanded(volume, cells, origin, v) implies waiting(
        queue,
        c,
        f,
    ) by {
        assert(v == root);
        assert(waiting(queue, origin.step_spec(f.opposite_spec()), f));
    }
    assert forall|c: ChunkCoord| volume.contains_spec(c) implies (#[trigger] visible_bit(
        cells[volume.place_spec(c)],
    ) <==> (c == origin || exists|f: Face| #[trigger] marked(volume, cells, c, f))) by {
        if c != origin {
            assert(volume.place_spec(c) != volume.place_spec(origin));
            assert(blank[volume.place_spec(c)] == 0);
        }
    }
}

/// A visit that needs no expansion leaves the queue.
proof fn lemma_skip(
    volume: ChunkBox,
    conn: ConnFn,
    origin: ChunkCoord,
    cells: Seq<u8>,
    queue: Seq<(ChunkCoord, Face)>,
)
    requires
        walking(volume, conn, origin, cells, queue),
        queue.len() > 0,
        ({
            let (c, f) = queue.last();
            volume.contains_spec(c) && conn(c) is Some ==> marked(volume, cells, c, f)
        }),
    ensures
        walking(volume, conn, origin, cells, queue.drop_last()),
{
    lemma_queue_pop(queue);
    let after = queue.drop_last();
    assert forall|k: int|
        0 <= k < after.len() && volume.contains_spec((#[trigger] after[k]).0) && conn(
            after[k].0,
        ) is Some implies entered_by(volume, conn, origin, after[k].0, after[k].1) by {
        assert(queue[k] == after[k]);
    }
    assert forall|v: Visit, c: ChunkCoord, f: Face|
        #![trigger passes(volume, conn, v, (c, Some(f)))]
        passes(volume, conn, v, (c, Some(f))) && expanded(volume, cells, origin, v) implies marked(
        volume,
        cells,
        c,
        f,
    ) || waiting(after, c, f) by {
        assert(marked(volume, cells, c, f) || waiting(queue, c, f));
    }
}

/// A visit is expanded: it is marked, and what it passes on to waits.
proof fn lemma_expand(
    volume: ChunkBox,
    conn: ConnFn,
    origin: ChunkCoord,
    cells: Seq<u8>,
    queue: Seq<(ChunkCoord, Face)>,
    coord: ChunkCoord,
    face: Face,
    c: Connectivity,
    m: u8,
    queue2: Seq<(ChunkCoord, Face)>,
)
    requires
        walking(volume, conn, origin, cells, queue),
        queue.len() > 0,
        queue.last() == (coord, face),
        volume.contains_spec(coord),
        conn(coord) == Some(c),
        visible_bit(m),
        forall|f: Face| #[trigger]
            has_face(m, f) == (has_face(cells[volume.place_spec(coord)], f) || f == face),
        queue2.len() >= queue.len() - 1,
        forall|k: int| 0 <= k < queue.len() - 1 ==> #[trigger] queue2[k] == queue[k],
        forall|k: int|
            queue.len() - 1 <= k < queue2.len() ==> {
                let e = #[trigger] queue2[k];
                &&& e.0 == coord.step_spec(e.1.opposite_spec())
                &&& c.connects_spec(face, e.1.opposite_spec())
            },
        forall|g: Face|
            c.connects_spec(face, g.opposite_spec()) ==> #[trigger] waiting(
                queue2,
                coord.step_spec(g.opposite_spec()),
                g,
            ),
        forall|d: ChunkCoord, f: Face|
            waiting(queue.drop_last(), d, f) ==> #[trigger] waiting(queue2, d, f),
    ensures
        walking(
            volume,
            conn,
            origin,
            cells.update(volume.place_spec(coord), m),
            queue2,
        ),
{
    lemma_box_place(volume);
    lemma_queue_pop(queue);
    let step = passing(volume, conn);
    let root: Visit = (origin, None);
    let here: Visit = (coord, Some(face));
    let idx = volume.place_spec(coord);
    let cells2 = cells.update(idx, m);
    assert(queue[queue.len() - 1] == (coord, face));
    assert(entered_by(volume, conn, origin, coord, face));
    assert forall|d: ChunkCoord, f: Face| #[trigger]
        marked(volume, cells2, d, f) == (marked(volume, cells, d, f) || (d == coord && f == face)) by {
        if volume.contains_spec(d) && d != coord {
            assert(volume.place_spec(d) != idx);
        }
    }
    assert forall|k: int|
        0 <= k < queue2.len() && volume.contains_spec((#[trigger] queue2[k]).0) && conn(
            queue2[k].0,
        ) is Some implies entered_by(volume, conn, origin, queue2[k].0, queue2[k].1) by {
        if k < queue.len() - 1 {
            assert(queue2[k] == queue[k]);
        } else {
            let v: Visit = (queue2[k].0, Some(queue2[k].1));
            assert(step(here, v));
            lemma_reach_step(step, root, here, v);
        }
    }
    assert forall|v: Visit, d: ChunkCoord, f: Face|
        #![trigger passes(volume, conn, v, (d, Some(f)))]
        passes(volume, conn, v, (d, Some(f))) && expanded(volume, cells2, origin, v) implies marked(
        volume,
        cells2,
        d,
        f,
    ) || waiting(queue2, d, f) by {
        if v == here {
            assert(waiting(queue2, coord.step_spec(f.opposite_spec()), f));
        } else {
            assert(expanded(volume, cells, origin, v));
            assert(marked(volume, cells, d, f) || waiting(queue, d, f));
            if waiting(queue, d, f) && !((d, f) == (coord, face)) {
                assert(waiting(queue.drop_last(), d, f));
            }
        }
    }
    assert forall|d: ChunkCoord| volume.contains_spec(d) implies (#[trigger] visible_bit(
        cells2[volume.place_spec(d)],
    ) <==> (d == origin || exists|f: Face| #[trigger] marked(volume, cells2, d, f))) by {
        if d == coord {
            assert(marked(volume, cells2, coord, face));
        } else {
            assert(volume.place_spec(d) != idx);
            assert(cells2[volume.place_spec(d)] == cells[volume.place_spec(d)]);
            if exists|f: Face| #[trigger] marked(volume, cells2, d, f) {
                let f = choose|f: Face| #[trigger] marked(volume, cells2, d, f);
                assert(marked(volume, cells, d, f));
            }
            if exists|f: Face| #[trigger] marked(volume, cells, d, f) {
                let f = choose|f: Face| #[trigger] marked(volume, cells, d, f);
                assert(marked(volume, cells2, d, f));
            }
        }
    }
}

/// Once no visit waits, exactly the chunks seen from the camera are marked.
proof fn lemma_done(
    volume: ChunkBox,
    conn: ConnFn,
    origin: ChunkCoord,
    cells: Seq<u8>,
    queue: Seq<(ChunkCoord, Face)>,
)
    requires
        walking(volume, conn, origin, cells, queue),
        queue.len() == 0,
    ensures
        forall|c: ChunkCoord|
            volume.contains_spec(c) ==> #[trigger] visible_bit(cells[volume.place_spec(c)])
                == seen_from(volume, conn, origin, c),
{
    let step = passing(volume, conn);
    let root: Visit = (origin, None);
    let kept = |v: Visit| expanded(volume, cells, origin, v);
    assert forall|v: Visit, w: Visit| #[trigger] step(v, w) && kept(v) implies kept(w) by {
        assert(passes(volume, conn, v, w));
        let f = w.1->0;
        assert(w == (w.0, Some(f)));
        assert(passes(volume, conn, v, (w.0, Some(f))));
        assert(!waiting(queue, w.0, f));
    }
    assert forall|c: ChunkCoord| volume.contains_spec(c) implies #[trigger] visible_bit(
        cells[volume.place_spec(c)],
    ) == seen_from(volume, conn, origin, c) by {
        if seen_from(volume, conn, origin, c) && c != origin {
            let f = choose|f: Face| #[trigger] entered_by(volume, conn, origin, c, f);
            lemma_reach_keeps(step, kept, root, (c, Some(f)));
            assert(marked(volume, cells, c, f));
        }
        if visible_bit(cells[volume.place_spec(c)]) && c != origin {
            let f = choose|f: Face| #[trigger] marked(volume, cells, c, f);
            assert(entered_by(volume, conn, origin, c, f));
        }
    }
}

/// Opening chunks up, or loading more of them, hides none: what is seen stays seen.
pub proof fn lemma_opening_hides_none(
    volume: ChunkBox,
    less: ConnFn,
    more: ConnFn,
    origin: ChunkCoord,
    c: ChunkCoord,
)
    requires
        forall|d: ChunkCoord| #[trigger]
            less(d) is Some ==> more(d) is Some && forall|a: Face, b: Face| #[trigger]
                less(d)->0.connects_spec(a, b) ==> more(d)->0.connects_spec(a, b),
        seen_from(volume, less, origin, c),
    ensures
        seen_from(volume, more, origin, c),
{
    if c != origin {
        let f = choose|f: Face| #[trigger] entered_by(volume, less, origin, c, f);
        let (p, q) = (passing(volume, less), passing(volume, more));
        assert forall|v: Visit, w: Visit| #[trigger] p(v, w) implies q(v, w) by {
            assert(passes(volume, less, v, w));
            let g = w.1->0;
            assert(more(w.0) is Some);
            if let Some(e) = v.1 {
                assert(less(v.0)->0.connects_spec(e, g.opposite_spec()));
                assert(more(v.0)->0.connects_spec(e, g.opposite_spec()));
            }
        }
        lemma_reach_more(p, q, (origin, None::<Face>), (c, Some(f)));
        assert(entered_by(volume, more, origin, c, f));
    }
}

/// What lies next to the camera's chunk is seen, if it is known at all.
pub proof fn lemma_next_chunks_are_seen(
    volume: ChunkBox,
    conn: ConnFn,
    origin: ChunkCoord,
    f: Face,
)
    requires
        volume.contains_spec(origin),
        volume.contains_spec(origin.step_spec(f)),
        conn(origin.step_spec(f)) is Some,
    ensures
        seen_from(volume, conn, origin, origin.step_spec(f)),
        entered_by(volume, conn, origin, origin.step_spec(f), f.opposite_spec()),
{
    let step = passing(volume, conn);
    let root: Visit = (origin, None);
    let next: Visit = (origin.step_spec(f), Some(f.opposite_spec()));
    assert(step(root, next));
    lemma_reach_self(step, root);
    lemma_reach_step(step, root, root, next);
    assert(entered_by(volume, conn, origin, origin.step_spec(f), f.opposite_spec()));
}

/// Sight passes through a chunk from the face that it enters by to every face that the
/// chunk's open cells join with it, and on into the chunk beyond that face.
pub proof fn lemma_sight_passes_through(
    volume: ChunkBox,
    conn: ConnFn,
    origin: ChunkCoord,
    c: ChunkCoord,
    enter: Face,
    leave: Face,
)
    requires
        volume.contains_spec(origin),
        volume.contains_spec(c),
        entered_by(volume, conn, origin, c, enter),
        conn(c) is Some,
        conn(c)->0.connects_spec(enter, leave),
        volume.contains_spec(c.step_spec(leave)),
        conn(c.step_spec(leave)) is Some,
    ensures
        seen_from(volume, conn, origin, c.step_spec(leave)),
        entered_by(volume, conn, origin, c.step_spec(leave), leave.opposite_spec()),
{
    let step = passing(volume, conn);
    let here: Visit = (c, Some(enter));
    let next: Visit = (c.step_spec(leave), Some(leave.opposite_spec()));
    assert(leave.opposite_spec().opposite_spec() == leave);
    assert(step(here, next));
    lemma_reach_step(step, (origin, None), here, next);
    assert(entered_by(volume, conn, origin, c.step_spec(leave), leave.opposite_spec()));
}

/// Sealed chunks stop sight: where no known chunk joins any two of its faces, nothing is
/// seen but the camera's chunk and what lies right next to it.
pub proof fn lemma_sealed_chunks_stop_sight(
    volume: ChunkBox,
    conn: ConnFn,
    origin: ChunkCoord,
    c: ChunkCoord,
)
    requires
        forall|d: ChunkCoord, a: Face, b: Face|
            #![trigger conn(d)->0.connects_spec(a, b)]
            conn(d) is Some ==> !conn(d)->0.connects_spec(a, b),
        seen_from(volume, conn, origin, c),
    ensures
        c == origin || exists|f: Face| c == #[trigger] origin.step_spec(f),
{
    if c != origin {
        let f = choose|f: Face| #[trigger] entered_by(volume, conn, origin, c, f);
        let step = passing(volume, conn);
        let near = |v: Visit|
            if v.1 is None {
                v.0 == origin
            } else {
                exists|g: Face| v.0 == #[trigger] origin.step_spec(g)
            };
        assert forall|v: Visit, w: Visit| #[trigger] step(v, w) && near(v) implies near(w) by {
            assert(passes(volume, conn, v, w));
            let g = w.1->0;
            if v.1 is Some {
                assert(!conn(v.0)->0.connects_spec(v.1->0, g.opposite_spec()));
            }
            assert(w.0 == origin.step_spec(g.opposite_spec()));
        }
        lemma_reach_keeps(step, near, (origin, None), (c, Some(f)));
    }
}

/// Nothing unknown is seen: every chunk in sight but the camera's own is known and in the
/// volume.
pub proof fn lemma_only_known_chunks_are_seen(
    volume: ChunkBox,
    conn: ConnFn,
    origin: ChunkCoord,
    c: ChunkCoord,
)
    requires
        seen_from(volume, conn, origin, c),
    ensures
        volume.contains_spec(c),
        c != origin ==> conn(c) is Some,
{
    if c != origin {
        let f = choose|f: Face| #[trigger] entered_by(volume, conn, origin, c, f);
        let step = passing(volume, conn);
        let known = |v: Visit| v.1 is None || volume.contains_spec(v.0) && conn(v.0) is Some;
        assert forall|v: Visit, w: Visit| #[trigger] step(v, w) && known(v) implies known(w) by {
            assert(passes(volume, conn, v, w));
        }
        lemma_reach_keeps(step, known, (origin, None), (c, Some(f)));
    }
}

} // verus!
