//! Light that spreads from cell to cell of a chunk.
//!
//! The light of a chunk is the darkest field that is at least as bright as its seeds
//! everywhere and in which every cell that lets light in is at least as bright as its
//! neighbours' light is one step on.
use std::collections::VecDeque;
use vstd::prelude::*;

use crate::world::brick::cell_index_spec;
use crate::world::chunk::{lemma_index_local_inverse, local_of_spec, Chunk, CHUNK_VOLUME};
use crate::world::connectivity::{
    adjacent, lemma_neighbours, lemma_push, orthogonal_neighbours, still_listed, waits,
};

verus! {

/// What a level is one step on: one less, but full sky light stays full straight
/// down.
pub open spec fn carried(sky: bool, down: bool, level: u8) -> int {
    if sky && down && level == 15 {
        15
    } else if level == 0 {
        0
    } else {
        level - 1
    }
}

/// Whether cell `j` lies straight below cell `i`.
pub open spec fn straight_down(i: int, j: int) -> bool {
    local_of_spec(j).1 < local_of_spec(i).1
}

/// Whether cell `j` is as bright as the light that comes in from cell `i`.
pub open spec fn fed(opaque: Seq<bool>, sky: bool, field: Seq<u8>, i: int, j: int) -> bool {
    0 <= i < CHUNK_VOLUME && 0 <= j < CHUNK_VOLUME && adjacent(i, j) && !opaque[j] ==> field[j]
        >= carried(sky, straight_down(i, j), field[i])
}

/// Whether a field is at least as bright as its seeds and spreads as light does.
pub open spec fn is_spread(opaque: Seq<bool>, sky: bool, seeds: Seq<u8>, field: Seq<u8>) -> bool {
    &&& field.len() == CHUNK_VOLUME
    &&& forall|i: int| 0 <= i < CHUNK_VOLUME ==> #[trigger] field[i] >= seeds[i]
    &&& forall|i: int, j: int| #[trigger] fed(opaque, sky, field, i, j)
}

/// Whether a field is nowhere brighter than another.
pub open spec fn not_brighter(f: Seq<u8>, g: Seq<u8>) -> bool {
    forall|i: int| 0 <= i < CHUNK_VOLUME ==> #[trigger] f[i] <= g[i]
}

/// Whether a field is the light that spreads from seeds: the darkest that does.
pub open spec fn is_light(opaque: Seq<bool>, sky: bool, seeds: Seq<u8>, field: Seq<u8>) -> bool {
    &&& is_spread(opaque, sky, seeds, field)
    &&& forall|g: Seq<u8>| #[trigger]
        is_spread(opaque, sky, seeds, g) ==> not_brighter(field, g)
}

/// Seeds and opacity decide the light: there is one such field.
pub proof fn lemma_light_unique(
    opaque: Seq<bool>,
    sky: bool,
    seeds: Seq<u8>,
    f: Seq<u8>,
    g: Seq<u8>,
)
    requires
        is_light(opaque, sky, seeds, f),
        is_light(opaque, sky, seeds, g),
    ensures
        f == g,
{
    assert(not_brighter(f, g) && not_brighter(g, f));
    assert forall|i: int| 0 <= i < CHUNK_VOLUME implies f[i] == g[i] by {
        assert(f[i] <= g[i]);
        assert(g[i] <= f[i]);
    }
    assert(f =~= g);
}

/// Brighter seeds and fewer opaque cells never make any cell darker.
pub proof fn lemma_light_monotone(
    opaque: Seq<bool>,
    clearer: Seq<bool>,
    sky: bool,
    seeds: Seq<u8>,
    more: Seq<u8>,
    f: Seq<u8>,
    g: Seq<u8>,
)
    requires
        is_light(opaque, sky, seeds, f),
        is_light(clearer, sky, more, g),
        forall|i: int| 0 <= i < CHUNK_VOLUME ==> #[trigger] seeds[i] <= more[i],
        forall|i: int| 0 <= i < CHUNK_VOLUME && #[trigger] clearer[i] ==> opaque[i],
    ensures
        not_brighter(f, g),
{
    assert(is_spread(opaque, sky, seeds, g)) by {
        assert forall|i: int| 0 <= i < CHUNK_VOLUME implies #[trigger] g[i] >= seeds[i] by {
            assert(g[i] >= more[i]);
            assert(seeds[i] <= more[i]);
        }
        assert forall|i: int, j: int| #[trigger] fed(opaque, sky, g, i, j) by {
            assert(fed(clearer, sky, g, i, j));
            if 0 <= j < CHUNK_VOLUME && !opaque[j] {
                assert(!clearer[j]);
            }
        }
    }
}

/// A field that spreads already is its own light: settled light does not move.
pub proof fn lemma_settled_light_stays(opaque: Seq<bool>, sky: bool, seeds: Seq<u8>, f: Seq<u8>)
    requires
        is_light(opaque, sky, seeds, f),
    ensures
        is_light(opaque, sky, f, f),
{
    assert(is_spread(opaque, sky, f, f));
    assert forall|g: Seq<u8>| #[trigger] is_spread(opaque, sky, f, g) implies not_brighter(f, g) by {
        assert forall|i: int| 0 <= i < CHUNK_VOLUME implies #[trigger] f[i] <= g[i] by {
            assert(g[i] >= f[i]);
        }
    }
}

/// No seeds, no light.
pub proof fn lemma_no_seeds_no_light(opaque: Seq<bool>, sky: bool, seeds: Seq<u8>, f: Seq<u8>)
    requires
        is_light(opaque, sky, seeds, f),
        forall|i: int| 0 <= i < CHUNK_VOLUME ==> #[trigger] seeds[i] == 0,
    ensures
        forall|i: int| 0 <= i < CHUNK_VOLUME ==> #[trigger] f[i] == 0,
{
    let none = Seq::new(CHUNK_VOLUME as nat, |i: int| 0u8);
    assert(is_spread(opaque, sky, seeds, none));
    assert forall|i: int| 0 <= i < CHUNK_VOLUME implies #[trigger] f[i] == 0 by {
        assert(f[i] <= none[i]);
    }
}

/// Light comes from somewhere: a cell that is brighter than it starts lets light in, and
/// has exactly what one of its neighbours' light is one step on.
pub proof fn lemma_light_has_a_source(
    opaque: Seq<bool>,
    sky: bool,
    seeds: Seq<u8>,
    f: Seq<u8>,
    i: int,
)
    requires
        is_light(opaque, sky, seeds, f),
        0 <= i < CHUNK_VOLUME,
        f[i] > seeds[i],
    ensures
        !opaque[i],
        exists|j: int|
            0 <= j < CHUNK_VOLUME && #[trigger] adjacent(j, i) && f[i] == carried(
                sky,
                straight_down(j, i),
                f[j],
            ),
{
    let fed_by = |j: int|
        0 <= j < CHUNK_VOLUME && adjacent(j, i) && !opaque[i] && f[i] == carried(
            sky,
            straight_down(j, i),
            f[j],
        );
    if !(exists|j: int| #[trigger] fed_by(j)) {
        let g = f.update(i, (f[i] - 1) as u8);
        assert(is_spread(opaque, sky, seeds, g)) by {
            assert forall|k: int| 0 <= k < CHUNK_VOLUME implies #[trigger] g[k] >= seeds[k] by {
                assert(f[k] >= seeds[k]);
            }
            assert forall|j: int, k: int| #[trigger] fed(opaque, sky, g, j, k) by {
                assert(fed(opaque, sky, f, j, k));
                assert(!fed_by(j));
                if k == i && 0 <= j < CHUNK_VOLUME && adjacent(j, k) {
                    assert(local_of_spec(j) != local_of_spec(k));
                }
            }
        }
        assert(not_brighter(f, g));
        assert(f[i] <= g[i]);
    }
    let j = choose|j: int| #[trigger] fed_by(j);
    assert(adjacent(j, i));
}

/// How far all cells from `n` on are from full light.
spec fn slack(field: Seq<u8>, n: int) -> int
    decreases field.len() - n,
{
    if n < 0 || n >= field.len() {
        0
    } else {
        15 - field[n] + slack(field, n + 1)
    }
}

proof fn lemma_slack(field: Seq<u8>, k: int, v: u8, n: int)
    requires
        0 <= k < field.len(),
        0 <= n <= field.len(),
    ensures
        slack(field.update(k, v), n) == slack(field, n) + (if n <= k {
            field[k] - v
        } else {
            0
        }),
    decreases field.len() - n,
{
    if n < field.len() {
        lemma_slack(field, k, v, n + 1);
    }
}

proof fn lemma_slack_positive(field: Seq<u8>, n: int)
    requires
        0 <= n <= field.len(),
        forall|i: int| 0 <= i < field.len() ==> #[trigger] field[i] <= 15,
    ensures
        slack(field, n) >= 0,
    decreases field.len() - n,
{
    if n < field.len() {
        lemma_slack_positive(field, n + 1);
        assert(field[n] <= 15);
    }
}

/// What spreading keeps. `list` holds the neighbours of `cur`; those from place `m` on
/// are not looked at yet.
spec fn spreading(
    opaque: Seq<bool>,
    sky: bool,
    seeds: Seq<u8>,
    field: Seq<u8>,
    queue: Seq<usize>,
    cur: int,
    list: Seq<(usize, usize, usize)>,
    m: int,
) -> bool {
    &&& opaque.len() == CHUNK_VOLUME
    &&& field.len() == CHUNK_VOLUME
    &&& forall|i: int| 0 <= i < CHUNK_VOLUME ==> #[trigger] field[i] >= seeds[i]
    &&& forall|i: int| 0 <= i < CHUNK_VOLUME ==> #[trigger] field[i] <= 15
    &&& forall|g: Seq<u8>| #[trigger]
        is_spread(opaque, sky, seeds, g) ==> not_brighter(field, g)
    &&& forall|k: int| 0 <= k < queue.len() ==> #[trigger] queue[k] < CHUNK_VOLUME
    &&& forall|i: int, j: int|
        #![trigger fed(opaque, sky, field, i, j)]
        fed(opaque, sky, field, i, j) || waits(queue, i) || (i == cur && still_listed(list, m, j))
}

proof fn lemma_pop_front(before: Seq<usize>, after: Seq<usize>)
    requires
        before.len() > 0,
        after == before.subrange(1, before.len() as int),
    ensures
        forall|k: int| #[trigger] waits(before, k) ==> waits(after, k) || k == before[0],
{
    assert forall|k: int| #[trigger] waits(before, k) implies waits(after, k) || k == before[0] by {
        let j = choose|j: int| 0 <= j < before.len() && #[trigger] before[j] == k;
        if j > 0 {
            assert(after[j - 1] == k);
        }
    }
}

/// Raising one cell to the light that comes in keeps what spreading keeps.
proof fn lemma_raise(
    opaque: Seq<bool>,
    sky: bool,
    seeds: Seq<u8>,
    field: Seq<u8>,
    queue: Seq<usize>,
    cur: int,
    list: Seq<(usize, usize, usize)>,
    m: int,
    j: usize,
    v: u8,
)
    requires
        spreading(opaque, sky, seeds, field, queue, cur, list, m),
        0 <= cur < CHUNK_VOLUME,
        0 <= j < CHUNK_VOLUME,
        adjacent(cur, j as int),
        !opaque[j as int],
        v == carried(sky, straight_down(cur, j as int), field[cur]),
        v > field[j as int],
    ensures
        spreading(opaque, sky, seeds, field.update(j as int, v), queue.push(j), cur, list, m),
{
    let after = field.update(j as int, v);
    lemma_push(queue, j);
    assert(field[cur] <= 15);
    assert(field[j as int] >= seeds[j as int]);
    assert forall|i: int| 0 <= i < CHUNK_VOLUME implies #[trigger] after[i] >= seeds[i] by {
        assert(field[i] >= seeds[i]);
    }
    assert forall|i: int| 0 <= i < CHUNK_VOLUME implies #[trigger] after[i] <= 15 by {
        assert(field[i] <= 15);
    }
    assert forall|g: Seq<u8>| #[trigger] is_spread(opaque, sky, seeds, g) implies not_brighter(
        after,
        g,
    ) by {
        assert(not_brighter(field, g));
        assert(fed(opaque, sky, g, cur, j as int));
        assert forall|i: int| 0 <= i < CHUNK_VOLUME implies #[trigger] after[i] <= g[i] by {
            assert(field[i] <= g[i]);
            assert(field[cur] <= g[cur]);
        }
    }
    assert forall|p: int, q: int|
        #![trigger fed(opaque, sky, after, p, q)]
        fed(opaque, sky, after, p, q) || waits(queue.push(j), p) || (p == cur && still_listed(
            list,
            m,
            q,
        )) by {
        assert(fed(opaque, sky, field, p, q) || waits(queue, p) || (p == cur && still_listed(
            list,
            m,
            q,
        )));
    }
}

/// Spreads light from the seeds in `field`; every seed is in `queue`.
pub fn spread(opaque: &Vec<bool>, sky: bool, field: &mut Vec<u8>, seeds: VecDeque<usize>)
    requires
        opaque@.len() == CHUNK_VOLUME,
        old(field)@.len() == CHUNK_VOLUME,
        forall|i: int| 0 <= i < CHUNK_VOLUME ==> #[trigger] old(field)@[i] <= 15,
        forall|k: int| 0 <= k < seeds@.len() ==> #[trigger] seeds@[k] < CHUNK_VOLUME,
        forall|i: int|
            0 <= i < CHUNK_VOLUME && #[trigger] old(field)@[i] > 0 ==> waits(seeds@, i),
    ensures
        is_light(opaque@, sky, old(field)@, final(field)@),
        forall|i: int| 0 <= i < CHUNK_VOLUME ==> #[trigger] final(field)@[i] <= 15,
{
    let ghost lit = field@;
    let mut queue = seeds;
    proof {
        assert forall|g: Seq<u8>| #[trigger] is_spread(opaque@, sky, lit, g) implies not_brighter(
            lit,
            g,
        ) by {
            assert forall|i: int| 0 <= i < CHUNK_VOLUME implies #[trigger] lit[i] <= g[i] by {
                assert(g[i] >= lit[i]);
            }
        }
        assert forall|i: int, j: int|
            #![trigger fed(opaque@, sky, lit, i, j)]
            fed(opaque@, sky, lit, i, j) || waits(queue@, i) by {
            if 0 <= i < CHUNK_VOLUME && lit[i] > 0 {
                assert(waits(queue@, i));
            }
        }
        lemma_slack_positive(field@, 0);
    }
    while queue.len() > 0
        invariant
            opaque@.len() == CHUNK_VOLUME,
            spreading(opaque@, sky, lit, field@, queue@, -1, Seq::empty(), 0),
            slack(field@, 0) >= 0,
        decreases 2 * slack(field@, 0) + queue@.len(),
    {
        let ghost queue0 = queue@;
        let ghost field0 = field@;
        let i: usize = queue.pop_front().unwrap();
        proof {
            assert(queue@ =~= queue0.subrange(1, queue0.len() as int));
            lemma_pop_front(queue0, queue@);
            assert(queue0[0] == i);
        }
        let level: u8 = field[i];
        let (x, y, z) = Chunk::local_of(i);
        let list = orthogonal_neighbours(x, y, z);
        let mut m: usize = 0;
        proof {
            lemma_neighbours(i as int, list@);
            assert forall|k: int| 0 <= k < queue@.len() implies #[trigger] queue@[k]
                < CHUNK_VOLUME by {
                assert(queue0[k + 1] == queue@[k]);
            }
            assert forall|p: int, q: int|
                #![trigger fed(opaque@, sky, field@, p, q)]
                fed(opaque@, sky, field@, p, q) || waits(queue@, p) || (p == i && still_listed(
                    list@,
                    0,
                    q,
                )) by {
                assert(fed(opaque@, sky, field@, p, q) || waits(queue0, p));
                if p == i && !fed(opaque@, sky, field@, p, q) {
                    assert(adjacent(i as int, q));
                }
            }
        }
        while m < list.len()
            invariant
                m <= list@.len(),
                i < CHUNK_VOLUME,
                opaque@.len() == CHUNK_VOLUME,
                spreading(opaque@, sky, lit, field@, queue@, i as int, list@, m as int),
                field@[i as int] == level,
                y == local_of_spec(i as int).1,
                forall|k: int|
                    0 <= k < list@.len() ==> (#[trigger] list@[k]).0 < 16 && list@[k].1 < 16
                        && list@[k].2 < 16 && adjacent(
                        i as int,
                        cell_index_spec(list@[k].0 as int, list@[k].1 as int, list@[k].2 as int),
                    ),
                slack(field@, 0) >= 0,
                2 * slack(field@, 0) + queue@.len() < 2 * slack(field0, 0) + queue0.len(),
            decreases list@.len() - m,
        {
            let (nx, ny, nz) = list[m];
            let j: usize = Chunk::index(nx, ny, nz);
            proof {
                lemma_index_local_inverse(0, nx as int, ny as int, nz as int);
                assert(list@[m as int] == (nx, ny, nz));
                assert(adjacent(i as int, j as int));
                assert(field@[i as int] <= 15);
            }
            let down: bool = ny < y;
            if !opaque[j] {
                let cand: u8 = if sky && down && level == 15 {
                    15
                } else if level == 0 {
                    0
                } else {
                    level - 1
                };
                assert(cand == carried(sky, straight_down(i as int, j as int), level));
                if cand > field[j] {
                    proof {
                        lemma_raise(
                            opaque@,
                            sky,
                            lit,
                            field@,
                            queue@,
                            i as int,
                            list@,
                            m as int,
                            j,
                            cand,
                        );
                        lemma_slack(field@, j as int, cand, 0);
                        lemma_slack_positive(field@.update(j as int, cand), 0);
                        assert(j != i) by {
                            assert(local_of_spec(j as int) != local_of_spec(i as int));
                        }
                    }
                    field.set(j, cand);
                    queue.push_back(j);
                }
            }
            proof {
                assert(fed(opaque@, sky, field@, i as int, j as int));
                assert forall|p: int, q: int|
                    #![trigger fed(opaque@, sky, field@, p, q)]
                    fed(opaque@, sky, field@, p, q) || waits(queue@, p) || (p == i
                        && still_listed(list@, m + 1, q)) by {
                    assert(fed(opaque@, sky, field@, p, q) || waits(queue@, p) || (p == i
                        && still_listed(list@, m as int, q)));
                    if p == i && !fed(opaque@, sky, field@, p, q) && !waits(queue@, p) {
                        let k = choose|k: int|
                            m <= k < list@.len() && cell_index_spec(
                                (#[trigger] list@[k]).0 as int,
                                list@[k].1 as int,
                                list@[k].2 as int,
                            ) == q;
                        assert(k != m);
                        assert(list@[k] == list@[k]);
                    }
                }
            }
            m = m + 1;
        }
        proof {
            assert forall|p: int, q: int|
                #![trigger fed(opaque@, sky, field@, p, q)]
                fed(opaque@, sky, field@, p, q) || waits(queue@, p) by {
                assert(!still_listed(list@, list@.len() as int, q));
            }
        }
    }
    proof {
        assert forall|i: int, j: int| #[trigger] fed(opaque@, sky, field@, i, j) by {
            assert(!waits(queue@, i));
            assert(!still_listed(Seq::empty(), 0, j));
        }
    }
}

} // verus!
