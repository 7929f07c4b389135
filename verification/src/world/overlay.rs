//! Edits to the generated world: the blocks that differ from what generation gives.
use vstd::prelude::*;

use crate::block::BlockId;
use crate::coord::{lemma_split_is_exact, BlockCoord, ChunkCoord};
use crate::world::brick::cell_index_spec;
use crate::world::chunk::{lemma_index_local_inverse, Chunk, CHUNK_VOLUME};

verus! {

/// An edited cell.
#[derive(Clone, Copy, PartialEq, Eq, Debug, Structural)]
pub struct Edit {
    pub coord: ChunkCoord,
    pub index: usize,
    pub id: BlockId,
}

/// Whether a cell is edited.
pub open spec fn has_edit(s: Seq<Edit>, c: ChunkCoord, index: int) -> bool {
    exists|i: int| 0 <= i < s.len() && (#[trigger] s[i]).coord == c && s[i].index == index
}

/// The place of a cell's edit.
pub open spec fn edit_row(s: Seq<Edit>, c: ChunkCoord, index: int) -> int {
    choose|i: int| 0 <= i < s.len() && (#[trigger] s[i]).coord == c && s[i].index == index
}

/// Whether no cell is listed twice and every one lies in a chunk of the world.
pub open spec fn edits_ok(s: Seq<Edit>) -> bool {
    &&& forall|i: int, j: int|
        0 <= i < s.len() && 0 <= j < s.len() && i != j ==> (#[trigger] s[i]).coord != (
        #[trigger] s[j]).coord || s[i].index != s[j].index
    &&& forall|i: int|
        0 <= i < s.len() ==> (#[trigger] s[i]).index < CHUNK_VOLUME && BlockCoord::in_world(
            s[i].coord,
        )
}

/// The edited blocks.
pub struct Overlay {
    cells: Vec<Edit>,
}

impl Overlay {
    pub closed spec fn wf(self) -> bool {
        edits_ok(self.cells@)
    }

    /// The block that a cell was edited to.
    pub closed spec fn at(self, c: ChunkCoord, index: int) -> Option<BlockId> {
        if has_edit(self.cells@, c, index) {
            Some(self.cells@[edit_row(self.cells@, c, index)].id)
        } else {
            None
        }
    }

    /// How many cells are edited.
    pub closed spec fn len_spec(self) -> nat {
        self.cells@.len()
    }

    pub fn new() -> (o: Self)
        ensures
            o.wf(),
            o.len_spec() == 0,
            forall|c: ChunkCoord, i: int| #[trigger] o.at(c, i) == None::<BlockId>,
    {
        Overlay { cells: Vec::new() }
    }

    pub fn len(&self) -> (n: usize)
        ensures
            n == self.len_spec(),
    {
        self.cells.len()
    }

    proof fn lemma_row(self, i: int)
        requires
            self.wf(),
            0 <= i < self.cells@.len(),
        ensures
            ({
                let e = self.cells@[i];
                &&& has_edit(self.cells@, e.coord, e.index as int)
                &&& edit_row(self.cells@, e.coord, e.index as int) == i
                &&& self.at(e.coord, e.index as int) == Some(e.id)
            }),
    {
        let s = self.cells@;
        let e = s[i];
        let k = edit_row(s, e.coord, e.index as int);
        assert(has_edit(s, e.coord, e.index as int));
        assert(0 <= k < s.len() && s[k].coord == e.coord && s[k].index == e.index);
        if k != i {
            assert(s[k].coord != s[i].coord || s[k].index != s[i].index);
        }
    }

    fn find(&self, c: ChunkCoord, index: usize) -> (r: Option<usize>)
        requires
            self.wf(),
        ensures
            match r {
                Some(i) => i < self.cells@.len() && self.cells@[i as int].coord == c
                    && self.cells@[i as int].index == index && self.at(c, index as int) == Some(
                    self.cells@[i as int].id,
                ),
                None => !has_edit(self.cells@, c, index as int),
            },
    {
        let mut i: usize = 0;
        while i < self.cells.len()
            invariant
                self.wf(),
                i <= self.cells@.len(),
                forall|k: int|
                    0 <= k < i ==> (#[trigger] self.cells@[k]).coord != c || self.cells@[k].index
                        != index,
            decreases self.cells@.len() - i,
        {
            if self.cells[i].coord == c && self.cells[i].index == index {
                proof {
                    self.lemma_row(i as int);
                }
                return Some(i);
            }
            i = i + 1;
        }
        None
    }

    /// The block that a cell was edited to.
    pub fn get(&self, c: ChunkCoord, index: usize) -> (r: Option<BlockId>)
        requires
            self.wf(),
        ensures
            r == self.at(c, index as int),
    {
        match self.find(c, index) {
            Some(i) => Some(self.cells[i].id),
            None => None,
        }
    }

    /// Edits a cell.
    pub fn put(&mut self, c: ChunkCoord, index: usize, id: BlockId)
        requires
            old(self).wf(),
            index < CHUNK_VOLUME,
            BlockCoord::in_world(c),
        ensures
            final(self).wf(),
            forall|d: ChunkCoord, i: int| #[trigger]
                final(self).at(d, i) == if d == c && i == index {
                    Some(id)
                } else {
                    old(self).at(d, i)
                },
    {
        let ghost before = self.cells@;
        let e = Edit { coord: c, index, id };
        match self.find(c, index) {
            Some(k) => {
                self.cells.set(k, e);
                proof {
                    let after = self.cells@;
                    assert forall|i: int, j: int|
                        0 <= i < after.len() && 0 <= j < after.len() && i != j implies (
                    #[trigger] after[i]).coord != (#[trigger] after[j]).coord || after[i].index
                        != after[j].index by {
                        assert(before[i].coord != before[j].coord || before[i].index
                            != before[j].index);
                    }
                    assert forall|d: ChunkCoord, i: int| #[trigger]
                        self.at(d, i) == if d == c && i == index {
                            Some(id)
                        } else {
                            old(self).at(d, i)
                        } by {
                        self.lemma_row(k as int);
                        if has_edit(before, d, i) {
                            let m = edit_row(before, d, i);
                            old(self).lemma_row(m);
                            self.lemma_row(m);
                        }
                        if has_edit(after, d, i) {
                            let m = edit_row(after, d, i);
                            old(self).lemma_row(m);
                            self.lemma_row(m);
                        }
                    }
                }
            },
            None => {
                self.cells.push(e);
                proof {
                    let after = self.cells@;
                    let n = before.len() as int;
                    assert forall|i: int, j: int|
                        0 <= i < after.len() && 0 <= j < after.len() && i != j implies (
                    #[trigger] after[i]).coord != (#[trigger] after[j]).coord || after[i].index
                        != after[j].index by {
                        if i < n && j < n {
                            assert(before[i].coord != before[j].coord || before[i].index
                                != before[j].index);
                        } else if i < n {
                            assert(before[i].coord != c || before[i].index != index);
                        } else {
                            assert(before[j].coord != c || before[j].index != index);
                        }
                    }
                    assert forall|d: ChunkCoord, i: int| #[trigger]
                        self.at(d, i) == if d == c && i == index {
                            Some(id)
                        } else {
                            old(self).at(d, i)
                        } by {
                        self.lemma_row(n);
                        if has_edit(before, d, i) {
                            let m = edit_row(before, d, i);
                            old(self).lemma_row(m);
                            assert(after[m] == before[m]);
                            self.lemma_row(m);
                        }
                        if has_edit(after, d, i) && !(d == c && i == index) {
                            let m = edit_row(after, d, i);
                            assert(m < n);
                            assert(after[m] == before[m]);
                            old(self).lemma_row(m);
                        }
                    }
                }
            },
        }
    }

    /// Forgets a cell's edit.
    pub fn remove(&mut self, c: ChunkCoord, index: usize)
        requires
            old(self).wf(),
        ensures
            final(self).wf(),
            forall|d: ChunkCoord, i: int| #[trigger]
                final(self).at(d, i) == if d == c && i == index {
                    None
                } else {
                    old(self).at(d, i)
                },
    {
        let ghost before = self.cells@;
        if let Some(k) = self.find(c, index) {
            self.cells.remove(k);
            proof {
                let after = self.cells@;
                assert forall|i: int| 0 <= i < after.len() implies #[trigger] after[i] == before[if i
                    < k {
                    i
                } else {
                    i + 1
                }] by {}
                assert forall|i: int, j: int|
                    0 <= i < after.len() && 0 <= j < after.len() && i != j implies (
                #[trigger] after[i]).coord != (#[trigger] after[j]).coord || after[i].index
                    != after[j].index by {
                    let p = if i < k {
                        i
                    } else {
                        i + 1
                    };
                    let q = if j < k {
                        j
                    } else {
                        j + 1
                    };
                    assert(before[p].coord != before[q].coord || before[p].index
                        != before[q].index);
                }
                assert forall|d: ChunkCoord, i: int| #[trigger]
                    self.at(d, i) == if d == c && i == index {
                        None
                    } else {
                        old(self).at(d, i)
                    } by {
                    if has_edit(before, d, i) {
                        let m = edit_row(before, d, i);
                        old(self).lemma_row(m);
                        if m != k {
                            let p = if m < k {
                                m
                            } else {
                                m - 1
                            };
                            assert(after[p] == before[m]);
                            self.lemma_row(p);
                        }
                    }
                    if has_edit(after, d, i) {
                        let m = edit_row(after, d, i);
                        let p = if m < k {
                            m
                        } else {
                            m + 1
                        };
                        assert(after[m] == before[p]);
                        old(self).lemma_row(p);
                        self.lemma_row(m);
                        assert(before[p].coord != before[k as int].coord || before[p].index
                            != before[k as int].index);
                    }
                }
            }
        }
    }

    /// Whether an entry of a listing is an edit.
    pub open spec fn lists(self, b: BlockCoord, id: BlockId) -> bool {
        let l = b.local_spec();
        self.at(b.chunk_spec(), cell_index_spec(l.0, l.1, l.2)) == Some(id)
    }

    /// All edits by block position, each once.
    pub fn entries(&self) -> (out: Vec<(BlockCoord, BlockId)>)
        requires
            self.wf(),
        ensures
            out@.len() == self.len_spec(),
            forall|i: int| 0 <= i < out@.len() ==> self.lists((#[trigger] out@[i]).0, out@[i].1),
            forall|i: int, j: int|
                0 <= i < out@.len() && 0 <= j < out@.len() && i != j ==> (#[trigger] out@[i]).0 != (
                #[trigger] out@[j]).0,
            forall|b: BlockCoord, id: BlockId| #[trigger]
                self.lists(b, id) ==> out@.contains((b, id)),
    {
        let mut out: Vec<(BlockCoord, BlockId)> = Vec::with_capacity(self.cells.len());
        let mut i: usize = 0;
        while i < self.cells.len()
            invariant
                self.wf(),
                i <= self.cells@.len(),
                out@.len() == i,
                forall|k: int|
                    0 <= k < i ==> {
                        let l = (#[trigger] out@[k]).0.local_spec();
                        &&& out@[k].0.chunk_spec() == self.cells@[k].coord
                        &&& cell_index_spec(l.0, l.1, l.2) == self.cells@[k].index
                        &&& out@[k].1 == self.cells@[k].id
                    },
            decreases self.cells@.len() - i,
        {
            let e = self.cells[i];
            proof {
                assert(self.cells@[i as int] == e);
                lemma_index_local_inverse(e.index as int, 0, 0, 0);
            }
            let local = Chunk::local_of(e.index);
            let b = BlockCoord::join(e.coord, local);
            out.push((b, e.id));
            i = i + 1;
        }
        proof {
            assert forall|k: int| 0 <= k < out@.len() implies self.lists(
                (#[trigger] out@[k]).0,
                out@[k].1,
            ) by {
                self.lemma_row(k);
            }
            assert forall|b: BlockCoord, id: BlockId| #[trigger] self.lists(
                b,
                id,
            ) implies out@.contains((b, id)) by {
                let l = b.local_spec();
                let m = edit_row(self.cells@, b.chunk_spec(), cell_index_spec(l.0, l.1, l.2));
                assert(self.cells@[m].coord == b.chunk_spec());
                let k = out@[m].0.local_spec();
                lemma_index_local_inverse(0, l.0, l.1, l.2);
                lemma_index_local_inverse(0, k.0, k.1, k.2);
                lemma_split_is_exact(out@[m].0, b);
                assert(out@[m] == (b, id));
            }
            assert forall|a: int, b: int|
                0 <= a < out@.len() && 0 <= b < out@.len() && a != b implies (#[trigger] out@[a]).0
                != (#[trigger] out@[b]).0 by {
                assert(self.cells@[a].coord != self.cells@[b].coord || self.cells@[a].index
                    != self.cells@[b].index);
            }
        }
        out
    }
}

} // verus!
