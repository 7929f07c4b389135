//! Maps and sets keyed by chunk coordinates.
use vstd::prelude::*;

use crate::coord::ChunkCoord;

verus! {

/// Whether a key has a row.
pub open spec fn has_key<V>(rows: Seq<(ChunkCoord, V)>, c: ChunkCoord) -> bool {
    exists|i: int| 0 <= i < rows.len() && (#[trigger] rows[i]).0 == c
}

/// The row of a key.
pub open spec fn key_row<V>(rows: Seq<(ChunkCoord, V)>, c: ChunkCoord) -> int {
    choose|i: int| 0 <= i < rows.len() && (#[trigger] rows[i]).0 == c
}

/// Whether no key has two rows.
pub open spec fn keys_differ<V>(rows: Seq<(ChunkCoord, V)>) -> bool {
    forall|i: int, j: int|
        0 <= i < rows.len() && 0 <= j < rows.len() && i != j ==> (#[trigger] rows[i]).0 != (
        #[trigger] rows[j]).0
}

/// The keys of rows, in order.
pub open spec fn keys_of<V>(rows: Seq<(ChunkCoord, V)>) -> Seq<ChunkCoord> {
    Seq::new(rows.len(), |i: int| rows[i].0)
}

/// The map that rows stand for.
pub open spec fn map_of<V>(rows: Seq<(ChunkCoord, V)>) -> Map<ChunkCoord, V> {
    Map::new(|c: ChunkCoord| has_key(rows, c), |c: ChunkCoord| rows[key_row(rows, c)].1)
}

pub proof fn lemma_key_row<V>(rows: Seq<(ChunkCoord, V)>, i: int)
    requires
        keys_differ(rows),
        0 <= i < rows.len(),
    ensures
        has_key(rows, rows[i].0),
        key_row(rows, rows[i].0) == i,
        map_of(rows).contains_key(rows[i].0),
        map_of(rows)[rows[i].0] == rows[i].1,
{
    let c = rows[i].0;
    let k = key_row(rows, c);
    assert(has_key(rows, c));
    assert(0 <= k < rows.len() && rows[k].0 == c);
    if k != i {
        assert(rows[k].0 != rows[i].0);
    }
}

proof fn lemma_set_row<V>(rows: Seq<(ChunkCoord, V)>, i: int, v: V)
    requires
        keys_differ(rows),
        0 <= i < rows.len(),
    ensures
        keys_differ(rows.update(i, (rows[i].0, v))),
        map_of(rows.update(i, (rows[i].0, v))) == map_of(rows).insert(rows[i].0, v),
{
    let c = rows[i].0;
    let after = rows.update(i, (c, v));
    assert forall|a: int, b: int|
        0 <= a < after.len() && 0 <= b < after.len() && a != b implies (#[trigger] after[a]).0 != (
    #[trigger] after[b]).0 by {
        assert(rows[a].0 != rows[b].0);
    }
    assert forall|d: ChunkCoord| has_key(after, d) == (has_key(rows, d) || d == c) by {
        if has_key(after, d) {
            let k = key_row(after, d);
            assert(rows[k].0 == d);
        }
        if has_key(rows, d) {
            let k = key_row(rows, d);
            assert(after[k].0 == d);
        }
        assert(after[i].0 == c);
    }
    assert(map_of(after) =~= map_of(rows).insert(c, v)) by {
        assert forall|d: ChunkCoord| has_key(after, d) implies map_of(after)[d] == map_of(
            rows,
        ).insert(c, v)[d] by {
            let k = key_row(after, d);
            lemma_key_row(after, k);
            lemma_key_row(rows, k);
            if d == c {
                lemma_key_row(after, i);
            }
        }
    }
}

proof fn lemma_push_row<V>(rows: Seq<(ChunkCoord, V)>, c: ChunkCoord, v: V)
    requires
        keys_differ(rows),
        !has_key(rows, c),
    ensures
        keys_differ(rows.push((c, v))),
        map_of(rows.push((c, v))) == map_of(rows).insert(c, v),
{
    let after = rows.push((c, v));
    let n = rows.len() as int;
    assert forall|a: int, b: int|
        0 <= a < after.len() && 0 <= b < after.len() && a != b implies (#[trigger] after[a]).0 != (
    #[trigger] after[b]).0 by {
        if a < n && b < n {
            assert(rows[a].0 != rows[b].0);
        } else if a < n {
            assert(rows[a].0 != c);
        } else {
            assert(rows[b].0 != c);
        }
    }
    assert(after[n].0 == c);
    assert forall|d: ChunkCoord| has_key(after, d) == (has_key(rows, d) || d == c) by {
        if has_key(after, d) && d != c {
            let k = key_row(after, d);
            assert(rows[k].0 == d);
        }
        if has_key(rows, d) {
            let k = key_row(rows, d);
            assert(after[k].0 == d);
        }
    }
    assert(map_of(after) =~= map_of(rows).insert(c, v)) by {
        assert forall|d: ChunkCoord| has_key(after, d) implies map_of(after)[d] == map_of(
            rows,
        ).insert(c, v)[d] by {
            let k = key_row(after, d);
            lemma_key_row(after, k);
            if d == c {
                lemma_key_row(after, n);
            } else {
                lemma_key_row(rows, k);
            }
        }
    }
}

proof fn lemma_remove_row<V>(rows: Seq<(ChunkCoord, V)>, i: int)
    requires
        keys_differ(rows),
        0 <= i < rows.len(),
    ensures
        keys_differ(rows.remove(i)),
        map_of(rows.remove(i)) == map_of(rows).remove(rows[i].0),
{
    let c = rows[i].0;
    let after = rows.remove(i);
    assert forall|a: int, b: int|
        0 <= a < after.len() && 0 <= b < after.len() && a != b implies (#[trigger] after[a]).0 != (
    #[trigger] after[b]).0 by {
        let p = if a < i {
            a
        } else {
            a + 1
        };
        let q = if b < i {
            b
        } else {
            b + 1
        };
        assert(rows[p].0 != rows[q].0);
    }
    assert forall|d: ChunkCoord| has_key(after, d) == (has_key(rows, d) && d != c) by {
        if has_key(after, d) {
            let k = key_row(after, d);
            let p = if k < i {
                k
            } else {
                k + 1
            };
            assert(rows[p].0 == d);
            assert(rows[p].0 != rows[i].0);
        }
        if has_key(rows, d) && d != c {
            let k = key_row(rows, d);
            let p = if k < i {
                k
            } else {
                k - 1
            };
            assert(after[p].0 == d);
        }
    }
    assert(map_of(after) =~= map_of(rows).remove(c)) by {
        assert forall|d: ChunkCoord| has_key(after, d) implies map_of(after)[d] == map_of(rows)[d] by {
            let k = key_row(after, d);
            lemma_key_row(after, k);
            let p = if k < i {
                k
            } else {
                k + 1
            };
            lemma_key_row(rows, p);
        }
    }
}

/// A map from chunk coordinates.
pub struct ChunkMap<V> {
    rows: Vec<(ChunkCoord, V)>,
}

impl<V> ChunkMap<V> {
    pub closed spec fn wf(self) -> bool {
        keys_differ(self.rows@)
    }

    /// The map.
    pub closed spec fn view(self) -> Map<ChunkCoord, V> {
        map_of(self.rows@)
    }

    /// The rows, each key once.
    pub closed spec fn rows_spec(self) -> Seq<(ChunkCoord, V)> {
        self.rows@
    }

    /// The rows are those of the map.
    pub proof fn lemma_rows(self)
        requires
            self.wf(),
        ensures
            keys_differ(self.rows_spec()),
            self@ == map_of(self.rows_spec()),
            self@.dom().finite(),
            self@.dom().len() == self.rows_spec().len(),
    {
        let rows = self.rows_spec();
        let keys = keys_of(rows);
        assert(keys.no_duplicates());
        keys.unique_seq_to_set();
        vstd::seq_lib::seq_to_set_is_finite(keys);
        assert(self@.dom() =~= keys.to_set()) by {
            assert forall|c: ChunkCoord| self@.dom().contains(c) == keys.to_set().contains(c) by {
                if has_key(rows, c) {
                    let i = key_row(rows, c);
                    assert(keys[i] == c);
                }
                if keys.contains(c) {
                    let i = choose|i: int| 0 <= i < keys.len() && keys[i] == c;
                    assert(rows[i].0 == c);
                }
            }
        }
    }

    /// How many keys there are.
    pub fn len(&self) -> (n: usize)
        ensures
            n == self.rows_spec().len(),
    {
        self.rows.len()
    }

    /// The value of a row.
    pub fn nth(&self, i: usize) -> (v: &V)
        requires
            i < self.rows_spec().len(),
        ensures
            *v == self.rows_spec()[i as int].1,
    {
        &self.rows[i].1
    }

    pub fn new() -> (m: Self)
        ensures
            m.wf(),
            m@ == Map::<ChunkCoord, V>::empty(),
    {
        let m = ChunkMap { rows: Vec::new() };
        assert(m@ =~= Map::<ChunkCoord, V>::empty());
        m
    }

    fn find(&self, c: ChunkCoord) -> (r: Option<usize>)
        requires
            self.wf(),
        ensures
            match r {
                Some(i) => i < self.rows@.len() && self.rows@[i as int].0 == c
                    && self@.contains_key(c) && self@[c] == self.rows@[i as int].1,
                None => !has_key(self.rows@, c) && !self@.contains_key(c),
            },
    {
        let mut i: usize = 0;
        while i < self.rows.len()
            invariant
                self.wf(),
                i <= self.rows@.len(),
                forall|k: int| 0 <= k < i ==> (#[trigger] self.rows@[k]).0 != c,
            decreases self.rows@.len() - i,
        {
            if self.rows[i].0 == c {
                proof {
                    lemma_key_row(self.rows@, i as int);
                }
                return Some(i);
            }
            i = i + 1;
        }
        None
    }

    pub fn contains(&self, c: ChunkCoord) -> (b: bool)
        requires
            self.wf(),
        ensures
            b == self@.contains_key(c),
    {
        self.find(c).is_some()
    }

    pub fn get(&self, c: ChunkCoord) -> (r: Option<&V>)
        requires
            self.wf(),
        ensures
            match r {
                Some(v) => self@.contains_key(c) && *v == self@[c],
                None => !self@.contains_key(c),
            },
    {
        match self.find(c) {
            Some(i) => Some(&self.rows[i].1),
            None => None,
        }
    }

    pub fn insert(&mut self, c: ChunkCoord, v: V)
        requires
            old(self).wf(),
        ensures
            final(self).wf(),
            final(self)@ == old(self)@.insert(c, v),
    {
        match self.find(c) {
            Some(i) => {
                proof {
                    lemma_set_row(self.rows@, i as int, v);
                }
                self.rows.set(i, (c, v));
            },
            None => {
                proof {
                    lemma_push_row(self.rows@, c, v);
                }
                self.rows.push((c, v));
            },
        }
    }

    pub fn remove(&mut self, c: ChunkCoord) -> (r: Option<V>)
        requires
            old(self).wf(),
        ensures
            final(self).wf(),
            final(self)@ == old(self)@.remove(c),
            match r {
                Some(v) => old(self)@.contains_key(c) && v == old(self)@[c],
                None => !old(self)@.contains_key(c),
            },
    {
        match self.find(c) {
            Some(i) => {
                proof {
                    lemma_remove_row(self.rows@, i as int);
                }
                let (_, v) = self.rows.remove(i);
                Some(v)
            },
            None => {
                assert(self@.remove(c) =~= self@);
                None
            },
        }
    }

    /// The keys in row order, each once.
    pub fn keys(&self) -> (out: Vec<ChunkCoord>)
        requires
            self.wf(),
        ensures
            out@ == keys_of(self.rows_spec()),
            out@.no_duplicates(),
            forall|c: ChunkCoord| #[trigger] out@.contains(c) == self@.contains_key(c),
    {
        let mut out: Vec<ChunkCoord> = Vec::with_capacity(self.rows.len());
        let mut i: usize = 0;
        while i < self.rows.len()
            invariant
                self.wf(),
                i <= self.rows@.len(),
                out@.len() == i,
                forall|k: int| 0 <= k < i ==> #[trigger] out@[k] == self.rows@[k].0,
            decreases self.rows@.len() - i,
        {
            out.push(self.rows[i].0);
            i = i + 1;
        }
        proof {
            assert(out@ =~= keys_of(self.rows_spec()));
            assert forall|c: ChunkCoord| #[trigger] out@.contains(c) == self@.contains_key(c) by {
                if out@.contains(c) {
                    let k = choose|k: int| 0 <= k < out@.len() && out@[k] == c;
                    assert(self.rows@[k].0 == c);
                }
                if self@.contains_key(c) {
                    let k = key_row(self.rows@, c);
                    assert(self.rows@[k].0 == c);
                    assert(out@[k] == c);
                }
            }
        }
        out
    }
}

/// A set of chunk coordinates.
pub struct ChunkSet {
    map: ChunkMap<()>,
}

impl ChunkSet {
    pub closed spec fn wf(self) -> bool {
        self.map.wf()
    }

    /// The set.
    pub closed spec fn view(self) -> Set<ChunkCoord> {
        self.map@.dom()
    }

    pub fn new() -> (s: Self)
        ensures
            s.wf(),
            s@ == Set::<ChunkCoord>::empty(),
    {
        let s = ChunkSet { map: ChunkMap::new() };
        assert(s@ =~= Set::<ChunkCoord>::empty());
        s
    }

    pub fn contains(&self, c: ChunkCoord) -> (b: bool)
        requires
            self.wf(),
        ensures
            b == self@.contains(c),
    {
        self.map.contains(c)
    }

    pub fn insert(&mut self, c: ChunkCoord)
        requires
            old(self).wf(),
        ensures
            final(self).wf(),
            final(self)@ == old(self)@.insert(c),
    {
        self.map.insert(c, ());
        assert(self@ =~= old(self)@.insert(c));
    }

    pub fn clear(&mut self)
        ensures
            final(self).wf(),
            final(self)@ == Set::<ChunkCoord>::empty(),
    {
        self.map = ChunkMap::new();
        assert(self@ =~= Set::<ChunkCoord>::empty());
    }

    /// The members, each once.
    pub fn members(&self) -> (out: Vec<ChunkCoord>)
        requires
            self.wf(),
        ensures
            out@.no_duplicates(),
            forall|c: ChunkCoord| #[trigger] out@.contains(c) == self@.contains(c),
    {
        self.map.keys()
    }
}

} // verus!
