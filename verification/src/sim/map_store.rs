//! Cells in a plain map with a table of reactions: the smallest store that the
//! reaction scheduler can run on.
use vstd::prelude::*;

use crate::block::BlockId;
use crate::sim::reactions::{Cells, CellStore, EventKind, Origins, Pos};

verus! {

/// A reaction: `origin` acting on `target` turns it into `result`.
#[derive(Clone, Copy, PartialEq, Eq, Debug, Structural)]
pub struct Rule {
    pub target: BlockId,
    pub origin: BlockId,
    pub result: BlockId,
}

/// Cells in a plain map.
pub struct MapStore {
    /// Every write, the latest last.
    pub written: Vec<(Pos, BlockId)>,
    /// What positions that were never written read as; nothing where they are
    /// unloaded.
    pub filler: Option<BlockId>,
    /// The reactions; the first that fits applies.
    pub rules: Vec<Rule>,
    /// Whether writes are refused.
    pub frozen: bool,
}

/// The place of the latest entry for a position among the first `n`, or none.
pub open spec fn entry_of(cells: Seq<(Pos, BlockId)>, p: Pos, n: int) -> Option<int>
    decreases n,
{
    if n <= 0 {
        None
    } else if cells[n - 1].0 == p {
        Some(n - 1)
    } else {
        entry_of(cells, p, n - 1)
    }
}

/// Whether one of the origins is the given block.
pub open spec fn acts(origins: Seq<(BlockId, EventKind)>, id: BlockId) -> bool {
    exists|i: int| 0 <= i < origins.len() && (#[trigger] origins[i]).0 == id
}

/// The first rule from `k` on that fits.
pub open spec fn rule_from(
    rules: Seq<Rule>,
    target: BlockId,
    origins: Seq<(BlockId, EventKind)>,
    k: int,
) -> Option<BlockId>
    decreases rules.len() - k,
{
    if k < 0 || k >= rules.len() {
        None
    } else if rules[k].target == target && acts(origins, rules[k].origin) {
        Some(rules[k].result)
    } else {
        rule_from(rules, target, origins, k + 1)
    }
}

fn has_origin(origins: &Vec<(BlockId, EventKind)>, id: BlockId) -> (b: bool)
    ensures
        b == acts(origins@, id),
{
    let mut i: usize = 0;
    while i < origins.len()
        invariant
            i <= origins@.len(),
            forall|j: int| 0 <= j < i ==> (#[trigger] origins@[j]).0 != id,
        decreases origins@.len() - i,
    {
        if origins[i].0 == id {
            return true;
        }
        i = i + 1;
    }
    false
}

fn same_place(a: Pos, b: Pos) -> (r: bool)
    ensures
        r == (a == b),
{
    a.0 == b.0 && a.1 == b.1 && a.2 == b.2
}

proof fn lemma_entry(cells: Seq<(Pos, BlockId)>, p: Pos, n: int)
    requires
        0 <= n <= cells.len(),
    ensures
        entry_of(cells, p, n) matches Some(i) ==> 0 <= i < n && cells[i].0 == p,
    decreases n,
{
    if n > 0 && cells[n - 1].0 != p {
        lemma_entry(cells, p, n - 1);
    }
}

proof fn lemma_entry_prefix(a: Seq<(Pos, BlockId)>, b: Seq<(Pos, BlockId)>, p: Pos, n: int)
    requires
        0 <= n <= a.len(),
        n <= b.len(),
        forall|i: int| 0 <= i < n ==> a[i] == b[i],
    ensures
        entry_of(a, p, n) == entry_of(b, p, n),
    decreases n,
{
    if n > 0 {
        lemma_entry_prefix(a, b, p, n - 1);
    }
}

impl MapStore {
    /// The cells that are held.
    pub open spec fn held(&self) -> Cells {
        Map::new(
            |p: Pos| self.filler is Some || entry_of(self.written@, p, self.written@.len() as int) is Some,
            |p: Pos|
                match entry_of(self.written@, p, self.written@.len() as int) {
                    Some(i) => self.written@[i].1,
                    None => self.filler->0,
                },
        )
    }

    /// A store without written cells.
    pub fn new(filler: Option<BlockId>, rules: Vec<Rule>) -> (s: MapStore)
        ensures
            s.filler == filler,
            s.written@ == Seq::<(Pos, BlockId)>::empty(),
            s.rules == rules,
            !s.frozen,
            forall|p: Pos| #[trigger] s.held().contains_key(p) == (filler is Some),
            forall|p: Pos| filler is Some ==> #[trigger] s.held()[p] == filler->0,
    {
        MapStore { written: Vec::new(), filler, rules, frozen: false }
    }

    fn entry(&self, p: Pos) -> (r: Option<usize>)
        ensures
            match (r, entry_of(self.written@, p, self.written@.len() as int)) {
                (Some(i), Some(j)) => i == j,
                (None, None) => true,
                _ => false,
            },
            r is Some ==> r->0 < self.written@.len(),
    {
        let mut n: usize = self.written.len();
        while n > 0
            invariant
                n <= self.written@.len(),
                entry_of(self.written@, p, n as int) == entry_of(
                    self.written@,
                    p,
                    self.written@.len() as int,
                ),
            decreases n,
        {
            if same_place(self.written[n - 1].0, p) {
                return Some(n - 1);
            }
            n = n - 1;
        }
        None
    }
}

/// What the answers of a map depend on.
#[verifier::ext_equal]
pub struct MapState {
    pub cells: Cells,
    pub rules: Seq<Rule>,
    pub frozen: bool,
}

impl CellStore for MapStore {
    type State = MapState;

    open spec fn state(&self) -> MapState {
        MapState { cells: self.held(), rules: self.rules@, frozen: self.frozen }
    }

    open spec fn cells(s: MapState) -> Cells {
        s.cells
    }

    open spec fn outcome(s: MapState, target: BlockId, origins: Origins) -> Option<BlockId> {
        rule_from(s.rules, target, origins, 0)
    }

    open spec fn interacted(s: MapState, target: BlockId, origins: Origins) -> MapState {
        s
    }

    open spec fn takes(s: MapState, pos: Pos, id: BlockId) -> bool {
        !s.frozen
    }

    open spec fn written(s: MapState, pos: Pos, id: BlockId) -> MapState {
        MapState { cells: s.cells.insert(pos, id), ..s }
    }

    proof fn interacted_cells(s: MapState, target: BlockId, origins: Origins) {
    }

    proof fn written_cells(s: MapState, pos: Pos, id: BlockId) {
    }

    fn block_at(&self, pos: Pos) -> (r: Option<BlockId>) {
        match self.entry(pos) {
            Some(i) => Some(self.written[i].1),
            None => self.filler,
        }
    }

    fn set_block(&mut self, pos: Pos, id: BlockId) -> (r: Option<BlockId>) {
        if self.frozen {
            return None;
        }
        let was = self.block_at(pos);
        let ghost before = self.written@;
        self.written.push((pos, id));
        proof {
            assert forall|p: Pos| p != pos implies entry_of(
                self.written@,
                p,
                self.written@.len() as int,
            ) == #[trigger] entry_of(before, p, before.len() as int) by {
                lemma_entry_prefix(self.written@, before, p, before.len() as int);
                lemma_entry(before, p, before.len() as int);
            }
            assert forall|p: Pos| #[trigger] self.held().contains_key(p) == old(self).held().insert(
                pos,
                id,
            ).contains_key(p) by {
                if p != pos {
                    assert(entry_of(self.written@, p, self.written@.len() as int) == entry_of(
                        before,
                        p,
                        before.len() as int,
                    ));
                }
            }
            assert forall|p: Pos| #[trigger] self.held().contains_key(p) implies self.held()[p]
                == old(self).held().insert(pos, id)[p] by {
                if p != pos {
                    lemma_entry(before, p, before.len() as int);
                    assert(entry_of(self.written@, p, self.written@.len() as int) == entry_of(
                        before,
                        p,
                        before.len() as int,
                    ));
                }
            }
            assert(self.held() =~= old(self).held().insert(pos, id));
        }
        match was {
            Some(b) => Some(b),
            None => Some(BlockId::air()),
        }
    }

    fn interact(&mut self, target: BlockId, origins: &Vec<(BlockId, EventKind)>) -> (r: Option<
        BlockId,
    >)
        ensures
            *final(self) == *old(self),
    {
        let mut k: usize = 0;
        while k < self.rules.len()
            invariant
                *self == *old(self),
                k <= self.rules@.len(),
                rule_from(self.rules@, target, origins@, 0) == rule_from(
                    self.rules@,
                    target,
                    origins@,
                    k as int,
                ),
            decreases self.rules@.len() - k,
        {
            let rule = self.rules[k];
            if rule.target == target && has_origin(origins, rule.origin) {
                return Some(rule.result);
            }
            k = k + 1;
        }
        None
    }
}

/// The first rule that fits applies: a rule fits where its target is the target and its
/// origin is among the origins. Where none fits nothing happens.
pub proof fn lemma_first_fitting_rule(
    rules: Seq<Rule>,
    target: BlockId,
    origins: Seq<(BlockId, EventKind)>,
    k: int,
)
    requires
        0 <= k <= rules.len(),
        forall|i: int|
            0 <= i < k ==> (#[trigger] rules[i]).target != target || forall|j: int|
                0 <= j < origins.len() ==> (#[trigger] origins[j]).0 != rules[i].origin,
    ensures
        k == rules.len() ==> rule_from(rules, target, origins, 0) is None,
        k < rules.len() && rules[k].target == target && (exists|j: int|
            0 <= j < origins.len() && (#[trigger] origins[j]).0 == rules[k].origin) ==> rule_from(
            rules,
            target,
            origins,
            0,
        ) == Some(rules[k].result),
{
    lemma_skips(rules, target, origins, 0, k);
}

proof fn lemma_skips(
    rules: Seq<Rule>,
    target: BlockId,
    origins: Seq<(BlockId, EventKind)>,
    i: int,
    k: int,
)
    requires
        0 <= i <= k <= rules.len(),
        forall|m: int|
            i <= m < k ==> (#[trigger] rules[m]).target != target || !acts(origins, rules[m].origin),
    ensures
        rule_from(rules, target, origins, i) == rule_from(rules, target, origins, k),
    decreases k - i,
{
    if i < k {
        assert(rules[i].target != target || !acts(origins, rules[i].origin));
        lemma_skips(rules, target, origins, i + 1, k);
    }
}

} // verus!
