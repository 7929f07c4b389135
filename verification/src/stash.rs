//! The blocks that a player carries.
use vstd::prelude::*;
use vstd::string::*;

use crate::block::BlockId;

verus! {

/// The capacity that a player starts with.
pub const START_CAPACITY: usize = 100;

/// The sum of the counts.
pub open spec fn total_of(s: Seq<(BlockId, u32)>) -> int
    decreases s.len(),
{
    if s.len() == 0 {
        0
    } else {
        total_of(s.drop_last()) + s.last().1
    }
}

/// Whether the block has a row.
pub open spec fn has_row(s: Seq<(BlockId, u32)>, id: BlockId) -> bool {
    exists|i: int| 0 <= i < s.len() && (#[trigger] s[i]).0 == id
}

/// The first row of a block.
pub open spec fn row_of(s: Seq<(BlockId, u32)>, id: BlockId) -> int {
    choose|i: int| 0 <= i < s.len() && (#[trigger] s[i]).0 == id
}

/// How many of a block are held.
pub open spec fn count_of(s: Seq<(BlockId, u32)>, id: BlockId) -> u32 {
    if has_row(s, id) {
        s[row_of(s, id)].1
    } else {
        0
    }
}

/// Whether no block has two rows and no row is empty.
pub open spec fn rows_ok(s: Seq<(BlockId, u32)>) -> bool {
    &&& forall|i: int, j: int|
        0 <= i < s.len() && 0 <= j < s.len() && i != j ==> (#[trigger] s[i]).0 != (#[trigger] s[j]).0
    &&& forall|i: int| 0 <= i < s.len() ==> (#[trigger] s[i]).1 > 0
}

/// The rows with `n` more of a block: its row grows, or it gets one at the end.
pub open spec fn added(s: Seq<(BlockId, u32)>, id: BlockId, n: u32) -> Seq<(BlockId, u32)> {
    if has_row(s, id) {
        let i = row_of(s, id);
        s.update(i, (id, (s[i].1 + n) as u32))
    } else {
        s.push((id, n))
    }
}

/// The rows with `n` fewer of a block: its row shrinks, and drops out once empty.
pub open spec fn removed(s: Seq<(BlockId, u32)>, id: BlockId, n: u32) -> Seq<(BlockId, u32)> {
    let i = row_of(s, id);
    if s[i].1 == n {
        s.remove(i)
    } else {
        s.update(i, (id, (s[i].1 - n) as u32))
    }
}

/// The room that is left.
pub open spec fn room_spec(capacity: usize, total: int) -> int {
    if capacity < total {
        0
    } else {
        capacity - total
    }
}

/// How many of `n` units find room.
pub open spec fn taken(capacity: usize, total: int, n: u32) -> u32 {
    let room = room_spec(capacity, total);
    if n <= room {
        n
    } else {
        room as u32
    }
}

/// What a stash holds.
#[verifier::ext_equal]
pub struct StashView {
    /// Counts per block in the order they were first picked up.
    pub rows: Seq<(BlockId, u32)>,
    /// The units held in all.
    pub total: int,
    pub capacity: usize,
    /// The revision.
    pub rev: int,
}

/// A call that changes a stash.
pub enum Call {
    Add(BlockId, u32),
    Consume(BlockId, u32),
    Revoke(BlockId, u32),
    Clear,
    /// Replaces the contents by what is picked up of these, in order.
    Load(Seq<(BlockId, u32)>),
}

impl StashView {
    /// An empty stash.
    pub open spec fn fresh(capacity: usize) -> StashView {
        StashView { rows: Seq::empty(), total: 0, capacity, rev: 0 }
    }

    /// Whether no block has two rows, no row is empty, the total is the sum of the rows,
    /// and it stays within the capacity.
    pub open spec fn ok(self) -> bool {
        &&& rows_ok(self.rows)
        &&& self.total == total_of(self.rows)
        &&& self.total <= self.capacity
    }

    /// After `n` units of a block are picked up, as far as there is room.
    pub open spec fn add(self, id: BlockId, n: u32) -> StashView {
        let t = taken(self.capacity, self.total, n);
        if t == 0 {
            self
        } else {
            StashView {
                rows: added(self.rows, id, t),
                total: self.total + t,
                rev: self.rev + 1,
                ..self
            }
        }
    }

    /// After `n` units of a block, which are held, are taken out.
    pub open spec fn take_out(self, id: BlockId, n: u32) -> StashView {
        if n == 0 {
            self
        } else {
            StashView {
                rows: removed(self.rows, id, n),
                total: self.total - n,
                rev: self.rev + 1,
                ..self
            }
        }
    }

    /// After `n` units of a block are spent, all or nothing.
    pub open spec fn consume(self, id: BlockId, n: u32) -> StashView {
        if n <= count_of(self.rows, id) {
            self.take_out(id, n)
        } else {
            self
        }
    }

    /// After up to `n` units of a block are taken back.
    pub open spec fn revoke(self, id: BlockId, n: u32) -> StashView {
        let held = count_of(self.rows, id);
        self.take_out(
            id,
            if held < n {
                held
            } else {
                n
            },
        )
    }

    /// With nothing left.
    pub open spec fn clear(self) -> StashView {
        StashView { rows: Seq::empty(), total: 0, rev: self.rev + 1, ..self }
    }

    /// After pairs are picked up in order.
    pub open spec fn pick(self, pairs: Seq<(BlockId, u32)>) -> StashView
        decreases pairs.len(),
    {
        if pairs.len() == 0 {
            self
        } else {
            self.pick(pairs.drop_last()).add(pairs.last().0, pairs.last().1)
        }
    }

    /// With what is picked up of some pairs, in order, in place of all that was held.
    pub open spec fn load(self, pairs: Seq<(BlockId, u32)>) -> StashView {
        self.clear().pick(pairs)
    }

    /// After a call.
    pub open spec fn after(self, c: Call) -> StashView {
        match c {
            Call::Add(id, n) => self.add(id, n),
            Call::Consume(id, n) => self.consume(id, n),
            Call::Revoke(id, n) => self.revoke(id, n),
            Call::Clear => self.clear(),
            Call::Load(pairs) => self.load(pairs),
        }
    }

    /// After calls, one after the other.
    pub open spec fn after_all(self, calls: Seq<Call>) -> StashView
        decreases calls.len(),
    {
        if calls.len() == 0 {
            self
        } else {
            self.after_all(calls.drop_last()).after(calls.last())
        }
    }

    /// Whether the units fit the word that counts them: they always do where the
    /// capacity fits it.
    pub open spec fn fits(self, c: Call) -> bool {
        match c {
            Call::Add(id, n) => self.total + taken(self.capacity, self.total, n) <= u32::MAX,
            Call::Load(pairs) => self.capacity <= u32::MAX || total_of(pairs) <= u32::MAX,
            _ => true,
        }
    }

    /// Whether all calls fit, each where the ones before it lead.
    pub open spec fn all_fit(self, calls: Seq<Call>) -> bool {
        forall|i: int|
            0 <= i < calls.len() ==> self.after_all(calls.take(i)).fits(#[trigger] calls[i])
    }
}

proof fn lemma_row(s: Seq<(BlockId, u32)>, id: BlockId, i: int)
    requires
        rows_ok(s),
        0 <= i < s.len(),
        s[i].0 == id,
    ensures
        has_row(s, id),
        row_of(s, id) == i,
        count_of(s, id) == s[i].1,
{
    let k = row_of(s, id);
    assert(0 <= k < s.len() && s[k].0 == id);
    if k != i {
        assert(s[k].0 != s[i].0);
    }
}

proof fn lemma_total_update(s: Seq<(BlockId, u32)>, i: int, e: (BlockId, u32))
    requires
        0 <= i < s.len(),
    ensures
        total_of(s.update(i, e)) == total_of(s) - s[i].1 + e.1,
    decreases s.len(),
{
    let t = s.update(i, e);
    if i < s.len() - 1 {
        lemma_total_update(s.drop_last(), i, e);
        assert(t.drop_last() =~= s.drop_last().update(i, e));
    } else {
        assert(t.drop_last() =~= s.drop_last());
    }
}

proof fn lemma_total_remove(s: Seq<(BlockId, u32)>, i: int)
    requires
        0 <= i < s.len(),
    ensures
        total_of(s.remove(i)) == total_of(s) - s[i].1,
    decreases s.len(),
{
    let t = s.remove(i);
    if i < s.len() - 1 {
        lemma_total_remove(s.drop_last(), i);
        assert(t.drop_last() =~= s.drop_last().remove(i));
        assert(t.last() == s.last());
    } else {
        assert(t =~= s.drop_last());
    }
}

proof fn lemma_total_covers(s: Seq<(BlockId, u32)>, i: int)
    requires
        0 <= i < s.len(),
    ensures
        total_of(s) >= s[i].1,
    decreases s.len(),
{
    if i < s.len() - 1 {
        lemma_total_covers(s.drop_last(), i);
    } else {
        lemma_total_nonneg(s.drop_last());
    }
}

proof fn lemma_total_nonneg(s: Seq<(BlockId, u32)>)
    ensures
        total_of(s) >= 0,
    decreases s.len(),
{
    if s.len() > 0 {
        lemma_total_nonneg(s.drop_last());
    }
}

/// Adding keeps the rows in order and adds to the total.
proof fn lemma_added(s: Seq<(BlockId, u32)>, id: BlockId, n: u32)
    requires
        rows_ok(s),
        n > 0,
        total_of(s) + n <= u32::MAX,
    ensures
        rows_ok(added(s, id, n)),
        total_of(added(s, id, n)) == total_of(s) + n,
{
    let t = added(s, id, n);
    if has_row(s, id) {
        let i = row_of(s, id);
        assert(0 <= i < s.len() && s[i].0 == id);
        lemma_total_covers(s, i);
        lemma_total_update(s, i, (id, (s[i].1 + n) as u32));
    } else {
        assert(t.drop_last() =~= s);
    }
    assert forall|i: int, j: int| 0 <= i < t.len() && 0 <= j < t.len() && i != j implies (
    #[trigger] t[i]).0 != (#[trigger] t[j]).0 by {
        if i < s.len() && j < s.len() {
            assert(s[i].0 != s[j].0);
        }
    }
}

/// Removing keeps the rows in order and takes from the total.
proof fn lemma_removed(s: Seq<(BlockId, u32)>, id: BlockId, n: u32)
    requires
        rows_ok(s),
        has_row(s, id),
        0 < n <= count_of(s, id),
    ensures
        rows_ok(removed(s, id, n)),
        total_of(removed(s, id, n)) == total_of(s) - n,
{
    let i = row_of(s, id);
    assert(0 <= i < s.len() && s[i].0 == id);
    let t = removed(s, id, n);
    if s[i].1 == n {
        lemma_total_remove(s, i);
        assert forall|a: int, b: int| 0 <= a < t.len() && 0 <= b < t.len() && a != b implies (
        #[trigger] t[a]).0 != (#[trigger] t[b]).0 by {
            let c = if a < i {
                a
            } else {
                a + 1
            };
            let d = if b < i {
                b
            } else {
                b + 1
            };
            assert(s[c].0 != s[d].0);
        }
        assert forall|a: int| 0 <= a < t.len() implies (#[trigger] t[a]).1 > 0 by {
            let c = if a < i {
                a
            } else {
                a + 1
            };
            assert(s[c].1 > 0);
        }
    } else {
        lemma_total_update(s, i, (id, (s[i].1 - n) as u32));
        assert forall|a: int, b: int| 0 <= a < t.len() && 0 <= b < t.len() && a != b implies (
        #[trigger] t[a]).0 != (#[trigger] t[b]).0 by {
            assert(s[a].0 != s[b].0);
        }
    }
}

/// Spending what was just picked up gives back the rows from before.
pub proof fn lemma_remove_undoes_add(s: Seq<(BlockId, u32)>, id: BlockId, n: u32)
    requires
        rows_ok(s),
        n > 0,
        total_of(s) + n <= u32::MAX,
    ensures
        count_of(added(s, id, n), id) == count_of(s, id) + n,
        removed(added(s, id, n), id, n) == s,
{
    let t = added(s, id, n);
    lemma_added(s, id, n);
    if has_row(s, id) {
        let i = row_of(s, id);
        assert(0 <= i < s.len() && s[i].0 == id);
        lemma_total_covers(s, i);
        lemma_row(t, id, i);
        assert(removed(t, id, n) =~= s);
    } else {
        lemma_row(t, id, s.len() as int);
        assert(removed(t, id, n) =~= s);
    }
}

/// Picking up or spending one block leaves the counts of all others alone.
pub proof fn lemma_others_keep_counts(s: Seq<(BlockId, u32)>, id: BlockId, n: u32, other: BlockId)
    requires
        rows_ok(s),
        n > 0,
        other != id,
    ensures
        total_of(s) + n <= u32::MAX ==> count_of(added(s, id, n), other) == count_of(s, other),
        n <= count_of(s, id) ==> count_of(removed(s, id, n), other) == count_of(s, other),
{
    if total_of(s) + n <= u32::MAX {
        let t = added(s, id, n);
        lemma_added(s, id, n);
        if has_row(s, other) {
            let k = row_of(s, other);
            assert(s[k].0 == other);
            if has_row(s, id) {
                assert(s[row_of(s, id)].0 == id);
            }
            assert(t[k] == s[k]);
            lemma_row(t, other, k);
        } else if has_row(t, other) {
            let k = row_of(t, other);
            assert(t[k].0 == other);
            if has_row(s, id) {
                assert(s[row_of(s, id)].0 == id);
            }
            assert(s[k].0 == other);
        }
    }
    if n <= count_of(s, id) {
        let t = removed(s, id, n);
        lemma_removed(s, id, n);
        let i = row_of(s, id);
        assert(s[i].0 == id);
        if has_row(s, other) {
            let k = row_of(s, other);
            assert(s[k].0 == other);
            let j = if s[i].1 == n && k > i {
                k - 1
            } else {
                k
            };
            assert(t[j] == s[k]);
            lemma_row(t, other, j);
        } else if has_row(t, other) {
            let k = row_of(t, other);
            assert(t[k].0 == other);
            let j = if s[i].1 == n && k >= i {
                k + 1
            } else {
                k
            };
            assert(s[j].0 == other);
        }
    }
}

/// What a player carries: counts per block in the order they were first picked up.
pub struct ElementStash {
    counts: Vec<(BlockId, u32)>,
    total: u32,
    capacity: usize,
    rev: u64,
}

/// The pairs whose names are known, in order.
pub open spec fn known(
    items: Seq<(String, u32)>,
    ids: Seq<Option<BlockId>>,
) -> Seq<(BlockId, u32)>
    decreases ids.len(),
{
    if ids.len() == 0 {
        Seq::empty()
    } else {
        let rest = known(items, ids.drop_last());
        match ids.last() {
            Some(id) => rest.push((id, items[ids.len() - 1].1)),
            None => rest,
        }
    }
}

/// The sum of all counts of a saved list.
pub open spec fn items_total(items: Seq<(String, u32)>) -> int
    decreases items.len(),
{
    if items.len() == 0 {
        0
    } else {
        items_total(items.drop_last()) + items.last().1
    }
}

impl ElementStash {
    /// All that is held.
    pub closed spec fn model(self) -> StashView {
        StashView {
            rows: self.counts@,
            total: self.total as int,
            capacity: self.capacity,
            rev: self.rev as int,
        }
    }

    pub open spec fn wf(self) -> bool {
        self.model().ok()
    }

    /// The rows.
    pub open spec fn view(self) -> Seq<(BlockId, u32)> {
        self.model().rows
    }

    /// The units held in all.
    pub open spec fn total_spec(self) -> int {
        self.model().total
    }

    /// The capacity.
    pub open spec fn capacity_spec(self) -> usize {
        self.model().capacity
    }

    /// The revision.
    pub open spec fn rev_spec(self) -> int {
        self.model().rev
    }

    pub fn new(capacity: usize) -> (s: Self)
        ensures
            s.wf(),
            s.model() == StashView::fresh(capacity),
    {
        ElementStash { counts: Vec::new(), total: 0, capacity, rev: 0 }
    }

    fn find(&self, id: BlockId) -> (r: Option<usize>)
        requires
            self.wf(),
        ensures
            match r {
                Some(i) => i < self@.len() && self@[i as int].0 == id && has_row(self@, id)
                    && row_of(self@, id) == i && count_of(self@, id) == self@[i as int].1,
                None => !has_row(self@, id),
            },
    {
        let mut i: usize = 0;
        while i < self.counts.len()
            invariant
                self.wf(),
                i <= self.counts@.len(),
                forall|k: int| 0 <= k < i ==> (#[trigger] self.counts@[k]).0 != id,
            decreases self.counts@.len() - i,
        {
            if self.counts[i].0 == id {
                proof {
                    lemma_row(self@, id, i as int);
                }
                return Some(i);
            }
            i = i + 1;
        }
        None
    }

    /// Adds `n` units of a block while there is room. Units past the capacity are
    /// dropped, and the answer is whether none were.
    pub fn add(&mut self, id: BlockId, n: u32) -> (all: bool)
        requires
            old(self).wf(),
            old(self).model().fits(Call::Add(id, n)),
            old(self).rev_spec() < u64::MAX,
        ensures
            final(self).wf(),
            final(self).model() == old(self).model().add(id, n),
            all == (n <= room_spec(old(self).capacity_spec(), old(self).total_spec())),
    {
        if n == 0 {
            return true;
        }
        let room: usize = self.capacity - self.total as usize;
        let take: u32 = if n as usize <= room {
            n
        } else {
            room as u32
        };
        if take == 0 {
            return false;
        }
        proof {
            lemma_added(self@, id, take);
        }
        match self.find(id) {
            Some(i) => {
                let count: u32 = self.counts[i].1;
                proof {
                    lemma_total_covers(self@, i as int);
                }
                self.counts.set(i, (id, count + take));
            },
            None => {
                self.counts.push((id, take));
            },
        }
        self.total = self.total + take;
        self.rev = self.rev + 1;
        take == n
    }

    /// How many of a block are held.
    pub fn count(&self, id: BlockId) -> (n: u32)
        requires
            self.wf(),
        ensures
            n == count_of(self@, id),
    {
        match self.find(id) {
            Some(i) => self.counts[i].1,
            None => 0,
        }
    }

    fn take_out(&mut self, i: usize, n: u32)
        requires
            old(self).wf(),
            i < old(self)@.len(),
            has_row(old(self)@, old(self)@[i as int].0),
            row_of(old(self)@, old(self)@[i as int].0) == i,
            0 < n <= old(self)@[i as int].1,
            old(self).rev_spec() < u64::MAX,
        ensures
            final(self).wf(),
            final(self).model() == old(self).model().take_out(old(self)@[i as int].0, n),
    {
        let (id, count) = self.counts[i];
        proof {
            lemma_removed(self@, id, n);
            lemma_total_covers(self@, i as int);
        }
        if count == n {
            self.counts.remove(i);
        } else {
            self.counts.set(i, (id, count - n));
        }
        self.total = self.total - n;
        self.rev = self.rev + 1;
    }

    /// Spends `n` of a block, all or nothing.
    pub fn consume(&mut self, id: BlockId, n: u32) -> (done: bool)
        requires
            old(self).wf(),
            old(self).rev_spec() < u64::MAX,
        ensures
            final(self).wf(),
            final(self).model() == old(self).model().consume(id, n),
            done == (n <= count_of(old(self)@, id)),
    {
        if n == 0 {
            return true;
        }
        match self.find(id) {
            Some(i) => {
                if self.counts[i].1 < n {
                    return false;
                }
                self.take_out(i, n);
                true
            },
            None => false,
        }
    }

    /// Takes back up to `n` of a block: as many as are left.
    pub fn revoke(&mut self, id: BlockId, n: u32)
        requires
            old(self).wf(),
            old(self).rev_spec() < u64::MAX,
        ensures
            final(self).wf(),
            final(self).model() == old(self).model().revoke(id, n),
    {
        if n == 0 {
            return;
        }
        if let Some(i) = self.find(id) {
            let count: u32 = self.counts[i].1;
            let take: u32 = if count < n {
                count
            } else {
                n
            };
            if take > 0 {
                self.take_out(i, take);
            }
        }
    }

    /// The units held in all.
    pub fn total(&self) -> (n: u32)
        ensures
            n == self.total_spec(),
    {
        self.total
    }

    pub fn capacity(&self) -> (n: usize)
        ensures
            n == self.capacity_spec(),
    {
        self.capacity
    }

    /// The revision: it grows with every change of contents.
    pub fn rev(&self) -> (n: u64)
        ensures
            n == self.rev_spec(),
    {
        self.rev
    }

    /// The rows in the order they were first picked up.
    pub fn iter(&self) -> (rows: Vec<(BlockId, u32)>)
        ensures
            rows@ == self@,
    {
        let mut rows: Vec<(BlockId, u32)> = Vec::with_capacity(self.counts.len());
        let mut i: usize = 0;
        while i < self.counts.len()
            invariant
                i <= self.counts@.len(),
                rows@ == self.counts@.take(i as int),
            decreases self.counts@.len() - i,
        {
            rows.push(self.counts[i]);
            assert(self.counts@.take(i + 1) =~= self.counts@.take(i as int).push(
                self.counts@[i as int],
            ));
            i = i + 1;
        }
        assert(rows@ =~= self.counts@);
        rows
    }

    /// Drops everything.
    pub fn clear(&mut self)
        requires
            old(self).rev_spec() < u64::MAX,
        ensures
            final(self).wf(),
            final(self).model() == old(self).model().clear(),
    {
        self.counts.clear();
        self.total = 0;
        self.rev = self.rev + 1;
    }

    /// The rows with names in place of blocks.
    pub fn to_portable<F: Fn(BlockId) -> String>(&self, spec_of: F) -> (out: Vec<(String, u32)>)
        requires
            forall|id: BlockId| #[trigger] call_requires(spec_of, (id,)),
        ensures
            out@.len() == self@.len(),
            forall|i: int|
                0 <= i < out@.len() ==> (#[trigger] out@[i]).1 == self@[i].1 && call_ensures(
                    spec_of,
                    (self@[i].0,),
                    out@[i].0,
                ),
    {
        let mut out: Vec<(String, u32)> = Vec::with_capacity(self.counts.len());
        let mut i: usize = 0;
        while i < self.counts.len()
            invariant
                forall|id: BlockId| #[trigger] call_requires(spec_of, (id,)),
                i <= self.counts@.len(),
                out@.len() == i,
                forall|k: int|
                    0 <= k < out@.len() ==> (#[trigger] out@[k]).1 == self@[k].1 && call_ensures(
                        spec_of,
                        (self@[k].0,),
                        out@[k].0,
                    ),
            decreases self.counts@.len() - i,
        {
            let (id, count) = self.counts[i];
            let name = spec_of(id);
            out.push((name, count));
            i = i + 1;
        }
        out
    }

    /// Replaces the contents by saved rows. Names that `parse` does not know are passed
    /// over, and what finds no room is dropped.
    pub fn load_portable<F: FnMut(&str) -> Option<BlockId>>(&mut self, items: &[(String, u32)], mut parse: F)
        requires
            forall|s: &str| #[trigger] call_requires(parse, (s,)),
            old(self).capacity_spec() <= u32::MAX || items_total(items@) <= u32::MAX,
            old(self).rev_spec() + 1 + items@.len() <= u64::MAX,
        ensures
            final(self).wf(),
            exists|ids: Seq<Option<BlockId>>| #[trigger]
                parsed(parse, items@, ids) && final(self).model() == old(self).model().load(
                    known(items@, ids),
                ),
            final(self).rev_spec() > old(self).rev_spec(),
    {
        let ghost given = parse;
        let ghost mut ids: Seq<Option<BlockId>> = Seq::empty();
        let ghost cap = self.capacity_spec();
        let mut pairs: Vec<(BlockId, u32)> = Vec::new();
        let mut i: usize = 0;
        while i < items.len()
            invariant
                parse == given,
                forall|s: &str| #[trigger] call_requires(parse, (s,)),
                i <= items@.len(),
                ids.len() == i,
                forall|k: int|
                    0 <= k < i ==> names_block(parse, items@[k].0@, #[trigger] ids[k]),
                pairs@ == known(items@, ids),
                pairs@.len() <= i,
            decreases items@.len() - i,
        {
            let name: &str = items[i].0.as_str();
            let id = parse(name);
            let ghost before = ids;
            proof {
                ids = ids.push(id);
                assert(ids.drop_last() =~= before);
                assert forall|k: int| 0 <= k < i + 1 implies names_block(parse, items@[k].0@, #[trigger] ids[k]) by {
                    if k < i {
                        assert(names_block(parse, items@[k].0@, before[k]));
                    } else {
                        assert(name@ == items@[k].0@ && call_ensures(parse, (name,), ids[k]));
                    }
                }
            }
            if let Some(id) = id {
                pairs.push((id, items[i].1));
            }
            i = i + 1;
        }
        proof {
            lemma_known_total(items@, ids);
            assert(items@.take(ids.len() as int) =~= items@);
        }
        self.clear();
        let ghost empty = self.model();
        let mut k: usize = 0;
        assert(pairs@.take(0) =~= Seq::empty());
        while k < pairs.len()
            invariant
                k <= pairs@.len() <= items@.len(),
                self.wf(),
                empty.capacity == cap,
                empty.total == 0,
                empty.rows.len() == 0,
                self.model() == empty.pick(pairs@.take(k as int)),
                cap <= u32::MAX || total_of(pairs@) <= u32::MAX,
                empty.rev <= self.rev_spec() <= empty.rev + k,
                empty.rev + items@.len() <= u64::MAX,
            decreases pairs@.len() - k,
        {
            let (id, n) = pairs[k];
            proof {
                assert(pairs@.take(k + 1).drop_last() =~= pairs@.take(k as int));
                lemma_prefix_total(pairs@, k as int);
                lemma_pick(empty, pairs@.take(k as int));
                lemma_prefix_total(pairs@, k + 1);
            }
            self.add(id, n);
            k = k + 1;
        }
        assert(pairs@.take(k as int) =~= pairs@);
        assert(parsed(parse, items@, ids));
    }
}

proof fn lemma_add(v: StashView, id: BlockId, n: u32)
    requires
        v.ok(),
        v.fits(Call::Add(id, n)),
    ensures
        v.add(id, n).ok(),
{
    let t = taken(v.capacity, v.total, n);
    if t > 0 {
        lemma_added(v.rows, id, t);
    }
}

/// Picking up keeps a stash in order, and takes no more than is offered.
proof fn lemma_pick(v: StashView, pairs: Seq<(BlockId, u32)>)
    requires
        v.ok(),
        v.total + total_of(pairs) <= u32::MAX || v.capacity <= u32::MAX,
    ensures
        v.pick(pairs).ok(),
        v.pick(pairs).capacity == v.capacity,
        v.pick(pairs).total <= v.total + total_of(pairs),
        v.pick(pairs).rev >= v.rev,
    decreases pairs.len(),
{
    if pairs.len() > 0 {
        lemma_total_nonneg(v.rows);
        lemma_total_nonneg(pairs.drop_last());
        lemma_pick(v, pairs.drop_last());
        lemma_add(v.pick(pairs.drop_last()), pairs.last().0, pairs.last().1);
    }
}

/// Every call keeps the rows in order, their sum the total, and the total within the
/// capacity, which stays; and where it changes the rows it moves the revision on.
pub proof fn lemma_call(v: StashView, c: Call)
    requires
        v.ok(),
        v.fits(c),
    ensures
        v.after(c).ok(),
        v.after(c).capacity == v.capacity,
        v.after(c).rev >= v.rev,
        v.after(c).rows != v.rows ==> v.after(c).rev > v.rev,
{
    match c {
        Call::Add(id, n) => {
            lemma_add(v, id, n);
        },
        Call::Consume(id, n) => {
            if 0 < n <= count_of(v.rows, id) {
                lemma_removed(v.rows, id, n);
            }
        },
        Call::Revoke(id, n) => {
            let held = count_of(v.rows, id);
            if held > 0 && n > 0 {
                lemma_removed(
                    v.rows,
                    id,
                    if held < n {
                        held
                    } else {
                        n
                    },
                );
            }
        },
        Call::Clear => {},
        Call::Load(pairs) => {
            lemma_pick(v.clear(), pairs);
        },
    }
}

/// Whatever calls are made of a new stash: its total is the sum of its rows and never
/// above its capacity, which stays; no block has two rows or an empty one; and the
/// revision never goes back.
pub proof fn lemma_calls(capacity: usize, calls: Seq<Call>)
    requires
        StashView::fresh(capacity).all_fit(calls),
    ensures
        StashView::fresh(capacity).after_all(calls).ok(),
        StashView::fresh(capacity).after_all(calls).capacity == capacity,
        StashView::fresh(capacity).after_all(calls).rev >= 0,
    decreases calls.len(),
{
    let v = StashView::fresh(capacity);
    if calls.len() > 0 {
        let rest = calls.drop_last();
        let last = calls.len() - 1;
        assert forall|i: int| 0 <= i < rest.len() implies v.after_all(rest.take(i)).fits(
            #[trigger] rest[i],
        ) by {
            assert(rest.take(i) =~= calls.take(i));
            assert(v.after_all(calls.take(i)).fits(calls[i]));
        }
        lemma_calls(capacity, rest);
        assert(calls.take(last) =~= rest);
        assert(v.after_all(calls.take(last)).fits(calls[last]));
        lemma_call(v.after_all(rest), calls.last());
    }
}

/// Where the capacity fits the word that counts units, all calls fit.
pub proof fn lemma_calls_fit(capacity: usize, calls: Seq<Call>)
    requires
        capacity <= u32::MAX,
    ensures
        StashView::fresh(capacity).all_fit(calls),
    decreases calls.len(),
{
    let v = StashView::fresh(capacity);
    if calls.len() > 0 {
        let rest = calls.drop_last();
        lemma_calls_fit(capacity, rest);
        assert forall|i: int| 0 <= i < calls.len() implies v.after_all(calls.take(i)).fits(
            #[trigger] calls[i],
        ) by {
            if i < rest.len() {
                assert(rest.take(i) =~= calls.take(i));
                assert(v.after_all(rest.take(i)).fits(rest[i]));
            } else {
                assert(calls.take(i) =~= rest);
                lemma_calls(capacity, rest);
            }
        }
    }
}

proof fn lemma_pick_alike(v: StashView, w: StashView, pairs: Seq<(BlockId, u32)>)
    requires
        v.rows == w.rows,
        v.total == w.total,
        v.capacity == w.capacity,
    ensures
        v.pick(pairs).rows == w.pick(pairs).rows,
        v.pick(pairs).total == w.pick(pairs).total,
        v.pick(pairs).capacity == w.pick(pairs).capacity,
    decreases pairs.len(),
{
    if pairs.len() > 0 {
        lemma_pick_alike(v, w, pairs.drop_last());
    }
}

/// Loading gives what a new stash of the same capacity holds after the same pairs are
/// picked up in order: nothing of what was held before is left.
pub proof fn lemma_load_starts_anew(v: StashView, pairs: Seq<(BlockId, u32)>)
    ensures
        v.load(pairs).rows == StashView::fresh(v.capacity).pick(pairs).rows,
        v.load(pairs).total == StashView::fresh(v.capacity).pick(pairs).total,
        v.load(pairs).capacity == v.capacity,
    decreases pairs.len(),
{
    lemma_pick_alike(v.clear(), StashView::fresh(v.capacity), pairs);
    lemma_pick_capacity(v.clear(), pairs);
}

proof fn lemma_pick_capacity(v: StashView, pairs: Seq<(BlockId, u32)>)
    ensures
        v.pick(pairs).capacity == v.capacity,
    decreases pairs.len(),
{
    if pairs.len() > 0 {
        lemma_pick_capacity(v, pairs.drop_last());
    }
}

proof fn lemma_pick_rows(v: StashView, rows: Seq<(BlockId, u32)>)
    requires
        v.rows.len() == 0,
        v.total == 0,
        rows_ok(rows),
        total_of(rows) <= v.capacity,
    ensures
        v.pick(rows).rows == rows,
        v.pick(rows).total == total_of(rows),
        v.pick(rows).capacity == v.capacity,
    decreases rows.len(),
{
    if rows.len() > 0 {
        let rest = rows.drop_last();
        let e = rows.last();
        assert(rows_ok(rest)) by {
            assert forall|i: int, j: int|
                0 <= i < rest.len() && 0 <= j < rest.len() && i != j implies (
            #[trigger] rest[i]).0 != (#[trigger] rest[j]).0 by {
                assert(rows[i].0 != rows[j].0);
            }
            assert forall|i: int| 0 <= i < rest.len() implies (#[trigger] rest[i]).1 > 0 by {
                assert(rows[i].1 > 0);
            }
        }
        lemma_pick_rows(v, rest);
        assert(rows[rows.len() - 1].1 > 0);
        assert(!has_row(rest, e.0)) by {
            if has_row(rest, e.0) {
                let i = row_of(rest, e.0);
                assert(rest[i].0 == e.0);
                assert(rows[i].0 != rows[rows.len() - 1].0);
            }
        }
        assert(taken(v.capacity, total_of(rest), e.1) == e.1);
        assert(added(rest, e.0, e.1) =~= rows);
    } else {
        assert(v.rows =~= rows);
    }
}

proof fn lemma_known_rows(
    items: Seq<(String, u32)>,
    ids: Seq<Option<BlockId>>,
    rows: Seq<(BlockId, u32)>,
    n: int,
)
    requires
        items.len() == rows.len(),
        ids.len() == rows.len(),
        forall|i: int| 0 <= i < rows.len() ==> (#[trigger] items[i]).1 == rows[i].1,
        forall|i: int| 0 <= i < rows.len() ==> #[trigger] ids[i] == Some(rows[i].0),
        0 <= n <= rows.len(),
    ensures
        known(items, ids.take(n)) == rows.take(n),
    decreases n,
{
    if n > 0 {
        lemma_known_rows(items, ids, rows, n - 1);
        assert(ids.take(n).drop_last() =~= ids.take(n - 1));
        assert(ids[n - 1] == Some(rows[n - 1].0));
        assert(items[n - 1].1 == rows[n - 1].1);
        assert(rows.take(n) =~= rows.take(n - 1).push(rows[n - 1]));
    } else {
        assert(known(items, ids.take(n)) =~= rows.take(n));
    }
}

/// What is saved comes back: where every saved name stands for its block again and the
/// stash has the room, loading the saved rows gives the rows, in their order.
pub proof fn lemma_portable_round_trip<F: FnMut(&str) -> Option<BlockId>>(
    rows: Seq<(BlockId, u32)>,
    items: Seq<(String, u32)>,
    parse: F,
    ids: Seq<Option<BlockId>>,
    v: StashView,
)
    requires
        rows_ok(rows),
        total_of(rows) <= v.capacity,
        items.len() == rows.len(),
        forall|i: int| 0 <= i < rows.len() ==> (#[trigger] items[i]).1 == rows[i].1,
        forall|i: int, r: Option<BlockId>|
            0 <= i < rows.len() && #[trigger] names_block(parse, items[i].0@, r) ==> r == Some(
                rows[i].0,
            ),
        parsed(parse, items, ids),
    ensures
        v.load(known(items, ids)).rows == rows,
        v.load(known(items, ids)).total == total_of(rows),
{
    assert forall|i: int| 0 <= i < rows.len() implies #[trigger] ids[i] == Some(rows[i].0) by {
        assert(names_block(parse, items[i].0@, ids[i]));
    }
    lemma_known_rows(items, ids, rows, rows.len() as int);
    assert(ids.take(rows.len() as int) =~= ids);
    assert(rows.take(rows.len() as int) =~= rows);
    lemma_pick_rows(v.clear(), rows);
}

/// Whether `id` is an answer of `parse` for a name.
pub open spec fn names_block<F: FnMut(&str) -> Option<BlockId>>(
    parse: F,
    name: Seq<char>,
    id: Option<BlockId>,
) -> bool {
    exists|s: &str| s@ == name && #[trigger] call_ensures(parse, (s,), id)
}

/// Whether `ids` are answers of `parse` for the names of saved rows.
pub open spec fn parsed<F: FnMut(&str) -> Option<BlockId>>(
    parse: F,
    items: Seq<(String, u32)>,
    ids: Seq<Option<BlockId>>,
) -> bool {
    &&& ids.len() == items.len()
    &&& forall|k: int|
        0 <= k < ids.len() ==> names_block(parse, items[k].0@, #[trigger] ids[k])
}

proof fn lemma_prefix_total(s: Seq<(BlockId, u32)>, k: int)
    requires
        0 <= k <= s.len(),
    ensures
        total_of(s.take(k)) <= total_of(s),
    decreases s.len() - k,
{
    if k < s.len() {
        lemma_prefix_total(s, k + 1);
        assert(s.take(k + 1).drop_last() =~= s.take(k));
    } else {
        assert(s.take(k) =~= s);
    }
}

proof fn lemma_known_total(items: Seq<(String, u32)>, ids: Seq<Option<BlockId>>)
    requires
        ids.len() <= items.len(),
    ensures
        total_of(known(items, ids)) <= items_total(items.take(ids.len() as int)),
    decreases ids.len(),
{
    if ids.len() > 0 {
        let n = ids.len() as int;
        lemma_known_total(items, ids.drop_last());
        assert(items.take(n).drop_last() =~= items.take(n - 1));
        if let Some(id) = ids.last() {
            let rest = known(items, ids.drop_last());
            assert(known(items, ids).drop_last() =~= rest);
        }
    }
}

/// Picking up fills the room there is and no more: the units held grow by what was offered
/// or to the capacity, and so does the count of that block, while other counts stay.
pub proof fn lemma_picking_up_fills_room(v: StashView, id: BlockId, n: u32, other: BlockId)
    requires
        v.ok(),
        v.fits(Call::Add(id, n)),
    ensures
        ({
            let w = v.add(id, n);
            &&& v.total + n <= v.capacity ==> w.total == v.total + n
            &&& v.total + n > v.capacity ==> w.total == v.capacity
            &&& count_of(w.rows, id) - count_of(v.rows, id) == w.total - v.total
            &&& other != id ==> count_of(w.rows, other) == count_of(v.rows, other)
            &&& w.total == v.total ==> w == v
        }),
{
    let t = taken(v.capacity, v.total, n);
    if t > 0 {
        lemma_remove_undoes_add(v.rows, id, t);
        if other != id {
            lemma_others_keep_counts(v.rows, id, t, other);
        }
    }
}

/// Spending is all or nothing: what is held of a block shrinks by the whole price or, where
/// there is too little, nothing changes. Revoking takes what there is of it. Other counts
/// stay either way.
pub proof fn lemma_spending_is_all_or_nothing(v: StashView, id: BlockId, n: u32, other: BlockId)
    requires
        v.ok(),
    ensures
        ({
            let w = v.consume(id, n);
            let held = count_of(v.rows, id);
            &&& held >= n ==> count_of(w.rows, id) == held - n && w.total == v.total - n
            &&& held < n ==> w == v
            &&& other != id ==> count_of(w.rows, other) == count_of(v.rows, other)
        }),
        ({
            let w = v.revoke(id, n);
            let held = count_of(v.rows, id);
            &&& held >= n ==> count_of(w.rows, id) == held - n
            &&& held < n ==> count_of(w.rows, id) == 0
            &&& v.total - w.total == held - count_of(w.rows, id)
            &&& other != id ==> count_of(w.rows, other) == count_of(v.rows, other)
        }),
{
    let held = count_of(v.rows, id);
    let m = if held < n {
        held
    } else {
        n
    };
    if m > 0 {
        lemma_taken_leaves(v.rows, id, m);
        if other != id {
            lemma_others_keep_counts(v.rows, id, m, other);
        }
    }
}

proof fn lemma_taken_leaves(s: Seq<(BlockId, u32)>, id: BlockId, n: u32)
    requires
        rows_ok(s),
        0 < n <= count_of(s, id),
    ensures
        count_of(removed(s, id, n), id) == count_of(s, id) - n,
{
    let i = row_of(s, id);
    let r = removed(s, id, n);
    assert(0 <= i < s.len() && s[i].0 == id);
    if s[i].1 == n {
        assert forall|j: int| 0 <= j < r.len() implies (#[trigger] r[j]).0 != id by {
            let k = if j < i {
                j
            } else {
                j + 1
            };
            assert(r[j] == s[k]);
            assert(s[k].0 != s[i].0);
        }
        assert(!has_row(r, id));
    } else {
        assert(r[i].0 == id);
        assert(has_row(r, id));
        let k = row_of(r, id);
        assert(0 <= k < r.len() && r[k].0 == id);
        if k != i {
            assert(r[k] == s[k]);
            assert(s[k].0 != s[i].0);
        }
    }
}

/// An emptied stash holds nothing of any block.
pub proof fn lemma_cleared_holds_nothing(v: StashView, id: BlockId)
    ensures
        count_of(v.clear().rows, id) == 0,
        v.clear().total == 0,
        v.clear().capacity == v.capacity,
        v.clear().rev > v.rev,
        count_of(StashView::fresh(v.capacity).rows, id) == 0,
{
}

} // verus!
