//! Coverage of the far field: which quadrants of each region are drawn.
//!
//! A new cut replaces the one before at once, and the regions whose drawn
//! quadrants changed are reported.
use vstd::prelude::*;

use crate::block::Detail;

verus! {

/// A region of the far field.
#[derive(Clone, Copy, PartialEq, Eq, Debug, Hash, Structural)]
pub struct SectionPos {
    pub detail: Detail,
    pub x: i32,
    pub z: i32,
}

/// A set of a region's four quadrants, one bit each.
#[derive(Clone, Copy, PartialEq, Eq, Debug, Structural)]
pub struct QuadrantMask {
    pub bits: u8,
}

impl QuadrantMask {
    /// No quadrant.
    pub fn empty() -> (m: Self)
        ensures
            m == (QuadrantMask { bits: 0 }),
    {
        QuadrantMask { bits: 0 }
    }

    /// All four quadrants.
    pub fn all() -> (m: Self)
        ensures
            m == (QuadrantMask { bits: 15 }),
    {
        QuadrantMask { bits: 15 }
    }
}

/// A region whose drawn quadrants changed: the new set, or `None` once it draws
/// nothing.
pub type VisibilityChange = (SectionPos, Option<QuadrantMask>);

/// The quadrants that a cut gives a region: those of its last entry for it.
pub open spec fn given(cut: Seq<(SectionPos, QuadrantMask)>, pos: SectionPos) -> Option<
    QuadrantMask,
>
    decreases cut.len(),
{
    if cut.len() == 0 {
        None
    } else if cut.last().0 == pos {
        Some(cut.last().1)
    } else {
        given(cut.drop_last(), pos)
    }
}

/// What a region draws after changes are applied in order.
pub open spec fn patched(
    before: Option<QuadrantMask>,
    changes: Seq<VisibilityChange>,
    pos: SectionPos,
) -> Option<QuadrantMask>
    decreases changes.len(),
{
    if changes.len() == 0 {
        before
    } else if changes.last().0 == pos {
        changes.last().1
    } else {
        patched(before, changes.drop_last(), pos)
    }
}

/// Whether no region occurs twice.
pub open spec fn no_region_twice<T>(s: Seq<(SectionPos, T)>) -> bool {
    forall|i: int, j: int|
        0 <= i < s.len() && 0 <= j < s.len() && i != j ==> (#[trigger] s[i]).0 != (#[trigger] s[j]).0
}

/// Whether one of the first `n` entries is for the region.
pub open spec fn listed<T>(s: Seq<(SectionPos, T)>, n: int, pos: SectionPos) -> bool {
    exists|m: int| 0 <= m < n && (#[trigger] s[m]).0 == pos
}

/// Whether a list of changes leads from one assignment to another: it names each
/// region whose quadrants differ once, with its new quadrants, and no other.
pub open spec fn is_diff(
    before: spec_fn(SectionPos) -> Option<QuadrantMask>,
    after: spec_fn(SectionPos) -> Option<QuadrantMask>,
    changes: Seq<VisibilityChange>,
) -> bool {
    &&& no_region_twice(changes)
    &&& forall|i: int|
        0 <= i < changes.len() ==> (#[trigger] changes[i]).1 == after(changes[i].0) && before(
            changes[i].0,
        ) != after(changes[i].0)
    &&& forall|pos: SectionPos|
        #[trigger] before(pos) != after(pos) ==> exists|i: int|
            0 <= i < changes.len() && (#[trigger] changes[i]).0 == pos
}

proof fn lemma_given(s: Seq<(SectionPos, QuadrantMask)>, pos: SectionPos)
    requires
        no_region_twice(s),
    ensures
        forall|i: int|
            0 <= i < s.len() && (#[trigger] s[i]).0 == pos ==> given(s, pos) == Some(s[i].1),
        given(s, pos) is Some ==> exists|i: int| 0 <= i < s.len() && (#[trigger] s[i]).0 == pos,
    decreases s.len(),
{
    if s.len() > 0 {
        let t = s.drop_last();
        assert(no_region_twice(t)) by {
            assert forall|i: int, j: int|
                0 <= i < t.len() && 0 <= j < t.len() && i != j implies (#[trigger] t[i]).0 != (
            #[trigger] t[j]).0 by {
                assert(s[i].0 != s[j].0);
            }
        }
        lemma_given(t, pos);
        if s.last().0 == pos {
            assert(s[s.len() - 1].0 == pos);
        } else if given(t, pos) is Some {
            let i = choose|i: int| 0 <= i < t.len() && (#[trigger] t[i]).0 == pos;
            assert(s[i].0 == pos);
        }
        assert forall|i: int| 0 <= i < s.len() && (#[trigger] s[i]).0 == pos implies given(s, pos)
            == Some(s[i].1) by {
            if i < s.len() - 1 {
                assert(t[i].0 == pos);
                if s.last().0 == pos {
                    assert(s[s.len() - 1].0 != s[i].0);
                }
            }
        }
    }
}

fn find(s: &Vec<(SectionPos, QuadrantMask)>, pos: SectionPos) -> (r: Option<usize>)
    requires
        no_region_twice(s@),
    ensures
        match r {
            Some(i) => i < s@.len() && s@[i as int].0 == pos && given(s@, pos) == Some(
                s@[i as int].1,
            ),
            None => given(s@, pos) is None && forall|i: int|
                0 <= i < s@.len() ==> (#[trigger] s@[i]).0 != pos,
        },
{
    proof {
        lemma_given(s@, pos);
    }
    let mut i: usize = 0;
    while i < s.len()
        invariant
            i <= s@.len(),
            forall|k: int| 0 <= k < i ==> (#[trigger] s@[k]).0 != pos,
            forall|k: int|
                0 <= k < s@.len() && (#[trigger] s@[k]).0 == pos ==> given(s@, pos) == Some(
                    s@[k].1,
                ),
        decreases s@.len() - i,
    {
        if s[i].0 == pos {
            return Some(i);
        }
        i = i + 1;
    }
    None
}

/// The last entry of each region of a cut.
fn settle(cut: &[(SectionPos, QuadrantMask)]) -> (out: Vec<(SectionPos, QuadrantMask)>)
    ensures
        no_region_twice(out@),
        forall|pos: SectionPos| #[trigger] given(out@, pos) == given(cut@, pos),
{
    let mut out: Vec<(SectionPos, QuadrantMask)> = Vec::new();
    let mut i: usize = 0;
    assert(cut@.take(0) =~= Seq::empty());
    while i < cut.len()
        invariant
            i <= cut@.len(),
            no_region_twice(out@),
            forall|pos: SectionPos| #[trigger]
                given(out@, pos) == given(cut@.take(i as int), pos),
        decreases cut@.len() - i,
    {
        let e = cut[i];
        let ghost before = out@;
        match find(&out, e.0) {
            Some(k) => {
                out.set(k, e);
            },
            None => {
                out.push(e);
            },
        }
        proof {
            assert(no_region_twice(out@)) by {
                assert forall|a: int, b: int|
                    0 <= a < out@.len() && 0 <= b < out@.len() && a != b implies (
                #[trigger] out@[a]).0 != (#[trigger] out@[b]).0 by {
                    if a < before.len() && b < before.len() {
                        assert(before[a].0 != before[b].0);
                    }
                }
            }
            assert(cut@.take(i + 1).drop_last() =~= cut@.take(i as int));
            assert forall|pos: SectionPos| #[trigger]
                given(out@, pos) == given(cut@.take(i + 1), pos) by {
                lemma_given(out@, pos);
                lemma_given(before, pos);
                assert(given(before, pos) == given(cut@.take(i as int), pos));
                if pos == e.0 {
                    if out@.len() == before.len() {
                        let k = choose|k: int| 0 <= k < before.len() && (#[trigger] before[k]).0 == pos;
                        assert(out@[k].0 == pos);
                        let m = choose|m: int| 0 <= m < out@.len() && out@[m] == e;
                        assert(out@[m].0 == pos);
                    } else {
                        assert(out@[before.len() as int].0 == pos);
                    }
                } else {
                    if given(before, pos) is Some {
                        let k = choose|k: int| 0 <= k < before.len() && (#[trigger] before[k]).0 == pos;
                        assert(out@[k] == before[k]);
                        assert(out@[k].0 == pos);
                        assert(before[k].0 == pos);
                    }
                    if given(out@, pos) is Some {
                        let k = choose|k: int| 0 <= k < out@.len() && (#[trigger] out@[k]).0 == pos;
                        assert(before[k] == out@[k]);
                        assert(before[k].0 == pos);
                    }
                }
            }
        }
        i = i + 1;
    }
    assert(cut@.take(cut@.len() as int) =~= cut@);
    out
}

/// The far field's coverage: one set of quadrants per drawn region.
pub struct Coverage {
    settled: Vec<(SectionPos, QuadrantMask)>,
}

impl Default for Coverage {
    /// Nothing is drawn.
    fn default() -> (c: Self)
        ensures
            c.wf(),
            forall|pos: SectionPos| #[trigger] c.drawn(pos) == None::<QuadrantMask>,
    {
        Coverage { settled: Vec::new() }
    }
}

impl Coverage {
    pub closed spec fn wf(self) -> bool {
        no_region_twice(self.settled@)
    }

    /// The quadrants that a region draws.
    pub closed spec fn drawn(self, pos: SectionPos) -> Option<QuadrantMask> {
        given(self.settled@, pos)
    }

    /// The same as [`Self::update`].
    pub fn update_now(&mut self, cut: &[(SectionPos, QuadrantMask)]) -> (changes: Vec<
        VisibilityChange,
    >)
        requires
            old(self).wf(),
        ensures
            final(self).wf(),
            forall|pos: SectionPos| #[trigger] final(self).drawn(pos) == given(cut@, pos),
            is_diff(
                |pos: SectionPos| old(self).drawn(pos),
                |pos: SectionPos| given(cut@, pos),
                changes@,
            ),
    {
        self.update(cut)
    }

    /// Adopts a new cut in place of the one before, and gives the regions whose drawn
    /// quadrants changed.
    pub fn update(&mut self, cut: &[(SectionPos, QuadrantMask)]) -> (changes: Vec<VisibilityChange>)
        requires
            old(self).wf(),
        ensures
            final(self).wf(),
            forall|pos: SectionPos| #[trigger] final(self).drawn(pos) == given(cut@, pos),
            is_diff(
                |pos: SectionPos| old(self).drawn(pos),
                |pos: SectionPos| given(cut@, pos),
                changes@,
            ),
    {
        let desired = settle(cut);
        let ghost was = self.settled@;
        let ghost want = desired@;
        let mut changes: Vec<VisibilityChange> = Vec::new();
        let mut i: usize = 0;
        while i < self.settled.len()
            invariant
                was == self.settled@,
                want == desired@,
                no_region_twice(was),
                no_region_twice(want),
                i <= was.len(),
                no_region_twice(changes@),
                forall|k: int|
                    0 <= k < changes@.len() ==> (#[trigger] changes@[k]).1 == given(
                        want,
                        changes@[k].0,
                    ) && given(was, changes@[k].0) != given(want, changes@[k].0),
                forall|k: int|
                    0 <= k < changes@.len() ==> listed(was, i as int, (#[trigger] changes@[k]).0),
                forall|m: int|
                    0 <= m < i && given(was, was[m].0) != given(want, was[m].0) ==> exists|k: int|
                        0 <= k < changes@.len() && (#[trigger] changes@[k]).0 == (
                        #[trigger] was[m]).0,
            decreases was.len() - i,
        {
            let (pos, mask) = self.settled[i];
            let now = match find(&desired, pos) {
                Some(k) => Some(desired[k].1),
                None => None,
            };
            proof {
                lemma_given(was, pos);
                assert(was[i as int].0 == pos);
            }
            let ghost before = changes@;
            if now != Some(mask) {
                changes.push((pos, now));
                proof {
                    assert forall|a: int, b: int|
                        0 <= a < changes@.len() && 0 <= b < changes@.len() && a != b implies (
                    #[trigger] changes@[a]).0 != (#[trigger] changes@[b]).0 by {
                        let low = if a < b {
                            a
                        } else {
                            b
                        };
                        let high = if a < b {
                            b
                        } else {
                            a
                        };
                        if high == before.len() {
                            assert(before[low] == changes@[low]);
                            let m = choose|m: int|
                                0 <= m < i && (#[trigger] was[m]).0 == before[low].0;
                            assert(was[m].0 != was[i as int].0);
                        } else {
                            assert(before[a].0 != before[b].0);
                        }
                    }
                    assert forall|k: int| 0 <= k < changes@.len() implies listed(was, i + 1, (#[trigger] changes@[k]).0) by {
                        if k < before.len() {
                            assert(before[k] == changes@[k]);
                            let m = choose|m: int|
                                0 <= m < i && (#[trigger] was[m]).0 == before[k].0;
                            assert(was[m].0 == changes@[k].0);
                        } else {
                            assert(was[i as int].0 == changes@[k].0);
                        }
                    }
                    assert forall|m: int|
                        0 <= m < i + 1 && given(was, was[m].0) != given(
                            want,
                            was[m].0,
                        ) implies exists|k: int|
                        0 <= k < changes@.len() && (#[trigger] changes@[k]).0 == (
                        #[trigger] was[m]).0 by {
                        if m < i {
                            let k = choose|k: int|
                                0 <= k < before.len() && (#[trigger] before[k]).0 == was[m].0;
                            assert(changes@[k].0 == was[m].0);
                        } else {
                            assert(changes@[before.len() as int].0 == was[m].0);
                        }
                    }
                }
            }
            i = i + 1;
        }
        let ghost left = changes@;
        let mut j: usize = 0;
        while j < desired.len()
            invariant
                was == self.settled@,
                want == desired@,
                no_region_twice(was),
                no_region_twice(want),
                j <= want.len(),
                no_region_twice(changes@),
                left.len() <= changes@.len(),
                forall|k: int| 0 <= k < left.len() ==> #[trigger] changes@[k] == left[k],
                forall|k: int|
                    0 <= k < left.len() ==> listed(was, was.len() as int, (#[trigger] left[k]).0),
                forall|k: int|
                    0 <= k < changes@.len() ==> (#[trigger] changes@[k]).1 == given(
                        want,
                        changes@[k].0,
                    ) && given(was, changes@[k].0) != given(want, changes@[k].0),
                forall|k: int|
                    left.len() <= k < changes@.len() ==> listed(want, j as int, (#[trigger] changes@[k]).0),
                forall|m: int|
                    0 <= m < j && given(was, want[m].0) is None ==> exists|k: int|
                        0 <= k < changes@.len() && (#[trigger] changes@[k]).0 == (
                        #[trigger] want[m]).0,
            decreases want.len() - j,
        {
            let (pos, mask) = desired[j];
            let ghost before = changes@;
            proof {
                lemma_given(want, pos);
                assert(want[j as int].0 == pos);
            }
            match find(&self.settled, pos) {
                Some(_) => {},
                None => {
                    changes.push((pos, Some(mask)));
                    proof {
                        assert forall|a: int, b: int|
                            0 <= a < changes@.len() && 0 <= b < changes@.len() && a != b implies (
                        #[trigger] changes@[a]).0 != (#[trigger] changes@[b]).0 by {
                            let low = if a < b {
                                a
                            } else {
                                b
                            };
                            let high = if a < b {
                                b
                            } else {
                                a
                            };
                            if high == before.len() {
                                assert(before[low] == changes@[low]);
                                if low < left.len() {
                                    assert(changes@[low] == left[low]);
                                    let m = choose|m: int|
                                        0 <= m < was.len() && (#[trigger] was[m]).0
                                            == left[low].0;
                                    assert(was[m].0 != pos);
                                } else {
                                    let m = choose|m: int|
                                        0 <= m < j && (#[trigger] want[m]).0 == before[low].0;
                                    assert(want[m].0 != want[j as int].0);
                                }
                            } else {
                                assert(before[a].0 != before[b].0);
                            }
                        }
                        assert forall|k: int| left.len() <= k < changes@.len() implies listed(want, j + 1, (#[trigger] changes@[k]).0) by {
                            if k < before.len() {
                                assert(before[k] == changes@[k]);
                                let m = choose|m: int|
                                    0 <= m < j && (#[trigger] want[m]).0 == before[k].0;
                                assert(want[m].0 == changes@[k].0);
                            } else {
                                assert(want[j as int].0 == changes@[k].0);
                            }
                        }
                        assert forall|m: int|
                            0 <= m < j + 1 && given(was, want[m].0) is None implies exists|k: int|
                            0 <= k < changes@.len() && (#[trigger] changes@[k]).0 == (
                            #[trigger] want[m]).0 by {
                            if m < j {
                                let k = choose|k: int|
                                    0 <= k < before.len() && (#[trigger] before[k]).0 == want[m].0;
                                assert(changes@[k].0 == want[m].0);
                            } else {
                                assert(changes@[before.len() as int].0 == want[m].0);
                            }
                        }
                    }
                },
            }
            j = j + 1;
        }
        proof {
            assert forall|pos: SectionPos| #[trigger] given(was, pos) != given(want, pos) implies exists|k: int|
                0 <= k < changes@.len() && (#[trigger] changes@[k]).0 == pos by {
                lemma_given(was, pos);
                lemma_given(want, pos);
                if given(was, pos) is Some {
                    let m = choose|m: int| 0 <= m < was.len() && (#[trigger] was[m]).0 == pos;
                    let k = choose|k: int|
                        0 <= k < left.len() && (#[trigger] left[k]).0 == was[m].0;
                    assert(changes@[k].0 == pos);
                } else {
                    let m = choose|m: int| 0 <= m < want.len() && (#[trigger] want[m]).0 == pos;
                    let k = choose|k: int|
                        0 <= k < changes@.len() && (#[trigger] changes@[k]).0 == want[m].0;
                    assert(changes@[k].0 == pos);
                }
            }
        }
        self.settled = desired;
        changes
    }

    /// The regions that are drawn with their quadrants.
    pub fn draws(&self) -> (out: Vec<(SectionPos, QuadrantMask)>)
        requires
            self.wf(),
        ensures
            no_region_twice(out@),
            forall|pos: SectionPos| #[trigger] given(out@, pos) == self.drawn(pos),
    {
        let mut out: Vec<(SectionPos, QuadrantMask)> = Vec::with_capacity(self.settled.len());
        let mut i: usize = 0;
        while i < self.settled.len()
            invariant
                i <= self.settled@.len(),
                out@ == self.settled@.take(i as int),
            decreases self.settled@.len() - i,
        {
            out.push(self.settled[i]);
            assert(self.settled@.take(i + 1) =~= self.settled@.take(i as int).push(
                self.settled@[i as int],
            ));
            i = i + 1;
        }
        assert(out@ =~= self.settled@);
        out
    }

    /// The quadrants that a region draws, if any.
    pub fn drawn_mask(&self, pos: SectionPos) -> (r: Option<QuadrantMask>)
        requires
            self.wf(),
        ensures
            r == self.drawn(pos),
    {
        match find(&self.settled, pos) {
            Some(i) => Some(self.settled[i].1),
            None => None,
        }
    }

    /// Every region that is drawn, once.
    pub fn tracked_regions(&self) -> (out: Vec<SectionPos>)
        requires
            self.wf(),
        ensures
            out@.no_duplicates(),
            forall|pos: SectionPos| #[trigger] out@.contains(pos) <==> self.drawn(pos) is Some,
    {
        let mut out: Vec<SectionPos> = Vec::with_capacity(self.settled.len());
        let mut i: usize = 0;
        while i < self.settled.len()
            invariant
                self.wf(),
                i <= self.settled@.len(),
                out@.len() == i,
                forall|k: int| 0 <= k < i ==> #[trigger] out@[k] == self.settled@[k].0,
            decreases self.settled@.len() - i,
        {
            out.push(self.settled[i].0);
            i = i + 1;
        }
        proof {
            assert forall|pos: SectionPos| #[trigger] out@.contains(pos) <==> self.drawn(
                pos,
            ) is Some by {
                lemma_given(self.settled@, pos);
                if out@.contains(pos) {
                    let k = choose|k: int| 0 <= k < out@.len() && out@[k] == pos;
                    assert(self.settled@[k].0 == pos);
                }
                if self.drawn(pos) is Some {
                    let k = choose|k: int|
                        0 <= k < self.settled@.len() && (#[trigger] self.settled@[k]).0 == pos;
                    assert(out@[k] == pos);
                }
            }
        }
        out
    }
}

/// Applying the reported changes to what was drawn gives what is drawn.
pub proof fn lemma_changes_reproduce(
    before: spec_fn(SectionPos) -> Option<QuadrantMask>,
    after: spec_fn(SectionPos) -> Option<QuadrantMask>,
    changes: Seq<VisibilityChange>,
    pos: SectionPos,
)
    requires
        is_diff(before, after, changes),
    ensures
        patched(before(pos), changes, pos) == after(pos),
{
    lemma_patched(before(pos), after(pos), changes, pos);
    if before(pos) != after(pos) {
        let i = choose|i: int| 0 <= i < changes.len() && (#[trigger] changes[i]).0 == pos;
        assert(changes[i].0 == pos);
    }
}

proof fn lemma_patched(
    before: Option<QuadrantMask>,
    after: Option<QuadrantMask>,
    changes: Seq<VisibilityChange>,
    pos: SectionPos,
)
    requires
        forall|i: int|
            0 <= i < changes.len() && (#[trigger] changes[i]).0 == pos ==> changes[i].1 == after,
    ensures
        patched(before, changes, pos) == after || (patched(before, changes, pos) == before
            && forall|i: int| 0 <= i < changes.len() ==> (#[trigger] changes[i]).0 != pos),
    decreases changes.len(),
{
    if changes.len() > 0 {
        let t = changes.drop_last();
        assert(changes[changes.len() - 1] == changes.last());
        assert forall|i: int| 0 <= i < t.len() && (#[trigger] t[i]).0 == pos implies t[i].1
            == after by {
            assert(changes[i].0 == pos);
        }
        lemma_patched(before, after, t, pos);
        assert forall|i: int| 0 <= i < t.len() implies t[i] == changes[i] by {}
        if changes.last().0 != pos && patched(before, t, pos) == before && patched(before, t, pos)
            != after {
            assert forall|i: int| 0 <= i < changes.len() implies (#[trigger] changes[i]).0 != pos by {
                if i < t.len() {
                    assert(t[i].0 != pos);
                }
            }
        }
    }
}

/// A cut that changes nothing reports nothing.
pub proof fn lemma_same_cut_reports_nothing(
    drawn: spec_fn(SectionPos) -> Option<QuadrantMask>,
    changes: Seq<VisibilityChange>,
)
    requires
        is_diff(drawn, drawn, changes),
    ensures
        changes.len() == 0,
{
    if changes.len() > 0 {
        assert(changes[0].1 == drawn(changes[0].0));
    }
}

} // verus!
