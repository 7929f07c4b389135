//! Marks on far-field sections that edits touched.
use vstd::arithmetic::power2::{lemma_pow2_pos, pow2};
use vstd::prelude::*;

use crate::block::Detail;
use crate::coord::{floor_div, ChunkCoord};
use crate::world::coverage::SectionPos;
use crate::world::lod::{section_span, section_span_spec};

verus! {

/// The section of a level that covers a column.
pub open spec fn section_at(d: Detail, x: int, z: int) -> SectionPos {
    SectionPos {
        detail: d,
        x: (x / section_span_spec(d)) as i32,
        z: (z / section_span_spec(d)) as i32,
    }
}

/// How many of the first `n` levels have `pos` over a column.
pub open spec fn hits(details: Seq<Detail>, n: int, x: int, z: int, pos: SectionPos) -> int
    decreases n,
{
    if n <= 0 {
        0
    } else {
        hits(details, n - 1, x, z, pos) + (if section_at(details[n - 1], x, z) == pos {
            1int
        } else {
            0int
        })
    }
}

/// A section that edits touched: how many times, and in which chunks.
pub struct SectionMark {
    pub pos: SectionPos,
    pub rev: u64,
    pub chunks: Vec<ChunkCoord>,
}

/// The sections that edits touched: those to mesh again, those whose edit overlay is
/// stale, and each one's edits.
pub struct SectionMarks {
    marks: Vec<SectionMark>,
    dirty: Vec<SectionPos>,
    stale: Vec<SectionPos>,
}

/// Whether no section has two marks.
pub open spec fn marks_differ(s: Seq<SectionMark>) -> bool {
    forall|i: int, j: int|
        0 <= i < s.len() && 0 <= j < s.len() && i != j ==> (#[trigger] s[i]).pos != (
        #[trigger] s[j]).pos
}

pub open spec fn has_mark(s: Seq<SectionMark>, pos: SectionPos) -> bool {
    exists|i: int| 0 <= i < s.len() && (#[trigger] s[i]).pos == pos
}

pub open spec fn mark_row(s: Seq<SectionMark>, pos: SectionPos) -> int {
    choose|i: int| 0 <= i < s.len() && (#[trigger] s[i]).pos == pos
}

impl SectionMarks {
    pub closed spec fn wf(self) -> bool {
        marks_differ(self.marks@)
    }

    /// How often edits touched a section.
    pub closed spec fn rev_of(self, pos: SectionPos) -> u64 {
        if has_mark(self.marks@, pos) {
            self.marks@[mark_row(self.marks@, pos)].rev
        } else {
            0
        }
    }

    /// Whether edits in a chunk touched a section.
    pub closed spec fn holds_chunk(self, pos: SectionPos, c: ChunkCoord) -> bool {
        has_mark(self.marks@, pos) && self.marks@[mark_row(self.marks@, pos)].chunks@.contains(c)
    }

    /// Whether a section is to be meshed again.
    pub closed spec fn is_dirty(self, pos: SectionPos) -> bool {
        self.dirty@.contains(pos)
    }

    /// Whether a section's edit overlay is stale.
    pub closed spec fn is_stale(self, pos: SectionPos) -> bool {
        self.stale@.contains(pos)
    }

    pub fn new() -> (m: Self)
        ensures
            m.wf(),
            forall|pos: SectionPos| !#[trigger] m.is_dirty(pos),
            forall|pos: SectionPos| !#[trigger] m.is_stale(pos),
            forall|pos: SectionPos| #[trigger] m.rev_of(pos) == 0,
            forall|pos: SectionPos, c: ChunkCoord| !#[trigger] m.holds_chunk(pos, c),
    {
        SectionMarks { marks: Vec::new(), dirty: Vec::new(), stale: Vec::new() }
    }

    proof fn lemma_mark(self, i: int)
        requires
            self.wf(),
            0 <= i < self.marks@.len(),
        ensures
            has_mark(self.marks@, self.marks@[i].pos),
            mark_row(self.marks@, self.marks@[i].pos) == i,
    {
        let s = self.marks@;
        let k = mark_row(s, s[i].pos);
        assert(has_mark(s, s[i].pos));
        if k != i {
            assert(s[k].pos != s[i].pos);
        }
    }

    fn find(&self, pos: SectionPos) -> (r: Option<usize>)
        requires
            self.wf(),
        ensures
            match r {
                Some(i) => i < self.marks@.len() && self.marks@[i as int].pos == pos && has_mark(
                    self.marks@,
                    pos,
                ) && mark_row(self.marks@, pos) == i,
                None => !has_mark(self.marks@, pos),
            },
    {
        let mut i: usize = 0;
        while i < self.marks.len()
            invariant
                self.wf(),
                i <= self.marks@.len(),
                forall|k: int| 0 <= k < i ==> (#[trigger] self.marks@[k]).pos != pos,
            decreases self.marks@.len() - i,
        {
            if self.marks[i].pos == pos {
                proof {
                    self.lemma_mark(i as int);
                }
                return Some(i);
            }
            i = i + 1;
        }
        None
    }

    /// How often edits touched a section.
    pub fn rev(&self, pos: SectionPos) -> (n: u64)
        requires
            self.wf(),
        ensures
            n == self.rev_of(pos),
    {
        match self.find(pos) {
            Some(i) => self.marks[i].rev,
            None => 0,
        }
    }

    /// Forgets which sections are to be meshed again.
    pub fn clear_dirty(&mut self)
        requires
            old(self).wf(),
        ensures
            final(self).wf(),
            forall|p: SectionPos| !#[trigger] final(self).is_dirty(p),
            forall|p: SectionPos| #[trigger] final(self).is_stale(p) == old(self).is_stale(p),
            forall|p: SectionPos| #[trigger] final(self).rev_of(p) == old(self).rev_of(p),
            forall|p: SectionPos, d: ChunkCoord| #[trigger]
                final(self).holds_chunk(p, d) == old(self).holds_chunk(p, d),
    {
        self.dirty = Vec::new();
    }

    /// Marks a section for an edit in a chunk.
    pub fn mark(&mut self, pos: SectionPos, c: ChunkCoord)
        requires
            old(self).wf(),
            old(self).rev_of(pos) < u64::MAX,
        ensures
            final(self).wf(),
            forall|p: SectionPos| #[trigger]
                final(self).rev_of(p) == old(self).rev_of(p) + (if p == pos {
                    1int
                } else {
                    0int
                }),
            forall|p: SectionPos, d: ChunkCoord| #[trigger]
                final(self).holds_chunk(p, d) == (old(self).holds_chunk(p, d) || (p == pos && d
                    == c)),
            forall|p: SectionPos| #[trigger]
                final(self).is_dirty(p) == (old(self).is_dirty(p) || p == pos),
            forall|p: SectionPos| #[trigger]
                final(self).is_stale(p) == (old(self).is_stale(p) || p == pos),
    {
        note(&mut self.dirty, pos);
        note(&mut self.stale, pos);
        let ghost before = self.marks@;
        match self.find(pos) {
            Some(i) => {
                let listed: bool = holds(&self.marks[i].chunks, c);
                let rev: u64 = self.marks[i].rev;
                self.marks[i].rev = rev + 1;
                if !listed {
                    self.marks[i].chunks.push(c);
                }
                proof {
                    let after = self.marks@;
                    assert forall|k: int| 0 <= k < after.len() && k != i implies #[trigger] after[k]
                        == before[k] by {}
                    assert forall|a: int, b: int|
                        0 <= a < after.len() && 0 <= b < after.len() && a != b implies (
                    #[trigger] after[a]).pos != (#[trigger] after[b]).pos by {
                        assert(before[a].pos != before[b].pos);
                    }
                    assert(forall|d: ChunkCoord|
                        #![trigger after[i as int].chunks@.contains(d)]
                        after[i as int].chunks@.contains(d) == (before[i as int].chunks@.contains(
                            d,
                        ) || d == c)) by {
                        lemma_listed(before[i as int].chunks@, after[i as int].chunks@, c);
                    }
                    assert forall|p: SectionPos| has_mark(after, p) == has_mark(before, p) && (
                    has_mark(before, p) ==> mark_row(after, p) == mark_row(before, p)) by {
                        if has_mark(after, p) {
                            let k = mark_row(after, p);
                            self.lemma_mark(k);
                            assert(before[k].pos == p);
                        }
                        if has_mark(before, p) {
                            let k = mark_row(before, p);
                            assert(after[k].pos == p);
                            self.lemma_mark(k);
                        }
                    }
                }
            },
            None => {
                let mut chunks: Vec<ChunkCoord> = Vec::new();
                chunks.push(c);
                self.marks.push(SectionMark { pos, rev: 1, chunks });
                proof {
                    let after = self.marks@;
                    let n = before.len() as int;
                    assert forall|a: int, b: int|
                        0 <= a < after.len() && 0 <= b < after.len() && a != b implies (
                    #[trigger] after[a]).pos != (#[trigger] after[b]).pos by {
                        if a < n && b < n {
                            assert(before[a].pos != before[b].pos);
                        } else if a < n {
                            assert(before[a].pos != pos);
                        } else {
                            assert(before[b].pos != pos);
                        }
                    }
                    self.lemma_mark(n);
                    assert(chunks@[0] == c);
                    assert forall|d: ChunkCoord| chunks@.contains(d) == (d == c) by {}
                    assert forall|p: SectionPos| p != pos implies has_mark(after, p) == has_mark(
                        before,
                        p,
                    ) && (has_mark(before, p) ==> mark_row(after, p) == mark_row(before, p)) by {
                        if has_mark(after, p) {
                            let k = mark_row(after, p);
                            self.lemma_mark(k);
                            assert(before[k].pos == p);
                        }
                        if has_mark(before, p) {
                            let k = mark_row(before, p);
                            assert(after[k].pos == p);
                            self.lemma_mark(k);
                        }
                    }
                }
            },
        }
    }

    /// Marks, at each level, the section that covers an edited column. Sections cover
    /// heights from zero up to `domain_h`; an edit elsewhere touches none.
    pub fn mark_edit(
        &mut self,
        details: &Vec<Detail>,
        domain_h: i32,
        chunk: ChunkCoord,
        x: i32,
        y: i32,
        z: i32,
    ) -> (touched: bool)
        requires
            old(self).wf(),
            forall|i: int|
                0 <= i < details@.len() ==> 0 <= (#[trigger] details@[i]).0 && details@[i].0 <= 25,
            forall|p: SectionPos| #[trigger]
                old(self).rev_of(p) + details@.len() <= u64::MAX,
        ensures
            final(self).wf(),
            touched == (0 <= y < domain_h),
            forall|p: SectionPos| #[trigger]
                final(self).rev_of(p) == old(self).rev_of(p) + (if touched {
                    hits(details@, details@.len() as int, x as int, z as int, p)
                } else {
                    0
                }),
            forall|p: SectionPos, d: ChunkCoord| #[trigger]
                final(self).holds_chunk(p, d) == (old(self).holds_chunk(p, d) || (touched && d
                    == chunk && hits(details@, details@.len() as int, x as int, z as int, p) > 0)),
            forall|p: SectionPos| #[trigger]
                final(self).is_dirty(p) == (old(self).is_dirty(p) || (touched && hits(
                    details@,
                    details@.len() as int,
                    x as int,
                    z as int,
                    p,
                ) > 0)),
            forall|p: SectionPos| #[trigger]
                final(self).is_stale(p) == (old(self).is_stale(p) || (touched && hits(
                    details@,
                    details@.len() as int,
                    x as int,
                    z as int,
                    p,
                ) > 0)),
    {
        if y < 0 || y >= domain_h {
            return false;
        }
        let mut i: usize = 0;
        while i < details.len()
            invariant
                self.wf(),
                i <= details@.len(),
                forall|k: int|
                    0 <= k < details@.len() ==> 0 <= (#[trigger] details@[k]).0 && details@[k].0
                        <= 25,
                forall|p: SectionPos| #[trigger]
                    old(self).rev_of(p) + details@.len() <= u64::MAX,
                forall|p: SectionPos| #[trigger]
                    self.rev_of(p) == old(self).rev_of(p) + hits(
                        details@,
                        i as int,
                        x as int,
                        z as int,
                        p,
                    ),
                forall|p: SectionPos| 0 <= #[trigger] hits(details@, i as int, x as int, z as int, p) <= i,
                forall|p: SectionPos, d: ChunkCoord| #[trigger]
                    self.holds_chunk(p, d) == (old(self).holds_chunk(p, d) || (d == chunk && hits(
                        details@,
                        i as int,
                        x as int,
                        z as int,
                        p,
                    ) > 0)),
                forall|p: SectionPos| #[trigger]
                    self.is_dirty(p) == (old(self).is_dirty(p) || hits(
                        details@,
                        i as int,
                        x as int,
                        z as int,
                        p,
                    ) > 0),
                forall|p: SectionPos| #[trigger]
                    self.is_stale(p) == (old(self).is_stale(p) || hits(
                        details@,
                        i as int,
                        x as int,
                        z as int,
                        p,
                    ) > 0),
            decreases details@.len() - i,
        {
            let d = details[i];
            assert(details@[i as int] == d);
            let span: i32 = section_span(d);
            let pos = SectionPos { detail: d, x: floor_div(x, span), z: floor_div(z, span) };
            assert(pos == section_at(d, x as int, z as int));
            assert(self.rev_of(pos) == old(self).rev_of(pos) + hits(
                details@,
                i as int,
                x as int,
                z as int,
                pos,
            ));
            let ghost before = *self;
            self.mark(pos, chunk);
            proof {
                assert forall|p: SectionPos| hits(details@, i + 1, x as int, z as int, p) == hits(
                    details@,
                    i as int,
                    x as int,
                    z as int,
                    p,
                ) + (if p == pos {
                    1int
                } else {
                    0int
                }) by {}
                assert forall|p: SectionPos| #[trigger] self.rev_of(p) == old(self).rev_of(p)
                    + hits(details@, i + 1, x as int, z as int, p) by {
                    assert(before.rev_of(p) == old(self).rev_of(p) + hits(
                        details@,
                        i as int,
                        x as int,
                        z as int,
                        p,
                    ));
                }
                assert forall|p: SectionPos| 0 <= #[trigger] hits(
                    details@,
                    i + 1,
                    x as int,
                    z as int,
                    p,
                ) <= i + 1 by {
                    assert(0 <= hits(details@, i as int, x as int, z as int, p) <= i);
                }
                assert forall|p: SectionPos| #[trigger]
                    self.is_dirty(p) == (old(self).is_dirty(p) || hits(
                        details@,
                        i + 1,
                        x as int,
                        z as int,
                        p,
                    ) > 0) by {
                    assert(before.is_dirty(p) == (old(self).is_dirty(p) || hits(
                        details@,
                        i as int,
                        x as int,
                        z as int,
                        p,
                    ) > 0));
                    assert(0 <= hits(details@, i as int, x as int, z as int, p) <= i);
                }
                assert forall|p: SectionPos| #[trigger]
                    self.is_stale(p) == (old(self).is_stale(p) || hits(
                        details@,
                        i + 1,
                        x as int,
                        z as int,
                        p,
                    ) > 0) by {
                    assert(before.is_stale(p) == (old(self).is_stale(p) || hits(
                        details@,
                        i as int,
                        x as int,
                        z as int,
                        p,
                    ) > 0));
                    assert(0 <= hits(details@, i as int, x as int, z as int, p) <= i);
                }
                assert forall|p: SectionPos, e: ChunkCoord| #[trigger]
                    self.holds_chunk(p, e) == (old(self).holds_chunk(p, e) || (e == chunk && hits(
                        details@,
                        i + 1,
                        x as int,
                        z as int,
                        p,
                    ) > 0)) by {
                    assert(before.holds_chunk(p, e) == (old(self).holds_chunk(p, e) || (e == chunk
                        && hits(details@, i as int, x as int, z as int, p) > 0)));
                    assert(0 <= hits(details@, i as int, x as int, z as int, p) <= i);
                }
            }
            i = i + 1;
        }
        true
    }
}

proof fn lemma_listed(before: Seq<ChunkCoord>, after: Seq<ChunkCoord>, c: ChunkCoord)
    requires
        after == before && before.contains(c) || after == before.push(c),
    ensures
        forall|d: ChunkCoord| #[trigger] after.contains(d) == (before.contains(d) || d == c),
{
    if after == before.push(c) {
        assert(after[before.len() as int] == c);
        assert forall|d: ChunkCoord| #[trigger] after.contains(d) == (before.contains(d) || d == c) by {
            if before.contains(d) {
                let k = choose|k: int| 0 <= k < before.len() && before[k] == d;
                assert(after[k] == d);
            }
            if after.contains(d) && d != c {
                let k = choose|k: int| 0 <= k < after.len() && after[k] == d;
                assert(before[k] == d);
            }
        }
    }
}

/// Lists a section once.
fn note(list: &mut Vec<SectionPos>, pos: SectionPos)
    ensures
        forall|p: SectionPos| #[trigger]
            final(list)@.contains(p) == (old(list)@.contains(p) || p == pos),
{
    let ghost before = list@;
    let mut i: usize = 0;
    while i < list.len()
        invariant
            i <= list@.len(),
            list@ == before,
            forall|k: int| 0 <= k < i ==> #[trigger] list@[k] != pos,
        decreases list@.len() - i,
    {
        if list[i] == pos {
            assert(before[i as int] == pos);
            return;
        }
        i = i + 1;
    }
    list.push(pos);
    proof {
        let after = list@;
        assert(after[before.len() as int] == pos);
        assert forall|p: SectionPos| #[trigger] after.contains(p) == (before.contains(p) || p == pos) by {
            if before.contains(p) {
                let k = choose|k: int| 0 <= k < before.len() && before[k] == p;
                assert(after[k] == p);
            }
            if after.contains(p) && p != pos {
                let k = choose|k: int| 0 <= k < after.len() && after[k] == p;
                assert(before[k] == p);
            }
        }
    }
}

fn holds(s: &Vec<ChunkCoord>, c: ChunkCoord) -> (b: bool)
    ensures
        b == s@.contains(c),
{
    let mut i: usize = 0;
    while i < s.len()
        invariant
            i <= s@.len(),
            forall|k: int| 0 <= k < i ==> #[trigger] s@[k] != c,
        decreases s@.len() - i,
    {
        if s[i] == c {
            assert(s@[i as int] == c);
            return true;
        }
        i = i + 1;
    }
    false
}

/// A section holds the columns that it spans: a column lies at or past its section's near
/// edge and before its far one, thirty-two cells on, along both axes.
pub proof fn lemma_section_spans_its_columns(d: Detail, x: int, z: int)
    requires
        0 <= d.0 <= 25,
        i32::MIN <= x <= i32::MAX,
        i32::MIN <= z <= i32::MAX,
    ensures
        ({
            let (s, span) = (section_at(d, x, z), 32 * pow2(d.0 as nat) as int);
            &&& s.detail == d
            &&& s.x * span <= x < s.x * span + span
            &&& s.z * span <= z < s.z * span + span
        }),
{
    let span = section_span_spec(d);
    lemma_pow2_pos(d.0 as nat);
    lemma_in_span(x, span);
    lemma_in_span(z, span);
}

proof fn lemma_in_span(x: int, span: int)
    requires
        span >= 32,
        i32::MIN <= x <= i32::MAX,
    ensures
        (x / span) * span <= x < (x / span) * span + span,
        i32::MIN <= x / span <= i32::MAX,
{
    vstd::arithmetic::div_mod::lemma_fundamental_div_mod(x, span);
    let q = x / span;
    assert(span * q == q * span) by (nonlinear_arith);
    assert(i32::MIN <= q <= i32::MAX) by (nonlinear_arith)
        requires
            span >= 32,
            q * span <= x < q * span + span,
            i32::MIN <= x <= i32::MAX,
    ;
}

} // verus!
