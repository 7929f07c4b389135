//! Merging the equal faces of a slice into rectangles.
use vstd::prelude::*;

verus! {

/// An empty place of a slice.
pub const NO_FACE: u64 = 0xFFFF_FFFF_FFFF_FFFF;

/// Places of a slice: 16 x 16, u fastest.
pub const MASK_CAP: usize = 256;

/// A rectangle of equal faces in a slice.
#[derive(Clone, Copy, PartialEq, Eq, Debug, Structural)]
pub struct Rect {
    pub u0: usize,
    pub v0: usize,
    pub w: usize,
    pub h: usize,
    /// The sample that all its faces have.
    pub key: u64,
}

impl Rect {
    /// Whether the rectangle covers a place.
    pub open spec fn covers(self, i: int) -> bool {
        self.u0 <= i % 16 < self.u0 + self.w && self.v0 <= i / 16 < self.v0 + self.h
    }
}

/// What a place of a slice holds.
pub open spec fn mask_at(mask: Seq<u64>, u: int, v: int) -> u64 {
    mask[u + v * 16]
}

/// How many places of row `v`, from `u` on, hold `key` without a gap.
pub open spec fn row_run(mask: Seq<u64>, key: u64, v: int, u: int) -> nat
    decreases 16 - u,
{
    if 0 <= u < 16 && mask[u + v * 16] == key {
        1 + row_run(mask, key, v, u + 1)
    } else {
        0
    }
}

/// Whether `w` places of row `v`, from `u0` on, hold `key`.
pub open spec fn row_matches(mask: Seq<u64>, key: u64, v: int, u0: int, w: int) -> bool {
    forall|u: int| u0 <= u < u0 + w ==> #[trigger] mask_at(mask, u, v) == key
}

/// How many rows, from `v` on, match without a gap.
pub open spec fn rows_run(mask: Seq<u64>, key: u64, u0: int, w: int, v: int) -> nat
    decreases 16 - v,
{
    if 0 <= v < 16 && row_matches(mask, key, v, u0, w) {
        1 + rows_run(mask, key, u0, w, v + 1)
    } else {
        0
    }
}

/// The rectangle that grows from a place: as far along u as faces are equal, then
/// as far along v as whole rows are.
pub open spec fn grown(mask: Seq<u64>, i: int) -> Rect {
    let (u0, v0, key) = (i % 16, i / 16, mask[i]);
    let w = row_run(mask, key, v0, u0) as int;
    Rect {
        u0: u0 as usize,
        v0: v0 as usize,
        w: w as usize,
        h: rows_run(mask, key, u0, w, v0) as usize,
        key,
    }
}

/// The slice without the faces of a rectangle.
pub open spec fn cleared(mask: Seq<u64>, r: Rect) -> Seq<u64> {
    Seq::new(
        mask.len(),
        |i: int|
            if r.covers(i) {
                NO_FACE
            } else {
                mask[i]
            },
    )
}

/// The rectangles of a slice from place `i` on: at each place that still holds a face
/// one is grown, and its faces are taken out.
pub open spec fn rects(mask: Seq<u64>, i: int) -> Seq<Rect>
    decreases MASK_CAP - i,
{
    if i < 0 || i >= MASK_CAP {
        Seq::empty()
    } else if mask[i] == NO_FACE {
        rects(mask, i + 1)
    } else {
        seq![grown(mask, i)] + rects(cleared(mask, grown(mask, i)), i + 1)
    }
}

proof fn lemma_row_run(mask: Seq<u64>, key: u64, v: int, u: int)
    requires
        0 <= u <= 16,
    ensures
        u + row_run(mask, key, v, u) <= 16,
        row_matches(mask, key, v, u, row_run(mask, key, v, u) as int),
    decreases 16 - u,
{
    if u < 16 && mask[u + v * 16] == key {
        lemma_row_run(mask, key, v, u + 1);
        let w = row_run(mask, key, v, u + 1) as int;
        assert forall|k: int| u <= k < u + w + 1 implies #[trigger] mask_at(mask, k, v) == key by {}
    }
}

proof fn lemma_rows_run(mask: Seq<u64>, key: u64, u0: int, w: int, v: int)
    requires
        0 <= v <= 16,
    ensures
        v + rows_run(mask, key, u0, w, v) <= 16,
        forall|k: int|
            0 <= k < rows_run(mask, key, u0, w, v) ==> #[trigger] row_matches(
                mask,
                key,
                v + k,
                u0,
                w,
            ),
    decreases 16 - v,
{
    if v < 16 && row_matches(mask, key, v, u0, w) {
        lemma_rows_run(mask, key, u0, w, v + 1);
        assert forall|k: int| 0 <= k < rows_run(mask, key, u0, w, v) implies #[trigger] row_matches(
            mask,
            key,
            v + k,
            u0,
            w,
        ) by {
            if k > 0 {
                assert(row_matches(mask, key, (v + 1) + (k - 1), u0, w));
            }
        }
    }
}

/// A grown rectangle lies in the slice, covers its place, and holds one sample.
pub proof fn lemma_grown(mask: Seq<u64>, i: int)
    requires
        mask.len() == MASK_CAP,
        0 <= i < MASK_CAP,
    ensures
        ({
            let r = grown(mask, i);
            &&& r.w >= 1
            &&& r.h >= 1
            &&& r.u0 == i % 16
            &&& r.v0 == i / 16
            &&& r.u0 + r.w <= 16
            &&& r.v0 + r.h <= 16
            &&& r.covers(i)
            &&& forall|c: int| 0 <= c < MASK_CAP && #[trigger] r.covers(c) ==> mask[c] == mask[i]
        }),
{
    let (u0, v0, key) = (i % 16, i / 16, mask[i]);
    let w = row_run(mask, key, v0, u0) as int;
    lemma_row_run(mask, key, v0, u0);
    lemma_rows_run(mask, key, u0, w, v0);
    assert(mask_at(mask, u0, v0) == key);
    assert(row_matches(mask, key, v0, u0, w));
    let h = rows_run(mask, key, u0, w, v0);
    assert(h >= 1);
    let r = grown(mask, i);
    assert forall|c: int| 0 <= c < MASK_CAP && #[trigger] r.covers(c) implies mask[c]
        == mask[i] by {
        let (k, d) = (c % 16 - u0, c / 16 - v0);
        assert(row_matches(mask, key, v0 + d, u0, w));
        assert(mask_at(mask, u0 + k, v0 + d) == key);
        assert(c == (u0 + k) + (v0 + d) * 16);
    }
}

/// Merges the faces of a slice into rectangles.
pub fn merge(slice: Vec<u64>) -> (out: Vec<Rect>)
    requires
        slice@.len() == MASK_CAP,
    ensures
        out@ == rects(slice@, 0),
{
    let mut mask = slice;
    let mut out: Vec<Rect> = Vec::new();
    let mut i: usize = 0;
    assert(Seq::<Rect>::empty() + rects(mask@, 0) =~= rects(mask@, 0));
    while i < MASK_CAP
        invariant
            i <= MASK_CAP,
            mask@.len() == MASK_CAP,
            out@ + rects(mask@, i as int) == rects(slice@, 0),
        decreases MASK_CAP - i,
    {
        let key: u64 = mask[i];
        if key != NO_FACE {
            let u0: usize = i % 16;
            let v0: usize = i / 16;
            let w: usize = row_width(&mask, key, v0, u0);
            let h: usize = rows_height(&mask, key, u0, w, v0);
            let r = Rect { u0, v0, w, h, key };
            let ghost before = mask@;
            proof {
                lemma_grown(mask@, i as int);
                assert(r == grown(mask@, i as int));
            }
            clear(&mut mask, r);
            proof {
                assert(mask@ =~= cleared(before, r));
                assert(out@ + (seq![r] + rects(mask@, i + 1)) =~= out@.push(r) + rects(
                    mask@,
                    i + 1,
                ));
            }
            out.push(r);
        }
        i = i + 1;
    }
    assert(out@ + rects(mask@, i as int) =~= out@);
    out
}

fn row_width(mask: &Vec<u64>, key: u64, v: usize, u0: usize) -> (w: usize)
    requires
        mask@.len() == MASK_CAP,
        v < 16,
        u0 < 16,
    ensures
        w == row_run(mask@, key, v as int, u0 as int),
{
    let mut u: usize = u0;
    while u < 16 && mask[u + v * 16] == key
        invariant
            u0 <= u <= 16,
            v < 16,
            mask@.len() == MASK_CAP,
            row_run(mask@, key, v as int, u0 as int) == (u - u0) + row_run(
                mask@,
                key,
                v as int,
                u as int,
            ),
        decreases 16 - u,
    {
        u = u + 1;
    }
    u - u0
}

fn row_holds(mask: &Vec<u64>, key: u64, v: usize, u0: usize, w: usize) -> (b: bool)
    requires
        mask@.len() == MASK_CAP,
        v < 16,
        u0 + w <= 16,
    ensures
        b == row_matches(mask@, key, v as int, u0 as int, w as int),
{
    let mut k: usize = 0;
    while k < w
        invariant
            k <= w,
            mask@.len() == MASK_CAP,
            v < 16,
            u0 + w <= 16,
            forall|u: int| u0 <= u < u0 + k ==> #[trigger] mask_at(mask@, u, v as int) == key,
        decreases w - k,
    {
        if mask[u0 + k + v * 16] != key {
            assert(mask_at(mask@, u0 + k, v as int) != key);
            return false;
        }
        k = k + 1;
    }
    true
}

fn rows_height(mask: &Vec<u64>, key: u64, u0: usize, w: usize, v0: usize) -> (h: usize)
    requires
        mask@.len() == MASK_CAP,
        v0 < 16,
        u0 < 16,
        w == row_run(mask@, key, v0 as int, u0 as int),
    ensures
        h == rows_run(mask@, key, u0 as int, w as int, v0 as int),
{
    proof {
        lemma_row_run(mask@, key, v0 as int, u0 as int);
    }
    let mut v: usize = v0;
    while v < 16 && row_holds(mask, key, v, u0, w)
        invariant
            v0 <= v <= 16,
            u0 + w <= 16,
            mask@.len() == MASK_CAP,
            rows_run(mask@, key, u0 as int, w as int, v0 as int) == (v - v0) + rows_run(
                mask@,
                key,
                u0 as int,
                w as int,
                v as int,
            ),
        decreases 16 - v,
    {
        v = v + 1;
    }
    v - v0
}

fn clear(mask: &mut Vec<u64>, r: Rect)
    requires
        old(mask)@.len() == MASK_CAP,
        r.u0 + r.w <= 16,
        r.v0 + r.h <= 16,
    ensures
        final(mask)@ == cleared(old(mask)@, r),
{
    let ghost before = mask@;
    let mut i: usize = 0;
    while i < MASK_CAP
        invariant
            i <= MASK_CAP,
            mask@.len() == MASK_CAP,
            before.len() == MASK_CAP,
            r.u0 + r.w <= 16,
            r.v0 + r.h <= 16,
            forall|k: int|
                0 <= k < MASK_CAP ==> #[trigger] mask@[k] == if k < i && r.covers(k) {
                    NO_FACE
                } else {
                    before[k]
                },
        decreases MASK_CAP - i,
    {
        let (u, v): (usize, usize) = (i % 16, i / 16);
        if r.u0 <= u && u < r.u0 + r.w && r.v0 <= v && v < r.v0 + r.h {
            mask.set(i, NO_FACE);
        }
        i = i + 1;
    }
    assert(mask@ =~= cleared(before, r));
}

/// Whether rectangles cover a place as they should: a face by exactly one, which has
/// its sample, and an empty place by none.
pub open spec fn is_cover(rs: Seq<Rect>, mask: Seq<u64>, c: int) -> bool {
    &&& mask[c] != NO_FACE ==> exists|k: int| 0 <= k < rs.len() && (#[trigger] rs[k]).covers(c)
    &&& forall|k: int|
        0 <= k < rs.len() && (#[trigger] rs[k]).covers(c) ==> mask[c] != NO_FACE && rs[k].key
            == mask[c]
    &&& forall|k: int, m: int|
        0 <= k < rs.len() && 0 <= m < rs.len() && (#[trigger] rs[k]).covers(c) && (
        #[trigger] rs[m]).covers(c) ==> k == m
}

/// The rectangles of a slice cover its faces: every face is covered by exactly one
/// rectangle, which has its sample, and no empty place is covered.
pub proof fn lemma_rects_cover(mask: Seq<u64>, c: int)
    requires
        mask.len() == MASK_CAP,
        0 <= c < MASK_CAP,
    ensures
        is_cover(rects(mask, 0), mask, c),
{
    lemma_cover_from(mask, 0, c);
}

proof fn lemma_cover_from(mask: Seq<u64>, i: int, c: int)
    requires
        mask.len() == MASK_CAP,
        0 <= i <= MASK_CAP,
        0 <= c < MASK_CAP,
        forall|k: int| 0 <= k < i ==> #[trigger] mask[k] == NO_FACE,
    ensures
        is_cover(rects(mask, i), mask, c),
    decreases MASK_CAP - i,
{
    if i >= MASK_CAP {
        assert(mask[c] == NO_FACE);
    } else if mask[i] == NO_FACE {
        lemma_cover_from(mask, i + 1, c);
    } else {
        let r = grown(mask, i);
        let next = cleared(mask, r);
        lemma_grown(mask, i);
        assert forall|k: int| 0 <= k < i + 1 implies #[trigger] next[k] == NO_FACE by {
            if k < i {
                assert(mask[k] == NO_FACE);
            }
        }
        lemma_cover_from(next, i + 1, c);
        lemma_cover_more(mask, r, rects(next, i + 1), c);
    }
}

proof fn lemma_cover_more(mask: Seq<u64>, r: Rect, rest: Seq<Rect>, c: int)
    requires
        mask.len() == MASK_CAP,
        0 <= c < MASK_CAP,
        r.key != NO_FACE,
        r.covers(c) ==> mask[c] == r.key,
        is_cover(rest, cleared(mask, r), c),
    ensures
        is_cover(seq![r] + rest, mask, c),
{
    let all = seq![r] + rest;
    assert(all[0] == r);
    assert forall|k: int| 0 < k < all.len() implies #[trigger] all[k] == rest[k - 1] by {}
    if mask[c] != NO_FACE {
        if r.covers(c) {
            assert(all[0].covers(c));
        } else {
            let k = choose|k: int| 0 <= k < rest.len() && (#[trigger] rest[k]).covers(c);
            assert(all[k + 1].covers(c));
        }
    }
    assert forall|k: int| 0 <= k < all.len() && (#[trigger] all[k]).covers(c) implies mask[c]
        != NO_FACE && all[k].key == mask[c] by {
        if k > 0 {
            assert(rest[k - 1].covers(c));
        }
    }
    assert forall|k: int, m: int|
        0 <= k < all.len() && 0 <= m < all.len() && (#[trigger] all[k]).covers(c) && (
        #[trigger] all[m]).covers(c) implies k == m by {
        if k > 0 {
            assert(rest[k - 1].covers(c));
        }
        if m > 0 {
            assert(rest[m - 1].covers(c));
        }
    }
}

/// A slice without faces has no rectangles.
pub proof fn lemma_empty_slice(mask: Seq<u64>, i: int)
    requires
        0 <= i <= MASK_CAP,
        forall|k: int| i <= k < MASK_CAP ==> #[trigger] mask[k] == NO_FACE,
    ensures
        rects(mask, i) == Seq::<Rect>::empty(),
    decreases MASK_CAP - i,
{
    if i < MASK_CAP {
        assert(mask[i] == NO_FACE);
        lemma_empty_slice(mask, i + 1);
    }
}

} // verus!
