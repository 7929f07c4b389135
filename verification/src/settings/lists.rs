//! Choice lists: stepping through them and snapping values onto them.
use vstd::prelude::*;

verus! {

/// The value within `lo..=hi`.
pub open spec fn clamp_int(v: int, lo: int, hi: int) -> int {
    if v < lo {
        lo
    } else if v > hi {
        hi
    } else {
        v
    }
}

/// A step of `delta` within `lo..=hi`, wrapping at the ends.
pub open spec fn wrapped(cur: int, lo: int, hi: int, delta: int) -> int {
    let v = clamp_int(cur, lo, hi) + delta;
    if v > hi {
        lo
    } else if v < lo {
        hi
    } else {
        v
    }
}

/// Steps an integer within a range, wrapping at the ends.
pub fn wrap_clamp(cur: i32, lo: i32, hi: i32, delta: i32) -> (r: i32)
    requires
        lo <= hi,
    ensures
        r == wrapped(cur as int, lo as int, hi as int, delta as int),
{
    let c: i64 = if cur < lo {
        lo as i64
    } else if cur > hi {
        hi as i64
    } else {
        cur as i64
    };
    let v: i64 = c + delta as i64;
    if v > hi as i64 {
        lo
    } else if v < lo as i64 {
        hi
    } else {
        v as i32
    }
}

/// Whether `i` is the first place of `v` in `list`.
pub open spec fn first_at(list: Seq<i32>, v: i32, i: int) -> bool {
    &&& 0 <= i < list.len()
    &&& list[i] == v
    &&& forall|j: int| 0 <= j < i ==> #[trigger] list[j] != v
}

/// The entry `dir` places on from `current`, wrapping at the ends; the first
/// entry where `current` is not in the list.
pub open spec fn cycled(list: Seq<i32>, current: i32, dir: int) -> i32 {
    if list.contains(current) {
        let i = choose|i: int| first_at(list, current, i);
        list[(i + dir) % (list.len() as int)]
    } else {
        list[0]
    }
}

/// `a` modulo `n`, counted from zero.
pub fn floor_mod(a: i64, n: i64) -> (r: i64)
    requires
        n > 0,
        a > i64::MIN,
    ensures
        r == a as int % n as int,
        0 <= r < n,
{
    if a >= 0 {
        a % n
    } else {
        let m: i64 = (0 - a) % n;
        proof {
            let k: int = -(a as int);
            vstd::arithmetic::div_mod::lemma_fundamental_div_mod(k, n as int);
            let q = k / (n as int);
            if m == 0 {
                assert(a as int == (-q) * n + 0) by (nonlinear_arith)
                    requires
                        k == -(a as int),
                        k == (n as int) * q + m,
                        m == 0,
                ;
                vstd::arithmetic::div_mod::lemma_fundamental_div_mod_converse(
                    a as int,
                    n as int,
                    -q,
                    0,
                );
            } else {
                assert(a as int == (-q - 1) * n + (n - m)) by (nonlinear_arith)
                    requires
                        k == -(a as int),
                        k == (n as int) * q + m,
                ;
                vstd::arithmetic::div_mod::lemma_fundamental_div_mod_converse(
                    a as int,
                    n as int,
                    -q - 1,
                    n - m,
                );
            }
        }
        if m == 0 {
            0
        } else {
            n - m
        }
    }
}

/// Steps to an adjacent entry of a list, wrapping at the ends. A value that is
/// not in the list goes to the first entry.
pub fn cycle_list(list: &[i32], current: i32, dir: i32) -> (r: i32)
    requires
        0 < list@.len() < 0x1000_0000,
    ensures
        r == cycled(list@, current, dir as int),
{
    let n: usize = list.len();
    let mut i: usize = 0;
    while i < n
        invariant
            i <= n,
            n == list@.len(),
            0 < n < 0x1000_0000,
            forall|j: int| 0 <= j < i ==> #[trigger] list@[j] != current,
        decreases n - i,
    {
        if list[i] == current {
            proof {
                assert(list@.contains(current));
                assert(first_at(list@, current, i as int));
                let k = choose|k: int| first_at(list@, current, k);
                if k < i {
                    assert(list@[k] != current);
                } else if i < k {
                    assert(list@[i as int] != current);
                }
            }
            let at: i64 = floor_mod(i as i64 + dir as i64, n as i64);
            return list[at as usize];
        }
        i = i + 1;
    }
    list[0]
}

/// The last entry of `list` that is at most `v`, and positive where `positive`.
pub open spec fn last_at_most(list: Seq<i32>, v: int, positive: bool) -> Option<i32>
    decreases list.len(),
{
    if list.len() == 0 {
        None
    } else if list.last() <= v && (positive ==> list.last() > 0) {
        Some(list.last())
    } else {
        last_at_most(list.drop_last(), v, positive)
    }
}

/// The first positive entry of `list`.
pub open spec fn first_positive(list: Seq<i32>) -> Option<i32>
    decreases list.len(),
{
    if list.len() == 0 {
        None
    } else if list[0] > 0 {
        Some(list[0])
    } else {
        first_positive(list.skip(1))
    }
}

/// The last entry that is at most `v`, else the first entry.
pub open spec fn snapped_down(list: Seq<i32>, v: int) -> i32 {
    match last_at_most(list, v, false) {
        Some(e) => e,
        None => list[0],
    }
}

/// A rate on the list: zero stays zero, and a positive rate becomes the last
/// positive entry that is at most `v`, else the first positive entry.
pub open spec fn snapped_rate(list: Seq<i32>, v: int) -> i32 {
    if v == 0 {
        0
    } else {
        match last_at_most(list, v, true) {
            Some(e) => e,
            None => match first_positive(list) {
                Some(e) => e,
                None => 0,
            },
        }
    }
}

fn find_at_most(list: &[i32], v: i32, positive: bool) -> (r: Option<i32>)
    ensures
        r == last_at_most(list@, v as int, positive),
{
    let mut i: usize = list.len();
    assert(list@.take(i as int) =~= list@);
    while i > 0
        invariant
            i <= list@.len(),
            last_at_most(list@, v as int, positive) == last_at_most(
                list@.take(i as int),
                v as int,
                positive,
            ),
        decreases i,
    {
        let e: i32 = list[i - 1];
        assert(list@.take(i as int).drop_last() =~= list@.take(i - 1));
        if e <= v && (!positive || e > 0) {
            return Some(e);
        }
        i = i - 1;
    }
    None
}

/// Snaps to the last entry that is at most `v`, or to the first entry.
pub fn snap_down(list: &[i32], v: i32) -> (r: i32)
    requires
        list@.len() > 0,
    ensures
        r == snapped_down(list@, v as int),
{
    match find_at_most(list, v, false) {
        Some(e) => e,
        None => list[0],
    }
}

/// Snaps a rate onto the list. Zero means every frame and stays; a positive
/// rate never becomes zero.
pub fn snap_rate(list: &[i32], v: i32) -> (r: i32)
    ensures
        r == snapped_rate(list@, v as int),
{
    if v == 0 {
        return 0;
    }
    match find_at_most(list, v, true) {
        Some(e) => {
            return e;
        },
        None => {},
    }
    let mut i: usize = 0;
    assert(list@.skip(0) =~= list@);
    while i < list.len()
        invariant
            i <= list@.len(),
            first_positive(list@) == first_positive(list@.skip(i as int)),
            v != 0,
            last_at_most(list@, v as int, true) is None,
        decreases list@.len() - i,
    {
        assert(list@.skip(i as int)[0] == list@[i as int]);
        assert(list@.skip(i as int).skip(1) =~= list@.skip(i + 1));
        if list[i] > 0 {
            return list[i];
        }
        i = i + 1;
    }
    0
}

proof fn lemma_at_most_found(list: Seq<i32>, v: int)
    ensures
        match last_at_most(list, v, true) {
            Some(e) => 0 < e <= v && list.contains(e),
            None => true,
        },
    decreases list.len(),
{
    if list.len() > 0 {
        lemma_at_most_found(list.drop_last(), v);
        if list.last() <= v && list.last() > 0 {
            assert(list[list.len() - 1] == list.last());
        } else if last_at_most(list, v, true) is Some {
            let e = last_at_most(list, v, true)->0;
            let k = choose|k: int|
                0 <= k < list.drop_last().len() && list.drop_last()[k] == e;
            assert(list[k] == e);
        }
    }
}

proof fn lemma_first_positive_found(list: Seq<i32>)
    ensures
        match first_positive(list) {
            Some(e) => e > 0,
            None => forall|i: int| 0 <= i < list.len() ==> #[trigger] list[i] <= 0,
        },
    decreases list.len(),
{
    if list.len() > 0 && list[0] <= 0 {
        lemma_first_positive_found(list.skip(1));
        if first_positive(list) is None {
            assert forall|i: int| 0 <= i < list.len() implies #[trigger] list[i] <= 0 by {
                if i > 0 {
                    assert(list.skip(1)[i - 1] <= 0);
                }
            }
        }
    }
}

/// A positive rate never snaps to every frame, and never up past the lowest
/// positive rate on the list.
pub proof fn lemma_positive_rate_stays_positive(list: Seq<i32>, v: int)
    requires
        v > 0,
        exists|i: int| 0 <= i < list.len() && #[trigger] list[i] > 0,
    ensures
        snapped_rate(list, v) > 0,
        snapped_rate(list, v) <= v || Some(snapped_rate(list, v)) == first_positive(list),
{
    lemma_at_most_found(list, v);
    lemma_first_positive_found(list);
}

proof fn lemma_last_at_most(list: Seq<i32>, v: int, positive: bool, i: int)
    requires
        forall|a: int, b: int| 0 <= a < b < list.len() ==> #[trigger] list[a] < #[trigger] list[b],
    ensures
        match last_at_most(list, v, positive) {
            Some(e) => list.contains(e) && e <= v && (positive ==> e > 0) && (0 <= i < list.len()
                && list[i] <= v && (positive ==> list[i] > 0) ==> list[i] <= e),
            None => !(0 <= i < list.len() && list[i] <= v && (positive ==> list[i] > 0)),
        },
    decreases list.len(),
{
    if list.len() > 0 {
        let rest = list.drop_last();
        let top = list.last();
        assert(list[list.len() - 1] == top);
        if top <= v && (positive ==> top > 0) {
            if 0 <= i < list.len() - 1 {
                assert(list[i] < list[list.len() - 1]);
            }
        } else {
            assert forall|a: int, b: int| 0 <= a < b < rest.len() implies #[trigger] rest[a]
                < #[trigger] rest[b] by {
                assert(list[a] < list[b]);
            }
            lemma_last_at_most(rest, v, positive, i);
            if let Some(e) = last_at_most(rest, v, positive) {
                let k = choose|k: int| 0 <= k < rest.len() && rest[k] == e;
                assert(list[k] == e);
            }
            if 0 <= i < rest.len() {
                assert(rest[i] == list[i]);
            }
        }
    }
}

/// Snapping down gives an entry of the list: the greatest that is not over the value, and the
/// least of all where every entry is over it.
pub proof fn lemma_snap_down_is_nearest_below(list: Seq<i32>, v: int, i: int)
    requires
        list.len() > 0,
        forall|a: int, b: int| 0 <= a < b < list.len() ==> #[trigger] list[a] < #[trigger] list[b],
        0 <= i < list.len(),
    ensures
        list.contains(snapped_down(list, v)),
        list[i] <= v ==> list[i] <= snapped_down(list, v) <= v,
        v < list[0] ==> snapped_down(list, v) == list[0],
{
    lemma_last_at_most(list, v, false, i);
    lemma_last_at_most(list, v, false, 0);
    if v < list[0] {
        if let Some(e) = last_at_most(list, v, false) {
            let k = choose|k: int| 0 <= k < list.len() && list[k] == e;
            if k > 0 {
                assert(list[0] < list[k]);
            }
        }
    } else {
        assert(list[0] <= v);
    }
    if last_at_most(list, v, false) is None {
        assert(list[0] == snapped_down(list, v));
    }
}

proof fn lemma_first_positive_least(list: Seq<i32>, i: int)
    requires
        forall|a: int, b: int| 0 <= a < b < list.len() ==> #[trigger] list[a] < #[trigger] list[b],
    ensures
        match first_positive(list) {
            Some(e) => e > 0 && list.contains(e) && (0 <= i < list.len() && list[i] > 0 ==> e
                <= list[i]),
            None => !(0 <= i < list.len() && list[i] > 0),
        },
    decreases list.len(),
{
    if list.len() > 0 {
        if list[0] > 0 {
            if 0 < i < list.len() {
                assert(list[0] < list[i]);
            }
        } else {
            let rest = list.skip(1);
            assert forall|a: int, b: int| 0 <= a < b < rest.len() implies #[trigger] rest[a]
                < #[trigger] rest[b] by {
                assert(list[a + 1] < list[b + 1]);
            }
            lemma_first_positive_least(rest, i - 1);
            if let Some(e) = first_positive(rest) {
                let k = choose|k: int| 0 <= k < rest.len() && rest[k] == e;
                assert(list[k + 1] == e);
            }
            if 0 < i < list.len() {
                assert(rest[i - 1] == list[i]);
            }
        }
    }
}

/// Rates snap to an entry: zero stays zero, and another rate goes to the greatest positive
/// entry that is not over it, or to the least positive one where all are over it.
pub proof fn lemma_rates_snap_to_entries(list: Seq<i32>, v: int, i: int)
    requires
        forall|a: int, b: int| 0 <= a < b < list.len() ==> #[trigger] list[a] < #[trigger] list[b],
        0 <= i < list.len(),
        list[i] > 0,
        v >= 0,
    ensures
        v == 0 ==> snapped_rate(list, v) == 0,
        v > 0 ==> list.contains(snapped_rate(list, v)) && snapped_rate(list, v) > 0,
        v > 0 && list[i] <= v ==> list[i] <= snapped_rate(list, v) <= v,
        v > 0 && snapped_rate(list, v) > v ==> snapped_rate(list, v) <= list[i],
{
    lemma_last_at_most(list, v, true, i);
    lemma_first_positive_least(list, i);
}

/// Cycling walks along the list and around its end: the next of an entry is the one after
/// it, or the first after the last; a step back undoes a step on; and a value that is not in
/// the list goes to the first entry.
pub proof fn lemma_cycling_walks_around(list: Seq<i32>, i: int)
    requires
        list.no_duplicates(),
        0 <= i < list.len(),
    ensures
        i + 1 < list.len() ==> cycled(list, list[i], 1) == list[i + 1],
        cycled(list, list.last(), 1) == list[0],
        i > 0 ==> cycled(list, list[i], -1) == list[i - 1],
        cycled(list, list[0], -1) == list.last(),
        cycled(list, cycled(list, list[i], 1), -1) == list[i],
        cycled(list, list[i], 0) == list[i],
{
    let n = list.len() as int;
    lemma_cycled_from(list, i);
    lemma_cycled_from(list, 0);
    lemma_cycled_from(list, n - 1);
    if i + 1 < n {
        lemma_cycled_from(list, i + 1);
        assert((i + 1) % n == i + 1) by (nonlinear_arith)
            requires
                0 <= i + 1 < n,
        ;
    }
    assert(i % n == i) by (nonlinear_arith)
        requires
            0 <= i < n,
    ;
    assert(n % n == 0) by (nonlinear_arith)
        requires
            n > 0,
    ;
    assert((-1int) % n == n - 1) by (nonlinear_arith)
        requires
            n > 0,
    ;
    if i > 0 {
        assert((i - 1) % n == i - 1) by (nonlinear_arith)
            requires
                0 <= i - 1 < n,
        ;
    }
}

proof fn lemma_cycled_from(list: Seq<i32>, i: int)
    requires
        list.no_duplicates(),
        0 <= i < list.len(),
    ensures
        forall|dir: int| #[trigger]
            cycled(list, list[i], dir) == list[(i + dir) % (list.len() as int)],
{
    assert(list.contains(list[i]));
    assert(first_at(list, list[i], i));
    let k = choose|k: int| first_at(list, list[i], k);
    assert(list[k] == list[i]);
    assert(k == i);
}

/// A value not in the list cycles to the first entry.
pub proof fn lemma_unknown_cycles_to_first(list: Seq<i32>, v: i32, dir: int)
    requires
        forall|i: int| 0 <= i < list.len() ==> #[trigger] list[i] != v,
    ensures
        cycled(list, v, dir) == list[0],
{
}

/// Wrapping steps stay in range, go from each end to the other, and a step back undoes a
/// step on.
pub proof fn lemma_wrapping_walks_around(cur: int, lo: int, hi: int)
    requires
        lo <= cur <= hi,
    ensures
        cur < hi ==> wrapped(cur, lo, hi, 1) == cur + 1,
        wrapped(hi, lo, hi, 1) == lo,
        cur > lo ==> wrapped(cur, lo, hi, -1) == cur - 1,
        wrapped(lo, lo, hi, -1) == hi,
        wrapped(wrapped(cur, lo, hi, 1), lo, hi, -1) == cur,
{
}

/// Clamping keeps what is in range and gives the nearer end otherwise.
pub proof fn lemma_clamp_int(v: int, lo: int, hi: int)
    requires
        lo <= hi,
    ensures
        lo <= clamp_int(v, lo, hi) <= hi,
        lo <= v <= hi ==> clamp_int(v, lo, hi) == v,
        v < lo ==> clamp_int(v, lo, hi) == lo,
        v > hi ==> clamp_int(v, lo, hi) == hi,
{
}

} // verus!
