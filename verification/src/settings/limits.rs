//! Valid ranges, and bringing settings into them.
use vstd::prelude::*;

use crate::settings::lists::{
    clamp_int, first_positive, last_at_most, lemma_snap_down_is_nearest_below, snap_down, snap_rate, snapped_down, snapped_rate,
};
use crate::settings::real32::{lemma_clamp_is_stable, Real32};
use crate::settings::state::{fits, Settings, Value};
use crate::settings::table::{lemma_index_at, Setting, ValueKind, SETTING_COUNT};

verus! {

/// Horizontal view radius in chunks, at most.
pub const VIEW_RADIUS_MAX: i64 = 20;

/// Vertical view radius in chunks, at least and at most.
pub const VERTICAL_RADIUS_MIN: i64 = 1;

pub const VERTICAL_RADIUS_MAX: i64 = 10;

/// Distant-terrain levels, at least and at most.
pub const LOD_LEVELS_MIN: i64 = 1;

pub const LOD_LEVELS_MAX: i64 = 8;

/// Distant-terrain detail, at least and at most.
pub const LOD_DETAIL_MIN: i64 = 2;

pub const LOD_DETAIL_MAX: i64 = 6;

/// The coarsest detail that a distant level may reach.
pub const LOD_COARSEST: i64 = 9;

/// MSAA sample counts on offer.
pub const MSAA: [i32; 4] = [1, 2, 4, 8];

/// Update rates on offer; zero is every frame.
pub const UPDATE_RATES: [i32; 6] = [0, 15, 30, 60, 120, 240];

/// Physics rates on offer; zero is every frame.
pub const PHYSICS_RATES: [i32; 7] = [0, 30, 60, 120, 240, 500, 1000];

/// Levels allowed at a detail: the coarsest level stays within the ladder.
pub open spec fn max_lod_levels_spec(detail: int) -> int {
    clamp_int(LOD_COARSEST + 1 - detail, LOD_LEVELS_MIN as int, LOD_LEVELS_MAX as int)
}

/// Levels allowed at a detail.
pub fn max_lod_levels(detail: i64) -> (n: i64)
    requires
        0 <= detail <= u8::MAX,
    ensures
        n == max_lod_levels_spec(detail as int),
{
    clamp_i64(LOD_COARSEST + 1 - detail, LOD_LEVELS_MIN, LOD_LEVELS_MAX)
}

/// The number that a setting holds.
pub open spec fn number_of(vals: Seq<Value>, t: Setting) -> int {
    match vals[t.index_spec() as int] {
        Value::Number(n) => n as int,
        _ => 0,
    }
}

/// The real number that a setting holds.
pub open spec fn real_of(vals: Seq<Value>, t: Setting) -> Real32 {
    match vals[t.index_spec() as int] {
        Value::Real(x) => x,
        _ => Real32 { bits: 0 },
    }
}

/// A number as the signed word that lists are searched with; huge ones count as the
/// largest.
pub open spec fn capped(n: int) -> int {
    if n > i32::MAX {
        i32::MAX as int
    } else {
        n
    }
}

/// An MSAA count that the list offers and the device takes.
pub open spec fn clamped_msaa(n: int, device_max: int) -> int {
    let m = snapped_down(MSAA@, capped(n)) as int;
    if m > device_max {
        snapped_down(MSAA@, capped(device_max)) as int
    } else {
        m
    }
}

/// A rate on the list; huge values count as the largest signed word.
pub open spec fn clamped_rate(rates: Seq<i32>, n: int) -> int {
    snapped_rate(rates, capped(n)) as int
}

/// A frame cap within 10 to 1000; zero is no cap.
pub open spec fn clamped_fps(n: int) -> int {
    if n == 0 {
        0
    } else {
        clamp_int(n, 10, 1000)
    }
}

/// The range and default of a real setting.
pub open spec fn real_range(t: Setting) -> (Real32, Real32, Real32) {
    match t {
        Setting::Fov => (
            Real32 { bits: 0x4270_0000 },
            Real32 { bits: 0x435C_0000 },
            Real32 { bits: 0x42B4_0000 },
        ),
        Setting::RenderScale => (
            Real32 { bits: 0x3E80_0000 },
            Real32 { bits: 0x4000_0000 },
            Real32 { bits: 0x3F80_0000 },
        ),
        Setting::Shake => (
            Real32 { bits: 0 },
            Real32 { bits: 0x3F80_0000 },
            Real32 { bits: 0x3F80_0000 },
        ),
        _ => (
            Real32 { bits: 0x3F00_0000 },
            Real32 { bits: 0x4000_0000 },
            Real32 { bits: 0x3F80_0000 },
        ),
    }
}

/// The lower end, upper end and default of a real setting: 60 to 220 and 90 for
/// the field of view, 0.25 to 2 and 1 for the render scale, 0 to 1 and 1 for
/// camera shake, 0.5 to 2 and 1 for the interface scales.
pub fn range_of(t: Setting) -> (r: (Real32, Real32, Real32))
    ensures
        r == real_range(t),
{
    match t {
        Setting::Fov => (
            Real32 { bits: 0x4270_0000 },
            Real32 { bits: 0x435C_0000 },
            Real32 { bits: 0x42B4_0000 },
        ),
        Setting::RenderScale => (
            Real32 { bits: 0x3E80_0000 },
            Real32 { bits: 0x4000_0000 },
            Real32 { bits: 0x3F80_0000 },
        ),
        Setting::Shake => (
            Real32 { bits: 0 },
            Real32 { bits: 0x3F80_0000 },
            Real32 { bits: 0x3F80_0000 },
        ),
        _ => (
            Real32 { bits: 0x3F00_0000 },
            Real32 { bits: 0x4000_0000 },
            Real32 { bits: 0x3F80_0000 },
        ),
    }
}

/// The valid value nearest to what setting `t` holds, on a device with the
/// given MSAA ceiling.
pub open spec fn clamped_value_spec(vals: Seq<Value>, device_max: int, t: Setting) -> Value {
    let n = number_of(vals, t);
    match t {
        Setting::VerticalDistance => Value::Number(
            clamp_int(n, VERTICAL_RADIUS_MIN as int, VERTICAL_RADIUS_MAX as int) as i64,
        ),
        Setting::LodDetail => Value::Number(
            clamp_int(n, LOD_DETAIL_MIN as int, LOD_DETAIL_MAX as int) as i64,
        ),
        Setting::LodLevels => Value::Number(
            clamp_int(
                n,
                LOD_LEVELS_MIN as int,
                max_lod_levels_spec(
                    clamp_int(
                        number_of(vals, Setting::LodDetail),
                        LOD_DETAIL_MIN as int,
                        LOD_DETAIL_MAX as int,
                    ),
                ),
            ) as i64,
        ),
        Setting::StreamHz => Value::Number(clamped_rate(UPDATE_RATES@, n) as i64),
        Setting::SkyHz => Value::Number(clamped_rate(UPDATE_RATES@, n) as i64),
        Setting::ModHz => Value::Number(clamped_rate(UPDATE_RATES@, n) as i64),
        Setting::PhysicsHz => Value::Number(clamped_rate(PHYSICS_RATES@, n) as i64),
        Setting::Msaa => Value::Number(clamped_msaa(n, device_max) as i64),
        Setting::MaxFps => Value::Number(clamped_fps(n) as i64),
        Setting::RenderDistance => Value::Number(clamp_int(n, 0, VIEW_RADIUS_MAX as int) as i64),
        Setting::MasterVolume => Value::Number(clamp_int(n, 0, 100) as i64),
        Setting::EffectsVolume => Value::Number(clamp_int(n, 0, 100) as i64),
        Setting::VoiceVolume => Value::Number(clamp_int(n, 0, 100) as i64),
        Setting::Fov | Setting::RenderScale | Setting::UiScale | Setting::MenuScale
        | Setting::Shake => {
            let (lo, hi, default) = real_range(t);
            Value::Real(real_of(vals, t).clamped(lo, hi, default))
        },
        _ => vals[t.index_spec() as int],
    }
}

/// All values brought into their ranges.
pub open spec fn clamped_all(vals: Seq<Value>, device_max: int) -> Seq<Value> {
    Seq::new(
        SETTING_COUNT as nat,
        |i: int| clamped_value_spec(vals, device_max, Setting::at_spec(i)),
    )
}

pub fn clamp_i64(v: i64, lo: i64, hi: i64) -> (r: i64)
    ensures
        r == clamp_int(v as int, lo as int, hi as int),
{
    if v < lo {
        lo
    } else if v > hi {
        hi
    } else {
        v
    }
}

fn rate_on(rates: &[i32], n: i64) -> (r: i64)
    requires
        0 <= n <= u32::MAX,
        forall|i: int| 0 <= i < rates@.len() ==> 0 <= #[trigger] rates@[i],
    ensures
        r == clamped_rate(rates@, n as int),
        0 <= r <= i32::MAX,
{
    let v: i32 = if n > 0x7FFF_FFFF {
        0x7FFF_FFFF
    } else {
        n as i32
    };
    let r: i32 = snap_rate(rates, v);
    proof {
        lemma_rate_nonneg(rates@, v as int);
    }
    r as i64
}

proof fn lemma_rate_nonneg(rates: Seq<i32>, v: int)
    requires
        forall|i: int| 0 <= i < rates.len() ==> 0 <= #[trigger] rates[i],
    ensures
        0 <= snapped_rate(rates, v),
{
    lemma_last_nonneg(rates, v);
    lemma_first_nonneg(rates);
}

proof fn lemma_last_nonneg(rates: Seq<i32>, v: int)
    ensures
        last_at_most(rates, v, true) matches Some(e) ==> e > 0,
    decreases rates.len(),
{
    if rates.len() > 0 {
        lemma_last_nonneg(rates.drop_last(), v);
    }
}

proof fn lemma_first_nonneg(rates: Seq<i32>)
    ensures
        first_positive(rates) matches Some(e) ==> e > 0,
    decreases rates.len(),
{
    if rates.len() > 0 {
        lemma_first_nonneg(rates.skip(1));
    }
}

/// A number as the signed word that lists are searched with.
pub fn capped_word(n: i64) -> (v: i32)
    requires
        0 <= n <= u32::MAX,
    ensures
        v == capped(n as int),
{
    if n > 0x7FFF_FFFF {
        0x7FFF_FFFF
    } else {
        n as i32
    }
}

proof fn lemma_msaa_entry(v: int)
    ensures
        1 <= snapped_down(MSAA@, v) <= 8,
{
    reveal_with_fuel(last_at_most, 5);
    let m = MSAA@;
    assert(m.len() == 4 && m[0] == 1 && m[1] == 2 && m[2] == 4 && m[3] == 8);
    assert(m.drop_last() =~= seq![1i32, 2, 4]);
    assert(m.drop_last().drop_last() =~= seq![1i32, 2]);
    assert(m.drop_last().drop_last().drop_last() =~= seq![1i32]);
}

impl Settings {
    /// The valid value nearest to what setting `t` holds.
    pub fn clamped_value(&self, t: Setting) -> (v: Value)
        requires
            self.wf(),
        ensures
            v == clamped_value_spec(self@, self.session_spec().device_max_msaa as int, t),
            fits(t.kind_spec(), v),
    {
        match t {
            Setting::VerticalDistance => Value::Number(
                clamp_i64(self.number(t), VERTICAL_RADIUS_MIN, VERTICAL_RADIUS_MAX),
            ),
            Setting::LodDetail => Value::Number(
                clamp_i64(self.number(t), LOD_DETAIL_MIN, LOD_DETAIL_MAX),
            ),
            Setting::LodLevels => {
                let detail: i64 = clamp_i64(
                    self.number(Setting::LodDetail),
                    LOD_DETAIL_MIN,
                    LOD_DETAIL_MAX,
                );
                Value::Number(
                    clamp_i64(self.number(t), LOD_LEVELS_MIN, max_lod_levels(detail)),
                )
            },
            Setting::StreamHz => Value::Number(rate_on(&UPDATE_RATES, self.number(t))),
            Setting::SkyHz => Value::Number(rate_on(&UPDATE_RATES, self.number(t))),
            Setting::ModHz => Value::Number(rate_on(&UPDATE_RATES, self.number(t))),
            Setting::PhysicsHz => Value::Number(rate_on(&PHYSICS_RATES, self.number(t))),
            Setting::Msaa => {
                let device: i64 = self.device_max_msaa() as i64;
                let n: i64 = self.number(t);
                proof {
                    lemma_msaa_entry(capped(n as int));
                    lemma_msaa_entry(capped(device as int));
                }
                let m: i64 = snap_down(&MSAA, capped_word(n)) as i64;
                if m > device {
                    Value::Number(snap_down(&MSAA, capped_word(device)) as i64)
                } else {
                    Value::Number(m)
                }
            },
            Setting::MaxFps => {
                let n: i64 = self.number(t);
                if n == 0 {
                    Value::Number(0)
                } else {
                    Value::Number(clamp_i64(n, 10, 1000))
                }
            },
            Setting::RenderDistance => Value::Number(clamp_i64(self.number(t), 0, VIEW_RADIUS_MAX)),
            Setting::MasterVolume => Value::Number(clamp_i64(self.number(t), 0, 100)),
            Setting::EffectsVolume => Value::Number(clamp_i64(self.number(t), 0, 100)),
            Setting::VoiceVolume => Value::Number(clamp_i64(self.number(t), 0, 100)),
            Setting::Fov | Setting::RenderScale | Setting::UiScale | Setting::MenuScale
            | Setting::Shake => {
                let (lo, hi, default) = range_of(t);
                Value::Real(self.real32(t).clamp(lo, hi, default))
            },
            _ => self.value(t),
        }
    }

    /// Brings every setting into its valid range.
    pub fn clamp(&mut self)
        requires
            old(self).wf(),
        ensures
            final(self).wf(),
            final(self).session_spec() == old(self).session_spec(),
            final(self)@ == clamped_all(
                old(self)@,
                old(self).session_spec().device_max_msaa as int,
            ),
    {
        let ghost vals = self@;
        let ghost device = self.session_spec().device_max_msaa as int;
        let mut i: usize = 0;
        while i < SETTING_COUNT
            invariant
                i <= SETTING_COUNT,
                self.wf(),
                vals.len() == SETTING_COUNT,
                self.session_spec() == old(self).session_spec(),
                device == self.session_spec().device_max_msaa,
                forall|j: int|
                    0 <= j < SETTING_COUNT ==> #[trigger] self@[j] == (if j < i {
                        clamped_value_spec(vals, device, Setting::at_spec(j))
                    } else {
                        vals[j]
                    }),
            decreases SETTING_COUNT - i,
        {
            let t = Setting::at(i);
            let v = self.clamped_value(t);
            proof {
                assert(self@[i as int] == vals[i as int]);
                if t == Setting::LodLevels {
                    assert(self@[3] == vals[3]);
                }
                assert(v == clamped_value_spec(vals, device, t));
            }
            self.put(t, v);
            i = i + 1;
        }
        assert(self@ =~= clamped_all(vals, device));
    }
}

pub proof fn lemma_entry_found(list: Seq<i32>, e: i32, positive: bool)
    requires
        forall|i: int, j: int| 0 <= i < j < list.len() ==> #[trigger] list[i] < #[trigger] list[j],
        list.contains(e),
        positive ==> e > 0,
    ensures
        last_at_most(list, e as int, positive) == Some(e),
    decreases list.len(),
{
    let k = choose|k: int| 0 <= k < list.len() && list[k] == e;
    if k < list.len() - 1 {
        assert(list[k] < list[list.len() - 1]);
        assert(list.drop_last()[k] == e);
        assert(list.drop_last().contains(e));
        lemma_entry_found(list.drop_last(), e, positive);
    }
}

proof fn lemma_snap_lands(list: Seq<i32>, v: int, positive: bool)
    ensures
        last_at_most(list, v, positive) matches Some(e) ==> list.contains(e) && (positive ==> e > 0),
        first_positive(list) matches Some(e) ==> list.contains(e) && e > 0,
    decreases list.len(),
{
    if list.len() > 0 {
        lemma_snap_lands(list.drop_last(), v, positive);
        lemma_snap_lands(list.skip(1), v, positive);
        assert(list[list.len() - 1] == list.last());
        match last_at_most(list.drop_last(), v, positive) {
            Some(e) => {
                let k = choose|k: int|
                    0 <= k < list.drop_last().len() && list.drop_last()[k] == e;
                assert(list[k] == e);
            },
            None => {},
        }
        match first_positive(list.skip(1)) {
            Some(e) => {
                let k = choose|k: int| 0 <= k < list.skip(1).len() && list.skip(1)[k] == e;
                assert(list[k + 1] == e);
            },
            None => {},
        }
        assert(list.contains(list[0]));
    }
}

proof fn lemma_rate_stable(rates: Seq<i32>, n: int)
    requires
        forall|i: int, j: int|
            0 <= i < j < rates.len() ==> #[trigger] rates[i] < #[trigger] rates[j],
    ensures
        clamped_rate(rates, clamped_rate(rates, n)) == clamped_rate(rates, n),
{
    let v = if n > i32::MAX {
        i32::MAX as int
    } else {
        n
    };
    lemma_snap_lands(rates, v, true);
    let r = snapped_rate(rates, v);
    if r != 0 {
        lemma_entry_found(rates, r, true);
    }
}

proof fn lemma_rate_entry_stable(rates: Seq<i32>, e: i32)
    requires
        forall|i: int, j: int|
            0 <= i < j < rates.len() ==> #[trigger] rates[i] < #[trigger] rates[j],
        rates.contains(e),
        e >= 0,
    ensures
        clamped_rate(rates, e as int) == e,
{
    if e > 0 {
        lemma_entry_found(rates, e, true);
    }
}

/// Values on the update-rate list are valid rates.
pub proof fn lemma_update_rate_valid(e: i32)
    requires
        UPDATE_RATES@.contains(e),
    ensures
        clamped_rate(UPDATE_RATES@, e as int) == e,
{
    lemma_rate_entry_stable(UPDATE_RATES@, e);
}

/// Values on the physics-rate list are valid rates.
pub proof fn lemma_physics_rate_valid(e: i32)
    requires
        PHYSICS_RATES@.contains(e),
    ensures
        clamped_rate(PHYSICS_RATES@, e as int) == e,
{
    lemma_rate_entry_stable(PHYSICS_RATES@, e);
}

/// Listed sample counts are valid where the device takes them all.
pub proof fn lemma_msaa_valid(e: i32, device_max: int)
    requires
        MSAA@.contains(e),
        device_max >= 8,
    ensures
        clamped_msaa(e as int, device_max) == e,
{
    lemma_entry_found(MSAA@, e, false);
}

/// Clamping is safe to repeat: valid settings stay as they are.
pub proof fn lemma_clamp_idempotent(vals: Seq<Value>, device_max: int)
    requires
        vals.len() == SETTING_COUNT,
        forall|t: Setting| #[trigger] fits(t.kind_spec(), vals[t.index_spec() as int]),
        0 <= device_max <= u32::MAX,
    ensures
        clamped_all(clamped_all(vals, device_max), device_max) == clamped_all(vals, device_max),
{
    let once = clamped_all(vals, device_max);
    let twice = clamped_all(once, device_max);
    assert forall|i: int| 0 <= i < SETTING_COUNT implies twice[i] == once[i] by {
        let t = Setting::at_spec(i);
        lemma_index_at(t, i);
        let n = number_of(vals, t);
        assert(fits(t.kind_spec(), vals[t.index_spec() as int]));
        match t {
            Setting::StreamHz | Setting::SkyHz | Setting::ModHz => {
                lemma_rate_stable(UPDATE_RATES@, n);
                lemma_snap_lands(UPDATE_RATES@, n, true);
            },
            Setting::PhysicsHz => {
                lemma_rate_stable(PHYSICS_RATES@, n);
            },
            Setting::Msaa => {
                lemma_msaa_stable(n, device_max);
            },
            Setting::Fov | Setting::RenderScale | Setting::UiScale | Setting::MenuScale
            | Setting::Shake => {
                let (lo, hi, default) = real_range(t);
                lemma_clamp_is_stable(real_of(vals, t), lo, hi, default);
            },
            _ => {},
        }
    }
    assert(twice =~= once);
}

proof fn lemma_msaa_stable(n: int, device_max: int)
    requires
        0 <= device_max <= u32::MAX,
    ensures
        clamped_msaa(clamped_msaa(n, device_max), device_max) == clamped_msaa(n, device_max),
        1 <= clamped_msaa(n, device_max) <= 8,
{
    lemma_msaa_entry(capped(n));
    lemma_msaa_entry(capped(device_max));
    let m = clamped_msaa(n, device_max);
    lemma_snap_lands(MSAA@, capped(n), false);
    lemma_snap_lands(MSAA@, capped(device_max), false);
    assert(MSAA@.contains(MSAA@[0]));
    lemma_entry_found(MSAA@, m as i32, false);
}

/// Values stay within their limits: distances up to twenty chunks along and ten up, detail
/// from two to six, no more levels than the coarsest cells allow, volumes up to a hundred,
/// a frame cap of nothing or ten to a thousand. What is within them stays as it is.
pub proof fn lemma_numbers_stay_within_limits(vals: Seq<Value>, device_max: int, t: Setting)
    ensures
        ({
            let n = number_of(vals, t);
            let keeps = |lo: int, hi: int|
                {
                    let v = clamped_value_spec(vals, device_max, t);
                    &&& v matches Value::Number(m) && lo <= m <= hi
                    &&& lo <= n <= hi ==> v == Value::Number(n as i64)
                    &&& n < lo ==> v == Value::Number(lo as i64)
                    &&& n > hi ==> v == Value::Number(hi as i64)
                };
            &&& t == Setting::RenderDistance ==> keeps(0, 20)
            &&& t == Setting::VerticalDistance ==> keeps(1, 10)
            &&& t == Setting::LodDetail ==> keeps(2, 6)
            &&& t == Setting::MasterVolume || t == Setting::EffectsVolume || t
                == Setting::VoiceVolume ==> keeps(0, 100)
            &&& t == Setting::MaxFps && n != 0 ==> keeps(10, 1000)
            &&& t == Setting::MaxFps && n == 0 ==> clamped_value_spec(vals, device_max, t)
                == Value::Number(0)
            &&& t == Setting::LodLevels ==> keeps(
                1,
                10 - clamp_int(number_of(vals, Setting::LodDetail), 2, 6),
            )
        }),
{
}

/// Switches and choices are not clamped, whatever they are.
pub proof fn lemma_switches_stay(vals: Seq<Value>, device_max: int, t: Setting)
    requires
        t.kind_spec() == ValueKind::Toggle || t.kind_spec() == ValueKind::Preset || t.kind_spec()
            == ValueKind::Hud || t.kind_spec() == ValueKind::Vrs,
    ensures
        clamped_value_spec(vals, device_max, t) == vals[t.index_spec() as int],
{
}

/// Multisampling is one, two, four or eight samples, never more than asked for and never
/// more than the device offers, beyond the one sample that there always is.
pub proof fn lemma_msaa_stays_within_device(n: int, device_max: int)
    requires
        1 <= device_max <= u32::MAX,
        1 <= n <= u32::MAX,
    ensures
        ({
            let m = clamped_msaa(n, device_max);
            &&& m == 1 || m == 2 || m == 4 || m == 8
            &&& m <= n
            &&& m <= device_max
            &&& (n == 1 || n == 2 || n == 4 || n == 8) && n <= device_max ==> m == n
            &&& n >= 8 && device_max >= 8 ==> m == 8
        }),
{
    assert(forall|a: int, b: int| 0 <= a < b < 4 ==> #[trigger] MSAA@[a] < #[trigger] MSAA@[b]);
    let (c, d) = (capped(n), capped(device_max));
    assert forall|v: int, i: int| 1 <= v && 0 <= i < 4 implies ({
        let e = snapped_down(MSAA@, v);
        &&& e == 1 || e == 2 || e == 4 || e == 8
        &&& e <= v
        &&& #[trigger] MSAA@[i] <= v ==> MSAA@[i] <= #[trigger] snapped_down(MSAA@, v)
    }) by {
        lemma_snap_down_is_nearest_below(MSAA@, v, i);
        lemma_snap_down_is_nearest_below(MSAA@, v, 0);
        let e = snapped_down(MSAA@, v);
        let k = choose|k: int| 0 <= k < 4 && MSAA@[k] == e;
        assert(MSAA@[k] == e);
        assert(MSAA@[0] == 1);
    }
    let m = snapped_down(MSAA@, c);
    let k = snapped_down(MSAA@, d);
    assert(MSAA@[0] == 1 && MSAA@[1] == 2 && MSAA@[2] == 4 && MSAA@[3] == 8);
    assert(m <= c && k <= d);
}

/// Real-valued settings stay between their least and greatest number: the field of view
/// between 60 and 220, the render scale between a quarter and two, shake between none and
/// one, and the interface scales between a half and two. A number that is none becomes the
/// default, and one within the limits stays.
pub proof fn lemma_reals_stay_within_limits(vals: Seq<Value>, device_max: int, t: Setting)
    requires
        t.kind_spec() == ValueKind::Real,
        vals[t.index_spec() as int] is Real,
    ensures
        ({
            let x = vals[t.index_spec() as int]->Real_0;
            let (lo, hi) = if t == Setting::Fov {
                (0x4270_0000int, 0x435C_0000int)
            } else if t == Setting::RenderScale {
                (0x3E80_0000int, 0x4000_0000int)
            } else if t == Setting::Shake {
                (0int, 0x3F80_0000int)
            } else {
                (0x3F00_0000int, 0x4000_0000int)
            };
            &&& clamped_value_spec(vals, device_max, t) matches Value::Real(y) && lo <= y.rank()
                <= hi
            &&& !x.is_nan_spec() && lo <= x.rank() <= hi ==> clamped_value_spec(vals, device_max, t)
                == Value::Real(x)
            &&& x.is_nan_spec() ==> clamped_value_spec(vals, device_max, t) == Value::Real(
                if t == Setting::Fov {
                    Real32 { bits: 0x42B4_0000 }
                } else {
                    Real32 { bits: 0x3F80_0000 }
                },
            )
        }),
{
}

} // verus!
