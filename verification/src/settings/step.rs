//! Stepping through values in the menu.
use vstd::prelude::*;

use crate::settings::edit::noted;
use crate::settings::limits::{
    capped, capped_word, clamped_all, clamped_value_spec, lemma_msaa_valid,
    lemma_physics_rate_valid, lemma_update_rate_valid, max_lod_levels, max_lod_levels_spec,
    number_of, LOD_DETAIL_MAX, LOD_DETAIL_MIN, LOD_LEVELS_MIN, MSAA, PHYSICS_RATES,
    UPDATE_RATES, VERTICAL_RADIUS_MAX, VERTICAL_RADIUS_MIN, VIEW_RADIUS_MAX,
};
use crate::settings::lists::{
    cycle_list, cycled, first_at, floor_mod, wrap_clamp, wrapped,
};
use crate::settings::presets::preset_applied;
use crate::settings::state::{fits, Preset, Settings, Value, VrsChoice};
use crate::settings::table::{lemma_index_at, Setting, ValueKind, SETTING_COUNT};
use crate::ui::HudMode;

verus! {

/// Frame caps on offer; zero is no cap.
pub const FPS_CAPS: [i32; 6] = [0, 30, 60, 120, 144, 240];

/// Volume steps in percent.
pub const VOLUMES: [i32; 5] = [0, 25, 50, 75, 100];

/// Render-scale steps in percent.
pub const RENDER_SCALES: [i32; 7] = [25, 50, 75, 100, 125, 150, 200];

/// Interface-scale steps in percent.
pub const UI_SCALES: [i32; 6] = [50, 75, 100, 125, 150, 200];

/// The profile `dir` places on: Custom, Minimum, Fast, Default, and round again.
pub open spec fn stepped_preset(p: Preset, dir: int) -> Preset {
    let k = (p.code_spec() + dir) % 4;
    if k == 0 {
        Preset::Custom
    } else if k == 1 {
        Preset::Minimum
    } else if k == 2 {
        Preset::Fast
    } else {
        Preset::Default
    }
}

/// The HUD mode `dir` places on: Off, Minimal, Full, and round again.
pub open spec fn stepped_hud(m: HudMode, dir: int) -> HudMode {
    let k = (m.code_spec() + dir) % 3;
    if k == 0 {
        HudMode::Off
    } else if k == 1 {
        HudMode::Minimal
    } else {
        HudMode::Full
    }
}

/// The place of a shading-rate choice in menu order.
pub open spec fn vrs_place(c: VrsChoice) -> int {
    match c {
        VrsChoice::Auto => 0,
        VrsChoice::On => 1,
        VrsChoice::Off => 2,
    }
}

/// The choice `dir` places on: Auto, On, Off, and round again.
pub open spec fn stepped_vrs(c: VrsChoice, dir: int) -> VrsChoice {
    let k = (vrs_place(c) + dir) % 3;
    if k == 0 {
        VrsChoice::Auto
    } else if k == 1 {
        VrsChoice::On
    } else {
        VrsChoice::Off
    }
}

/// The value of `t` after one menu step of `dir`.
pub open spec fn stepped_value_spec(vals: Seq<Value>, t: Setting, dir: int) -> Value {
    let v = vals[t.index_spec() as int];
    let n = number_of(vals, t);
    match t {
        Setting::VerticalDistance => Value::Number(
            wrapped(n, VERTICAL_RADIUS_MIN as int, VERTICAL_RADIUS_MAX as int, dir) as i64,
        ),
        Setting::LodLevels => Value::Number(
            wrapped(
                n,
                LOD_LEVELS_MIN as int,
                max_lod_levels_spec(number_of(vals, Setting::LodDetail)),
                dir,
            ) as i64,
        ),
        Setting::LodDetail => Value::Number(
            wrapped(n, LOD_DETAIL_MIN as int, LOD_DETAIL_MAX as int, dir) as i64,
        ),
        Setting::StreamHz | Setting::SkyHz | Setting::ModHz => Value::Number(
            cycled(UPDATE_RATES@, capped(n) as i32, dir) as i64,
        ),
        Setting::PhysicsHz => Value::Number(
            cycled(PHYSICS_RATES@, capped(n) as i32, dir) as i64,
        ),
        Setting::Msaa => Value::Number(cycled(MSAA@, capped(n) as i32, dir) as i64),
        Setting::MaxFps => Value::Number(cycled(FPS_CAPS@, capped(n) as i32, dir) as i64),
        Setting::RenderDistance => Value::Number(wrapped(n, 0, VIEW_RADIUS_MAX as int, dir) as i64),
        Setting::MasterVolume | Setting::EffectsVolume | Setting::VoiceVolume => Value::Number(
            cycled(VOLUMES@, n as i32, dir) as i64,
        ),
        _ => match v {
            Value::Toggle(b) => Value::Toggle(!b),
            Value::Hud(m) => Value::Hud(stepped_hud(m, dir)),
            Value::Vrs(c) => Value::Vrs(stepped_vrs(c, dir)),
            _ => v,
        },
    }
}

/// Values after one menu step of `t`. Distant-terrain detail pulls the levels
/// along with it.
pub open spec fn stepped(vals: Seq<Value>, device_max: int, t: Setting, dir: int) -> Seq<Value> {
    let m = vals.update(t.index_spec() as int, stepped_value_spec(vals, t, dir));
    let e = if t == Setting::LodDetail {
        m.update(2, clamped_value_spec(m, device_max, Setting::LodLevels))
    } else {
        m
    };
    noted(vals, e, t)
}

proof fn lemma_cycle_member(list: Seq<i32>, current: i32, dir: int)
    requires
        list.len() > 0,
    ensures
        list.contains(cycled(list, current, dir)),
{
    if list.contains(current) {
        let i = choose|i: int| first_at(list, current, i);
        let k = (i + dir) % (list.len() as int);
        assert(0 <= k < list.len()) by (nonlinear_arith)
            requires
                list.len() > 0,
                k == (i + dir) % (list.len() as int),
        ;
        assert(list[k] == cycled(list, current, dir));
    } else {
        assert(list[0] == cycled(list, current, dir));
    }
}

impl Setting {
    fn stepped_value(self, s: &Settings, dir: i32) -> (v: Value)
        requires
            s.wf(),
            self.kind_spec() != ValueKind::Real,
            self != Setting::Preset,
        ensures
            v == stepped_value_spec(s@, self, dir as int),
            fits(self.kind_spec(), v),
    {
        match self {
            Setting::VerticalDistance => Value::Number(
                wrap_clamp(
                    s.number(self) as i32,
                    VERTICAL_RADIUS_MIN as i32,
                    VERTICAL_RADIUS_MAX as i32,
                    dir,
                ) as i64,
            ),
            Setting::LodLevels => {
                let hi: i64 = max_lod_levels(s.number(Setting::LodDetail));
                Value::Number(
                    wrap_clamp(s.number(self) as i32, LOD_LEVELS_MIN as i32, hi as i32, dir) as i64,
                )
            },
            Setting::LodDetail => Value::Number(
                wrap_clamp(
                    s.number(self) as i32,
                    LOD_DETAIL_MIN as i32,
                    LOD_DETAIL_MAX as i32,
                    dir,
                ) as i64,
            ),
            Setting::StreamHz | Setting::SkyHz | Setting::ModHz => {
                let w: i32 = capped_word(s.number(self));
                proof {
                    lemma_cycle_member(UPDATE_RATES@, w, dir as int);
                }
                Value::Number(cycle_list(&UPDATE_RATES, w, dir) as i64)
            },
            Setting::PhysicsHz => {
                let w: i32 = capped_word(s.number(self));
                proof {
                    lemma_cycle_member(PHYSICS_RATES@, w, dir as int);
                }
                Value::Number(cycle_list(&PHYSICS_RATES, w, dir) as i64)
            },
            Setting::Msaa => {
                let w: i32 = capped_word(s.number(self));
                proof {
                    lemma_cycle_member(MSAA@, w, dir as int);
                }
                Value::Number(cycle_list(&MSAA, w, dir) as i64)
            },
            Setting::MaxFps => {
                let w: i32 = capped_word(s.number(self));
                proof {
                    lemma_cycle_member(FPS_CAPS@, w, dir as int);
                }
                Value::Number(cycle_list(&FPS_CAPS, w, dir) as i64)
            },
            Setting::RenderDistance => Value::Number(
                wrap_clamp(s.number(self) as i32, 0, VIEW_RADIUS_MAX as i32, dir) as i64,
            ),
            Setting::MasterVolume | Setting::EffectsVolume | Setting::VoiceVolume => {
                let w: i32 = s.number(self) as i32;
                proof {
                    lemma_cycle_member(VOLUMES@, w, dir as int);
                }
                Value::Number(cycle_list(&VOLUMES, w, dir) as i64)
            },
            _ => match s.value(self) {
                Value::Toggle(b) => Value::Toggle(!b),
                Value::Hud(m) => {
                    let k: i64 = floor_mod(m.code() as i64 + dir as i64, 3);
                    Value::Hud(
                        if k == 0 {
                            HudMode::Off
                        } else if k == 1 {
                            HudMode::Minimal
                        } else {
                            HudMode::Full
                        },
                    )
                },
                Value::Vrs(c) => {
                    let place: i64 = match c {
                        VrsChoice::Auto => 0,
                        VrsChoice::On => 1,
                        VrsChoice::Off => 2,
                    };
                    let k: i64 = floor_mod(place + dir as i64, 3);
                    Value::Vrs(
                        if k == 0 {
                            VrsChoice::Auto
                        } else if k == 1 {
                            VrsChoice::On
                        } else {
                            VrsChoice::Off
                        },
                    )
                },
                v => v,
            },
        }
    }

    /// Applies one menu step, wrapping at the ends. A change of something that
    /// profiles own leaves the named profile. Real settings step by percent
    /// lists, see [`Self::step_percent`].
    pub fn step(self, s: &mut Settings, dir: i32)
        requires
            old(s).wf(),
            self.kind_spec() != ValueKind::Real,
        ensures
            final(s).wf(),
            final(s).session_spec() == old(s).session_spec(),
            self == Setting::Preset ==> (old(s).value_spec(Setting::Preset) matches Value::Preset(p)
                && preset_applied(*old(s), *final(s), stepped_preset(p, dir as int))),
            self != Setting::Preset ==> final(s)@ == stepped(
                old(s)@,
                old(s).session_spec().device_max_msaa as int,
                self,
                dir as int,
            ),
    {
        let preset = s.preset();
        if self == Setting::Preset {
            let k: i64 = floor_mod(preset.code() as i64 + dir as i64, 4);
            s.apply_preset(
                if k == 0 {
                    Preset::Custom
                } else if k == 1 {
                    Preset::Minimum
                } else if k == 2 {
                    Preset::Fast
                } else {
                    Preset::Default
                },
            );
            return ;
        }
        let ghost vals = s@;
        let before = s.value(self);
        let v = self.stepped_value(s, dir);
        s.put(self, v);
        if self == Setting::LodDetail {
            let levels = s.clamped_value(Setting::LodLevels);
            s.put(Setting::LodLevels, levels);
        }
        s.note_custom(self, before, preset, Ghost(vals));
    }

    /// The percentage one step on from `percent`, for a real setting that steps
    /// through a list. The field of view has none.
    pub fn step_percent(self, percent: i32, dir: i32) -> (r: Option<i32>)
        ensures
            r == (match self {
                Setting::RenderScale => Some(cycled(RENDER_SCALES@, percent, dir as int)),
                Setting::UiScale => Some(cycled(UI_SCALES@, percent, dir as int)),
                Setting::MenuScale => Some(cycled(UI_SCALES@, percent, dir as int)),
                Setting::Shake => Some(cycled(VOLUMES@, percent, dir as int)),
                _ => None,
            }),
    {
        match self {
            Setting::RenderScale => Some(cycle_list(&RENDER_SCALES, percent, dir)),
            Setting::UiScale => Some(cycle_list(&UI_SCALES, percent, dir)),
            Setting::MenuScale => Some(cycle_list(&UI_SCALES, percent, dir)),
            Setting::Shake => Some(cycle_list(&VOLUMES, percent, dir)),
            _ => None,
        }
    }
}

/// Whether every value is in its valid range.
pub open spec fn all_valid(vals: Seq<Value>, device_max: int) -> bool {
    clamped_all(vals, device_max) == vals
}

/// Whatever the menu can reach is valid: a step from valid settings leaves valid
/// settings, on a device that takes every listed sample count.
pub proof fn lemma_step_stays_valid(vals: Seq<Value>, device_max: int, t: Setting, dir: int)
    requires
        vals.len() == SETTING_COUNT,
        forall|u: Setting| #[trigger] fits(u.kind_spec(), vals[u.index_spec() as int]),
        all_valid(vals, device_max),
        device_max >= 8,
        t != Setting::Preset,
        t.kind_spec() != ValueKind::Real,
    ensures
        all_valid(stepped(vals, device_max, t, dir), device_max),
{
    let i = t.index_spec() as int;
    lemma_index_at(t, 0);
    let m = vals.update(i, stepped_value_spec(vals, t, dir));
    let post = stepped(vals, device_max, t, dir);
    let n = number_of(vals, t);
    let w = capped(n) as i32;
    assert(fits(t.kind_spec(), vals[i]));
    lemma_cycle_member(UPDATE_RATES@, w, dir);
    lemma_cycle_member(PHYSICS_RATES@, w, dir);
    lemma_cycle_member(MSAA@, w, dir);
    lemma_cycle_member(FPS_CAPS@, w, dir);
    lemma_cycle_member(VOLUMES@, n as i32, dir);
    lemma_update_rate_valid(cycled(UPDATE_RATES@, w, dir));
    lemma_physics_rate_valid(cycled(PHYSICS_RATES@, w, dir));
    lemma_msaa_valid(cycled(MSAA@, w, dir), device_max);
    let c = clamped_all(post, device_max);
    assert forall|k: int| 0 <= k < SETTING_COUNT implies c[k] == post[k] by {
        let u = Setting::at_spec(k);
        lemma_index_at(u, k);
        assert(clamped_all(vals, device_max)[k] == vals[k]);
        assert(clamped_all(vals, device_max)[3] == vals[3]);
        assert(clamped_all(vals, device_max)[2] == vals[2]);
        assert(fits(u.kind_spec(), vals[u.index_spec() as int]));
        assert(fits(Setting::LodDetail.kind_spec(), vals[3]));
        assert(fits(Setting::LodLevels.kind_spec(), vals[2]));
    }
    assert(c =~= post);
}

/// Steps go around: a step back undoes a step on for profiles, modes and shading choices,
/// each step on gives another value, and as many steps as there are values come back.
pub proof fn lemma_choice_steps_go_around(p: Preset, m: HudMode, c: VrsChoice)
    ensures
        stepped_preset(stepped_preset(p, 1), -1) == p,
        stepped_preset(p, 1) != p,
        stepped_preset(p, 4) == p,
        stepped_hud(stepped_hud(m, 1), -1) == m,
        stepped_hud(m, 1) != m,
        stepped_hud(m, 3) == m,
        stepped_vrs(stepped_vrs(c, 1), -1) == c,
        stepped_vrs(c, 1) != c,
        stepped_vrs(c, 3) == c,
        stepped_preset(Preset::Custom, 1) == Preset::Minimum,
        stepped_preset(Preset::Minimum, 1) == Preset::Fast,
        stepped_preset(Preset::Fast, 1) == Preset::Default,
        stepped_vrs(VrsChoice::Auto, 1) == VrsChoice::On,
        stepped_vrs(VrsChoice::On, 1) == VrsChoice::Off,
{
}

/// A step of a switch turns it over, and two steps leave it as it was; stepping one value
/// leaves the others, but for the levels that the detail limits and the profile.
pub proof fn lemma_switch_steps(vals: Seq<Value>, device_max: int, t: Setting, u: Setting, dir: int)
    requires
        vals.len() == SETTING_COUNT,
        t.kind_spec() == ValueKind::Toggle,
        vals[t.index_spec() as int] is Toggle,
    ensures
        ({
            let after = stepped(vals, device_max, t, dir);
            let again = stepped(after, device_max, t, dir);
            let i = t.index_spec() as int;
            &&& after[i] == Value::Toggle(!vals[i]->Toggle_0)
            &&& again[i] == vals[i]
            &&& u != t && u != Setting::Preset ==> after[u.index_spec() as int]
                == vals[u.index_spec() as int]
            &&& t.owned_spec() ==> after[0] == Value::Preset(Preset::Custom)
            &&& !t.owned_spec() ==> after[0] == vals[0]
        }),
{
    lemma_index_at(t, 0);
    lemma_index_at(u, 0);
    assert(Setting::Preset.index_spec() == 0);
}

} // verus!
