//! Performance profiles.
use vstd::prelude::*;

use crate::settings::real32::Real32;
use crate::settings::state::{
    default_value, default_value_spec, fits, Preset, Settings, Value, VrsChoice,
};
use crate::settings::table::{lemma_index_at, Profile, Setting, SETTING_COUNT};
use crate::ui::HudMode;

verus! {

/// The shipped value with every optional presentation lane stripped.
pub open spec fn stripped_value_spec(t: Setting) -> Value {
    match t.profile_spec() {
        Profile::Stripped(on) => if t == Setting::Vrs {
            Value::Vrs(
                if on {
                    VrsChoice::On
                } else {
                    VrsChoice::Off
                },
            )
        } else {
            Value::Toggle(on)
        },
        _ => default_value_spec(t),
    }
}

/// The shipped value with every optional presentation lane stripped.
pub fn stripped_value(t: Setting) -> (v: Value)
    ensures
        v == stripped_value_spec(t),
        fits(t.kind_spec(), v),
{
    match t.profile() {
        Profile::Stripped(on) => if t == Setting::Vrs {
            Value::Vrs(
                if on {
                    VrsChoice::On
                } else {
                    VrsChoice::Off
                },
            )
        } else {
            Value::Toggle(on)
        },
        _ => default_value(t),
    }
}

/// The value that a profile gives a setting: its overrides over the stripped
/// base. The default profile is the shipped value.
pub open spec fn profile_value_spec(p: Preset, t: Setting) -> Value {
    match p {
        Preset::Minimum => match t {
            Setting::Vsync => Value::Toggle(false),
            Setting::Msaa => Value::Number(1),
            Setting::RenderDistance => Value::Number(0),
            Setting::RenderScale => Value::Real(Real32 { bits: 0x3E80_0000 }),
            Setting::Lighting => Value::Toggle(false),
            Setting::VerticalDistance => Value::Number(1),
            Setting::LodLevels => Value::Number(1),
            Setting::LodDetail => Value::Number(6),
            Setting::StreamHz => Value::Number(15),
            Setting::PhysicsHz => Value::Number(30),
            Setting::SkyHz => Value::Number(15),
            Setting::ModHz => Value::Number(15),
            Setting::Simulation => Value::Toggle(false),
            Setting::ModLogic => Value::Toggle(false),
            Setting::Autosave => Value::Toggle(false),
            Setting::HudMode => Value::Hud(HudMode::Off),
            Setting::Minimap => Value::Toggle(false),
            Setting::ModHud => Value::Toggle(false),
            Setting::PlayerModels => Value::Toggle(false),
            Setting::NameTags => Value::Toggle(false),
            Setting::Lod2 => Value::Toggle(false),
            _ => stripped_value_spec(t),
        },
        Preset::Fast => match t {
            Setting::Vsync => Value::Toggle(false),
            Setting::Msaa => Value::Number(1),
            Setting::RenderDistance => Value::Number(3),
            Setting::RenderScale => Value::Real(Real32 { bits: 0x3F00_0000 }),
            Setting::Lighting => Value::Toggle(false),
            Setting::VerticalDistance => Value::Number(2),
            Setting::LodLevels => Value::Number(3),
            Setting::LodDetail => Value::Number(4),
            Setting::StreamHz => Value::Number(60),
            Setting::PhysicsHz => Value::Number(60),
            Setting::SkyHz => Value::Number(60),
            Setting::ModHz => Value::Number(60),
            Setting::Simulation => Value::Toggle(true),
            Setting::Autosave => Value::Toggle(true),
            Setting::HudMode => Value::Hud(HudMode::Minimal),
            Setting::Minimap => Value::Toggle(false),
            Setting::ModHud => Value::Toggle(false),
            Setting::PlayerModels => Value::Toggle(true),
            Setting::NameTags => Value::Toggle(false),
            Setting::Lod2 => Value::Toggle(true),
            _ => stripped_value_spec(t),
        },
        _ => default_value_spec(t),
    }
}

/// The value that a profile gives a setting.
pub fn profile_value(p: Preset, t: Setting) -> (v: Value)
    ensures
        v == profile_value_spec(p, t),
        fits(t.kind_spec(), v),
{
    match p {
        Preset::Minimum => match t {
            Setting::Vsync => Value::Toggle(false),
            Setting::Msaa => Value::Number(1),
            Setting::RenderDistance => Value::Number(0),
            Setting::RenderScale => Value::Real(Real32 { bits: 0x3E80_0000 }),
            Setting::Lighting => Value::Toggle(false),
            Setting::VerticalDistance => Value::Number(1),
            Setting::LodLevels => Value::Number(1),
            Setting::LodDetail => Value::Number(6),
            Setting::StreamHz => Value::Number(15),
            Setting::PhysicsHz => Value::Number(30),
            Setting::SkyHz => Value::Number(15),
            Setting::ModHz => Value::Number(15),
            Setting::Simulation => Value::Toggle(false),
            Setting::ModLogic => Value::Toggle(false),
            Setting::Autosave => Value::Toggle(false),
            Setting::HudMode => Value::Hud(HudMode::Off),
            Setting::Minimap => Value::Toggle(false),
            Setting::ModHud => Value::Toggle(false),
            Setting::PlayerModels => Value::Toggle(false),
            Setting::NameTags => Value::Toggle(false),
            Setting::Lod2 => Value::Toggle(false),
            _ => stripped_value(t),
        },
        Preset::Fast => match t {
            Setting::Vsync => Value::Toggle(false),
            Setting::Msaa => Value::Number(1),
            Setting::RenderDistance => Value::Number(3),
            Setting::RenderScale => Value::Real(Real32 { bits: 0x3F00_0000 }),
            Setting::Lighting => Value::Toggle(false),
            Setting::VerticalDistance => Value::Number(2),
            Setting::LodLevels => Value::Number(3),
            Setting::LodDetail => Value::Number(4),
            Setting::StreamHz => Value::Number(60),
            Setting::PhysicsHz => Value::Number(60),
            Setting::SkyHz => Value::Number(60),
            Setting::ModHz => Value::Number(60),
            Setting::Simulation => Value::Toggle(true),
            Setting::Autosave => Value::Toggle(true),
            Setting::HudMode => Value::Hud(HudMode::Minimal),
            Setting::Minimap => Value::Toggle(false),
            Setting::ModHud => Value::Toggle(false),
            Setting::PlayerModels => Value::Toggle(true),
            Setting::NameTags => Value::Toggle(false),
            Setting::Lod2 => Value::Toggle(true),
            _ => stripped_value(t),
        },
        _ => default_value(t),
    }
}

/// Whether `post` is `pre` after profile `p` was applied: settings that
/// profiles own take its values, personal controls and the session stay, and
/// the profile is marked.
pub open spec fn preset_applied(pre: Settings, post: Settings, p: Preset) -> bool {
    &&& post.wf()
    &&& post.session_spec() == pre.session_spec()
    &&& post.value_spec(Setting::Preset) == Value::Preset(p)
    &&& forall|t: Setting|
        t != Setting::Preset ==> #[trigger] post.value_spec(t) == (if p != Preset::Custom
            && t.owned_spec() {
            profile_value_spec(p, t)
        } else {
            pre.value_spec(t)
        })
}

impl Settings {
    /// Copies the values that profile `p` owns. Personal controls stay.
    pub fn copy_profile_values(&mut self, p: Preset)
        requires
            old(self).wf(),
        ensures
            final(self).wf(),
            final(self).session_spec() == old(self).session_spec(),
            forall|t: Setting| #[trigger]
                final(self).value_spec(t) == (if t.owned_spec() {
                    profile_value_spec(p, t)
                } else {
                    old(self).value_spec(t)
                }),
    {
        let mut i: usize = 0;
        while i < SETTING_COUNT
            invariant
                i <= SETTING_COUNT,
                self.wf(),
                self.session_spec() == old(self).session_spec(),
                forall|t: Setting| #[trigger]
                    self.value_spec(t) == (if t.owned_spec() && t.index_spec() < i {
                        profile_value_spec(p, t)
                    } else {
                        old(self).value_spec(t)
                    }),
            decreases SETTING_COUNT - i,
        {
            let t = Setting::at(i);
            let ghost before = *self;
            proof {
                assert forall|u: Setting| u.index_spec() == i implies u == t by {
                    lemma_index_at(u, 0);
                }
            }
            if t.profile() != Profile::Personal {
                self.put(t, profile_value(p, t));
            }
            i = i + 1;
        }
        proof {
            assert forall|t: Setting| #[trigger] self.value_spec(t) == (if t.owned_spec() {
                profile_value_spec(p, t)
            } else {
                old(self).value_spec(t)
            }) by {
                lemma_index_at(t, 0);
            }
        }
    }

    /// Records that the settings no longer match a named profile.
    pub fn mark_custom(&mut self)
        requires
            old(self).wf(),
        ensures
            preset_applied(*old(self), *final(self), Preset::Custom),
    {
        self.put(Setting::Preset, Value::Preset(Preset::Custom));
    }

    /// Applies a profile.
    pub fn apply_preset(&mut self, p: Preset)
        requires
            old(self).wf(),
        ensures
            preset_applied(*old(self), *final(self), p),
    {
        if p == Preset::Custom {
            self.mark_custom();
            return ;
        }
        self.copy_profile_values(p);
        self.put(Setting::Preset, Value::Preset(p));
    }

    /// Applies the profile that a word or code names. Returns whether there is one.
    pub fn select_preset(&mut self, value: &str) -> (found: bool)
        requires
            old(self).wf(),
        ensures
            found == (Preset::parse_spec(value@) is Some),
            match Preset::parse_spec(value@) {
                Some(p) => preset_applied(*old(self), *final(self), p),
                None => *final(self) == *old(self),
            },
    {
        match Preset::parse(value) {
            Some(p) => {
                self.apply_preset(p);
                true
            },
            None => false,
        }
    }
}

/// Profiles form a ladder: the minimum sees no further than the fast one and that no further
/// than the default, on the ground, up and down and in levels of the far field, in cells
/// that are no finer; and the minimum runs no lighting, simulation or mods and shows no
/// interface.
pub proof fn lemma_profiles_form_a_ladder(t: Setting)
    ensures
        t == Setting::RenderDistance || t == Setting::VerticalDistance || t == Setting::LodLevels
            ==> {
            let n = |p: Preset| profile_value_spec(p, t)->Number_0;
            n(Preset::Minimum) <= n(Preset::Fast) <= n(Preset::Default)
        },
        ({
            let n = |p: Preset| profile_value_spec(p, Setting::LodDetail)->Number_0;
            n(Preset::Minimum) >= n(Preset::Fast) >= n(Preset::Default)
        }),
        t == Setting::Lighting || t == Setting::Simulation || t == Setting::ModLogic || t
            == Setting::ModHud || t == Setting::Minimap || t == Setting::NameTags || t
            == Setting::PlayerModels || t == Setting::Autosave ==> profile_value_spec(
            Preset::Minimum,
            t,
        ) == Value::Toggle(false),
        profile_value_spec(Preset::Minimum, Setting::HudMode) == Value::Hud(HudMode::Off),
        profile_value_spec(Preset::Default, t) == default_value_spec(t),
        t == Setting::Shadows || t == Setting::Bloom || t == Setting::Clouds || t
            == Setting::Weather || t == Setting::Godrays || t == Setting::Fog || t == Setting::Stars
            ==> profile_value_spec(Preset::Minimum, t) == Value::Toggle(false)
            && profile_value_spec(Preset::Fast, t) == Value::Toggle(false),
{
}

/// Choosing a profile leaves personal values alone, choosing the custom one leaves all
/// values alone, choosing one twice is choosing it once, and the last choice counts.
pub proof fn lemma_choosing_profiles(
    before: Settings,
    once: Settings,
    twice: Settings,
    p: Preset,
    q: Preset,
    t: Setting,
)
    requires
        preset_applied(before, once, p),
        preset_applied(once, twice, q),
    ensures
        t != Setting::Preset && t.profile_spec() == Profile::Personal ==> once.value_spec(t)
            == before.value_spec(t),
        t != Setting::Preset && p == Preset::Custom ==> once.value_spec(t) == before.value_spec(t),
        p == q ==> twice.value_spec(t) == once.value_spec(t),
        twice.value_spec(Setting::Preset) == Value::Preset(q),
        t != Setting::Preset && t.profile_spec() != Profile::Personal && q == Preset::Default
            ==> twice.value_spec(t) == default_value_spec(t),
{
}

} // verus!
