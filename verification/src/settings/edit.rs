//! Editing settings from the menu and the console.
use vstd::prelude::*;
use vstd::string::*;

use crate::settings::limits::clamped_value_spec;
use crate::settings::presets::preset_applied;
use crate::settings::real32::Real32;
use crate::settings::state::{fits, Preset, Settings, Value, VrsChoice};
use crate::settings::table::{lemma_index_at, Profile, Setting, ValueKind, SETTING_COUNT};
use crate::text::{
    chars_of, parse_i32, parse_unsigned, same_text, signed_value, unsigned_value,
};
use crate::ui::HudMode;

verus! {

/// The switch that a word names.
pub open spec fn toggle_word(s: Seq<char>) -> Option<bool> {
    if s == "true"@ || s == "on"@ || s == "1"@ || s == "yes"@ {
        Some(true)
    } else if s == "false"@ || s == "off"@ || s == "0"@ || s == "no"@ {
        Some(false)
    } else {
        None
    }
}

/// Parses an on/off word.
pub fn parse_toggle(value: &str) -> (r: Option<bool>)
    ensures
        r == toggle_word(value@),
{
    if same_text(value, "true") || same_text(value, "on") || same_text(value, "1") || same_text(
        value,
        "yes",
    ) {
        Some(true)
    } else if same_text(value, "false") || same_text(value, "off") || same_text(value, "0")
        || same_text(value, "no") {
        Some(false)
    } else {
        None
    }
}

/// Text for a switch, capitalized for menus.
pub open spec fn on_off_spec(v: bool, caps: bool) -> Seq<char> {
    match (v, caps) {
        (true, true) => "On"@,
        (false, true) => "Off"@,
        (true, false) => "on"@,
        (false, false) => "off"@,
    }
}

/// Text for a switch: `On`/`Off` for menus, `on`/`off` for the console.
pub fn on_off(v: bool, caps: bool) -> (s: &'static str)
    ensures
        s@ == on_off_spec(v, caps),
{
    match (v, caps) {
        (true, true) => "On",
        (false, true) => "Off",
        (true, false) => "on",
        (false, false) => "off",
    }
}

/// A number that fits a kind.
pub open spec fn number_in(n: Option<int>, lo: int, hi: int) -> Option<Value> {
    match n {
        Some(n) => if lo <= n <= hi {
            Some(Value::Number(n as i64))
        } else {
            None
        },
        None => None,
    }
}

/// The value that a text stands for in the settings file. Real numbers are not
/// read here.
pub open spec fn read_value_spec(t: Setting, s: Seq<char>) -> Option<Value> {
    match t.kind_spec() {
        ValueKind::Toggle => match toggle_word(s) {
            Some(b) => Some(Value::Toggle(b)),
            None => None,
        },
        ValueKind::U8 => number_in(unsigned_value(s), 0, u8::MAX as int),
        ValueKind::U32 => number_in(unsigned_value(s), 0, u32::MAX as int),
        ValueKind::I32 => number_in(signed_value(s), i32::MIN as int, i32::MAX as int),
        ValueKind::Real => None,
        ValueKind::Preset => match Preset::parse_spec(s) {
            Some(p) => Some(Value::Preset(p)),
            None => None,
        },
        ValueKind::Hud => match HudMode::parse_spec(s) {
            Some(m) => Some(Value::Hud(m)),
            None => None,
        },
        ValueKind::Vrs => match VrsChoice::parse_spec(s) {
            Some(c) => Some(Value::Vrs(c)),
            None => None,
        },
    }
}

/// The value that a text stands for in the settings file.
pub fn read_value(t: Setting, s: &str) -> (r: Option<Value>)
    ensures
        r == read_value_spec(t, s@),
        r matches Some(v) ==> fits(t.kind_spec(), v),
{
    match t.kind() {
        ValueKind::Toggle => match parse_toggle(s) {
            Some(b) => Some(Value::Toggle(b)),
            None => None,
        },
        ValueKind::U8 => {
            let chars: Vec<char> = chars_of(s);
            proof {
                crate::text::lemma_unsigned_nonneg(chars@);
            }
            match parse_unsigned(&chars, 0xFF) {
                Some(n) => Some(Value::Number(n as i64)),
                None => None,
            }
        },
        ValueKind::U32 => {
            let chars: Vec<char> = chars_of(s);
            proof {
                crate::text::lemma_unsigned_nonneg(chars@);
            }
            match parse_unsigned(&chars, 0xFFFF_FFFF) {
                Some(n) => Some(Value::Number(n as i64)),
                None => None,
            }
        },
        ValueKind::I32 => match parse_i32(&chars_of(s)) {
            Some(n) => Some(Value::Number(n as i64)),
            None => None,
        },
        ValueKind::Real => None,
        ValueKind::Preset => match Preset::parse(s) {
            Some(p) => Some(Value::Preset(p)),
            None => None,
        },
        ValueKind::Hud => match HudMode::parse(s) {
            Some(m) => Some(Value::Hud(m)),
            None => None,
        },
        ValueKind::Vrs => match VrsChoice::parse(s) {
            Some(c) => Some(Value::Vrs(c)),
            None => None,
        },
    }
}

/// Whether the setting is an update rate.
pub open spec fn is_rate(t: Setting) -> bool {
    t == Setting::StreamHz || t == Setting::PhysicsHz || t == Setting::SkyHz || t
        == Setting::ModHz
}

/// The value that a text stands for on the console: also words for zero.
pub open spec fn human_value_spec(t: Setting, s: Seq<char>) -> Option<Value> {
    if is_rate(t) && (s == "every"@ || s == "frame"@) {
        Some(Value::Number(0))
    } else if t == Setting::MaxFps && (s == "off"@ || s == "uncapped"@) {
        Some(Value::Number(0))
    } else {
        read_value_spec(t, s)
    }
}

/// The value that a text stands for on the console.
pub fn human_value(t: Setting, s: &str) -> (r: Option<Value>)
    ensures
        r == human_value_spec(t, s@),
        r matches Some(v) ==> fits(t.kind_spec(), v),
{
    let rate: bool = t == Setting::StreamHz || t == Setting::PhysicsHz || t == Setting::SkyHz
        || t == Setting::ModHz;
    if rate && (same_text(s, "every") || same_text(s, "frame")) {
        Some(Value::Number(0))
    } else if t == Setting::MaxFps && (same_text(s, "off") || same_text(s, "uncapped")) {
        Some(Value::Number(0))
    } else {
        read_value(t, s)
    }
}

/// Whether the setting is one of the two that limit each other.
pub open spec fn is_lod(t: Setting) -> bool {
    t == Setting::LodLevels || t == Setting::LodDetail
}

/// Values after what setting `t` limits is brought into range: itself, and both
/// distant-terrain settings together.
pub open spec fn settled(vals: Seq<Value>, device_max: int, t: Setting) -> Seq<Value> {
    if is_lod(t) {
        vals.update(2, clamped_value_spec(vals, device_max, Setting::LodLevels)).update(
            3,
            clamped_value_spec(vals, device_max, Setting::LodDetail),
        )
    } else {
        vals.update(t.index_spec() as int, clamped_value_spec(vals, device_max, t))
    }
}

/// Values after an interactive edit of `t` from `vals` to `edited`: a change of
/// something that profiles own leaves the named profile.
pub open spec fn noted(vals: Seq<Value>, edited: Seq<Value>, t: Setting) -> Seq<Value> {
    let i = t.index_spec() as int;
    if t.owned_spec() && vals[0] != Value::Preset(Preset::Custom) && edited[i] != vals[i] {
        edited.update(0, Value::Preset(Preset::Custom))
    } else {
        edited
    }
}

/// Values after `t` is set to `v` by hand.
pub open spec fn hand_set(vals: Seq<Value>, device_max: int, t: Setting, v: Value) -> Seq<Value> {
    noted(vals, settled(vals.update(t.index_spec() as int, v), device_max, t), t)
}

impl Settings {
    /// Brings into range what setting `t` limits.
    fn settle(&mut self, t: Setting)
        requires
            old(self).wf(),
        ensures
            final(self).wf(),
            final(self).session_spec() == old(self).session_spec(),
            final(self)@ == settled(
                old(self)@,
                old(self).session_spec().device_max_msaa as int,
                t,
            ),
    {
        if t == Setting::LodLevels || t == Setting::LodDetail {
            let levels = self.clamped_value(Setting::LodLevels);
            let detail = self.clamped_value(Setting::LodDetail);
            self.put(Setting::LodLevels, levels);
            self.put(Setting::LodDetail, detail);
        } else {
            let v = self.clamped_value(t);
            self.put(t, v);
        }
    }

    /// Leaves the named profile where an owned value has changed.
    pub(crate) fn note_custom(&mut self, t: Setting, before: Value, preset: Preset, Ghost(vals): Ghost<
        Seq<Value>,
    >)
        requires
            old(self).wf(),
            vals.len() == old(self)@.len(),
            before == vals[t.index_spec() as int],
            vals[0] == Value::Preset(preset),
        ensures
            final(self).wf(),
            final(self).session_spec() == old(self).session_spec(),
            final(self)@ == noted(vals, old(self)@, t),
    {
        if t.profile() != Profile::Personal && preset != Preset::Custom && self.value(t) != before {
            self.put(Setting::Preset, Value::Preset(Preset::Custom));
        }
    }
}

impl Setting {
    /// Parses a console value, clamps it and stores it. Returns whether it
    /// parsed; else nothing changes. Real settings go through [`Self::set_human`].
    pub fn parse_human(self, s: &mut Settings, value: &str) -> (ok: bool)
        requires
            old(s).wf(),
            self.kind_spec() != ValueKind::Real,
        ensures
            final(s).wf(),
            final(s).session_spec() == old(s).session_spec(),
            ok == (human_value_spec(self, value@) is Some),
            match human_value_spec(self, value@) {
                None => *final(s) == *old(s),
                Some(Value::Preset(p)) => preset_applied(*old(s), *final(s), p),
                Some(v) => final(s)@ == hand_set(
                    old(s)@,
                    old(s).session_spec().device_max_msaa as int,
                    self,
                    v,
                ),
            },
    {
        match human_value(self, value) {
            None => false,
            Some(v) => {
                match v {
                    Value::Preset(p) => {
                        s.apply_preset(p);
                    },
                    _ => {
                        let ghost vals = s@;
                        let before = s.value(self);
                        let preset = s.preset();
                        s.put(self, v);
                        s.settle(self);
                        s.note_custom(self, before, preset, Ghost(vals));
                    },
                }
                true
            },
        }
    }

    /// Stores a real value by hand: clamped, and leaving the named profile where
    /// it changes an owned value.
    pub fn set_human(self, s: &mut Settings, x: Real32)
        requires
            old(s).wf(),
            self.kind_spec() == ValueKind::Real,
        ensures
            final(s).wf(),
            final(s).session_spec() == old(s).session_spec(),
            final(s)@ == hand_set(
                old(s)@,
                old(s).session_spec().device_max_msaa as int,
                self,
                Value::Real(x),
            ),
    {
        let ghost vals = s@;
        let before = s.value(self);
        let preset = s.preset();
        s.put(self, Value::Real(x));
        s.settle(self);
        s.note_custom(self, before, preset, Ghost(vals));
    }
}

/// Switch words: on, true, yes and 1 switch on, off, false, no and 0 switch off, nothing else
/// does either, and what a switch is confirmed with reads back as itself.
pub proof fn lemma_switch_words(b: bool)
    ensures
        toggle_word(on_off_spec(b, false)) == Some(b),
        toggle_word("true"@) == Some(true),
        toggle_word("false"@) == Some(false),
        toggle_word("yes"@) == Some(true),
        toggle_word("no"@) == Some(false),
        toggle_word("1"@) == Some(true),
        toggle_word("0"@) == Some(false),
        on_off_spec(b, true) != on_off_spec(!b, true),
        on_off_spec(b, false) != on_off_spec(!b, false),
{
    reveal_strlit("on");
    reveal_strlit("off");
    reveal_strlit("On");
    reveal_strlit("Off");
    reveal_strlit("true");
    reveal_strlit("false");
    reveal_strlit("yes");
    reveal_strlit("no");
    reveal_strlit("1");
    reveal_strlit("0");
    assert("on"@[1] == 'n' && "no"@[1] == 'o');
    assert("on"@.len() == 2 && "no"@.len() == 2 && "off"@.len() == 3 && "yes"@.len() == 3);
    assert("1"@[0] == '1' && "0"@[0] == '0');
    assert("off"@[0] == 'o' && "yes"@[0] == 'y');
    assert("On"@.len() == 2 && "Off"@.len() == 3);
    assert("true"@.len() == 4 && "false"@.len() == 5);
}

/// Setting one value by hand sets that value, within its limits, and no other, but for the
/// number of levels, which the detail limits; and a value that belongs to the profile makes
/// the profile a custom one if it changes, and only then.
pub proof fn lemma_hand_sets_one_value(
    vals: Seq<Value>,
    device_max: int,
    t: Setting,
    v: Value,
    u: Setting,
)
    requires
        vals.len() == SETTING_COUNT,
        t != Setting::Preset,
    ensures
        ({
            let after = hand_set(vals, device_max, t, v);
            let set = vals.update(t.index_spec() as int, v);
            let i = u.index_spec() as int;
            &&& after.len() == vals.len()
            &&& u == t ==> after[i] == clamped_value_spec(set, device_max, t)
            &&& u != t && u != Setting::Preset && !(t == Setting::LodDetail && u
                == Setting::LodLevels) && !(t == Setting::LodLevels && u == Setting::LodDetail)
                ==> after[i] == vals[i]
            &&& !t.owned_spec() ==> after[0] == vals[0]
            &&& t.owned_spec() && clamped_value_spec(set, device_max, t)
                != vals[t.index_spec() as int] ==> after[0] == Value::Preset(Preset::Custom)
            &&& clamped_value_spec(set, device_max, t) == vals[t.index_spec() as int] ==> after[0]
                == vals[0]
        }),
{
    lemma_index_at(t, 0);
    lemma_index_at(u, 0);
    lemma_index_at(Setting::Preset, 0);
    assert(Setting::Preset.index_spec() == 0);
    assert(Setting::LodLevels.index_spec() == 2);
    assert(Setting::LodDetail.index_spec() == 3);
}

/// Words for nothing: a rate may be set to every frame and a frame cap to none, and a text
/// that reads as a value is that value, however it was entered.
pub proof fn lemma_words_for_nothing(t: Setting, s: Seq<char>)
    ensures
        human_value_spec(t, s) is Some && human_value_spec(t, s) != read_value_spec(t, s)
            ==> human_value_spec(t, s) == Some(Value::Number(0)),
        t != Setting::StreamHz && t != Setting::PhysicsHz && t != Setting::SkyHz && t
            != Setting::ModHz && t != Setting::MaxFps ==> human_value_spec(t, s) == read_value_spec(
            t,
            s,
        ),
        t == Setting::StreamHz || t == Setting::PhysicsHz || t == Setting::SkyHz || t
            == Setting::ModHz ==> human_value_spec(t, "every"@) == Some(Value::Number(0))
            && human_value_spec(t, "frame"@) == Some(Value::Number(0)),
        human_value_spec(Setting::MaxFps, "off"@) == Some(Value::Number(0)),
        human_value_spec(Setting::MaxFps, "uncapped"@) == Some(Value::Number(0)),
        human_value_spec(Setting::MaxFps, "every"@) == read_value_spec(Setting::MaxFps, "every"@),
{
    reveal_strlit("every");
    reveal_strlit("off");
    reveal_strlit("uncapped");
    assert("every"@.len() == 5 && "off"@.len() == 3 && "uncapped"@.len() == 8);
}

} // verus!
