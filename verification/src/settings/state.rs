//! The settings state: one field per setting, and session state beside it.
use vstd::prelude::*;

use crate::settings::real32::Real32;
use crate::settings::table::{lemma_index_at, Setting, ValueKind, SETTING_COUNT};
use crate::text::same_text;
use crate::ui::HudMode;

verus! {

/// A performance profile. Editing a setting that profiles own makes it `Custom`.
#[derive(Clone, Copy, PartialEq, Eq, Debug, Structural)]
pub enum Preset {
    Custom,
    Minimum,
    Fast,
    Default,
}

impl Preset {
    pub open spec fn code_spec(self) -> u8 {
        match self {
            Preset::Custom => 0,
            Preset::Minimum => 1,
            Preset::Fast => 2,
            Preset::Default => 3,
        }
    }

    /// The stable persisted code.
    pub fn code(self) -> (c: u8)
        ensures
            c == self.code_spec(),
    {
        match self {
            Preset::Custom => 0,
            Preset::Minimum => 1,
            Preset::Fast => 2,
            Preset::Default => 3,
        }
    }

    pub open spec fn label_spec(self) -> Seq<char> {
        match self {
            Preset::Custom => "Custom"@,
            Preset::Minimum => "Minimum"@,
            Preset::Fast => "Fast"@,
            Preset::Default => "Default"@,
        }
    }

    /// The menu label.
    pub fn label(self) -> (s: &'static str)
        ensures
            s@ == self.label_spec(),
    {
        match self {
            Preset::Custom => "Custom",
            Preset::Minimum => "Minimum",
            Preset::Fast => "Fast",
            Preset::Default => "Default",
        }
    }

    /// The profile that a word or code names.
    pub open spec fn parse_spec(s: Seq<char>) -> Option<Preset> {
        if s == "custom"@ || s == "0"@ {
            Some(Preset::Custom)
        } else if s == "minimum"@ || s == "min"@ || s == "1"@ {
            Some(Preset::Minimum)
        } else if s == "fast"@ || s == "2"@ {
            Some(Preset::Fast)
        } else if s == "default"@ || s == "3"@ {
            Some(Preset::Default)
        } else {
            None
        }
    }

    /// The profile that a word or code names.
    pub fn parse(s: &str) -> (r: Option<Preset>)
        ensures
            r == Self::parse_spec(s@),
    {
        if same_text(s, "custom") || same_text(s, "0") {
            Some(Preset::Custom)
        } else if same_text(s, "minimum") || same_text(s, "min") || same_text(s, "1") {
            Some(Preset::Minimum)
        } else if same_text(s, "fast") || same_text(s, "2") {
            Some(Preset::Fast)
        } else if same_text(s, "default") || same_text(s, "3") {
            Some(Preset::Default)
        } else {
            None
        }
    }
}

/// Whether shading rate varies over the screen.
#[derive(Clone, Copy, PartialEq, Eq, Debug, Structural)]
pub enum VrsChoice {
    Auto,
    On,
    Off,
}

impl VrsChoice {
    pub open spec fn code_spec(self) -> Seq<char> {
        match self {
            VrsChoice::Auto => "auto"@,
            VrsChoice::On => "on"@,
            VrsChoice::Off => "off"@,
        }
    }

    /// The persisted word.
    pub fn code(self) -> (s: &'static str)
        ensures
            s@ == self.code_spec(),
    {
        match self {
            VrsChoice::Auto => "auto",
            VrsChoice::On => "on",
            VrsChoice::Off => "off",
        }
    }

    pub open spec fn label_spec(self) -> Seq<char> {
        match self {
            VrsChoice::Auto => "Auto"@,
            VrsChoice::On => "On"@,
            VrsChoice::Off => "Off"@,
        }
    }

    /// The menu label.
    pub fn label(self) -> (s: &'static str)
        ensures
            s@ == self.label_spec(),
    {
        match self {
            VrsChoice::Auto => "Auto",
            VrsChoice::On => "On",
            VrsChoice::Off => "Off",
        }
    }

    /// The choice that a word names. Older files hold a switch word.
    pub open spec fn parse_spec(s: Seq<char>) -> Option<VrsChoice> {
        if s == "auto"@ {
            Some(VrsChoice::Auto)
        } else if s == "on"@ || s == "true"@ {
            Some(VrsChoice::On)
        } else if s == "off"@ || s == "false"@ {
            Some(VrsChoice::Off)
        } else {
            None
        }
    }

    /// The choice that a word names. Older files hold a switch word.
    pub fn parse(s: &str) -> (r: Option<VrsChoice>)
        ensures
            r == Self::parse_spec(s@),
    {
        if same_text(s, "auto") {
            Some(VrsChoice::Auto)
        } else if same_text(s, "on") || same_text(s, "true") {
            Some(VrsChoice::On)
        } else if same_text(s, "off") || same_text(s, "false") {
            Some(VrsChoice::Off)
        } else {
            None
        }
    }
}

/// The value of a setting.
#[derive(Clone, Copy, PartialEq, Eq, Debug, Structural)]
pub enum Value {
    Toggle(bool),
    Number(i64),
    Real(Real32),
    Preset(Preset),
    Hud(HudMode),
    Vrs(VrsChoice),
}

/// Whether a value is one that a setting of this kind holds.
pub open spec fn fits(kind: ValueKind, v: Value) -> bool {
    match kind {
        ValueKind::Toggle => v is Toggle,
        ValueKind::U8 => v matches Value::Number(n) && 0 <= n <= u8::MAX,
        ValueKind::U32 => v matches Value::Number(n) && 0 <= n <= u32::MAX,
        ValueKind::I32 => v matches Value::Number(n) && i32::MIN <= n <= i32::MAX,
        ValueKind::Real => v is Real,
        ValueKind::Preset => v is Preset,
        ValueKind::Hud => v is Hud,
        ValueKind::Vrs => v is Vrs,
    }
}

/// The shipped value of a setting.
pub open spec fn default_value_spec(t: Setting) -> Value {
    match t {
        Setting::Preset => Value::Preset(Preset::Default),
        Setting::VerticalDistance => Value::Number(3),
        Setting::LodLevels => Value::Number(7),
        Setting::LodDetail => Value::Number(2),
        Setting::StreamHz => Value::Number(0),
        Setting::PhysicsHz => Value::Number(0),
        Setting::SkyHz => Value::Number(0),
        Setting::ModHz => Value::Number(0),
        Setting::HudMode => Value::Hud(HudMode::Full),
        Setting::Simulation => Value::Toggle(true),
        Setting::ModLogic => Value::Toggle(true),
        Setting::Autosave => Value::Toggle(true),
        Setting::Minimap => Value::Toggle(true),
        Setting::ModHud => Value::Toggle(true),
        Setting::PlayerModels => Value::Toggle(true),
        Setting::NameTags => Value::Toggle(true),
        Setting::Fullscreen => Value::Toggle(false),
        Setting::Vsync => Value::Toggle(false),
        Setting::Lighting => Value::Toggle(true),
        Setting::Msaa => Value::Number(1),
        Setting::MaxFps => Value::Number(0),
        Setting::RenderDistance => Value::Number(6),
        Setting::Fov => Value::Real(Real32 { bits: 0x42B4_0000 }),
        Setting::RenderScale => Value::Real(Real32 { bits: 0x3F80_0000 }),
        Setting::UiScale => Value::Real(Real32 { bits: 0x3F80_0000 }),
        Setting::MenuScale => Value::Real(Real32 { bits: 0x3F80_0000 }),
        Setting::Shake => Value::Real(Real32 { bits: 0x3F80_0000 }),
        Setting::Lod2 => Value::Toggle(false),
        Setting::Occlusion => Value::Toggle(true),
        Setting::Sky => Value::Toggle(true),
        Setting::Sunlight => Value::Toggle(true),
        Setting::Ambient => Value::Toggle(false),
        Setting::Shadows => Value::Toggle(false),
        Setting::Blocklight => Value::Toggle(false),
        Setting::Fog => Value::Toggle(false),
        Setting::Clouds => Value::Toggle(true),
        Setting::Weather => Value::Toggle(true),
        Setting::Stars => Value::Toggle(true),
        Setting::DayNight => Value::Toggle(true),
        Setting::Bloom => Value::Toggle(true),
        Setting::Godrays => Value::Toggle(true),
        Setting::Exposure => Value::Toggle(false),
        Setting::Taa => Value::Toggle(false),
        Setting::Vrs => Value::Vrs(VrsChoice::Auto),
        Setting::WaterAnim => Value::Toggle(true),
        Setting::Ao => Value::Toggle(true),
        Setting::Vignette => Value::Toggle(false),
        Setting::MasterVolume => Value::Number(80),
        Setting::EffectsVolume => Value::Number(100),
        Setting::VoiceVolume => Value::Number(100),
        Setting::VoiceEnabled => Value::Toggle(true),
        Setting::VoiceIncoming => Value::Toggle(true),
    }
}

/// The shipped value of a setting.
pub fn default_value(t: Setting) -> (v: Value)
    ensures
        v == default_value_spec(t),
        fits(t.kind_spec(), v),
{
    match t {
        Setting::Preset => Value::Preset(Preset::Default),
        Setting::VerticalDistance => Value::Number(3),
        Setting::LodLevels => Value::Number(7),
        Setting::LodDetail => Value::Number(2),
        Setting::StreamHz => Value::Number(0),
        Setting::PhysicsHz => Value::Number(0),
        Setting::SkyHz => Value::Number(0),
        Setting::ModHz => Value::Number(0),
        Setting::HudMode => Value::Hud(HudMode::Full),
        Setting::Simulation => Value::Toggle(true),
        Setting::ModLogic => Value::Toggle(true),
        Setting::Autosave => Value::Toggle(true),
        Setting::Minimap => Value::Toggle(true),
        Setting::ModHud => Value::Toggle(true),
        Setting::PlayerModels => Value::Toggle(true),
        Setting::NameTags => Value::Toggle(true),
        Setting::Fullscreen => Value::Toggle(false),
        Setting::Vsync => Value::Toggle(false),
        Setting::Lighting => Value::Toggle(true),
        Setting::Msaa => Value::Number(1),
        Setting::MaxFps => Value::Number(0),
        Setting::RenderDistance => Value::Number(6),
        Setting::Fov => Value::Real(Real32 { bits: 0x42B4_0000 }),
        Setting::RenderScale => Value::Real(Real32 { bits: 0x3F80_0000 }),
        Setting::UiScale => Value::Real(Real32 { bits: 0x3F80_0000 }),
        Setting::MenuScale => Value::Real(Real32 { bits: 0x3F80_0000 }),
        Setting::Shake => Value::Real(Real32 { bits: 0x3F80_0000 }),
        Setting::Lod2 => Value::Toggle(false),
        Setting::Occlusion => Value::Toggle(true),
        Setting::Sky => Value::Toggle(true),
        Setting::Sunlight => Value::Toggle(true),
        Setting::Ambient => Value::Toggle(false),
        Setting::Shadows => Value::Toggle(false),
        Setting::Blocklight => Value::Toggle(false),
        Setting::Fog => Value::Toggle(false),
        Setting::Clouds => Value::Toggle(true),
        Setting::Weather => Value::Toggle(true),
        Setting::Stars => Value::Toggle(true),
        Setting::DayNight => Value::Toggle(true),
        Setting::Bloom => Value::Toggle(true),
        Setting::Godrays => Value::Toggle(true),
        Setting::Exposure => Value::Toggle(false),
        Setting::Taa => Value::Toggle(false),
        Setting::Vrs => Value::Vrs(VrsChoice::Auto),
        Setting::WaterAnim => Value::Toggle(true),
        Setting::Ao => Value::Toggle(true),
        Setting::Vignette => Value::Toggle(false),
        Setting::MasterVolume => Value::Number(80),
        Setting::EffectsVolume => Value::Number(100),
        Setting::VoiceVolume => Value::Number(100),
        Setting::VoiceEnabled => Value::Toggle(true),
        Setting::VoiceIncoming => Value::Toggle(true),
    }
}

/// State of the running session, never persisted.
#[derive(Clone, PartialEq, Debug)]
pub struct Session {
    /// Developer switch for six-way culling.
    pub cull_faces: bool,
    /// Transient mute.
    pub muted: bool,
    /// The device's MSAA ceiling.
    pub device_max_msaa: u32,
    /// Device-local heap size.
    pub device_local_memory_bytes: Option<u64>,
    /// Free device-local bytes.
    pub available_device_bytes: Option<u64>,
    /// Line to show about reduced graphics.
    pub vram_notice: Option<String>,
    /// MSAA that the engine allocated after a fallback.
    pub session_msaa: Option<u32>,
    /// Render scale that the engine allocated after a fallback.
    pub session_render_scale: Option<Real32>,
    /// Whether the engine allocated less than was asked for.
    pub render_target_fallback: bool,
    /// The MSAA request that the fallback answers.
    pub fallback_request_msaa: Option<u32>,
    /// The scale request that the fallback answers.
    pub fallback_request_scale: Option<Real32>,
    /// Largest connected display.
    pub startup_display_w: u32,
    pub startup_display_h: u32,
    /// Last window size.
    pub window_w: u32,
    pub window_h: u32,
    /// Last render extent.
    pub render_w: u32,
    pub render_h: u32,
}

impl Default for Session {
    fn default() -> (s: Self)
        ensures
            s == Session::default_spec(),
    {
        Session {
            cull_faces: false,
            muted: false,
            device_max_msaa: 8,
            device_local_memory_bytes: None,
            available_device_bytes: None,
            vram_notice: None,
            session_msaa: None,
            session_render_scale: None,
            render_target_fallback: false,
            fallback_request_msaa: None,
            fallback_request_scale: None,
            startup_display_w: 1280,
            startup_display_h: 720,
            window_w: 1280,
            window_h: 720,
            render_w: 1280,
            render_h: 720,
        }
    }
}

impl Session {
    /// The state of a session that has not met its device yet.
    pub open spec fn default_spec() -> Session {
        Session {
            cull_faces: false,
            muted: false,
            device_max_msaa: 8,
            device_local_memory_bytes: None,
            available_device_bytes: None,
            vram_notice: None,
            session_msaa: None,
            session_render_scale: None,
            render_target_fallback: false,
            fallback_request_msaa: None,
            fallback_request_scale: None,
            startup_display_w: 1280,
            startup_display_h: 720,
            window_w: 1280,
            window_h: 720,
            render_w: 1280,
            render_h: 720,
        }
    }
}

/// All settings in table order, and the state of the session.
#[derive(Clone, PartialEq, Debug)]
pub struct Settings {
    values: Vec<Value>,
    pub session: Session,
}

impl Settings {
    /// The values in table order.
    pub closed spec fn view(self) -> Seq<Value> {
        self.values@
    }

    /// The state of the session.
    pub closed spec fn session_spec(self) -> Session {
        self.session
    }

    /// Whether every setting holds a value of its kind.
    pub open spec fn wf(self) -> bool {
        &&& self@.len() == SETTING_COUNT
        &&& forall|t: Setting| #[trigger] fits(t.kind_spec(), self.value_spec(t))
    }

    /// The value of a setting.
    pub open spec fn value_spec(self, t: Setting) -> Value {
        self@[t.index_spec() as int]
    }

    /// The value of a setting.
    pub fn value(&self, t: Setting) -> (v: Value)
        requires
            self.wf(),
        ensures
            v == self.value_spec(t),
            fits(t.kind_spec(), v),
    {
        proof {
            lemma_index_at(t, 0);
            assert(fits(t.kind_spec(), self.value_spec(t)));
        }
        self.values[t.index()]
    }

    /// Stores the value of a setting and changes nothing else.
    pub fn put(&mut self, t: Setting, v: Value)
        requires
            old(self).wf(),
            fits(t.kind_spec(), v),
        ensures
            final(self).wf(),
            final(self)@ == old(self)@.update(t.index_spec() as int, v),
            final(self).value_spec(t) == v,
            forall|u: Setting|
                u != t ==> #[trigger] final(self).value_spec(u) == old(self).value_spec(u),
            final(self).session_spec() == old(self).session_spec(),
    {
        proof {
            lemma_index_at(t, 0);
        }
        self.values.set(t.index(), v);
        proof {
            assert forall|u: Setting| u != t implies #[trigger] self.value_spec(u) == old(
                self).value_spec(u) by {
                lemma_index_at(u, 0);
            }
            assert forall|u: Setting| #[trigger] fits(u.kind_spec(), self.value_spec(u)) by {
                assert(fits(u.kind_spec(), old(self).value_spec(u)));
            }
        }
    }

    /// The settings with one value replaced.
    pub fn with(self, t: Setting, v: Value) -> (r: Self)
        requires
            self.wf(),
            fits(t.kind_spec(), v),
        ensures
            r.wf(),
            r@ == self@.update(t.index_spec() as int, v),
            r.session_spec() == self.session_spec(),
    {
        let mut r = self;
        r.put(t, v);
        r
    }

    /// The state of the session.
    pub fn session(&self) -> (s: &Session)
        ensures
            *s == self.session_spec(),
    {
        &self.session
    }

    /// Replaces the state of the session and hands back what it was.
    pub fn replace_session(&mut self, session: Session) -> (was: Session)
        ensures
            final(self)@ == old(self)@,
            old(self).wf() ==> final(self).wf(),
            final(self).session_spec() == session,
            was == old(self).session_spec(),
    {
        let mut was = session;
        core::mem::swap(&mut was, &mut self.session);
        proof {
            if old(self).wf() {
                assert forall|t: Setting| #[trigger] fits(t.kind_spec(), self.value_spec(t)) by {
                    assert(fits(t.kind_spec(), old(self).value_spec(t)));
                }
            }
        }
        was
    }

    /// The device's MSAA ceiling.
    pub fn device_max_msaa(&self) -> (n: u32)
        ensures
            n == self.session_spec().device_max_msaa,
    {
        self.session.device_max_msaa
    }

    /// A switch.
    pub fn toggle(&self, t: Setting) -> (b: bool)
        requires
            self.wf(),
            t.kind_spec() == ValueKind::Toggle,
        ensures
            self.value_spec(t) == Value::Toggle(b),
    {
        match self.value(t) {
            Value::Toggle(b) => b,
            _ => false,
        }
    }

    /// A number.
    pub fn number(&self, t: Setting) -> (n: i64)
        requires
            self.wf(),
            t.kind_spec() == ValueKind::U8 || t.kind_spec() == ValueKind::U32 || t.kind_spec()
                == ValueKind::I32,
        ensures
            self.value_spec(t) == Value::Number(n),
            fits(t.kind_spec(), Value::Number(n)),
    {
        match self.value(t) {
            Value::Number(n) => n,
            _ => 0,
        }
    }

    /// A real number.
    pub fn real32(&self, t: Setting) -> (x: Real32)
        requires
            self.wf(),
            t.kind_spec() == ValueKind::Real,
        ensures
            self.value_spec(t) == Value::Real(x),
    {
        match self.value(t) {
            Value::Real(x) => x,
            _ => Real32 { bits: 0 },
        }
    }

    /// The performance profile.
    pub fn preset(&self) -> (p: Preset)
        requires
            self.wf(),
        ensures
            self.value_spec(Setting::Preset) == Value::Preset(p),
    {
        match self.value(Setting::Preset) {
            Value::Preset(p) => p,
            _ => Preset::Custom,
        }
    }

    /// The HUD mode.
    pub fn hud_mode(&self) -> (m: HudMode)
        requires
            self.wf(),
        ensures
            self.value_spec(Setting::HudMode) == Value::Hud(m),
    {
        match self.value(Setting::HudMode) {
            Value::Hud(m) => m,
            _ => HudMode::Full,
        }
    }

    /// The shading-rate choice.
    pub fn vrs(&self) -> (c: VrsChoice)
        requires
            self.wf(),
        ensures
            self.value_spec(Setting::Vrs) == Value::Vrs(c),
    {
        match self.value(Setting::Vrs) {
            Value::Vrs(c) => c,
            _ => VrsChoice::Auto,
        }
    }
}

impl Default for Settings {
    /// The shipped settings.
    fn default() -> (s: Self)
        ensures
            s.wf(),
            forall|t: Setting| #[trigger] s.value_spec(t) == default_value_spec(t),
            s.session_spec() == Session::default_spec(),
    {
        let mut values: Vec<Value> = Vec::with_capacity(SETTING_COUNT);
        let mut i: usize = 0;
        while i < SETTING_COUNT
            invariant
                i <= SETTING_COUNT,
                values@.len() == i,
                forall|j: int|
                    0 <= j < i ==> #[trigger] values@[j] == default_value_spec(Setting::at_spec(j)),
                forall|j: int|
                    0 <= j < i ==> fits(Setting::at_spec(j).kind_spec(), #[trigger] values@[j]),
            decreases SETTING_COUNT - i,
        {
            values.push(default_value(Setting::at(i)));
            i = i + 1;
        }
        let s = Settings { values, session: Session::default() };
        proof {
            assert forall|t: Setting| #[trigger] s.value_spec(t) == default_value_spec(t) by {
                lemma_index_at(t, 0);
            }
            assert forall|t: Setting| #[trigger] fits(t.kind_spec(), s.value_spec(t)) by {
                lemma_index_at(t, 0);
            }
        }
        s
    }
}

} // verus!
