//! Texts for the menu and the console.
use vstd::prelude::*;
use vstd::string::*;

use crate::settings::edit::{on_off, on_off_spec};
use crate::settings::limits::{
    clamp_i64, number_of, LOD_DETAIL_MAX, LOD_DETAIL_MIN, LOD_LEVELS_MAX, LOD_LEVELS_MIN,
    VIEW_RADIUS_MAX,
};
use crate::settings::lists::clamp_int;
use crate::settings::session::scale_is_auto;
use crate::settings::state::{Preset, Settings, Value};
use crate::settings::table::{Setting, ValueKind};
use crate::text::{decimal, push_decimal, push_signed, signed_decimal};
use crate::ui::HudMode;

verus! {

/// Two to the power `k`, for small `k`.
pub open spec fn doubled(k: int) -> int
    decreases k,
{
    if k <= 0 {
        1
    } else {
        2 * doubled(k - 1)
    }
}

fn doubled_of(k: i64) -> (r: u64)
    requires
        0 <= k <= 8,
    ensures
        r == doubled(k as int),
        1 <= r <= 256,
{
    proof {
        reveal_with_fuel(doubled, 9);
    }
    let mut r: u64 = 1;
    let mut i: i64 = 0;
    while i < k
        invariant
            0 <= i <= k <= 8,
            r == doubled(i as int),
            i == 0 ==> r == 1,
            r <= 256,
            r * doubled(k - i) == doubled(k as int),
            doubled(k as int) <= 256,
            doubled(k - i) >= 1,
        decreases k - i,
    {
        proof {
            assert(doubled(k - i) == 2 * doubled(k - i - 1));
            lemma_doubled_positive(k - i - 1);
            assert((2 * r) * doubled(k - i - 1) == r * doubled(k - i)) by (nonlinear_arith)
                requires
                    doubled(k - i) == 2 * doubled(k - i - 1),
            ;
            assert(2 * r <= (2 * r) * doubled(k - i - 1)) by (nonlinear_arith)
                requires
                    doubled(k - i - 1) >= 1,
                    r >= 0,
            ;
        }
        r = 2 * r;
        i = i + 1;
    }
    proof {
        lemma_doubled_positive(k as int);
    }
    r
}

proof fn lemma_doubled_positive(k: int)
    ensures
        doubled(k) >= 1,
    decreases k,
{
    if k > 0 {
        lemma_doubled_positive(k - 1);
    }
}

/// The approximate reach of distant terrain in metres.
pub open spec fn lod_range_spec(vals: Seq<Value>) -> int {
    let radius = clamp_int(number_of(vals, Setting::RenderDistance), 0, VIEW_RADIUS_MAX as int);
    let levels = clamp_int(
        number_of(vals, Setting::LodLevels),
        LOD_LEVELS_MIN as int,
        LOD_LEVELS_MAX as int,
    );
    (if radius < 1 {
        1
    } else {
        radius
    }) * 16 * doubled(levels)
}

/// The approximate reach of distant terrain in metres.
pub fn lod_range_metres(s: &Settings) -> (m: u64)
    requires
        s.wf(),
    ensures
        m == lod_range_spec(s@),
{
    let radius: i64 = clamp_i64(s.number(Setting::RenderDistance), 0, VIEW_RADIUS_MAX);
    let levels: i64 = clamp_i64(s.number(Setting::LodLevels), LOD_LEVELS_MIN, LOD_LEVELS_MAX);
    let unit: u64 = if radius < 1 {
        1
    } else {
        radius as u64
    };
    let scale: u64 = doubled_of(levels);
    assert(unit * 16 * scale <= 20 * 16 * 256) by (nonlinear_arith)
        requires
            unit <= 20,
            scale <= 256,
    ;
    unit * 16 * scale
}

/// The cell size of distant terrain in metres.
pub open spec fn lod_cell_spec(detail: int) -> int {
    doubled(clamp_int(detail, LOD_DETAIL_MIN as int, LOD_DETAIL_MAX as int))
}

/// The cell size of distant terrain in metres.
pub fn lod_cell_metres(detail: i64) -> (m: u64)
    ensures
        m == lod_cell_spec(detail as int),
{
    doubled_of(clamp_i64(detail, LOD_DETAIL_MIN, LOD_DETAIL_MAX))
}

/// Text for an update rate.
pub open spec fn rate_name_spec(rate: int) -> Seq<char> {
    if rate == 0 {
        "Every frame"@
    } else {
        decimal(rate as nat) + " Hz"@
    }
}

fn push_rate(out: &mut String, rate: i64)
    requires
        0 <= rate,
    ensures
        final(out)@ == old(out)@ + rate_name_spec(rate as int),
{
    if rate == 0 {
        out.append("Every frame");
    } else {
        push_decimal(out, rate as u64);
        out.append(" Hz");
        assert(out@ =~= old(out)@ + rate_name_spec(rate as int));
    }
}

/// The lower-case label of a profile.
pub open spec fn preset_word(p: Preset) -> Seq<char> {
    match p {
        Preset::Custom => "custom"@,
        Preset::Minimum => "minimum"@,
        Preset::Fast => "fast"@,
        Preset::Default => "default"@,
    }
}

fn preset_word_of(p: Preset) -> (s: &'static str)
    ensures
        s@ == preset_word(p),
{
    match p {
        Preset::Custom => "custom",
        Preset::Minimum => "minimum",
        Preset::Fast => "fast",
        Preset::Default => "default",
    }
}

/// The lower-case label of a HUD mode.
pub open spec fn hud_word(m: HudMode) -> Seq<char> {
    match m {
        HudMode::Full => "full"@,
        HudMode::Minimal => "minimal"@,
        HudMode::Off => "off"@,
    }
}

fn hud_word_of(m: HudMode) -> (s: &'static str)
    ensures
        s@ == hud_word(m),
{
    match m {
        HudMode::Full => "full",
        HudMode::Minimal => "minimal",
        HudMode::Off => "off",
    }
}

/// The menu text for the value of a setting that holds no real number.
pub open spec fn show_spec(vals: Seq<Value>, t: Setting) -> Seq<char> {
    match vals[t.index_spec() as int] {
        Value::Toggle(b) => on_off_spec(b, true),
        Value::Preset(p) => p.label_spec(),
        Value::Hud(m) => m.label_spec(),
        Value::Vrs(c) => c.label_spec(),
        Value::Real(_) => Seq::empty(),
        Value::Number(n) => match t {
            Setting::LodLevels => decimal(n as nat) + " levels (~"@ + decimal(
                lod_range_spec(vals) as nat,
            ) + " m)"@,
            Setting::LodDetail => decimal(lod_cell_spec(n as int) as nat) + " m cells"@,
            Setting::StreamHz | Setting::PhysicsHz | Setting::SkyHz
            | Setting::ModHz => rate_name_spec(n as int),
            Setting::Msaa => decimal(n as nat) + "x"@,
            Setting::MaxFps => if n == 0 {
                "Uncapped"@
            } else {
                decimal(n as nat)
            },
            Setting::MasterVolume | Setting::EffectsVolume | Setting::VoiceVolume => decimal(
                n as nat,
            ) + "%"@,
            _ => signed_decimal(n as int),
        },
    }
}

/// The name that a confirmation line starts with.
pub open spec fn confirm_name(t: Setting) -> Seq<char> {
    match t {
        Setting::Preset => "performance preset "@,
        Setting::VerticalDistance => "vertical distance "@,
        Setting::LodLevels => "LOD range "@,
        Setting::LodDetail => "LOD quality "@,
        Setting::StreamHz => "streaming "@,
        Setting::PhysicsHz => "physics "@,
        Setting::SkyHz => "sky clock "@,
        Setting::ModHz => "mod updates "@,
        Setting::HudMode => "HUD "@,
        Setting::MaxFps => "fps cap "@,
        Setting::RenderDistance => "render distance "@,
        Setting::RenderScale => "render scale "@,
        Setting::UiScale => "ui scale "@,
        Setting::MenuScale => "menu scale "@,
        Setting::Shake => "camera shake "@,
        _ => t.key_spec() + " "@,
    }
}

/// The console line that confirms the value of a setting that holds no real number.
pub open spec fn confirm_spec(vals: Seq<Value>, t: Setting) -> Seq<char> {
    confirm_name(t) + match vals[t.index_spec() as int] {
        Value::Toggle(b) => on_off_spec(b, false),
        Value::Preset(p) => preset_word(p),
        Value::Hud(m) => hud_word(m),
        Value::Vrs(c) => c.code_spec(),
        Value::Number(n) => match t {
            Setting::StreamHz | Setting::PhysicsHz | Setting::SkyHz | Setting::ModHz => if n
                == 0 {
                "every frame"@
            } else {
                decimal(n as nat) + " Hz"@
            },
            Setting::MaxFps => if n == 0 {
                "off"@
            } else {
                decimal(n as nat)
            },
            _ => show_spec(vals, t),
        },
        Value::Real(_) => Seq::empty(),
    }
}

/// The menu text of a setting that holds a real number, which is printed as `number`:
/// scales in percent, or as the scale that the default profile picks.
pub open spec fn real_text(vals: Seq<Value>, t: Setting, number: Seq<char>) -> Seq<char> {
    match t {
        Setting::Fov => number,
        Setting::RenderScale => if scale_is_auto(vals) {
            "Auto ("@ + number + ")"@
        } else {
            number + "%"@
        },
        _ => number + "%"@,
    }
}

impl Setting {
    /// The menu text for the current value of a setting that holds a real number, which
    /// the caller prints as `number`.
    pub fn show_real(self, s: &Settings, number: &str) -> (out: String)
        requires
            s.wf(),
            self.kind_spec() == ValueKind::Real,
        ensures
            out@ == real_text(s@, self, number@),
    {
        let mut out: String = String::new();
        assert(out@ =~= Seq::empty());
        self.push_real(s, number, &mut out);
        assert(out@ =~= real_text(s@, self, number@));
        out
    }

    /// The console line that confirms the value of a setting that holds a real number,
    /// which the caller prints as `number`.
    pub fn confirm_real(self, s: &Settings, number: &str) -> (out: String)
        requires
            s.wf(),
            self.kind_spec() == ValueKind::Real,
        ensures
            out@ == confirm_name(self) + real_text(s@, self, number@),
    {
        let mut out: String = String::new();
        assert(out@ =~= Seq::empty());
        self.push_confirm_name(&mut out);
        assert(out@ =~= confirm_name(self));
        self.push_real(s, number, &mut out);
        out
    }

    fn push_real(self, s: &Settings, number: &str, out: &mut String)
        requires
            s.wf(),
            self.kind_spec() == ValueKind::Real,
        ensures
            final(out)@ == old(out)@ + real_text(s@, self, number@),
    {
        if self == Setting::RenderScale && s.render_scale_auto() {
            out.append("Auto (");
            out.append(number);
            out.append(")");
        } else {
            out.append(number);
            if self != Setting::Fov {
                out.append("%");
            }
        }
        assert(out@ =~= old(out)@ + real_text(s@, self, number@));
    }

    /// The menu text for the current value. Real settings are shown by
    /// [`Setting::show_real`].
    pub fn show(self, s: &Settings) -> (out: String)
        requires
            s.wf(),
            self.kind_spec() != ValueKind::Real,
        ensures
            out@ == show_spec(s@, self),
    {
        let mut out: String = String::new();
        assert(out@ =~= Seq::empty());
        self.push_show(s, &mut out);
        assert(out@ =~= show_spec(s@, self));
        out
    }

    fn push_show(self, s: &Settings, out: &mut String)
        requires
            s.wf(),
            self.kind_spec() != ValueKind::Real,
        ensures
            final(out)@ == old(out)@ + show_spec(s@, self),
    {
        let ghost before = out@;
        match s.value(self) {
            Value::Toggle(b) => out.append(on_off(b, true)),
            Value::Preset(p) => out.append(p.label()),
            Value::Hud(m) => out.append(m.label()),
            Value::Vrs(c) => out.append(c.label()),
            Value::Real(_) => {},
            Value::Number(n) => match self {
                Setting::LodLevels => {
                    push_decimal(out, n as u64);
                    out.append(" levels (~");
                    push_decimal(out, lod_range_metres(s));
                    out.append(" m)");
                    assert(out@ =~= before + show_spec(s@, self));
                },
                Setting::LodDetail => {
                    push_decimal(out, lod_cell_metres(n));
                    out.append(" m cells");
                    assert(out@ =~= before + show_spec(s@, self));
                },
                Setting::StreamHz | Setting::PhysicsHz | Setting::SkyHz | Setting::ModHz => {
                    push_rate(out, n);
                },
                Setting::Msaa => {
                    push_decimal(out, n as u64);
                    out.append("x");
                    assert(out@ =~= before + show_spec(s@, self));
                },
                Setting::MaxFps => {
                    if n == 0 {
                        out.append("Uncapped");
                    } else {
                        push_decimal(out, n as u64);
                    }
                },
                Setting::MasterVolume | Setting::EffectsVolume | Setting::VoiceVolume => {
                    push_decimal(out, n as u64);
                    out.append("%");
                    assert(out@ =~= before + show_spec(s@, self));
                },
                _ => push_signed(out, n),
            },
        }
    }

    fn push_confirm_name(self, out: &mut String)
        ensures
            final(out)@ == old(out)@ + confirm_name(self),
    {
        match self {
            Setting::Preset => out.append("performance preset "),
            Setting::VerticalDistance => out.append("vertical distance "),
            Setting::LodLevels => out.append("LOD range "),
            Setting::LodDetail => out.append("LOD quality "),
            Setting::StreamHz => out.append("streaming "),
            Setting::PhysicsHz => out.append("physics "),
            Setting::SkyHz => out.append("sky clock "),
            Setting::ModHz => out.append("mod updates "),
            Setting::HudMode => out.append("HUD "),
            Setting::MaxFps => out.append("fps cap "),
            Setting::RenderDistance => out.append("render distance "),
            Setting::RenderScale => out.append("render scale "),
            Setting::UiScale => out.append("ui scale "),
            Setting::MenuScale => out.append("menu scale "),
            Setting::Shake => out.append("camera shake "),
            _ => {
                out.append(self.key());
                out.append(" ");
                assert(out@ =~= old(out)@ + (self.key_spec() + " "@));
            },
        }
    }

    /// The console line that confirms the current value. Real settings are
    /// confirmed by [`Setting::confirm_real`].
    pub fn confirm(self, s: &Settings) -> (out: String)
        requires
            s.wf(),
            self.kind_spec() != ValueKind::Real,
        ensures
            out@ == confirm_spec(s@, self),
    {
        let mut out: String = String::new();
        assert(out@ =~= Seq::empty());
        self.push_confirm_name(&mut out);
        assert(out@ =~= confirm_name(self));
        let ghost before = out@;
        match s.value(self) {
            Value::Toggle(b) => out.append(on_off(b, false)),
            Value::Preset(p) => out.append(preset_word_of(p)),
            Value::Hud(m) => out.append(hud_word_of(m)),
            Value::Vrs(c) => out.append(c.code()),
            Value::Real(_) => {},
            Value::Number(n) => match self {
                Setting::StreamHz | Setting::PhysicsHz | Setting::SkyHz | Setting::ModHz => {
                    if n == 0 {
                        out.append("every frame");
                    } else {
                        push_decimal(&mut out, n as u64);
                        out.append(" Hz");
                        assert(out@ =~= before + (decimal(n as nat) + " Hz"@));
                    }
                },
                Setting::MaxFps => {
                    if n == 0 {
                        out.append("off");
                    } else {
                        push_decimal(&mut out, n as u64);
                    }
                },
                _ => self.push_show(s, &mut out),
            },
        }
        out
    }
}

/// Every level doubles the range of the far field, which is never less than one chunk's
/// doubled: a chunk is sixteen metres.
pub proof fn lemma_levels_double_the_range(a: Seq<Value>, b: Seq<Value>)
    requires
        number_of(a, Setting::RenderDistance) == number_of(b, Setting::RenderDistance),
        1 <= number_of(a, Setting::LodLevels) < 8,
        number_of(b, Setting::LodLevels) == number_of(a, Setting::LodLevels) + 1,
    ensures
        lod_range_spec(b) == 2 * lod_range_spec(a),
        lod_range_spec(a) >= 32,
        1 <= number_of(a, Setting::RenderDistance) <= 20 && number_of(a, Setting::LodLevels) == 1
            ==> lod_range_spec(a) == 32 * number_of(a, Setting::RenderDistance),
{
    let n = number_of(a, Setting::LodLevels);
    let r = clamp_int(number_of(a, Setting::RenderDistance), 0, VIEW_RADIUS_MAX as int);
    let m = (if r < 1 {
        1
    } else {
        r
    }) * 16;
    lemma_doubled_positive(n);
    lemma_doubled_positive(n - 1);
    assert(doubled(n + 1) == 2 * doubled(n));
    assert(doubled(n) == 2 * doubled(n - 1));
    assert(m * (2 * doubled(n)) == 2 * (m * doubled(n))) by (nonlinear_arith);
    assert(m * doubled(n) >= 32) by (nonlinear_arith)
        requires
            m >= 16,
            doubled(n) >= 2,
    ;
    if n == 1 {
        assert(doubled(0) == 1);
        assert(doubled(1) == 2);
    }
}

/// Every step of detail doubles the side of a far cell, from four metres to sixty-four.
pub proof fn lemma_detail_doubles_cells(d: int)
    ensures
        2 <= d < 6 ==> lod_cell_spec(d + 1) == 2 * lod_cell_spec(d),
        d <= 2 ==> lod_cell_spec(d) == 4,
        d >= 6 ==> lod_cell_spec(d) == 64,
{
    assert(doubled(0) == 1);
    assert(doubled(1) == 2);
    assert(doubled(2) == 4);
    assert(doubled(3) == 8);
    assert(doubled(4) == 16);
    assert(doubled(5) == 32);
    assert(doubled(6) == 64);
}

/// What is shown tells values apart: two values of one switch, profile or mode never show
/// alike.
pub proof fn lemma_choices_show_apart(a: Seq<Value>, b: Seq<Value>, t: Setting)
    requires
        t.kind_spec() == ValueKind::Toggle,
        a[t.index_spec() as int] is Toggle,
        b[t.index_spec() as int] is Toggle,
        show_spec(a, t) == show_spec(b, t),
    ensures
        a[t.index_spec() as int] == b[t.index_spec() as int],
{
    let (x, y) = (a[t.index_spec() as int]->Toggle_0, b[t.index_spec() as int]->Toggle_0);
    crate::settings::edit::lemma_switch_words(x);
}

/// What a choice is confirmed with reads back as that choice.
pub proof fn lemma_confirmed_words_read_back(p: Preset, m: HudMode)
    ensures
        Preset::parse_spec(preset_word(p)) == Some(p),
        HudMode::parse_spec(hud_word(m)) == Some(m),
{
    reveal_strlit("custom");
    reveal_strlit("minimum");
    reveal_strlit("fast");
    reveal_strlit("default");
    reveal_strlit("min");
    reveal_strlit("full");
    reveal_strlit("minimal");
    reveal_strlit("off");
    reveal_strlit("0");
    reveal_strlit("1");
    reveal_strlit("2");
    reveal_strlit("3");
    assert("custom"@.len() == 6 && "minimum"@.len() == 7 && "fast"@.len() == 4);
    assert("default"@.len() == 7 && "default"@[0] == 'd' && "minimum"@[0] == 'm');
    assert("full"@.len() == 4 && "minimal"@.len() == 7 && "off"@.len() == 3);
    assert("min"@.len() == 3 && "min"@[0] == 'm' && "off"@[0] == 'o');
    assert("0"@.len() == 1 && "1"@.len() == 1 && "2"@.len() == 1 && "3"@.len() == 1);
}

/// A confirmation names its setting and tells the two states of a switch apart; a rate of
/// nothing is once a frame, and a cap of nothing is none.
pub proof fn lemma_confirmations_tell(vals: Seq<Value>, t: Setting, b: bool)
    ensures
        vals[t.index_spec() as int] == Value::Toggle(b) ==> confirm_spec(vals, t)
            == confirm_name(t) + (if b {
            "on"@
        } else {
            "off"@
        }),
        vals[t.index_spec() as int] == Value::Number(0) && (t == Setting::StreamHz || t
            == Setting::PhysicsHz || t == Setting::SkyHz || t == Setting::ModHz) ==> confirm_spec(
            vals,
            t,
        ) == confirm_name(t) + "every frame"@,
        vals[t.index_spec() as int] == Value::Number(0) && t == Setting::MaxFps ==> confirm_spec(
            vals,
            t,
        ) == confirm_name(t) + "off"@,
{
}

} // verus!
