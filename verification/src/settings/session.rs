//! What the settings ask of the renderer and the mixer in the running session.
//!
//! Sizing render targets to free memory and multiplying by a real scale happen
//! outside: their results come in as arguments.
use vstd::prelude::*;

use crate::settings::limits::{clamped_all, number_of, real_of};
use crate::settings::real32::Real32;
use crate::settings::state::{Preset, Session, Settings, Value, VrsChoice};
use crate::settings::table::Setting;
use crate::text::{decimal, push_decimal};

verus! {

/// Window pixels above which the default profile picks its own scale.
pub const AUTO_RENDER_SCALE_THRESHOLD_PX: u32 = 1_500_000;

/// Bits of the default profile's own scale: one.
pub const DEFAULT_AUTO_RENDER_SCALE_BITS: u32 = 0x3F80_0000;

/// What a device offers.
#[derive(Clone, Copy, PartialEq, Eq, Debug)]
pub struct DeviceCaps {
    pub device_local_memory_bytes: Option<u64>,
    pub available_device_bytes: Option<u64>,
    pub max_msaa: u32,
}

/// Samples and scale for a session, and a line about why they are reduced.
#[derive(Clone, PartialEq, Eq, Debug)]
pub struct SessionGraphics {
    pub msaa: u32,
    pub render_scale: Real32,
    pub notice: Option<String>,
}

/// The render lanes that the settings name.
#[derive(Clone, Copy, PartialEq, Eq, Debug, Structural)]
pub struct RenderConfig {
    pub occlusion: bool,
    pub lod2: bool,
    pub lod_levels: u8,
    pub lod_detail: u8,
    pub blocklight: bool,
    pub exposure: bool,
    pub bloom: bool,
    pub godrays: bool,
    pub clouds: bool,
    pub weather: bool,
    pub stars: bool,
    pub day_night: bool,
    pub taa: bool,
    pub fog: bool,
    pub ambient: bool,
    pub sunlight: bool,
    pub shadows: bool,
    pub sky: bool,
    pub vrs: bool,
    pub water_anim: bool,
    pub vignette: bool,
}

/// The audio mix: volumes in percent and two gates.
#[derive(Clone, Copy, PartialEq, Eq, Debug, Structural)]
pub struct MixChange {
    pub master: u8,
    pub effects: u8,
    pub voice: u8,
    pub muted: bool,
    pub deafen: bool,
}

/// What to push to the engine.
#[derive(Clone, PartialEq, Eq, Debug)]
pub struct EngineOrders {
    pub fullscreen: bool,
    pub msaa: u32,
    pub render_scale: Real32,
    pub cull_faces: bool,
    pub lanes: RenderConfig,
}

/// The lanes that render targets are fitted for: those that the settings name, with
/// antialiasing as the window's own scale asks.
pub open spec fn fitting_lanes_spec(
    vals: Seq<Value>,
    s: Session,
    width: u32,
    height: u32,
    auto_vrs: bool,
) -> RenderConfig {
    RenderConfig {
        taa: taa_at(vals, scale_for(vals, width, height)),
        ..render_config_spec(vals, s, auto_vrs)
    }
}

/// What the session knows of the device.
pub open spec fn caps_of(s: Session) -> DeviceCaps {
    DeviceCaps {
        device_local_memory_bytes: s.device_local_memory_bytes,
        available_device_bytes: s.available_device_bytes,
        max_msaa: s.device_max_msaa,
    }
}

/// What is asked of the render targets of a window.
#[derive(Clone, Copy, PartialEq, Eq, Debug)]
pub struct FitRequest {
    pub window: (u32, u32),
    pub scale: Real32,
    pub msaa: u32,
    pub lanes: RenderConfig,
    /// What the device offers.
    pub caps: DeviceCaps,
}

/// What the player is told where the engine allocated less than was asked: the samples,
/// and the scale in percent.
pub fn engine_applied_notice(msaa: u32, percent: u32) -> (line: String)
    ensures
        line@ == "the renderer could only allocate "@ + decimal(msaa as nat) + "x MSAA at "@
            + decimal(percent as nat) + "% scale this session"@,
{
    let mut line: String = String::new();
    line.append("the renderer could only allocate ");
    push_decimal(&mut line, msaa as u64);
    line.append("x MSAA at ");
    push_decimal(&mut line, percent as u64);
    line.append("% scale this session");
    assert(line@ =~= "the renderer could only allocate "@ + decimal(msaa as nat) + "x MSAA at "@
        + decimal(percent as nat) + "% scale this session"@);
    line
}

/// Whether a switch is on.
pub open spec fn is_on(vals: Seq<Value>, t: Setting) -> bool {
    vals[t.index_spec() as int] == Value::Toggle(true)
}

/// Whether the profile picks the render scale.
pub open spec fn scale_is_auto(vals: Seq<Value>) -> bool {
    vals[Setting::Preset.index_spec() as int] == Value::Preset(Preset::Default)
}

/// The default profile's scale for a window, where `auto` is its scale above the
/// threshold.
pub open spec fn window_scale_spec(w: u32, h: u32, auto: Real32) -> Real32 {
    if w * h > AUTO_RENDER_SCALE_THRESHOLD_PX {
        auto
    } else {
        Real32 { bits: 0x3F80_0000 }
    }
}

/// The default profile's scale for a window, where `auto` is its scale above the
/// threshold.
pub fn window_scale(w: u32, h: u32, auto: Real32) -> (r: Real32)
    ensures
        r == window_scale_spec(w, h, auto),
{
    assert(w * h <= u32::MAX * u32::MAX) by (nonlinear_arith)
        requires
            w <= u32::MAX,
            h <= u32::MAX,
    ;
    let px: u64 = w as u64 * h as u64;
    if px > AUTO_RENDER_SCALE_THRESHOLD_PX as u64 {
        auto
    } else {
        Real32 { bits: 0x3F80_0000 }
    }
}

/// The shipped scale of the default profile above the threshold.
pub open spec fn shipped_auto_scale() -> Real32 {
    Real32 { bits: DEFAULT_AUTO_RENDER_SCALE_BITS }
}

/// The default profile's scale for a window.
pub fn auto_render_scale(window_w: u32, window_h: u32) -> (r: Real32)
    ensures
        r == window_scale_spec(window_w, window_h, shipped_auto_scale()),
{
    window_scale(window_w, window_h, Real32 { bits: DEFAULT_AUTO_RENDER_SCALE_BITS })
}

/// The scale asked for a window.
pub open spec fn scale_for(vals: Seq<Value>, w: u32, h: u32) -> Real32 {
    if scale_is_auto(vals) {
        window_scale_spec(w, h, shipped_auto_scale())
    } else {
        real_of(vals, Setting::RenderScale)
    }
}

/// Whether temporal antialiasing runs at a scale: as set, or because the profile
/// renders below full scale.
pub open spec fn taa_at(vals: Seq<Value>, scale: Real32) -> bool {
    is_on(vals, Setting::Taa) || (scale_is_auto(vals) && !scale.is_nan_spec() && scale.rank()
        < 0x3F80_0000)
}

/// The scale that the session renders at: the engine's own after a fallback.
pub open spec fn live_scale(vals: Seq<Value>, s: Session) -> Real32 {
    match s.session_render_scale {
        Some(x) => if s.render_target_fallback {
            x
        } else {
            scale_for(vals, s.window_w, s.window_h)
        },
        None => scale_for(vals, s.window_w, s.window_h),
    }
}

/// Whether shading rate varies, given whether the extent asks for it.
pub open spec fn vrs_on(vals: Seq<Value>, auto_vrs: bool) -> bool {
    match vals[Setting::Vrs.index_spec() as int] {
        Value::Vrs(VrsChoice::Auto) => auto_vrs,
        Value::Vrs(VrsChoice::On) => true,
        _ => false,
    }
}

/// The render lanes that settings and session name.
#[verifier::opaque]
pub open spec fn render_config_spec(vals: Seq<Value>, s: Session, auto_vrs: bool) -> RenderConfig {
    RenderConfig {
        occlusion: is_on(vals, Setting::Occlusion),
        lod2: is_on(vals, Setting::Lod2),
        lod_levels: number_of(vals, Setting::LodLevels) as u8,
        lod_detail: number_of(vals, Setting::LodDetail) as u8,
        blocklight: is_on(vals, Setting::Blocklight),
        exposure: is_on(vals, Setting::Exposure),
        bloom: is_on(vals, Setting::Bloom),
        godrays: is_on(vals, Setting::Godrays),
        clouds: is_on(vals, Setting::Clouds),
        weather: is_on(vals, Setting::Weather),
        stars: is_on(vals, Setting::Stars),
        day_night: is_on(vals, Setting::DayNight),
        taa: taa_at(vals, live_scale(vals, s)),
        fog: is_on(vals, Setting::Fog),
        ambient: is_on(vals, Setting::Ambient),
        sunlight: is_on(vals, Setting::Sunlight),
        shadows: is_on(vals, Setting::Shadows),
        sky: is_on(vals, Setting::Sky),
        vrs: vrs_on(vals, auto_vrs),
        water_anim: is_on(vals, Setting::WaterAnim),
        vignette: is_on(vals, Setting::Vignette),
    }
}

/// At least one.
pub open spec fn at_least_one(n: u32) -> u32 {
    if n == 0 {
        1
    } else {
        n
    }
}

fn one_or(n: u32) -> (r: u32)
    ensures
        r == at_least_one(n),
{
    if n == 0 {
        1
    } else {
        n
    }
}

/// The session after an extent was noted.
pub open spec fn extent_noted(s: Session, window: (u32, u32), render: (u32, u32)) -> Session {
    Session {
        window_w: at_least_one(window.0),
        window_h: at_least_one(window.1),
        render_w: at_least_one(render.0),
        render_h: at_least_one(render.1),
        ..s
    }
}

/// The session after the engine reported what it allocated.
pub open spec fn fallback_noted(
    s: Session,
    requested: SessionGraphics,
    msaa: u32,
    scale: Real32,
    notice: String,
    window: (u32, u32),
    render: (u32, u32),
) -> Session {
    extent_noted(
        Session {
            session_msaa: Some(msaa),
            session_render_scale: Some(scale),
            render_target_fallback: true,
            fallback_request_msaa: Some(requested.msaa),
            fallback_request_scale: Some(requested.render_scale),
            vram_notice: Some(notice),
            ..s
        },
        window,
        render,
    )
}

/// Whether the engine's fallback answers this request. `same_scale` says that the
/// request's scale is the one that the fallback answers.
pub open spec fn fallback_answers(s: Session, fitted: SessionGraphics, same_scale: bool) -> bool {
    s.render_target_fallback && s.fallback_request_msaa == Some(fitted.msaa)
        && s.fallback_request_scale is Some && same_scale
}

/// Samples and scale for the session: the fitted request, or what the engine
/// allocated for it.
pub open spec fn session_graphics_spec(
    s: Session,
    fitted: SessionGraphics,
    same_scale: bool,
) -> SessionGraphics {
    if fallback_answers(s, fitted, same_scale) && s.session_msaa is Some
        && s.session_render_scale is Some {
        SessionGraphics {
            msaa: s.session_msaa->0,
            render_scale: s.session_render_scale->0,
            notice: if s.vram_notice is Some {
                s.vram_notice
            } else {
                fitted.notice
            },
        }
    } else {
        fitted
    }
}

/// The session once a fallback that answers another request is dropped.
pub open spec fn stale_dropped(s: Session, fitted: SessionGraphics, same_scale: bool) -> Session {
    if s.render_target_fallback && !fallback_answers(s, fitted, same_scale) {
        Session {
            session_msaa: None,
            session_render_scale: None,
            render_target_fallback: false,
            fallback_request_msaa: None,
            fallback_request_scale: None,
            ..s
        }
    } else {
        s
    }
}

fn copy_session(s: &Session) -> (r: Session)
    ensures
        r == *s,
{
    Session {
        cull_faces: s.cull_faces,
        muted: s.muted,
        device_max_msaa: s.device_max_msaa,
        device_local_memory_bytes: s.device_local_memory_bytes,
        available_device_bytes: s.available_device_bytes,
        vram_notice: copy_text(&s.vram_notice),
        session_msaa: s.session_msaa,
        session_render_scale: s.session_render_scale,
        render_target_fallback: s.render_target_fallback,
        fallback_request_msaa: s.fallback_request_msaa,
        fallback_request_scale: s.fallback_request_scale,
        startup_display_w: s.startup_display_w,
        startup_display_h: s.startup_display_h,
        window_w: s.window_w,
        window_h: s.window_h,
        render_w: s.render_w,
        render_h: s.render_h,
    }
}

fn copy_text(t: &Option<String>) -> (r: Option<String>)
    ensures
        r == *t,
{
    match t {
        Some(s) => Some(s.clone()),
        None => None,
    }
}

impl Settings {
    /// Installs what the device offers, and clamps: samples above the device's
    /// ceiling are refused.
    pub fn set_device_caps(&mut self, caps: DeviceCaps, display: (u32, u32))
        requires
            old(self).wf(),
        ensures
            final(self).wf(),
            final(self).session_spec() == (Session {
                device_max_msaa: at_least_one(caps.max_msaa),
                device_local_memory_bytes: caps.device_local_memory_bytes,
                available_device_bytes: caps.available_device_bytes,
                startup_display_w: at_least_one(display.0),
                startup_display_h: at_least_one(display.1),
                ..old(self).session_spec()
            }),
            final(self)@ == clamped_all(old(self)@, at_least_one(caps.max_msaa) as int),
    {
        let mut s = copy_session(self.session());
        s.device_max_msaa = one_or(caps.max_msaa);
        s.device_local_memory_bytes = caps.device_local_memory_bytes;
        s.available_device_bytes = caps.available_device_bytes;
        s.startup_display_w = one_or(display.0);
        s.startup_display_h = one_or(display.1);
        self.replace_session(s);
        self.clamp();
    }

    /// Whether the profile picks the render scale.
    pub fn render_scale_auto(&self) -> (b: bool)
        requires
            self.wf(),
        ensures
            b == scale_is_auto(self@),
    {
        self.preset() == Preset::Default
    }

    /// The scale asked for a window: the default profile's own, or the stored one.
    pub fn effective_render_scale(&self, window_w: u32, window_h: u32) -> (r: Real32)
        requires
            self.wf(),
        ensures
            r == scale_for(self@, window_w, window_h),
    {
        if self.render_scale_auto() {
            auto_render_scale(window_w, window_h)
        } else {
            self.real32(Setting::RenderScale)
        }
    }

    /// Whether temporal antialiasing runs at a scale.
    pub fn effective_taa(&self, scale: Real32) -> (b: bool)
        requires
            self.wf(),
        ensures
            b == taa_at(self@, scale),
    {
        self.toggle(Setting::Taa) || (self.render_scale_auto() && scale.below(
            Real32 { bits: 0x3F80_0000 },
        ))
    }

    /// The render lanes that the settings name. `auto_vrs` says whether the noted
    /// extent asks for a variable shading rate.
    pub fn render_config(&self, auto_vrs: bool) -> (r: RenderConfig)
        requires
            self.wf(),
        ensures
            r == render_config_spec(self@, self.session_spec(), auto_vrs),
    {
        reveal(render_config_spec);
        let s = self.session();
        let own = match s.session_render_scale {
            Some(x) => if s.render_target_fallback {
                Some(x)
            } else {
                None
            },
            None => None,
        };
        let scale = match own {
            Some(x) => x,
            None => self.effective_render_scale(s.window_w, s.window_h),
        };
        let vrs: bool = match self.vrs() {
            VrsChoice::Auto => auto_vrs,
            VrsChoice::On => true,
            VrsChoice::Off => false,
        };
        let levels: i64 = self.number(Setting::LodLevels);
        let detail: i64 = self.number(Setting::LodDetail);
        RenderConfig {
            occlusion: self.toggle(Setting::Occlusion),
            lod2: self.toggle(Setting::Lod2),
            lod_levels: levels as u8,
            lod_detail: detail as u8,
            blocklight: self.toggle(Setting::Blocklight),
            exposure: self.toggle(Setting::Exposure),
            bloom: self.toggle(Setting::Bloom),
            godrays: self.toggle(Setting::Godrays),
            clouds: self.toggle(Setting::Clouds),
            weather: self.toggle(Setting::Weather),
            stars: self.toggle(Setting::Stars),
            day_night: self.toggle(Setting::DayNight),
            taa: self.effective_taa(scale),
            fog: self.toggle(Setting::Fog),
            ambient: self.toggle(Setting::Ambient),
            sunlight: self.toggle(Setting::Sunlight),
            shadows: self.toggle(Setting::Shadows),
            sky: self.toggle(Setting::Sky),
            vrs,
            water_anim: self.toggle(Setting::WaterAnim),
            vignette: self.toggle(Setting::Vignette),
        }
    }

    /// The lanes that render targets are fitted for: those of [`Self::render_config`]
    /// with antialiasing as the window's own scale asks.
    pub fn fitting_lanes(&self, width: u32, height: u32, auto_vrs: bool) -> (r: RenderConfig)
        requires
            self.wf(),
        ensures
            r == fitting_lanes_spec(self@, self.session_spec(), width, height, auto_vrs),
    {
        let scale = self.effective_render_scale(width, height);
        let taa: bool = self.effective_taa(scale);
        let lanes = self.render_config(auto_vrs);
        RenderConfig { taa, ..lanes }
    }

    /// What is asked of a window's render targets, to be cut to what fits into memory.
    pub fn fit_request(&self, width: u32, height: u32, auto_vrs: bool) -> (r: FitRequest)
        requires
            self.wf(),
        ensures
            r.window == (width, height),
            r.scale == scale_for(self@, width, height),
            r.msaa == number_of(self@, Setting::Msaa) as u32,
            r.lanes == fitting_lanes_spec(self@, self.session_spec(), width, height, auto_vrs),
            r.caps == caps_of(self.session_spec()),
    {
        let scale = self.effective_render_scale(width, height);
        let samples: i64 = self.number(Setting::Msaa);
        let lanes = self.fitting_lanes(width, height, auto_vrs);
        let caps = self.device_caps();
        FitRequest { window: (width, height), scale, msaa: samples as u32, lanes, caps }
    }

    /// What the device offers.
    pub fn device_caps(&self) -> (r: DeviceCaps)
        ensures
            r == caps_of(self.session_spec()),
    {
        let s = self.session();
        DeviceCaps {
            device_local_memory_bytes: s.device_local_memory_bytes,
            available_device_bytes: s.available_device_bytes,
            max_msaa: s.device_max_msaa,
        }
    }

    /// Samples and scale for the session: what the engine allocated where its
    /// fallback answers the fitted request, else the request.
    pub fn session_graphics(&self, fitted: SessionGraphics, same_scale: bool) -> (r:
        SessionGraphics)
        ensures
            r == session_graphics_spec(self.session_spec(), fitted, same_scale),
    {
        let s = self.session();
        let asked: bool = match s.fallback_request_msaa {
            Some(m) => m == fitted.msaa,
            None => false,
        };
        if s.render_target_fallback && asked && s.fallback_request_scale.is_some() && same_scale {
            if let Some(msaa) = s.session_msaa {
                if let Some(scale) = s.session_render_scale {
                    let notice = if s.vram_notice.is_some() {
                        copy_text(&s.vram_notice)
                    } else {
                        fitted.notice
                    };
                    return SessionGraphics { msaa, render_scale: scale, notice };
                }
            }
        }
        fitted
    }

    /// Records the window and the render extent.
    pub fn note_render_extent(&mut self, window: (u32, u32), render: (u32, u32))
        ensures
            final(self)@ == old(self)@,
            final(self).session_spec() == extent_noted(old(self).session_spec(), window, render),
    {
        let mut s = copy_session(self.session());
        s.window_w = one_or(window.0);
        s.window_h = one_or(window.1);
        s.render_w = one_or(render.0);
        s.render_h = one_or(render.1);
        self.replace_session(s);
    }

    /// Adopts the samples and scale that the engine allocated. `differs` says that
    /// they are not those requested, `same_scale` that the scale is the one adopted
    /// before. Stored settings never change, and nothing does where the engine
    /// allocated what was asked or what is adopted already. The answer is whether the
    /// session changed.
    pub fn adopt_engine_applied(
        &mut self,
        requested: &SessionGraphics,
        applied: (u32, Real32),
        differs: bool,
        same_scale: bool,
        notice: String,
        window: (u32, u32),
        render: (u32, u32),
    ) -> (changed: bool)
        ensures
            final(self)@ == old(self)@,
            ({
                let s = old(self).session_spec();
                let already = s.render_target_fallback && s.session_msaa == Some(applied.0)
                    && s.session_render_scale is Some && same_scale;
                &&& changed == (differs && !already)
                &&& final(self).session_spec() == if changed {
                    fallback_noted(s, *requested, applied.0, applied.1, notice, window, render)
                } else {
                    s
                }
            }),
    {
        if !differs {
            return false;
        }
        let mut s = copy_session(self.session());
        let adopted: bool = match s.session_msaa {
            Some(m) => m == applied.0,
            None => false,
        };
        if s.render_target_fallback && adopted && s.session_render_scale.is_some() && same_scale {
            return false;
        }
        s.session_msaa = Some(applied.0);
        s.session_render_scale = Some(applied.1);
        s.render_target_fallback = true;
        s.fallback_request_msaa = Some(requested.msaa);
        s.fallback_request_scale = Some(requested.render_scale);
        s.vram_notice = Some(notice);
        self.replace_session(s);
        self.note_render_extent(window, render);
        true
    }

    /// Drops an engine fallback that answers another request than the fitted one.
    pub fn drop_stale_fallback(&mut self, fitted: &SessionGraphics, same_scale: bool)
        ensures
            final(self)@ == old(self)@,
            final(self).session_spec() == stale_dropped(
                old(self).session_spec(),
                *fitted,
                same_scale,
            ),
    {
        let mut s = copy_session(self.session());
        let asked: bool = match s.fallback_request_msaa {
            Some(m) => m == fitted.msaa,
            None => false,
        };
        let answers: bool = asked && s.fallback_request_scale.is_some() && same_scale;
        if s.render_target_fallback && !answers {
            s.session_msaa = None;
            s.session_render_scale = None;
            s.render_target_fallback = false;
            s.fallback_request_msaa = None;
            s.fallback_request_scale = None;
            self.replace_session(s);
        }
    }

    /// Takes over the line about reduced graphics.
    pub fn adopt_vram_notice(&mut self, notice: Option<String>)
        ensures
            final(self)@ == old(self)@,
            final(self).session_spec() == (Session {
                vram_notice: notice,
                ..old(self).session_spec()
            }),
    {
        let mut s = copy_session(self.session());
        s.vram_notice = notice;
        self.replace_session(s);
    }

    /// The orders for the engine, given the request fitted to free memory. First a
    /// fallback that answers another request is dropped; without a fallback the
    /// fitted request's line about reduced graphics is taken over.
    pub fn apply(&mut self, fitted: SessionGraphics, same_scale: bool) -> (g: SessionGraphics)
        ensures
            final(self)@ == old(self)@,
            ({
                let s = stale_dropped(old(self).session_spec(), fitted, same_scale);
                &&& g == session_graphics_spec(s, fitted, same_scale)
                &&& final(self).session_spec() == if s.render_target_fallback {
                    s
                } else {
                    Session { vram_notice: g.notice, ..s }
                }
            }),
    {
        self.drop_stale_fallback(&fitted, same_scale);
        let g = self.session_graphics(fitted, same_scale);
        if !self.session().render_target_fallback {
            self.adopt_vram_notice(copy_text(&g.notice));
        }
        g
    }

    /// What to push to the engine once the session's extent is noted.
    pub fn engine_orders(&self, graphics: &SessionGraphics, auto_vrs: bool) -> (r: EngineOrders)
        requires
            self.wf(),
        ensures
            r == (EngineOrders {
                fullscreen: is_on(self@, Setting::Fullscreen),
                msaa: graphics.msaa,
                render_scale: graphics.render_scale,
                cull_faces: self.session_spec().cull_faces,
                lanes: render_config_spec(self@, self.session_spec(), auto_vrs),
            }),
    {
        EngineOrders {
            fullscreen: self.toggle(Setting::Fullscreen),
            msaa: graphics.msaa,
            render_scale: graphics.render_scale,
            cull_faces: self.session().cull_faces,
            lanes: self.render_config(auto_vrs),
        }
    }

    /// The audio mix: volumes in percent, the transient mute, and whether incoming
    /// voice is silenced.
    pub fn mix_change(&self) -> (r: MixChange)
        requires
            self.wf(),
        ensures
            r == (MixChange {
                master: number_of(self@, Setting::MasterVolume) as u8,
                effects: number_of(self@, Setting::EffectsVolume) as u8,
                voice: number_of(self@, Setting::VoiceVolume) as u8,
                muted: self.session_spec().muted,
                deafen: !is_on(self@, Setting::VoiceIncoming),
            }),
    {
        let master: i64 = self.number(Setting::MasterVolume);
        let effects: i64 = self.number(Setting::EffectsVolume);
        let voice: i64 = self.number(Setting::VoiceVolume);
        MixChange {
            master: master as u8,
            effects: effects as u8,
            voice: voice as u8,
            muted: self.session().muted,
            deafen: !self.toggle(Setting::VoiceIncoming),
        }
    }
}

/// Once the engine's allocation for a request is adopted, the same request is
/// answered with that allocation.
pub proof fn lemma_adopted_fallback_answers(
    s: Session,
    requested: SessionGraphics,
    msaa: u32,
    scale: Real32,
    notice: String,
    window: (u32, u32),
    render: (u32, u32),
)
    ensures
        ({
            let after = fallback_noted(s, requested, msaa, scale, notice, window, render);
            session_graphics_spec(after, requested, true) == (SessionGraphics {
                msaa,
                render_scale: scale,
                notice: Some(notice),
            })
        }),
{
}

/// Every lane of the renderer follows the switch of its name.
pub proof fn lemma_lanes_follow_their_switches(vals: Seq<Value>, s: Session, auto_vrs: bool)
    ensures
        ({
            let c = render_config_spec(vals, s, auto_vrs);
            let on = |t: Setting| vals[t.index_spec() as int] == Value::Toggle(true);
            &&& c.occlusion == on(Setting::Occlusion)
            &&& c.lod2 == on(Setting::Lod2)
            &&& c.blocklight == on(Setting::Blocklight)
            &&& c.exposure == on(Setting::Exposure)
            &&& c.bloom == on(Setting::Bloom)
            &&& c.godrays == on(Setting::Godrays)
            &&& c.clouds == on(Setting::Clouds)
            &&& c.weather == on(Setting::Weather)
            &&& c.stars == on(Setting::Stars)
            &&& c.day_night == on(Setting::DayNight)
            &&& c.fog == on(Setting::Fog)
            &&& c.ambient == on(Setting::Ambient)
            &&& c.sunlight == on(Setting::Sunlight)
            &&& c.shadows == on(Setting::Shadows)
            &&& c.sky == on(Setting::Sky)
            &&& c.water_anim == on(Setting::WaterAnim)
            &&& c.vignette == on(Setting::Vignette)
            &&& on(Setting::Taa) ==> c.taa
            &&& vals[Setting::LodLevels.index_spec() as int] is Number && 0 <= number_of(
                vals,
                Setting::LodLevels,
            ) <= 255 ==> c.lod_levels == number_of(vals, Setting::LodLevels)
            &&& vals[Setting::LodDetail.index_spec() as int] is Number && 0 <= number_of(
                vals,
                Setting::LodDetail,
            ) <= 255 ==> c.lod_detail == number_of(vals, Setting::LodDetail)
        }),
{
    reveal(render_config_spec);
}

/// Variable-rate shading is as chosen, and left to the device where it is left open.
pub proof fn lemma_shading_as_chosen(vals: Seq<Value>, s: Session, auto_vrs: bool)
    ensures
        ({
            let v = vals[Setting::Vrs.index_spec() as int];
            let c = render_config_spec(vals, s, auto_vrs);
            &&& v == Value::Vrs(VrsChoice::On) ==> c.vrs
            &&& v == Value::Vrs(VrsChoice::Off) ==> !c.vrs
            &&& v == Value::Vrs(VrsChoice::Auto) ==> c.vrs == auto_vrs
        }),
{
    reveal(render_config_spec);
}

/// The render scale is the player's own, whatever the window, unless the default profile
/// leaves it open; then a window of up to a million and a half pixels is drawn at full
/// scale. Temporal smoothing that was not asked for comes only with such a scale under one.
pub proof fn lemma_scale_is_the_players(vals: Seq<Value>, w: u32, h: u32, scale: Real32)
    ensures
        vals[0] != Value::Preset(Preset::Default) ==> scale_for(vals, w, h) == real_of(
            vals,
            Setting::RenderScale,
        ),
        vals[0] == Value::Preset(Preset::Default) && w * h <= 1_500_000 ==> scale_for(vals, w, h)
            == (Real32 { bits: 0x3F80_0000 }),
        taa_at(vals, scale) && vals[Setting::Taa.index_spec() as int] != Value::Toggle(true)
            ==> vals[0] == Value::Preset(Preset::Default) && scale.rank() < 0x3F80_0000,
        vals[0] == Value::Preset(Preset::Default) && !scale.is_nan_spec() && scale.rank()
            < 0x3F80_0000 ==> taa_at(vals, scale),
{
}

/// A fallback answers only the request that it came from: for another request the fallback is
/// dropped and what was fitted is used; where there is none nothing changes.
pub proof fn lemma_fallback_answers_its_request(
    s: Session,
    fitted: SessionGraphics,
    same_scale: bool,
)
    ensures
        s.fallback_request_msaa != Some(fitted.msaa) || !same_scale || !s.render_target_fallback
            ==> session_graphics_spec(s, fitted, same_scale) == fitted && !stale_dropped(
            s,
            fitted,
            same_scale,
        ).render_target_fallback,
        s.render_target_fallback && s.fallback_request_msaa == Some(fitted.msaa)
            && s.fallback_request_scale is Some && same_scale ==> stale_dropped(
            s,
            fitted,
            same_scale,
        ) == s,
        !s.render_target_fallback ==> stale_dropped(s, fitted, same_scale) == s,
        stale_dropped(s, fitted, same_scale).vram_notice == s.vram_notice,
{
}

/// No extent is noted as empty.
pub proof fn lemma_extents_are_not_empty(s: Session, window: (u32, u32), render: (u32, u32))
    ensures
        ({
            let t = extent_noted(s, window, render);
            &&& t.window_w >= 1 && t.window_h >= 1 && t.render_w >= 1 && t.render_h >= 1
            &&& window.0 >= 1 ==> t.window_w == window.0
            &&& window.1 >= 1 ==> t.window_h == window.1
            &&& render.0 >= 1 ==> t.render_w == render.0
            &&& render.1 >= 1 ==> t.render_h == render.1
            &&& t.session_msaa == s.session_msaa && t.muted == s.muted
        }),
{
}

/// The lanes that are weighed for a window are those of the session, but for temporal
/// smoothing, which follows the scale of that window: on where it was asked for, and off in a
/// small window where it was not.
pub proof fn lemma_lanes_for_a_window(
    vals: Seq<Value>,
    s: Session,
    width: u32,
    height: u32,
    auto_vrs: bool,
)
    ensures
        ({
            let f = fitting_lanes_spec(vals, s, width, height, auto_vrs);
            let c = render_config_spec(vals, s, auto_vrs);
            let asked = vals[Setting::Taa.index_spec() as int] == Value::Toggle(true);
            &&& f == (RenderConfig { taa: f.taa, ..c })
            &&& asked ==> f.taa
            &&& !asked && vals[0] != Value::Preset(Preset::Default) ==> !f.taa
            &&& !asked && width * height <= 1_500_000 ==> !f.taa
        }),
{
    lemma_scale_is_the_players(vals, width, height, scale_for(vals, width, height));
}

/// Memory and samples of the device are those that the session was told of.
pub proof fn lemma_caps_are_the_sessions(s: Session)
    ensures
        caps_of(s).max_msaa == s.device_max_msaa,
        caps_of(s).device_local_memory_bytes == s.device_local_memory_bytes,
        caps_of(s).available_device_bytes == s.available_device_bytes,
{
}

} // verus!
