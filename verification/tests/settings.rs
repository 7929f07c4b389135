use voxel_world::settings::codec::RealTexts;
use voxel_world::settings::edit::on_off;
use voxel_world::settings::limits::{range_of, PHYSICS_RATES, UPDATE_RATES};
use voxel_world::settings::lists::{cycle_list, floor_mod, snap_down, snap_rate, wrap_clamp};
use voxel_world::settings::real32::Real32;
use voxel_world::settings::session::{engine_applied_notice, 
    auto_render_scale, window_scale, DeviceCaps, SessionGraphics, DEFAULT_AUTO_RENDER_SCALE_BITS,
};
use voxel_world::settings::show::lod_range_metres;
use voxel_world::settings::state::{Preset, Settings, Value, VrsChoice};
use voxel_world::settings::table::{lookup, Category, Profile, Setting, ValueKind, SETTING_COUNT};
use voxel_world::ui::HudMode;

fn r32(v: f32) -> Real32 {
    Real32 { bits: v.to_bits() }
}

fn real_value(v: f32) -> Value {
    Value::Real(r32(v))
}

fn f32_of(x: Real32) -> f32 {
    f32::from_bits(x.bits)
}

fn float(s: &Settings, t: Setting) -> f32 {
    f32_of(s.real32(t))
}

fn setting(key: &str) -> Setting {
    match lookup(key) {
        Some(t) => t,
        None => panic!("missing setting `{}`", key),
    }
}

/// The file text, with real numbers in their shortest form.
fn text(s: &Settings) -> String {
    let word = |t: Setting| format!("{}", float(s, t));
    s.to_text(&RealTexts {
        fov: word(Setting::Fov),
        render_scale: word(Setting::RenderScale),
        ui_scale: word(Setting::UiScale),
        menu_scale: word(Setting::MenuScale),
        shake: word(Setting::Shake),
    })
}

/// Reads a file, with the real numbers that parse.
fn read_file(s: &mut Settings, text: &str) {
    for line in s.parse_from(text) {
        if let Ok(v) = line.text.parse::<f32>() {
            s.put(line.setting, real_value(v));
        }
    }
}

/// Sets a value by hand, scales in percent.
fn by_hand(t: Setting, s: &mut Settings, value: &str) -> bool {
    if t.kind() != ValueKind::Real {
        return t.parse_human(s, value);
    }
    match value.parse::<f32>() {
        Ok(v) => {
            let v = if t == Setting::Fov { v } else { v / 100.0 };
            t.set_human(s, r32(v));
            true
        }
        Err(_) => false,
    }
}

fn one_step(t: Setting, s: &mut Settings, dir: i32) {
    if t.kind() != ValueKind::Real {
        t.step(s, dir);
        return;
    }
    let v = float(s, t);
    match t.step_percent((v * 100.0).round() as i32, dir) {
        Some(pct) => t.set_human(s, r32(pct as f32 / 100.0)),
        None => t.set_human(s, r32(v + 5.0 * dir as f32)),
    }
}

#[test]
fn roundtrip_through_text() {
    let s = Settings::default()
        .with(Setting::Fullscreen, Value::Toggle(true))
        .with(Setting::Msaa, Value::Number(4))
        .with(Setting::MaxFps, Value::Number(144))
        .with(Setting::RenderDistance, Value::Number(8))
        .with(Setting::Fov, real_value(90.0))
        .with(Setting::RenderScale, real_value(0.75));
    let written = text(&s);
    let mut loaded = Settings::default();
    read_file(&mut loaded, &written);
    loaded.clamp();
    assert_eq!(loaded, s);
}

#[test]
fn invalid_lines_keep_defaults() {
    let mut s = Settings::default();
    read_file(&mut s, "garbage\nmsaa=lots\nfov=\nrender_distance=7");
    s.clamp();
    assert_eq!(s.number(Setting::Msaa), 1);
    assert_eq!(float(&s, Setting::Fov), 90.0);
    assert_eq!(s.number(Setting::RenderDistance), 7);
}

#[test]
fn clamp_forces_valid_ranges() {
    let mut s = Settings::default()
        .with(Setting::Fullscreen, Value::Toggle(false))
        .with(Setting::Vsync, Value::Toggle(false))
        .with(Setting::Msaa, Value::Number(6))
        .with(Setting::MaxFps, Value::Number(5))
        .with(Setting::RenderDistance, Value::Number(99))
        .with(Setting::Fov, real_value(300.0))
        .with(Setting::RenderScale, real_value(9.0))
        .with(Setting::UiScale, real_value(1.0))
        .with(Setting::Shake, real_value(5.0))
        .with(Setting::Lighting, Value::Toggle(true));
    s.session.cull_faces = false;
    s.clamp();
    assert_eq!(s.number(Setting::Msaa), 4);
    assert_eq!(s.number(Setting::MaxFps), 10);
    assert_eq!(s.number(Setting::RenderDistance), 20);
    assert_eq!(float(&s, Setting::Fov), 220.0);
    assert_eq!(float(&s, Setting::RenderScale), 2.0);
    assert_eq!(float(&s, Setting::Shake), 1.0);
}

#[test]
fn clamp_refuses_msaa_above_device_and_scale_above_two() {
    let mut s = Settings::default()
        .with(Setting::Msaa, Value::Number(8))
        .with(Setting::RenderScale, real_value(9.0));
    s.session.device_max_msaa = 4;
    s.clamp();
    assert_eq!(s.number(Setting::Msaa), 4);
    assert_eq!(float(&s, Setting::RenderScale), 2.0);
}

#[test]
fn nan_resets_to_default_and_infinity_clamps() {
    let defaults = Settings::default();
    let mut s = Settings::default()
        .with(Setting::Fov, real_value(f32::NAN))
        .with(Setting::RenderScale, real_value(f32::NAN));
    s.clamp();
    assert_eq!(float(&s, Setting::Fov), float(&defaults, Setting::Fov));
    assert_eq!(float(&s, Setting::RenderScale), float(&defaults, Setting::RenderScale));

    let mut s = Settings::default()
        .with(Setting::Fov, real_value(f32::INFINITY))
        .with(Setting::RenderScale, real_value(f32::NEG_INFINITY));
    s.clamp();
    assert_eq!(float(&s, Setting::Fov), f32_of(range_of(Setting::Fov).1));
    assert_eq!(float(&s, Setting::RenderScale), f32_of(range_of(Setting::RenderScale).0));
}

#[test]
fn choices_clamp_matches_the_old_msaa_bucket() {
    let old_bucket = |v: u32| -> u32 {
        match v {
            0 | 1 => 1,
            2..=3 => 2,
            4..=7 => 4,
            _ => 8,
        }
    };
    for v in 0..=12 {
        assert_eq!(snap_down(&[1, 2, 4, 8], v), old_bucket(v as u32) as i32, "v={}", v);
    }
}

#[test]
fn every_menu_reachable_value_is_clamp_stable() {
    for i in 0..SETTING_COUNT {
        let field = Setting::at(i);
        for &dir in &[1, -1] {
            let mut s = Settings::default();
            for _ in 0..40 {
                one_step(field, &mut s, dir);
                let mut c = s.clone();
                c.clamp();
                assert_eq!(c, s, "{} not clamp-stable after step", field.label());
                let mut c2 = c.clone();
                c2.clamp();
                assert_eq!(c2, c, "{} clamping twice changed something", field.label());
            }
        }
    }
}

#[test]
fn persist_codec_roundtrips_per_field() {
    let samples = Settings::default()
        .with(Setting::Fullscreen, Value::Toggle(true))
        .with(Setting::Vsync, Value::Toggle(true))
        .with(Setting::Msaa, Value::Number(8))
        .with(Setting::MaxFps, Value::Number(144))
        .with(Setting::RenderDistance, Value::Number(9))
        .with(Setting::Fov, real_value(85.0))
        .with(Setting::RenderScale, real_value(1.25))
        .with(Setting::UiScale, real_value(1.25))
        .with(Setting::Shake, real_value(0.5))
        .with(Setting::Lighting, Value::Toggle(false));
    assert!(!samples.session.cull_faces);
    let written = text(&samples);
    for (i, line) in written.lines().enumerate() {
        let field = Setting::at(i);
        let mut back = Settings::default();
        read_file(&mut back, line);
        assert_eq!(back.value(field), samples.value(field), "{}", field.label());
    }
    let mut back = Settings::default();
    read_file(&mut back, &written);
    back.clamp();
    assert_eq!(back, samples);
}

#[test]
fn audio_fields_roundtrip_and_clamp() {
    let s = Settings::default()
        .with(Setting::MasterVolume, Value::Number(45))
        .with(Setting::EffectsVolume, Value::Number(0))
        .with(Setting::VoiceVolume, Value::Number(75))
        .with(Setting::VoiceEnabled, Value::Toggle(false))
        .with(Setting::VoiceIncoming, Value::Toggle(false));
    let mut back = Settings::default();
    read_file(&mut back, &text(&s));
    back.clamp();
    assert_eq!(back, s);

    let mut over = Settings::default().with(Setting::MasterVolume, Value::Number(200));
    over.clamp();
    assert_eq!(over.number(Setting::MasterVolume), 100);

    let mix = Settings::default()
        .with(Setting::VoiceIncoming, Value::Toggle(false))
        .with(Setting::MasterVolume, Value::Number(50))
        .mix_change();
    assert_eq!(mix.master as f32 / 100.0, 0.5);
    assert!(mix.deafen);
    assert!(!mix.muted);
}

#[test]
fn positive_rates_never_snap_to_every_frame() {
    assert_eq!(snap_rate(&UPDATE_RATES, 0), 0);
    assert_eq!(snap_rate(&UPDATE_RATES, 1), 15);
    assert_eq!(snap_rate(&UPDATE_RATES, 14), 15);
    assert_eq!(snap_rate(&UPDATE_RATES, 29), 15);
    assert_eq!(snap_rate(&UPDATE_RATES, 59), 30);
    assert_eq!(snap_rate(&PHYSICS_RATES, 999), 500);
}

#[test]
fn presets_apply_owned_fields_and_preserve_personal_controls() {
    let preset = setting("preset");
    let personal = |s: Settings| -> Settings {
        let mut s = s
            .with(Setting::Fullscreen, Value::Toggle(true))
            .with(Setting::Fov, real_value(105.0))
            .with(Setting::UiScale, real_value(1.5))
            .with(Setting::MenuScale, real_value(0.75))
            .with(Setting::Shake, real_value(0.25));
        s.session.cull_faces = true;
        s
    };
    let mut s = personal(Settings::default()).with(Setting::MaxFps, Value::Number(777));
    let rates = |s: &Settings| {
        (
            s.number(Setting::StreamHz),
            s.number(Setting::PhysicsHz),
            s.number(Setting::SkyHz),
            s.number(Setting::ModHz),
        )
    };

    assert!(preset.parse_human(&mut s, "minimum"));
    assert_eq!(s.preset(), Preset::Minimum);
    assert_eq!(s.number(Setting::MaxFps), 0, "a performance preset must remove an old cap");
    assert_eq!(float(&s, Setting::RenderScale), 0.25);
    assert_eq!((s.number(Setting::RenderDistance), s.number(Setting::VerticalDistance)), (0, 1));
    assert!(!s.toggle(Setting::Lod2));
    assert_eq!((s.number(Setting::LodLevels), s.number(Setting::LodDetail)), (1, 6));
    assert_eq!(lod_range_metres(&s), 32, "zero near radius keeps one LOD unit");
    assert_eq!(rates(&s), (15, 30, 15, 15));
    assert_eq!(s.hud_mode(), HudMode::Off);
    for t in [Setting::Simulation, Setting::ModLogic, Setting::Autosave] {
        assert!(!s.toggle(t));
    }
    for t in [Setting::Minimap, Setting::ModHud, Setting::PlayerModels, Setting::NameTags] {
        assert!(!s.toggle(t));
    }
    for t in [Setting::Lighting, Setting::Occlusion, Setting::Ao] {
        assert!(!s.toggle(t));
    }
    assert_eq!(s.vrs(), VrsChoice::Off);
    for t in [Setting::Sky, Setting::Bloom, Setting::Clouds, Setting::WaterAnim] {
        assert!(!s.toggle(t));
    }
    assert!(s.toggle(Setting::Sunlight));

    assert!(preset.parse_human(&mut s, "fast"));
    assert_eq!(s.preset(), Preset::Fast);
    assert_eq!(s.number(Setting::MaxFps), 0);
    assert_eq!(float(&s, Setting::RenderScale), 0.5);
    assert_eq!((s.number(Setting::RenderDistance), s.number(Setting::VerticalDistance)), (3, 2));
    assert!(s.toggle(Setting::Lod2));
    assert_eq!((s.number(Setting::LodLevels), s.number(Setting::LodDetail)), (3, 4));
    assert_eq!(lod_range_metres(&s), 384);
    assert_eq!(rates(&s), (60, 60, 60, 60));
    assert_eq!(s.hud_mode(), HudMode::Minimal);
    for t in [Setting::Simulation, Setting::ModLogic, Setting::Autosave, Setting::PlayerModels] {
        assert!(s.toggle(t));
    }
    for t in [Setting::Minimap, Setting::ModHud, Setting::NameTags] {
        assert!(!s.toggle(t));
    }
    assert_eq!(s.vrs(), VrsChoice::Off);

    assert!(preset.parse_human(&mut s, "default"));
    assert_eq!(s, personal(Settings::default()));
}

#[test]
fn lod_clamp_enforces_combined_detail_limit() {
    let pair = |s: &Settings| (s.number(Setting::LodDetail), s.number(Setting::LodLevels));
    let mut s = Settings::default()
        .with(Setting::LodDetail, Value::Number(6))
        .with(Setting::LodLevels, Value::Number(8));
    s.clamp();
    assert_eq!(pair(&s), (6, 4));
    assert!(pair(&s).0 + pair(&s).1 - 1 <= 9, "coarsest level within the ladder cap");

    s.put(Setting::LodDetail, Value::Number(255));
    s.put(Setting::LodLevels, Value::Number(0));
    s.clamp();
    assert_eq!(pair(&s), (6, 1));

    let detail = setting("lod_detail");
    let levels = setting("lod_levels");
    s.put(Setting::LodDetail, Value::Number(5));
    s.put(Setting::LodLevels, Value::Number(5));
    detail.step(&mut s, 1);
    assert_eq!(pair(&s), (6, 4));

    s.put(Setting::RenderDistance, Value::Number(3));
    s.put(Setting::LodLevels, Value::Number(3));
    s.put(Setting::LodDetail, Value::Number(4));
    assert_eq!(levels.show(&s), "3 levels (~384 m)");
    assert_eq!(detail.show(&s), "16 m cells");
}

#[test]
fn interactive_edits_mark_custom_but_persistence_does_not() {
    let preset = setting("preset");
    let scale = setting("render_scale");

    let mut s = Settings::default();
    assert!(preset.parse_human(&mut s, "fast"));
    assert_eq!(s.preset(), Preset::Fast);
    assert!(by_hand(scale, &mut s, "75"));
    assert_eq!(s.preset(), Preset::Custom);

    assert!(preset.parse_human(&mut s, "fast"));
    assert!(!by_hand(scale, &mut s, "not-a-number"));
    assert_eq!(s.preset(), Preset::Fast);
    one_step(scale, &mut s, 1);
    assert_eq!(s.preset(), Preset::Custom);

    let fov = setting("fov");
    assert!(preset.parse_human(&mut s, "fast"));
    one_step(fov, &mut s, 1);
    assert_eq!(s.preset(), Preset::Fast, "FOV is a personal control");

    let mut loaded = Settings::default();
    read_file(&mut loaded, "preset=2\nrender_scale=0.75\nautosave=false\n");
    loaded.clamp();
    assert_eq!(loaded.preset(), Preset::Fast);
    assert_eq!(float(&loaded, Setting::RenderScale), 0.75);
    assert!(!loaded.toggle(Setting::Autosave));

    loaded.mark_custom();
    assert_eq!(loaded.preset(), Preset::Custom);
}

#[test]
fn normalized_and_invalid_edits_preserve_named_profiles() {
    let mut s = Settings::default();
    s.apply_preset(Preset::Minimum);
    for (key, value) in
        [("render_scale", "25.000"), ("render_distance", "-1"), ("stream_hz", "14"), ("msaa", "0")]
    {
        assert!(by_hand(setting(key), &mut s, value));
        assert_eq!(s.preset(), Preset::Minimum, "{}", key);
    }

    let scale = setting("render_scale");
    one_step(scale, &mut s, 0);
    assert_eq!(s.preset(), Preset::Minimum);
    assert!(!by_hand(scale, &mut s, "invalid"));
    assert_eq!(s.preset(), Preset::Minimum);

    assert!(by_hand(scale, &mut s, "50"));
    assert_eq!(s.preset(), Preset::Custom);
    assert!(by_hand(scale, &mut s, "75"));
    assert_eq!(float(&s, Setting::RenderScale), 0.75);
    assert_eq!(s.preset(), Preset::Custom);
}

#[test]
fn console_aliases_resolve_and_caps_differ() {
    let mut a = Settings::default();
    let mut b = Settings::default();
    assert!(setting("renderdist").parse_human(&mut a, "8"));
    assert!(setting("renderdistance").parse_human(&mut b, "8"));
    assert_eq!(a.number(Setting::RenderDistance), 8);
    assert_eq!(b.number(Setting::RenderDistance), 8);
    assert_eq!(on_off(true, true), "On");
    assert_eq!(on_off(true, false), "on");
}

#[test]
fn vrs_persists_choice_words_and_reads_legacy_bools() {
    let field = setting("vrs");
    let mut s = Settings::default();
    let written = |s: &Settings| -> String {
        let all = text(s);
        match all.lines().find(|line| line.starts_with("vrs=")) {
            Some(line) => line[4..].to_string(),
            None => panic!("no line for vrs"),
        }
    };
    assert_eq!(s.vrs(), VrsChoice::Auto);
    assert_eq!(written(&s), "auto");
    assert_eq!(field.show(&s), "Auto");
    assert_eq!(field.usage(), "vrs auto|on|off");
    assert_eq!(field.confirm(&s), "vrs auto");

    assert!(field.parse_human(&mut s, "on"));
    assert_eq!(s.vrs(), VrsChoice::On);
    assert_eq!(s.preset(), Preset::Custom);
    assert_eq!(written(&s), "on");
    assert!(field.parse_human(&mut s, "off"));
    assert_eq!(s.vrs(), VrsChoice::Off);
    assert!(field.parse_human(&mut s, "auto"));
    assert_eq!(s.vrs(), VrsChoice::Auto);

    let mut loaded = Settings::default();
    read_file(&mut loaded, "vrs=true\n");
    assert_eq!(loaded.vrs(), VrsChoice::On);
    read_file(&mut loaded, "vrs=false\n");
    assert_eq!(loaded.vrs(), VrsChoice::Off);
    read_file(&mut loaded, "vrs=auto\n");
    assert_eq!(loaded.vrs(), VrsChoice::Auto);
    assert!(
        text(&loaded).lines().any(|line| line == "vrs=auto"),
        "new files persist the word form"
    );

    let mut round = Settings::default();
    read_file(&mut round, &text(&loaded));
    assert_eq!(round.vrs(), VrsChoice::Auto);
}

fn graphics(msaa: u32, scale: f32) -> SessionGraphics {
    SessionGraphics { msaa, render_scale: r32(scale), notice: None }
}

/// The menu text of the render scale.
fn scale_text(s: &Settings) -> String {
    Setting::RenderScale.show_real(s, &scale_number(s))
}

fn scale_number(s: &Settings) -> String {
    if s.render_scale_auto() {
        let (w, h) = (s.session.window_w, s.session.window_h);
        format!("{:.1}", f32_of(s.effective_render_scale(w, h)))
    } else {
        format!("{:.0}", float(s, Setting::RenderScale) * 100.0)
    }
}

#[test]
fn default_auto_render_scale_follows_window_pixels() {
    let mut s = Settings::default();
    assert_eq!(s.preset(), Preset::Default);
    assert!(s.render_scale_auto());
    assert_eq!(float(&s, Setting::RenderScale), 1.0, "stored Default scale stays 1.0");
    assert_eq!(f32::from_bits(DEFAULT_AUTO_RENDER_SCALE_BITS), 1.0);

    s.note_render_extent((1280, 720), (1280, 720));
    assert_eq!(f32_of(s.effective_render_scale(1280, 720)), 1.0);
    assert_eq!(f32_of(s.session_graphics(graphics(1, 1.0), true).render_scale), 1.0);
    assert!(!s.render_config(false).taa, "720p leaves TAA at the stored value");
    assert_eq!(scale_text(&s), "Auto (1.0)");
    assert_eq!(
        Setting::RenderScale.confirm_real(&s, &scale_number(&s)),
        "render scale Auto (1.0)"
    );

    s.note_render_extent((1920, 1080), (1920, 1080));
    assert_eq!(f32_of(s.effective_render_scale(1920, 1080)), 1.0);
    assert_eq!(f32_of(s.session_graphics(graphics(1, 1.0), true).render_scale), 1.0);
    assert!(!s.render_config(false).taa, "TAA is forced only while Auto scale is below 1");
    assert_eq!(scale_text(&s), "Auto (1.0)");

    s.note_render_extent((3440, 1440), (3440, 1440));
    assert_eq!(f32_of(s.effective_render_scale(3440, 1440)), 1.0);
    assert!(!s.render_config(false).taa);

    // Crossing the threshold by a resize.
    s.note_render_extent((1280, 720), (1280, 720));
    let window = |s: &Settings| (s.session.window_w, s.session.window_h);
    let (w, h) = window(&s);
    assert_eq!((w, h), (1280, 720));
    assert_eq!(f32_of(s.effective_render_scale(w, h)), 1.0);
    assert!(!s.render_config(false).taa);
    s.note_render_extent((1920, 1080), (1920, 1080));
    let (w, h) = window(&s);
    assert_eq!((w, h), (1920, 1080));
    assert_eq!(f32_of(s.effective_render_scale(w, h)), 1.0);
    assert!(!s.render_config(false).taa);

    let mut custom = Settings::default();
    custom.mark_custom();
    custom.put(Setting::RenderScale, real_value(1.0));
    custom.note_render_extent((1920, 1080), (1920, 1080));
    assert!(!custom.render_scale_auto());
    assert_eq!(f32_of(custom.effective_render_scale(1920, 1080)), 1.0);
    assert_eq!(f32_of(custom.session_graphics(graphics(1, 1.0), true).render_scale), 1.0);
    assert!(!custom.render_config(false).taa);
    assert_eq!(scale_text(&custom), "100%");

    let mut fast = Settings::default();
    fast.apply_preset(Preset::Fast);
    fast.note_render_extent((1920, 1080), (960, 540));
    assert_eq!(f32_of(fast.effective_render_scale(1920, 1080)), 0.5);
    assert!(!fast.render_config(false).taa);

    let mut min = Settings::default();
    min.apply_preset(Preset::Minimum);
    min.note_render_extent((1920, 1080), (480, 270));
    assert_eq!(f32_of(min.effective_render_scale(1920, 1080)), 0.25);
}

#[test]
fn real_settings_are_confirmed_by_name() {
    let s = Settings::default();
    assert_eq!(Setting::Fov.confirm_real(&s, "90"), "fov 90");
    assert_eq!(Setting::UiScale.confirm_real(&s, "125"), "ui scale 125%");
    assert_eq!(Setting::MenuScale.confirm_real(&s, "75"), "menu scale 75%");
    assert_eq!(Setting::Shake.confirm_real(&s, "50"), "camera shake 50%");
}

#[test]
fn huge_sample_counts_round_down_to_a_supported_one() {
    let mut s = Settings::default();
    s.session.device_max_msaa = 8;
    for n in [9i64, 0x7FFF_FFFF, 0x8000_0000, 0xFFFF_FFFF] {
        s.put(Setting::Msaa, Value::Number(n));
        s.clamp();
        assert_eq!(s.number(Setting::Msaa), 8, "{}", n);
    }
    s.session.device_max_msaa = u32::MAX;
    s.put(Setting::Msaa, Value::Number(8));
    s.clamp();
    assert_eq!(s.number(Setting::Msaa), 8);
}

#[test]
fn window_scale_drops_past_the_threshold() {
    let half = r32(0.5);
    assert_eq!(f32_of(window_scale(1280, 720, half)), 1.0);
    assert_eq!(f32_of(window_scale(1920, 1080, half)), 0.5);
    assert_eq!(f32_of(auto_render_scale(1280, 720)), 1.0);
    assert_eq!(f32_of(auto_render_scale(1920, 1080)), 1.0);
}

#[test]
fn render_config_resolves_auto_vrs_from_extent() {
    // Whether an extent calls for it is handed in; here four million pixels do.
    let config = |s: &Settings| {
        s.render_config(s.session.render_w as u64 * s.session.render_h as u64 >= 4_000_000)
    };
    let mut s = Settings::default();
    assert_eq!(s.vrs(), VrsChoice::Auto);
    assert!(!config(&s).vrs, "1280x720 default is below Auto");
    s.note_render_extent((3840, 2160), (3840, 2160));
    assert!(config(&s).vrs);
    s.note_render_extent((3440, 1440), (6880, 2880));
    assert!(config(&s).vrs);
    s.note_render_extent((1920, 1080), (1920, 1080));
    assert!(!config(&s).vrs);
    s.put(Setting::Vrs, Value::Vrs(VrsChoice::On));
    assert!(config(&s).vrs);
    s.put(Setting::Vrs, Value::Vrs(VrsChoice::Off));
    s.note_render_extent((3840, 2160), (3840, 2160));
    assert!(!config(&s).vrs);
}

#[test]
fn a_fit_asks_for_the_window_s_own_scale_and_what_the_device_has() {
    let mut s = Settings::default()
        .with(Setting::Msaa, Value::Number(8))
        .with(Setting::RenderScale, real_value(2.0))
        .with(Setting::Taa, Value::Toggle(true));
    s.mark_custom();
    let caps = DeviceCaps {
        device_local_memory_bytes: Some(8_000_000_000),
        available_device_bytes: Some(2_000_000_000),
        max_msaa: 8,
    };
    s.set_device_caps(caps, (3440, 1440));
    let r = s.fit_request(3440, 1440, true);
    assert_eq!((r.window, f32_of(r.scale), r.msaa), ((3440, 1440), 2.0, 8));
    assert_eq!(r.caps, caps);
    assert!(r.lanes.taa && r.lanes.vrs);
    assert_eq!(r.lanes, s.fitting_lanes(3440, 1440, true));
}

#[test]
fn engine_applied_lower_updates_notice_json_flag_and_extent() {
    let mut s = Settings::default();
    s.mark_custom();
    s.put(Setting::Msaa, Value::Number(8));
    s.put(Setting::RenderScale, real_value(1.5));
    s.note_render_extent((1920, 1080), (2880, 1620));
    let requested = s.session_graphics(graphics(8, 1.5), true);
    assert_eq!(requested.msaa, 8);
    assert_eq!(f32_of(requested.render_scale), 1.5);
    let notice = "the renderer could only allocate 2x MSAA at 150% scale this session";
    let changed = s.adopt_engine_applied(
        &requested,
        (2, r32(1.5)),
        true,
        true,
        engine_applied_notice(2, 150),
        (1920, 1080),
        (2880, 1620),
    );
    assert!(changed);
    assert_eq!(s.session.vram_notice.as_deref(), Some(notice));
    assert!(s.session.render_target_fallback);
    assert_eq!(s.session_graphics(graphics(8, 1.5), true).msaa, 2);
    assert_eq!(s.session.render_w, 2880);
    assert_eq!(s.session.render_h, 1620);
    assert_eq!(s.number(Setting::Msaa), 8, "persisted MSAA is unchanged");
    assert_eq!(float(&s, Setting::RenderScale), 1.5, "persisted scale is unchanged");
    let g = s.session_graphics(graphics(8, 1.5), true);
    assert_eq!(g.msaa, 2);
    assert_eq!(f32_of(g.render_scale), 1.5);
}

#[test]
fn engine_applied_equal_leaves_session_untouched() {
    let mut s = Settings::default();
    s.mark_custom();
    s.put(Setting::Msaa, Value::Number(4));
    s.put(Setting::RenderScale, real_value(1.0));
    s.note_render_extent((1280, 720), (1280, 720));
    let before = s.clone();
    let requested = s.session_graphics(graphics(4, 1.0), true);
    let changed = s.adopt_engine_applied(
        &requested,
        (requested.msaa, requested.render_scale),
        false,
        true,
        String::new(),
        (1280, 720),
        (1280, 720),
    );
    assert!(!changed);
    assert_eq!(s, before);
    assert!(!s.session.render_target_fallback);
    assert!(s.session.vram_notice.is_none());
}

#[test]
fn device_caps_lower_the_sample_count() {
    let mut s = Settings::default().with(Setting::Msaa, Value::Number(8));
    s.set_device_caps(
        DeviceCaps {
            device_local_memory_bytes: Some(8_000_000_000),
            available_device_bytes: None,
            max_msaa: 2,
        },
        (3440, 1440),
    );
    assert_eq!(s.device_max_msaa(), 2);
    assert_eq!(s.session.startup_display_w, 3440);
    s.clamp();
    assert_eq!(s.number(Setting::Msaa), 2);
}

#[test]
fn lists_wrap_and_cycle() {
    assert_eq!(wrap_clamp(10, 1, 10, 1), 1);
    assert_eq!(wrap_clamp(1, 1, 10, -1), 10);
    assert_eq!(cycle_list(&[0, 25, 50, 75, 100], 100, 1), 0);
    assert_eq!(cycle_list(&[0, 25, 50, 75, 100], 30, 1), 0, "not in the list: the first entry");
    assert_eq!(floor_mod(-1, 4), 3);
}

#[test]
fn keys_find_their_settings_and_unknown_words_find_none() {
    for i in 0..SETTING_COUNT {
        let t = Setting::at(i);
        assert_eq!(lookup(t.key()), Some(t));
        assert_eq!(t.index(), i);
    }
    assert!(lookup("no_such_setting").is_none());
    assert_eq!(Setting::Preset.category(), Category::Performance);
    assert_eq!(Setting::Fov.profile(), Profile::Personal);
}

#[test]
fn a_later_line_replaces_an_earlier_one() {
    let mut s = Settings::default();
    read_file(&mut s, "max_fps=30\n  max_fps = 60  \nfov=80\nfov=100");
    assert_eq!(s.number(Setting::MaxFps), 60);
    assert_eq!(float(&s, Setting::Fov), 100.0);
}
