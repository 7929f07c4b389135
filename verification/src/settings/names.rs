//! The names of settings: no two settings share one.
use vstd::prelude::*;

use crate::settings::table::{lemma_index_at, lookup_from, lookup_spec, Setting};

verus! {

/// A few characters that tell all names of settings apart.
pub open spec fn imprint(s: Seq<char>) -> (nat, char, char, char, char) {
    (s.len(), s[0], s[1], s[s.len() as int / 2], s[s.len() - 1])
}

/// The imprint of every name.
proof fn lemma_imprints()
    ensures
        imprint("preset"@) == (6nat, 'p', 'r', 's', 't'),
        imprint("profile"@) == (7nat, 'p', 'r', 'f', 'e'),
        imprint("vertical_distance"@) == (17nat, 'v', 'e', '_', 'e'),
        imprint("vertical"@) == (8nat, 'v', 'e', 'i', 'l'),
        imprint("verticaldist"@) == (12nat, 'v', 'e', 'a', 't'),
        imprint("lod_levels"@) == (10nat, 'l', 'o', 'e', 's'),
        imprint("lodlevels"@) == (9nat, 'l', 'o', 'e', 's'),
        imprint("lod_detail"@) == (10nat, 'l', 'o', 'e', 'l'),
        imprint("loddetail"@) == (9nat, 'l', 'o', 'e', 'l'),
        imprint("stream_hz"@) == (9nat, 's', 't', 'a', 'z'),
        imprint("streamrate"@) == (10nat, 's', 't', 'm', 'e'),
        imprint("physics_hz"@) == (10nat, 'p', 'h', 'c', 'z'),
        imprint("physicsrate"@) == (11nat, 'p', 'h', 'c', 'e'),
        imprint("sky_hz"@) == (6nat, 's', 'k', '_', 'z'),
        imprint("skyrate"@) == (7nat, 's', 'k', 'r', 'e'),
        imprint("mod_hz"@) == (6nat, 'm', 'o', '_', 'z'),
        imprint("modrate"@) == (7nat, 'm', 'o', 'r', 'e'),
        imprint("hud_mode"@) == (8nat, 'h', 'u', 'm', 'e'),
        imprint("hud"@) == (3nat, 'h', 'u', 'u', 'd'),
        imprint("simulation"@) == (10nat, 's', 'i', 'a', 'n'),
        imprint("sim"@) == (3nat, 's', 'i', 'i', 'm'),
        imprint("mod_logic"@) == (9nat, 'm', 'o', 'l', 'c'),
        imprint("mods"@) == (4nat, 'm', 'o', 'd', 's'),
        imprint("autosave"@) == (8nat, 'a', 'u', 's', 'e'),
        imprint("minimap"@) == (7nat, 'm', 'i', 'i', 'p'),
        imprint("map"@) == (3nat, 'm', 'a', 'a', 'p'),
        imprint("mod_hud"@) == (7nat, 'm', 'o', '_', 'd'),
        imprint("modhud"@) == (6nat, 'm', 'o', 'h', 'd'),
        imprint("player_models"@) == (13nat, 'p', 'l', '_', 's'),
        imprint("models"@) == (6nat, 'm', 'o', 'e', 's'),
        imprint("name_tags"@) == (9nat, 'n', 'a', '_', 's'),
        imprint("nametags"@) == (8nat, 'n', 'a', 't', 's'),
        imprint("fullscreen"@) == (10nat, 'f', 'u', 'c', 'n'),
        imprint("vsync"@) == (5nat, 'v', 's', 'y', 'c'),
        imprint("lighting"@) == (8nat, 'l', 'i', 't', 'g'),
        imprint("light"@) == (5nat, 'l', 'i', 'g', 't'),
        imprint("msaa"@) == (4nat, 'm', 's', 'a', 'a'),
        imprint("max_fps"@) == (7nat, 'm', 'a', '_', 's'),
        imprint("fps"@) == (3nat, 'f', 'p', 'p', 's'),
        imprint("render_distance"@) == (15nat, 'r', 'e', 'd', 'e'),
        imprint("renderdist"@) == (10nat, 'r', 'e', 'r', 't'),
        imprint("renderdistance"@) == (14nat, 'r', 'e', 'i', 'e'),
        imprint("fov"@) == (3nat, 'f', 'o', 'o', 'v'),
        imprint("render_scale"@) == (12nat, 'r', 'e', '_', 'e'),
        imprint("renderscale"@) == (11nat, 'r', 'e', 'r', 'e'),
        imprint("scale"@) == (5nat, 's', 'c', 'a', 'e'),
        imprint("ui_scale"@) == (8nat, 'u', 'i', 'c', 'e'),
        imprint("uiscale"@) == (7nat, 'u', 'i', 'c', 'e'),
        imprint("hudscale"@) == (8nat, 'h', 'u', 'c', 'e'),
        imprint("menu_scale"@) == (10nat, 'm', 'e', 's', 'e'),
        imprint("menuscale"@) == (9nat, 'm', 'e', 's', 'e'),
        imprint("shake"@) == (5nat, 's', 'h', 'a', 'e'),
        imprint("camerashake"@) == (11nat, 'c', 'a', 'a', 'e'),
        imprint("lod2"@) == (4nat, 'l', 'o', 'd', '2'),
        imprint("lod"@) == (3nat, 'l', 'o', 'o', 'd'),
        imprint("occlusion"@) == (9nat, 'o', 'c', 'u', 'n'),
        imprint("occ"@) == (3nat, 'o', 'c', 'c', 'c'),
        imprint("sky"@) == (3nat, 's', 'k', 'k', 'y'),
        imprint("sunlight"@) == (8nat, 's', 'u', 'i', 't'),
        imprint("sun"@) == (3nat, 's', 'u', 'u', 'n'),
        imprint("ambient"@) == (7nat, 'a', 'm', 'i', 't'),
        imprint("amb"@) == (3nat, 'a', 'm', 'm', 'b'),
        imprint("shadows"@) == (7nat, 's', 'h', 'd', 's'),
        imprint("shadow"@) == (6nat, 's', 'h', 'd', 'w'),
        imprint("blocklight"@) == (10nat, 'b', 'l', 'l', 't'),
        imprint("fog"@) == (3nat, 'f', 'o', 'o', 'g'),
        imprint("clouds"@) == (6nat, 'c', 'l', 'u', 's'),
        imprint("weather"@) == (7nat, 'w', 'e', 't', 'r'),
        imprint("stars"@) == (5nat, 's', 't', 'a', 's'),
        imprint("day_night"@) == (9nat, 'd', 'a', 'n', 't'),
        imprint("daynight"@) == (8nat, 'd', 'a', 'i', 't'),
        imprint("bloom"@) == (5nat, 'b', 'l', 'o', 'm'),
        imprint("godrays"@) == (7nat, 'g', 'o', 'r', 's'),
        imprint("exposure"@) == (8nat, 'e', 'x', 's', 'e'),
        imprint("exp"@) == (3nat, 'e', 'x', 'x', 'p'),
        imprint("taa"@) == (3nat, 't', 'a', 'a', 'a'),
        imprint("aa"@) == (2nat, 'a', 'a', 'a', 'a'),
        imprint("vrs"@) == (3nat, 'v', 'r', 'r', 's'),
        imprint("water_anim"@) == (10nat, 'w', 'a', '_', 'm'),
        imprint("water"@) == (5nat, 'w', 'a', 't', 'r'),
        imprint("ao"@) == (2nat, 'a', 'o', 'o', 'o'),
        imprint("vertexao"@) == (8nat, 'v', 'e', 'e', 'o'),
        imprint("vignette"@) == (8nat, 'v', 'i', 'e', 'e'),
        imprint("master_volume"@) == (13nat, 'm', 'a', '_', 'e'),
        imprint("volume"@) == (6nat, 'v', 'o', 'u', 'e'),
        imprint("master"@) == (6nat, 'm', 'a', 't', 'r'),
        imprint("effects_volume"@) == (14nat, 'e', 'f', '_', 'e'),
        imprint("effects"@) == (7nat, 'e', 'f', 'e', 's'),
        imprint("sfx"@) == (3nat, 's', 'f', 'f', 'x'),
        imprint("voice_volume"@) == (12nat, 'v', 'o', 'v', 'e'),
        imprint("voice_vol"@) == (9nat, 'v', 'o', 'e', 'l'),
        imprint("voice_enabled"@) == (13nat, 'v', 'o', 'e', 'd'),
        imprint("voice"@) == (5nat, 'v', 'o', 'i', 'e'),
        imprint("mic"@) == (3nat, 'm', 'i', 'i', 'c'),
        imprint("voice_incoming"@) == (14nat, 'v', 'o', 'n', 'g'),
        imprint("deafen_inverse"@) == (14nat, 'd', 'e', 'i', 'e'),
        imprint("hearvoice"@) == (9nat, 'h', 'e', 'v', 'e'),
{
    reveal_strlit("preset");
    reveal_strlit("profile");
    reveal_strlit("vertical_distance");
    reveal_strlit("vertical");
    reveal_strlit("verticaldist");
    reveal_strlit("lod_levels");
    reveal_strlit("lodlevels");
    reveal_strlit("lod_detail");
    reveal_strlit("loddetail");
    reveal_strlit("stream_hz");
    reveal_strlit("streamrate");
    reveal_strlit("physics_hz");
    reveal_strlit("physicsrate");
    reveal_strlit("sky_hz");
    reveal_strlit("skyrate");
    reveal_strlit("mod_hz");
    reveal_strlit("modrate");
    reveal_strlit("hud_mode");
    reveal_strlit("hud");
    reveal_strlit("simulation");
    reveal_strlit("sim");
    reveal_strlit("mod_logic");
    reveal_strlit("mods");
    reveal_strlit("autosave");
    reveal_strlit("minimap");
    reveal_strlit("map");
    reveal_strlit("mod_hud");
    reveal_strlit("modhud");
    reveal_strlit("player_models");
    reveal_strlit("models");
    reveal_strlit("name_tags");
    reveal_strlit("nametags");
    reveal_strlit("fullscreen");
    reveal_strlit("vsync");
    reveal_strlit("lighting");
    reveal_strlit("light");
    reveal_strlit("msaa");
    reveal_strlit("max_fps");
    reveal_strlit("fps");
    reveal_strlit("render_distance");
    reveal_strlit("renderdist");
    reveal_strlit("renderdistance");
    reveal_strlit("fov");
    reveal_strlit("render_scale");
    reveal_strlit("renderscale");
    reveal_strlit("scale");
    reveal_strlit("ui_scale");
    reveal_strlit("uiscale");
    reveal_strlit("hudscale");
    reveal_strlit("menu_scale");
    reveal_strlit("menuscale");
    reveal_strlit("shake");
    reveal_strlit("camerashake");
    reveal_strlit("lod2");
    reveal_strlit("lod");
    reveal_strlit("occlusion");
    reveal_strlit("occ");
    reveal_strlit("sky");
    reveal_strlit("sunlight");
    reveal_strlit("sun");
    reveal_strlit("ambient");
    reveal_strlit("amb");
    reveal_strlit("shadows");
    reveal_strlit("shadow");
    reveal_strlit("blocklight");
    reveal_strlit("fog");
    reveal_strlit("clouds");
    reveal_strlit("weather");
    reveal_strlit("stars");
    reveal_strlit("day_night");
    reveal_strlit("daynight");
    reveal_strlit("bloom");
    reveal_strlit("godrays");
    reveal_strlit("exposure");
    reveal_strlit("exp");
    reveal_strlit("taa");
    reveal_strlit("aa");
    reveal_strlit("vrs");
    reveal_strlit("water_anim");
    reveal_strlit("water");
    reveal_strlit("ao");
    reveal_strlit("vertexao");
    reveal_strlit("vignette");
    reveal_strlit("master_volume");
    reveal_strlit("volume");
    reveal_strlit("master");
    reveal_strlit("effects_volume");
    reveal_strlit("effects");
    reveal_strlit("sfx");
    reveal_strlit("voice_volume");
    reveal_strlit("voice_vol");
    reveal_strlit("voice_enabled");
    reveal_strlit("voice");
    reveal_strlit("mic");
    reveal_strlit("voice_incoming");
    reveal_strlit("deafen_inverse");
    reveal_strlit("hearvoice");
}

/// No setting answers to the key of one that comes later in the table.
proof fn lemma_no_clash(t: Setting, u: Setting)
    requires
        u.index_spec() < t.index_spec(),
    ensures
        !u.matches_spec(t.key_spec()),
{
    lemma_imprints();
}

proof fn lemma_lookup_finds(t: Setting, i: int)
    requires
        0 <= i <= t.index_spec(),
    ensures
        lookup_from(t.key_spec(), i) == Some(t),
    decreases t.index_spec() - i,
{
    lemma_index_at(t, i);
    let u = Setting::at_spec(i);
    if i < t.index_spec() {
        lemma_no_clash(t, u);
        lemma_lookup_finds(t, i + 1);
    }
}

/// Every setting is found by its key.
pub proof fn lemma_key_finds_setting(t: Setting)
    ensures
        lookup_spec(t.key_spec()) == Some(t),
{
    lemma_lookup_finds(t, 0);
}

/// Whether every character is a lower-case letter, a digit or an underscore.
pub open spec fn is_word(s: Seq<char>) -> bool {
    forall|i: int| 0 <= i < s.len() ==> is_word_char(#[trigger] s[i])
}

pub open spec fn is_word_char(c: char) -> bool {
    'a' <= c <= 'z' || '0' <= c <= '9' || c == '_'
}

/// Every key is a word.
pub proof fn lemma_key_is_word(t: Setting)
    ensures
        is_word(t.key_spec()),
        t.key_spec().len() > 0,
{
    match t {
        Setting::Preset => {
            reveal_strlit("preset");
            assert("preset"@ =~= seq!['p', 'r', 'e', 's', 'e', 't']);
        },
        Setting::VerticalDistance => {
            reveal_strlit("vertical_distance");
            assert("vertical_distance"@ =~= seq!['v', 'e', 'r', 't', 'i', 'c', 'a', 'l', '_', 'd', 'i', 's', 't', 'a', 'n', 'c', 'e']);
        },
        Setting::LodLevels => {
            reveal_strlit("lod_levels");
            assert("lod_levels"@ =~= seq!['l', 'o', 'd', '_', 'l', 'e', 'v', 'e', 'l', 's']);
        },
        Setting::LodDetail => {
            reveal_strlit("lod_detail");
            assert("lod_detail"@ =~= seq!['l', 'o', 'd', '_', 'd', 'e', 't', 'a', 'i', 'l']);
        },
        Setting::StreamHz => {
            reveal_strlit("stream_hz");
            assert("stream_hz"@ =~= seq!['s', 't', 'r', 'e', 'a', 'm', '_', 'h', 'z']);
        },
        Setting::PhysicsHz => {
            reveal_strlit("physics_hz");
            assert("physics_hz"@ =~= seq!['p', 'h', 'y', 's', 'i', 'c', 's', '_', 'h', 'z']);
        },
        Setting::SkyHz => {
            reveal_strlit("sky_hz");
            assert("sky_hz"@ =~= seq!['s', 'k', 'y', '_', 'h', 'z']);
        },
        Setting::ModHz => {
            reveal_strlit("mod_hz");
            assert("mod_hz"@ =~= seq!['m', 'o', 'd', '_', 'h', 'z']);
        },
        Setting::HudMode => {
            reveal_strlit("hud_mode");
            assert("hud_mode"@ =~= seq!['h', 'u', 'd', '_', 'm', 'o', 'd', 'e']);
        },
        Setting::Simulation => {
            reveal_strlit("simulation");
            assert("simulation"@ =~= seq!['s', 'i', 'm', 'u', 'l', 'a', 't', 'i', 'o', 'n']);
        },
        Setting::ModLogic => {
            reveal_strlit("mod_logic");
            assert("mod_logic"@ =~= seq!['m', 'o', 'd', '_', 'l', 'o', 'g', 'i', 'c']);
        },
        Setting::Autosave => {
            reveal_strlit("autosave");
            assert("autosave"@ =~= seq!['a', 'u', 't', 'o', 's', 'a', 'v', 'e']);
        },
        Setting::Minimap => {
            reveal_strlit("minimap");
            assert("minimap"@ =~= seq!['m', 'i', 'n', 'i', 'm', 'a', 'p']);
        },
        Setting::ModHud => {
            reveal_strlit("mod_hud");
            assert("mod_hud"@ =~= seq!['m', 'o', 'd', '_', 'h', 'u', 'd']);
        },
        Setting::PlayerModels => {
            reveal_strlit("player_models");
            assert("player_models"@ =~= seq!['p', 'l', 'a', 'y', 'e', 'r', '_', 'm', 'o', 'd', 'e', 'l', 's']);
        },
        Setting::NameTags => {
            reveal_strlit("name_tags");
            assert("name_tags"@ =~= seq!['n', 'a', 'm', 'e', '_', 't', 'a', 'g', 's']);
        },
        Setting::Fullscreen => {
            reveal_strlit("fullscreen");
            assert("fullscreen"@ =~= seq!['f', 'u', 'l', 'l', 's', 'c', 'r', 'e', 'e', 'n']);
        },
        Setting::Vsync => {
            reveal_strlit("vsync");
            assert("vsync"@ =~= seq!['v', 's', 'y', 'n', 'c']);
        },
        Setting::Lighting => {
            reveal_strlit("lighting");
            assert("lighting"@ =~= seq!['l', 'i', 'g', 'h', 't', 'i', 'n', 'g']);
        },
        Setting::Msaa => {
            reveal_strlit("msaa");
            assert("msaa"@ =~= seq!['m', 's', 'a', 'a']);
        },
        Setting::MaxFps => {
            reveal_strlit("max_fps");
            assert("max_fps"@ =~= seq!['m', 'a', 'x', '_', 'f', 'p', 's']);
        },
        Setting::RenderDistance => {
            reveal_strlit("render_distance");
            assert("render_distance"@ =~= seq!['r', 'e', 'n', 'd', 'e', 'r', '_', 'd', 'i', 's', 't', 'a', 'n', 'c', 'e']);
        },
        Setting::Fov => {
            reveal_strlit("fov");
            assert("fov"@ =~= seq!['f', 'o', 'v']);
        },
        Setting::RenderScale => {
            reveal_strlit("render_scale");
            assert("render_scale"@ =~= seq!['r', 'e', 'n', 'd', 'e', 'r', '_', 's', 'c', 'a', 'l', 'e']);
        },
        Setting::UiScale => {
            reveal_strlit("ui_scale");
            assert("ui_scale"@ =~= seq!['u', 'i', '_', 's', 'c', 'a', 'l', 'e']);
        },
        Setting::MenuScale => {
            reveal_strlit("menu_scale");
            assert("menu_scale"@ =~= seq!['m', 'e', 'n', 'u', '_', 's', 'c', 'a', 'l', 'e']);
        },
        Setting::Shake => {
            reveal_strlit("shake");
            assert("shake"@ =~= seq!['s', 'h', 'a', 'k', 'e']);
        },
        Setting::Lod2 => {
            reveal_strlit("lod2");
            assert("lod2"@ =~= seq!['l', 'o', 'd', '2']);
        },
        Setting::Occlusion => {
            reveal_strlit("occlusion");
            assert("occlusion"@ =~= seq!['o', 'c', 'c', 'l', 'u', 's', 'i', 'o', 'n']);
        },
        Setting::Sky => {
            reveal_strlit("sky");
            assert("sky"@ =~= seq!['s', 'k', 'y']);
        },
        Setting::Sunlight => {
            reveal_strlit("sunlight");
            assert("sunlight"@ =~= seq!['s', 'u', 'n', 'l', 'i', 'g', 'h', 't']);
        },
        Setting::Ambient => {
            reveal_strlit("ambient");
            assert("ambient"@ =~= seq!['a', 'm', 'b', 'i', 'e', 'n', 't']);
        },
        Setting::Shadows => {
            reveal_strlit("shadows");
            assert("shadows"@ =~= seq!['s', 'h', 'a', 'd', 'o', 'w', 's']);
        },
        Setting::Blocklight => {
            reveal_strlit("blocklight");
            assert("blocklight"@ =~= seq!['b', 'l', 'o', 'c', 'k', 'l', 'i', 'g', 'h', 't']);
        },
        Setting::Fog => {
            reveal_strlit("fog");
            assert("fog"@ =~= seq!['f', 'o', 'g']);
        },
        Setting::Clouds => {
            reveal_strlit("clouds");
            assert("clouds"@ =~= seq!['c', 'l', 'o', 'u', 'd', 's']);
        },
        Setting::Weather => {
            reveal_strlit("weather");
            assert("weather"@ =~= seq!['w', 'e', 'a', 't', 'h', 'e', 'r']);
        },
        Setting::Stars => {
            reveal_strlit("stars");
            assert("stars"@ =~= seq!['s', 't', 'a', 'r', 's']);
        },
        Setting::DayNight => {
            reveal_strlit("day_night");
            assert("day_night"@ =~= seq!['d', 'a', 'y', '_', 'n', 'i', 'g', 'h', 't']);
        },
        Setting::Bloom => {
            reveal_strlit("bloom");
            assert("bloom"@ =~= seq!['b', 'l', 'o', 'o', 'm']);
        },
        Setting::Godrays => {
            reveal_strlit("godrays");
            assert("godrays"@ =~= seq!['g', 'o', 'd', 'r', 'a', 'y', 's']);
        },
        Setting::Exposure => {
            reveal_strlit("exposure");
            assert("exposure"@ =~= seq!['e', 'x', 'p', 'o', 's', 'u', 'r', 'e']);
        },
        Setting::Taa => {
            reveal_strlit("taa");
            assert("taa"@ =~= seq!['t', 'a', 'a']);
        },
        Setting::Vrs => {
            reveal_strlit("vrs");
            assert("vrs"@ =~= seq!['v', 'r', 's']);
        },
        Setting::WaterAnim => {
            reveal_strlit("water_anim");
            assert("water_anim"@ =~= seq!['w', 'a', 't', 'e', 'r', '_', 'a', 'n', 'i', 'm']);
        },
        Setting::Ao => {
            reveal_strlit("ao");
            assert("ao"@ =~= seq!['a', 'o']);
        },
        Setting::Vignette => {
            reveal_strlit("vignette");
            assert("vignette"@ =~= seq!['v', 'i', 'g', 'n', 'e', 't', 't', 'e']);
        },
        Setting::MasterVolume => {
            reveal_strlit("master_volume");
            assert("master_volume"@ =~= seq!['m', 'a', 's', 't', 'e', 'r', '_', 'v', 'o', 'l', 'u', 'm', 'e']);
        },
        Setting::EffectsVolume => {
            reveal_strlit("effects_volume");
            assert("effects_volume"@ =~= seq!['e', 'f', 'f', 'e', 'c', 't', 's', '_', 'v', 'o', 'l', 'u', 'm', 'e']);
        },
        Setting::VoiceVolume => {
            reveal_strlit("voice_volume");
            assert("voice_volume"@ =~= seq!['v', 'o', 'i', 'c', 'e', '_', 'v', 'o', 'l', 'u', 'm', 'e']);
        },
        Setting::VoiceEnabled => {
            reveal_strlit("voice_enabled");
            assert("voice_enabled"@ =~= seq!['v', 'o', 'i', 'c', 'e', '_', 'e', 'n', 'a', 'b', 'l', 'e', 'd']);
        },
        Setting::VoiceIncoming => {
            reveal_strlit("voice_incoming");
            assert("voice_incoming"@ =~= seq!['v', 'o', 'i', 'c', 'e', '_', 'i', 'n', 'c', 'o', 'm', 'i', 'n', 'g']);
        },
    }
}

} // verus!
