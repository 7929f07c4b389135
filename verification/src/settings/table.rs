//! The settings table: every setting with its names and its role.
use vstd::prelude::*;

use crate::text::same_text;

verus! {

/// Settings page.
#[derive(Clone, Copy, PartialEq, Eq, Debug, Structural)]
pub enum Category {
    Performance,
    Video,
    World,
    Interface,
    Audio,
}

/// How a setting is shown in the menu.
#[derive(Clone, Copy, PartialEq, Eq, Debug, Structural)]
pub enum MenuKind {
    Toggle,
    Choice,
    Bar,
}

/// How a setting takes part in named performance profiles.
#[derive(Clone, Copy, PartialEq, Eq, Debug, Structural)]
pub enum Profile {
    /// Selecting a profile keeps this personal control.
    Personal,
    /// The value comes from the selected profile.
    Owned,
    /// The value comes from the profile; the stripped base uses this switch.
    Stripped(bool),
}

/// What values a setting holds.
#[derive(Clone, Copy, PartialEq, Eq, Debug, Structural)]
pub enum ValueKind {
    Toggle,
    U8,
    U32,
    I32,
    Real,
    Preset,
    Hud,
    Vrs,
}

/// The number of settings.
pub const SETTING_COUNT: usize = 52;

/// A setting, in menu and file order.
#[derive(Clone, Copy, PartialEq, Eq, Debug, Structural)]
pub enum Setting {
    Preset,
    VerticalDistance,
    LodLevels,
    LodDetail,
    StreamHz,
    PhysicsHz,
    SkyHz,
    ModHz,
    HudMode,
    Simulation,
    ModLogic,
    Autosave,
    Minimap,
    ModHud,
    PlayerModels,
    NameTags,
    Fullscreen,
    Vsync,
    Lighting,
    Msaa,
    MaxFps,
    RenderDistance,
    Fov,
    RenderScale,
    UiScale,
    MenuScale,
    Shake,
    Lod2,
    Occlusion,
    Sky,
    Sunlight,
    Ambient,
    Shadows,
    Blocklight,
    Fog,
    Clouds,
    Weather,
    Stars,
    DayNight,
    Bloom,
    Godrays,
    Exposure,
    Taa,
    Vrs,
    WaterAnim,
    Ao,
    Vignette,
    MasterVolume,
    EffectsVolume,
    VoiceVolume,
    VoiceEnabled,
    VoiceIncoming,
}

impl Setting {
    /// The place of the setting in the table.
    pub open spec fn index_spec(self) -> usize {
        match self {
            Setting::Preset => 0,
            Setting::VerticalDistance => 1,
            Setting::LodLevels => 2,
            Setting::LodDetail => 3,
            Setting::StreamHz => 4,
            Setting::PhysicsHz => 5,
            Setting::SkyHz => 6,
            Setting::ModHz => 7,
            Setting::HudMode => 8,
            Setting::Simulation => 9,
            Setting::ModLogic => 10,
            Setting::Autosave => 11,
            Setting::Minimap => 12,
            Setting::ModHud => 13,
            Setting::PlayerModels => 14,
            Setting::NameTags => 15,
            Setting::Fullscreen => 16,
            Setting::Vsync => 17,
            Setting::Lighting => 18,
            Setting::Msaa => 19,
            Setting::MaxFps => 20,
            Setting::RenderDistance => 21,
            Setting::Fov => 22,
            Setting::RenderScale => 23,
            Setting::UiScale => 24,
            Setting::MenuScale => 25,
            Setting::Shake => 26,
            Setting::Lod2 => 27,
            Setting::Occlusion => 28,
            Setting::Sky => 29,
            Setting::Sunlight => 30,
            Setting::Ambient => 31,
            Setting::Shadows => 32,
            Setting::Blocklight => 33,
            Setting::Fog => 34,
            Setting::Clouds => 35,
            Setting::Weather => 36,
            Setting::Stars => 37,
            Setting::DayNight => 38,
            Setting::Bloom => 39,
            Setting::Godrays => 40,
            Setting::Exposure => 41,
            Setting::Taa => 42,
            Setting::Vrs => 43,
            Setting::WaterAnim => 44,
            Setting::Ao => 45,
            Setting::Vignette => 46,
            Setting::MasterVolume => 47,
            Setting::EffectsVolume => 48,
            Setting::VoiceVolume => 49,
            Setting::VoiceEnabled => 50,
            Setting::VoiceIncoming => 51,
        }
    }

    /// The place of the setting in the table.
    pub fn index(self) -> (r: usize)
        ensures
            r == self.index_spec(),
    {
        match self {
            Setting::Preset => 0,
            Setting::VerticalDistance => 1,
            Setting::LodLevels => 2,
            Setting::LodDetail => 3,
            Setting::StreamHz => 4,
            Setting::PhysicsHz => 5,
            Setting::SkyHz => 6,
            Setting::ModHz => 7,
            Setting::HudMode => 8,
            Setting::Simulation => 9,
            Setting::ModLogic => 10,
            Setting::Autosave => 11,
            Setting::Minimap => 12,
            Setting::ModHud => 13,
            Setting::PlayerModels => 14,
            Setting::NameTags => 15,
            Setting::Fullscreen => 16,
            Setting::Vsync => 17,
            Setting::Lighting => 18,
            Setting::Msaa => 19,
            Setting::MaxFps => 20,
            Setting::RenderDistance => 21,
            Setting::Fov => 22,
            Setting::RenderScale => 23,
            Setting::UiScale => 24,
            Setting::MenuScale => 25,
            Setting::Shake => 26,
            Setting::Lod2 => 27,
            Setting::Occlusion => 28,
            Setting::Sky => 29,
            Setting::Sunlight => 30,
            Setting::Ambient => 31,
            Setting::Shadows => 32,
            Setting::Blocklight => 33,
            Setting::Fog => 34,
            Setting::Clouds => 35,
            Setting::Weather => 36,
            Setting::Stars => 37,
            Setting::DayNight => 38,
            Setting::Bloom => 39,
            Setting::Godrays => 40,
            Setting::Exposure => 41,
            Setting::Taa => 42,
            Setting::Vrs => 43,
            Setting::WaterAnim => 44,
            Setting::Ao => 45,
            Setting::Vignette => 46,
            Setting::MasterVolume => 47,
            Setting::EffectsVolume => 48,
            Setting::VoiceVolume => 49,
            Setting::VoiceEnabled => 50,
            Setting::VoiceIncoming => 51,
        }
    }

    /// The setting at place `i` of the table.
    pub open spec fn at_spec(i: int) -> Setting {
        if i == 0 {
            Setting::Preset
        } else if i == 1 {
            Setting::VerticalDistance
        } else if i == 2 {
            Setting::LodLevels
        } else if i == 3 {
            Setting::LodDetail
        } else if i == 4 {
            Setting::StreamHz
        } else if i == 5 {
            Setting::PhysicsHz
        } else if i == 6 {
            Setting::SkyHz
        } else if i == 7 {
            Setting::ModHz
        } else if i == 8 {
            Setting::HudMode
        } else if i == 9 {
            Setting::Simulation
        } else if i == 10 {
            Setting::ModLogic
        } else if i == 11 {
            Setting::Autosave
        } else if i == 12 {
            Setting::Minimap
        } else if i == 13 {
            Setting::ModHud
        } else if i == 14 {
            Setting::PlayerModels
        } else if i == 15 {
            Setting::NameTags
        } else if i == 16 {
            Setting::Fullscreen
        } else if i == 17 {
            Setting::Vsync
        } else if i == 18 {
            Setting::Lighting
        } else if i == 19 {
            Setting::Msaa
        } else if i == 20 {
            Setting::MaxFps
        } else if i == 21 {
            Setting::RenderDistance
        } else if i == 22 {
            Setting::Fov
        } else if i == 23 {
            Setting::RenderScale
        } else if i == 24 {
            Setting::UiScale
        } else if i == 25 {
            Setting::MenuScale
        } else if i == 26 {
            Setting::Shake
        } else if i == 27 {
            Setting::Lod2
        } else if i == 28 {
            Setting::Occlusion
        } else if i == 29 {
            Setting::Sky
        } else if i == 30 {
            Setting::Sunlight
        } else if i == 31 {
            Setting::Ambient
        } else if i == 32 {
            Setting::Shadows
        } else if i == 33 {
            Setting::Blocklight
        } else if i == 34 {
            Setting::Fog
        } else if i == 35 {
            Setting::Clouds
        } else if i == 36 {
            Setting::Weather
        } else if i == 37 {
            Setting::Stars
        } else if i == 38 {
            Setting::DayNight
        } else if i == 39 {
            Setting::Bloom
        } else if i == 40 {
            Setting::Godrays
        } else if i == 41 {
            Setting::Exposure
        } else if i == 42 {
            Setting::Taa
        } else if i == 43 {
            Setting::Vrs
        } else if i == 44 {
            Setting::WaterAnim
        } else if i == 45 {
            Setting::Ao
        } else if i == 46 {
            Setting::Vignette
        } else if i == 47 {
            Setting::MasterVolume
        } else if i == 48 {
            Setting::EffectsVolume
        } else if i == 49 {
            Setting::VoiceVolume
        } else if i == 50 {
            Setting::VoiceEnabled
        } else {
            Setting::VoiceIncoming
        }
    }

    /// The setting at place `i` of the table.
    pub fn at(i: usize) -> (r: Setting)
        requires
            i < SETTING_COUNT,
        ensures
            r == Setting::at_spec(i as int),
            r.index_spec() == i,
    {
        match i {
            0 => Setting::Preset,
            1 => Setting::VerticalDistance,
            2 => Setting::LodLevels,
            3 => Setting::LodDetail,
            4 => Setting::StreamHz,
            5 => Setting::PhysicsHz,
            6 => Setting::SkyHz,
            7 => Setting::ModHz,
            8 => Setting::HudMode,
            9 => Setting::Simulation,
            10 => Setting::ModLogic,
            11 => Setting::Autosave,
            12 => Setting::Minimap,
            13 => Setting::ModHud,
            14 => Setting::PlayerModels,
            15 => Setting::NameTags,
            16 => Setting::Fullscreen,
            17 => Setting::Vsync,
            18 => Setting::Lighting,
            19 => Setting::Msaa,
            20 => Setting::MaxFps,
            21 => Setting::RenderDistance,
            22 => Setting::Fov,
            23 => Setting::RenderScale,
            24 => Setting::UiScale,
            25 => Setting::MenuScale,
            26 => Setting::Shake,
            27 => Setting::Lod2,
            28 => Setting::Occlusion,
            29 => Setting::Sky,
            30 => Setting::Sunlight,
            31 => Setting::Ambient,
            32 => Setting::Shadows,
            33 => Setting::Blocklight,
            34 => Setting::Fog,
            35 => Setting::Clouds,
            36 => Setting::Weather,
            37 => Setting::Stars,
            38 => Setting::DayNight,
            39 => Setting::Bloom,
            40 => Setting::Godrays,
            41 => Setting::Exposure,
            42 => Setting::Taa,
            43 => Setting::Vrs,
            44 => Setting::WaterAnim,
            45 => Setting::Ao,
            46 => Setting::Vignette,
            47 => Setting::MasterVolume,
            48 => Setting::EffectsVolume,
            49 => Setting::VoiceVolume,
            50 => Setting::VoiceEnabled,
            _ => Setting::VoiceIncoming,
        }
    }

    /// The page that the setting is on.
    pub open spec fn category_spec(self) -> Category {
        match self {
            Setting::Preset => Category::Performance,
            Setting::VerticalDistance => Category::Performance,
            Setting::LodLevels => Category::Performance,
            Setting::LodDetail => Category::Performance,
            Setting::StreamHz => Category::Performance,
            Setting::PhysicsHz => Category::Performance,
            Setting::SkyHz => Category::Performance,
            Setting::ModHz => Category::Performance,
            Setting::HudMode => Category::Performance,
            Setting::Simulation => Category::Performance,
            Setting::ModLogic => Category::Performance,
            Setting::Autosave => Category::Performance,
            Setting::Minimap => Category::Performance,
            Setting::ModHud => Category::Performance,
            Setting::PlayerModels => Category::Performance,
            Setting::NameTags => Category::Performance,
            Setting::Fullscreen => Category::Video,
            Setting::Vsync => Category::Video,
            Setting::Lighting => Category::World,
            Setting::Msaa => Category::Video,
            Setting::MaxFps => Category::Video,
            Setting::RenderDistance => Category::World,
            Setting::Fov => Category::Interface,
            Setting::RenderScale => Category::Video,
            Setting::UiScale => Category::Interface,
            Setting::MenuScale => Category::Interface,
            Setting::Shake => Category::Interface,
            Setting::Lod2 => Category::Video,
            Setting::Occlusion => Category::Video,
            Setting::Sky => Category::Video,
            Setting::Sunlight => Category::Video,
            Setting::Ambient => Category::Video,
            Setting::Shadows => Category::Video,
            Setting::Blocklight => Category::Video,
            Setting::Fog => Category::Video,
            Setting::Clouds => Category::Video,
            Setting::Weather => Category::Video,
            Setting::Stars => Category::Video,
            Setting::DayNight => Category::Video,
            Setting::Bloom => Category::Video,
            Setting::Godrays => Category::Video,
            Setting::Exposure => Category::Video,
            Setting::Taa => Category::Video,
            Setting::Vrs => Category::Video,
            Setting::WaterAnim => Category::Video,
            Setting::Ao => Category::Video,
            Setting::Vignette => Category::Video,
            Setting::MasterVolume => Category::Audio,
            Setting::EffectsVolume => Category::Audio,
            Setting::VoiceVolume => Category::Audio,
            Setting::VoiceEnabled => Category::Audio,
            Setting::VoiceIncoming => Category::Audio,
        }
    }

    /// The page that the setting is on.
    pub fn category(self) -> (r: Category)
        ensures
            r == self.category_spec(),
    {
        match self {
            Setting::Preset => Category::Performance,
            Setting::VerticalDistance => Category::Performance,
            Setting::LodLevels => Category::Performance,
            Setting::LodDetail => Category::Performance,
            Setting::StreamHz => Category::Performance,
            Setting::PhysicsHz => Category::Performance,
            Setting::SkyHz => Category::Performance,
            Setting::ModHz => Category::Performance,
            Setting::HudMode => Category::Performance,
            Setting::Simulation => Category::Performance,
            Setting::ModLogic => Category::Performance,
            Setting::Autosave => Category::Performance,
            Setting::Minimap => Category::Performance,
            Setting::ModHud => Category::Performance,
            Setting::PlayerModels => Category::Performance,
            Setting::NameTags => Category::Performance,
            Setting::Fullscreen => Category::Video,
            Setting::Vsync => Category::Video,
            Setting::Lighting => Category::World,
            Setting::Msaa => Category::Video,
            Setting::MaxFps => Category::Video,
            Setting::RenderDistance => Category::World,
            Setting::Fov => Category::Interface,
            Setting::RenderScale => Category::Video,
            Setting::UiScale => Category::Interface,
            Setting::MenuScale => Category::Interface,
            Setting::Shake => Category::Interface,
            Setting::Lod2 => Category::Video,
            Setting::Occlusion => Category::Video,
            Setting::Sky => Category::Video,
            Setting::Sunlight => Category::Video,
            Setting::Ambient => Category::Video,
            Setting::Shadows => Category::Video,
            Setting::Blocklight => Category::Video,
            Setting::Fog => Category::Video,
            Setting::Clouds => Category::Video,
            Setting::Weather => Category::Video,
            Setting::Stars => Category::Video,
            Setting::DayNight => Category::Video,
            Setting::Bloom => Category::Video,
            Setting::Godrays => Category::Video,
            Setting::Exposure => Category::Video,
            Setting::Taa => Category::Video,
            Setting::Vrs => Category::Video,
            Setting::WaterAnim => Category::Video,
            Setting::Ao => Category::Video,
            Setting::Vignette => Category::Video,
            Setting::MasterVolume => Category::Audio,
            Setting::EffectsVolume => Category::Audio,
            Setting::VoiceVolume => Category::Audio,
            Setting::VoiceEnabled => Category::Audio,
            Setting::VoiceIncoming => Category::Audio,
        }
    }

    /// How the setting is shown in the menu.
    pub open spec fn menu_kind_spec(self) -> MenuKind {
        match self {
            Setting::Preset => MenuKind::Choice,
            Setting::VerticalDistance => MenuKind::Bar,
            Setting::LodLevels => MenuKind::Bar,
            Setting::LodDetail => MenuKind::Bar,
            Setting::StreamHz => MenuKind::Choice,
            Setting::PhysicsHz => MenuKind::Choice,
            Setting::SkyHz => MenuKind::Choice,
            Setting::ModHz => MenuKind::Choice,
            Setting::HudMode => MenuKind::Choice,
            Setting::Simulation => MenuKind::Toggle,
            Setting::ModLogic => MenuKind::Toggle,
            Setting::Autosave => MenuKind::Toggle,
            Setting::Minimap => MenuKind::Toggle,
            Setting::ModHud => MenuKind::Toggle,
            Setting::PlayerModels => MenuKind::Toggle,
            Setting::NameTags => MenuKind::Toggle,
            Setting::Fullscreen => MenuKind::Toggle,
            Setting::Vsync => MenuKind::Toggle,
            Setting::Lighting => MenuKind::Toggle,
            Setting::Msaa => MenuKind::Choice,
            Setting::MaxFps => MenuKind::Bar,
            Setting::RenderDistance => MenuKind::Bar,
            Setting::Fov => MenuKind::Bar,
            Setting::RenderScale => MenuKind::Bar,
            Setting::UiScale => MenuKind::Bar,
            Setting::MenuScale => MenuKind::Bar,
            Setting::Shake => MenuKind::Bar,
            Setting::Lod2 => MenuKind::Toggle,
            Setting::Occlusion => MenuKind::Toggle,
            Setting::Sky => MenuKind::Toggle,
            Setting::Sunlight => MenuKind::Toggle,
            Setting::Ambient => MenuKind::Toggle,
            Setting::Shadows => MenuKind::Toggle,
            Setting::Blocklight => MenuKind::Toggle,
            Setting::Fog => MenuKind::Toggle,
            Setting::Clouds => MenuKind::Toggle,
            Setting::Weather => MenuKind::Toggle,
            Setting::Stars => MenuKind::Toggle,
            Setting::DayNight => MenuKind::Toggle,
            Setting::Bloom => MenuKind::Toggle,
            Setting::Godrays => MenuKind::Toggle,
            Setting::Exposure => MenuKind::Toggle,
            Setting::Taa => MenuKind::Toggle,
            Setting::Vrs => MenuKind::Choice,
            Setting::WaterAnim => MenuKind::Toggle,
            Setting::Ao => MenuKind::Toggle,
            Setting::Vignette => MenuKind::Toggle,
            Setting::MasterVolume => MenuKind::Bar,
            Setting::EffectsVolume => MenuKind::Bar,
            Setting::VoiceVolume => MenuKind::Bar,
            Setting::VoiceEnabled => MenuKind::Toggle,
            Setting::VoiceIncoming => MenuKind::Toggle,
        }
    }

    /// How the setting is shown in the menu.
    pub fn menu_kind(self) -> (r: MenuKind)
        ensures
            r == self.menu_kind_spec(),
    {
        match self {
            Setting::Preset => MenuKind::Choice,
            Setting::VerticalDistance => MenuKind::Bar,
            Setting::LodLevels => MenuKind::Bar,
            Setting::LodDetail => MenuKind::Bar,
            Setting::StreamHz => MenuKind::Choice,
            Setting::PhysicsHz => MenuKind::Choice,
            Setting::SkyHz => MenuKind::Choice,
            Setting::ModHz => MenuKind::Choice,
            Setting::HudMode => MenuKind::Choice,
            Setting::Simulation => MenuKind::Toggle,
            Setting::ModLogic => MenuKind::Toggle,
            Setting::Autosave => MenuKind::Toggle,
            Setting::Minimap => MenuKind::Toggle,
            Setting::ModHud => MenuKind::Toggle,
            Setting::PlayerModels => MenuKind::Toggle,
            Setting::NameTags => MenuKind::Toggle,
            Setting::Fullscreen => MenuKind::Toggle,
            Setting::Vsync => MenuKind::Toggle,
            Setting::Lighting => MenuKind::Toggle,
            Setting::Msaa => MenuKind::Choice,
            Setting::MaxFps => MenuKind::Bar,
            Setting::RenderDistance => MenuKind::Bar,
            Setting::Fov => MenuKind::Bar,
            Setting::RenderScale => MenuKind::Bar,
            Setting::UiScale => MenuKind::Bar,
            Setting::MenuScale => MenuKind::Bar,
            Setting::Shake => MenuKind::Bar,
            Setting::Lod2 => MenuKind::Toggle,
            Setting::Occlusion => MenuKind::Toggle,
            Setting::Sky => MenuKind::Toggle,
            Setting::Sunlight => MenuKind::Toggle,
            Setting::Ambient => MenuKind::Toggle,
            Setting::Shadows => MenuKind::Toggle,
            Setting::Blocklight => MenuKind::Toggle,
            Setting::Fog => MenuKind::Toggle,
            Setting::Clouds => MenuKind::Toggle,
            Setting::Weather => MenuKind::Toggle,
            Setting::Stars => MenuKind::Toggle,
            Setting::DayNight => MenuKind::Toggle,
            Setting::Bloom => MenuKind::Toggle,
            Setting::Godrays => MenuKind::Toggle,
            Setting::Exposure => MenuKind::Toggle,
            Setting::Taa => MenuKind::Toggle,
            Setting::Vrs => MenuKind::Choice,
            Setting::WaterAnim => MenuKind::Toggle,
            Setting::Ao => MenuKind::Toggle,
            Setting::Vignette => MenuKind::Toggle,
            Setting::MasterVolume => MenuKind::Bar,
            Setting::EffectsVolume => MenuKind::Bar,
            Setting::VoiceVolume => MenuKind::Bar,
            Setting::VoiceEnabled => MenuKind::Toggle,
            Setting::VoiceIncoming => MenuKind::Toggle,
        }
    }

    /// The role of the setting in profiles.
    pub open spec fn profile_spec(self) -> Profile {
        match self {
            Setting::Preset => Profile::Personal,
            Setting::VerticalDistance => Profile::Owned,
            Setting::LodLevels => Profile::Owned,
            Setting::LodDetail => Profile::Owned,
            Setting::StreamHz => Profile::Owned,
            Setting::PhysicsHz => Profile::Owned,
            Setting::SkyHz => Profile::Owned,
            Setting::ModHz => Profile::Owned,
            Setting::HudMode => Profile::Owned,
            Setting::Simulation => Profile::Owned,
            Setting::ModLogic => Profile::Owned,
            Setting::Autosave => Profile::Owned,
            Setting::Minimap => Profile::Owned,
            Setting::ModHud => Profile::Owned,
            Setting::PlayerModels => Profile::Owned,
            Setting::NameTags => Profile::Owned,
            Setting::Fullscreen => Profile::Personal,
            Setting::Vsync => Profile::Owned,
            Setting::Lighting => Profile::Owned,
            Setting::Msaa => Profile::Owned,
            Setting::MaxFps => Profile::Owned,
            Setting::RenderDistance => Profile::Owned,
            Setting::Fov => Profile::Personal,
            Setting::RenderScale => Profile::Owned,
            Setting::UiScale => Profile::Personal,
            Setting::MenuScale => Profile::Personal,
            Setting::Shake => Profile::Personal,
            Setting::Lod2 => Profile::Stripped(false),
            Setting::Occlusion => Profile::Stripped(false),
            Setting::Sky => Profile::Stripped(false),
            Setting::Sunlight => Profile::Stripped(true),
            Setting::Ambient => Profile::Stripped(false),
            Setting::Shadows => Profile::Stripped(false),
            Setting::Blocklight => Profile::Stripped(false),
            Setting::Fog => Profile::Stripped(false),
            Setting::Clouds => Profile::Stripped(false),
            Setting::Weather => Profile::Stripped(false),
            Setting::Stars => Profile::Stripped(false),
            Setting::DayNight => Profile::Stripped(false),
            Setting::Bloom => Profile::Stripped(false),
            Setting::Godrays => Profile::Stripped(false),
            Setting::Exposure => Profile::Stripped(false),
            Setting::Taa => Profile::Stripped(false),
            Setting::Vrs => Profile::Stripped(false),
            Setting::WaterAnim => Profile::Stripped(false),
            Setting::Ao => Profile::Stripped(false),
            Setting::Vignette => Profile::Stripped(false),
            Setting::MasterVolume => Profile::Personal,
            Setting::EffectsVolume => Profile::Personal,
            Setting::VoiceVolume => Profile::Personal,
            Setting::VoiceEnabled => Profile::Personal,
            Setting::VoiceIncoming => Profile::Personal,
        }
    }

    /// The role of the setting in profiles.
    pub fn profile(self) -> (r: Profile)
        ensures
            r == self.profile_spec(),
    {
        match self {
            Setting::Preset => Profile::Personal,
            Setting::VerticalDistance => Profile::Owned,
            Setting::LodLevels => Profile::Owned,
            Setting::LodDetail => Profile::Owned,
            Setting::StreamHz => Profile::Owned,
            Setting::PhysicsHz => Profile::Owned,
            Setting::SkyHz => Profile::Owned,
            Setting::ModHz => Profile::Owned,
            Setting::HudMode => Profile::Owned,
            Setting::Simulation => Profile::Owned,
            Setting::ModLogic => Profile::Owned,
            Setting::Autosave => Profile::Owned,
            Setting::Minimap => Profile::Owned,
            Setting::ModHud => Profile::Owned,
            Setting::PlayerModels => Profile::Owned,
            Setting::NameTags => Profile::Owned,
            Setting::Fullscreen => Profile::Personal,
            Setting::Vsync => Profile::Owned,
            Setting::Lighting => Profile::Owned,
            Setting::Msaa => Profile::Owned,
            Setting::MaxFps => Profile::Owned,
            Setting::RenderDistance => Profile::Owned,
            Setting::Fov => Profile::Personal,
            Setting::RenderScale => Profile::Owned,
            Setting::UiScale => Profile::Personal,
            Setting::MenuScale => Profile::Personal,
            Setting::Shake => Profile::Personal,
            Setting::Lod2 => Profile::Stripped(false),
            Setting::Occlusion => Profile::Stripped(false),
            Setting::Sky => Profile::Stripped(false),
            Setting::Sunlight => Profile::Stripped(true),
            Setting::Ambient => Profile::Stripped(false),
            Setting::Shadows => Profile::Stripped(false),
            Setting::Blocklight => Profile::Stripped(false),
            Setting::Fog => Profile::Stripped(false),
            Setting::Clouds => Profile::Stripped(false),
            Setting::Weather => Profile::Stripped(false),
            Setting::Stars => Profile::Stripped(false),
            Setting::DayNight => Profile::Stripped(false),
            Setting::Bloom => Profile::Stripped(false),
            Setting::Godrays => Profile::Stripped(false),
            Setting::Exposure => Profile::Stripped(false),
            Setting::Taa => Profile::Stripped(false),
            Setting::Vrs => Profile::Stripped(false),
            Setting::WaterAnim => Profile::Stripped(false),
            Setting::Ao => Profile::Stripped(false),
            Setting::Vignette => Profile::Stripped(false),
            Setting::MasterVolume => Profile::Personal,
            Setting::EffectsVolume => Profile::Personal,
            Setting::VoiceVolume => Profile::Personal,
            Setting::VoiceEnabled => Profile::Personal,
            Setting::VoiceIncoming => Profile::Personal,
        }
    }

    /// What values the setting holds.
    pub open spec fn kind_spec(self) -> ValueKind {
        match self {
            Setting::Preset => ValueKind::Preset,
            Setting::VerticalDistance => ValueKind::I32,
            Setting::LodLevels => ValueKind::U8,
            Setting::LodDetail => ValueKind::U8,
            Setting::StreamHz => ValueKind::U32,
            Setting::PhysicsHz => ValueKind::U32,
            Setting::SkyHz => ValueKind::U32,
            Setting::ModHz => ValueKind::U32,
            Setting::HudMode => ValueKind::Hud,
            Setting::Simulation => ValueKind::Toggle,
            Setting::ModLogic => ValueKind::Toggle,
            Setting::Autosave => ValueKind::Toggle,
            Setting::Minimap => ValueKind::Toggle,
            Setting::ModHud => ValueKind::Toggle,
            Setting::PlayerModels => ValueKind::Toggle,
            Setting::NameTags => ValueKind::Toggle,
            Setting::Fullscreen => ValueKind::Toggle,
            Setting::Vsync => ValueKind::Toggle,
            Setting::Lighting => ValueKind::Toggle,
            Setting::Msaa => ValueKind::U32,
            Setting::MaxFps => ValueKind::U32,
            Setting::RenderDistance => ValueKind::I32,
            Setting::Fov => ValueKind::Real,
            Setting::RenderScale => ValueKind::Real,
            Setting::UiScale => ValueKind::Real,
            Setting::MenuScale => ValueKind::Real,
            Setting::Shake => ValueKind::Real,
            Setting::Lod2 => ValueKind::Toggle,
            Setting::Occlusion => ValueKind::Toggle,
            Setting::Sky => ValueKind::Toggle,
            Setting::Sunlight => ValueKind::Toggle,
            Setting::Ambient => ValueKind::Toggle,
            Setting::Shadows => ValueKind::Toggle,
            Setting::Blocklight => ValueKind::Toggle,
            Setting::Fog => ValueKind::Toggle,
            Setting::Clouds => ValueKind::Toggle,
            Setting::Weather => ValueKind::Toggle,
            Setting::Stars => ValueKind::Toggle,
            Setting::DayNight => ValueKind::Toggle,
            Setting::Bloom => ValueKind::Toggle,
            Setting::Godrays => ValueKind::Toggle,
            Setting::Exposure => ValueKind::Toggle,
            Setting::Taa => ValueKind::Toggle,
            Setting::Vrs => ValueKind::Vrs,
            Setting::WaterAnim => ValueKind::Toggle,
            Setting::Ao => ValueKind::Toggle,
            Setting::Vignette => ValueKind::Toggle,
            Setting::MasterVolume => ValueKind::U8,
            Setting::EffectsVolume => ValueKind::U8,
            Setting::VoiceVolume => ValueKind::U8,
            Setting::VoiceEnabled => ValueKind::Toggle,
            Setting::VoiceIncoming => ValueKind::Toggle,
        }
    }

    /// What values the setting holds.
    pub fn kind(self) -> (r: ValueKind)
        ensures
            r == self.kind_spec(),
    {
        match self {
            Setting::Preset => ValueKind::Preset,
            Setting::VerticalDistance => ValueKind::I32,
            Setting::LodLevels => ValueKind::U8,
            Setting::LodDetail => ValueKind::U8,
            Setting::StreamHz => ValueKind::U32,
            Setting::PhysicsHz => ValueKind::U32,
            Setting::SkyHz => ValueKind::U32,
            Setting::ModHz => ValueKind::U32,
            Setting::HudMode => ValueKind::Hud,
            Setting::Simulation => ValueKind::Toggle,
            Setting::ModLogic => ValueKind::Toggle,
            Setting::Autosave => ValueKind::Toggle,
            Setting::Minimap => ValueKind::Toggle,
            Setting::ModHud => ValueKind::Toggle,
            Setting::PlayerModels => ValueKind::Toggle,
            Setting::NameTags => ValueKind::Toggle,
            Setting::Fullscreen => ValueKind::Toggle,
            Setting::Vsync => ValueKind::Toggle,
            Setting::Lighting => ValueKind::Toggle,
            Setting::Msaa => ValueKind::U32,
            Setting::MaxFps => ValueKind::U32,
            Setting::RenderDistance => ValueKind::I32,
            Setting::Fov => ValueKind::Real,
            Setting::RenderScale => ValueKind::Real,
            Setting::UiScale => ValueKind::Real,
            Setting::MenuScale => ValueKind::Real,
            Setting::Shake => ValueKind::Real,
            Setting::Lod2 => ValueKind::Toggle,
            Setting::Occlusion => ValueKind::Toggle,
            Setting::Sky => ValueKind::Toggle,
            Setting::Sunlight => ValueKind::Toggle,
            Setting::Ambient => ValueKind::Toggle,
            Setting::Shadows => ValueKind::Toggle,
            Setting::Blocklight => ValueKind::Toggle,
            Setting::Fog => ValueKind::Toggle,
            Setting::Clouds => ValueKind::Toggle,
            Setting::Weather => ValueKind::Toggle,
            Setting::Stars => ValueKind::Toggle,
            Setting::DayNight => ValueKind::Toggle,
            Setting::Bloom => ValueKind::Toggle,
            Setting::Godrays => ValueKind::Toggle,
            Setting::Exposure => ValueKind::Toggle,
            Setting::Taa => ValueKind::Toggle,
            Setting::Vrs => ValueKind::Vrs,
            Setting::WaterAnim => ValueKind::Toggle,
            Setting::Ao => ValueKind::Toggle,
            Setting::Vignette => ValueKind::Toggle,
            Setting::MasterVolume => ValueKind::U8,
            Setting::EffectsVolume => ValueKind::U8,
            Setting::VoiceVolume => ValueKind::U8,
            Setting::VoiceEnabled => ValueKind::Toggle,
            Setting::VoiceIncoming => ValueKind::Toggle,
        }
    }

    /// The name in the settings file and on the console.
    pub open spec fn key_spec(self) -> Seq<char> {
        match self {
            Setting::Preset => "preset"@,
            Setting::VerticalDistance => "vertical_distance"@,
            Setting::LodLevels => "lod_levels"@,
            Setting::LodDetail => "lod_detail"@,
            Setting::StreamHz => "stream_hz"@,
            Setting::PhysicsHz => "physics_hz"@,
            Setting::SkyHz => "sky_hz"@,
            Setting::ModHz => "mod_hz"@,
            Setting::HudMode => "hud_mode"@,
            Setting::Simulation => "simulation"@,
            Setting::ModLogic => "mod_logic"@,
            Setting::Autosave => "autosave"@,
            Setting::Minimap => "minimap"@,
            Setting::ModHud => "mod_hud"@,
            Setting::PlayerModels => "player_models"@,
            Setting::NameTags => "name_tags"@,
            Setting::Fullscreen => "fullscreen"@,
            Setting::Vsync => "vsync"@,
            Setting::Lighting => "lighting"@,
            Setting::Msaa => "msaa"@,
            Setting::MaxFps => "max_fps"@,
            Setting::RenderDistance => "render_distance"@,
            Setting::Fov => "fov"@,
            Setting::RenderScale => "render_scale"@,
            Setting::UiScale => "ui_scale"@,
            Setting::MenuScale => "menu_scale"@,
            Setting::Shake => "shake"@,
            Setting::Lod2 => "lod2"@,
            Setting::Occlusion => "occlusion"@,
            Setting::Sky => "sky"@,
            Setting::Sunlight => "sunlight"@,
            Setting::Ambient => "ambient"@,
            Setting::Shadows => "shadows"@,
            Setting::Blocklight => "blocklight"@,
            Setting::Fog => "fog"@,
            Setting::Clouds => "clouds"@,
            Setting::Weather => "weather"@,
            Setting::Stars => "stars"@,
            Setting::DayNight => "day_night"@,
            Setting::Bloom => "bloom"@,
            Setting::Godrays => "godrays"@,
            Setting::Exposure => "exposure"@,
            Setting::Taa => "taa"@,
            Setting::Vrs => "vrs"@,
            Setting::WaterAnim => "water_anim"@,
            Setting::Ao => "ao"@,
            Setting::Vignette => "vignette"@,
            Setting::MasterVolume => "master_volume"@,
            Setting::EffectsVolume => "effects_volume"@,
            Setting::VoiceVolume => "voice_volume"@,
            Setting::VoiceEnabled => "voice_enabled"@,
            Setting::VoiceIncoming => "voice_incoming"@,
        }
    }

    /// The name in the settings file and on the console.
    pub fn key(self) -> (r: &'static str)
        ensures
            r@ == self.key_spec(),
    {
        match self {
            Setting::Preset => "preset",
            Setting::VerticalDistance => "vertical_distance",
            Setting::LodLevels => "lod_levels",
            Setting::LodDetail => "lod_detail",
            Setting::StreamHz => "stream_hz",
            Setting::PhysicsHz => "physics_hz",
            Setting::SkyHz => "sky_hz",
            Setting::ModHz => "mod_hz",
            Setting::HudMode => "hud_mode",
            Setting::Simulation => "simulation",
            Setting::ModLogic => "mod_logic",
            Setting::Autosave => "autosave",
            Setting::Minimap => "minimap",
            Setting::ModHud => "mod_hud",
            Setting::PlayerModels => "player_models",
            Setting::NameTags => "name_tags",
            Setting::Fullscreen => "fullscreen",
            Setting::Vsync => "vsync",
            Setting::Lighting => "lighting",
            Setting::Msaa => "msaa",
            Setting::MaxFps => "max_fps",
            Setting::RenderDistance => "render_distance",
            Setting::Fov => "fov",
            Setting::RenderScale => "render_scale",
            Setting::UiScale => "ui_scale",
            Setting::MenuScale => "menu_scale",
            Setting::Shake => "shake",
            Setting::Lod2 => "lod2",
            Setting::Occlusion => "occlusion",
            Setting::Sky => "sky",
            Setting::Sunlight => "sunlight",
            Setting::Ambient => "ambient",
            Setting::Shadows => "shadows",
            Setting::Blocklight => "blocklight",
            Setting::Fog => "fog",
            Setting::Clouds => "clouds",
            Setting::Weather => "weather",
            Setting::Stars => "stars",
            Setting::DayNight => "day_night",
            Setting::Bloom => "bloom",
            Setting::Godrays => "godrays",
            Setting::Exposure => "exposure",
            Setting::Taa => "taa",
            Setting::Vrs => "vrs",
            Setting::WaterAnim => "water_anim",
            Setting::Ao => "ao",
            Setting::Vignette => "vignette",
            Setting::MasterVolume => "master_volume",
            Setting::EffectsVolume => "effects_volume",
            Setting::VoiceVolume => "voice_volume",
            Setting::VoiceEnabled => "voice_enabled",
            Setting::VoiceIncoming => "voice_incoming",
        }
    }

    /// The menu label.
    pub open spec fn label_spec(self) -> Seq<char> {
        match self {
            Setting::Preset => "Performance Preset"@,
            Setting::VerticalDistance => "Vertical Distance"@,
            Setting::LodLevels => "LOD Range"@,
            Setting::LodDetail => "LOD Quality"@,
            Setting::StreamHz => "Streaming Rate"@,
            Setting::PhysicsHz => "Physics Rate"@,
            Setting::SkyHz => "Sky Clock Rate"@,
            Setting::ModHz => "Mod Update Rate"@,
            Setting::HudMode => "HUD Mode"@,
            Setting::Simulation => "Simulation"@,
            Setting::ModLogic => "Mod Updates"@,
            Setting::Autosave => "Autosave"@,
            Setting::Minimap => "Minimap"@,
            Setting::ModHud => "Mod HUD"@,
            Setting::PlayerModels => "Player Models"@,
            Setting::NameTags => "Name Tags"@,
            Setting::Fullscreen => "Fullscreen"@,
            Setting::Vsync => "VSync"@,
            Setting::Lighting => "Voxel Lighting"@,
            Setting::Msaa => "MSAA"@,
            Setting::MaxFps => "Max FPS"@,
            Setting::RenderDistance => "Render Distance"@,
            Setting::Fov => "FOV"@,
            Setting::RenderScale => "Render Scale"@,
            Setting::UiScale => "UI Scale"@,
            Setting::MenuScale => "Menu Scale"@,
            Setting::Shake => "Camera Shake"@,
            Setting::Lod2 => "Distant LOD"@,
            Setting::Occlusion => "Occlusion Culling"@,
            Setting::Sky => "Procedural Sky"@,
            Setting::Sunlight => "Sunlight"@,
            Setting::Ambient => "Ambient Light"@,
            Setting::Shadows => "Shadows"@,
            Setting::Blocklight => "Block Light"@,
            Setting::Fog => "Distance Fog"@,
            Setting::Clouds => "Clouds"@,
            Setting::Weather => "Weather"@,
            Setting::Stars => "Night Stars"@,
            Setting::DayNight => "Day/Night Cycle"@,
            Setting::Bloom => "Bloom"@,
            Setting::Godrays => "Godrays"@,
            Setting::Exposure => "Auto Exposure"@,
            Setting::Taa => "Temporal AA"@,
            Setting::Vrs => "Variable-Rate Shading"@,
            Setting::WaterAnim => "Water Animation"@,
            Setting::Ao => "Ambient Occlusion"@,
            Setting::Vignette => "Vignette"@,
            Setting::MasterVolume => "Master Volume"@,
            Setting::EffectsVolume => "Effects Volume"@,
            Setting::VoiceVolume => "Voice Volume"@,
            Setting::VoiceEnabled => "Voice Chat"@,
            Setting::VoiceIncoming => "Hear Voice"@,
        }
    }

    /// The menu label.
    pub fn label(self) -> (r: &'static str)
        ensures
            r@ == self.label_spec(),
    {
        match self {
            Setting::Preset => "Performance Preset",
            Setting::VerticalDistance => "Vertical Distance",
            Setting::LodLevels => "LOD Range",
            Setting::LodDetail => "LOD Quality",
            Setting::StreamHz => "Streaming Rate",
            Setting::PhysicsHz => "Physics Rate",
            Setting::SkyHz => "Sky Clock Rate",
            Setting::ModHz => "Mod Update Rate",
            Setting::HudMode => "HUD Mode",
            Setting::Simulation => "Simulation",
            Setting::ModLogic => "Mod Updates",
            Setting::Autosave => "Autosave",
            Setting::Minimap => "Minimap",
            Setting::ModHud => "Mod HUD",
            Setting::PlayerModels => "Player Models",
            Setting::NameTags => "Name Tags",
            Setting::Fullscreen => "Fullscreen",
            Setting::Vsync => "VSync",
            Setting::Lighting => "Voxel Lighting",
            Setting::Msaa => "MSAA",
            Setting::MaxFps => "Max FPS",
            Setting::RenderDistance => "Render Distance",
            Setting::Fov => "FOV",
            Setting::RenderScale => "Render Scale",
            Setting::UiScale => "UI Scale",
            Setting::MenuScale => "Menu Scale",
            Setting::Shake => "Camera Shake",
            Setting::Lod2 => "Distant LOD",
            Setting::Occlusion => "Occlusion Culling",
            Setting::Sky => "Procedural Sky",
            Setting::Sunlight => "Sunlight",
            Setting::Ambient => "Ambient Light",
            Setting::Shadows => "Shadows",
            Setting::Blocklight => "Block Light",
            Setting::Fog => "Distance Fog",
            Setting::Clouds => "Clouds",
            Setting::Weather => "Weather",
            Setting::Stars => "Night Stars",
            Setting::DayNight => "Day/Night Cycle",
            Setting::Bloom => "Bloom",
            Setting::Godrays => "Godrays",
            Setting::Exposure => "Auto Exposure",
            Setting::Taa => "Temporal AA",
            Setting::Vrs => "Variable-Rate Shading",
            Setting::WaterAnim => "Water Animation",
            Setting::Ao => "Ambient Occlusion",
            Setting::Vignette => "Vignette",
            Setting::MasterVolume => "Master Volume",
            Setting::EffectsVolume => "Effects Volume",
            Setting::VoiceVolume => "Voice Volume",
            Setting::VoiceEnabled => "Voice Chat",
            Setting::VoiceIncoming => "Hear Voice",
        }
    }

    /// The console name with the values it takes.
    pub open spec fn usage_spec(self) -> Seq<char> {
        match self {
            Setting::Preset => "preset custom|minimum|fast|default"@,
            Setting::VerticalDistance => "vertical_distance <1-10>"@,
            Setting::LodLevels => "lod_levels <1-8>"@,
            Setting::LodDetail => "lod_detail <2-6>"@,
            Setting::StreamHz => "stream_hz every|15|30|60|120|240"@,
            Setting::PhysicsHz => "physics_hz every|30|60|120|240|500|1000"@,
            Setting::SkyHz => "sky_hz every|15|30|60|120|240"@,
            Setting::ModHz => "mod_hz every|15|30|60|120|240"@,
            Setting::HudMode => "hud_mode off|minimal|full"@,
            Setting::Simulation => "simulation on|off"@,
            Setting::ModLogic => "mod_logic on|off"@,
            Setting::Autosave => "autosave on|off"@,
            Setting::Minimap => "minimap on|off"@,
            Setting::ModHud => "mod_hud on|off"@,
            Setting::PlayerModels => "player_models on|off"@,
            Setting::NameTags => "name_tags on|off"@,
            Setting::Fullscreen => "fullscreen on|off"@,
            Setting::Vsync => "vsync on|off"@,
            Setting::Lighting => "lighting on|off"@,
            Setting::Msaa => "msaa 1|2|4|8"@,
            Setting::MaxFps => "fps <10-1000>|off"@,
            Setting::RenderDistance => "renderdist <0-20>"@,
            Setting::Fov => "fov <60-220>"@,
            Setting::RenderScale => "renderscale <25-200>"@,
            Setting::UiScale => "uiscale <50-200>"@,
            Setting::MenuScale => "menuscale <50-200>"@,
            Setting::Shake => "shake <0-100>"@,
            Setting::Lod2 => "lod2 on|off"@,
            Setting::Occlusion => "occlusion on|off"@,
            Setting::Sky => "sky on|off"@,
            Setting::Sunlight => "sunlight on|off"@,
            Setting::Ambient => "ambient on|off"@,
            Setting::Shadows => "shadows on|off"@,
            Setting::Blocklight => "blocklight on|off"@,
            Setting::Fog => "fog on|off"@,
            Setting::Clouds => "clouds on|off"@,
            Setting::Weather => "weather on|off"@,
            Setting::Stars => "stars on|off"@,
            Setting::DayNight => "day_night on|off"@,
            Setting::Bloom => "bloom on|off"@,
            Setting::Godrays => "godrays on|off"@,
            Setting::Exposure => "exposure on|off"@,
            Setting::Taa => "taa on|off"@,
            Setting::Vrs => "vrs auto|on|off"@,
            Setting::WaterAnim => "water_anim on|off"@,
            Setting::Ao => "ao on|off"@,
            Setting::Vignette => "vignette on|off"@,
            Setting::MasterVolume => "master_volume <0-100>"@,
            Setting::EffectsVolume => "effects_volume <0-100>"@,
            Setting::VoiceVolume => "voice_volume <0-100>"@,
            Setting::VoiceEnabled => "voice_enabled on|off"@,
            Setting::VoiceIncoming => "voice_incoming on|off"@,
        }
    }

    /// The console name with the values it takes.
    pub fn usage(self) -> (r: &'static str)
        ensures
            r@ == self.usage_spec(),
    {
        match self {
            Setting::Preset => "preset custom|minimum|fast|default",
            Setting::VerticalDistance => "vertical_distance <1-10>",
            Setting::LodLevels => "lod_levels <1-8>",
            Setting::LodDetail => "lod_detail <2-6>",
            Setting::StreamHz => "stream_hz every|15|30|60|120|240",
            Setting::PhysicsHz => "physics_hz every|30|60|120|240|500|1000",
            Setting::SkyHz => "sky_hz every|15|30|60|120|240",
            Setting::ModHz => "mod_hz every|15|30|60|120|240",
            Setting::HudMode => "hud_mode off|minimal|full",
            Setting::Simulation => "simulation on|off",
            Setting::ModLogic => "mod_logic on|off",
            Setting::Autosave => "autosave on|off",
            Setting::Minimap => "minimap on|off",
            Setting::ModHud => "mod_hud on|off",
            Setting::PlayerModels => "player_models on|off",
            Setting::NameTags => "name_tags on|off",
            Setting::Fullscreen => "fullscreen on|off",
            Setting::Vsync => "vsync on|off",
            Setting::Lighting => "lighting on|off",
            Setting::Msaa => "msaa 1|2|4|8",
            Setting::MaxFps => "fps <10-1000>|off",
            Setting::RenderDistance => "renderdist <0-20>",
            Setting::Fov => "fov <60-220>",
            Setting::RenderScale => "renderscale <25-200>",
            Setting::UiScale => "uiscale <50-200>",
            Setting::MenuScale => "menuscale <50-200>",
            Setting::Shake => "shake <0-100>",
            Setting::Lod2 => "lod2 on|off",
            Setting::Occlusion => "occlusion on|off",
            Setting::Sky => "sky on|off",
            Setting::Sunlight => "sunlight on|off",
            Setting::Ambient => "ambient on|off",
            Setting::Shadows => "shadows on|off",
            Setting::Blocklight => "blocklight on|off",
            Setting::Fog => "fog on|off",
            Setting::Clouds => "clouds on|off",
            Setting::Weather => "weather on|off",
            Setting::Stars => "stars on|off",
            Setting::DayNight => "day_night on|off",
            Setting::Bloom => "bloom on|off",
            Setting::Godrays => "godrays on|off",
            Setting::Exposure => "exposure on|off",
            Setting::Taa => "taa on|off",
            Setting::Vrs => "vrs auto|on|off",
            Setting::WaterAnim => "water_anim on|off",
            Setting::Ao => "ao on|off",
            Setting::Vignette => "vignette on|off",
            Setting::MasterVolume => "master_volume <0-100>",
            Setting::EffectsVolume => "effects_volume <0-100>",
            Setting::VoiceVolume => "voice_volume <0-100>",
            Setting::VoiceEnabled => "voice_enabled on|off",
            Setting::VoiceIncoming => "voice_incoming on|off",
        }
    }

    /// Whether the setting answers to `name`: its key or a console alias.
    pub open spec fn matches_spec(self, name: Seq<char>) -> bool {
        name == self.key_spec() || match self {
            Setting::Preset => name == "profile"@,
            Setting::VerticalDistance => name == "vertical"@ || name == "verticaldist"@,
            Setting::LodLevels => name == "lodlevels"@,
            Setting::LodDetail => name == "loddetail"@,
            Setting::StreamHz => name == "streamrate"@,
            Setting::PhysicsHz => name == "physicsrate"@,
            Setting::SkyHz => name == "skyrate"@,
            Setting::ModHz => name == "modrate"@,
            Setting::HudMode => name == "hud"@,
            Setting::Simulation => name == "sim"@,
            Setting::ModLogic => name == "mods"@,
            Setting::Minimap => name == "map"@,
            Setting::ModHud => name == "modhud"@,
            Setting::PlayerModels => name == "models"@,
            Setting::NameTags => name == "nametags"@,
            Setting::Lighting => name == "light"@,
            Setting::MaxFps => name == "fps"@,
            Setting::RenderDistance => name == "renderdist"@ || name == "renderdistance"@,
            Setting::RenderScale => name == "renderscale"@ || name == "scale"@,
            Setting::UiScale => name == "uiscale"@ || name == "hudscale"@,
            Setting::MenuScale => name == "menuscale"@,
            Setting::Shake => name == "camerashake"@,
            Setting::Lod2 => name == "lod"@,
            Setting::Occlusion => name == "occ"@,
            Setting::Sunlight => name == "sun"@,
            Setting::Ambient => name == "amb"@,
            Setting::Shadows => name == "shadow"@,
            Setting::DayNight => name == "daynight"@,
            Setting::Exposure => name == "exp"@,
            Setting::Taa => name == "aa"@,
            Setting::WaterAnim => name == "water"@,
            Setting::Ao => name == "vertexao"@,
            Setting::MasterVolume => name == "volume"@ || name == "master"@,
            Setting::EffectsVolume => name == "effects"@ || name == "sfx"@,
            Setting::VoiceVolume => name == "voice_vol"@,
            Setting::VoiceEnabled => name == "voice"@ || name == "mic"@,
            Setting::VoiceIncoming => name == "deafen_inverse"@ || name == "hearvoice"@,
            _ => false,
        }
    }

    /// Whether the setting answers to `name`: its key or a console alias.
    pub fn matches(self, name: &str) -> (r: bool)
        ensures
            r == self.matches_spec(name@),
    {
        same_text(name, self.key()) || match self {
            Setting::Preset => same_text(name, "profile"),
            Setting::VerticalDistance => same_text(name, "vertical") || same_text(name, "verticaldist"),
            Setting::LodLevels => same_text(name, "lodlevels"),
            Setting::LodDetail => same_text(name, "loddetail"),
            Setting::StreamHz => same_text(name, "streamrate"),
            Setting::PhysicsHz => same_text(name, "physicsrate"),
            Setting::SkyHz => same_text(name, "skyrate"),
            Setting::ModHz => same_text(name, "modrate"),
            Setting::HudMode => same_text(name, "hud"),
            Setting::Simulation => same_text(name, "sim"),
            Setting::ModLogic => same_text(name, "mods"),
            Setting::Minimap => same_text(name, "map"),
            Setting::ModHud => same_text(name, "modhud"),
            Setting::PlayerModels => same_text(name, "models"),
            Setting::NameTags => same_text(name, "nametags"),
            Setting::Lighting => same_text(name, "light"),
            Setting::MaxFps => same_text(name, "fps"),
            Setting::RenderDistance => same_text(name, "renderdist") || same_text(name, "renderdistance"),
            Setting::RenderScale => same_text(name, "renderscale") || same_text(name, "scale"),
            Setting::UiScale => same_text(name, "uiscale") || same_text(name, "hudscale"),
            Setting::MenuScale => same_text(name, "menuscale"),
            Setting::Shake => same_text(name, "camerashake"),
            Setting::Lod2 => same_text(name, "lod"),
            Setting::Occlusion => same_text(name, "occ"),
            Setting::Sunlight => same_text(name, "sun"),
            Setting::Ambient => same_text(name, "amb"),
            Setting::Shadows => same_text(name, "shadow"),
            Setting::DayNight => same_text(name, "daynight"),
            Setting::Exposure => same_text(name, "exp"),
            Setting::Taa => same_text(name, "aa"),
            Setting::WaterAnim => same_text(name, "water"),
            Setting::Ao => same_text(name, "vertexao"),
            Setting::MasterVolume => same_text(name, "volume") || same_text(name, "master"),
            Setting::EffectsVolume => same_text(name, "effects") || same_text(name, "sfx"),
            Setting::VoiceVolume => same_text(name, "voice_vol"),
            Setting::VoiceEnabled => same_text(name, "voice") || same_text(name, "mic"),
            Setting::VoiceIncoming => same_text(name, "deafen_inverse") || same_text(name, "hearvoice"),
            _ => false,
        }
    }

    /// Whether profiles own the setting.
    pub open spec fn owned_spec(self) -> bool {
        self.profile_spec() != Profile::Personal
    }
}

/// Places and settings correspond one to one.
pub proof fn lemma_index_at(t: Setting, i: int)
    ensures
        0 <= t.index_spec() < SETTING_COUNT,
        Setting::at_spec(t.index_spec() as int) == t,
        0 <= i < SETTING_COUNT ==> Setting::at_spec(i).index_spec() == i,
{
}

/// The first setting that answers to `name`, from place `i` on.
pub open spec fn lookup_from(name: Seq<char>, i: int) -> Option<Setting>
    decreases SETTING_COUNT - i,
{
    if i < 0 || i >= SETTING_COUNT {
        None
    } else if Setting::at_spec(i).matches_spec(name) {
        Some(Setting::at_spec(i))
    } else {
        lookup_from(name, i + 1)
    }
}

/// The setting that answers to `name`.
pub open spec fn lookup_spec(name: Seq<char>) -> Option<Setting> {
    lookup_from(name, 0)
}

/// The first setting in table order that answers to `name`.
pub fn lookup(name: &str) -> (r: Option<Setting>)
    ensures
        r == lookup_spec(name@),
{
    let mut i: usize = 0;
    while i < SETTING_COUNT
        invariant
            i <= SETTING_COUNT,
            lookup_spec(name@) == lookup_from(name@, i as int),
        decreases SETTING_COUNT - i,
    {
        let t = Setting::at(i);
        if t.matches(name) {
            return Some(t);
        }
        i = i + 1;
    }
    None
}

/// The menu shows a setting as what it holds: switches as switches, profiles and modes as
/// choices, real numbers as bars.
pub proof fn lemma_menu_shows_what_is_held(t: Setting)
    ensures
        t.menu_kind_spec() == MenuKind::Toggle <==> t.kind_spec() == ValueKind::Toggle,
        t.kind_spec() == ValueKind::Real ==> t.menu_kind_spec() == MenuKind::Bar,
        t.kind_spec() == ValueKind::Preset || t.kind_spec() == ValueKind::Hud || t.kind_spec()
            == ValueKind::Vrs ==> t.menu_kind_spec() == MenuKind::Choice,
{
}

} // verus!
