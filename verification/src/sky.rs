//! The sky's colour table and weather kinds.
//!
//! A palette holds one colour per role and time of day; what a colour is made of is
//! up to the one who draws. Blending follows the sun's elevation: between sunset
//! and day above the horizon, between sunset and night below it.
use vstd::prelude::*;

verus! {

/// What a palette colour is used for.
#[derive(Clone, Copy, PartialEq, Eq, Debug, Structural)]
pub enum Role {
    /// Direct sun or moon light.
    Light,
    /// Sky overhead.
    Zenith,
    /// Sky at the horizon, toward which fog fades.
    Horizon,
}

/// Which time of day a colour belongs to.
#[derive(Clone, Copy, PartialEq, Eq, Debug, Structural)]
pub enum Anchor {
    Sunset,
    Day,
    Night,
}

impl Role {
    /// The row of the role.
    pub open spec fn row_spec(self) -> int {
        match self {
            Role::Light => 0,
            Role::Zenith => 1,
            Role::Horizon => 2,
        }
    }

    fn row(self) -> (i: usize)
        ensures
            i == self.row_spec(),
            i < 3,
    {
        match self {
            Role::Light => 0,
            Role::Zenith => 1,
            Role::Horizon => 2,
        }
    }
}

impl Anchor {
    /// The column of the time of day.
    pub open spec fn column_spec(self) -> int {
        match self {
            Anchor::Sunset => 0,
            Anchor::Day => 1,
            Anchor::Night => 2,
        }
    }

    fn column(self) -> (i: usize)
        ensures
            i == self.column_spec(),
            i < 3,
    {
        match self {
            Anchor::Sunset => 0,
            Anchor::Day => 1,
            Anchor::Night => 2,
        }
    }
}

/// A sky palette: one colour per role and time of day.
#[derive(Clone, Copy, Debug)]
pub struct Palette<C> {
    colors: [[C; 3]; 3],
}

impl<C: Copy> Palette<C> {
    /// The table, by role and then time of day.
    pub closed spec fn table(self) -> [[C; 3]; 3] {
        self.colors
    }

    /// The colour of a role at a time of day.
    pub open spec fn color(self, role: Role, anchor: Anchor) -> C {
        self.table()@[role.row_spec()]@[anchor.column_spec()]
    }

    /// A palette from its table, by role and then time of day.
    pub fn new(colors: [[C; 3]; 3]) -> (p: Self)
        ensures
            p.table() == colors,
    {
        Palette { colors }
    }

    /// The colour of a role at a time of day.
    pub fn get(&self, role: Role, anchor: Anchor) -> (c: C)
        ensures
            c == self.color(role, anchor),
    {
        self.colors[role.row()][anchor.column()]
    }

    /// The two colours that a role blends between: from sunset on toward day while
    /// the sun is up, toward night while it is down.
    pub fn blended(&self, role: Role, sun_up: bool) -> (r: (C, C))
        ensures
            r == (
                self.color(role, Anchor::Sunset),
                self.color(
                    role,
                    if sun_up {
                        Anchor::Day
                    } else {
                        Anchor::Night
                    },
                ),
            ),
    {
        let far = if sun_up {
            Anchor::Day
        } else {
            Anchor::Night
        };
        (self.get(role, Anchor::Sunset), self.get(role, far))
    }
}

/// At the horizon both blends start from one colour, so the sky does not jump.
pub proof fn lemma_horizon_is_shared<C: Copy>(p: Palette<C>, role: Role, up: (C, C), down: (C, C))
    requires
        up == (p.color(role, Anchor::Sunset), p.color(role, Anchor::Day)),
        down == (p.color(role, Anchor::Sunset), p.color(role, Anchor::Night)),
    ensures
        up.0 == down.0,
{
}

/// The channels of an `0xRRGGBB` colour.
pub fn hex_channels(rgb: u32) -> (r: (u8, u8, u8))
    ensures
        r.0 == (rgb / 65536) % 256,
        r.1 == (rgb / 256) % 256,
        r.2 == rgb % 256,
        rgb < 0x100_0000 ==> 65536 * r.0 + 256 * r.1 + r.2 == rgb,
{
    (((rgb / 65536) % 256) as u8, ((rgb / 256) % 256) as u8, (rgb % 256) as u8)
}

/// What falls from the sky.
#[derive(Clone, Copy, PartialEq, Eq, Debug, Structural)]
pub enum Precip {
    Clear,
    Rain,
    Snow,
}

impl Precip {
    /// The fog that the precipitation adds, in thousandths.
    pub open spec fn fog_spec(self) -> u32 {
        match self {
            Precip::Clear => 0,
            Precip::Rain => 4,
            Precip::Snow => 6,
        }
    }

    /// The fog that the precipitation adds, in thousandths.
    pub fn fog_thousandths(self) -> (n: u32)
        ensures
            n == self.fog_spec(),
    {
        match self {
            Precip::Clear => 0,
            Precip::Rain => 4,
            Precip::Snow => 6,
        }
    }

    /// Whether the wet rain sky shows. Snow leaves it alone.
    pub fn tints_sky(self) -> (b: bool)
        ensures
            b == (self == Precip::Rain),
    {
        match self {
            Precip::Rain => true,
            _ => false,
        }
    }
}

/// Rain is hazier than clear weather, and snow than rain.
pub proof fn lemma_weather_is_hazy()
    ensures
        Precip::Clear.fog_spec() == 0,
        Precip::Clear.fog_spec() < Precip::Rain.fog_spec() < Precip::Snow.fog_spec(),
{
}

/// No two entries of a palette share a place: a palette that differs from another in one
/// colour differs there alone.
pub proof fn lemma_palette_places_differ(r: Role, s: Role, a: Anchor, b: Anchor)
    ensures
        0 <= r.row_spec() < 3,
        0 <= a.column_spec() < 3,
        r.row_spec() == s.row_spec() ==> r == s,
        a.column_spec() == b.column_spec() ==> a == b,
{
}

} // verus!
