use voxel_world::sky::{hex_channels, Anchor, Palette, Precip, Role};

type Rgb = (f32, f32, f32);

fn classic() -> Palette<Rgb> {
    Palette::new([
        [(1.0, 0.72, 0.42), (1.0, 0.98, 0.92), (0.13, 0.14, 0.16)],
        [(0.30, 0.28, 0.35), (0.28, 0.50, 0.88), (0.02, 0.03, 0.09)],
        [(0.92, 0.46, 0.24), (0.66, 0.80, 0.94), (0.05, 0.07, 0.15)],
    ])
}

fn smoothstep(edge0: f32, edge1: f32, x: f32) -> f32 {
    let t = ((x - edge0) / (edge1 - edge0)).clamp(0.0, 1.0);
    t * t * (3.0 - 2.0 * t)
}

fn lerp(a: Rgb, b: Rgb, t: f32) -> Rgb {
    (a.0 + (b.0 - a.0) * t, a.1 + (b.1 - a.1) * t, a.2 + (b.2 - a.2) * t)
}

/// The colour of a role at a sun elevation.
fn at(p: &Palette<Rgb>, role: Role, elev: f32) -> Rgb {
    let (sunset, far) = p.blended(role, elev >= 0.0);
    let t = if elev >= 0.0 { smoothstep(0.05, 0.35, elev) } else { smoothstep(0.05, 0.25, -elev) };
    lerp(sunset, far, t)
}

fn close(a: Rgb, b: Rgb) -> bool {
    (a.0 - b.0).abs() < 1e-5 && (a.1 - b.1).abs() < 1e-5 && (a.2 - b.2).abs() < 1e-5
}

#[test]
fn anchors_are_pure_at_their_elevations() {
    let p = classic();
    for role in [Role::Light, Role::Zenith, Role::Horizon] {
        assert!(close(at(&p, role, 0.9), p.get(role, Anchor::Day)));
        assert!(close(at(&p, role, 0.0), p.get(role, Anchor::Sunset)));
        assert!(close(at(&p, role, -0.9), p.get(role, Anchor::Night)));
    }
}

#[test]
fn blend_is_continuous_across_the_horizon() {
    let p = classic();
    let above = at(&p, Role::Horizon, 0.001);
    let below = at(&p, Role::Horizon, -0.001);
    let sunset = p.get(Role::Horizon, Anchor::Sunset);
    for (got, want) in [(above, sunset), (below, sunset)] {
        assert!((got.0 - want.0).abs() < 0.02, "{:?} vs {:?}", got, want);
    }
}

#[test]
fn hex_colours_split_into_channels() {
    assert_eq!(hex_channels(0x12_34_56), (0x12, 0x34, 0x56));
    assert_eq!(hex_channels(0xFF_FF_FF), (255, 255, 255));
}

#[test]
fn only_rain_tints_the_sky() {
    assert!(Precip::Rain.tints_sky());
    assert!(!Precip::Snow.tints_sky());
    assert!(!Precip::Clear.tints_sky());
    assert_eq!(Precip::Snow.fog_thousandths(), 6);
    assert_eq!(Precip::Rain.fog_thousandths(), 4);
    assert_eq!(Precip::Clear.fog_thousandths(), 0);
}
