//! The knobs of diffusion worlds and their text form.
use vstd::prelude::*;

use crate::settings::real32::Real32;
use crate::text::{
    chars_of, decimal, find_char, find_in, is_digit, is_white, lemma_decimal_round_trip,
    lemma_find_char, lemma_solid_trim, lemma_trimmed_unique, parse_unsigned, push_decimal, same_text, text_of,
    trim_bounds, trimmed, unsigned_value,
};

verus! {

/// The vertical relief steps that the stepper offers.
#[derive(Clone, Copy, PartialEq, Eq, Debug, Structural)]
pub enum Relief {
    Half,
    One,
    OneAndHalf,
    Two,
    Four,
}

impl Relief {
    /// The step in hundredths.
    pub open spec fn hundredths_spec(self) -> i32 {
        match self {
            Relief::Half => 50,
            Relief::One => 100,
            Relief::OneAndHalf => 150,
            Relief::Two => 200,
            Relief::Four => 400,
        }
    }

    /// The step in hundredths.
    pub fn hundredths(self) -> (n: i32)
        ensures
            n == self.hundredths_spec(),
    {
        match self {
            Relief::Half => 50,
            Relief::One => 100,
            Relief::OneAndHalf => 150,
            Relief::Two => 200,
            Relief::Four => 400,
        }
    }

    /// The step with two decimals.
    pub open spec fn text_spec(self) -> Seq<char> {
        match self {
            Relief::Half => "0.50"@,
            Relief::One => "1.00"@,
            Relief::OneAndHalf => "1.50"@,
            Relief::Two => "2.00"@,
            Relief::Four => "4.00"@,
        }
    }

    /// The step with two decimals.
    pub fn text(self) -> (s: &'static str)
        ensures
            s@ == self.text_spec(),
    {
        match self {
            Relief::Half => "0.50",
            Relief::One => "1.00",
            Relief::OneAndHalf => "1.50",
            Relief::Two => "2.00",
            Relief::Four => "4.00",
        }
    }

    /// The step as a number.
    pub open spec fn number_spec(self) -> Real32 {
        match self {
            Relief::Half => Real32 { bits: 0x3F00_0000 },
            Relief::One => Real32 { bits: 0x3F80_0000 },
            Relief::OneAndHalf => Real32 { bits: 0x3FC0_0000 },
            Relief::Two => Real32 { bits: 0x4000_0000 },
            Relief::Four => Real32 { bits: 0x4080_0000 },
        }
    }

    /// The step as a number.
    pub fn number(self) -> (v: Real32)
        ensures
            v == self.number_spec(),
    {
        match self {
            Relief::Half => Real32 { bits: 0x3F00_0000 },
            Relief::One => Real32 { bits: 0x3F80_0000 },
            Relief::OneAndHalf => Real32 { bits: 0x3FC0_0000 },
            Relief::Two => Real32 { bits: 0x4000_0000 },
            Relief::Four => Real32 { bits: 0x4080_0000 },
        }
    }

    /// The step nearest to a number by single-precision distance, the lesser of two that
    /// are equally near.
    ///
    /// The bounds are half-way between steps: 0.75, 1.25, 1.75 and 3. Up to two to the 25th
    /// the distances are exact where they are compared. From there to two to the 26th, a
    /// number with an odd last bit is as far from 2 as from 4; from there to two to the 27th
    /// one with an even last bit, and beyond it every number, is as far from all steps.
    pub open spec fn nearest_spec(v: Real32) -> Relief {
        let odd = v.bits as int % 2 == 1;
        if v.is_nan_spec() || v.rank() <= 0x3F40_0000 {
            Relief::Half
        } else if v.rank() <= 0x3FA0_0000 {
            Relief::One
        } else if v.rank() <= 0x3FE0_0000 {
            Relief::OneAndHalf
        } else if v.rank() <= 0x4040_0000 {
            Relief::Two
        } else if v.rank() <= 0x4C00_0000 {
            Relief::Four
        } else if v.rank() <= 0x4C80_0000 {
            if odd {
                Relief::Two
            } else {
                Relief::Four
            }
        } else if v.rank() < 0x4D00_0000 && odd {
            Relief::Four
        } else {
            Relief::Half
        }
    }

    /// The step nearest to a number, the lesser of two that are equally near.
    pub fn nearest(v: Real32) -> (r: Relief)
        ensures
            r == Relief::nearest_spec(v),
    {
        let odd: bool = v.bits % 2 == 1;
        if v.bits >= 0x7F80_0000 || v.bits <= 0x3F40_0000 {
            Relief::Half
        } else if v.bits <= 0x3FA0_0000 {
            Relief::One
        } else if v.bits <= 0x3FE0_0000 {
            Relief::OneAndHalf
        } else if v.bits <= 0x4040_0000 {
            Relief::Two
        } else if v.bits <= 0x4C00_0000 {
            Relief::Four
        } else if v.bits <= 0x4C80_0000 {
            if odd {
                Relief::Two
            } else {
                Relief::Four
            }
        } else if v.bits < 0x4D00_0000 && odd {
            Relief::Four
        } else {
            Relief::Half
        }
    }
}

/// The relief steps that the stepper offers.
pub const RELIEFS: [Relief; 5] = [
    Relief::Half,
    Relief::One,
    Relief::OneAndHalf,
    Relief::Two,
    Relief::Four,
];

/// A step is nearest to itself: snapping an offered relief changes nothing.
pub proof fn lemma_step_is_nearest(r: Relief)
    ensures
        Relief::nearest_spec(r.number_spec()) == r,
{
}

/// The knobs of a diffusion world.
#[derive(Clone, Copy, PartialEq, Eq, Debug, Structural)]
pub struct DiffusionCfg {
    pub tile: u32,
    pub stride: u32,
    pub phases: u32,
    /// Extra vertical relief.
    pub relief: Relief,
    /// 1 for the overlapping real-valued field, 2 for the integer one.
    pub version: u8,
}

/// The least stride.
pub const MIN_STRIDE: u32 = 8;

/// Strides are multiples of this.
pub const STRIDE_STEP: u32 = 8;

/// The fewest phases.
pub const PHASES_MIN: u32 = 2;

/// The most phases.
pub const PHASES_MAX: u32 = 8;

/// The tile sizes that the stepper offers.
pub const TILES: [u32; 3] = [16, 32, 64];

/// How far apart two numbers are.
pub open spec fn apart(a: u32, b: u32) -> int {
    if a < b {
        b - a
    } else {
        a - b
    }
}

/// The offered tile size nearest to `v`, the smaller of two.
pub open spec fn snap_tile(v: u32) -> u32 {
    if v <= 24 {
        16
    } else if v <= 48 {
        32
    } else {
        64
    }
}

/// The tile size that a knob snaps to is offered, and no offered size is nearer.
pub proof fn lemma_snap_tile(v: u32, i: int)
    requires
        0 <= i < 3,
    ensures
        exists|k: int| 0 <= k < 3 && snap_tile(v) == #[trigger] TILES@[k],
        apart(snap_tile(v), v) <= apart(TILES@[i], v),
        apart(snap_tile(v), v) == apart(TILES@[i], v) ==> snap_tile(v) <= TILES@[i],
{
    assert(TILES@[0] == 16 && TILES@[1] == 32 && TILES@[2] == 64);
}

/// The offered tile size nearest to `v`.
fn snap_u32(v: u32) -> (r: u32)
    ensures
        r == snap_tile(v),
{
    let mut best: u32 = TILES[0];
    let mut i: usize = 1;
    while i < 3
        invariant
            1 <= i <= 3,
            i == 1 ==> best == 16,
            i == 2 ==> best == (if v <= 24 {
                16u32
            } else {
                32
            }),
            i == 3 ==> best == snap_tile(v),
        decreases 3 - i,
    {
        let c: u32 = TILES[i];
        let near: u32 = if best < v {
            v - best
        } else {
            best - v
        };
        let d: u32 = if c < v {
            v - c
        } else {
            c - v
        };
        if d < near {
            best = c;
        }
        i = i + 1;
    }
    best
}

/// `stride`, kept within the least stride and the tile, and brought to the nearest
/// multiple of the step, halves up.
pub open spec fn snap_stride_spec(stride: u32, tile: u32) -> u32 {
    let v = if stride < 8 {
        8
    } else if stride > tile {
        tile as int
    } else {
        stride as int
    };
    let snapped = ((v + 4) / 8) * 8;
    (if snapped > tile {
        tile as int
    } else {
        snapped
    }) as u32
}

fn snap_stride(stride: u32, tile: u32) -> (r: u32)
    requires
        8 <= tile <= 64,
    ensures
        r == snap_stride_spec(stride, tile),
{
    let v: u32 = if stride < MIN_STRIDE {
        MIN_STRIDE
    } else if stride > tile {
        tile
    } else {
        stride
    };
    let snapped: u32 = ((v + STRIDE_STEP / 2) / STRIDE_STEP) * STRIDE_STEP;
    if snapped < MIN_STRIDE {
        MIN_STRIDE
    } else if snapped > tile {
        tile
    } else {
        snapped
    }
}

/// The knobs as text: `tile=..,stride=..,phases=..,relief=..`, and the version
/// where it is not the first.
pub open spec fn text_spec(c: DiffusionCfg) -> Seq<char> {
    let base = "tile="@ + decimal(c.tile as nat) + ",stride="@ + decimal(c.stride as nat)
        + ",phases="@ + decimal(c.phases as nat) + ",relief="@ + c.relief.text_spec();
    if c.version == 1 {
        base
    } else {
        base + ",version="@ + decimal(c.version as nat)
    }
}

/// What a part of the text assigns: its key and the value's text.
pub open spec fn assignment(part: Seq<char>) -> Option<(Seq<char>, Seq<char>)> {
    let e = find_char(part, '=') as int;
    if e < part.len() {
        Some((trimmed(part.take(e)), part.skip(e + 1)))
    } else {
        None
    }
}

/// `now`, or the number that `v` stands for where it is at most `max`.
pub open spec fn reading(v: Seq<char>, max: int, now: int) -> int {
    match unsigned_value(v) {
        Some(n) => if n <= max {
            n
        } else {
            now
        },
        None => now,
    }
}

/// The knobs after one part. The relief is not read here.
pub open spec fn turned(c: DiffusionCfg, part: Seq<char>) -> DiffusionCfg {
    match assignment(part) {
        Some((k, v)) => if k == "tile"@ {
            DiffusionCfg { tile: reading(v, u32::MAX as int, c.tile as int) as u32, ..c }
        } else if k == "stride"@ {
            DiffusionCfg { stride: reading(v, u32::MAX as int, c.stride as int) as u32, ..c }
        } else if k == "phases"@ {
            DiffusionCfg { phases: reading(v, u32::MAX as int, c.phases as int) as u32, ..c }
        } else if k == "version"@ {
            DiffusionCfg { version: reading(v, u8::MAX as int, c.version as int) as u8, ..c }
        } else {
            c
        },
        None => c,
    }
}

/// The relief texts of one part.
pub open spec fn relief_of(part: Seq<char>) -> Seq<Seq<char>> {
    match assignment(part) {
        Some((k, v)) => if k == "relief"@ {
            seq![v]
        } else {
            Seq::empty()
        },
        None => Seq::empty(),
    }
}

/// The text up to the first comma.
pub open spec fn first_part(s: Seq<char>) -> Seq<char> {
    s.take(find_char(s, ',') as int)
}

/// The text behind the first comma.
pub open spec fn other_parts(s: Seq<char>) -> Seq<char> {
    let e = find_char(s, ',') as int;
    if e < s.len() {
        s.skip(e + 1)
    } else {
        Seq::empty()
    }
}

/// The knobs after every part of a text.
pub open spec fn turned_all(c: DiffusionCfg, s: Seq<char>) -> DiffusionCfg
    decreases s.len(),
{
    if s.len() == 0 {
        c
    } else {
        turned_all(turned(c, first_part(s)), other_parts(s))
    }
}

/// The relief texts of every part, in order.
pub open spec fn reliefs(s: Seq<char>) -> Seq<Seq<char>>
    decreases s.len(),
{
    if s.len() == 0 {
        Seq::empty()
    } else {
        relief_of(first_part(s)) + reliefs(other_parts(s))
    }
}

fn read_or(v: &Vec<char>, max: u64, now: u64) -> (n: u64)
    requires
        max < 0x1000_0000_0000_0000,
    ensures
        n == reading(v@, max as int, now as int),
{
    proof {
        crate::text::lemma_unsigned_nonneg(v@);
    }
    match parse_unsigned(v, max) {
        Some(n) => n,
        None => now,
    }
}

impl DiffusionCfg {
    /// The knobs of a fresh world.
    pub open spec fn default_spec() -> DiffusionCfg {
        DiffusionCfg { tile: 32, stride: 16, phases: 2, relief: Relief::One, version: 1 }
    }

    /// The knobs brought to values that the stepper can show.
    pub open spec fn clamp_spec(self) -> DiffusionCfg {
        let tile = snap_tile(self.tile);
        DiffusionCfg {
            tile,
            stride: snap_stride_spec(self.stride, tile),
            phases: if self.phases < PHASES_MIN {
                PHASES_MIN
            } else if self.phases > PHASES_MAX {
                PHASES_MAX
            } else {
                self.phases
            },
            relief: self.relief,
            version: if self.version < 1 {
                1
            } else if self.version > 2 {
                2
            } else {
                self.version
            },
        }
    }

    /// Brings every knob to a value that the stepper can show. The tile goes first,
    /// since the stride may not exceed it.
    pub fn clamp(self) -> (c: DiffusionCfg)
        ensures
            c == self.clamp_spec(),
    {
        let tile: u32 = snap_u32(self.tile);
        let stride: u32 = snap_stride(self.stride, tile);
        let phases: u32 = if self.phases < PHASES_MIN {
            PHASES_MIN
        } else if self.phases > PHASES_MAX {
            PHASES_MAX
        } else {
            self.phases
        };
        let version: u8 = if self.version < 1 {
            1
        } else if self.version > 2 {
            2
        } else {
            self.version
        };
        DiffusionCfg { tile, stride, phases, relief: self.relief, version }
    }

    /// The wire form of the knobs. The first version goes unnamed.
    pub fn to_text(self) -> (s: String)
        ensures
            s@ == text_spec(self),
    {
        let mut s: String = String::new();
        s.append("tile=");
        push_decimal(&mut s, self.tile as u64);
        s.append(",stride=");
        push_decimal(&mut s, self.stride as u64);
        s.append(",phases=");
        push_decimal(&mut s, self.phases as u64);
        s.append(",relief=");
        s.append(self.relief.text());
        let ghost base = "tile="@ + decimal(self.tile as nat) + ",stride="@ + decimal(
            self.stride as nat,
        ) + ",phases="@ + decimal(self.phases as nat) + ",relief="@ + self.relief.text_spec();
        assert(s@ =~= base);
        if self.version != 1 {
            s.append(",version=");
            push_decimal(&mut s, self.version as u64);
            assert(s@ =~= text_spec(self));
        }
        s
    }

    /// Reads a full or partial knob text over the knobs of a fresh world. Texts
    /// given for the relief are handed back in order.
    pub fn from_text(data: &str) -> (r: (DiffusionCfg, Vec<String>))
        ensures
            r.0 == turned_all(DiffusionCfg::default_spec(), data@).clamp_spec(),
            r.1@.map_values(|t: String| t@) == reliefs(data@),
    {
        DiffusionCfg::default().overlay(data)
    }

    /// Turns the knobs that `data` names, then clamps. A part that names no knob, or
    /// holds no number for it, changes nothing. Texts given for the relief are
    /// handed back in order.
    pub fn overlay(self, data: &str) -> (r: (DiffusionCfg, Vec<String>))
        ensures
            r.0 == turned_all(self, data@).clamp_spec(),
            r.1@.map_values(|t: String| t@) == reliefs(data@),
    {
        let chars: Vec<char> = chars_of(data);
        let mut c: DiffusionCfg = self;
        let mut texts: Vec<String> = Vec::new();
        let ghost views = |t: String| t@;
        let mut i: usize = 0;
        proof {
            assert(chars@.skip(0) =~= data@);
            assert(texts@.map_values(views) =~= Seq::empty());
            assert(Seq::<Seq<char>>::empty() + reliefs(data@) =~= reliefs(data@));
        }
        while i < chars.len()
            invariant
                i <= chars@.len(),
                turned_all(c, chars@.skip(i as int)) == turned_all(self, data@),
                views == (|t: String| t@),
                texts@.map_values(views) + reliefs(chars@.skip(i as int)) == reliefs(data@),
            decreases chars@.len() - i,
        {
            let to: usize = chars.len();
            let e: usize = find_in(&chars, i, to, ',');
            let ghost rest = chars@.skip(i as int);
            let ghost part = first_part(rest);
            let ghost before = c;
            let ghost listed = texts@.map_values(views);
            proof {
                assert(chars@.subrange(i as int, to as int) =~= rest);
                assert(part =~= chars@.subrange(i as int, e as int));
            }
            let q: usize = find_in(&chars, i, e, '=');
            if q < e {
                let (k0, k1) = trim_bounds(&chars, i, q);
                let key: String = text_of(&chars, k0, k1);
                let value: String = text_of(&chars, q + 1, e);
                let digits: Vec<char> = chars_of(value.as_str());
                proof {
                    lemma_trimmed_unique(chars@, i as int, q as int, k0 as int, k1 as int);
                    assert(part.take(q - i) =~= chars@.subrange(i as int, q as int));
                    assert(part.skip(q - i + 1) =~= chars@.subrange(q + 1, e as int));
                    assert(assignment(part) == Some((key@, value@)));
                    reveal_strlit("tile");
                    reveal_strlit("stride");
                    reveal_strlit("phases");
                    reveal_strlit("relief");
                    reveal_strlit("version");
                    assert("relief"@[0] == 'r' && "tile"@[0] == 't' && "stride"@[0] == 's'
                        && "phases"@[0] == 'p' && "version"@[0] == 'v');
                    assert(texts@.push(value).map_values(views) =~= listed.push(value@));
                    assert(listed + seq![value@] =~= listed.push(value@));
                }
                if same_text(key.as_str(), "tile") {
                    c = DiffusionCfg {
                        tile: read_or(&digits, u32::MAX as u64, c.tile as u64) as u32,
                        ..c
                    };
                } else if same_text(key.as_str(), "stride") {
                    c = DiffusionCfg {
                        stride: read_or(&digits, u32::MAX as u64, c.stride as u64) as u32,
                        ..c
                    };
                } else if same_text(key.as_str(), "phases") {
                    c = DiffusionCfg {
                        phases: read_or(&digits, u32::MAX as u64, c.phases as u64) as u32,
                        ..c
                    };
                } else if same_text(key.as_str(), "version") {
                    c = DiffusionCfg {
                        version: read_or(&digits, u8::MAX as u64, c.version as u64) as u8,
                        ..c
                    };
                } else if same_text(key.as_str(), "relief") {
                    texts.push(value);
                }
            }
            proof {
                assert(c == turned(before, part));
                assert(listed + Seq::empty() =~= listed);
                assert(texts@.map_values(views) =~= listed + relief_of(part));
                assert((listed + relief_of(part)) + reliefs(other_parts(rest)) =~= listed + (
                relief_of(part) + reliefs(other_parts(rest))));
            }
            if e < to {
                assert(other_parts(rest) =~= chars@.skip(e + 1));
                i = e + 1;
            } else {
                assert(other_parts(rest) =~= chars@.skip(e as int));
                i = e;
            }
        }
        proof {
            assert(chars@.skip(i as int) =~= Seq::empty());
            assert(texts@.map_values(views) + Seq::empty() =~= texts@.map_values(views));
        }
        (c.clamp(), texts)
    }
}

impl DiffusionCfg {
    /// These knobs with the relief step nearest to a number.
    pub fn with_relief(self, v: Real32) -> (c: DiffusionCfg)
        ensures
            c == (DiffusionCfg { relief: Relief::nearest_spec(v), ..self }),
    {
        DiffusionCfg { relief: Relief::nearest(v), ..self }
    }
}

impl Default for DiffusionCfg {
    fn default() -> (c: Self)
        ensures
            c == DiffusionCfg::default_spec(),
    {
        DiffusionCfg { tile: 32, stride: 16, phases: 2, relief: Relief::One, version: 1 }
    }
}

/// Clamped knobs can be shown by the stepper, and clamping them again changes
/// nothing. The knobs of a fresh world are clamped.
pub proof fn lemma_clamped_knobs(c: DiffusionCfg)
    ensures
        c.clamp_spec().stride % STRIDE_STEP == 0,
        MIN_STRIDE <= c.clamp_spec().stride <= c.clamp_spec().tile,
        PHASES_MIN <= c.clamp_spec().phases <= PHASES_MAX,
        1 <= c.clamp_spec().version <= 2,
        c.clamp_spec().clamp_spec() == c.clamp_spec(),
        DiffusionCfg::default_spec().clamp_spec() == DiffusionCfg::default_spec(),
{
}

spec fn written(key: Seq<char>, v: Seq<char>) -> Seq<char> {
    key + seq!['='] + v
}

spec fn joined(part: Seq<char>, rest: Seq<char>) -> Seq<char> {
    part + seq![','] + rest
}

/// Whether a text has no comma.
spec fn unbroken(s: Seq<char>) -> bool {
    forall|i: int| 0 <= i < s.len() ==> #[trigger] s[i] != ','
}

/// Whether a text can be a key.
spec fn keyed(s: Seq<char>) -> bool {
    &&& s.len() > 0
    &&& forall|i: int|
        0 <= i < s.len() ==> !is_white(#[trigger] s[i]) && s[i] != '=' && s[i] != ','
}

proof fn lemma_joined(part: Seq<char>, rest: Seq<char>)
    requires
        unbroken(part),
    ensures
        joined(part, rest).len() > 0,
        first_part(joined(part, rest)) == part,
        other_parts(joined(part, rest)) == rest,
{
    let t = joined(part, rest);
    assert forall|j: int| 0 <= j < part.len() implies #[trigger] t[j] != ',' by {
        assert(part[j] != ',');
    }
    assert(t[part.len() as int] == ',');
    lemma_find_char(t, ',', part.len() as int);
    assert(t.take(part.len() as int) =~= part);
    assert(t.skip(part.len() as int + 1) =~= rest);
}

proof fn lemma_single(part: Seq<char>)
    requires
        unbroken(part),
    ensures
        first_part(part) == part,
        other_parts(part) == Seq::<char>::empty(),
{
    lemma_find_char(part, ',', part.len() as int);
    assert(part.take(part.len() as int) =~= part);
}

proof fn lemma_written(key: Seq<char>, v: Seq<char>)
    requires
        keyed(key),
        unbroken(v),
    ensures
        assignment(written(key, v)) == Some((key, v)),
        unbroken(written(key, v)),
        written(key, v).len() > 0,
{
    let t = written(key, v);
    assert forall|j: int| 0 <= j < key.len() implies #[trigger] t[j] != '=' by {
        assert(key[j] != '=');
    }
    assert(t[key.len() as int] == '=');
    lemma_find_char(t, '=', key.len() as int);
    assert(t.take(key.len() as int) =~= key);
    assert(t.skip(key.len() as int + 1) =~= v);
    assert(!is_white(key[0]) && !is_white(key[key.len() - 1]));
    lemma_solid_trim(key);
    assert forall|j: int| 0 <= j < t.len() implies #[trigger] t[j] != ',' by {
        if j < key.len() {
            assert(key[j] != ',');
        } else if j > key.len() {
            assert(v[j - key.len() - 1] != ',');
        }
    }
}

proof fn lemma_number_part(key: Seq<char>, n: nat)
    requires
        keyed(key),
    ensures
        assignment(written(key, decimal(n))) == Some((key, decimal(n))),
        unbroken(written(key, decimal(n))),
        written(key, decimal(n)).len() > 0,
        unsigned_value(decimal(n)) == Some(n as int),
{
    lemma_decimal_round_trip(n);
    assert forall|i: int| 0 <= i < decimal(n).len() implies #[trigger] decimal(n)[i] != ',' by {
        assert(is_digit(decimal(n)[i]));
    }
    lemma_written(key, decimal(n));
}

proof fn lemma_keys()
    ensures
        keyed("tile"@),
        keyed("stride"@),
        keyed("phases"@),
        keyed("relief"@),
        keyed("version"@),
        "tile"@[0] == 't',
        "stride"@[0] == 's',
        "phases"@[0] == 'p',
        "relief"@[0] == 'r',
        "version"@[0] == 'v',
        "tile="@ == "tile"@ + seq!['='],
        ",stride="@ == seq![','] + "stride"@ + seq!['='],
        ",phases="@ == seq![','] + "phases"@ + seq!['='],
        ",relief="@ == seq![','] + "relief"@ + seq!['='],
        ",version="@ == seq![','] + "version"@ + seq!['='],
{
    reveal_strlit("tile");
    reveal_strlit("stride");
    reveal_strlit("phases");
    reveal_strlit("relief");
    reveal_strlit("version");
    reveal_strlit("tile=");
    reveal_strlit(",stride=");
    reveal_strlit(",phases=");
    reveal_strlit(",relief=");
    reveal_strlit(",version=");
    assert("tile"@ =~= seq!['t', 'i', 'l', 'e']);
    assert("stride"@ =~= seq!['s', 't', 'r', 'i', 'd', 'e']);
    assert("phases"@ =~= seq!['p', 'h', 'a', 's', 'e', 's']);
    assert("relief"@ =~= seq!['r', 'e', 'l', 'i', 'e', 'f']);
    assert("version"@ =~= seq!['v', 'e', 'r', 's', 'i', 'o', 'n']);
    assert("tile="@ =~= "tile"@ + seq!['=']);
    assert(",stride="@ =~= seq![','] + "stride"@ + seq!['=']);
    assert(",phases="@ =~= seq![','] + "phases"@ + seq!['=']);
    assert(",relief="@ =~= seq![','] + "relief"@ + seq!['=']);
    assert(",version="@ =~= seq![','] + "version"@ + seq!['=']);
}

proof fn lemma_relief_part(r: Relief)
    ensures
        assignment(written("relief"@, r.text_spec())) == Some(("relief"@, r.text_spec())),
        unbroken(written("relief"@, r.text_spec())),
        written("relief"@, r.text_spec()).len() > 0,
{
    lemma_keys();
    reveal_strlit("0.50");
    reveal_strlit("1.00");
    reveal_strlit("1.50");
    reveal_strlit("2.00");
    reveal_strlit("4.00");
    assert("0.50"@ =~= seq!['0', '.', '5', '0']);
    assert("1.00"@ =~= seq!['1', '.', '0', '0']);
    assert("1.50"@ =~= seq!['1', '.', '5', '0']);
    assert("2.00"@ =~= seq!['2', '.', '0', '0']);
    assert("4.00"@ =~= seq!['4', '.', '0', '0']);
    lemma_written("relief"@, r.text_spec());
}

proof fn lemma_step(c: DiffusionCfg, part: Seq<char>, rest: Seq<char>)
    requires
        unbroken(part),
    ensures
        turned_all(c, joined(part, rest)) == turned_all(turned(c, part), rest),
        reliefs(joined(part, rest)) == relief_of(part) + reliefs(rest),
{
    lemma_joined(part, rest);
}

proof fn lemma_last(c: DiffusionCfg, part: Seq<char>)
    requires
        unbroken(part),
        part.len() > 0,
    ensures
        turned_all(c, part) == turned(c, part),
        reliefs(part) == relief_of(part),
{
    lemma_single(part);
    let e = Seq::<char>::empty();
    assert(turned_all(turned(c, part), e) == turned(c, part));
    assert(reliefs(e) =~= Seq::empty());
    assert(relief_of(part) + reliefs(e) =~= relief_of(part));
}

proof fn lemma_text_shape(c: DiffusionCfg)
    ensures
        ({
            let p4 = written("relief"@, c.relief.text_spec());
            let tail = if c.version == 1 {
                p4
            } else {
                joined(p4, written("version"@, decimal(c.version as nat)))
            };
            text_spec(c) == joined(
                written("tile"@, decimal(c.tile as nat)),
                joined(
                    written("stride"@, decimal(c.stride as nat)),
                    joined(written("phases"@, decimal(c.phases as nat)), tail),
                ),
            )
        }),
{
    lemma_keys();
    let p4 = written("relief"@, c.relief.text_spec());
    let tail = if c.version == 1 {
        p4
    } else {
        joined(p4, written("version"@, decimal(c.version as nat)))
    };
    assert(text_spec(c) =~= joined(
        written("tile"@, decimal(c.tile as nat)),
        joined(
            written("stride"@, decimal(c.stride as nat)),
            joined(written("phases"@, decimal(c.phases as nat)), tail),
        ),
    ));
}

proof fn lemma_turns(b: DiffusionCfg, c: DiffusionCfg)
    ensures
        turned(b, written("tile"@, decimal(c.tile as nat))) == (DiffusionCfg { tile: c.tile, ..b }),
        turned(b, written("stride"@, decimal(c.stride as nat))) == (DiffusionCfg {
            stride: c.stride,
            ..b
        }),
        turned(b, written("phases"@, decimal(c.phases as nat))) == (DiffusionCfg {
            phases: c.phases,
            ..b
        }),
        turned(b, written("version"@, decimal(c.version as nat))) == (DiffusionCfg {
            version: c.version,
            ..b
        }),
        turned(b, written("relief"@, c.relief.text_spec())) == b,
        relief_of(written("tile"@, decimal(c.tile as nat))) == Seq::<Seq<char>>::empty(),
        relief_of(written("stride"@, decimal(c.stride as nat))) == Seq::<Seq<char>>::empty(),
        relief_of(written("phases"@, decimal(c.phases as nat))) == Seq::<Seq<char>>::empty(),
        relief_of(written("version"@, decimal(c.version as nat))) == Seq::<Seq<char>>::empty(),
        relief_of(written("relief"@, c.relief.text_spec())) == seq![c.relief.text_spec()],
{
    lemma_keys();
    lemma_number_part("tile"@, c.tile as nat);
    lemma_number_part("stride"@, c.stride as nat);
    lemma_number_part("phases"@, c.phases as nat);
    lemma_number_part("version"@, c.version as nat);
    lemma_relief_part(c.relief);
}

/// Reading back the text of clamped knobs gives those knobs, and the text of the
/// relief alone. Only the relief is left to the one that reads real numbers.
pub proof fn lemma_knobs_round_trip(c: DiffusionCfg)
    requires
        c == c.clamp_spec(),
    ensures
        turned_all(DiffusionCfg::default_spec(), text_spec(c)).clamp_spec() == (DiffusionCfg {
            relief: Relief::One,
            ..c
        }),
        reliefs(text_spec(c)) == seq![c.relief.text_spec()],
{
    let c0 = DiffusionCfg::default_spec();
    lemma_text_shape(c);
    let p1 = written("tile"@, decimal(c.tile as nat));
    let p2 = written("stride"@, decimal(c.stride as nat));
    let p3 = written("phases"@, decimal(c.phases as nat));
    let p4 = written("relief"@, c.relief.text_spec());
    let p5 = written("version"@, decimal(c.version as nat));
    assert(unbroken(p1) && unbroken(p2) && unbroken(p3) && unbroken(p4) && unbroken(p5) && p4.len()
        > 0 && p5.len() > 0) by {
        lemma_keys();
        lemma_number_part("tile"@, c.tile as nat);
        lemma_number_part("stride"@, c.stride as nat);
        lemma_number_part("phases"@, c.phases as nat);
        lemma_number_part("version"@, c.version as nat);
        lemma_relief_part(c.relief);
    }
    let tail = if c.version == 1 {
        p4
    } else {
        joined(p4, p5)
    };
    let c1 = DiffusionCfg { tile: c.tile, ..c0 };
    let c2 = DiffusionCfg { stride: c.stride, ..c1 };
    let c3 = DiffusionCfg { phases: c.phases, ..c2 };
    lemma_turns(c0, c);
    lemma_turns(c1, c);
    lemma_turns(c2, c);
    lemma_turns(c3, c);
    lemma_step(c0, p1, joined(p2, joined(p3, tail)));
    lemma_step(c1, p2, joined(p3, tail));
    lemma_step(c2, p3, tail);
    lemma_last(c3, p4);
    lemma_last(c3, p5);
    lemma_step(c3, p4, p5);
    let none = Seq::<Seq<char>>::empty();
    let one = seq![c.relief.text_spec()];
    assert(one + none =~= one);
    assert(none + one =~= one);
}

/// Knobs in range stay as they are: an offered tile, a stride in steps of eight up to the
/// tile, two to eight phases and either version come back from clamping unchanged.
pub proof fn lemma_knobs_in_range_stay(c: DiffusionCfg)
    requires
        c.tile == 16 || c.tile == 32 || c.tile == 64,
        c.stride % 8 == 0,
        8 <= c.stride <= c.tile,
        2 <= c.phases <= 8,
        c.version == 1 || c.version == 2,
    ensures
        c.clamp_spec() == c,
{
}

/// Knobs out of range go to the nearer end: few phases become two and many eight, version
/// zero becomes one and later ones two, small strides become eight, and the relief stays.
pub proof fn lemma_knobs_out_of_range(c: DiffusionCfg)
    ensures
        c.phases < 2 ==> c.clamp_spec().phases == 2,
        c.phases > 8 ==> c.clamp_spec().phases == 8,
        c.version == 0 ==> c.clamp_spec().version == 1,
        c.version > 2 ==> c.clamp_spec().version == 2,
        c.stride < 12 ==> c.clamp_spec().stride == 8,
        c.stride >= c.clamp_spec().tile ==> c.clamp_spec().stride == c.clamp_spec().tile,
        c.clamp_spec().relief == c.relief,
{
}

/// A knob turns on its own: an assignment to one leaves the others as they are, what is not
/// an assignment to a knob leaves all of them, and a number that does not read keeps the
/// old value.
pub proof fn lemma_knobs_turn_alone(c: DiffusionCfg, part: Seq<char>)
    ensures
        turned(c, part).relief == c.relief,
        assignment(part) is None ==> turned(c, part) == c,
        assignment(part) is Some ==> {
            let (k, v) = assignment(part)->0;
            let t = turned(c, part);
            &&& k == "tile"@ ==> t == (DiffusionCfg { tile: t.tile, ..c })
            &&& k == "stride"@ ==> t == (DiffusionCfg { stride: t.stride, ..c })
            &&& k == "phases"@ ==> t == (DiffusionCfg { phases: t.phases, ..c })
            &&& k == "version"@ ==> t == (DiffusionCfg { version: t.version, ..c })
            &&& unsigned_value(v) is None ==> t == c
            &&& k == "tile"@ && unsigned_value(v) is Some && unsigned_value(v)->0 <= u32::MAX
                ==> t.tile == unsigned_value(v)->0
            &&& k == "stride"@ && unsigned_value(v) is Some && unsigned_value(v)->0 <= u32::MAX
                ==> t.stride == unsigned_value(v)->0
            &&& k == "phases"@ && unsigned_value(v) is Some && unsigned_value(v)->0 <= u32::MAX
                ==> t.phases == unsigned_value(v)->0
            &&& k == "version"@ && unsigned_value(v) is Some && unsigned_value(v)->0 <= 255
                ==> t.version == unsigned_value(v)->0
        },
{
    lemma_keys();
    if assignment(part) is Some {
        let (k, v) = assignment(part)->0;
        if unsigned_value(v) is Some {
            crate::text::lemma_unsigned_nonneg(v);
        }
    }
}

/// Reliefs scale heights by a half, not at all, by one and a half, by two and by four.
pub proof fn lemma_reliefs_scale()
    ensures
        2 * Relief::Half.hundredths_spec() == Relief::One.hundredths_spec(),
        Relief::One.hundredths_spec() == 100,
        2 * Relief::OneAndHalf.hundredths_spec() == Relief::One.hundredths_spec()
            + Relief::Two.hundredths_spec(),
        Relief::Two.hundredths_spec() == 2 * Relief::One.hundredths_spec(),
        Relief::Four.hundredths_spec() == 2 * Relief::Two.hundredths_spec(),
{
}

} // verus!
