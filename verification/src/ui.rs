//! Small reusable interface types: layout, bounded scrollback, and one line
//! editor shared by every text field.
use vstd::prelude::*;
use vstd::string::*;
use std::collections::VecDeque;

use crate::text::{
    chars_of, lemma_trimmed_unique, same_text, text_of, trim_bounds, trimmed, white, is_white,
};

verus! {

/// A screen-space size or offset in pixels, `(x, y)`.
pub type Px = (i32, i32);

/// A text cut to `max` characters: whole where it fits, else ending in three
/// dots, or all dots where not even one character would be left.
pub open spec fn ellipsized(s: Seq<char>, max: int) -> Seq<char> {
    if s.len() <= max {
        s
    } else if max <= 3 {
        Seq::new(max as nat, |i: int| '.')
    } else {
        s.take(max - 3) + seq!['.', '.', '.']
    }
}

/// Fits a label into a fixed-width row without splitting a character.
pub fn ellipsize(text: &str, max_chars: usize) -> (r: String)
    ensures
        r@ == ellipsized(text@, max_chars as int),
        r@.len() <= max_chars,
{
    let chars: Vec<char> = chars_of(text);
    let n: usize = chars.len();
    if n <= max_chars {
        let r = text_of(&chars, 0, n);
        assert(r@ =~= text@);
        return r;
    }
    if max_chars <= 3 {
        let mut r = String::new();
        let mut i: usize = 0;
        while i < max_chars
            invariant
                i <= max_chars,
                r@ == Seq::new(i as nat, |j: int| '.'),
            decreases max_chars - i,
        {
            r.push('.');
            i = i + 1;
            assert(r@ =~= Seq::new(i as nat, |j: int| '.'));
        }
        return r;
    }
    let mut r = text_of(&chars, 0, max_chars - 3);
    r.push('.');
    r.push('.');
    r.push('.');
    assert(r@ =~= ellipsized(text@, max_chars as int));
    r
}

/// A cursor-following slice of `0..total` of at most `capacity` rows.
pub fn visible_window(total: usize, cursor: usize, capacity: usize) -> (r: std::ops::Range<usize>)
    ensures
        total == 0 || capacity == 0 ==> r.start == 0 && r.end == 0,
        total > 0 && capacity > 0 ==> {
            let rows = if capacity < total {
                capacity as int
            } else {
                total as int
            };
            let at = if cursor < total {
                cursor as int
            } else {
                total - 1
            };
            let wanted = if at < rows / 2 {
                0
            } else {
                at - rows / 2
            };
            &&& r.start == (if wanted < total - rows {
                wanted
            } else {
                total - rows
            })
            &&& r.end == r.start + rows
            &&& r.start <= at < r.end
        },
{
    if total == 0 || capacity == 0 {
        return 0..0;
    }
    let rows: usize = if capacity < total {
        capacity
    } else {
        total
    };
    let at: usize = if cursor < total {
        cursor
    } else {
        total - 1
    };
    let wanted: usize = if at < rows / 2 {
        0
    } else {
        at - rows / 2
    };
    let start: usize = if wanted < total - rows {
        wanted
    } else {
        total - rows
    };
    start..start + rows
}

/// The nine placement points of a rectangle.
#[derive(Clone, Copy, PartialEq, Eq, Debug, Structural)]
pub enum Anchor {
    TopLeft,
    Top,
    TopRight,
    Left,
    Center,
    Right,
    BottomLeft,
    Bottom,
    BottomRight,
}

/// Half of `n`, rounded toward zero.
pub open spec fn half_toward_zero(n: int) -> int {
    if n >= 0 {
        n / 2
    } else {
        -((-n) / 2)
    }
}

impl Anchor {
    /// Per-axis alignment: 0 at the start, 1 centred, 2 at the end.
    pub open spec fn factors_spec(self) -> (int, int) {
        match self {
            Anchor::TopLeft => (0, 0),
            Anchor::Top => (1, 0),
            Anchor::TopRight => (2, 0),
            Anchor::Left => (0, 1),
            Anchor::Center => (1, 1),
            Anchor::Right => (2, 1),
            Anchor::BottomLeft => (0, 2),
            Anchor::Bottom => (1, 2),
            Anchor::BottomRight => (2, 2),
        }
    }

    fn factors(self) -> (r: (i32, i32))
        ensures
            (r.0 as int, r.1 as int) == self.factors_spec(),
    {
        match self {
            Anchor::TopLeft => (0, 0),
            Anchor::Top => (1, 0),
            Anchor::TopRight => (2, 0),
            Anchor::Left => (0, 1),
            Anchor::Center => (1, 1),
            Anchor::Right => (2, 1),
            Anchor::BottomLeft => (0, 2),
            Anchor::Bottom => (1, 2),
            Anchor::BottomRight => (2, 2),
        }
    }

    /// Where along one axis an item of `size` starts inside `screen`, with
    /// margin `off`.
    pub open spec fn axis_origin(factor: int, screen: int, size: int, off: int) -> int {
        half_toward_zero((screen - size) * factor) + off
    }

    /// Top-left origin at which to draw an item of `size` inside `screen`, plus
    /// a margin `off`.
    pub fn origin(self, screen: Px, size: Px, off: Px) -> (r: Px)
        requires
            i32::MIN <= (screen.0 - size.0) * 2 <= i32::MAX,
            i32::MIN <= (screen.1 - size.1) * 2 <= i32::MAX,
            i32::MIN <= Self::axis_origin(
                self.factors_spec().0,
                screen.0 as int,
                size.0 as int,
                off.0 as int,
            ) <= i32::MAX,
            i32::MIN <= Self::axis_origin(
                self.factors_spec().1,
                screen.1 as int,
                size.1 as int,
                off.1 as int,
            ) <= i32::MAX,
        ensures
            r.0 == Self::axis_origin(
                self.factors_spec().0,
                screen.0 as int,
                size.0 as int,
                off.0 as int,
            ),
            r.1 == Self::axis_origin(
                self.factors_spec().1,
                screen.1 as int,
                size.1 as int,
                off.1 as int,
            ),
    {
        let (fx, fy) = self.factors();
        (
            axis_start(fx, screen.0, size.0) + off.0,
            axis_start(fy, screen.1, size.1) + off.1,
        )
    }
}

fn axis_start(factor: i32, screen: i32, size: i32) -> (r: i32)
    requires
        0 <= factor <= 2,
        i32::MIN <= (screen - size) * 2 <= i32::MAX,
    ensures
        r == half_toward_zero((screen - size) * factor),
{
    let d: i32 = screen - size;
    let n: i32 = if factor == 0 {
        0
    } else if factor == 1 {
        d
    } else {
        d * 2
    };
    assert(n == d * factor) by (nonlinear_arith)
        requires
            0 <= factor <= 2,
            factor == 0 ==> n == 0,
            factor == 1 ==> n == d,
            factor == 2 ==> n == d * 2,
    ;
    if n >= 0 {
        n / 2
    } else {
        let m: i64 = 0 - (n as i64);
        (0 - m / 2) as i32
    }
}

/// How much of the HUD is shown. `Minimal` keeps the reticle and world-space
/// name tags but hides the informational text.
#[derive(Clone, Copy, PartialEq, Eq, Debug, Structural)]
pub enum HudMode {
    Full,
    Minimal,
    Off,
}

impl HudMode {
    /// The stable persisted code.
    pub open spec fn code_spec(self) -> u8 {
        match self {
            HudMode::Full => 2,
            HudMode::Minimal => 1,
            HudMode::Off => 0,
        }
    }

    /// The stable persisted code.
    pub fn code(self) -> (c: u8)
        ensures
            c == self.code_spec(),
    {
        match self {
            HudMode::Full => 2,
            HudMode::Minimal => 1,
            HudMode::Off => 0,
        }
    }

    pub open spec fn label_spec(self) -> Seq<char> {
        match self {
            HudMode::Full => "Full"@,
            HudMode::Minimal => "Minimal"@,
            HudMode::Off => "Off"@,
        }
    }

    /// The menu label.
    pub fn label(self) -> (s: &'static str)
        ensures
            s@ == self.label_spec(),
    {
        match self {
            HudMode::Full => "Full",
            HudMode::Minimal => "Minimal",
            HudMode::Off => "Off",
        }
    }

    /// The mode that a word or code names.
    pub open spec fn parse_spec(s: Seq<char>) -> Option<HudMode> {
        if s == "full"@ || s == "2"@ {
            Some(HudMode::Full)
        } else if s == "minimal"@ || s == "min"@ || s == "1"@ {
            Some(HudMode::Minimal)
        } else if s == "off"@ || s == "0"@ {
            Some(HudMode::Off)
        } else {
            None
        }
    }

    /// The mode that a word or code names.
    pub fn parse(s: &str) -> (r: Option<HudMode>)
        ensures
            r == Self::parse_spec(s@),
    {
        if same_text(s, "full") || same_text(s, "2") {
            Some(HudMode::Full)
        } else if same_text(s, "minimal") || same_text(s, "min") || same_text(s, "1") {
            Some(HudMode::Minimal)
        } else if same_text(s, "off") || same_text(s, "0") {
            Some(HudMode::Off)
        } else {
            None
        }
    }

    /// The mode after this one: Full, Minimal, Off, and round again.
    pub fn next(self) -> (r: Self)
        ensures
            r == (match self {
                HudMode::Full => HudMode::Minimal,
                HudMode::Minimal => HudMode::Off,
                HudMode::Off => HudMode::Full,
            }),
    {
        match self {
            HudMode::Full => HudMode::Minimal,
            HudMode::Minimal => HudMode::Off,
            HudMode::Off => HudMode::Full,
        }
    }

    /// Whether informational text (coordinates, help, counts) is shown.
    pub fn shows_info(self) -> (b: bool)
        ensures
            b == (self == HudMode::Full),
    {
        matches!(self, HudMode::Full)
    }

    /// Whether the reticle and world-space name tags are shown.
    pub fn shows_world_ui(self) -> (b: bool)
        ensures
            b == (self != HudMode::Off),
    {
        !matches!(self, HudMode::Off)
    }

    /// Whether the minimap is shown.
    pub fn shows_minimap(self) -> (b: bool)
        ensures
            b == (self == HudMode::Full),
    {
        matches!(self, HudMode::Full)
    }

    /// Whether widgets contributed by mods are shown.
    pub fn shows_mod_hud(self) -> (b: bool)
        ensures
            b == (self != HudMode::Off),
    {
        !matches!(self, HudMode::Off)
    }
}

/// The emphasis of a run of text.
#[derive(Clone, Copy, PartialEq, Eq, Debug, Structural)]
pub enum Role {
    /// Primary text: the brightest normal text.
    Primary,
    /// Normal body text.
    Muted,
    /// De-emphasised text.
    Dim,
    /// Unavailable text.
    Disabled,
    /// The active item, links, player names.
    Accent,
    /// A positive value or state.
    Positive,
    /// A caution.
    Warning,
    /// An error or destructive outcome.
    Danger,
}

/// A run of text in one role.
#[derive(Clone)]
pub struct Span {
    pub text: String,
    pub role: Role,
}

/// One scrollback line: a first span and any continuation spans.
#[derive(Clone)]
pub struct Line {
    head: Span,
    tail: Vec<Span>,
}

impl Line {
    /// The spans, left to right.
    pub closed spec fn view(self) -> Seq<Span> {
        seq![self.head] + self.tail@
    }

    /// A whole-line message in one role.
    pub fn of(role: Role, text: String) -> (r: Self)
        ensures
            r@ == seq![Span { text, role }],
    {
        let r = Line { head: Span { text, role }, tail: Vec::new() };
        assert(r@ =~= seq![Span { text, role }]);
        r
    }

    /// Appends a run in another role.
    pub fn then(self, role: Role, text: String) -> (r: Self)
        ensures
            r@ == self@.push(Span { text, role }),
    {
        let mut r = self;
        r.tail.push(Span { text, role });
        assert(r@ =~= self@.push(Span { text, role }));
        r
    }

    /// The spans left to right, head first.
    pub fn spans(&self) -> (r: Vec<&Span>)
        ensures
            r@.len() == self@.len(),
            forall|i: int| 0 <= i < r@.len() ==> *(#[trigger] r@[i]) == self@[i],
    {
        let mut r: Vec<&Span> = Vec::new();
        r.push(&self.head);
        let mut i: usize = 0;
        while i < self.tail.len()
            invariant
                i <= self.tail@.len(),
                r@.len() == i + 1,
                forall|j: int| 0 <= j < r@.len() ==> *(#[trigger] r@[j]) == self@[j],
            decreases self.tail@.len() - i,
        {
            r.push(&self.tail[i]);
            i = i + 1;
        }
        r
    }

    /// The first span's text.
    pub fn text(&self) -> (s: &str)
        ensures
            s@ == self@[0].text@,
            self@.len() > 0,
    {
        self.head.text.as_str()
    }
}

/// A bounded FIFO: pushing past the cap drops the oldest element. Indexing runs
/// from the oldest to the newest.
pub struct Ring<T> {
    buf: VecDeque<T>,
    cap: usize,
}

impl<T> Ring<T> {
    /// The elements, oldest first.
    pub closed spec fn view(self) -> Seq<T> {
        self.buf@
    }

    /// The largest number of elements held.
    pub closed spec fn cap(self) -> nat {
        self.cap as nat
    }

    /// Whether the elements are within the cap.
    pub open spec fn wf(self) -> bool {
        &&& self.cap() >= 1
        &&& self@.len() <= self.cap()
    }

    /// The elements after `v` arrives.
    pub open spec fn pushed(s: Seq<T>, cap: nat, v: T) -> Seq<T> {
        if s.len() == cap {
            s.skip(1).push(v)
        } else {
            s.push(v)
        }
    }

    pub fn new(cap: usize) -> (r: Self)
        ensures
            r.wf(),
            r@ == Seq::<T>::empty(),
            r.cap() == (if cap < 1 {
                1
            } else {
                cap as nat
            }),
    {
        let r = Ring {
            buf: VecDeque::new(),
            cap: if cap < 1 {
                1
            } else {
                cap
            },
        };
        assert(r@ =~= Seq::<T>::empty());
        r
    }

    pub fn push(&mut self, v: T)
        requires
            old(self).wf(),
        ensures
            final(self).wf(),
            final(self).cap() == old(self).cap(),
            final(self)@ == Self::pushed(old(self)@, old(self).cap(), v),
    {
        if self.buf.len() == self.cap {
            let _dropped = self.buf.pop_front();
            assert(self.buf@ =~= old(self)@.skip(1));
        }
        self.buf.push_back(v);
    }

    pub fn len(&self) -> (n: usize)
        ensures
            n == self@.len(),
    {
        self.buf.len()
    }

    pub fn is_empty(&self) -> (b: bool)
        ensures
            b == (self@.len() == 0),
    {
        self.buf.len() == 0
    }

    pub fn get(&self, i: usize) -> (r: Option<&T>)
        ensures
            match r {
                Some(v) => i < self@.len() && *v == self@[i as int],
                None => i >= self@.len(),
            },
    {
        if i < self.buf.len() {
            Some(&self.buf[i])
        } else {
            None
        }
    }

    pub fn last(&self) -> (r: Option<&T>)
        ensures
            match r {
                Some(v) => self@.len() > 0 && *v == self@.last(),
                None => self@.len() == 0,
            },
    {
        let n: usize = self.buf.len();
        if n > 0 {
            Some(&self.buf[n - 1])
        } else {
            None
        }
    }

    /// The elements, newest first.
    pub fn iter_rev(&self) -> (r: Vec<&T>)
        ensures
            r@.len() == self@.len(),
            forall|i: int|
                0 <= i < r@.len() ==> *(#[trigger] r@[i]) == self@[self@.len() - 1 - i],
    {
        let mut r: Vec<&T> = Vec::new();
        let n: usize = self.buf.len();
        let mut i: usize = 0;
        while i < n
            invariant
                i <= n,
                n == self.buf@.len(),
                self@ == self.buf@,
                r@.len() == i,
                forall|j: int| 0 <= j < i ==> *(#[trigger] r@[j]) == self@[n - 1 - j],
            decreases n - i,
        {
            r.push(&self.buf[n - 1 - i]);
            i = i + 1;
        }
        r
    }
}

/// The UTF-8 length of a character.
pub open spec fn utf8_len(c: char) -> int {
    if (c as u32) < 0x80 {
        1
    } else if (c as u32) < 0x800 {
        2
    } else if (c as u32) < 0x10000 {
        3
    } else {
        4
    }
}

fn utf8_len_of(c: char) -> (n: usize)
    ensures
        n == utf8_len(c),
        1 <= n <= 4,
{
    let u: u32 = c as u32;
    if u < 0x80 {
        1
    } else if u < 0x800 {
        2
    } else if u < 0x10000 {
        3
    } else {
        4
    }
}

/// The UTF-8 length of a text.
pub open spec fn byte_len(s: Seq<char>) -> int
    decreases s.len(),
{
    if s.len() == 0 {
        0
    } else {
        byte_len(s.drop_last()) + utf8_len(s.last())
    }
}

/// Whether `c` is a control character.
pub open spec fn is_control(c: char) -> bool {
    (c as u32) < 0x20 || 0x7F <= (c as u32) < 0xA0
}

proof fn lemma_byte_len_split(s: Seq<char>, n: int)
    requires
        0 <= n <= s.len(),
    ensures
        byte_len(s) == byte_len(s.take(n)) + byte_len(s.skip(n)),
        byte_len(s.take(n)) >= n,
        byte_len(s.skip(n)) >= s.len() - n,
    decreases s.len(),
{
    if n == s.len() {
        assert(s.take(n) =~= s);
        assert(s.skip(n) =~= Seq::empty());
        if n > 0 {
            lemma_byte_len_split(s.drop_last(), n - 1);
            assert(s.drop_last().take(n - 1) =~= s.drop_last());
        }
    } else {
        lemma_byte_len_split(s.drop_last(), n);
        assert(s.drop_last().take(n) =~= s.take(n));
        assert(s.skip(n).drop_last() =~= s.drop_last().skip(n));
    }
}

/// Whether the first `n` characters are the longest prefix of `s` within `max` bytes.
pub open spec fn is_fit(s: Seq<char>, n: int, max: int) -> bool {
    &&& 0 <= n <= s.len()
    &&& byte_len(s.take(n)) <= max
    &&& n < s.len() ==> byte_len(s.take(n + 1)) > max
}

/// The longest prefix of `s` within `max` bytes.
pub open spec fn fitted(s: Seq<char>, max: int) -> Seq<char> {
    s.take(choose|n: int| is_fit(s, n, max))
}

proof fn lemma_fit_unique(s: Seq<char>, n: int, max: int)
    requires
        is_fit(s, n, max),
    ensures
        fitted(s, max) == s.take(n),
{
    let m = choose|m: int| is_fit(s, m, max);
    if m < n {
        lemma_byte_len_split(s.take(n), m + 1);
        assert(s.take(n).take(m + 1) =~= s.take(m + 1));
    } else if n < m {
        lemma_byte_len_split(s.take(m), n + 1);
        assert(s.take(m).take(n + 1) =~= s.take(n + 1));
    }
}

/// An edited line: its characters, the caret as a character index, and the cap
/// on its length in bytes.
#[verifier::ext_equal]
pub struct EditView {
    pub chars: Seq<char>,
    pub caret: int,
    pub max: int,
}

/// Whether `start` is where the word before `caret` starts: the white space
/// before the caret and the word before that lie between them.
pub open spec fn is_word_start(s: Seq<char>, caret: int, start: int) -> bool {
    exists|end: int|
        {
            &&& 0 <= start <= end <= caret
            &&& forall|i: int| end <= i < caret ==> is_white(#[trigger] s[i])
            &&& end > 0 ==> !is_white(s[end - 1])
            &&& #[trigger] word_between(s, start, end)
        }
}

/// Whether `s[start..end]` holds no white space and extends back as far as it can.
pub open spec fn word_between(s: Seq<char>, start: int, end: int) -> bool {
    &&& forall|i: int| start <= i < end ==> !is_white(#[trigger] s[i])
    &&& start > 0 ==> is_white(s[start - 1])
}

impl EditView {
    /// Whether the caret is in the text and the text within its cap.
    pub open spec fn wf(self) -> bool {
        &&& 0 <= self.caret <= self.chars.len()
        &&& byte_len(self.chars) <= self.max
    }

    /// The caret's byte offset.
    pub open spec fn cursor(self) -> int {
        byte_len(self.chars.take(self.caret))
    }

    pub open spec fn replaced(self, s: Seq<char>) -> EditView {
        let t = fitted(s, self.max);
        EditView { chars: t, caret: t.len() as int, ..self }
    }

    pub open spec fn cleared(self) -> EditView {
        EditView { chars: Seq::empty(), caret: 0, ..self }
    }

    /// Whether `c` may be typed: printable, and within the cap.
    pub open spec fn accepts(self, c: char) -> bool {
        !is_control(c) && byte_len(self.chars) + utf8_len(c) <= self.max
    }

    pub open spec fn inserted(self, c: char) -> EditView {
        if self.accepts(c) {
            EditView {
                chars: self.chars.insert(self.caret, c),
                caret: self.caret + 1,
                ..self
            }
        } else {
            self
        }
    }

    /// The line without characters `from..to`, caret at `from`.
    pub open spec fn removed(self, from: int, to: int) -> EditView {
        EditView { chars: self.chars.take(from) + self.chars.skip(to), caret: from, ..self }
    }

    pub open spec fn backspaced(self) -> EditView {
        if self.caret > 0 {
            self.removed(self.caret - 1, self.caret)
        } else {
            self
        }
    }

    pub open spec fn deleted_forward(self) -> EditView {
        if self.caret < self.chars.len() {
            self.removed(self.caret, self.caret + 1)
        } else {
            self
        }
    }

    pub open spec fn deleted_word(self) -> EditView {
        self.removed(choose|start: int| is_word_start(self.chars, self.caret, start), self.caret)
    }

    pub open spec fn moved(self, caret: int) -> EditView {
        EditView { caret, ..self }
    }
}

proof fn lemma_byte_len_concat(a: Seq<char>, b: Seq<char>)
    ensures
        byte_len(a + b) == byte_len(a) + byte_len(b),
    decreases b.len(),
{
    if b.len() == 0 {
        assert(a + b =~= a);
    } else {
        assert((a + b).drop_last() =~= a + b.drop_last());
        lemma_byte_len_concat(a, b.drop_last());
    }
}

proof fn lemma_removed_wf(v: EditView, from: int, to: int)
    requires
        v.wf(),
        0 <= from <= to <= v.chars.len(),
    ensures
        v.removed(from, to).wf(),
{
    let s = v.chars;
    lemma_byte_len_split(s, from);
    lemma_byte_len_split(s, to);
    lemma_byte_len_split(s.take(to), from);
    assert(s.take(to).take(from) =~= s.take(from));
    lemma_byte_len_concat(s.take(from), s.skip(to));
    assert(byte_len(s.take(to).skip(from)) >= 0);
}

proof fn lemma_inserted_wf(v: EditView, c: char)
    requires
        v.wf(),
    ensures
        v.inserted(c).wf(),
{
    if v.accepts(c) {
        let s = v.chars;
        let one = seq![c];
        assert(s.insert(v.caret, c) =~= s.take(v.caret) + one + s.skip(v.caret));
        lemma_byte_len_split(s, v.caret);
        lemma_byte_len_concat(s.take(v.caret), one);
        lemma_byte_len_concat(s.take(v.caret) + one, s.skip(v.caret));
        assert(one.drop_last() =~= Seq::empty());
        assert(byte_len(one) == utf8_len(c)) by {
            reveal_with_fuel(byte_len, 2);
        }
    }
}

proof fn lemma_word_start_unique(s: Seq<char>, caret: int, a: int, b: int)
    requires
        0 <= caret <= s.len(),
        is_word_start(s, caret, a),
        is_word_start(s, caret, b),
    ensures
        a == b,
{
    let ea = choose|e: int|
        {
            &&& 0 <= a <= e <= caret
            &&& forall|i: int| e <= i < caret ==> is_white(#[trigger] s[i])
            &&& e > 0 ==> !is_white(s[e - 1])
            &&& #[trigger] word_between(s, a, e)
        };
    let eb = choose|e: int|
        {
            &&& 0 <= b <= e <= caret
            &&& forall|i: int| e <= i < caret ==> is_white(#[trigger] s[i])
            &&& e > 0 ==> !is_white(s[e - 1])
            &&& #[trigger] word_between(s, b, e)
        };
    if ea < eb {
        assert(is_white(s[eb - 1]));
    } else if eb < ea {
        assert(is_white(s[ea - 1]));
    }
    if a < b {
        assert(!is_white(s[b - 1]));
    } else if b < a {
        assert(!is_white(s[a - 1]));
    }
}

/// An editable line of text. The caret always sits between characters.
pub struct EditBuf {
    text: String,
    caret: usize,
    max: usize,
}

impl EditBuf {
    pub closed spec fn view(self) -> EditView {
        EditView { chars: self.text@, caret: self.caret as int, max: self.max as int }
    }

    pub fn new(max: usize) -> (r: Self)
        ensures
            r@ == (EditView { chars: Seq::empty(), caret: 0, max: max as int }),
            r@.wf(),
    {
        let r = EditBuf { text: String::new(), caret: 0, max };
        assert(r@.chars =~= Seq::empty());
        r
    }

    /// A buffer pre-filled with `init`, cut to the cap, caret at the end.
    pub fn with(init: &str, max: usize) -> (r: Self)
        ensures
            r@ == (EditView { chars: Seq::empty(), caret: 0, max: max as int }).replaced(init@),
            r@.wf(),
    {
        let mut b = Self::new(max);
        b.set(init);
        b
    }

    pub fn text(&self) -> (s: &str)
        ensures
            s@ == self@.chars,
    {
        self.text.as_str()
    }

    /// The caret as a byte offset into the text.
    pub fn cursor(&self) -> (n: usize)
        requires
            self@.wf(),
        ensures
            n == self@.cursor(),
    {
        let chars: Vec<char> = chars_of(self.text.as_str());
        let mut n: usize = 0;
        let mut i: usize = 0;
        assert(chars@.take(0) =~= Seq::empty());
        while i < self.caret
            invariant
                i <= self.caret <= chars@.len(),
                chars@ == self@.chars,
                self@.wf(),
                self@.max <= usize::MAX,
                n == byte_len(chars@.take(i as int)),
            decreases self.caret - i,
        {
            proof {
                assert(chars@.take(i + 1).drop_last() =~= chars@.take(i as int));
                lemma_byte_len_split(chars@, i + 1);
            }
            n = n + utf8_len_of(chars[i]);
            i = i + 1;
        }
        n
    }

    /// The caret as a character index.
    pub fn caret_chars(&self) -> (n: usize)
        ensures
            n == self@.caret,
    {
        self.caret
    }

    pub fn max(&self) -> (n: usize)
        ensures
            n == self@.max,
    {
        self.max
    }

    /// Replaces the whole value, cut to the cap, caret to the end.
    pub fn set(&mut self, s: &str)
        ensures
            final(self)@ == old(self)@.replaced(s@),
            final(self)@.wf(),
    {
        let chars: Vec<char> = chars_of(s);
        let mut n: usize = 0;
        let mut total: usize = 0;
        let mut full: bool = false;
        assert(chars@.take(0) =~= Seq::empty());
        while n < chars.len() && !full
            invariant
                n <= chars@.len(),
                total == byte_len(chars@.take(n as int)),
                total <= self.max,
                full ==> n < chars@.len() && byte_len(chars@.take(n + 1)) > self.max,
            decreases chars@.len() - n + (if full {
                0int
            } else {
                1int
            }),
        {
            let w: usize = utf8_len_of(chars[n]);
            assert(chars@.take(n + 1).drop_last() =~= chars@.take(n as int));
            if w > self.max - total {
                full = true;
            } else {
                total = total + w;
                n = n + 1;
            }
        }
        proof {
            lemma_fit_unique(chars@, n as int, self.max as int);
            assert(chars@.subrange(0, n as int) =~= chars@.take(n as int));
        }
        self.text = text_of(&chars, 0, n);
        self.caret = n;
    }

    pub fn clear(&mut self)
        ensures
            final(self)@ == old(self)@.cleared(),
            final(self)@.wf(),
    {
        self.text = String::new();
        self.caret = 0;
        assert(self@.chars =~= Seq::empty());
    }

    /// The text's length in bytes.
    fn bytes(&self) -> (n: usize)
        requires
            self@.wf(),
        ensures
            n == byte_len(self@.chars),
    {
        let chars: Vec<char> = chars_of(self.text.as_str());
        let mut n: usize = 0;
        let mut i: usize = 0;
        assert(chars@.take(0) =~= Seq::empty());
        while i < chars.len()
            invariant
                i <= chars@.len(),
                chars@ == self@.chars,
                self@.wf(),
                self@.max <= usize::MAX,
                n == byte_len(chars@.take(i as int)),
            decreases chars@.len() - i,
        {
            proof {
                assert(chars@.take(i + 1).drop_last() =~= chars@.take(i as int));
                lemma_byte_len_split(chars@, i + 1);
            }
            n = n + utf8_len_of(chars[i]);
            i = i + 1;
        }
        assert(chars@.take(i as int) =~= chars@);
        n
    }

    /// Inserts one printable character at the caret if it still fits the cap.
    pub fn insert_char(&mut self, c: char) -> (b: bool)
        requires
            old(self)@.wf(),
        ensures
            b == old(self)@.accepts(c),
            final(self)@ == old(self)@.inserted(c),
            final(self)@.wf(),
    {
        let u: u32 = c as u32;
        let w: usize = utf8_len_of(c);
        if u < 0x20 || (0x7F <= u && u < 0xA0) || w > self.max - self.bytes() {
            return false;
        }
        proof {
            lemma_inserted_wf(self@, c);
        }
        let mut chars: Vec<char> = chars_of(self.text.as_str());
        chars.insert(self.caret, c);
        proof {
            lemma_byte_len_split(chars@, chars@.len() as int);
            assert(chars@.take(chars@.len() as int) =~= chars@);
            assert(chars@.subrange(0, chars@.len() as int) =~= chars@);
        }
        let n: usize = chars.len();
        self.text = text_of(&chars, 0, n);
        self.caret = self.caret + 1;
        true
    }

    /// Removes characters `from..to` and leaves the caret at `from`.
    fn remove_range(&mut self, from: usize, to: usize)
        requires
            old(self)@.wf(),
            from <= to <= old(self)@.chars.len(),
        ensures
            final(self)@ == old(self)@.removed(from as int, to as int),
            final(self)@.wf(),
    {
        proof {
            lemma_removed_wf(self@, from as int, to as int);
        }
        let chars: Vec<char> = chars_of(self.text.as_str());
        let mut text: String = text_of(&chars, 0, from);
        let rest: String = text_of(&chars, to, chars.len());
        text.append(rest.as_str());
        self.text = text;
        self.caret = from;
        proof {
            let s = chars@;
            assert(s.subrange(0, from as int) =~= s.take(from as int));
            assert(s.subrange(to as int, s.len() as int) =~= s.skip(to as int));
        }
    }

    /// Deletes the character before the caret.
    pub fn backspace(&mut self) -> (b: bool)
        requires
            old(self)@.wf(),
        ensures
            b == (old(self)@.caret > 0),
            final(self)@ == old(self)@.backspaced(),
            final(self)@.wf(),
    {
        let c: usize = self.caret;
        if c > 0 {
            self.remove_range(c - 1, c);
            true
        } else {
            false
        }
    }

    /// Deletes the character after the caret.
    pub fn delete_forward(&mut self)
        requires
            old(self)@.wf(),
        ensures
            final(self)@ == old(self)@.deleted_forward(),
            final(self)@.wf(),
    {
        let n: usize = chars_of(self.text.as_str()).len();
        let c: usize = self.caret;
        if c < n {
            self.remove_range(c, c + 1);
        }
    }

    /// Deletes back to the start of the previous word.
    pub fn delete_word(&mut self)
        requires
            old(self)@.wf(),
        ensures
            final(self)@ == old(self)@.deleted_word(),
            final(self)@.wf(),
    {
        let chars: Vec<char> = chars_of(self.text.as_str());
        let caret: usize = self.caret;
        let mut end: usize = caret;
        while end > 0 && white(chars[end - 1])
            invariant
                end <= caret <= chars@.len(),
                forall|i: int| end <= i < caret ==> is_white(#[trigger] chars@[i]),
            decreases end,
        {
            end = end - 1;
        }
        let mut start: usize = end;
        while start > 0 && !white(chars[start - 1])
            invariant
                start <= end <= caret <= chars@.len(),
                forall|i: int| start <= i < end ==> !is_white(#[trigger] chars@[i]),
            decreases start,
        {
            start = start - 1;
        }
        proof {
            assert(word_between(chars@, start as int, end as int));
            assert(is_word_start(chars@, caret as int, start as int));
            let s = choose|s: int| is_word_start(chars@, caret as int, s);
            lemma_word_start_unique(chars@, caret as int, start as int, s);
        }
        self.remove_range(start, caret);
    }

    /// Moves the caret back by one character.
    pub fn left(&mut self)
        requires
            old(self)@.wf(),
        ensures
            final(self)@ == old(self)@.moved(
                if old(self)@.caret > 0 {
                    old(self)@.caret - 1
                } else {
                    0
                },
            ),
            final(self)@.wf(),
    {
        if self.caret > 0 {
            self.caret = self.caret - 1;
        }
    }

    /// Moves the caret forward by one character.
    pub fn right(&mut self)
        requires
            old(self)@.wf(),
        ensures
            final(self)@ == old(self)@.moved(
                if old(self)@.caret < old(self)@.chars.len() {
                    old(self)@.caret + 1
                } else {
                    old(self)@.caret
                },
            ),
            final(self)@.wf(),
    {
        let n: usize = chars_of(self.text.as_str()).len();
        if self.caret < n {
            self.caret = self.caret + 1;
        }
    }

    /// Moves the caret to the start.
    pub fn home(&mut self)
        requires
            old(self)@.wf(),
        ensures
            final(self)@ == old(self)@.moved(0),
            final(self)@.wf(),
    {
        self.caret = 0;
    }

    /// Moves the caret to the end.
    pub fn end(&mut self)
        requires
            old(self)@.wf(),
        ensures
            final(self)@ == old(self)@.moved(old(self)@.chars.len() as int),
            final(self)@.wf(),
    {
        self.caret = chars_of(self.text.as_str()).len();
    }
}

/// One editing action.
#[derive(Clone, Copy, PartialEq, Eq, Debug, Structural)]
pub enum EditKey {
    Left,
    Right,
    Home,
    End,
    Backspace,
    DelWord,
    Delete,
    ClearLine,
    HistoryUp,
    HistoryDown,
    Complete,
    Submit,
}

/// The outcome of asking a completer to complete the line.
pub enum Completion {
    /// A single match: replace the line with this text.
    Full(String),
    /// Several matches: fill the common prefix and offer the candidates.
    Ambiguous(String, Vec<String>),
    /// Nothing to complete.
    Nothing,
}

/// The texts of strings.
pub open spec fn texts(s: Seq<String>) -> Seq<Seq<char>> {
    Seq::new(s.len(), |i: int| s[i]@)
}

/// A line editor: the line, the submitted lines, the place in them while
/// browsing, the line set aside meanwhile, and the candidates on offer.
#[verifier::ext_equal]
pub struct InputView {
    pub line: EditView,
    pub history: Seq<Seq<char>>,
    pub cap: nat,
    pub scrub: Option<int>,
    pub draft: Seq<char>,
    pub notice: Option<Seq<Seq<char>>>,
}

impl InputView {
    pub open spec fn wf(self) -> bool {
        &&& self.line.wf()
        &&& self.cap >= 1
        &&& self.history.len() <= self.cap
        &&& self.scrub matches Some(i) ==> 0 <= i < self.history.len()
    }

    /// State after one character is typed.
    pub open spec fn typed_one(self, c: char) -> InputView {
        if self.line.accepts(c) {
            InputView { line: self.line.inserted(c), scrub: None, ..self }
        } else {
            self
        }
    }

    /// State after characters are typed in order.
    pub open spec fn typed(self, chars: Seq<char>) -> InputView
        decreases chars.len(),
    {
        if chars.len() == 0 {
            self
        } else {
            self.typed(chars.drop_last()).typed_one(chars.last())
        }
    }

    /// Live editing at a new line state.
    pub open spec fn live(self, line: EditView) -> InputView {
        InputView { line, scrub: None, ..self }
    }

    /// One step back in history. The live line is set aside first.
    pub open spec fn older(self) -> InputView {
        if self.history.len() == 0 {
            self
        } else {
            let next = match self.scrub {
                None => self.history.len() - 1,
                Some(i) => if i == 0 {
                    0
                } else {
                    i - 1
                },
            };
            InputView {
                line: self.line.replaced(self.history[next]),
                scrub: Some(next),
                draft: if self.scrub is None {
                    self.line.chars
                } else {
                    self.draft
                },
                ..self
            }
        }
    }

    /// One step forward in history. Past the newest entry the line that was set
    /// aside comes back.
    pub open spec fn newer(self) -> InputView {
        match self.scrub {
            None => self,
            Some(i) => if i + 1 < self.history.len() {
                InputView {
                    line: self.line.replaced(self.history[i + 1]),
                    scrub: Some(i + 1),
                    ..self
                }
            } else {
                InputView {
                    line: self.line.replaced(self.draft),
                    scrub: None,
                    draft: Seq::empty(),
                    ..self
                }
            },
        }
    }

    /// State after the line is handed over: cleared, and remembered unless it
    /// is blank or repeats the newest entry.
    pub open spec fn submitted(self) -> InputView {
        let line = trimmed(self.line.chars);
        let cleared = InputView {
            line: self.line.cleared(),
            scrub: None,
            draft: Seq::empty(),
            ..self
        };
        if line.len() == 0 || (self.history.len() > 0 && self.history.last() == line) {
            cleared
        } else {
            InputView { history: Ring::<Seq<char>>::pushed(self.history, self.cap, line), ..cleared }
        }
    }

    /// State after a completion.
    pub open spec fn completed(self, c: Completion) -> InputView {
        match c {
            Completion::Full(s) => self.live(self.line.replaced(s@)),
            Completion::Ambiguous(prefix, cands) => InputView {
                notice: Some(texts(cands@)),
                ..self.live(self.line.replaced(prefix@))
            },
            Completion::Nothing => self,
        }
    }

    /// State after an editing action other than completion.
    pub open spec fn acted(self, key: EditKey) -> InputView {
        match key {
            EditKey::Left => InputView {
                line: self.line.moved(
                    if self.line.caret > 0 {
                        self.line.caret - 1
                    } else {
                        0
                    },
                ),
                ..self
            },
            EditKey::Right => InputView {
                line: self.line.moved(
                    if self.line.caret < self.line.chars.len() {
                        self.line.caret + 1
                    } else {
                        self.line.caret
                    },
                ),
                ..self
            },
            EditKey::Home => InputView { line: self.line.moved(0), ..self },
            EditKey::End => InputView {
                line: self.line.moved(self.line.chars.len() as int),
                ..self
            },
            EditKey::Backspace => self.live(self.line.backspaced()),
            EditKey::DelWord => self.live(self.line.deleted_word()),
            EditKey::Delete => self.live(self.line.deleted_forward()),
            EditKey::ClearLine => self.live(self.line.cleared()),
            EditKey::HistoryUp => self.older(),
            EditKey::HistoryDown => self.newer(),
            EditKey::Complete => self,
            EditKey::Submit => self.submitted(),
        }
    }
}

/// An editable line with history recall and optional completion.
pub struct TextInput<C: Fn(&str) -> Completion> {
    buf: EditBuf,
    history: Ring<String>,
    /// The history index while browsing; `None` while editing live.
    scrub: Option<usize>,
    draft: String,
    completer: Option<C>,
    /// Candidates of the last ambiguous completion.
    notice: Option<Vec<String>>,
}

impl<C: Fn(&str) -> Completion> TextInput<C> {
    pub closed spec fn view(self) -> InputView {
        InputView {
            line: self.buf@,
            history: texts(self.history@),
            cap: self.history.cap(),
            scrub: match self.scrub {
                Some(i) => Some(i as int),
                None => None,
            },
            draft: self.draft@,
            notice: match self.notice {
                Some(v) => Some(texts(v@)),
                None => None,
            },
        }
    }

    /// The completion source.
    pub closed spec fn completer(self) -> Option<C> {
        self.completer
    }

    /// Whether the completion source can be asked about any text.
    pub open spec fn completer_ok(self) -> bool {
        self.completer() matches Some(f) ==> forall|s: &str| call_requires(f, (s,))
    }

    pub fn new(max: usize) -> (r: Self)
        ensures
            r@ == (InputView {
                line: EditView { chars: Seq::empty(), caret: 0, max: max as int },
                history: Seq::empty(),
                cap: 64,
                scrub: None,
                draft: Seq::empty(),
                notice: None,
            }),
            r@.wf(),
            r.completer() is None,
    {
        let r = TextInput {
            buf: EditBuf::new(max),
            history: Ring::new(64),
            scrub: None,
            draft: String::new(),
            completer: None,
            notice: None,
        };
        proof {
            assert(r@.history =~= Seq::empty());
            assert(r@.draft =~= Seq::empty());
        }
        r
    }

    /// Attaches a completion source.
    pub fn with_completer(self, f: C) -> (r: Self)
        ensures
            r@ == self@,
            r.completer() == Some(f),
    {
        TextInput { completer: Some(f), ..self }
    }

    pub fn text(&self) -> (s: &str)
        ensures
            s@ == self@.line.chars,
    {
        self.buf.text()
    }

    /// Byte offset of the caret within the text.
    pub fn cursor(&self) -> (n: usize)
        requires
            self@.wf(),
        ensures
            n == self@.line.cursor(),
    {
        self.buf.cursor()
    }

    /// Clears the line but keeps history.
    pub fn clear(&mut self)
        requires
            old(self)@.wf(),
        ensures
            final(self)@ == (InputView {
                line: old(self)@.line.cleared(),
                scrub: None,
                draft: Seq::empty(),
                ..old(self)@
            }),
            final(self)@.wf(),
            final(self).completer() == old(self).completer(),
    {
        self.buf.clear();
        self.scrub = None;
        self.draft = String::new();
        assert(self.draft@ =~= Seq::empty());
    }

    /// Replaces the line and parks the caret at the end.
    pub fn set(&mut self, s: &str)
        requires
            old(self)@.wf(),
        ensures
            final(self)@ == old(self)@.live(old(self)@.line.replaced(s@)),
            final(self)@.wf(),
            final(self).completer() == old(self).completer(),
    {
        self.buf.set(s);
        self.scrub = None;
    }

    /// The candidates of the most recent ambiguous completion, given once.
    pub fn take_notice(&mut self) -> (r: Option<Vec<String>>)
        requires
            old(self)@.wf(),
        ensures
            old(self)@.notice == (match r {
                Some(v) => Some(texts(v@)),
                None => None,
            }),
            final(self)@ == (InputView { notice: None, ..old(self)@ }),
            final(self).completer() == old(self).completer(),
    {
        let mut out: Option<Vec<String>> = None;
        core::mem::swap(&mut out, &mut self.notice);
        out
    }

    fn history_prev(&mut self)
        requires
            old(self)@.wf(),
        ensures
            final(self)@ == old(self)@.older(),
            final(self)@.wf(),
            final(self).completer() == old(self).completer(),
    {
        if self.history.is_empty() {
            return ;
        }
        let n: usize = self.history.len();
        let next: usize = match self.scrub {
            None => {
                let chars: Vec<char> = chars_of(self.buf.text());
                self.draft = text_of(&chars, 0, chars.len());
                assert(self.draft@ =~= old(self)@.line.chars);
                n - 1
            },
            Some(i) => {
                if i == 0 {
                    0
                } else {
                    i - 1
                }
            },
        };
        self.scrub = Some(next);
        match self.history.get(next) {
            Some(entry) => {
                self.buf.set(entry.as_str());
            },
            None => {},
        }
    }

    fn history_next(&mut self)
        requires
            old(self)@.wf(),
        ensures
            final(self)@ == old(self)@.newer(),
            final(self)@.wf(),
            final(self).completer() == old(self).completer(),
    {
        match self.scrub {
            None => {},
            Some(i) => {
                if i + 1 < self.history.len() {
                    self.scrub = Some(i + 1);
                    match self.history.get(i + 1) {
                        Some(entry) => {
                            self.buf.set(entry.as_str());
                        },
                        None => {},
                    }
                } else {
                    self.scrub = None;
                    let mut draft: String = String::new();
                    core::mem::swap(&mut draft, &mut self.draft);
                    self.buf.set(draft.as_str());
                    assert(self.draft@ =~= Seq::empty());
                }
            },
        }
    }

    /// Remembers a line, unless it repeats the newest one.
    fn push_history(&mut self, line: String)
        requires
            old(self)@.wf(),
            old(self)@.scrub is None,
        ensures
            final(self)@ == (if old(self)@.history.len() > 0 && old(self)@.history.last()
                == line@ {
                old(self)@
            } else {
                InputView {
                    history: Ring::<Seq<char>>::pushed(
                        old(self)@.history,
                        old(self)@.cap,
                        line@,
                    ),
                    ..old(self)@
                }
            }),
            final(self)@.wf(),
            final(self).completer() == old(self).completer(),
    {
        let repeats: bool = match self.history.last() {
            Some(newest) => same_text(newest.as_str(), line.as_str()),
            None => false,
        };
        if !repeats {
            let ghost before = self.history@;
            self.history.push(line);
            assert(texts(self.history@) =~= Ring::<Seq<char>>::pushed(
                texts(before),
                self.history.cap(),
                line@,
            ));
        }
    }

    fn try_complete(&mut self)
        requires
            old(self)@.wf(),
            old(self).completer_ok(),
        ensures
            match old(self).completer() {
                None => final(self)@ == old(self)@,
                Some(f) => exists|s: &str, c: Completion|
                    s@ == old(self)@.line.chars && #[trigger] call_ensures(f, (s,), c) && final(self)@ == old(self)@.completed(c),
            },
            final(self)@.wf(),
            final(self).completer() == old(self).completer(),
    {
        let reply: Completion = match &self.completer {
            None => {
                return ;
            },
            Some(f) => f(self.buf.text()),
        };
        match reply {
            Completion::Full(s) => {
                self.set(s.as_str());
            },
            Completion::Ambiguous(prefix, cands) => {
                self.set(prefix.as_str());
                self.notice = Some(cands);
            },
            Completion::Nothing => {},
        }
    }

    /// Drives one frame of editing with typed characters and at most one action.
    /// Returns the submitted line, trimmed, where one was submitted.
    pub fn handle(&mut self, chars: &[char], edit: Option<EditKey>) -> (r: Option<String>)
        requires
            old(self)@.wf(),
            old(self).completer_ok(),
        ensures
            ({
                let t = old(self)@.typed(chars@);
                match edit {
                    None => r is None && final(self)@ == t,
                    Some(EditKey::Complete) => r is None && match old(self).completer() {
                        None => final(self)@ == t,
                        Some(f) => exists|s: &str, c: Completion|
                            s@ == t.line.chars && #[trigger] call_ensures(f, (s,), c) && final(self)@ == t.completed(c),
                    },
                    Some(EditKey::Submit) => final(self)@ == t.submitted() && match r {
                        Some(line) => line@ == trimmed(t.line.chars) && line@.len() > 0,
                        None => trimmed(t.line.chars).len() == 0,
                    },
                    Some(key) => r is None && final(self)@ == t.acted(key),
                }
            }),
            final(self)@.wf(),
            final(self).completer() == old(self).completer(),
    {
        let mut i: usize = 0;
        assert(chars@.take(0) =~= Seq::empty());
        while i < chars.len()
            invariant
                i <= chars@.len(),
                self@.wf(),
                self@ == old(self)@.typed(chars@.take(i as int)),
                self.completer() == old(self).completer(),
            decreases chars@.len() - i,
        {
            proof {
                assert(chars@.take(i + 1).drop_last() =~= chars@.take(i as int));
            }
            if self.buf.insert_char(chars[i]) {
                self.scrub = None;
            }
            i = i + 1;
        }
        assert(chars@.take(i as int) =~= chars@);
        match edit {
            None => {},
            Some(key) => match key {
                EditKey::Left => self.buf.left(),
                EditKey::Right => self.buf.right(),
                EditKey::Home => self.buf.home(),
                EditKey::End => self.buf.end(),
                EditKey::Backspace => {
                    let _removed: bool = self.buf.backspace();
                    self.scrub = None;
                },
                EditKey::DelWord => {
                    self.buf.delete_word();
                    self.scrub = None;
                },
                EditKey::Delete => {
                    self.buf.delete_forward();
                    self.scrub = None;
                },
                EditKey::ClearLine => {
                    self.buf.clear();
                    self.scrub = None;
                },
                EditKey::HistoryUp => self.history_prev(),
                EditKey::HistoryDown => self.history_next(),
                EditKey::Complete => self.try_complete(),
                EditKey::Submit => {
                    let all: Vec<char> = chars_of(self.buf.text());
                    let (from, to) = trim_bounds(&all, 0, all.len());
                    proof {
                        lemma_trimmed_unique(all@, 0, all@.len() as int, from as int, to as int);
                        assert(all@.subrange(0, all@.len() as int) =~= all@);
                    }
                    let line: String = text_of(&all, from, to);
                    self.clear();
                    if from < to {
                        let kept: String = text_of(&all, from, to);
                        self.push_history(kept);
                        return Some(line);
                    }
                },
            },
        }
        None
    }
}

/// Stepping back into history and forward again brings the typed line back.
pub proof fn lemma_history_returns_draft(v: InputView)
    requires
        v.wf(),
        v.scrub is None,
        v.history.len() > 0,
    ensures
        v.older().newer().line.chars == v.line.chars,
        v.older().newer().scrub is None,
        v.older().newer().history == v.history,
{
    let s = v.line.chars;
    assert(s.take(s.len() as int) =~= s);
    lemma_fit_unique(s, s.len() as int, v.line.max);
}

/// A character typed and then deleted with backspace leaves the line as it was.
pub proof fn lemma_backspace_undoes_insert(v: EditView, c: char)
    requires
        v.wf(),
        v.accepts(c),
    ensures
        v.inserted(c).backspaced() == v,
{
    let w = v.inserted(c);
    assert(w.chars.take(v.caret) + w.chars.skip(v.caret + 1) =~= v.chars);
}

/// Whether the first `n` characters of all items agree.
pub open spec fn agree_to(items: Seq<&str>, n: int) -> bool {
    forall|i: int|
        0 <= i < items.len() ==> n <= (#[trigger] items[i])@.len() && items[i]@.take(n)
            == items[0]@.take(n)
}

/// The number of leading characters that `a` and `b` share.
fn shared_prefix(a: &Vec<char>, b: &Vec<char>) -> (n: usize)
    ensures
        n <= a@.len(),
        n <= b@.len(),
        a@.take(n as int) == b@.take(n as int),
        n < a@.len() && n < b@.len() ==> a@[n as int] != b@[n as int],
{
    let mut n: usize = 0;
    while n < a.len() && n < b.len() && a[n] == b[n]
        invariant
            n <= a@.len(),
            n <= b@.len(),
            forall|j: int| 0 <= j < n ==> #[trigger] a@[j] == b@[j],
        decreases a@.len() - n,
    {
        n = n + 1;
    }
    assert(a@.take(n as int) =~= b@.take(n as int));
    n
}

/// The longest common prefix of candidate texts; empty for no candidates.
pub fn common_prefix(items: &[&str]) -> (r: String)
    ensures
        items@.len() == 0 ==> r@.len() == 0,
        items@.len() > 0 ==> r@.len() <= items@[0]@.len() && r@ == items@[0]@.take(
            r@.len() as int,
        ),
        items@.len() > 0 ==> agree_to(items@, r@.len() as int),
        items@.len() > 0 ==> !agree_to(items@, r@.len() as int + 1),
{
    if items.len() == 0 {
        return String::new();
    }
    let first: Vec<char> = chars_of(items[0]);
    let mut end: usize = first.len();
    let mut i: usize = 1;
    proof {
        let t = items@.take(1);
        assert(t[0] == items@[0]);
    }
    while i < items.len()
        invariant
            1 <= i <= items@.len(),
            first@ == items@[0]@,
            end <= first@.len(),
            forall|j: int|
                0 <= j < i ==> end <= (#[trigger] items@[j])@.len() && items@[j]@.take(end as int)
                    == items@[0]@.take(end as int),
            !agree_to(items@.take(i as int), end + 1),
        decreases items@.len() - i,
    {
        let other: Vec<char> = chars_of(items[i]);
        let n: usize = shared_prefix(&first, &other);
        let ghost was = end;
        if n < end {
            end = n;
        }
        proof {
            let f = items@[0]@;
            assert forall|j: int| 0 <= j < i + 1 implies end <= (#[trigger] items@[j])@.len()
                && items@[j]@.take(end as int) == f.take(end as int) by {
                if j < i {
                    assert(items@[j]@.take(was as int) == f.take(was as int));
                    assert(items@[j]@.take(end as int) =~= items@[j]@.take(was as int).take(
                        end as int,
                    ));
                    assert(f.take(end as int) =~= f.take(was as int).take(end as int));
                } else {
                    assert(other@.take(end as int) =~= other@.take(n as int).take(end as int));
                    assert(f.take(end as int) =~= f.take(n as int).take(end as int));
                }
            }
            if agree_to(items@.take(i + 1), end + 1) {
                let t = items@.take(i + 1);
                if n < was {
                    assert(t[i as int]@.take(end + 1) == t[0]@.take(end + 1));
                    assert(t[0]@.take(end + 1)[end as int] == f[end as int]);
                    assert(t[i as int]@.take(end + 1)[end as int] == other@[end as int]);
                } else {
                    assert forall|j: int| 0 <= j < items@.take(i as int).len() implies end + 1 <= (
                    #[trigger] items@.take(i as int)[j])@.len() && items@.take(i as int)[j]@.take(
                        end + 1,
                    ) == items@.take(i as int)[0]@.take(end + 1) by {
                        assert(t[j] == items@[j]);
                    }
                    assert(agree_to(items@.take(i as int), end + 1));
                }
            }
        }
        i = i + 1;
    }
    proof {
        assert(items@.take(i as int) =~= items@);
    }
    let r = text_of(&first, 0, end);
    assert(r@ =~= items@[0]@.take(end as int));
    r
}

/// A colour with opacity.
#[derive(Clone, Copy, PartialEq, Eq, Debug, Structural)]
pub struct Color {
    pub r: u8,
    pub g: u8,
    pub b: u8,
    pub a: u8,
}

/// One panel row: its text, its emphasis, and an optional colour chip.
#[derive(Clone)]
pub struct Row {
    pub text: String,
    pub role: Role,
    pub swatch: Option<Color>,
}

impl Row {
    pub fn new(role: Role, text: String) -> (r: Self)
        ensures
            r == (Row { text, role, swatch: None }),
    {
        Row { text, role, swatch: None }
    }

    /// Adds a colour chip before the text.
    pub fn with_swatch(self, color: Color) -> (r: Self)
        ensures
            r == (Row { swatch: Some(color), ..self }),
    {
        Row { swatch: Some(color), ..self }
    }
}

/// Padding inside every HUD panel.
pub const PANEL_PAD: i32 = 8;

/// Font size of every HUD panel.
pub const PANEL_FONT: i32 = 18;

/// Line height of every HUD panel.
pub const PANEL_LINE: i32 = 22;

/// A translucent HUD box: header lines, a small gap, then body rows.
pub struct Panel {
    pub at: Px,
    pub width: i32,
    pub header: Vec<Row>,
    pub rows: Vec<Row>,
}

/// One thing to draw for a panel.
#[derive(Clone)]
pub enum PanelDraw {
    /// The background.
    Background { x: i32, y: i32, w: i32, h: i32 },
    /// A square colour chip.
    Chip { x: i32, y: i32, size: i32, color: Color },
    /// A line of text.
    Text { x: i32, y: i32, text: String, role: Role },
}

/// What a panel shows, over mathematical values.
#[verifier::ext_equal]
pub enum PanelDrawView {
    Background { x: int, y: int, w: int, h: int },
    Chip { x: int, y: int, size: int, color: Color },
    Text { x: int, y: int, text: Seq<char>, role: Role },
}

impl PanelDraw {
    pub open spec fn view(self) -> PanelDrawView {
        match self {
            PanelDraw::Background { x, y, w, h } => PanelDrawView::Background {
                x: x as int,
                y: y as int,
                w: w as int,
                h: h as int,
            },
            PanelDraw::Chip { x, y, size, color } => PanelDrawView::Chip {
                x: x as int,
                y: y as int,
                size: size as int,
                color,
            },
            PanelDraw::Text { x, y, text, role } => PanelDrawView::Text {
                x: x as int,
                y: y as int,
                text: text@,
                role,
            },
        }
    }
}

/// What a list of draws shows.
pub open spec fn draw_views(s: Seq<PanelDraw>) -> Seq<PanelDrawView> {
    Seq::new(s.len(), |i: int| s[i]@)
}

/// The number of characters that fit `width` pixels; at least one.
pub open spec fn row_chars(width: int) -> int {
    if width < 18 {
        1
    } else {
        width / 18
    }
}

/// The draws of one row at height `y`.
pub open spec fn row_draws(x: int, y: int, width: int, r: Row) -> Seq<PanelDrawView> {
    match r.swatch {
        Some(color) => seq![
            PanelDrawView::Chip { x: x + 8, y: y + 2, size: 14, color },
            PanelDrawView::Text {
                x: x + 26,
                y,
                text: ellipsized(r.text@, row_chars(width - 34)),
                role: r.role,
            },
        ],
        None => seq![
            PanelDrawView::Text {
                x: x + 8,
                y,
                text: ellipsized(r.text@, row_chars(width - 16)),
                role: r.role,
            },
        ],
    }
}

/// The draws of rows stacked from height `y` down.
pub open spec fn rows_draws(x: int, y: int, width: int, rows: Seq<Row>) -> Seq<PanelDrawView>
    decreases rows.len(),
{
    if rows.len() == 0 {
        Seq::empty()
    } else {
        rows_draws(x, y, width, rows.drop_last()) + row_draws(
            x,
            y + 22 * (rows.len() - 1),
            width,
            rows.last(),
        )
    }
}

impl Panel {
    /// The pixel height of the box: padding, header, gap, and at least one body line.
    pub open spec fn height_spec(self) -> int {
        16 + self.header@.len() * 22 + 2 + (if self.rows@.len() < 1 {
            1
        } else {
            self.rows@.len() as int
        }) * 22
    }

    /// Whether the box lies within the range of pixel coordinates.
    pub open spec fn on_screen(self) -> bool {
        &&& self.height_spec() <= i32::MAX
        &&& self.at.1 + self.height_spec() <= i32::MAX
        &&& self.at.0 + 26 <= i32::MAX
        &&& self.width >= i32::MIN + 34
    }

    /// Everything the panel draws, in order.
    pub open spec fn draws(self) -> Seq<PanelDrawView> {
        let x = self.at.0 as int;
        let y = self.at.1 as int;
        let w = self.width as int;
        seq![PanelDrawView::Background { x, y, w, h: self.height_spec() }] + rows_draws(
            x,
            y + 8,
            w,
            self.header@,
        ) + rows_draws(x, y + 10 + 22 * self.header@.len(), w, self.rows@)
    }

    /// The pixel height of the drawn box.
    pub fn height(&self) -> (h: i32)
        requires
            self.height_spec() <= i32::MAX,
        ensures
            h == self.height_spec(),
    {
        let body: i32 = if self.rows.len() < 1 {
            1
        } else {
            self.rows.len() as i32
        };
        PANEL_PAD * 2 + self.header.len() as i32 * PANEL_LINE + 2 + body * PANEL_LINE
    }

    /// Lays the panel out: the background, then each row with its chip, every
    /// text cut to the panel's width.
    pub fn draw(&self) -> (out: Vec<PanelDraw>)
        requires
            self.on_screen(),
        ensures
            draw_views(out@) == self.draws(),
    {
        let (x, y) = self.at;
        let mut out: Vec<PanelDraw> = Vec::new();
        let h: i32 = self.height();
        out.push(PanelDraw::Background { x, y, w: self.width, h });
        assert(draw_views(out@) =~= seq![
            PanelDrawView::Background {
                x: x as int,
                y: y as int,
                w: self.width as int,
                h: self.height_spec(),
            },
        ]);
        push_rows(&mut out, x, y + PANEL_PAD, self.width, &self.header);
        push_rows(
            &mut out,
            x,
            y + PANEL_PAD + 2 + self.header.len() as i32 * PANEL_LINE,
            self.width,
            &self.rows,
        );
        out
    }
}

fn push_rows(out: &mut Vec<PanelDraw>, x: i32, y: i32, width: i32, rows: &Vec<Row>)
    requires
        x + 26 <= i32::MAX,
        y + rows@.len() * 22 <= i32::MAX,
        width >= i32::MIN + 34,
    ensures
        draw_views(final(out)@) == draw_views(old(out)@) + rows_draws(
            x as int,
            y as int,
            width as int,
            rows@,
        ),
{
    let ghost before = draw_views(out@);
    let mut i: usize = 0;
    assert(rows@.take(0) =~= Seq::empty());
    assert(before + rows_draws(x as int, y as int, width as int, rows@.take(0)) =~= before);
    while i < rows.len()
        invariant
            i <= rows@.len(),
            x + 26 <= i32::MAX,
            y + rows@.len() * 22 <= i32::MAX,
            width >= i32::MIN + 34,
            draw_views(out@) == before + rows_draws(
                x as int,
                y as int,
                width as int,
                rows@.take(i as int),
            ),
        decreases rows@.len() - i,
    {
        let r: &Row = &rows[i];
        let cy: i32 = (y as i64 + 22 * (i as i64)) as i32;
        let ghost mid = draw_views(out@);
        let ghost add = row_draws(x as int, cy as int, width as int, *r);
        match r.swatch {
            Some(color) => {
                out.push(PanelDraw::Chip { x: x + PANEL_PAD, y: cy + 2, size: PANEL_FONT - 4, color });
                let text: String = ellipsize(r.text.as_str(), fit_chars(width - 34));
                out.push(PanelDraw::Text { x: x + PANEL_PAD + PANEL_FONT, y: cy, text, role: r.role });
            },
            None => {
                let text: String = ellipsize(r.text.as_str(), fit_chars(width - 16));
                out.push(PanelDraw::Text { x: x + PANEL_PAD, y: cy, text, role: r.role });
            },
        }
        proof {
            assert(draw_views(out@) =~= mid + add);
            assert(rows@.take(i + 1).drop_last() =~= rows@.take(i as int));
            let prev = rows_draws(x as int, y as int, width as int, rows@.take(i as int));
            assert(mid + add =~= before + (prev + add));
        }
        i = i + 1;
    }
    assert(rows@.take(i as int) =~= rows@);
}

fn fit_chars(width: i32) -> (n: usize)
    ensures
        n == row_chars(width as int),
{
    if width < PANEL_FONT {
        1
    } else {
        (width / PANEL_FONT) as usize
    }
}

/// One thing a mod contributes to the HUD.
pub enum HudElement {
    /// A screen-anchored line of text.
    Label { at: Anchor, off: Px, base_fs: i32, role: Role, text: String },
    /// A content box at an absolute position.
    Panel(Panel),
}

/// Each row's text followed by a line break.
pub open spec fn rows_text(rows: Seq<Row>) -> Seq<char>
    decreases rows.len(),
{
    if rows.len() == 0 {
        Seq::empty()
    } else {
        rows_text(rows.drop_last()) + rows.last().text@.push('\n')
    }
}

/// The text of a HUD element, one line per label or row.
pub open spec fn element_text(e: HudElement) -> Seq<char> {
    match e {
        HudElement::Label { at, off, base_fs, role, text } => text@.push('\n'),
        HudElement::Panel(p) => rows_text(p.header@) + rows_text(p.rows@),
    }
}

/// The text of HUD elements in order.
pub open spec fn elements_text(es: Seq<HudElement>) -> Seq<char>
    decreases es.len(),
{
    if es.len() == 0 {
        Seq::empty()
    } else {
        elements_text(es.drop_last()) + element_text(es.last())
    }
}

fn push_rows_text(out: &mut String, rows: &Vec<Row>)
    ensures
        final(out)@ == old(out)@ + rows_text(rows@),
{
    let ghost before = out@;
    let mut i: usize = 0;
    assert(rows@.take(0) =~= Seq::empty());
    assert(before + rows_text(rows@.take(0)) =~= before);
    while i < rows.len()
        invariant
            i <= rows@.len(),
            out@ == before + rows_text(rows@.take(i as int)),
        decreases rows@.len() - i,
    {
        out.append(rows[i].text.as_str());
        out.push('\n');
        proof {
            assert(rows@.take(i + 1).drop_last() =~= rows@.take(i as int));
            assert(out@ =~= before + rows_text(rows@.take(i + 1)));
        }
        i = i + 1;
    }
    assert(rows@.take(i as int) =~= rows@);
}

/// Flattens HUD labels and panel rows to text.
pub fn hud_text(elements: &[HudElement]) -> (out: String)
    ensures
        out@ == elements_text(elements@),
{
    let mut out: String = String::new();
    let mut i: usize = 0;
    assert(elements@.take(0) =~= Seq::empty());
    assert(out@ =~= elements_text(elements@.take(0)));
    while i < elements.len()
        invariant
            i <= elements@.len(),
            out@ == elements_text(elements@.take(i as int)),
        decreases elements@.len() - i,
    {
        let ghost before = out@;
        match &elements[i] {
            HudElement::Label { at: _, off: _, base_fs: _, role: _, text } => {
                out.append(text.as_str());
                out.push('\n');
            },
            HudElement::Panel(panel) => {
                push_rows_text(&mut out, &panel.header);
                push_rows_text(&mut out, &panel.rows);
            },
        }
        proof {
            assert(elements@.take(i + 1).drop_last() =~= elements@.take(i as int));
            assert(out@ =~= before + element_text(elements@[i as int]));
        }
        i = i + 1;
    }
    assert(elements@.take(i as int) =~= elements@);
    out
}

/// The aiming reticle.
#[derive(Clone, Copy, PartialEq, Eq, Debug, Structural)]
pub struct Crosshair {
    /// Length of each arm in pixels.
    pub arm: i32,
    /// Gap between the centre and the start of each arm.
    pub gap: i32,
    pub color: Color,
}

impl Default for Crosshair {
    fn default() -> (r: Self)
        ensures
            r == (Crosshair { arm: 8, gap: 0, color: Color { r: 255, g: 255, b: 255, a: 180 } }),
    {
        Crosshair { arm: 8, gap: 0, color: Color { r: 255, g: 255, b: 255, a: 180 } }
    }
}

/// A straight stroke between two points.
#[derive(Clone, Copy, PartialEq, Eq, Debug, Structural)]
pub struct Stroke {
    pub x0: i32,
    pub y0: i32,
    pub x1: i32,
    pub y1: i32,
}

/// Whether the ends of the reticle's strokes around `c` are pixel coordinates.
pub open spec fn reticle_fits(c: int, arm: int, gap: int) -> bool {
    &&& i32::MIN <= c - arm <= i32::MAX
    &&& i32::MIN <= c - arm - gap <= i32::MAX
    &&& i32::MIN <= c - gap <= i32::MAX
    &&& i32::MIN <= c + gap <= i32::MAX
    &&& i32::MIN <= c + arm <= i32::MAX
    &&& i32::MIN <= c + arm + gap <= i32::MAX
}

impl Crosshair {
    /// The four strokes of the reticle, centred on the screen: left, right, up, down.
    pub fn draw(&self, screen: Px) -> (r: [Stroke; 4])
        requires
            0 <= screen.0,
            0 <= screen.1,
            reticle_fits(screen.0 as int / 2, self.arm as int, self.gap as int),
            reticle_fits(screen.1 as int / 2, self.arm as int, self.gap as int),
        ensures
            ({
                let cx = screen.0 as int / 2;
                let cy = screen.1 as int / 2;
                let a = self.arm as int;
                let g = self.gap as int;
                &&& (r@[0].x0, r@[0].y0, r@[0].x1, r@[0].y1) == (
                    (cx - a - g) as i32,
                    cy as i32,
                    (cx - g) as i32,
                    cy as i32,
                )
                &&& (r@[1].x0, r@[1].y0, r@[1].x1, r@[1].y1) == (
                    (cx + g) as i32,
                    cy as i32,
                    (cx + a + g) as i32,
                    cy as i32,
                )
                &&& (r@[2].x0, r@[2].y0, r@[2].x1, r@[2].y1) == (
                    cx as i32,
                    (cy - a - g) as i32,
                    cx as i32,
                    (cy - g) as i32,
                )
                &&& (r@[3].x0, r@[3].y0, r@[3].x1, r@[3].y1) == (
                    cx as i32,
                    (cy + g) as i32,
                    cx as i32,
                    (cy + a + g) as i32,
                )
            }),
            r@[0].y0 == r@[0].y1 && r@[1].y0 == r@[1].y1,
            r@[2].x0 == r@[2].x1 && r@[3].x0 == r@[3].x1,
            r@[0].x0 + r@[1].x1 == r@[0].x1 + r@[1].x0,
            r@[2].y0 + r@[3].y1 == r@[2].y1 + r@[3].y0,
            forall|i: int|
                0 <= i < 4 ==> (#[trigger] r@[i]).x1 - r@[i].x0 + r@[i].y1 - r@[i].y0 == self.arm,
            r@[1].x0 - r@[0].x1 == 2 * self.gap && r@[3].y0 - r@[2].y1 == 2 * self.gap,
    {
        let (cx, cy) = (screen.0 / 2, screen.1 / 2);
        let (a, g) = (self.arm, self.gap);
        [
            Stroke { x0: cx - a - g, y0: cy, x1: cx - g, y1: cy },
            Stroke { x0: cx + g, y0: cy, x1: cx + a + g, y1: cy },
            Stroke { x0: cx, y0: cy - a - g, x1: cx, y1: cy - g },
            Stroke { x0: cx, y0: cy + g, x1: cx, y1: cy + a + g },
        ]
    }
}

/// A shortened text is never longer than asked for, is the text itself where that fits, and
/// otherwise uses all of the room: the text's beginning, then three dots.
pub proof fn lemma_shortened_texts(s: Seq<char>, max: int)
    requires
        max >= 0,
    ensures
        ({
            let r = ellipsized(s, max);
            &&& s.len() <= max ==> r == s
            &&& s.len() > max ==> r.len() == max
            &&& s.len() > max >= 3 ==> r[max - 1] == '.' && r[max - 2] == '.' && r[max - 3] == '.'
            &&& s.len() > max ==> forall|i: int| 0 <= i < max - 3 ==> r[i] == s[i]
            &&& s.len() > max && max < 3 ==> forall|i: int| 0 <= i < max ==> r[i] == '.'
        }),
{
}

/// An anchored box touches the edges that its anchor names and is centred along the others,
/// and the offset moves it by as much.
pub proof fn lemma_anchors_name_edges(a: Anchor, screen: (int, int), size: (int, int), off: int)
    ensures
        ({
            let (fx, fy) = a.factors_spec();
            let x = Anchor::axis_origin(fx, screen.0, size.0, 0);
            let y = Anchor::axis_origin(fy, screen.1, size.1, 0);
            let left = a == Anchor::TopLeft || a == Anchor::Left || a == Anchor::BottomLeft;
            let right = a == Anchor::TopRight || a == Anchor::Right || a == Anchor::BottomRight;
            let top = a == Anchor::TopLeft || a == Anchor::Top || a == Anchor::TopRight;
            let bottom = a == Anchor::BottomLeft || a == Anchor::Bottom || a
                == Anchor::BottomRight;
            &&& left ==> x == 0
            &&& right ==> x + size.0 == screen.0
            &&& !left && !right ==> -1 <= (screen.0 - (x + size.0)) - x <= 1
            &&& top ==> y == 0
            &&& bottom ==> y + size.1 == screen.1
            &&& !top && !bottom ==> -1 <= (screen.1 - (y + size.1)) - y <= 1
            &&& Anchor::axis_origin(fx, screen.0, size.0, off) == x + off
            &&& Anchor::axis_origin(fy, screen.1, size.1, off) == y + off
        }),
{
}

/// Modes of the interface have distinct codes and names, and each is read from its code.
pub proof fn lemma_modes_read_back(m: HudMode, n: HudMode)
    ensures
        m.code_spec() == n.code_spec() ==> m == n,
        m.label_spec() == n.label_spec() ==> m == n,
        HudMode::parse_spec(seq![(48 + m.code_spec()) as char]) == Some(m),
        HudMode::parse_spec(Seq::empty()) is None,
{
    reveal_strlit("Full");
    reveal_strlit("Minimal");
    reveal_strlit("Off");
    reveal_strlit("full");
    reveal_strlit("minimal");
    reveal_strlit("min");
    reveal_strlit("off");
    reveal_strlit("2");
    reveal_strlit("1");
    reveal_strlit("0");
    let s = seq![(48 + m.code_spec()) as char];
    assert("2"@[0] == '2' && "1"@[0] == '1' && "0"@[0] == '0');
    assert("2"@ =~= seq!['2']);
    assert("1"@ =~= seq!['1']);
    assert("0"@ =~= seq!['0']);
    assert(s[0] == (48 + m.code_spec()) as char);
    assert("Full"@.len() == 4 && "Minimal"@.len() == 7 && "Off"@.len() == 3);
}

/// A ring keeps the latest: a pushed item is the last one, those before it stay in order, and
/// only when the ring is full does the oldest leave.
pub proof fn lemma_rings_keep_the_latest<T>(s: Seq<T>, cap: nat, v: T, back: int)
    requires
        cap >= 1,
        s.len() <= cap,
        0 <= back,
    ensures
        ({
            let r = Ring::<T>::pushed(s, cap, v);
            &&& r.last() == v
            &&& s.len() < cap ==> r.len() == s.len() + 1
            &&& s.len() == cap ==> r.len() == cap
            &&& back + 1 < r.len() ==> r[r.len() - 2 - back] == s[s.len() - 1 - back]
        }),
{
}

/// Whatever replaces the line, as much of its beginning as fits does, and the caret stands
/// behind it.
pub proof fn lemma_replaced_line_fits(v: EditView, s: Seq<char>)
    requires
        v.max >= 0,
    ensures
        ({
            let r = v.replaced(s);
            &&& r.chars.len() <= s.len()
            &&& r.chars == s.take(r.chars.len() as int)
            &&& byte_len(r.chars) <= v.max
            &&& r.chars.len() < s.len() ==> byte_len(s.take(r.chars.len() as int + 1)) > v.max
            &&& byte_len(s) <= v.max ==> r.chars == s
            &&& r.caret == r.chars.len()
        }),
{
    lemma_some_prefix_fits(s, v.max, s.len() as int);
    let n = choose|n: int| is_fit(s, n, v.max);
    assert(is_fit(s, n, v.max));
    assert(v.replaced(s).chars == s.take(n));
    if byte_len(s) <= v.max && n < s.len() {
        let t = s.take(n + 1);
        lemma_byte_len_split(s, n + 1);
    }
    if n == s.len() {
        assert(s.take(n) =~= s);
    }
}

proof fn lemma_some_prefix_fits(s: Seq<char>, max: int, n: int)
    requires
        max >= 0,
        0 <= n <= s.len(),
        n < s.len() ==> byte_len(s.take(n + 1)) > max,
    ensures
        exists|m: int| is_fit(s, m, max),
    decreases n,
{
    if byte_len(s.take(n)) <= max {
        assert(is_fit(s, n, max));
    } else {
        if n == 0 {
            assert(s.take(0).len() == 0);
        }
        lemma_some_prefix_fits(s, max, n - 1);
    }
}

/// A typed character stands at the caret, which moves behind it, with the text around it
/// unchanged; control characters and what does not fit leave the line as it was.
pub proof fn lemma_typed_character_stands_at_caret(v: EditView, c: char)
    requires
        v.wf(),
    ensures
        ({
            let r = v.inserted(c);
            let control = (c as u32) < 32 || 127 <= (c as u32) < 160;
            let bytes = if (c as u32) < 128 {
                1int
            } else if (c as u32) < 2048 {
                2
            } else if (c as u32) < 65536 {
                3
            } else {
                4
            };
            let fits = byte_len(v.chars) + bytes <= v.max;
            &&& !control && fits ==> r.chars == v.chars.take(v.caret) + seq![c] + v.chars.skip(
                v.caret,
            ) && r.caret == v.caret + 1 && byte_len(r.chars) == byte_len(v.chars) + bytes
            &&& control || !fits ==> r == v
            &&& r.max == v.max
        }),
{
    if v.accepts(c) {
        let r = v.inserted(c).chars;
        assert(r =~= v.chars.take(v.caret) + seq![c] + v.chars.skip(v.caret));
        lemma_byte_len_concat(v.chars.take(v.caret) + seq![c], v.chars.skip(v.caret));
        lemma_byte_len_concat(v.chars.take(v.caret), seq![c]);
        lemma_byte_len_split(v.chars, v.caret);
        assert(seq![c].drop_last() =~= Seq::<char>::empty());
        assert(byte_len(Seq::<char>::empty()) == 0);
        assert(byte_len(seq![c]) == utf8_len(c));
    }
}

/// Typing a text puts it at the caret as a whole, in order, where all of it is printable and
/// fits.
pub proof fn lemma_typed_text_stands_in_order(v: InputView, t: Seq<char>)
    requires
        v.line.wf(),
        byte_len(v.line.chars) + byte_len(t) <= v.line.max,
        forall|i: int| 0 <= i < t.len() ==> !is_control(#[trigger] t[i]),
    ensures
        ({
            let r = v.typed(t).line;
            let c = v.line.caret;
            &&& r.chars == v.line.chars.take(c) + t + v.line.chars.skip(c)
            &&& r.caret == c + t.len()
            &&& r.max == v.line.max
            &&& r.wf()
            &&& byte_len(r.chars) == byte_len(v.line.chars) + byte_len(t)
        }),
    decreases t.len(),
{
    let c = v.line.caret;
    if t.len() == 0 {
        assert(v.line.chars.take(c) + t + v.line.chars.skip(c) =~= v.line.chars);
    } else {
        let h = t.drop_last();
        let x = t.last();
        assert(x == t[t.len() - 1]);
        assert forall|i: int| 0 <= i < h.len() implies !is_control(#[trigger] h[i]) by {
            assert(h[i] == t[i]);
        }
        lemma_typed_text_stands_in_order(v, h);
        let m = v.typed(h);
        assert(m.line.accepts(x));
        lemma_typed_character_stands_at_caret(m.line, x);
        lemma_inserted_wf(m.line, x);
        assert(m.line.inserted(x).chars =~= v.line.chars.take(c) + t + v.line.chars.skip(c));
    }
}

/// Deleting forward at a caret does what going one to the right and deleting backward does,
/// and either shortens the text by the one character beside the caret.
pub proof fn lemma_deletions_agree(v: EditView)
    requires
        v.wf(),
    ensures
        v.caret < v.chars.len() ==> v.deleted_forward() == v.moved(v.caret + 1).backspaced(),
        v.caret > 0 ==> v.backspaced().chars.len() == v.chars.len() - 1 && v.backspaced().caret
            == v.caret - 1,
        v.caret > 0 ==> v.chars == v.backspaced().chars.insert(v.caret - 1, v.chars[v.caret - 1]),
        v.caret == 0 ==> v.backspaced() == v,
        v.caret == v.chars.len() ==> v.deleted_forward() == v,
{
    if v.caret > 0 {
        assert(v.chars =~= v.backspaced().chars.insert(v.caret - 1, v.chars[v.caret - 1]));
    }
}

/// Deleting a word takes the blanks before the caret and the word before them, and leaves
/// what comes before the word and behind the caret.
pub proof fn lemma_deleted_word_is_gone(
    v: EditView,
    before: Seq<char>,
    word: Seq<char>,
    blanks: Seq<char>,
    behind: Seq<char>,
)
    requires
        v.chars == before + word + blanks + behind,
        v.caret == before.len() + word.len() + blanks.len(),
        word.len() > 0,
        forall|i: int| 0 <= i < word.len() ==> !is_white(#[trigger] word[i]),
        forall|i: int| 0 <= i < blanks.len() ==> is_white(#[trigger] blanks[i]),
        before.len() > 0 ==> is_white(before.last()),
    ensures
        v.deleted_word().chars == before + behind,
        v.deleted_word().caret == before.len(),
{
    let s = v.chars;
    let start = before.len() as int;
    let end = start + word.len();
    assert forall|i: int| end <= i < v.caret implies is_white(#[trigger] s[i]) by {
        assert(s[i] == blanks[i - end]);
    }
    assert forall|i: int| start <= i < end implies !is_white(#[trigger] s[i]) by {
        assert(s[i] == word[i - start]);
    }
    assert(s[end - 1] == word[word.len() - 1]);
    if start > 0 {
        assert(s[start - 1] == before[start - 1]);
    }
    assert(word_between(s, start, end));
    assert(is_word_start(s, v.caret, start));
    let k = choose|k: int| is_word_start(s, v.caret, k);
    lemma_word_start_unique(s, v.caret, start, k);
    assert(v.deleted_word().chars =~= before + behind);
}

/// Submitting empties the line and stops browsing; a line that is not blank becomes the
/// latest of the history, unless it is that already, and a blank one leaves no trace.
pub proof fn lemma_submitted_line_is_remembered(v: InputView)
    requires
        v.wf(),
    ensures
        ({
            let r = v.submitted();
            let t = trimmed(v.line.chars);
            &&& r.line.chars.len() == 0 && r.line.caret == 0 && r.scrub is None
            &&& t.len() > 0 ==> r.history.len() > 0 && r.history.last() == t
            &&& t.len() == 0 ==> r.history == v.history
            &&& t.len() > 0 && v.history.len() > 0 && v.history.last() == t ==> r.history
                == v.history
            &&& t.len() > 0 && v.history.len() > 0 && v.history.last() != t && r.history.len() > 1
                ==> r.history[r.history.len() - 2] == v.history.last()
        }),
{
}

/// Browsing back shows the latest line first and then each earlier one, down to the first;
/// browsing forth retraces it.
pub proof fn lemma_browsing_walks_history(v: InputView)
    requires
        v.wf(),
        v.history.len() > 0,
        v.line.max >= 0,
    ensures
        v.older().scrub is Some,
        v.scrub is None ==> v.older().scrub == Some(v.history.len() - 1),
        v.scrub is Some && v.scrub->0 > 0 ==> v.older().scrub == Some(v.scrub->0 - 1)
            && v.older().newer().scrub == v.scrub && v.older().newer().draft == v.draft,
        v.scrub == Some(0int) ==> v.older().scrub == v.scrub,
        byte_len(v.history[v.older().scrub->0]) <= v.line.max ==> v.older().line.chars
            == v.history[v.older().scrub->0],
        v.older().history == v.history,
        v.scrub is None ==> v.newer() == v,
{
    lemma_replaced_line_fits(v.line, v.history[v.older().scrub->0]);
}

/// Keys do as they are named: those that move the caret leave the text, those that delete
/// leave what is on the other side of the caret, and browsing up goes to earlier lines than
/// browsing down.
pub proof fn lemma_keys_do_as_named(v: InputView, key: EditKey)
    requires
        v.wf(),
    ensures
        ({
            let r = v.acted(key);
            let (c, n) = (v.line.caret, v.line.chars.len());
            let moves = key == EditKey::Left || key == EditKey::Right || key == EditKey::Home
                || key == EditKey::End;
            &&& moves ==> r == (InputView { line: EditView { caret: r.line.caret, ..v.line }, ..v })
            &&& key == EditKey::Left ==> r.line.caret == c - 1 || (c == 0 && r == v)
            &&& key == EditKey::Right ==> r.line.caret == c + 1 || (c == n && r == v)
            &&& key == EditKey::Home ==> r.line.caret == 0
            &&& key == EditKey::End ==> r.line.caret == n
            &&& key == EditKey::Left && c > 0 ==> r.acted(EditKey::Right) == v
            &&& key == EditKey::Backspace && c > 0 ==> r.line.chars == v.line.chars.take(c - 1)
                + v.line.chars.skip(c)
            &&& key == EditKey::Delete && c < n ==> r.line.chars == v.line.chars.take(c)
                + v.line.chars.skip(c + 1) && r.line.caret == c
            &&& key == EditKey::ClearLine ==> r.line.chars.len() == 0 && r.history == v.history
            &&& key == EditKey::Backspace || key == EditKey::Delete || key == EditKey::DelWord
                || key == EditKey::ClearLine || key == EditKey::Submit ==> r.scrub is None
            &&& key == EditKey::HistoryUp && v.history.len() > 0 ==> r.scrub is Some && (v.scrub
                is Some ==> r.scrub->0 <= v.scrub->0)
            &&& key == EditKey::HistoryDown && r.scrub is Some ==> v.scrub is Some && r.scrub->0
                > v.scrub->0
            &&& key != EditKey::Submit ==> r.history == v.history
        }),
{
    let r = v.acted(key);
    if key == EditKey::Left && v.line.caret > 0 {
        assert(r.acted(EditKey::Right).line =~= v.line);
    }
}

/// A completion puts in what it found, as far as it fits, and offers the candidates where it
/// found several; where it found nothing the line stays.
pub proof fn lemma_completion_puts_in_what_it_found(v: InputView, c: Completion)
    requires
        v.wf(),
    ensures
        ({
            let r = v.completed(c);
            &&& c is Nothing ==> r == v
            &&& c matches Completion::Full(s) ==> (byte_len(s@) <= v.line.max ==> r.line.chars
                == s@) && r.notice == v.notice
            &&& c matches Completion::Ambiguous(p, l) ==> (byte_len(p@) <= v.line.max
                ==> r.line.chars == p@) && r.notice is Some && r.notice->0.len() == l@.len()
                && forall|i: int|
                0 <= i < l@.len() ==> (#[trigger] l@[i])@ == r.notice->0[i]
            &&& r.history == v.history
        }),
{
    match c {
        Completion::Full(s) => {
            lemma_byte_len_split(v.line.chars, 0);
            lemma_replaced_line_fits(v.line, s@);
        },
        Completion::Ambiguous(p, l) => {
            lemma_byte_len_split(v.line.chars, 0);
            lemma_replaced_line_fits(v.line, p@);
        },
        Completion::Nothing => {},
    }
}

/// The place of a piece of a panel, as the left and upper end of it.
pub open spec fn stands_at(d: PanelDrawView) -> (int, int) {
    match d {
        PanelDrawView::Background { x, y, w, h } => (x, y),
        PanelDrawView::Chip { x, y, size, color } => (x, y),
        PanelDrawView::Text { x, y, text, role } => (x, y),
    }
}

/// Whether a piece of a row keeps eight pixels from the sides of a panel, with characters
/// eighteen pixels wide, and is no higher than a row, twenty-two pixels.
pub open spec fn stays_inside(d: PanelDrawView, x: int, top: int, bottom: int, width: int) -> bool {
    match d {
        PanelDrawView::Background { .. } => false,
        PanelDrawView::Chip { x: cx, y, size, color } => x + 8 <= cx && cx + size <= x + 26 && top
            <= y && y + size <= bottom,
        PanelDrawView::Text { x: tx, y, text, role } => {
            &&& x + 8 <= tx
            &&& top <= y && y + 22 <= bottom
            &&& tx - x + 18 <= width - 8 ==> tx + 18 * text.len() <= x + width - 8
        },
    }
}

/// The rows of a panel are drawn one below the other, inside it, none over another.
pub proof fn lemma_rows_stay_inside(x: int, y: int, width: int, rows: Seq<Row>, i: int)
    requires
        0 <= i < rows_draws(x, y, width, rows).len(),
    ensures
        ({
            let d = rows_draws(x, y, width, rows)[i];
            &&& stays_inside(d, x, y, y + 22 * rows.len(), width)
            &&& exists|k: int|
                0 <= k < rows.len() && #[trigger] row_draws(x, y + 22 * k, width, rows[k]).contains(
                    d,
                ) && y + 22 * k <= stands_at(d).1 < y + 22 * (k + 1)
        }),
    decreases rows.len(),
{
    let head = rows_draws(x, y, width, rows.drop_last());
    let n = rows.len() - 1;
    let last = row_draws(x, y + 22 * n, width, rows.last());
    let d = rows_draws(x, y, width, rows)[i];
    if i < head.len() {
        lemma_rows_stay_inside(x, y, width, rows.drop_last(), i);
        let k = choose|k: int|
            0 <= k < n && #[trigger] row_draws(
                x,
                y + 22 * k,
                width,
                rows.drop_last()[k],
            ).contains(d) && y + 22 * k <= stands_at(d).1 < y + 22 * (k + 1);
        assert(row_draws(x, y + 22 * k, width, rows[k]).contains(d));
    } else {
        assert(d == last[i - head.len()]);
        assert(row_draws(x, y + 22 * n, width, rows[n]).contains(d));
        let w = if rows.last().swatch is Some {
            width - 34
        } else {
            width - 16
        };
        lemma_shortened_texts(rows.last().text@, row_chars(w));
    }
}

/// A panel's background lies under all that it draws, and eight pixels of it show around its
/// rows: above, below and at the sides.
pub proof fn lemma_panel_holds_its_rows(p: Panel, i: int)
    requires
        0 <= i < p.draws().len(),
    ensures
        p.draws()[0] == (PanelDrawView::Background {
            x: p.at.0 as int,
            y: p.at.1 as int,
            w: p.width as int,
            h: p.height_spec(),
        }),
        i > 0 ==> stays_inside(
            p.draws()[i],
            p.at.0 as int,
            p.at.1 + 8,
            p.at.1 + p.height_spec() - 8,
            p.width as int,
        ),
{
    let (x, y, w) = (p.at.0 as int, p.at.1 as int, p.width as int);
    let head = rows_draws(x, y + 8, w, p.header@);
    let body = rows_draws(x, y + 10 + 22 * p.header@.len(), w, p.rows@);
    if 0 < i <= head.len() {
        assert(p.draws()[i] == head[i - 1]);
        lemma_rows_stay_inside(x, y + 8, w, p.header@, i - 1);
    } else if i > head.len() {
        let k = i - 1 - head.len();
        assert(p.draws()[i] == body[k]);
        lemma_rows_stay_inside(x, y + 10 + 22 * p.header@.len(), w, p.rows@, k);
    }
}

} // verus!
