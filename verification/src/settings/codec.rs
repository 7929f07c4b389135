//! The settings file: one `key=value` line per setting.
use vstd::prelude::*;
use vstd::string::*;

use crate::settings::edit::{read_value, read_value_spec};
use crate::settings::names::{is_word, is_word_char, lemma_key_finds_setting, lemma_key_is_word};
use crate::settings::state::{fits, Preset, Settings, Value};
use crate::settings::table::{lemma_index_at, lookup, lookup_spec, Setting, ValueKind, SETTING_COUNT};
use crate::text::{
    chars_of, decimal, find_char, find_in, is_digit, is_white, lemma_decimal_round_trip,
    lemma_find_char, lemma_signed_round_trip, lemma_solid_trim, lemma_trimmed_unique, push_signed,
    signed_decimal, text_of, trim_bounds, trimmed,
};

verus! {

/// The texts of the settings that hold real numbers.
#[derive(Clone, PartialEq, Eq, Debug)]
pub struct RealTexts {
    pub fov: String,
    pub render_scale: String,
    pub ui_scale: String,
    pub menu_scale: String,
    pub shake: String,
}

impl RealTexts {
    /// The text for a setting.
    pub open spec fn of(self, t: Setting) -> Seq<char> {
        match t {
            Setting::Fov => self.fov@,
            Setting::RenderScale => self.render_scale@,
            Setting::UiScale => self.ui_scale@,
            Setting::MenuScale => self.menu_scale@,
            _ => self.shake@,
        }
    }

    fn get(&self, t: Setting) -> (s: &str)
        ensures
            s@ == self.of(t),
    {
        match t {
            Setting::Fov => self.fov.as_str(),
            Setting::RenderScale => self.render_scale.as_str(),
            Setting::UiScale => self.ui_scale.as_str(),
            Setting::MenuScale => self.menu_scale.as_str(),
            _ => self.shake.as_str(),
        }
    }
}

/// A line of the file for a setting that holds a real number.
#[derive(Clone, PartialEq, Eq, Debug)]
pub struct RealLine {
    pub setting: Setting,
    pub text: String,
}

impl RealLine {
    pub open spec fn view(self) -> (Setting, Seq<char>) {
        (self.setting, self.text@)
    }
}

/// The text of a value in the settings file.
pub open spec fn value_text_spec(v: Value, rtext: Seq<char>) -> Seq<char> {
    match v {
        Value::Toggle(b) => if b {
            "true"@
        } else {
            "false"@
        },
        Value::Number(n) => signed_decimal(n as int),
        Value::Real(_) => rtext,
        Value::Preset(p) => signed_decimal(p.code_spec() as int),
        Value::Hud(m) => signed_decimal(m.code_spec() as int),
        Value::Vrs(c) => c.code_spec(),
    }
}

/// The line of a setting, with its line end.
pub open spec fn line_spec(t: Setting, v: Value, reals: RealTexts) -> Seq<char> {
    t.key_spec() + seq!['='] + value_text_spec(v, reals.of(t)) + seq!['\n']
}

/// The lines of the settings before place `k`.
pub open spec fn lines_before(vals: Seq<Value>, reals: RealTexts, k: int) -> Seq<char>
    decreases k,
{
    if k <= 0 {
        Seq::empty()
    } else {
        lines_before(vals, reals, k - 1) + line_spec(Setting::at_spec(k - 1), vals[k - 1], reals)
    }
}

/// The text of all settings.
pub open spec fn text_spec(vals: Seq<Value>, reals: RealTexts) -> Seq<char> {
    lines_before(vals, reals, SETTING_COUNT as int)
}

/// What a line assigns: the setting that its key names and the value's text.
pub open spec fn entry(line: Seq<char>) -> Option<(Setting, Seq<char>)> {
    let l = trimmed(line);
    let e = find_char(l, '=') as int;
    if e < l.len() {
        match lookup_spec(trimmed(l.subrange(0, e))) {
            Some(t) => Some((t, trimmed(l.subrange(e + 1, l.len() as int)))),
            None => None,
        }
    } else {
        None
    }
}

/// The values after one line.
pub open spec fn entered(vals: Seq<Value>, line: Seq<char>) -> Seq<Value> {
    match entry(line) {
        Some((t, s)) => match read_value_spec(t, s) {
            Some(v) => vals.update(t.index_spec() as int, v),
            None => vals,
        },
        None => vals,
    }
}

/// What follows the first line end.
pub open spec fn after_line(s: Seq<char>) -> Seq<char> {
    let e = find_char(s, '\n') as int;
    if e < s.len() {
        s.skip(e + 1)
    } else {
        Seq::empty()
    }
}

/// The first line.
pub open spec fn first_line(s: Seq<char>) -> Seq<char> {
    let e = find_char(s, '\n') as int;
    if e < s.len() {
        s.take(e)
    } else {
        s
    }
}

/// The values after every line of a text: a line that names no setting, or holds
/// no value for it, changes nothing.
pub open spec fn loaded(vals: Seq<Value>, text: Seq<char>) -> Seq<Value>
    decreases text.len(),
{
    if text.len() == 0 {
        vals
    } else {
        loaded(entered(vals, first_line(text)), after_line(text))
    }
}

/// The assignments of a line to settings that hold real numbers.
pub open spec fn real_entry(line: Seq<char>) -> Seq<(Setting, Seq<char>)> {
    match entry(line) {
        Some((t, s)) => if t.kind_spec() == ValueKind::Real {
            seq![(t, s)]
        } else {
            Seq::empty()
        },
        None => Seq::empty(),
    }
}

/// The assignments of a text to settings that hold real numbers, in order.
pub open spec fn real_lines(text: Seq<char>) -> Seq<(Setting, Seq<char>)>
    decreases text.len(),
{
    if text.len() == 0 {
        Seq::empty()
    } else {
        real_entry(first_line(text)) + real_lines(after_line(text))
    }
}

/// What a line of the file assigns.
fn read_entry(s: &Vec<char>, from: usize, to: usize) -> (r: Option<(Setting, String)>)
    requires
        from <= to <= s@.len(),
    ensures
        match (r, entry(s@.subrange(from as int, to as int))) {
            (Some((t, x)), Some((u, y))) => t == u && x@ == y,
            (None, None) => true,
            _ => false,
        },
{
    let (a, b) = trim_bounds(s, from, to);
    proof {
        lemma_trimmed_unique(s@, from as int, to as int, a as int, b as int);
    }
    let ghost l = s@.subrange(a as int, b as int);
    let e: usize = find_in(s, a, b, '=');
    if e == b {
        return None;
    }
    let (k0, k1) = trim_bounds(s, a, e);
    let (v0, v1) = trim_bounds(s, e + 1, b);
    proof {
        lemma_trimmed_unique(s@, a as int, e as int, k0 as int, k1 as int);
        lemma_trimmed_unique(s@, e + 1, b as int, v0 as int, v1 as int);
        assert(l.subrange(0, e - a) =~= s@.subrange(a as int, e as int));
        assert(l.subrange(e - a + 1, l.len() as int) =~= s@.subrange(e + 1, b as int));
    }
    let key: String = text_of(s, k0, k1);
    match lookup(key.as_str()) {
        Some(t) => Some((t, text_of(s, v0, v1))),
        None => None,
    }
}

fn push_value(out: &mut String, v: Value, rtext: &str)
    requires
        v matches Value::Number(n) ==> n > i64::MIN,
    ensures
        final(out)@ == old(out)@ + value_text_spec(v, rtext@),
{
    match v {
        Value::Toggle(b) => out.append(
            if b {
                "true"
            } else {
                "false"
            },
        ),
        Value::Number(n) => push_signed(out, n),
        Value::Real(_) => out.append(rtext),
        Value::Preset(p) => push_signed(out, p.code() as i64),
        Value::Hud(m) => push_signed(out, m.code() as i64),
        Value::Vrs(c) => out.append(c.code()),
    }
}

impl Settings {
    /// The settings file: every setting as a `key=value` line, in table order.
    pub fn to_text(&self, reals: &RealTexts) -> (out: String)
        requires
            self.wf(),
        ensures
            out@ == text_spec(self@, *reals),
    {
        let mut out: String = String::new();
        let mut i: usize = 0;
        while i < SETTING_COUNT
            invariant
                self.wf(),
                i <= SETTING_COUNT,
                out@ == lines_before(self@, *reals, i as int),
            decreases SETTING_COUNT - i,
        {
            let t = Setting::at(i);
            proof {
                lemma_index_at(t, i as int);
            }
            out.append(t.key());
            out.push('=');
            push_value(&mut out, self.value(t), reals.get(t));
            out.push('\n');
            proof {
                let before = lines_before(self@, *reals, i as int);
                assert(out@ =~= before + line_spec(t, self@[i as int], *reals));
            }
            i = i + 1;
        }
        out
    }

    /// Reads a settings file: a later line for a setting replaces an earlier one,
    /// a line that names no setting or holds no value for it is passed over. Lines
    /// for settings that hold real numbers are handed back in order.
    pub fn parse_from(&mut self, text: &str) -> (reals: Vec<RealLine>)
        requires
            old(self).wf(),
        ensures
            final(self).wf(),
            final(self)@ == loaded(old(self)@, text@),
            final(self).session_spec() == old(self).session_spec(),
            reals@.map_values(|l: RealLine| l@) == real_lines(text@),
    {
        let chars: Vec<char> = chars_of(text);
        let mut reals: Vec<RealLine> = Vec::new();
        let mut i: usize = 0;
        let ghost views = |l: RealLine| l@;
        proof {
            assert(chars@.skip(0) =~= text@);
            assert(reals@.map_values(views) =~= Seq::empty());
            assert(Seq::<(Setting, Seq<char>)>::empty() + real_lines(text@) =~= real_lines(text@));
        }
        while i < chars.len()
            invariant
                self.wf(),
                self.session_spec() == old(self).session_spec(),
                i <= chars@.len(),
                loaded(self@, chars@.skip(i as int)) == loaded(old(self)@, text@),
                views == (|l: RealLine| l@),
                reals@.map_values(views) + real_lines(chars@.skip(i as int)) == real_lines(text@),
            decreases chars@.len() - i,
        {
            let to: usize = chars.len();
            let e: usize = find_in(&chars, i, to, '\n');
            let ghost rest = chars@.skip(i as int);
            let ghost vals = self@;
            let ghost listed = reals@.map_values(views);
            proof {
                assert(chars@.subrange(i as int, to as int) =~= rest);
                assert(first_line(rest) =~= chars@.subrange(i as int, e as int));
            }
            match read_entry(&chars, i, e) {
                Some((t, s)) => {
                    proof {
                        assert(reals@.push(RealLine { setting: t, text: s }).map_values(views)
                            =~= listed.push((t, s@)));
                        assert(listed + seq![(t, s@)] =~= listed.push((t, s@)));
                    }
                    match read_value(t, s.as_str()) {
                        Some(v) => self.put(t, v),
                        None => {},
                    }
                    if t.kind() == ValueKind::Real {
                        reals.push(RealLine { setting: t, text: s });
                    }
                },
                None => {},
            }
            proof {
                let line = first_line(rest);
                assert(listed + Seq::empty() =~= listed);
                assert(reals@.map_values(views) =~= listed + real_entry(line));
                assert(self@ == entered(vals, line));
                assert((listed + real_entry(line)) + real_lines(after_line(rest)) =~= listed + (
                real_entry(line) + real_lines(after_line(rest))));
            }
            if e < to {
                assert(after_line(rest) =~= chars@.skip(e + 1));
                i = e + 1;
            } else {
                assert(after_line(rest) =~= chars@.skip(e as int));
                i = e;
            }
        }
        proof {
            assert(chars@.skip(i as int) =~= Seq::empty());
            assert(reals@.map_values(views) + Seq::empty() =~= reals@.map_values(views));
        }
        reals
    }
}

/// Whether a text has characters and none of them is white space.
pub open spec fn solid_text(s: Seq<char>) -> bool {
    &&& s.len() > 0
    &&& forall|i: int| 0 <= i < s.len() ==> !is_white(#[trigger] s[i])
}

proof fn lemma_digits_solid(n: int)
    ensures
        solid_text(signed_decimal(n)),
{
    let d = decimal((if n < 0 {
        -n
    } else {
        n
    }) as nat);
    lemma_decimal_round_trip((if n < 0 {
        -n
    } else {
        n
    }) as nat);
    assert forall|i: int| 0 <= i < signed_decimal(n).len() implies !is_white(
        #[trigger] signed_decimal(n)[i],
    ) by {
        if n < 0 {
            if i > 0 {
                assert(is_digit(d[i - 1]));
            }
        } else {
            assert(is_digit(d[i]));
        }
    }
}

/// A value's text is solid and reads back as the value.
proof fn lemma_value_text(t: Setting, v: Value, rtext: Seq<char>)
    requires
        fits(t.kind_spec(), v),
        t.kind_spec() == ValueKind::Real ==> solid_text(rtext),
    ensures
        solid_text(value_text_spec(v, rtext)),
        t.kind_spec() != ValueKind::Real ==> read_value_spec(t, value_text_spec(v, rtext)) == Some(
            v,
        ),
{
    reveal_strlit("true");
    reveal_strlit("false");
    reveal_strlit("auto");
    reveal_strlit("on");
    reveal_strlit("off");
    assert("true"@ =~= seq!['t', 'r', 'u', 'e']);
    assert("false"@ =~= seq!['f', 'a', 'l', 's', 'e']);
    assert("auto"@ =~= seq!['a', 'u', 't', 'o']);
    assert("on"@ =~= seq!['o', 'n']);
    assert("off"@ =~= seq!['o', 'f', 'f']);
    match v {
        Value::Toggle(b) => {
            reveal_strlit("1");
            reveal_strlit("yes");
            assert("yes"@.len() == 3 && "1"@.len() == 1);
            assert("false"@ != "true"@);
        },
        Value::Number(n) => {
            lemma_digits_solid(n as int);
            lemma_signed_round_trip(n as int);
            if n >= 0 {
                lemma_decimal_round_trip(n as nat);
            }
        },
        Value::Real(_) => {},
        Value::Preset(p) => {
            lemma_digits_solid(p.code_spec() as int);
            lemma_code_words();
        },
        Value::Hud(m) => {
            lemma_digits_solid(m.code_spec() as int);
            lemma_code_words();
        },
        Value::Vrs(c) => {
            assert("on"@.len() == 2 && "off"@.len() == 3 && "auto"@.len() == 4);
        },
    }
}

proof fn lemma_code_words()
    ensures
        signed_decimal(0) == "0"@,
        signed_decimal(1) == "1"@,
        signed_decimal(2) == "2"@,
        signed_decimal(3) == "3"@,
        "0"@ != "1"@,
        "0"@ != "2"@,
        "0"@ != "3"@,
        "1"@ != "2"@,
        "1"@ != "3"@,
        "2"@ != "3"@,
        forall|s: Seq<char>|
            s == "custom"@ || s == "minimum"@ || s == "min"@ || s == "fast"@ || s == "default"@
                || s == "full"@ || s == "minimal"@ || s == "off"@ ==> #[trigger] s.len() > 1,
        "0"@.len() == 1 && "1"@.len() == 1 && "2"@.len() == 1 && "3"@.len() == 1,
{
    reveal_strlit("0");
    reveal_strlit("1");
    reveal_strlit("2");
    reveal_strlit("3");
    reveal_strlit("custom");
    reveal_strlit("minimum");
    reveal_strlit("min");
    reveal_strlit("fast");
    reveal_strlit("default");
    reveal_strlit("full");
    reveal_strlit("minimal");
    reveal_strlit("off");
    assert("0"@ =~= seq!['0'] && "1"@ =~= seq!['1'] && "2"@ =~= seq!['2'] && "3"@ =~= seq!['3']);
    assert("0"@[0] != "1"@[0] && "0"@[0] != "2"@[0] && "0"@[0] != "3"@[0]);
    assert("1"@[0] != "2"@[0] && "1"@[0] != "3"@[0] && "2"@[0] != "3"@[0]);
    assert(decimal(0) =~= seq!['0'] && decimal(1) =~= seq!['1'] && decimal(2) =~= seq!['2']
        && decimal(3) =~= seq!['3']);
}

/// The lines of the settings from place `k` on.
spec fn lines_from(vals: Seq<Value>, reals: RealTexts, k: int) -> Seq<char>
    decreases SETTING_COUNT - k,
{
    if k >= SETTING_COUNT {
        Seq::empty()
    } else {
        line_spec(Setting::at_spec(k), vals[k], reals) + lines_from(vals, reals, k + 1)
    }
}

proof fn lemma_lines_split(vals: Seq<Value>, reals: RealTexts, k: int)
    requires
        0 <= k <= SETTING_COUNT,
    ensures
        lines_before(vals, reals, k) + lines_from(vals, reals, k) == text_spec(vals, reals),
    decreases SETTING_COUNT - k,
{
    if k < SETTING_COUNT {
        lemma_lines_split(vals, reals, k + 1);
        let line = line_spec(Setting::at_spec(k), vals[k], reals);
        assert(lines_before(vals, reals, k) + (line + lines_from(vals, reals, k + 1)) =~= (
        lines_before(vals, reals, k) + line) + lines_from(vals, reals, k + 1));
    } else {
        assert(lines_before(vals, reals, k) + Seq::empty() =~= lines_before(vals, reals, k));
    }
}

/// The values that a written file carries, over the values it is read into: real
/// numbers are not among them.
pub open spec fn carried(base: Seq<Value>, vals: Seq<Value>, k: int) -> Seq<Value> {
    Seq::new(
        SETTING_COUNT as nat,
        |i: int|
            if i >= k && Setting::at_spec(i).kind_spec() != ValueKind::Real {
                vals[i]
            } else {
                base[i]
            },
    )
}

/// The lines for real numbers that a written file carries.
pub open spec fn carried_reals(reals: RealTexts, k: int) -> Seq<(Setting, Seq<char>)>
    decreases SETTING_COUNT - k,
{
    if k >= SETTING_COUNT {
        Seq::empty()
    } else {
        let t = Setting::at_spec(k);
        (if t.kind_spec() == ValueKind::Real {
            seq![(t, reals.of(t))]
        } else {
            Seq::empty()
        }) + carried_reals(reals, k + 1)
    }
}

/// A line made of a word, `=` and a solid text, and how it comes apart.
proof fn lemma_line_parts(key: Seq<char>, val: Seq<char>, rest: Seq<char>)
    requires
        is_word(key),
        key.len() > 0,
        solid_text(val),
    ensures
        ({
            let body = key + seq!['='] + val;
            let text = body + seq!['\n'] + rest;
            &&& first_line(text) == body
            &&& after_line(text) == rest
            &&& trimmed(body) == body
            &&& find_char(body, '=') == key.len()
            &&& body.subrange(0, key.len() as int) == key
            &&& body.subrange(key.len() as int + 1, body.len() as int) == val
            &&& trimmed(key) == key
            &&& trimmed(val) == val
        }),
{
    let body = key + seq!['='] + val;
    let text = body + seq!['\n'] + rest;
    assert forall|j: int| 0 <= j < body.len() implies #[trigger] text[j] != '\n' by {
        if j < key.len() {
            assert(is_word_char(key[j]));
        } else if j > key.len() {
            assert(!is_white(val[j - key.len() - 1]));
        }
    }
    assert(text[body.len() as int] == '\n');
    lemma_find_char(text, '\n', body.len() as int);
    assert(first_line(text) =~= body);
    assert(after_line(text) =~= rest);
    assert(is_word_char(key[0]));
    assert(is_word_char(key[key.len() - 1]));
    assert(!is_white(val[val.len() - 1]));
    assert(!is_white(val[0]));
    assert(body[0] == key[0] && body.last() == val[val.len() - 1]);
    lemma_solid_trim(body);
    assert forall|j: int| 0 <= j < key.len() implies #[trigger] body[j] != '=' by {
        assert(is_word_char(key[j]));
    }
    assert(body[key.len() as int] == '=');
    lemma_find_char(body, '=', key.len() as int);
    assert(body.subrange(0, key.len() as int) =~= key);
    assert(body.subrange(key.len() as int + 1, body.len() as int) =~= val);
    lemma_solid_trim(key);
    lemma_solid_trim(val);
}

/// A written line assigns its value to its setting.
proof fn lemma_line_entry(t: Setting, v: Value, reals: RealTexts, rest: Seq<char>)
    requires
        fits(t.kind_spec(), v),
        t.kind_spec() == ValueKind::Real ==> solid_text(reals.of(t)),
    ensures
        ({
            let text = line_spec(t, v, reals) + rest;
            &&& text.len() > 0
            &&& entry(first_line(text)) == Some((t, value_text_spec(v, reals.of(t))))
            &&& after_line(text) == rest
        }),
{
    lemma_key_is_word(t);
    lemma_value_text(t, v, reals.of(t));
    lemma_line_parts(t.key_spec(), value_text_spec(v, reals.of(t)), rest);
    lemma_key_finds_setting(t);
}

proof fn lemma_load_from(base: Seq<Value>, vals: Seq<Value>, reals: RealTexts, k: int)
    requires
        base.len() == SETTING_COUNT,
        0 <= k <= SETTING_COUNT,
        forall|t: Setting| #[trigger]
            fits(t.kind_spec(), vals[t.index_spec() as int]) && (t.kind_spec() == ValueKind::Real
                ==> solid_text(reals.of(t))),
    ensures
        loaded(base, lines_from(vals, reals, k)) == carried(base, vals, k),
        real_lines(lines_from(vals, reals, k)) == carried_reals(reals, k),
    decreases SETTING_COUNT - k,
{
    if k >= SETTING_COUNT {
        assert(carried(base, vals, k) =~= base);
    } else {
        let t = Setting::at_spec(k);
        lemma_index_at(t, k);
        assert(fits(t.kind_spec(), vals[t.index_spec() as int]));
        let rest = lines_from(vals, reals, k + 1);
        let text = lines_from(vals, reals, k);
        lemma_line_entry(t, vals[k], reals, rest);
        lemma_value_text(t, vals[k], reals.of(t));
        let next = entered(base, first_line(text));
        lemma_load_from(next, vals, reals, k + 1);
        assert(carried(next, vals, k + 1) =~= carried(base, vals, k));
    }
}

/// A settings file reads back as the settings it was written from, whatever the
/// settings were before: every value but the real numbers is restored, and the real
/// numbers come back as the texts that were written, in table order.
pub proof fn lemma_file_round_trip(base: Seq<Value>, saved: Settings, reals: RealTexts)
    requires
        base.len() == SETTING_COUNT,
        saved.wf(),
        forall|t: Setting| #[trigger]
            t.kind_spec() == ValueKind::Real ==> solid_text(reals.of(t)),
    ensures
        loaded(base, text_spec(saved@, reals)) == carried(base, saved@, 0),
        real_lines(text_spec(saved@, reals)) == carried_reals(reals, 0),
{
    assert forall|t: Setting| #[trigger]
        fits(t.kind_spec(), saved@[t.index_spec() as int]) && (t.kind_spec() == ValueKind::Real
            ==> solid_text(reals.of(t))) by {
        assert(fits(t.kind_spec(), saved.value_spec(t)));
    }
    lemma_load_from(base, saved@, reals, 0);
    lemma_lines_split(saved@, reals, 0);
    assert(lines_before(saved@, reals, 0) + lines_from(saved@, reals, 0) =~= lines_from(
        saved@,
        reals,
        0,
    ));
}

/// A line of the file sets at most the value that it names: what it names takes the value
/// that the text reads as, a text that does not read or a line that names nothing changes
/// nothing, and the rest stays.
pub proof fn lemma_lines_set_what_they_name(vals: Seq<Value>, line: Seq<char>, u: Setting)
    requires
        vals.len() == SETTING_COUNT,
    ensures
        entry(line) is None ==> entered(vals, line) == vals,
        entry(line) is Some ==> {
            let (t, s) = entry(line)->0;
            &&& u != t ==> entered(vals, line)[u.index_spec() as int] == vals[u.index_spec() as int]
            &&& read_value_spec(t, s) is None ==> entered(vals, line) == vals
            &&& read_value_spec(t, s) is Some ==> Some(entered(vals, line)[t.index_spec() as int])
                == read_value_spec(t, s)
        },
{
    lemma_index_at(u, 0);
    if entry(line) is Some {
        let (t, s) = entry(line)->0;
        lemma_index_at(t, 0);
    }
}

/// Of two lines that set one value the later one counts.
pub proof fn lemma_later_lines_count(
    vals: Seq<Value>,
    a: Seq<char>,
    b: Seq<char>,
    t: Setting,
    x: Seq<char>,
    y: Seq<char>,
)
    requires
        vals.len() == SETTING_COUNT,
        entry(a) == Some((t, x)),
        entry(b) == Some((t, y)),
        read_value_spec(t, y) is Some,
    ensures
        entered(entered(vals, a), b) == entered(vals, b),
{
    assert(entered(entered(vals, a), b) =~= entered(vals, b));
}

} // verus!
