//! Text helpers: characters, trimming, and decimal numbers.
use vstd::prelude::*;
use vstd::string::*;

verus! {

/// [`String::push`] appends one character.
pub assume_specification[ String::push ](s: &mut String, c: char)
    ensures
        final(s)@ == old(s)@.push(c),
;

/// The characters of `s`.
pub fn chars_of(s: &str) -> (out: Vec<char>)
    ensures
        out@ == s@,
{
    let mut out: Vec<char> = Vec::new();
    for c in it: s.chars()
        invariant
            out@ == it.seq().take(it.index() as int),
            it.seq() == s@,
    {
        out.push(c);
        assert(it.seq().take(it.index() + 1) =~= it.seq().take(it.index() as int).push(c));
    }
    assert(out@ =~= s@);
    out
}

/// The text of characters `from..to`.
pub fn text_of(chars: &Vec<char>, from: usize, to: usize) -> (out: String)
    requires
        from <= to <= chars@.len(),
    ensures
        out@ == chars@.subrange(from as int, to as int),
{
    let mut out: String = String::new();
    let mut i: usize = from;
    assert(chars@.subrange(from as int, from as int) =~= Seq::empty());
    while i < to
        invariant
            from <= i <= to <= chars@.len(),
            out@ == chars@.subrange(from as int, i as int),
        decreases to - i,
    {
        out.push(chars[i]);
        assert(chars@.subrange(from as int, i + 1) =~= chars@.subrange(from as int, i as int).push(
            chars@[i as int],
        ));
        i = i + 1;
    }
    out
}

/// Whether two texts hold the same characters.
pub fn same_text(a: &str, b: &str) -> (r: bool)
    ensures
        r == (a@ == b@),
{
    let x: Vec<char> = chars_of(a);
    let y: Vec<char> = chars_of(b);
    same_chars(&x, &y)
}

/// Whether two character lists are equal.
pub fn same_chars(x: &Vec<char>, y: &Vec<char>) -> (r: bool)
    ensures
        r == (x@ == y@),
{
    if x.len() != y.len() {
        return false;
    }
    let mut i: usize = 0;
    while i < x.len()
        invariant
            i <= x@.len(),
            x@.len() == y@.len(),
            forall|j: int| 0 <= j < i ==> #[trigger] x@[j] == y@[j],
        decreases x@.len() - i,
    {
        if x[i] != y[i] {
            assert(x@[i as int] != y@[i as int]);
            return false;
        }
        i = i + 1;
    }
    assert(x@ =~= y@);
    true
}

/// Whether `c` is Unicode white space.
pub open spec fn is_white(c: char) -> bool {
    ||| 0x9 <= c as u32 <= 0xD
    ||| c as u32 == 0x20
    ||| c as u32 == 0x85
    ||| c as u32 == 0xA0
    ||| c as u32 == 0x1680
    ||| 0x2000 <= c as u32 <= 0x200A
    ||| c as u32 == 0x2028
    ||| c as u32 == 0x2029
    ||| c as u32 == 0x202F
    ||| c as u32 == 0x205F
    ||| c as u32 == 0x3000
}

/// Whether `c` is Unicode white space.
pub fn white(c: char) -> (b: bool)
    ensures
        b == is_white(c),
{
    let u: u32 = c as u32;
    (0x9 <= u && u <= 0xD) || u == 0x20 || u == 0x85 || u == 0xA0 || u == 0x1680 || (0x2000 <= u
        && u <= 0x200A) || u == 0x2028 || u == 0x2029 || u == 0x202F || u == 0x205F || u == 0x3000
}

/// Whether `s[from..to]` is `s[lo..hi]` without white space at either end.
pub open spec fn is_trimmed(s: Seq<char>, lo: int, hi: int, from: int, to: int) -> bool {
    &&& lo <= from <= to <= hi
    &&& forall|i: int| lo <= i < from ==> is_white(#[trigger] s[i])
    &&& forall|i: int| to <= i < hi ==> is_white(#[trigger] s[i])
    &&& from < to ==> !is_white(s[from]) && !is_white(s[to - 1])
}

/// The text of `s` without white space at either end.
pub open spec fn trimmed(s: Seq<char>) -> Seq<char> {
    let (from, to) = choose|from: int, to: int| is_trimmed(s, 0, s.len() as int, from, to);
    s.subrange(from, to)
}

/// The bounds of `s[lo..hi]` without white space at either end.
pub fn trim_bounds(s: &Vec<char>, lo: usize, hi: usize) -> (r: (usize, usize))
    requires
        lo <= hi <= s@.len(),
    ensures
        is_trimmed(s@, lo as int, hi as int, r.0 as int, r.1 as int),
{
    let mut from: usize = lo;
    while from < hi && white(s[from])
        invariant
            lo <= from <= hi <= s@.len(),
            forall|i: int| lo <= i < from ==> is_white(#[trigger] s@[i]),
        decreases hi - from,
    {
        from = from + 1;
    }
    let mut to: usize = hi;
    while to > from && white(s[to - 1])
        invariant
            lo <= from <= to <= hi <= s@.len(),
            forall|i: int| lo <= i < from ==> is_white(#[trigger] s@[i]),
            forall|i: int| to <= i < hi ==> is_white(#[trigger] s@[i]),
            from < hi ==> !is_white(s@[from as int]),
        decreases to,
    {
        to = to - 1;
    }
    (from, to)
}

pub proof fn lemma_trimmed_unique(s: Seq<char>, lo: int, hi: int, from: int, to: int)
    requires
        0 <= lo <= hi <= s.len(),
        is_trimmed(s, lo, hi, from, to),
    ensures
        s.subrange(from, to) == trimmed(s.subrange(lo, hi)),
{
    let t = s.subrange(lo, hi);
    assert(is_trimmed(t, 0, t.len() as int, from - lo, to - lo)) by {
        assert forall|i: int| 0 <= i < from - lo implies is_white(#[trigger] t[i]) by {
            assert(is_white(s[i + lo]));
        }
        assert forall|i: int| to - lo <= i < t.len() implies is_white(#[trigger] t[i]) by {
            assert(is_white(s[i + lo]));
        }
    }
    let (f, e) = choose|f: int, e: int| is_trimmed(t, 0, t.len() as int, f, e);
    assert(is_trimmed(t, 0, t.len() as int, f, e));
    if from < to {
        assert(!is_white(t[from - lo]) && !is_white(t[to - 1 - lo]));
        assert(f == from - lo && e == to - lo);
    } else if f < e {
        assert(!is_white(t[f]));
        assert(is_white(t[f]));
    }
    assert(s.subrange(from, to) =~= t.subrange(f, e));
}

/// A text without white space at its ends is its own trim.
pub proof fn lemma_solid_trim(s: Seq<char>)
    requires
        s.len() > 0,
        !is_white(s[0]),
        !is_white(s.last()),
    ensures
        trimmed(s) == s,
{
    lemma_trimmed_unique(s, 0, s.len() as int, 0, s.len() as int);
    assert(s.subrange(0, s.len() as int) =~= s);
}

pub open spec fn is_digit(c: char) -> bool {
    '0' <= c <= '9'
}

/// The value of a digit character.
pub open spec fn digit_value(c: char) -> int {
    c as u32 - '0' as u32
}

pub open spec fn all_digits(s: Seq<char>) -> bool {
    forall|i: int| 0 <= i < s.len() ==> is_digit(#[trigger] s[i])
}

/// The number that decimal digits stand for.
pub open spec fn digits_value(s: Seq<char>) -> int
    decreases s.len(),
{
    if s.len() == 0 {
        0
    } else {
        digits_value(s.drop_last()) * 10 + digit_value(s.last())
    }
}

/// The number that an optional plus sign and at least one digit stand for.
pub open spec fn unsigned_value(s: Seq<char>) -> Option<int> {
    let d = if s.len() > 0 && s[0] == '+' {
        s.skip(1)
    } else {
        s
    };
    if d.len() > 0 && all_digits(d) {
        Some(digits_value(d))
    } else {
        None
    }
}

/// The number that an optional sign and at least one digit stand for.
pub open spec fn signed_value(s: Seq<char>) -> Option<int> {
    if s.len() > 0 && s[0] == '-' {
        let d = s.skip(1);
        if d.len() > 0 && all_digits(d) {
            Some(-digits_value(d))
        } else {
            None
        }
    } else {
        unsigned_value(s)
    }
}

proof fn lemma_digits_nonneg(s: Seq<char>)
    requires
        all_digits(s),
    ensures
        digits_value(s) >= 0,
    decreases s.len(),
{
    if s.len() > 0 {
        assert forall|i: int| 0 <= i < s.drop_last().len() implies is_digit(
            #[trigger] s.drop_last()[i],
        ) by {
            assert(is_digit(s[i]));
        }
        lemma_digits_nonneg(s.drop_last());
        assert(is_digit(s[s.len() - 1]));
    }
}

proof fn lemma_digits_grow(s: Seq<char>, n: int)
    requires
        all_digits(s),
        0 <= n <= s.len(),
    ensures
        0 <= digits_value(s.take(n)) <= digits_value(s),
    decreases s.len() - n,
{
    assert(all_digits(s.take(n)));
    lemma_digits_nonneg(s.take(n));
    if n < s.len() {
        lemma_digits_grow(s, n + 1);
        assert(s.take(n + 1).drop_last() =~= s.take(n));
        assert(is_digit(s[n]));
    } else {
        assert(s.take(n) =~= s);
    }
}

pub proof fn lemma_unsigned_nonneg(s: Seq<char>)
    ensures
        unsigned_value(s) matches Some(n) ==> n >= 0,
{
    let d = if s.len() > 0 && s[0] == '+' {
        s.skip(1)
    } else {
        s
    };
    if all_digits(d) {
        lemma_digits_nonneg(d);
    }
}

/// The number in `s[from..]` where it is made of digits and at most `max`.
pub fn parse_digits(s: &Vec<char>, from: usize, max: u64) -> (r: Option<u64>)
    requires
        from <= s@.len(),
        max < 0x1000_0000_0000_0000,
    ensures
        ({
            let d = s@.skip(from as int);
            match r {
                Some(n) => d.len() > 0 && all_digits(d) && digits_value(d) == n && n <= max,
                None => !(d.len() > 0 && all_digits(d) && digits_value(d) <= max),
            }
        }),
{
    let ghost d = s@.skip(from as int);
    if from == s.len() {
        return None;
    }
    let mut n: u64 = 0;
    let mut i: usize = from;
    assert(d.take(0) =~= Seq::empty());
    while i < s.len()
        invariant
            from <= i <= s@.len(),
            from < s@.len(),
            max < 0x1000_0000_0000_0000,
            d == s@.skip(from as int),
            all_digits(d.take(i - from)),
            n == digits_value(d.take(i - from)),
            n <= max,
        decreases s@.len() - i,
    {
        let c: char = s[i];
        assert(d[i - from] == c);
        if !('0' <= c && c <= '9') {
            assert(!all_digits(d));
            return None;
        }
        let v: u64 = (c as u32 - '0' as u32) as u64;
        proof {
            assert(d.take(i - from + 1).drop_last() =~= d.take(i - from));
            assert forall|k: int| 0 <= k < i - from + 1 implies is_digit(
                #[trigger] d.take(i - from + 1)[k],
            ) by {
                if k < i - from {
                    assert(is_digit(d.take(i - from)[k]));
                }
            }
        }
        n = n * 10 + v;
        if n > max {
            proof {
                if all_digits(d) {
                    lemma_digits_grow(d, i - from + 1);
                }
            }
            return None;
        }
        i = i + 1;
    }
    assert(d.take(i - from) =~= d);
    Some(n)
}

/// The number that `s` stands for, where it is at most `max`.
pub fn parse_unsigned(s: &Vec<char>, max: u64) -> (r: Option<u64>)
    requires
        max < 0x1000_0000_0000_0000,
    ensures
        r == (match unsigned_value(s@) {
            Some(n) => if n <= max {
                Some(n as u64)
            } else {
                None
            },
            None => None,
        }),
{
    if s.len() > 0 && s[0] == '+' {
        parse_digits(s, 1, max)
    } else {
        assert(s@.skip(0) =~= s@);
        parse_digits(s, 0, max)
    }
}

/// The number that `s` stands for, where it fits `i32`.
pub fn parse_i32(s: &Vec<char>) -> (r: Option<i32>)
    ensures
        r == (match signed_value(s@) {
            Some(n) => if i32::MIN <= n <= i32::MAX {
                Some(n as i32)
            } else {
                None
            },
            None => None,
        }),
{
    if s.len() > 0 && s[0] == '-' {
        proof {
            let d = s@.skip(1);
            if all_digits(d) {
                lemma_digits_nonneg(d);
            }
        }
        match parse_digits(s, 1, 0x8000_0000) {
            Some(n) => {
                let v: i64 = 0 - (n as i64);
                Some(v as i32)
            },
            None => None,
        }
    } else {
        proof {
            let d = if s@.len() > 0 && s@[0] == '+' {
                s@.skip(1)
            } else {
                s@
            };
            if all_digits(d) {
                lemma_digits_nonneg(d);
            }
        }
        match parse_unsigned(s, 0x7fff_ffff) {
            Some(n) => Some(n as i32),
            None => None,
        }
    }
}

/// The character for digit `d`.
pub open spec fn digit_char(d: int) -> char {
    if d == 0 {
        '0'
    } else if d == 1 {
        '1'
    } else if d == 2 {
        '2'
    } else if d == 3 {
        '3'
    } else if d == 4 {
        '4'
    } else if d == 5 {
        '5'
    } else if d == 6 {
        '6'
    } else if d == 7 {
        '7'
    } else if d == 8 {
        '8'
    } else {
        '9'
    }
}

fn digit_of(d: u64) -> (c: char)
    requires
        d < 10,
    ensures
        c == digit_char(d as int),
{
    if d == 0 {
        '0'
    } else if d == 1 {
        '1'
    } else if d == 2 {
        '2'
    } else if d == 3 {
        '3'
    } else if d == 4 {
        '4'
    } else if d == 5 {
        '5'
    } else if d == 6 {
        '6'
    } else if d == 7 {
        '7'
    } else if d == 8 {
        '8'
    } else {
        '9'
    }
}

/// The decimal text of `n`.
pub open spec fn decimal(n: nat) -> Seq<char>
    decreases n,
{
    if n < 10 {
        seq![digit_char(n as int)]
    } else {
        decimal(n / 10).push(digit_char((n % 10) as int))
    }
}

/// Reading a number back from its decimal text gives that number.
pub proof fn lemma_decimal_round_trip(n: nat)
    ensures
        all_digits(decimal(n)),
        decimal(n).len() > 0,
        digits_value(decimal(n)) == n,
        unsigned_value(decimal(n)) == Some(n as int),
        signed_value(decimal(n)) == Some(n as int),
    decreases n,
{
    let t = decimal(n);
    if n < 10 {
        assert(t.drop_last() =~= Seq::empty());
        assert(digits_value(Seq::empty()) == 0);
    } else {
        lemma_decimal_round_trip(n / 10);
        assert(t.drop_last() =~= decimal(n / 10));
        assert forall|i: int| 0 <= i < t.len() implies is_digit(#[trigger] t[i]) by {
            if i < t.len() - 1 {
                assert(is_digit(decimal(n / 10)[i]));
            }
        }
    }
    assert(is_digit(t[0]));
}

/// The decimal text of a signed number.
pub open spec fn signed_decimal(n: int) -> Seq<char> {
    if n < 0 {
        seq!['-'] + decimal((-n) as nat)
    } else {
        decimal(n as nat)
    }
}

/// Reading a signed number back from its decimal text gives that number.
pub proof fn lemma_signed_round_trip(n: int)
    ensures
        signed_value(signed_decimal(n)) == Some(n),
{
    if n < 0 {
        lemma_decimal_round_trip((-n) as nat);
        assert(signed_decimal(n).skip(1) =~= decimal((-n) as nat));
    } else {
        lemma_decimal_round_trip(n as nat);
    }
}

/// Appends the decimal text of `n`.
pub fn push_decimal(out: &mut String, n: u64)
    ensures
        final(out)@ == old(out)@ + decimal(n as nat),
    decreases n,
{
    if n < 10 {
        out.push(digit_of(n));
        assert(out@ =~= old(out)@ + decimal(n as nat));
    } else {
        push_decimal(out, n / 10);
        out.push(digit_of(n % 10));
        assert(out@ =~= old(out)@ + decimal(n as nat));
    }
}

/// Appends the decimal text of a signed number.
pub fn push_signed(out: &mut String, n: i64)
    requires
        n > i64::MIN,
    ensures
        final(out)@ == old(out)@ + signed_decimal(n as int),
{
    if n < 0 {
        out.push('-');
        push_decimal(out, (0 - n) as u64);
        assert(out@ =~= old(out)@ + signed_decimal(n as int));
    } else {
        push_decimal(out, n as u64);
    }
}

/// The place of the first `c`, or the length.
pub open spec fn find_char(s: Seq<char>, c: char) -> nat
    decreases s.len(),
{
    if s.len() == 0 || s[0] == c {
        0
    } else {
        1 + find_char(s.skip(1), c)
    }
}

/// The first place of a character is where it stands with none before it.
pub proof fn lemma_find_char(s: Seq<char>, c: char, i: int)
    requires
        0 <= i <= s.len(),
        forall|j: int| 0 <= j < i ==> #[trigger] s[j] != c,
        i < s.len() ==> s[i] == c,
    ensures
        find_char(s, c) == i,
    decreases s.len(),
{
    if i > 0 {
        let t = s.skip(1);
        assert(s[0] != c);
        assert forall|j: int| 0 <= j < i - 1 implies #[trigger] t[j] != c by {
            assert(s[j + 1] != c);
        }
        lemma_find_char(t, c, i - 1);
    }
}

/// The first place of `c` in `s[from..to]`, or `to`.
pub fn find_in(s: &Vec<char>, from: usize, to: usize, c: char) -> (r: usize)
    requires
        from <= to <= s@.len(),
    ensures
        r == from + find_char(s@.subrange(from as int, to as int), c),
        from <= r <= to,
{
    let mut i: usize = from;
    while i < to && s[i] != c
        invariant
            from <= i <= to <= s@.len(),
            forall|j: int| from <= j < i ==> #[trigger] s@[j] != c,
        decreases to - i,
    {
        i = i + 1;
    }
    proof {
        let t = s@.subrange(from as int, to as int);
        assert forall|j: int| 0 <= j < i - from implies #[trigger] t[j] != c by {
            assert(s@[j + from] != c);
        }
        lemma_find_char(t, c, i - from);
    }
    i
}

/// Blanks around a text do not count: trimmed, it is what it was without them, and neither
/// end of it is blank.
pub proof fn lemma_blanks_around_do_not_count(before: Seq<char>, s: Seq<char>, behind: Seq<char>)
    requires
        forall|i: int| 0 <= i < before.len() ==> is_white(#[trigger] before[i]),
        forall|i: int| 0 <= i < behind.len() ==> is_white(#[trigger] behind[i]),
        s.len() > 0,
        !is_white(s[0]),
        !is_white(s.last()),
    ensures
        trimmed(before + s + behind) == s,
{
    let t = before + s + behind;
    let from = before.len() as int;
    let to = from + s.len();
    assert forall|i: int| 0 <= i < from implies is_white(#[trigger] t[i]) by {
        assert(t[i] == before[i]);
    }
    assert forall|i: int| to <= i < t.len() implies is_white(#[trigger] t[i]) by {
        assert(t[i] == behind[i - to]);
    }
    assert(t[from] == s[0] && t[to - 1] == s.last());
    assert(is_trimmed(t, 0, t.len() as int, from, to));
    lemma_trimmed_unique(t, 0, t.len() as int, from, to);
    let (f, g) = choose|f: int, g: int| is_trimmed(t, 0, t.len() as int, f, g);
    assert(is_trimmed(t, 0, t.len() as int, f, g));
    lemma_trimmed_unique(t, 0, t.len() as int, f, g);
    assert(t.subrange(from, to) =~= s);
}

/// Of the first hundred and twenty-eight characters the blanks are the space and the five from
/// tab to carriage return.
pub proof fn lemma_plain_blanks(c: char)
    requires
        (c as u32) < 128,
    ensures
        is_white(c) <==> c == ' ' || c == '\t' || c == '\n' || c == '\r' || c as u32 == 11 || c as u32
            == 12,
{
}

/// A digit more makes a number ten times as large and adds the digit; noughts in front change
/// nothing.
pub proof fn lemma_digits_weigh(s: Seq<char>, d: int)
    requires
        0 <= d <= 9,
        all_digits(s),
    ensures
        digits_value(s.push(digit_char(d))) == 10 * digits_value(s) + d,
        digits_value(seq!['0'] + s) == digits_value(s),
        digits_value(s) >= 0,
        s.len() > 0 ==> unsigned_value(s) == Some(digits_value(s)),
        s.len() > 0 ==> signed_value(seq!['-'] + s) == Some(-digits_value(s)),
        s.len() > 0 ==> signed_value(s) == Some(digits_value(s)),
    decreases s.len(),
{
    let p = s.push(digit_char(d));
    assert(p.drop_last() =~= s);
    assert(digit_value(digit_char(d)) == d);
    let z = seq!['0'] + s;
    if s.len() == 0 {
        assert(z =~= seq!['0']);
        assert(z.drop_last() =~= Seq::<char>::empty());
        assert(digits_value(z.drop_last()) == 0);
    } else {
        let h = s.drop_last();
        assert forall|i: int| 0 <= i < h.len() implies is_digit(#[trigger] h[i]) by {
            assert(h[i] == s[i]);
        }
        lemma_digits_weigh(h, 0);
        assert(z.drop_last() =~= seq!['0'] + h);
        assert(is_digit(s[s.len() - 1]));
        assert(is_digit(s[0]));
        let m = seq!['-'] + s;
        assert(m.skip(1) =~= s);
        assert(m[0] == '-');
    }
}

} // verus!
