//! The encoder's progress stream: parsing its `key=value` lines into a
//! progress record, and what is derived from that record. Times are kept in
//! milliseconds and rates (speed, bitrate, frame rate) in thousandths.
use crate::text::{
    is_space, matches_at, chars_of, digits_value, is_digit, is_whitespace, padded_decimal, push_padded,
    repeat_char,
};
use vstd::prelude::*;

verus! {

/// The position of the first `.` in `s`, or its length when there is none.
pub open spec fn dot_pos(s: Seq<char>) -> int
    decreases s.len(),
{
    if s.len() == 0 {
        0
    } else if s[0] == '.' {
        0
    } else {
        1 + dot_pos(s.skip(1))
    }
}

pub open spec fn all_digits(s: Seq<char>) -> bool {
    forall|i: int| 0 <= i < s.len() ==> is_digit(#[trigger] s[i])
}

/// The first three digits of a fraction, missing ones taken as zero, as thousandths.
pub open spec fn frac_milli(f: Seq<char>) -> nat {
    if f.len() >= 3 {
        digits_value(f.take(3))
    } else {
        digits_value(f + repeat_char('0', (3 - f.len()) as nat))
    }
}

/// The value in thousandths of a decimal number `digits[.digits]` with at least
/// one digit; digits past the third after the point are ignored.
pub open spec fn decimal_milli(s: Seq<char>) -> Option<nat> {
    let d = dot_pos(s);
    let int_part = s.take(d);
    let frac = if d < s.len() {
        s.skip(d + 1)
    } else {
        Seq::<char>::empty()
    };
    if all_digits(int_part) && all_digits(frac) && int_part.len() + frac.len() > 0 {
        Some(digits_value(int_part) * 1000 + frac_milli(frac))
    } else {
        None
    }
}

/// `v`, where it fits in a `u64`.
pub open spec fn fit_u64(v: Option<nat>) -> Option<u64> {
    match v {
        Some(n) => if n <= u64::MAX {
            Some(n as u64)
        } else {
            None
        },
        None => None,
    }
}

proof fn lemma_dot_pos(s: Seq<char>)
    ensures
        0 <= dot_pos(s) <= s.len(),
        dot_pos(s) < s.len() ==> s[dot_pos(s)] == '.',
        forall|i: int| 0 <= i < dot_pos(s) ==> s[i] != '.',
    decreases s.len(),
{
    if s.len() > 0 && s[0] != '.' {
        lemma_dot_pos(s.skip(1));
        assert forall|i: int| 0 <= i < dot_pos(s) implies s[i] != '.' by {
            if i > 0 {
                assert(s[i] == s.skip(1)[i - 1]);
            }
        }
    }
}

proof fn lemma_digits_step(s: Seq<char>, i: int)
    requires
        0 <= i < s.len(),
    ensures
        digits_value(s.take(i + 1)) == digits_value(s.take(i)) * 10 + (s[i] as int - '0' as int) as nat,
{
    assert(s.take(i + 1).drop_last() =~= s.take(i));
}

/// The digits of `v` from `from` up to `to`, as a number, or `None` when one is
/// not a digit or the number does not fit in a `u64`.
fn digits_u64(v: &Vec<char>, from: usize, to: usize) -> (r: Option<u64>)
    requires
        from <= to <= v@.len(),
    ensures
        all_digits(v@.subrange(from as int, to as int)) ==> r == fit_u64(
            Some(digits_value(v@.subrange(from as int, to as int))),
        ),
        !all_digits(v@.subrange(from as int, to as int)) ==> r is None,
{
    let ghost s = v@.subrange(from as int, to as int);
    let mut acc: u64 = 0;
    let mut i: usize = from;
    let mut overflow = false;
    assert(s.take(0) =~= Seq::<char>::empty());
    while i < to
        invariant
            from <= i <= to <= v@.len(),
            s == v@.subrange(from as int, to as int),
            all_digits(s.take(i - from)),
            !overflow ==> acc == digits_value(s.take(i - from)),
            overflow ==> digits_value(s.take(i - from)) > u64::MAX,
        decreases to - i,
    {
        let c = v[i];
        if !('0' <= c && c <= '9') {
            assert(s[i - from] == c);
            return None;
        }
        proof {
            lemma_digits_step(s, i - from);
        }
        assert(s.take(i - from + 1) =~= s.take(i - from).push(c));
        let d = (c as u32 - '0' as u32) as u64;
        if !overflow {
            if acc > (u64::MAX - d) / 10 {
                overflow = true;
            } else {
                acc = acc * 10 + d;
            }
        }
        i = i + 1;
    }
    assert(s.take(i - from) =~= s);
    if overflow {
        None
    } else {
        Some(acc)
    }
}

/// Reads a decimal number in thousandths (see [`decimal_milli`]).
pub fn parse_milli(s: &str) -> (r: Option<u64>)
    ensures
        r == fit_u64(decimal_milli(s@)),
{
    let v = chars_of(s);
    parse_milli_chars(&v)
}

/// Reads a decimal number in thousandths (see [`decimal_milli`]).
fn parse_milli_chars(v: &Vec<char>) -> (r: Option<u64>)
    ensures
        r == fit_u64(decimal_milli(v@)),
{
    let ghost s = v@;
    let n = v.len();
    let mut d: usize = 0;
    while d < n && v[d] != '.'
        invariant
            n == v@.len(),
            d <= n,
            forall|i: int| 0 <= i < d ==> v@[i] != '.',
        decreases n - d,
    {
        d = d + 1;
    }
    proof {
        lemma_dot_pos(s);
        if dot_pos(s) < d {
            assert(s[dot_pos(s)] == '.');
        }
        if d < dot_pos(s) {
            assert(s[d as int] != '.');
        }
    }
    assert(d == dot_pos(s));
    let ghost int_part = s.take(d as int);
    assert(v@.subrange(0, d as int) =~= int_part);
    let fs: usize = if d < n { d + 1 } else { n };
    let ghost frac = if d < n { s.skip(d + 1) } else { Seq::<char>::empty() };
    assert(v@.subrange(fs as int, n as int) =~= frac);
    if d == 0 && fs == n {
        return None;
    }
    let ip = digits_u64(&v, 0, d);
    let ip = match ip {
        None => {
            proof {
                if all_digits(int_part) {
                    assert(digits_value(int_part) > u64::MAX);
                }
            }
            return None;
        },
        Some(x) => x,
    };
    // The fraction: its first three digits, the rest only checked.
    let mut f: u64 = 0;
    let mut k: usize = 0;
    while k < 3
        invariant
            fs <= n,
            n == v@.len(),
            v@.subrange(fs as int, n as int) == frac,
            k <= 3,
            f < (if k == 0 { 1int } else if k == 1 { 10int } else if k == 2 { 100int } else { 1000int }),
            ({
                let fk = if frac.len() >= 3 { frac.take(3) } else { frac + repeat_char('0', (3 - frac.len()) as nat) };
                (forall|j: int| 0 <= j < k && j < frac.len() ==> is_digit(#[trigger] frac[j])) ==> f == digits_value(fk.take(k as int))
            }),
        decreases 3 - k,
    {
        let c = if k < n - fs {
            v[fs + k]
        } else {
            '0'
        };
        let dd: u64 = if '0' <= c && c <= '9' {
            (c as u32 - '0' as u32) as u64
        } else {
            0
        };
        proof {
            let fk = if frac.len() >= 3 { frac.take(3) } else { frac + repeat_char('0', (3 - frac.len()) as nat) };
            assert(fk.len() == 3);
            lemma_digits_step(fk, k as int);
            if (k as int) < frac.len() {
                assert(fk[k as int] == frac[k as int]);
                assert(frac[k as int] == v@[fs + k]);
            } else {
                assert(fk[k as int] == '0');
            }
        }
        f = f * 10 + dd;
        k = k + 1;
    }
    let fcheck = digits_u64(&v, fs, n);
    let frac_ok = match fcheck {
        Some(_) => true,
        None => {
            // An overflow is no reason to refuse the fraction: only its digits count.
            all_digit_chars(&v, fs, n)
        },
    };
    if !frac_ok {
        return None;
    }
    proof {
        let fk = if frac.len() >= 3 { frac.take(3) } else { frac + repeat_char('0', (3 - frac.len()) as nat) };
        assert(fk.take(3) =~= fk);
        assert(f == frac_milli(frac));
    }
    if ip > (u64::MAX - f) / 1000 {
        return None;
    }
    Some(ip * 1000 + f)
}

/// Whether the characters of `v` from `from` up to `to` are all digits.
fn all_digit_chars(v: &Vec<char>, from: usize, to: usize) -> (r: bool)
    requires
        from <= to <= v@.len(),
    ensures
        r == all_digits(v@.subrange(from as int, to as int)),
{
    let mut i: usize = from;
    while i < to
        invariant
            from <= i <= to <= v@.len(),
            forall|j: int| from <= j < i ==> is_digit(#[trigger] v@[j]),
        decreases to - i,
    {
        if !('0' <= v[i] && v[i] <= '9') {
            assert(v@.subrange(from as int, to as int)[i - from] == v@[i as int]);
            return false;
        }
        i = i + 1;
    }
    assert forall|j: int| 0 <= j < to - from implies is_digit(#[trigger] v@.subrange(from as int, to as int)[j]) by {
        assert(v@.subrange(from as int, to as int)[j] == v@[from + j]);
    }
    true
}

/// `s` without leading whitespace.
pub open spec fn trim_start(s: Seq<char>) -> Seq<char>
    decreases s.len(),
{
    if s.len() > 0 && is_whitespace(s[0]) {
        trim_start(s.skip(1))
    } else {
        s
    }
}

/// `s` without trailing whitespace.
pub open spec fn trim_end(s: Seq<char>) -> Seq<char>
    decreases s.len(),
{
    if s.len() > 0 && is_whitespace(s.last()) {
        trim_end(s.drop_last())
    } else {
        s
    }
}

/// `s` without surrounding whitespace.
pub open spec fn trimmed(s: Seq<char>) -> Seq<char> {
    trim_end(trim_start(s))
}

/// The characters of `v` from `from` up to `to`, without surrounding whitespace.
pub fn trim_range(v: &Vec<char>, from: usize, to: usize) -> (r: Vec<char>)
    requires
        from <= to <= v@.len(),
    ensures
        r@ == trimmed(v@.subrange(from as int, to as int)),
{
    let ghost s = v@.subrange(from as int, to as int);
    let mut a: usize = from;
    assert(s.skip(0) =~= s);
    while a < to && is_space(v[a])
        invariant
            from <= a <= to <= v@.len(),
            s == v@.subrange(from as int, to as int),
            trim_start(s) == trim_start(s.skip(a - from)),
        decreases to - a,
    {
        assert(s.skip(a - from)[0] == v@[a as int]);
        assert(s.skip(a - from).skip(1) =~= s.skip(a + 1 - from));
        a = a + 1;
    }
    assert(s.skip(a - from) =~= v@.subrange(a as int, to as int));
    let ghost t = v@.subrange(a as int, to as int);
    assert(trim_start(s) == t) by {
        if a < to {
            assert(t[0] == v@[a as int]);
        }
    }
    let mut b: usize = to;
    assert(t.take(to - a) =~= t);
    while b > a && is_space(v[b - 1])
        invariant
            a <= b <= to <= v@.len(),
            t == v@.subrange(a as int, to as int),
            trim_end(t) == trim_end(t.take(b - a)),
        decreases b,
    {
        assert(t.take(b - a).last() == v@[b - 1]);
        assert(t.take(b - a).drop_last() =~= t.take(b - 1 - a));
        b = b - 1;
    }
    assert(t.take(b - a) =~= v@.subrange(a as int, b as int));
    assert(trim_end(t) == v@.subrange(a as int, b as int)) by {
        if a < b {
            assert(t.take(b - a).last() == v@[b - 1]);
        }
    }
    let mut r: Vec<char> = Vec::new();
    let mut i: usize = a;
    while i < b
        invariant
            a <= i <= b <= v@.len(),
            r@ == v@.subrange(a as int, i as int),
        decreases b - i,
    {
        r.push(v[i]);
        i = i + 1;
        assert(r@ =~= v@.subrange(a as int, i as int));
    }
    r
}

/// `s` split at every `:`.
pub open spec fn split_colon(s: Seq<char>) -> Seq<Seq<char>>
    decreases s.len(),
{
    if s.len() == 0 {
        seq![Seq::<char>::empty()]
    } else {
        let r = split_colon(s.skip(1));
        if s[0] == ':' {
            seq![Seq::<char>::empty()] + r
        } else {
            seq![seq![s[0]] + r[0]] + r.skip(1)
        }
    }
}

/// The number of `:` in `s`.
pub open spec fn colons(s: Seq<char>) -> nat
    decreases s.len(),
{
    if s.len() == 0 {
        0
    } else {
        (if s[0] == ':' {
            1nat
        } else {
            0nat
        }) + colons(s.skip(1))
    }
}

proof fn lemma_split_colon_len(s: Seq<char>)
    ensures
        split_colon(s).len() == colons(s) + 1,
    decreases s.len(),
{
    if s.len() > 0 {
        lemma_split_colon_len(s.skip(1));
    }
}

/// A time in milliseconds: `H:M:S` with each part a decimal number, or a number of seconds.
pub open spec fn time_ms(s: Seq<char>) -> Option<nat> {
    let parts = split_colon(s);
    if parts.len() == 3 {
        match (decimal_milli(parts[0]), decimal_milli(parts[1]), decimal_milli(parts[2])) {
            (Some(h), Some(m), Some(sec)) => Some(3600 * h + 60 * m + sec),
            _ => None,
        }
    } else {
        decimal_milli(s)
    }
}

pub open spec fn char_views(v: Seq<Vec<char>>) -> Seq<Seq<char>> {
    v.map_values(|x: Vec<char>| x@)
}

proof fn lemma_split_colon_nonempty(s: Seq<char>)
    ensures
        split_colon(s).len() >= 1,
{
    lemma_split_colon_len(s);
}

/// The parts of `v` between `:` characters.
fn split_colon_parts(v: &Vec<char>) -> (r: Vec<Vec<char>>)
    ensures
        char_views(r@) == split_colon(v@),
{
    let mut parts: Vec<Vec<char>> = Vec::new();
    let mut cur: Vec<char> = Vec::new();
    let mut i: usize = 0;
    assert(v@.skip(0) =~= v@);
    proof {
        lemma_split_colon_nonempty(v@);
    }
    assert(char_views(parts@) + seq![cur@ + split_colon(v@.skip(0))[0]] + split_colon(v@.skip(0)).skip(1) =~= split_colon(v@));
    while i < v.len()
        invariant
            i <= v@.len(),
            char_views(parts@) + seq![cur@ + split_colon(v@.skip(i as int))[0]] + split_colon(v@.skip(i as int)).skip(1)
                == split_colon(v@),
        decreases v.len() - i,
    {
        let ghost rest = v@.skip(i as int);
        let ghost r1 = split_colon(v@.skip(i + 1));
        proof {
            lemma_split_colon_nonempty(v@.skip(i + 1));
            assert(rest.skip(1) =~= v@.skip(i + 1));
            assert(rest[0] == v@[i as int]);
        }
        if v[i] == ':' {
            let ghost before = parts@;
            parts.push(cur);
            cur = Vec::new();
            i = i + 1;
            assert(char_views(parts@) =~= char_views(before).push(char_views(before.push(parts@.last()))[before.len() as int]));
            assert(seq![cur@ + r1[0]] + r1.skip(1) =~= r1);
            assert(char_views(parts@) + seq![cur@ + split_colon(v@.skip(i as int))[0]] + split_colon(v@.skip(i as int)).skip(1)
                =~= split_colon(v@));
        } else {
            let ghost old_cur = cur@;
            cur.push(v[i]);
            i = i + 1;
            assert(old_cur + split_colon(rest)[0] =~= cur@ + r1[0]);
            assert(split_colon(rest).skip(1) =~= r1.skip(1));
            assert(char_views(parts@) + seq![cur@ + split_colon(v@.skip(i as int))[0]] + split_colon(v@.skip(i as int)).skip(1)
                =~= split_colon(v@));
        }
    }
    assert(v@.skip(i as int) =~= Seq::<char>::empty());
    let ghost before = parts@;
    parts.push(cur);
    assert(char_views(parts@) =~= split_colon(v@));
    parts
}

/// Reads a time in milliseconds (see [`time_ms`]).
pub fn parse_time_ms(s: &Vec<char>) -> (r: Option<u64>)
    ensures
        r == fit_u64(time_ms(s@)),
{
    let parts = split_colon_parts(s);
    if parts.len() == 3 {
        assert(parts@[0]@ == split_colon(s@)[0]);
        assert(parts@[1]@ == split_colon(s@)[1]);
        assert(parts@[2]@ == split_colon(s@)[2]);
        let h = parse_milli_chars(&parts[0]);
        let m = parse_milli_chars(&parts[1]);
        let sec = parse_milli_chars(&parts[2]);
        match (h, m, sec) {
            (Some(h), Some(m), Some(sec)) => {
                if h > (u64::MAX - sec) / 3600 {
                    return None;
                }
                let a = h * 3600 + sec;
                if m > (u64::MAX - a) / 60 {
                    return None;
                }
                Some(a + m * 60)
            },
            _ => {
                proof {
                    if decimal_milli(split_colon(s@)[0]) is Some && decimal_milli(split_colon(s@)[1]) is Some
                        && decimal_milli(split_colon(s@)[2]) is Some {
                        let hh = decimal_milli(split_colon(s@)[0])->Some_0;
                        let mm = decimal_milli(split_colon(s@)[1])->Some_0;
                        let ss = decimal_milli(split_colon(s@)[2])->Some_0;
                        assert(hh > u64::MAX || mm > u64::MAX || ss > u64::MAX);
                        assert(3600 * hh + 60 * mm + ss > u64::MAX);
                    }
                }
                None
            },
        }
    } else {
        parse_milli_chars(s)
    }
}

/// The prober's total duration in milliseconds, or 0 when it does not read.
pub fn parse_duration_ms(duration: &str) -> (r: u64)
    ensures
        r == match fit_u64(time_ms(duration@)) {
            Some(t) => t,
            None => 0,
        },
{
    let v = chars_of(duration);
    match parse_time_ms(&v) {
        Some(t) => t,
        None => 0,
    }
}

/// The progress of one encoder run. Times are in milliseconds; speed, bitrate
/// and frame rate are in thousandths.
#[derive(Debug, Clone, Copy, PartialEq, Eq, Structural)]
pub struct ConversionProgress {
    pub current_time_ms: u64,
    pub total_duration_ms: u64,
    pub speed_milli: u64,
    pub bitrate_milli: u64,
    pub size: u64,
    pub fps_milli: u64,
}

/// What follows `key` at the start of `line`, if `line` starts with it.
pub open spec fn value_after(line: Seq<char>, key: Seq<char>) -> Option<Seq<char>> {
    if line.len() >= key.len() && line.take(key.len() as int) == key {
        Some(line.skip(key.len() as int))
    } else {
        None
    }
}

/// A whole number: one digit or more.
pub open spec fn whole_number(s: Seq<char>) -> Option<u64> {
    if s.len() > 0 && all_digits(s) {
        fit_u64(Some(digits_value(s)))
    } else {
        None
    }
}

/// The speed, written as a decimal number followed by `x`.
pub open spec fn speed_value(v: Seq<char>) -> Option<u64> {
    if v.len() > 0 && v.last() == 'x' {
        fit_u64(decimal_milli(v.drop_last()))
    } else {
        None
    }
}

/// `p` with `set` applied where `line` starts with `key` and `read` gives a value for what follows.
pub open spec fn field_update(
    p: ConversionProgress,
    line: Seq<char>,
    key: Seq<char>,
    read: spec_fn(Seq<char>) -> Option<u64>,
    set: spec_fn(ConversionProgress, u64) -> ConversionProgress,
) -> ConversionProgress {
    match value_after(line, key) {
        Some(v) => match read(v) {
            Some(x) => set(p, x),
            None => p,
        },
        None => p,
    }
}

/// The progress after one line of the encoder's output: a `time=`, `speed=`,
/// `bitrate=`, `size=` or `fps=` line whose value reads sets that field; any
/// other line, or a value that does not read, changes nothing.
pub open spec fn apply_line(p: ConversionProgress, line: Seq<char>) -> ConversionProgress {
    let after_time = field_update(p, line, "time="@, |v: Seq<char>| fit_u64(time_ms(trimmed(v))),
        |q: ConversionProgress, x: u64| ConversionProgress { current_time_ms: x, ..q });
    let after_speed = field_update(after_time, line, "speed="@, |v: Seq<char>| speed_value(v),
        |q: ConversionProgress, x: u64| ConversionProgress { speed_milli: x, ..q });
    let after_bitrate = field_update(after_speed, line, "bitrate="@, |v: Seq<char>| fit_u64(decimal_milli(trimmed(v))),
        |q: ConversionProgress, x: u64| ConversionProgress { bitrate_milli: x, ..q });
    let after_size = field_update(after_bitrate, line, "size="@, |v: Seq<char>| whole_number(trimmed(v)),
        |q: ConversionProgress, x: u64| ConversionProgress { size: x, ..q });
    field_update(after_size, line, "fps="@, |v: Seq<char>| fit_u64(decimal_milli(trimmed(v))),
        |q: ConversionProgress, x: u64| ConversionProgress { fps_milli: x, ..q })
}

/// The completion percentage: `min(100, current / total * 100)`, rounded down, or 0 without a total.
pub open spec fn percent_of(p: ConversionProgress) -> u64 {
    if p.total_duration_ms > 0 {
        let q = (p.current_time_ms * 100) / p.total_duration_ms as int;
        if q > 100 {
            100
        } else {
            q as u64
        }
    } else {
        0
    }
}

/// The whole seconds left at the current speed, while there is a speed and time left.
pub open spec fn eta_of(p: ConversionProgress) -> Option<u64> {
    if p.speed_milli > 0 && p.current_time_ms < p.total_duration_ms {
        Some(((p.total_duration_ms - p.current_time_ms) / p.speed_milli as int) as u64)
    } else {
        None
    }
}

/// The length of `key` if `v` starts with it.
fn key_len(v: &Vec<char>, key: &str) -> (r: Option<usize>)
    ensures
        match r {
            Some(k) => value_after(v@, key@) is Some && k == key@.len() && k <= v@.len(),
            None => value_after(v@, key@) is None,
        },
{
    let k = chars_of(key);
    if matches_at(v, &k, 0) {
        assert(v@.subrange(0, k@.len() as int) =~= v@.take(k@.len() as int));
        Some(k.len())
    } else {
        proof {
            if v@.len() >= key@.len() {
                assert(v@.subrange(0, k@.len() as int) =~= v@.take(k@.len() as int));
            }
        }
        None
    }
}

impl ConversionProgress {
    /// The progress at the start of a run of `total_duration_ms`.
    pub fn new(total_duration_ms: u64) -> (r: ConversionProgress)
        ensures
            r == (ConversionProgress {
                current_time_ms: 0,
                total_duration_ms,
                speed_milli: 0,
                bitrate_milli: 0,
                size: 0,
                fps_milli: 0,
            }),
    {
        ConversionProgress {
            current_time_ms: 0,
            total_duration_ms,
            speed_milli: 0,
            bitrate_milli: 0,
            size: 0,
            fps_milli: 0,
        }
    }

    /// The completion percentage (see [`percent_of`]).
    pub fn percentage(&self) -> (r: u64)
        ensures
            r == percent_of(*self),
    {
        if self.total_duration_ms > 0 {
            let q = (self.current_time_ms as u128 * 100) / self.total_duration_ms as u128;
            if q > 100 {
                100
            } else {
                q as u64
            }
        } else {
            0
        }
    }

    /// The estimated seconds left (see [`eta_of`]).
    pub fn eta(&self) -> (r: Option<u64>)
        ensures
            r == eta_of(*self),
    {
        if self.speed_milli > 0 && self.current_time_ms < self.total_duration_ms {
            Some((self.total_duration_ms - self.current_time_ms) / self.speed_milli)
        } else {
            None
        }
    }
}

/// Updates `progress` from one line of the encoder's output (see [`apply_line`]).
pub fn parse_ffmpeg_progress_line(line: &str, progress: &mut ConversionProgress)
    ensures
        *final(progress) == apply_line(*old(progress), line@),
{
    let v = chars_of(line);
    let n = v.len();
    match key_len(&v, "time=") {
        Some(k) => {
            let t = trim_range(&v, k, n);
            assert(v@.subrange(k as int, n as int) =~= v@.skip(k as int));
            match parse_time_ms(&t) {
                Some(x) => {
                    progress.current_time_ms = x;
                },
                None => {},
            }
        },
        None => {},
    }
    match key_len(&v, "speed=") {
        Some(k) => {
            assert(v@.subrange(k as int, n as int) =~= v@.skip(k as int));
            if k < n && v[n - 1] == 'x' {
                let mut w: Vec<char> = Vec::new();
                let mut i: usize = k;
                while i < n - 1
                    invariant
                        k <= i <= n - 1,
                        n == v@.len(),
                        w@ == v@.subrange(k as int, i as int),
                    decreases n - 1 - i,
                {
                    w.push(v[i]);
                    i = i + 1;
                    assert(w@ =~= v@.subrange(k as int, i as int));
                }
                assert(w@ =~= v@.skip(k as int).drop_last());
                match parse_milli_chars(&w) {
                    Some(x) => {
                        progress.speed_milli = x;
                    },
                    None => {},
                }
            }
        },
        None => {},
    }
    match key_len(&v, "bitrate=") {
        Some(k) => {
            let t = trim_range(&v, k, n);
            assert(v@.subrange(k as int, n as int) =~= v@.skip(k as int));
            match parse_milli_chars(&t) {
                Some(x) => {
                    progress.bitrate_milli = x;
                },
                None => {},
            }
        },
        None => {},
    }
    match key_len(&v, "size=") {
        Some(k) => {
            let t = trim_range(&v, k, n);
            assert(v@.subrange(k as int, n as int) =~= v@.skip(k as int));
            assert(t@.subrange(0, t@.len() as int) =~= t@);
            if t.len() > 0 {
                match digits_u64(&t, 0, t.len()) {
                    Some(x) => {
                        progress.size = x;
                    },
                    None => {},
                }
            }
        },
        None => {},
    }
    match key_len(&v, "fps=") {
        Some(k) => {
            let t = trim_range(&v, k, n);
            assert(v@.subrange(k as int, n as int) =~= v@.skip(k as int));
            match parse_milli_chars(&t) {
                Some(x) => {
                    progress.fps_milli = x;
                },
                None => {},
            }
        },
        None => {},
    }
}

/// `HH:MM:SS` for a number of seconds.
pub open spec fn hms_text(secs: nat) -> Seq<char> {
    padded_decimal(secs / 3600, 2) + ":"@ + padded_decimal((secs % 3600) / 60, 2) + ":"@
        + padded_decimal(secs % 60, 2)
}

/// `HH:MM:SS` for a number of seconds.
pub fn format_time(seconds: u64) -> (r: String)
    ensures
        r@ == hms_text(seconds as nat),
{
    let mut r = String::new();
    push_padded(&mut r, seconds / 3600, 2);
    r.append(":");
    push_padded(&mut r, (seconds % 3600) / 60, 2);
    r.append(":");
    push_padded(&mut r, seconds % 60, 2);
    r
}

/// The encoder's `HH:MM:SS.mmm` form of a time in milliseconds.
pub open spec fn ms_time_text(ms: nat) -> Seq<char> {
    hms_text(ms / 1000) + "."@ + padded_decimal(ms % 1000, 3)
}

/// The encoder's `HH:MM:SS.mmm` form of a time in milliseconds.
pub fn format_time_from_ms(ms: i64) -> (r: String)
    requires
        ms >= 0,
    ensures
        r@ == ms_time_text(ms as nat),
{
    let total = ms as u64;
    let mut r = format_time(total / 1000);
    r.append(".");
    push_padded(&mut r, total % 1000, 3);
    r
}

/// The unit that a size of `bytes` is shown in: 0 for B, 1 for KB, 2 for MB, 3 for GB.
pub open spec fn size_unit(bytes: nat) -> nat {
    if bytes < 1024 {
        0
    } else if bytes < 1024 * 1024 {
        1
    } else if bytes < 1024 * 1024 * 1024 {
        2
    } else {
        3
    }
}

pub open spec fn unit_divisor(unit: nat) -> nat {
    if unit == 0 {
        1
    } else if unit == 1 {
        1024
    } else if unit == 2 {
        1024 * 1024
    } else {
        1024 * 1024 * 1024
    }
}

pub open spec fn unit_name(unit: nat) -> Seq<char> {
    if unit == 0 {
        "B"@
    } else if unit == 1 {
        "KB"@
    } else if unit == 2 {
        "MB"@
    } else {
        "GB"@
    }
}

/// A size with one decimal, rounded to the nearest tenth, and its unit: `1.5 KB`.
pub open spec fn size_text(bytes: nat) -> Seq<char> {
    let unit = size_unit(bytes);
    let div = unit_divisor(unit);
    let tenths = (bytes * 10 + div / 2) / div;
    crate::text::decimal(tenths / 10) + "."@ + crate::text::decimal(tenths % 10) + " "@ + unit_name(unit)
}

/// A size with one decimal and its unit (see [`size_text`]).
pub fn format_size(bytes: u64) -> (r: String)
    ensures
        r@ == size_text(bytes as nat),
{
    let (div, name): (u128, &str) = if bytes < 1024 {
        (1, "B")
    } else if bytes < 1024 * 1024 {
        (1024, "KB")
    } else if bytes < 1024 * 1024 * 1024 {
        (1024 * 1024, "MB")
    } else {
        (1024 * 1024 * 1024, "GB")
    };
    let tenths = (bytes as u128 * 10 + div / 2) / div;
    proof {
        let b = bytes as int;
        let d = div as int;
        if b < 1024 {
            assert(tenths <= u64::MAX);
        } else {
            assert((b * 10 + d / 2) / d <= b) by (nonlinear_arith)
                requires
                    d >= 1024,
                    b >= 0,
            ;
        }
    }
    let t = tenths as u64;
    let mut r = String::new();
    crate::text::push_decimal(&mut r, t / 10);
    r.append(".");
    crate::text::push_decimal(&mut r, t % 10);
    r.append(" ");
    r.append(name);
    r
}

} // verus!
