use vstd::prelude::*;
use crate::helpers::format::clock_text;
use crate::helpers::text::{
    all_digits, chars_of, digit_value, digits_value, is_digit, lemma_digits_value_bound,
    lemma_padded_value, padded, parse_u64, parse_u64_range, pow10,
};

verus! {

/// `c` occurs in `s` at position `i` and nowhere before it.
pub open spec fn first_at(s: Seq<char>, c: char, i: int) -> bool {
    0 <= i < s.len() && s[i] == c && forall|j: int| 0 <= j < i ==> s[j] != c
}

/// `s` split around the first occurrence of `c` (the text before it and
/// the text after it), as `str::split_once` splits; `None` when `c` does not occur.
pub open spec fn split_once(s: Seq<char>, c: char) -> Option<(Seq<char>, Seq<char>)> {
    if exists|i: int| first_at(s, c, i) {
        let i = choose|i: int| first_at(s, c, i);
        Some((s.take(i), s.skip(i + 1)))
    } else {
        None
    }
}

/// Nanoseconds written by the digits after the decimal point: up to eight
/// digits are a fraction of a second, nine or more are taken as nanoseconds.
pub open spec fn subsecond_nanos(sub: Seq<char>) -> Option<nat> {
    if sub.len() == 0 {
        Some(0)
    } else {
        match parse_u64(sub) {
            Some(v) => if sub.len() <= 8 {
                Some((v as nat) * pow10((9 - sub.len()) as nat))
            } else {
                Some(v as nat)
            },
            None => None,
        }
    }
}

/// The time in nanoseconds written as `MIN:SEC.FRACTION`: the minutes
/// before the first `:`, the seconds up to the next `.`, the fraction after
/// it. `None` where the text does not have this form.
pub open spec fn time_text_nanos(t: Seq<char>) -> Option<nat> {
    match split_once(t, ':') {
        Some((min, rest)) => match split_once(rest, '.') {
            Some((sec, sub)) => match (parse_u64(min), parse_u64(sec), subsecond_nanos(sub)) {
                (Some(m), Some(s), Some(n)) => Some((m as nat) * 60_000_000_000 + (s as nat) * 1_000_000_000 + n),
                _ => None,
            },
            None => None,
        },
        None => None,
    }
}

proof fn lemma_first_unique(s: Seq<char>, c: char, i: int, j: int)
    requires
        first_at(s, c, i),
        first_at(s, c, j),
    ensures
        i == j,
{
    if i < j {
        assert(s[i] != c);
    }
    if j < i {
        assert(s[j] != c);
    }
}

/// Position of the first `c` in `cs` at or after `from`.
fn find_char_from(cs: &Vec<char>, from: usize, c: char) -> (r: Option<usize>)
    requires
        from <= cs@.len(),
    ensures
        match r {
            Some(i) => first_at(cs@.subrange(from as int, cs@.len() as int), c, i - from) && from
                <= i,
            None => !(exists|i: int| first_at(cs@.subrange(from as int, cs@.len() as int), c, i)),
        },
{
    let ghost s = cs@.subrange(from as int, cs@.len() as int);
    let mut i = from;
    while i < cs.len()
        invariant
            from <= i <= cs@.len(),
            s == cs@.subrange(from as int, cs@.len() as int),
            forall|j: int| 0 <= j < i - from ==> s[j] != c,
        decreases cs@.len() - i,
    {
        if cs[i] == c {
            assert(s[i - from] == c);
            return Some(i);
        }
        assert(s[i - from] != c);
        i = i + 1;
    }
    proof {
        if exists|k: int| first_at(s, c, k) {
            let k = choose|k: int| first_at(s, c, k);
            assert(s[k] != c);
        }
    }
    None
}

/// The form a time typed into the split table must have: `MM:SS.sss`,
/// minutes and seconds from `00` to `59`, then three digits of milliseconds.
pub open spec fn entry_form(s: Seq<char>) -> bool {
    &&& s.len() == 9
    &&& '0' <= s[0] <= '5'
    &&& is_digit(s[1])
    &&& s[2] == ':'
    &&& '0' <= s[3] <= '5'
    &&& is_digit(s[4])
    &&& s[5] == '.'
    &&& is_digit(s[6])
    &&& is_digit(s[7])
    &&& is_digit(s[8])
}

/// The time, in nanoseconds, that an entry of the form `MM:SS.sss` stands for.
pub open spec fn entry_nanos(s: Seq<char>) -> nat {
    (digit_value(s[0]) * 10 + digit_value(s[1])) * 60_000_000_000 + (digit_value(s[3]) * 10
        + digit_value(s[4])) * 1_000_000_000 + (digit_value(s[6]) * 100 + digit_value(s[7]) * 10
        + digit_value(s[8])) * 1_000_000
}

/// Whether `input` has the form `MM:SS.sss` that the split table accepts.
pub fn validate_split_table_entry(input: &str) -> (b: bool)
    ensures
        b == entry_form(input@),
{
    let cs = chars_of(input);
    if cs.len() != 9 {
        return false;
    }
    let digit = |c: char| -> (b: bool)
        ensures
            b == is_digit(c),
        { '0' <= c && c <= '9' };
    ('0' <= cs[0] && cs[0] <= '5') && digit(cs[1]) && cs[2] == ':' && ('0' <= cs[3] && cs[3] <= '5')
        && digit(cs[4]) && cs[5] == '.' && digit(cs[6]) && digit(cs[7]) && digit(cs[8])
}

proof fn lemma_digits_parse(s: Seq<char>)
    requires
        1 <= s.len() <= 3,
        all_digits(s),
    ensures
        parse_u64(s) == Some(digits_value(s) as u64),
        s.len() == 2 ==> digits_value(s) == digit_value(s[0]) * 10 + digit_value(s[1]),
        s.len() == 3 ==> digits_value(s) == digit_value(s[0]) * 100 + digit_value(s[1]) * 10
            + digit_value(s[2]),
{
    assert(is_digit(s[0]));
    lemma_digits_value_bound(s);
    lemma_pow10_values();
    reveal_with_fuel(digits_value, 4);
    if s.len() == 2 {
        assert(s.drop_last() =~= seq![s[0]]);
        assert(seq![s[0]].drop_last() =~= Seq::<char>::empty());
    }
    if s.len() == 3 {
        assert(s.drop_last() =~= seq![s[0], s[1]]);
        assert(seq![s[0], s[1]].drop_last() =~= seq![s[0]]);
        assert(seq![s[0]].drop_last() =~= Seq::<char>::empty());
    }
}

/// A time that passes `validate_split_table_entry` reads, by
/// `string_to_nseconds`, as its minutes, seconds and milliseconds, which
/// stay under an hour.
pub proof fn lemma_valid_entry_parses(s: Seq<char>)
    requires
        entry_form(s),
    ensures
        time_text_nanos(s) == Some(entry_nanos(s)),
        entry_nanos(s) < 3_600_000_000_000,
{
    let mm = s.take(2);
    let rest = s.skip(3);
    let ss = rest.take(2);
    let ms = rest.skip(3);
    assert(first_at(s, ':', 2));
    let k = choose|k: int| first_at(s, ':', k);
    lemma_first_unique(s, ':', k, 2);
    assert(rest[2] == '.');
    assert(first_at(rest, '.', 2));
    let k2 = choose|k: int| first_at(rest, '.', k);
    lemma_first_unique(rest, '.', k2, 2);
    assert(mm =~= seq![s[0], s[1]]);
    assert(ss =~= seq![s[3], s[4]]);
    assert(ms =~= seq![s[6], s[7], s[8]]);
    lemma_digits_parse(mm);
    lemma_digits_parse(ss);
    lemma_digits_parse(ms);
    lemma_pow10_values();
    assert(subsecond_nanos(ms) == Some(digits_value(ms) * 1_000_000));
}

/// Reads a time written as `MM:SS.sss` (minutes, seconds and a fraction of
/// a second) and returns it in nanoseconds.
///
/// The text must have that form, with numbers that `u64::from_str` accepts
/// and a total that fits in a `u64`.
pub fn string_to_nseconds(time: &String) -> (r: Option<u64>)
    requires
        time_text_nanos(time@) is Some,
        time_text_nanos(time@).unwrap() <= u64::MAX,
    ensures
        r == Some(time_text_nanos(time@).unwrap() as u64),
{
    let cs = chars_of(time.as_str());
    let n = cs.len();
    let ghost t = time@;
    assert(cs@.subrange(0, n as int) =~= t);
    let colon = match find_char_from(&cs, 0, ':') {
        Some(i) => i,
        None => {
            assert(false);
            return None;
        },
    };
    let ghost rest = t.skip(colon + 1);
    proof {
        let k = choose|k: int| first_at(t, ':', k);
        lemma_first_unique(t, ':', k, colon as int);
        assert(cs@.subrange(colon + 1, n as int) =~= rest);
    }
    let dot = match find_char_from(&cs, colon + 1, '.') {
        Some(i) => i,
        None => {
            assert(false);
            return None;
        },
    };
    let ghost min = t.take(colon as int);
    let ghost sec = rest.take(dot - colon - 1);
    let ghost sub = rest.skip(dot - colon);
    proof {
        let k = choose|k: int| first_at(rest, '.', k);
        lemma_first_unique(rest, '.', k, dot - colon - 1);
        assert(cs@.subrange(0, colon as int) =~= min);
        assert(cs@.subrange(colon + 1, dot as int) =~= sec);
        assert(cs@.subrange(dot + 1, n as int) =~= sub);
    }
    let minutes = match parse_u64_range(&cs, 0, colon) {
        Some(v) => v,
        None => {
            assert(false);
            return None;
        },
    };
    let seconds = match parse_u64_range(&cs, colon + 1, dot) {
        Some(v) => v,
        None => {
            assert(false);
            return None;
        },
    };
    let nanos = subsecond_nanos_of(&cs, dot + 1);
    Some(minutes * 60 * 1_000_000_000 + seconds * 1_000_000_000 + nanos)
}

proof fn lemma_pow10_values()
    ensures
        pow10(0) == 1,
        pow10(1) == 10,
        pow10(2) == 100,
        pow10(3) == 1_000,
        pow10(4) == 10_000,
        pow10(5) == 100_000,
        pow10(6) == 1_000_000,
        pow10(7) == 10_000_000,
        pow10(8) == 100_000_000,
        pow10(9) == 1_000_000_000,
{
    reveal_with_fuel(pow10, 10);
}

/// Nanoseconds written by the fraction `cs[from..]`.
fn subsecond_nanos_of(cs: &Vec<char>, from: usize) -> (r: u64)
    requires
        from <= cs@.len(),
        subsecond_nanos(cs@.subrange(from as int, cs@.len() as int)) is Some,
    ensures
        subsecond_nanos(cs@.subrange(from as int, cs@.len() as int)) == Some(r as nat),
{
    let n = cs.len();
    let ghost sub = cs@.subrange(from as int, n as int);
    let sub_len = n - from;
    if sub_len == 0 {
        return 0;
    }
    let v = match parse_u64_range(cs, from, n) {
        Some(v) => v,
        None => {
            assert(false);
            return 0;
        },
    };
    proof {
        let body = if sub.len() > 0 && sub[0] == '+' {
            sub.drop_first()
        } else {
            sub
        };
        lemma_digits_value_bound(body);
        lemma_pow10_monotone(body.len(), sub.len());
        lemma_pow10_values();
    }
    if sub_len == 1 {
        v * 100_000_000
    } else if sub_len == 2 {
        v * 10_000_000
    } else if sub_len == 3 {
        v * 1_000_000
    } else if sub_len == 4 {
        v * 100_000
    } else if sub_len == 5 {
        v * 10_000
    } else if sub_len == 6 {
        v * 1_000
    } else if sub_len == 7 {
        v * 100
    } else if sub_len == 8 {
        v * 10
    } else {
        v
    }
}

proof fn lemma_pow10_monotone(a: nat, b: nat)
    requires
        a <= b,
    ensures
        pow10(a) <= pow10(b),
    decreases b - a,
{
    if a < b {
        lemma_pow10_monotone(a, (b - 1) as nat);
    }
}

proof fn lemma_parse_padded(x: nat, w: nat)
    requires
        w > 0,
        x < pow10(w),
        x <= u64::MAX,
    ensures
        parse_u64(padded(x, w)) == Some(x as u64),
        padded(x, w).len() == w,
        forall|i: int| 0 <= i < w ==> is_digit(#[trigger] padded(x, w)[i]),
{
    lemma_padded_value(x, w);
}

/// Reading back the text that `format_clock` shows for a time under one hour
/// gives that time, cut to whole milliseconds.
pub proof fn lemma_parse_formatted_clock(time: u64)
    requires
        time < 3_600_000_000_000,
    ensures
        time_text_nanos(clock_text(time)) == Some((time - time % 1_000_000) as nat),
{
    let secs = time / 1_000_000_000;
    let ns = time % 1_000_000_000;
    let m = ((secs / 60) % 60) as nat;
    let s = (secs % 60) as nat;
    let ms = (ns / 1_000_000) as nat;
    assert(secs < 3600);
    assert(secs / 3600 == 0);
    assert(m < 60 && s < 60 && ms < 1000);
    lemma_pow10_values();
    lemma_parse_padded(m, 2);
    lemma_parse_padded(s, 2);
    lemma_parse_padded(ms, 3);
    let pm = padded(m, 2);
    let ps = padded(s, 2);
    let pms = padded(ms, 3);
    let text = clock_text(time);
    assert(text =~= pm + seq![':'] + ps + seq!['.'] + pms);
    assert(text[0] == pm[0] && text[1] == pm[1] && text[2] == ':');
    assert(is_digit(pm[0]) && is_digit(pm[1]));
    assert(first_at(text, ':', 2));
    let k = choose|k: int| first_at(text, ':', k);
    lemma_first_unique(text, ':', k, 2);
    let rest = text.skip(3);
    assert(text.take(2) =~= pm);
    assert(rest =~= ps + seq!['.'] + pms);
    assert(rest[0] == ps[0] && rest[1] == ps[1] && rest[2] == '.');
    assert(is_digit(ps[0]) && is_digit(ps[1]));
    assert(first_at(rest, '.', 2));
    let k2 = choose|k: int| first_at(rest, '.', k);
    lemma_first_unique(rest, '.', k2, 2);
    assert(rest.take(2) =~= ps);
    assert(rest.skip(3) =~= pms);
    assert(subsecond_nanos(pms) == Some(ms * 1_000_000));
    assert(secs / 60 < 60);
    assert(m == secs / 60);
    assert(time == secs * 1_000_000_000 + ns);
    assert(ns == ms * 1_000_000 + ns % 1_000_000);
    assert(time % 1_000_000 == ns % 1_000_000) by (nonlinear_arith)
        requires
            time == secs * 1_000_000_000 + ns,
            ns < 1_000_000_000,
    {
    }
    assert(secs == m * 60 + s);
}

/// A time written as `MIN:SEC.FRACTION` in digits reads as its parts:
/// `split_once` finds the `:` after the minutes and the `.` after the seconds.
proof fn lemma_time_text_parts(min: Seq<char>, sec: Seq<char>, f: Seq<char>)
    requires
        all_digits(min),
        all_digits(sec),
        all_digits(f),
    ensures
        time_text_nanos(min + seq![':'] + sec + seq!['.'] + f) == match (
            parse_u64(min),
            parse_u64(sec),
            subsecond_nanos(f),
        ) {
            (Some(m), Some(s), Some(n)) => Some((m as nat) * 60_000_000_000 + (s as nat) * 1_000_000_000 + n),
            _ => None,
        },
{
    let t = min + seq![':'] + sec + seq!['.'] + f;
    let a = min.len() as int;
    assert(t[a] == ':');
    assert forall|j: int| 0 <= j < a implies t[j] != ':' by {
        assert(t[j] == min[j]);
        assert(is_digit(min[j]));
    }
    assert(first_at(t, ':', a));
    let k = choose|k: int| first_at(t, ':', k);
    lemma_first_unique(t, ':', k, a);
    assert(t.take(a) =~= min);
    let rest = t.skip(a + 1);
    assert(rest =~= sec + seq!['.'] + f);
    let b = sec.len() as int;
    assert(rest[b] == '.');
    assert forall|j: int| 0 <= j < b implies rest[j] != '.' by {
        assert(rest[j] == sec[j]);
        assert(is_digit(sec[j]));
    }
    assert(first_at(rest, '.', b));
    let k2 = choose|k: int| first_at(rest, '.', k);
    lemma_first_unique(rest, '.', k2, b);
    assert(rest.take(b) =~= sec);
    assert(rest.skip(b + 1) =~= f);
}

/// Digits after the decimal point are a fraction of a second: `k` digits
/// (one to eight) writing the number `v` stand for `v * 10^(9 - k)`
/// nanoseconds, added to the minutes and seconds.
pub proof fn lemma_fraction_is_part_of_a_second(min: Seq<char>, sec: Seq<char>, f: Seq<char>)
    requires
        min.len() > 0,
        sec.len() > 0,
        all_digits(min),
        all_digits(sec),
        all_digits(f),
        1 <= f.len() <= 8,
        digits_value(min) <= u64::MAX,
        digits_value(sec) <= u64::MAX,
    ensures
        time_text_nanos(min + seq![':'] + sec + seq!['.'] + f) == Some(
            digits_value(min) * 60_000_000_000 + digits_value(sec) * 1_000_000_000 + digits_value(f) * pow10(
                (9 - f.len()) as nat,
            ),
        ),
{
    lemma_time_text_parts(min, sec, f);
    assert(is_digit(min[0]) && is_digit(sec[0]) && is_digit(f[0]));
    lemma_digits_value_bound(f);
    lemma_pow10_monotone(f.len(), 8);
    lemma_pow10_values();
}

/// Trailing zeros of the fraction do not change the time: `0:01.25` and
/// `0:01.2500` are the same time, for fractions of up to eight digits.
pub proof fn lemma_fraction_trailing_zero(min: Seq<char>, sec: Seq<char>, f: Seq<char>)
    requires
        all_digits(min),
        all_digits(sec),
        all_digits(f),
        1 <= f.len() <= 7,
    ensures
        time_text_nanos(min + seq![':'] + sec + seq!['.'] + f.push('0')) == time_text_nanos(
            min + seq![':'] + sec + seq!['.'] + f,
        ),
{
    let g = f.push('0');
    assert(all_digits(g)) by {
        assert forall|i: int| 0 <= i < g.len() implies is_digit(#[trigger] g[i]) by {
            if i < f.len() {
                assert(g[i] == f[i]);
            }
        }
    }
    lemma_time_text_parts(min, sec, f);
    lemma_time_text_parts(min, sec, g);
    assert(g.drop_last() =~= f);
    assert(digits_value(g) == digits_value(f) * 10);
    assert(is_digit(f[0]) && is_digit(g[0]));
    lemma_digits_value_bound(f);
    lemma_digits_value_bound(g);
    lemma_pow10_monotone(g.len(), 8);
    lemma_pow10_values();
    let k = f.len();
    assert(pow10((9 - k) as nat) == 10 * pow10((9 - k - 1) as nat));
    assert(digits_value(g) * pow10((9 - g.len()) as nat) == digits_value(f) * pow10((9 - k) as nat)) by (nonlinear_arith)
        requires
            digits_value(g) == digits_value(f) * 10,
            pow10((9 - k) as nat) == 10 * pow10((9 - g.len()) as nat),
    {
    }
}

/// Nine or more digits after the decimal point are taken as a number of
/// nanoseconds, added to the minutes and seconds.
pub proof fn lemma_long_fraction_is_nanoseconds(min: Seq<char>, sec: Seq<char>, f: Seq<char>)
    requires
        min.len() > 0,
        sec.len() > 0,
        all_digits(min),
        all_digits(sec),
        all_digits(f),
        f.len() >= 9,
        digits_value(min) <= u64::MAX,
        digits_value(sec) <= u64::MAX,
        digits_value(f) <= u64::MAX,
    ensures
        time_text_nanos(min + seq![':'] + sec + seq!['.'] + f) == Some(
            digits_value(min) * 60_000_000_000 + digits_value(sec) * 1_000_000_000 + digits_value(f),
        ),
{
    lemma_time_text_parts(min, sec, f);
    assert(is_digit(min[0]) && is_digit(sec[0]) && is_digit(f[0]));
}

} // verus!
