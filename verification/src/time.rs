//! TTML clock values: parsing `begin`/`end` attributes into milliseconds and
//! rendering milliseconds back into the compact TTML notation.

use vstd::prelude::*;

use crate::text::{chars_of, push_str, push_char, push_decimal, push_decimal_padded, decimal, decimal_padded, digit_char, zero_pad, lemma_decimal_len};
use crate::types::ConvertError;

verus! {

// ---------------------------------------------------------------------------
// Grammar of clock values
// ---------------------------------------------------------------------------

/// An ASCII decimal digit.
pub open spec fn is_digit(c: char) -> bool {
    '0' <= c && c <= '9'
}

/// The value of an ASCII digit.
pub open spec fn digit_value(c: char) -> nat {
    (c as int - '0' as int) as nat
}

/// Every character of `s` is an ASCII digit.
pub open spec fn all_digits(s: Seq<char>) -> bool {
    forall|i: int| 0 <= i < s.len() ==> is_digit(#[trigger] s[i])
}

/// The number written by the decimal digits `s` (zero for the empty text).
pub open spec fn digits_value(s: Seq<char>) -> nat
    decreases s.len(),
{
    if s.len() == 0 {
        0
    } else {
        digits_value(s.drop_last()) * 10 + digit_value(s.last())
    }
}

/// What `u64::from_str` accepts: an optional `+` followed by at least one
/// digit, with a value that fits in 64 bits.
pub open spec fn parse_u64_spec(s: Seq<char>) -> Option<nat> {
    let body = if s.len() > 0 && s[0] == '+' {
        s.drop_first()
    } else {
        s
    };
    if body.len() > 0 && all_digits(body) && digits_value(body) <= u64::MAX {
        Some(digits_value(body))
    } else {
        None
    }
}

/// The fractional part of a second: one to three digits, scaled to milliseconds
/// (`"1"` is 100, `"12"` is 120, `"123"` is 123).
pub open spec fn ms_fraction(s: Seq<char>) -> Option<nat> {
    if 1 <= s.len() <= 3 && all_digits(s) {
        if s.len() == 1 {
            Some(digits_value(s) * 100)
        } else if s.len() == 2 {
            Some(digits_value(s) * 10)
        } else {
            Some(digits_value(s))
        }
    } else {
        None
    }
}

/// The position of the first occurrence of `c` in `s`.
pub open spec fn index_of(s: Seq<char>, c: char) -> Option<nat>
    decreases s.len(),
{
    if s.len() == 0 {
        None
    } else if s[0] == c {
        Some(0)
    } else {
        match index_of(s.drop_first(), c) {
            Some(i) => Some(i + 1),
            None => None,
        }
    }
}

/// `"SS"` or `"SS.f"`: whole seconds, then an optional fraction after the first dot.
/// Yields the seconds and the milliseconds of the fraction.
pub open spec fn seconds_part(s: Seq<char>) -> Option<(nat, nat)> {
    match index_of(s, '.') {
        None => match parse_u64_spec(s) {
            Some(sec) => Some((sec, 0)),
            None => None,
        },
        Some(i) => {
            let whole = s.take(i as int);
            let frac = s.skip(i as int + 1);
            match (parse_u64_spec(whole), ms_fraction(frac)) {
                (Some(sec), Some(ms)) => Some((sec, ms)),
                _ => None,
            }
        },
    }
}

/// `s` cut at every occurrence of `sep` (as `str::split`): always at least one part.
pub open spec fn split_on(s: Seq<char>, sep: char) -> Seq<Seq<char>>
    decreases s.len(),
{
    if s.len() == 0 {
        seq![Seq::<char>::empty()]
    } else {
        let p = split_on(s.drop_last(), sep);
        if s.last() == sep {
            p.push(Seq::<char>::empty())
        } else {
            p.update(p.len() - 1, p.last().push(s.last()))
        }
    }
}

/// The number of milliseconds a TTML clock value denotes, if it is well formed:
/// `"S.fs"`/`"Ss"` (any number of seconds, in seconds notation), `"S.f"`/`"S"`,
/// `"M:S.f"` or `"H:M:S.f"` (minutes and, in the last two, seconds below 60).
pub open spec fn ttml_time_value(s: Seq<char>) -> Option<nat> {
    if s.len() > 0 && s.last() == 's' {
        match seconds_part(s.drop_last()) {
            Some((sec, ms)) => Some(sec * 1000 + ms),
            None => None,
        }
    } else {
        let parts = split_on(s, ':');
        let n = parts.len();
        if n > 3 {
            None
        } else {
            match seconds_part(parts[n - 1]) {
                None => None,
                Some((sec, ms)) => {
                    if n > 1 && sec >= 60 {
                        None
                    } else if n == 1 {
                        Some(sec * 1000 + ms)
                    } else {
                        match parse_u64_spec(parts[n - 2]) {
                            None => None,
                            Some(min) => if min >= 60 {
                                None
                            } else if n == 2 {
                                Some(min * 60000 + sec * 1000 + ms)
                            } else {
                                match parse_u64_spec(parts[0]) {
                                    None => None,
                                    Some(h) => Some(h * 3600000 + min * 60000 + sec * 1000 + ms),
                                }
                            },
                        }
                    }
                },
            }
        }
    }
}

// ---------------------------------------------------------------------------
// Parsing
// ---------------------------------------------------------------------------

/// A longer run of digits never has a smaller value.
pub proof fn lemma_digits_value_prefix(s: Seq<char>, k: int)
    requires
        0 <= k <= s.len(),
    ensures
        digits_value(s.take(k)) <= digits_value(s),
    decreases s.len() - k,
{
    if k < s.len() {
        lemma_digits_value_prefix(s, k + 1);
        assert(s.take(k + 1).drop_last() =~= s.take(k));
    } else {
        assert(s.take(k) =~= s);
    }
}

/// `u64::from_str` on `v[lo..hi]`.
pub fn parse_u64_range(v: &Vec<char>, lo: usize, hi: usize) -> (r: Option<u64>)
    requires
        lo <= hi <= v.len(),
    ensures
        r is Some <==> parse_u64_spec(v@.subrange(lo as int, hi as int)) is Some,
        r is Some ==> r.unwrap() as nat == parse_u64_spec(v@.subrange(lo as int, hi as int)).unwrap(),
{
    let ghost s = v@.subrange(lo as int, hi as int);
    let mut start = lo;
    if lo < hi && v[lo] == '+' {
        start = lo + 1;
    }
    let ghost body = v@.subrange(start as int, hi as int);
    assert(body =~= (if s.len() > 0 && s[0] == '+' { s.drop_first() } else { s }));
    if start == hi {
        return None;
    }
    let mut acc: u64 = 0;
    let mut i = start;
    while i < hi
        invariant
            lo <= start <= i <= hi <= v.len(),
            s == v@.subrange(lo as int, hi as int),
            body == v@.subrange(start as int, hi as int),
            body == (if s.len() > 0 && s[0] == '+' { s.drop_first() } else { s }),
            forall|j: int| start <= j < i ==> is_digit(#[trigger] v@[j]),
            acc as nat == digits_value(v@.subrange(start as int, i as int)),
        decreases hi - i,
    {
        let c = v[i];
        if !('0' <= c && c <= '9') {
            assert(body[i - start] == c);
            return None;
        }
        let d = (c as u32 - '0' as u32) as u64;
        let ghost next = v@.subrange(start as int, i + 1);
        assert(next.drop_last() =~= v@.subrange(start as int, i as int));
        assert(next.last() == c);
        if acc > (u64::MAX - d) / 10 {
            proof {
                assert(digits_value(next) == acc * 10 + d);
                assert(acc * 10 + d > u64::MAX) by (nonlinear_arith)
                    requires acc > (u64::MAX - d) / 10, d <= 9;
                assert(body.take((i + 1 - start) as int) =~= next);
                lemma_digits_value_prefix(body, (i + 1 - start) as int);
            }
            return None;
        }
        assert(acc * 10 + d <= u64::MAX) by (nonlinear_arith)
            requires acc <= (u64::MAX - d) / 10, d <= 9;
        acc = acc * 10 + d;
        i = i + 1;
    }
    assert(all_digits(body));
    Some(acc)
}

/// The fraction of a second written by `v[lo..hi]`.
pub fn ms_fraction_range(v: &Vec<char>, lo: usize, hi: usize) -> (r: Option<u64>)
    requires
        lo <= hi <= v.len(),
    ensures
        r is Some <==> ms_fraction(v@.subrange(lo as int, hi as int)) is Some,
        r is Some ==> r.unwrap() as nat == ms_fraction(v@.subrange(lo as int, hi as int)).unwrap(),
{
    let ghost s = v@.subrange(lo as int, hi as int);
    if hi - lo < 1 || hi - lo > 3 {
        return None;
    }
    let mut i = lo;
    while i < hi
        invariant
            lo <= i <= hi <= v.len(),
            s == v@.subrange(lo as int, hi as int),
            hi - lo <= 3,
            forall|j: int| lo <= j < i ==> is_digit(#[trigger] v@[j]),
        decreases hi - i,
    {
        if !('0' <= v[i] && v[i] <= '9') {
            assert(s[i - lo] == v@[i as int]);
            return None;
        }
        i = i + 1;
    }
    assert(all_digits(s));
    proof {
        lemma_digits_bound(s);
        assert(is_digit(s[0]));
    }
    let r = parse_u64_range(v, lo, hi);
    assert(parse_u64_spec(s) == Some(digits_value(s)));
    let n = r.unwrap();
    if hi - lo == 1 {
        Some(n * 100)
    } else if hi - lo == 2 {
        Some(n * 10)
    } else {
        Some(n)
    }
}

/// Up to three digits make a number below one thousand.
pub proof fn lemma_digits_bound(s: Seq<char>)
    requires
        all_digits(s),
        s.len() <= 3,
    ensures
        digits_value(s) < 1000,
        s.len() <= 2 ==> digits_value(s) < 100,
        s.len() <= 1 ==> digits_value(s) < 10,
    decreases s.len(),
{
    if s.len() > 0 {
        assert(all_digits(s.drop_last()));
        lemma_digits_bound(s.drop_last());
        assert(is_digit(s.last()));
    }
}

/// The first index in `lo..hi` holding `c`, relative to `lo`.
pub fn find_char(v: &Vec<char>, lo: usize, hi: usize, c: char) -> (r: Option<usize>)
    requires
        lo <= hi <= v.len(),
    ensures
        match index_of(v@.subrange(lo as int, hi as int), c) {
            Some(i) => r == Some((lo + i) as usize) && lo + i < hi,
            None => r is None,
        },
{
    let mut i = lo;
    while i < hi
        invariant
            lo <= i <= hi <= v.len(),
            index_of(v@.subrange(lo as int, hi as int), c) == match index_of(
                v@.subrange(i as int, hi as int),
                c,
            ) {
                Some(k) => Some((k + (i - lo)) as nat),
                None => None,
            },
        decreases hi - i,
    {
        assert(v@.subrange(i as int, hi as int).drop_first() =~= v@.subrange(i + 1, hi as int));
        assert(v@.subrange(i as int, hi as int)[0] == v@[i as int]);
        if v[i] == c {
            return Some(i);
        }
        i = i + 1;
    }
    assert(v@.subrange(hi as int, hi as int).len() == 0);
    None
}

/// Whole seconds and milliseconds written by `v[lo..hi]` (`"SS"` or `"SS.f"`).
pub fn seconds_part_range(v: &Vec<char>, lo: usize, hi: usize) -> (r: Option<(u64, u64)>)
    requires
        lo <= hi <= v.len(),
    ensures
        r is Some <==> seconds_part(v@.subrange(lo as int, hi as int)) is Some,
        r is Some ==> r.unwrap().0 as nat == seconds_part(v@.subrange(lo as int, hi as int)).unwrap().0,
        r is Some ==> r.unwrap().1 as nat == seconds_part(v@.subrange(lo as int, hi as int)).unwrap().1,
{
    let ghost s = v@.subrange(lo as int, hi as int);
    match find_char(v, lo, hi, '.') {
        None => match parse_u64_range(v, lo, hi) {
            Some(sec) => Some((sec, 0)),
            None => None,
        },
        Some(dot) => {
            assert(s.take(dot - lo) =~= v@.subrange(lo as int, dot as int));
            assert(s.skip(dot - lo + 1) =~= v@.subrange(dot + 1, hi as int));
            let sec = parse_u64_range(v, lo, dot);
            let ms = ms_fraction_range(v, dot + 1, hi);
            match (sec, ms) {
                (Some(a), Some(b)) => Some((a, b)),
                _ => None,
            }
        },
    }
}

/// `st[k]..en[k]` are the bounds of the parts of `v.take(i)` cut at `sep`.
pub open spec fn ranges_match(v: Seq<char>, st: Seq<usize>, en: Seq<usize>, i: int, sep: char) -> bool {
    &&& st.len() == en.len() == split_on(v.take(i), sep).len()
    &&& st.len() >= 1
    &&& en.last() == i
    &&& forall|k: int| 0 <= k < st.len() ==> #[trigger] part_match(v, st, en, i, sep, k)
}

/// Part `k` of `v.take(i)` cut at `sep` is `v[st[k]..en[k]]`.
pub open spec fn part_match(v: Seq<char>, st: Seq<usize>, en: Seq<usize>, i: int, sep: char, k: int) -> bool {
    st[k] <= en[k] <= i && v.subrange(st[k] as int, en[k] as int) == split_on(v.take(i), sep)[k]
}

/// Extending the scanned prefix by one character keeps the part bounds exact.
pub proof fn lemma_ranges_step(v: Seq<char>, st: Seq<usize>, en: Seq<usize>, i: int, sep: char)
    requires
        ranges_match(v, st, en, i, sep),
        0 <= i < v.len(),
        i + 1 <= usize::MAX,
    ensures
        v[i] == sep ==> ranges_match(v, st.push((i + 1) as usize), en.push((i + 1) as usize), i + 1, sep),
        v[i] != sep ==> ranges_match(v, st, en.update(en.len() - 1, (i + 1) as usize), i + 1, sep),
{
    let cur = v.take(i + 1);
    let p = split_on(v.take(i), sep);
    assert(cur.drop_last() =~= v.take(i));
    assert(cur.last() == v[i]);
    let last = st.len() - 1;
    if v[i] == sep {
        let st2 = st.push((i + 1) as usize);
        let en2 = en.push((i + 1) as usize);
        assert(split_on(cur, sep) == p.push(Seq::<char>::empty()));
        assert(v.subrange(i + 1, i + 1) =~= Seq::<char>::empty());
        assert forall|k: int| 0 <= k < st2.len() implies #[trigger] part_match(v, st2, en2, i + 1, sep, k) by {
            if k < st.len() {
                assert(part_match(v, st, en, i, sep, k));
                assert(st2[k] == st[k]);
                assert(en2[k] == en[k]);
                assert(split_on(cur, sep)[k] == p[k]);
            } else {
                assert(k == st.len());
                assert(st2[k] == i + 1);
                assert(en2[k] == i + 1);
                assert(split_on(cur, sep)[k] == Seq::<char>::empty());
            }
        }
        assert(en2.last() == i + 1);
        assert(ranges_match(v, st2, en2, i + 1, sep));
    } else {
        let en2 = en.update(last, (i + 1) as usize);
        assert(part_match(v, st, en, i, sep, last));
        assert(st[last] <= i);
        assert(v.subrange(st[last] as int, i + 1) =~= v.subrange(st[last] as int, i).push(v[i]));
        assert(split_on(cur, sep) == p.update(p.len() - 1, p.last().push(v[i])));
        assert(part_match(v, st, en, i, sep, last));
        assert forall|k: int| 0 <= k < st.len() implies #[trigger] part_match(v, st, en2, i + 1, sep, k) by {
            assert(part_match(v, st, en, i, sep, k));
            if k < last {
                assert(en2[k] == en[k]);
                assert(split_on(cur, sep)[k] == p[k]);
            } else {
                assert(k == last);
                assert(en[last] == i);
                assert(v.subrange(st[last] as int, en[last] as int) == p[last]);
                assert(split_on(cur, sep)[k] == p[last].push(v[i]));
            }
        }
        assert(en2.last() == i + 1);
        assert(ranges_match(v, st, en2, i + 1, sep));
    }
}

/// The boundaries of the parts of `v[..hi]` separated by `sep`: part `k` is
/// `v[starts[k]..ends[k]]`.
pub fn split_ranges(v: &Vec<char>, hi: usize, sep: char) -> (r: (Vec<usize>, Vec<usize>))
    requires
        hi <= v.len(),
    ensures
        ranges_match(v@, r.0@, r.1@, hi as int, sep),
{
    let mut starts: Vec<usize> = Vec::new();
    let mut ends: Vec<usize> = Vec::new();
    starts.push(0);
    ends.push(0);
    assert(v@.take(0) =~= Seq::<char>::empty());
    assert(split_on(v@.take(0), sep) =~= seq![Seq::<char>::empty()]);
    assert(v@.subrange(0, 0) =~= Seq::<char>::empty());
    let mut i: usize = 0;
    while i < hi
        invariant
            i <= hi <= v.len(),
            ranges_match(v@, starts@, ends@, i as int, sep),
        decreases hi - i,
    {
        proof {
            lemma_ranges_step(v@, starts@, ends@, i as int, sep);
        }
        if v[i] == sep {
            starts.push(i + 1);
            ends.push(i + 1);
        } else {
            let last = ends.len() - 1;
            ends.set(last, i + 1);
        }
        i = i + 1;
    }
    (starts, ends)
}

/// Parses a TTML clock value into milliseconds.
///
/// Accepted forms: `"12.345s"` (seconds notation, any number of seconds),
/// `"12.345"`, `"MM:SS.mmm"` and `"HH:MM:SS.mmm"`; the fraction has one to
/// three digits, minutes and (with a colon) seconds are below 60. Anything
/// else, and any value beyond the range of `u64`, is `InvalidTime`.
pub fn parse_ttml_time_to_ms(time_str: &str) -> (r: Result<u64, ConvertError>)
    ensures
        match ttml_time_value(time_str@) {
            Some(ms) => if ms <= u64::MAX {
                r == Ok::<u64, ConvertError>(ms as u64)
            } else {
                r matches Err(ConvertError::InvalidTime(_))
            },
            None => r matches Err(ConvertError::InvalidTime(_)),
        },
{
    let v = chars_of(time_str);
    let n = v.len();
    assert(v@.subrange(0, n as int) =~= v@);
    if n > 0 && v[n - 1] == 's' {
        assert(v@.subrange(0, n - 1) =~= v@.drop_last());
        match seconds_part_range(&v, 0, n - 1) {
            Some((sec, ms)) => {
                if sec > (u64::MAX - ms) / 1000 {
                    assert(sec * 1000 + ms > u64::MAX) by (nonlinear_arith)
                        requires sec > (u64::MAX - ms) / 1000, ms <= u64::MAX;
                    return Err(invalid_time(time_str));
                }
                assert(sec * 1000 + ms <= u64::MAX) by (nonlinear_arith)
                    requires sec <= (u64::MAX - ms) / 1000, ms <= u64::MAX;
                Ok(sec * 1000 + ms)
            },
            None => Err(invalid_time(time_str)),
        }
    } else {
        let (starts, ends) = split_ranges(&v, n, ':');
        let ghost parts = split_on(v@, ':');
        assert(v@.take(n as int) =~= v@);
        let k = starts.len();
        proof {
            lemma_split_nonempty(v@, ':');
        }
        if k > 3 {
            return Err(invalid_time(time_str));
        }
        assert(part_match(v@, starts@, ends@, n as int, ':', k - 1));
        assert(parts[k - 1] == v@.subrange(starts[k - 1] as int, ends[k - 1] as int));
        let (sec, ms) = match seconds_part_range(&v, starts[k - 1], ends[k - 1]) {
            Some(p) => p,
            None => {
                return Err(invalid_time(time_str));
            },
        };
        if k > 1 && sec >= 60 {
            return Err(invalid_time(time_str));
        }
        if k == 1 {
            if sec > (u64::MAX - ms) / 1000 {
                assert(sec * 1000 + ms > u64::MAX) by (nonlinear_arith)
                    requires sec > (u64::MAX - ms) / 1000, ms <= u64::MAX;
                return Err(invalid_time(time_str));
            }
            assert(sec * 1000 + ms <= u64::MAX) by (nonlinear_arith)
                requires sec <= (u64::MAX - ms) / 1000, ms <= u64::MAX;
            return Ok(sec * 1000 + ms);
        }
        assert(part_match(v@, starts@, ends@, n as int, ':', k - 2));
        assert(parts[k - 2] == v@.subrange(starts[k - 2] as int, ends[k - 2] as int));
        let min = match parse_u64_range(&v, starts[k - 2], ends[k - 2]) {
            Some(m) => m,
            None => {
                return Err(invalid_time(time_str));
            },
        };
        if min >= 60 {
            return Err(invalid_time(time_str));
        }
        proof {
            lemma_fraction_bound(v@.subrange(starts[k - 1] as int, ends[k - 1] as int));
        }
        let small = min * 60000 + sec * 1000 + ms;
        if k == 2 {
            return Ok(small);
        }
        assert(part_match(v@, starts@, ends@, n as int, ':', 0));
        assert(parts[0] == v@.subrange(starts[0] as int, ends[0] as int));
        let h = match parse_u64_range(&v, starts[0], ends[0]) {
            Some(h) => h,
            None => {
                return Err(invalid_time(time_str));
            },
        };
        if h > (u64::MAX - small) / 3600000 {
            assert(h * 3600000 + small > u64::MAX) by (nonlinear_arith)
                requires h > (u64::MAX - small) / 3600000, small <= u64::MAX;
            return Err(invalid_time(time_str));
        }
        assert(h * 3600000 + small <= u64::MAX) by (nonlinear_arith)
            requires h <= (u64::MAX - small) / 3600000, small <= u64::MAX;
        Ok(h * 3600000 + small)
    }
}

/// The milliseconds of a fraction are below one thousand.
pub proof fn lemma_fraction_bound(s: Seq<char>)
    ensures
        seconds_part(s) matches Some((_, ms)) ==> ms < 1000,
{
    match index_of(s, '.') {
        Some(i) => {
            let frac = s.skip(i as int + 1);
            if 1 <= frac.len() <= 3 && all_digits(frac) {
                lemma_digits_bound(frac);
            }
        },
        None => {},
    }
}

/// `str::split` yields at least one part.
pub proof fn lemma_split_nonempty(s: Seq<char>, sep: char)
    ensures
        split_on(s, sep).len() >= 1,
    decreases s.len(),
{
    if s.len() > 0 {
        lemma_split_nonempty(s.drop_last(), sep);
    }
}

/// The error for a malformed clock value, naming the offending text.
fn invalid_time(time_str: &str) -> (e: ConvertError)
    ensures
        e matches ConvertError::InvalidTime(m) && m@ == "invalid TTML time value: "@ + time_str@,
{
    let mut msg = String::from_str("invalid TTML time value: ");
    push_str(&mut msg, time_str);
    ConvertError::InvalidTime(msg)
}

// ---------------------------------------------------------------------------
// Rendering
// ---------------------------------------------------------------------------

/// The compact TTML rendering of a number of milliseconds:
/// `"H:MM:SS.mmm"` from one hour on, `"M:SS.mmm"` from one minute on, and
/// `"S.mmm"` below a minute.
pub open spec fn format_time_spec(ms: nat) -> Seq<char> {
    let h = ms / 3600000;
    let m = (ms % 3600000) / 60000;
    let s = (ms % 60000) / 1000;
    let f = ms % 1000;
    if h > 0 {
        decimal(h) + seq![':'] + decimal_padded(m, 2) + seq![':'] + decimal_padded(s, 2) + seq!['.']
            + decimal_padded(f, 3)
    } else if m > 0 {
        decimal(m) + seq![':'] + decimal_padded(s, 2) + seq!['.'] + decimal_padded(f, 3)
    } else {
        decimal(s) + seq!['.'] + decimal_padded(f, 3)
    }
}

/// Renders milliseconds as a compact TTML clock value, e.g. `3723456` as
/// `"1:02:03.456"`, `310100` as `"5:10.100"` and `7123` as `"7.123"`.
pub fn format_ttml_time(ms: u64) -> (r: String)
    ensures
        r@ == format_time_spec(ms as nat),
{
    let hours = ms / 3_600_000;
    let minutes = (ms % 3_600_000) / 60_000;
    let seconds = (ms % 60_000) / 1000;
    let millis = ms % 1000;
    let mut out = String::new();
    if hours > 0 {
        push_decimal(&mut out, hours);
        push_char(&mut out, ':');
        push_decimal_padded(&mut out, minutes, 2);
        push_char(&mut out, ':');
        push_decimal_padded(&mut out, seconds, 2);
        push_char(&mut out, '.');
        push_decimal_padded(&mut out, millis, 3);
    } else if minutes > 0 {
        push_decimal(&mut out, minutes);
        push_char(&mut out, ':');
        push_decimal_padded(&mut out, seconds, 2);
        push_char(&mut out, '.');
        push_decimal_padded(&mut out, millis, 3);
    } else {
        push_decimal(&mut out, seconds);
        push_char(&mut out, '.');
        push_decimal_padded(&mut out, millis, 3);
    }
    assert(out@ =~= format_time_spec(ms as nat));
    out
}

// ---------------------------------------------------------------------------
// The rendering is read back exactly
// ---------------------------------------------------------------------------

/// No character of `s` is `c`.
pub open spec fn lacks(s: Seq<char>, c: char) -> bool {
    forall|i: int| 0 <= i < s.len() ==> #[trigger] s[i] != c
}

/// Each digit character has the value it names.
pub proof fn lemma_digit_char(d: nat)
    requires
        d < 10,
    ensures
        is_digit(digit_char(d)),
        digit_value(digit_char(d)) == d,
{
}

/// The decimal rendering is made of digits and reads back as the number.
pub proof fn lemma_decimal_digits(n: nat)
    ensures
        all_digits(decimal(n)),
        digits_value(decimal(n)) == n,
    decreases n,
{
    lemma_digit_char(n % 10);
    if n < 10 {
        lemma_digit_char(n);
        assert(decimal(n).drop_last() =~= Seq::<char>::empty());
        assert(digits_value(decimal(n)) == digits_value(Seq::<char>::empty()) * 10 + digit_value(digit_char(n)));
    }
    if n >= 10 {
        lemma_decimal_digits(n / 10);
        let d = decimal(n);
        assert(d.drop_last() =~= decimal(n / 10));
        assert(d.last() == digit_char(n % 10));
        assert(digits_value(d) == digits_value(decimal(n / 10)) * 10 + digit_value(digit_char(n % 10)));
        assert(n == (n / 10) * 10 + n % 10);
        assert forall|i: int| 0 <= i < d.len() implies is_digit(#[trigger] d[i]) by {
            if i < d.len() - 1 {
                assert(d[i] == decimal(n / 10)[i]);
            }
        }
    }
}

/// Leading zeros do not change the value of a run of digits.
pub proof fn lemma_leading_zeros(k: nat, s: Seq<char>)
    requires
        all_digits(s),
    ensures
        all_digits(Seq::new(k, |i: int| '0') + s),
        digits_value(Seq::new(k, |i: int| '0') + s) == digits_value(s),
    decreases k + s.len(),
{
    let z = Seq::new(k, |i: int| '0');
    if s.len() > 0 {
        assert(all_digits(s.drop_last()));
        lemma_leading_zeros(k, s.drop_last());
        assert((z + s).drop_last() =~= z + s.drop_last());
        assert((z + s).last() == s.last());
    } else {
        assert(z + s =~= z);
        if k > 0 {
            lemma_leading_zeros((k - 1) as nat, s);
            assert(z.drop_last() =~= Seq::new((k - 1) as nat, |i: int| '0'));
            assert(z.drop_last() + s =~= z.drop_last());
        }
    }
}

/// A zero-padded decimal rendering is made of digits and reads back as the number.
pub proof fn lemma_padded_digits(n: nat, w: nat)
    ensures
        all_digits(decimal_padded(n, w)),
        digits_value(decimal_padded(n, w)) == n,
        decimal_padded(n, w).len() >= 1,
        n < 1000 && w == 3 ==> decimal_padded(n, w).len() == 3,
{
    lemma_decimal_digits(n);
    lemma_decimal_len(n);
    let d = decimal(n);
    if d.len() < w {
        lemma_leading_zeros((w - d.len()) as nat, d);
    }
}

/// A run of digits that fits in 64 bits is what `u64::from_str` reads.
pub proof fn lemma_parse_digits(s: Seq<char>)
    requires
        s.len() > 0,
        all_digits(s),
        digits_value(s) <= u64::MAX,
    ensures
        parse_u64_spec(s) == Some(digits_value(s)),
{
    assert(is_digit(s[0]));
}

/// Digits contain neither separators nor dots.
pub proof fn lemma_digits_lack(s: Seq<char>)
    requires
        all_digits(s),
    ensures
        lacks(s, ':'),
        lacks(s, '.'),
{
    assert forall|i: int| 0 <= i < s.len() implies #[trigger] s[i] != ':' by {
        assert(is_digit(s[i]));
    }
    assert forall|i: int| 0 <= i < s.len() implies #[trigger] s[i] != '.' by {
        assert(is_digit(s[i]));
    }
}

/// The first dot of `a . b` is right after `a` when `a` has none.
pub proof fn lemma_index_of_dot(a: Seq<char>, b: Seq<char>)
    requires
        lacks(a, '.'),
    ensures
        index_of(a + seq!['.'] + b, '.') == Some(a.len()),
    decreases a.len(),
{
    let s = a + seq!['.'] + b;
    if a.len() == 0 {
        assert(s[0] == '.');
    } else {
        assert(s[0] == a[0]);
        assert(lacks(a.drop_first(), '.')) by {
            assert forall|i: int| 0 <= i < a.drop_first().len() implies #[trigger] a.drop_first()[i] != '.' by {
                assert(a.drop_first()[i] == a[i + 1]);
            }
        }
        lemma_index_of_dot(a.drop_first(), b);
        assert(s.drop_first() =~= a.drop_first() + seq!['.'] + b);
    }
}

/// A text without the separator is a single part.
pub proof fn lemma_split_single(a: Seq<char>, sep: char)
    requires
        lacks(a, sep),
    ensures
        split_on(a, sep) == seq![a],
    decreases a.len(),
{
    if a.len() > 0 {
        assert(lacks(a.drop_last(), sep)) by {
            assert forall|i: int| 0 <= i < a.drop_last().len() implies #[trigger] a.drop_last()[i] != sep by {
                assert(a.drop_last()[i] == a[i]);
            }
        }
        lemma_split_single(a.drop_last(), sep);
        assert(a.last() != sep);
        assert(a.drop_last().push(a.last()) =~= a);
        assert(seq![a.drop_last()].update(0, a.drop_last().push(a.last())) =~= seq![a]);
    } else {
        assert(Seq::<char>::empty() =~= a);
        assert(seq![Seq::<char>::empty()] =~= seq![a]);
    }
}

/// Cutting `a sep b`, where `b` has no separator, gives the parts of `a` then `b`.
pub proof fn lemma_split_append(a: Seq<char>, b: Seq<char>, sep: char)
    requires
        lacks(b, sep),
    ensures
        split_on(a + seq![sep] + b, sep) == split_on(a, sep).push(b),
    decreases b.len(),
{
    let s = a + seq![sep] + b;
    if b.len() == 0 {
        assert(s.drop_last() =~= a);
        assert(s =~= a + seq![sep]);
        assert(Seq::<char>::empty() =~= b);
    } else {
        assert(lacks(b.drop_last(), sep)) by {
            assert forall|i: int| 0 <= i < b.drop_last().len() implies #[trigger] b.drop_last()[i] != sep by {
                assert(b.drop_last()[i] == b[i]);
            }
        }
        lemma_split_append(a, b.drop_last(), sep);
        assert(s.drop_last() =~= a + seq![sep] + b.drop_last());
        assert(s.last() == b.last());
        lemma_split_nonempty(a, sep);
        let p = split_on(a, sep).push(b.drop_last());
        assert(b.drop_last().push(b.last()) =~= b);
        assert(p.update(p.len() - 1, p.last().push(b.last())) =~= split_on(a, sep).push(b));
    }
}

/// `"S.mmm"` reads back as its seconds and milliseconds.
pub proof fn lemma_seconds_part_of(sec: Seq<char>, s: nat, f: nat)
    requires
        sec.len() >= 1,
        all_digits(sec),
        digits_value(sec) == s,
        s <= u64::MAX,
        f < 1000,
    ensures
        seconds_part(sec + seq!['.'] + decimal_padded(f, 3)) == Some((s, f)),
{
    let frac = decimal_padded(f, 3);
    lemma_padded_digits(f, 3);
    lemma_digits_lack(sec);
    lemma_index_of_dot(sec, frac);
    let t = sec + seq!['.'] + frac;
    assert(t.take(sec.len() as int) =~= sec);
    assert(t.skip(sec.len() as int + 1) =~= frac);
    lemma_parse_digits(sec);
}

/// Arithmetic of the clock fields of a number of milliseconds.
pub proof fn lemma_clock_fields(ms: nat)
    ensures
        (ms % 3600000) / 60000 < 60,
        (ms % 60000) / 1000 < 60,
        ms % 1000 < 1000,
        ms == (ms / 3600000) * 3600000 + ((ms % 3600000) / 60000) * 60000 + ((ms % 60000) / 1000)
            * 1000 + ms % 1000,
        ms / 3600000 == 0 ==> ms % 3600000 == ms,
        ms / 3600000 == 0 && (ms % 3600000) / 60000 == 0 ==> ms % 60000 == ms,
{
    assert((ms % 3600000) / 60000 < 60) by (nonlinear_arith);
    assert((ms % 60000) / 1000 < 60) by (nonlinear_arith);
    assert(ms == (ms / 3600000) * 3600000 + ((ms % 3600000) / 60000) * 60000 + ((ms % 60000)
        / 1000) * 1000 + ms % 1000) by (nonlinear_arith);
    assert(ms / 3600000 == 0 ==> ms % 3600000 == ms) by (nonlinear_arith);
    assert(ms / 3600000 == 0 && (ms % 3600000) / 60000 == 0 ==> ms % 60000 == ms) by (nonlinear_arith);
}

/// Reading back a rendered clock value gives the very number of
/// milliseconds: `parse_ttml_time_to_ms(format_ttml_time(ms)) == Ok(ms)`.
pub proof fn lemma_format_then_parse(ms: u64)
    ensures
        ttml_time_value(format_time_spec(ms as nat)) == Some(ms as nat),
{
    let n = ms as nat;
    let h = n / 3600000;
    let m = (n % 3600000) / 60000;
    let s = (n % 60000) / 1000;
    let f = n % 1000;
    lemma_clock_fields(n);
    lemma_padded_digits(f, 3);
    lemma_padded_digits(m, 2);
    lemma_padded_digits(s, 2);
    lemma_decimal_digits(h);
    lemma_decimal_digits(m);
    lemma_decimal_digits(s);
    lemma_decimal_len(h);
    lemma_decimal_len(m);
    lemma_decimal_len(s);
    let frac = decimal_padded(f, 3);
    let t = format_time_spec(n);
    assert(t.last() == frac.last());
    assert(is_digit(frac[frac.len() - 1]));
    if h > 0 {
        let last = decimal_padded(s, 2) + seq!['.'] + frac;
        let mid = decimal_padded(m, 2);
        let hd = decimal(h);
        assert(h <= u64::MAX) by (nonlinear_arith) requires h == n / 3600000, n <= u64::MAX;
        lemma_seconds_part_of(decimal_padded(s, 2), s, f);
        lemma_digits_lack(frac);
        lemma_digits_lack(decimal_padded(s, 2));
        lemma_digits_lack(mid);
        lemma_digits_lack(hd);
        assert(lacks(last, ':')) by {
            assert forall|i: int| 0 <= i < last.len() implies #[trigger] last[i] != ':' by {
                if i < decimal_padded(s, 2).len() {
                    assert(last[i] == decimal_padded(s, 2)[i]);
                } else if i > decimal_padded(s, 2).len() {
                    assert(last[i] == frac[i - decimal_padded(s, 2).len() - 1]);
                }
            }
        }
        assert(t =~= (hd + seq![':'] + mid) + seq![':'] + last);
        lemma_split_append(hd + seq![':'] + mid, last, ':');
        lemma_split_append(hd, mid, ':');
        lemma_split_single(hd, ':');
        lemma_parse_digits(hd);
        lemma_parse_digits(mid);
        assert(split_on(t, ':') =~= seq![hd, mid, last]);
    } else if m > 0 {
        let last = decimal_padded(s, 2) + seq!['.'] + frac;
        let md = decimal(m);
        lemma_seconds_part_of(decimal_padded(s, 2), s, f);
        lemma_digits_lack(frac);
        lemma_digits_lack(decimal_padded(s, 2));
        lemma_digits_lack(md);
        assert(lacks(last, ':')) by {
            assert forall|i: int| 0 <= i < last.len() implies #[trigger] last[i] != ':' by {
                if i < decimal_padded(s, 2).len() {
                    assert(last[i] == decimal_padded(s, 2)[i]);
                } else if i > decimal_padded(s, 2).len() {
                    assert(last[i] == frac[i - decimal_padded(s, 2).len() - 1]);
                }
            }
        }
        assert(t =~= md + seq![':'] + last);
        lemma_split_append(md, last, ':');
        lemma_split_single(md, ':');
        lemma_parse_digits(md);
        assert(split_on(t, ':') =~= seq![md, last]);
    } else {
        let sd = decimal(s);
        lemma_seconds_part_of(sd, s, f);
        lemma_digits_lack(frac);
        lemma_digits_lack(sd);
        assert(lacks(t, ':')) by {
            assert forall|i: int| 0 <= i < t.len() implies #[trigger] t[i] != ':' by {
                if i < sd.len() {
                    assert(t[i] == sd[i]);
                } else if i > sd.len() {
                    assert(t[i] == frac[i - sd.len() - 1]);
                }
            }
        }
        lemma_split_single(t, ':');
    }
}

} // verus!
