//! Dates and cache ages: UTC timestamps to ISO text, scraped air dates to
//! ISO dates, and the freshness rule for cached pages.
use vstd::prelude::*;
use crate::num::{i64_padded, int_padded, is_digit, parse_i32, parse_i32_spec, parse_u32, parse_u32_spec};
use crate::text::{chars_of, split_once, split_once_spec, string_from_chars, trim_chars, trim_spaces};
use crate::wfmu::{month_name, opt_view};

verus! {

/// Whether a cache stamped at `last_scraped` must be refreshed at `now`:
/// when it was never stamped, is stamped in the future, or is at least
/// `max_age_seconds` old (the age saturating at `i64::MAX`).
pub open spec fn cache_is_stale_spec(last_scraped: Option<i64>, now: i64, max_age_seconds: i64) -> bool {
    match last_scraped {
        Some(t) => if t <= now {
            let age = now - t;
            (if age > i64::MAX {
                i64::MAX as int
            } else {
                age
            }) >= max_age_seconds
        } else {
            true
        },
        None => true,
    }
}

/// Decides whether a cached page must be fetched again.
pub fn cache_is_stale(last_scraped: Option<i64>, now: i64, max_age_seconds: i64) -> (r: bool)
    ensures
        r == cache_is_stale_spec(last_scraped, now, max_age_seconds),
{
    match last_scraped {
        Some(t) => if t <= now {
            let age: i128 = now as i128 - t as i128;
            let capped: i64 = if age > i64::MAX as i128 {
                i64::MAX
            } else {
                age as i64
            };
            capped >= max_age_seconds
        } else {
            true
        },
        None => true,
    }
}

fn div_floor(a: i64, b: i64) -> (q: i64)
    requires
        b > 0,
    ensures
        q as int == a as int / b as int,
{
    assert(i64::MIN <= a as int / b as int <= i64::MAX) by (nonlinear_arith)
        requires
            b > 0,
            i64::MIN <= a <= i64::MAX,
    {
        if a >= 0 {
            assert(0 <= a as int / b as int <= a);
        } else {
            assert(a <= a as int / b as int <= 0);
        }
    }
    match a.checked_div_euclid(b) {
        Some(q) => q,
        None => {
            proof {
                assert(false);
            }
            0
        },
    }
}

fn mod_floor(a: i64, b: i64) -> (r: i64)
    requires
        b > 0,
    ensures
        r as int == a as int % b as int,
        0 <= r < b,
{
    match a.checked_rem_euclid(b) {
        Some(r) => r,
        None => {
            proof {
                assert(false);
            }
            0
        },
    }
}

/// Integer division rounding toward zero, as Rust's `/` does on signed
/// integers (for a positive divisor).
pub open spec fn tdiv(a: int, b: int) -> int {
    if a >= 0 {
        a / b
    } else {
        -((-a) / b)
    }
}

/// Days since 1970-01-01 to the proleptic Gregorian (year, month, day),
/// computed through 400-year eras of 146097 days starting on March 1.
pub open spec fn civil_from_days(days: int) -> (int, int, int) {
    let z = days + 719468;
    let era = z / 146097;
    let doe = z % 146097;
    let yoe = tdiv(doe - tdiv(doe, 1460) + tdiv(doe, 36524) - tdiv(doe, 146096), 365);
    let y = yoe + era * 400;
    let doy = doe - (365 * yoe + tdiv(yoe, 4) - tdiv(yoe, 100));
    let mp = tdiv(5 * doy + 2, 153);
    let d = doy - tdiv(153 * mp + 2, 5) + 1;
    let mo = if mp < 10 {
        mp + 3
    } else {
        mp - 9
    };
    (if mo <= 2 {
        y + 1
    } else {
        y
    }, mo, d)
}

/// A UTC timestamp as "YYYY-MM-DD HH:MM:SS".
pub open spec fn ts_to_iso_spec(ts: int) -> Seq<char> {
    let days = ts / 86400;
    let secs = ts % 86400;
    let (y, mo, d) = civil_from_days(days);
    int_padded(y, 4) + "-"@ + int_padded(mo, 2) + "-"@ + int_padded(d, 2) + " "@ + int_padded(
        secs / 3600,
        2,
    ) + ":"@ + int_padded((secs % 3600) / 60, 2) + ":"@ + int_padded(secs % 60, 2)
}

fn append_padded(out: &mut Vec<char>, n: i64, width: usize)
    ensures
        final(out)@ == old(out)@ + int_padded(n as int, width as nat),
{
    let mut p = i64_padded(n, width);
    out.append(&mut p);
}

fn civil(days: i64) -> (r: (i64, i64, i64))
    requires
        -106751991167301 <= days <= 106751991167300,
    ensures
        (r.0 as int, r.1 as int, r.2 as int) == civil_from_days(days as int),
{
    let z = days + 719468;
    let era = div_floor(z, 146097);
    let doe = mod_floor(z, 146097);
    assert(-800000000 <= era <= 800000000) by (nonlinear_arith)
        requires
            era as int == z as int / 146097,
            -106751991167301 + 719468 <= z <= 106751991167300 + 719468,
    {
    }
    let yoe = (doe - doe / 1460 + doe / 36524 - doe / 146096) / 365;
    assert(0 <= yoe <= 400) by (nonlinear_arith)
        requires
            0 <= doe < 146097,
            yoe == (doe - doe / 1460 + doe / 36524 - doe / 146096) / 365,
    {
    }
    let y = yoe + era * 400;
    let doy = doe - (365 * yoe + yoe / 4 - yoe / 100);
    let mp = (5 * doy + 2) / 153;
    let d = doy - (153 * mp + 2) / 5 + 1;
    let mo = if mp < 10 {
        mp + 3
    } else {
        mp - 9
    };
    let y = if mo <= 2 {
        y + 1
    } else {
        y
    };
    (y, mo, d)
}

/// Formats a UTC timestamp as "YYYY-MM-DD HH:MM:SS".
pub fn ts_to_iso(ts: i64) -> (r: String)
    ensures
        r@ == ts_to_iso_spec(ts as int),
{
    let days = div_floor(ts, 86400);
    let secs = mod_floor(ts, 86400);
    assert(-106751991167301 <= days <= 106751991167300) by (nonlinear_arith)
        requires
            days as int == ts as int / 86400,
            i64::MIN <= ts <= i64::MAX,
    {
    }
    let h = secs / 3600;
    let m = (secs % 3600) / 60;
    let s = secs % 60;
    let (y, mo, d) = civil(days);
    let mut out: Vec<char> = Vec::new();
    append_padded(&mut out, y, 4);
    out.push('-');
    append_padded(&mut out, mo, 2);
    out.push('-');
    append_padded(&mut out, d, 2);
    out.push(' ');
    append_padded(&mut out, h, 2);
    out.push(':');
    append_padded(&mut out, m, 2);
    out.push(':');
    append_padded(&mut out, s, 2);
    proof {
        reveal_strlit("-");
        reveal_strlit(" ");
        reveal_strlit(":");
    }
    string_from_chars(out.as_slice())
}

/// "YYYY-MM-DD" shape: ten characters, digits with dashes at 4 and 7.
pub open spec fn iso_date_shape(s: Seq<char>) -> bool {
    &&& s.len() == 10
    &&& forall|k: int| 0 <= k < 10 && k != 4 && k != 7 ==> is_digit(#[trigger] s[k])
    &&& s[4] == '-'
    &&& s[7] == '-'
}

/// Whether `s` already has the ISO "YYYY-MM-DD" shape.
pub fn is_iso_date(s: &str) -> (r: bool)
    ensures
        r == iso_date_shape(s@),
{
    let cs = chars_of(s);
    iso_date_chars(cs.as_slice())
}

/// [`is_iso_date`] on characters.
pub fn iso_date_chars(s: &[char]) -> (r: bool)
    ensures
        r == iso_date_shape(s@),
{
    if s.len() != 10 || s[4] != '-' || s[7] != '-' {
        return false;
    }
    let mut k: usize = 0;
    while k < 10
        invariant
            s.len() == 10,
            k <= 10,
            forall|j: int| 0 <= j < k && j != 4 && j != 7 ==> is_digit(#[trigger] s@[j]),
        decreases 10 - k,
    {
        if k != 4 && k != 7 && !('0' <= s[k] && s[k] <= '9') {
            return false;
        }
        k = k + 1;
    }
    true
}

/// ASCII lower case of one character.
pub open spec fn ascii_lower(c: char) -> char {
    if 'A' <= c && c <= 'Z' {
        ((c as int) + 32) as char
    } else {
        c
    }
}

/// Equality up to ASCII case (`eq_ignore_ascii_case`).
pub open spec fn eq_ignore_ascii_case(a: Seq<char>, b: Seq<char>) -> bool {
    a.len() == b.len() && forall|k: int| 0 <= k < a.len() ==> ascii_lower(#[trigger] a[k]) == ascii_lower(b[k])
}

/// Executable [`ascii_lower`].
pub fn lower_char(c: char) -> (r: char)
    ensures
        r == ascii_lower(c),
{
    if 'A' <= c && c <= 'Z' {
        ((c as u8) + 32) as char
    } else {
        c
    }
}

/// Executable [`eq_ignore_ascii_case`].
pub fn chars_eq_ignore_case(a: &[char], b: &[char]) -> (r: bool)
    ensures
        r == eq_ignore_ascii_case(a@, b@),
{
    if a.len() != b.len() {
        return false;
    }
    let mut k: usize = 0;
    while k < a.len()
        invariant
            a.len() == b.len(),
            k <= a.len(),
            forall|j: int| 0 <= j < k ==> ascii_lower(#[trigger] a@[j]) == ascii_lower(b@[j]),
        decreases a.len() - k,
    {
        if lower_char(a[k]) != lower_char(b[k]) {
            return false;
        }
        k = k + 1;
    }
    true
}

/// The first month from `m` on whose name matches `name` up to ASCII case.
pub open spec fn month_index_from(name: Seq<char>, m: int) -> Option<int>
    decreases 13 - m,
{
    if m < 1 || m > 12 {
        None
    } else if eq_ignore_ascii_case(month_name(m), name) {
        Some(m)
    } else {
        month_index_from(name, m + 1)
    }
}

fn month_index(name: &[char]) -> (r: Option<i64>)
    ensures
        r matches Some(m) ==> month_index_from(name@, 1) == Some(m as int),
        r is None ==> month_index_from(name@, 1) is None,
{
    let mut m: usize = 1;
    while m <= 12
        invariant
            1 <= m <= 13,
            month_index_from(name@, 1) == month_index_from(name@, m as int),
        decreases 13 - m,
    {
        let mn = chars_of(crate::wfmu::month_str(m));
        if chars_eq_ignore_case(mn.as_slice(), name) {
            return Some(m as i64);
        }
        m = m + 1;
    }
    None
}

/// "July 9, 2026" (the scraped form) to "2026-07-09". ISO input passes
/// through; anything else, or a day outside 1..=31 or a year outside
/// 1900..=2100, gives `None`.
pub open spec fn air_date_to_iso_spec(raw: Seq<char>) -> Option<Seq<char>> {
    let r = trim_spaces(raw);
    if iso_date_shape(r) {
        Some(r)
    } else {
        match split_once_spec(r, " "@) {
            None => None,
            Some((month, rest)) => match split_once_spec(rest, ","@) {
                None => None,
                Some((day, year)) => match month_index_from(month, 1) {
                    None => None,
                    Some(m) => match (
                        parse_u32_spec(trim_spaces(day)),
                        parse_i32_spec(trim_spaces(year)),
                    ) {
                        (Some(d), Some(y)) => if 1 <= d <= 31 && 1900 <= y <= 2100 {
                            Some(
                                int_padded(y as int, 4) + "-"@ + int_padded(m, 2) + "-"@
                                    + int_padded(d as int, 2),
                            )
                        } else {
                            None
                        },
                        _ => None,
                    },
                },
            },
        }
    }
}

/// Converts a scraped air date to its sortable ISO form.
pub fn air_date_to_iso(raw: &str) -> (r: Option<String>)
    ensures
        opt_view(r) == air_date_to_iso_spec(raw@),
{
    let cs = chars_of(raw);
    let r = trim_chars(cs.as_slice());
    if iso_date_chars(r.as_slice()) {
        return Some(string_from_chars(r.as_slice()));
    }
    let space = chars_of(" ");
    let comma = chars_of(",");
    let (month, rest) = match split_once(r.as_slice(), space.as_slice()) {
        Some(p) => p,
        None => return None,
    };
    let (day, year) = match split_once(rest.as_slice(), comma.as_slice()) {
        Some(p) => p,
        None => return None,
    };
    let m = match month_index(month.as_slice()) {
        Some(m) => m,
        None => return None,
    };
    let dt = trim_chars(day.as_slice());
    let yt = trim_chars(year.as_slice());
    let d = match parse_u32(dt.as_slice()) {
        Some(d) => d,
        None => return None,
    };
    let y = match parse_i32(yt.as_slice()) {
        Some(y) => y,
        None => return None,
    };
    if d < 1 || d > 31 || y < 1900 || y > 2100 {
        return None;
    }
    let mut out: Vec<char> = Vec::new();
    append_padded(&mut out, y as i64, 4);
    out.push('-');
    append_padded(&mut out, m, 2);
    out.push('-');
    append_padded(&mut out, d as i64, 2);
    proof {
        reveal_strlit("-");
    }
    Some(string_from_chars(out.as_slice()))
}

proof fn lemma_padded_digits(n: nat, w: nat)
    requires
        w >= 1,
        n < crate::num::pow10(w),
    ensures
        crate::num::zero_pad(crate::num::nat_digits(n), w).len() == w,
        crate::num::all_digits(crate::num::zero_pad(crate::num::nat_digits(n), w)),
{
    crate::num::lemma_nat_digits(n);
    crate::num::lemma_nat_digits_len(n, w);
    let d = crate::num::nat_digits(n);
    let p = crate::num::zero_pad(d, w);
    if d.len() < w {
        let z = Seq::new((w - d.len()) as nat, |i: int| '0');
        assert(p == z + d);
        assert forall|k: int| 0 <= k < p.len() implies is_digit(#[trigger] p[k]) by {
            if k < z.len() {
                assert(p[k] == z[k]);
            } else {
                assert(p[k] == d[k - z.len()]);
            }
        }
    }
}

/// An ISO date that [`air_date_to_iso`] gives back has the "YYYY-MM-DD"
/// shape and converts to itself; input already in that shape (once
/// trimmed) passes through unchanged.
pub proof fn air_dates_convert_to_fixed_points(raw: Seq<char>)
    ensures
        air_date_to_iso_spec(raw) matches Some(s) ==> iso_date_shape(s) && air_date_to_iso_spec(s)
            == Some(s),
        iso_date_shape(trim_spaces(raw)) ==> air_date_to_iso_spec(raw) == Some(trim_spaces(raw)),
{
    reveal_strlit("-");
    match air_date_to_iso_spec(raw) {
        Some(s) => {
            if !iso_date_shape(trim_spaces(raw)) {
                let r = trim_spaces(raw);
                let (month, rest) = split_once_spec(r, " "@)->0;
                let (day, year) = split_once_spec(rest, ","@)->0;
                let m = month_index_from(month, 1)->0;
                let d = parse_u32_spec(trim_spaces(day))->0;
                let y = parse_i32_spec(trim_spaces(year))->0;
                assert(1 <= m <= 12) by {
                    lemma_month_index_range(month, 1);
                }
                reveal_with_fuel(crate::num::pow10, 5);
                lemma_padded_digits(y as nat, 4);
                lemma_padded_digits(m as nat, 2);
                lemma_padded_digits(d as nat, 2);
                let py = int_padded(y as int, 4);
                let pm = int_padded(m, 2);
                let pd = int_padded(d as int, 2);
                assert(s == py + "-"@ + pm + "-"@ + pd);
                assert(s.len() == 10);
                assert(s[4] == '-');
                assert(s[7] == '-');
                assert forall|k: int| 0 <= k < 10 && k != 4 && k != 7 implies is_digit(#[trigger] s[k]) by {
                    if k < 4 {
                        assert(s[k] == py[k]);
                    } else if k < 7 {
                        assert(s[k] == pm[k - 5]);
                    } else {
                        assert(s[k] == pd[k - 8]);
                    }
                }
            }
            assert(is_digit(s[0]) && is_digit(s[9]));
            assert(trim_spaces(s) == s);
        },
        None => {},
    }
}

/// A month found from `m` on is a month.
proof fn lemma_month_index_range(name: Seq<char>, m: int)
    ensures
        month_index_from(name, m) matches Some(k) ==> 1 <= k <= 12,
    decreases 13 - m,
{
    if 1 <= m <= 12 && !eq_ignore_ascii_case(month_name(m), name) {
        lemma_month_index_range(name, m + 1);
    }
}

proof fn lemma_zeros_value(z: Seq<char>)
    requires
        forall|k: int| 0 <= k < z.len() ==> z[k] == '0',
    ensures
        crate::num::digits_value(z) == 0,
    decreases z.len(),
{
    if z.len() > 0 {
        lemma_zeros_value(z.drop_last());
        assert(z.last() == z[z.len() - 1]);
    }
}

proof fn lemma_zero_prefix_value(z: Seq<char>, d: Seq<char>)
    requires
        forall|k: int| 0 <= k < z.len() ==> z[k] == '0',
    ensures
        crate::num::digits_value(z + d) == crate::num::digits_value(d),
    decreases d.len(),
{
    if d.len() == 0 {
        assert(z + d =~= z);
        lemma_zeros_value(z);
    } else {
        lemma_zero_prefix_value(z, d.drop_last());
        assert((z + d).drop_last() =~= z + d.drop_last());
        assert((z + d).last() == d.last());
    }
}

proof fn lemma_padded_value(n: nat, w: nat)
    ensures
        crate::num::digits_value(crate::num::zero_pad(crate::num::nat_digits(n), w)) == n,
{
    crate::num::lemma_nat_digits(n);
    let d = crate::num::nat_digits(n);
    if d.len() < w {
        let z = Seq::new((w - d.len()) as nat, |i: int| '0');
        lemma_zero_prefix_value(z, d);
    }
}

/// The year of an ISO date.
pub open spec fn iso_year(s: Seq<char>) -> int {
    crate::num::digits_value(s.take(4))
}

/// The month of an ISO date.
pub open spec fn iso_month(s: Seq<char>) -> int {
    crate::num::digits_value(s.subrange(5, 7))
}

/// The day of an ISO date.
pub open spec fn iso_day(s: Seq<char>) -> int {
    crate::num::digits_value(s.subrange(8, 10))
}

/// An air date that had to be converted reads back as a year in
/// 1900..=2100, a month in 1..=12 and a day in 1..=31; any other result is
/// the input itself, trimmed.
pub proof fn converted_air_dates_are_in_range(raw: Seq<char>)
    ensures
        air_date_to_iso_spec(raw) matches Some(s) ==> s == trim_spaces(raw) || (1900 <= iso_year(s)
            <= 2100 && 1 <= iso_month(s) <= 12 && 1 <= iso_day(s) <= 31),
{
    reveal_strlit("-");
    match air_date_to_iso_spec(raw) {
        Some(s) => {
            if !iso_date_shape(trim_spaces(raw)) {
                let r = trim_spaces(raw);
                let (month, rest) = split_once_spec(r, " "@)->0;
                let (day, year) = split_once_spec(rest, ","@)->0;
                let m = month_index_from(month, 1)->0;
                let d = parse_u32_spec(trim_spaces(day))->0;
                let y = parse_i32_spec(trim_spaces(year))->0;
                lemma_month_index_range(month, 1);
                reveal_with_fuel(crate::num::pow10, 5);
                lemma_padded_digits(y as nat, 4);
                lemma_padded_digits(m as nat, 2);
                lemma_padded_digits(d as nat, 2);
                lemma_padded_value(y as nat, 4);
                lemma_padded_value(m as nat, 2);
                lemma_padded_value(d as nat, 2);
                let py = int_padded(y as int, 4);
                let pm = int_padded(m, 2);
                let pd = int_padded(d as int, 2);
                assert(s == py + "-"@ + pm + "-"@ + pd);
                assert(s.take(4) =~= py);
                assert(s.subrange(5, 7) =~= pm);
                assert(s.subrange(8, 10) =~= pd);
            }
        },
        None => {},
    }
}

} // verus!
