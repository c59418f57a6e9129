//! The commit-log panel's time labels: how long ago a commit was made, and
//! the UTC date and time it was made, from seconds since the Unix epoch.

use vstd::prelude::*;
use crate::text::{digits_of, render_u64, string_from};

verus! {

proof fn lemma_year_of_era(doe: int)
    requires
        0 <= doe <= 146096,
    ensures
        ({
            let yoe = (doe - doe / 1460 + doe / 36524 - doe / 146096) / 365;
            let doy = doe - (365 * yoe + yoe / 4 - yoe / 100);
            &&& 0 <= yoe <= 399
            &&& 0 <= doy <= 365
        }),
{
}

/// The civil (proleptic Gregorian) date of day `days` after 1970-01-01,
/// as (year, month, day).
pub open spec fn civil_from_days(days: int) -> (int, int, int) {
    let z = days + 719468;
    let era = z / 146097;
    let doe = z % 146097;
    let yoe = (doe - doe / 1460 + doe / 36524 - doe / 146096) / 365;
    let y = yoe + era * 400;
    let doy = doe - (365 * yoe + yoe / 4 - yoe / 100);
    let mp = (5 * doy + 2) / 153;
    let d = doy - (153 * mp + 2) / 5 + 1;
    let m = if mp < 10 {
        mp + 3
    } else {
        mp - 9
    };
    (if m <= 2 {
        y + 1
    } else {
        y
    }, m, d)
}

/// The day number, counted from 1970-01-01, of civil date `y`-`m`-`d`.
pub open spec fn days_from_civil(y: int, m: int, d: int) -> int {
    let y1 = if m <= 2 {
        y - 1
    } else {
        y
    };
    let era = y1 / 400;
    let yoe = y1 - era * 400;
    let mp = if m > 2 {
        m - 3
    } else {
        m + 9
    };
    let doy = (153 * mp + 2) / 5 + d - 1;
    let doe = yoe * 365 + yoe / 4 - yoe / 100 + doy;
    era * 146097 + doe - 719468
}

/// The date of a day number is a real month and day, and it names that
/// day again.
pub proof fn lemma_civil_round_trip(days: int)
    ensures
        ({
            let (y, m, d) = civil_from_days(days);
            &&& 1 <= m <= 12
            &&& 1 <= d <= 31
            &&& days_from_civil(y, m, d) == days
        }),
{
    let z = days + 719468;
    let era = z / 146097;
    let doe = z % 146097;
    lemma_year_of_era(doe);
    let yoe = (doe - doe / 1460 + doe / 36524 - doe / 146096) / 365;
    let doy = doe - (365 * yoe + yoe / 4 - yoe / 100);
    let mp = (5 * doy + 2) / 153;
    assert(0 <= mp <= 11);
    let y1 = yoe + era * 400;
    assert(y1 / 400 == era);
    assert(z == era * 146097 + doe);
}

/// `digits` padded on the left with `0` to `width` characters.
pub open spec fn zero_pad(digits: Seq<char>, width: nat) -> Seq<char> {
    if digits.len() >= width {
        digits
    } else {
        Seq::new((width - digits.len()) as nat, |i: int| '0') + digits
    }
}

/// `format!("{:0width$}", n)`: the sign, then the digits padded with `0`
/// so that sign and digits fill `width` characters.
pub open spec fn padded(n: int, width: nat) -> Seq<char> {
    if n < 0 {
        seq!['-'] + zero_pad(digits_of((-n) as nat), (width - 1) as nat)
    } else {
        zero_pad(digits_of(n as nat), width)
    }
}

fn push_padded(out: &mut Vec<char>, n: i64, width: usize)
    requires
        1 <= width <= 8,
    ensures
        final(out)@ == old(out)@ + padded(n as int, width as nat),
{
    let mut w = width;
    if n < 0 {
        out.push('-');
        w = width - 1;
    }
    let ghost start = out@;
    let mag: u64 = if n < 0 {
        (0i128 - n as i128) as u64
    } else {
        n as u64
    };
    let digits = render_u64(mag);
    assert(digits@ == digits_of(mag as nat));
    let mut k = digits.len();
    while k < w
        invariant
            digits@.len() <= k <= w || w <= digits@.len() == k,
            out@ == start + Seq::new((k - digits@.len()) as nat, |i: int| '0'),
        decreases w - k,
    {
        out.push('0');
        assert(out@ =~= start + Seq::new((k + 1 - digits@.len()) as nat, |i: int| '0'));
        k += 1;
    }
    let mut j: usize = 0;
    let ghost zeros = out@;
    while j < digits.len()
        invariant
            j <= digits@.len(),
            out@ == zeros + digits@.take(j as int),
        decreases digits@.len() - j,
    {
        out.push(digits[j]);
        assert(out@ =~= zeros + digits@.take(j + 1));
        j += 1;
    }
    assert(digits@.take(digits@.len() as int) =~= digits@);
    proof {
        if n < 0 {
            assert((-(n as int)) as nat == mag as nat);
        }
        if digits@.len() >= w {
            assert(Seq::new((k - digits@.len()) as nat, |i: int| '0') =~= Seq::<char>::empty());
        }
        assert(out@ =~= old(out)@ + padded(n as int, width as nat));
    }
}

/// `secs` seconds after the epoch as `YYYY-MM-DD HH:MM UTC`.
pub open spec fn spec_absolute_time(secs: int) -> Seq<char> {
    let days = secs / 86400;
    let rem = secs % 86400;
    let (y, m, d) = civil_from_days(days);
    padded(y, 4) + seq!['-'] + padded(m, 2) + seq!['-'] + padded(d, 2) + seq![' '] + padded(
        rem / 3600,
        2,
    ) + seq![':'] + padded((rem % 3600) / 60, 2) + seq![' ', 'U', 'T', 'C']
}

fn civil_date(days: i64) -> (r: (i64, i64, i64))
    requires
        -106751991167301 <= days <= 106751991167300,
    ensures
        (r.0 as int, r.1 as int, r.2 as int) == civil_from_days(days as int),
        1 <= r.1 <= 12,
        1 <= r.2 <= 31,
{
    let z = days + 719468;
    let era = z.checked_div_euclid(146097).unwrap();
    let doe = z.checked_rem_euclid(146097).unwrap();
    proof {
        lemma_year_of_era(doe as int);
        lemma_civil_round_trip(days as int);
    }
    let yoe = (doe - doe / 1460 + doe / 36524 - doe / 146096) / 365;
    let y = yoe + era * 400;
    let doy = doe - (365 * yoe + yoe / 4 - yoe / 100);
    let mp = (5 * doy + 2) / 153;
    let d = doy - (153 * mp + 2) / 5 + 1;
    let m = if mp < 10 {
        mp + 3
    } else {
        mp - 9
    };
    let year = if m <= 2 {
        y + 1
    } else {
        y
    };
    (year, m, d)
}

/// The UTC date and time, to the minute, of `secs` seconds after the Unix
/// epoch.
pub fn absolute_time(secs: i64) -> (r: String)
    ensures
        r@ == spec_absolute_time(secs as int),
{
    let days = secs.checked_div_euclid(86400).unwrap();
    let rem = secs.checked_rem_euclid(86400).unwrap();
    let hh = rem / 3600;
    let mm = (rem % 3600) / 60;
    let (year, m, d) = civil_date(days);
    let mut out: Vec<char> = Vec::new();
    push_padded(&mut out, year, 4);
    out.push('-');
    push_padded(&mut out, m, 2);
    out.push('-');
    push_padded(&mut out, d, 2);
    out.push(' ');
    push_padded(&mut out, hh, 2);
    out.push(':');
    push_padded(&mut out, mm, 2);
    out.push(' ');
    out.push('U');
    out.push('T');
    out.push('C');
    assert(out@ =~= spec_absolute_time(secs as int));
    string_from(out.as_slice())
}

/// How long before `now` the moment `secs` lies, as a short label:
/// `just now` under a minute, then whole minutes (`5m`), hours (`3h`),
/// days (`2d`), 30-day months (`4mo`) and 365-day years (`1y`). A moment
/// after `now` counts as now.
pub open spec fn spec_relative_time(secs: int, now: int) -> Seq<char> {
    let delta = if now - secs > 0 {
        now - secs
    } else {
        0
    };
    if delta < 60 {
        seq!['j', 'u', 's', 't', ' ', 'n', 'o', 'w']
    } else if delta < 3600 {
        digits_of((delta / 60) as nat) + seq!['m']
    } else if delta < 86400 {
        digits_of((delta / 3600) as nat) + seq!['h']
    } else if delta < 2592000 {
        digits_of((delta / 86400) as nat) + seq!['d']
    } else if delta < 31536000 {
        digits_of((delta / 2592000) as nat) + seq!['m', 'o']
    } else {
        digits_of((delta / 31536000) as nat) + seq!['y']
    }
}

/// The label for a commit made at `secs`, seen at `now` (both seconds
/// since the Unix epoch).
pub fn relative_time(secs: i64, now: i64) -> (r: String)
    requires
        i64::MIN <= now - secs <= i64::MAX,
    ensures
        r@ == spec_relative_time(secs as int, now as int),
{
    let diff = now - secs;
    let delta: u64 = if diff > 0 {
        diff as u64
    } else {
        0
    };
    let mut out: Vec<char>;
    if delta < 60 {
        out = Vec::new();
        out.push('j');
        out.push('u');
        out.push('s');
        out.push('t');
        out.push(' ');
        out.push('n');
        out.push('o');
        out.push('w');
    } else if delta < 3600 {
        out = render_u64(delta / 60);
        out.push('m');
    } else if delta < 86400 {
        out = render_u64(delta / 3600);
        out.push('h');
    } else if delta < 2592000 {
        out = render_u64(delta / 86400);
        out.push('d');
    } else if delta < 31536000 {
        out = render_u64(delta / 2592000);
        out.push('m');
        out.push('o');
    } else {
        out = render_u64(delta / 31536000);
        out.push('y');
    }
    assert(out@ =~= spec_relative_time(secs as int, now as int));
    string_from(out.as_slice())
}

} // verus!
