//! ISO `YYYY-MM-DD` dates: reading them, days since 1970-01-01 (Howard
//! Hinnant's civil calendar formulas), the way the views print them, and
//! back from a day number to a date.
use crate::text::{
    all_digits, decimal, digits_value, is_digit, lemma_decimal_value, lemma_leading_zeros,
    lemma_split_text_concat, lemma_split_text_whole, parse_i32, parse_unsigned, push_char,
    push_decimal, push_text, signed_text_value, split_text, split_text_exec, unsigned_text_value,
    zeros,
};
use vstd::prelude::*;

verus! {

/// What `parse_ymd` reads: the first three `-`-separated pieces as an `i32`
/// year, a `u32` month and a `u32` day (pieces after the third are ignored).
pub open spec fn ymd_of(iso: Seq<char>) -> Option<(int, int, int)> {
    let p = split_text(iso, seq!['-']);
    if p.len() < 3 {
        None
    } else {
        let y = signed_text_value(p[0]);
        let m = unsigned_text_value(p[1]);
        let d = unsigned_text_value(p[2]);
        if y is Some && i32::MIN <= y->0 <= i32::MAX && m is Some && m->0 <= u32::MAX && d is Some
            && d->0 <= u32::MAX {
            Some((y->0, m->0 as int, d->0 as int))
        } else {
            None
        }
    }
}

/// Reads `YYYY-MM-DD` as `(year, month, day)`; no range check beyond the
/// integer types.
pub fn parse_ymd(iso: &str) -> (r: Option<(i32, u32, u32)>)
    ensures
        r is Some <==> ymd_of(iso@) is Some,
        r matches Some(t) ==> ymd_of(iso@) == Some((t.0 as int, t.1 as int, t.2 as int)),
{
    let mut seps: Vec<char> = Vec::new();
    seps.push('-');
    assert(seps@ =~= seq!['-']);
    let pieces = split_text_exec(iso, &seps);
    if pieces.len() < 3 {
        return None;
    }
    let ghost p = split_text(iso@, seq!['-']);
    assert(pieces@[0]@ == p[0] && pieces@[1]@ == p[1] && pieces@[2]@ == p[2]);
    let y = parse_i32(pieces[0].as_str());
    let m = parse_unsigned(pieces[1].as_str(), 4294967295);
    let d = parse_unsigned(pieces[2].as_str(), 4294967295);
    match (y, m, d) {
        (Some(y), Some(m), Some(d)) => Some((y, m as u32, d as u32)),
        _ => None,
    }
}

/// Days since 1970-01-01 of the civil date `(y, m, d)`, by the proleptic
/// Gregorian calendar with years starting in March. Defined for any
/// numbers: months and days out of range extrapolate.
pub open spec fn days_from_civil(y: int, m: int, d: int) -> int {
    let adj_y = if m <= 2 {
        y - 1
    } else {
        y
    };
    let adj_m = if m <= 2 {
        m + 12
    } else {
        m
    };
    let era = adj_y / 400;
    let yoe = adj_y - era * 400;
    let doy = (153 * (adj_m - 3) + 2) / 5 + d - 1;
    let doe = yoe * 365 + yoe / 4 - yoe / 100 + doy;
    era * 146097 + doe - 719468
}

/// `days_from_civil` of a `(year, month, day)` triple.
pub open spec fn days_of_date(t: (int, int, int)) -> int {
    days_from_civil(t.0, t.1, t.2)
}

/// `a / b` rounded down.
fn floor_div(a: i64, b: i64) -> (r: i64)
    requires
        b > 0,
        a > i64::MIN + b,
    ensures
        r == a / b,
{
    if a >= 0 {
        a / b
    } else {
        let q = (0 - a + (b - 1)) / b;
        proof {
            lemma_floor_of_negative(a as int, b as int);
        }
        0 - q
    }
}

/// Rounding down a negative quotient is rounding up its negation.
proof fn lemma_floor_of_negative(a: int, b: int)
    requires
        b > 0,
        a < 0,
    ensures
        a / b == -((-a + b - 1) / b),
{
    let n = -a + b - 1;
    vstd::arithmetic::div_mod::lemma_fundamental_div_mod(n, b);
    let q = n / b;
    let r = n % b;
    assert(a == (-q) * b + (b - 1 - r)) by (nonlinear_arith)
        requires
            n == b * q + r,
            n == -a + b - 1,
    ;
    vstd::arithmetic::div_mod::lemma_fundamental_div_mod_converse(a, b, -q, b - 1 - r);
}

/// Days since 1970-01-01 of an ISO date, if it reads (see [`parse_ymd`]).
pub fn epoch_days(iso: &str) -> (r: Option<i64>)
    ensures
        r is Some <==> ymd_of(iso@) is Some,
        r matches Some(n) ==> n == days_of_date(ymd_of(iso@)->0),
        r matches Some(n) ==> -0x200_0000_0000 < n < 0x200_0000_0000,
{
    proof {
        lemma_days_from_civil_bounds(iso@);
    }
    match parse_ymd(iso) {
        None => None,
        Some((y, m, d)) => Some(days_of(y, m, d)),
    }
}

/// `days_from_civil` on machine integers.
pub fn days_of(y: i32, m: u32, d: u32) -> (r: i64)
    ensures
        r == days_from_civil(y as int, m as int, d as int),
{
    let y = y as i64;
    let m = m as i64;
    let d = d as i64;
    let adj_y: i64 = if m <= 2 {
        y - 1
    } else {
        y
    };
    let adj_m: i64 = if m <= 2 {
        m + 12
    } else {
        m
    };
    let era = floor_div(adj_y, 400);
    let yoe = adj_y - era * 400;
    assert(0 <= yoe < 400);
    let doy = (153 * (adj_m - 3) + 2) / 5 + d - 1;
    let doe = yoe * 365 + yoe / 4 - yoe / 100 + doy;
    era * 146097 + doe - 719468
}

pub open spec fn month_short(m: int) -> Seq<char> {
    if m == 1 {
        "ene"@
    } else if m == 2 {
        "feb"@
    } else if m == 3 {
        "mar"@
    } else if m == 4 {
        "abr"@
    } else if m == 5 {
        "may"@
    } else if m == 6 {
        "jun"@
    } else if m == 7 {
        "jul"@
    } else if m == 8 {
        "ago"@
    } else if m == 9 {
        "sep"@
    } else if m == 10 {
        "oct"@
    } else if m == 11 {
        "nov"@
    } else {
        "dic"@
    }
}

fn month_short_exec(m: u32) -> (r: &'static str)
    requires
        1 <= m <= 12,
    ensures
        r@ == month_short(m as int),
{
    if m == 1 {
        "ene"
    } else if m == 2 {
        "feb"
    } else if m == 3 {
        "mar"
    } else if m == 4 {
        "abr"
    } else if m == 5 {
        "may"
    } else if m == 6 {
        "jun"
    } else if m == 7 {
        "jul"
    } else if m == 8 {
        "ago"
    } else if m == 9 {
        "sep"
    } else if m == 10 {
        "oct"
    } else if m == 11 {
        "nov"
    } else {
        "dic"
    }
}

/// The decimal text of an integer, with a `-` when it is negative.
pub open spec fn int_text(n: int) -> Seq<char> {
    if n < 0 {
        seq!['-'] + decimal((-n) as nat)
    } else {
        decimal(n as nat)
    }
}

fn push_int(s: &mut String, n: i64)
    requires
        n > i64::MIN,
    ensures
        final(s)@ == old(s)@ + int_text(n as int),
{
    if n < 0 {
        push_char(s, '-');
        push_decimal(s, (0 - n) as u64);
        assert(final(s)@ =~= old(s)@ + int_text(n as int));
    } else {
        push_decimal(s, n as u64);
    }
}

/// How the views print a date: `"30 ago 2026"`, or `"-"` when it does not
/// read.
pub open spec fn date_text(iso: Seq<char>) -> Seq<char> {
    match ymd_of(iso) {
        None => "-"@,
        Some((y, m, d)) => int_text(d) + seq![' '] + month_short(m) + seq![' '] + int_text(y),
    }
}

/// `"30 ago 2026"` for `"2026-08-30"`; `"-"` when the date does not read.
/// A date that reads with a month outside 1..=12 has no month name (the
/// lookup would fail), so such input is excluded.
pub fn fmt_date(iso: &str) -> (r: String)
    requires
        ymd_of(iso@) matches Some(t) ==> 1 <= t.1 <= 12,
    ensures
        r@ == date_text(iso@),
{
    match parse_ymd(iso) {
        None => "-".to_owned(),
        Some((y, m, d)) => {
            let mut s = String::new();
            push_int(&mut s, d as i64);
            push_char(&mut s, ' ');
            push_text(&mut s, month_short_exec(m));
            push_char(&mut s, ' ');
            push_int(&mut s, y as i64);
            assert(s@ =~= date_text(iso@));
            s
        },
    }
}

pub open spec fn weekday_short_name(k: int) -> Seq<char> {
    if k == 0 {
        "dom"@
    } else if k == 1 {
        "lun"@
    } else if k == 2 {
        "mar"@
    } else if k == 3 {
        "mié"@
    } else if k == 4 {
        "jue"@
    } else if k == 5 {
        "vie"@
    } else {
        "sáb"@
    }
}

/// The weekday of a day number (1970-01-01 was a Thursday).
pub open spec fn weekday_of(day: int) -> int {
    (day + 4) % 7
}

/// The short Spanish weekday name of a day number.
pub fn weekday_of_day(day: i64) -> (r: &'static str)
    requires
        day < i64::MAX - 4,
    ensures
        r@ == weekday_short_name(weekday_of(day as int)),
{
    let x = (day + 4) % 7;
    let k = if x < 0 {
        x + 7
    } else {
        x
    };
    assert(k == weekday_of(day as int));
    if k == 0 {
        "dom"
    } else if k == 1 {
        "lun"
    } else if k == 2 {
        "mar"
    } else if k == 3 {
        "mié"
    } else if k == 4 {
        "jue"
    } else if k == 5 {
        "vie"
    } else {
        "sáb"
    }
}

/// The short weekday of an ISO date for the Gantt headers (a date that does
/// not read counts as day 0, a Thursday).
pub fn weekday_short(iso: &str) -> (r: &'static str)
    ensures
        r@ == weekday_short_name(
            weekday_of(
                match ymd_of(iso@) {
                    Some(t) => days_from_civil(t.0, t.1, t.2),
                    None => 0,
                },
            ),
        ),
{
    let day = match epoch_days(iso) {
        Some(n) => n,
        None => 0,
    };
    proof {
        lemma_days_from_civil_bounds(iso@);
    }
    weekday_of_day(day)
}

/// Any date that reads lies within 2^41 days of 1970-01-01.
pub proof fn lemma_days_from_civil_bounds(iso: Seq<char>)
    ensures
        ymd_of(iso) matches Some(t) ==> -0x200_0000_0000 < days_from_civil(t.0, t.1, t.2)
            < 0x200_0000_0000,
{
    if let Some(t) = ymd_of(iso) {
        let (y, m, d) = t;
        assert(-0x200_0000_0000 < days_from_civil(y, m, d) < 0x200_0000_0000) by (nonlinear_arith)
            requires
                i32::MIN <= y <= i32::MAX,
                0 <= m <= u32::MAX,
                0 <= d <= u32::MAX,
        {
            let adj_y = if m <= 2 {
                y - 1
            } else {
                y
            };
            let adj_m = if m <= 2 {
                m + 12
            } else {
                m
            };
            let era = adj_y / 400;
            let yoe = adj_y - era * 400;
            assert(era <= adj_y / 400);
        }
    }
}

// ── From a day number back to a date ─────────────────────────────────────────
/// The civil date `(year, month, day)` of a day number (days since
/// 1970-01-01).
pub open spec fn civil_from_days(day: int) -> (int, int, int) {
    let z = day + 719468;
    let era = z / 146097;
    let doe = z - era * 146097;
    let yoe = (doe - doe / 1460 + doe / 36524 - doe / 146096) / 365;
    let doy = doe - (365 * yoe + yoe / 4 - yoe / 100);
    let mp = (5 * doy + 2) / 153;
    let d = doy - (153 * mp + 2) / 5 + 1;
    let m = if mp < 10 {
        mp + 3
    } else {
        mp - 9
    };
    let y = yoe + era * 400 + if m <= 2 {
        1int
    } else {
        0int
    };
    (y, m, d)
}

/// `civil_from_days` on machine integers.
pub fn civil_of(day: i64) -> (r: (i64, i64, i64))
    requires
        -4611686018427387904 < day < 4611686018427387904,
    ensures
        (r.0 as int, r.1 as int, r.2 as int) == civil_from_days(day as int),
{
    let z = day + 719468;
    let era = floor_div(z, 146097);
    let doe = z - era * 146097;
    assert(0 <= doe < 146097);
    let yoe = floor_div(doe - doe / 1460 + doe / 36524 - doe / 146096, 365);
    let doy = doe - (365 * yoe + yoe / 4 - yoe / 100);
    let mp = floor_div(5 * doy + 2, 153);
    let d = doy - floor_div(153 * mp + 2, 5) + 1;
    let m = if mp < 10 {
        mp + 3
    } else {
        mp - 9
    };
    let y = yoe + era * 400 + if m <= 2 {
        1
    } else {
        0
    };
    (y, m, d)
}

/// `n` in decimal, left-padded with zeros to `width` characters.
pub open spec fn zero_padded(n: nat, width: nat) -> Seq<char> {
    if decimal(n).len() >= width {
        decimal(n)
    } else {
        Seq::new((width - decimal(n).len()) as nat, |i: int| '0') + decimal(n)
    }
}

fn push_zero_padded(s: &mut String, n: u64, width: usize)
    ensures
        final(s)@ == old(s)@ + zero_padded(n as nat, width as nat),
{
    let mut digits = String::new();
    push_decimal(&mut digits, n);
    let len = digits.unicode_len();
    let mut k: usize = len;
    let ghost start = s@;
    while k < width
        invariant
            len == decimal(n as nat).len(),
            len <= k,
            k <= width || k == len,
            s@ == start + Seq::new((k - len) as nat, |i: int| '0'),
        decreases width - k,
    {
        push_char(s, '0');
        k = k + 1;
        assert(s@ =~= start + Seq::new((k - len) as nat, |i: int| '0'));
    }
    push_text(s, digits.as_str());
    assert(final(s)@ =~= old(s)@ + zero_padded(n as nat, width as nat));
}

/// `format!("{y:04}-{m:02}-{d:02}")`: the sign of a negative year counts in
/// its width.
pub open spec fn iso_text(y: int, m: int, d: int) -> Seq<char> {
    (if y < 0 {
        seq!['-'] + zero_padded((-y) as nat, 3)
    } else {
        zero_padded(y as nat, 4)
    }) + seq!['-'] + zero_padded(m as nat, 2) + seq!['-'] + zero_padded(d as nat, 2)
}

pub proof fn lemma_civil_ranges(day: int)
    ensures
        1 <= civil_from_days(day).1 <= 12,
        1 <= civil_from_days(day).2 <= 31,
{
    let z = day + 719468;
    let era = z / 146097;
    let doe = z - era * 146097;
    assert(0 <= doe < 146097);
    let t = doe - doe / 1460 + doe / 36524 - doe / 146096;
    let yoe = t / 365;
    let doy = doe - (365 * yoe + yoe / 4 - yoe / 100);
    assert(0 <= doy <= 365) by (nonlinear_arith)
        requires
            0 <= doe < 146097,
            t == doe - doe / 1460 + doe / 36524 - doe / 146096,
            yoe == t / 365,
            doy == doe - (365 * yoe + yoe / 4 - yoe / 100),
    ;
    let mp = (5 * doy + 2) / 153;
    assert(0 <= mp <= 11);
    let d = doy - (153 * mp + 2) / 5 + 1;
    assert(1 <= d <= 31);
}

/// The civil date of a day number gives that day number back.
pub proof fn lemma_civil_round_trip(day: int)
    ensures
        days_of_date(civil_from_days(day)) == day,
{
    let z = day + 719468;
    let era = z / 146097;
    let doe = z - era * 146097;
    assert(0 <= doe < 146097);
    let t = doe - doe / 1460 + doe / 36524 - doe / 146096;
    let yoe = t / 365;
    assert(0 <= yoe < 400) by (nonlinear_arith)
        requires
            0 <= doe < 146097,
            t == doe - doe / 1460 + doe / 36524 - doe / 146096,
            yoe == t / 365,
    ;
    let doy = doe - (365 * yoe + yoe / 4 - yoe / 100);
    lemma_civil_ranges(day);
    let mp = (5 * doy + 2) / 153;
    let d = doy - (153 * mp + 2) / 5 + 1;
    let m = if mp < 10 {
        mp + 3
    } else {
        mp - 9
    };
    let y = yoe + era * 400 + if m <= 2 {
        1int
    } else {
        0int
    };
    assert(civil_from_days(day) == (y, m, d));
    let adj_y = if m <= 2 {
        y - 1
    } else {
        y
    };
    let adj_m = if m <= 2 {
        m + 12
    } else {
        m
    };
    assert(adj_y == yoe + era * 400);
    assert(adj_m == mp + 3);
    assert(adj_y / 400 == era) by (nonlinear_arith)
        requires
            adj_y == yoe + era * 400,
            0 <= yoe < 400,
    ;
    assert(adj_y - era * 400 == yoe);
}

/// A zero-padded number is made of digits, has at least one, and denotes
/// the number.
proof fn lemma_zero_padded(n: nat, width: nat)
    ensures
        zero_padded(n, width).len() >= 1,
        all_digits(zero_padded(n, width)),
        digits_value(zero_padded(n, width)) == n,
{
    lemma_decimal_value(n);
    if decimal(n).len() < width {
        let k = (width - decimal(n).len()) as nat;
        assert(Seq::new(k, |i: int| '0') =~= zeros(k));
        lemma_leading_zeros(k, decimal(n));
    }
}

/// Joining texts with a separator splits back into their pieces.
proof fn lemma_split_join(a: Seq<char>, b: Seq<char>, sep: char)
    ensures
        split_text(a + seq![sep] + b, seq![sep]) == split_text(a, seq![sep]) + split_text(
            b,
            seq![sep],
        ),
{
    let seps = seq![sep];
    let a1 = a + seps;
    assert(a1.drop_last() =~= a);
    assert(a1.last() == sep);
    assert(seps.contains(sep)) by {
        assert(seps[0] == sep);
    }
    assert(split_text(a1, seps) == split_text(a, seps).push(Seq::<char>::empty()));
    lemma_split_text_concat(a1, b, seps);
    crate::text::lemma_split_text_nonempty(b, seps);
    let sa = split_text(a, seps);
    let sb = split_text(b, seps);
    assert(sa.push(Seq::<char>::empty()).drop_last() =~= sa);
    assert(Seq::<char>::empty() + sb[0] =~= sb[0]);
    assert(sa + seq![sb[0]] + sb.drop_first() =~= sa + sb);
}

/// Text made of digits holds no `-`.
proof fn lemma_digits_have_no_dash(s: Seq<char>)
    requires
        all_digits(s),
    ensures
        forall|i: int| 0 <= i < s.len() ==> !seq!['-'].contains(#[trigger] s[i]),
{
    assert forall|i: int| 0 <= i < s.len() implies !seq!['-'].contains(#[trigger] s[i]) by {
        assert(is_digit(s[i]));
        if seq!['-'].contains(s[i]) {
            assert(seq!['-'][0] == '-');
            let j = choose|j: int| 0 <= j < 1 && seq!['-'][j] == s[i];
            assert(s[i] == '-');
        }
    }
}

/// The ISO text of a date with a year from 0 to `i32::MAX` reads back as
/// that date.
pub proof fn lemma_iso_reads_back(y: int, m: int, d: int)
    requires
        0 <= y <= i32::MAX,
        1 <= m <= 12,
        1 <= d <= 31,
    ensures
        ymd_of(iso_text(y, m, d)) == Some((y, m, d)),
        split_text(iso_text(y, m, d), seq!['-']).last() == zero_padded(d as nat, 2),
{
    let ys = zero_padded(y as nat, 4);
    let ms = zero_padded(m as nat, 2);
    let ds = zero_padded(d as nat, 2);
    lemma_zero_padded(y as nat, 4);
    lemma_zero_padded(m as nat, 2);
    lemma_zero_padded(d as nat, 2);
    let dash = seq!['-'];
    lemma_digits_have_no_dash(ys);
    lemma_digits_have_no_dash(ms);
    lemma_digits_have_no_dash(ds);
    lemma_split_text_whole(ys, dash);
    lemma_split_text_whole(ms, dash);
    lemma_split_text_whole(ds, dash);
    let iso = iso_text(y, m, d);
    assert(iso =~= (ys + seq!['-'] + ms) + seq!['-'] + ds);
    lemma_split_join(ys + seq!['-'] + ms, ds, '-');
    lemma_split_join(ys, ms, '-');
    let p = split_text(iso, dash);
    assert(p =~= seq![ys, ms, ds]);
    assert(is_digit(ys[0]));
    assert(ys[0] != '-' && ys[0] != '+');
    assert(ms[0] != '+' && ds[0] != '+') by {
        assert(is_digit(ms[0]));
        assert(is_digit(ds[0]));
    }
    assert(signed_text_value(ys) == Some(y));
    assert(unsigned_text_value(ms) == Some(m as nat));
    assert(unsigned_text_value(ds) == Some(d as nat));
}

/// Every day from year 0 on has ISO text that reads back to it: the text a
/// day prints as, read as a date, gives the same day number.
pub proof fn law_iso_of_day_reads_back(day: int)
    requires
        0 <= civil_from_days(day).0 <= i32::MAX,
    ensures
        ymd_of(iso_text(civil_from_days(day).0, civil_from_days(day).1, civil_from_days(day).2))
            == Some(civil_from_days(day)),
        days_of_date(civil_from_days(day)) == day,
{
    lemma_civil_ranges(day);
    lemma_civil_round_trip(day);
    let c = civil_from_days(day);
    lemma_iso_reads_back(c.0, c.1, c.2);
}

/// The ISO text of a day number (the Gantt's column dates).
pub fn iso_of_day(day: i64) -> (r: String)
    requires
        -4611686018427387904 < day < 4611686018427387904,
    ensures
        r@ == iso_text(civil_from_days(day as int).0, civil_from_days(day as int).1, civil_from_days(day as int).2),
{
    proof {
        lemma_civil_ranges(day as int);
    }
    let (y, m, d) = civil_of(day);
    let mut s = String::new();
    if y < 0 {
        push_char(&mut s, '-');
        push_zero_padded(&mut s, (0 - y) as u64, 3);
    } else {
        push_zero_padded(&mut s, y as u64, 4);
    }
    push_char(&mut s, '-');
    push_zero_padded(&mut s, m as u64, 2);
    push_char(&mut s, '-');
    push_zero_padded(&mut s, d as u64, 2);
    assert(s@ =~= iso_text(y as int, m as int, d as int));
    s
}

/// Dates print with the Spanish month abbreviations in calendar order: a
/// date of month `m` (1 to 12) prints its day, the `m`-th of `ene`, `feb`,
/// `mar`, `abr`, `may`, `jun`, `jul`, `ago`, `sep`, `oct`, `nov`, `dic`,
/// and its year.
pub proof fn law_printed_month_names(iso: Seq<char>, y: int, m: int, d: int)
    requires
        ymd_of(iso) == Some((y, m, d)),
        1 <= m <= 12,
    ensures
        month_short(m) == seq![
            "ene"@,
            "feb"@,
            "mar"@,
            "abr"@,
            "may"@,
            "jun"@,
            "jul"@,
            "ago"@,
            "sep"@,
            "oct"@,
            "nov"@,
            "dic"@,
        ][m - 1],
        date_text(iso) == int_text(d) + seq![' '] + seq![
            "ene"@,
            "feb"@,
            "mar"@,
            "abr"@,
            "may"@,
            "jun"@,
            "jul"@,
            "ago"@,
            "sep"@,
            "oct"@,
            "nov"@,
            "dic"@,
        ][m - 1] + seq![' '] + int_text(y),
{
}

/// Every day number is named by its real weekday: 1970-01-01 (day 0) was a
/// Thursday, and the names run `dom`, `lun`, `mar`, `mié`, `jue`, `vie`,
/// `sáb` one day after another, so a Monday is `lun` and a Friday `vie`.
pub proof fn law_weekday_names(day: int)
    ensures
        weekday_short_name(weekday_of(day)) == seq![
            "dom"@,
            "lun"@,
            "mar"@,
            "mié"@,
            "jue"@,
            "vie"@,
            "sáb"@,
        ][(day + 4) % 7],
        weekday_of(day + 7) == weekday_of(day),
        weekday_of(0) == 4,
{
}

} // verus!
