//! Text helpers shared by the signature and structure parsers: C strings,
//! decimal and hexadecimal numerals, and UTC time stamps.
use vstd::prelude::*;

verus! {

/// `std::string::String::push`: appends one character at the end of the string.
#[verifier::external_body]
pub(crate) fn string_push(s: &mut String, c: char)
    ensures
        final(s)@ == old(s)@.push(c),
{
    s.push(c);
}

// ---------------------------------------------------------------------------
// C strings
// ---------------------------------------------------------------------------

/// Number of bytes before the first NUL of `raw` (all of them when there is none).
pub open spec fn cstring_len(raw: Seq<u8>) -> nat
    decreases raw.len(),
{
    if raw.len() == 0 || raw[0] == 0 {
        0
    } else {
        1 + cstring_len(raw.drop_first())
    }
}

/// The C string held at the start of `raw`: the bytes before the first NUL,
/// each read as the character with the same code point.
pub open spec fn cstring_chars(raw: Seq<u8>) -> Seq<char> {
    raw.take(cstring_len(raw) as int).map_values(|b: u8| b as char)
}

/// `text` is the C string held at the start of `raw`: it has no NUL, agrees
/// with `raw` byte for byte, and ends where `raw` ends or at a NUL of `raw`.
pub open spec fn is_cstring_of(text: Seq<char>, raw: Seq<u8>) -> bool {
    &&& text.len() <= raw.len()
    &&& forall|i: int| 0 <= i < text.len() ==> #[trigger] raw[i] != 0
    &&& forall|i: int| 0 <= i < text.len() ==> #[trigger] text[i] as int == raw[i] as int
    &&& text.len() == raw.len() || raw[text.len() as int] == 0
}

proof fn lemma_cstring_len(raw: Seq<u8>, n: nat)
    requires
        n <= raw.len(),
        forall|i: int| 0 <= i < n ==> #[trigger] raw[i] != 0,
        n == raw.len() || raw[n as int] == 0,
    ensures
        cstring_len(raw) == n,
    decreases n,
{
    if n > 0 {
        let rest = raw.drop_first();
        assert forall|i: int| 0 <= i < n - 1 implies #[trigger] rest[i] != 0 by {
            assert(rest[i] == raw[i + 1]);
        }
        if n < raw.len() {
            assert(rest[n - 1] == raw[n as int]);
        }
        lemma_cstring_len(rest, (n - 1) as nat);
    }
}

/// There is one C string at the start of any bytes: `is_cstring_of` holds of
/// `cstring_chars` and of nothing else.
pub proof fn lemma_cstring_unique(text: Seq<char>, raw: Seq<u8>)
    ensures
        is_cstring_of(text, raw) <==> text == cstring_chars(raw),
{
    let n = cstring_len(raw);
    lemma_cstring_len_bounds(raw);
    let c = cstring_chars(raw);
    assert forall|i: int| 0 <= i < c.len() implies #[trigger] c[i] as int == raw[i] as int by {
        assert(c[i] == raw[i] as char);
    }
    if is_cstring_of(text, raw) {
        lemma_cstring_len(raw, text.len());
        assert forall|i: int| 0 <= i < text.len() implies #[trigger] text[i] == c[i] by {
            assert(text[i] as int == raw[i] as int);
            assert(c[i] as int == raw[i] as int);
        }
        assert(text =~= c);
    }
}

/// `cstring_len` counts the bytes before the first NUL, or all bytes when there is none.
pub proof fn lemma_cstring_len_bounds(raw: Seq<u8>)
    ensures
        cstring_len(raw) <= raw.len(),
        forall|i: int| 0 <= i < cstring_len(raw) ==> #[trigger] raw[i] != 0,
        cstring_len(raw) == raw.len() || raw[cstring_len(raw) as int] == 0,
    decreases raw.len(),
{
    if raw.len() > 0 && raw[0] != 0 {
        let rest = raw.drop_first();
        lemma_cstring_len_bounds(rest);
        assert forall|i: int| 0 <= i < cstring_len(raw) implies #[trigger] raw[i] != 0 by {
            if i > 0 {
                assert(raw[i] == rest[i - 1]);
            }
        }
        if cstring_len(raw) < raw.len() {
            assert(raw[cstring_len(raw) as int] == rest[cstring_len(rest) as int]);
        }
    }
}

/// Reads the NUL-terminated string at the start of `raw_data`.
pub fn get_cstring(raw_data: &[u8]) -> (string: String)
    ensures
        string@ == cstring_chars(raw_data@),
{
    let mut string = String::new();
    let mut i: usize = 0;
    while i < raw_data.len() && raw_data[i] != 0
        invariant
            i <= raw_data.len(),
            string@.len() == i,
            forall|j: int| 0 <= j < i ==> #[trigger] raw_data@[j] != 0,
            forall|j: int| 0 <= j < i ==> #[trigger] string@[j] as int == raw_data@[j] as int,
        decreases raw_data.len() - i,
    {
        let byte = raw_data[i];
        let c = byte as char;
        let ghost before = string@;
        string_push(&mut string, c);
        assert(c as int == byte as int);
        assert(string@[i as int] == c);
        assert forall|j: int| 0 <= j < i + 1 implies #[trigger] string@[j] as int == raw_data@[j] as int by {
            if j < i {
                assert(string@[j] == before[j]);
            }
        }
        i = i + 1;
    }
    proof {
        lemma_cstring_unique(string@, raw_data@);
    }
    string
}

// ---------------------------------------------------------------------------
// Numerals
// ---------------------------------------------------------------------------

/// The digit for `d` (below 16): `0`-`9`, then upper-case `A`-`F`.
pub open spec fn digit_char(d: nat) -> char {
    if d < 10 {
        (('0' as nat) + d) as char
    } else {
        (('A' as nat) + d - 10) as char
    }
}

/// The decimal numeral of `n`, without leading zeros.
pub open spec fn decimal_text(n: nat) -> Seq<char>
    decreases n,
{
    if n < 10 {
        seq![digit_char(n)]
    } else {
        decimal_text(n / 10).push(digit_char(n % 10))
    }
}

/// The last `width` digits of `n` written in `base` (10 or 16), most
/// significant first, with leading zeros.
pub open spec fn padded_digits(n: nat, base: nat, width: nat) -> Seq<char>
    decreases width,
{
    if width == 0 {
        Seq::empty()
    } else {
        padded_digits(n / base, base, (width - 1) as nat).push(digit_char(n % base))
    }
}

/// The value that the digits `s` (of `digit_char`) stand for in `base`.
pub open spec fn digits_value(s: Seq<char>, base: nat) -> nat
    decreases s.len(),
{
    if s.len() == 0 {
        0
    } else {
        digits_value(s.drop_last(), base) * base + digit_value(s.last())
    }
}

/// The number that a digit character stands for.
pub open spec fn digit_value(c: char) -> nat {
    if '0' <= c <= '9' {
        (c as nat - '0' as nat) as nat
    } else if 'A' <= c <= 'F' {
        (c as nat - 'A' as nat + 10) as nat
    } else {
        0
    }
}

fn digit(d: u64) -> (c: char)
    requires
        d < 16,
    ensures
        c == digit_char(d as nat),
{
    if d < 10 {
        let b: u8 = 48u8 + d as u8;
        b as char
    } else {
        let b: u8 = 55u8 + d as u8;
        b as char
    }
}

/// Appends the decimal numeral of `n`.
pub fn push_decimal(s: &mut String, n: u64)
    ensures
        final(s)@ == old(s)@ + decimal_text(n as nat),
    decreases n,
{
    if n >= 10 {
        push_decimal(s, n / 10);
    }
    string_push(s, digit(n % 10));
    assert(s@ =~= old(s)@ + decimal_text(n as nat));
}

/// Appends the last `width` digits of `n` in `base` (10 or 16), with leading zeros.
pub fn push_padded(s: &mut String, n: u64, base: u64, width: u64)
    requires
        base == 10 || base == 16,
    ensures
        final(s)@ == old(s)@ + padded_digits(n as nat, base as nat, width as nat),
    decreases width,
{
    if width == 0 {
        assert(s@ =~= old(s)@ + padded_digits(n as nat, base as nat, width as nat));
        return;
    }
    push_padded(s, n / base, base, width - 1);
    string_push(s, digit(n % base));
    assert(s@ =~= old(s)@ + padded_digits(n as nat, base as nat, width as nat));
}

/// A decimal digit.
pub open spec fn is_decimal_digit(c: char) -> bool {
    '0' <= c <= '9'
}

/// A digit of `base` (10 or 16; hexadecimal digits above 9 in upper case).
pub open spec fn is_digit_in_base(c: char, base: nat) -> bool {
    ||| '0' <= c <= '9'
    ||| base == 16 && 'A' <= c <= 'F'
}

/// `s` is a decimal numeral as usually written: digits only, at least one,
/// and no leading zero unless the number is zero.
pub open spec fn is_decimal_numeral(s: Seq<char>) -> bool {
    &&& s.len() >= 1
    &&& forall|i: int| 0 <= i < s.len() ==> is_decimal_digit(#[trigger] s[i])
    &&& s.len() > 1 ==> s[0] != '0'
}

/// `s` is made of `width` digits of `base`.
pub open spec fn is_padded_numeral(s: Seq<char>, base: nat, width: nat) -> bool {
    &&& s.len() == width
    &&& forall|i: int| 0 <= i < s.len() ==> is_digit_in_base(#[trigger] s[i], base)
}

proof fn lemma_digit_char_is_digit(d: nat, base: nat)
    requires
        d < base,
        base == 10 || base == 16,
    ensures
        is_digit_in_base(digit_char(d), base),
        base == 10 ==> is_decimal_digit(digit_char(d)),
        digit_char(d) == '0' <==> d == 0,
{
}

/// The decimal numeral of `n` is a numeral without leading zeros that reads
/// back as `n`.
pub proof fn lemma_decimal_text_reads_back(n: nat)
    ensures
        is_decimal_numeral(decimal_text(n)),
        digits_value(decimal_text(n), 10) == n,
    decreases n,
{
    lemma_decimal_text_value(n);
    lemma_digit_char_is_digit(n % 10, 10);
    if n >= 10 {
        lemma_decimal_text_reads_back(n / 10);
        let t = decimal_text(n);
        let u = decimal_text(n / 10);
        assert(t == u.push(digit_char(n % 10)));
        assert forall|i: int| 0 <= i < t.len() implies is_decimal_digit(#[trigger] t[i]) by {
            if i < u.len() {
                assert(t[i] == u[i]);
            }
        }
        assert(t[0] == u[0]);
        if n / 10 < 10 {
            assert(u == seq![digit_char(n / 10)]);
            lemma_digit_char_is_digit(n / 10, 10);
        } else {
            lemma_decimal_text_value(n / 100);
            assert(u == decimal_text(n / 10 / 10).push(digit_char((n / 10) % 10)));
            assert(u.len() > 1);
        }
    }
}

/// The padded numeral of `n` is made of `width` digits of `base`.
pub proof fn lemma_padded_digits_are_digits(n: nat, base: nat, width: nat)
    requires
        base == 10 || base == 16,
    ensures
        is_padded_numeral(padded_digits(n, base, width), base, width),
    decreases width,
{
    if width > 0 {
        lemma_padded_digits_are_digits(n / base, base, (width - 1) as nat);
        lemma_digit_char_is_digit(n % base, base);
        let t = padded_digits(n, base, width);
        let u = padded_digits(n / base, base, (width - 1) as nat);
        assert(t == u.push(digit_char(n % base)));
        assert forall|i: int| 0 <= i < t.len() implies is_digit_in_base(#[trigger] t[i], base) by {
            if i < u.len() {
                assert(t[i] == u[i]);
            }
        }
    }
}

/// A number below `base^width` written with `width` padded digits reads back
/// as itself.
pub proof fn lemma_padded_digits_read_back(n: nat, base: nat, width: nat)
    requires
        base == 10 || base == 16,
        n < vstd::arithmetic::power::pow(base as int, width),
    ensures
        is_padded_numeral(padded_digits(n, base, width), base, width),
        digits_value(padded_digits(n, base, width), base) == n,
{
    lemma_padded_digits_are_digits(n, base, width);
    lemma_padded_digits_value(n, base, width);
}

/// Reading back the digits of `digit_char` gives the number.
pub proof fn lemma_digit_roundtrip(d: nat)
    requires
        d < 16,
    ensures
        digit_value(digit_char(d)) == d,
{
}

/// The decimal numeral of `n` reads back as `n`.
pub proof fn lemma_decimal_text_value(n: nat)
    ensures
        digits_value(decimal_text(n), 10) == n,
        decimal_text(n).len() >= 1,
    decreases n,
{
    if n < 10 {
        lemma_digit_roundtrip(n);
        let t = decimal_text(n);
        assert(t.drop_last() =~= Seq::<char>::empty());
        assert(digits_value(t.drop_last(), 10) == 0);
        assert(digits_value(t, 10) == digits_value(t.drop_last(), 10) * 10 + digit_value(t.last()));
    } else {
        lemma_decimal_text_value(n / 10);
        lemma_digit_roundtrip(n % 10);
        let t = decimal_text(n);
        assert(t == decimal_text(n / 10).push(digit_char(n % 10)));
        assert(t.drop_last() =~= decimal_text(n / 10));
        assert(t.last() == digit_char(n % 10));
        assert(digits_value(t, 10) == digits_value(t.drop_last(), 10) * 10 + digit_value(t.last()));
    }
}

/// The padded numeral of `n` has exactly `width` digits and reads back as `n`
/// when `n` has no more than `width` digits.
pub proof fn lemma_padded_digits_value(n: nat, base: nat, width: nat)
    requires
        base == 10 || base == 16,
        n < vstd::arithmetic::power::pow(base as int, width),
    ensures
        padded_digits(n, base, width).len() == width,
        digits_value(padded_digits(n, base, width), base) == n,
    decreases width,
{
    vstd::arithmetic::power::lemma_pow_positive(base as int, width);
    if width == 0 {
        vstd::arithmetic::power::lemma_pow0(base as int);
    } else {
        vstd::arithmetic::power::lemma_pow_adds(base as int, (width - 1) as nat, 1);
        vstd::arithmetic::power::lemma_pow1(base as int);
        let p = vstd::arithmetic::power::pow(base as int, (width - 1) as nat);
        assert(n / base < p) by (nonlinear_arith)
            requires
                n < p * base,
                base > 0,
        ;
        lemma_padded_digits_value(n / base, base, (width - 1) as nat);
        lemma_digit_roundtrip(n % base);
        assert(padded_digits(n, base, width).drop_last() =~= padded_digits(n / base, base, (width - 1) as nat));
        assert(n == (n / base) * base + n % base) by (nonlinear_arith)
            requires
                base > 0,
        ;
    }
}

// ---------------------------------------------------------------------------
// UTC time stamps
// ---------------------------------------------------------------------------

/// Leap years of the proleptic Gregorian calendar.
pub open spec fn is_leap_year(y: int) -> bool {
    (y % 4 == 0 && y % 100 != 0) || y % 400 == 0
}

pub open spec fn days_in_year(y: int) -> nat {
    if is_leap_year(y) {
        366
    } else {
        365
    }
}

/// The length of month `m` (1 to 12) of year `y`.
pub open spec fn days_in_month(y: int, m: int) -> nat {
    if m == 2 {
        if is_leap_year(y) {
            29
        } else {
            28
        }
    } else if m == 4 || m == 6 || m == 9 || m == 11 {
        30
    } else {
        31
    }
}

/// Days from 1970-01-01 to the first day of year `y`.
pub open spec fn days_before_year(y: int) -> nat
    decreases y - 1970,
{
    if y <= 1970 {
        0
    } else {
        days_before_year(y - 1) + days_in_year(y - 1)
    }
}

/// Days from the first of January of year `y` to the first day of month `m`.
pub open spec fn days_before_month(y: int, m: int) -> nat
    decreases m,
{
    if m <= 1 {
        0
    } else {
        days_before_month(y, m - 1) + days_in_month(y, m - 1)
    }
}

/// `(year, month, day, hour, minute, second)` is the UTC calendar time that
/// lies `ts` seconds after 1970-01-01 00:00:00.
pub open spec fn is_calendar_time(t: (int, int, int, int, int, int), ts: nat) -> bool {
    let (year, month, day, hour, minute, second) = t;
    &&& 1970 <= year
    &&& 1 <= month <= 12
    &&& 1 <= day <= days_in_month(year, month)
    &&& 0 <= hour < 24
    &&& 0 <= minute < 60
    &&& 0 <= second < 60
    &&& (days_before_year(year) + days_before_month(year, month) + day - 1) * 86400 + hour * 3600
        + minute * 60 + second == ts
}

/// The year that day number `days` (counted from the first day of year `y`)
/// falls in, and the day's number within that year.
pub open spec fn year_of_day(days: nat, y: int) -> (int, nat)
    decreases days,
{
    if days < days_in_year(y) {
        (y, days)
    } else {
        year_of_day((days - days_in_year(y)) as nat, y + 1)
    }
}

/// The month that day `days` of year `y` (counted from the first day of month
/// `m`) falls in, and the day's number within that month.
pub open spec fn month_of_day(y: int, days: nat, m: int) -> (int, nat)
    decreases 12 - m,
{
    if m >= 12 || days < days_in_month(y, m) {
        (m, days)
    } else {
        month_of_day(y, (days - days_in_month(y, m)) as nat, m + 1)
    }
}

/// The UTC calendar time `ts` seconds after 1970-01-01 00:00:00.
pub open spec fn utc_datetime(ts: nat) -> (int, int, int, int, int, int) {
    let (year, yday) = year_of_day(ts / 86400, 1970);
    let (month, mday) = month_of_day(year, yday, 1);
    (year, month, (mday + 1) as int, ((ts % 86400) / 3600) as int, ((ts % 3600) / 60) as int, (ts % 60) as int)
}

/// `YYYY-MM-DD hh:mm:ss` for the UTC time `ts` seconds after the epoch.
pub open spec fn utc_text(ts: nat) -> Seq<char> {
    let (year, month, day, hour, minute, second) = utc_datetime(ts);
    padded_digits(year as nat, 10, 4) + "-"@ + padded_digits(month as nat, 10, 2) + "-"@
        + padded_digits(day as nat, 10, 2) + " "@ + padded_digits(hour as nat, 10, 2) + ":"@
        + padded_digits(minute as nat, 10, 2) + ":"@ + padded_digits(second as nat, 10, 2)
}

proof fn lemma_year_of_day(days: nat, y: int)
    requires
        y >= 1970,
    ensures
        year_of_day(days, y).0 >= y,
        year_of_day(days, y).1 < days_in_year(year_of_day(days, y).0),
        days_before_year(year_of_day(days, y).0) + year_of_day(days, y).1 == days_before_year(y)
            + days,
    decreases days,
{
    if days >= days_in_year(y) {
        lemma_year_of_day((days - days_in_year(y)) as nat, y + 1);
    }
}

proof fn lemma_months_fill_year(y: int)
    ensures
        days_before_month(y, 12) + days_in_month(y, 12) == days_in_year(y),
{
    reveal_with_fuel(days_before_month, 12);
}

proof fn lemma_month_of_day(y: int, days: nat, m: int)
    requires
        1 <= m <= 12,
        days_before_month(y, m) + days < days_in_year(y),
    ensures
        m <= month_of_day(y, days, m).0 <= 12,
        month_of_day(y, days, m).1 < days_in_month(y, month_of_day(y, days, m).0),
        days_before_month(y, month_of_day(y, days, m).0) + month_of_day(y, days, m).1
            == days_before_month(y, m) + days,
    decreases 12 - m,
{
    lemma_months_fill_year(y);
    if m < 12 && days >= days_in_month(y, m) {
        lemma_month_of_day(y, (days - days_in_month(y, m)) as nat, m + 1);
    }
}

/// The time stamp text is the true calendar time: `utc_datetime(ts)` is the
/// UTC date and time that lies `ts` seconds after 1970-01-01 00:00:00.
pub proof fn lemma_utc_datetime_is_calendar_time(ts: nat)
    ensures
        is_calendar_time(utc_datetime(ts), ts),
{
    let days = ts / 86400;
    lemma_year_of_day(days, 1970);
    let (year, yday) = year_of_day(days, 1970);
    lemma_month_of_day(year, yday, 1);
    let (month, mday) = month_of_day(year, yday, 1);
    lemma_seconds_of_day(ts);
}

proof fn lemma_seconds_of_day(ts: nat)
    ensures
        ts == (ts / 86400) * 86400 + ts % 86400,
        ts % 86400 == ((ts % 86400) / 3600) * 3600 + ((ts % 3600) / 60) * 60 + ts % 60,
        (ts % 86400) / 3600 < 24,
        (ts % 3600) / 60 < 60,
{
    assert(ts == (ts / 86400) * 86400 + ts % 86400) by (nonlinear_arith);
    assert(ts % 86400 == ((ts % 86400) / 3600) * 3600 + ((ts % 3600) / 60) * 60 + ts % 60) by (nonlinear_arith);
    assert((ts % 86400) / 3600 < 24) by (nonlinear_arith);
    assert((ts % 3600) / 60 < 60) by (nonlinear_arith);
}

proof fn lemma_days_before_year_grows(y1: int, y2: int)
    requires
        1970 <= y1 < y2,
    ensures
        days_before_year(y2) >= days_before_year(y1) + days_in_year(y1),
    decreases y2 - y1,
{
    if y2 > y1 + 1 {
        lemma_days_before_year_grows(y1, y2 - 1);
    }
}

proof fn lemma_days_before_month_grows(y: int, m1: int, m2: int)
    requires
        1 <= m1 < m2,
    ensures
        days_before_month(y, m2) >= days_before_month(y, m1) + days_in_month(y, m1),
    decreases m2 - m1,
{
    if m2 > m1 + 1 {
        lemma_days_before_month_grows(y, m1, m2 - 1);
    }
}

proof fn lemma_month_within_year(y: int, m: int)
    requires
        1 <= m <= 12,
    ensures
        days_before_month(y, m) + days_in_month(y, m) <= days_in_year(y),
{
    lemma_months_fill_year(y);
    if m < 12 {
        lemma_days_before_month_grows(y, m, 12);
    }
}

/// A time stamp has one calendar time: with `lemma_utc_datetime_is_calendar_time`,
/// `utc_datetime(ts)` is the only UTC date and time `ts` seconds after the epoch.
pub proof fn lemma_calendar_time_unique(t1: (int, int, int, int, int, int), t2: (int, int, int, int, int, int), ts: nat)
    requires
        is_calendar_time(t1, ts),
        is_calendar_time(t2, ts),
    ensures
        t1 == t2,
{
    let (y1, m1, d1, h1, n1, s1) = t1;
    let (y2, m2, d2, h2, n2, s2) = t2;
    let day1 = days_before_year(y1) + days_before_month(y1, m1) + d1 - 1;
    let day2 = days_before_year(y2) + days_before_month(y2, m2) + d2 - 1;
    let sec1 = h1 * 3600 + n1 * 60 + s1;
    let sec2 = h2 * 3600 + n2 * 60 + s2;
    assert(day1 == day2 && sec1 == sec2) by (nonlinear_arith)
        requires
            day1 * 86400 + sec1 == day2 * 86400 + sec2,
            0 <= sec1 < 86400,
            0 <= sec2 < 86400,
    ;
    assert(h1 == h2 && n1 == n2 && s1 == s2) by (nonlinear_arith)
        requires
            h1 * 3600 + n1 * 60 + s1 == h2 * 3600 + n2 * 60 + s2,
            0 <= n1 < 60,
            0 <= s1 < 60,
            0 <= n2 < 60,
            0 <= s2 < 60,
    ;
    lemma_month_within_year(y1, m1);
    lemma_month_within_year(y2, m2);
    if y1 < y2 {
        lemma_days_before_year_grows(y1, y2);
    } else if y2 < y1 {
        lemma_days_before_year_grows(y2, y1);
    }
    assert(y1 == y2);
    if m1 < m2 {
        lemma_days_before_month_grows(y1, m1, m2);
    } else if m2 < m1 {
        lemma_days_before_month_grows(y1, m2, m1);
    }
    assert(m1 == m2);
}

/// The Gregorian month lengths, January first.
pub open spec fn gregorian_month_lengths(leap: bool) -> Seq<nat> {
    seq![31, if leap { 29 } else { 28 }, 31, 30, 31, 30, 31, 31, 30, 31, 30, 31]
}

/// The calendar is the Gregorian one: a year is a leap year when it is divisible
/// by 4 but not by 100, or by 400; it then has 366 days, else 365; April, June,
/// September and November have 30 days, February 29 in a leap year and 28
/// otherwise, and the other months 31.
pub proof fn lemma_calendar_is_gregorian(y: int, m: int)
    requires
        1 <= m <= 12,
    ensures
        is_leap_year(y) <==> (y % 4 == 0 && (y % 100 != 0 || y % 400 == 0)),
        days_in_year(y) == if y % 4 == 0 && (y % 100 != 0 || y % 400 == 0) {
            366nat
        } else {
            365nat
        },
        days_in_month(y, m) == gregorian_month_lengths(y % 4 == 0 && (y % 100 != 0 || y % 400 == 0))[m - 1],
{
}

proof fn lemma_days_before_year_at_least(y: int)
    requires
        y >= 1970,
    ensures
        days_before_year(y) >= 365 * (y - 1970),
    decreases y - 1970,
{
    if y > 1970 {
        lemma_days_before_year_at_least(y - 1);
    }
}

/// The time stamp text reads back as the calendar time: it is four digits of
/// year, two of month, day, hour, minute and second, separated as in
/// `YYYY-MM-DD hh:mm:ss`, and the numbers they spell are the UTC date and time
/// `ts` seconds after 1970-01-01 00:00:00.
pub proof fn lemma_utc_text_reads_back(ts: nat) -> (parts: (
    Seq<char>,
    Seq<char>,
    Seq<char>,
    Seq<char>,
    Seq<char>,
    Seq<char>,
))
    requires
        ts <= u32::MAX,
    ensures
        ({
            let (yy, mo, dd, hh, mi, ss) = parts;
            &&& utc_text(ts) == yy + "-"@ + mo + "-"@ + dd + " "@ + hh + ":"@ + mi + ":"@ + ss
            &&& is_padded_numeral(yy, 10, 4)
            &&& is_padded_numeral(mo, 10, 2)
            &&& is_padded_numeral(dd, 10, 2)
            &&& is_padded_numeral(hh, 10, 2)
            &&& is_padded_numeral(mi, 10, 2)
            &&& is_padded_numeral(ss, 10, 2)
            &&& is_calendar_time(
                (
                    digits_value(yy, 10) as int,
                    digits_value(mo, 10) as int,
                    digits_value(dd, 10) as int,
                    digits_value(hh, 10) as int,
                    digits_value(mi, 10) as int,
                    digits_value(ss, 10) as int,
                ),
                ts,
            )
        }),
{
    let t = utc_datetime(ts);
    let (year, month, day, hour, minute, second) = t;
    lemma_utc_datetime_is_calendar_time(ts);
    lemma_days_before_year_at_least(year);
    assert(year < 10000);
    assert(day <= 31);
    reveal_with_fuel(vstd::arithmetic::power::pow, 5);
    assert(vstd::arithmetic::power::pow(10, 4) == 10000) by {
        reveal_with_fuel(vstd::arithmetic::power::pow, 5);
    }
    assert(vstd::arithmetic::power::pow(10, 2) == 100) by {
        reveal_with_fuel(vstd::arithmetic::power::pow, 3);
    }
    lemma_padded_digits_read_back(year as nat, 10, 4);
    lemma_padded_digits_read_back(month as nat, 10, 2);
    lemma_padded_digits_read_back(day as nat, 10, 2);
    lemma_padded_digits_read_back(hour as nat, 10, 2);
    lemma_padded_digits_read_back(minute as nat, 10, 2);
    lemma_padded_digits_read_back(second as nat, 10, 2);
    (
        padded_digits(year as nat, 10, 4),
        padded_digits(month as nat, 10, 2),
        padded_digits(day as nat, 10, 2),
        padded_digits(hour as nat, 10, 2),
        padded_digits(minute as nat, 10, 2),
        padded_digits(second as nat, 10, 2),
    )
}

fn is_leap(y: u64) -> (b: bool)
    ensures
        b == is_leap_year(y as int),
{
    (y % 4 == 0 && y % 100 != 0) || y % 400 == 0
}

fn year_length(y: u64) -> (n: u64)
    ensures
        n == days_in_year(y as int),
{
    if is_leap(y) {
        366
    } else {
        365
    }
}

fn month_length(y: u64, m: u64) -> (n: u64)
    ensures
        n == days_in_month(y as int, m as int),
{
    if m == 2 {
        if is_leap(y) {
            29
        } else {
            28
        }
    } else if m == 4 || m == 6 || m == 9 || m == 11 {
        30
    } else {
        31
    }
}

/// Formats a UNIX time stamp as the UTC time `YYYY-MM-DD hh:mm:ss`.
pub fn epoch_to_string(epoch_timestamp: u32) -> (text: String)
    ensures
        text@ == utc_text(epoch_timestamp as nat),
{
    let ts: u64 = epoch_timestamp as u64;
    let all_days: u64 = ts / 86400;
    let mut days: u64 = all_days;
    let mut year: u64 = 1970;
    while days >= year_length(year)
        invariant
            1970 <= year,
            year - 1970 + days <= all_days,
            all_days == ts / 86400,
            ts <= u32::MAX,
            year_of_day(days as nat, year as int) == year_of_day(all_days as nat, 1970),
        decreases days,
    {
        days = days - year_length(year);
        year = year + 1;
    }
    let year_day: u64 = days;
    let mut month: u64 = 1;
    while month < 12 && days >= month_length(year, month)
        invariant
            1 <= month <= 12,
            days <= year_day,
            month_of_day(year as int, days as nat, month as int) == month_of_day(
                year as int,
                year_day as nat,
                1,
            ),
        decreases 12 - month,
    {
        days = days - month_length(year, month);
        month = month + 1;
    }
    let secs: u64 = ts % 86400;
    let mut text = String::new();
    push_padded(&mut text, year, 10, 4);
    text.append("-");
    push_padded(&mut text, month, 10, 2);
    text.append("-");
    push_padded(&mut text, days + 1, 10, 2);
    text.append(" ");
    push_padded(&mut text, secs / 3600, 10, 2);
    text.append(":");
    push_padded(&mut text, (ts % 3600) / 60, 10, 2);
    text.append(":");
    push_padded(&mut text, ts % 60, 10, 2);
    text
}

} // verus!
