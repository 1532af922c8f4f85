//! Calendar helpers of the history analytics: `YYYY-MM-DD` text to and from
//! a (year, month, day) triple, month lengths, and the day before a date.

use vstd::prelude::*;
use crate::text;

verus! {

/// (year, month, day)
pub type DateTuple = (i32, u32, u32);

// ---------------------------------------------------------------------------
// Integer parsing (what `str::parse::<i32>` and `str::parse::<u32>` accept)
// ---------------------------------------------------------------------------

/// Every character of `s` is an ASCII digit.
pub open spec fn all_digits(s: Seq<char>) -> bool {
    forall|i: int| 0 <= i < s.len() ==> '0' <= #[trigger] s[i] <= '9'
}

/// The number that the decimal digits `s` denote.
pub open spec fn digits_value(s: Seq<char>) -> nat
    decreases s.len(),
{
    if s.len() == 0 {
        0
    } else {
        digits_value(s.drop_last()) * 10 + ((s.last() as u32) - 48) as nat
    }
}

/// `s` without one leading `'+'`, if it has one.
pub open spec fn unsigned_body(s: Seq<char>) -> Seq<char> {
    if s.len() > 0 && s[0] == '+' {
        s.drop_first()
    } else {
        s
    }
}

/// What `str::parse::<u32>` returns for `s`: an optional `+` followed by one
/// or more ASCII digits whose value fits.
pub open spec fn parse_u32_spec(s: Seq<char>) -> Option<u32> {
    let b = unsigned_body(s);
    if b.len() > 0 && all_digits(b) && digits_value(b) <= u32::MAX {
        Some(digits_value(b) as u32)
    } else {
        None
    }
}

/// What `str::parse::<i32>` returns for `s`: an optional `+` or `-` followed
/// by one or more ASCII digits whose value fits.
pub open spec fn parse_i32_spec(s: Seq<char>) -> Option<i32> {
    if s.len() > 0 && s[0] == '-' {
        let b = s.drop_first();
        if b.len() > 0 && all_digits(b) && digits_value(b) <= 0x8000_0000 {
            Some((0 - digits_value(b)) as i32)
        } else {
            None
        }
    } else {
        let b = unsigned_body(s);
        if b.len() > 0 && all_digits(b) && digits_value(b) <= i32::MAX {
            Some(digits_value(b) as i32)
        } else {
            None
        }
    }
}

/// Reads the decimal digits `s[from..]`; `None` when one is not a digit, when
/// there are none, or when the value exceeds `bound`.
fn read_digits(s: &Vec<char>, from: usize, bound: u64) -> (r: Option<u64>)
    requires
        from <= s.len(),
        9 <= bound,
    ensures
        ({
            let b = s@.skip(from as int);
            r == (if b.len() > 0 && all_digits(b) && digits_value(b) <= bound {
                Some(digits_value(b) as u64)
            } else {
                None
            })
        }),
{
    let ghost b = s@.skip(from as int);
    if from == s.len() {
        return None;
    }
    let mut v: u64 = 0;
    let mut i = from;
    while i < s.len()
        invariant
            from <= i <= s.len(),
            b == s@.skip(from as int),
            9 <= bound,
            all_digits(b.take(i - from)),
            v == digits_value(b.take(i - from)),
            v <= bound,
        decreases s.len() - i,
    {
        let c = s[i];
        assert(b[i - from] == c);
        if !('0' <= c && c <= '9') {
            assert(!all_digits(b));
            return None;
        }
        let d = (c as u32 - 48) as u64;
        proof {
            assert(b.take(i - from + 1).drop_last() =~= b.take(i - from));
            assert(b.take(i - from + 1).last() == c);
        }
        if v > (bound - d) / 10 {
            proof {
                assert(digits_value(b.take(i - from + 1)) > bound);
                lemma_digits_prefix_bound(b, i - from + 1);
            }
            return None;
        }
        v = v * 10 + d;
        i = i + 1;
    }
    assert(b.take(i - from) =~= b);
    Some(v)
}

/// The value of a prefix of a digit string never exceeds that of the whole.
proof fn lemma_digits_prefix_bound(b: Seq<char>, k: int)
    requires
        0 <= k <= b.len(),
    ensures
        all_digits(b) ==> digits_value(b.take(k)) <= digits_value(b),
    decreases b.len() - k,
{
    if k < b.len() {
        lemma_digits_prefix_bound(b, k + 1);
        assert(b.take(k + 1).drop_last() =~= b.take(k));
        if all_digits(b) {
            assert('0' <= b[k] <= '9');
            assert(b.take(k + 1).last() == b[k]);
        }
    } else {
        assert(b.take(k) =~= b);
    }
}

/// Parses `s` as `str::parse::<u32>` does.
pub fn parse_u32(s: &Vec<char>) -> (r: Option<u32>)
    ensures
        r == parse_u32_spec(s@),
{
    let from: usize = if s.len() > 0 && s[0] == '+' {
        1
    } else {
        0
    };
    assert(s@.skip(from as int) =~= unsigned_body(s@));
    match read_digits(s, from, 0xFFFF_FFFF) {
        Some(v) => Some(v as u32),
        None => None,
    }
}

/// Parses `s` as `str::parse::<i32>` does.
pub fn parse_i32(s: &Vec<char>) -> (r: Option<i32>)
    ensures
        r == parse_i32_spec(s@),
{
    if s.len() > 0 && s[0] == '-' {
        assert(s@.skip(1) =~= s@.drop_first());
        match read_digits(s, 1, 0x8000_0000) {
            Some(v) => Some((0 - (v as i64)) as i32),
            None => None,
        }
    } else {
        let from: usize = if s.len() > 0 && s[0] == '+' {
            1
        } else {
            0
        };
        assert(s@.skip(from as int) =~= unsigned_body(s@));
        match read_digits(s, from, 0x7FFF_FFFF) {
            Some(v) => Some(v as i32),
            None => None,
        }
    }
}

// ---------------------------------------------------------------------------
// Splitting on '-'
// ---------------------------------------------------------------------------

/// The pieces of `s[start..]` between `'-'` characters (what `str::split('-')`
/// yields).
pub open spec fn split_dash_from(s: Seq<char>, start: int) -> Seq<Seq<char>>
    decreases s.len() + 1 - start,
{
    if start < 0 || start > s.len() {
        Seq::empty()
    } else {
        match text::find_from(s, seq!['-'], start) {
            Some(p) => {
                proof {
                    text::lemma_find_from(s, seq!['-'], start);
                }
                seq![s.subrange(start, p)] + split_dash_from(s, p + 1)
            },
            None => seq![s.subrange(start, s.len() as int)],
        }
    }
}

/// The pieces of `s` between `'-'` characters.
pub open spec fn split_dash(s: Seq<char>) -> Seq<Seq<char>> {
    split_dash_from(s, 0)
}

/// Splits `s` on `'-'`.
fn split_on_dash(s: &Vec<char>) -> (r: Vec<Vec<char>>)
    ensures
        r@.map_values(|p: Vec<char>| p@) == split_dash(s@),
{
    let mut dash: Vec<char> = Vec::new();
    dash.push('-');
    assert(dash@ =~= seq!['-']);
    let mut out: Vec<Vec<char>> = Vec::new();
    let mut start: usize = 0;
    loop
        invariant
            dash@ == seq!['-'],
            start <= s.len(),
            out@.map_values(|p: Vec<char>| p@) + split_dash_from(s@, start as int) == split_dash(s@),
        decreases s.len() + 1 - start,
    {
        proof { text::lemma_find_from(s@, seq!['-'], start as int); }
        let ghost before = out@.map_values(|p: Vec<char>| p@);
        match text::find_chars(s, &dash, start) {
            Some(p) => {
                let piece = text::slice_chars(s, start, p);
                out.push(piece);
                proof {
                    assert(out@.map_values(|q: Vec<char>| q@) =~= before.push(piece@));
                    assert(out@.map_values(|q: Vec<char>| q@) + split_dash_from(s@, p + 1) =~= before
                        + split_dash_from(s@, start as int));
                }
                start = p + 1;
            },
            None => {
                let piece = text::slice_chars(s, start, s.len());
                out.push(piece);
                proof {
                    assert(out@.map_values(|q: Vec<char>| q@) =~= before.push(piece@));
                    assert(out@.map_values(|q: Vec<char>| q@) =~= before + split_dash_from(
                        s@,
                        start as int,
                    ));
                }
                return out;
            },
        }
    }
}

// ---------------------------------------------------------------------------
// Dates
// ---------------------------------------------------------------------------

/// `s` has at least three `'-'`-separated pieces.
pub open spec fn has_date_fields(s: Seq<char>) -> bool {
    split_dash(s).len() >= 3
}

/// Whether `s` has the three dash-separated pieces that `parse_date` reads.
pub fn date_fields_present(s: &str) -> (r: bool)
    ensures
        r == has_date_fields(s@),
{
    let chars = text::chars_of(s);
    let parts = split_on_dash(&chars);
    parts.len() >= 3
}

/// What `parse_date` makes of `s`: the first three pieces read as year,
/// month and day, with 2026, 1 and 1 in place of a piece that does not parse.
pub open spec fn parse_date_spec(s: Seq<char>) -> DateTuple {
    let parts = split_dash(s);
    (
        match parse_i32_spec(parts[0]) {
            Some(v) => v,
            None => 2026i32,
        },
        match parse_u32_spec(parts[1]) {
            Some(v) => v,
            None => 1u32,
        },
        match parse_u32_spec(parts[2]) {
            Some(v) => v,
            None => 1u32,
        },
    )
}

/// Reads a `YYYY-MM-DD` date; pieces that do not parse default to 2026, 1, 1.
pub fn parse_date(s: &str) -> (r: DateTuple)
    requires
        has_date_fields(s@),
    ensures
        r == parse_date_spec(s@),
{
    let chars = text::chars_of(s);
    let parts = split_on_dash(&chars);
    let ghost pv = parts@.map_values(|p: Vec<char>| p@);
    assert(pv[0] == parts@[0]@ && pv[1] == parts@[1]@ && pv[2] == parts@[2]@);
    let y = match parse_i32(&parts[0]) {
        Some(v) => v,
        None => 2026,
    };
    let m = match parse_u32(&parts[1]) {
        Some(v) => v,
        None => 1,
    };
    let d = match parse_u32(&parts[2]) {
        Some(v) => v,
        None => 1,
    };
    (y, m, d)
}

/// `v` rendered as `format!("{:0w}", v)` renders a signed integer: a minus
/// sign for negative values, then the digits, zero-padded so that sign and
/// digits take at least `w` characters.
pub open spec fn signed_padded(v: int, w: nat) -> Seq<char> {
    if v < 0 {
        seq!['-'] + text::zero_pad(text::dec((0 - v) as nat), (if w > 0 {
            w - 1
        } else {
            0
        }) as nat)
    } else {
        text::zero_pad(text::dec(v as nat), w)
    }
}

/// The text `format_date` makes of `d`: `format!("{:04}-{:02}-{:02}", ..)`.
pub open spec fn format_date_spec(d: DateTuple) -> Seq<char> {
    signed_padded(d.0 as int, 4) + seq!['-'] + text::zero_pad(text::dec(d.1 as nat), 2) + seq!['-']
        + text::zero_pad(text::dec(d.2 as nat), 2)
}

/// Renders a date as `YYYY-MM-DD`.
pub fn format_date(d: DateTuple) -> (r: String)
    ensures
        r@ == format_date_spec(d),
{
    let mut out: Vec<char> = Vec::new();
    if d.0 < 0 {
        out.push('-');
        let mag = (0 - (d.0 as i64)) as u64;
        let digits = text::dec_padded(mag, 3);
        text::push_all(&mut out, &digits);
    } else {
        let digits = text::dec_padded(d.0 as u64, 4);
        text::push_all(&mut out, &digits);
    }
    assert(out@ =~= signed_padded(d.0 as int, 4));
    out.push('-');
    let m = text::dec_padded(d.1 as u64, 2);
    text::push_all(&mut out, &m);
    out.push('-');
    let dd = text::dec_padded(d.2 as u64, 2);
    text::push_all(&mut out, &dd);
    assert(out@ =~= format_date_spec(d));
    text::string_from_chars(&out)
}

/// The local time as `format!("{:04}-{:02}-{:02}T{:02}:{:02}:{:02}", ..)`.
pub open spec fn timestamp_spec(y: u16, mo: u16, d: u16, h: u16, mi: u16, s: u16) -> Seq<char> {
    text::zero_pad(text::dec(y as nat), 4) + seq!['-'] + text::zero_pad(text::dec(mo as nat), 2)
        + seq!['-'] + text::zero_pad(text::dec(d as nat), 2) + seq!['T'] + text::zero_pad(
        text::dec(h as nat),
        2,
    ) + seq![':'] + text::zero_pad(text::dec(mi as nat), 2) + seq![':'] + text::zero_pad(
        text::dec(s as nat),
        2,
    )
}

/// Renders a wall-clock time as an ISO-8601 timestamp without zone.
pub fn format_timestamp(y: u16, mo: u16, d: u16, h: u16, mi: u16, s: u16) -> (r: String)
    ensures
        r@ == timestamp_spec(y, mo, d, h, mi, s),
{
    let mut out = text::dec_padded(y as u64, 4);
    out.push('-');
    let p = text::dec_padded(mo as u64, 2);
    text::push_all(&mut out, &p);
    out.push('-');
    let p = text::dec_padded(d as u64, 2);
    text::push_all(&mut out, &p);
    out.push('T');
    let p = text::dec_padded(h as u64, 2);
    text::push_all(&mut out, &p);
    out.push(':');
    let p = text::dec_padded(mi as u64, 2);
    text::push_all(&mut out, &p);
    out.push(':');
    let p = text::dec_padded(s as u64, 2);
    text::push_all(&mut out, &p);
    assert(out@ =~= timestamp_spec(y, mo, d, h, mi, s));
    text::string_from_chars(&out)
}

/// Whether `y` is a Gregorian leap year.
pub open spec fn is_leap(y: int) -> bool {
    (y % 4 == 0 && y % 100 != 0) || y % 400 == 0
}

/// Days in `month` of `year`; 30 for a number that is not a month.
pub open spec fn days_in_month_spec(year: i32, month: u32) -> u32 {
    if month == 1 || month == 3 || month == 5 || month == 7 || month == 8 || month == 10 || month
        == 12 {
        31
    } else if month == 4 || month == 6 || month == 9 || month == 11 {
        30
    } else if month == 2 {
        if is_leap(year as int) {
            29
        } else {
            28
        }
    } else {
        30
    }
}

/// Days in the given month.
pub fn days_in_month(year: i32, month: u32) -> (r: u32)
    ensures
        r == days_in_month_spec(year, month),
        28 <= r <= 31,
        month == 1 || month == 3 || month == 5 || month == 7 || month == 8 || month == 10 || month == 12
            ==> r == 31,
        month == 4 || month == 6 || month == 9 || month == 11 ==> r == 30,
        month == 2 ==> r == (if (year % 4 == 0 && year % 100 != 0) || year % 400 == 0 {
            29u32
        } else {
            28u32
        }),
{
    match month {
        1 | 3 | 5 | 7 | 8 | 10 | 12 => 31,
        4 | 6 | 9 | 11 => 30,
        2 => {
            if (year % 4 == 0 && year % 100 != 0) || year % 400 == 0 {
                29
            } else {
                28
            }
        },
        _ => 30,
    }
}

/// `d` is not the first of January of the smallest year, so the day before
/// it has a year that fits.
pub open spec fn can_step_back(d: DateTuple) -> bool {
    !(d.2 <= 1 && d.1 <= 1 && d.0 == i32::MIN)
}

/// The day before `d`: the previous day of the month, else the last day of
/// the previous month, else the last day of the previous year.
pub open spec fn prev_day_spec(d: DateTuple) -> DateTuple {
    let (y, m, day) = d;
    if day > 1 {
        (y, m, (day - 1) as u32)
    } else if m > 1 {
        (y, (m - 1) as u32, days_in_month_spec(y, (m - 1) as u32))
    } else {
        ((y - 1) as i32, 12, 31)
    }
}

/// The day before the given date.
pub fn prev_day(d: DateTuple) -> (r: DateTuple)
    requires
        can_step_back(d),
    ensures
        r == prev_day_spec(d),
{
    let (y, m, day) = d;
    if day > 1 {
        (y, m, day - 1)
    } else if m > 1 {
        (y, m - 1, days_in_month(y, m - 1))
    } else {
        (y - 1, 12, 31)
    }
}

/// The date `YYYY-MM-DD` of the day before the given one.
pub open spec fn yesterday_spec(today: Seq<char>) -> Seq<char> {
    format_date_spec(prev_day_spec(parse_date_spec(today)))
}

/// The `YYYY-MM-DD` text of the day before `today`.
pub fn yesterday_date_str(today: &str) -> (r: String)
    requires
        has_date_fields(today@),
        can_step_back(parse_date_spec(today@)),
    ensures
        r@ == yesterday_spec(today@),
{
    let t = parse_date(today);
    let y = prev_day(t);
    format_date(y)
}

// ---------------------------------------------------------------------------
// Laws
// ---------------------------------------------------------------------------

/// A calendar date: a month 1..=12 and a day within that month.
pub open spec fn valid_date(d: DateTuple) -> bool {
    1 <= d.1 <= 12 && 1 <= d.2 <= days_in_month_spec(d.0, d.1)
}

/// The day before a calendar date is a calendar date, and it comes earlier.
pub proof fn lemma_prev_day_valid(d: DateTuple)
    requires
        valid_date(d),
        can_step_back(d),
    ensures
        valid_date(prev_day_spec(d)),
        date_index(prev_day_spec(d)) < date_index(d),
{
}

/// Stepping back from a date whose year, month and day fit its ten-character
/// text lowers the date index.
pub proof fn lemma_prev_day_index(d: DateTuple)
    requires
        -999 <= d.0 <= 9999,
        d.1 <= 99,
        d.2 <= 99,
    ensures
        can_step_back(d),
        date_index(prev_day_spec(d)) < date_index(d),
{
    if d.1 >= 1 {
        lemma_days_in_month_range(d.0, (d.1 - 1) as u32);
    }
}

/// A number used to order dates: year, then month, then day.
pub open spec fn date_index(d: DateTuple) -> int {
    d.0 as int * 10000 + d.1 as int * 100 + d.2 as int
}

/// `10` to the power `k`.
pub open spec fn pow10(k: nat) -> nat
    decreases k,
{
    if k == 0 {
        1
    } else {
        10 * pow10((k - 1) as nat)
    }
}

/// A number with `k + 1` or more decimal digits is at least `10^k`, and back.
pub proof fn lemma_dec_len(n: nat, k: nat)
    ensures
        text::dec(n).len() >= 1,
        n >= pow10(k) ==> text::dec(n).len() >= k + 1,
        k > 0 && text::dec(n).len() >= k + 1 ==> n >= pow10(k),
    decreases n,
{
    if n >= 10 {
        lemma_dec_len(n / 10, (if k > 0 { k - 1 } else { 0 }) as nat);
        if k > 0 {
            assert(pow10(k) == 10 * pow10((k - 1) as nat));
            assert(n >= 10 * (n / 10));
            assert(pow10(0) == 1);
        }
    } else {
        if k > 0 {
            lemma_pow10_pos((k - 1) as nat);
            assert(pow10(k) == 10 * pow10((k - 1) as nat));
        }
    }
}

/// Powers of ten are positive.
pub proof fn lemma_pow10_pos(k: nat)
    ensures
        pow10(k) >= 1,
    decreases k,
{
    if k > 0 {
        lemma_pow10_pos((k - 1) as nat);
    }
}

/// The decimal digits of `n` are ASCII digits.
pub proof fn lemma_dec_digits(n: nat)
    ensures
        all_digits(text::dec(n)),
    decreases n,
{
    if n >= 10 {
        lemma_dec_digits(n / 10);
        assert forall|i: int| 0 <= i < text::dec(n).len() implies '0' <= #[trigger] text::dec(n)[i]
            <= '9' by {
            if i < text::dec(n / 10).len() {
                assert(text::dec(n)[i] == text::dec(n / 10)[i]);
            }
        }
    }
}

/// Zero padding keeps a digit string a digit string and takes at least `w`
/// characters.
pub proof fn lemma_zero_pad(s: Seq<char>, w: nat)
    requires
        all_digits(s),
    ensures
        all_digits(text::zero_pad(s, w)),
        text::zero_pad(s, w).len() == if s.len() < w {
            w
        } else {
            s.len()
        },
{
    let z = text::zero_pad(s, w);
    if s.len() < w {
        assert forall|i: int| 0 <= i < z.len() implies '0' <= #[trigger] z[i] <= '9' by {
            if i >= w - s.len() {
                assert(z[i] == s[i - (w - s.len())]);
            }
        }
    }
}

/// All characters of `s` are ASCII, so it takes one byte per character.
pub proof fn lemma_ascii_utf8_len(s: Seq<char>)
    requires
        forall|i: int| 0 <= i < s.len() ==> (#[trigger] s[i] as u32) < 0x80,
    ensures
        text::utf8_len(s) == s.len(),
    decreases s.len(),
{
    if s.len() > 0 {
        assert forall|i: int| 0 <= i < s.drop_first().len() implies (#[trigger] s.drop_first()[i] as u32)
            < 0x80 by {
            assert(s.drop_first()[i] == s[i + 1]);
        }
        lemma_ascii_utf8_len(s.drop_first());
    }
}

/// A text takes at least one byte per character.
pub proof fn lemma_utf8_len_at_least(s: Seq<char>)
    ensures
        text::utf8_len(s) >= s.len(),
    decreases s.len(),
{
    if s.len() > 0 {
        lemma_utf8_len_at_least(s.drop_first());
    }
}

/// The pieces of the rendered date: year, month and day texts.
proof fn lemma_format_parts(d: DateTuple)
    ensures
        ({
            let a = signed_padded(d.0 as int, 4);
            let b = text::zero_pad(text::dec(d.1 as nat), 2);
            let c = text::zero_pad(text::dec(d.2 as nat), 2);
            &&& format_date_spec(d) == a + seq!['-'] + b + seq!['-'] + c
            &&& a.len() >= 4
            &&& b.len() >= 2
            &&& c.len() >= 2
            &&& all_digits(b) && all_digits(c)
            &&& (d.0 >= 0 ==> all_digits(a))
            &&& (d.0 < 0 ==> a[0] == '-' && all_digits(a.drop_first()))
            &&& (a.len() == 4 ==> -999 <= d.0 <= 9999)
            &&& (b.len() == 2 ==> d.1 <= 99)
            &&& (c.len() == 2 ==> d.2 <= 99)
        }),
{
    let a = signed_padded(d.0 as int, 4);
    lemma_dec_digits(d.1 as nat);
    lemma_dec_digits(d.2 as nat);
    lemma_zero_pad(text::dec(d.1 as nat), 2);
    lemma_zero_pad(text::dec(d.2 as nat), 2);
    lemma_dec_len(d.1 as nat, 2);
    lemma_dec_len(d.2 as nat, 2);
    assert(pow10(2) == 100) by {
        reveal_with_fuel(pow10, 3);
    }
    if d.0 < 0 {
        let mag = (0 - d.0) as nat;
        lemma_dec_digits(mag);
        lemma_zero_pad(text::dec(mag), 3);
        lemma_dec_len(mag, 3);
        assert(pow10(3) == 1000) by {
            reveal_with_fuel(pow10, 4);
        }
        assert(a.drop_first() =~= text::zero_pad(text::dec(mag), 3));
    } else {
        lemma_dec_digits(d.0 as nat);
        lemma_zero_pad(text::dec(d.0 as nat), 4);
        lemma_dec_len(d.0 as nat, 4);
        assert(pow10(4) == 10000) by {
            reveal_with_fuel(pow10, 5);
        }
    }
}

/// A rendered date is ASCII, at least 10 characters long, and exactly 10
/// only for a year in -999..=9999 and month and day below 100.
pub proof fn lemma_format_date_shape(d: DateTuple)
    ensures
        text::utf8_len(format_date_spec(d)) == format_date_spec(d).len(),
        format_date_spec(d).len() >= 10,
        format_date_spec(d).len() == 10 ==> -999 <= d.0 <= 9999 && d.1 <= 99 && d.2 <= 99,
        has_date_fields(format_date_spec(d)),
{
    lemma_format_parts(d);
    let a = signed_padded(d.0 as int, 4);
    let b = text::zero_pad(text::dec(d.1 as nat), 2);
    let c = text::zero_pad(text::dec(d.2 as nat), 2);
    let f = format_date_spec(d);
    assert forall|i: int| 0 <= i < f.len() implies (#[trigger] f[i] as u32) < 0x80 by {
        if i < a.len() {
            assert(f[i] == a[i]);
            if d.0 < 0 && i > 0 {
                assert(a[i] == a.drop_first()[i - 1]);
            }
        } else if i == a.len() {
        } else if i < a.len() + 1 + b.len() {
            assert(f[i] == b[i - a.len() - 1]);
        } else if i == a.len() + 1 + b.len() {
        } else {
            assert(f[i] == c[i - a.len() - 2 - b.len()]);
        }
    }
    lemma_ascii_utf8_len(f);
    let p = a.len() as int;
    let q = (a.len() + 1 + b.len()) as int;
    assert(f[p] == '-');
    assert(f[q] == '-');
    lemma_two_dashes(f, p, q);
}

/// A text with two dashes has at least three dash-separated pieces.
pub proof fn lemma_two_dashes(s: Seq<char>, p: int, q: int)
    requires
        0 <= p < q < s.len(),
        s[p] == '-',
        s[q] == '-',
    ensures
        has_date_fields(s),
{
    let dash = seq!['-'];
    assert(text::occurs_at(s, dash, p)) by {
        assert(s.subrange(p, p + 1) =~= dash);
    }
    assert(text::occurs_at(s, dash, q)) by {
        assert(s.subrange(q, q + 1) =~= dash);
    }
    text::lemma_find_from(s, dash, 0);
    let p1 = text::find_from(s, dash, 0)->0;
    text::lemma_find_from(s, dash, p1 + 1);
    let p2 = text::find_from(s, dash, p1 + 1)->0;
    assert(split_dash_from(s, p2 + 1).len() >= 1);
    assert(split_dash_from(s, p1 + 1).len() >= 2);
}

/// Months have their Gregorian lengths: January, March, May, July, August,
/// October and December have 31 days; April, June, September and November
/// 30; February 29 in a leap year (divisible by 4 and not by 100, or by
/// 400), else 28.
pub proof fn lemma_gregorian_month_lengths(y: i32, m: u32)
    ensures
        m == 1 || m == 3 || m == 5 || m == 7 || m == 8 || m == 10 || m == 12 ==> days_in_month_spec(y, m)
            == 31,
        m == 4 || m == 6 || m == 9 || m == 11 ==> days_in_month_spec(y, m) == 30,
        m == 2 && ((y % 4 == 0 && y % 100 != 0) || y % 400 == 0) ==> days_in_month_spec(y, m) == 29,
        m == 2 && !((y % 4 == 0 && y % 100 != 0) || y % 400 == 0) ==> days_in_month_spec(y, m) == 28,
{
}

/// The day before the first of a month is the last day of the month
/// before: the 31st after a 31-day month, the 30th after a 30-day month,
/// the 29th or 28th of February, and New Year's Eve before January.
pub proof fn lemma_day_before_first_of_month(y: i32, m: u32)
    requires
        1 <= m <= 12,
        can_step_back((y, m, 1)),
    ensures
        m == 2 || m == 4 || m == 6 || m == 8 || m == 9 || m == 11 ==> prev_day_spec((y, m, 1)) == (
            y,
            (m - 1) as u32,
            31u32,
        ),
        m == 5 || m == 7 || m == 10 || m == 12 ==> prev_day_spec((y, m, 1)) == (y, (m - 1) as u32, 30u32),
        m == 3 && ((y % 4 == 0 && y % 100 != 0) || y % 400 == 0) ==> prev_day_spec((y, m, 1)) == (
            y,
            2u32,
            29u32,
        ),
        m == 3 && !((y % 4 == 0 && y % 100 != 0) || y % 400 == 0) ==> prev_day_spec((y, m, 1)) == (
            y,
            2u32,
            28u32,
        ),
        m == 1 ==> prev_day_spec((y, m, 1)) == ((y - 1) as i32, 12u32, 31u32),
        prev_day_spec((y, m, 2)) == (y, m, 1u32),
{
    if m > 1 {
        lemma_gregorian_month_lengths(y, (m - 1) as u32);
    }
}

/// Every month has between 28 and 31 days.
pub proof fn lemma_days_in_month_range(year: i32, month: u32)
    ensures
        28 <= days_in_month_spec(year, month) <= 31,
{
}

/// Leading zeros do not change the value of a digit string.
proof fn lemma_digits_value_leading_zeros(k: nat, s: Seq<char>)
    ensures
        digits_value(Seq::new(k, |_i: int| '0') + s) == digits_value(s),
    decreases s.len() + k,
{
    let z = Seq::new(k, |_i: int| '0');
    if s.len() == 0 {
        assert(z + s =~= z);
        if k > 0 {
            let z1 = Seq::new((k - 1) as nat, |_i: int| '0');
            lemma_digits_value_leading_zeros((k - 1) as nat, s);
            assert(z1 + s =~= z1);
            assert(z.drop_last() =~= z1);
            assert(z.last() == '0');
        }
    } else {
        lemma_digits_value_leading_zeros(k, s.drop_last());
        assert((z + s).drop_last() =~= z + s.drop_last());
        assert((z + s).last() == s.last());
    }
}

/// The digit character of `d` has code `48 + d`.
proof fn lemma_digit_char_value(d: nat)
    requires
        d < 10,
    ensures
        text::digit_char(d) as u32 == d + 48,
{
    let x: u8 = (d + 48) as u8;
    assert(x == d + 48);
    assert(x as char as u32 == x);
}

/// The decimal digits of `n` denote `n`.
proof fn lemma_digits_value_dec(n: nat)
    ensures
        digits_value(text::dec(n)) == n,
    decreases n,
{
    if n >= 10 {
        lemma_digits_value_dec(n / 10);
        let s = text::dec(n);
        assert(s.drop_last() =~= text::dec(n / 10));
        assert(s.last() == text::digit_char(n % 10));
        lemma_digit_char_value(n % 10);
        assert(digits_value(s) == digits_value(text::dec(n / 10)) * 10 + n % 10);
    } else {
        assert(text::dec(n).drop_last() =~= Seq::<char>::empty());
        assert(digits_value(Seq::<char>::empty()) == 0);
        lemma_digit_char_value(n);
    }
}

/// `n` rendered with zero padding reads back as `n`, as a `u32` and as an
/// `i32` wherever it fits.
proof fn lemma_parse_padded(n: nat, w: nat)
    ensures
        n <= u32::MAX ==> parse_u32_spec(text::zero_pad(text::dec(n), w)) == Some(n as u32),
        n <= i32::MAX ==> parse_i32_spec(text::zero_pad(text::dec(n), w)) == Some(n as i32),
{
    let e = text::dec(n);
    let s = text::zero_pad(e, w);
    lemma_dec_digits(n);
    lemma_dec_len(n, 0);
    lemma_zero_pad(e, w);
    lemma_digits_value_dec(n);
    if e.len() < w {
        lemma_digits_value_leading_zeros((w - e.len()) as nat, e);
    }
    assert('0' <= s[0] <= '9');
    assert(unsigned_body(s) == s);
}

/// `s` holds a dash at `p`, and only there does the one-dash needle occur.
proof fn lemma_dash_at(s: Seq<char>, p: int)
    ensures
        text::occurs_at(s, seq!['-'], p) <==> (0 <= p < s.len() && s[p] == '-'),
{
    if 0 <= p < s.len() {
        assert(s.subrange(p, p + 1)[0] == s[p]);
        if s[p] == '-' {
            assert(s.subrange(p, p + 1) =~= seq!['-']);
        }
    }
}

/// From `start`, the next dash of `s` is at `p`.
proof fn lemma_next_dash(s: Seq<char>, start: int, p: int)
    requires
        0 <= start <= p < s.len(),
        s[p] == '-',
        forall|i: int| start <= i < p ==> s[i] != '-',
    ensures
        text::find_from(s, seq!['-'], start) == Some(p),
{
    text::lemma_find_from(s, seq!['-'], start);
    lemma_dash_at(s, p);
    match text::find_from(s, seq!['-'], start) {
        Some(q) => {
            lemma_dash_at(s, q);
            if q > p {
                assert(!text::occurs_at(s, seq!['-'], p));
            }
        },
        None => {
            assert(!text::occurs_at(s, seq!['-'], p));
        },
    }
}

/// A rendered date of a year of zero or more has exactly the year, month and
/// day texts as its dash-separated pieces.
proof fn lemma_split_date(a: Seq<char>, b: Seq<char>, c: Seq<char>)
    requires
        all_digits(a),
        all_digits(b),
        all_digits(c),
    ensures
        split_dash(a + seq!['-'] + b + seq!['-'] + c) == seq![a, b, c],
{
    let s = a + seq!['-'] + b + seq!['-'] + c;
    let p = a.len() as int;
    let q = p + 1 + b.len();
    assert(s[p] == '-');
    assert(s[q] == '-');
    assert forall|i: int| 0 <= i < p implies s[i] != '-' by {
        assert(s[i] == a[i]);
    }
    assert forall|i: int| p + 1 <= i < q implies s[i] != '-' by {
        assert(s[i] == b[i - p - 1]);
    }
    lemma_next_dash(s, 0, p);
    lemma_next_dash(s, p + 1, q);
    text::lemma_find_from(s, seq!['-'], q + 1);
    match text::find_from(s, seq!['-'], q + 1) {
        Some(r) => {
            lemma_dash_at(s, r);
            assert(s[r] == c[r - q - 1]);
        },
        None => {},
    }
    assert(s.subrange(0, p) =~= a);
    assert(s.subrange(p + 1, q) =~= b);
    assert(s.subrange(q + 1, s.len() as int) =~= c);
    assert(split_dash_from(s, q + 1) =~= seq![c]);
    assert(split_dash_from(s, p + 1) =~= seq![b, c]);
    assert(split_dash_from(s, 0) =~= seq![a, b, c]);
}

/// Reading back a rendered date whose year is zero or more gives the date
/// itself.
pub proof fn lemma_parse_format_roundtrip(d: DateTuple)
    requires
        d.0 >= 0,
    ensures
        parse_date_spec(format_date_spec(d)) == d,
{
    lemma_format_parts(d);
    let a = signed_padded(d.0 as int, 4);
    let b = text::zero_pad(text::dec(d.1 as nat), 2);
    let c = text::zero_pad(text::dec(d.2 as nat), 2);
    lemma_split_date(a, b, c);
    lemma_parse_padded(d.0 as nat, 4);
    lemma_parse_padded(d.1 as nat, 2);
    lemma_parse_padded(d.2 as nat, 2);
}

} // verus!
