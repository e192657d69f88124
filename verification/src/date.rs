use vstd::prelude::*;
use chrono::Datelike;

use crate::text::{append_chars, chars_of, push_char};

verus! {

/// A day of the proleptic Gregorian calendar, within the years `chrono` can hold.
#[derive(Clone, Copy, Debug, PartialEq, Eq, Structural, Hash)]
pub struct Date {
    year: i32,
    month: u32,
    day: u32,
}

impl Date {
    /// Every date is a day of the calendar.
    #[verifier::type_invariant]
    spec fn is_valid(self) -> bool {
        is_calendar_date(self.year as int, self.month as int, self.day as int)
    }

    /// The year of the date.
    pub closed spec fn year_of(self) -> i32 {
        self.year
    }

    /// The month of the date (1 to 12).
    pub closed spec fn month_of(self) -> u32 {
        self.month
    }

    /// The day of the month.
    pub closed spec fn day_of(self) -> u32 {
        self.day
    }

    /// The year of the date.
    pub fn year(&self) -> (res: i32)
        ensures
            res == self.year_of(),
            is_calendar_date(self.year_of() as int, self.month_of() as int, self.day_of() as int),
    {
        proof {
            use_type_invariant(self);
        }
        self.year
    }

    /// The month of the date (1 to 12).
    pub fn month(&self) -> (res: u32)
        ensures
            res == self.month_of(),
            is_calendar_date(self.year_of() as int, self.month_of() as int, self.day_of() as int),
    {
        proof {
            use_type_invariant(self);
        }
        self.month
    }

    /// The day of the month.
    pub fn day(&self) -> (res: u32)
        ensures
            res == self.day_of(),
            is_calendar_date(self.year_of() as int, self.month_of() as int, self.day_of() as int),
    {
        proof {
            use_type_invariant(self);
        }
        self.day
    }

    /// Law: two dates are equal exactly when their years, months and days are.
    pub proof fn lemma_date_parts(self, other: Date)
        ensures
            (self == other) <==> (self.year_of() == other.year_of() && self.month_of()
                == other.month_of() && self.day_of() == other.day_of()),
    {
    }
}

/// The first year `chrono` can hold a date of.
pub open spec fn min_calendar_year() -> int {
    -262143
}

/// The last year `chrono` can hold a date of.
pub open spec fn max_calendar_year() -> int {
    262142
}

/// Leap years of the proleptic Gregorian calendar.
pub open spec fn is_leap_year(y: int) -> bool {
    (y % 4 == 0 && y % 100 != 0) || y % 400 == 0
}

/// The number of days of month `m` of year `y`.
pub open spec fn days_in_month(y: int, m: int) -> int {
    if m == 2 {
        if is_leap_year(y) {
            29
        } else {
            28
        }
    } else if m == 4 || m == 6 || m == 9 || m == 11 {
        30
    } else {
        31
    }
}

/// Whether year `y`, month `m`, day `d` name a day that `chrono` can represent.
pub open spec fn is_calendar_date(y: int, m: int, d: int) -> bool {
    &&& min_calendar_year() <= y <= max_calendar_year()
    &&& 1 <= m <= 12
    &&& 1 <= d <= days_in_month(y, m)
}

/// The date of year `y`, month `m`, day `d`, where it exists.
pub open spec fn calendar_date_of(y: i32, m: u32, d: u32) -> Option<Date> {
    if is_calendar_date(y as int, m as int, d as int) {
        Some(date_value(y, m, d))
    } else {
        None
    }
}

/// The date with year `y`, month `m` and day `d`.
pub closed spec fn date_value(y: i32, m: u32, d: u32) -> Date {
    Date { year: y, month: m, day: d }
}

/// Law: the parts of a date are those it was made of.
pub proof fn lemma_date_value_parts(y: i32, m: u32, d: u32)
    ensures
        date_value(y, m, d).year_of() == y,
        date_value(y, m, d).month_of() == m,
        date_value(y, m, d).day_of() == d,
{
}

/// The day of the week of a date, counted from Sunday (0) to Saturday (6).
pub open spec fn weekday_from_sunday(y: int, m: int, d: int) -> int {
    let yy = if m <= 2 { y - 1 } else { y };
    let mm = if m <= 2 { m + 12 } else { m };
    (d + (13 * (mm + 1)) / 5 + yy + yy / 4 - yy / 100 + yy / 400 + 6) % 7
}

/// `chrono::NaiveDate::from_ymd_opt`: it gives a date exactly when the month
/// is 1 to 12, the day exists in that month of the proleptic Gregorian
/// calendar, and the year lies in chrono's range (`MIN_YEAR` to `MAX_YEAR`,
/// -262143 to 262142, in `naive/date/mod.rs`); the date read back holds the
/// year, month and day it was made of.
#[verifier::external_body]
fn chrono_date(year: i32, month: u32, day: u32) -> (res: Option<Date>)
    ensures
        res == calendar_date_of(year, month, day),
{
    chrono::NaiveDate::from_ymd_opt(year, month, day).map(
        |d| Date { year: d.year(), month: d.month(), day: d.day() },
    )
}

/// `chrono::NaiveDate::weekday` (read as `num_days_from_sunday`) of the date,
/// which is rebuilt with `from_ymd_opt`: the day of the week of the proleptic
/// Gregorian calendar.
#[verifier::external_body]
fn chrono_weekday(date: &Date) -> (res: u32)
    requires
        is_calendar_date(date.year as int, date.month as int, date.day as int),
    ensures
        res == weekday_from_sunday(date.year as int, date.month as int, date.day as int),
{
    chrono::NaiveDate::from_ymd_opt(date.year, date.month, date.day).unwrap().weekday().num_days_from_sunday()
}

/// The date of the given year, month and day, or `None` where there is no such day.
pub fn calendar_date(year: i32, month: u32, day: u32) -> (res: Option<Date>)
    ensures
        res == calendar_date_of(year, month, day),
{
    chrono_date(year, month, day)
}

/// The date written as the decimal number `yyyymmdd`.
pub open spec fn yyyymmdd_date(v: u32) -> Option<Date> {
    calendar_date_of((v / 10000) as i32, ((v / 100) % 100) as u32, (v % 100) as u32)
}

/// Reads a date given as the number `yyyymmdd` (as the Iwanami catalogue gives it).
pub fn parse_yyyymmdd(v: u32) -> (res: Option<Date>)
    ensures
        res == yyyymmdd_date(v),
{
    let y = (v / 10000) as i32;
    let m = v / 100 % 100;
    let d = v % 100;
    calendar_date(y, m, d)
}

/// An ASCII decimal digit.
pub open spec fn is_ascii_digit(c: char) -> bool {
    '0' <= c && c <= '9'
}

/// A non-empty run of ASCII decimal digits.
pub open spec fn is_decimal(ds: Seq<char>) -> bool {
    ds.len() > 0 && forall|i: int| 0 <= i < ds.len() ==> is_ascii_digit(#[trigger] ds[i])
}

/// The value of the digits `ds` read in base ten.
pub open spec fn decimal_value(ds: Seq<char>) -> nat
    decreases ds.len(),
{
    if ds.len() == 0 {
        0
    } else {
        decimal_value(ds.drop_last()) * 10 + ((ds.last() as nat) - ('0' as nat)) as nat
    }
}

/// What `str::parse::<i32>` gives: an optional `+` or `-`, then decimal digits
/// whose value fits.
pub open spec fn parsed_i32(s: Seq<char>) -> Option<i32> {
    if s.len() > 0 && s[0] == '-' {
        let ds = s.drop_first();
        if is_decimal(ds) && decimal_value(ds) <= 2147483648 {
            Some((-(decimal_value(ds) as int)) as i32)
        } else {
            None
        }
    } else {
        let ds = if s.len() > 0 && s[0] == '+' { s.drop_first() } else { s };
        if is_decimal(ds) && decimal_value(ds) <= 2147483647 {
            Some(decimal_value(ds) as i32)
        } else {
            None
        }
    }
}

/// What `str::parse::<u32>` gives: an optional `+`, then decimal digits whose value fits.
pub open spec fn parsed_u32(s: Seq<char>) -> Option<u32> {
    let ds = if s.len() > 0 && s[0] == '+' { s.drop_first() } else { s };
    if is_decimal(ds) && decimal_value(ds) <= 4294967295 {
        Some(decimal_value(ds) as u32)
    } else {
        None
    }
}

proof fn lemma_decimal_value_grows(ds: Seq<char>, k: int)
    requires
        0 <= k <= ds.len(),
        forall|i: int| 0 <= i < ds.len() ==> is_ascii_digit(#[trigger] ds[i]),
    ensures
        decimal_value(ds.take(k)) <= decimal_value(ds),
    decreases ds.len() - k,
{
    if k < ds.len() {
        lemma_decimal_value_grows(ds, k + 1);
        assert(ds.take(k + 1).drop_last() =~= ds.take(k));
        assert(is_ascii_digit(ds[k]));
    } else {
        assert(ds.take(k) =~= ds);
    }
}

/// The value of the digits of `cs` from `start` on, where they are a
/// non-empty run of ASCII digits whose value is at most `limit`.
fn decimal_up_to(cs: &Vec<char>, start: usize, limit: u64) -> (res: Option<u64>)
    requires
        start <= cs.len(),
        limit <= 0xffff_ffff,
    ensures
        res == if is_decimal(cs@.skip(start as int)) && decimal_value(cs@.skip(start as int))
            <= limit {
            Some(decimal_value(cs@.skip(start as int)) as u64)
        } else {
            None
        },
{
    let ghost ds = cs@.skip(start as int);
    if start == cs.len() {
        return None;
    }
    let mut acc: u64 = 0;
    let mut i: usize = start;
    while i < cs.len()
        invariant
            start <= i <= cs.len(),
            ds == cs@.skip(start as int),
            ds.len() > 0,
            limit <= 0xffff_ffff,
            acc <= limit,
            forall|k: int| 0 <= k < i - start ==> is_ascii_digit(#[trigger] ds[k]),
            acc == decimal_value(ds.take(i - start)),
        decreases cs.len() - i,
    {
        let c = cs[i];
        if !('0' <= c && c <= '9') {
            assert(ds[i - start] == c);
            return None;
        }
        let digit = (c as u32 - '0' as u32) as u64;
        assert(ds.take(i - start + 1).drop_last() =~= ds.take(i - start));
        assert(ds[i - start] == c);
        acc = acc * 10 + digit;
        if acc > limit {
            proof {
                if is_decimal(ds) {
                    lemma_decimal_value_grows(ds, i - start + 1);
                }
            }
            return None;
        }
        i = i + 1;
    }
    assert(ds.take(i - start) =~= ds);
    Some(acc)
}

/// Reads a decimal `i32` as `str::parse::<i32>` does.
pub fn parse_i32(s: &str) -> (res: Option<i32>)
    ensures
        res == parsed_i32(s@),
{
    let cs = chars_of(s);
    if cs.len() > 0 && cs[0] == '-' {
        assert(cs@.skip(1) =~= s@.drop_first());
        match decimal_up_to(&cs, 1, 2147483648) {
            Some(v) => Some((-(v as i64)) as i32),
            None => None,
        }
    } else if cs.len() > 0 && cs[0] == '+' {
        assert(cs@.skip(1) =~= s@.drop_first());
        match decimal_up_to(&cs, 1, 2147483647) {
            Some(v) => Some(v as i32),
            None => None,
        }
    } else {
        assert(cs@.skip(0) =~= s@);
        match decimal_up_to(&cs, 0, 2147483647) {
            Some(v) => Some(v as i32),
            None => None,
        }
    }
}

/// Reads a decimal `u32` as `str::parse::<u32>` does.
pub fn parse_u32(s: &str) -> (res: Option<u32>)
    ensures
        res == parsed_u32(s@),
{
    let cs = chars_of(s);
    if cs.len() > 0 && cs[0] == '+' {
        assert(cs@.skip(1) =~= s@.drop_first());
        match decimal_up_to(&cs, 1, 4294967295) {
            Some(v) => Some(v as u32),
            None => None,
        }
    } else {
        assert(cs@.skip(0) =~= s@);
        match decimal_up_to(&cs, 0, 4294967295) {
            Some(v) => Some(v as u32),
            None => None,
        }
    }
}

/// The texts of the groups of one regular-expression match, by group number
/// (group 0 is the whole match).
pub open spec fn group_texts(groups: Seq<Option<String>>) -> Seq<Option<Seq<char>>> {
    groups.map_values(|g: Option<String>| match g {
        Some(t) => Some(t@),
        None => None,
    })
}

/// The text of group `i`, where the match has one.
pub open spec fn group_text(groups: Seq<Option<Seq<char>>>, i: int) -> Option<Seq<char>> {
    if 0 <= i < groups.len() {
        groups[i]
    } else {
        None
    }
}

/// The text of the first group named `n` (by `names`, the group names of
/// the pattern by group number), where the match has that group.
pub open spec fn named_group(
    groups: Seq<Option<Seq<char>>>,
    names: Seq<Option<Seq<char>>>,
    n: Seq<char>,
) -> Option<Seq<char>>
    decreases names.len(),
{
    if names.len() == 0 {
        None
    } else if names[0] == Some(n) {
        if groups.len() > 0 {
            groups[0]
        } else {
            None
        }
    } else {
        named_group(
            if groups.len() > 0 { groups.drop_first() } else { groups },
            names.drop_first(),
            n,
        )
    }
}

/// The date that the groups named `y`, `m` and `d` of a match spell, where
/// all three are there, read as numbers and form a day of the calendar.
pub open spec fn date_of_groups(groups: Seq<Option<Seq<char>>>, names: Seq<Option<Seq<char>>>) -> Option<Date> {
    match (
        named_group(groups, names, seq!['y']),
        named_group(groups, names, seq!['m']),
        named_group(groups, names, seq!['d']),
    ) {
        (Some(y), Some(m), Some(d)) => match (parsed_i32(y), parsed_u32(m), parsed_u32(d)) {
            (Some(y), Some(m), Some(d)) => calendar_date_of(y, m, d),
            _ => None,
        },
        _ => None,
    }
}

/// The text of the group named `n` in a match, given the pattern's group names.
pub fn group_named(groups: &Vec<Option<String>>, names: &Vec<Option<String>>, n: char) -> (res: Option<
    String,
>)
    ensures
        match res {
            Some(t) => named_group(group_texts(groups@), group_texts(names@), seq![n]) == Some(t@),
            None => named_group(group_texts(groups@), group_texts(names@), seq![n]) is None,
        },
{
    let ghost gs = group_texts(groups@);
    let ghost ns = group_texts(names@);
    let mut k: usize = 0;
    assert(gs.skip(0) =~= gs);
    assert(ns.skip(0) =~= ns);
    while k < names.len()
        invariant
            k <= names.len(),
            gs == group_texts(groups@),
            ns == group_texts(names@),
            named_group(gs, ns, seq![n]) == named_group(
                if k <= gs.len() { gs.skip(k as int) } else { Seq::empty() },
                ns.skip(k as int),
                seq![n],
            ),
        decreases names.len() - k,
    {
        let ghost g = if k <= gs.len() { gs.skip(k as int) } else { Seq::<Option<Seq<char>>>::empty() };
        assert(ns.skip(k as int)[0] == ns[k as int]);
        assert(ns.skip(k as int).drop_first() =~= ns.skip(k + 1));
        let matches = match &names[k] {
            Some(name) => {
                let cs = chars_of(name.as_str());
                cs.len() == 1 && cs[0] == n
            },
            None => false,
        };
        proof {
            if matches {
                assert(ns[k as int] == Some(seq![n])) by {
                    let name = names@[k as int]->Some_0;
                    assert(name@ =~= seq![n]);
                }
            } else {
                assert(ns[k as int] != Some(seq![n])) by {
                    if ns[k as int] == Some(seq![n]) {
                        assert(names@[k as int] is Some);
                        let name = names@[k as int]->Some_0;
                        assert(name@ == seq![n]);
                        assert(name@.len() == 1);
                    }
                }
            }
        }
        if matches {
            if k < groups.len() {
                assert(g[0] == gs[k as int]);
                return match &groups[k] {
                    Some(t) => Some(t.clone()),
                    None => None,
                };
            } else {
                return None;
            }
        }
        proof {
            assert(ns.skip(k as int).len() > 0);
            if k < gs.len() {
                assert(g.drop_first() =~= gs.skip(k + 1));
            } else {
                assert(g =~= Seq::<Option<Seq<char>>>::empty());
            }
        }
        k = k + 1;
    }
    None
}

/// The date spelled by the groups named `y`, `m` and `d` of a match, given
/// the pattern's group names.
pub fn ymd_caps(groups: &Vec<Option<String>>, names: &Vec<Option<String>>) -> (res: Option<Date>)
    ensures
        res == date_of_groups(group_texts(groups@), group_texts(names@)),
{
    let y = match group_named(groups, names, 'y') {
        Some(t) => t,
        None => return None,
    };
    let m = match group_named(groups, names, 'm') {
        Some(t) => t,
        None => return None,
    };
    let d = match group_named(groups, names, 'd') {
        Some(t) => t,
        None => return None,
    };
    let y = match parse_i32(y.as_str()) {
        Some(v) => v,
        None => return None,
    };
    let m = match parse_u32(m.as_str()) {
        Some(v) => v,
        None => return None,
    };
    let d = match parse_u32(d.as_str()) {
        Some(v) => v,
        None => return None,
    };
    calendar_date(y, m, d)
}

/// The ASCII digit for `d` (below ten).
pub open spec fn digit_char(d: nat) -> char {
    ((d + ('0' as nat)) as u32) as char
}

/// The decimal digits of `n`, without leading zeros.
pub open spec fn decimal_text(n: nat) -> Seq<char>
    decreases n,
{
    if n < 10 {
        seq![digit_char(n)]
    } else {
        decimal_text(n / 10).push(digit_char(n % 10))
    }
}

/// The decimal digits of `n`, padded with zeros to at least two.
pub open spec fn two_digit_text(n: nat) -> Seq<char> {
    if n < 10 {
        seq!['0'] + decimal_text(n)
    } else {
        decimal_text(n)
    }
}

/// The decimal digits of `n`, padded with zeros to at least four.
pub open spec fn four_digit_text(n: nat) -> Seq<char> {
    if n < 10 {
        seq!['0', '0', '0'] + decimal_text(n)
    } else if n < 100 {
        seq!['0', '0'] + decimal_text(n)
    } else if n < 1000 {
        seq!['0'] + decimal_text(n)
    } else {
        decimal_text(n)
    }
}

/// A year as chrono's `%Y` writes it: four digits for years 0 to 9999,
/// otherwise a sign and at least four digits.
pub open spec fn year_text(y: int) -> Seq<char> {
    if 0 <= y <= 9999 {
        four_digit_text(y as nat)
    } else if y < 0 {
        seq!['-'] + four_digit_text((-y) as nat)
    } else {
        seq!['+'] + four_digit_text(y as nat)
    }
}

fn digit_of(d: u32) -> (c: char)
    requires
        d < 10,
    ensures
        c == digit_char(d as nat),
{
    let cs: Vec<char> = vec!['0', '1', '2', '3', '4', '5', '6', '7', '8', '9'];
    cs[d as usize]
}

/// Appends the decimal digits of `n`.
pub fn push_decimal(out: &mut String, n: u32)
    ensures
        final(out)@ == old(out)@ + decimal_text(n as nat),
    decreases n,
{
    if n >= 10 {
        push_decimal(out, n / 10);
    }
    push_char(out, digit_of(n % 10));
    proof {
        if n >= 10 {
            assert(old(out)@ + decimal_text(n as nat) =~= old(out)@ + decimal_text((n / 10) as nat)
                + seq![digit_char((n % 10) as nat)]);
        } else {
            assert(old(out)@ + decimal_text(n as nat) =~= old(out)@.push(digit_char(n as nat)));
        }
    }
}

/// Appends `n` with at least two digits.
pub fn push_two_digits(out: &mut String, n: u32)
    ensures
        final(out)@ == old(out)@ + two_digit_text(n as nat),
{
    if n < 10 {
        push_char(out, '0');
    }
    push_decimal(out, n);
    assert(old(out)@ + two_digit_text(n as nat) =~= if n < 10 {
        old(out)@.push('0') + decimal_text(n as nat)
    } else {
        old(out)@ + decimal_text(n as nat)
    });
}

/// Appends `n` with at least four digits.
pub fn push_four_digits(out: &mut String, n: u32)
    ensures
        final(out)@ == old(out)@ + four_digit_text(n as nat),
{
    let ghost start = out@;
    if n < 10 {
        append_chars(out, &vec!['0', '0', '0']);
    } else if n < 100 {
        append_chars(out, &vec!['0', '0']);
    } else if n < 1000 {
        push_char(out, '0');
    }
    push_decimal(out, n);
    assert(start + four_digit_text(n as nat) =~= out@);
}

/// Appends a year as chrono's `%Y` writes it.
pub fn push_year(out: &mut String, y: i32)
    ensures
        final(out)@ == old(out)@ + year_text(y as int),
{
    let ghost start = out@;
    if 0 <= y && y <= 9999 {
        push_four_digits(out, y as u32);
    } else if y < 0 {
        push_char(out, '-');
        let a: u32 = if y == i32::MIN { 2147483648 } else { (-y) as u32 };
        push_four_digits(out, a);
    } else {
        push_char(out, '+');
        push_four_digits(out, y as u32);
    }
    assert(start + year_text(y as int) =~= out@);
}

/// The abbreviated English weekday names, from Sunday.
pub open spec fn weekday_names() -> Seq<Seq<char>> {
    seq![
        seq!['S', 'u', 'n'],
        seq!['M', 'o', 'n'],
        seq!['T', 'u', 'e'],
        seq!['W', 'e', 'd'],
        seq!['T', 'h', 'u'],
        seq!['F', 'r', 'i'],
        seq!['S', 'a', 't'],
    ]
}

/// The abbreviated English month names, from January.
pub open spec fn month_names() -> Seq<Seq<char>> {
    seq![
        seq!['J', 'a', 'n'],
        seq!['F', 'e', 'b'],
        seq!['M', 'a', 'r'],
        seq!['A', 'p', 'r'],
        seq!['M', 'a', 'y'],
        seq!['J', 'u', 'n'],
        seq!['J', 'u', 'l'],
        seq!['A', 'u', 'g'],
        seq!['S', 'e', 'p'],
        seq!['O', 'c', 't'],
        seq!['N', 'o', 'v'],
        seq!['D', 'e', 'c'],
    ]
}

/// A date written as `%a, %d %b %Y` (for example `Mon, 01 Jan 2024`).
pub open spec fn day_text(d: Date) -> Seq<char> {
    weekday_names()[weekday_from_sunday(d.year_of() as int, d.month_of() as int, d.day_of() as int)]
        + seq![',', ' '] + two_digit_text(d.day_of() as nat) + seq![' '] + month_names()[d.month_of()
        - 1] + seq![' '] + year_text(d.year_of() as int)
}

/// Writes a date as `%a, %d %b %Y`.
pub fn format_day(date: &Date) -> (res: String)
    ensures
        res@ == day_text(*date),
{
    proof {
        use_type_invariant(date);
    }
    let weekdays: Vec<Vec<char>> = vec![
        vec!['S', 'u', 'n'],
        vec!['M', 'o', 'n'],
        vec!['T', 'u', 'e'],
        vec!['W', 'e', 'd'],
        vec!['T', 'h', 'u'],
        vec!['F', 'r', 'i'],
        vec!['S', 'a', 't'],
    ];
    let months: Vec<Vec<char>> = vec![
        vec!['J', 'a', 'n'],
        vec!['F', 'e', 'b'],
        vec!['M', 'a', 'r'],
        vec!['A', 'p', 'r'],
        vec!['M', 'a', 'y'],
        vec!['J', 'u', 'n'],
        vec!['J', 'u', 'l'],
        vec!['A', 'u', 'g'],
        vec!['S', 'e', 'p'],
        vec!['O', 'c', 't'],
        vec!['N', 'o', 'v'],
        vec!['D', 'e', 'c'],
    ];
    let w = chrono_weekday(date);
    assert(0 <= w < 7);
    let mut out = String::new();
    append_chars(&mut out, &weekdays[w as usize]);
    append_chars(&mut out, &vec![',', ' ']);
    push_two_digits(&mut out, date.day);
    push_char(&mut out, ' ');
    append_chars(&mut out, &months[(date.month - 1) as usize]);
    push_char(&mut out, ' ');
    push_year(&mut out, date.year);
    assert(weekdays@[w as int]@ == weekday_names()[w as int]);
    assert(months@[date.month - 1]@ == month_names()[date.month - 1]);
    assert(out@ =~= day_text(*date));
    out
}

} // verus!
