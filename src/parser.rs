//! The record parser: lines of whitespace-separated tokens to observations,
//! with absent-value sentinels and a file-level quality gate.

use crate::db::models::{is_calendar_date, Decimal, NewObservation, Timestamp};
use crate::error::{AppError, Result};
use crate::text::{
    append_int, append_nat, chars_of, decimal_reading, i32_reading, int_error_message,
    int_error_text, int_text, lines_of, nat_text, pow10, read_decimal, read_i32, split_lines,
    split_tokens, text, texts, tokens_of, IntErrorKind,
};
use vstd::prelude::*;

verus! {

/// The fewest tokens a record line holds.
pub const MIN_FIELDS: usize = 28;

/// The integer that stands for an absent value.
pub const MISSING_VALUE_INT: i32 = -9999;

// ---------------------------------------------------------------- numbers

/// Whether a fixed-point value lies within 0.1 of the sentinel -9999.
pub open spec fn near_sentinel(units: int, scale: nat) -> bool {
    let d = units + 9999 * pow10(scale);
    10 * (if d < 0 { -d } else { d }) < pow10(scale)
}

/// A measurement token: its value, or absent where it is no numeral or is the sentinel.
pub open spec fn decimal_field(tok: Seq<char>) -> Option<Decimal> {
    match decimal_reading(tok) {
        Some((v, sc)) => if near_sentinel(v, sc) {
            None
        } else {
            Some(Decimal { units: v as i64, scale: sc as u32 })
        },
        None => None,
    }
}

/// A flag token: its value, or absent where it is no `i32` numeral or is the sentinel.
pub open spec fn int_field(tok: Seq<char>) -> Option<i32> {
    match i32_reading(tok) {
        Ok(v) => if v == MISSING_VALUE_INT {
            None
        } else {
            Some(v)
        },
        Err(_) => None,
    }
}

// ------------------------------------------------------------ timestamps

/// Division that truncates toward zero, as Rust's `/` on integers.
pub open spec fn tdiv(a: int, b: int) -> int {
    if a >= 0 {
        a / b
    } else {
        -((-a) / b)
    }
}

pub open spec fn year_of(date: int) -> int {
    tdiv(date, 10000)
}

pub open spec fn month_of(date: int) -> int {
    (date % 10000) / 100
}

pub open spec fn day_of(date: int) -> int {
    date % 100
}

pub open spec fn hour_of(time: int) -> int {
    tdiv(time, 100)
}

pub open spec fn minute_of(time: int) -> int {
    time - 100 * tdiv(time, 100)
}

/// The timestamp that a `YYYYMMDD` date and an `HHMM` time name, or why they name none.
pub open spec fn datetime_reading(date: int, time: int) -> std::result::Result<Timestamp, Seq<char>> {
    let (y, mo, d) = (year_of(date), month_of(date), day_of(date));
    let (h, mi) = (hour_of(time), minute_of(time));
    if y < 1900 || y > 2100 {
        Err("Year "@ + int_text(y) + " out of valid range (1900-2100) from date "@ + int_text(date))
    } else if mo < 1 || mo > 12 {
        Err("Month "@ + int_text(mo) + " out of valid range (1-12) from date "@ + int_text(date))
    } else if d < 1 || d > 31 {
        Err("Day "@ + int_text(d) + " out of valid range (1-31) from date "@ + int_text(date))
    } else if h > 23 {
        Err("Hour "@ + int_text(h) + " out of valid range (0-23) from time "@ + int_text(time))
    } else if mi > 59 {
        Err("Minute "@ + int_text(mi) + " out of valid range (0-59) from time "@ + int_text(time))
    } else if !is_calendar_date(y, mo, d) {
        Err("Invalid date combination: year="@ + int_text(y) + ", month="@ + int_text(mo)
            + ", day="@ + int_text(d) + " from "@ + int_text(date))
    } else if h < 0 || mi < 0 {
        Err("Invalid time combination: hour="@ + int_text(h) + ", minute="@ + int_text(mi)
            + " from "@ + int_text(time))
    } else {
        Ok(
            Timestamp {
                year: y as i32,
                month: mo as u32,
                day: d as u32,
                hour: h as u32,
                minute: mi as u32,
                second: 0,
            },
        )
    }
}

/// Relies on chrono's `NaiveDate::from_ymd_opt`: `Some` exactly for a day of
/// the proleptic Gregorian calendar (within its year range).
#[verifier::external_body]
fn calendar_date_exists(year: i32, month: u32, day: u32) -> (r: bool)
    requires
        1900 <= year <= 2100,
    ensures
        r == is_calendar_date(year as int, month as int, day as int),
{
    chrono::NaiveDate::from_ymd_opt(year, month, day).is_some()
}

/// The timestamp named by a `YYYYMMDD` date and an `HHMM` time, with each part
/// range-checked (see `datetime_reading`).
pub fn parse_datetime(date: i32, time: i32) -> (r: Result<Timestamp>)
    ensures
        match r {
            Ok(ts) => datetime_reading(date as int, time as int) == Ok::<Timestamp, Seq<char>>(ts)
                && ts.wf(),
            Err(e) => datetime_reading(date as int, time as int) is Err && e is Parse
                && e->Parse_0@ == datetime_reading(date as int, time as int)->Err_0,
        },
{
    let year: i64 = if date >= 0 {
        (date as u32 / 10000) as i64
    } else {
        -((((-(date as i64)) as u64) / 10000) as i64)
    };
    let hour: i64 = if time >= 0 {
        (time as u32 / 100) as i64
    } else {
        -((((-(time as i64)) as u64) / 100) as i64)
    };
    let minute: i64 = time as i64 - 100 * hour;
    if year < 1900 || year > 2100 {
        let mut m = text("Year ");
        append_int(&mut m, year);
        m.append(" out of valid range (1900-2100) from date ");
        append_int(&mut m, date as i64);
        return Err(AppError::Parse(m));
    }
    let month: i64 = ((date as u32 % 10000) / 100) as i64;
    let day: i64 = (date as u32 % 100) as i64;
    if month < 1 || month > 12 {
        let mut m = text("Month ");
        append_int(&mut m, month);
        m.append(" out of valid range (1-12) from date ");
        append_int(&mut m, date as i64);
        return Err(AppError::Parse(m));
    }
    if day < 1 || day > 31 {
        let mut m = text("Day ");
        append_int(&mut m, day);
        m.append(" out of valid range (1-31) from date ");
        append_int(&mut m, date as i64);
        return Err(AppError::Parse(m));
    }
    if hour > 23 {
        let mut m = text("Hour ");
        append_int(&mut m, hour);
        m.append(" out of valid range (0-23) from time ");
        append_int(&mut m, time as i64);
        return Err(AppError::Parse(m));
    }
    if minute > 59 {
        let mut m = text("Minute ");
        append_int(&mut m, minute);
        m.append(" out of valid range (0-59) from time ");
        append_int(&mut m, time as i64);
        return Err(AppError::Parse(m));
    }
    if !calendar_date_exists(year as i32, month as u32, day as u32) {
        let mut m = text("Invalid date combination: year=");
        append_int(&mut m, year);
        m.append(", month=");
        append_int(&mut m, month);
        m.append(", day=");
        append_int(&mut m, day);
        m.append(" from ");
        append_int(&mut m, date as i64);
        return Err(AppError::Parse(m));
    }
    if hour < 0 || minute < 0 {
        let mut m = text("Invalid time combination: hour=");
        append_int(&mut m, hour);
        m.append(", minute=");
        append_int(&mut m, minute);
        m.append(" from ");
        append_int(&mut m, time as i64);
        return Err(AppError::Parse(m));
    }
    Ok(
        Timestamp {
            year: year as i32,
            month: month as u32,
            day: day as u32,
            hour: hour as u32,
            minute: minute as u32,
            second: 0,
        },
    )
}

// ----------------------------------------------------------------- tokens

/// The message for a token that is no `i32` numeral.
pub open spec fn int_token_error(tok: Seq<char>) -> Seq<char> {
    "Failed to parse int '"@ + tok + "': "@ + int_error_text(i32_reading(tok)->Err_0)
}

pub open spec fn int_value(tok: Seq<char>) -> int {
    i32_reading(tok)->Ok_0 as int
}

/// The measurement at position `i` of a line's tokens; absent past the end.
pub open spec fn measurement(t: Seq<Seq<char>>, i: int) -> Option<Decimal> {
    if i < t.len() {
        decimal_field(t[i])
    } else {
        None
    }
}

/// The flag at position `i` of a line's tokens; absent past the end.
pub open spec fn flag(t: Seq<Seq<char>>, i: int) -> Option<i32> {
    if i < t.len() {
        int_field(t[i])
    } else {
        None
    }
}

/// Why a line with tokens `t` is no record, or `None` where it is one.
pub open spec fn line_error(t: Seq<Seq<char>>) -> Option<Seq<char>> {
    if t.len() < MIN_FIELDS {
        Some("Expected at least 28 fields, got "@ + int_text(t.len() as int))
    } else if i32_reading(t[0]) is Err {
        Some(int_token_error(t[0]))
    } else if i32_reading(t[1]) is Err {
        Some(int_token_error(t[1]))
    } else if i32_reading(t[2]) is Err {
        Some(int_token_error(t[2]))
    } else if i32_reading(t[3]) is Err {
        Some(int_token_error(t[3]))
    } else if i32_reading(t[4]) is Err {
        Some(int_token_error(t[4]))
    } else if datetime_reading(int_value(t[1]), int_value(t[2])) is Err {
        Some(datetime_reading(int_value(t[1]), int_value(t[2]))->Err_0)
    } else if datetime_reading(int_value(t[3]), int_value(t[4])) is Err {
        Some(datetime_reading(int_value(t[3]), int_value(t[4]))->Err_0)
    } else {
        None
    }
}

/// `obs` is the record that the tokens `t` of an accepted line describe.
#[verifier::opaque]
pub open spec fn is_record_of(obs: NewObservation, t: Seq<Seq<char>>) -> bool {
    &&& obs.wbanno as int == int_value(t[0])
    &&& datetime_reading(int_value(t[1]), int_value(t[2])) == Ok::<Timestamp, Seq<char>>(
        obs.utc_datetime,
    )
    &&& datetime_reading(int_value(t[3]), int_value(t[4])) == Ok::<Timestamp, Seq<char>>(
        obs.lst_datetime,
    )
    &&& obs.crx_version is Some && obs.crx_version->0@ == t[5]
    &&& obs.t_calc == measurement(t, 8)
    &&& obs.t_hr_avg == measurement(t, 9)
    &&& obs.t_max == measurement(t, 10)
    &&& obs.t_min == measurement(t, 11)
    &&& obs.p_calc == measurement(t, 12)
    &&& obs.solarad == measurement(t, 13)
    &&& obs.solarad_flag == flag(t, 14)
    &&& obs.solarad_max == measurement(t, 15)
    &&& obs.solarad_max_flag == flag(t, 16)
    &&& obs.solarad_min == measurement(t, 17)
    &&& obs.solarad_min_flag == flag(t, 18)
    &&& obs.sur_temp_type is Some && obs.sur_temp_type->0@ == t[19]
    &&& obs.sur_temp == measurement(t, 20)
    &&& obs.sur_temp_flag == flag(t, 21)
    &&& obs.sur_temp_max == measurement(t, 22)
    &&& obs.sur_temp_max_flag == flag(t, 23)
    &&& obs.sur_temp_min == measurement(t, 24)
    &&& obs.sur_temp_min_flag == flag(t, 25)
    &&& obs.rh_hr_avg == measurement(t, 26)
    &&& obs.rh_hr_avg_flag == flag(t, 27)
    &&& obs.soil_moisture_5 == measurement(t, 28)
    &&& obs.soil_moisture_10 == measurement(t, 29)
    &&& obs.soil_moisture_20 == measurement(t, 30)
    &&& obs.soil_moisture_50 == measurement(t, 31)
    &&& obs.soil_moisture_100 == measurement(t, 32)
    &&& obs.soil_temp_5 == measurement(t, 33)
    &&& obs.soil_temp_10 == measurement(t, 34)
    &&& obs.soil_temp_20 == measurement(t, 35)
    &&& obs.soil_temp_50 == measurement(t, 36)
    &&& obs.soil_temp_100 == measurement(t, 37)
    &&& obs.source_file_id is None
}

fn pow10_i128(k: u32) -> (r: i128)
    requires
        k <= 18,
    ensures
        r == pow10(k as nat),
{
    let mut r: i128 = 1;
    let mut i: u32 = 0;
    while i < k
        invariant
            i <= k <= 18,
            r == pow10(i as nat),
        decreases k - i,
    {
        proof {
            crate::text::lemma_pow10_step(i as nat);
        }
        r = r * 10;
        i += 1;
    }
    r
}

fn decimal_token(tok: &Vec<char>) -> (r: Option<Decimal>)
    ensures
        r == decimal_field(tok@),
{
    match read_decimal(tok) {
        Some((u, k)) => {
            let p = pow10_i128(k);
            proof {
                crate::text::lemma_pow10_step(k as nat);
                crate::text::lemma_pow10_step(17);
            }
            let d: i128 = u as i128 + 9999 * p;
            let a: i128 = if d < 0 { -d } else { d };
            if 10 * a < p {
                None
            } else {
                Some(Decimal { units: u, scale: k })
            }
        },
        None => None,
    }
}

fn int_flag_token(tok: &Vec<char>) -> (r: Option<i32>)
    ensures
        r == int_field(tok@),
{
    match read_i32(tok) {
        Ok(v) => if v == MISSING_VALUE_INT {
            None
        } else {
            Some(v)
        },
        Err(_) => None,
    }
}

fn int_token(tok: &Vec<char>) -> (r: Result<i32>)
    ensures
        match r {
            Ok(v) => i32_reading(tok@) == Ok::<i32, IntErrorKind>(v),
            Err(e) => i32_reading(tok@) is Err && e is Parse && e->Parse_0@ == int_token_error(
                tok@,
            ),
        },
{
    match read_i32(tok) {
        Ok(v) => Ok(v),
        Err(k) => {
            let mut m = text("Failed to parse int '");
            let t = crate::text::string_of(tok);
            m.append(t.as_str());
            m.append("': ");
            m.append(int_error_message(k));
            Err(AppError::Parse(m))
        },
    }
}

fn measurement_at(t: &Vec<Vec<char>>, i: usize) -> (r: Option<Decimal>)
    ensures
        r == measurement(texts(t@), i as int),
{
    if i < t.len() {
        decimal_token(&t[i])
    } else {
        None
    }
}

fn flag_at(t: &Vec<Vec<char>>, i: usize) -> (r: Option<i32>)
    ensures
        r == flag(texts(t@), i as int),
{
    if i < t.len() {
        int_flag_token(&t[i])
    } else {
        None
    }
}

/// Reads `s` as an `i32`: an optional sign, then digits, in range.
pub fn parse_int(s: &str) -> (r: Result<i32>)
    ensures
        match r {
            Ok(v) => i32_reading(s@) == Ok::<i32, IntErrorKind>(v),
            Err(e) => i32_reading(s@) is Err && e is Parse && e->Parse_0@ == int_token_error(s@),
        },
{
    int_token(&chars_of(s))
}

/// A flag token: absent where there is none, where it is no `i32` numeral, or
/// where it is the sentinel -9999.
pub fn parse_optional_int(s: Option<&str>) -> (r: Option<i32>)
    ensures
        r == match s {
            Some(x) => int_field(x@),
            None => None,
        },
{
    match s {
        Some(x) => int_flag_token(&chars_of(x)),
        None => None,
    }
}

/// A measurement token: absent where there is none, where it is no fixed-point
/// numeral, or where it lies within 0.1 of the sentinel -9999; else its exact value.
pub fn parse_optional_float(s: Option<&str>) -> (r: Option<Decimal>)
    ensures
        r == match s {
            Some(x) => decimal_field(x@),
            None => None,
        },
{
    match s {
        Some(x) => decimal_token(&chars_of(x)),
        None => None,
    }
}

// ------------------------------------------------------------------ rates

/// A non-negative fraction `numerator / denominator`.
#[derive(Clone, Copy, Debug, PartialEq, Eq, Structural)]
pub struct Ratio {
    pub numerator: u64,
    pub denominator: u64,
}

impl Ratio {
    pub open spec fn wf(self) -> bool {
        self.denominator > 0
    }

    /// `self > other`, compared across the denominators.
    pub open spec fn spec_exceeds(self, other: Ratio) -> bool {
        self.numerator * other.denominator > other.numerator * self.denominator
    }

    pub fn new(numerator: u64, denominator: u64) -> (r: Ratio)
        ensures
            r == (Ratio { numerator, denominator }),
    {
        Ratio { numerator, denominator }
    }

    /// Whether `self` is greater than `other` (for positive denominators).
    pub fn exceeds(&self, other: &Ratio) -> (r: bool)
        ensures
            r == self.spec_exceeds(*other),
    {
        let a = self.numerator as u128;
        let b = other.denominator as u128;
        let c = other.numerator as u128;
        let d = self.denominator as u128;
        assert(a * b <= 0xffff_ffff_ffff_ffffu128 * 0xffff_ffff_ffff_ffffu128) by (nonlinear_arith)
            requires
                a <= 0xffff_ffff_ffff_ffffu128,
                b <= 0xffff_ffff_ffff_ffffu128,
        ;
        assert(c * d <= 0xffff_ffff_ffff_ffffu128 * 0xffff_ffff_ffff_ffffu128) by (nonlinear_arith)
            requires
                c <= 0xffff_ffff_ffff_ffffu128,
                d <= 0xffff_ffff_ffff_ffffu128,
        ;
        a * b > c * d
    }

    /// Whether `self` is less than `other` (for positive denominators).
    pub fn less_than(&self, other: &Ratio) -> (r: bool)
        ensures
            r == other.spec_exceeds(*self),
    {
        other.exceeds(self)
    }
}

/// The default quality threshold: one line in ten may fail.
pub open spec fn default_threshold() -> Ratio {
    Ratio { numerator: 10, denominator: 100 }
}

/// The failure rate of `failures` out of `non_empty` lines; zero where there are none.
pub open spec fn rate_of(failures: nat, non_empty: nat) -> Ratio {
    if non_empty > 0 {
        Ratio { numerator: failures as u64, denominator: non_empty as u64 }
    } else {
        Ratio { numerator: 0, denominator: 1 }
    }
}

/// A ratio in tenths of a percent, rounded half up.
pub open spec fn tenths(r: Ratio) -> nat {
    ((2000 * r.numerator + r.denominator) / (2 * r.denominator)) as nat
}

/// The message of a file rejected by the quality gate.
pub open spec fn gate_text(failures: nat, non_empty: nat, threshold: Ratio) -> Seq<char> {
    let rate = rate_of(failures, non_empty);
    "Parse failure rate "@ + nat_text(tenths(rate) / 10) + "."@ + nat_text(tenths(rate) % 10)
        + "% exceeds threshold "@ + nat_text(tenths(threshold) / 10) + "."@ + nat_text(
        tenths(threshold) % 10,
    ) + "%: "@ + nat_text(failures) + " failures out of "@ + nat_text(non_empty)
        + " non-empty lines"@
}

fn append_percent(m: &mut String, r: Ratio)
    requires
        r.wf(),
    ensures
        final(m)@ == old(m)@ + nat_text(tenths(r) / 10) + "."@ + nat_text(tenths(r) % 10),
{
    let n = r.numerator as u128;
    let d = r.denominator as u128;
    let t: u128 = (2000 * n + d) / (2 * d);
    append_nat(m, t / 10);
    m.append(".");
    append_nat(m, t % 10);
}

fn gate_message(failures: usize, non_empty: usize, threshold: Ratio) -> (r: String)
    requires
        threshold.wf(),
    ensures
        r@ == gate_text(failures as nat, non_empty as nat, threshold),
{
    let rate = if non_empty > 0 {
        Ratio { numerator: failures as u64, denominator: non_empty as u64 }
    } else {
        Ratio { numerator: 0, denominator: 1 }
    };
    let mut m = text("Parse failure rate ");
    append_percent(&mut m, rate);
    m.append("% exceeds threshold ");
    append_percent(&mut m, threshold);
    m.append("%: ");
    append_nat(&mut m, failures as u128);
    m.append(" failures out of ");
    append_nat(&mut m, non_empty as u128);
    m.append(" non-empty lines");
    m
}

// ----------------------------------------------------------------- files

pub open spec fn is_blank(l: Seq<char>) -> bool {
    tokens_of(l).len() == 0
}

/// How many of the lines `ls` are blank.
pub open spec fn count_blank(ls: Seq<Seq<char>>) -> nat
    decreases ls.len(),
{
    if ls.len() == 0 {
        0
    } else {
        count_blank(ls.drop_last()) + if is_blank(ls.last()) {
            1nat
        } else {
            0nat
        }
    }
}

/// How many of the lines `ls` are non-blank and hold no record.
pub open spec fn count_rejected(ls: Seq<Seq<char>>) -> nat
    decreases ls.len(),
{
    if ls.len() == 0 {
        0
    } else {
        count_rejected(ls.drop_last()) + if !is_blank(ls.last()) && line_error(
            tokens_of(ls.last()),
        ) is Some {
            1nat
        } else {
            0nat
        }
    }
}

/// The tokens of the lines of `ls` that hold a record, in order.
pub open spec fn accepted_lines(ls: Seq<Seq<char>>) -> Seq<Seq<Seq<char>>>
    decreases ls.len(),
{
    if ls.len() == 0 {
        Seq::empty()
    } else {
        let a = accepted_lines(ls.drop_last());
        if !is_blank(ls.last()) && line_error(tokens_of(ls.last())) is None {
            a.push(tokens_of(ls.last()))
        } else {
            a
        }
    }
}

/// Counts kept while a file is parsed.
#[derive(Clone, Copy, Debug)]
pub struct ParseStats {
    pub total_lines: usize,
    pub parsed_successfully: usize,
    pub parse_failures: usize,
    pub empty_lines: usize,
    pub failure_rate: Ratio,
}

impl ParseStats {
    pub fn new() -> (r: ParseStats)
        ensures
            r.total_lines == 0 && r.parsed_successfully == 0 && r.parse_failures == 0
                && r.empty_lines == 0,
            r.failure_rate == (Ratio { numerator: 0, denominator: 1 }),
    {
        ParseStats {
            total_lines: 0,
            parsed_successfully: 0,
            parse_failures: 0,
            empty_lines: 0,
            failure_rate: Ratio { numerator: 0, denominator: 1 },
        }
    }

    /// Sets the failure rate from the counts: failures over non-blank lines.
    pub fn finalize(&mut self)
        requires
            old(self).empty_lines <= old(self).total_lines,
        ensures
            final(self).total_lines == old(self).total_lines,
            final(self).parsed_successfully == old(self).parsed_successfully,
            final(self).parse_failures == old(self).parse_failures,
            final(self).empty_lines == old(self).empty_lines,
            final(self).failure_rate == rate_of(
                old(self).parse_failures as nat,
                (old(self).total_lines - old(self).empty_lines) as nat,
            ),
    {
        let non_empty = self.total_lines - self.empty_lines;
        self.failure_rate = if non_empty > 0 {
            Ratio { numerator: self.parse_failures as u64, denominator: non_empty as u64 }
        } else {
            Ratio { numerator: 0, denominator: 1 }
        };
    }

    pub fn exceeds_threshold(&self, threshold: Ratio) -> (r: bool)
        ensures
            r == self.failure_rate.spec_exceeds(threshold),
    {
        self.failure_rate.exceeds(&threshold)
    }
}

/// What parsing `content` under `threshold` owes: counts and records of its
/// lines where the file is accepted, and the reason where it is rejected.
#[verifier::opaque]
pub open spec fn file_outcome(
    content: Seq<char>,
    threshold: Ratio,
    r: Result<(Vec<NewObservation>, ParseStats)>,
) -> bool {
    let ls = lines_of(content);
    let non_empty = (ls.len() - count_blank(ls)) as nat;
    let failures = count_rejected(ls);
    let ok = accepted_lines(ls);
    let trips = rate_of(failures, non_empty).spec_exceeds(threshold);
    match r {
        Ok((obs, st)) => {
            &&& !trips
            &&& !(ok.len() == 0 && non_empty > 0)
            &&& st.total_lines == ls.len()
            &&& st.empty_lines == count_blank(ls)
            &&& st.parse_failures == failures
            &&& st.parsed_successfully == ok.len()
            &&& st.failure_rate == rate_of(failures, non_empty)
            &&& obs.len() == ok.len()
            &&& forall|k: int| 0 <= k < ok.len() ==> is_record_of(#[trigger] obs@[k], ok[k])
        },
        Err(e) => {
            &&& e is Parse
            &&& if trips {
                e->Parse_0@ == gate_text(failures, non_empty, threshold)
            } else {
                &&& ok.len() == 0
                &&& non_empty > 0
                &&& e->Parse_0@ == "No observations successfully parsed from non-empty file"@
            }
        },
    }
}

/// Absent values round-trip: a measurement numeral whose value is the
/// sentinel -9999 (in any number of decimal places) reads as absent, one that
/// lies 0.1 or more from it reads as exactly its own digits and places; a flag
/// numeral reads as absent exactly where it is -9999, else as itself.
pub proof fn lemma_sentinel_round_trip(tok: Seq<char>)
    ensures
        decimal_reading(tok) matches Some((v, sc)) ==> (v == -9999 * pow10(sc) ==> decimal_field(
            tok,
        ) is None),
        decimal_reading(tok) matches Some((v, sc)) ==> (!near_sentinel(v, sc) ==> (decimal_field(
            tok,
        ) is Some && decimal_field(tok)->0.units as int == v && decimal_field(tok)->0.scale as nat
            == sc)),
        decimal_reading(tok) is None ==> decimal_field(tok) is None,
        i32_reading(tok) matches Ok(x) ==> int_field(tok) == if x == MISSING_VALUE_INT {
            None
        } else {
            Some(x)
        },
{
    crate::text::lemma_scan_bounds(crate::text::unsigned_part(tok));
    if let Some((v, sc)) = decimal_reading(tok) {
        crate::text::lemma_pow10_step(17);
        let n = crate::text::decimal_scan(crate::text::unsigned_part(tok)).2;
        crate::text::lemma_pow10_monotone(n, 18);
        crate::text::lemma_pow10_monotone(sc, 18);
        crate::text::lemma_pow10_step(sc);
        if v == -9999 * pow10(sc) {
            assert(near_sentinel(v, sc));
        }
    }
}

/// The quality gate's boundary: with at least one line holding a record, a
/// share of failed lines exactly at the threshold is accepted; a share strictly
/// above it is rejected, with a message naming both.
pub proof fn lemma_gate_boundary(
    content: Seq<char>,
    threshold: Ratio,
    r: Result<(Vec<NewObservation>, ParseStats)>,
)
    requires
        threshold.wf(),
        content.len() <= usize::MAX,
        file_outcome(content, threshold, r),
    ensures
        ({
            let ls = lines_of(content);
            let n = (ls.len() - count_blank(ls)) as nat;
            let f = count_rejected(ls);
            &&& (n > 0 && f * threshold.denominator == threshold.numerator * n && accepted_lines(
                ls,
            ).len() > 0) ==> r is Ok
            &&& (n > 0 && f * threshold.denominator > threshold.numerator * n) ==> (r matches Err(e)
                && e is Parse && e->Parse_0@ == gate_text(f, n, threshold))
        }),
{
    reveal(file_outcome);
    let ls = lines_of(content);
    crate::text::lemma_lines_len(content);
    lemma_line_counts(ls);
}

/// An accepted file's records are those of its accepted lines, in order.
pub proof fn lemma_accepted_records(
    content: Seq<char>,
    threshold: Ratio,
    obs: Vec<NewObservation>,
    stats: ParseStats,
)
    requires
        file_outcome(content, threshold, Ok((obs, stats))),
    ensures
        obs.len() == accepted_lines(lines_of(content)).len(),
        forall|k: int|
            0 <= k < obs.len() ==> is_record_of(
                #[trigger] obs@[k],
                accepted_lines(lines_of(content))[k],
            ),
{
    reveal(file_outcome);
}

proof fn lemma_line_counts(ls: Seq<Seq<char>>)
    ensures
        count_blank(ls) + count_rejected(ls) + accepted_lines(ls).len() == ls.len(),
    decreases ls.len(),
{
    if ls.len() > 0 {
        lemma_line_counts(ls.drop_last());
    }
}

// ------------------------------------------------------------------ laws

/// A measurement that is present lies 0.1 or more from the sentinel.
pub open spec fn no_sentinel(d: Option<Decimal>) -> bool {
    d matches Some(x) ==> !near_sentinel(x.units as int, x.scale as nat)
}

/// No field of `o` holds the sentinel: every present measurement lies 0.1 or
/// more from -9999, and no flag is -9999.
pub open spec fn free_of_sentinels(o: NewObservation) -> bool {
    &&& no_sentinel(o.t_calc)
    &&& no_sentinel(o.t_hr_avg)
    &&& no_sentinel(o.t_max)
    &&& no_sentinel(o.t_min)
    &&& no_sentinel(o.p_calc)
    &&& no_sentinel(o.solarad)
    &&& no_sentinel(o.solarad_max)
    &&& no_sentinel(o.solarad_min)
    &&& no_sentinel(o.sur_temp)
    &&& no_sentinel(o.sur_temp_max)
    &&& no_sentinel(o.sur_temp_min)
    &&& no_sentinel(o.rh_hr_avg)
    &&& no_sentinel(o.soil_moisture_5)
    &&& no_sentinel(o.soil_moisture_10)
    &&& no_sentinel(o.soil_moisture_20)
    &&& no_sentinel(o.soil_moisture_50)
    &&& no_sentinel(o.soil_moisture_100)
    &&& no_sentinel(o.soil_temp_5)
    &&& no_sentinel(o.soil_temp_10)
    &&& no_sentinel(o.soil_temp_20)
    &&& no_sentinel(o.soil_temp_50)
    &&& no_sentinel(o.soil_temp_100)
    &&& o.solarad_flag != Some(MISSING_VALUE_INT)
    &&& o.solarad_max_flag != Some(MISSING_VALUE_INT)
    &&& o.solarad_min_flag != Some(MISSING_VALUE_INT)
    &&& o.sur_temp_flag != Some(MISSING_VALUE_INT)
    &&& o.sur_temp_max_flag != Some(MISSING_VALUE_INT)
    &&& o.sur_temp_min_flag != Some(MISSING_VALUE_INT)
    &&& o.rh_hr_avg_flag != Some(MISSING_VALUE_INT)
}

proof fn lemma_field_clean(t: Seq<Seq<char>>, i: int)
    requires
        0 <= i,
    ensures
        no_sentinel(measurement(t, i)),
        flag(t, i) != Some(MISSING_VALUE_INT),
{
    if i < t.len() {
        lemma_sentinel_round_trip(t[i]);
    }
}

proof fn lemma_record_clean(o: NewObservation, t: Seq<Seq<char>>)
    requires
        is_record_of(o, t),
    ensures
        free_of_sentinels(o),
{
    reveal(is_record_of);
    assert forall|i: int| 0 <= i implies #[trigger] no_sentinel(measurement(t, i)) && flag(t, i) != Some(
        MISSING_VALUE_INT,
    ) by {
        lemma_field_clean(t, i);
    }
}

/// Sentinels never surface in an accepted file: no observation that parsing
/// returns holds -9999 (or a value within 0.1 of it) in any field.
pub proof fn lemma_no_sentinel_survives(
    content: Seq<char>,
    threshold: Ratio,
    obs: Vec<NewObservation>,
    stats: ParseStats,
)
    requires
        file_outcome(content, threshold, Ok((obs, stats))),
    ensures
        forall|k: int| 0 <= k < obs.len() ==> free_of_sentinels(#[trigger] obs@[k]),
{
    lemma_accepted_records(content, threshold, obs, stats);
    assert forall|k: int| 0 <= k < obs.len() implies free_of_sentinels(#[trigger] obs@[k]) by {
        lemma_record_clean(obs@[k], accepted_lines(lines_of(content))[k]);
    }
}

/// Two records agree in every field (strings by their text).
pub open spec fn same_record(a: NewObservation, b: NewObservation) -> bool {
    &&& a.wbanno == b.wbanno
    &&& a.utc_datetime == b.utc_datetime
    &&& a.lst_datetime == b.lst_datetime
    &&& a.crx_version is Some && b.crx_version is Some && a.crx_version->0@ == b.crx_version->0@
    &&& a.sur_temp_type is Some && b.sur_temp_type is Some && a.sur_temp_type->0@
        == b.sur_temp_type->0@
    &&& a.t_calc == b.t_calc
    &&& a.t_hr_avg == b.t_hr_avg
    &&& a.t_max == b.t_max
    &&& a.t_min == b.t_min
    &&& a.p_calc == b.p_calc
    &&& a.solarad == b.solarad
    &&& a.solarad_max == b.solarad_max
    &&& a.solarad_min == b.solarad_min
    &&& a.sur_temp == b.sur_temp
    &&& a.sur_temp_max == b.sur_temp_max
    &&& a.sur_temp_min == b.sur_temp_min
    &&& a.rh_hr_avg == b.rh_hr_avg
    &&& a.soil_moisture_5 == b.soil_moisture_5
    &&& a.soil_moisture_10 == b.soil_moisture_10
    &&& a.soil_moisture_20 == b.soil_moisture_20
    &&& a.soil_moisture_50 == b.soil_moisture_50
    &&& a.soil_moisture_100 == b.soil_moisture_100
    &&& a.soil_temp_5 == b.soil_temp_5
    &&& a.soil_temp_10 == b.soil_temp_10
    &&& a.soil_temp_20 == b.soil_temp_20
    &&& a.soil_temp_50 == b.soil_temp_50
    &&& a.soil_temp_100 == b.soil_temp_100
    &&& a.solarad_flag == b.solarad_flag
    &&& a.solarad_max_flag == b.solarad_max_flag
    &&& a.solarad_min_flag == b.solarad_min_flag
    &&& a.sur_temp_flag == b.sur_temp_flag
    &&& a.sur_temp_max_flag == b.sur_temp_max_flag
    &&& a.sur_temp_min_flag == b.sur_temp_min_flag
    &&& a.rh_hr_avg_flag == b.rh_hr_avg_flag
    &&& a.source_file_id == b.source_file_id
}

proof fn lemma_records_agree(a: NewObservation, b: NewObservation, t: Seq<Seq<char>>)
    requires
        is_record_of(a, t),
        is_record_of(b, t),
    ensures
        same_record(a, b),
{
    reveal(is_record_of);
}

/// Parsing is a function of the content and threshold alone: two parses of
/// the same content either both fail with the same message, or both succeed
/// with equal counts and field-by-field equal observations.
pub proof fn lemma_parse_deterministic(
    content: Seq<char>,
    threshold: Ratio,
    first: Result<(Vec<NewObservation>, ParseStats)>,
    second: Result<(Vec<NewObservation>, ParseStats)>,
)
    requires
        file_outcome(content, threshold, first),
        file_outcome(content, threshold, second),
    ensures
        first is Ok <==> second is Ok,
        first matches Err(e1) ==> (second matches Err(e2) && e1 is Parse && e2 is Parse
            && e1->Parse_0@ == e2->Parse_0@),
        first matches Ok((o1, s1)) ==> (second matches Ok((o2, s2)) && s1.total_lines
            == s2.total_lines && s1.parsed_successfully == s2.parsed_successfully
            && s1.parse_failures == s2.parse_failures && s1.empty_lines == s2.empty_lines
            && s1.failure_rate == s2.failure_rate && o1.len() == o2.len() && forall|k: int|
            0 <= k < o1.len() ==> same_record(#[trigger] o1@[k], o2@[k])),
{
    reveal(file_outcome);
    if let Ok((o1, s1)) = first {
        if let Ok((o2, s2)) = second {
            let ok = accepted_lines(lines_of(content));
            assert forall|k: int| 0 <= k < o1.len() implies same_record(#[trigger] o1@[k], o2@[k]) by {
                lemma_records_agree(o1@[k], o2@[k], ok[k]);
            }
        }
    }
}

pub struct Parser;

impl Parser {
    /// Parses a file with the default quality threshold (one line in ten).
    pub fn parse_file(content: &str) -> (r: Result<(Vec<NewObservation>, ParseStats)>)
        ensures
            file_outcome(content@, default_threshold(), r),
    {
        Parser::parse_file_with_threshold(content, Ratio { numerator: 10, denominator: 100 })
    }

    /// Parses every non-blank line of `content`; lines that hold no record are
    /// counted and skipped. The file is rejected where the share of such lines
    /// exceeds `failure_threshold`, or where no line holds a record.
    pub fn parse_file_with_threshold(content: &str, failure_threshold: Ratio) -> (r: Result<
        (Vec<NewObservation>, ParseStats),
    >)
        requires
            failure_threshold.wf(),
        ensures
            file_outcome(content@, failure_threshold, r),
    {
        proof {
            reveal(file_outcome);
        }
        let chars = chars_of(content);
        let lines = split_lines(&chars);
        let ghost ls = lines_of(content@);
        let mut observations: Vec<NewObservation> = Vec::new();
        let mut stats = ParseStats::new();
        let mut i: usize = 0;
        while i < lines.len()
            invariant
                ls == texts(lines@),
                i <= lines.len(),
                stats.total_lines == i,
                stats.empty_lines == count_blank(ls.take(i as int)),
                stats.parse_failures == count_rejected(ls.take(i as int)),
                stats.parsed_successfully == observations.len(),
                observations.len() == accepted_lines(ls.take(i as int)).len(),
                stats.empty_lines + stats.parse_failures + stats.parsed_successfully == i,
                stats.failure_rate == (Ratio { numerator: 0, denominator: 1 }),
                forall|k: int|
                    0 <= k < observations.len() ==> is_record_of(
                        #[trigger] observations@[k],
                        accepted_lines(ls.take(i as int))[k],
                    ),
            decreases lines.len() - i,
        {
            assert(ls.take(i + 1).drop_last() =~= ls.take(i as int));
            assert(ls.take(i + 1).last() == lines@[i as int]@);
            let toks = split_tokens(&lines[i]);
            stats.total_lines += 1;
            if toks.len() == 0 {
                stats.empty_lines += 1;
            } else {
                match Parser::parse_tokens(&toks) {
                    Ok(obs) => {
                        observations.push(obs);
                        stats.parsed_successfully += 1;
                    },
                    Err(_) => {
                        stats.parse_failures += 1;
                    },
                }
            }
            i += 1;
        }
        assert(ls.take(lines.len() as int) =~= ls);
        stats.finalize();
        if stats.exceeds_threshold(failure_threshold) {
            let m = gate_message(
                stats.parse_failures,
                stats.total_lines - stats.empty_lines,
                failure_threshold,
            );
            return Err(AppError::Parse(m));
        }
        if observations.len() == 0 && stats.total_lines > stats.empty_lines {
            return Err(
                AppError::Parse(text("No observations successfully parsed from non-empty file")),
            );
        }
        Ok((observations, stats))
    }

    /// The record on a line of tokens `t`, or why the line is none (see `line_error`).
    pub fn parse_tokens(t: &Vec<Vec<char>>) -> (r: Result<NewObservation>)
        ensures
            match r {
                Ok(obs) => line_error(texts(t@)) is None && is_record_of(obs, texts(t@)),
                Err(e) => line_error(texts(t@)) is Some && e is Parse && e->Parse_0@ == line_error(
                    texts(t@),
                )->0,
            },
    {
        let ghost tv = texts(t@);
        if t.len() < MIN_FIELDS {
            let mut m = text("Expected at least 28 fields, got ");
            append_int(&mut m, t.len() as i64);
            return Err(AppError::Parse(m));
        }
        assert(tv[0] == t@[0]@ && tv[1] == t@[1]@ && tv[2] == t@[2]@ && tv[3] == t@[3]@ && tv[4]
            == t@[4]@ && tv[5] == t@[5]@ && tv[19] == t@[19]@);
        let wbanno = match int_token(&t[0]) {
            Ok(v) => v,
            Err(e) => return Err(e),
        };
        let utc_date = match int_token(&t[1]) {
            Ok(v) => v,
            Err(e) => return Err(e),
        };
        let utc_time = match int_token(&t[2]) {
            Ok(v) => v,
            Err(e) => return Err(e),
        };
        let lst_date = match int_token(&t[3]) {
            Ok(v) => v,
            Err(e) => return Err(e),
        };
        let lst_time = match int_token(&t[4]) {
            Ok(v) => v,
            Err(e) => return Err(e),
        };
        let crx_version = crate::text::string_of(&t[5]);
        let utc_datetime = match parse_datetime(utc_date, utc_time) {
            Ok(v) => v,
            Err(e) => return Err(e),
        };
        let lst_datetime = match parse_datetime(lst_date, lst_time) {
            Ok(v) => v,
            Err(e) => return Err(e),
        };
        let sur_temp_type = crate::text::string_of(&t[19]);
        proof {
            reveal(is_record_of);
        }
        Ok(
            NewObservation {
                wbanno,
                utc_datetime,
                lst_datetime,
                crx_version: Some(crx_version),
                t_calc: measurement_at(t, 8),
                t_hr_avg: measurement_at(t, 9),
                t_max: measurement_at(t, 10),
                t_min: measurement_at(t, 11),
                p_calc: measurement_at(t, 12),
                solarad: measurement_at(t, 13),
                solarad_flag: flag_at(t, 14),
                solarad_max: measurement_at(t, 15),
                solarad_max_flag: flag_at(t, 16),
                solarad_min: measurement_at(t, 17),
                solarad_min_flag: flag_at(t, 18),
                sur_temp_type: Some(sur_temp_type),
                sur_temp: measurement_at(t, 20),
                sur_temp_flag: flag_at(t, 21),
                sur_temp_max: measurement_at(t, 22),
                sur_temp_max_flag: flag_at(t, 23),
                sur_temp_min: measurement_at(t, 24),
                sur_temp_min_flag: flag_at(t, 25),
                rh_hr_avg: measurement_at(t, 26),
                rh_hr_avg_flag: flag_at(t, 27),
                soil_moisture_5: measurement_at(t, 28),
                soil_moisture_10: measurement_at(t, 29),
                soil_moisture_20: measurement_at(t, 30),
                soil_moisture_50: measurement_at(t, 31),
                soil_moisture_100: measurement_at(t, 32),
                soil_temp_5: measurement_at(t, 33),
                soil_temp_10: measurement_at(t, 34),
                soil_temp_20: measurement_at(t, 35),
                soil_temp_50: measurement_at(t, 36),
                soil_temp_100: measurement_at(t, 37),
                source_file_id: None,
            },
        )
    }

    /// The record on one line, or why the line is none (see `line_error`).
    pub fn parse_line(line: &str) -> (r: Result<NewObservation>)
        ensures
            match r {
                Ok(obs) => line_error(tokens_of(line@)) is None && is_record_of(obs, tokens_of(line@)),
                Err(e) => line_error(tokens_of(line@)) is Some && e is Parse && e->Parse_0@
                    == line_error(tokens_of(line@))->0,
            },
    {
        let chars = chars_of(line);
        let toks = split_tokens(&chars);
        Parser::parse_tokens(&toks)
    }
}

} // verus!
