//! Records that the pipeline produces and stores.

use std::fmt::Write;
use vstd::prelude::*;

verus! {

/// A fixed-point number: `units / 10^scale`.
#[derive(Clone, Copy, Debug, PartialEq, Eq, Structural)]
pub struct Decimal {
    pub units: i64,
    pub scale: u32,
}

/// A calendar date and time of day, in UTC.
#[derive(Clone, Copy, Debug, PartialEq, Eq, Structural)]
pub struct Timestamp {
    pub year: i32,
    pub month: u32,
    pub day: u32,
    pub hour: u32,
    pub minute: u32,
    pub second: u32,
}

pub open spec fn is_leap_year(y: int) -> bool {
    (y % 4 == 0 && y % 100 != 0) || y % 400 == 0
}

pub open spec fn days_in_month(y: int, m: int) -> int {
    if m == 2 {
        if is_leap_year(y) {
            29
        } else {
            28
        }
    } else if m == 4 || m == 6 || m == 9 || m == 11 {
        30
    } else {
        31
    }
}

/// Whether `y-m-d` is a day of the proleptic Gregorian calendar.
pub open spec fn is_calendar_date(y: int, m: int, d: int) -> bool {
    1 <= m <= 12 && 1 <= d <= days_in_month(y, m)
}

/// The text that chrono's `strftime`-style formatting gives for a date and time.
pub uninterp spec fn formatted_datetime(
    year: int,
    month: int,
    day: int,
    hour: int,
    minute: int,
    second: int,
    pattern: Seq<char>,
) -> Seq<char>;

/// Relies on chrono's `NaiveDate::from_ymd_opt`, `NaiveDate::and_hms_opt` and
/// `NaiveDateTime::format`: the formatted text, or `None` where the date or time
/// does not exist or the pattern holds an unknown specifier.
#[verifier::external_body]
fn chrono_format(y: i32, mo: u32, d: u32, h: u32, mi: u32, s: u32, pattern: &str) -> (r: Option<String>)
    ensures
        r matches Some(t) ==> t@ == formatted_datetime(
            y as int,
            mo as int,
            d as int,
            h as int,
            mi as int,
            s as int,
            pattern@,
        ),
{
    let dt = chrono::NaiveDate::from_ymd_opt(y, mo, d)?.and_hms_opt(h, mi, s)?;
    let mut out = String::new();
    match write!(out, "{}", dt.format(pattern)) {
        Ok(()) => Some(out),
        Err(_) => None,
    }
}

impl Timestamp {
    /// The timestamp formatted with a `strftime`-style pattern (as chrono
    /// reads it); `None` where the pattern cannot be rendered.
    pub fn format(&self, pattern: &str) -> (r: Option<String>)
        ensures
            r matches Some(t) ==> t@ == formatted_datetime(
                self.year as int,
                self.month as int,
                self.day as int,
                self.hour as int,
                self.minute as int,
                self.second as int,
                pattern@,
            ),
    {
        chrono_format(self.year, self.month, self.day, self.hour, self.minute, self.second, pattern)
    }

    pub open spec fn wf(self) -> bool {
        &&& is_calendar_date(self.year as int, self.month as int, self.day as int)
        &&& self.hour < 24
        &&& self.minute < 60
        &&& self.second < 60
    }
}

/// One measurement epoch of one station, as parsed.
#[derive(Clone, Debug)]
pub struct NewObservation {
    pub wbanno: i32,
    pub utc_datetime: Timestamp,
    pub lst_datetime: Timestamp,
    pub crx_version: Option<String>,
    pub t_calc: Option<Decimal>,
    pub t_hr_avg: Option<Decimal>,
    pub t_max: Option<Decimal>,
    pub t_min: Option<Decimal>,
    pub p_calc: Option<Decimal>,
    pub solarad: Option<Decimal>,
    pub solarad_flag: Option<i32>,
    pub solarad_max: Option<Decimal>,
    pub solarad_max_flag: Option<i32>,
    pub solarad_min: Option<Decimal>,
    pub solarad_min_flag: Option<i32>,
    pub sur_temp_type: Option<String>,
    pub sur_temp: Option<Decimal>,
    pub sur_temp_flag: Option<i32>,
    pub sur_temp_max: Option<Decimal>,
    pub sur_temp_max_flag: Option<i32>,
    pub sur_temp_min: Option<Decimal>,
    pub sur_temp_min_flag: Option<i32>,
    pub rh_hr_avg: Option<Decimal>,
    pub rh_hr_avg_flag: Option<i32>,
    pub soil_moisture_5: Option<Decimal>,
    pub soil_moisture_10: Option<Decimal>,
    pub soil_moisture_20: Option<Decimal>,
    pub soil_moisture_50: Option<Decimal>,
    pub soil_moisture_100: Option<Decimal>,
    pub soil_temp_5: Option<Decimal>,
    pub soil_temp_10: Option<Decimal>,
    pub soil_temp_20: Option<Decimal>,
    pub soil_temp_50: Option<Decimal>,
    pub soil_temp_100: Option<Decimal>,
    pub source_file_id: Option<i32>,
}

impl NewObservation {
    /// The natural key of the stored row: station and UTC time.
    pub open spec fn key(self) -> (i32, Timestamp) {
        (self.wbanno, self.utc_datetime)
    }
}

/// The outcome of a batched merge of observations.
#[derive(Clone, Copy, Debug, PartialEq, Eq, Structural)]
pub struct InsertResult {
    pub inserted: usize,
    pub updated: usize,
    pub total_rows_affected: usize,
}

/// A station as first seen in a file; absent values never replace known ones.
#[derive(Clone, Debug)]
pub struct NewStation {
    pub wbanno: i32,
    pub name: Option<String>,
    pub state: String,
    pub latitude: Option<Decimal>,
    pub longitude: Option<Decimal>,
}

/// The provenance of one attempt at one source file.
#[derive(Clone, Debug)]
pub struct NewProcessedFile {
    pub file_name: String,
    pub file_url: String,
    pub year: i32,
    pub state: String,
    pub station_name: String,
    pub last_modified: Option<Timestamp>,
    pub rows_processed: i32,
    pub file_hash: Option<String>,
    pub observations_inserted: i32,
    pub observations_updated: i32,
    pub parse_failures: i32,
    pub processing_status: String,
}

} // verus!
