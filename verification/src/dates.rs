//! The legacy date codec: a day count decoded from a millisecond value in
//! the old spreadsheet encoding, the calendar date it names, and the
//! warranty status derived from it.
//!
//! The encoding divides the raw value by the milliseconds of one day
//! (truncating toward zero, as the snapshots were produced) and adds a fixed
//! offset of 25569 days counted from 1900-01-01. The offset is an
//! idiosyncrasy of the data and is preserved, not corrected.

use vstd::prelude::*;

verus! {

/// A plain calendar date, as the calendar arithmetic reports it.
#[derive(Debug, PartialEq, Eq, Structural, Clone, Copy)]
pub struct CalendarDate {
    pub year: i32,
    pub month: u8,
    pub day: u8,
}

/// Warranty standing of an assembly, derived from its build date.
#[derive(Debug, PartialEq, Eq, Structural, Clone, Copy)]
pub enum WarrantyStatus {
    /// The raw build-date value was 0: the field is absent.
    Unknown,
    /// Built at most three years (1095 days) before today.
    InWarranty,
    OutOfWarranty,
}

/// Division truncating toward zero, as the machine divides signed integers.
pub open spec fn trunc_div_ms(raw: int) -> int {
    if raw >= 0 {
        raw / 86400000
    } else {
        -((-raw) / 86400000)
    }
}

/// The day number a raw legacy value decodes to, counted from 1900-01-01.
pub open spec fn legacy_day_number(raw: int) -> int {
    trunc_div_ms(raw) + 25569
}

/// The warranty rule: absent build dates are unknown; otherwise the build
/// day must lie at most three years (1095 days) before today.
pub open spec fn warranty_of(raw: int, today_day: int) -> WarrantyStatus {
    if raw == 0 {
        WarrantyStatus::Unknown
    } else if today_day - legacy_day_number(raw) <= 1095 {
        WarrantyStatus::InWarranty
    } else {
        WarrantyStatus::OutOfWarranty
    }
}

/// The calendar date `d` days after 1900-01-01 in the proleptic Gregorian
/// calendar, as (year, month, day).
pub uninterp spec fn civil_of_day(d: int) -> (int, int, int);

/// Decode a raw legacy value to its day number. Never fails: out-of-range
/// values simply name days far in the past or future.
pub fn legacy_day_offset(raw: i64) -> (d: i64)
    ensures
        d == legacy_day_number(raw as int),
        -106_760_000_000 <= d <= 106_760_000_000,
{
    if raw >= 0 {
        let q = (raw as u64) / 86400000u64;
        proof {
            assert(q <= 106751991167) by (nonlinear_arith)
                requires
                    q == (raw as u64) as int / 86400000,
                    0 <= (raw as u64) as int <= 9223372036854775807,
            ;
        }
        (q as i64) + 25569
    } else {
        // magnitude of a negative value, written to survive `i64::MIN`
        let m: u64 = ((-(raw + 1)) as u64) + 1;
        let q0 = m / 86400000u64;
        proof {
            assert(m == -(raw as int));
            assert(q0 <= 106751991167) by (nonlinear_arith)
                requires
                    q0 == m as int / 86400000,
                    0 <= m as int <= 9223372036854775808,
            ;
        }
        -(q0 as i64) + 25569
    }
}

/// The warranty status of a raw build-date value, judged against today's
/// day number (counted from 1900-01-01, as `today_day_number` reports it).
pub fn warranty_status(raw: i64, today_day: i64) -> (r: WarrantyStatus)
    requires
        -100_000_000 <= today_day <= 100_000_000,
    ensures
        r == warranty_of(raw as int, today_day as int),
{
    if raw == 0 {
        WarrantyStatus::Unknown
    } else {
        let built = legacy_day_offset(raw);
        if today_day - built <= 1095 {
            WarrantyStatus::InWarranty
        } else {
            WarrantyStatus::OutOfWarranty
        }
    }
}

/// The warranty standing of a raw build date as of now: today's day number
/// and the status judged against it.
pub fn warranty_status_now(raw: i64) -> (r: (i64, WarrantyStatus))
    ensures
        -100_000_000 <= r.0 <= 100_000_000,
        r.1 == warranty_of(raw as int, r.0 as int),
{
    let today = today_day_number();
    let status = warranty_status(raw, today);
    (today, status)
}

/// An absent build date (raw value 0) is never decoded into a calendar
/// date: its warranty standing is unknown, whatever day today is.
pub proof fn lemma_zero_build_date_unknown(today_day: int)
    ensures
        warranty_of(0, today_day) == WarrantyStatus::Unknown,
{
}

/// Relies on chrono's `NaiveDate::checked_add_signed` from 1900-01-01, a
/// pure function of the day offset; `TimeDelta::try_days` builds the offset
/// and the `Datelike` getters read the result out. `None` only when the
/// date falls outside chrono's representable years, which cover at least
/// 90 million days on either side.
#[verifier::external_body]
pub fn day_to_civil(d: i64) -> (r: Option<CalendarDate>)
    ensures
        match r {
            Some(c) => (c.year as int, c.month as int, c.day as int) == civil_of_day(d as int)
                && 1 <= c.month <= 12 && 1 <= c.day <= 31,
            None => true,
        },
        -90_000_000 <= d <= 90_000_000 ==> r is Some,
{
    let base = chrono::NaiveDate::from_ymd_opt(1900, 1, 1)?;
    let delta = chrono::TimeDelta::try_days(d)?;
    let date = base.checked_add_signed(delta)?;
    Some(CalendarDate {
        year: chrono::Datelike::year(&date),
        month: chrono::Datelike::month(&date) as u8,
        day: chrono::Datelike::day(&date) as u8,
    })
}

/// Relies on chrono's `Utc::now`: today's date, as a day number counted
/// from 1900-01-01. The clock decides the value; chrono's representable
/// years keep it within a hundred million days of the epoch.
#[verifier::external_body]
pub fn today_day_number() -> (r: i64)
    ensures
        -100_000_000 <= r <= 100_000_000,
{
    let base = match chrono::NaiveDate::from_ymd_opt(1900, 1, 1) {
        Some(b) => b,
        None => return 0,
    };
    let today = chrono::Utc::now().date_naive();
    today.signed_duration_since(base).num_days()
}

} // verus!

