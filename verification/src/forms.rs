//! The meeting form: its date in a named time zone, and the host order.

use vstd::prelude::*;
use chrono::{Datelike, Offset, TimeZone, Timelike};
use crate::models::{MeetingUpdateParams, Timestamp};

verus! {

#[verifier::external_type_specification]
#[verifier::external_body]
pub struct ExChronoParseError(chrono::ParseError);

/// A local date and time to the minute: year, month, day, hour, minute.
pub type LocalMinute = (i32, u32, u32, u32, u32);

/// Where a local time falls in a time zone.
pub enum ZoneResolution {
    /// The local time is one instant, shown at this offset.
    Single { utc_micros: i64, offset_seconds: i32 },
    /// The local time occurs twice, the clocks being turned back.
    Ambiguous,
    /// The local time gives no instant: it does not occur, the clocks being
    /// turned forward, or the instant is beyond the range of dates.
    Gap,
}

/// Why a form date could not be read.
pub enum DateParseError {
    /// The date is not of the form `YYYY-MM-DDTHH:MM` or names no real time.
    InvalidDate,
}

/// What `NaiveDateTime::parse_from_str` reads from `s` with the format
/// `%Y-%m-%dT%H:%M`, as its fields, or `None` when it refuses `s`.
pub uninterp spec fn form_minute(s: Seq<char>) -> Option<LocalMinute>;

/// Whether `chrono_tz` knows a time zone of this name (`Tz::from_str`).
pub uninterp spec fn known_zone(name: Seq<char>) -> bool;

/// Where `TimeZone::from_local_datetime` places `local` in the zone `name`.
pub uninterp spec fn zone_resolution(name: Seq<char>, local: LocalMinute) -> ZoneResolution;

/// Calls `chrono::NaiveDateTime::parse_from_str(date, "%Y-%m-%dT%H:%M")` and
/// hands out the fields of what it read; the result is named `form_minute`.
#[verifier::external_body]
fn parse_form_minute(date: &str) -> (r: Result<LocalMinute, chrono::ParseError>)
    ensures
        r is Ok <==> form_minute(date@) is Some,
        r matches Ok(f) ==> form_minute(date@) == Some(f),
{
    chrono::NaiveDateTime::parse_from_str(date, "%Y-%m-%dT%H:%M").map(
        |d| (d.year(), d.month(), d.day(), d.hour(), d.minute()),
    )
}

/// Calls `<chrono_tz::Tz as FromStr>::from_str`, a lookup of the exact zone
/// name in the zone table; whether it succeeds is named `known_zone`.
#[verifier::external_body]
fn zone_is_known(name: &str) -> (r: bool)
    ensures
        r == known_zone(name@),
{
    name.parse::<chrono_tz::Tz>().is_ok()
}

/// Calls `TimeZone::from_local_datetime` for the zone `name` and the local
/// time `local`, with seconds zero; the result is named `zone_resolution`.
/// The zone must be known and `local` a time the form parser can produce,
/// so that the zone and the local time can be built.
#[verifier::external_body]
fn resolve_local_time(name: &str, local: LocalMinute) -> (r: ZoneResolution)
    requires
        known_zone(name@),
        exists|s: Seq<char>| form_minute(s) == Some(local),
    ensures
        r == zone_resolution(name@, local),
{
    let tz: chrono_tz::Tz = name.parse().unwrap();
    let day = chrono::NaiveDate::from_ymd_opt(local.0, local.1, local.2).unwrap();
    let naive = day.and_hms_opt(local.3, local.4, 0).unwrap();
    match tz.from_local_datetime(&naive) {
        chrono::LocalResult::Single(t) => ZoneResolution::Single {
            utc_micros: t.timestamp_micros(),
            offset_seconds: t.offset().fix().local_minus_utc(),
        },
        chrono::LocalResult::Ambiguous(_, _) => ZoneResolution::Ambiguous,
        chrono::LocalResult::None => ZoneResolution::Gap,
    }
}

/// The decimal number `s` denotes: ASCII digits only, at least one.
pub open spec fn digits_value(s: Seq<char>) -> int
    decreases s.len(),
{
    if s.len() == 0 {
        0
    } else {
        digits_value(s.drop_last()) * 10 + (s.last() as int - '0' as int)
    }
}

/// Every character of `s` is an ASCII digit.
pub open spec fn all_digits(s: Seq<char>) -> bool {
    forall|i: int| 0 <= i < s.len() ==> '0' <= #[trigger] s[i] <= '9'
}

/// What `str::parse::<i32>` reads: an optional `+` or `-`, then one or more
/// ASCII digits, denoting a number within the range of `i32`.
pub open spec fn decimal_i32(s: Seq<char>) -> Option<i32> {
    let negative = s.len() > 0 && s[0] == '-';
    let body = if s.len() > 0 && (s[0] == '-' || s[0] == '+') {
        s.drop_first()
    } else {
        s
    };
    let v = if negative {
        -digits_value(body)
    } else {
        digits_value(body)
    };
    if body.len() == 0 || !all_digits(body) || v < i32::MIN || v > i32::MAX {
        None
    } else {
        Some(v as i32)
    }
}

/// Calls `str::parse::<i32>`: its documentation accepts an optional sign
/// followed by digits only, and refuses numbers out of range.
#[verifier::external_body]
fn parse_i32(s: &str) -> (r: Option<i32>)
    ensures
        r == decimal_i32(s@),
{
    s.parse::<i32>().ok()
}

/// The meeting form as submitted.
pub struct MeetingFormParams {
    pub location: String,
    pub date: String,
    pub timezone: String,
    pub user_ids: Vec<String>,
    pub bench_user_ids: Vec<String>,
}

/// Every id of `ids` is a decimal `i32`.
pub open spec fn all_ids_decimal(ids: Seq<String>) -> bool {
    forall|i: int| 0 <= i < ids.len() ==> (#[trigger] decimal_i32(ids[i]@)) is Some
}

/// The instant the form names, when its date reads and is a single instant.
pub open spec fn form_instant(date: Seq<char>, zone: Seq<char>) -> Option<Timestamp> {
    match form_minute(date) {
        Some(f) => match zone_resolution(zone, f) {
            ZoneResolution::Single { utc_micros, offset_seconds } => Some(
                Timestamp { utc_micros, offset_seconds },
            ),
            _ => None,
        },
        None => None,
    }
}

/// The date reads as a single instant in the zone, or does not read at all.
pub open spec fn date_is_unambiguous(date: Seq<char>, zone: Seq<char>) -> bool {
    form_minute(date) matches Some(f) ==> zone_resolution(zone, f) is Single
}

impl MeetingFormParams {
    /// The instant the form's date names in its time zone, or an error when
    /// the date does not read. The zone must be known and the date must not
    /// fall in a gap or fold of the zone's clock.
    pub fn get_datetime(&self) -> (r: Result<Timestamp, DateParseError>)
        requires
            known_zone(self.timezone@),
            date_is_unambiguous(self.date@, self.timezone@),
        ensures
            form_minute(self.date@) is None ==> r is Err,
            form_minute(self.date@) is Some ==> r == Ok::<Timestamp, DateParseError>(
                form_instant(self.date@, self.timezone@)->0,
            ),
    {
        let local = match parse_form_minute(self.date.as_str()) {
            Ok(f) => f,
            Err(_) => {
                return Err(DateParseError::InvalidDate);
            },
        };
        match resolve_local_time(self.timezone.as_str(), local) {
            ZoneResolution::Single { utc_micros, offset_seconds } => Ok(
                Timestamp { utc_micros, offset_seconds },
            ),
            _ => {
                assert(false);
                Err(DateParseError::InvalidDate)
            },
        }
    }

    /// `get_datetime` where it is defined: `None` for an unknown zone, or for
    /// a date that reads but falls in a gap or fold of the zone's clock.
    pub fn try_get_datetime(&self) -> (r: Option<Result<Timestamp, DateParseError>>)
        ensures
            r is None <==> !known_zone(self.timezone@) || !date_is_unambiguous(
                self.date@,
                self.timezone@,
            ),
            r matches Some(res) ==> (form_minute(self.date@) is None ==> res is Err) && (form_minute(
                self.date@,
            ) is Some ==> res == Ok::<Timestamp, DateParseError>(
                form_instant(self.date@, self.timezone@)->0,
            )),
    {
        if !zone_is_known(self.timezone.as_str()) {
            return None;
        }
        match parse_form_minute(self.date.as_str()) {
            Ok(f) => {
                match resolve_local_time(self.timezone.as_str(), f) {
                    ZoneResolution::Single { .. } => {},
                    _ => {
                        return None;
                    },
                }
            },
            Err(_) => {},
        }
        Some(self.get_datetime())
    }

    /// The host order the form lists, as member ids.
    pub fn order(&self) -> (order: Vec<i32>)
        requires
            all_ids_decimal(self.user_ids@),
        ensures
            order@.len() == self.user_ids@.len(),
            forall|i: int|
                0 <= i < order@.len() ==> Some(#[trigger] order@[i]) == decimal_i32(self.user_ids@[i]@),
    {
        let mut order: Vec<i32> = Vec::new();
        let mut i: usize = 0;
        while i < self.user_ids.len()
            invariant
                i <= self.user_ids.len(),
                all_ids_decimal(self.user_ids@),
                order@.len() == i,
                forall|j: int|
                    0 <= j < i ==> Some(#[trigger] order@[j]) == decimal_i32(self.user_ids@[j]@),
            decreases self.user_ids.len() - i,
        {
            let ghost s = self.user_ids@[i as int]@;
            assert(decimal_i32(s) is Some);
            match parse_i32(self.user_ids[i].as_str()) {
                Some(id) => {
                    order.push(id);
                },
                None => {
                    assert(false);
                },
            }
            i += 1;
        }
        order
    }

    /// The update the form asks for: its place, its date and its host order.
    /// The zone must be known, the date must read as a single instant, and
    /// every listed id must be a decimal `i32`.
    pub fn update_params(&self) -> (p: MeetingUpdateParams)
        requires
            known_zone(self.timezone@),
            form_instant(self.date@, self.timezone@) is Some,
            all_ids_decimal(self.user_ids@),
        ensures
            p.location == self.location,
            p.date == form_instant(self.date@, self.timezone@)->0,
            p.order@.len() == self.user_ids@.len(),
            forall|i: int|
                0 <= i < p.order@.len() ==> Some(#[trigger] p.order@[i]) == decimal_i32(self.user_ids@[i]@),
    {
        let date = match self.get_datetime() {
            Ok(d) => d,
            Err(_) => {
                assert(false);
                Timestamp { utc_micros: 0, offset_seconds: 0 }
            },
        };
        MeetingUpdateParams { location: self.location.clone(), date, order: self.order() }
    }

    /// `update_params` where it is defined: `None` for an unknown zone, a
    /// date that does not read as a single instant, or an id that is not a
    /// decimal `i32`.
    pub fn try_update_params(&self) -> (r: Option<MeetingUpdateParams>)
        ensures
            r is None <==> !known_zone(self.timezone@) || form_instant(self.date@, self.timezone@) is None
                || !all_ids_decimal(self.user_ids@),
            r matches Some(p) ==> {
                &&& p.location == self.location
                &&& p.date == form_instant(self.date@, self.timezone@)->0
                &&& p.order@.len() == self.user_ids@.len()
                &&& forall|i: int|
                    0 <= i < p.order@.len() ==> Some(#[trigger] p.order@[i]) == decimal_i32(
                        self.user_ids@[i]@,
                    )
            },
    {
        if !zone_is_known(self.timezone.as_str()) {
            return None;
        }
        match parse_form_minute(self.date.as_str()) {
            Ok(f) => match resolve_local_time(self.timezone.as_str(), f) {
                ZoneResolution::Single { .. } => {},
                _ => {
                    return None;
                },
            },
            Err(_) => {
                return None;
            },
        }
        let mut i: usize = 0;
        while i < self.user_ids.len()
            invariant
                i <= self.user_ids.len(),
                forall|j: int| 0 <= j < i ==> (#[trigger] decimal_i32(self.user_ids@[j]@)) is Some,
            decreases self.user_ids.len() - i,
        {
            if parse_i32(self.user_ids[i].as_str()).is_none() {
                assert(decimal_i32(self.user_ids@[i as int]@) is None);
                return None;
            }
            i += 1;
        }
        Some(self.update_params())
    }
}

} // verus!
