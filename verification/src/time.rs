use vstd::prelude::*;
use chrono::TimeZone;

verus! {

/// A git time: Unix seconds and the author's offset from UTC, in seconds.
#[derive(Clone, Copy, Debug, PartialEq, Eq)]
pub struct GitTime {
    pub seconds: i64,
    pub offset: i32,
}

/// The first second of the year 0000 (UTC): RFC 2822 dates cannot be earlier.
pub const RFC2822_MIN_SECONDS: i64 = -62_167_219_200i64;
/// The last second of the year 9999 (UTC): RFC 2822 dates cannot be later.
pub const RFC2822_MAX_SECONDS: i64 = 253_402_300_799i64;

/// Whether chrono can represent the Unix time `seconds` as a date and time.
pub uninterp spec fn chrono_timestamp_ok(seconds: i64) -> bool;

/// The RFC 2822 text of the Unix time `seconds`, shown in UTC.
pub uninterp spec fn rfc2822_utc(seconds: i64, offset: i32) -> Seq<char>;

/// The `%Y-%m-%d %H:%M` text of the Unix time `seconds`, shown in UTC.
pub uninterp spec fn date_time_utc(seconds: i64, offset: i32) -> Seq<char>;

/// `DateTime::from_timestamp(seconds, 0).is_some()`: whether chrono can represent the time.
#[verifier::external_body]
fn timestamp_representable(seconds: i64) -> (b: bool)
    ensures
        b == chrono_timestamp_ok(seconds),
        RFC2822_MIN_SECONDS <= seconds <= RFC2822_MAX_SECONDS ==> b,
{
    chrono::DateTime::from_timestamp(seconds, 0).is_some()
}

/// `FixedOffset::east_opt(offset)`, `DateTime::from_timestamp(seconds, 0)`, the offset applied
/// and taken back to UTC, then `to_rfc2822`. The source panics outside years 0 to 9999 and on
/// offsets of a day or more.
#[verifier::external_body]
fn utc_rfc2822(seconds: i64, offset: i32) -> (s: String)
    requires
        RFC2822_MIN_SECONDS <= seconds <= RFC2822_MAX_SECONDS,
        -86_400 < offset < 86_400,
    ensures
        s@ == rfc2822_utc(seconds, offset),
{
    let offset = chrono::FixedOffset::east_opt(offset).unwrap();
    let utc_datetime = chrono::DateTime::from_timestamp(seconds, 0).unwrap();
    let local_datetime = offset.from_utc_datetime(&utc_datetime.naive_utc());
    local_datetime.with_timezone(&chrono::Utc).to_rfc2822()
}

/// As `utc_rfc2822`, formatted `%Y-%m-%d %H:%M`; the source panics when chrono cannot
/// represent the time and on offsets of a day or more.
#[verifier::external_body]
fn utc_date_time(seconds: i64, offset: i32) -> (s: String)
    requires
        chrono_timestamp_ok(seconds),
        -86_400 < offset < 86_400,
    ensures
        s@ == date_time_utc(seconds, offset),
{
    let offset = chrono::FixedOffset::east_opt(offset).unwrap();
    let utc_datetime = chrono::DateTime::from_timestamp(seconds, 0).unwrap();
    let local_datetime = offset.from_utc_datetime(&utc_datetime.naive_utc());
    local_datetime.with_timezone(&chrono::Utc).format("%Y-%m-%d %H:%M").to_string()
}

/// A git time as an RFC 2822 date in UTC, such as `Tue, 1 Jul 2003 08:52:37 +0000`.
pub fn gix_timestamp_to_utc(time: GitTime) -> (s: String)
    requires
        RFC2822_MIN_SECONDS <= time.seconds <= RFC2822_MAX_SECONDS,
        -86_400 < time.offset < 86_400,
    ensures
        s@ == rfc2822_utc(time.seconds, time.offset),
{
    utc_rfc2822(time.seconds, time.offset)
}

/// A git time as `YYYY-MM-DD HH:MM` in UTC.
pub fn gix_timestamp_to_utc_date_time(time: GitTime) -> (s: String)
    requires
        chrono_timestamp_ok(time.seconds),
        -86_400 < time.offset < 86_400,
    ensures
        s@ == date_time_utc(time.seconds, time.offset),
{
    utc_date_time(time.seconds, time.offset)
}

/// A git time as `YYYY-MM-DD HH:MM` in UTC, or `None` when the time or offset cannot be shown.
pub fn try_gix_timestamp_to_utc_date_time(time: GitTime) -> (r: Option<String>)
    ensures
        r matches Some(s) ==> s@ == date_time_utc(time.seconds, time.offset),
        r is None <==> !(chrono_timestamp_ok(time.seconds) && -86_400 < time.offset < 86_400),
{
    if -86_400 < time.offset && time.offset < 86_400 && timestamp_representable(time.seconds) {
        Some(gix_timestamp_to_utc_date_time(time))
    } else {
        None
    }
}

/// A git time as an RFC 2822 date in UTC, or `None` outside years 0 to 9999 or for an offset
/// of a day or more.
pub fn try_gix_timestamp_to_utc(time: GitTime) -> (r: Option<String>)
    ensures
        r matches Some(s) ==> s@ == rfc2822_utc(time.seconds, time.offset),
        r is None <==> !(RFC2822_MIN_SECONDS <= time.seconds <= RFC2822_MAX_SECONDS && -86_400 < time.offset < 86_400),
{
    if RFC2822_MIN_SECONDS <= time.seconds && time.seconds <= RFC2822_MAX_SECONDS && -86_400 < time.offset && time.offset < 86_400 {
        Some(gix_timestamp_to_utc(time))
    } else {
        None
    }
}


#[verifier::external_type_specification]
#[verifier::external_body]
pub struct ExGit2Time(git2::Time);

/// The Unix seconds that a git2 time holds.
pub uninterp spec fn git2_time_seconds(t: git2::Time) -> i64;

/// The offset from UTC, in minutes, that a git2 time holds.
pub uninterp spec fn git2_time_offset_minutes(t: git2::Time) -> i32;

/// `git2::Time::seconds`.
#[verifier::external_body]
fn time_seconds(t: &git2::Time) -> (s: i64)
    ensures
        s == git2_time_seconds(*t),
{
    t.seconds()
}

/// `git2::Time::offset_minutes`.
#[verifier::external_body]
fn time_offset_minutes(t: &git2::Time) -> (m: i32)
    ensures
        m == git2_time_offset_minutes(*t),
{
    t.offset_minutes()
}

/// A git2 time as an RFC 2822 date in UTC (its offset taken in minutes).
pub fn git2_timestamp_to_utc(time: git2::Time) -> (s: String)
    requires
        RFC2822_MIN_SECONDS <= git2_time_seconds(time) <= RFC2822_MAX_SECONDS,
        -1440 < git2_time_offset_minutes(time) < 1440,
    ensures
        s@ == rfc2822_utc(git2_time_seconds(time), (git2_time_offset_minutes(time) * 60) as i32),
{
    let seconds = time_seconds(&time);
    let minutes = time_offset_minutes(&time);
    gix_timestamp_to_utc(GitTime { seconds, offset: minutes * 60 })
}

/// A git2 time as an RFC 2822 date in UTC, or `None` outside years 0 to 9999 or for an offset
/// of a day or more.
pub fn try_git2_timestamp_to_utc(time: git2::Time) -> (r: Option<String>)
    ensures
        r matches Some(s) ==> s@ == rfc2822_utc(git2_time_seconds(time), (git2_time_offset_minutes(time) * 60) as i32),
        r is None <==> !(RFC2822_MIN_SECONDS <= git2_time_seconds(time) <= RFC2822_MAX_SECONDS
            && -1440 < git2_time_offset_minutes(time) < 1440),
{
    let seconds = time_seconds(&time);
    let minutes = time_offset_minutes(&time);
    if RFC2822_MIN_SECONDS <= seconds && seconds <= RFC2822_MAX_SECONDS && -1440 < minutes && minutes < 1440 {
        Some(git2_timestamp_to_utc(time))
    } else {
        None
    }
}

} // verus!
