//! Configuration values and their defaults. Paths are kept as text.

use crate::text::{ascii_lower_string, str_eq};
use crate::time::Weekday;
use vstd::prelude::*;

verus! {

use crate::text::ascii_lowered;

/// The whole configuration.
#[derive(Debug)]
pub struct Config {
    pub daemon: DaemonCfg,
    pub alerts: AlertsCfg,
    pub reports: ReportsCfg,
    pub calendar: CalendarCfg,
}

/// Paths, sockets and keys of the daemon.
#[derive(Debug)]
pub struct DaemonCfg {
    pub db_path: String,
    pub log_path: String,
    /// The socket for read requests. Write requests are refused on it.
    pub read_socket_path: String,
    /// The socket for all requests, open to the operator alone.
    pub write_socket_path: String,
    /// The user who may use the write socket. Without one every connection to it is
    /// refused.
    pub operator_uid: Option<u32>,
    pub pid_path: String,
    pub tcp_bind: String,
    pub secrets_age: Option<String>,
    pub secrets_key: Option<String>,
    pub tz_display: String,
}

/// The alert engine.
#[derive(Clone, Copy, Debug, PartialEq, Eq, Structural)]
pub struct AlertsCfg {
    /// Seconds between evaluations.
    pub check_interval_secs: u64,
    /// The same rule does not fire again within this many seconds.
    pub dedup_window_secs: i64,
}

/// The monthly report engine.
#[derive(Debug)]
pub struct ReportsCfg {
    pub reports_dir: String,
    pub check_interval_secs: u64,
    /// The first day of the month on which a run may happen.
    pub min_day_of_month: u32,
    /// The first hour of the day at which a run may happen.
    pub hour_at_or_after: u32,
}

/// The weekly calendar engine.
#[derive(Debug)]
pub struct CalendarCfg {
    pub ics_dir: String,
    pub check_interval_secs: u64,
    pub day_of_week: Weekday,
    /// The first hour of the day at which a run may happen.
    pub hour_at_or_after: u32,
    pub lookahead_days: i64,
    /// Whether a calendar without events is written too.
    pub send_when_empty: bool,
}

impl core::default::Default for AlertsCfg {
    fn default() -> (r: AlertsCfg)
        ensures
            r == (AlertsCfg { check_interval_secs: 300, dedup_window_secs: 86_400 }),
    {
        AlertsCfg { check_interval_secs: 300, dedup_window_secs: 86_400 }
    }
}

impl core::default::Default for ReportsCfg {
    fn default() -> (r: ReportsCfg)
        ensures
            r.reports_dir@ == "/var/arca/reports"@,
            r.check_interval_secs == 3_600,
            r.min_day_of_month == 1,
            r.hour_at_or_after == 6,
    {
        ReportsCfg {
            reports_dir: "/var/arca/reports".to_owned(),
            check_interval_secs: 3_600,
            min_day_of_month: 1,
            hour_at_or_after: 6,
        }
    }
}

impl core::default::Default for CalendarCfg {
    fn default() -> (r: CalendarCfg)
        ensures
            r.ics_dir@ == "/var/arca/reports"@,
            r.check_interval_secs == 3_600,
            r.day_of_week == Weekday::Mon,
            r.hour_at_or_after == 7,
            r.lookahead_days == 30,
            !r.send_when_empty,
    {
        CalendarCfg {
            ics_dir: "/var/arca/reports".to_owned(),
            check_interval_secs: 3_600,
            day_of_week: Weekday::Mon,
            hour_at_or_after: 7,
            lookahead_days: 30,
            send_when_empty: false,
        }
    }
}

/// Where the read socket is unless configured.
pub fn default_read_socket() -> (r: String)
    ensures
        r@ == "/var/run/arca/read.sock"@,
{
    "/var/run/arca/read.sock".to_owned()
}

/// Where the write socket is unless configured.
pub fn default_write_socket() -> (r: String)
    ensures
        r@ == "/var/run/arca/write.sock"@,
{
    "/var/run/arca/write.sock".to_owned()
}

/// Where the process id is kept unless configured.
pub fn default_pid_path() -> (r: String)
    ensures
        r@ == "/var/run/arca/arca.pid"@,
{
    "/var/run/arca/arca.pid".to_owned()
}

/// The zone that times are shown in unless configured.
pub fn default_tz() -> (r: String)
    ensures
        r@ == "America/Puerto_Rico"@,
{
    "America/Puerto_Rico".to_owned()
}

/// The weekday that a lower-case name denotes: its first three letters or all of them.
pub open spec fn weekday_named(s: Seq<char>) -> Option<Weekday> {
    if s == "mon"@ || s == "monday"@ {
        Some(Weekday::Mon)
    } else if s == "tue"@ || s == "tuesday"@ {
        Some(Weekday::Tue)
    } else if s == "wed"@ || s == "wednesday"@ {
        Some(Weekday::Wed)
    } else if s == "thu"@ || s == "thursday"@ {
        Some(Weekday::Thu)
    } else if s == "fri"@ || s == "friday"@ {
        Some(Weekday::Fri)
    } else if s == "sat"@ || s == "saturday"@ {
        Some(Weekday::Sat)
    } else if s == "sun"@ || s == "sunday"@ {
        Some(Weekday::Sun)
    } else {
        None
    }
}

/// The weekday that a name denotes, in any case.
pub fn weekday_from_str(s: &str) -> (r: Option<Weekday>)
    ensures
        r == weekday_named(ascii_lowered(s@)),
{
    let t: String = ascii_lower_string(s);
    let n: &str = t.as_str();
    if str_eq(n, "mon") || str_eq(n, "monday") {
        Some(Weekday::Mon)
    } else if str_eq(n, "tue") || str_eq(n, "tuesday") {
        Some(Weekday::Tue)
    } else if str_eq(n, "wed") || str_eq(n, "wednesday") {
        Some(Weekday::Wed)
    } else if str_eq(n, "thu") || str_eq(n, "thursday") {
        Some(Weekday::Thu)
    } else if str_eq(n, "fri") || str_eq(n, "friday") {
        Some(Weekday::Fri)
    } else if str_eq(n, "sat") || str_eq(n, "saturday") {
        Some(Weekday::Sat)
    } else if str_eq(n, "sun") || str_eq(n, "sunday") {
        Some(Weekday::Sun)
    } else {
        None
    }
}

} // verus!
