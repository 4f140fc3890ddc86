//! Log levels, timestamp formatting and log-line layout.

use vstd::prelude::*;

use crate::text::{dec, push_padded, push_str, str_eq, zero_pad};

verus! {

/// Verbosity of the application log.
#[derive(Clone, Copy, PartialEq, Eq, Debug, Structural)]
pub enum LogLevel {
    Info,
    Debug,
}

impl LogLevel {
    /// The lowercase name of the level.
    pub open spec fn name(self) -> Seq<char> {
        match self {
            LogLevel::Info => "info"@,
            LogLevel::Debug => "debug"@,
        }
    }

    /// The level a setting string stands for: `"debug"` is `Debug`, anything
    /// else is `Info`.
    pub open spec fn parse(s: Seq<char>) -> LogLevel {
        if s == "debug"@ {
            LogLevel::Debug
        } else {
            LogLevel::Info
        }
    }

    pub fn as_str(&self) -> (r: &'static str)
        ensures
            r@ == self.name(),
    {
        match self {
            LogLevel::Info => "info",
            LogLevel::Debug => "debug",
        }
    }

    pub fn from_str(s: &str) -> (r: LogLevel)
        ensures
            r == LogLevel::parse(s@),
    {
        if str_eq(s, "debug") {
            LogLevel::Debug
        } else {
            LogLevel::Info
        }
    }
}

/// Reading back the name of a level gives the same level.
pub proof fn lemma_level_name_round_trip(l: LogLevel)
    ensures
        LogLevel::parse(l.name()) == l,
{
    reveal_strlit("info");
    reveal_strlit("debug");
    assert("info"@ != "debug"@) by {
        assert("info"@.len() != "debug"@.len());
    }
}

/// Whether a message at `level` is written when the configured level is
/// `current`: debug messages only under the debug level.
pub open spec fn spec_should_log(level: LogLevel, current: LogLevel) -> bool {
    !(level == LogLevel::Debug && current != LogLevel::Debug)
}

pub fn should_log(level: LogLevel, current: LogLevel) -> (r: bool)
    ensures
        r == spec_should_log(level, current),
{
    !(level == LogLevel::Debug && current != LogLevel::Debug)
}

/// A log file older than this many seconds is started afresh.
pub const LOG_MAX_AGE_SECS: u64 = 604800;

/// A log file larger than this many bytes is started afresh.
pub const LOG_MAX_SIZE_BYTES: u64 = 1048576;

/// Whether the log file must be started afresh: it is older than a week
/// (when its age is known) or larger than a mebibyte.
pub fn log_needs_rotation(age_secs: Option<u64>, size: u64) -> (r: bool)
    ensures
        r == ((age_secs matches Some(a) && a > LOG_MAX_AGE_SECS) || size > LOG_MAX_SIZE_BYTES),
{
    let too_old = match age_secs {
        Some(a) => a > LOG_MAX_AGE_SECS,
        None => false,
    };
    too_old || size > LOG_MAX_SIZE_BYTES
}

// ─── Calendar ────────────────────────────────────────────────────────────────

/// Gregorian leap year.
pub open spec fn is_leap(y: int) -> bool {
    y % 4 == 0 && (y % 100 != 0 || y % 400 == 0)
}

pub open spec fn year_len(y: int) -> nat {
    if is_leap(y) {
        366
    } else {
        365
    }
}

/// Days in month `m` (1-based) of year `y`.
pub open spec fn month_len(y: int, m: int) -> nat {
    if m == 2 {
        if is_leap(y) {
            29
        } else {
            28
        }
    } else if m == 4 || m == 6 || m == 9 || m == 11 {
        30
    } else {
        31
    }
}

/// The year holding day `days` counted from the first day of year `y`, and
/// the day's index within that year.
pub open spec fn civil_year(days: nat, y: int) -> (int, nat)
    decreases days,
{
    if days < year_len(y) {
        (y, days)
    } else {
        civil_year((days - year_len(y)) as nat, y + 1)
    }
}

/// The month holding day `days` counted from the first day of month `m` of
/// year `y` (December takes whatever is left), and the day's index within it.
pub open spec fn civil_month(days: nat, y: int, m: int) -> (int, nat)
    decreases 12 - m,
{
    if m >= 12 || days < month_len(y, m) {
        (m, days)
    } else {
        civil_month((days - month_len(y, m)) as nat, y, m + 1)
    }
}

/// Calendar fields of a Unix timestamp read as unsigned seconds:
/// (year, month, day of month, hour, minute, second).
pub open spec fn civil_of(ts: i64) -> (int, int, int, int, int, int) {
    let s = (ts as u64) as nat;
    let (y, doy) = civil_year(s / 86400, 1970);
    let (m, dom) = civil_month(doy, y, 1);
    (y, m, (dom + 1) as int, ((s / 3600) % 24) as int, ((s / 60) % 60) as int, (s % 60) as int)
}

/// `ts` can be laid out without the year leaving `u32`.
pub open spec fn formattable(ts: i64) -> bool {
    civil_of(ts).0 <= u32::MAX
}

pub open spec fn pad2(n: int) -> Seq<char> {
    zero_pad(dec(n as nat), 2)
}

/// `YYYY-MM-DD HH:MM:SS` for the fields of `civil_of(ts)`.
pub open spec fn spec_format_ts(ts: i64) -> Seq<char> {
    let (y, mo, d, h, mi, s) = civil_of(ts);
    zero_pad(dec(y as nat), 4) + "-"@ + pad2(mo) + "-"@ + pad2(d) + " "@ + pad2(h) + ":"@ + pad2(mi)
        + ":"@ + pad2(s)
}

pub proof fn lemma_civil_year_ge(days: nat, y: int)
    ensures
        civil_year(days, y).0 >= y,
        civil_year(days, y).1 < year_len(civil_year(days, y).0),
    decreases days,
{
    if days >= year_len(y) {
        lemma_civil_year_ge((days - year_len(y)) as nat, y + 1);
    }
}

pub proof fn lemma_civil_month_range(days: nat, y: int, m: int)
    requires
        1 <= m <= 12,
    ensures
        m <= civil_month(days, y, m).0 <= 12,
    decreases 12 - m,
{
    if !(m >= 12 || days < month_len(y, m)) {
        lemma_civil_month_range((days - month_len(y, m)) as nat, y, m + 1);
    }
}

fn year_days(year: u64) -> (r: u64)
    ensures
        r == year_len(year as int),
{
    if year % 4 == 0 && (year % 100 != 0 || year % 400 == 0) {
        366
    } else {
        365
    }
}

fn month_days(year: u32, month: u32) -> (r: u64)
    ensures
        r == month_len(year as int, month as int),
{
    let leap = year % 4 == 0 && (year % 100 != 0 || year % 400 == 0);
    if month == 2 {
        if leap {
            29
        } else {
            28
        }
    } else if month == 4 || month == 6 || month == 9 || month == 11 {
        30
    } else {
        31
    }
}

/// The year and day of year of `days` after 1970-01-01, computed as the
/// year-by-year walk does; `None` when the year would leave `u32`.
fn walk_years(days0: u64) -> (r: Option<(u32, u64)>)
    requires
        days0 < 0x1000_0000_0000_0000,
    ensures
        r matches Some((y, d)) ==> civil_year(days0 as nat, 1970) == (y as int, d as nat),
        r is None ==> civil_year(days0 as nat, 1970).0 > u32::MAX,
{
    let mut days = days0;
    let mut year: u64 = 1970;
    while days >= year_days(year)
        invariant
            civil_year(days0 as nat, 1970) == civil_year(days as nat, year as int),
            1970 <= year <= 1970 + days0 - days,
            days <= days0 < 0x1000_0000_0000_0000,
        decreases days,
    {
        days = days - year_days(year);
        year = year + 1;
    }
    if year > 4294967295 {
        proof {
            lemma_civil_year_ge(days as nat, year as int);
        }
        return None;
    }
    Some((year as u32, days))
}

/// Month (1-based) and day index within it for day `days` of year `year`.
fn walk_months(year: u32, days0: u64) -> (r: (u32, u64))
    requires
        days0 < year_len(year as int),
    ensures
        civil_month(days0 as nat, year as int, 1) == (r.0 as int, r.1 as nat),
        1 <= r.0 <= 12,
        r.1 <= days0,
{
    let mut days = days0;
    let mut month: u32 = 1;
    while month < 12 && days >= month_days(year, month)
        invariant
            1 <= month <= 12,
            days <= days0,
            civil_month(days0 as nat, year as int, 1) == civil_month(days as nat, year as int,
                month as int),
        decreases 12 - month,
    {
        days = days - month_days(year, month);
        month = month + 1;
    }
    (month, days)
}

/// Fields of `civil_of(ts)`, or `None` when the year would leave `u32`.
fn civil_fields(ts: i64) -> (r: Option<(u32, u32, u64, u64, u64, u64)>)
    ensures
        r is Some <==> formattable(ts),
        r matches Some((y, mo, d, h, mi, s)) ==> civil_of(ts) == (
            y as int,
            mo as int,
            d as int,
            h as int,
            mi as int,
            s as int,
        ),
{
    let s = #[verifier::truncate] (ts as u64);
    let sec = s % 60;
    let min = (s / 60) % 60;
    let hour = (s / 3600) % 24;
    match walk_years(s / 86400) {
        None => None,
        Some((year, doy)) => {
            proof {
                lemma_civil_year_ge((s / 86400) as nat, 1970);
            }
            let (month, dom) = walk_months(year, doy);
            Some((year, month, dom + 1, hour, min, sec))
        },
    }
}

/// `YYYY-MM-DD HH:MM:SS` (UTC) for a Unix timestamp.
pub fn format_ts(ts: i64) -> (r: String)
    requires
        formattable(ts),
    ensures
        r@ == spec_format_ts(ts),
{
    match try_format_ts(ts) {
        Some(s) => s,
        None => String::new(),
    }
}

/// `format_ts(ts)` where the year fits in `u32`, else `None`.
pub fn try_format_ts(ts: i64) -> (r: Option<String>)
    ensures
        r is Some <==> formattable(ts),
        r matches Some(s) ==> s@ == spec_format_ts(ts),
{
    match civil_fields(ts) {
        None => None,
        Some((y, mo, d, h, mi, s)) => {
            let mut out = String::new();
            push_padded(&mut out, y as u64, 4);
            out.push('-');
            push_padded(&mut out, mo as u64, 2);
            out.push('-');
            push_padded(&mut out, d, 2);
            out.push(' ');
            push_padded(&mut out, h, 2);
            out.push(':');
            push_padded(&mut out, mi, 2);
            out.push(':');
            push_padded(&mut out, s, 2);
            proof {
                reveal_strlit("-");
                reveal_strlit(" ");
                reveal_strlit(":");
            }
            assert(out@ =~= spec_format_ts(ts));
            Some(out)
        },
    }
}

// ─── Log lines ───────────────────────────────────────────────────────────────

/// The level tag as it stands in a log line: upper case, left-aligned in five
/// columns.
pub open spec fn level_tag(l: LogLevel) -> Seq<char> {
    match l {
        LogLevel::Info => "INFO "@,
        LogLevel::Debug => "DEBUG"@,
    }
}

/// `"{time} [{LEVEL:<5}] [{module}] {message}\n"`.
pub open spec fn spec_log_line(ts: i64, level: LogLevel, module: Seq<char>, message: Seq<char>) -> Seq<
    char,
> {
    spec_format_ts(ts) + " ["@ + level_tag(level) + "] ["@ + module + "] "@ + message + "\n"@
}

/// One line of the log file.
pub fn log_line(ts: i64, level: LogLevel, module: &str, message: &str) -> (r: String)
    requires
        formattable(ts),
    ensures
        r@ == spec_log_line(ts, level, module@, message@),
{
    let mut out = format_ts(ts);
    push_str(&mut out, " [");
    match level {
        LogLevel::Info => push_str(&mut out, "INFO "),
        LogLevel::Debug => push_str(&mut out, "DEBUG"),
    }
    push_str(&mut out, "] [");
    push_str(&mut out, module);
    push_str(&mut out, "] ");
    push_str(&mut out, message);
    push_str(&mut out, "\n");
    assert(out@ =~= spec_log_line(ts, level, module@, message@));
    out
}

} // verus!
