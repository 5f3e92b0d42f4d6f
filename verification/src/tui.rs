//! What the dashboard shows, as far as it is computed: the share of pings
//! that were answered, the row that is selected, the uptime, and the colour
//! class of a log line.

use vstd::prelude::*;
use crate::network::NetworkStats;
use crate::text::{occurs_in, str_contains};

verus! {

/// Number of log lines that the dashboard shows.
pub const SHOWN_LOG_LINES: usize = 15;

/// Milliseconds between two refreshes of the dashboard's data.
pub const REFRESH_MS: u64 = 500;

/// The share of pings that were answered, in percent and at most 100; 0
/// where no ping was sent.
pub open spec fn success_rate(pings_sent: u64, pongs_received: u64) -> nat {
    if pings_sent == 0 {
        0
    } else if (pongs_received * 100) / (pings_sent as int) > 100 {
        100
    } else {
        ((pongs_received * 100) / (pings_sent as int)) as nat
    }
}

/// The share of pings that were answered, in percent.
pub fn ping_success_rate(stats: &NetworkStats) -> (rate: u64)
    ensures
        rate == success_rate(stats.pings_sent, stats.pongs_received),
        rate <= 100,
{
    if stats.pings_sent == 0 {
        return 0;
    }
    let share: u128 = (stats.pongs_received as u128 * 100) / (stats.pings_sent as u128);
    if share > 100 {
        100
    } else {
        share as u64
    }
}

/// How good a success rate is.
#[derive(Debug, Clone, Copy, PartialEq, Eq, Structural)]
pub enum RateLevel {
    /// At least 90 percent.
    Good,
    /// At least 70 percent.
    Fair,
    /// Less.
    Poor,
}

/// How good the success rate `rate` is.
pub fn rate_level(rate: u64) -> (level: RateLevel)
    ensures
        level == if rate >= 90 {
            RateLevel::Good
        } else if rate >= 70 {
            RateLevel::Fair
        } else {
            RateLevel::Poor
        },
{
    if rate >= 90 {
        RateLevel::Good
    } else if rate >= 70 {
        RateLevel::Fair
    } else {
        RateLevel::Poor
    }
}

/// The row that is selected after moving down from `selected` in a table
/// of `count` rows, with a step from the last row, or from beyond it, to
/// the first.
pub fn select_next(selected: Option<usize>, count: usize) -> (next: Option<usize>)
    ensures
        next == if count == 0 {
            selected
        } else {
            match selected {
                Some(i) => if i + 1 >= count {
                    Some(0usize)
                } else {
                    Some((i + 1) as usize)
                },
                None => Some(0usize),
            }
        },
        count > 0 && selected is Some && selected->0 < count ==> next == Some(
            ((selected->0 + 1) % (count as int)) as usize,
        ),
{
    if count == 0 {
        return selected;
    }
    match selected {
        Some(i) => if i >= count - 1 {
            proof {
                let c = count as int;
                assert(c % c == 0) by (nonlinear_arith)
                    requires
                        c > 0,
                ;
            }
            Some(0)
        } else {
            proof {
                let c = count as int;
                let j = i + 1;
                assert(j % c == j) by (nonlinear_arith)
                    requires
                        0 <= j < c,
                ;
            }
            Some(i + 1)
        },
        None => Some(0),
    }
}

/// The row that is selected after moving up from `selected` in a table of
/// `count` rows, with a step from the first row to the last.
pub fn select_previous(selected: Option<usize>, count: usize) -> (previous: Option<usize>)
    ensures
        previous == if count == 0 {
            selected
        } else {
            match selected {
                Some(i) => if i == 0 {
                    Some((count - 1) as usize)
                } else {
                    Some((i - 1) as usize)
                },
                None => Some(0usize),
            }
        },
{
    if count == 0 {
        return selected;
    }
    match selected {
        Some(i) => if i == 0 {
            Some(count - 1)
        } else {
            Some(i - 1)
        },
        None => Some(0),
    }
}

/// Hours, minutes and seconds of an uptime of `secs` seconds.
pub fn uptime_parts(secs: u64) -> (parts: (u64, u64, u64))
    ensures
        parts.0 == secs / 3600,
        parts.1 == (secs % 3600) / 60,
        parts.2 == secs % 60,
        parts.0 * 3600 + parts.1 * 60 + parts.2 == secs,
{
    (secs / 3600, (secs % 3600) / 60, secs % 60)
}

/// The colour class of a log line.
#[derive(Debug, Clone, Copy, PartialEq, Eq, Structural)]
pub enum LogStyle {
    Success,
    Ping,
    Outbound,
    Discovery,
    Network,
    Warning,
    Failure,
    Search,
    Launch,
    Plain,
}

/// The colour class of the line `line`: that of the first of the marks, in
/// this order, that the line holds.
pub open spec fn style_of(line: Seq<char>) -> LogStyle {
    if occurs_in(line, "✅"@) {
        LogStyle::Success
    } else if occurs_in(line, "🏓"@) {
        LogStyle::Ping
    } else if occurs_in(line, "📤"@) {
        LogStyle::Outbound
    } else if occurs_in(line, "🔍"@) {
        LogStyle::Discovery
    } else if occurs_in(line, "📡"@) {
        LogStyle::Network
    } else if occurs_in(line, "⚠️"@) {
        LogStyle::Warning
    } else if occurs_in(line, "❌"@) {
        LogStyle::Failure
    } else if occurs_in(line, "🔎"@) {
        LogStyle::Search
    } else if occurs_in(line, "🚀"@) {
        LogStyle::Launch
    } else {
        LogStyle::Plain
    }
}

/// The colour class of a log line.
pub fn log_style(line: &str) -> (style: LogStyle)
    ensures
        style == style_of(line@),
{
    if str_contains(line, "✅") {
        LogStyle::Success
    } else if str_contains(line, "🏓") {
        LogStyle::Ping
    } else if str_contains(line, "📤") {
        LogStyle::Outbound
    } else if str_contains(line, "🔍") {
        LogStyle::Discovery
    } else if str_contains(line, "📡") {
        LogStyle::Network
    } else if str_contains(line, "⚠️") {
        LogStyle::Warning
    } else if str_contains(line, "❌") {
        LogStyle::Failure
    } else if str_contains(line, "🔎") {
        LogStyle::Search
    } else if str_contains(line, "🚀") {
        LogStyle::Launch
    } else {
        LogStyle::Plain
    }
}

} // verus!
