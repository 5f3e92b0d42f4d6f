use guild_node::network::NetworkStats;
use guild_node::tui::{
    log_style, ping_success_rate, rate_level, select_next, select_previous, uptime_parts,
    LogStyle, RateLevel, REFRESH_MS, SHOWN_LOG_LINES,
};

fn stats(pings_sent: u64, pongs_received: u64) -> NetworkStats {
    NetworkStats { pings_sent, pongs_received, ..NetworkStats::default() }
}

#[test]
fn success_rate_is_the_share_of_answered_pings() {
    assert_eq!(ping_success_rate(&stats(0, 0)), 0);
    assert_eq!(ping_success_rate(&stats(0, 9)), 0);
    assert_eq!(ping_success_rate(&stats(10, 9)), 90);
    assert_eq!(ping_success_rate(&stats(3, 2)), 66);
    assert_eq!(ping_success_rate(&stats(3, 3)), 100);
    assert_eq!(ping_success_rate(&stats(3, 4)), 100);
    assert_eq!(ping_success_rate(&stats(u64::MAX, u64::MAX)), 100);
    assert_eq!(ping_success_rate(&stats(1, u64::MAX)), 100);
    assert_eq!(ping_success_rate(&stats(u64::MAX, u64::MAX / 2)), 49);
}

#[test]
fn rate_levels() {
    assert_eq!(rate_level(100), RateLevel::Good);
    assert_eq!(rate_level(90), RateLevel::Good);
    assert_eq!(rate_level(89), RateLevel::Fair);
    assert_eq!(rate_level(70), RateLevel::Fair);
    assert_eq!(rate_level(69), RateLevel::Poor);
    assert_eq!(rate_level(0), RateLevel::Poor);
}

#[test]
fn selection_steps_around_the_table() {
    assert_eq!(select_next(None, 3), Some(0));
    assert_eq!(select_next(Some(0), 3), Some(1));
    assert_eq!(select_next(Some(2), 3), Some(0));
    assert_eq!(select_next(Some(7), 3), Some(0));
    assert_eq!(select_next(Some(1), 0), Some(1));
    assert_eq!(select_next(None, 0), None);
    assert_eq!(select_next(Some(usize::MAX), 5), Some(0));
    assert_eq!(select_previous(None, 3), Some(0));
    assert_eq!(select_previous(Some(0), 3), Some(2));
    assert_eq!(select_previous(Some(2), 3), Some(1));
    assert_eq!(select_previous(None, 0), None);
    assert_eq!(select_previous(Some(0), 1), Some(0));
}

#[test]
fn uptime_in_hours_minutes_seconds() {
    assert_eq!(uptime_parts(0), (0, 0, 0));
    assert_eq!(uptime_parts(59), (0, 0, 59));
    assert_eq!(uptime_parts(3600), (1, 0, 0));
    assert_eq!(uptime_parts(3661), (1, 1, 1));
    assert_eq!(uptime_parts(100_000), (27, 46, 40));
}

#[test]
fn log_lines_are_coloured_by_their_first_mark() {
    assert_eq!(log_style("12:00:00 ✅ done"), LogStyle::Success);
    assert_eq!(log_style("🏓 Got Pong"), LogStyle::Ping);
    assert_eq!(log_style("📡 📤 Sending Ping"), LogStyle::Outbound);
    assert_eq!(log_style("🔍 found"), LogStyle::Discovery);
    assert_eq!(log_style("📡 up"), LogStyle::Network);
    assert_eq!(log_style("⚠️ hm"), LogStyle::Warning);
    assert_eq!(log_style("❌ bad"), LogStyle::Failure);
    assert_eq!(log_style("🔎 look"), LogStyle::Search);
    assert_eq!(log_style("🚀 go"), LogStyle::Launch);
    assert_eq!(log_style("plain"), LogStyle::Plain);
    assert_eq!(log_style(""), LogStyle::Plain);
    assert_eq!(log_style("❌ failed after ✅"), LogStyle::Success);
}

#[test]
fn dashboard_constants() {
    assert_eq!(SHOWN_LOG_LINES, 15);
    assert_eq!(REFRESH_MS, 500);
}
