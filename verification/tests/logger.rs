use guild_node::logger::{Logger, MAX_LOG_LINES};

#[test]
fn console_logger_hands_the_message_back() {
    let mut l = Logger::new(false);
    assert_eq!(l.log("12:00:00", "hello".to_string()), Some("hello".to_string()));
    assert_eq!(l.info("12:00:00", "plain"), Some("plain".to_string()));
    assert_eq!(l.success("12:00:00", "done"), Some("✅ done".to_string()));
    assert_eq!(l.warning("12:00:00", "hm"), Some("⚠️ hm".to_string()));
    assert_eq!(l.error("12:00:00", "bad"), Some("❌ bad".to_string()));
    assert_eq!(l.ping("12:00:00", "pong"), Some("🏓 pong".to_string()));
    assert_eq!(l.network("12:00:00", "up"), Some("📡 up".to_string()));
    assert_eq!(l.discovery("12:00:00", "found"), Some("🔍 found".to_string()));
    assert_eq!(l.connection("12:00:00", "peer"), Some("🔗 peer".to_string()));
    assert!(l.get_recent_logs().is_empty());
}

#[test]
fn dashboard_logger_keeps_stamped_lines() {
    let mut l = Logger::new(true);
    assert_eq!(l.log("12:00:00", "hello".to_string()), None);
    assert_eq!(l.success("12:00:01", "done"), None);
    assert_eq!(l.network("12:00:02", "up"), None);
    assert_eq!(
        l.get_recent_logs(),
        vec!["12:00:00 hello", "12:00:01 ✅ done", "12:00:02 📡 up"]
    );
}

#[test]
fn ring_keeps_the_last_hundred_lines() {
    let mut l = Logger::new(true);
    for i in 0..250 {
        l.info("t", &format!("{}", i));
        assert!(l.get_recent_logs().len() <= MAX_LOG_LINES);
    }
    let logs = l.get_recent_logs();
    assert_eq!(logs.len(), 100);
    assert_eq!(logs[0], "t 150");
    assert_eq!(logs[99], "t 249");
}
