use bgfreeze::logger::{format_log_line, LogRing, LOG_CAPACITY};

#[test]
fn log_line_format() {
    assert_eq!(format_log_line(1700000000, "info", "hello"), "1700000000 [info] hello");
    assert_eq!(format_log_line(0, "warn", ""), "0 [warn] ");
}

#[test]
fn ring_keeps_the_latest_600() {
    let mut r = LogRing::new();
    assert_eq!(r.len(), 0);
    assert!(r.recent(5).is_empty());
    for i in 0..601 {
        r.push(format!("line {}", i));
    }
    assert_eq!(LOG_CAPACITY, 600);
    assert_eq!(r.len(), 600);
    let all = r.recent(1000);
    assert_eq!(all.len(), 600);
    assert_eq!(all[0], "line 1");
    assert_eq!(all[599], "line 600");
    assert_eq!(r.recent(2), vec!["line 599".to_string(), "line 600".to_string()]);
}

#[test]
fn last_pushed_is_most_recent() {
    let mut r = LogRing::new();
    r.push("a".to_string());
    r.push("b".to_string());
    assert_eq!(r.recent(1), vec!["b".to_string()]);
    assert_eq!(r.recent(0), Vec::<String>::new());
}
