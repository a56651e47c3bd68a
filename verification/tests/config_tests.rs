use bgfreeze::cli::arg;
use bgfreeze::config::{MAX_GRACE_SECS, default_grace, default_interval, default_port, default_power, default_true, Config};

#[test]
fn default_config_values() {
    let c = Config::default();
    assert!(c.enabled);
    assert_eq!(c.interval_secs, 10);
    assert_eq!(c.grace_secs, 120);
    assert_eq!(c.port, 8765);
    assert!(c.use_sigstop && c.use_renice && c.use_cpuset);
    assert_eq!(c.apps.len(), 3);
    assert_eq!(c.apps[0].package, "com.tencent.mm");
    assert_eq!(c.apps[0].label, "微信");
    assert_eq!(c.apps[0].keep, vec![":push".to_string()]);
    assert_eq!(c.apps[1].package, "com.tencent.mobileqq");
    assert_eq!(c.apps[1].keep, vec![":MSF".to_string(), ":msf".to_string()]);
    assert_eq!(c.apps[2].package, "com.ss.android.ugc.aweme");
    assert_eq!(c.apps[2].label, "抖音");
    assert_eq!(c.apps[2].keep, vec![":pushservice".to_string(), ":push".to_string(), ":pump".to_string()]);
    assert!(c.apps.iter().all(|a| a.enabled && a.freeze_main && a.power == 2));
}

#[test]
fn default_setting_functions() {
    assert!(default_true());
    assert_eq!(default_interval(), 10);
    assert_eq!(default_port(), 8765);
    assert_eq!(default_grace(), 120);
    assert_eq!(default_power(), 2);
    assert_eq!(MAX_GRACE_SECS, 300);
}

#[test]
fn load_falls_back_to_default() {
    let c = Config::from_loaded(None);
    assert_eq!(c.interval_secs, 10);
    assert_eq!(c.apps.len(), 3);
    let mut mine = Config::default();
    mine.interval_secs = 30;
    mine.apps.clear();
    let c = Config::from_loaded(Some(mine));
    assert_eq!(c.interval_secs, 30);
    assert!(c.apps.is_empty());
}

#[test]
fn port_comes_from_command_line() {
    let mut submitted = Config::default();
    submitted.port = 1;
    submitted.grace_secs = 0;
    let c = submitted.effective(9000);
    assert_eq!(c.port, 9000);
    assert_eq!(c.grace_secs, 0);
    assert_eq!(c.apps.len(), 3);
}

#[test]
fn grace_period_held_to_300_seconds() {
    let mut c = Config::default();
    c.grace_secs = 1000;
    assert_eq!(c.effective(8765).grace_secs, 300);
    let mut c = Config::default();
    c.grace_secs = 300;
    assert_eq!(c.effective(8765).grace_secs, 300);
    let mut c = Config::default();
    c.grace_secs = 45;
    assert_eq!(c.effective(8765).grace_secs, 45);
}

#[test]
fn loop_interval_is_at_least_one_second() {
    let mut c = Config::default();
    c.interval_secs = 0;
    assert_eq!(c.loop_interval_secs(), 1);
    c.interval_secs = 25;
    assert_eq!(c.loop_interval_secs(), 25);
}

#[test]
fn command_line_options() {
    let args: Vec<String> = vec!["bgfreeze", "--config", "/tmp/c.json", "--port", "9000", "--port", "1"]
        .into_iter()
        .map(String::from)
        .collect();
    assert_eq!(arg(&args, "--config"), Some("/tmp/c.json".to_string()));
    assert_eq!(arg(&args, "--port"), Some("9000".to_string()));
    assert_eq!(arg(&args, "--webroot"), None);
    let last: Vec<String> = vec!["bgfreeze".to_string(), "--port".to_string()];
    assert_eq!(arg(&last, "--port"), None);
}
