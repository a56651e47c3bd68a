use bgfreeze::sys::{
    build_proc_entry, cmdline_name, cpuset_restore, cpuset_restrict, is_pid_dir, parse_oom_adj, parse_pid,
    parse_rss_kb,
};

#[test]
fn pid_directories() {
    assert!(is_pid_dir("1"));
    assert!(is_pid_dir("12345"));
    assert!(!is_pid_dir(""));
    assert!(!is_pid_dir("self"));
    assert!(!is_pid_dir("12a"));
    assert!(!is_pid_dir("+12"));
    assert_eq!(parse_pid("42"), Some(42));
    assert_eq!(parse_pid("2147483647"), Some(2147483647));
    assert_eq!(parse_pid("2147483648"), None);
    assert_eq!(parse_pid("net"), None);
}

#[test]
fn cmdline_first_field() {
    assert_eq!(cmdline_name(b"com.tencent.mm:push\0--arg\0"), Some("com.tencent.mm:push".to_string()));
    assert_eq!(cmdline_name(b"init"), Some("init".to_string()));
    assert_eq!(cmdline_name(b""), None);
    assert_eq!(cmdline_name(b"\0zygote\0"), None);
    assert_eq!(cmdline_name(b"a\xffb\0"), Some("a\u{FFFD}b".to_string()));
}

#[test]
fn oom_score_adj_text() {
    assert_eq!(parse_oom_adj("-800\n"), Some(-800));
    assert_eq!(parse_oom_adj("  905 "), Some(905));
    assert_eq!(parse_oom_adj("+5"), Some(5));
    assert_eq!(parse_oom_adj("-2147483648"), Some(i32::MIN));
    assert_eq!(parse_oom_adj("2147483648"), None);
    assert_eq!(parse_oom_adj(""), None);
    assert_eq!(parse_oom_adj("1 2"), None);
    assert_eq!(parse_oom_adj("-"), None);
}

#[test]
fn statm_resident_size() {
    assert_eq!(parse_rss_kb("1000 250 30 1 0 200 0\n"), 1000);
    assert_eq!(parse_rss_kb("  7\t\t3 "), 12);
    assert_eq!(parse_rss_kb("1"), 0);
    assert_eq!(parse_rss_kb(""), 0);
    assert_eq!(parse_rss_kb("1 x"), 0);
    assert_eq!(parse_rss_kb("1 -3"), 0);
    // the release build's multiplication wraps
    assert_eq!(parse_rss_kb("1 4611686018427387905"), 4);
}

#[test]
fn proc_entries() {
    let e = build_proc_entry(7, Some(b"com.tencent.mm\0"), Some("0\n"), Some("10 20 3")).unwrap();
    assert_eq!(e.pid, 7);
    assert_eq!(e.name, "com.tencent.mm");
    assert_eq!(e.oom_adj, 0);
    assert_eq!(e.rss_kb, 80);
    let e = build_proc_entry(8, Some(b"x"), None, None).unwrap();
    assert_eq!(e.oom_adj, 1000);
    assert_eq!(e.rss_kb, 0);
    let e = build_proc_entry(9, Some(b"x"), Some("junk"), Some("")).unwrap();
    assert_eq!(e.oom_adj, 1000);
    assert_eq!(e.rss_kb, 0);
    assert!(build_proc_entry(9, None, Some("0"), Some("1 1")).is_none());
    assert!(build_proc_entry(9, Some(b"\0"), Some("0"), Some("1 1")).is_none());
}

#[test]
fn cpuset_writes() {
    let w = cpuset_restrict(1234);
    assert_eq!(w.content, "1234\n");
    assert_eq!(
        w.targets,
        vec![
            "/dev/cpuset/restricted/tasks",
            "/dev/cpuset/background/tasks",
            "/sys/fs/cgroup/cpuset/restricted/cgroup.procs",
            "/sys/fs/cgroup/cpuset/background/cgroup.procs",
        ]
    );
    let w = cpuset_restore(-5);
    assert_eq!(w.content, "-5\n");
    assert_eq!(w.targets.len(), 5);
    assert_eq!(w.targets[1], "/dev/cpuset/top-app/tasks");
    assert_eq!(w.targets[4], "/sys/fs/cgroup/cpuset/cgroup.procs");
    assert_eq!(cpuset_restrict(i32::MIN).content, "-2147483648\n");
    assert_eq!(cpuset_restrict(0).content, "0\n");
}

#[test]
fn cpuset_line_reads_back_as_the_pid() {
    for pid in [0, 1, 42, 32767, -1, i32::MAX, i32::MIN] {
        assert_eq!(parse_oom_adj(&cpuset_restrict(pid).content), Some(pid));
    }
}
