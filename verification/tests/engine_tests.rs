use bgfreeze::config::{AppConf, Config};
use bgfreeze::engine::{
    any_foreground, finish_cycle, find_enabled_app, freeze_candidates, freeze_mechanisms, in_grace,
    is_keep_proc, is_main_proc, manual_freeze_due, owned_procs, plan_app, release_when_off, should_freeze_proc, CycleTally, EngineStatus,
    FrozenMeta, FrozenTable, VisibleTable, FREEZE_NICE,
};
use bgfreeze::sys::ProcEntry;
use std::collections::HashSet;

fn proc(pid: i32, name: &str, oom_adj: i32, rss_kb: u64) -> ProcEntry {
    ProcEntry { pid, name: name.to_string(), oom_adj, rss_kb }
}

fn meta(name: &str, app: &str) -> FrozenMeta {
    FrozenMeta { name: name.to_string(), old_nice: 0, app: app.to_string() }
}

fn wechat() -> AppConf {
    AppConf {
        package: "com.tencent.mm".to_string(),
        label: "WeChat".to_string(),
        enabled: true,
        keep: vec![":push".to_string()],
        freeze_main: true,
        power: 2,
    }
}

fn wechat_procs() -> Vec<ProcEntry> {
    vec![
        proc(100, "com.tencent.mm", 900, 1000),
        proc(101, "com.tencent.mm:push", 900, 200),
        proc(102, "com.tencent.mm:tools", 900, 300),
        proc(103, "com.tencent.mmx", 900, 50),
        proc(104, "system_server", -900, 50),
    ]
}

#[test]
fn frozen_table_read_after_write() {
    let mut t = FrozenTable::new();
    assert!(t.is_empty());
    t.insert(5, meta("a", "p"));
    t.insert(6, meta("b", "q"));
    t.insert(5, meta("c", "p"));
    assert_eq!(t.len(), 2);
    assert!(t.contains(5));
    assert!(!t.contains(7));
    let m = t.remove(5).unwrap();
    assert_eq!(m.name, "c");
    assert!(!t.contains(5));
    assert!(t.remove(5).is_none());
    assert_eq!(t.pids(), vec![6]);
}

#[test]
fn frozen_table_by_app_and_prune() {
    let mut t = FrozenTable::new();
    t.insert(1, meta("a", "p"));
    t.insert(2, meta("b", "q"));
    t.insert(3, meta("c", "p"));
    let mut by_p = t.pids_of_app("p");
    by_p.sort();
    assert_eq!(by_p, vec![1, 3]);
    assert!(t.pids_of_app("zzz").is_empty());
    let seen: HashSet<i32> = [2, 3, 99].into_iter().collect();
    let removed = t.prune(&seen);
    assert_eq!(removed.len(), 1);
    assert_eq!(removed[0].0, 1);
    assert_eq!(removed[0].1.name, "a");
    let mut left = t.pids();
    left.sort();
    assert_eq!(left, vec![2, 3]);
}

#[test]
fn visible_table_records_latest() {
    let mut v = VisibleTable::new();
    assert_eq!(v.get("x"), None);
    v.record("x", 10);
    v.record("y", 11);
    v.record("x", 20);
    assert_eq!(v.get("x"), Some(20));
    assert_eq!(v.get("y"), Some(11));
}

#[test]
fn process_roles() {
    let app = wechat();
    assert!(is_main_proc(&app, "com.tencent.mm"));
    assert!(!is_main_proc(&app, "com.tencent.mm:push"));
    assert!(is_keep_proc(&app, "com.tencent.mm:push"));
    assert!(!is_keep_proc(&app, "com.tencent.mm:tools"));
    assert!(should_freeze_proc(&app, "com.tencent.mm", false));
    assert!(should_freeze_proc(&app, "com.tencent.mm:tools", false));
    assert!(!should_freeze_proc(&app, "com.tencent.mm:push", false));
    assert!(!should_freeze_proc(&app, "com.tencent.mm:tools", true));
    let mut keep_main = wechat();
    keep_main.freeze_main = false;
    assert!(!should_freeze_proc(&keep_main, "com.tencent.mm", false));
    assert!(should_freeze_proc(&keep_main, "com.tencent.mm:tools", false));
}

#[test]
fn owned_processes() {
    let owned = owned_procs(&wechat_procs(), "com.tencent.mm");
    let pids: Vec<i32> = owned.iter().map(|p| p.pid).collect();
    assert_eq!(pids, vec![100, 101, 102]);
    assert!(!any_foreground(&owned));
    assert!(any_foreground(&vec![proc(1, "a", 200, 0)]));
    assert!(!any_foreground(&vec![proc(1, "a", 201, 0)]));
}

#[test]
fn grace_period() {
    assert!(!in_grace(0, Some(100), 100));
    assert!(in_grace(120, Some(100), 219));
    assert!(!in_grace(120, Some(100), 220));
    assert!(!in_grace(120, None, 100));
    assert!(in_grace(120, Some(300), 100));
}

#[test]
fn background_app_is_frozen_except_push() {
    let mut vis = VisibleTable::new();
    let frozen = FrozenTable::new();
    let plan = plan_app(&mut vis, &wechat(), &wechat_procs(), &frozen, 120, 1000).unwrap();
    assert!(!plan.foreground);
    assert!(!plan.in_grace);
    let f: Vec<i32> = plan.to_freeze.iter().map(|p| p.pid).collect();
    assert_eq!(f, vec![100, 102]);
    assert!(plan.to_unfreeze.is_empty());
    assert_eq!(vis.get("com.tencent.mm"), None);
}

#[test]
fn foreground_app_is_unfrozen() {
    let mut vis = VisibleTable::new();
    let mut frozen = FrozenTable::new();
    frozen.insert(100, meta("com.tencent.mm", "com.tencent.mm"));
    frozen.insert(102, meta("com.tencent.mm:tools", "com.tencent.mm"));
    let mut procs = wechat_procs();
    procs[0].oom_adj = 0;
    let plan = plan_app(&mut vis, &wechat(), &procs, &frozen, 120, 1000).unwrap();
    assert!(plan.foreground);
    assert!(plan.in_grace);
    assert!(plan.to_freeze.is_empty());
    assert_eq!(plan.to_unfreeze, vec![100, 102]);
    assert_eq!(vis.get("com.tencent.mm"), Some(1000));
}

#[test]
fn grace_protects_after_leaving_foreground() {
    let mut vis = VisibleTable::new();
    vis.record("com.tencent.mm", 1000);
    let frozen = FrozenTable::new();
    let plan = plan_app(&mut vis, &wechat(), &wechat_procs(), &frozen, 120, 1100).unwrap();
    assert!(!plan.foreground);
    assert!(plan.in_grace);
    assert!(plan.to_freeze.is_empty());
    let plan = plan_app(&mut vis, &wechat(), &wechat_procs(), &frozen, 120, 1120).unwrap();
    assert!(!plan.in_grace);
    assert_eq!(plan.to_freeze.len(), 2);
}

#[test]
fn disabled_or_absent_app_has_no_plan() {
    let mut vis = VisibleTable::new();
    let frozen = FrozenTable::new();
    let mut off = wechat();
    off.enabled = false;
    assert!(plan_app(&mut vis, &off, &wechat_procs(), &frozen, 120, 1).is_none());
    assert!(plan_app(&mut vis, &wechat(), &vec![proc(1, "other", 0, 0)], &frozen, 120, 1).is_none());
    assert_eq!(vis.get("com.tencent.mm"), None);
}

#[test]
fn mechanisms_by_power() {
    let cfg = Config::default();
    let m = freeze_mechanisms(&cfg, 2);
    assert!(m.sigstop && m.cpuset && m.renice);
    let m = freeze_mechanisms(&cfg, 1);
    assert!(!m.sigstop && m.cpuset && m.renice);
    let m = freeze_mechanisms(&cfg, 0);
    assert!(!m.sigstop && !m.cpuset && m.renice);
    let mut c = Config::default();
    c.use_renice = false;
    c.use_sigstop = false;
    let m = freeze_mechanisms(&c, 2);
    assert!(!m.sigstop && m.cpuset && !m.renice);
    assert_eq!(FREEZE_NICE, 19);
}

#[test]
fn freeze_is_recorded_when_it_takes() {
    let cfg = Config::default();
    let m = freeze_mechanisms(&cfg, 2);
    let mut t = FrozenTable::new();
    assert!(!t.record_freeze(1, meta("a", "p"), &m, false, false, false));
    assert!(!t.contains(1));
    assert!(t.record_freeze(1, meta("a", "p"), &m, false, true, false));
    assert!(t.contains(1));
    let weak = freeze_mechanisms(&cfg, 1);
    // SIGSTOP is not applied at power 1, which counts as success
    assert!(t.record_freeze(2, meta("b", "p"), &weak, false, false, false));
}

#[test]
fn cycle_status_and_prune() {
    let app = wechat();
    let mut vis = VisibleTable::new();
    let mut frozen = FrozenTable::new();
    frozen.insert(999, meta("gone", "com.tencent.mm"));
    let plan = plan_app(&mut vis, &app, &wechat_procs(), &frozen, 120, 1000).unwrap();
    let cfg = Config::default();
    let m = freeze_mechanisms(&cfg, app.power);
    for p in &plan.to_freeze {
        frozen.record_freeze(p.pid, meta(&p.name, "com.tencent.mm"), &m, true, true, true);
    }
    let mut tally = CycleTally::new();
    tally.add_app(&app, &plan, &frozen, &vec![19, 0, 19]);
    let want: HashSet<i32> = [100, 101, 102].into_iter().collect();
    assert_eq!(tally.seen, want);
    assert_eq!(tally.frozen_count, 2);
    assert_eq!(tally.frozen_kb, 1300);
    let st = &tally.apps[0];
    assert_eq!(st.package, "com.tencent.mm");
    assert_eq!(st.frozen_kb, 1300);
    let states: Vec<&str> = st.processes.iter().map(|p| p.state.as_str()).collect();
    assert_eq!(states, vec!["frozen", "preserved", "frozen"]);
    assert_eq!(st.processes[1].nice, 0);
    let mut status = EngineStatus::initial(&cfg, 50);
    let removed = finish_cycle(tally, &mut frozen, &mut status, &cfg, 7);
    assert_eq!(removed.len(), 1);
    assert_eq!(removed[0].0, 999);
    assert!(!frozen.contains(999));
    assert!(frozen.contains(100));
    assert_eq!(status.frozen_count, 2);
    assert_eq!(status.frozen_kb, 1300);
    assert_eq!(status.uptime_secs, 7);
    assert_eq!(status.apps.len(), 1);
    assert_eq!(status.started_at, 50);
}

#[test]
fn main_kept_when_not_allowed_shows_preserved() {
    let mut app = wechat();
    app.freeze_main = false;
    let mut vis = VisibleTable::new();
    let frozen = FrozenTable::new();
    let plan = plan_app(&mut vis, &app, &wechat_procs(), &frozen, 0, 1).unwrap();
    let f: Vec<i32> = plan.to_freeze.iter().map(|p| p.pid).collect();
    assert_eq!(f, vec![102]);
    let mut tally = CycleTally::new();
    tally.add_app(&app, &plan, &frozen, &vec![0, 0, 0]);
    let states: Vec<&str> = tally.apps[0].processes.iter().map(|p| p.state.as_str()).collect();
    assert_eq!(states, vec!["preserved", "preserved", "running"]);
    assert_eq!(tally.frozen_count, 0);
}

#[test]
fn status_bookkeeping() {
    let mut cfg = Config::default();
    let mut st = EngineStatus::initial(&cfg, 1234);
    assert_eq!(st.version, "1.0.0");
    assert_eq!(st.cycles, 0);
    assert_eq!(st.interval_secs, 10);
    st.record_cycle(25);
    st.record_cycle(30);
    assert_eq!(st.cycles, 2);
    assert_eq!(st.last_cycle_ms, 30);
    cfg.enabled = false;
    cfg.interval_secs = 60;
    st.publish_meta(&cfg);
    assert!(!st.enabled);
    assert_eq!(st.interval_secs, 60);
    st.cycles = u64::MAX;
    st.record_cycle(1);
    assert_eq!(st.cycles, 0);
}

#[test]
fn manual_freeze_targets() {
    let cfg = Config::default();
    assert_eq!(find_enabled_app(&cfg, "com.tencent.mobileqq"), Some(1));
    assert_eq!(find_enabled_app(&cfg, "com.example"), None);
    let mut off = Config::default();
    off.enabled = false;
    assert_eq!(find_enabled_app(&off, "com.tencent.mm"), None);
    let mut app_off = Config::default();
    app_off.apps[0].enabled = false;
    assert_eq!(find_enabled_app(&app_off, "com.tencent.mm"), None);
    let c: Vec<i32> = freeze_candidates(&wechat(), &wechat_procs()).iter().map(|p| p.pid).collect();
    assert_eq!(c, vec![100, 102]);
}

#[test]
fn unfreezing_every_pid_empties_the_table() {
    let mut t = FrozenTable::new();
    t.insert(1, meta("a", "p"));
    t.insert(2, meta("b", "q"));
    t.insert(3, meta("c", "p"));
    for pid in t.pids_of_app("p") {
        assert!(t.remove(pid).is_some());
    }
    assert_eq!(t.pids(), vec![2]);
    for pid in t.pids() {
        t.remove(pid);
    }
    assert!(t.is_empty());
}

#[test]
fn cycle_settles_to_the_rules() {
    let app = wechat();
    let mut vis = VisibleTable::new();
    let mut frozen = FrozenTable::new();
    // a kept process frozen by an earlier configuration is released
    frozen.insert(101, meta("com.tencent.mm:push", "com.tencent.mm"));
    let plan = plan_app(&mut vis, &app, &wechat_procs(), &frozen, 0, 5).unwrap();
    let cfg = Config::default();
    let m = freeze_mechanisms(&cfg, app.power);
    for p in &plan.to_freeze {
        frozen.record_freeze(p.pid, meta(&p.name, "com.tencent.mm"), &m, true, true, true);
    }
    for pid in &plan.to_unfreeze {
        frozen.remove(*pid);
    }
    for p in &plan.owned {
        assert_eq!(frozen.contains(p.pid), should_freeze_proc(&app, &p.name, false));
    }
    // a second cycle has nothing left to do
    let again = plan_app(&mut vis, &app, &wechat_procs(), &frozen, 0, 6).unwrap();
    assert!(again.to_freeze.is_empty());
    assert!(again.to_unfreeze.is_empty());
}

#[test]
fn unmanaged_frozen_process_is_forgotten() {
    // no enabled application owned pid 104 (still running) or pid 999 (exited) this
    // cycle: both records are forgotten
    let mut frozen = FrozenTable::new();
    frozen.insert(104, meta("system_server", "old.app"));
    frozen.insert(999, meta("gone", "old.app"));
    let cfg = Config::default();
    let mut status = EngineStatus::initial(&cfg, 0);
    let mut removed = finish_cycle(CycleTally::new(), &mut frozen, &mut status, &cfg, 1);
    removed.sort_by_key(|e| e.0);
    assert_eq!(removed.len(), 2);
    assert_eq!(removed[0].0, 104);
    assert_eq!(removed[1].0, 999);
    assert_eq!(removed[1].1.name, "gone");
    assert!(frozen.is_empty());
}

#[test]
fn switched_off_cycle_releases_everything() {
    let mut frozen = FrozenTable::new();
    frozen.insert(3, meta("a", "p"));
    frozen.insert(4, meta("b", "p"));
    let mut cfg = Config::default();
    assert!(release_when_off(&cfg, &frozen).is_none());
    cfg.enabled = false;
    let mut pids = release_when_off(&cfg, &frozen).unwrap();
    pids.sort();
    assert_eq!(pids, vec![3, 4]);
    for p in pids {
        frozen.remove(p);
    }
    // a second release finds nothing to do
    assert_eq!(release_when_off(&cfg, &frozen), Some(vec![]));
}

#[test]
fn manual_freeze_skips_frozen() {
    let mut frozen = FrozenTable::new();
    frozen.insert(100, meta("com.tencent.mm", "com.tencent.mm"));
    assert!(!manual_freeze_due(&frozen, &proc(100, "com.tencent.mm", 900, 1)));
    assert!(manual_freeze_due(&frozen, &proc(102, "com.tencent.mm:tools", 900, 1)));
}

#[test]
fn status_totals_add_up_over_apps() {
    let wx = wechat();
    let qq = AppConf {
        package: "com.tencent.mobileqq".to_string(),
        label: "QQ".to_string(),
        enabled: true,
        keep: vec![],
        freeze_main: true,
        power: 2,
    };
    let procs = vec![
        proc(100, "com.tencent.mm", 900, 1000),
        proc(101, "com.tencent.mm:push", 900, 200),
        proc(200, "com.tencent.mobileqq", 900, 400),
        proc(201, "com.tencent.mobileqq:MSF", 900, 70),
    ];
    let mut vis = VisibleTable::new();
    let mut frozen = FrozenTable::new();
    let cfg = Config::default();
    let mut tally = CycleTally::new();
    for app in [&wx, &qq] {
        let plan = plan_app(&mut vis, app, &procs, &frozen, 120, 1000).unwrap();
        let m = freeze_mechanisms(&cfg, app.power);
        for p in &plan.to_freeze {
            frozen.record_freeze(p.pid, meta(&p.name, &app.package), &m, true, true, true);
        }
        let nices = vec![0; plan.owned.len()];
        tally.add_app(app, &plan, &frozen, &nices);
    }
    let shown: usize = tally.apps.iter().map(|a| a.processes.iter().filter(|p| p.state == "frozen").count()).sum();
    let kb: u64 = tally.apps.iter().map(|a| a.frozen_kb).sum();
    assert_eq!(tally.frozen_count, shown);
    assert_eq!(tally.frozen_count, 3);
    assert_eq!(tally.frozen_kb, kb);
    assert_eq!(tally.frozen_kb, 1470);
    assert_eq!(tally.apps[1].frozen_kb, 470);
    for a in &tally.apps {
        for p in &a.processes {
            assert!(["frozen", "preserved", "running"].contains(&p.state.as_str()));
        }
    }
}

#[test]
fn unfreeze_all_twice_does_nothing_more() {
    let mut frozen = FrozenTable::new();
    frozen.insert(7, meta("a", "p"));
    frozen.insert(8, meta("b", "q"));
    for p in frozen.pids() {
        frozen.remove(p);
    }
    assert!(frozen.is_empty());
    let again = frozen.pids();
    assert!(again.is_empty());
    assert!(frozen.is_empty());
}
