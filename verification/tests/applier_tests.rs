use nicewatch::applier::{
    cgroup_path_of, class_number, cpu_max_value, effective_nice, in_cgroup, ioprio_decode,
    ioprio_differs, ioprio_from_raw, ioprio_value, is_forbidden_base, is_rt_policy, limit_writes,
    managed_dir, nice_to_apply, proc_cgroup_rel, sanitize_dir, stray_here, CgroupManager,
    ionice_write_needed, nice_write, walk_step, CurrentIoprio, FailureTracker, Probe, SyncStep, WalkStep, IOPRIO_CLASS_BEST_EFFORT,
    IOPRIO_CLASS_SHIFT,
};
use nicewatch::common::{CgroupLimits, IoniceClass};

fn limits(cap: Option<u32>, weight: Option<u32>) -> CgroupLimits {
    CgroupLimits {
        path: None,
        cpu_weight: weight,
        cpu_cap_percent: cap,
        memory_high: None,
        memory_max: None,
        cpu_idle: None,
    }
}

#[test]
fn ioprio_value_round_trips() {
    // best-effort/2 -> (2 << 13) | 2 = 16386
    let v: u64 = ioprio_value(IoniceClass::BestEffort, 2);
    assert_eq!(v, (IOPRIO_CLASS_BEST_EFFORT << IOPRIO_CLASS_SHIFT) | 2);
    assert_eq!(v, 2 * (1 << 13) + 2);
    assert_eq!((v >> IOPRIO_CLASS_SHIFT) & 0b111, IOPRIO_CLASS_BEST_EFFORT);
    assert_eq!(v & 0xff, 2);
    let back = ioprio_decode(v);
    assert_eq!(back, CurrentIoprio { class: IoniceClass::BestEffort, priority: 2 });
}

#[test]
fn ioprio_decoding_of_raw_values() {
    assert_eq!(ioprio_from_raw(-1), None);
    assert_eq!(
        ioprio_from_raw(3 * 8192 + 7),
        Some(CurrentIoprio { class: IoniceClass::Idle, priority: 7 })
    );
    assert_eq!(ioprio_from_raw(0), Some(CurrentIoprio { class: IoniceClass::Unspecified, priority: 0 }));
    assert_eq!(class_number(IoniceClass::Realtime), 1);
    assert!(ioprio_differs(None, IoniceClass::BestEffort, 4));
    assert!(!ioprio_differs(Some(CurrentIoprio { class: IoniceClass::BestEffort, priority: 4 }), IoniceClass::BestEffort, 4));
    assert!(ioprio_differs(Some(CurrentIoprio { class: IoniceClass::BestEffort, priority: 3 }), IoniceClass::BestEffort, 4));
}

#[test]
fn failure_tracker_rates_limits() {
    let mut t = FailureTracker::default();
    assert!(t.first_failure(42));
    assert!(!t.first_failure(42));
    t.forget(42);
    assert!(t.first_failure(42));
}

#[test]
fn session_boundaries_are_forbidden_bases() {
    assert!(is_forbidden_base("/sys/fs/cgroup"));
    assert!(is_forbidden_base("/sys/fs/cgroup/user.slice/user-1000.slice/user@1000.service"));
    assert!(is_forbidden_base("/sys/fs/cgroup/user.slice/user-1000.slice"));
    assert!(is_forbidden_base(
        "/sys/fs/cgroup/user.slice/user-1000.slice/user@1000.service/session.slice"
    ));
    assert!(is_forbidden_base("/sys/fs/cgroup/user.slice"));
    assert!(!is_forbidden_base(
        "/sys/fs/cgroup/user.slice/user-1000.slice/user@1000.service/app.slice"
    ));
    assert!(!is_forbidden_base(
        "/sys/fs/cgroup/user.slice/user-1000.slice/user@1000.service/app.slice/nicewatch.service"
    ));
    assert!(!is_forbidden_base("/sys/fs/cgroup/system.slice"));
}

#[test]
fn forbidden_base_edge_cases() {
    assert!(is_forbidden_base("/"));
    assert!(is_forbidden_base("/sys/fs/cgroup/"));
    assert!(is_forbidden_base("/sys//fs/cgroup"));
    assert!(!is_forbidden_base("/sys/fs/cgroup/app.slice"));
}

fn quota_string(pct: Option<u32>) -> String {
    match pct {
        Some(p) => cpu_max_value(p),
        None => String::new(),
    }
}

#[test]
fn quota_maps_percent_to_cpu_max() {
    assert_eq!(quota_string(Some(50)), "50000 100000");
    assert_eq!(quota_string(Some(100)), "100000 100000");
    assert_eq!(quota_string(Some(99999)), "3200000 100000");
    assert_eq!(quota_string(Some(0)), "1000 100000");
    assert_eq!(quota_string(None), "");
}

#[test]
fn sanitize_dir_keeps_safe_chars() {
    assert_eq!(sanitize_dir("cs2"), "cs2");
    assert_eq!(sanitize_dir("Isolated Web Co"), "Isolated_Web_Co");
    assert_eq!(sanitize_dir("a/b:../c"), "a_b_.._c");
    assert_eq!(sanitize_dir(""), "");
}

#[test]
fn limit_files_in_write_order() {
    let l = CgroupLimits {
        path: Some("/x".into()),
        cpu_weight: Some(900),
        cpu_cap_percent: Some(50),
        memory_high: Some("1G".into()),
        memory_max: Some("2G".into()),
        cpu_idle: None,
    };
    let w = limit_writes(&l);
    let expect: Vec<(String, String)> = vec![
        ("cpu.max".into(), "50000 100000".into()),
        ("cpu.weight".into(), "900".into()),
        ("memory.high".into(), "1G".into()),
        ("memory.max".into(), "2G".into()),
    ];
    assert_eq!(w, expect);
    // cpu.idle replaces the weight write.
    let mut idle = limits(None, Some(300));
    idle.cpu_idle = Some(true);
    assert_eq!(limit_writes(&idle), vec![("cpu.idle".to_string(), "1".to_string())]);
}

#[test]
fn nice_decisions() {
    assert_eq!(nice_to_apply(-8, false), 0);
    assert_eq!(nice_to_apply(-8, true), -8);
    assert_eq!(nice_to_apply(5, false), 5);
    assert_eq!(effective_nice(-8, 0, false), 0);
    assert_eq!(effective_nice(-8, 0, true), -8);
    assert_eq!(effective_nice(10, 5, false), 10);
}

#[test]
fn rt_policy_detection() {
    // Fields 3..=45 after "pid (comm)"; field 41 is the policy.
    let stat = |comm: &str, policy: &str| {
        let rest: Vec<String> = (3..=45).map(|i| if i == 41 { policy.to_string() } else { i.to_string() }).collect();
        format!("1234 ({comm}) {}", rest.join(" "))
    };
    assert!(is_rt_policy(&stat("kwin_wayland", "2")));
    assert!(is_rt_policy(&stat("x", "1")));
    assert!(!is_rt_policy(&stat("x", "0")));
    // A comm with spaces and parentheses does not shift the field.
    assert!(is_rt_policy(&stat("Web Content (x) y", "2")));
    assert!(!is_rt_policy(&stat("a b c", "0")));
    assert!(!is_rt_policy("1 (x) S 1"));
    assert!(!is_rt_policy("no paren at all"));
}

#[test]
fn cgroup_paths_of_proc_entries() {
    assert_eq!(proc_cgroup_rel("0::/user.slice/app.slice\n").as_deref(), Some("/user.slice/app.slice"));
    assert_eq!(proc_cgroup_rel("1:name=systemd:/x\n"), None);
    assert_eq!(cgroup_path_of(Some("/user.slice/app.slice")), "/sys/fs/cgroup/user.slice/app.slice");
    assert_eq!(cgroup_path_of(None), "/sys/fs/cgroup");
    assert!(in_cgroup("/sys/fs/cgroup/a/nw-x", Some("/a/nw-x")));
    assert!(!in_cgroup("/sys/fs/cgroup/a/nw-x", None));
    assert!(stray_here("/sys/fs/cgroup/a/nw-x", Some("/a/nw-x"), Some("firefox")));
    assert!(!stray_here("/sys/fs/cgroup/a/nw-x", Some("/a/nw-x"), Some("kwin_wayland")));
}

#[test]
fn managed_dir_uses_explicit_path_or_rule_name() {
    let mut l = limits(Some(25), None);
    assert_eq!(managed_dir("/base", "Isolated Web Co", &l), "/base/nw-Isolated_Web_Co");
    l.path = Some("/explicit".into());
    assert_eq!(managed_dir("/base", "cs2", &l), "/explicit");
}

#[test]
fn no_base_degrades_gracefully() {
    let mut m = CgroupManager::new(None);
    let lims = limits(Some(25), None);
    assert!(matches!(m.plan_sync(1, "x", Some(&lims)), SyncStep::NoBase));
    assert!(!m.is_capped(1));
    assert_eq!(m.stats(), (0, 0));
    assert!(matches!(m.plan_sync(1, "x", None), SyncStep::Idle));
    assert_eq!(m.stats(), (0, 0));
}

#[test]
fn sync_pid_enrolls_rewrites_and_releases() {
    let mut m = CgroupManager::new(Some("/base".to_string()));
    let lims = limits(None, Some(300));
    let step = m.plan_sync(7, "chrome", Some(&lims));
    let dir = match step {
        SyncStep::Enroll { dir, release, .. } => {
            assert!(release.is_none());
            dir
        }
        other => panic!("expected enroll, got {other:?}"),
    };
    assert_eq!(dir, "/base/nw-chrome");
    m.record_enrollment(7, dir.clone(), "/sys/fs/cgroup/user.slice".into(), lims.clone());
    assert!(m.is_capped(7));
    assert_eq!(m.stats(), (1, 1));
    // Same limits again: nothing to do.
    assert!(matches!(m.plan_sync(7, "chrome", Some(&lims)), SyncStep::Idle));
    // After a controller re-assertion the limits are written again.
    m.controllers_checked(false, true);
    assert!(matches!(m.plan_sync(7, "chrome", Some(&lims)), SyncStep::Rewrite { .. }));
    m.clear_controllers_reasserted();
    // Changed limits are rewritten.
    let lims2 = limits(None, Some(500));
    assert!(matches!(m.plan_sync(7, "chrome", Some(&lims2)), SyncStep::Rewrite { .. }));
    // The rule stops applying: back to the origin.
    match m.plan_sync(7, "chrome", None) {
        SyncStep::Release { dir, origin } => {
            assert_eq!(dir, "/base/nw-chrome");
            assert_eq!(origin, "/sys/fs/cgroup/user.slice");
        }
        other => panic!("expected release, got {other:?}"),
    }
    assert!(!m.is_capped(7));
    m.dir_removed("/base/nw-chrome");
    assert_eq!(m.stats(), (0, 0));
}

#[test]
fn orphans_in_managed_dirs_take_the_persisted_origin() {
    let mut m = CgroupManager::new(Some("/base".to_string()));
    let lims = limits(Some(50), None);
    m.record_enrollment(1, "/base/nw-a".into(), "/orig".into(), lims.clone());
    let (o, unknown) = m.settle_origin("/base/nw-a".into(), Some("/saved".into()));
    assert_eq!(o, "/saved");
    assert!(!unknown);
    let (o, unknown) = m.settle_origin("/base/nw-a".into(), None);
    assert_eq!(o, "/base/nw-a");
    assert!(unknown);
    let (o, unknown) = m.settle_origin("/elsewhere".into(), Some("/saved".into()));
    assert_eq!(o, "/elsewhere");
    assert!(!unknown);
    assert_eq!(m.stray_pids("1\n 2 \nx\n"), vec![2]);
    assert_eq!(m.enrolled_pids(), vec![1]);
    assert_eq!(m.entries(), vec![(1, "/base/nw-a".to_string(), "/orig".to_string())]);
    assert_eq!(m.forget(1).map(|e| e.dir), Some("/base/nw-a".to_string()));
    assert!(m.forget(1).is_none());
}

#[test]
fn base_walk_stops_at_session_boundaries() {
    let own = "/sys/fs/cgroup/user.slice/user-1000.slice/user@1000.service/app.slice/nicewatch.service";
    let app = "/sys/fs/cgroup/user.slice/user-1000.slice/user@1000.service/app.slice";
    let session = "/sys/fs/cgroup/user.slice/user-1000.slice/user@1000.service";
    assert_eq!(walk_step(0, own, None), WalkStep::ProbeIt);
    // The daemon's own unit cgroup: children carry no controllers, walk up.
    assert_eq!(walk_step(0, own, Some(Probe::Unwritable)), WalkStep::Next);
    assert_eq!(walk_step(0, own, Some(Probe::NoChild)), WalkStep::Next);
    assert_eq!(walk_step(1, app, Some(Probe::Writable)), WalkStep::Found);
    // A higher candidate that refuses writes ends the round.
    assert_eq!(walk_step(1, app, Some(Probe::Unwritable)), WalkStep::EndRound);
    // Boundaries are never probed nor chosen.
    assert_eq!(walk_step(2, session, None), WalkStep::GiveUp);
    assert_eq!(walk_step(2, session, Some(Probe::Writable)), WalkStep::GiveUp);
    assert_eq!(walk_step(5, "/sys/fs/cgroup", None), WalkStep::GiveUp);
    assert_eq!(walk_step(6, "/", None), WalkStep::GiveUp);
}

#[test]
fn writes_only_on_mismatch() {
    // Privileged: any difference is written.
    assert_eq!(nice_write(-5, 0, true), Some(-5));
    assert_eq!(nice_write(5, 5, true), None);
    // Unprivileged: nice only ever goes up.
    assert_eq!(nice_write(-5, 0, false), None);
    assert_eq!(nice_write(10, 0, false), Some(10));
    assert_eq!(nice_write(0, 19, false), None);
    let be4 = CurrentIoprio { class: IoniceClass::BestEffort, priority: 4 };
    assert!(!ionice_write_needed(IoniceClass::Unspecified, 0, None));
    assert!(ionice_write_needed(IoniceClass::BestEffort, 4, None));
    assert!(!ionice_write_needed(IoniceClass::BestEffort, 4, Some(be4)));
    assert!(ionice_write_needed(IoniceClass::BestEffort, 0, Some(be4)));
    assert!(ionice_write_needed(IoniceClass::Idle, 4, Some(be4)));
}
