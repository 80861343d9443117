use nicewatch::cli::{cgroup_summary, truncate};
use nicewatch::common::{AppConfig, CgroupLimits, Rule, Tier};
use nicewatch::config::validate;
use nicewatch::setup::{
    install_backend, Backend, autostart_contents, autostart_dir, autostart_entry, config_base, status, systemd_user_dir,
    uninstall_summary, unit_contents, unit_file,
};

#[test]
fn truncate_keeps_short_and_ellipsizes_long() {
    assert_eq!(truncate("firefox", 18), "firefox");
    assert_eq!(truncate("SampleGame.exe_very_long", 10), "SampleGam…");
    assert_eq!(truncate("x", 1), "x");
    assert_eq!(truncate("xy", 0), "…");
}

#[test]
fn cgroup_column_lists_the_set_limits() {
    let c = CgroupLimits {
        path: None,
        cpu_weight: Some(900),
        cpu_cap_percent: Some(50),
        memory_high: Some("4G".into()),
        memory_max: None,
        cpu_idle: Some(true),
    };
    assert_eq!(cgroup_summary(&c), "w=900 cap=50% high=4G idle");
    let empty = CgroupLimits { path: None, cpu_weight: None, cpu_cap_percent: None, memory_high: None, memory_max: None, cpu_idle: Some(false) };
    assert_eq!(cgroup_summary(&empty), "");
}

#[test]
fn out_of_range_nice_is_warning_not_fatal() {
    let mut cfg = AppConfig::new();
    let mut r = Rule::from_preset("bad", Tier::Software);
    r.tier = None;
    r.ionice_class = None;
    r.ionice_priority = None;
    r.nice = Some(99);
    cfg.rules.insert("bad".into(), r);
    assert_eq!(cfg.rules.get("bad").unwrap().nice, Some(99));
    let warns = validate(&cfg);
    assert!(!warns.is_empty());
    assert_eq!(warns, vec!["rule [rules.bad]: nice 99 out of range (-20..=19), ignoring".to_string()]);
}

#[test]
fn validation_reports_every_bad_value_in_key_order() {
    let mut cfg = AppConfig::new();
    let mut a = Rule::from_preset("", Tier::Software);
    a.nice = Some(-21);
    a.ionice_priority = Some(8);
    a.cgroup = Some(CgroupLimits { path: None, cpu_weight: Some(0), cpu_cap_percent: Some(4000), memory_high: None, memory_max: None, cpu_idle: None });
    cfg.rules.insert("z".into(), Rule::from_preset("ok", Tier::Game));
    cfg.rules.insert("a".into(), a);
    let warns = validate(&cfg);
    assert_eq!(
        warns,
        vec![
            "rule [rules.a]: `match` must not be empty".to_string(),
            "rule [rules.a]: nice -21 out of range (-20..=19), ignoring".to_string(),
            "rule [rules.a]: ionice_priority 8 out of range (0..=7), ignoring".to_string(),
            "rule [rules.a]: cgroup cpu_weight 0 out of range (1..=10000), ignoring".to_string(),
            "rule [rules.a]: cgroup cpu_cap_percent 4000 out of range (1..=3200, percent of ONE core), ignoring".to_string(),
        ]
    );
}

#[test]
fn unit_contents_user_scope() {
    let s = unit_contents(
        "/opt/nicewatch/nicewatch",
        false,
        "/etc/proc-priority-daemon/rules.toml",
        "/home/u/.config/proc-priority-daemon/rules.toml",
    );
    assert!(s.contains("ExecStart=/opt/nicewatch/nicewatch --root-config"));
    assert!(s.contains("--socket %t/nicewatch.sock"));
    assert!(s.contains("Restart=on-failure"));
    assert!(s.contains("WantedBy=default.target"));
}

#[test]
fn unit_contents_root_scope() {
    let s = unit_contents(
        "/usr/local/bin/nicewatch",
        true,
        "/etc/proc-priority-daemon/rules.toml",
        "/root/.config/proc-priority-daemon/rules.toml",
    );
    assert!(s.contains("ExecStart=/usr/local/bin/nicewatch"));
    assert!(!s.contains("%t"));
}

#[test]
fn autostart_entry_escapes_spaces() {
    let s = autostart_contents("/tmp/.mount_appimage/usr/bin/nicewatch");
    assert!(s.contains("Exec=/tmp/.mount_appimage/usr/bin/nicewatch"));
    assert!(s.contains("X-GNOME-Autostart-enabled=true"));
}

#[test]
fn service_locations() {
    let dir = autostart_dir(Some("/tmp/nw-test-config"), Some("/tmp/nw-test-home")).expect("autostart dir");
    assert!(dir.ends_with("autostart"));
    assert_eq!(dir, "/tmp/nw-test-config/autostart");
    assert_eq!(autostart_dir(None, Some("/home/u")).as_deref(), Some("/home/u/.config/autostart"));
    assert_eq!(systemd_user_dir(None, Some("/home/u")).as_deref(), Some("/home/u/.config/systemd/user"));
    assert_eq!(config_base(None, None), None);
    assert_eq!(unit_file("/d"), "/d/nicewatch.service");
    assert_eq!(autostart_entry("/d"), "/d/nicewatch.desktop");
}

#[test]
fn status_and_uninstall_reports() {
    assert_eq!(
        status(true, Some(("/u/nicewatch.service", false)), Some(("/a/nicewatch.desktop", true))),
        "init: systemd (user services available)\nunit: /u/nicewatch.service (not installed)\nautostart: /a/nicewatch.desktop (installed)"
    );
    assert_eq!(status(false, None, None), "init: not systemd (XDG autostart mode)");
    assert_eq!(uninstall_summary(&vec![]), "nothing was installed — nothing to uninstall");
    assert_eq!(uninstall_summary(&vec!["a".into(), "b".into()]), "removed: a, b");
}

#[test]
fn install_backend_choice() {
    assert_eq!(install_backend(true, true, false), Backend::UserUnit);
    assert_eq!(install_backend(true, false, true), Backend::UserUnit);
    assert_eq!(install_backend(false, true, false), Backend::SystemUnit);
    assert_eq!(install_backend(false, true, true), Backend::Autostart);
    assert_eq!(install_backend(false, false, false), Backend::Autostart);
}
