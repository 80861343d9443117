use nicewatch::common::{AppConfig, CgroupLimits, Rule, Tier};
use nicewatch::sync::{initial_choice, Change, InitialChoice, LoadError, PromoteOutcome, Source, Sync};

fn sync() -> Sync {
    Sync::new("/etc/pd/rules.toml".into(), "/home/u/.config/pd/rules.toml".into(), 100, 5)
}

fn cfg_with(key: &str, m: &str) -> AppConfig {
    let mut c = AppConfig::new();
    let mut r = Rule::from_preset(m, Tier::Software);
    r.name = key.to_string();
    c.rules.insert(key.into(), r);
    c
}

#[test]
fn precedence_by_mtime() {
    assert_eq!(initial_choice(Some(10), Some(20)), InitialChoice::Local);
    assert_eq!(initial_choice(Some(20), Some(10)), InitialChoice::Root);
    assert_eq!(initial_choice(Some(10), Some(10)), InitialChoice::Root);
    assert_eq!(initial_choice(None, Some(10)), InitialChoice::Local);
    assert_eq!(initial_choice(None, None), InitialChoice::Defaults);
}

#[test]
fn nothing_present_starts_with_defaults() {
    let mut s = sync();
    s.initial_load(0, None, None, None, (None, None));
    assert!(s.active.rules.is_empty());
    assert_eq!(s.active_source, Source::Missing);
    assert!(!s.warnings.is_empty());
}

#[test]
fn new_local_wins_and_is_promoted_after_settling() {
    let mut s = sync();
    s.initial_load(1000, Some(10), Some(20), Some(Ok(cfg_with("l", "localproc"))), (Some(10), Some(20)));
    assert_eq!(s.active_source, Source::Local);
    assert!(s.active.rules.contains_key("l"));
    assert!(!s.promote_due(1050, Some(20)));
    assert!(s.promote_due(1100, Some(20)));
    // A later edit of the local file restarts the clock.
    assert!(!s.promote_due(1100, Some(30)));
    assert!(s.promote_done(PromoteOutcome::Written(Some(40))));
    assert_eq!(s.active_source, Source::Root);
    assert!(!s.pending_promote);
    // Our own write of the root file does not come back as a change.
    assert_eq!(s.classify_change("/etc/pd/rules.toml", Some(40)), Change::Ignored);
    assert_eq!(s.classify_change("/etc/pd/rules.toml", Some(2_000_000_040)), Change::Root);
}

#[test]
fn root_newer_stays_authoritative() {
    let mut s = sync();
    s.initial_load(0, Some(30), Some(20), Some(Ok(cfg_with("r2", "rootproc2"))), (Some(30), Some(20)));
    assert_eq!(s.active_source, Source::Root);
    assert!(s.active.rules.contains_key("r2"));
    assert!(!s.active.rules.contains_key("l"));
    assert!(!s.pending_promote);
}

#[test]
fn promote_failure_keeps_operating_from_local() {
    let mut s = sync();
    s.initial_load(0, None, Some(5), Some(Ok(cfg_with("l", "localproc"))), (None, Some(5)));
    assert!(s.promote_due(200, Some(5)));
    assert!(!s.promote_done(PromoteOutcome::WriteFailed("permission denied".into())));
    assert!(s.warnings.iter().any(|w| w.contains("continuing with local")));
    assert!(s.active.rules.contains_key("l"));
    assert!(!s.promote_due(400, Some(5)));
}

#[test]
fn self_write_does_not_loop_back() {
    let mut s = sync();
    s.initial_load(0, None, Some(5), Some(Ok(cfg_with("l", "localproc"))), (None, Some(5)));
    s.active.rules.insert("tmp".into(), Rule::from_preset("tmpproc", Tier::Game));
    s.local_write_done(10, None, Ok(Some(77)));
    assert_eq!(s.classify_change("/home/u/.config/pd/rules.toml", Some(77)), Change::Ignored, "our own write must be ignored");
    assert_eq!(s.classify_change("/home/u/.config/pd/rules.toml", Some(2_000_000_077)), Change::Local);
    assert_eq!(s.classify_change("/elsewhere", Some(1)), Change::Ignored);
}

#[test]
fn failed_loads_keep_the_previous_config() {
    let mut s = sync();
    s.initial_load(0, Some(1), None, Some(Ok(cfg_with("r", "rootproc"))), (Some(1), None));
    s.apply_root_change(Err(LoadError::Invalid("TOML parse error".into())));
    assert!(s.active.rules.contains_key("r"));
    assert_eq!(s.warnings.len(), 2);
    assert_eq!(s.warnings[0], "root config /etc/pd/rules.toml invalid: TOML parse error");
    s.apply_local_change(5, Err(LoadError::Unreadable("gone".into())), None);
    assert_eq!(s.warnings[2], "cannot read local config /home/u/.config/pd/rules.toml: gone");
    assert!(s.pending_promote);
}

#[test]
fn polling_notices_moved_mtimes_once() {
    let mut s = sync();
    assert!(s.observe_mtime(true, Some(5)));
    assert!(!s.observe_mtime(true, Some(5)));
    assert!(s.observe_mtime(false, None));
    assert!(!s.observe_mtime(false, None));
}

#[test]
fn upsert_preset_rule_is_debounced_and_keeps_the_cap() {
    let mut s = sync();
    s.upsert_cap_rule("VNyan.exe", Some(40), 0);
    assert!(s.local_write_due(5));
    assert!(!s.local_write_due(4));
    s.upsert_preset_rule("VNyan.exe", Tier::Game, 10);
    let r = s.active.rules.get("VNyan.exe").unwrap();
    assert_eq!(r.tier, Some(Tier::Game));
    assert_eq!(r.nice, Some(-8));
    assert_eq!(r.cgroup.as_ref().unwrap().cpu_cap_percent, Some(40));
    assert_eq!(s.active_source, Source::Local);
    assert!(!s.local_write_due(14));
    assert!(s.local_write_due(15));
}

#[test]
fn removing_the_only_limit_drops_the_block() {
    let mut s = sync();
    s.upsert_cap_rule("x", Some(50), 0);
    assert_eq!(s.active.rules.get("x").unwrap().tier, Some(Tier::Software));
    s.upsert_cap_rule("x", None, 0);
    assert!(s.active.rules.get("x").unwrap().cgroup.is_none());
    let mut with_weight = Rule::from_preset("y", Tier::Game);
    with_weight.cgroup = Some(CgroupLimits { path: None, cpu_weight: Some(200), cpu_cap_percent: Some(10), memory_high: None, memory_max: None, cpu_idle: None });
    s.active.rules.insert("y".into(), with_weight);
    s.upsert_cap_rule("y", None, 0);
    let c = s.active.rules.get("y").unwrap().cgroup.clone().unwrap();
    assert_eq!(c.cpu_cap_percent, None);
    assert_eq!(c.cpu_weight, Some(200));
}

#[test]
fn removing_the_cap_keeps_the_idle_flag() {
    let mut s = Sync::new("/r/rules.toml".into(), "/l/rules.toml".into(), 30000, 1000);
    let mut r = Rule::from_preset("bg", Tier::Software);
    r.cgroup = Some(CgroupLimits { path: None, cpu_weight: None, cpu_cap_percent: Some(50), memory_high: None, memory_max: None, cpu_idle: Some(true) });
    s.active.rules.insert("bg".into(), r);
    s.upsert_cap_rule("bg", None, 0);
    assert_eq!(
        s.active.rules.get("bg").unwrap().cgroup,
        Some(CgroupLimits { path: None, cpu_weight: None, cpu_cap_percent: None, memory_high: None, memory_max: None, cpu_idle: Some(true) })
    );
}

#[test]
fn debounce_has_a_floor_and_poll_interval_persists() {
    let mut s = Sync::new("/r".into(), "/l".into(), 1, 1000);
    assert_eq!(s.promote_debounce_ms, 50);
    s.set_poll_interval(3000, 7);
    assert_eq!(s.active.poll_interval_ms, Some(3000));
    assert_eq!(s.local_write_at, Some(1007));
}
