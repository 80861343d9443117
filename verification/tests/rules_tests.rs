use nicewatch::common::{AppConfig, CgroupLimits, IoniceClass, Rule, Tier};
use nicewatch::game_detect::GameFlags;
use nicewatch::rules::{Resolved, RuleSet};

fn game_flags() -> GameFlags {
    GameFlags { steam_env: true, dri_fd: true, fullscreen: false, known: false }
}

fn cfg_with(rules: &[(&str, &str, Option<Tier>, Option<u64>)]) -> AppConfig {
    let mut cfg = AppConfig::new();
    for (key, m, tier, delay) in rules {
        cfg.rules.insert(
            key.to_string(),
            Rule {
                name: key.to_string(),
                match_name: m.to_string(),
                tier: *tier,
                nice: None,
                ionice_class: None,
                ionice_priority: None,
                delay: *delay,
                cgroup: None,
            },
        );
    }
    cfg
}

#[test]
fn explicit_rule_wins_over_heuristic() {
    let mut cfg = AppConfig::new();
    cfg.rules.insert(
        "vnyan".into(),
        Rule {
            name: "vnyan".into(),
            match_name: "VNyan.exe".into(),
            tier: Some(Tier::Software),
            nice: Some(0),
            ionice_class: Some(IoniceClass::BestEffort),
            ionice_priority: Some(6),
            delay: None,
            cgroup: None,
        },
    );
    let set = RuleSet::from_config(&cfg);
    let flags = GameFlags { steam_env: false, dri_fd: true, fullscreen: false, known: false };
    match set.resolve("VNyan.exe", &flags, 100) {
        Resolved::Apply(t) => {
            assert_eq!(t.tier, Some(Tier::Software));
            assert_eq!(t.nice, 0);
            assert_eq!(t.ionice_priority, 6);
        }
        Resolved::Untouched => panic!("rule must apply"),
    }
}

#[test]
fn heuristic_gets_auto_game_default() {
    let set = RuleSet::from_config(&AppConfig::new());
    match set.resolve("somegame", &game_flags(), 30) {
        Resolved::Apply(t) => {
            assert_eq!(t.tier, Some(Tier::Game));
            assert_eq!(t.nice, Tier::Game.preset().nice);
        }
        _ => panic!("game-flagged process must resolve to the game tier"),
    }
}

#[test]
fn unflagged_new_process_is_left_alone() {
    let set = RuleSet::from_config(&AppConfig::new());
    let flags = GameFlags { steam_env: false, dri_fd: false, fullscreen: false, known: false };
    assert_eq!(set.resolve("random-tool", &flags, 30), Resolved::Untouched);
}

#[test]
fn delay_gates_application() {
    let cfg = cfg_with(&[("slow", "slowstart", None, Some(10))]);
    let set = RuleSet::from_config(&cfg);
    assert_eq!(set.resolve("slowstart", &game_flags(), 5), Resolved::Untouched);
    assert!(matches!(set.resolve("slowstart", &game_flags(), 15), Resolved::Apply(_)));
}

#[test]
fn tier_preset_fills_missing_fields() {
    let mut cfg = AppConfig::new();
    cfg.rules.insert(
        "obs".into(),
        Rule {
            name: "obs".into(),
            match_name: "obs".into(),
            tier: Some(Tier::Streaming),
            nice: None,
            ionice_class: None,
            ionice_priority: None,
            delay: None,
            cgroup: None,
        },
    );
    let set = RuleSet::from_config(&cfg);
    match set.resolve("obs", &game_flags(), 30) {
        Resolved::Apply(t) => {
            let p = Tier::Streaming.preset();
            assert_eq!(t.nice, p.nice);
            assert_eq!(t.ionice_class, p.ionice_class);
            assert_eq!(t.ionice_priority, p.ionice_priority);
        }
        _ => panic!("rule must apply"),
    }
}

#[test]
fn rules_are_keyed_by_match_name() {
    let cfg = cfg_with(&[("key", "procname", None, None)]);
    let set = RuleSet::from_config(&cfg);
    assert!(set.has_rule("procname"));
    assert!(!set.has_rule("procname2"));
}

#[test]
fn cgroup_limits_carry_through() {
    let mut cfg = AppConfig::new();
    cfg.rules.insert(
        "cj".into(),
        Rule {
            name: "cj".into(),
            match_name: "cj".into(),
            tier: Some(Tier::Game),
            nice: None,
            ionice_class: None,
            ionice_priority: None,
            delay: None,
            cgroup: Some(CgroupLimits {
                path: Some("/sys/fs/cgroup/nicewatch/games".into()),
                cpu_weight: Some(900),
                cpu_cap_percent: Some(50),
                memory_high: Some("4G".into()),
                memory_max: Some("8G".into()),
                cpu_idle: None,
            }),
        },
    );
    let set = RuleSet::from_config(&cfg);
    match set.resolve("cj", &game_flags(), 30) {
        Resolved::Apply(t) => {
            let c = t.cgroup.unwrap();
            assert_eq!(c.cpu_weight, Some(900));
            assert_eq!(c.cpu_cap_percent, Some(50));
            assert_eq!(c.memory_high.as_deref(), Some("4G"));
            assert_eq!(c.memory_max.as_deref(), Some("8G"));
            assert_eq!(c.path.as_deref(), Some("/sys/fs/cgroup/nicewatch/games"));
        }
        _ => panic!("rule must apply"),
    }
}

#[test]
fn later_key_wins_for_the_same_match_name() {
    let cfg = cfg_with(&[("a", "proc", Some(Tier::Software), None), ("b", "proc", Some(Tier::Realtime), None)]);
    let set = RuleSet::from_config(&cfg);
    match set.resolve("proc", &game_flags(), 0) {
        Resolved::Apply(t) => assert_eq!(t.tier, Some(Tier::Realtime)),
        _ => panic!("rule must apply"),
    }
    assert_eq!(set.rules().len(), 1);
}
