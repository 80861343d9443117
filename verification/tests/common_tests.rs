use nicewatch::common::{
    ipc_socket_path, local_config_dir, local_config_path, root_config_path, runtime_dir,
    AppConfig, AutoGameConfig, IoniceClass, Rule, Tier,
};

#[test]
fn preset_table_niceness_ordering() {
    // Lower niceness == higher priority: Realtime < Streaming < Game < Software.
    let order: Vec<i32> = Tier::all().iter().map(|t| t.preset().nice).collect();
    assert!(order[0] > order[1] && order[1] > order[2] && order[2] > order[3]);
    assert_eq!(Tier::Realtime.preset().nice, -12);
}

#[test]
fn no_preset_may_use_kernel_realtime_scheduling() {
    for t in Tier::all() {
        assert_eq!(t.preset().ionice_class, IoniceClass::BestEffort);
    }
}

#[test]
fn tier_and_ionice_labels() {
    assert_eq!(Tier::Software.label(), "Software");
    assert_eq!(Tier::Streaming.label(), "Streaming");
    assert_eq!(IoniceClass::BestEffort.label(), "be");
    assert_eq!(IoniceClass::Unspecified.label(), "none");
}

#[test]
fn rule_from_preset_fills_every_field() {
    let r = Rule::from_preset("ExampleApp.exe", Tier::Game);
    assert_eq!(r.name, "ExampleApp.exe");
    assert_eq!(r.match_name, "ExampleApp.exe");
    assert_eq!(r.tier, Some(Tier::Game));
    assert_eq!(r.nice, Some(-8));
    assert_eq!(r.ionice_class, Some(IoniceClass::BestEffort));
    assert_eq!(r.ionice_priority, Some(2));
    assert!(r.cgroup.is_none());
}

#[test]
fn auto_game_section_defaults_to_game_preset() {
    let a = AutoGameConfig::default();
    assert_eq!(a.preset(), Tier::Game.preset());
    let b = AutoGameConfig { tier: Some(Tier::Streaming), nice: Some(-3), ionice_class: None, ionice_priority: None };
    let p = b.preset();
    assert_eq!(p.nice, -3);
    assert_eq!(p.ionice_priority, Tier::Streaming.preset().ionice_priority);
}

#[test]
fn config_paths() {
    assert_eq!(root_config_path(), "/etc/proc-priority-daemon/rules.toml");
    assert_eq!(
        local_config_path(Some("/x/cfg"), Some("/home/u")),
        "/x/cfg/proc-priority-daemon/rules.toml"
    );
    assert_eq!(
        local_config_path(Some(""), Some("/home/u")),
        "/home/u/.config/proc-priority-daemon/rules.toml"
    );
    assert_eq!(local_config_path(None, None), "proc-priority-daemon/rules.toml");
    assert_eq!(local_config_dir(None, Some("/home/u")), "/home/u/.config/proc-priority-daemon");
    assert_eq!(runtime_dir(Some("/run/user/1000"), "/tmp"), "/run/user/1000");
    assert_eq!(runtime_dir(Some(""), "/tmp"), "/tmp");
    assert_eq!(ipc_socket_path("/run/user/1000"), "/run/user/1000/nicewatch.sock");
    assert_eq!(ipc_socket_path("/tmp/"), "/tmp/nicewatch.sock");
}

#[test]
fn fill_rule_names_restores_keys() {
    let mut cfg = AppConfig::new();
    let mut r = Rule::from_preset("proc", Tier::Software);
    r.name = String::new();
    cfg.rules.insert("key".to_string(), r);
    cfg.fill_rule_names();
    assert_eq!(cfg.rules.get("key").unwrap().name, "key");
    assert_eq!(cfg.rules.get("key").unwrap().match_name, "proc");
}

#[test]
fn rule_map_insert_overwrites_and_sorts() {
    let mut cfg = AppConfig::new();
    cfg.rules.insert("b".to_string(), Rule::from_preset("b", Tier::Game));
    cfg.rules.insert("a".to_string(), Rule::from_preset("a", Tier::Game));
    cfg.rules.insert("b".to_string(), Rule::from_preset("b", Tier::Software));
    assert_eq!(cfg.rules.len(), 2);
    assert_eq!(cfg.rules.key_at(0), "a");
    assert_eq!(cfg.rules.get("b").unwrap().tier, Some(Tier::Software));
    assert!(!cfg.rules.contains_key("c"));
}
