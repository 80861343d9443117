use nicewatch::common::{ClientMsg, GameAnswer, Tier};
use nicewatch::daemon::{
    cgroup_request, clamp_poll_interval, diff_pids, effective_poll_interval, is_untouchable, status_label,
    Daemon, MsgReply, NameSet, ProcSummary,
};
use nicewatch::game_detect::{FullscreenDetector, GameFlags, NoopFullscreenDetector};
use nicewatch::known_games::KnownGames;
use nicewatch::proc_scan::ProcEntry;
use nicewatch::rules::Resolved;
use nicewatch::sync::Sync;

fn daemon() -> Daemon {
    Daemon::new(Sync::new("/r/rules.toml".into(), "/l/rules.toml".into(), 100, 5))
}

fn no_flags() -> GameFlags {
    GameFlags { steam_env: false, dri_fd: false, fullscreen: false, known: false }
}

#[test]
fn daemon_uses_the_noop_fullscreen_backend() {
    let fs = NoopFullscreenDetector;
    fs.refresh();
    assert!(!fs.is_fullscreen(&ProcEntry {
        pid: 1,
        ppid: 0,
        start_secs: 0,
        name: "x".into(),
        state: 'R',
        utime: 0,
        stime: 0,
        nice: 0,
        rss_kb: 0,
        uid: 0,
        exe: None,
        environ: None,
        cmdline: None,
        has_dri_fd: true,
        cgroup: None,
    }));
}

#[test]
fn poll_interval_precedence_and_clamp() {
    assert_eq!(effective_poll_interval(Some(3000), Some(500)), 3000);
    assert_eq!(effective_poll_interval(None, Some(500)), 500);
    assert_eq!(effective_poll_interval(None, None), 2000);
    assert_eq!(effective_poll_interval(Some(10), None), 250);
    assert_eq!(clamp_poll_interval(120_000), 60_000);
}

#[test]
fn status_labels() {
    assert_eq!(status_label('R'), "running");
    assert_eq!(status_label('D'), "io-wait");
    assert_eq!(status_label('X'), "other");
    assert!(is_untouchable(0, 1000, false));
    assert!(!is_untouchable(0, 1000, true));
    assert!(!is_untouchable(1000, 1000, false));
}

#[test]
fn targets_respect_exclusions() {
    let mut d = daemon();
    let game = GameFlags { steam_env: true, dri_fd: true, fullscreen: false, known: false };
    assert!(matches!(d.target_for("somegame", &game, 0, false), Resolved::Apply(_)));
    assert_eq!(d.target_for("kwin_wayland", &game, 0, false), Resolved::Untouched);
    assert_eq!(d.target_for("somegame", &game, 0, true), Resolved::Untouched);
    assert_eq!(d.target_for("tool", &no_flags(), 0, false), Resolved::Untouched);
    // "Not now": the running instance gets the auto-game target.
    d.handle_client_msg(ClientMsg::ConfirmGame { name: "tool".into(), answer: GameAnswer::NotNow }, None, 2000, 0);
    match d.target_for("tool", &no_flags(), 0, false) {
        Resolved::Apply(t) => {
            assert_eq!(t.tier, Some(Tier::Game));
            assert_eq!(t.rule, None);
            let (key, limits) = cgroup_request(&Resolved::Apply(t));
            assert_eq!(key, "game");
            assert!(limits.is_none());
        }
        Resolved::Untouched => panic!("instance game must apply"),
    }
    let (key, limits) = cgroup_request(&Resolved::Untouched);
    assert_eq!(key, "");
    assert!(limits.is_none());
}

#[test]
fn gui_requests_update_rules_and_prompts() {
    let mut d = daemon();
    match d.handle_client_msg(ClientMsg::SetTier { pid: 9, tier: Tier::Streaming }, Some("obs".into()), 2000, 0) {
        MsgReply::ApplyPreset { name, preset, poll_interval_ms } => {
            assert_eq!(name, "obs");
            assert_eq!(preset, Tier::Streaming.preset());
            assert_eq!(poll_interval_ms, 2000);
        }
        other => panic!("unexpected {other:?}"),
    }
    assert!(d.ruleset.has_rule("obs"));
    assert!(matches!(
        d.handle_client_msg(ClientMsg::SetTier { pid: 10, tier: Tier::Game }, None, 2000, 0),
        MsgReply::UnknownPid { pid: 10 }
    ));
    assert!(matches!(
        d.handle_client_msg(ClientMsg::SetPollInterval { poll_interval_ms: 10 }, None, 2000, 0),
        MsgReply::Snapshot { poll_interval_ms: 250 }
    ));
    assert_eq!(d.sync.active.poll_interval_ms, Some(250));
    d.handle_client_msg(ClientMsg::SetCap { name: "obs".into(), pct: Some(30) }, None, 2000, 0);
    assert_eq!(d.sync.active.rules.get("obs").unwrap().cgroup.as_ref().unwrap().cpu_cap_percent, Some(30));
    // A queued prompt is answered.
    assert!(d.note_fresh_game("g", 5, true));
    assert_eq!(d.pending_prompts.len(), 1);
    d.handle_client_msg(ClientMsg::ConfirmGame { name: "g".into(), answer: GameAnswer::Yes }, None, 2000, 0);
    assert!(d.pending_prompts.is_empty());
    assert!(d.ruleset.has_rule("g"));
    assert!(matches!(
        d.handle_client_msg(ClientMsg::Hello { client_kind: "gui".into() }, None, 2000, 0),
        MsgReply::Snapshot { poll_interval_ms: 2000 }
    ));
}

#[test]
fn fresh_names_are_sorted_deduped_and_filtered() {
    let mut d = daemon();
    let known = KnownGames::from_tokens(&vec!["sober".to_string()]);
    let rows = vec![
        ProcSummary { name: "zeta".into(), pid: 3, game_detected: true },
        ProcSummary { name: "alpha".into(), pid: 9, game_detected: true },
        ProcSummary { name: "alpha".into(), pid: 2, game_detected: true },
        ProcSummary { name: "sober".into(), pid: 4, game_detected: true },
        ProcSummary { name: "calm".into(), pid: 5, game_detected: false },
        ProcSummary { name: "zeta".into(), pid: 3, game_detected: true },
    ];
    let fresh = d.fresh_game_names(&rows, &known);
    assert_eq!(
        fresh,
        vec![("alpha".to_string(), 2), ("alpha".to_string(), 9), ("zeta".to_string(), 3)]
    );
    // No GUI: "Not now" for this instance, and no prompt again until exit.
    assert!(!d.note_fresh_game("zeta", 3, false));
    assert!(d.instance_games.contains("zeta"));
    let fresh = d.fresh_game_names(&rows, &known);
    assert_eq!(fresh, vec![("alpha".to_string(), 2), ("alpha".to_string(), 9)]);
    // Every instance gone: the memory is dropped.
    let mut seen = NameSet::new();
    seen.insert("alpha");
    d.prune_exited(&seen);
    assert!(!d.instance_games.contains("zeta"));
    assert!(!d.suppressed_until_exit.contains("zeta"));
    assert!(!d.prompted_names.contains("zeta"));
}

#[test]
fn name_sets() {
    let mut s = NameSet::new();
    s.insert("a");
    s.insert("a");
    s.insert("b");
    assert!(s.contains("a") && s.contains("b"));
    s.remove("a");
    assert!(!s.contains("a"));
    assert!(s.contains("b"));
}

#[test]
fn de_critical_stays_untouched_after_not_now() {
    let mut d = daemon();
    d.handle_client_msg(ClientMsg::ConfirmGame { name: "kwin_wayland".into(), answer: GameAnswer::NotNow }, None, 2000, 0);
    assert!(d.instance_games.contains("kwin_wayland"));
    assert_eq!(d.target_for("kwin_wayland", &no_flags(), 0, false), Resolved::Untouched);
    assert_eq!(cgroup_request(&d.target_for("kwin_wayland", &no_flags(), 0, false)), (String::new(), None));
}

#[test]
fn poll_diffs_split_added_updated_removed() {
    let prev = vec![1, 2, 3, 4];
    let cur = vec![(2, false), (3, true), (5, true), (6, false)];
    let (added, updated, removed) = diff_pids(&prev, &cur);
    assert_eq!(added, vec![5, 6]);
    assert_eq!(updated, vec![3]);
    assert_eq!(removed, vec![1, 4]);
    let (a, u, r) = diff_pids(&vec![], &vec![]);
    assert!(a.is_empty() && u.is_empty() && r.is_empty());
}
