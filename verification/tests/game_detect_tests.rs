use nicewatch::game_detect::{
    detect_game, environ_has_steam, flags_choice, is_de_critical, is_self_binary, is_wine_internal,
    needs_detection, FullscreenDetector, GameFlags, NoopFullscreenDetector,
};
use nicewatch::proc_scan::ProcEntry;

fn steam_appid_from_resource(resource: &str) -> Option<&str> {
    resource.strip_prefix("steam_app_").filter(|id| !id.is_empty())
}

fn environ_has_steam_appid(environ: Option<&[u8]>, appid: &str) -> bool {
    let Some(env) = environ else {
        return false;
    };
    let want = format!("SteamAppId={appid}");
    env.split(|&b| b == 0).any(|e| e.starts_with(want.as_bytes()))
}

fn entry(pid: u32, env: Option<&[u8]>, dri: bool) -> ProcEntry {
    ProcEntry {
        pid,
        ppid: 1,
        name: "x".into(),
        state: 'S',
        utime: 0,
        stime: 0,
        nice: 0,
        rss_kb: 0,
        uid: 1000,
        start_secs: 0,
        exe: None,
        environ: env.map(|e| e.to_vec()),
        cmdline: None,
        has_dri_fd: dri,
        cgroup: None,
    }
}

struct Always;
impl FullscreenDetector for Always {
    fn refresh(&self) {}
    fn is_fullscreen(&self, _entry: &ProcEntry) -> bool {
        true
    }
}

#[test]
fn steam_env_vars_flag_a_game() {
    let e = entry(1, Some(b"\x00HOME=/home\x00SteamGameId=892970\x00".as_slice()), false);
    assert!(detect_game(&e, &NoopFullscreenDetector).steam_env);
    let e2 = entry(2, Some(b"SteamAppId=123400".as_slice()), false);
    assert!(detect_game(&e2, &NoopFullscreenDetector).steam_env);
    let e3 = entry(
        3,
        Some(b"STEAM_COMPAT_DATA_PATH=/home/x/.steam/steam/steamapps/compatdata/1234".as_slice()),
        false,
    );
    assert!(detect_game(&e3, &NoopFullscreenDetector).steam_env);
    assert!(!detect_game(&e, &NoopFullscreenDetector).is_game());
    assert!(detect_game(&entry(4, Some(b"SteamGameId=892970".as_slice()), true), &NoopFullscreenDetector).is_game());
}

#[test]
fn no_steam_vars_does_not_flag() {
    let e = entry(1, Some(b"HOME=/home\x00PATH=/usr/bin".as_slice()), false);
    let flags = detect_game(&e, &NoopFullscreenDetector);
    assert!(!flags.steam_env);
    assert!(!flags.is_game());
    assert!(!detect_game(&entry(2, None, false), &NoopFullscreenDetector).is_game());
}

#[test]
fn dri_fd_alone_does_not_flag_without_fullscreen() {
    assert!(!detect_game(&entry(1, None, true), &NoopFullscreenDetector).is_game());
}

#[test]
fn dri_fd_plus_fullscreen_flags_a_game() {
    assert!(detect_game(&entry(1, None, true), &Always).is_game());
    assert!(detect_game(&entry(1, None, false), &Always).fullscreen);
    assert!(!detect_game(&entry(1, None, false), &Always).is_game());
}

#[test]
fn fullscreen_detector_is_injected() {
    let flags = detect_game(&entry(1, None, false), &Always);
    assert!(flags.fullscreen);
    assert!(!flags.is_game());
}

#[test]
fn steam_resource_matches_own_environ_appid() {
    struct Stub {
        state: (String, bool),
    }
    impl FullscreenDetector for Stub {
        fn refresh(&self) {}
        fn is_fullscreen(&self, entry: &ProcEntry) -> bool {
            let (resource, fullscreen) = &self.state;
            if !fullscreen {
                return false;
            }
            if resource == &entry.name {
                return true;
            }
            if let Some(appid) = steam_appid_from_resource(resource) {
                return environ_has_steam_appid(entry.environ.as_deref(), appid);
            }
            false
        }
    }

    let game = entry(1, Some(b"SteamAppId=1690940\x00SteamGameId=1690940".as_slice()), true);
    let det = Stub { state: ("steam_app_1690940".to_string(), true) };
    assert!(det.is_fullscreen(&game));
    assert!(detect_game(&game, &det).is_game());

    let other = entry(2, None, true);
    assert!(!det.is_fullscreen(&other));
    assert!(!detect_game(&other, &det).is_game());

    let det = Stub { state: ("steam_app_1690940".to_string(), false) };
    assert!(!det.is_fullscreen(&game));
}

#[test]
fn wine_internal_processes_never_flag() {
    let mut e = entry(1, Some(b"SteamAppId=1690940".as_slice()), true);
    e.exe = Some("/home/user/.steam/steam/steamapps/compatdata/1690940/pfx/drive_c/windows/system32/explorer.exe".into());
    e.name = "explorer.exe".into();
    assert!(!detect_game(&e, &NoopFullscreenDetector).is_game());
    assert!(is_wine_internal(&e));

    let mut w = entry(2, Some(b"SteamAppId=1690940".as_slice()), true);
    w.name = "winedevice.exe".into();
    w.exe = Some("/home/user/.local/share/Steam/compatibilitytools.d/GE-Proton8-20/files/bin/wine64-preloader".into());
    w.cmdline = Some(b"C:\\windows\\system32\\winedevice.exe\0".to_vec());
    assert!(is_wine_internal(&w));
    let flags = detect_game(&w, &NoopFullscreenDetector);
    assert!(!flags.steam_env && !flags.dri_fd && !flags.fullscreen && !flags.is_game());

    let mut pv = entry(3, Some(b"SteamAppId=1690940".as_slice()), true);
    pv.name = "srt-bwrap".into();
    pv.cmdline = Some(b"steam-runtime-tools/srt-bwrap-pressure-vessel\0...".to_vec());
    assert!(is_wine_internal(&pv));

    let mut g = entry(4, Some(b"SteamAppId=1690940".as_slice()), true);
    g.name = "DELTARUNE.exe".into();
    g.exe = Some("/home/user/.local/share/Steam/compatibilitytools.d/GE-Proton8-20/files/bin/wine64-preloader".into());
    g.cmdline = Some(b"Z:\\home\\user\\.local\\share\\Steam\\steamapps\\common\\DELTARUNEdemo\\DELTARUNE.exe\0-game\0data.win".to_vec());
    assert!(!is_wine_internal(&g));
    assert!(detect_game(&g, &NoopFullscreenDetector).steam_env);
}

#[test]
fn de_critical_processes_never_flag_as_games() {
    for name in ["kwin_wayland", "plasmashell", "kded6", "Xwayland", "org_kde_powerdevil"] {
        assert!(is_de_critical(name), "{name} must be DE-critical");
        let mut e = entry(1, None, true);
        e.name = name.into();
        let flags = detect_game(&e, &Always);
        assert!(!flags.is_game(), "{name} must not be a game candidate");
        assert!(!flags.fullscreen && !flags.steam_env, "{name} flags must be neutral");
    }
    assert!(!is_de_critical("DELTARUNE.exe"));
    assert!(!is_de_critical("antigravity"));
}

#[test]
fn own_binaries_are_never_detectable() {
    let mine = nicewatch::common::APP_NAME;
    assert!(is_self_binary(mine));
    assert!(is_self_binary(&format!("{mine}-gui")));
    assert!(!is_self_binary("steam"));
    assert!(!is_self_binary("nicewatch-hamster"));
}

#[test]
fn known_flag_alone_is_a_game() {
    let f = GameFlags { steam_env: false, dri_fd: false, fullscreen: false, known: true };
    assert!(f.is_game());
    let g = GameFlags { steam_env: true, dri_fd: false, fullscreen: true, known: false };
    assert!(!g.is_game());
}

#[test]
fn steam_environment_entries_are_matched_at_entry_starts() {
    assert!(environ_has_steam(&Some(b"SteamAppId=1".to_vec())));
    assert!(!environ_has_steam(&Some(b"XSteamAppId=1".to_vec())));
    assert!(!environ_has_steam(&None));
}

#[test]
fn per_poll_flag_selection() {
    let neutral = GameFlags { steam_env: false, dri_fd: false, fullscreen: false, known: false };
    let cached = GameFlags { steam_env: true, dri_fd: false, fullscreen: false, known: false };
    let fresh = GameFlags { steam_env: false, dri_fd: true, fullscreen: true, known: false };
    // Own binaries and untouchable processes: no heuristic work, neutral flags.
    assert!(!needs_detection(true, false, None, true));
    assert!(!needs_detection(false, true, None, true));
    assert_eq!(flags_choice(true, false, Some(cached), false, fresh, false, true), neutral);
    assert_eq!(flags_choice(false, true, None, true, fresh, false, true), neutral);
    // A decided name reuses its cached flags; an undecided one is re-run.
    assert!(!needs_detection(false, false, Some(cached), false));
    assert!(needs_detection(false, false, Some(cached), true));
    assert!(needs_detection(false, false, None, false));
    assert_eq!(flags_choice(false, false, Some(cached), false, fresh, false, false), cached);
    assert_eq!(flags_choice(false, false, Some(cached), true, fresh, false, false), fresh);
    // The catalog verdict is filled in, except for desktop-critical names.
    assert!(flags_choice(false, false, None, true, fresh, false, true).known);
    assert!(!flags_choice(false, false, None, true, fresh, true, true).known);
}
