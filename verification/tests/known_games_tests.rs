use nicewatch::known_games::{basename, flatpak_id_from_cgroup, is_flatpak_id, KnownGames};
use nicewatch::proc_scan::ProcEntry;

fn entry(name: &str, exe: Option<&str>, cmdline: Option<&[u8]>, cgroup: Option<&str>) -> ProcEntry {
    ProcEntry {
        pid: 1,
        ppid: 1,
        name: name.into(),
        state: 'S',
        utime: 0,
        stime: 0,
        nice: 0,
        rss_kb: 0,
        uid: 1000,
        start_secs: 0,
        exe: exe.map(str::to_string),
        environ: None,
        cmdline: cmdline.map(|c| c.to_vec()),
        has_dri_fd: false,
        cgroup: cgroup.map(str::to_string),
    }
}

/// A catalog carrying the entries the cases below rely on.
fn catalog() -> KnownGames {
    let tokens: Vec<String> = vec![
        " Sober ".into(),
        "org.virtually_compatible.Sober".into(),
        "deltarune".into(),
        "".into(),
    ];
    KnownGames::from_tokens(&tokens)
}

#[test]
fn comm_matches_known_game() {
    let kg = catalog();
    assert!(kg.is_known_name("sober"));
    let e = entry("sober", None, None, None);
    assert!(kg.is_known_entry(&e));
}

#[test]
fn flatpak_cgroup_scope_matches() {
    let kg = catalog();
    let e = entry(
        "bwrap",
        None,
        None,
        Some("/system.slice/app-flatpak-org.virtually_compatible.Sober-a1b2c3.scope"),
    );
    assert!(kg.is_known_entry(&e));
}

#[test]
fn cmdline_segment_matches() {
    let kg = catalog();
    let e = entry(
        "wine64-preloader",
        Some("/usr/lib/wine/wine64-preloader"),
        Some(b"Z:\\home\\u\\Steam\\steamapps\\common\\Deltarune\\DELTARUNE.exe\0-data".as_slice()),
        None,
    );
    assert!(kg.is_known_entry(&e));
}

#[test]
fn random_processes_do_not_match() {
    let kg = catalog();
    for (name, exe, cmd, cg) in [
        ("kwin_wayland", Some("/usr/bin/kwin_wayland"), None, None),
        ("node", Some("/usr/bin/node"), Some(b"/usr/bin/node\0server.js".as_slice()), None),
        (
            "app-flatpak-org.example.notagame-abc123",
            None,
            None,
            Some("/system.slice/app-flatpak-org.example.notagame-abc123.scope"),
        ),
    ] {
        let e = entry(name, exe, cmd, cg);
        assert!(!kg.is_known_entry(&e), "{name} must not be known");
    }
}

#[test]
fn flatpak_id_extraction() {
    assert_eq!(
        flatpak_id_from_cgroup("/system.slice/app-flatpak-org.virtually_compatible.Sober-1a2b3c.scope"),
        Some("org.virtually_compatible.sober".to_string())
    );
    assert_eq!(
        flatpak_id_from_cgroup("/user.slice/app-flatpak-io.itch.itch-abc.scope"),
        Some("io.itch.itch".to_string())
    );
    assert_eq!(flatpak_id_from_cgroup("/system.slice/kde.service"), None);
}

#[test]
fn catalog_classifies_tokens() {
    let kg = catalog();
    assert_eq!(kg.len(), 3);
    assert!(KnownGames::empty().len() == 0);
    assert!(!kg.is_known_name(""));
    assert!(kg.is_known_name("SOBER"));
    assert!(is_flatpak_id(&"a.b.c".chars().collect()));
    assert!(!is_flatpak_id(&"a.b".chars().collect()));
    assert_eq!(basename("/usr/bin/node").as_deref(), Some("node"));
    assert_eq!(basename("/usr/bin/"), None);
}

#[test]
fn argument_boundaries_end_a_segment() {
    let kg = catalog();
    let e = entry("game.bin", None, Some(b"/opt/g/DELTARUNE.exe\0-data\0".as_slice()), None);
    assert!(kg.is_known_entry(&e));
    let e = entry("tool", None, Some(b"/usr/bin/tool\0deltarune-notes.txt\0".as_slice()), None);
    assert!(!kg.is_known_entry(&e));
}
