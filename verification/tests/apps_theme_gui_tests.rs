use nicewatch::apps::{exec_program, icon_data_url, parse_desktop, prettify, resolve, DesktopEntry};
use nicewatch::gui::{
    channel_name, command_outcome, daemon_verb, frame_action, install_outcome, parse_id_output, pick_daemon,
    root_fix_outcome, root_fix_script, tray_action, Channel, FrameKind, TrayAction, UiEvent,
};
use nicewatch::settings::{settings_path, GuiSettings};
use nicewatch::theme::{
    fallback_accent, get_accent, get_native_theme, gsetting_preset_or_hex, gsettings_value, gtk_theme,
    hyprland_accent, ini_get, kde_accent, kde_colors, parse_ini, portal_theme, rgb, rgb_tuple_to_hex,
    unquote, xresources_colors, NativeTheme, ThemeColors,
};

#[test]
fn exec_program_handles_env_prefix_and_paths() {
    assert_eq!(exec_program("firefox"), Some("firefox".into()));
    assert_eq!(exec_program("/usr/bin/firefox --new-window"), Some("firefox".into()));
    assert_eq!(exec_program("env FOO=1 BAR=2 vesktop.bin --ozone"), Some("vesktop.bin".into()));
    assert_eq!(exec_program("flatpak run org.foo.Bar"), Some("flatpak".into()));
    assert_eq!(exec_program("   "), None);
    assert_eq!(exec_program("env A=1"), Some("env".into()));
}

#[test]
fn prettify_makes_readable_names() {
    assert_eq!(prettify("vesktop.bin"), "Vesktop Bin");
    assert_eq!(prettify("Isolated Web Co"), "Isolated Web Co");
    assert_eq!(prettify("chrome_crashpad_handler"), "Chrome Crashpad Handler");
    assert_eq!(prettify("firefox-bin"), "Firefox Bin");
    assert_eq!(prettify("--x..y"), "X Y");
}

#[test]
fn resolve_matches_desktop_entries_by_basename() {
    let entries = vec![DesktopEntry {
        name: "Mozilla Firefox".into(),
        exec_line: "/usr/lib/firefox/firefox".into(),
        try_exec: None,
        icon: Some("firefox".into()),
    }];
    let meta = resolve(&entries, "/usr/lib/firefox/firefox");
    assert_eq!(meta.name, "Mozilla Firefox");
    assert_eq!(meta.icon.as_deref(), Some("firefox"));
    let meta2 = resolve(&entries, "/opt/custom/firefox");
    assert_eq!(meta2.name, "Mozilla Firefox");
    let miss = resolve(&entries, "/usr/bin/whatever");
    assert_eq!(miss.name, "Whatever");
    assert!(miss.icon.is_none());
}

#[test]
fn desktop_files_parse() {
    let text = "[Desktop Entry]\n# c\nName=Firefox\nName[de]=Feuerfuchs\nExec=firefox %u\nIcon= firefox \nTryExec=firefox\n";
    let e = parse_desktop(text).unwrap();
    assert_eq!(e.name, "Firefox");
    assert_eq!(e.exec_line, "firefox %u");
    assert_eq!(e.icon.as_deref(), Some("firefox"));
    assert_eq!(e.try_exec.as_deref(), Some("firefox"));
    assert!(parse_desktop("Name=x\nExec=y\nNoDisplay=true\n").is_none());
    assert!(parse_desktop("Name=x\n").is_none());
}

#[test]
fn icons_become_data_urls() {
    assert_eq!(icon_data_url("/i/a.png", b"Man"), "data:image/png;base64,TWFu");
    assert_eq!(icon_data_url("/i/a.svg", b"Ma"), "data:image/svg+xml;base64,TWE=");
    assert_eq!(icon_data_url("/i/a", b"M"), "data:image/png;base64,TQ==");
    assert_eq!(icon_data_url("/i/a", b""), "data:image/png;base64,");
}

#[test]
fn rgb_tuple_parsing() {
    assert_eq!(rgb_tuple_to_hex("34,209,238").as_deref(), Some("#22d1ee"));
    assert_eq!(rgb_tuple_to_hex("12, 34, 56").as_deref(), Some("#0c2238"));
    assert_eq!(rgb_tuple_to_hex("300,0,0"), None);
    assert_eq!(rgb_tuple_to_hex("a,b,c"), None);
    assert_eq!(rgb_tuple_to_hex("1,2"), None);
    assert_eq!(rgb_tuple_to_hex("1,2,3,255").as_deref(), Some("#010203"));
}

#[test]
fn accent_fallback_is_neutral_not_purple() {
    assert_eq!(fallback_accent(), "#3584e4");
    assert_eq!(rgb(0, 15, 255), "#000fff");
    assert_eq!(get_accent(None), "#3584e4");
    assert_eq!(get_accent(Some("#112233".into())), "#112233");
}

#[test]
fn ini_parse_sections() {
    let ini = parse_ini(
        "[Colors:Window]\nBackgroundNormal=12,13,14\nForegroundNormal=200,200,200\n[Colors:Button]\nBackgroundNormal=1,2,3\n",
    );
    assert_eq!(ini_get(&ini, "Colors:Window", "BackgroundNormal").unwrap(), "12,13,14");
    assert_eq!(ini_get(&ini, "Colors:Button", "BackgroundNormal").unwrap(), "1,2,3");
    assert!(ini_get(&ini, "Colors:Window", "Bogus").is_none());
    let c = kde_colors(&ini).unwrap();
    assert_eq!(c.bg, "#0c0d0e");
    assert_eq!(c.surface, "#010203");
    assert_eq!(c.text, "#c8c8c8");
    assert_eq!(c.sidebar, "#0c0d0e");
    assert_eq!(c.muted, "#888888");
    assert_eq!(c.accent, "");
    assert!(kde_colors(&parse_ini("[Colors:Window]\nBackgroundNormal=1,2,3\n")).is_none());
}

#[test]
fn text_values_and_accents() {
    assert_eq!(unquote("  'Adwaita-dark'\n"), "Adwaita-dark");
    assert_eq!(unquote("(\"x\""), "x");
    assert_eq!(gsettings_value(Some("'blue'\n")).as_deref(), Some("blue"));
    assert_eq!(gsetting_preset_or_hex(Some("blue")).as_deref(), Some("#3584e4"));
    assert_eq!(gsetting_preset_or_hex(Some("#AABBCC")).as_deref(), Some("#aabbcc"));
    assert_eq!(gsetting_preset_or_hex(Some("nope")), None);
    assert_eq!(gsetting_preset_or_hex(None), None);
    assert_eq!(kde_accent(Some("61,174,233\n")).as_deref(), Some("#3daee9"));
    assert_eq!(hyprland_accent("int: 0\ncustom type: ffaabbcc 0xff33ccff\n").as_deref(), Some("#ff33cc"));
    assert_eq!(hyprland_accent("0xAABBCCDD").as_deref(), Some("#bbccdd"));
    assert_eq!(hyprland_accent("no colour"), None);
}

#[test]
fn gtk_and_bare_themes() {
    let t = gtk_theme(Some("Yaru-dark"), None).unwrap();
    assert_eq!(t.colors.accent, "#e95420");
    assert!(t.dark);
    let t = gtk_theme(Some("Adwaita"), Some("default")).unwrap();
    assert_eq!(t.colors.bg, "#fafafa");
    assert!(!t.dark);
    let t = gtk_theme(Some("Breeze"), Some("prefer-dark")).unwrap();
    assert_eq!(t.colors.bg, "#242424");
    assert!(gtk_theme(None, None).is_none());
    assert!(portal_theme("   variant       uint32 1\n").is_some());
    assert!(portal_theme("uint32 0").is_none());
    let x = xresources_colors("! c\nbackground: #101010\nforeground:#eeeeee\nColor4: #0000ff\nbackground: #ffffff\n*foreground: #000000\n").unwrap();
    assert_eq!(x.bg, "#101010");
    assert_eq!(x.text, "#eeeeee");
    assert_eq!(x.accent, "#0000ff");
    assert_eq!(x.muted, "#444444");
    let y = xresources_colors("background: #101010\nforeground: #eeeeee\n").unwrap();
    assert_eq!(y.accent, "#8b5cf6");
    assert!(xresources_colors("background: #101010\n").is_none());
    let d = get_native_theme(None, "#123456".into());
    assert!(d.dark);
    assert_eq!(d.colors.accent, "#3584e4");
    let k = get_native_theme(Some(gtk_theme(Some("Breeze"), None).unwrap()), "#123456".into());
    assert_eq!(k.colors.accent, "#3584e4");
}

#[test]
fn gui_actions() {
    let o = command_outcome(true, " active\n", "err");
    assert!(o.ok);
    assert_eq!(o.detail, "active");
    let o = command_outcome(false, "x", " failed \n");
    assert_eq!(o.detail, "failed");
    assert_eq!(daemon_verb(true), "start");
    assert_eq!(daemon_verb(false), "stop");
    assert_eq!(parse_id_output("1000\n"), Some(1000));
    assert_eq!(parse_id_output("x"), None);
    assert_eq!(
        root_fix_script(1000, 100, "/home/u/.config/proc-priority-daemon/rules.toml"),
        "install -d -o 1000 -g 100 /etc/proc-priority-daemon && cp '/home/u/.config/proc-priority-daemon/rules.toml' /etc/proc-priority-daemon/rules.toml && chown 1000:100 /etc/proc-priority-daemon/rules.toml"
    );
    assert_eq!(root_fix_outcome(true, "", "").detail, "/etc/proc-priority-daemon is now writable");
    assert_eq!(root_fix_outcome(false, "", " ").detail, "pkexec was cancelled or unavailable");
    assert_eq!(root_fix_outcome(false, "", "denied").detail, "denied");
    assert_eq!(settings_path("/home/u/.config/proc-priority-daemon"), "/home/u/.config/proc-priority-daemon/gui-settings.json");
    let s = GuiSettings::default();
    assert!(!s.start_in_tray && !s.minimize_to_tray);
}

#[test]
fn install_button_reports_stdout_or_stderr() {
    let o = install_outcome(true, "  installed as a systemd user service\n", "warn");
    assert!(o.ok);
    assert_eq!(o.detail, "installed as a systemd user service");
    let o = install_outcome(false, "  \n", " cannot copy binary \n");
    assert!(!o.ok);
    assert_eq!(o.detail, "cannot copy binary");
    let o = install_outcome(false, "partial", "boom");
    assert_eq!(o.detail, "partial");
}

#[test]
fn daemon_binary_lookup_order() {
    assert_eq!(pick_daemon(Some("/home/u/.config/x/nicewatch.bin"), Some("/app/bin/nicewatch")), "/home/u/.config/x/nicewatch.bin");
    assert_eq!(pick_daemon(None, Some("/app/bin/nicewatch")), "/app/bin/nicewatch");
    assert_eq!(pick_daemon(None, None), "nicewatch");
}

#[test]
fn daemon_frames_become_webview_events() {
    let (keep, ev) = frame_action(FrameKind::Snapshot);
    assert!(keep);
    assert_eq!(ev, vec![UiEvent::Forward(Channel::Snapshot), UiEvent::Connected]);
    let (keep, ev) = frame_action(FrameKind::Diff);
    assert!(!keep);
    assert_eq!(ev, vec![UiEvent::Forward(Channel::Diff), UiEvent::Connected]);
    assert_eq!(frame_action(FrameKind::PromptGame).1, vec![UiEvent::Forward(Channel::Prompt)]);
    assert_eq!(frame_action(FrameKind::Warn).1, vec![UiEvent::Forward(Channel::Warn)]);
    assert_eq!(
        frame_action(FrameKind::Hello { poll_interval_ms: 2000 }).1,
        vec![UiEvent::ConnectedWithPoll(2000)]
    );
    assert_eq!(channel_name(Channel::Hello), "nw/hello");
    assert_eq!(channel_name(Channel::Snapshot), "nw/snapshot");
    assert_eq!(channel_name(Channel::Diff), "nw/diff");
    assert_eq!(channel_name(Channel::Prompt), "nw/prompt");
    assert_eq!(channel_name(Channel::Warn), "nw/warn");
}

#[test]
fn tray_menu_items() {
    assert_eq!(tray_action("show"), Some(TrayAction::ShowWindow));
    assert_eq!(tray_action("daemon-start"), Some(TrayAction::StartDaemon));
    assert_eq!(tray_action("daemon-stop"), Some(TrayAction::StopDaemon));
    assert_eq!(tray_action("quit"), Some(TrayAction::Quit));
    assert_eq!(tray_action("Quit"), None);
    assert_eq!(tray_action(""), None);
}

fn colors(accent: &str) -> ThemeColors {
    ThemeColors {
        bg: "#101010".into(),
        sidebar: "#111111".into(),
        surface: "#121212".into(),
        surface_hover: "#131313".into(),
        text: "#eeeeee".into(),
        muted: "#777777".into(),
        muted2: "#666666".into(),
        border: "#555555".into(),
        accent: accent.into(),
    }
}

fn palette(c: &ThemeColors) -> [&str; 9] {
    [&c.bg, &c.sidebar, &c.surface, &c.surface_hover, &c.text, &c.muted, &c.muted2, &c.border, &c.accent]
}

#[test]
fn native_theme_keeps_the_found_palette() {
    let t = get_native_theme(Some(NativeTheme { colors: colors("#abcdef"), dark: true }), "#123456".into());
    assert!(t.dark);
    assert_eq!(palette(&t.colors), palette(&colors("#abcdef")));
    let t = get_native_theme(Some(NativeTheme { colors: colors(""), dark: false }), "#123456".into());
    assert!(!t.dark);
    assert_eq!(palette(&t.colors), palette(&colors("#123456")));
    let d = get_native_theme(None, "#123456".into());
    assert_eq!(
        palette(&d.colors),
        ["#1e1e1e", "#252526", "#2d2d30", "#3e3e42", "#d4d4d4", "#808080", "#555555", "#404040", "#3584e4"]
    );
    let p = portal_theme("uint32 1").unwrap();
    assert_eq!(
        palette(&p.colors),
        ["#1e1e1e", "#1a1a1a", "#252526", "#333333", "#ffffff", "#888888", "#555555", "#333333", "#8b5cf6"]
    );
}
