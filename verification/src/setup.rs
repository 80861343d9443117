//! Service install text and locations: the systemd unit, the XDG autostart
//! entry, where they live, and the status / uninstall reports.  Creating,
//! removing and probing the files, and running `systemctl`, is the
//! caller's part.

use vstd::prelude::*;

use crate::common::{path_join, path_join_spec};
use crate::text::cat;

verus! {

/// Where `install` puts the daemon.
#[derive(Debug, Clone, Copy, PartialEq, Eq, Structural)]
pub enum Backend {
    /// A systemd user unit.
    UserUnit,
    /// A system-wide unit under `/etc/systemd/system`.
    SystemUnit,
    /// An XDG autostart entry.
    Autostart,
}

pub open spec fn backend_spec(systemd_user: bool, root: bool, system_unit_failed: bool) -> Backend {
    if systemd_user {
        Backend::UserUnit
    } else if root && !system_unit_failed {
        Backend::SystemUnit
    } else {
        Backend::Autostart
    }
}

/// The install backend: a user unit where user services run, else a system
/// unit when running as root (falling back to autostart once writing it
/// failed), else an autostart entry.
pub fn install_backend(systemd_user: bool, root: bool, system_unit_failed: bool) -> (b: Backend)
    ensures
        b == backend_spec(systemd_user, root, system_unit_failed),
{
    if systemd_user {
        Backend::UserUnit
    } else if root && !system_unit_failed {
        Backend::SystemUnit
    } else {
        Backend::Autostart
    }
}

/// The `ExecStart=` command of the unit: system scope uses absolute paths;
/// user scope also puts the socket into the runtime dir (`%t`).
pub open spec fn exec_line(binary: Seq<char>, system: bool, root_cfg: Seq<char>, local_cfg: Seq<char>) -> Seq<char> {
    let base = binary + " --root-config "@ + root_cfg + " --local-config "@ + local_cfg;
    if system {
        base
    } else {
        base + " --socket %t/nicewatch.sock"@
    }
}

/// The systemd unit for the daemon.
pub open spec fn unit_spec(binary: Seq<char>, system: bool, root_cfg: Seq<char>, local_cfg: Seq<char>) -> Seq<char> {
    "[Unit]\nDescription=Nicewatch CPU/IO priority daemon\nAfter=graphical-session.target\nWants=graphical-session.target\n\n[Service]\nType=simple\nExecStart="@
        + exec_line(binary, system, root_cfg, local_cfg)
        + "\nRestart=on-failure\nRestartSec=3\n\n[Install]\nWantedBy=default.target\n"@
}

pub fn unit_contents(binary: &str, system: bool, root_cfg: &str, local_cfg: &str) -> (r: String)
    ensures
        r@ == unit_spec(binary@, system, root_cfg@, local_cfg@),
{
    let a = cat(binary, " --root-config ");
    let b = cat(a.as_str(), root_cfg);
    let c = cat(b.as_str(), " --local-config ");
    let d = cat(c.as_str(), local_cfg);
    let exec = if system {
        d
    } else {
        cat(d.as_str(), " --socket %t/nicewatch.sock")
    };
    let head = cat(
        "[Unit]\nDescription=Nicewatch CPU/IO priority daemon\nAfter=graphical-session.target\nWants=graphical-session.target\n\n[Service]\nType=simple\nExecStart=",
        exec.as_str(),
    );
    cat(head.as_str(), "\nRestart=on-failure\nRestartSec=3\n\n[Install]\nWantedBy=default.target\n")
}

/// The XDG autostart entry for the daemon.
pub open spec fn autostart_spec(binary: Seq<char>) -> Seq<char> {
    "[Desktop Entry]\nType=Application\nName=Nicewatch\nComment=CPU/IO scheduling priority daemon\nExec="@
        + binary + "\nX-GNOME-Autostart-enabled=true\n"@
}

pub fn autostart_contents(binary: &str) -> (r: String)
    ensures
        r@ == autostart_spec(binary@),
{
    let a = cat(
        "[Desktop Entry]\nType=Application\nName=Nicewatch\nComment=CPU/IO scheduling priority daemon\nExec=",
        binary,
    );
    cat(a.as_str(), "\nX-GNOME-Autostart-enabled=true\n")
}

/// The user's config base: `$XDG_CONFIG_HOME` when set, else
/// `$HOME/.config`.
pub open spec fn config_base_spec(xdg_config_home: Option<Seq<char>>, home: Option<Seq<char>>) -> Option<Seq<char>> {
    match xdg_config_home {
        Some(x) => Some(x),
        None => match home {
            Some(h) => Some(path_join_spec(h, ".config"@)),
            None => None,
        },
    }
}

pub open spec fn opt_view(o: Option<&str>) -> Option<Seq<char>> {
    match o {
        Some(s) => Some(s@),
        None => None,
    }
}

pub fn config_base(xdg_config_home: Option<&str>, home: Option<&str>) -> (r: Option<String>)
    ensures
        crate::common::opt_chars(r) == config_base_spec(opt_view(xdg_config_home), opt_view(home)),
{
    match xdg_config_home {
        Some(x) => Some(x.to_owned()),
        None => match home {
            Some(h) => Some(path_join(h, ".config")),
            None => None,
        },
    }
}

/// `<config base>/systemd/user`.
pub fn systemd_user_dir(xdg_config_home: Option<&str>, home: Option<&str>) -> (r: Option<String>)
    ensures
        crate::common::opt_chars(r) == (match config_base_spec(opt_view(xdg_config_home), opt_view(home)) {
            Some(b) => Some(path_join_spec(path_join_spec(b, "systemd"@), "user"@)),
            None => None,
        }),
{
    match config_base(xdg_config_home, home) {
        Some(b) => {
            let s = path_join(b.as_str(), "systemd");
            Some(path_join(s.as_str(), "user"))
        },
        None => None,
    }
}

/// `<config base>/autostart`.
pub fn autostart_dir(xdg_config_home: Option<&str>, home: Option<&str>) -> (r: Option<String>)
    ensures
        crate::common::opt_chars(r) == (match config_base_spec(opt_view(xdg_config_home), opt_view(home)) {
            Some(b) => Some(path_join_spec(b, "autostart"@)),
            None => None,
        }),
{
    match config_base(xdg_config_home, home) {
        Some(b) => Some(path_join(b.as_str(), "autostart")),
        None => None,
    }
}

/// The unit file inside the systemd user dir.
pub fn unit_file(dir: &str) -> (r: String)
    ensures
        r@ == path_join_spec(dir@, "nicewatch.service"@),
{
    path_join(dir, "nicewatch.service")
}

/// The entry inside the autostart dir.
pub fn autostart_entry(dir: &str) -> (r: String)
    ensures
        r@ == path_join_spec(dir@, "nicewatch.desktop"@),
{
    path_join(dir, "nicewatch.desktop")
}

/// Lines joined by newlines.
pub open spec fn join_lines(lines: Seq<Seq<char>>) -> Seq<char>
    decreases lines.len(),
{
    if lines.len() == 0 {
        seq![]
    } else if lines.len() == 1 {
        lines[0]
    } else {
        join_lines(lines.drop_last()) + "\n"@ + lines.last()
    }
}

/// The install-state report: which init is in use, and where the unit and
/// the autostart entry live and whether they exist.
pub open spec fn status_lines(
    systemd_user: bool,
    unit: Option<(Seq<char>, bool)>,
    autostart: Option<(Seq<char>, bool)>,
) -> Seq<Seq<char>> {
    let init: Seq<Seq<char>> = if systemd_user {
        seq!["init: systemd (user services available)"@] + match unit {
            Some((p, e)) => seq![
                "unit: "@ + p + " ("@ + (if e {
                    "installed"@
                } else {
                    "not installed"@
                }) + ")"@,
            ],
            None => seq![],
        }
    } else {
        seq!["init: not systemd (XDG autostart mode)"@]
    };
    init + match autostart {
        Some((p, e)) => seq![
            "autostart: "@ + p + " ("@ + (if e {
                "installed"@
            } else {
                "absent"@
            }) + ")"@,
        ],
        None => seq![],
    }
}

fn item_line(head: &str, path: &str, state: &str) -> (r: String)
    ensures
        r@ == head@ + path@ + " ("@ + state@ + ")"@,
{
    let a = cat(head, path);
    let b = cat(a.as_str(), " (");
    let c = cat(b.as_str(), state);
    cat(c.as_str(), ")")
}

fn append_line(out: &mut String, line: &str, first: bool)
    ensures
        final(out)@ == (if first {
            line@
        } else {
            old(out)@ + "\n"@ + line@
        }),
{
    if first {
        *out = line.to_owned();
    } else {
        let a = cat(out.as_str(), "\n");
        *out = cat(a.as_str(), line);
    }
}

/// Report which service backend is in use and where its files are
/// (`unit` / `autostart`: the file path and whether it exists, when the
/// directory is known).
pub fn status(systemd_user: bool, unit: Option<(&str, bool)>, autostart: Option<(&str, bool)>) -> (r: String)
    ensures
        r@ == join_lines(
            status_lines(
                systemd_user,
                match unit {
                    Some((p, e)) => Some((p@, e)),
                    None => None,
                },
                match autostart {
                    Some((p, e)) => Some((p@, e)),
                    None => None,
                },
            ),
        ),
{
    let ghost u = match unit {
        Some((p, e)) => Some((p@, e)),
        None => None,
    };
    let ghost a = match autostart {
        Some((p, e)) => Some((p@, e)),
        None => None,
    };
    let mut out = String::new();
    let ghost mut lines: Seq<Seq<char>> = seq![];
    if systemd_user {
        append_line(&mut out, "init: systemd (user services available)", true);
        proof {
            lines = seq!["init: systemd (user services available)"@];
            assert(out@ == join_lines(lines));
        }
        match unit {
            Some((p, e)) => {
                let l = item_line("unit: ", p, if e {
                    "installed"
                } else {
                    "not installed"
                });
                append_line(&mut out, l.as_str(), false);
                proof {
                    assert(lines.push(l@).drop_last() =~= lines);
                    lines = lines.push(l@);
                    assert(out@ == join_lines(lines));
                }
            },
            None => {},
        }
    } else {
        append_line(&mut out, "init: not systemd (XDG autostart mode)", true);
        proof {
            lines = seq!["init: not systemd (XDG autostart mode)"@];
            assert(out@ == join_lines(lines));
        }
    }
    proof {
        assert(out@ == join_lines(lines));
        assert(lines.len() >= 1);
    }
    match autostart {
        Some((p, e)) => {
            let l = item_line("autostart: ", p, if e {
                "installed"
            } else {
                "absent"
            });
            append_line(&mut out, l.as_str(), false);
            proof {
                assert(lines.push(l@).drop_last() =~= lines);
                lines = lines.push(l@);
            }
        },
        None => {},
    }
    proof {
        assert(lines =~= status_lines(systemd_user, u, a));
    }
    out
}

/// The uninstall report: what was removed, or that nothing was installed.
pub open spec fn uninstall_report(removed: Seq<Seq<char>>) -> Seq<char>
    decreases removed.len(),
{
    if removed.len() == 0 {
        "nothing was installed \u{2014} nothing to uninstall"@
    } else {
        "removed: "@ + join_commas(removed)
    }
}

/// Items joined by `, `.
pub open spec fn join_commas(items: Seq<Seq<char>>) -> Seq<char>
    decreases items.len(),
{
    if items.len() == 0 {
        seq![]
    } else if items.len() == 1 {
        items[0]
    } else {
        join_commas(items.drop_last()) + ", "@ + items.last()
    }
}

pub fn uninstall_summary(removed: &Vec<String>) -> (r: String)
    ensures
        r@ == uninstall_report(removed@.map_values(|s: String| s@)),
{
    let ghost items = removed@.map_values(|s: String| s@);
    if removed.len() == 0 {
        return "nothing was installed \u{2014} nothing to uninstall".to_owned();
    }
    let mut joined = String::new();
    let mut i: usize = 0;
    proof {
        assert(items.take(0) =~= seq![]);
    }
    while i < removed.len()
        invariant
            i <= removed@.len(),
            items == removed@.map_values(|s: String| s@),
            joined@ == join_commas(items.take(i as int)),
        decreases removed.len() - i,
    {
        proof {
            assert(items.take(i + 1).drop_last() =~= items.take(i as int));
            assert(items.take(i + 1).last() == removed@[i as int]@);
        }
        if i == 0 {
            joined = removed[i].clone();
            proof {
                assert(items.take(1) =~= seq![removed@[0]@]);
            }
        } else {
            let a = cat(joined.as_str(), ", ");
            joined = cat(a.as_str(), removed[i].as_str());
        }
        i = i + 1;
    }
    proof {
        assert(items.take(removed@.len() as int) =~= items);
    }
    cat("removed: ", joined.as_str())
}

} // verus!
