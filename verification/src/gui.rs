//! Decisions behind the GUI: how `systemctl`, the daemon's `install` and
//! the `pkexec` root-config fix are invoked and what their outcome reads
//! as, which events a daemon frame turns into, and what a tray menu item
//! does.  Running commands, sockets and windows is the caller's part.

use vstd::prelude::*;

use crate::common::{APP_NAME, EVT_DIFF, EVT_HELLO, EVT_PROMPT, EVT_SNAPSHOT, EVT_WARN};
use crate::text::{cat, decimal, decimal_chars, from_chars, parse_u32, parse_u32_spec, str_eq, string_of, to_chars, trim, trim_chars, trim_str};

verus! {

/// What a one-click action reports to the GUI.
#[derive(Debug)]
pub struct Outcome {
    pub ok: bool,
    pub detail: String,
}

/// A command's outcome: success shows its trimmed stdout, failure its
/// trimmed stderr.
pub fn command_outcome(success: bool, stdout: &str, stderr: &str) -> (o: Outcome)
    ensures
        o.ok == success,
        o.detail@ == (if success {
            trim(stdout@)
        } else {
            trim(stderr@)
        }),
{
    Outcome { ok: success, detail: if success {
        trim_str(stdout)
    } else {
        trim_str(stderr)
    } }
}

/// The `systemctl --user` verb for starting or stopping the daemon.
pub fn daemon_verb(running: bool) -> (v: &'static str)
    ensures
        v@ == (if running {
            "start"@
        } else {
            "stop"@
        }),
{
    if running {
        "start"
    } else {
        "stop"
    }
}

/// A number printed by `id -u` / `id -g`.
pub fn parse_id_output(out: &str) -> (r: Option<u32>)
    ensures
        r == parse_u32_spec(trim(out@)),
{
    parse_u32(&trim_chars(&to_chars(out)))
}

/// The shell script `pkexec sh -c` runs to hand the root config dir to the
/// user: create it owned by uid/gid, copy the local config in, chown it.
pub open spec fn root_fix_spec(uid: u32, gid: u32, local: Seq<char>) -> Seq<char> {
    let u = decimal(uid as nat);
    let g = decimal(gid as nat);
    "install -d -o "@ + u + " -g "@ + g + " /etc/proc-priority-daemon && cp '"@ + local
        + "' /etc/proc-priority-daemon/rules.toml && chown "@ + u + ":"@ + g
        + " /etc/proc-priority-daemon/rules.toml"@
}

pub fn root_fix_script(uid: u32, gid: u32, local: &str) -> (r: String)
    ensures
        r@ == root_fix_spec(uid, gid, local@),
{
    let u = from_chars(&decimal_chars(uid as u64));
    let g = from_chars(&decimal_chars(gid as u64));
    let a = cat("install -d -o ", u.as_str());
    let b = cat(a.as_str(), " -g ");
    let c = cat(b.as_str(), g.as_str());
    let d = cat(c.as_str(), " /etc/proc-priority-daemon && cp '");
    let e = cat(d.as_str(), local);
    let f = cat(e.as_str(), "' /etc/proc-priority-daemon/rules.toml && chown ");
    let h = cat(f.as_str(), u.as_str());
    let i = cat(h.as_str(), ":");
    let j = cat(i.as_str(), g.as_str());
    cat(j.as_str(), " /etc/proc-priority-daemon/rules.toml")
}

/// What the root-config fix reports: its output, or a default sentence
/// when the command printed nothing.
pub fn root_fix_outcome(success: bool, stdout: &str, stderr: &str) -> (o: Outcome)
    ensures
        o.ok == success,
        o.detail@ == (if success {
            if trim(stdout@).len() == 0 {
                "/etc/proc-priority-daemon is now writable"@
            } else {
                trim(stdout@)
            }
        } else if trim(stderr@).len() == 0 {
            "pkexec was cancelled or unavailable"@
        } else {
            trim(stderr@)
        }),
{
    let out = trim_str(stdout);
    let err = trim_str(stderr);
    let detail = if success {
        if out.as_str().unicode_len() == 0 {
            "/etc/proc-priority-daemon is now writable".to_owned()
        } else {
            out
        }
    } else if err.as_str().unicode_len() == 0 {
        "pkexec was cancelled or unavailable".to_owned()
    } else {
        err
    };
    Outcome { ok: success, detail }
}

/// What the install button reports: the install command's trimmed stdout,
/// or its trimmed stderr when stdout is empty.
pub fn install_outcome(success: bool, stdout: &str, stderr: &str) -> (o: Outcome)
    ensures
        o.ok == success,
        o.detail@ == (if trim(stdout@).len() > 0 {
            trim(stdout@)
        } else {
            trim(stderr@)
        }),
{
    let out = trim_str(stdout);
    let detail = if out.as_str().unicode_len() > 0 {
        out
    } else {
        trim_str(stderr)
    };
    Outcome { ok: success, detail }
}

/// The daemon binary the install button runs: the per-user install, else
/// the one bundled beside the GUI, else `nicewatch` from `PATH` (a
/// candidate is given only when it exists).
pub fn pick_daemon(installed: Option<&str>, bundled: Option<&str>) -> (r: String)
    ensures
        r@ == (match installed {
            Some(i) => i@,
            None => match bundled {
                Some(b) => b@,
                None => APP_NAME@,
            },
        }),
{
    match installed {
        Some(i) => string_of(i),
        None => match bundled {
            Some(b) => string_of(b),
            None => string_of(APP_NAME),
        },
    }
}

/// A frame from the daemon, by kind; its payload stays with the caller.
#[derive(Debug, Clone, Copy, PartialEq, Eq, Structural)]
pub enum FrameKind {
    Hello { poll_interval_ms: u64 },
    Snapshot,
    Diff,
    PromptGame,
    Warn,
}

/// The webview event channels.
#[derive(Debug, Clone, Copy, PartialEq, Eq, Structural)]
pub enum Channel {
    Hello,
    Snapshot,
    Diff,
    Prompt,
    Warn,
}

pub open spec fn channel_spec(c: Channel) -> Seq<char> {
    match c {
        Channel::Hello => EVT_HELLO@,
        Channel::Snapshot => EVT_SNAPSHOT@,
        Channel::Diff => EVT_DIFF@,
        Channel::Prompt => EVT_PROMPT@,
        Channel::Warn => EVT_WARN@,
    }
}

/// The event name of a channel.
pub fn channel_name(c: Channel) -> (r: &'static str)
    ensures
        r@ == channel_spec(c),
{
    match c {
        Channel::Hello => EVT_HELLO,
        Channel::Snapshot => EVT_SNAPSHOT,
        Channel::Diff => EVT_DIFF,
        Channel::Prompt => EVT_PROMPT,
        Channel::Warn => EVT_WARN,
    }
}

/// An event the GUI emits to its webview.
#[derive(Debug, Clone, Copy, PartialEq, Eq, Structural)]
pub enum UiEvent {
    /// The frame's payload on a channel.
    Forward(Channel),
    /// The `connected: true` heartbeat on the hello channel.
    Connected,
    /// `connected: true` with the daemon's poll interval.
    ConnectedWithPoll(u64),
}

/// What the GUI does with one daemon frame: whether the frame becomes the
/// latest snapshot, and the events it emits.  Snapshots and diffs are
/// forwarded and followed by a heartbeat, so that a lost first "connected"
/// event heals within one poll.
pub open spec fn frame_events(kind: FrameKind) -> Seq<UiEvent> {
    match kind {
        FrameKind::Snapshot => seq![UiEvent::Forward(Channel::Snapshot), UiEvent::Connected],
        FrameKind::Diff => seq![UiEvent::Forward(Channel::Diff), UiEvent::Connected],
        FrameKind::PromptGame => seq![UiEvent::Forward(Channel::Prompt)],
        FrameKind::Warn => seq![UiEvent::Forward(Channel::Warn)],
        FrameKind::Hello { poll_interval_ms } => seq![UiEvent::ConnectedWithPoll(poll_interval_ms)],
    }
}

/// The GUI's reaction to one daemon frame: true when the frame is kept as
/// the latest snapshot, and the events it emits.
pub fn frame_action(kind: FrameKind) -> (r: (bool, Vec<UiEvent>))
    ensures
        r.0 == (kind is Snapshot),
        r.1@ == frame_events(kind),
{
    let mut v: Vec<UiEvent> = Vec::new();
    let mut keep = false;
    match kind {
        FrameKind::Snapshot => {
            keep = true;
            v.push(UiEvent::Forward(Channel::Snapshot));
            v.push(UiEvent::Connected);
        },
        FrameKind::Diff => {
            v.push(UiEvent::Forward(Channel::Diff));
            v.push(UiEvent::Connected);
        },
        FrameKind::PromptGame => {
            v.push(UiEvent::Forward(Channel::Prompt));
        },
        FrameKind::Warn => {
            v.push(UiEvent::Forward(Channel::Warn));
        },
        FrameKind::Hello { poll_interval_ms } => {
            v.push(UiEvent::ConnectedWithPoll(poll_interval_ms));
        },
    }
    proof {
        assert(v@ =~= frame_events(kind));
    }
    (keep, v)
}

/// What a tray menu item does.
#[derive(Debug, Clone, Copy, PartialEq, Eq, Structural)]
pub enum TrayAction {
    ShowWindow,
    StartDaemon,
    StopDaemon,
    Quit,
}

pub open spec fn tray_spec(id: Seq<char>) -> Option<TrayAction> {
    if id == "show"@ {
        Some(TrayAction::ShowWindow)
    } else if id == "daemon-start"@ {
        Some(TrayAction::StartDaemon)
    } else if id == "daemon-stop"@ {
        Some(TrayAction::StopDaemon)
    } else if id == "quit"@ {
        Some(TrayAction::Quit)
    } else {
        None
    }
}

/// The action of a tray menu item by its id; unknown ids do nothing.
pub fn tray_action(id: &str) -> (r: Option<TrayAction>)
    ensures
        r == tray_spec(id@),
{
    if str_eq(id, "show") {
        Some(TrayAction::ShowWindow)
    } else if str_eq(id, "daemon-start") {
        Some(TrayAction::StartDaemon)
    } else if str_eq(id, "daemon-stop") {
        Some(TrayAction::StopDaemon)
    } else if str_eq(id, "quit") {
        Some(TrayAction::Quit)
    } else {
        None
    }
}

} // verus!
