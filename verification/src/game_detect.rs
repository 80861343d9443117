//! Game-detection heuristic.
//!
//! A process looks like a game when it is on the known-games catalog, or
//! when it holds a `/dev/dri` fd AND either carries Steam variables in its
//! environment or owns the fullscreen window.  Desktop-critical processes
//! and Wine-internal helpers are never flagged.  Explicit rules take
//! precedence over these flags (see `rules`).

use vstd::prelude::*;

use crate::proc_scan::ProcEntry;
use crate::text::{
    ascii_lower_byte, contains_bytes, contains_chars, contains_seq, has_prefix, occurs_at,
    occurs_at_bytes, starts_with_chars, str_eq, to_chars,
};

verus! {

/// Fullscreen-state provider, refreshed once per poll and then queried per
/// process.
pub trait FullscreenDetector {
    fn refresh(&self);

    /// Is the active fullscreen window owned by this process?
    fn is_fullscreen(&self, entry: &ProcEntry) -> bool;
}

/// The detector the daemon runs: never does I/O, never reports fullscreen.
#[derive(Debug, Default)]
pub struct NoopFullscreenDetector;

impl FullscreenDetector for NoopFullscreenDetector {
    fn refresh(&self) {
    }

    fn is_fullscreen(&self, _entry: &ProcEntry) -> (r: bool)
        ensures
            !r,
    {
        false
    }
}

/// Desktop-environment/compositor-critical processes: never games, never
/// touched.  Exact comm match, or the `org_kde_` prefix.
pub open spec fn de_critical_spec(name: Seq<char>) -> bool {
    ||| name == "kwin_wayland"@
    ||| name == "kwin_x11"@
    ||| name == "kwin_wayland_wrapper"@
    ||| name == "plasmashell"@
    ||| name == "kded6"@
    ||| name == "kded5"@
    ||| name == "kglobalaccel"@
    ||| name == "ksmserver"@
    ||| name == "kscreenlocker"@
    ||| name == "krunner"@
    ||| name == "Xwayland"@
    ||| name == "xdg-desktop-portal"@
    ||| name == "xdg-desktop-portal-kde"@
    ||| has_prefix(name, "org_kde_"@)
}

pub fn is_de_critical(name: &str) -> (r: bool)
    ensures
        r == de_critical_spec(name@),
{
    let n = to_chars(name);
    let p = to_chars("org_kde_");
    str_eq(name, "kwin_wayland") || str_eq(name, "kwin_x11") || str_eq(name, "kwin_wayland_wrapper")
        || str_eq(name, "plasmashell") || str_eq(name, "kded6") || str_eq(name, "kded5")
        || str_eq(name, "kglobalaccel") || str_eq(name, "ksmserver") || str_eq(
        name,
        "kscreenlocker",
    ) || str_eq(name, "krunner") || str_eq(name, "Xwayland") || str_eq(name, "xdg-desktop-portal")
        || str_eq(name, "xdg-desktop-portal-kde") || starts_with_chars(&n, &p)
}

/// Our own binaries (the GUI holds a `/dev/dri` fd for rendering).
pub open spec fn self_binary_spec(name: Seq<char>) -> bool {
    name == "nicewatch"@ || name == "nicewatch-gui"@
}

pub fn is_self_binary(name: &str) -> (r: bool)
    ensures
        r == self_binary_spec(name@),
{
    str_eq(name, "nicewatch") || str_eq(name, "nicewatch-gui")
}

#[derive(Debug, Clone, Copy, PartialEq, Eq, Structural)]
pub struct GameFlags {
    pub steam_env: bool,
    pub dri_fd: bool,
    pub fullscreen: bool,
    /// Matched the known-games catalog; set by the caller.
    pub known: bool,
}

pub open spec fn is_game_spec(f: GameFlags) -> bool {
    f.known || (f.dri_fd && (f.steam_env || f.fullscreen))
}

impl GameFlags {
    /// Known, or rendering via DRM with Steam env or fullscreen.
    pub fn is_game(&self) -> (r: bool)
        ensures
            r == is_game_spec(*self),
    {
        self.known || (self.dri_fd && (self.steam_env || self.fullscreen))
    }

    /// All signals off.
    pub open spec fn neutral() -> GameFlags {
        GameFlags { steam_env: false, dri_fd: false, fullscreen: false, known: false }
    }
}

/// The bytes of an ASCII text.
pub open spec fn ascii_bytes(s: Seq<char>) -> Seq<u8> {
    s.map_values(|c: char| c as u8)
}

pub fn ascii_bytes_of(s: &str) -> (r: Vec<u8>)
    ensures
        r@ == ascii_bytes(s@),
{
    let v = to_chars(s);
    let mut r: Vec<u8> = Vec::new();
    let mut i: usize = 0;
    while i < v.len()
        invariant
            i <= v.len(),
            v@ == s@,
            r@ == ascii_bytes(v@.take(i as int)),
        decreases v.len() - i,
    {
        r.push(v[i] as u8);
        proof {
            assert(ascii_bytes(v@.take(i + 1)) =~= ascii_bytes(v@.take(i as int)).push(v@[i as int] as u8));
        }
        i = i + 1;
    }
    proof {
        assert(v@.take(v.len() as int) == v@);
    }
    r
}

pub open spec fn lower_bytes(s: Seq<u8>) -> Seq<u8> {
    s.map_values(|b: u8| ascii_lower_byte(b))
}

pub fn lower_ascii_bytes(s: &Vec<u8>) -> (r: Vec<u8>)
    ensures
        r@ == lower_bytes(s@),
{
    let mut r: Vec<u8> = Vec::new();
    let mut i: usize = 0;
    while i < s.len()
        invariant
            i <= s.len(),
            r@ == lower_bytes(s@.take(i as int)),
        decreases s.len() - i,
    {
        let b = s[i];
        let l = if 0x41 <= b && b <= 0x5a { b + 32 } else { b };
        r.push(l);
        proof {
            assert(lower_bytes(s@.take(i + 1)) =~= lower_bytes(s@.take(i as int)).push(l));
        }
        i = i + 1;
    }
    proof {
        assert(s@.take(s.len() as int) == s@);
    }
    r
}

/// Wine-internal helpers (running from a prefix's `drive_c/`, or with a
/// `\windows\system32\` or pressure-vessel argv) are never games.
pub open spec fn wine_internal_spec(e: ProcEntry) -> bool {
    ||| (e.exe matches Some(x) && contains_seq(x@, "/drive_c/"@))
    ||| (e.cmdline matches Some(c) && (contains_seq(
        lower_bytes(c@),
        ascii_bytes("\\windows\\system32\\"@),
    ) || contains_seq(lower_bytes(c@), ascii_bytes("pressure-vessel"@))))
}

pub fn is_wine_internal(entry: &ProcEntry) -> (r: bool)
    ensures
        r == wine_internal_spec(*entry),
{
    match &entry.exe {
        Some(x) => {
            let xv = to_chars(x.as_str());
            let pat = to_chars("/drive_c/");
            if contains_chars(&xv, &pat) {
                return true;
            }
        },
        None => {},
    }
    match &entry.cmdline {
        Some(c) => {
            let lower = lower_ascii_bytes(c);
            let sys32 = ascii_bytes_of("\\windows\\system32\\");
            let pv = ascii_bytes_of("pressure-vessel");
            contains_bytes(&lower, &sys32) || contains_bytes(&lower, &pv)
        },
        None => false,
    }
}

/// Position `i` starts a NUL-separated entry of `env`.
pub open spec fn entry_start(env: Seq<u8>, i: int) -> bool {
    i == 0 || (0 < i <= env.len() && env[i - 1] == 0)
}

/// An entry of `env` starting at `i` begins with one of the Steam
/// variable names (`STEAM_COMPAT_DATA_PATH=`, `SteamAppId=`,
/// `SteamGameId=`).
pub open spec fn steam_entry_at(env: Seq<u8>, i: int) -> bool {
    &&& entry_start(env, i)
    &&& {
        ||| occurs_at(env, ascii_bytes("STEAM_COMPAT_DATA_PATH="@), i)
        ||| occurs_at(env, ascii_bytes("SteamAppId="@), i)
        ||| occurs_at(env, ascii_bytes("SteamGameId="@), i)
    }
}

/// Some entry of the NUL-separated environment block starts with one of
/// the Steam prefixes.
pub open spec fn environ_steam_spec(environ: Option<Vec<u8>>) -> bool {
    match environ {
        Some(env) => exists|i: int| #[trigger] steam_entry_at(env@, i),
        None => false,
    }
}

pub fn environ_has_steam(environ: &Option<Vec<u8>>) -> (r: bool)
    ensures
        r == environ_steam_spec(*environ),
{
    let env = match environ {
        Some(e) => e,
        None => return false,
    };
    let p0 = ascii_bytes_of("STEAM_COMPAT_DATA_PATH=");
    let p1 = ascii_bytes_of("SteamAppId=");
    let p2 = ascii_bytes_of("SteamGameId=");
    let mut i: usize = 0;
    while i <= env.len()
        invariant
            p0@ == ascii_bytes("STEAM_COMPAT_DATA_PATH="@),
            p1@ == ascii_bytes("SteamAppId="@),
            p2@ == ascii_bytes("SteamGameId="@),
            environ_steam_spec(*environ) == exists|q: int| #[trigger] steam_entry_at(env@, q),
            forall|j: int| 0 <= j < i ==> !#[trigger] steam_entry_at(env@, j),
        decreases env.len() + 1 - i,
    {
        let start = i == 0 || env[i - 1] == 0;
        if start {
            let hit = occurs_at_bytes(env, &p0, i) || occurs_at_bytes(env, &p1, i)
                || occurs_at_bytes(env, &p2, i);
            if hit {
                proof {
                    assert(steam_entry_at(env@, i as int));
                }
                return true;
            }
        }
        proof {
            assert(!steam_entry_at(env@, i as int));
        }
        if i == env.len() {
            proof {
                assert forall|j: int| !#[trigger] steam_entry_at(env@, j) by {
                    if j <= i {
                    }
                }
            }
            return false;
        }
        i = i + 1;
    }
    false
}

/// The flags `detect_game` computes for an entry, given what the
/// fullscreen backend answered for it.
pub open spec fn detected_flags(e: ProcEntry, fullscreen: bool) -> GameFlags {
    if de_critical_spec(e.name@) || wine_internal_spec(e) {
        GameFlags::neutral()
    } else {
        GameFlags {
            steam_env: environ_steam_spec(e.environ),
            dri_fd: e.has_dri_fd,
            fullscreen: fullscreen,
            known: false,
        }
    }
}

/// The flags for an entry once the fullscreen answer is known.
pub fn flags_for(entry: &ProcEntry, fullscreen: bool) -> (f: GameFlags)
    ensures
        f == detected_flags(*entry, fullscreen),
{
    if is_de_critical(entry.name.as_str()) || is_wine_internal(entry) {
        return GameFlags { steam_env: false, dri_fd: false, fullscreen: false, known: false };
    }
    GameFlags {
        steam_env: environ_has_steam(&entry.environ),
        dri_fd: entry.has_dri_fd,
        fullscreen,
        known: false,
    }
}

/// Compute the heuristic flags for one process.  The fullscreen backend is
/// only asked about processes that are not excluded up front.
pub fn detect_game<F: FullscreenDetector>(entry: &ProcEntry, fullscreen: &F) -> (f: GameFlags)
    ensures
        de_critical_spec(entry.name@) || wine_internal_spec(*entry) ==> f == GameFlags::neutral(),
        exists|fs: bool| f == detected_flags(*entry, fs),
        !(de_critical_spec(entry.name@) || wine_internal_spec(*entry)) ==> call_ensures(
            F::is_fullscreen,
            (fullscreen, entry),
            f.fullscreen,
        ),
{
    if is_de_critical(entry.name.as_str()) || is_wine_internal(entry) {
        let f = GameFlags { steam_env: false, dri_fd: false, fullscreen: false, known: false };
        proof {
            assert(f == detected_flags(*entry, false));
        }
        return f;
    }
    let fs = fullscreen.is_fullscreen(entry);
    flags_for(entry, fs)
}

/// The daemon's no-op detector never reports a process as fullscreen, so
/// through `detect_game` it never sets the fullscreen flag.
pub proof fn lemma_noop_never_fullscreen(d: NoopFullscreenDetector, e: ProcEntry, b: bool)
    requires
        call_ensures(NoopFullscreenDetector::is_fullscreen, (&d, &e), b),
    ensures
        !b,
{
}

/// Flags with every signal forced off.
pub fn neutral_flags() -> (f: GameFlags)
    ensures
        f == GameFlags::neutral(),
{
    GameFlags { steam_env: false, dri_fd: false, fullscreen: false, known: false }
}

/// Whether a process needs a fresh heuristic run this poll: not for our own
/// binaries nor for processes the daemon may not touch, and not when cached
/// flags exist for a name that is already decided.
pub open spec fn needs_detection_spec(ours: bool, untouchable: bool, cached: Option<GameFlags>, undecided: bool) -> bool {
    !(ours || untouchable) && !(cached is Some && !undecided)
}

pub fn needs_detection(ours: bool, untouchable: bool, cached: Option<GameFlags>, undecided: bool) -> (r: bool)
    ensures
        r == needs_detection_spec(ours, untouchable, cached, undecided),
{
    !(ours || untouchable) && !(cached.is_some() && !undecided)
}

/// The flags a process is judged by this poll: neutral for our own binaries
/// and untouchable processes; otherwise the cached flags of a decided name,
/// else the fresh ones (`detected`), with the catalog verdict
/// (`known_entry`) filled in unless the process is desktop-critical.
pub open spec fn flags_choice_spec(
    ours: bool,
    untouchable: bool,
    cached: Option<GameFlags>,
    undecided: bool,
    detected: GameFlags,
    de_critical: bool,
    known_entry: bool,
) -> GameFlags {
    if ours || untouchable {
        GameFlags::neutral()
    } else {
        let f = match cached {
            Some(c) => if undecided {
                detected
            } else {
                c
            },
            None => detected,
        };
        if de_critical {
            f
        } else {
            GameFlags { known: known_entry, ..f }
        }
    }
}

pub fn flags_choice(
    ours: bool,
    untouchable: bool,
    cached: Option<GameFlags>,
    undecided: bool,
    detected: GameFlags,
    de_critical: bool,
    known_entry: bool,
) -> (f: GameFlags)
    ensures
        f == flags_choice_spec(ours, untouchable, cached, undecided, detected, de_critical, known_entry),
{
    if ours || untouchable {
        return neutral_flags();
    }
    let f = match cached {
        Some(c) => if undecided {
            detected
        } else {
            c
        },
        None => detected,
    };
    if de_critical {
        f
    } else {
        GameFlags { known: known_entry, ..f }
    }
}

/// Desktop-critical and Wine-internal processes are never game candidates,
/// whatever the fullscreen backend says.
pub proof fn lemma_excluded_never_game(e: ProcEntry, fullscreen: bool)
    requires
        de_critical_spec(e.name@) || wine_internal_spec(e),
    ensures
        !is_game_spec(detected_flags(e, fullscreen)),
        detected_flags(e, fullscreen) == GameFlags::neutral(),
{
}

/// Without a DRM fd, neither Steam variables nor fullscreen make a game.
pub proof fn lemma_no_dri_no_game(e: ProcEntry, fullscreen: bool)
    requires
        !e.has_dri_fd,
    ensures
        !is_game_spec(detected_flags(e, fullscreen)),
{
}

/// A DRM fd together with Steam variables makes a game, unless the
/// process is excluded.
pub proof fn lemma_dri_and_steam_is_game(e: ProcEntry, fullscreen: bool)
    requires
        e.has_dri_fd,
        environ_steam_spec(e.environ),
        !de_critical_spec(e.name@),
        !wine_internal_spec(e),
    ensures
        is_game_spec(detected_flags(e, fullscreen)),
{
}

} // verus!
