//! Dual-config precedence and sync.
//!
//! Two files hold the rules: the root file (authoritative, "live") and the
//! local file (staging copy, where GUI-set rules land first).
//!
//!   * On start and on every change of either file the mtimes decide: a
//!     local file newer than the root file is a pending update, applied in
//!     memory at once and promoted over the root file only after a debounce
//!     window in which the local file did not change again.
//!   * When the root file cannot be written the daemon says so and keeps
//!     operating from the local copy.
//!   * Writes of our own are recognized by their mtime, so that the change
//!     watcher does not loop back on them.
//!
//! This module holds the decisions; the caller reads and writes the files
//! and hands the outcomes back.  Times are milliseconds of the caller's
//! monotonic clock; file mtimes are nanoseconds since the epoch.

use vstd::prelude::*;

use crate::common::{
    AppConfig, CgroupLimits, IoniceClass, Rule, RuleMap, Tier, preset_rule, tier_preset,
};
use crate::paths::{path_eq, paths_equal};
use crate::text::cat;

verus! {

/// How long the local file must stay untouched after a change before it is
/// promoted over the root file (ms).
pub const DEFAULT_PROMOTE_DEBOUNCE_MS: u64 = 30000;

/// The shortest promote debounce accepted (ms).
pub const MIN_PROMOTE_DEBOUNCE_MS: u64 = 50;

/// Tolerance for recognizing our own writes via mtime (ns).
pub const SELF_WRITE_TOLERANCE_NS: i128 = 1000000000;

#[derive(Debug, Clone, Copy, PartialEq, Eq, Structural)]
pub enum Source {
    Root,
    Local,
    Missing,
}

/// Why a rules file could not be loaded.
#[derive(Debug)]
pub enum LoadError {
    /// Reading the file failed (the I/O error's text).
    Unreadable(String),
    /// The file is no valid rules file (the parser's text).
    Invalid(String),
}

/// Which file the first load takes.
#[derive(Debug, Clone, Copy, PartialEq, Eq, Structural)]
pub enum InitialChoice {
    Defaults,
    Root,
    Local,
}

/// What a change event on a path stands for.
#[derive(Debug, Clone, Copy, PartialEq, Eq, Structural)]
pub enum Change {
    /// Not one of our files, or a write of our own.
    Ignored,
    /// The local file was edited: load it as a pending update.
    Local,
    /// The root file was edited: it is authoritative at once.
    Root,
}

/// How promoting the local file over the root file went.
#[derive(Debug)]
pub enum PromoteOutcome {
    /// The local file could not be read.
    ReadFailed(String),
    /// The root file could not be written.
    WriteFailed(String),
    /// Written; the root file's mtime afterwards, if readable.
    Written(Option<i128>),
}

/// The first load: none of the files, the root file, or the local file when
/// it is the newer one.
pub open spec fn initial_choice_spec(root_m: Option<i128>, local_m: Option<i128>) -> InitialChoice {
    match (root_m, local_m) {
        (None, None) => InitialChoice::Defaults,
        (Some(_), None) => InitialChoice::Root,
        (None, Some(_)) => InitialChoice::Local,
        (Some(r), Some(l)) => if l > r {
            InitialChoice::Local
        } else {
            InitialChoice::Root
        },
    }
}

pub fn initial_choice(root_m: Option<i128>, local_m: Option<i128>) -> (r: InitialChoice)
    ensures
        r == initial_choice_spec(root_m, local_m),
{
    match (root_m, local_m) {
        (None, None) => InitialChoice::Defaults,
        (Some(_), None) => InitialChoice::Root,
        (None, Some(_)) => InitialChoice::Local,
        (Some(r), Some(l)) => if l > r {
            InitialChoice::Local
        } else {
            InitialChoice::Root
        },
    }
}

/// A recorded write of ours explains the current mtime: equal, or at most
/// the tolerance later.
pub open spec fn self_write_spec(recorded: Option<i128>, cur: Option<i128>) -> bool {
    match (recorded, cur) {
        (Some(r), Some(c)) => (r <= c && c - r < SELF_WRITE_TOLERANCE_NS) || c == r,
        _ => false,
    }
}

fn is_self_write(recorded: Option<i128>, cur: Option<i128>) -> (r: bool)
    ensures
        r == self_write_spec(recorded, cur),
{
    match (recorded, cur) {
        (Some(r), Some(c)) => {
            let within = if r <= c {
                match c.checked_sub(r) {
                    Some(d) => d < SELF_WRITE_TOLERANCE_NS,
                    None => false,
                }
            } else {
                false
            };
            within || c == r
        },
        _ => false,
    }
}

/// The warning for a file that could not be loaded.
pub open spec fn load_warning(kind: Seq<char>, path: Seq<char>, e: LoadError) -> Seq<char> {
    match e {
        LoadError::Unreadable(m) => "cannot read "@ + kind + " config "@ + path + ": "@ + m@,
        LoadError::Invalid(m) => kind + " config "@ + path + " invalid: "@ + m@,
    }
}

fn load_warning_text(kind: &str, path: &str, e: &LoadError) -> (r: String)
    ensures
        r@ == load_warning(kind@, path@, *e),
{
    match e {
        LoadError::Unreadable(m) => {
            let a = cat("cannot read ", kind);
            let b = cat(a.as_str(), " config ");
            let c = cat(b.as_str(), path);
            let d = cat(c.as_str(), ": ");
            cat(d.as_str(), m.as_str())
        },
        LoadError::Invalid(m) => {
            let a = cat(kind, " config ");
            let b = cat(a.as_str(), path);
            let c = cat(b.as_str(), " invalid: ");
            cat(c.as_str(), m.as_str())
        },
    }
}

/// The warning when neither file exists.
pub open spec fn no_config_warning(root: Seq<char>, local: Seq<char>) -> Seq<char> {
    "no config files found (root: "@ + root + ", local: "@ + local + ") \u{2014} using defaults"@
}

/// The warning after a failed load of the root file.
pub open spec fn root_kept_warning(root: Seq<char>) -> Seq<char> {
    "root config "@ + root + " failed to parse \u{2014} keeping previously loaded config"@
}

/// The warning when the root file cannot be written.
pub open spec fn root_write_warning(root: Seq<char>, e: Seq<char>) -> Seq<char> {
    "CANNOT WRITE ROOT CONFIG "@ + root + ": "@ + e
        + " \u{2014} continuing with local copy only (no sudo required, changes take effect locally but are not promoted to /etc)"@
}

/// The strings of a list of warnings.
pub open spec fn texts(v: Seq<String>) -> Seq<Seq<char>> {
    v.map_values(|s: String| s@)
}

/// The rule `upsert_cap_rule` leaves under a name: the existing rule with
/// its cap set or removed (a block left with no limit at all is dropped,
/// any other keeps its remaining limits), or a new
/// software-tier rule carrying only the cap.
pub open spec fn cap_cgroup(cg: Option<CgroupLimits>, pct: Option<u32>) -> Option<CgroupLimits> {
    match cg {
        Some(c) => match pct {
            Some(p) => Some(CgroupLimits { cpu_cap_percent: Some(p), ..c }),
            None => if c.path is None && c.cpu_weight is None && c.memory_high is None
                && c.memory_max is None && c.cpu_idle is None {
                None
            } else {
                Some(CgroupLimits { cpu_cap_percent: None, ..c })
            },
        },
        None => match pct {
            Some(p) => Some(CgroupLimits::cap_only(p)),
            None => None,
        },
    }
}

pub open spec fn cap_rule_ok(existing: Option<Rule>, name: Seq<char>, pct: Option<u32>, r: Rule) -> bool {
    match existing {
        Some(e) => r == Rule { cgroup: cap_cgroup(e.cgroup, pct), ..e },
        None => {
            &&& preset_rule(name, Tier::Software, Rule { cgroup: None, ..r })
            &&& r.cgroup == cap_cgroup(None, pct)
        },
    }
}

/// The rule `upsert_preset_rule` leaves under a name: the tier's preset,
/// keeping an existing rule's limits block.
pub open spec fn preset_rule_ok(existing: Option<Rule>, name: Seq<char>, tier: Tier, r: Rule) -> bool {
    &&& preset_rule(name, tier, Rule { cgroup: None, ..r })
    &&& r.cgroup == (match existing {
        Some(e) => e.cgroup,
        None => None,
    })
}

/// The config state and the promote / write / self-write machinery.
pub struct Sync {
    pub root: String,
    pub local: String,
    /// The config currently in effect.
    pub active: AppConfig,
    pub active_source: Source,
    /// Both paths name the same file (then the root file's marks are the
    /// local file's).
    pub same_file: bool,
    pub promote_debounce_ms: u64,
    pub local_write_debounce_ms: u64,
    /// The local file is to be promoted once settled.
    pub pending_promote: bool,
    /// When the local change was registered.
    pub local_changed_at: Option<u64>,
    /// The local file's mtime when its change was registered.
    pub local_mtime_at_change: Option<i128>,
    /// A debounced write of the active config to the local file is due.
    pub pending_local_write: bool,
    pub local_write_at: Option<u64>,
    /// Mtimes of our own writes of the local and the root file.
    pub self_write_local: Option<i128>,
    pub self_write_root: Option<i128>,
    /// Last observed mtimes, for the polling fallback (None: never looked).
    pub known_local: Option<Option<i128>>,
    pub known_root: Option<Option<i128>>,
    pub warnings: Vec<String>,
}

impl Sync {
    /// Mtime of our last own write of the root file.
    pub open spec fn root_write_mark(&self) -> Option<i128> {
        if self.same_file {
            self.self_write_local
        } else {
            self.self_write_root
        }
    }

    /// Last observed mtime of the root file.
    pub open spec fn root_known(&self) -> Option<Option<i128>> {
        if self.same_file {
            self.known_local
        } else {
            self.known_root
        }
    }

    pub open spec fn wf(&self) -> bool {
        &&& self.active.rules.wf()
        &&& self.same_file == path_eq(self.root@, self.local@)
        &&& self.promote_debounce_ms >= MIN_PROMOTE_DEBOUNCE_MS
    }

    fn push_warning(&mut self, w: String)
        ensures
            *final(self) == (Sync { warnings: final(self).warnings, ..*old(self) }),
            texts(final(self).warnings@) == texts(old(self).warnings@).push(w@),
    {
        let ghost before = self.warnings@;
        self.warnings.push(w);
        proof {
            assert(texts(self.warnings@) =~= texts(before).push(w@));
        }
    }

    /// Load outcome of the root file: it becomes the active config; on a
    /// failure the previous config is kept and the failure reported.
    fn load_root(&mut self, load: Result<AppConfig, LoadError>)
        requires
            old(self).wf(),
            load matches Ok(c) ==> c.rules.wf(),
        ensures
            final(self).wf(),
            match load {
                Ok(c) => *final(self) == (Sync { active: c, active_source: Source::Root, ..*old(self) }),
                Err(e) => {
                    &&& *final(self) == (Sync { warnings: final(self).warnings, ..*old(self) })
                    &&& texts(final(self).warnings@) == texts(old(self).warnings@).push(
                        load_warning("root"@, old(self).root@, e),
                    ).push(root_kept_warning(old(self).root@))
                },
            },
    {
        match load {
            Ok(c) => {
                self.active = c;
                self.active_source = Source::Root;
            },
            Err(e) => {
                let w = load_warning_text("root", self.root.as_str(), &e);
                self.push_warning(w);
                let a = cat("root config ", self.root.as_str());
                let k = cat(a.as_str(), " failed to parse \u{2014} keeping previously loaded config");
                self.push_warning(k);
            },
        }
    }

    /// Load outcome of the local file, `mtime` its mtime afterwards.
    fn load_local(&mut self, now: u64, load: Result<AppConfig, LoadError>, mtime: Option<i128>)
        requires
            old(self).wf(),
            load matches Ok(c) ==> c.rules.wf(),
        ensures
            final(self).wf(),
            match load {
                Ok(c) => *final(self) == (Sync {
                    active: c,
                    active_source: Source::Local,
                    local_changed_at: Some(now),
                    local_mtime_at_change: mtime,
                    ..*old(self)
                }),
                Err(e) => {
                    &&& *final(self) == (Sync { warnings: final(self).warnings, ..*old(self) })
                    &&& texts(final(self).warnings@) == texts(old(self).warnings@).push(
                        load_warning("local"@, old(self).local@, e),
                    )
                },
            },
    {
        match load {
            Ok(c) => {
                self.active = c;
                self.active_source = Source::Local;
                self.local_changed_at = Some(now);
                self.local_mtime_at_change = mtime;
            },
            Err(e) => {
                let w = load_warning_text("local", self.local.as_str(), &e);
                self.push_warning(w);
            },
        }
    }

    /// First load.  The caller asks `initial_choice` with both mtimes,
    /// loads the file it names (`load`; None when it names none), and reads
    /// both mtimes again afterwards (`after`: root, local).
    pub fn initial_load(
        &mut self,
        now: u64,
        root_m: Option<i128>,
        local_m: Option<i128>,
        load: Option<Result<AppConfig, LoadError>>,
        after: (Option<i128>, Option<i128>),
    )
        requires
            old(self).wf(),
            (initial_choice_spec(root_m, local_m) == InitialChoice::Defaults) == (load is None),
            load matches Some(Ok(c)) ==> c.rules.wf(),
        ensures
            final(self).wf(),
            final(self).root == old(self).root,
            final(self).local == old(self).local,
            final(self).known_local == Some(after.1),
            final(self).root_known() == Some(if final(self).same_file {
                after.1
            } else {
                after.0
            }),
            final(self).self_write_local == old(self).self_write_local,
            final(self).self_write_root == old(self).self_write_root,
            final(self).pending_local_write == old(self).pending_local_write,
            final(self).local_write_at == old(self).local_write_at,
            match initial_choice_spec(root_m, local_m) {
                InitialChoice::Defaults => {
                    &&& final(self).active.rules.seq().len() == 0
                    &&& final(self).active.poll_interval_ms is None
                    &&& final(self).active.auto_game is None
                    &&& final(self).active_source == Source::Missing
                    &&& final(self).pending_promote == old(self).pending_promote
                    &&& final(self).local_changed_at == old(self).local_changed_at
                    &&& texts(final(self).warnings@) == seq![
                        no_config_warning(old(self).root@, old(self).local@),
                    ]
                },
                InitialChoice::Root => {
                    &&& final(self).pending_promote == old(self).pending_promote
                    &&& final(self).local_changed_at == old(self).local_changed_at
                    &&& match load {
                        Some(Ok(c)) => final(self).active == c && final(self).active_source
                            == Source::Root && final(self).warnings@.len() == 0,
                        Some(Err(e)) => {
                            &&& final(self).active == old(self).active
                            &&& final(self).active_source == old(self).active_source
                            &&& texts(final(self).warnings@) == seq![
                                load_warning("root"@, old(self).root@, e),
                                root_kept_warning(old(self).root@),
                            ]
                        },
                        None => false,
                    }
                },
                InitialChoice::Local => {
                    &&& final(self).pending_promote
                    &&& match load {
                        Some(Ok(c)) => {
                            &&& final(self).active == c
                            &&& final(self).active_source == Source::Local
                            &&& final(self).local_changed_at == Some(now)
                            &&& final(self).local_mtime_at_change == after.1
                            &&& final(self).warnings@.len() == 0
                        },
                        Some(Err(e)) => {
                            &&& final(self).active == old(self).active
                            &&& final(self).active_source == old(self).active_source
                            &&& final(self).local_changed_at == old(self).local_changed_at
                            &&& texts(final(self).warnings@) == seq![
                                load_warning("local"@, old(self).local@, e),
                            ]
                        },
                        None => false,
                    }
                },
            },
    {
        self.warnings = Vec::new();
        proof {
            assert(texts(self.warnings@) =~= seq![]);
        }
        let choice = initial_choice(root_m, local_m);
        match load {
            None => {
                self.active = AppConfig::new();
                self.active_source = Source::Missing;
                let a = cat("no config files found (root: ", self.root.as_str());
                let b = cat(a.as_str(), ", local: ");
                let c = cat(b.as_str(), self.local.as_str());
                let d = cat(c.as_str(), ") \u{2014} using defaults");
                self.push_warning(d);
            },
            Some(l) => {
                if choice == InitialChoice::Root {
                    self.load_root(l);
                } else {
                    self.load_local(now, l, after.1);
                    self.pending_promote = true;
                }
            },
        }
        self.known_local = Some(after.1);
        if !self.same_file {
            self.known_root = Some(after.0);
        }
    }

    /// What a change event on `path` means, `cur_mtime` being the path's
    /// mtime now.
    pub fn classify_change(&self, path: &str, cur_mtime: Option<i128>) -> (r: Change)
        ensures
            r == (if path_eq(path@, self.local@) {
                if self_write_spec(self.self_write_local, cur_mtime) {
                    Change::Ignored
                } else {
                    Change::Local
                }
            } else if path_eq(path@, self.root@) {
                if self_write_spec(self.root_write_mark(), cur_mtime) {
                    Change::Ignored
                } else {
                    Change::Root
                }
            } else {
                Change::Ignored
            }),
    {
        if paths_equal(path, self.local.as_str()) {
            if is_self_write(self.self_write_local, cur_mtime) {
                Change::Ignored
            } else {
                Change::Local
            }
        } else if paths_equal(path, self.root.as_str()) {
            let mark = if self.same_file {
                self.self_write_local
            } else {
                self.self_write_root
            };
            if is_self_write(mark, cur_mtime) {
                Change::Ignored
            } else {
                Change::Root
            }
        } else {
            Change::Ignored
        }
    }

    /// The local file was edited (`Change::Local`): load it as a pending
    /// update.
    pub fn apply_local_change(&mut self, now: u64, load: Result<AppConfig, LoadError>, mtime: Option<i128>)
        requires
            old(self).wf(),
            load matches Ok(c) ==> c.rules.wf(),
        ensures
            final(self).wf(),
            match load {
                Ok(c) => *final(self) == (Sync {
                    active: c,
                    active_source: Source::Local,
                    local_changed_at: Some(now),
                    local_mtime_at_change: mtime,
                    pending_promote: true,
                    ..*old(self)
                }),
                Err(e) => {
                    &&& *final(self) == (Sync {
                        warnings: final(self).warnings,
                        pending_promote: true,
                        ..*old(self)
                    })
                    &&& texts(final(self).warnings@) == texts(old(self).warnings@).push(
                        load_warning("local"@, old(self).local@, e),
                    )
                },
            },
    {
        self.load_local(now, load, mtime);
        self.pending_promote = true;
    }

    /// The root file was edited (`Change::Root`): it is authoritative at
    /// once, and a pending promotion is dropped.
    pub fn apply_root_change(&mut self, load: Result<AppConfig, LoadError>)
        requires
            old(self).wf(),
            load matches Ok(c) ==> c.rules.wf(),
        ensures
            final(self).wf(),
            match load {
                Ok(c) => *final(self) == (Sync {
                    active: c,
                    active_source: Source::Root,
                    pending_promote: false,
                    ..*old(self)
                }),
                Err(e) => {
                    &&& *final(self) == (Sync {
                        warnings: final(self).warnings,
                        pending_promote: false,
                        ..*old(self)
                    })
                    &&& texts(final(self).warnings@) == texts(old(self).warnings@).push(
                        load_warning("root"@, old(self).root@, e),
                    ).push(root_kept_warning(old(self).root@))
                },
            },
    {
        self.load_root(load);
        self.pending_promote = false;
    }

    /// Polling fallback: record the mtime now seen for the local file (or
    /// the root file); true when it differs from the last one seen, and the
    /// file is then to be handled as changed.
    pub fn observe_mtime(&mut self, local_file: bool, cur: Option<i128>) -> (moved: bool)
        requires
            old(self).wf(),
        ensures
            final(self).wf(),
            local_file ==> {
                &&& moved == (old(self).known_local != Some(cur))
                &&& *final(self) == (Sync { known_local: Some(cur), ..*old(self) })
            },
            !local_file ==> {
                &&& moved == (old(self).root_known() != Some(cur))
                &&& final(self).root_known() == Some(cur)
                &&& *final(self) == (Sync {
                    known_local: final(self).known_local,
                    known_root: final(self).known_root,
                    ..*old(self)
                })
                &&& !old(self).same_file ==> final(self).known_local == old(self).known_local
            },
    {
        if local_file || self.same_file {
            let moved = self.known_local != Some(cur);
            self.known_local = Some(cur);
            moved
        } else {
            let moved = self.known_root != Some(cur);
            self.known_root = Some(cur);
            moved
        }
    }

    /// The debounced write of the active config to the local file is due.
    pub fn local_write_due(&self, now: u64) -> (r: bool)
        ensures
            r == (self.pending_local_write && (self.local_write_at matches Some(t) && now >= t)),
    {
        self.pending_local_write && match self.local_write_at {
            Some(t) => now >= t,
            None => false,
        }
    }

    /// Outcome of the local write: `dir_error` is (parent dir, error) when
    /// creating the parent dir failed; `result` the mtime of the written
    /// file, or the write error.
    pub fn local_write_done(
        &mut self,
        now: u64,
        dir_error: Option<(String, String)>,
        result: Result<Option<i128>, String>,
    )
        requires
            old(self).wf(),
        ensures
            final(self).wf(),
            !final(self).pending_local_write,
            final(self).active == old(self).active,
            final(self).active_source == old(self).active_source,
            final(self).local_write_at == old(self).local_write_at,
            final(self).self_write_root == old(self).self_write_root,
            final(self).known_local == old(self).known_local,
            final(self).known_root == old(self).known_root,
            texts(final(self).warnings@) == texts(old(self).warnings@) + (match dir_error {
                Some((d, e)) => seq!["cannot create "@ + d@ + ": "@ + e@],
                None => seq![],
            }) + (match result {
                Ok(_) => seq![],
                Err(e) => seq!["cannot write local config "@ + old(self).local@ + ": "@ + e@],
            }),
            match result {
                Ok(m) => {
                    &&& final(self).self_write_local == (match m {
                        Some(x) => Some(x),
                        None => old(self).self_write_local,
                    })
                    &&& final(self).local_changed_at == Some(now)
                    &&& final(self).local_mtime_at_change == m
                    &&& final(self).pending_promote
                },
                Err(_) => {
                    &&& final(self).self_write_local == old(self).self_write_local
                    &&& final(self).local_changed_at == old(self).local_changed_at
                    &&& final(self).local_mtime_at_change == old(self).local_mtime_at_change
                    &&& final(self).pending_promote == old(self).pending_promote
                },
            },
    {
        let ghost w0 = texts(self.warnings@);
        match dir_error {
            Some((d, e)) => {
                let a = cat("cannot create ", d.as_str());
                let b = cat(a.as_str(), ": ");
                let c = cat(b.as_str(), e.as_str());
                self.push_warning(c);
            },
            None => {},
        }
        let ghost w1 = texts(self.warnings@);
        match result {
            Ok(m) => {
                match m {
                    Some(x) => {
                        self.self_write_local = Some(x);
                    },
                    None => {},
                }
                self.local_changed_at = Some(now);
                self.local_mtime_at_change = m;
                self.pending_promote = true;
                proof {
                    assert(texts(self.warnings@) =~= w1 + seq![]);
                }
            },
            Err(e) => {
                let a = cat("cannot write local config ", self.local.as_str());
                let b = cat(a.as_str(), ": ");
                let c = cat(b.as_str(), e.as_str());
                self.push_warning(c);
            },
        }
        self.pending_local_write = false;
        proof {
            assert(texts(self.warnings@) =~= w0 + (match dir_error {
                Some((d, e)) => seq!["cannot create "@ + d@ + ": "@ + e@],
                None => seq![],
            }) + (match result {
                Ok(_) => seq![],
                Err(e) => seq!["cannot write local config "@ + old(self).local@ + ": "@ + e@],
            }));
        }
    }

    /// The local file has settled: a promotion is pending, the debounce
    /// window has passed since the change, and the local file still has
    /// the mtime it had then (`local_mtime`: its mtime now).
    pub open spec fn promote_due_spec(&self, now: u64, local_mtime: Option<i128>) -> bool {
        &&& self.pending_promote
        &&& self.local_changed_at matches Some(t) && now >= t && now - t >= self.promote_debounce_ms
        &&& local_mtime is Some
        &&& self.local_mtime_at_change is Some
        &&& local_mtime == self.local_mtime_at_change
    }

    pub fn promote_due(&self, now: u64, local_mtime: Option<i128>) -> (r: bool)
        ensures
            r == self.promote_due_spec(now, local_mtime),
    {
        if !self.pending_promote {
            return false;
        }
        let settled = match self.local_changed_at {
            Some(t) => now >= t && now - t >= self.promote_debounce_ms,
            None => false,
        };
        let unchanged = match (local_mtime, self.local_mtime_at_change) {
            (Some(cur), Some(at)) => cur == at,
            _ => false,
        };
        settled && unchanged
    }

    /// Outcome of promoting the local file over the root file; true when
    /// the root file was written.
    pub fn promote_done(&mut self, outcome: PromoteOutcome) -> (wrote_root: bool)
        requires
            old(self).wf(),
        ensures
            final(self).wf(),
            wrote_root == (outcome is Written),
            match outcome {
                PromoteOutcome::ReadFailed(e) => {
                    &&& *final(self) == (Sync { warnings: final(self).warnings, ..*old(self) })
                    &&& texts(final(self).warnings@) == texts(old(self).warnings@).push(
                        "cannot read local config for promotion: "@ + e@,
                    )
                },
                PromoteOutcome::WriteFailed(e) => {
                    &&& *final(self) == (Sync {
                        warnings: final(self).warnings,
                        pending_promote: false,
                        ..*old(self)
                    })
                    &&& texts(final(self).warnings@) == texts(old(self).warnings@).push(
                        root_write_warning(old(self).root@, e@),
                    )
                },
                PromoteOutcome::Written(m) => {
                    &&& final(self).pending_promote == false
                    &&& final(self).active_source == Source::Root
                    &&& final(self).root_write_mark() == (match m {
                        Some(x) => Some(x),
                        None => old(self).root_write_mark(),
                    })
                    &&& *final(self) == (Sync {
                        pending_promote: false,
                        active_source: Source::Root,
                        self_write_local: final(self).self_write_local,
                        self_write_root: final(self).self_write_root,
                        ..*old(self)
                    })
                    &&& !old(self).same_file ==> final(self).self_write_local == old(self).self_write_local
                },
            },
    {
        match outcome {
            PromoteOutcome::ReadFailed(e) => {
                let w = cat("cannot read local config for promotion: ", e.as_str());
                self.push_warning(w);
                false
            },
            PromoteOutcome::WriteFailed(e) => {
                let a = cat("CANNOT WRITE ROOT CONFIG ", self.root.as_str());
                let b = cat(a.as_str(), ": ");
                let c = cat(b.as_str(), e.as_str());
                let d = cat(
                    c.as_str(),
                    " \u{2014} continuing with local copy only (no sudo required, changes take effect locally but are not promoted to /etc)",
                );
                self.push_warning(d);
                self.pending_promote = false;
                false
            },
            PromoteOutcome::Written(m) => {
                match m {
                    Some(x) => {
                        if self.same_file {
                            self.self_write_local = Some(x);
                        } else {
                            self.self_write_root = Some(x);
                        }
                    },
                    None => {},
                }
                self.pending_promote = false;
                self.active_source = Source::Root;
                true
            },
        }
    }

    fn schedule_local_write(&mut self, now: u64)
        ensures
            *final(self) == (Sync {
                pending_local_write: true,
                local_write_at: Some(
                    if now + old(self).local_write_debounce_ms > u64::MAX {
                        u64::MAX
                    } else {
                        (now + old(self).local_write_debounce_ms) as u64
                    },
                ),
                ..*old(self)
            }),
    {
        self.pending_local_write = true;
        self.local_write_at = Some(now.saturating_add(self.local_write_debounce_ms));
    }

    /// Pin `process_name` to `tier`'s preset (keeping an existing limits
    /// block, so that a cap keeps binding across tier changes) and schedule
    /// the debounced local write.
    pub fn upsert_preset_rule(&mut self, process_name: &str, tier: Tier, now: u64)
        requires
            old(self).wf(),
        ensures
            final(self).wf(),
            final(self).active.rules.map().contains_key(process_name@),
            final(self).active.rules.map().remove(process_name@) == old(self).active.rules.map().remove(
                process_name@,
            ),
            preset_rule_ok(
                old(self).active.rules.map().get(process_name@),
                process_name@,
                tier,
                final(self).active.rules.map()[process_name@],
            ),
            final(self).active.poll_interval_ms == old(self).active.poll_interval_ms,
            final(self).active.auto_game == old(self).active.auto_game,
            final(self).active_source == Source::Local,
            final(self).pending_local_write,
            final(self).local_write_at == Some(
                if now + old(self).local_write_debounce_ms > u64::MAX {
                    u64::MAX
                } else {
                    (now + old(self).local_write_debounce_ms) as u64
                },
            ),
            final(self).pending_promote == old(self).pending_promote,
            final(self).warnings == old(self).warnings,
    {
        let existing = match self.active.rules.get(process_name) {
            Some(r) => crate::common::clone_opt_limits(&r.cgroup),
            None => None,
        };
        let mut rule = Rule::from_preset(process_name, tier);
        rule.cgroup = existing;
        let ghost r = rule;
        self.active.rules.insert(process_name.to_owned(), rule);
        self.active_source = Source::Local;
        self.schedule_local_write(now);
        proof {
            assert(self.active.rules.map()[process_name@] == r);
            assert(self.active.rules.map().remove(process_name@) =~= old(self).active.rules.map().remove(
                process_name@,
            ));
        }
    }

    /// Set (Some) or remove (None) the hard CPU cap on the rule for
    /// `process_name`, keeping its tier, nice and ionice; a software-tier
    /// rule is created when there is none.  Schedules the local write.
    pub fn upsert_cap_rule(&mut self, process_name: &str, pct: Option<u32>, now: u64)
        requires
            old(self).wf(),
        ensures
            final(self).wf(),
            final(self).active.rules.map().contains_key(process_name@),
            final(self).active.rules.map().remove(process_name@) == old(self).active.rules.map().remove(
                process_name@,
            ),
            cap_rule_ok(
                old(self).active.rules.map().get(process_name@),
                process_name@,
                pct,
                final(self).active.rules.map()[process_name@],
            ),
            final(self).active.poll_interval_ms == old(self).active.poll_interval_ms,
            final(self).active.auto_game == old(self).active.auto_game,
            final(self).active_source == Source::Local,
            final(self).pending_local_write,
            final(self).local_write_at == Some(
                if now + old(self).local_write_debounce_ms > u64::MAX {
                    u64::MAX
                } else {
                    (now + old(self).local_write_debounce_ms) as u64
                },
            ),
            final(self).pending_promote == old(self).pending_promote,
            final(self).warnings == old(self).warnings,
    {
        let rule = match self.active.rules.get(process_name) {
            Some(existing) => {
                let mut r = existing.clone();
                let cg = match &existing.cgroup {
                    Some(cg) => match pct {
                        Some(p) => {
                            let mut c = cg.clone();
                            c.cpu_cap_percent = Some(p);
                            Some(c)
                        },
                        None => {
                            if cg.path.is_none() && cg.cpu_weight.is_none() && cg.memory_high.is_none()
                                && cg.memory_max.is_none() && cg.cpu_idle.is_none() {
                                None
                            } else {
                                let mut c = cg.clone();
                                c.cpu_cap_percent = None;
                                Some(c)
                            }
                        },
                    },
                    None => match pct {
                        Some(p) => Some(
                            CgroupLimits {
                                path: None,
                                cpu_weight: None,
                                cpu_cap_percent: Some(p),
                                memory_high: None,
                                memory_max: None,
                                cpu_idle: None,
                            },
                        ),
                        None => None,
                    },
                };
                r.cgroup = cg;
                r
            },
            None => {
                let mut r = Rule::from_preset(process_name, Tier::Software);
                match pct {
                    Some(p) => {
                        r.cgroup = Some(
                            CgroupLimits {
                                path: None,
                                cpu_weight: None,
                                cpu_cap_percent: Some(p),
                                memory_high: None,
                                memory_max: None,
                                cpu_idle: None,
                            },
                        );
                    },
                    None => {},
                }
                r
            },
        };
        let ghost r = rule;
        proof {
            assert(cap_rule_ok(old(self).active.rules.map().get(process_name@), process_name@, pct, r));
        }
        self.active.rules.insert(process_name.to_owned(), rule);
        self.active_source = Source::Local;
        self.schedule_local_write(now);
        proof {
            assert(self.active.rules.map()[process_name@] == r);
            assert(self.active.rules.map().remove(process_name@) =~= old(self).active.rules.map().remove(
                process_name@,
            ));
        }
    }

    /// Set the poll interval in the active config (the caller clamps it)
    /// and schedule the local write.
    pub fn set_poll_interval(&mut self, poll_interval_ms: u64, now: u64)
        requires
            old(self).wf(),
        ensures
            final(self).wf(),
            *final(self) == (Sync {
                active: AppConfig { poll_interval_ms: Some(poll_interval_ms), ..old(self).active },
                active_source: Source::Local,
                pending_local_write: true,
                local_write_at: final(self).local_write_at,
                ..*old(self)
            }),
            final(self).local_write_at == Some(
                if now + old(self).local_write_debounce_ms > u64::MAX {
                    u64::MAX
                } else {
                    (now + old(self).local_write_debounce_ms) as u64
                },
            ),
    {
        self.active.poll_interval_ms = Some(poll_interval_ms);
        self.active_source = Source::Local;
        self.schedule_local_write(now);
    }

    pub fn new(root: String, local: String, promote_debounce_ms: u64, local_write_debounce_ms: u64) -> (s: Sync)
        ensures
            s.wf(),
            s.root == root,
            s.local == local,
            s.active.poll_interval_ms is None,
            s.active.rules.seq().len() == 0,
            s.active.auto_game is None,
            s.active_source == Source::Missing,
            s.warnings.len() == 0,
            s.promote_debounce_ms == (if promote_debounce_ms < MIN_PROMOTE_DEBOUNCE_MS {
                MIN_PROMOTE_DEBOUNCE_MS
            } else {
                promote_debounce_ms
            }),
            s.local_write_debounce_ms == local_write_debounce_ms,
            !s.pending_promote,
            !s.pending_local_write,
            s.local_changed_at is None,
            s.local_mtime_at_change is None,
            s.local_write_at is None,
            s.self_write_local is None,
            s.self_write_root is None,
            s.known_local is None,
            s.known_root is None,
    {
        let same = paths_equal(root.as_str(), local.as_str());
        let promote = if promote_debounce_ms < MIN_PROMOTE_DEBOUNCE_MS {
            MIN_PROMOTE_DEBOUNCE_MS
        } else {
            promote_debounce_ms
        };
        Sync {
            root,
            local,
            active: AppConfig::new(),
            active_source: Source::Missing,
            same_file: same,
            promote_debounce_ms: promote,
            local_write_debounce_ms,
            pending_promote: false,
            local_changed_at: None,
            local_mtime_at_change: None,
            pending_local_write: false,
            local_write_at: None,
            self_write_local: None,
            self_write_root: None,
            known_local: None,
            known_root: None,
            warnings: Vec::new(),
        }
    }
}

/// Precedence on first load: a strictly newer local file wins; otherwise
/// (older or same mtime) the root file stays authoritative; a lone file is
/// taken as it is.
pub proof fn lemma_initial_precedence(root_m: i128, local_m: i128)
    ensures
        local_m > root_m ==> initial_choice_spec(Some(root_m), Some(local_m)) == InitialChoice::Local,
        local_m <= root_m ==> initial_choice_spec(Some(root_m), Some(local_m)) == InitialChoice::Root,
        initial_choice_spec(Some(root_m), None) == InitialChoice::Root,
        initial_choice_spec(None, Some(local_m)) == InitialChoice::Local,
        initial_choice_spec(None, None) == InitialChoice::Defaults,
{
}

/// A write of our own does not come back as a change: an mtime equal to
/// the recorded one, or less than the tolerance later, is ours.
pub proof fn lemma_own_write_is_recognized(recorded: i128, cur: i128)
    requires
        recorded <= cur < recorded + SELF_WRITE_TOLERANCE_NS,
    ensures
        self_write_spec(Some(recorded), Some(cur)),
{
}

/// A tier change keeps the rule's limits block, so a cap keeps binding.
pub proof fn lemma_tier_change_keeps_limits(existing: Rule, name: Seq<char>, tier: Tier, r: Rule)
    requires
        preset_rule_ok(Some(existing), name, tier, r),
    ensures
        r.cgroup == existing.cgroup,
        r.tier == Some(tier),
        r.nice == Some(tier_preset(tier).nice),
{
}

/// Setting a cap and removing it again leaves no limits block behind when
/// there was none; removing a cap keeps every other limit.
pub proof fn lemma_cap_set_then_removed(cg: Option<CgroupLimits>, p: u32)
    ensures
        cg is None ==> cap_cgroup(cap_cgroup(cg, Some(p)), None) is None,
        cg matches Some(c) ==> (cap_cgroup(cap_cgroup(cg, Some(p)), None) == cap_cgroup(cg, None)),
        cap_cgroup(cg, Some(p)) matches Some(c) && c.cpu_cap_percent == Some(p),
{
}

/// Removing a cap removes only the cap: a block that still holds another
/// limit (a path, a weight, a memory bound or the idle flag) is kept.
pub proof fn lemma_cap_removal_keeps_other_limits(c: CgroupLimits)
    requires
        c.path is Some || c.cpu_weight is Some || c.memory_high is Some || c.memory_max is Some
            || c.cpu_idle is Some,
    ensures
        cap_cgroup(Some(c), None) == Some(CgroupLimits { cpu_cap_percent: None, ..c }),
{
}

/// The root file is only overwritten once the local file has been left
/// alone for the whole debounce window, which is at least the minimum.
pub proof fn lemma_promote_waits_for_settle(s: Sync, now: u64, local_mtime: Option<i128>)
    requires
        s.wf(),
        s.promote_due_spec(now, local_mtime),
    ensures
        s.local_changed_at matches Some(t) && now - t >= MIN_PROMOTE_DEBOUNCE_MS,
        local_mtime == s.local_mtime_at_change,
{
}

} // verus!
