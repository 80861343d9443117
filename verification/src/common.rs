//! The application's identity, well-known paths, the priority presets, the
//! rule schema and the client side of the IPC protocol.
//!
//! Presets (read before "improving" the Realtime tier): the Realtime tier is
//! the most aggressive *safe* preset, nice -12 with best-effort IO.  No
//! preset ever selects a kernel realtime scheduling class or the realtime
//! IO class; `lemma_presets_never_realtime` states it.

use vstd::prelude::*;

use crate::text::{
    chars_eq, chars_lt, extend_str, from_chars, lemma_seq_lt_irrefl, lemma_seq_lt_total,
    lemma_seq_lt_trans, seq_lt, to_chars,
};

verus! {

// ---------------------------------------------------------------------------
// Identity and timing.
// ---------------------------------------------------------------------------

/// Filename spelling: binary name, IPC socket file, systemd unit.
pub const APP_NAME: &'static str = "nicewatch";

/// Human-readable display name.
pub const APP_DISPLAY_NAME: &'static str = "Nicewatch";

/// Config directory name under `/etc` and `~/.config`.
pub const CONFIG_DIR_NAME: &'static str = "proc-priority-daemon";

/// Fallback poll interval for the `/proc` scan loop (ms).
pub const DEFAULT_POLL_INTERVAL_MS: u64 = 2000;

/// Poll-interval floor (ms).
pub const MIN_POLL_INTERVAL_MS: u64 = 250;

/// Poll-interval ceiling (ms).
pub const MAX_POLL_INTERVAL_MS: u64 = 60000;

/// How long the local config must stop changing before it is promoted over
/// the root config (ms).
pub const PROMOTE_DEBOUNCE_MS: u64 = 30000;

/// Debounce before a GUI-initiated rule edit is flushed to the local config
/// file (ms).
pub const LOCAL_WRITE_DEBOUNCE_MS: u64 = 1000;

pub const EVT_HELLO: &'static str = "nw/hello";
pub const EVT_SNAPSHOT: &'static str = "nw/snapshot";
pub const EVT_DIFF: &'static str = "nw/diff";
pub const EVT_PROMPT: &'static str = "nw/prompt";
pub const EVT_WARN: &'static str = "nw/warn";

// ---------------------------------------------------------------------------
// Paths.  A path is a `String`; `path_join` is `PathBuf::push` of a relative
// component.
// ---------------------------------------------------------------------------

/// `base` joined with the relative component `comp`: a separator is added
/// unless `base` is empty or already ends in `/`.
pub open spec fn path_join_spec(base: Seq<char>, comp: Seq<char>) -> Seq<char> {
    if base.len() == 0 || base.last() == '/' {
        base + comp
    } else {
        base + seq!['/'] + comp
    }
}

pub fn path_join(base: &str, comp: &str) -> (r: String)
    ensures
        r@ == path_join_spec(base@, comp@),
{
    let mut v = to_chars(base);
    if v.len() > 0 && v[v.len() - 1] != '/' {
        v.push('/');
    }
    extend_str(&mut v, comp);
    proof {
        if base@.len() > 0 && base@.last() != '/' {
            assert(v@ =~= base@ + seq!['/'] + comp@);
        } else {
            assert(v@ =~= base@ + comp@);
        }
    }
    from_chars(&v)
}

/// XDG runtime dir: `$XDG_RUNTIME_DIR` when set and non-empty, else the
/// system temp dir.
pub fn runtime_dir(xdg_runtime_dir: Option<&str>, temp_dir: &str) -> (r: String)
    ensures
        r@ == (match xdg_runtime_dir {
            Some(d) if d@.len() > 0 => d@,
            _ => temp_dir@,
        }),
{
    match xdg_runtime_dir {
        Some(d) => {
            if !d.is_empty() {
                return d.to_owned();
            }
        },
        None => {},
    }
    temp_dir.to_owned()
}

/// Unix-domain socket the daemon listens on, inside the runtime dir.
pub fn ipc_socket_path(runtime_dir: &str) -> (r: String)
    ensures
        r@ == path_join_spec(runtime_dir@, "nicewatch.sock"@),
{
    path_join(runtime_dir, "nicewatch.sock")
}

/// Authoritative "live" config.
pub fn root_config_path() -> (r: String)
    ensures
        r@ == "/etc/proc-priority-daemon/rules.toml"@,
{
    "/etc/proc-priority-daemon/rules.toml".to_owned()
}

/// The directory of the local staging config (the parent of
/// `local_config_path`): it also holds the installed service files and the
/// GUI settings.
pub fn local_config_dir(xdg_config_home: Option<&str>, home: Option<&str>) -> (r: String)
    ensures
        r@ == (match (xdg_config_home, home) {
            (Some(x), _) if x@.len() > 0 => path_join_spec(x@, "proc-priority-daemon"@),
            (_, Some(h)) if h@.len() > 0 => path_join_spec(
                path_join_spec(h@, ".config"@),
                "proc-priority-daemon"@,
            ),
            _ => "proc-priority-daemon"@,
        }),
{
    match xdg_config_home {
        Some(x) => {
            if !x.is_empty() {
                return path_join(x, "proc-priority-daemon");
            }
        },
        None => {},
    }
    match home {
        Some(h) => {
            if !h.is_empty() {
                let c = path_join(h, ".config");
                return path_join(&c, "proc-priority-daemon");
            }
        },
        None => {},
    }
    "proc-priority-daemon".to_owned()
}

/// Local staging config: `$XDG_CONFIG_HOME/proc-priority-daemon/rules.toml`,
/// else `$HOME/.config/proc-priority-daemon/rules.toml`, else the relative
/// `proc-priority-daemon/rules.toml` (empty variables count as unset).
pub fn local_config_path(xdg_config_home: Option<&str>, home: Option<&str>) -> (r: String)
    ensures
        r@ == (match (xdg_config_home, home) {
            (Some(x), _) if x@.len() > 0 => path_join_spec(
                path_join_spec(x@, "proc-priority-daemon"@),
                "rules.toml"@,
            ),
            (_, Some(h)) if h@.len() > 0 => path_join_spec(
                path_join_spec(path_join_spec(h@, ".config"@), "proc-priority-daemon"@),
                "rules.toml"@,
            ),
            _ => "proc-priority-daemon/rules.toml"@,
        }),
{
    match xdg_config_home {
        Some(x) => {
            if !x.is_empty() {
                let d = path_join(x, "proc-priority-daemon");
                return path_join(&d, "rules.toml");
            }
        },
        None => {},
    }
    match home {
        Some(h) => {
            if !h.is_empty() {
                let c = path_join(h, ".config");
                let d = path_join(&c, "proc-priority-daemon");
                return path_join(&d, "rules.toml");
            }
        },
        None => {},
    }
    "proc-priority-daemon/rules.toml".to_owned()
}

// ---------------------------------------------------------------------------
// Priority presets.
// ---------------------------------------------------------------------------

#[derive(Debug, Clone, Copy, PartialEq, Eq, Structural, Hash, PartialOrd, Ord)]
pub enum Tier {
    Software,
    Game,
    Streaming,
    Realtime,
}

impl Default for Tier {
    fn default() -> (r: Tier)
        ensures
            r == Tier::Software,
    {
        Tier::Software
    }
}

#[derive(Debug, Clone, Copy, PartialEq, Eq, Structural, Hash)]
pub enum IoniceClass {
    /// No explicit IO class (kernel default); `none` in the rules file.
    Unspecified,
    /// Allowed in hand-written rules; never used by a preset.
    Realtime,
    BestEffort,
    Idle,
}

impl Default for IoniceClass {
    fn default() -> (r: IoniceClass)
        ensures
            r == IoniceClass::Unspecified,
    {
        IoniceClass::Unspecified
    }
}

/// A concrete nice + ionice combination.
#[derive(Debug, Clone, Copy, PartialEq, Eq, Structural)]
pub struct Preset {
    pub nice: i32,
    pub ionice_class: IoniceClass,
    pub ionice_priority: u8,
}

/// The preset each tier stands for.
pub open spec fn tier_preset(t: Tier) -> Preset {
    match t {
        Tier::Software => Preset { nice: 0i32, ionice_class: IoniceClass::BestEffort, ionice_priority: 4 },
        Tier::Game => Preset { nice: -8i32, ionice_class: IoniceClass::BestEffort, ionice_priority: 2 },
        Tier::Streaming => Preset {
            nice: -10i32,
            ionice_class: IoniceClass::BestEffort,
            ionice_priority: 1,
        },
        Tier::Realtime => Preset {
            nice: -12i32,
            ionice_class: IoniceClass::BestEffort,
            ionice_priority: 0,
        },
    }
}

impl Tier {
    /// Every tier, from least to most favored.
    pub fn all() -> (r: [Tier; 4])
        ensures
            r@ == seq![Tier::Software, Tier::Game, Tier::Streaming, Tier::Realtime],
    {
        [Tier::Software, Tier::Game, Tier::Streaming, Tier::Realtime]
    }

    pub fn label(self) -> (r: &'static str)
        ensures
            r@ == (match self {
                Tier::Software => "Software"@,
                Tier::Game => "Game"@,
                Tier::Streaming => "Streaming"@,
                Tier::Realtime => "Realtime"@,
            }),
    {
        match self {
            Tier::Software => "Software",
            Tier::Game => "Game",
            Tier::Streaming => "Streaming",
            Tier::Realtime => "Realtime",
        }
    }

    /// The safe internal mapping for this tier.
    pub fn preset(self) -> (p: Preset)
        ensures
            p == tier_preset(self),
    {
        match self {
            Tier::Software => Preset { nice: 0, ionice_class: IoniceClass::BestEffort, ionice_priority: 4 },
            Tier::Game => Preset { nice: -8, ionice_class: IoniceClass::BestEffort, ionice_priority: 2 },
            Tier::Streaming => Preset {
                nice: -10,
                ionice_class: IoniceClass::BestEffort,
                ionice_priority: 1,
            },
            Tier::Realtime => Preset {
                nice: -12,
                ionice_class: IoniceClass::BestEffort,
                ionice_priority: 0,
            },
        }
    }
}

/// Rank of a tier in `Tier::all()` order.
pub open spec fn tier_rank(t: Tier) -> int {
    match t {
        Tier::Software => 0,
        Tier::Game => 1,
        Tier::Streaming => 2,
        Tier::Realtime => 3,
    }
}

/// A more favored tier always gets a strictly lower niceness (a higher CPU
/// priority): Realtime < Streaming < Game < Software.
pub proof fn lemma_preset_niceness_strictly_ordered(a: Tier, b: Tier)
    requires
        tier_rank(a) < tier_rank(b),
    ensures
        tier_preset(b).nice < tier_preset(a).nice,
{
}

/// No preset leaves the ordinary scheduling class: every preset is
/// best-effort IO with a nice value inside the CFS range, and none uses the
/// realtime IO class.
pub proof fn lemma_presets_never_realtime(t: Tier)
    ensures
        tier_preset(t).ionice_class == IoniceClass::BestEffort,
        tier_preset(t).ionice_class != IoniceClass::Realtime,
        -20 <= tier_preset(t).nice <= 19,
        tier_preset(t).ionice_priority <= 7,
{
}

impl IoniceClass {
    pub fn label(self) -> (r: &'static str)
        ensures
            r@ == (match self {
                IoniceClass::Unspecified => "none"@,
                IoniceClass::Realtime => "rt"@,
                IoniceClass::BestEffort => "be"@,
                IoniceClass::Idle => "idle"@,
            }),
    {
        match self {
            IoniceClass::Unspecified => "none",
            IoniceClass::Realtime => "rt",
            IoniceClass::BestEffort => "be",
            IoniceClass::Idle => "idle",
        }
    }
}

// ---------------------------------------------------------------------------
// Rule schema.
// ---------------------------------------------------------------------------

/// Optional limits for a cgroup v2 directory.
#[derive(Debug, PartialEq, Eq)]
pub struct CgroupLimits {
    /// Explicit cgroup directory; when absent it is derived from a writable
    /// base and the rule name.
    pub path: Option<String>,
    /// `cpu.weight` (1..=10000).
    pub cpu_weight: Option<u32>,
    /// Hard CPU cap in percent of ONE core (`cpu.max`).
    pub cpu_cap_percent: Option<u32>,
    /// `memory.high`, e.g. "4G".
    pub memory_high: Option<String>,
    /// `memory.max`, e.g. "6G".
    pub memory_max: Option<String>,
    /// `cpu.idle`.
    pub cpu_idle: Option<bool>,
}

pub fn clone_opt_string(o: &Option<String>) -> (r: Option<String>)
    ensures
        r == *o,
{
    match o {
        Some(s) => Some(s.clone()),
        None => None,
    }
}

/// The characters of an optional string.
pub open spec fn opt_chars(o: Option<String>) -> Option<Seq<char>> {
    match o {
        Some(s) => Some(s@),
        None => None,
    }
}

pub fn opt_string_eq(a: &Option<String>, b: &Option<String>) -> (r: bool)
    ensures
        r == (opt_chars(*a) == opt_chars(*b)),
{
    match (a, b) {
        (Some(x), Some(y)) => *x == *y,
        (None, None) => true,
        _ => false,
    }
}

impl Clone for CgroupLimits {
    fn clone(&self) -> (r: Self)
        ensures
            r == *self,
    {
        CgroupLimits {
            path: clone_opt_string(&self.path),
            cpu_weight: self.cpu_weight,
            cpu_cap_percent: self.cpu_cap_percent,
            memory_high: clone_opt_string(&self.memory_high),
            memory_max: clone_opt_string(&self.memory_max),
            cpu_idle: self.cpu_idle,
        }
    }
}

impl CgroupLimits {
    /// Field-wise equality, strings compared by their characters.
    pub open spec fn same(&self, other: &CgroupLimits) -> bool {
        &&& opt_chars(self.path) == opt_chars(other.path)
        &&& self.cpu_weight == other.cpu_weight
        &&& self.cpu_cap_percent == other.cpu_cap_percent
        &&& opt_chars(self.memory_high) == opt_chars(other.memory_high)
        &&& opt_chars(self.memory_max) == opt_chars(other.memory_max)
        &&& self.cpu_idle == other.cpu_idle
    }

    /// Field-wise equality.
    pub fn same_as(&self, other: &CgroupLimits) -> (r: bool)
        ensures
            r == self.same(other),
    {
        opt_string_eq(&self.path, &other.path) && self.cpu_weight == other.cpu_weight
            && self.cpu_cap_percent == other.cpu_cap_percent && opt_string_eq(
            &self.memory_high,
            &other.memory_high,
        ) && opt_string_eq(&self.memory_max, &other.memory_max) && self.cpu_idle
            == other.cpu_idle
    }

    /// A limits block that only carries a CPU cap.
    pub open spec fn cap_only(pct: u32) -> CgroupLimits {
        CgroupLimits {
            path: None,
            cpu_weight: None,
            cpu_cap_percent: Some(pct),
            memory_high: None,
            memory_max: None,
            cpu_idle: None,
        }
    }
}

pub fn clone_opt_limits(o: &Option<CgroupLimits>) -> (r: Option<CgroupLimits>)
    ensures
        r == *o,
{
    match o {
        Some(l) => Some(l.clone()),
        None => None,
    }
}

/// A single rule.  `name` is the rules-file table key.
#[derive(Debug, PartialEq)]
pub struct Rule {
    pub name: String,
    /// `/proc/<pid>/comm` value to match (exact string match).
    pub match_name: String,
    /// Explicit tier (wins over the game-detection heuristic).
    pub tier: Option<Tier>,
    /// Explicit niceness override (-20..=19).
    pub nice: Option<i32>,
    pub ionice_class: Option<IoniceClass>,
    pub ionice_priority: Option<u8>,
    /// Apply only once the process has run at least `delay` seconds.
    pub delay: Option<u64>,
    pub cgroup: Option<CgroupLimits>,
}

impl Clone for Rule {
    fn clone(&self) -> (r: Self)
        ensures
            r == *self,
    {
        Rule {
            name: self.name.clone(),
            match_name: self.match_name.clone(),
            tier: self.tier,
            nice: self.nice,
            ionice_class: self.ionice_class,
            ionice_priority: self.ionice_priority,
            delay: self.delay,
            cgroup: clone_opt_limits(&self.cgroup),
        }
    }
}

/// The rule `Rule::from_preset` builds.
pub open spec fn preset_rule(name: Seq<char>, tier: Tier, r: Rule) -> bool {
    &&& r.name@ == name
    &&& r.match_name@ == name
    &&& r.tier == Some(tier)
    &&& r.nice == Some(tier_preset(tier).nice)
    &&& r.ionice_class == Some(tier_preset(tier).ionice_class)
    &&& r.ionice_priority == Some(tier_preset(tier).ionice_priority)
    &&& r.delay is None
    &&& r.cgroup is None
}

impl Rule {
    /// A rule pinning `process_name` to the preset of `tier`.
    pub fn from_preset(process_name: &str, tier: Tier) -> (r: Rule)
        ensures
            preset_rule(process_name@, tier, r),
    {
        let p = tier.preset();
        Rule {
            name: process_name.to_owned(),
            match_name: process_name.to_owned(),
            tier: Some(tier),
            nice: Some(p.nice),
            ionice_class: Some(p.ionice_class),
            ionice_priority: Some(p.ionice_priority),
            delay: None,
            cgroup: None,
        }
    }
}

/// The `[auto_game_default]` section: preset for heuristic-flagged
/// processes with no explicit rule.
#[derive(Debug, Clone, Copy, PartialEq, Eq, Structural)]
pub struct AutoGameConfig {
    pub tier: Option<Tier>,
    pub nice: Option<i32>,
    pub ionice_class: Option<IoniceClass>,
    pub ionice_priority: Option<u8>,
}

impl Default for AutoGameConfig {
    fn default() -> (r: AutoGameConfig)
        ensures
            r == (AutoGameConfig { tier: None, nice: None, ionice_class: None, ionice_priority: None }),
    {
        AutoGameConfig { tier: None, nice: None, ionice_class: None, ionice_priority: None }
    }
}

/// Each field of the section overrides the tier preset (Game by default).
pub open spec fn auto_game_preset(a: AutoGameConfig) -> Preset {
    let base = tier_preset(a.tier.unwrap_or(Tier::Game));
    Preset {
        nice: a.nice.unwrap_or(base.nice),
        ionice_class: a.ionice_class.unwrap_or(base.ionice_class),
        ionice_priority: a.ionice_priority.unwrap_or(base.ionice_priority),
    }
}

impl AutoGameConfig {
    pub fn preset(&self) -> (p: Preset)
        ensures
            p == auto_game_preset(*self),
    {
        let base = match self.tier {
            Some(t) => t.preset(),
            None => Tier::Game.preset(),
        };
        Preset {
            nice: match self.nice {
                Some(n) => n,
                None => base.nice,
            },
            ionice_class: match self.ionice_class {
                Some(c) => c,
                None => base.ionice_class,
            },
            ionice_priority: match self.ionice_priority {
                Some(p) => p,
                None => base.ionice_priority,
            },
        }
    }
}

// ---------------------------------------------------------------------------
// The rules table: a map from table key to rule, kept sorted by key (the
// order of the rules file's `BTreeMap`).
// ---------------------------------------------------------------------------

/// The rule of the last entry of `s` whose key is `k`.
pub open spec fn last_rule_with_key(s: Seq<(Seq<char>, Rule)>, k: Seq<char>) -> Rule
    decreases s.len(),
{
    if s.len() == 0 {
        arbitrary()
    } else if s.last().0 == k {
        s.last().1
    } else {
        last_rule_with_key(s.drop_last(), k)
    }
}

pub proof fn lemma_last_rule_with_key(s: Seq<(Seq<char>, Rule)>, k: Seq<char>, i: int)
    requires
        0 <= i < s.len(),
        s[i].0 == k,
        forall|a: int, b: int| 0 <= a < b < s.len() ==> s[a].0 != s[b].0,
    ensures
        last_rule_with_key(s, k) == s[i].1,
    decreases s.len(),
{
    if i < s.len() - 1 {
        assert(s[i].0 != s[s.len() - 1].0);
        lemma_last_rule_with_key(s.drop_last(), k, i);
    }
}

/// Rules keyed by their table key, in ascending key order.
#[derive(Debug, PartialEq)]
pub struct RuleMap {
    entries: Vec<(String, Rule)>,
}

impl RuleMap {
    /// The entries as (key, rule) pairs in ascending key order.
    pub closed spec fn seq(&self) -> Seq<(Seq<char>, Rule)> {
        self.entries@.map_values(|e: (String, Rule)| (e.0@, e.1))
    }

    /// Keys strictly ascending (so no key occurs twice).
    pub open spec fn wf(&self) -> bool {
        forall|i: int, j: int|
            0 <= i < j < self.seq().len() ==> seq_lt(
                #[trigger] self.seq()[i].0,
                #[trigger] self.seq()[j].0,
            )
    }

    pub open spec fn has_key(&self, k: Seq<char>) -> bool {
        exists|i: int| 0 <= i < self.seq().len() && #[trigger] self.seq()[i].0 == k
    }

    /// The rule stored under `k`.
    pub open spec fn rule_at(&self, k: Seq<char>) -> Rule {
        last_rule_with_key(self.seq(), k)
    }

    /// The map view.
    pub open spec fn map(&self) -> Map<Seq<char>, Rule> {
        Map::new(|k: Seq<char>| self.has_key(k), |k: Seq<char>| self.rule_at(k))
    }

    pub proof fn lemma_key_index(&self, i: int, k: Seq<char>)
        requires
            self.wf(),
            0 <= i < self.seq().len(),
            self.seq()[i].0 == k,
        ensures
            self.has_key(k),
            self.rule_at(k) == self.seq()[i].1,
    {
        assert(self.has_key(k));
        assert forall|a: int, b: int| 0 <= a < b < self.seq().len() implies self.seq()[a].0
            != self.seq()[b].0 by {
            assert(seq_lt(self.seq()[a].0, self.seq()[b].0));
            lemma_seq_lt_irrefl(self.seq()[a].0);
        }
        lemma_last_rule_with_key(self.seq(), k, i);
    }

    pub fn new() -> (m: RuleMap)
        ensures
            m.seq().len() == 0,
            m.wf(),
    {
        RuleMap { entries: Vec::new() }
    }

    pub fn len(&self) -> (n: usize)
        ensures
            n == self.seq().len(),
    {
        self.entries.len()
    }

    pub fn is_empty(&self) -> (b: bool)
        ensures
            b == (self.seq().len() == 0),
    {
        self.entries.len() == 0
    }

    /// The key of entry `i`.
    pub fn key_at(&self, i: usize) -> (k: &String)
        requires
            i < self.seq().len(),
        ensures
            k@ == self.seq()[i as int].0,
    {
        &self.entries[i].0
    }

    /// The rule of entry `i`.
    pub fn rule_at_index(&self, i: usize) -> (r: &Rule)
        requires
            i < self.seq().len(),
        ensures
            *r == self.seq()[i as int].1,
    {
        &self.entries[i].1
    }

    /// Is the key of entry `i` below `k`?
    fn key_below(&self, i: usize, k: &Vec<char>) -> (r: bool)
        requires
            i < self.seq().len(),
        ensures
            r == seq_lt(self.seq()[i as int].0, k@),
    {
        let ec = to_chars(self.entries[i].0.as_str());
        chars_lt(&ec, k)
    }

    /// Is the key of entry `i` equal to `k`?
    fn key_equals(&self, i: usize, k: &Vec<char>) -> (r: bool)
        requires
            i < self.seq().len(),
        ensures
            r == (self.seq()[i as int].0 == k@),
    {
        let ec = to_chars(self.entries[i].0.as_str());
        chars_eq(&ec, k)
    }

    /// Position of `key`, if present.
    pub fn position(&self, key: &str) -> (r: Option<usize>)
        requires
            self.wf(),
        ensures
            match r {
                Some(i) => i < self.seq().len() && self.seq()[i as int].0 == key@,
                None => !self.has_key(key@),
            },
    {
        let k = to_chars(key);
        let mut i: usize = 0;
        while i < self.entries.len()
            invariant
                i <= self.seq().len(),
                self.seq().len() == self.entries@.len(),
                k@ == key@,
                forall|j: int| 0 <= j < i ==> self.seq()[j].0 != key@,
            decreases self.entries.len() - i,
        {
            if self.key_equals(i, &k) {
                return Some(i);
            }
            i = i + 1;
        }
        None
    }

    pub fn contains_key(&self, key: &str) -> (b: bool)
        requires
            self.wf(),
        ensures
            b == self.has_key(key@),
    {
        self.position(key).is_some()
    }

    /// The rule stored under `key`.
    pub fn get(&self, key: &str) -> (r: Option<&Rule>)
        requires
            self.wf(),
        ensures
            match r {
                Some(rule) => self.has_key(key@) && *rule == self.rule_at(key@),
                None => !self.has_key(key@),
            },
    {
        match self.position(key) {
            Some(i) => {
                proof {
                    self.lemma_key_index(i as int, key@);
                }
                Some(&self.entries[i].1)
            },
            None => None,
        }
    }

    /// Insert or overwrite the rule under `key`.
    pub fn insert(&mut self, key: String, rule: Rule)
        requires
            old(self).wf(),
        ensures
            final(self).wf(),
            final(self).map() == old(self).map().insert(key@, rule),
    {
        let ghost k = key@;
        let ghost before = self.seq();
        let kc = to_chars(key.as_str());
        // First position whose key is not below `key`.
        let mut i: usize = 0;
        while i < self.entries.len() && self.key_below(i, &kc)
            invariant
                self.wf(),
                self.seq() == before,
                self.seq().len() == self.entries@.len(),
                kc@ == k,
                i <= self.seq().len(),
                forall|j: int| 0 <= j < i ==> seq_lt(#[trigger] self.seq()[j].0, k),
            decreases self.entries.len() - i,
        {
            i = i + 1;
        }
        let found = i < self.entries.len() && self.key_equals(i, &kc);
        if found {
            self.entries.set(i, (key, rule));
            proof {
                let after = self.seq();
                assert(after == before.update(i as int, (k, rule)));
                assert forall|a: int, b: int| 0 <= a < b < after.len() implies seq_lt(
                    #[trigger] after[a].0,
                    #[trigger] after[b].0,
                ) by {
                    assert(after[a].0 == before[a].0);
                    assert(after[b].0 == before[b].0);
                }
                assert(self.wf());
                assert forall|q: Seq<char>| #[trigger] self.map().dom().contains(q) <==> old(self).map().insert(k, rule).dom().contains(q) by {
                    if q == k {
                        assert(after[i as int].0 == q);
                    }
                    if old(self).has_key(q) {
                        let j = choose|j: int| 0 <= j < before.len() && #[trigger] before[j].0 == q;
                        assert(after[j].0 == q);
                    }
                    if self.has_key(q) {
                        let j = choose|j: int| 0 <= j < after.len() && #[trigger] after[j].0 == q;
                        assert(before[j].0 == q);
                    }
                }
                assert forall|q: Seq<char>| #[trigger] self.map().dom().contains(q) implies self.map()[q] == old(self).map().insert(k, rule)[q] by {
                    let j = choose|j: int| 0 <= j < after.len() && #[trigger] after[j].0 == q;
                    self.lemma_key_index(j, q);
                    if q != k {
                        assert(before[j].0 == q);
                        old(self).lemma_key_index(j, q);
                    }
                }
                assert(self.map() =~= old(self).map().insert(k, rule));
            }
        } else {
            self.entries.insert(i, (key, rule));
            proof {
                let after = self.seq();
                assert(after == before.insert(i as int, (k, rule)));
                if i < before.len() {
                    lemma_seq_lt_total(before[i as int].0, k);
                    assert(seq_lt(k, before[i as int].0));
                }
                assert forall|a: int, b: int| 0 <= a < b < after.len() implies seq_lt(
                    #[trigger] after[a].0,
                    #[trigger] after[b].0,
                ) by {
                    if b < i {
                        assert(after[a] == before[a] && after[b] == before[b]);
                    } else if b == i {
                        assert(after[a] == before[a]);
                    } else if a == i {
                        assert(after[b] == before[b - 1]);
                        if b - 1 > i {
                            assert(seq_lt(before[i as int].0, before[b - 1].0));
                            lemma_seq_lt_trans(k, before[i as int].0, before[b - 1].0);
                        }
                    } else if a < i {
                        assert(after[a] == before[a] && after[b] == before[b - 1]);
                        if b - 1 > a {
                        } else {
                        }
                    } else {
                        assert(after[a] == before[a - 1] && after[b] == before[b - 1]);
                    }
                }
                assert(self.wf());
                assert forall|j: int| 0 <= j < before.len() implies before[j].0 != k by {
                    if j < i {
                        assert(seq_lt(before[j].0, k));
                        lemma_seq_lt_irrefl(k);
                    } else {
                        if j > i {
                            assert(seq_lt(before[i as int].0, before[j].0));
                            lemma_seq_lt_trans(k, before[i as int].0, before[j].0);
                        }
                        lemma_seq_lt_irrefl(k);
                    }
                }
                assert forall|q: Seq<char>| #[trigger] self.map().dom().contains(q) <==> old(self).map().insert(k, rule).dom().contains(q) by {
                    if q == k {
                        assert(after[i as int].0 == q);
                    }
                    if old(self).has_key(q) {
                        let j = choose|j: int| 0 <= j < before.len() && #[trigger] before[j].0 == q;
                        if j < i {
                            assert(after[j].0 == q);
                        } else {
                            assert(after[j + 1].0 == q);
                        }
                    }
                    if self.has_key(q) {
                        let j = choose|j: int| 0 <= j < after.len() && #[trigger] after[j].0 == q;
                        if j < i {
                            assert(before[j].0 == q);
                        } else if j > i {
                            assert(before[j - 1].0 == q);
                        }
                    }
                }
                assert forall|q: Seq<char>| #[trigger] self.map().dom().contains(q) implies self.map()[q] == old(self).map().insert(k, rule)[q] by {
                    let j = choose|j: int| 0 <= j < after.len() && #[trigger] after[j].0 == q;
                    self.lemma_key_index(j, q);
                    if j < i {
                        assert(before[j].0 == q);
                        old(self).lemma_key_index(j, q);
                    } else if j > i {
                        assert(before[j - 1].0 == q);
                        old(self).lemma_key_index(j - 1, q);
                    }
                }
                assert(self.map() =~= old(self).map().insert(k, rule));
            }
        }
    }
}

/// Parsed contents of a rules file.
#[derive(Debug, PartialEq)]
pub struct AppConfig {
    pub poll_interval_ms: Option<u64>,
    pub rules: RuleMap,
    pub auto_game: Option<AutoGameConfig>,
}

impl AppConfig {
    /// The empty config (what an empty rules file parses to).
    pub fn new() -> (c: AppConfig)
        ensures
            c.poll_interval_ms is None,
            c.rules.seq().len() == 0,
            c.rules.wf(),
            c.auto_game is None,
    {
        AppConfig { poll_interval_ms: None, rules: RuleMap::new(), auto_game: None }
    }

    /// `Rule::name` is not stored in the file (the table key is the name),
    /// so restore it from the key.
    pub fn fill_rule_names(&mut self)
        requires
            old(self).rules.wf(),
        ensures
            final(self).rules.wf(),
            final(self).poll_interval_ms == old(self).poll_interval_ms,
            final(self).auto_game == old(self).auto_game,
            final(self).rules.seq().len() == old(self).rules.seq().len(),
            forall|i: int|
                0 <= i < final(self).rules.seq().len() ==> {
                    let (k, r) = #[trigger] final(self).rules.seq()[i];
                    let (k0, r0) = old(self).rules.seq()[i];
                    &&& k == k0
                    &&& r.name@ == k
                    &&& r == (Rule { name: r.name, ..r0 })
                },
    {
        self.rules.fill_names();
    }
}

impl RuleMap {
    /// Set every rule's `name` to its key.
    pub fn fill_names(&mut self)
        requires
            old(self).wf(),
        ensures
            final(self).wf(),
            final(self).seq().len() == old(self).seq().len(),
            forall|i: int|
                0 <= i < final(self).seq().len() ==> {
                    let (k, r) = #[trigger] final(self).seq()[i];
                    let (k0, r0) = old(self).seq()[i];
                    &&& k == k0
                    &&& r.name@ == k
                    &&& r == (Rule { name: r.name, ..r0 })
                },
    {
        let ghost before = self.seq();
        let mut i: usize = 0;
        while i < self.entries.len()
            invariant
                i <= self.entries@.len(),
                self.seq().len() == before.len(),
                self.seq().len() == self.entries@.len(),
                forall|j: int| 0 <= j < self.seq().len() ==> #[trigger] self.seq()[j].0 == before[j].0,
                forall|j: int|
                    0 <= j < i ==> {
                        let (k, r) = #[trigger] self.seq()[j];
                        &&& r.name@ == k
                        &&& r == (Rule { name: r.name, ..before[j].1 })
                    },
                forall|j: int| i <= j < self.seq().len() ==> #[trigger] self.seq()[j] == before[j],
            decreases self.entries.len() - i,
        {
            let key = self.entries[i].0.clone();
            let mut rule = self.entries[i].1.clone();
            rule.name = key.clone();
            let ghost prev = self.seq();
            self.entries.set(i, (key, rule));
            proof {
                assert(self.seq() == prev.update(i as int, (prev[i as int].0, rule)));
            }
            i = i + 1;
        }
        proof {
            assert forall|a: int, b: int| 0 <= a < b < self.seq().len() implies seq_lt(
                #[trigger] self.seq()[a].0,
                #[trigger] self.seq()[b].0,
            ) by {
                assert(self.seq()[a].0 == before[a].0);
                assert(self.seq()[b].0 == before[b].0);
            }
        }
    }
}

// ---------------------------------------------------------------------------
// IPC messages (client side) and the rule summary the daemon publishes.
// ---------------------------------------------------------------------------

#[derive(Debug, Clone, PartialEq, Eq)]
pub struct RuleInfo {
    pub name: String,
    pub match_name: String,
    pub tier: Option<Tier>,
    pub nice: Option<i32>,
    /// Percent of one core this rule caps CPU at (None = no hard cap).
    pub cpu_cap_percent: Option<u32>,
}

#[derive(Debug, PartialEq, Eq)]
pub struct GamePrompt {
    pub name: String,
    pub pid: u32,
}

impl Clone for GamePrompt {
    fn clone(&self) -> (r: Self)
        ensures
            r == *self,
    {
        GamePrompt { name: self.name.clone(), pid: self.pid }
    }
}

#[derive(Debug, Clone, Copy, PartialEq, Eq, Structural)]
pub enum GameAnswer {
    /// Apply Game tier and persist a rule for this process name.
    Yes,
    /// Leave at Software and persist a rule so it is never auto-flagged again.
    No,
    /// Apply Game tier for this running instance only.
    NotNow,
}

#[derive(Debug, Clone, PartialEq)]
pub enum ClientMsg {
    Hello { client_kind: String },
    /// Set a preset for `pid` and persist a rule for its process name.
    SetTier { pid: u32, tier: Tier },
    /// Set (Some) or remove (None) the hard CPU cap for a process name.
    SetCap { name: String, pct: Option<u32> },
    ConfirmGame { name: String, answer: GameAnswer },
    SetPollInterval { poll_interval_ms: u64 },
    RequestSnapshot,
}

/// The summary line the daemon publishes for a rule.
pub fn rule_info(r: &Rule) -> (i: RuleInfo)
    ensures
        i.name@ == r.name@,
        i.match_name@ == r.match_name@,
        i.tier == r.tier,
        i.nice == r.nice,
        i.cpu_cap_percent == (match r.cgroup {
            Some(c) => c.cpu_cap_percent,
            None => None,
        }),
{
    RuleInfo {
        name: r.name.clone(),
        match_name: r.match_name.clone(),
        tier: r.tier,
        nice: r.nice,
        cpu_cap_percent: match &r.cgroup {
            Some(c) => c.cpu_cap_percent,
            None => None,
        },
    }
}

} // verus!
