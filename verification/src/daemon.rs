//! The daemon's decisions: which target a process gets, what a GUI request
//! changes, which names are asked about, and the per-name bookkeeping of
//! prompts.  Scanning, syscalls, sockets and timing are the caller's.

use vstd::prelude::*;

use crate::common::{
    AppConfig, AutoGameConfig, CgroupLimits, ClientMsg, GameAnswer, GamePrompt, Preset, Tier,
    tier_preset, MIN_POLL_INTERVAL_MS, MAX_POLL_INTERVAL_MS, DEFAULT_POLL_INTERVAL_MS,
};
use crate::game_detect::{GameFlags, de_critical_spec, is_de_critical};
use crate::rules::{ApplyTarget, Resolved, RuleSet, index_by_match, resolve_spec, auto_game_target};
use crate::sync::{Sync, preset_rule_ok, cap_rule_ok};
use crate::known_games::KnownGames;
use crate::text::{chars_eq, chars_lt, lemma_seq_lt_irrefl, lemma_seq_lt_total, lemma_seq_lt_trans, seq_lt, str_eq, to_chars};

verus! {

// ---------------------------------------------------------------------------
// Sets of process names.
// ---------------------------------------------------------------------------

/// The names held by a list of strings.
pub open spec fn set_of(s: Seq<String>) -> Set<Seq<char>>
    decreases s.len(),
{
    if s.len() == 0 {
        Set::empty()
    } else {
        set_of(s.drop_last()).insert(s.last()@)
    }
}

proof fn lemma_set_of_take(s: Seq<String>, i: int)
    requires
        0 <= i < s.len(),
    ensures
        set_of(s.take(i + 1)) == set_of(s.take(i)).insert(s[i]@),
{
    assert(s.take(i + 1).drop_last() =~= s.take(i));
}

/// A set of process names.
#[derive(Debug)]
pub struct NameSet {
    names: Vec<String>,
}

impl NameSet {
    pub closed spec fn set(&self) -> Set<Seq<char>> {
        set_of(self.names@)
    }

    pub fn new() -> (s: NameSet)
        ensures
            s.set() == Set::<Seq<char>>::empty(),
    {
        NameSet { names: Vec::new() }
    }

    pub fn contains(&self, name: &str) -> (r: bool)
        ensures
            r == self.set().contains(name@),
    {
        let mut i: usize = 0;
        proof {
            assert(self.names@.take(0) =~= seq![]);
        }
        while i < self.names.len()
            invariant
                i <= self.names@.len(),
                !set_of(self.names@.take(i as int)).contains(name@),
            decreases self.names.len() - i,
        {
            proof {
                lemma_set_of_take(self.names@, i as int);
            }
            if str_eq(self.names[i].as_str(), name) {
                proof {
                    assert(self.names@.take(self.names@.len() as int) =~= self.names@);
                    lemma_set_of_prefix(self.names@, i as int + 1);
                }
                return true;
            }
            i = i + 1;
        }
        proof {
            assert(self.names@.take(self.names@.len() as int) =~= self.names@);
        }
        false
    }

    pub fn insert(&mut self, name: &str)
        ensures
            final(self).set() == old(self).set().insert(name@),
    {
        if !self.contains(name) {
            let ghost before = self.names@;
            self.names.push(name.to_owned());
            proof {
                assert(self.names@.drop_last() =~= before);
            }
        } else {
            proof {
                assert(self.set() =~= old(self).set().insert(name@));
            }
        }
    }

    /// Keep the names not equal to `drop_name` and, when `keep` is given,
    /// held by it.
    fn retain_where(&mut self, drop_name: Option<&str>, keep: Option<&NameSet>)
        ensures
            final(self).set() == old(self).set().filter(
                |x: Seq<char>|
                    !(drop_name matches Some(d) && x == d@) && (keep matches Some(k) ==> k.set().contains(x)),
            ),
    {
        let ghost pred = |x: Seq<char>|
            !(drop_name matches Some(d) && x == d@) && (keep matches Some(k) ==> k.set().contains(x));
        let mut out: Vec<String> = Vec::new();
        let mut i: usize = 0;
        proof {
            assert(self.names@.take(0) =~= seq![]);
            assert(set_of(out@) =~= set_of(self.names@.take(0)).filter(pred));
        }
        while i < self.names.len()
            invariant
                i <= self.names@.len(),
                pred == (|x: Seq<char>|
                    !(drop_name matches Some(d) && x == d@) && (keep matches Some(k) ==> k.set().contains(x))),
                set_of(out@) == set_of(self.names@.take(i as int)).filter(pred),
            decreases self.names.len() - i,
        {
            let n = &self.names[i];
            let dropped = match drop_name {
                Some(d) => str_eq(n.as_str(), d),
                None => false,
            };
            let kept = match keep {
                Some(k) => k.contains(n.as_str()),
                None => true,
            };
            proof {
                assert(pred(n@) == (!dropped && kept));
                lemma_set_of_take(self.names@, i as int);
            }
            let ghost old_out = out@;
            if !dropped && kept {
                out.push(n.clone());
                proof {
                    assert(out@.drop_last() =~= old_out);
                    assert(set_of(out@) =~= set_of(self.names@.take(i + 1)).filter(pred));
                }
            } else {
                proof {
                    assert(set_of(out@) =~= set_of(self.names@.take(i + 1)).filter(pred));
                }
            }
            i = i + 1;
        }
        proof {
            assert(self.names@.take(self.names@.len() as int) =~= self.names@);
        }
        self.names = out;
    }

    pub fn remove(&mut self, name: &str)
        ensures
            final(self).set() == old(self).set().remove(name@),
    {
        self.retain_where(Some(name), None);
        proof {
            assert(self.set() =~= old(self).set().remove(name@));
        }
    }

    /// Keep only the names also in `keep`.
    pub fn retain_in(&mut self, keep: &NameSet)
        ensures
            final(self).set() == old(self).set().intersect(keep.set()),
    {
        self.retain_where(None, Some(keep));
        proof {
            assert(self.set() =~= old(self).set().intersect(keep.set()));
        }
    }
}

proof fn lemma_set_of_prefix(s: Seq<String>, i: int)
    requires
        0 <= i <= s.len(),
    ensures
        set_of(s.take(i)).subset_of(set_of(s)),
    decreases s.len() - i,
{
    if i < s.len() {
        lemma_set_of_prefix(s, i + 1);
        lemma_set_of_take(s, i);
    } else {
        assert(s.take(i) =~= s);
    }
}

// ---------------------------------------------------------------------------
// Small decisions of the poll loop.
// ---------------------------------------------------------------------------

/// A poll interval clamped to `MIN_POLL_INTERVAL_MS..=MAX_POLL_INTERVAL_MS`.
pub open spec fn clamp_poll(v: u64) -> u64 {
    if v < MIN_POLL_INTERVAL_MS {
        MIN_POLL_INTERVAL_MS
    } else if v > MAX_POLL_INTERVAL_MS {
        MAX_POLL_INTERVAL_MS
    } else {
        v
    }
}

pub fn clamp_poll_interval(v: u64) -> (r: u64)
    ensures
        r == clamp_poll(v),
{
    if v < MIN_POLL_INTERVAL_MS {
        MIN_POLL_INTERVAL_MS
    } else if v > MAX_POLL_INTERVAL_MS {
        MAX_POLL_INTERVAL_MS
    } else {
        v
    }
}

/// The poll interval in effect: the config's key wins over the command
/// line, which wins over the default; clamped.
pub fn effective_poll_interval(config_poll_ms: Option<u64>, arg_poll_ms: Option<u64>) -> (r: u64)
    ensures
        r == clamp_poll(
            match config_poll_ms {
                Some(v) => v,
                None => match arg_poll_ms {
                    Some(v) => v,
                    None => DEFAULT_POLL_INTERVAL_MS,
                },
            },
        ),
{
    let v = match config_poll_ms {
        Some(v) => v,
        None => match arg_poll_ms {
            Some(v) => v,
            None => DEFAULT_POLL_INTERVAL_MS,
        },
    };
    clamp_poll_interval(v)
}

/// The GUI's label for a `/proc/<pid>/stat` state letter.
pub open spec fn status_label_spec(state: char) -> Seq<char> {
    if state == 'R' {
        "running"@
    } else if state == 'S' {
        "sleeping"@
    } else if state == 'D' {
        "io-wait"@
    } else if state == 'Z' {
        "zombie"@
    } else if state == 'T' {
        "stopped"@
    } else if state == 'I' {
        "idle"@
    } else {
        "other"@
    }
}

pub fn status_label(state: char) -> (r: String)
    ensures
        r@ == status_label_spec(state),
{
    let s = if state == 'R' {
        "running"
    } else if state == 'S' {
        "sleeping"
    } else if state == 'D' {
        "io-wait"
    } else if state == 'Z' {
        "zombie"
    } else if state == 'T' {
        "stopped"
    } else if state == 'I' {
        "idle"
    } else {
        "other"
    };
    s.to_owned()
}

/// Another user's process, for a daemon without root rights: every
/// scheduling write to it would be refused, so it is left alone.
pub fn is_untouchable(uid: u32, our_uid: u32, privileged: bool) -> (r: bool)
    ensures
        r == (uid != our_uid && !privileged),
{
    uid != our_uid && !privileged
}

/// The target a process gets: the rule / heuristic resolution, except that
/// desktop-critical processes are never touched, a "Not now" name gets the
/// auto-game target for its running instances, and other users' processes
/// are left alone by an unprivileged daemon.
pub open spec fn target_spec(
    rules: Map<Seq<char>, crate::common::Rule>,
    auto: AutoGameConfig,
    name: Seq<char>,
    flags: GameFlags,
    age_secs: u64,
    instance_game: bool,
    untouchable: bool,
) -> Resolved {
    let r0 = resolve_spec(rules, auto, name, flags, age_secs);
    let r1 = if r0 is Untouched && instance_game {
        Resolved::Apply(auto_game_target(auto))
    } else {
        r0
    };
    if de_critical_spec(name) || untouchable {
        Resolved::Untouched
    } else {
        r1
    }
}

/// The managed-cgroup request of a target: the rule key (`game` for the
/// auto-game target) and the limits; nothing for an untouched process.
pub open spec fn cgroup_request_spec(r: Resolved) -> (Seq<char>, Option<CgroupLimits>) {
    match r {
        Resolved::Apply(t) => (
            match t.rule {
                Some(k) => k@,
                None => "game"@,
            },
            t.cgroup,
        ),
        Resolved::Untouched => (seq![], None),
    }
}

pub fn cgroup_request(r: &Resolved) -> (out: (String, Option<CgroupLimits>))
    ensures
        out.0@ == cgroup_request_spec(*r).0,
        out.1 == cgroup_request_spec(*r).1,
{
    match r {
        Resolved::Apply(t) => (
            match &t.rule {
                Some(k) => k.clone(),
                None => "game".to_owned(),
            },
            crate::common::clone_opt_limits(&t.cgroup),
        ),
        Resolved::Untouched => (String::new(), None),
    }
}

/// The rule set of a config.
pub open spec fn ruleset_of(rs: RuleSet, cfg: AppConfig) -> bool {
    &&& rs.wf()
    &&& rs.rules_map() == index_by_match(cfg.rules.seq())
    &&& rs.auto_section() == (match cfg.auto_game {
        Some(a) => a,
        None => AutoGameConfig { tier: None, nice: None, ionice_class: None, ionice_priority: None },
    })
}

/// The prompts other than those about `name`.
pub open spec fn prompts_without(s: Seq<GamePrompt>, name: Seq<char>) -> Seq<GamePrompt>
    decreases s.len(),
{
    if s.len() == 0 {
        seq![]
    } else if s.last().name@ == name {
        prompts_without(s.drop_last(), name)
    } else {
        prompts_without(s.drop_last(), name).push(s.last())
    }
}

/// What the caller does after a GUI request.
#[derive(Debug)]
pub enum MsgReply {
    /// Broadcast a snapshot, announcing this poll interval.
    Snapshot { poll_interval_ms: u64 },
    /// Apply `preset` to every running process named `name` at once, then
    /// broadcast a snapshot.
    ApplyPreset { name: String, preset: Preset, poll_interval_ms: u64 },
    /// The pid is not in the process table (it exited): nothing changed.
    UnknownPid { pid: u32 },
}

/// The pids of a table, in order.
pub open spec fn pids_of(cur: Seq<(u32, bool)>) -> Seq<u32> {
    cur.map_values(|e: (u32, bool)| e.0)
}

/// The pids of this poll (`cur`, each with whether its row changed) that
/// were not in the previous table.
pub open spec fn added_pids(prev: Seq<u32>, cur: Seq<(u32, bool)>) -> Seq<u32>
    decreases cur.len(),
{
    if cur.len() == 0 {
        seq![]
    } else {
        let rest = added_pids(prev, cur.drop_last());
        if prev.contains(cur.last().0) {
            rest
        } else {
            rest.push(cur.last().0)
        }
    }
}

/// The pids of this poll that were in the previous table and whose row
/// changed.
pub open spec fn updated_pids(prev: Seq<u32>, cur: Seq<(u32, bool)>) -> Seq<u32>
    decreases cur.len(),
{
    if cur.len() == 0 {
        seq![]
    } else {
        let rest = updated_pids(prev, cur.drop_last());
        if prev.contains(cur.last().0) && cur.last().1 {
            rest.push(cur.last().0)
        } else {
            rest
        }
    }
}

/// The pids of the previous table that are gone from this poll.
pub open spec fn removed_pids(prev: Seq<u32>, cur: Seq<u32>) -> Seq<u32>
    decreases prev.len(),
{
    if prev.len() == 0 {
        seq![]
    } else {
        let rest = removed_pids(prev.drop_last(), cur);
        if cur.contains(prev.last()) {
            rest
        } else {
            rest.push(prev.last())
        }
    }
}

/// A pid is reported added exactly when it is in this poll and was not in
/// the previous one, and removed exactly when it was and is no longer.
pub proof fn lemma_diff_membership(prev: Seq<u32>, cur: Seq<(u32, bool)>, p: u32)
    ensures
        added_pids(prev, cur).contains(p) <==> (pids_of(cur).contains(p) && !prev.contains(p)),
        removed_pids(prev, pids_of(cur)).contains(p) <==> (prev.contains(p) && !pids_of(cur).contains(p)),
{
    lemma_added_membership(prev, cur, p);
    lemma_removed_membership(prev, pids_of(cur), p);
}

proof fn lemma_push_contains(s: Seq<u32>, x: u32, p: u32)
    ensures
        s.push(x).contains(p) <==> (s.contains(p) || x == p),
{
    if s.push(x).contains(p) {
        let j = choose|j: int| 0 <= j < s.len() + 1 && s.push(x)[j] == p;
        if j < s.len() {
            assert(s[j] == p);
        }
    }
    if s.contains(p) {
        let j = choose|j: int| 0 <= j < s.len() && s[j] == p;
        assert(s.push(x)[j] == p);
    }
    if x == p {
        assert(s.push(x)[s.len() as int] == p);
    }
}

proof fn lemma_added_membership(prev: Seq<u32>, cur: Seq<(u32, bool)>, p: u32)
    ensures
        added_pids(prev, cur).contains(p) <==> (pids_of(cur).contains(p) && !prev.contains(p)),
    decreases cur.len(),
{
    if cur.len() > 0 {
        let c = cur.drop_last();
        let l = cur.last().0;
        lemma_added_membership(prev, c, p);
        assert(pids_of(cur) =~= pids_of(c).push(l));
        lemma_push_contains(pids_of(c), l, p);
        lemma_push_contains(added_pids(prev, c), l, p);
    } else {
        assert(pids_of(cur) =~= seq![]);
    }
}

proof fn lemma_removed_membership(prev: Seq<u32>, cur: Seq<u32>, p: u32)
    ensures
        removed_pids(prev, cur).contains(p) <==> (prev.contains(p) && !cur.contains(p)),
    decreases prev.len(),
{
    if prev.len() > 0 {
        let q = prev.drop_last();
        lemma_removed_membership(q, cur, p);
        let rest = removed_pids(q, cur);
        assert(prev =~= q.push(prev.last()));
        if prev.contains(p) && !q.contains(p) {
            let j = choose|j: int| 0 <= j < prev.len() && prev[j] == p;
            if j < q.len() {
                assert(q[j] == p);
            }
        }
        if q.contains(p) {
            let j = choose|j: int| 0 <= j < q.len() && q[j] == p;
            assert(prev[j] == p);
        }
        if rest.contains(p) {
            let j = choose|j: int| 0 <= j < rest.len() && rest[j] == p;
            assert(rest.push(prev.last())[j] == p);
        }
        if !cur.contains(prev.last()) {
            assert(rest.push(prev.last())[rest.len() as int] == prev.last());
            if rest.push(prev.last()).contains(p) && !rest.contains(p) {
                let j = choose|j: int| 0 <= j < rest.len() + 1 && rest.push(prev.last())[j] == p;
                if j < rest.len() {
                    assert(rest[j] == p);
                }
            }
        }
    }
}

fn contains_pid(v: &Vec<u32>, p: u32) -> (r: bool)
    ensures
        r == v@.contains(p),
{
    let mut i: usize = 0;
    while i < v.len()
        invariant
            i <= v@.len(),
            forall|j: int| 0 <= j < i ==> v@[j] != p,
        decreases v.len() - i,
    {
        if v[i] == p {
            proof {
                assert(v@[i as int] == p);
            }
            return true;
        }
        i = i + 1;
    }
    false
}

/// The difference between two polls' process tables: added, updated and
/// removed pids.  `prev` holds the previous table's pids; `cur` this poll's
/// pids, each with whether its row differs from the previous one (a
/// comparison of measured values that the caller makes).
pub fn diff_pids(prev: &Vec<u32>, cur: &Vec<(u32, bool)>) -> (r: (Vec<u32>, Vec<u32>, Vec<u32>))
    ensures
        r.0@ == added_pids(prev@, cur@),
        r.1@ == updated_pids(prev@, cur@),
        r.2@ == removed_pids(prev@, pids_of(cur@)),
{
    let mut added: Vec<u32> = Vec::new();
    let mut updated: Vec<u32> = Vec::new();
    let mut cur_pids: Vec<u32> = Vec::new();
    let mut i: usize = 0;
    while i < cur.len()
        invariant
            i <= cur@.len(),
            added@ == added_pids(prev@, cur@.take(i as int)),
            updated@ == updated_pids(prev@, cur@.take(i as int)),
            cur_pids@ == pids_of(cur@.take(i as int)),
        decreases cur.len() - i,
    {
        let (p, changed) = cur[i];
        proof {
            assert(cur@.take(i + 1).drop_last() =~= cur@.take(i as int));
            assert(cur@.take(i + 1).last() == cur@[i as int]);
            assert(pids_of(cur@.take(i + 1)) =~= pids_of(cur@.take(i as int)).push(p));
        }
        let was = contains_pid(prev, p);
        if !was {
            added.push(p);
        } else if changed {
            updated.push(p);
        }
        cur_pids.push(p);
        i = i + 1;
    }
    proof {
        assert(cur@.take(cur@.len() as int) =~= cur@);
    }
    let mut removed: Vec<u32> = Vec::new();
    let mut k: usize = 0;
    while k < prev.len()
        invariant
            k <= prev@.len(),
            cur_pids@ == pids_of(cur@),
            removed@ == removed_pids(prev@.take(k as int), pids_of(cur@)),
        decreases prev.len() - k,
    {
        let p = prev[k];
        proof {
            assert(prev@.take(k + 1).drop_last() =~= prev@.take(k as int));
            assert(prev@.take(k + 1).last() == p);
        }
        if !contains_pid(&cur_pids, p) {
            removed.push(p);
        }
        k = k + 1;
    }
    proof {
        assert(prev@.take(prev@.len() as int) =~= prev@);
    }
    (added, updated, removed)
}

/// One row of the process table, as far as prompting needs it.
#[derive(Debug)]
pub struct ProcSummary {
    pub name: String,
    pub pid: u32,
    pub game_detected: bool,
}

/// `new` is `old` with the rule for `name` pinned to `tier`'s preset.
pub open spec fn preset_upserted(old: Sync, new: Sync, name: Seq<char>, tier: Tier) -> bool {
    &&& new.active.rules.map().contains_key(name)
    &&& new.active.rules.map().remove(name) == old.active.rules.map().remove(name)
    &&& preset_rule_ok(old.active.rules.map().get(name), name, tier, new.active.rules.map()[name])
    &&& new.active.poll_interval_ms == old.active.poll_interval_ms
    &&& new.active.auto_game == old.active.auto_game
    &&& new.active_source == crate::sync::Source::Local
    &&& new.pending_local_write
}

/// `new` is `old` with the cap of the rule for `name` set or removed.
pub open spec fn cap_upserted(old: Sync, new: Sync, name: Seq<char>, pct: Option<u32>) -> bool {
    &&& new.active.rules.map().contains_key(name)
    &&& new.active.rules.map().remove(name) == old.active.rules.map().remove(name)
    &&& cap_rule_ok(old.active.rules.map().get(name), name, pct, new.active.rules.map()[name])
    &&& new.active.poll_interval_ms == old.active.poll_interval_ms
    &&& new.active.auto_game == old.active.auto_game
    &&& new.active_source == crate::sync::Source::Local
    &&& new.pending_local_write
}

/// The prompt bookkeeping of two daemon states is the same.
pub open spec fn same_prompts(a: Daemon, b: Daemon) -> bool {
    &&& a.pending_prompts == b.pending_prompts
    &&& a.prompted_names == b.prompted_names
    &&& a.instance_games == b.instance_games
    &&& a.suppressed_until_exit == b.suppressed_until_exit
}

/// What a GUI request does; `pid_name` is the name of the process with the
/// request's pid, when the table has it.
pub open spec fn client_msg_spec(
    old: Daemon,
    new: Daemon,
    msg: ClientMsg,
    pid_name: Option<Seq<char>>,
    poll_interval_ms: u64,
    reply: MsgReply,
) -> bool {
    match msg {
        ClientMsg::Hello { .. } => new == old && reply == (MsgReply::Snapshot { poll_interval_ms }),
        ClientMsg::RequestSnapshot => new == old && reply == (MsgReply::Snapshot { poll_interval_ms }),
        ClientMsg::SetPollInterval { poll_interval_ms: ms } => {
            &&& new.sync.active.poll_interval_ms == Some(clamp_poll(ms))
            &&& new.sync.active.rules == old.sync.active.rules
            &&& new.sync.active.auto_game == old.sync.active.auto_game
            &&& new.sync.active_source == crate::sync::Source::Local
            &&& new.sync.pending_local_write
            &&& same_prompts(old, new)
            &&& reply == (MsgReply::Snapshot { poll_interval_ms: clamp_poll(ms) })
        },
        ClientMsg::SetTier { pid, tier } => match pid_name {
            None => new == old && reply == (MsgReply::UnknownPid { pid }),
            Some(n) => {
                &&& preset_upserted(old.sync, new.sync, n, tier)
                &&& same_prompts(old, new)
                &&& reply matches MsgReply::ApplyPreset { name, preset, poll_interval_ms: p } && name@
                    == n && preset == tier_preset(tier) && p == poll_interval_ms
            },
        },
        ClientMsg::SetCap { name, pct } => {
            &&& cap_upserted(old.sync, new.sync, name@, pct)
            &&& same_prompts(old, new)
            &&& reply == (MsgReply::Snapshot { poll_interval_ms })
        },
        ClientMsg::ConfirmGame { name, answer } => {
            &&& new.pending_prompts@ == prompts_without(old.pending_prompts@, name@)
            &&& new.prompted_names == old.prompted_names
            &&& reply == (MsgReply::Snapshot { poll_interval_ms })
            &&& match answer {
                GameAnswer::Yes => {
                    &&& preset_upserted(old.sync, new.sync, name@, Tier::Game)
                    &&& new.instance_games == old.instance_games
                    &&& new.suppressed_until_exit == old.suppressed_until_exit
                },
                GameAnswer::No => {
                    &&& preset_upserted(old.sync, new.sync, name@, Tier::Software)
                    &&& new.instance_games == old.instance_games
                    &&& new.suppressed_until_exit == old.suppressed_until_exit
                },
                GameAnswer::NotNow => {
                    &&& new.sync == old.sync
                    &&& new.instance_games.set() == old.instance_games.set().insert(name@)
                    &&& new.suppressed_until_exit.set() == old.suppressed_until_exit.set().insert(
                        name@,
                    )
                },
            }
        },
    }
}

/// Order of (name, pid) pairs: by name, then by pid.
pub open spec fn pair_lt(a: (Seq<char>, u32), b: (Seq<char>, u32)) -> bool {
    seq_lt(a.0, b.0) || (a.0 == b.0 && a.1 < b.1)
}

pub open spec fn named(v: Seq<(String, u32)>) -> Seq<(Seq<char>, u32)> {
    v.map_values(|p: (String, u32)| (p.0@, p.1))
}

/// Strictly ascending (so each pair at most once).
pub open spec fn strictly_sorted(s: Seq<(Seq<char>, u32)>) -> bool {
    forall|i: int, j: int| 0 <= i < j < s.len() ==> pair_lt(#[trigger] s[i], #[trigger] s[j])
}

proof fn lemma_pair_lt_trans(a: (Seq<char>, u32), b: (Seq<char>, u32), c: (Seq<char>, u32))
    requires
        pair_lt(a, b),
        pair_lt(b, c),
    ensures
        pair_lt(a, c),
{
    if seq_lt(a.0, b.0) && seq_lt(b.0, c.0) {
        lemma_seq_lt_trans(a.0, b.0, c.0);
    }
}

proof fn lemma_pair_lt_total(a: (Seq<char>, u32), b: (Seq<char>, u32))
    ensures
        a != b ==> pair_lt(a, b) || pair_lt(b, a),
        !(pair_lt(a, b) && pair_lt(b, a)),
        !pair_lt(a, a),
{
    lemma_seq_lt_total(a.0, b.0);
    lemma_seq_lt_irrefl(a.0);
    lemma_seq_lt_irrefl(b.0);
}

fn pair_less(a: &(String, u32), name: &Vec<char>, pid: u32) -> (r: bool)
    ensures
        r == pair_lt((a.0@, a.1), (name@, pid)),
{
    let ac = to_chars(a.0.as_str());
    if chars_lt(&ac, name) {
        true
    } else if chars_eq(&ac, name) {
        a.1 < pid
    } else {
        false
    }
}

fn insert_sorted(v: &mut Vec<(String, u32)>, name: String, pid: u32)
    requires
        strictly_sorted(named(old(v)@)),
    ensures
        strictly_sorted(named(final(v)@)),
        forall|x: (Seq<char>, u32)|
            named(final(v)@).contains(x) <==> (named(old(v)@).contains(x) || x == (name@, pid)),
{
    let nc = to_chars(name.as_str());
    let ghost s = named(v@);
    let ghost x = (name@, pid);
    let mut j: usize = 0;
    while j < v.len() && pair_less(&v[j], &nc, pid)
        invariant
            j <= v@.len(),
            s == named(v@),
            nc@ == name@,
            x == (name@, pid),
            forall|k: int| 0 <= k < j ==> pair_lt(#[trigger] s[k], x),
        decreases v.len() - j,
    {
        j = j + 1;
    }
    if j < v.len() {
        let same = chars_eq(&to_chars(v[j].0.as_str()), &nc) && v[j].1 == pid;
        if same {
            proof {
                assert(s[j as int] == x);
                assert(named(v@).contains(x));
            }
            return;
        }
    }
    proof {
        if j < s.len() {
            assert(s[j as int] != x);
            lemma_pair_lt_total(s[j as int], x);
            assert(pair_lt(x, s[j as int]));
            assert forall|k: int| j <= k < s.len() implies pair_lt(x, #[trigger] s[k]) by {
                if k > j {
                    lemma_pair_lt_trans(x, s[j as int], s[k]);
                }
            }
        }
    }
    v.insert(j, (name, pid));
    proof {
        let t = named(v@);
        assert(t =~= s.insert(j as int, x));
        assert forall|a: int, b: int| 0 <= a < b < t.len() implies pair_lt(#[trigger] t[a], #[trigger] t[b]) by {
            if b < j {
                assert(t[a] == s[a] && t[b] == s[b]);
            } else if b == j {
                assert(t[a] == s[a]);
            } else if a < j {
                assert(t[a] == s[a] && t[b] == s[b - 1]);
                lemma_pair_lt_trans(s[a], x, s[b - 1]);
            } else if a == j {
                assert(t[b] == s[b - 1]);
            } else {
                assert(t[a] == s[a - 1] && t[b] == s[b - 1]);
            }
        }
        assert forall|y: (Seq<char>, u32)| t.contains(y) <==> (s.contains(y) || y == x) by {
            if t.contains(y) {
                let k = choose|k: int| 0 <= k < t.len() && t[k] == y;
                if k < j {
                    assert(t[k] == s[k]);
                } else if k > j {
                    assert(t[k] == s[k - 1]);
                }
            }
            if s.contains(y) {
                let k = choose|k: int| 0 <= k < s.len() && s[k] == y;
                if k < j {
                    assert(t[k] == s[k]);
                } else {
                    assert(t[k + 1] == s[k]);
                }
            }
            if y == x {
                assert(t[j as int] == x);
            }
        }
    }
}

/// The daemon's decision state: the config sync, the rule set built from
/// the active config, the open game prompts, and per-name memory.
pub struct Daemon {
    pub sync: Sync,
    pub ruleset: RuleSet,
    pub pending_prompts: Vec<GamePrompt>,
    /// Names asked about while an instance runs.
    pub prompted_names: NameSet,
    /// "Not now" names: auto-game target for the running instances only.
    pub instance_games: NameSet,
    /// Names not to ask about again until every instance has exited.
    pub suppressed_until_exit: NameSet,
}

impl Daemon {
    pub open spec fn wf(&self) -> bool {
        &&& self.sync.wf()
        &&& ruleset_of(self.ruleset, self.sync.active)
    }

    pub fn new(sync: Sync) -> (d: Daemon)
        requires
            sync.wf(),
        ensures
            d.wf(),
            d.sync == sync,
            d.pending_prompts@.len() == 0,
            d.prompted_names.set() == Set::<Seq<char>>::empty(),
            d.instance_games.set() == Set::<Seq<char>>::empty(),
            d.suppressed_until_exit.set() == Set::<Seq<char>>::empty(),
    {
        let ruleset = RuleSet::from_config(&sync.active);
        Daemon {
            sync,
            ruleset,
            pending_prompts: Vec::new(),
            prompted_names: NameSet::new(),
            instance_games: NameSet::new(),
            suppressed_until_exit: NameSet::new(),
        }
    }

    /// Rebuild the rule set after the active config changed.
    pub fn reload_rules(&mut self)
        requires
            old(self).sync.wf(),
        ensures
            final(self).wf(),
            final(self).sync == old(self).sync,
            final(self).pending_prompts == old(self).pending_prompts,
            final(self).prompted_names == old(self).prompted_names,
            final(self).instance_games == old(self).instance_games,
            final(self).suppressed_until_exit == old(self).suppressed_until_exit,
    {
        self.ruleset = RuleSet::from_config(&self.sync.active);
    }

    /// Fresh names (no rule, never asked, not suppressed) get fresh
    /// heuristic work every poll; the others reuse cached flags.
    pub fn undecided(&self, name: &str) -> (r: bool)
        requires
            self.wf(),
        ensures
            r == (!self.ruleset.rules_map().dom().contains(name@) && !self.prompted_names.set().contains(
                name@,
            ) && !self.suppressed_until_exit.set().contains(name@)),
    {
        !self.ruleset.has_rule(name) && !self.prompted_names.contains(name)
            && !self.suppressed_until_exit.contains(name)
    }

    /// The target of one process.
    pub fn target_for(&self, name: &str, flags: &GameFlags, age_secs: u64, untouchable: bool) -> (r: Resolved)
        requires
            self.wf(),
        ensures
            r == target_spec(
                self.ruleset.rules_map(),
                self.ruleset.auto_section(),
                name@,
                *flags,
                age_secs,
                self.instance_games.set().contains(name@),
                untouchable,
            ),
    {
        let mut resolved = self.ruleset.resolve(name, flags, age_secs);
        let none = match &resolved {
            Resolved::Untouched => true,
            Resolved::Apply(_) => false,
        };
        if none && self.instance_games.contains(name) {
            resolved = Resolved::Apply(crate::rules::make_auto_game_target(&self.ruleset.auto_game_section()));
        }
        if is_de_critical(name) || untouchable {
            resolved = Resolved::Untouched;
        }
        resolved
    }

    /// Handle one GUI request.
    pub fn handle_client_msg(
        &mut self,
        msg: ClientMsg,
        pid_name: Option<String>,
        poll_interval_ms: u64,
        now: u64,
    ) -> (reply: MsgReply)
        requires
            old(self).wf(),
        ensures
            final(self).wf(),
            client_msg_spec(
                *old(self),
                *final(self),
                msg,
                match pid_name {
                    Some(n) => Some(n@),
                    None => None,
                },
                poll_interval_ms,
                reply,
            ),
    {
        match msg {
            ClientMsg::Hello { .. } => MsgReply::Snapshot { poll_interval_ms },
            ClientMsg::RequestSnapshot => MsgReply::Snapshot { poll_interval_ms },
            ClientMsg::SetPollInterval { poll_interval_ms: ms } => {
                let clamped = clamp_poll_interval(ms);
                self.sync.set_poll_interval(clamped, now);
                self.reload_rules();
                MsgReply::Snapshot { poll_interval_ms: clamped }
            },
            ClientMsg::SetTier { pid, tier } => match pid_name {
                None => MsgReply::UnknownPid { pid },
                Some(name) => {
                    self.sync.upsert_preset_rule(name.as_str(), tier, now);
                    self.reload_rules();
                    MsgReply::ApplyPreset { name, preset: tier.preset(), poll_interval_ms }
                },
            },
            ClientMsg::SetCap { name, pct } => {
                self.sync.upsert_cap_rule(name.as_str(), pct, now);
                self.reload_rules();
                MsgReply::Snapshot { poll_interval_ms }
            },
            ClientMsg::ConfirmGame { name, answer } => {
                self.drop_prompts_for(name.as_str());
                match answer {
                    GameAnswer::Yes => {
                        self.sync.upsert_preset_rule(name.as_str(), Tier::Game, now);
                    },
                    GameAnswer::No => {
                        self.sync.upsert_preset_rule(name.as_str(), Tier::Software, now);
                    },
                    GameAnswer::NotNow => {
                        self.instance_games.insert(name.as_str());
                        self.suppressed_until_exit.insert(name.as_str());
                    },
                }
                self.reload_rules();
                MsgReply::Snapshot { poll_interval_ms }
            },
        }
    }

    /// A name newly flagged as a likely game: remember it as asked; with a
    /// GUI connected queue a prompt (true: broadcast it), otherwise take
    /// the safe "Not now" default for the running instances.
    pub fn note_fresh_game(&mut self, name: &str, pid: u32, gui_connected: bool) -> (prompt: bool)
        requires
            old(self).wf(),
        ensures
            final(self).wf(),
            prompt == gui_connected,
            final(self).sync == old(self).sync,
            final(self).prompted_names.set() == old(self).prompted_names.set().insert(name@),
            gui_connected ==> {
                &&& final(self).pending_prompts@.len() == old(self).pending_prompts@.len() + 1
                &&& final(self).pending_prompts@.drop_last() == old(self).pending_prompts@
                &&& final(self).pending_prompts@.last().name@ == name@
                &&& final(self).pending_prompts@.last().pid == pid
                &&& final(self).instance_games == old(self).instance_games
                &&& final(self).suppressed_until_exit == old(self).suppressed_until_exit
            },
            !gui_connected ==> {
                &&& final(self).pending_prompts == old(self).pending_prompts
                &&& final(self).instance_games.set() == old(self).instance_games.set().insert(name@)
                &&& final(self).suppressed_until_exit.set() == old(self).suppressed_until_exit.set().insert(
                    name@,
                )
            },
    {
        self.prompted_names.insert(name);
        if gui_connected {
            let ghost before = self.pending_prompts@;
            self.pending_prompts.push(GamePrompt { name: name.to_owned(), pid });
            proof {
                assert(self.pending_prompts@.drop_last() =~= before);
            }
            true
        } else {
            self.instance_games.insert(name);
            self.suppressed_until_exit.insert(name);
            false
        }
    }

    /// Forget the per-instance memory of every name no process has any
    /// more (`seen`: the names of this poll's processes).
    pub fn prune_exited(&mut self, seen: &NameSet)
        requires
            old(self).wf(),
        ensures
            final(self).wf(),
            final(self).sync == old(self).sync,
            final(self).pending_prompts == old(self).pending_prompts,
            final(self).prompted_names.set() == old(self).prompted_names.set().intersect(seen.set()),
            final(self).instance_games.set() == old(self).instance_games.set().intersect(seen.set()),
            final(self).suppressed_until_exit.set() == old(self).suppressed_until_exit.set().intersect(
                seen.set(),
            ),
    {
        self.prompted_names.retain_in(seen);
        self.instance_games.retain_in(seen);
        self.suppressed_until_exit.retain_in(seen);
    }

    /// A process row that asks for a prompt: flagged by the heuristic, not
    /// a catalog game (those get the auto-game target at once), without a
    /// rule, not asked about yet and not suppressed.
    pub open spec fn fresh_candidate(&self, known: KnownGames, info: ProcSummary) -> bool {
        &&& info.game_detected
        &&& !known.known_name_spec(info.name@)
        &&& !self.ruleset.rules_map().dom().contains(info.name@)
        &&& !self.prompted_names.set().contains(info.name@)
        &&& !self.suppressed_until_exit.set().contains(info.name@)
    }

    /// The (name, pid) pairs to prompt about, ascending and each once.
    pub fn fresh_game_names(&self, infos: &Vec<ProcSummary>, known: &KnownGames) -> (r: Vec<(String, u32)>)
        requires
            self.wf(),
            known.wf(),
        ensures
            strictly_sorted(named(r@)),
            forall|x: (Seq<char>, u32)|
                named(r@).contains(x) <==> exists|i: int|
                    0 <= i < infos@.len() && #[trigger] infos@[i].name@ == x.0 && infos@[i].pid == x.1
                        && self.fresh_candidate(*known, infos@[i]),
            forall|x: (Seq<char>, u32)|
                #[trigger] named(r@).contains(x) ==> {
                    &&& !self.prompted_names.set().contains(x.0)
                    &&& !self.suppressed_until_exit.set().contains(x.0)
                    &&& !self.ruleset.rules_map().dom().contains(x.0)
                    &&& !known.known_name_spec(x.0)
                },
    {
        let mut out: Vec<(String, u32)> = Vec::new();
        let mut i: usize = 0;
        while i < infos.len()
            invariant
                self.wf(),
                known.wf(),
                i <= infos@.len(),
                strictly_sorted(named(out@)),
                forall|x: (Seq<char>, u32)|
                    named(out@).contains(x) <==> exists|k: int|
                        0 <= k < i && #[trigger] infos@[k].name@ == x.0 && infos@[k].pid == x.1
                            && self.fresh_candidate(*known, infos@[k]),
            decreases infos.len() - i,
        {
            let info = &infos[i];
            let n = info.name.as_str();
            let fresh = info.game_detected && !known.is_known_name(n) && !self.ruleset.has_rule(n)
                && !self.prompted_names.contains(n) && !self.suppressed_until_exit.contains(n);
            let ghost before = named(out@);
            if fresh {
                insert_sorted(&mut out, info.name.clone(), info.pid);
            }
            proof {
                assert forall|x: (Seq<char>, u32)|
                    named(out@).contains(x) <==> exists|k: int|
                        0 <= k < i + 1 && #[trigger] infos@[k].name@ == x.0 && infos@[k].pid == x.1
                            && self.fresh_candidate(*known, infos@[k]) by {
                    if named(out@).contains(x) && !before.contains(x) {
                        assert(infos@[i as int].name@ == x.0);
                    }
                    if exists|k: int|
                        0 <= k < i + 1 && #[trigger] infos@[k].name@ == x.0 && infos@[k].pid == x.1
                            && self.fresh_candidate(*known, infos@[k]) {
                        let k = choose|k: int|
                            0 <= k < i + 1 && #[trigger] infos@[k].name@ == x.0 && infos@[k].pid == x.1
                                && self.fresh_candidate(*known, infos@[k]);
                        if k == i {
                            assert(fresh);
                        }
                    }
                }
            }
            i = i + 1;
        }
        out
    }

    fn drop_prompts_for(&mut self, name: &str)
        ensures
            final(self).pending_prompts@ == prompts_without(old(self).pending_prompts@, name@),
            final(self).sync == old(self).sync,
            final(self).ruleset == old(self).ruleset,
            final(self).prompted_names == old(self).prompted_names,
            final(self).instance_games == old(self).instance_games,
            final(self).suppressed_until_exit == old(self).suppressed_until_exit,
    {
        let mut out: Vec<GamePrompt> = Vec::new();
        let mut i: usize = 0;
        proof {
            assert(self.pending_prompts@.take(0) =~= seq![]);
        }
        while i < self.pending_prompts.len()
            invariant
                i <= self.pending_prompts@.len(),
                out@ == prompts_without(self.pending_prompts@.take(i as int), name@),
            decreases self.pending_prompts.len() - i,
        {
            let p = &self.pending_prompts[i];
            proof {
                assert(self.pending_prompts@.take(i + 1).drop_last() =~= self.pending_prompts@.take(i as int));
            }
            if !str_eq(p.name.as_str(), name) {
                out.push(p.clone());
            }
            i = i + 1;
        }
        proof {
            assert(self.pending_prompts@.take(i as int) =~= self.pending_prompts@);
        }
        self.pending_prompts = out;
    }
}

/// Every rule's match name is a key of the index.
proof fn lemma_index_by_match_has(s: Seq<(Seq<char>, crate::common::Rule)>, i: int)
    requires
        0 <= i < s.len(),
    ensures
        index_by_match(s).dom().contains(s[i].1.match_name@),
    decreases s.len(),
{
    if i < s.len() - 1 {
        lemma_index_by_match_has(s.drop_last(), i);
        assert(s.drop_last()[i] == s[i]);
    }
}

/// Desktop-critical processes are left alone, whatever rule matches them
/// and whatever the user answered for their name.
pub proof fn lemma_de_critical_untouched(
    rules: Map<Seq<char>, crate::common::Rule>,
    auto: AutoGameConfig,
    name: Seq<char>,
    flags: GameFlags,
    age_secs: u64,
    instance_game: bool,
    untouchable: bool,
)
    requires
        de_critical_spec(name),
    ensures
        target_spec(rules, auto, name, flags, age_secs, instance_game, untouchable) is Untouched,
{
}

/// Another user's process is never touched by an unprivileged daemon.
pub proof fn lemma_untouchable_untouched(
    rules: Map<Seq<char>, crate::common::Rule>,
    auto: AutoGameConfig,
    name: Seq<char>,
    flags: GameFlags,
    age_secs: u64,
    instance_game: bool,
)
    ensures
        target_spec(rules, auto, name, flags, age_secs, instance_game, true) is Untouched,
{
}

/// A "Not now" name without a rule, not desktop-critical, gets the
/// auto-game target for its running instances.
pub proof fn lemma_not_now_runs_as_game(
    rules: Map<Seq<char>, crate::common::Rule>,
    auto: AutoGameConfig,
    name: Seq<char>,
    flags: GameFlags,
    age_secs: u64,
)
    requires
        !rules.dom().contains(name),
        !crate::game_detect::is_game_spec(flags),
        !de_critical_spec(name),
    ensures
        target_spec(rules, auto, name, flags, age_secs, true, false) == Resolved::Apply(
            auto_game_target(auto),
        ),
{
}

/// A name once prompted about is not offered again: after `note_fresh_game`
/// records it, no process of that name is a fresh candidate, whatever its
/// flags, until the name is pruned.
pub proof fn lemma_prompted_name_not_offered_again(
    before: Daemon,
    after: Daemon,
    name: Seq<char>,
    known: KnownGames,
    info: ProcSummary,
)
    requires
        after.prompted_names.set() == before.prompted_names.set().insert(name),
        info.name@ == name,
    ensures
        !after.fresh_candidate(known, info),
{
    assert(after.prompted_names.set().contains(name));
}

/// A name the user answered Yes or No for (a rule pinned to a tier) is
/// never prompted about again.
pub proof fn lemma_answered_name_not_prompted_again(
    before: Sync,
    d: Daemon,
    known: KnownGames,
    info: ProcSummary,
    tier: Tier,
)
    requires
        d.wf(),
        preset_upserted(before, d.sync, info.name@, tier),
    ensures
        !d.fresh_candidate(known, info),
{
    let name = info.name@;
    let rm = d.sync.active.rules;
    assert(rm.map().contains_key(name));
    assert(rm.has_key(name));
    let i = choose|i: int| 0 <= i < rm.seq().len() && #[trigger] rm.seq()[i].0 == name;
    rm.lemma_key_index(i, name);
    assert(rm.seq()[i].1 == rm.map()[name]);
    assert(rm.seq()[i].1.match_name@ == name);
    lemma_index_by_match_has(rm.seq(), i);
}

} // verus!
