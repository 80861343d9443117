//! Kernel-interaction decisions: ioprio encoding, cgroup v2 limit files,
//! managed-cgroup bookkeeping and per-pid failure rate limiting.
//!
//! The syscalls and filesystem writes themselves are performed by the
//! caller; this module decides what to write where, and keeps the table of
//! pids moved into managed cgroups.

use vstd::prelude::*;
use std::collections::HashMap;
use vstd::std_specs::hash::spec_hash_map_iter;
use vstd::std_specs::iter::IteratorSpec;

use crate::common::{CgroupLimits, IoniceClass, opt_chars};
use crate::paths::{file_name, path_eq, path_starts_with, paths_equal, path_has_prefix, path_file_name};
use crate::text::{
    chars_eq, decimal, decimal_chars, extend_chars, extend_str, from_chars, has_prefix,
    has_suffix, starts_with_chars, ends_with_chars, to_chars, words, split_whitespace, trim,
    trim_chars, rfind_char, slice_chars, last_index_of,
};

verus! {

broadcast use vstd::std_specs::hash::group_hash_axioms;

pub const IOPRIO_CLASS_NONE: u64 = 0;

pub const IOPRIO_CLASS_REALTIME: u64 = 1;

pub const IOPRIO_CLASS_BEST_EFFORT: u64 = 2;

pub const IOPRIO_CLASS_IDLE: u64 = 3;

/// `IOPRIO_WHO_PROCESS` for `ioprio_get` / `ioprio_set`.
pub const IOPRIO_WHO_PROCESS: i32 = 1;

pub const IOPRIO_CLASS_SHIFT: u64 = 13;

/// cgroup v2 `cpu.max` scheduling period: 100 ms.
pub const CGROUP_PERIOD_US: u64 = 100000;

/// Clamp for `cpu_cap_percent` (percent of one core; 3200% = 32 cores).
pub const MAX_CAP_PERCENT: u32 = 3200;

/// Mount point of the unified cgroup hierarchy.
pub const CGROUP_ROOT: &'static str = "/sys/fs/cgroup";

// ---------------------------------------------------------------------------
// ioprio values.
// ---------------------------------------------------------------------------

/// The kernel's class number for an IO class.
pub open spec fn class_bits(c: IoniceClass) -> u64 {
    match c {
        IoniceClass::Unspecified => 0,
        IoniceClass::Realtime => 1,
        IoniceClass::BestEffort => 2,
        IoniceClass::Idle => 3,
    }
}

/// The IO class of a kernel class number (4..=7 read back as idle).
pub open spec fn class_of_bits(b: u64) -> IoniceClass {
    if b == 0 {
        IoniceClass::Unspecified
    } else if b == 1 {
        IoniceClass::Realtime
    } else if b == 2 {
        IoniceClass::BestEffort
    } else {
        IoniceClass::Idle
    }
}

/// `(class << 13) | priority`.
pub open spec fn ioprio_spec(c: IoniceClass, priority: u8) -> u64 {
    (class_bits(c) * 8192 + priority) as u64
}

/// A process's IO class and priority as read back from the kernel.
#[derive(Debug, Clone, Copy, PartialEq, Eq, Structural)]
pub struct CurrentIoprio {
    pub class: IoniceClass,
    pub priority: u8,
}

pub fn class_number(c: IoniceClass) -> (r: u64)
    ensures
        r == class_bits(c),
        r == match c {
            IoniceClass::Unspecified => IOPRIO_CLASS_NONE,
            IoniceClass::Realtime => IOPRIO_CLASS_REALTIME,
            IoniceClass::BestEffort => IOPRIO_CLASS_BEST_EFFORT,
            IoniceClass::Idle => IOPRIO_CLASS_IDLE,
        },
{
    match c {
        IoniceClass::Unspecified => IOPRIO_CLASS_NONE,
        IoniceClass::Realtime => IOPRIO_CLASS_REALTIME,
        IoniceClass::BestEffort => IOPRIO_CLASS_BEST_EFFORT,
        IoniceClass::Idle => IOPRIO_CLASS_IDLE,
    }
}

/// The `ioprio_set` argument for a class and a priority.
pub fn ioprio_value(class: IoniceClass, priority: u8) -> (v: u64)
    ensures
        v == ioprio_spec(class, priority),
{
    let bits = class_number(class);
    let p = priority as u64;
    let v = (bits << IOPRIO_CLASS_SHIFT) | (p & 0xff);
    assert(((bits << 13u64) | (p & 0xffu64)) == bits * 8192 + p) by (bit_vector)
        requires
            bits <= 3,
            p < 256,
    ;
    v
}

/// Decode an `ioprio_get` value: class in bits 13..16, priority in the low byte.
pub fn ioprio_decode(v: u64) -> (r: CurrentIoprio)
    ensures
        r.class == class_of_bits((v / 8192) % 8),
        r.priority == v % 256,
{
    let bits = (v >> IOPRIO_CLASS_SHIFT) & 7;
    let low = v & 0xff;
    assert((v >> 13u64) & 7u64 == (v / 8192) % 8) by (bit_vector);
    assert(v & 0xffu64 == v % 256) by (bit_vector);
    let class = if bits == 0 {
        IoniceClass::Unspecified
    } else if bits == 1 {
        IoniceClass::Realtime
    } else if bits == 2 {
        IoniceClass::BestEffort
    } else {
        IoniceClass::Idle
    };
    CurrentIoprio { class, priority: low as u8 }
}

/// The encoded class is the kernel's class constant: `ioprio_set` gets
/// `(IOPRIO_CLASS_<class> << 13) | priority` for each of the four classes,
/// and no other class number is ever written.
pub proof fn lemma_ioprio_uses_kernel_classes(p: u8)
    ensures
        ioprio_spec(IoniceClass::Unspecified, p) == IOPRIO_CLASS_NONE * 8192 + p,
        ioprio_spec(IoniceClass::Realtime, p) == IOPRIO_CLASS_REALTIME * 8192 + p,
        ioprio_spec(IoniceClass::BestEffort, p) == IOPRIO_CLASS_BEST_EFFORT * 8192 + p,
        ioprio_spec(IoniceClass::Idle, p) == IOPRIO_CLASS_IDLE * 8192 + p,
        IOPRIO_CLASS_NONE == 0 && IOPRIO_CLASS_REALTIME == 1 && IOPRIO_CLASS_BEST_EFFORT == 2
            && IOPRIO_CLASS_IDLE == 3,
        forall|c: IoniceClass| #[trigger] class_bits(c) <= 3,
{
}

/// Decoding what was encoded gives back the class and the priority.
pub proof fn lemma_ioprio_round_trip(c: IoniceClass, priority: u8)
    ensures
        class_of_bits((ioprio_spec(c, priority) / 8192) % 8) == c,
        ioprio_spec(c, priority) % 256 == priority,
{
    let v = ioprio_spec(c, priority);
    assert(v == class_bits(c) * 8192 + priority);
    match c {
        IoniceClass::Unspecified => {},
        IoniceClass::Realtime => {},
        IoniceClass::BestEffort => {},
        IoniceClass::Idle => {},
    }
}

/// `ioprio_get`'s return value: negative is a failure.
pub fn ioprio_from_raw(rc: i64) -> (r: Option<CurrentIoprio>)
    ensures
        rc < 0 ==> r is None,
        rc >= 0 ==> r == Some(
            CurrentIoprio {
                class: class_of_bits(((rc as u64) / 8192) % 8),
                priority: ((rc as u64) % 256) as u8,
            },
        ),
{
    if rc < 0 {
        None
    } else {
        Some(ioprio_decode(rc as u64))
    }
}

/// Whether the kernel-read IO priority differs from the wanted one (an
/// unreadable one counts as different).
pub fn ioprio_differs(current: Option<CurrentIoprio>, class: IoniceClass, priority: u8) -> (r: bool)
    ensures
        r == (match current {
            Some(c) => c != CurrentIoprio { class, priority },
            None => true,
        }),
{
    match current {
        Some(c) => !(c.class == class && c.priority == priority),
        None => true,
    }
}

// ---------------------------------------------------------------------------
// Nice values.
// ---------------------------------------------------------------------------

/// What `setpriority` is asked for: a daemon without CAP_SYS_NICE may not
/// lower nice below 0, so negative values are clamped to 0 there.
pub fn nice_to_apply(nice: i32, privileged: bool) -> (r: i32)
    ensures
        r == (if nice < 0 && !privileged {
            0
        } else {
            nice
        }),
{
    if nice < 0 && !privileged {
        0
    } else {
        nice
    }
}

/// The nice value a rule asks for, as the daemon may reach it: an
/// unprivileged daemon can only raise nice, so it never goes below the
/// process's current value.
pub fn effective_nice(target: i32, current: i32, privileged: bool) -> (r: i32)
    ensures
        r == (if privileged {
            target
        } else if target < current {
            current
        } else {
            target
        }),
{
    if privileged {
        target
    } else if target < current {
        current
    } else {
        target
    }
}

/// The nice write a target needs: the reachable value when it differs
/// from the current one, else nothing.
pub fn nice_write(target: i32, current: i32, privileged: bool) -> (r: Option<i32>)
    ensures
        r == (if privileged {
            if target != current {
                Some(target)
            } else {
                None
            }
        } else if target > current {
            Some(target)
        } else {
            None
        }),
{
    let n = effective_nice(target, current, privileged);
    if n != current {
        Some(n)
    } else {
        None
    }
}

/// Whether an IO-priority write is needed: the target names a class and
/// the kernel-read priority differs from it (or could not be read).
pub fn ionice_write_needed(class: IoniceClass, priority: u8, current: Option<CurrentIoprio>) -> (r: bool)
    ensures
        r == (class != IoniceClass::Unspecified && match current {
            Some(c) => c != CurrentIoprio { class, priority },
            None => true,
        }),
{
    class != IoniceClass::Unspecified && ioprio_differs(current, class, priority)
}

/// Field 41 of `/proc/<pid>/stat` is the scheduling policy; 1 and 2 are
/// SCHED_FIFO and SCHED_RR.  Fields are counted with the parenthesised comm
/// as the single field 2, so the policy is the 39th whitespace-separated
/// field after the last `)` (which closes the comm).
pub open spec fn rt_policy_spec(stat: Seq<char>) -> bool {
    match last_index_of(stat, ')') {
        Some(c) => {
            let w = words(stat.skip(c + 1));
            w.len() > 38 && (w[38] == seq!['1'] || w[38] == seq!['2'])
        },
        None => false,
    }
}

/// Whether a `/proc/<pid>/stat` line shows a real-time scheduling policy.
pub fn is_rt_policy(stat: &str) -> (r: bool)
    ensures
        r == rt_policy_spec(stat@),
{
    let v = to_chars(stat);
    let close = match rfind_char(&v, ')') {
        Some(c) => c,
        None => return false,
    };
    let rest = slice_chars(&v, close + 1, v.len());
    proof {
        assert(rest@ =~= stat@.skip(close + 1));
    }
    let w = split_whitespace(&rest);
    if w.len() <= 38 {
        return false;
    }
    let f = &w[38];
    let one = f.len() == 1 && f[0] == '1';
    let two = f.len() == 1 && f[0] == '2';
    proof {
        assert(f@ == words(rest@)[38]);
        if f@.len() == 1 && f@[0] == '1' {
            assert(f@ =~= seq!['1']);
        }
        if f@.len() == 1 && f@[0] == '2' {
            assert(f@ =~= seq!['2']);
        }
    }
    one || two
}

// ---------------------------------------------------------------------------
// Failure rate limiting.
// ---------------------------------------------------------------------------

/// Rate-limiter for per-pid syscall failures: log once, then stay quiet
/// until the pid is forgotten.
#[derive(Debug)]
pub struct FailureTracker {
    warned: std::collections::HashSet<u32>,
}

impl FailureTracker {
    /// The pids whose failure has already been reported.
    pub closed spec fn warned(&self) -> Set<u32> {
        self.warned@
    }

    pub fn new() -> (t: FailureTracker)
        ensures
            t.warned() == Set::<u32>::empty(),
    {
        FailureTracker { warned: std::collections::HashSet::new() }
    }

    /// True when this failure should actually be reported.
    pub fn first_failure(&mut self, pid: u32) -> (r: bool)
        ensures
            r == !old(self).warned().contains(pid),
            final(self).warned() == old(self).warned().insert(pid),
    {
        broadcast use vstd::std_specs::hash::group_hash_axioms;

        self.warned.insert(pid)
    }

    /// The pid is gone: a later failure of a pid with this number is new.
    pub fn forget(&mut self, pid: u32)
        ensures
            final(self).warned() == old(self).warned().remove(pid),
    {
        broadcast use vstd::std_specs::hash::group_hash_axioms;

        self.warned.remove(&pid);
    }
}

impl Default for FailureTracker {
    fn default() -> (t: FailureTracker)
        ensures
            t.warned() == Set::<u32>::empty(),
    {
        FailureTracker::new()
    }
}

/// A failure is reported once, and again only after the pid was forgotten.
pub proof fn lemma_failure_reported_once(t: Set<u32>, pid: u32)
    ensures
        t.insert(pid).contains(pid),
        !t.insert(pid).remove(pid).contains(pid),
{
}

// ---------------------------------------------------------------------------
// cgroup directory names and limit files.
// ---------------------------------------------------------------------------

pub open spec fn is_ascii_alnum(c: char) -> bool {
    ('0' <= c && c <= '9') || ('a' <= c && c <= 'z') || ('A' <= c && c <= 'Z')
}

/// A character kept in a managed dir name; anything else becomes `_`.
pub open spec fn dir_char(c: char) -> char {
    if is_ascii_alnum(c) || c == '-' || c == '_' || c == '.' {
        c
    } else {
        '_'
    }
}

/// Rule name -> filesystem-safe cgroup dir name.
pub fn sanitize_dir(key: &str) -> (r: String)
    ensures
        r@ == key@.map_values(|c: char| dir_char(c)),
{
    let v = to_chars(key);
    let mut out: Vec<char> = Vec::new();
    let mut i: usize = 0;
    while i < v.len()
        invariant
            i <= v.len(),
            v@ == key@,
            out@ == v@.take(i as int).map_values(|c: char| dir_char(c)),
        decreases v.len() - i,
    {
        let c = v[i];
        let keep = ('0' <= c && c <= '9') || ('a' <= c && c <= 'z') || ('A' <= c && c <= 'Z') || c
            == '-' || c == '_' || c == '.';
        if keep {
            out.push(c);
        } else {
            out.push('_');
        }
        proof {
            assert(v@.take(i + 1) =~= v@.take(i as int).push(c));
            assert(v@.take(i + 1).map_values(|c: char| dir_char(c)) =~= v@.take(
                i as int,
            ).map_values(|c: char| dir_char(c)).push(dir_char(c)));
        }
        i = i + 1;
    }
    proof {
        assert(v@.take(v@.len() as int) =~= v@);
    }
    from_chars(&out)
}

/// The managed-subtree base must never be a session boundary: the cgroup
/// root, `user.slice`, `user-<uid>.slice`, `user@<uid>.service` or
/// `session.slice` (nor a path without a final name).
pub open spec fn forbidden_base_spec(p: Seq<char>) -> bool {
    match file_name(p) {
        None => true,
        Some(n) => {
            ||| n == "session.slice"@
            ||| n == "user.slice"@
            ||| has_prefix(n, "user@"@) && has_suffix(n, ".service"@)
            ||| has_prefix(n, "user-"@) && has_suffix(n, ".slice"@)
            ||| path_eq(p, CGROUP_ROOT@)
        },
    }
}

/// Whether `cand` may not host the managed cgroups.
pub fn is_forbidden_base(cand: &str) -> (r: bool)
    ensures
        r == forbidden_base_spec(cand@),
{
    let name = match path_file_name(cand) {
        Some(n) => n,
        None => return true,
    };
    if chars_eq(&name, &to_chars("session.slice")) || chars_eq(&name, &to_chars("user.slice")) {
        return true;
    }
    if starts_with_chars(&name, &to_chars("user@")) && ends_with_chars(&name, &to_chars(".service")) {
        return true;
    }
    if starts_with_chars(&name, &to_chars("user-")) && ends_with_chars(&name, &to_chars(".slice")) {
        return true;
    }
    paths_equal(cand, CGROUP_ROOT)
}

/// How probing one base candidate went: no child dir could be created
/// there (it hosts processes, or is not ours), a child was created and took
/// a controller write, or children were created but never took one.
#[derive(Debug, Clone, Copy, PartialEq, Eq, Structural)]
pub enum Probe {
    NoChild,
    Writable,
    Unwritable,
}

/// The next move of the walk from the daemon's own cgroup up to a base.
#[derive(Debug, Clone, Copy, PartialEq, Eq, Structural)]
pub enum WalkStep {
    /// Probe this candidate (create a child, write a controller file).
    ProbeIt,
    /// This candidate is the base.
    Found,
    /// No base: the walk reached a session boundary.
    GiveUp,
    /// Try the next candidate up.
    Next,
    /// Stop this round of the walk (a higher candidate refused writes).
    EndRound,
}

pub open spec fn walk_spec(index: nat, cand: Seq<char>, probe: Option<Probe>) -> WalkStep {
    if forbidden_base_spec(cand) {
        WalkStep::GiveUp
    } else {
        match probe {
            None => WalkStep::ProbeIt,
            Some(Probe::Writable) => WalkStep::Found,
            Some(Probe::NoChild) => WalkStep::Next,
            Some(Probe::Unwritable) => if index == 0 {
                WalkStep::Next
            } else {
                WalkStep::EndRound
            },
        }
    }
}

/// One step of the base discovery at candidate `index` (0 is the daemon's
/// own cgroup, whose children carry no controllers by design): before the
/// probe (`None`) and with its outcome.  A session boundary ends the walk
/// and is never probed.
pub fn walk_step(index: usize, cand: &str, probe: Option<Probe>) -> (r: WalkStep)
    ensures
        r == walk_spec(index as nat, cand@, probe),
{
    if is_forbidden_base(cand) {
        return WalkStep::GiveUp;
    }
    match probe {
        None => WalkStep::ProbeIt,
        Some(Probe::Writable) => WalkStep::Found,
        Some(Probe::NoChild) => WalkStep::Next,
        Some(Probe::Unwritable) => if index == 0 {
            WalkStep::Next
        } else {
            WalkStep::EndRound
        },
    }
}

/// Where one round of the walk settles, given the candidates (the own
/// cgroup first, then each ancestor) and the probe answer each would give:
/// the index of the base, or None when the round gives up, ends early, or
/// runs out of candidates.
pub open spec fn round_base(cands: Seq<Seq<char>>, probes: Seq<Probe>, i: nat) -> Option<int>
    decreases cands.len() - i,
{
    if i >= cands.len() || i >= probes.len() {
        None
    } else {
        match walk_spec(i, cands[i as int], Some(probes[i as int])) {
            WalkStep::Found => Some(i as int),
            WalkStep::Next => round_base(cands, probes, i + 1),
            _ => None,
        }
    }
}

/// A round of the walk only settles on a candidate that took a write, and
/// never passes a session boundary on its way up: neither the base nor any
/// candidate below it is a boundary.
pub proof fn lemma_round_stops_below_boundaries(cands: Seq<Seq<char>>, probes: Seq<Probe>, i: nat)
    ensures
        round_base(cands, probes, i) matches Some(k) ==> {
            &&& i <= k < cands.len()
            &&& probes[k] == Probe::Writable
            &&& forall|j: int| i <= j <= k ==> !forbidden_base_spec(#[trigger] cands[j])
        },
    decreases cands.len() - i,
{
    if i < cands.len() && i < probes.len() {
        if walk_spec(i, cands[i as int], Some(probes[i as int])) == WalkStep::Next {
            lemma_round_stops_below_boundaries(cands, probes, i + 1);
        }
    }
}

/// A session boundary is never probed and never becomes the base, whatever
/// a probe would report.
pub proof fn lemma_boundary_never_base(index: nat, cand: Seq<char>, probe: Option<Probe>)
    requires
        forbidden_base_spec(cand),
    ensures
        walk_spec(index, cand, probe) == WalkStep::GiveUp,
{
}

/// `cpu.max` quota for a cap in percent of one core, the cap clamped to
/// 1..=3200.
pub open spec fn cap_quota(pct: u32) -> nat {
    let p: nat = if pct < 1 {
        1
    } else if pct > 3200 {
        3200
    } else {
        pct as nat
    };
    p * 1000
}

/// The `cpu.max` line: quota and period.
pub open spec fn cpu_max_spec(pct: u32) -> Seq<char> {
    decimal(cap_quota(pct)) + " 100000"@
}

pub fn cpu_max_value(pct: u32) -> (r: String)
    ensures
        r@ == cpu_max_spec(pct),
{
    let p: u64 = if pct < 1 {
        1
    } else if pct > MAX_CAP_PERCENT {
        3200
    } else {
        pct as u64
    };
    let per_percent = CGROUP_PERIOD_US / 100;
    assert(per_percent == 1000);
    let quota = p * per_percent;
    let mut v = decimal_chars(quota);
    extend_str(&mut v, " 100000");
    from_chars(&v)
}

/// The files `apply_limits` writes into a managed dir, in order: `cpu.max`,
/// then `cpu.idle` (or, without it, `cpu.weight`), `memory.high`,
/// `memory.max`.
pub open spec fn limit_writes_spec(l: CgroupLimits) -> Seq<(Seq<char>, Seq<char>)> {
    let cap: Seq<(Seq<char>, Seq<char>)> = match l.cpu_cap_percent {
        Some(p) => seq![("cpu.max"@, cpu_max_spec(p))],
        None => seq![],
    };
    let cpu: Seq<(Seq<char>, Seq<char>)> = match l.cpu_idle {
        Some(idle) => seq![(
            "cpu.idle"@,
            if idle {
                "1"@
            } else {
                "0"@
            },
        )],
        None => match l.cpu_weight {
            Some(w) => seq![("cpu.weight"@, decimal(w as nat))],
            None => seq![],
        },
    };
    let high: Seq<(Seq<char>, Seq<char>)> = match l.memory_high {
        Some(h) => seq![("memory.high"@, h@)],
        None => seq![],
    };
    let max: Seq<(Seq<char>, Seq<char>)> = match l.memory_max {
        Some(m) => seq![("memory.max"@, m@)],
        None => seq![],
    };
    cap + cpu + high + max
}

pub open spec fn pair_views(v: Seq<(String, String)>) -> Seq<(Seq<char>, Seq<char>)> {
    v.map_values(|p: (String, String)| (p.0@, p.1@))
}

fn push_write(out: &mut Vec<(String, String)>, file: &str, value: String)
    ensures
        pair_views(final(out)@) == pair_views(old(out)@).push((file@, value@)),
{
    let ghost before = out@;
    out.push((file.to_owned(), value));
    proof {
        assert(pair_views(out@) =~= pair_views(before).push((file@, value@)));
    }
}

/// The (file, value) writes that put `limits` into effect.
pub fn limit_writes(limits: &CgroupLimits) -> (r: Vec<(String, String)>)
    ensures
        pair_views(r@) == limit_writes_spec(*limits),
{
    let mut out: Vec<(String, String)> = Vec::new();
    proof {
        assert(pair_views(out@) =~= seq![]);
    }
    let ghost s0 = pair_views(out@);
    match limits.cpu_cap_percent {
        Some(p) => push_write(&mut out, "cpu.max", cpu_max_value(p)),
        None => {},
    }
    let ghost s1 = pair_views(out@);
    match limits.cpu_idle {
        Some(idle) => {
            let v = if idle {
                "1".to_owned()
            } else {
                "0".to_owned()
            };
            push_write(&mut out, "cpu.idle", v);
        },
        None => match limits.cpu_weight {
            Some(w) => push_write(&mut out, "cpu.weight", from_chars(&decimal_chars(w as u64))),
            None => {},
        },
    }
    let ghost s2 = pair_views(out@);
    match &limits.memory_high {
        Some(h) => push_write(&mut out, "memory.high", h.clone()),
        None => {},
    }
    let ghost s3 = pair_views(out@);
    match &limits.memory_max {
        Some(m) => push_write(&mut out, "memory.max", m.clone()),
        None => {},
    }
    proof {
        let l = *limits;
        let cap: Seq<(Seq<char>, Seq<char>)> = match l.cpu_cap_percent {
            Some(p) => seq![("cpu.max"@, cpu_max_spec(p))],
            None => seq![],
        };
        assert(s1 =~= s0 + cap);
        assert(pair_views(out@) =~= limit_writes_spec(l));
    }
    out
}

/// The unified-hierarchy entry of a `/proc/<pid>/cgroup` file: the rest of
/// the first line that starts with `0::`.
pub open spec fn cgroup_rel_spec(ls: Seq<Seq<char>>) -> Option<Seq<char>>
    decreases ls.len(),
{
    if ls.len() == 0 {
        None
    } else if has_prefix(ls[0], "0::"@) {
        Some(ls[0].skip(3))
    } else {
        cgroup_rel_spec(ls.drop_first())
    }
}

/// Drop every leading `/`.
pub open spec fn strip_leading_slashes(s: Seq<char>) -> Seq<char>
    decreases s.len(),
{
    if s.len() > 0 && s[0] == '/' {
        strip_leading_slashes(s.drop_first())
    } else {
        s
    }
}

/// `/sys/fs/cgroup/<rel>` for a pid's unified-hierarchy entry (the root
/// itself when there is none).
pub open spec fn cgroup_path_spec(rel: Option<Seq<char>>) -> Seq<char> {
    match rel {
        Some(r) => crate::common::path_join_spec(CGROUP_ROOT@, strip_leading_slashes(r)),
        None => CGROUP_ROOT@,
    }
}

/// The unified-hierarchy entry of a `/proc/<pid>/cgroup` text.
pub fn proc_cgroup_rel(text: &str) -> (r: Option<String>)
    ensures
        opt_chars(r) == cgroup_rel_spec(crate::proc_scan::lines(text@)),
{
    let v = to_chars(text);
    let ls = crate::proc_scan::split_lines(&v);
    let prefix = to_chars("0::");
    let ghost all = crate::proc_scan::lines(text@);
    let mut i: usize = 0;
    proof {
        assert(all.skip(0) =~= all);
    }
    while i < ls.len()
        invariant
            i <= ls@.len(),
            ls@.len() == all.len(),
            prefix@ == "0::"@,
            all == crate::proc_scan::lines(text@),
            forall|j: int| 0 <= j < ls@.len() ==> #[trigger] ls@[j]@ == all[j],
            cgroup_rel_spec(all) == cgroup_rel_spec(all.skip(i as int)),
        decreases ls.len() - i,
    {
        let ghost rest = all.skip(i as int);
        assert(rest[0] == ls@[i as int]@);
        assert(rest.drop_first() =~= all.skip(i + 1));
        if starts_with_chars(&ls[i], &prefix) {
            proof {
                reveal_strlit("0::");
            }
            let line = &ls[i];
            let r = crate::text::string_of_range(line, 3, line.len());
            proof {
                assert(has_prefix(rest[0], "0::"@));
                assert(rest[0].skip(3) =~= line@.subrange(3, line@.len() as int));
                assert(rest.len() > 0);
                assert(cgroup_rel_spec(rest) == Some(rest[0].skip(3)));
                assert(opt_chars(Some(r)) == Some(r@));
            }
            return Some(r);
        }
        i = i + 1;
    }
    None
}

fn strip_slashes(v: &Vec<char>) -> (r: Vec<char>)
    ensures
        r@ == strip_leading_slashes(v@),
{
    let mut i: usize = 0;
    proof {
        assert(v@.skip(0) =~= v@);
    }
    while i < v.len() && v[i] == '/'
        invariant
            i <= v@.len(),
            strip_leading_slashes(v@) == strip_leading_slashes(v@.skip(i as int)),
        decreases v.len() - i,
    {
        assert(v@.skip(i as int).drop_first() =~= v@.skip(i + 1));
        i = i + 1;
    }
    crate::text::slice_chars(v, i, v.len())
}

/// `/sys/fs/cgroup` joined with a unified-hierarchy entry.
pub fn cgroup_path_of(rel: Option<&str>) -> (r: String)
    ensures
        r@ == cgroup_path_spec(match rel {
            Some(x) => Some(x@),
            None => None,
        }),
{
    match rel {
        Some(x) => {
            let stripped = strip_slashes(&to_chars(x));
            crate::common::path_join(CGROUP_ROOT, from_chars(&stripped).as_str())
        },
        None => CGROUP_ROOT.to_owned(),
    }
}

// ---------------------------------------------------------------------------
// Managed cgroups.
// ---------------------------------------------------------------------------

/// A pid moved into a managed cgroup.
#[derive(Debug)]
pub struct Enrolled {
    /// Managed cgroup dir the pid sits in.
    pub dir: String,
    /// Cgroup the pid came from, to move it back later.
    pub origin: String,
    /// Limits last written to `dir`.
    pub limits: Option<CgroupLimits>,
}

impl Clone for Enrolled {
    fn clone(&self) -> (r: Self)
        ensures
            r == *self,
    {
        Enrolled {
            dir: self.dir.clone(),
            origin: self.origin.clone(),
            limits: crate::common::clone_opt_limits(&self.limits),
        }
    }
}

/// Where `sync_pid` puts a pid: the rule's explicit path, else
/// `<base>/nw-<sanitized key>`.
pub open spec fn managed_dir_spec(base: Seq<char>, key: Seq<char>, l: CgroupLimits) -> Seq<char> {
    match l.path {
        Some(p) => p@,
        None => crate::common::path_join_spec(base, "nw-"@ + key.map_values(|c: char| dir_char(c))),
    }
}

pub fn managed_dir(base: &str, key: &str, limits: &CgroupLimits) -> (r: String)
    ensures
        r@ == managed_dir_spec(base@, key@, *limits),
{
    match &limits.path {
        Some(p) => p.clone(),
        None => {
            let mut name = to_chars("nw-");
            extend_str(&mut name, sanitize_dir(key).as_str());
            crate::common::path_join(base, from_chars(&name).as_str())
        },
    }
}

/// Whether the recorded limits are the wanted ones.
pub open spec fn limits_current(recorded: Option<CgroupLimits>, wanted: CgroupLimits) -> bool {
    match recorded {
        Some(x) => x.same(&wanted),
        None => false,
    }
}

/// What reconciling one pid against its wanted limits takes.
#[derive(Debug)]
pub enum SyncStep {
    /// Nothing to do.
    Idle,
    /// A limited rule matched but there is no cgroup base: skipped.
    NoBase,
    /// The pid already sits in `dir`: write `limits` into it again.
    Rewrite { dir: String, limits: CgroupLimits },
    /// The rule no longer limits the pid: move it back to `origin` and
    /// remove `dir` once empty.
    Release { dir: String, origin: String },
    /// Move the pid into `dir` with `limits`; first release it from its
    /// previous managed dir when `release` is set.
    Enroll { dir: String, limits: CgroupLimits, release: Option<Enrolled> },
}

pub open spec fn deref_limits(o: Option<&CgroupLimits>) -> Option<CgroupLimits> {
    match o {
        Some(l) => Some(*l),
        None => None,
    }
}

/// What `CgroupManager::plan_sync` decides for one pid, given the base, the
/// re-assertion flag, the pid's entry before, the rule key and its limits;
/// `after` is the pid's entry afterwards.
pub open spec fn sync_outcome(
    base: Option<Seq<char>>,
    reasserted: bool,
    before: Option<Enrolled>,
    key: Seq<char>,
    limits: Option<CgroupLimits>,
    step: SyncStep,
    after: Option<Enrolled>,
) -> bool {
    match base {
        None => after == before && (if limits is Some {
            step is NoBase
        } else {
            step is Idle
        }),
        Some(b) => match limits {
            None => after is None && match before {
                Some(e) => step matches SyncStep::Release { dir, origin } && dir == e.dir && origin
                    == e.origin,
                None => step is Idle,
            },
            Some(l) => {
                let d = managed_dir_spec(b, key, l);
                match before {
                    Some(e) => if path_eq(e.dir@, d) {
                        if !limits_current(e.limits, l) || reasserted {
                            &&& step matches SyncStep::Rewrite { dir, limits: w } && dir@ == d && w
                                == l
                            &&& after == Some(Enrolled { limits: Some(l), ..e })
                        } else {
                            step is Idle && after == before
                        }
                    } else {
                        &&& after is None
                        &&& step matches SyncStep::Enroll { dir, limits: w, release } && dir@ == d
                            && w == l && release == Some(e)
                    },
                    None => {
                        &&& after is None
                        &&& step matches SyncStep::Enroll { dir, limits: w, release } && dir@ == d
                            && w == l && release is None
                    },
                }
            },
        },
    }
}

/// Whether a pid whose unified-hierarchy entry is `rel` sits in `dir`.
pub open spec fn in_cgroup_spec(dir: Seq<char>, rel: Option<Seq<char>>) -> bool {
    match rel {
        Some(r) => path_eq(cgroup_path_spec(Some(r)), dir),
        None => false,
    }
}

pub fn in_cgroup(dir: &str, rel: Option<&str>) -> (r: bool)
    ensures
        r == in_cgroup_spec(dir@, match rel {
            Some(x) => Some(x@),
            None => None,
        }),
{
    match rel {
        Some(x) => {
            let p = cgroup_path_of(Some(x));
            paths_equal(p.as_str(), dir)
        },
        None => false,
    }
}

/// A pid found in a managed dir that the table does not know is moved to
/// the strays dir when it still sits there and is not desktop-critical.
pub open spec fn stray_here_spec(dir: Seq<char>, rel: Option<Seq<char>>, comm: Option<Seq<char>>) -> bool {
    in_cgroup_spec(dir, rel) && !(comm matches Some(c) && crate::game_detect::de_critical_spec(c))
}

pub fn stray_here(dir: &str, rel: Option<&str>, comm: Option<&str>) -> (r: bool)
    ensures
        r == stray_here_spec(
            dir@,
            match rel {
                Some(x) => Some(x@),
                None => None,
            },
            match comm {
                Some(c) => Some(c@),
                None => None,
            },
        ),
{
    if !in_cgroup(dir, rel) {
        return false;
    }
    match comm {
        Some(c) => !crate::game_detect::is_de_critical(c),
        None => true,
    }
}

/// Owns the bookkeeping of the managed cgroup v2 subtree: the writable base,
/// the pids moved in (with their origin), and the dirs created.
#[derive(Debug)]
pub struct CgroupManager {
    base: Option<String>,
    enrolled: HashMap<u32, Enrolled>,
    created_dirs: Vec<String>,
    controllers_reasserted: bool,
}

impl CgroupManager {
    pub closed spec fn base_path(&self) -> Option<Seq<char>> {
        opt_chars(self.base)
    }

    /// The managed entry of `pid`, if it was moved in.
    pub closed spec fn entry(&self, pid: u32) -> Option<Enrolled> {
        if self.enrolled@.contains_key(pid) {
            Some(self.enrolled@[pid])
        } else {
            None
        }
    }

    /// Number of pids moved in.
    pub closed spec fn enrolled_count(&self) -> nat {
        self.enrolled@.len()
    }

    /// Dirs created (and not removed since).
    pub closed spec fn dirs(&self) -> Seq<Seq<char>> {
        self.created_dirs@.map_values(|d: String| d@)
    }

    /// Set after the base's controllers had to be re-enabled: every limit
    /// is then written again on the next reconcile.
    pub closed spec fn reasserted(&self) -> bool {
        self.controllers_reasserted
    }

    pub closed spec fn wf(&self) -> bool {
        forall|i: int, j: int|
            0 <= i < j < self.created_dirs@.len() ==> !path_eq(
                #[trigger] self.created_dirs@[i]@,
                #[trigger] self.created_dirs@[j]@,
            )
    }

    /// Some created dir is the same path as `d`.
    pub open spec fn dir_listed(&self, d: Seq<char>) -> bool {
        exists|i: int| 0 <= i < self.dirs().len() && path_eq(#[trigger] self.dirs()[i], d)
    }

    /// Some enrolled pid sits in a dir that is the same path as `d`.
    pub open spec fn enrolled_in(&self, d: Seq<char>) -> bool {
        exists|p: u32|
            #[trigger] self.entry(p) matches Some(e) && path_eq(e.dir@, d)
    }

    /// A manager with no pid enrolled; `base` is the writable cgroup that
    /// hosts the managed dirs (None: cgroup limiting unavailable).
    pub fn new(base: Option<String>) -> (m: CgroupManager)
        ensures
            m.wf(),
            m.base_path() == opt_chars(base),
            forall|p: u32| m.entry(p) is None,
            m.enrolled_count() == 0,
            m.dirs().len() == 0,
            !m.reasserted(),
    {
        let m = CgroupManager {
            base,
            enrolled: HashMap::new(),
            created_dirs: Vec::new(),
            controllers_reasserted: false,
        };
        proof {
            assert(m.dirs() =~= seq![]);
        }
        m
    }

    pub fn base(&self) -> (r: &Option<String>)
        ensures
            opt_chars(*r) == self.base_path(),
    {
        &self.base
    }

    /// True when the pid currently lives in one of the managed cgroups.
    pub fn is_capped(&self, pid: u32) -> (r: bool)
        requires
            self.wf(),
        ensures
            r == (self.entry(pid) is Some),
    {
        self.enrolled.contains_key(&pid)
    }

    /// Number of managed dirs and of enrolled pids.
    pub fn stats(&self) -> (r: (usize, usize))
        ensures
            r.0 == self.dirs().len(),
            r.1 == self.enrolled_count(),
    {
        (self.created_dirs.len(), self.enrolled.len())
    }

    /// Outcome of re-enabling the base's controllers: when the write took
    /// and `cpu` had been missing, every limit must be written again.
    pub fn controllers_checked(&mut self, had_cpu: bool, write_ok: bool)
        ensures
            final(self).reasserted() == (old(self).reasserted() || (write_ok && !had_cpu)),
            final(self).base_path() == old(self).base_path(),
            forall|p: u32| final(self).entry(p) == old(self).entry(p),
            final(self).enrolled_count() == old(self).enrolled_count(),
            final(self).dirs() == old(self).dirs(),
            old(self).wf() ==> final(self).wf(),
    {
        if write_ok && !had_cpu {
            self.controllers_reasserted = true;
        }
    }

    /// The reconcile after a controller re-assertion is done.
    pub fn clear_controllers_reasserted(&mut self)
        ensures
            !final(self).reasserted(),
            final(self).base_path() == old(self).base_path(),
            forall|p: u32| final(self).entry(p) == old(self).entry(p),
            final(self).enrolled_count() == old(self).enrolled_count(),
            final(self).dirs() == old(self).dirs(),
            old(self).wf() ==> final(self).wf(),
    {
        self.controllers_reasserted = false;
    }

    /// Reconcile one pid against the limits its rule wants (None: the rule
    /// no longer limits it).  Updates the table and returns the filesystem
    /// work to do; the caller records a successful enrollment with
    /// `record_enrollment` and removed dirs with `dir_removed`.
    pub fn plan_sync(&mut self, pid: u32, key: &str, limits: Option<&CgroupLimits>) -> (step: SyncStep)
        requires
            old(self).wf(),
        ensures
            final(self).wf(),
            final(self).base_path() == old(self).base_path(),
            final(self).dirs() == old(self).dirs(),
            final(self).reasserted() == old(self).reasserted(),
            forall|q: u32| q != pid ==> final(self).entry(q) == old(self).entry(q),
            final(self).enrolled_count() == old(self).enrolled_count() + (if final(self).entry(pid) is Some {
                1int
            } else {
                0int
            }) - (if old(self).entry(pid) is Some {
                1int
            } else {
                0int
            }),
            step is NoBase || step is Idle ==> *final(self) == *old(self),
            sync_outcome(
                old(self).base_path(),
                old(self).reasserted(),
                old(self).entry(pid),
                key@,
                deref_limits(limits),
                step,
                final(self).entry(pid),
            ),
    {
        let base = match &self.base {
            Some(b) => b.clone(),
            None => {
                if limits.is_some() {
                    return SyncStep::NoBase;
                } else {
                    return SyncStep::Idle;
                }
            },
        };
        match limits {
            None => match self.take_entry(pid) {
                Some(e) => SyncStep::Release { dir: e.dir, origin: e.origin },
                None => SyncStep::Idle,
            },
            Some(l) => {
                let dir = managed_dir(base.as_str(), key, l);
                let cur = match self.enrolled.get(&pid) {
                    Some(c) => Some(c.clone()),
                    None => None,
                };
                match cur {
                    Some(cur) => {
                        let same_dir = paths_equal(cur.dir.as_str(), dir.as_str());
                        if same_dir {
                            let current = match &cur.limits {
                                Some(x) => x.same_as(l),
                                None => false,
                            };
                            if !current || self.controllers_reasserted {
                                let mut e = cur.clone();
                                e.limits = Some(l.clone());
                                self.put_entry(pid, e);
                                SyncStep::Rewrite { dir, limits: l.clone() }
                            } else {
                                SyncStep::Idle
                            }
                        } else {
                            let prev = self.take_entry(pid);
                            SyncStep::Enroll { dir, limits: l.clone(), release: prev }
                        }
                    },
                    None => SyncStep::Enroll { dir, limits: l.clone(), release: None },
                }
            },
        }
    }

    /// Whether some enrolled pid sits in (a path equal to) `d`.
    pub fn any_enrolled_in(&self, d: &str) -> (r: bool)
        requires
            self.wf(),
        ensures
            r == self.enrolled_in(d@),
    {
        let ghost v = spec_hash_map_iter(&self.enrolled).remaining();
        let mut found = false;
        for (p, e) in it: self.enrolled.iter()
            invariant
                it.seq() == v,
                v == spec_hash_map_iter(&self.enrolled).remaining(),
                found == exists|j: int| 0 <= j < it.index() && path_eq(#[trigger] v[j].1.dir@, d@),
        {
            if paths_equal(e.dir.as_str(), d) {
                found = true;
            }
        }
        proof {
            if found {
                let j = choose|j: int| 0 <= j < v.len() && path_eq(#[trigger] v[j].1.dir@, d@);
                assert(self.enrolled@.contains_key(*v[j].0));
                assert(self.entry(*v[j].0) == Some(*v[j].1));
            } else {
                assert forall|p: u32| !(#[trigger] self.entry(p) matches Some(e) && path_eq(e.dir@, d@)) by {
                    if self.enrolled@.contains_key(p) {
                        assert(v.contains((&p, &self.enrolled@[p])));
                        let j = choose|j: int| 0 <= j < v.len() && v[j] == (&p, &self.enrolled@[p]);
                        assert(!path_eq(v[j].1.dir@, d@));
                    }
                }
            }
        }
        found
    }

    /// Whether a pid's current cgroup is one of the managed dirs (the pid is
    /// then an orphan of an earlier run, and its true origin is elsewhere).
    pub fn is_managed_origin(&self, origin: &str) -> (r: bool)
        requires
            self.wf(),
        ensures
            r == (match self.base_path() {
                Some(b) => !path_eq(origin@, b) && path_starts_with(origin@, b) && (self.dir_listed(
                    origin@,
                ) || self.enrolled_in(origin@)),
                None => false,
            }),
    {
        match &self.base {
            None => false,
            Some(b) => {
                if paths_equal(origin, b.as_str()) || !path_has_prefix(origin, b.as_str()) {
                    return false;
                }
                let listed = self.dir_position(origin).is_some();
                listed || self.any_enrolled_in(origin)
            },
        }
    }

    /// The origin to record for a pid about to be enrolled: its current
    /// cgroup, unless that is a managed dir, in which case the origin
    /// persisted by an earlier run.  The flag is set when that origin is
    /// unknown (then the current cgroup is kept).
    pub fn settle_origin(&self, current: String, persisted: Option<String>) -> (r: (String, bool))
        requires
            self.wf(),
        ensures
            ({
                let managed = match self.base_path() {
                    Some(b) => !path_eq(current@, b) && path_starts_with(current@, b) && (
                    self.dir_listed(current@) || self.enrolled_in(current@)),
                    None => false,
                };
                if managed {
                    &&& r.0@ == (match persisted {
                        Some(p) => p@,
                        None => current@,
                    })
                    &&& r.1 == persisted is None
                } else {
                    r.0@ == current@ && !r.1
                }
            }),
    {
        if self.is_managed_origin(current.as_str()) {
            match persisted {
                Some(p) => (p, false),
                None => (current, true),
            }
        } else {
            (current, false)
        }
    }

    /// The pid was moved into `dir` with `limits` written.
    pub fn record_enrollment(&mut self, pid: u32, dir: String, origin: String, limits: CgroupLimits)
        requires
            old(self).wf(),
        ensures
            final(self).wf(),
            final(self).entry(pid) == Some(
                Enrolled { dir: dir, origin: origin, limits: Some(limits) },
            ),
            forall|q: u32| q != pid ==> final(self).entry(q) == old(self).entry(q),
            forall|x: Seq<char>| final(self).dir_listed(x) == (old(self).dir_listed(x) || path_eq(x, dir@)),
            final(self).base_path() == old(self).base_path(),
            final(self).reasserted() == old(self).reasserted(),
    {
        let d = dir.clone();
        self.put_entry(pid, Enrolled { dir, origin, limits: Some(limits) });
        self.record_dir(d);
    }

    /// Take a pid out of the table (it exited, or is being moved back);
    /// returns its entry so that the caller can move it and prune its dir.
    pub fn forget(&mut self, pid: u32) -> (r: Option<Enrolled>)
        requires
            old(self).wf(),
        ensures
            final(self).wf(),
            r == old(self).entry(pid),
            final(self).entry(pid) is None,
            forall|q: u32| q != pid ==> final(self).entry(q) == old(self).entry(q),
            final(self).base_path() == old(self).base_path(),
            final(self).dirs() == old(self).dirs(),
            final(self).reasserted() == old(self).reasserted(),
    {
        self.take_entry(pid)
    }

    /// Every enrolled pid, each once.
    pub fn enrolled_pids(&self) -> (r: Vec<u32>)
        requires
            self.wf(),
        ensures
            r@.len() == self.enrolled_count(),
            forall|p: u32| r@.contains(p) <==> self.entry(p) is Some,
    {
        let ghost v = spec_hash_map_iter(&self.enrolled).remaining();
        let mut out: Vec<u32> = Vec::new();
        for (p, e) in it: self.enrolled.iter()
            invariant
                it.seq() == v,
                v == spec_hash_map_iter(&self.enrolled).remaining(),
                out@.len() == it.index(),
                forall|j: int| 0 <= j < it.index() ==> out@[j] == *v[j].0,
        {
            out.push(*p);
        }
        proof {
            assert forall|p: u32| out@.contains(p) <==> self.entry(p) is Some by {
                if out@.contains(p) {
                    let j = choose|j: int| 0 <= j < out@.len() && out@[j] == p;
                    assert(self.enrolled@.contains_key(*v[j].0));
                }
                if self.enrolled@.contains_key(p) {
                    assert(v.contains((&p, &self.enrolled@[p])));
                    let j = choose|j: int| 0 <= j < v.len() && v[j] == (&p, &self.enrolled@[p]);
                    assert(out@[j] == p);
                }
            }
        }
        out
    }

    /// (pid, managed dir, origin) of every enrolled pid, for persisting.
    pub fn entries(&self) -> (r: Vec<(u32, String, String)>)
        requires
            self.wf(),
        ensures
            r@.len() == self.enrolled_count(),
            forall|i: int|
                0 <= i < r@.len() ==> (#[trigger] self.entry(r@[i].0) matches Some(e) && e.dir@
                    == r@[i].1@ && e.origin@ == r@[i].2@),
            forall|p: u32| self.entry(p) is Some ==> exists|i: int| 0 <= i < r@.len() && #[trigger] r@[i].0 == p,
    {
        let ghost v = spec_hash_map_iter(&self.enrolled).remaining();
        let mut out: Vec<(u32, String, String)> = Vec::new();
        for (p, e) in it: self.enrolled.iter()
            invariant
                it.seq() == v,
                v == spec_hash_map_iter(&self.enrolled).remaining(),
                out@.len() == it.index(),
                forall|j: int|
                    0 <= j < it.index() ==> {
                        let (q, d, o) = #[trigger] out@[j];
                        &&& q == *v[j].0
                        &&& d@ == v[j].1.dir@
                        &&& o@ == v[j].1.origin@
                    },
        {
            out.push((*p, e.dir.clone(), e.origin.clone()));
        }
        proof {
            assert forall|k: int| 0 <= k < out@.len() implies (#[trigger] self.entry(out@[k].0) matches Some(
                e,
            ) && e.dir@ == out@[k].1@ && e.origin@ == out@[k].2@) by {
                assert(self.enrolled@.contains_key(*v[k].0));
                assert(self.enrolled@[*v[k].0] == *v[k].1);
            }
            assert forall|p: u32| self.entry(p) is Some implies exists|k: int|
                0 <= k < out@.len() && #[trigger] out@[k].0 == p by {
                assert(v.contains((&p, &self.enrolled@[p])));
                let j = choose|j: int| 0 <= j < v.len() && v[j] == (&p, &self.enrolled@[p]);
                assert(out@[j].0 == p);
            }
        }
        out
    }

    /// The created dirs.
    pub fn managed_dirs(&self) -> (r: Vec<String>)
        ensures
            r@.map_values(|d: String| d@) == self.dirs(),
    {
        let mut out: Vec<String> = Vec::new();
        let mut i: usize = 0;
        while i < self.created_dirs.len()
            invariant
                i <= self.created_dirs@.len(),
                out@.map_values(|d: String| d@) == self.created_dirs@.take(i as int).map_values(
                    |d: String| d@,
                ),
            decreases self.created_dirs.len() - i,
        {
            let ghost before = out@;
            out.push(self.created_dirs[i].clone());
            proof {
                assert(out@.map_values(|d: String| d@) =~= before.map_values(|d: String| d@).push(
                    self.created_dirs@[i as int]@,
                ));
                assert(self.created_dirs@.take(i + 1).map_values(|d: String| d@)
                    =~= self.created_dirs@.take(i as int).map_values(|d: String| d@).push(
                    self.created_dirs@[i as int]@,
                ));
            }
            i = i + 1;
        }
        proof {
            assert(self.created_dirs@.take(i as int) =~= self.created_dirs@);
        }
        out
    }

    /// The pids of `cgroup.procs` lines (trimmed, parsed as `u32`) that
    /// are not enrolled, in order.
    pub open spec fn strays_in(&self, ls: Seq<Seq<char>>) -> Seq<u32>
        decreases ls.len(),
    {
        if ls.len() == 0 {
            seq![]
        } else {
            let rest = self.strays_in(ls.drop_first());
            match crate::text::parse_u32_spec(trim(ls[0])) {
                Some(p) => if self.entry(p) is None {
                    seq![p] + rest
                } else {
                    rest
                },
                None => rest,
            }
        }
    }

    /// Pids listed in a managed dir's `cgroup.procs` text that were not
    /// moved in by this table.
    pub fn stray_pids(&self, procs: &str) -> (r: Vec<u32>)
        requires
            self.wf(),
        ensures
            r@ == self.strays_in(crate::proc_scan::lines(procs@)),
    {
        let v = to_chars(procs);
        let ls = crate::proc_scan::split_lines(&v);
        let ghost all = crate::proc_scan::lines(procs@);
        let mut out: Vec<u32> = Vec::new();
        let mut i: usize = 0;
        proof {
            assert(all.skip(0) =~= all);
            assert(out@ + self.strays_in(all.skip(0)) =~= self.strays_in(all));
        }
        while i < ls.len()
            invariant
                self.wf(),
                i <= ls@.len(),
                ls@.len() == all.len(),
                all == crate::proc_scan::lines(procs@),
                forall|j: int| 0 <= j < ls@.len() ==> #[trigger] ls@[j]@ == all[j],
                out@ + self.strays_in(all.skip(i as int)) == self.strays_in(all),
            decreases ls.len() - i,
        {
            let ghost rest = all.skip(i as int);
            assert(rest[0] == ls@[i as int]@);
            assert(rest.drop_first() =~= all.skip(i + 1));
            let t = trim_chars(&ls[i]);
            let ghost before = out@;
            match crate::text::parse_u32(&t) {
                Some(p) => {
                    if !self.is_capped(p) {
                        out.push(p);
                        proof {
                            assert(out@ + self.strays_in(all.skip(i + 1)) =~= before + (seq![p]
                                + self.strays_in(all.skip(i + 1))));
                        }
                    }
                },
                None => {},
            }
            i = i + 1;
        }
        proof {
            assert(all.skip(i as int) =~= seq![]);
            assert(out@ + seq![] =~= out@);
        }
        out
    }

    fn take_entry(&mut self, pid: u32) -> (r: Option<Enrolled>)
        requires
            old(self).wf(),
        ensures
            final(self).wf(),
            r == old(self).entry(pid),
            final(self).entry(pid) is None,
            forall|q: u32| q != pid ==> final(self).entry(q) == old(self).entry(q),
            final(self).base_path() == old(self).base_path(),
            final(self).dirs() == old(self).dirs(),
            final(self).reasserted() == old(self).reasserted(),
            final(self).enrolled_count() == old(self).enrolled_count() - (if r is Some {
                1int
            } else {
                0int
            }),
            r is None ==> *final(self) == *old(self),
    {
        if !self.enrolled.contains_key(&pid) {
            return None;
        }
        let r = self.enrolled.remove(&pid);
        proof {
            old(self).enrolled@.lemma_remove_key_len(pid);
        }
        r
    }

    fn put_entry(&mut self, pid: u32, e: Enrolled)
        requires
            old(self).wf(),
        ensures
            final(self).wf(),
            final(self).entry(pid) == Some(e),
            forall|q: u32| q != pid ==> final(self).entry(q) == old(self).entry(q),
            final(self).base_path() == old(self).base_path(),
            final(self).dirs() == old(self).dirs(),
            final(self).reasserted() == old(self).reasserted(),
            final(self).enrolled_count() == old(self).enrolled_count() + (if old(self).entry(pid) is None {
                1int
            } else {
                0int
            }),
    {
        self.enrolled.insert(pid, e);
    }

    fn dir_position(&self, d: &str) -> (r: Option<usize>)
        ensures
            match r {
                Some(i) => i < self.dirs().len() && path_eq(self.dirs()[i as int], d@),
                None => !self.dir_listed(d@),
            },
    {
        let mut i: usize = 0;
        while i < self.created_dirs.len()
            invariant
                i <= self.created_dirs@.len(),
                self.dirs().len() == self.created_dirs@.len(),
                forall|j: int| 0 <= j < i ==> !path_eq(#[trigger] self.dirs()[j], d@),
            decreases self.created_dirs.len() - i,
        {
            assert(self.dirs()[i as int] == self.created_dirs@[i as int]@);
            if paths_equal(self.created_dirs[i].as_str(), d) {
                return Some(i);
            }
            i = i + 1;
        }
        None
    }

    fn record_dir(&mut self, d: String)
        requires
            old(self).wf(),
        ensures
            final(self).wf(),
            forall|x: Seq<char>| final(self).dir_listed(x) == (old(self).dir_listed(x) || path_eq(x, d@)),
            forall|p: u32| final(self).entry(p) == old(self).entry(p),
            final(self).base_path() == old(self).base_path(),
            final(self).reasserted() == old(self).reasserted(),
            final(self).enrolled_count() == old(self).enrolled_count(),
    {
        match self.dir_position(d.as_str()) {
            Some(i) => {
                proof {
                    assert forall|x: Seq<char>| path_eq(x, d@) implies self.dir_listed(x) by {
                        assert(path_eq(self.dirs()[i as int], x));
                    }
                }
            },
            None => {
                let ghost s = self.dirs();
                self.created_dirs.push(d);
                proof {
                    let t = self.dirs();
                    assert(t =~= s.push(d@));
                    assert forall|a: int, b: int| 0 <= a < b < self.created_dirs@.len() implies !path_eq(
                        #[trigger] self.created_dirs@[a]@,
                        #[trigger] self.created_dirs@[b]@,
                    ) by {
                        assert(self.created_dirs@[a]@ == t[a]);
                        assert(self.created_dirs@[b]@ == t[b]);
                        if b == t.len() - 1 {
                            assert(t[a] == s[a]);
                            if path_eq(t[a], t[b]) {
                                assert(path_eq(s[a], d@));
                            }
                        } else {
                            assert(t[a] == s[a] && t[b] == s[b]);
                            assert(self.created_dirs@[a]@ == old(self).created_dirs@[a]@);
                            assert(self.created_dirs@[b]@ == old(self).created_dirs@[b]@);
                        }
                    }
                    assert forall|x: Seq<char>| #![auto] self.dir_listed(x) == (old(self).dir_listed(x)
                        || path_eq(x, d@)) by {
                        if self.dir_listed(x) {
                            let k = choose|k: int| 0 <= k < t.len() && path_eq(#[trigger] t[k], x);
                            if k < s.len() {
                                assert(t[k] == s[k]);
                            }
                        }
                        if old(self).dir_listed(x) {
                            let k = choose|k: int| 0 <= k < s.len() && path_eq(#[trigger] s[k], x);
                            assert(t[k] == s[k]);
                        }
                        if path_eq(x, d@) {
                            assert(path_eq(t[t.len() - 1], x));
                        }
                    }
                }
            },
        }
    }

    /// A managed dir was removed from the filesystem.
    pub fn dir_removed(&mut self, d: &str)
        requires
            old(self).wf(),
        ensures
            final(self).wf(),
            forall|x: Seq<char>| final(self).dir_listed(x) == (old(self).dir_listed(x) && !path_eq(x, d@)),
            forall|p: u32| final(self).entry(p) == old(self).entry(p),
            final(self).base_path() == old(self).base_path(),
            final(self).reasserted() == old(self).reasserted(),
            final(self).enrolled_count() == old(self).enrolled_count(),
    {
        match self.dir_position(d) {
            None => {
                proof {
                    assert forall|x: Seq<char>| #![auto] self.dir_listed(x) implies !path_eq(x, d@) by {
                        let k = choose|k: int| 0 <= k < self.dirs().len() && path_eq(#[trigger] self.dirs()[k], x);
                        if path_eq(x, d@) {
                            assert(path_eq(self.dirs()[k], d@));
                        }
                    }
                }
            },
            Some(i) => {
                let ghost s = self.dirs();
                let ghost raw = self.created_dirs@;
                self.created_dirs.remove(i);
                proof {
                    let t = self.dirs();
                    assert(self.created_dirs@ == raw.remove(i as int));
                    assert forall|k: int| 0 <= k < t.len() implies #[trigger] t[k] == s[if k < i {
                        k
                    } else {
                        k + 1
                    }] by {
                        let k0 = if k < i {
                            k
                        } else {
                            k + 1
                        };
                        assert(self.created_dirs@[k] == raw[k0]);
                    }
                    assert forall|a: int, b: int| 0 <= a < b < self.created_dirs@.len() implies !path_eq(
                        #[trigger] self.created_dirs@[a]@,
                        #[trigger] self.created_dirs@[b]@,
                    ) by {
                        let a0 = if a < i {
                            a
                        } else {
                            a + 1
                        };
                        let b0 = if b < i {
                            b
                        } else {
                            b + 1
                        };
                        assert(self.created_dirs@[a] == raw[a0]);
                        assert(self.created_dirs@[b] == raw[b0]);
                    }
                    assert forall|x: Seq<char>| #![auto] self.dir_listed(x) == (old(self).dir_listed(x)
                        && !path_eq(x, d@)) by {
                        if self.dir_listed(x) {
                            let k = choose|k: int| 0 <= k < t.len() && path_eq(#[trigger] t[k], x);
                            let k0 = if k < i {
                                k
                            } else {
                                k + 1
                            };
                            assert(t[k] == s[k0]);
                            assert(!path_eq(raw[k0]@, raw[i as int]@));
                        }
                        if old(self).dir_listed(x) && !path_eq(x, d@) {
                            let k = choose|k: int| 0 <= k < s.len() && path_eq(#[trigger] s[k], x);
                            assert(k != i);
                            let k2 = if k < i {
                                k
                            } else {
                                k - 1
                            };
                            assert(t[k2] == s[k]);
                        }
                    }
                }
            },
        }
    }

}

/// Re-syncing a pid with the limits already recorded for it, in the same
/// dir, touches nothing; after a controller re-assertion the same call
/// writes them again.
pub proof fn lemma_resync_same_limits(
    b: Seq<char>,
    e: Enrolled,
    key: Seq<char>,
    l: CgroupLimits,
    reasserted: bool,
    step: SyncStep,
    after: Option<Enrolled>,
)
    requires
        path_eq(e.dir@, managed_dir_spec(b, key, l)),
        limits_current(e.limits, l),
        sync_outcome(Some(b), reasserted, Some(e), key, Some(l), step, after),
    ensures
        !reasserted ==> step is Idle && after == Some(e),
        reasserted ==> step is Rewrite,
{
}

/// Recorded limits count as current only when every limit equals the
/// wanted one: a pid enrolled in its rule's dir whose recorded cap, weight,
/// idle flag, path or memory bound differs from what its rule now wants is
/// rewritten with the wanted limits, and its entry records them.
pub proof fn lemma_changed_limits_are_rewritten(
    b: Seq<char>,
    e: Enrolled,
    key: Seq<char>,
    x: CgroupLimits,
    l: CgroupLimits,
    reasserted: bool,
    step: SyncStep,
    after: Option<Enrolled>,
)
    requires
        path_eq(e.dir@, managed_dir_spec(b, key, l)),
        e.limits == Some(x),
        x.cpu_cap_percent != l.cpu_cap_percent || x.cpu_weight != l.cpu_weight || x.cpu_idle
            != l.cpu_idle || opt_chars(x.path) != opt_chars(l.path) || opt_chars(x.memory_high)
            != opt_chars(l.memory_high) || opt_chars(x.memory_max) != opt_chars(l.memory_max),
        sync_outcome(Some(b), reasserted, Some(e), key, Some(l), step, after),
    ensures
        step matches SyncStep::Rewrite { dir, limits: w } && dir@ == managed_dir_spec(b, key, l) && w == l,
        after == Some(Enrolled { limits: Some(l), ..e }),
{
}

/// When the rule stops limiting a pid, the pid leaves the table and is
/// moved back to the origin recorded for it.
pub proof fn lemma_release_restores_origin(
    b: Seq<char>,
    e: Enrolled,
    key: Seq<char>,
    reasserted: bool,
    step: SyncStep,
    after: Option<Enrolled>,
)
    requires
        sync_outcome(Some(b), reasserted, Some(e), key, None, step, after),
    ensures
        after is None,
        step matches SyncStep::Release { dir, origin } && origin == e.origin && dir == e.dir,
{
}

/// Without a cgroup base nothing is ever enrolled.
pub proof fn lemma_no_base_no_enrollment(
    reasserted: bool,
    before: Option<Enrolled>,
    key: Seq<char>,
    limits: Option<CgroupLimits>,
    step: SyncStep,
    after: Option<Enrolled>,
)
    requires
        sync_outcome(None, reasserted, before, key, limits, step, after),
    ensures
        after == before,
        !(step is Enroll),
        !(step is Rewrite),
{
}


} // verus!
