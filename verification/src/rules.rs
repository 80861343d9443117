//! Rule matching: decide the desired (nice, ionice) for a process.
//!
//! Resolution precedence:
//!   1. An explicit rule matching the process name wins over everything,
//!      including the game-detection heuristic.
//!   2. A heuristic-flagged process with no rule gets the
//!      `auto_game_default` preset.
//!   3. Otherwise nothing is applied.

use vstd::prelude::*;

use crate::common::{
    auto_game_preset, clone_opt_limits, tier_preset, AppConfig, AutoGameConfig, CgroupLimits,
    IoniceClass, Rule, RuleMap, Tier,
};
use crate::game_detect::{is_game_spec, GameFlags};

verus! {

#[derive(Debug, PartialEq, Eq)]
pub struct ApplyTarget {
    pub tier: Option<Tier>,
    pub nice: i32,
    pub ionice_class: IoniceClass,
    pub ionice_priority: u8,
    /// Key of the rule that produced this target.
    pub rule: Option<String>,
    /// cgroup limits from the rule, if any.
    pub cgroup: Option<CgroupLimits>,
}

#[derive(Debug, PartialEq, Eq)]
pub enum Resolved {
    /// No rule and not flagged: leave the process untouched.
    Untouched,
    /// Concrete desired state to apply.
    Apply(ApplyTarget),
}

/// The rules indexed by match name, in the order the config lists them: a
/// later key overrides an earlier rule with the same match name.
pub open spec fn index_by_match(s: Seq<(Seq<char>, Rule)>) -> Map<Seq<char>, Rule>
    decreases s.len(),
{
    if s.len() == 0 {
        Map::empty()
    } else {
        index_by_match(s.drop_last()).insert(s.last().1.match_name@, s.last().1)
    }
}

/// The target an explicit rule asks for: its fields override the preset of
/// its tier (Software when it names none).
pub open spec fn rule_target(rule: Rule) -> ApplyTarget {
    let tier = rule.tier.unwrap_or(Tier::Software);
    let base = tier_preset(tier);
    ApplyTarget {
        tier: Some(tier),
        nice: rule.nice.unwrap_or(base.nice),
        ionice_class: rule.ionice_class.unwrap_or(base.ionice_class),
        ionice_priority: rule.ionice_priority.unwrap_or(base.ionice_priority),
        rule: Some(rule.name),
        cgroup: rule.cgroup,
    }
}

/// The target the auto-game section asks for.
pub open spec fn auto_game_target(a: AutoGameConfig) -> ApplyTarget {
    let p = auto_game_preset(a);
    ApplyTarget {
        tier: Some(a.tier.unwrap_or(Tier::Game)),
        nice: p.nice,
        ionice_class: p.ionice_class,
        ionice_priority: p.ionice_priority,
        rule: None,
        cgroup: None,
    }
}

/// The resolution precedence.
pub open spec fn resolve_spec(
    rules: Map<Seq<char>, Rule>,
    auto: AutoGameConfig,
    name: Seq<char>,
    flags: GameFlags,
    age_secs: u64,
) -> Resolved {
    if rules.dom().contains(name) {
        let rule = rules[name];
        if rule.delay matches Some(d) && age_secs < d {
            Resolved::Untouched
        } else {
            Resolved::Apply(rule_target(rule))
        }
    } else if is_game_spec(flags) {
        Resolved::Apply(auto_game_target(auto))
    } else {
        Resolved::Untouched
    }
}

pub fn make_auto_game_target(a: &AutoGameConfig) -> (t: ApplyTarget)
    ensures
        t == auto_game_target(*a),
{
    let p = a.preset();
    ApplyTarget {
        tier: Some(
            match a.tier {
                Some(t) => t,
                None => Tier::Game,
            },
        ),
        nice: p.nice,
        ionice_class: p.ionice_class,
        ionice_priority: p.ionice_priority,
        rule: None,
        cgroup: None,
    }
}

/// Rules keyed by process match name, plus the auto-game section.
#[derive(Debug)]
pub struct RuleSet {
    by_match: RuleMap,
    pub auto_game: AutoGameConfig,
}

impl RuleSet {
    /// Well-formed: the index is a sorted map whose keys are the rules'
    /// match names.
    pub closed spec fn wf(&self) -> bool {
        &&& self.by_match.wf()
        &&& forall|i: int|
            0 <= i < self.by_match.seq().len() ==> (#[trigger] self.by_match.seq()[i]).1.match_name@
                == self.by_match.seq()[i].0
    }

    /// The auto-game section in effect.
    pub closed spec fn auto_section(&self) -> AutoGameConfig {
        self.auto_game
    }

    /// The rules by match name.
    pub closed spec fn rules_map(&self) -> Map<Seq<char>, Rule> {
        self.by_match.map()
    }

    /// The rule set of a config.
    pub fn from_config(cfg: &AppConfig) -> (s: RuleSet)
        requires
            cfg.rules.wf(),
        ensures
            s.wf(),
            s.rules_map() == index_by_match(cfg.rules.seq()),
            s.auto_section() == (match cfg.auto_game {
                Some(a) => a,
                None => AutoGameConfig { tier: None, nice: None, ionice_class: None, ionice_priority: None },
            }),
    {
        let mut by_match = RuleMap::new();
        let mut i: usize = 0;
        while i < cfg.rules.len()
            invariant
                cfg.rules.wf(),
                i <= cfg.rules.seq().len(),
                by_match.wf(),
                forall|j: int|
                    0 <= j < by_match.seq().len() ==> (#[trigger] by_match.seq()[j]).1.match_name@
                        == by_match.seq()[j].0,
                by_match.map() == index_by_match(cfg.rules.seq().take(i as int)),
            decreases cfg.rules.seq().len() - i,
        {
            let rule = cfg.rules.rule_at_index(i).clone();
            let key = rule.match_name.clone();
            let ghost prev = by_match;
            let ghost k = key@;
            by_match.insert(key, rule);
            proof {
                assert(cfg.rules.seq().take(i + 1).drop_last() == cfg.rules.seq().take(i as int));
                assert(cfg.rules.seq().take(i + 1).last() == cfg.rules.seq()[i as int]);
                assert forall|j: int| 0 <= j < by_match.seq().len() implies (
                #[trigger] by_match.seq()[j]).1.match_name@ == by_match.seq()[j].0 by {
                    let q = by_match.seq()[j].0;
                    by_match.lemma_key_index(j, q);
                    assert(by_match.map()[q] == by_match.seq()[j].1);
                    assert(by_match.has_key(q));
                    assert(by_match.map().dom().contains(q));
                    if q != k {
                        assert(prev.map().insert(k, rule).dom().contains(q));
                        assert(prev.map().dom().contains(q));
                        let t = choose|t: int| 0 <= t < prev.seq().len() && #[trigger] prev.seq()[t].0 == q;
                        prev.lemma_key_index(t, q);
                    }
                }
            }
            i = i + 1;
        }
        proof {
            assert(cfg.rules.seq().take(cfg.rules.seq().len() as int) == cfg.rules.seq());
        }
        let auto_game = match &cfg.auto_game {
            Some(a) => *a,
            None => AutoGameConfig::default(),
        };
        RuleSet { by_match, auto_game }
    }

    /// The auto-game section in effect.
    pub fn auto_game_section(&self) -> (a: AutoGameConfig)
        ensures
            a == self.auto_section(),
    {
        self.auto_game
    }

    pub fn has_rule(&self, process_name: &str) -> (b: bool)
        requires
            self.wf(),
        ensures
            b == self.rules_map().dom().contains(process_name@),
    {
        self.by_match.contains_key(process_name)
    }

    /// The rules in match-name order.
    pub closed spec fn rule_list(&self) -> Seq<Rule> {
        self.by_match.seq().map_values(|e: (Seq<char>, Rule)| e.1)
    }

    /// The listed rules are exactly the indexed ones, each once.
    pub proof fn lemma_rule_list(&self)
        requires
            self.wf(),
        ensures
            forall|i: int|
                0 <= i < self.rule_list().len() ==> self.rules_map().dom().contains(
                    (#[trigger] self.rule_list()[i]).match_name@,
                ) && self.rules_map()[self.rule_list()[i].match_name@] == self.rule_list()[i],
            forall|k: Seq<char>|
                #[trigger] self.rules_map().dom().contains(k) ==> exists|i: int|
                    0 <= i < self.rule_list().len() && self.rule_list()[i].match_name@ == k,
            forall|i: int, j: int|
                0 <= i < j < self.rule_list().len() ==> (#[trigger] self.rule_list()[i]).match_name@
                    != (#[trigger] self.rule_list()[j]).match_name@,
    {
        assert forall|i: int| 0 <= i < self.rule_list().len() implies self.rules_map().dom().contains(
            (#[trigger] self.rule_list()[i]).match_name@,
        ) && self.rules_map()[self.rule_list()[i].match_name@] == self.rule_list()[i] by {
            self.by_match.lemma_key_index(i, self.by_match.seq()[i].0);
        }
        assert forall|k: Seq<char>| #[trigger] self.rules_map().dom().contains(k) implies exists|i: int|
            0 <= i < self.rule_list().len() && self.rule_list()[i].match_name@ == k by {
            let i = choose|i: int| 0 <= i < self.by_match.seq().len() && #[trigger] self.by_match.seq()[i].0 == k;
            assert(self.rule_list()[i].match_name@ == k);
        }
        assert forall|i: int, j: int| 0 <= i < j < self.rule_list().len() implies (
        #[trigger] self.rule_list()[i]).match_name@ != (#[trigger] self.rule_list()[j]).match_name@ by {
            assert(crate::text::seq_lt(self.by_match.seq()[i].0, self.by_match.seq()[j].0));
            crate::text::lemma_seq_lt_irrefl(self.by_match.seq()[i].0);
        }
    }

    /// The rules, one per match name.
    pub fn rules(&self) -> (v: Vec<Rule>)
        ensures
            v@ == self.rule_list(),
    {
        let mut v: Vec<Rule> = Vec::new();
        let mut i: usize = 0;
        while i < self.by_match.len()
            invariant
                i <= self.by_match.seq().len(),
                v@ == self.by_match.seq().take(i as int).map_values(|e: (Seq<char>, Rule)| e.1),
            decreases self.by_match.seq().len() - i,
        {
            v.push(self.by_match.rule_at_index(i).clone());
            proof {
                assert(self.by_match.seq().take(i + 1).map_values(|e: (Seq<char>, Rule)| e.1)
                    =~= self.by_match.seq().take(i as int).map_values(|e: (Seq<char>, Rule)| e.1).push(
                    self.by_match.seq()[i as int].1,
                ));
            }
            i = i + 1;
        }
        proof {
            assert(self.by_match.seq().take(i as int) == self.by_match.seq());
        }
        v
    }

    /// Resolve the desired priority for a process that has run `age_secs`
    /// seconds; rules with a `delay` wait until the process is that old.
    pub fn resolve(&self, process_name: &str, flags: &GameFlags, age_secs: u64) -> (r: Resolved)
        requires
            self.wf(),
        ensures
            r == resolve_spec(self.rules_map(), self.auto_section(), process_name@, *flags, age_secs),
    {
        match self.by_match.get(process_name) {
            Some(rule) => {
                match rule.delay {
                    Some(delay) => {
                        if age_secs < delay {
                            return Resolved::Untouched;
                        }
                    },
                    None => {},
                }
                let tier = match rule.tier {
                    Some(t) => t,
                    None => Tier::Software,
                };
                let base = tier.preset();
                Resolved::Apply(
                    ApplyTarget {
                        tier: Some(tier),
                        nice: match rule.nice {
                            Some(n) => n,
                            None => base.nice,
                        },
                        ionice_class: match rule.ionice_class {
                            Some(c) => c,
                            None => base.ionice_class,
                        },
                        ionice_priority: match rule.ionice_priority {
                            Some(p) => p,
                            None => base.ionice_priority,
                        },
                        rule: Some(rule.name.clone()),
                        cgroup: clone_opt_limits(&rule.cgroup),
                    },
                )
            },
            None => {
                if flags.is_game() {
                    Resolved::Apply(make_auto_game_target(&self.auto_game))
                } else {
                    Resolved::Untouched
                }
            },
        }
    }
}

/// An explicit rule wins over the heuristic: for a name with a rule, the
/// game flags have no influence on the resolution.
pub proof fn lemma_rule_wins_over_heuristic(
    rules: Map<Seq<char>, Rule>,
    auto: AutoGameConfig,
    name: Seq<char>,
    f1: GameFlags,
    f2: GameFlags,
    age_secs: u64,
)
    requires
        rules.dom().contains(name),
    ensures
        resolve_spec(rules, auto, name, f1, age_secs) == resolve_spec(rules, auto, name, f2, age_secs),
{
}

/// A rule's `delay` gates it: a younger process is left alone, an old
/// enough one gets the rule's target.
pub proof fn lemma_delay_gates_rule(
    rules: Map<Seq<char>, Rule>,
    auto: AutoGameConfig,
    name: Seq<char>,
    flags: GameFlags,
    age_secs: u64,
)
    requires
        rules.dom().contains(name),
        rules[name].delay is Some,
    ensures
        age_secs < rules[name].delay.unwrap() ==> resolve_spec(rules, auto, name, flags, age_secs)
            == Resolved::Untouched,
        age_secs >= rules[name].delay.unwrap() ==> resolve_spec(rules, auto, name, flags, age_secs)
            == Resolved::Apply(rule_target(rules[name])),
{
}

/// Without a rule, a flagged process gets the auto-game target and an
/// unflagged one is left alone.
pub proof fn lemma_unruled_follows_heuristic(
    rules: Map<Seq<char>, Rule>,
    auto: AutoGameConfig,
    name: Seq<char>,
    flags: GameFlags,
    age_secs: u64,
)
    requires
        !rules.dom().contains(name),
    ensures
        is_game_spec(flags) ==> resolve_spec(rules, auto, name, flags, age_secs) == Resolved::Apply(
            auto_game_target(auto),
        ),
        !is_game_spec(flags) ==> resolve_spec(rules, auto, name, flags, age_secs) == Resolved::Untouched,
{
}

/// A rule's tier preset fills exactly the fields the rule leaves open, and
/// the rule's cgroup limits carry through unchanged.
pub proof fn lemma_preset_fills_missing_fields(rule: Rule)
    ensures
        rule.nice is None ==> rule_target(rule).nice == tier_preset(rule.tier.unwrap_or(Tier::Software)).nice,
        rule.nice matches Some(n) ==> rule_target(rule).nice == n,
        rule.ionice_class is None ==> rule_target(rule).ionice_class == tier_preset(
            rule.tier.unwrap_or(Tier::Software),
        ).ionice_class,
        rule.ionice_priority is None ==> rule_target(rule).ionice_priority == tier_preset(
            rule.tier.unwrap_or(Tier::Software),
        ).ionice_priority,
        rule_target(rule).cgroup == rule.cgroup,
{
}

/// A rule's explicit fields override its tier preset: for a process whose
/// rule applies (no delay, or an old enough process), the target carries
/// the rule's own tier, nice value, IO class and IO priority wherever the
/// rule sets them, its name, and its cgroup limits.
pub proof fn lemma_rule_fields_override_preset(
    rules: Map<Seq<char>, Rule>,
    auto: AutoGameConfig,
    name: Seq<char>,
    flags: GameFlags,
    age_secs: u64,
)
    requires
        rules.dom().contains(name),
        rules[name].delay matches Some(d) ==> age_secs >= d,
    ensures
        resolve_spec(rules, auto, name, flags, age_secs) matches Resolved::Apply(t) && {
            let r = rules[name];
            &&& (r.tier matches Some(x) ==> t.tier == Some(x))
            &&& (r.nice matches Some(n) ==> t.nice == n)
            &&& (r.ionice_class matches Some(c) ==> t.ionice_class == c)
            &&& (r.ionice_priority matches Some(p) ==> t.ionice_priority == p)
            &&& t.rule == Some(r.name)
            &&& t.cgroup == r.cgroup
        },
{
}

/// Indexing a config by match name keeps, for each match name, the rule
/// under the greatest key that has it.
pub proof fn lemma_index_by_match_last_wins(s: Seq<(Seq<char>, Rule)>, i: int)
    requires
        0 <= i < s.len(),
        forall|j: int| i < j < s.len() ==> (#[trigger] s[j]).1.match_name@ != s[i].1.match_name@,
    ensures
        index_by_match(s).dom().contains(s[i].1.match_name@),
        index_by_match(s)[s[i].1.match_name@] == s[i].1,
    decreases s.len(),
{
    if i < s.len() - 1 {
        lemma_index_by_match_last_wins(s.drop_last(), i);
    }
}

} // verus!
