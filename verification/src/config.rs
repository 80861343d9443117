//! Validation of rules files.  Invalid values (out-of-range nice etc.) are
//! reported as warnings; they do not fail the whole file.

use vstd::prelude::*;

use crate::common::{AppConfig, Rule};
use crate::text::{cat, decimal, decimal_chars, from_chars, signed_decimal, signed_decimal_chars};

verus! {

/// `rule [rules.<key>]: <what>`.
pub open spec fn rule_msg(key: Seq<char>, what: Seq<char>) -> Seq<char> {
    "rule [rules."@ + key + "]: "@ + what
}

/// The warnings for one rule, in the order they are checked.
pub open spec fn rule_warnings(key: Seq<char>, r: Rule) -> Seq<Seq<char>> {
    let m: Seq<Seq<char>> = if r.match_name@.len() == 0 {
        seq![rule_msg(key, "`match` must not be empty"@)]
    } else {
        seq![]
    };
    let n: Seq<Seq<char>> = match r.nice {
        Some(v) => if !(-20 <= v <= 19) {
            seq![rule_msg(key, "nice "@ + signed_decimal(v as int) + " out of range (-20..=19), ignoring"@)]
        } else {
            seq![]
        },
        None => seq![],
    };
    let p: Seq<Seq<char>> = match r.ionice_priority {
        Some(v) => if v > 7 {
            seq![rule_msg(key, "ionice_priority "@ + decimal(v as nat) + " out of range (0..=7), ignoring"@)]
        } else {
            seq![]
        },
        None => seq![],
    };
    let w: Seq<Seq<char>> = match r.cgroup {
        Some(c) => match c.cpu_weight {
            Some(v) => if !(1 <= v <= 10000) {
                seq![
                    rule_msg(
                        key,
                        "cgroup cpu_weight "@ + decimal(v as nat) + " out of range (1..=10000), ignoring"@,
                    ),
                ]
            } else {
                seq![]
            },
            None => seq![],
        },
        None => seq![],
    };
    let cap: Seq<Seq<char>> = match r.cgroup {
        Some(c) => match c.cpu_cap_percent {
            Some(v) => if !(1 <= v <= 3200) {
                seq![
                    rule_msg(
                        key,
                        "cgroup cpu_cap_percent "@ + decimal(v as nat)
                            + " out of range (1..=3200, percent of ONE core), ignoring"@,
                    ),
                ]
            } else {
                seq![]
            },
            None => seq![],
        },
        None => seq![],
    };
    m + n + p + w + cap
}

/// The warnings for all rules, in key order.
pub open spec fn config_warnings(rules: Seq<(Seq<char>, Rule)>) -> Seq<Seq<char>>
    decreases rules.len(),
{
    if rules.len() == 0 {
        seq![]
    } else {
        config_warnings(rules.drop_last()) + rule_warnings(rules.last().0, rules.last().1)
    }
}

fn rule_msg_text(key: &str, what: &str) -> (r: String)
    ensures
        r@ == rule_msg(key@, what@),
{
    let a = cat("rule [rules.", key);
    let b = cat(a.as_str(), "]: ");
    cat(b.as_str(), what)
}

fn push_msg(out: &mut Vec<String>, key: &str, what: &str)
    ensures
        crate::sync::texts(final(out)@) == crate::sync::texts(old(out)@).push(rule_msg(key@, what@)),
{
    let ghost before = out@;
    out.push(rule_msg_text(key, what));
    proof {
        assert(crate::sync::texts(out@) =~= crate::sync::texts(before).push(rule_msg(key@, what@)));
    }
}

fn number_msg(head: &str, n: &Vec<char>, tail: &str) -> (r: String)
    ensures
        r@ == head@ + n@ + tail@,
{
    let a = cat(head, from_chars(n).as_str());
    cat(a.as_str(), tail)
}

fn rule_warnings_into(out: &mut Vec<String>, key: &str, r: &Rule)
    ensures
        crate::sync::texts(final(out)@) == crate::sync::texts(old(out)@) + rule_warnings(key@, *r),
{
    let ghost w0 = crate::sync::texts(out@);
    if r.match_name.as_str().unicode_len() == 0 {
        push_msg(out, key, "`match` must not be empty");
    }
    let ghost w1 = crate::sync::texts(out@);
    match r.nice {
        Some(v) => {
            if !(-20 <= v && v <= 19) {
                let t = number_msg("nice ", &signed_decimal_chars(v as i64), " out of range (-20..=19), ignoring");
                push_msg(out, key, t.as_str());
            }
        },
        None => {},
    }
    let ghost w2 = crate::sync::texts(out@);
    match r.ionice_priority {
        Some(v) => {
            if v > 7 {
                let t = number_msg("ionice_priority ", &decimal_chars(v as u64), " out of range (0..=7), ignoring");
                push_msg(out, key, t.as_str());
            }
        },
        None => {},
    }
    let ghost w3 = crate::sync::texts(out@);
    match &r.cgroup {
        Some(c) => match c.cpu_weight {
            Some(v) => {
                if !(1 <= v && v <= 10000) {
                    let t = number_msg(
                        "cgroup cpu_weight ",
                        &decimal_chars(v as u64),
                        " out of range (1..=10000), ignoring",
                    );
                    push_msg(out, key, t.as_str());
                }
            },
            None => {},
        },
        None => {},
    }
    let ghost w4 = crate::sync::texts(out@);
    match &r.cgroup {
        Some(c) => match c.cpu_cap_percent {
            Some(v) => {
                if !(1 <= v && v <= 3200) {
                    let t = number_msg(
                        "cgroup cpu_cap_percent ",
                        &decimal_chars(v as u64),
                        " out of range (1..=3200, percent of ONE core), ignoring",
                    );
                    push_msg(out, key, t.as_str());
                }
            },
            None => {},
        },
        None => {},
    }
    proof {
        let rw = rule_warnings(key@, *r);
        assert(crate::sync::texts(out@) =~= w0 + rw);
    }
}

/// The warnings for out-of-range values of a parsed config.
pub fn validate(cfg: &AppConfig) -> (r: Vec<String>)
    ensures
        crate::sync::texts(r@) == config_warnings(cfg.rules.seq()),
{
    let mut out: Vec<String> = Vec::new();
    let n = cfg.rules.len();
    let mut i: usize = 0;
    proof {
        assert(cfg.rules.seq().take(0) =~= seq![]);
        assert(crate::sync::texts(out@) =~= seq![]);
    }
    while i < n
        invariant
            n == cfg.rules.seq().len(),
            i <= n,
            crate::sync::texts(out@) == config_warnings(cfg.rules.seq().take(i as int)),
        decreases n - i,
    {
        let key = cfg.rules.key_at(i);
        let rule = cfg.rules.rule_at_index(i);
        rule_warnings_into(&mut out, key.as_str(), rule);
        proof {
            let t = cfg.rules.seq().take(i + 1);
            assert(t.drop_last() =~= cfg.rules.seq().take(i as int));
            assert(t.last() == cfg.rules.seq()[i as int]);
        }
        i = i + 1;
    }
    proof {
        assert(cfg.rules.seq().take(n as int) =~= cfg.rules.seq());
    }
    out
}

} // verus!
