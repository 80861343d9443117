//! Text of the read-only CLI companions (`ps`, `rules`).

use vstd::prelude::*;

use crate::common::CgroupLimits;
use crate::text::{cat, decimal, decimal_chars, from_chars, to_chars};

verus! {

/// `s` when it has at most `n` characters, else its first `n - 1`
/// characters and an ellipsis.
pub open spec fn truncate_spec(s: Seq<char>, n: usize) -> Seq<char> {
    if s.len() <= n {
        s
    } else {
        s.take(if n == 0 {
            0
        } else {
            n - 1
        }) + seq!['\u{2026}']
    }
}

pub fn truncate(s: &str, n: usize) -> (r: String)
    ensures
        r@ == truncate_spec(s@, n),
{
    let v = to_chars(s);
    if v.len() <= n {
        s.to_owned()
    } else {
        let keep = if n == 0 {
            0
        } else {
            n - 1
        };
        let mut out = crate::text::slice_chars(&v, 0, keep);
        out.push('\u{2026}');
        proof {
            assert(out@ =~= s@.take(keep as int) + seq!['\u{2026}']);
        }
        from_chars(&out)
    }
}

/// The parts of the CGROUP column: weight, cap, memory limits, idle.
pub open spec fn cgroup_parts(c: CgroupLimits) -> Seq<Seq<char>> {
    let w: Seq<Seq<char>> = match c.cpu_weight {
        Some(v) => seq!["w="@ + decimal(v as nat)],
        None => seq![],
    };
    let p: Seq<Seq<char>> = match c.cpu_cap_percent {
        Some(v) => seq!["cap="@ + decimal(v as nat) + "%"@],
        None => seq![],
    };
    let h: Seq<Seq<char>> = match c.memory_high {
        Some(v) => seq!["high="@ + v@],
        None => seq![],
    };
    let m: Seq<Seq<char>> = match c.memory_max {
        Some(v) => seq!["max="@ + v@],
        None => seq![],
    };
    let i: Seq<Seq<char>> = if c.cpu_idle == Some(true) {
        seq!["idle"@]
    } else {
        seq![]
    };
    w + p + h + m + i
}

/// Parts joined by single spaces.
pub open spec fn join_spaces(parts: Seq<Seq<char>>) -> Seq<char>
    decreases parts.len(),
{
    if parts.len() == 0 {
        seq![]
    } else if parts.len() == 1 {
        parts[0]
    } else {
        join_spaces(parts.drop_last()) + seq![' '] + parts.last()
    }
}

fn push_part(parts: &mut Vec<Vec<char>>, p: Vec<char>)
    ensures
        final(parts)@.map_values(|x: Vec<char>| x@) == old(parts)@.map_values(|x: Vec<char>| x@).push(p@),
{
    let ghost before = parts@;
    parts.push(p);
    proof {
        assert(parts@.map_values(|x: Vec<char>| x@) =~= before.map_values(|x: Vec<char>| x@).push(p@));
    }
}

fn prefixed(head: &str, tail: &Vec<char>) -> (r: Vec<char>)
    ensures
        r@ == head@ + tail@,
{
    let mut v = to_chars(head);
    crate::text::extend_chars(&mut v, tail);
    v
}

/// The CGROUP column of `nicewatch rules` for a limits block.
pub fn cgroup_summary(c: &CgroupLimits) -> (r: String)
    ensures
        r@ == join_spaces(cgroup_parts(*c)),
{
    let mut parts: Vec<Vec<char>> = Vec::new();
    proof {
        assert(parts@.map_values(|x: Vec<char>| x@) =~= seq![]);
    }
    match c.cpu_weight {
        Some(v) => push_part(&mut parts, prefixed("w=", &decimal_chars(v as u64))),
        None => {},
    }
    match c.cpu_cap_percent {
        Some(v) => {
            let mut d = prefixed("cap=", &decimal_chars(v as u64));
            d.push('%');
            proof {
                assert(d@ =~= "cap="@ + decimal(v as nat) + "%"@) by {
                    reveal_strlit("%");
                }
            }
            push_part(&mut parts, d);
        },
        None => {},
    }
    match &c.memory_high {
        Some(v) => push_part(&mut parts, prefixed("high=", &to_chars(v.as_str()))),
        None => {},
    }
    match &c.memory_max {
        Some(v) => push_part(&mut parts, prefixed("max=", &to_chars(v.as_str()))),
        None => {},
    }
    if c.cpu_idle == Some(true) {
        push_part(&mut parts, to_chars("idle"));
    }
    proof {
        assert(parts@.map_values(|x: Vec<char>| x@) =~= cgroup_parts(*c));
    }
    let ghost ps = parts@.map_values(|x: Vec<char>| x@);
    let mut out: Vec<char> = Vec::new();
    let mut i: usize = 0;
    proof {
        assert(ps.take(0) =~= seq![]);
    }
    while i < parts.len()
        invariant
            i <= parts@.len(),
            ps == parts@.map_values(|x: Vec<char>| x@),
            out@ == join_spaces(ps.take(i as int)),
        decreases parts.len() - i,
    {
        proof {
            assert(ps.take(i + 1).drop_last() =~= ps.take(i as int));
            assert(ps.take(i + 1).last() == parts@[i as int]@);
        }
        if i > 0 {
            out.push(' ');
        } else {
            proof {
                assert(ps.take(1)[0] == parts@[0]@);
            }
        }
        crate::text::extend_chars(&mut out, &parts[i]);
        proof {
            if i == 0 {
                assert(out@ =~= join_spaces(ps.take(1)));
            } else {
                assert(out@ =~= join_spaces(ps.take(i as int)) + seq![' '] + parts@[i as int]@);
            }
        }
        i = i + 1;
    }
    proof {
        assert(ps.take(parts@.len() as int) =~= ps);
    }
    from_chars(&out)
}

} // verus!
