//! Path components, the way `std::path::Path` sees a `/`-separated path:
//! empty segments and `.` segments vanish, except a leading `.` of a
//! relative path, which stays as the current-dir component.

use vstd::prelude::*;

use crate::text::{chars_eq, to_chars};

verus! {

/// Tokenizer state: finished components and the segment being read.
pub open spec fn comps_state(p: Seq<char>) -> (Seq<Seq<char>>, Seq<char>)
    decreases p.len(),
{
    if p.len() == 0 {
        (seq![], seq![])
    } else {
        let (done, cur) = comps_state(p.drop_last());
        if p.last() == '/' {
            (keep_segment(done, cur), seq![])
        } else {
            (done, cur.push(p.last()))
        }
    }
}

/// Append a segment unless it is empty or `.`.
pub open spec fn keep_segment(done: Seq<Seq<char>>, seg: Seq<char>) -> Seq<Seq<char>> {
    if seg.len() == 0 || seg == seq!['.'] {
        done
    } else {
        done.push(seg)
    }
}

/// The path starts at the root.
pub open spec fn is_absolute(p: Seq<char>) -> bool {
    p.len() > 0 && p[0] == '/'
}

/// A relative path whose first segment is `.`.
pub open spec fn leading_cur_dir(p: Seq<char>) -> bool {
    p.len() > 0 && p[0] == '.' && (p.len() == 1 || p[1] == '/')
}

/// The components after the root, a leading current-dir component written
/// as `.`.
pub open spec fn components(p: Seq<char>) -> Seq<Seq<char>> {
    let (done, cur) = comps_state(p);
    let normal = keep_segment(done, cur);
    if leading_cur_dir(p) {
        seq![seq!['.']] + normal
    } else {
        normal
    }
}

/// `Path::file_name`: the last component when it is a normal one.
pub open spec fn file_name(p: Seq<char>) -> Option<Seq<char>> {
    let c = components(p);
    if c.len() > 0 && c.last() != seq!['.'] && c.last() != seq!['.', '.'] {
        Some(c.last())
    } else {
        None
    }
}

/// `Path` equality: same root and same components.
pub open spec fn path_eq(a: Seq<char>, b: Seq<char>) -> bool {
    is_absolute(a) == is_absolute(b) && components(a) == components(b)
}

/// `Path::starts_with`: same root and `base`'s components are a prefix.
pub open spec fn path_starts_with(p: Seq<char>, base: Seq<char>) -> bool {
    &&& is_absolute(p) == is_absolute(base)
    &&& components(base).len() <= components(p).len()
    &&& components(p).take(components(base).len() as int) == components(base)
}

fn is_dot(seg: &Vec<char>) -> (r: bool)
    ensures
        r == (seg@ == seq!['.']),
{
    let r = seg.len() == 1 && seg[0] == '.';
    proof {
        if seg@.len() == 1 && seg@[0] == '.' {
            assert(seg@ =~= seq!['.']);
        }
    }
    r
}

fn keep_segment_exec(done: &mut Vec<Vec<char>>, seg: Vec<char>)
    ensures
        final(done)@.len() == keep_segment(old(done)@.map_values(|s: Vec<char>| s@), seg@).len(),
        final(done)@.map_values(|s: Vec<char>| s@) == keep_segment(
            old(done)@.map_values(|s: Vec<char>| s@),
            seg@,
        ),
{
    if seg.len() > 0 && !is_dot(&seg) {
        let ghost before = done@;
        done.push(seg);
        proof {
            assert(done@.map_values(|s: Vec<char>| s@) =~= before.map_values(|s: Vec<char>| s@).push(seg@));
        }
    }
}

/// Leading part of the component list: the current-dir component, if any.
spec fn lead_part(p: Seq<char>) -> Seq<Seq<char>> {
    if leading_cur_dir(p) {
        seq![seq!['.']]
    } else {
        seq![]
    }
}

proof fn lemma_keep_segment_prefix(pre: Seq<Seq<char>>, done: Seq<Seq<char>>, seg: Seq<char>)
    ensures
        keep_segment(pre + done, seg) == pre + keep_segment(done, seg),
{
    if !(seg.len() == 0 || seg == seq!['.']) {
        assert((pre + done).push(seg) =~= pre + done.push(seg));
    }
}

/// The components of `path`.
pub fn path_components(path: &str) -> (r: Vec<Vec<char>>)
    ensures
        r@.map_values(|s: Vec<char>| s@) == components(path@),
{
    let p = to_chars(path);
    let lead = p.len() > 0 && p[0] == '.' && (p.len() == 1 || p[1] == '/');
    let mut done: Vec<Vec<char>> = Vec::new();
    if lead {
        let mut dot: Vec<char> = Vec::new();
        dot.push('.');
        done.push(dot);
        proof {
            assert(dot@ =~= seq!['.']);
        }
    }
    let ghost pre = lead_part(path@);
    proof {
        assert(done@.map_values(|s: Vec<char>| s@) =~= pre + comps_state(p@.take(0)).0);
    }
    let mut cur: Vec<char> = Vec::new();
    let mut i: usize = 0;
    while i < p.len()
        invariant
            i <= p.len(),
            p@ == path@,
            pre == lead_part(path@),
            done@.map_values(|s: Vec<char>| s@) == pre + comps_state(p@.take(i as int)).0,
            cur@ == comps_state(p@.take(i as int)).1,
        decreases p.len() - i,
    {
        let c = p[i];
        proof {
            assert(p@.take(i + 1).drop_last() == p@.take(i as int));
            assert(p@.take(i + 1).last() == c);
        }
        if c == '/' {
            let seg = cur;
            proof {
                lemma_keep_segment_prefix(pre, comps_state(p@.take(i as int)).0, seg@);
            }
            keep_segment_exec(&mut done, seg);
            cur = Vec::new();
        } else {
            cur.push(c);
        }
        i = i + 1;
    }
    proof {
        assert(p@.take(p.len() as int) == p@);
        lemma_keep_segment_prefix(pre, comps_state(p@).0, cur@);
    }
    keep_segment_exec(&mut done, cur);
    done
}

/// `Path::file_name`.
pub fn path_file_name(path: &str) -> (r: Option<Vec<char>>)
    ensures
        match r {
            Some(n) => file_name(path@) == Some(n@),
            None => file_name(path@) is None,
        },
{
    let c = path_components(path);
    proof {
        assert(c@.len() == components(path@).len());
    }
    if c.len() == 0 {
        return None;
    }
    let last = &c[c.len() - 1];
    proof {
        assert(last@ == components(path@).last());
    }
    let dotdot = last.len() == 2 && last[0] == '.' && last[1] == '.';
    proof {
        if last@.len() == 2 && last@[0] == '.' && last@[1] == '.' {
            assert(last@ =~= seq!['.', '.']);
        }
    }
    if is_dot(last) || dotdot {
        None
    } else {
        Some(crate::text::slice_chars(last, 0, last.len()))
    }
}

fn comps_eq(a: &Vec<Vec<char>>, b: &Vec<Vec<char>>) -> (r: bool)
    ensures
        r == (a@.map_values(|s: Vec<char>| s@) == b@.map_values(|s: Vec<char>| s@)),
{
    if a.len() != b.len() {
        proof {
            assert(a@.map_values(|s: Vec<char>| s@).len() != b@.map_values(|s: Vec<char>| s@).len());
        }
        return false;
    }
    let mut i: usize = 0;
    while i < a.len()
        invariant
            i <= a.len(),
            a.len() == b.len(),
            forall|j: int| 0 <= j < i ==> a@[j]@ == b@[j]@,
        decreases a.len() - i,
    {
        if !chars_eq(&a[i], &b[i]) {
            proof {
                assert(a@.map_values(|s: Vec<char>| s@)[i as int] != b@.map_values(|s: Vec<char>| s@)[i as int]);
            }
            return false;
        }
        i = i + 1;
    }
    proof {
        assert(a@.map_values(|s: Vec<char>| s@) =~= b@.map_values(|s: Vec<char>| s@));
    }
    true
}

/// `Path` equality.
pub fn paths_equal(a: &str, b: &str) -> (r: bool)
    ensures
        r == path_eq(a@, b@),
{
    let ac = to_chars(a);
    let bc = to_chars(b);
    let a_abs = ac.len() > 0 && ac[0] == '/';
    let b_abs = bc.len() > 0 && bc[0] == '/';
    if a_abs != b_abs {
        return false;
    }
    let x = path_components(a);
    let y = path_components(b);
    comps_eq(&x, &y)
}

/// `Path::starts_with`.
pub fn path_has_prefix(p: &str, base: &str) -> (r: bool)
    ensures
        r == path_starts_with(p@, base@),
{
    let pc = to_chars(p);
    let bc = to_chars(base);
    let p_abs = pc.len() > 0 && pc[0] == '/';
    let b_abs = bc.len() > 0 && bc[0] == '/';
    if p_abs != b_abs {
        return false;
    }
    let x = path_components(p);
    let y = path_components(base);
    proof {
        assert(x@.map_values(|s: Vec<char>| s@).len() == x@.len());
        assert(y@.map_values(|s: Vec<char>| s@).len() == y@.len());
    }
    if y.len() > x.len() {
        return false;
    }
    let mut i: usize = 0;
    while i < y.len()
        invariant
            i <= y.len() <= x.len(),
            forall|j: int| 0 <= j < i ==> x@[j]@ == y@[j]@,
            x@.map_values(|s: Vec<char>| s@) == components(p@),
            y@.map_values(|s: Vec<char>| s@) == components(base@),
            is_absolute(p@) == is_absolute(base@),
        decreases y.len() - i,
    {
        if !chars_eq(&x[i], &y[i]) {
            proof {
                let xs = x@.map_values(|s: Vec<char>| s@);
                let ys = y@.map_values(|s: Vec<char>| s@);
                assert(xs.take(ys.len() as int)[i as int] == xs[i as int]);
                assert(xs[i as int] == x@[i as int]@);
                assert(ys[i as int] == y@[i as int]@);
                assert(xs.take(ys.len() as int) != ys);
            }
            return false;
        }
        i = i + 1;
    }
    proof {
        let xs = x@.map_values(|s: Vec<char>| s@);
        let ys = y@.map_values(|s: Vec<char>| s@);
        assert(xs.take(ys.len() as int) =~= ys);
    }
    true
}

} // verus!
