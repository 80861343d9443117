//! `/proc` data model and the parsers for its text files.  Reading the
//! files is the caller's business; everything here works on their
//! contents, so every parser is a total function of its input.

use vstd::prelude::*;

use crate::text::{
    all_digits, decimal, decimal_chars, find_char, first_index_of, from_chars, has_prefix,
    is_digit, last_index_of, nth_word, parse_i32, parse_signed_spec, parse_u32, parse_u32_spec,
    parse_u64, parse_u64_spec, rfind_char, slice_chars, split_whitespace, starts_with_chars,
    to_chars, trim, trim_bounds, trim_chars, words,
};

verus! {

/// Indices into the whitespace-separated fields after `pid (comm)`.
pub const STAT_IDX_STATE: usize = 0;
pub const STAT_IDX_PPID: usize = 1;
pub const STAT_IDX_UTIME: usize = 11;
pub const STAT_IDX_STIME: usize = 12;
pub const STAT_IDX_NICE: usize = 16;
pub const STAT_IDX_STARTTIME: usize = 19;

/// Cap on how much of an environment or command-line block is read.
pub const ENVIRON_MAX_BYTES: usize = 262144;

/// One process as seen in `/proc/<pid>/`.
#[derive(Debug, PartialEq)]
pub struct ProcEntry {
    pub pid: u32,
    pub ppid: u32,
    /// `comm` from the stat line; may contain spaces and parentheses.
    pub name: String,
    pub state: char,
    /// CPU ticks spent in user and kernel mode since process start.
    pub utime: u64,
    pub stime: u64,
    pub nice: i32,
    pub rss_kb: u64,
    pub uid: u32,
    pub start_secs: u64,
    pub exe: Option<String>,
    /// NUL-separated `KEY=value` environment block, when readable.
    pub environ: Option<Vec<u8>>,
    /// Raw NUL-separated argv, when readable.
    pub cmdline: Option<Vec<u8>>,
    /// Holds an fd pointing into `/dev/dri`.
    pub has_dri_fd: bool,
    /// The unified (v2) line of `/proc/<pid>/cgroup`, when readable.
    pub cgroup: Option<String>,
}

/// The fields `parse_stat` extracts: comm, state, ppid, utime, stime, nice,
/// starttime.
pub type StatFields = (String, char, u32, u64, u64, i32, u64);

/// The `n`-th field after the closing parenthesis of `line`.
pub open spec fn stat_field(line: Seq<char>, n: int) -> Seq<char> {
    words(line.skip(last_index_of(line, ')').unwrap() + 1))[n]
}

/// A `/proc/<pid>/stat` line parses when it has a `(`, a later last `)`,
/// at least 20 fields after it, a non-empty state field and numeric
/// ppid/utime/stime/nice/starttime fields.  `comm` is everything between the
/// FIRST `(` and the LAST `)`, as it stands.
pub open spec fn stat_parses(line: Seq<char>) -> bool {
    &&& first_index_of(line, '(') is Some
    &&& last_index_of(line, ')') is Some
    &&& first_index_of(line, '(').unwrap() < last_index_of(line, ')').unwrap()
    &&& words(line.skip(last_index_of(line, ')').unwrap() + 1)).len() > STAT_IDX_STARTTIME
    &&& stat_field(line, STAT_IDX_STATE as int).len() > 0
    &&& parse_u32_spec(stat_field(line, STAT_IDX_PPID as int)) is Some
    &&& parse_u64_spec(stat_field(line, STAT_IDX_UTIME as int)) is Some
    &&& parse_u64_spec(stat_field(line, STAT_IDX_STIME as int)) is Some
    &&& parse_signed_spec(stat_field(line, STAT_IDX_NICE as int), i32::MIN as int, i32::MAX as int) is Some
    &&& parse_u64_spec(stat_field(line, STAT_IDX_STARTTIME as int)) is Some
}

/// What a parsed stat line yields.
pub open spec fn stat_result(line: Seq<char>, f: StatFields) -> bool {
    let open = first_index_of(line, '(').unwrap();
    let close = last_index_of(line, ')').unwrap();
    &&& f.0@ == line.subrange(open + 1, close)
    &&& f.1 == stat_field(line, STAT_IDX_STATE as int)[0]
    &&& Some(f.2) == parse_u32_spec(stat_field(line, STAT_IDX_PPID as int))
    &&& Some(f.3) == parse_u64_spec(stat_field(line, STAT_IDX_UTIME as int))
    &&& Some(f.4) == parse_u64_spec(stat_field(line, STAT_IDX_STIME as int))
    &&& Some(f.5 as int) == parse_signed_spec(
        stat_field(line, STAT_IDX_NICE as int),
        i32::MIN as int,
        i32::MAX as int,
    )
    &&& Some(f.6) == parse_u64_spec(stat_field(line, STAT_IDX_STARTTIME as int))
}

/// Parse a `/proc/<pid>/stat` line.
pub fn parse_stat(line: &str) -> (r: Option<StatFields>)
    ensures
        r is Some <==> stat_parses(line@),
        r matches Some(f) ==> stat_result(line@, f),
{
    let v = to_chars(line);
    let open = match find_char(&v, '(') {
        Some(i) => i,
        None => return None,
    };
    let close = match rfind_char(&v, ')') {
        Some(i) => i,
        None => return None,
    };
    if close <= open {
        return None;
    }
    let comm = slice_chars(&v, open + 1, close);
    let rest = slice_chars(&v, close + 1, v.len());
    proof {
        assert(rest@ == line@.skip(close + 1));
    }
    let fields = split_whitespace(&rest);
    if fields.len() <= STAT_IDX_STARTTIME {
        return None;
    }
    if fields[STAT_IDX_STATE].len() == 0 {
        return None;
    }
    let state = fields[STAT_IDX_STATE][0];
    let ppid = match parse_u32(&fields[STAT_IDX_PPID]) {
        Some(x) => x,
        None => return None,
    };
    let utime = match parse_u64(&fields[STAT_IDX_UTIME]) {
        Some(x) => x,
        None => return None,
    };
    let stime = match parse_u64(&fields[STAT_IDX_STIME]) {
        Some(x) => x,
        None => return None,
    };
    let nice = match parse_i32(&fields[STAT_IDX_NICE]) {
        Some(x) => x,
        None => return None,
    };
    let starttime = match parse_u64(&fields[STAT_IDX_STARTTIME]) {
        Some(x) => x,
        None => return None,
    };
    Some((from_chars(&comm), state, ppid, utime, stime, nice, starttime))
}

/// The comm of a stat line the way the sweep path reads it: between the
/// first `(` and the first `)` after it (untrimmed).
pub open spec fn comm_spec(stat: Seq<char>) -> Option<Seq<char>> {
    match first_index_of(stat, '(') {
        Some(open) => match first_index_of(stat.skip(open), ')') {
            Some(close) => Some(stat.subrange(open + 1, open + close)),
            None => None,
        },
        None => None,
    }
}

/// `comm` of a live pid's stat text.
pub fn comm_from_stat(stat: &str) -> (r: Option<String>)
    ensures
        match r {
            Some(c) => comm_spec(stat@) == Some(c@),
            None => comm_spec(stat@) is None,
        },
{
    let v = to_chars(stat);
    let open = match find_char(&v, '(') {
        Some(i) => i,
        None => return None,
    };
    let tail = slice_chars(&v, open, v.len());
    proof {
        assert(tail@ == stat@.skip(open as int));
    }
    let close = match find_char(&tail, ')') {
        Some(i) => i,
        None => return None,
    };
    proof {
        assert(tail@[0] == '(');
    }
    let c = slice_chars(&v, open + 1, open + close);
    Some(from_chars(&c))
}

/// Value of the first `prefix` line's remainder, or 0.
pub open spec fn btime_spec(lines: Seq<Seq<char>>) -> u64
    decreases lines.len(),
{
    if lines.len() == 0 {
        0
    } else if has_prefix(lines[0], "btime "@) && parse_u64_spec(trim(lines[0].skip(6))) is Some {
        parse_u64_spec(trim(lines[0].skip(6))).unwrap()
    } else {
        btime_spec(lines.drop_first())
    }
}

/// `str::lines`: split on `\n`, drop one `\r` before each `\n`, no final
/// empty line.
pub open spec fn lines_state(s: Seq<char>) -> (Seq<Seq<char>>, Seq<char>)
    decreases s.len(),
{
    if s.len() == 0 {
        (seq![], seq![])
    } else {
        let (done, cur) = lines_state(s.drop_last());
        if s.last() == '\n' {
            (done.push(strip_cr(cur)), seq![])
        } else {
            (done, cur.push(s.last()))
        }
    }
}

pub open spec fn strip_cr(l: Seq<char>) -> Seq<char> {
    if l.len() > 0 && l.last() == '\r' {
        l.drop_last()
    } else {
        l
    }
}

pub open spec fn lines(s: Seq<char>) -> Seq<Seq<char>> {
    let (done, cur) = lines_state(s);
    if cur.len() > 0 {
        done.push(strip_cr(cur))
    } else {
        done
    }
}

/// `str::lines` on a character vector.
pub fn split_lines(s: &Vec<char>) -> (r: Vec<Vec<char>>)
    ensures
        r@.len() == lines(s@).len(),
        forall|i: int| 0 <= i < r@.len() ==> #[trigger] r@[i]@ == lines(s@)[i],
{
    let mut done: Vec<Vec<char>> = Vec::new();
    let mut cur: Vec<char> = Vec::new();
    let mut i: usize = 0;
    while i < s.len()
        invariant
            i <= s.len(),
            done@.len() == lines_state(s@.take(i as int)).0.len(),
            forall|k: int| 0 <= k < done@.len() ==> #[trigger] done@[k]@ == lines_state(s@.take(i as int)).0[k],
            cur@ == lines_state(s@.take(i as int)).1,
        decreases s.len() - i,
    {
        let c = s[i];
        proof {
            assert(s@.take(i + 1).drop_last() == s@.take(i as int));
            assert(s@.take(i + 1).last() == c);
        }
        if c == '\n' {
            let line = strip_cr_chars(&cur);
            done.push(line);
            cur = Vec::new();
        } else {
            cur.push(c);
        }
        i = i + 1;
    }
    proof {
        assert(s@.take(s.len() as int) == s@);
    }
    if cur.len() > 0 {
        let line = strip_cr_chars(&cur);
        done.push(line);
    }
    done
}

fn strip_cr_chars(l: &Vec<char>) -> (r: Vec<char>)
    ensures
        r@ == strip_cr(l@),
{
    if l.len() > 0 && l[l.len() - 1] == '\r' {
        slice_chars(l, 0, l.len() - 1)
    } else {
        slice_chars(l, 0, l.len())
    }
}

/// Boot time from the text of `/proc/stat`: the value of the first
/// `btime N` line that parses, else 0.
pub fn parse_btime(text: &str) -> (r: u64)
    ensures
        r == btime_spec(lines(text@)),
{
    let v = to_chars(text);
    let ls = split_lines(&v);
    let prefix = to_chars("btime ");
    let mut i: usize = 0;
    proof {
        assert(lines(text@).skip(0) == lines(text@));
    }
    while i < ls.len()
        invariant
            i <= ls@.len(),
            ls@.len() == lines(text@).len(),
            forall|k: int| 0 <= k < ls@.len() ==> #[trigger] ls@[k]@ == lines(text@)[k],
            prefix@ == "btime "@,
            btime_spec(lines(text@)) == btime_spec(lines(text@).skip(i as int)),
        decreases ls.len() - i,
    {
        let ghost rest = lines(text@).skip(i as int);
        proof {
            assert(rest[0] == ls@[i as int]@);
            assert(rest.drop_first() == lines(text@).skip(i + 1));
        }
        if starts_with_chars(&ls[i], &prefix) {
            proof {
                reveal_strlit("btime ");
            }
            let tail = slice_chars(&ls[i], 6, ls[i].len());
            let t = trim_chars(&tail);
            proof {
                assert(tail@ == ls@[i as int]@.skip(6));
            }
            match parse_u64(&t) {
                Some(x) => return x,
                None => {},
            }
        }
        i = i + 1;
    }
    proof {
        assert(lines(text@).skip(ls.len() as int).len() == 0);
    }
    0
}

/// The unified (v2) line of `/proc/<pid>/cgroup`: the first line that,
/// trimmed, starts with `0::`.
pub open spec fn cgroup_line_spec(ls: Seq<Seq<char>>) -> Option<Seq<char>>
    decreases ls.len(),
{
    if ls.len() == 0 {
        None
    } else if has_prefix(trim(ls[0]), "0::"@) {
        Some(trim(ls[0]))
    } else {
        cgroup_line_spec(ls.drop_first())
    }
}

pub fn unified_cgroup_line(text: &str) -> (r: Option<String>)
    ensures
        match r {
            Some(l) => cgroup_line_spec(lines(text@)) == Some(l@),
            None => cgroup_line_spec(lines(text@)) is None,
        },
{
    let v = to_chars(text);
    let ls = split_lines(&v);
    let prefix = to_chars("0::");
    let mut i: usize = 0;
    proof {
        assert(lines(text@).skip(0) == lines(text@));
    }
    while i < ls.len()
        invariant
            i <= ls@.len(),
            ls@.len() == lines(text@).len(),
            forall|k: int| 0 <= k < ls@.len() ==> #[trigger] ls@[k]@ == lines(text@)[k],
            prefix@ == "0::"@,
            cgroup_line_spec(lines(text@)) == cgroup_line_spec(lines(text@).skip(i as int)),
        decreases ls.len() - i,
    {
        let ghost rest = lines(text@).skip(i as int);
        proof {
            assert(rest[0] == ls@[i as int]@);
            assert(rest.drop_first() == lines(text@).skip(i + 1));
        }
        let t = trim_chars(&ls[i]);
        if starts_with_chars(&t, &prefix) {
            return Some(from_chars(&t));
        }
        i = i + 1;
    }
    proof {
        assert(lines(text@).skip(ls.len() as int).len() == 0);
    }
    None
}

/// The first number after `Uid:` on the first `Uid:` line that has a
/// word after it; `u32::MAX` when there is none or it does not parse.
pub open spec fn status_uid_spec(ls: Seq<Seq<char>>) -> u32
    decreases ls.len(),
{
    if ls.len() == 0 {
        u32::MAX
    } else if has_prefix(ls[0], "Uid:"@) && words(ls[0].skip(4)).len() > 0 {
        match parse_u32_spec(words(ls[0].skip(4))[0]) {
            Some(u) => u,
            None => u32::MAX,
        }
    } else {
        status_uid_spec(ls.drop_first())
    }
}

/// Real uid from the text of `/proc/<pid>/status`.
pub fn parse_status_uid(text: &str) -> (r: u32)
    ensures
        r == status_uid_spec(lines(text@)),
{
    let v = to_chars(text);
    let ls = split_lines(&v);
    let prefix = to_chars("Uid:");
    let mut i: usize = 0;
    proof {
        assert(lines(text@).skip(0) == lines(text@));
    }
    while i < ls.len()
        invariant
            i <= ls@.len(),
            ls@.len() == lines(text@).len(),
            forall|k: int| 0 <= k < ls@.len() ==> #[trigger] ls@[k]@ == lines(text@)[k],
            prefix@ == "Uid:"@,
            status_uid_spec(lines(text@)) == status_uid_spec(lines(text@).skip(i as int)),
        decreases ls.len() - i,
    {
        let ghost rest = lines(text@).skip(i as int);
        proof {
            assert(rest[0] == ls@[i as int]@);
            assert(rest.drop_first() == lines(text@).skip(i + 1));
        }
        if starts_with_chars(&ls[i], &prefix) {
            proof {
                reveal_strlit("Uid:");
            }
            let tail = slice_chars(&ls[i], 4, ls[i].len());
            proof {
                assert(tail@ == ls@[i as int]@.skip(4));
            }
            match nth_word(&tail, 0) {
                Some(w) => {
                    return match parse_u32(&w) {
                        Some(u) => u,
                        None => u32::MAX,
                    };
                },
                None => {},
            }
        }
        i = i + 1;
    }
    proof {
        assert(lines(text@).skip(ls.len() as int).len() == 0);
    }
    u32::MAX
}

/// Resident set size in KiB from the text of `/proc/<pid>/statm` (second
/// field, in pages) and the page size in KiB; saturating.
pub fn rss_kb_from_statm(text: &str, page_kb: u64) -> (r: u64)
    ensures
        ({
            let pages: u64 = if words(text@).len() > 1 && parse_u64_spec(words(text@)[1]) is Some {
                parse_u64_spec(words(text@)[1]).unwrap()
            } else {
                0
            };
            r == if pages * page_kb > u64::MAX { u64::MAX } else { (pages * page_kb) as u64 }
        }),
{
    let v = to_chars(text);
    let pages: u64 = match nth_word(&v, 1) {
        Some(w) => match parse_u64(&w) {
            Some(p) => p,
            None => 0,
        },
        None => 0,
    };
    pages.checked_mul(page_kb).unwrap_or(u64::MAX)
}

/// First number of a `/proc/meminfo` value (`"  16318216 kB"`), else 0.
pub open spec fn meminfo_kb_spec(rest: Seq<char>) -> u64 {
    if words(rest).len() > 0 && parse_u64_spec(words(rest)[0]) is Some {
        parse_u64_spec(words(rest)[0]).unwrap()
    } else {
        0
    }
}

pub fn parse_meminfo_kb(rest: &Vec<char>) -> (r: u64)
    ensures
        r == meminfo_kb_spec(rest@),
{
    match nth_word(rest, 0) {
        Some(w) => match parse_u64(&w) {
            Some(x) => x,
            None => 0,
        },
        None => 0,
    }
}

/// `(MemTotal, MemAvailable)` as they stand after reading lines `ls` in
/// order: a later line overrides an earlier one.
pub open spec fn meminfo_state(ls: Seq<Seq<char>>) -> (u64, u64)
    decreases ls.len(),
{
    if ls.len() == 0 {
        (0, 0)
    } else {
        let (t, a) = meminfo_state(ls.drop_last());
        let l = ls.last();
        if has_prefix(l, "MemTotal:"@) {
            (meminfo_kb_spec(l.skip(9)), a)
        } else if has_prefix(l, "MemAvailable:"@) {
            (t, meminfo_kb_spec(l.skip(13)))
        } else {
            (t, a)
        }
    }
}

/// (total, used) physical memory in KiB from the text of `/proc/meminfo`:
/// used = total - min(available, total); (0, 0) when the total is 0.
pub fn parse_system_mem(text: &str) -> (r: (u64, u64))
    ensures
        ({
            let (t, a) = meminfo_state(lines(text@));
            r == if t == 0 { (0u64, 0u64) } else { (t, (t - if a < t { a } else { t }) as u64) }
        }),
{
    let v = to_chars(text);
    let ls = split_lines(&v);
    let p_total = to_chars("MemTotal:");
    let p_avail = to_chars("MemAvailable:");
    let mut total: u64 = 0;
    let mut available: u64 = 0;
    let mut i: usize = 0;
    proof {
        assert(lines(text@).skip(0) == lines(text@));
    }
    while i < ls.len()
        invariant
            i <= ls@.len(),
            ls@.len() == lines(text@).len(),
            forall|k: int| 0 <= k < ls@.len() ==> #[trigger] ls@[k]@ == lines(text@)[k],
            p_total@ == "MemTotal:"@,
            p_avail@ == "MemAvailable:"@,
            (total, available) == meminfo_state(lines(text@).take(i as int)),
        decreases ls.len() - i,
    {
        proof {
            assert(lines(text@).take(i + 1).drop_last() == lines(text@).take(i as int));
            assert(lines(text@).take(i + 1).last() == ls@[i as int]@);
            reveal_strlit("MemTotal:");
            reveal_strlit("MemAvailable:");
        }
        if starts_with_chars(&ls[i], &p_total) {
            let tail = slice_chars(&ls[i], 9, ls[i].len());
            proof {
                assert(tail@ == ls@[i as int]@.skip(9));
            }
            total = parse_meminfo_kb(&tail);
        } else if starts_with_chars(&ls[i], &p_avail) {
            let tail = slice_chars(&ls[i], 13, ls[i].len());
            proof {
                assert(tail@ == ls@[i as int]@.skip(13));
            }
            available = parse_meminfo_kb(&tail);
        }
        i = i + 1;
    }
    proof {
        assert(lines(text@).take(ls.len() as int) == lines(text@));
    }
    if total == 0 {
        return (0, 0);
    }
    let a = if available < total { available } else { total };
    (total, total - a)
}

/// A `/proc` directory name that names a process: all ASCII digits and a
/// valid `u32`.
pub fn pid_of_dir_name(name: &str) -> (r: Option<u32>)
    ensures
        r == (if all_digits(name@) { parse_u32_spec(name@) } else { None }),
{
    let v = to_chars(name);
    let mut i: usize = 0;
    while i < v.len()
        invariant
            i <= v.len(),
            v@ == name@,
            forall|j: int| 0 <= j < i ==> is_digit(#[trigger] v@[j]),
        decreases v.len() - i,
    {
        if !('0' <= v[i] && v[i] <= '9') {
            proof {
                assert(!is_digit(name@[i as int]));
            }
            return None;
        }
        i = i + 1;
    }
    parse_u32(&v)
}

/// Wall-clock start time: boot time plus the start tick converted to
/// seconds (saturating).
pub fn start_secs(btime: u64, starttime: u64, ticks: u64) -> (r: u64)
    requires
        ticks > 0,
    ensures
        r == if btime + starttime / ticks > u64::MAX { u64::MAX } else { (btime + starttime / ticks) as u64 },
{
    btime.saturating_add(starttime / ticks)
}

/// `(busy, total)` ticks from the aggregate `cpu ` line of `/proc/stat`:
/// total = sum of the numeric fields, idle = fields 3 and 4.
pub open spec fn nums_of(ws: Seq<Seq<char>>) -> Seq<u64>
    decreases ws.len(),
{
    if ws.len() == 0 {
        seq![]
    } else {
        let rest = nums_of(ws.drop_last());
        match parse_u64_spec(ws.last()) {
            Some(n) => rest.push(n),
            None => rest,
        }
    }
}

pub open spec fn sum_nat(s: Seq<u64>) -> nat
    decreases s.len(),
{
    if s.len() == 0 {
        0
    } else {
        sum_nat(s.drop_last()) + (s.last() as nat)
    }
}

/// The first line that starts with `cpu `.
pub open spec fn cpu_line_spec(ls: Seq<Seq<char>>) -> Option<Seq<char>>
    decreases ls.len(),
{
    if ls.len() == 0 {
        None
    } else if has_prefix(ls[0], "cpu "@) {
        Some(ls[0])
    } else {
        cpu_line_spec(ls.drop_first())
    }
}

/// Aggregate CPU ticks as (busy, total); (0, 0) when the line is missing
/// or has fewer than four numbers.  Additions wrap-free: a total above
/// `u64::MAX` is reported as `None`.
pub open spec fn cpu_busy_spec(text: Seq<char>) -> Option<(u64, u64)> {
    match cpu_line_spec(lines(text)) {
        None => Some((0, 0)),
        Some(l) => if words(l).len() == 0 {
            Some((0, 0))
        } else {
            let nums = nums_of(words(l).drop_first());
            if nums.len() < 4 {
                Some((0, 0))
            } else {
                let idle: int = nums[3] + if nums.len() > 4 { nums[4] as int } else { 0int };
                let total = sum_nat(nums);
                if total > u64::MAX || idle > u64::MAX {
                    None
                } else {
                    Some(((if total >= idle { total - idle } else { 0 }) as u64, total as u64))
                }
            }
        },
    }
}

fn cpu_line(text: &str) -> (r: Option<Vec<char>>)
    ensures
        match r {
            Some(l) => cpu_line_spec(lines(text@)) == Some(l@),
            None => cpu_line_spec(lines(text@)) is None,
        },
{
    let v = to_chars(text);
    let ls = split_lines(&v);
    let prefix = to_chars("cpu ");
    let ghost all = lines(text@);
    let mut i: usize = 0;
    proof {
        assert(all.skip(0) =~= all);
    }
    while i < ls.len()
        invariant
            i <= ls@.len(),
            ls@.len() == all.len(),
            all == lines(text@),
            prefix@ == "cpu "@,
            forall|j: int| 0 <= j < ls@.len() ==> #[trigger] ls@[j]@ == all[j],
            cpu_line_spec(all) == cpu_line_spec(all.skip(i as int)),
        decreases ls.len() - i,
    {
        let ghost rest = all.skip(i as int);
        assert(rest[0] == ls@[i as int]@);
        assert(rest.drop_first() =~= all.skip(i + 1));
        if starts_with_chars(&ls[i], &prefix) {
            let l = slice_chars(&ls[i], 0, ls[i].len());
            proof {
                assert(l@ =~= rest[0]);
            }
            return Some(l);
        }
        i = i + 1;
    }
    None
}

/// Aggregate CPU ticks (busy, total) from the text of `/proc/stat`.
pub fn parse_cpu_busy(text: &str) -> (r: Option<(u64, u64)>)
    ensures
        r == cpu_busy_spec(text@),
{
    let line = match cpu_line(text) {
        Some(l) => l,
        None => return Some((0, 0)),
    };
    let ws = split_whitespace(&line);
    let ghost wsv = words(line@);
    if ws.len() == 0 {
        return Some((0, 0));
    }
    let ghost rest = wsv.drop_first();
    let mut nums: Vec<u64> = Vec::new();
    let mut k: usize = 1;
    proof {
        assert(rest.take(0) =~= seq![]);
    }
    while k < ws.len()
        invariant
            1 <= k <= ws@.len(),
            ws@.len() == wsv.len(),
            rest == wsv.drop_first(),
            forall|j: int| 0 <= j < ws@.len() ==> #[trigger] ws@[j]@ == wsv[j],
            nums@ == nums_of(rest.take(k - 1)),
        decreases ws.len() - k,
    {
        proof {
            assert(rest.take(k as int).drop_last() =~= rest.take(k - 1));
            assert(rest.take(k as int).last() == ws@[k as int]@);
        }
        match parse_u64(&ws[k]) {
            Some(n) => nums.push(n),
            None => {},
        }
        k = k + 1;
    }
    proof {
        assert(rest.take(ws@.len() - 1) =~= rest);
    }
    if nums.len() < 4 {
        return Some((0, 0));
    }
    let mut total: u64 = 0;
    let mut j: usize = 0;
    proof {
        assert(nums@.take(0) =~= seq![]);
    }
    while j < nums.len()
        invariant
            j <= nums@.len(),
            nums@.len() >= 4,
            cpu_line_spec(lines(text@)) == Some(line@),
            words(line@).len() > 0,
            nums@ == nums_of(words(line@).drop_first()),
            total as nat == sum_nat(nums@.take(j as int)),
        decreases nums.len() - j,
    {
        proof {
            assert(nums@.take(j + 1).drop_last() =~= nums@.take(j as int));
        }
        match total.checked_add(nums[j]) {
            Some(t) => total = t,
            None => {
                proof {
                    lemma_sum_nat_prefix(nums@, j + 1);
                }
                return None;
            },
        }
        j = j + 1;
    }
    proof {
        assert(nums@.take(nums@.len() as int) =~= nums@);
    }
    let extra: u64 = if nums.len() > 4 {
        nums[4]
    } else {
        0
    };
    let idle = match nums[3].checked_add(extra) {
        Some(x) => x,
        None => return None,
    };
    let busy = if total >= idle {
        total - idle
    } else {
        0
    };
    Some((busy, total))
}

proof fn lemma_sum_nat_prefix(s: Seq<u64>, i: int)
    requires
        0 <= i <= s.len(),
    ensures
        sum_nat(s.take(i)) <= sum_nat(s),
    decreases s.len() - i,
{
    if i < s.len() {
        lemma_sum_nat_prefix(s, i + 1);
        assert(s.take(i + 1).drop_last() =~= s.take(i));
    } else {
        assert(s.take(i) =~= s);
    }
}

/// A user name for a uid: the passwd name when the lookup found one, else
/// the number itself.
pub fn uid_to_user(uid: u32, passwd_name: Option<String>) -> (r: String)
    ensures
        r@ == (match passwd_name {
            Some(n) => n@,
            None => decimal(uid as nat),
        }),
{
    match passwd_name {
        Some(n) => n,
        None => from_chars(&decimal_chars(uid as u64)),
    }
}

/// The entries are in ascending pid order.
pub open spec fn pid_sorted(s: Seq<ProcEntry>) -> bool {
    forall|i: int, j: int| 0 <= i < j < s.len() ==> #[trigger] s[i].pid <= #[trigger] s[j].pid
}

/// The scanned entries ordered by pid: the same entries, ascending pids.
pub fn sort_by_pid(entries: Vec<ProcEntry>) -> (r: Vec<ProcEntry>)
    ensures
        pid_sorted(r@),
        r@.to_multiset() == entries@.to_multiset(),
{
    broadcast use vstd::seq_lib::group_to_multiset_ensures, vstd::multiset::group_multiset_axioms;

    let ghost all = entries@.to_multiset();
    let mut rest = entries;
    let mut out: Vec<ProcEntry> = Vec::new();
    proof {
        assert(out@.to_multiset() =~= vstd::multiset::Multiset::empty());
        assert(out@.to_multiset().add(rest@.to_multiset()) =~= all);
    }
    while rest.len() > 0
        invariant
            pid_sorted(out@),
            out@.to_multiset().add(rest@.to_multiset()) == all,
        decreases rest.len(),
    {
        let ghost r0 = rest@;
        let e = rest.pop().unwrap();
        proof {
            assert(r0 =~= rest@.push(e));
            vstd::seq_lib::to_multiset_build(rest@, e);
        }
        let mut pos: usize = 0;
        while pos < out.len() && out[pos].pid < e.pid
            invariant
                pos <= out@.len(),
                forall|k: int| 0 <= k < pos ==> #[trigger] out@[k].pid < e.pid,
            decreases out.len() - pos,
        {
            pos = pos + 1;
        }
        let ghost o0 = out@;
        let ghost ep = e.pid;
        out.insert(pos, e);
        proof {
            vstd::seq_lib::to_multiset_insert(o0, pos as int, e);
            assert(out@ == o0.insert(pos as int, e));
            assert forall|i: int, j: int| 0 <= i < j < out@.len() implies #[trigger] out@[i].pid
                <= #[trigger] out@[j].pid by {
                if j < pos {
                    assert(out@[i] == o0[i] && out@[j] == o0[j]);
                } else if j == pos {
                    assert(out@[i] == o0[i]);
                } else if i == pos {
                    assert(out@[j] == o0[j - 1]);
                    if pos < o0.len() {
                        assert(o0[pos as int].pid >= ep);
                        if j - 1 > pos {
                            assert(o0[pos as int].pid <= o0[j - 1].pid);
                        }
                    }
                } else if i < pos {
                    assert(out@[i] == o0[i] && out@[j] == o0[j - 1]);
                } else {
                    assert(out@[i] == o0[i - 1] && out@[j] == o0[j - 1]);
                }
            }
            assert(out@.to_multiset().add(rest@.to_multiset()) =~= all);
        }
    }
    proof {
        assert(rest@.to_multiset() =~= vstd::multiset::Multiset::empty());
        assert(out@.to_multiset() =~= out@.to_multiset().add(rest@.to_multiset()));
    }
    out
}

} // verus!
