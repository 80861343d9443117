//! Application metadata: map a process `exe` path to a display name and an
//! icon, through the freedesktop `.desktop` entries.  Scanning the entry
//! directories, caching, and finding and reading icon files is the
//! caller's part.

use base64::Engine;
use vstd::prelude::*;

use crate::common::opt_chars;
use crate::paths::{file_name, path_file_name};
use crate::proc_scan::{lines, split_lines};
use crate::text::{
    cat, chars_eq, extend_chars, find_char, from_chars, has_prefix, has_suffix, is_ws,
    split_whitespace, starts_with_chars, ends_with_chars, to_chars, trim, trim_chars, words,
};

verus! {

/// Display name and icon of an application.
#[derive(Debug)]
pub struct AppMeta {
    /// Human-friendly application name: the desktop entry's, or the
    /// prettified executable basename when no entry matches.
    pub name: String,
    /// Icon of the matching entry (its `Icon=` value; the caller turns it
    /// into a `data:` URL).
    pub icon: Option<String>,
}

/// The fields of a `.desktop` entry that matter here.
#[derive(Debug)]
pub struct DesktopEntry {
    pub name: String,
    pub exec_line: String,
    pub try_exec: Option<String>,
    pub icon: Option<String>,
}

// ---------------------------------------------------------------------------
// `.desktop` files.
// ---------------------------------------------------------------------------

/// Name, Exec, TryExec, Icon and NoDisplay after reading the lines in
/// order (a later key overrides an earlier one).
pub open spec fn desktop_fields(ls: Seq<Seq<char>>) -> (
    Option<Seq<char>>,
    Option<Seq<char>>,
    Option<Seq<char>>,
    Option<Seq<char>>,
    bool,
)
    decreases ls.len(),
{
    if ls.len() == 0 {
        (None, None, None, None, false)
    } else {
        let (n, e, t, i, nd) = desktop_fields(ls.drop_last());
        let l = trim(ls.last());
        if l.len() == 0 || l[0] == '#' || l[0] == '[' {
            (n, e, t, i, nd)
        } else if has_prefix(l, "Name="@) {
            (Some(trim(l.skip(5))), e, t, i, nd)
        } else if has_prefix(l, "Exec="@) {
            (n, Some(trim(l.skip(5))), t, i, nd)
        } else if has_prefix(l, "TryExec="@) {
            (n, e, Some(trim(l.skip(8))), i, nd)
        } else if has_prefix(l, "Icon="@) {
            (n, e, t, Some(trim(l.skip(5))), nd)
        } else if has_prefix(l, "NoDisplay="@) {
            (n, e, t, i, l.skip(10) == "true"@)
        } else {
            (n, e, t, i, nd)
        }
    }
}

pub open spec fn opt_vec(o: Option<Vec<char>>) -> Option<Seq<char>> {
    match o {
        Some(v) => Some(v@),
        None => None,
    }
}

fn opt_string(o: Option<Vec<char>>) -> (r: Option<String>)
    ensures
        opt_chars(r) == opt_vec(o),
{
    match o {
        Some(v) => Some(from_chars(&v)),
        None => None,
    }
}

fn value_after(l: &Vec<char>, n: usize) -> (r: Vec<char>)
    requires
        n <= l@.len(),
    ensures
        r@ == trim(l@.skip(n as int)),
{
    let rest = crate::text::slice_chars(l, n, l.len());
    proof {
        assert(rest@ =~= l@.skip(n as int));
    }
    trim_chars(&rest)
}

/// A `.desktop` file's entry: None without `Name=` or `Exec=`, or when it
/// says `NoDisplay=true`.
pub fn parse_desktop(text: &str) -> (r: Option<DesktopEntry>)
    ensures
        ({
            let (n, e, t, i, nd) = desktop_fields(lines(text@));
            match r {
                Some(d) => n == Some(d.name@) && e == Some(d.exec_line@) && !nd && t == opt_chars(d.try_exec)
                    && i == opt_chars(d.icon),
                None => n is None || e is None || nd,
            }
        }),
{
    let v = to_chars(text);
    let ls = split_lines(&v);
    let ghost all = lines(text@);
    let mut name: Option<Vec<char>> = None;
    let mut exec: Option<Vec<char>> = None;
    let mut try_exec: Option<Vec<char>> = None;
    let mut icon: Option<Vec<char>> = None;
    let mut no_display = false;
    let k_name = to_chars("Name=");
    let k_exec = to_chars("Exec=");
    let k_try = to_chars("TryExec=");
    let k_icon = to_chars("Icon=");
    let k_nd = to_chars("NoDisplay=");
    let k_true = to_chars("true");
    proof {
        reveal_strlit("Name=");
        reveal_strlit("Exec=");
        reveal_strlit("TryExec=");
        reveal_strlit("Icon=");
        reveal_strlit("NoDisplay=");
        assert(all.take(0) =~= seq![]);
    }
    let mut i: usize = 0;
    while i < ls.len()
        invariant
            i <= ls@.len(),
            ls@.len() == all.len(),
            all == lines(text@),
            forall|j: int| 0 <= j < ls@.len() ==> #[trigger] ls@[j]@ == all[j],
            k_name@ == "Name="@,
            k_exec@ == "Exec="@,
            k_try@ == "TryExec="@,
            k_icon@ == "Icon="@,
            k_nd@ == "NoDisplay="@,
            k_true@ == "true"@,
            "Name="@.len() == 5,
            "Exec="@.len() == 5,
            "TryExec="@.len() == 8,
            "Icon="@.len() == 5,
            "NoDisplay="@.len() == 10,
            desktop_fields(all.take(i as int)) == (
                opt_vec(name),
                opt_vec(exec),
                opt_vec(try_exec),
                opt_vec(icon),
                no_display,
            ),
        decreases ls.len() - i,
    {
        proof {
            assert(all.take(i + 1).drop_last() =~= all.take(i as int));
            assert(all.take(i + 1).last() == ls@[i as int]@);
        }
        let l = trim_chars(&ls[i]);
        if l.len() == 0 || l[0] == '#' || l[0] == '[' {
        } else if starts_with_chars(&l, &k_name) {
            name = Some(value_after(&l, 5));
        } else if starts_with_chars(&l, &k_exec) {
            exec = Some(value_after(&l, 5));
        } else if starts_with_chars(&l, &k_try) {
            try_exec = Some(value_after(&l, 8));
        } else if starts_with_chars(&l, &k_icon) {
            icon = Some(value_after(&l, 5));
        } else if starts_with_chars(&l, &k_nd) {
            let rest = crate::text::slice_chars(&l, 10, l.len());
            no_display = chars_eq(&rest, &k_true);
            proof {
                assert(rest@ =~= l@.skip(10));
            }
        }
        i = i + 1;
    }
    proof {
        assert(all.take(ls@.len() as int) =~= all);
    }
    match (name, exec) {
        (Some(n), Some(e)) => {
            if no_display {
                None
            } else {
                Some(
                    DesktopEntry {
                        name: from_chars(&n),
                        exec_line: from_chars(&e),
                        try_exec: opt_string(try_exec),
                        icon: opt_string(icon),
                    },
                )
            }
        },
        _ => None,
    }
}

// ---------------------------------------------------------------------------
// Exec lines.
// ---------------------------------------------------------------------------

/// The first token from `k` on without `=` (past `env`'s assignments).
pub open spec fn first_plain(toks: Seq<Seq<char>>, k: int) -> Option<Seq<char>>
    decreases toks.len() - k,
{
    if k < 0 || k >= toks.len() {
        None
    } else if !toks[k].contains('=') {
        Some(toks[k])
    } else {
        first_plain(toks, k + 1)
    }
}

/// The program of an `Exec=` line: its first token, past an `env VAR=x`
/// prefix, reduced to its file name when it is a path.
pub open spec fn exec_program_spec(exec: Seq<char>) -> Option<Seq<char>> {
    let toks = words(exec);
    if toks.len() == 0 {
        None
    } else {
        let tok = if toks[0] == "env"@ {
            match first_plain(toks, 1) {
                Some(t) => t,
                None => toks[0],
            }
        } else {
            toks[0]
        };
        if tok.len() > 0 && tok[0] == '/' {
            file_name(tok)
        } else {
            Some(tok)
        }
    }
}

pub fn exec_program(exec: &str) -> (r: Option<String>)
    ensures
        opt_chars(r) == exec_program_spec(exec@),
{
    let v = to_chars(exec);
    let toks = split_whitespace(&v);
    if toks.len() == 0 {
        return None;
    }
    let ghost ws = words(exec@);
    let mut tok = crate::text::slice_chars(&toks[0], 0, toks[0].len());
    proof {
        assert(tok@ =~= ws[0]);
    }
    if chars_eq(&tok, &to_chars("env")) {
        let mut k: usize = 1;
        let mut found = false;
        while k < toks.len() && !found
            invariant
                1 <= k <= toks@.len(),
                toks@.len() == ws.len(),
                forall|j: int| 0 <= j < toks@.len() ==> #[trigger] toks@[j]@ == ws[j],
                !found ==> first_plain(ws, 1) == first_plain(ws, k as int),
                !found ==> tok@ == ws[0],
                found ==> first_plain(ws, 1) == Some(tok@),
            decreases toks.len() - k + (if found {
                0int
            } else {
                1int
            }),
        {
            if find_char(&toks[k], '=').is_none() {
                tok = crate::text::slice_chars(&toks[k], 0, toks[k].len());
                proof {
                    assert(tok@ =~= ws[k as int]);
                    assert(!ws[k as int].contains('='));
                    assert(first_plain(ws, k as int) == Some(ws[k as int]));
                }
                found = true;
            } else {
                proof {
                    let j = choose|j: int| 0 <= j < toks@[k as int]@.len() && toks@[k as int]@[j] == '=';
                    assert(ws[k as int][j] == '=');
                    assert(ws[k as int].contains('='));
                }
                k = k + 1;
            }
        }
        proof {
            if !found {
                assert(first_plain(ws, k as int) is None);
            }
        }
    }
    if tok.len() > 0 && tok[0] == '/' {
        let ts = from_chars(&tok);
        match path_file_name(ts.as_str()) {
            Some(n) => Some(from_chars(&n)),
            None => None,
        }
    } else {
        Some(from_chars(&tok))
    }
}

// ---------------------------------------------------------------------------
// Readable names.
// ---------------------------------------------------------------------------

/// `char::to_uppercase`: the Unicode uppercase mapping of a character (one
/// or more characters).
pub uninterp spec fn char_upper(c: char) -> Seq<char>;

/// Calls `char::to_uppercase` and collects the characters.  Claimed: the
/// result is `char_upper(c)`; ASCII lowercase letters become their
/// uppercase letter and every other ASCII character stays as it is.  Not
/// claimed: anything about non-ASCII characters beyond the name.
#[verifier::external_body]
fn uppercase_of(c: char) -> (r: String)
    ensures
        r@ == char_upper(c),
        'a' <= c <= 'z' ==> r@ == seq![((c as u32) - 32) as char],
        (c as u32) < 128 && !('a' <= c <= 'z') ==> r@ == seq![c],
{
    c.to_uppercase().collect()
}

pub open spec fn is_name_sep(c: char) -> bool {
    c == '-' || c == '_' || c == '+' || c == '.'
}

/// Tokenizer state for splitting at `-`, `_`, `+` and `.`, dropping empty
/// pieces.
pub open spec fn pieces_state(s: Seq<char>) -> (Seq<Seq<char>>, Seq<char>)
    decreases s.len(),
{
    if s.len() == 0 {
        (seq![], seq![])
    } else {
        let (done, cur) = pieces_state(s.drop_last());
        if is_name_sep(s.last()) {
            if cur.len() > 0 {
                (done.push(cur), seq![])
            } else {
                (done, seq![])
            }
        } else {
            (done, cur.push(s.last()))
        }
    }
}

pub open spec fn name_pieces(s: Seq<char>) -> Seq<Seq<char>> {
    let (done, cur) = pieces_state(s);
    if cur.len() > 0 {
        done.push(cur)
    } else {
        done
    }
}

/// A piece with its first character uppercased.
pub open spec fn capitalized(w: Seq<char>) -> Seq<char> {
    if w.len() == 0 {
        seq![]
    } else {
        char_upper(w[0]) + w.skip(1)
    }
}

/// `vesktop.bin` -> `Vesktop Bin`: the pieces between separators,
/// capitalized, joined by spaces.
pub open spec fn prettify_spec(s: Seq<char>) -> Seq<char> {
    crate::cli::join_spaces(name_pieces(s).map_values(|w: Seq<char>| capitalized(w)))
}

fn capitalize(w: &Vec<char>) -> (r: Vec<char>)
    ensures
        r@ == capitalized(w@),
{
    if w.len() == 0 {
        return Vec::new();
    }
    let mut out = to_chars(uppercase_of(w[0]).as_str());
    let rest = crate::text::slice_chars(w, 1, w.len());
    extend_chars(&mut out, &rest);
    proof {
        assert(rest@ =~= w@.skip(1));
    }
    out
}

pub fn prettify(basename: &str) -> (r: String)
    ensures
        r@ == prettify_spec(basename@),
{
    let v = to_chars(basename);
    let mut done: Vec<Vec<char>> = Vec::new();
    let mut cur: Vec<char> = Vec::new();
    let mut i: usize = 0;
    while i < v.len()
        invariant
            i <= v@.len(),
            v@ == basename@,
            done@.len() == pieces_state(v@.take(i as int)).0.len(),
            forall|k: int| 0 <= k < done@.len() ==> #[trigger] done@[k]@ == pieces_state(v@.take(i as int)).0[k],
            cur@ == pieces_state(v@.take(i as int)).1,
        decreases v.len() - i,
    {
        let c = v[i];
        proof {
            assert(v@.take(i + 1).drop_last() == v@.take(i as int));
            assert(v@.take(i + 1).last() == c);
        }
        if c == '-' || c == '_' || c == '+' || c == '.' {
            if cur.len() > 0 {
                let w = cur;
                done.push(w);
                cur = Vec::new();
            }
        } else {
            cur.push(c);
        }
        i = i + 1;
    }
    proof {
        assert(v@.take(v@.len() as int) == v@);
    }
    if cur.len() > 0 {
        done.push(cur);
    }
    let ghost ps = name_pieces(basename@).map_values(|w: Seq<char>| capitalized(w));
    proof {
        assert(done@.len() == name_pieces(basename@).len());
        assert forall|k: int| 0 <= k < done@.len() implies #[trigger] done@[k]@ == name_pieces(basename@)[k] by {}
    }
    let mut out: Vec<char> = Vec::new();
    let mut j: usize = 0;
    proof {
        assert(ps.take(0) =~= seq![]);
    }
    while j < done.len()
        invariant
            j <= done@.len(),
            done@.len() == ps.len(),
            ps == name_pieces(basename@).map_values(|w: Seq<char>| capitalized(w)),
            forall|k: int| 0 <= k < done@.len() ==> #[trigger] done@[k]@ == name_pieces(basename@)[k],
            out@ == crate::cli::join_spaces(ps.take(j as int)),
        decreases done.len() - j,
    {
        let w = capitalize(&done[j]);
        proof {
            assert(ps[j as int] == capitalized(done@[j as int]@));
            assert(ps.take(j + 1).drop_last() =~= ps.take(j as int));
            assert(ps.take(j + 1).last() == w@);
        }
        if j > 0 {
            out.push(' ');
        } else {
            proof {
                assert(ps.take(1)[0] == w@);
            }
        }
        extend_chars(&mut out, &w);
        proof {
            if j == 0 {
                assert(out@ =~= crate::cli::join_spaces(ps.take(1)));
            } else {
                assert(out@ =~= crate::cli::join_spaces(ps.take(j as int)) + seq![' '] + w@);
            }
        }
        j = j + 1;
    }
    proof {
        assert(ps.take(done@.len() as int) =~= ps);
    }
    from_chars(&out)
}

// ---------------------------------------------------------------------------
// Matching executables to entries.
// ---------------------------------------------------------------------------

/// An executable's basename (empty when it has none).
pub open spec fn exe_basename(exe: Seq<char>) -> Seq<char> {
    match file_name(exe) {
        Some(b) => b,
        None => seq![],
    }
}

/// An entry describes the executable: its Exec= or TryExec= program is the
/// basename, or its Exec= line starts with the executable's path.
pub open spec fn entry_matches(e: DesktopEntry, exe: Seq<char>) -> bool {
    let base = exe_basename(exe);
    ||| exec_program_spec(e.exec_line@) == Some(base)
    ||| (e.try_exec matches Some(t) && exec_program_spec(t@) == Some(base))
    ||| (words(e.exec_line@).len() > 0 && words(e.exec_line@)[0] == exe)
}

fn matches_entry(e: &DesktopEntry, exe: &str, base: &Vec<char>) -> (r: bool)
    requires
        base@ == exe_basename(exe@),
    ensures
        r == entry_matches(*e, exe@),
{
    let by_exec = match exec_program(e.exec_line.as_str()) {
        Some(p) => chars_eq(&to_chars(p.as_str()), base),
        None => false,
    };
    let by_try = match &e.try_exec {
        Some(t) => match exec_program(t.as_str()) {
            Some(p) => chars_eq(&to_chars(p.as_str()), base),
            None => false,
        },
        None => false,
    };
    let toks = split_whitespace(&to_chars(e.exec_line.as_str()));
    let by_path = toks.len() > 0 && chars_eq(&toks[0], &to_chars(exe));
    by_exec || by_try || by_path
}

/// The first entry from `k` on that matches the executable.
pub open spec fn first_match_from(es: Seq<DesktopEntry>, exe: Seq<char>, k: int) -> Option<int>
    decreases es.len() - k,
{
    if k < 0 || k >= es.len() {
        None
    } else if entry_matches(es[k], exe) {
        Some(k)
    } else {
        first_match_from(es, exe, k + 1)
    }
}

/// Metadata for an executable path: the first matching entry's name and
/// icon, else the prettified basename and no icon.
pub fn resolve(entries: &Vec<DesktopEntry>, exe: &str) -> (r: AppMeta)
    ensures
        match first_match_from(entries@, exe@, 0) {
            Some(i) => r.name@ == entries@[i].name@ && opt_chars(r.icon) == opt_chars(entries@[i].icon),
            None => r.name@ == prettify_spec(exe_basename(exe@)) && r.icon is None,
        },
{
    let base = match path_file_name(exe) {
        Some(b) => b,
        None => Vec::new(),
    };
    let mut i: usize = 0;
    while i < entries.len()
        invariant
            i <= entries@.len(),
            base@ == exe_basename(exe@),
            first_match_from(entries@, exe@, 0) == first_match_from(entries@, exe@, i as int),
        decreases entries.len() - i,
    {
        if matches_entry(&entries[i], exe, &base) {
            let e = &entries[i];
            return AppMeta { name: e.name.clone(), icon: crate::common::clone_opt_string(&e.icon) };
        }
        i = i + 1;
    }
    AppMeta { name: prettify(from_chars(&base).as_str()), icon: None }
}

// ---------------------------------------------------------------------------
// Icons as data URLs.
// ---------------------------------------------------------------------------

/// The base64 alphabet (standard, `+` and `/`).
pub open spec fn b64_char(v: int) -> char {
    if v < 26 {
        ('A' as int + v) as char
    } else if v < 52 {
        ('a' as int + v - 26) as char
    } else if v < 62 {
        ('0' as int + v - 52) as char
    } else if v == 62 {
        '+'
    } else {
        '/'
    }
}

/// Standard base64 with `=` padding.
pub open spec fn base64_spec(s: Seq<u8>) -> Seq<char>
    decreases s.len(),
{
    if s.len() == 0 {
        seq![]
    } else if s.len() == 1 {
        seq![b64_char(s[0] as int / 4), b64_char((s[0] as int % 4) * 16), '=', '=']
    } else if s.len() == 2 {
        seq![
            b64_char(s[0] as int / 4),
            b64_char((s[0] as int % 4) * 16 + s[1] as int / 16),
            b64_char((s[1] as int % 16) * 4),
            '=',
        ]
    } else {
        seq![
            b64_char(s[0] as int / 4),
            b64_char((s[0] as int % 4) * 16 + s[1] as int / 16),
            b64_char((s[1] as int % 16) * 4 + s[2] as int / 64),
            b64_char(s[2] as int % 64),
        ] + base64_spec(s.skip(3))
    }
}

/// Calls `base64::engine::general_purpose::STANDARD.encode`.  Claimed: the
/// standard-alphabet, `=`-padded base64 text of the bytes.  The length
/// bound keeps the crate's output-size computation from overflowing (it
/// panics then).
#[verifier::external_body]
fn base64_standard(bytes: &[u8]) -> (r: String)
    requires
        bytes@.len() <= usize::MAX / 2,
    ensures
        r@ == base64_spec(bytes@),
{
    base64::engine::general_purpose::STANDARD.encode(bytes)
}

/// `data:<mime>;base64,<text>`, SVG for `.svg` files and PNG otherwise.
pub open spec fn data_url_spec(file: Seq<char>, bytes: Seq<u8>) -> Seq<char> {
    "data:"@ + (if has_suffix(file, ".svg"@) {
        "image/svg+xml"@
    } else {
        "image/png"@
    }) + ";base64,"@ + base64_spec(bytes)
}

/// The data URL of an icon file's content.
pub fn icon_data_url(file: &str, bytes: &[u8]) -> (r: String)
    requires
        bytes@.len() <= usize::MAX / 2,
    ensures
        r@ == data_url_spec(file@, bytes@),
{
    let svg = ends_with_chars(&to_chars(file), &to_chars(".svg"));
    let mime = if svg {
        "image/svg+xml"
    } else {
        "image/png"
    };
    let a = cat("data:", mime);
    let b = cat(a.as_str(), ";base64,");
    let enc = base64_standard(bytes);
    cat(b.as_str(), enc.as_str())
}

} // verus!
