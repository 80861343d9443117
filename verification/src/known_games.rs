//! Curated "known games" catalog.
//!
//! A process is known when any of these hit (case-insensitively):
//!   * its `comm` is a listed process token,
//!   * its `exe` basename is a listed process token,
//!   * a `/proc/<pid>/cmdline` path segment (minus `.exe`) is one,
//!   * its cgroup scope names a listed Flatpak app id
//!     (`app-flatpak-<appid>-<hash>.scope`).
//! Tokens with two or more dots are Flatpak ids; all others are process
//! names.

use vstd::prelude::*;

use crate::proc_scan::ProcEntry;
use crate::text::{
    ascii_lower_seq, find_chars, find_seq, lemma_find_from_some, from_chars, last_index_of, lower_ascii_chars,
    rfind_char, slice_chars, to_chars, trim, trim_chars, trim_end_matches,
    trim_end_matches_chars,
};

verus! {

/// What `String::from_utf8_lossy` makes of a byte string.
pub uninterp spec fn utf8_lossy(bytes: Seq<u8>) -> Seq<char>;

/// Bytes that are all ASCII (below 0x80).
pub open spec fn all_ascii_bytes(bytes: Seq<u8>) -> bool {
    forall|i: int| 0 <= i < bytes.len() ==> #[trigger] bytes[i] < 0x80
}

/// The text of a command-line segment: ASCII bytes as themselves, other
/// bytes as `String::from_utf8_lossy` decodes them.
pub open spec fn lossy_text(bytes: Seq<u8>) -> Seq<char> {
    if all_ascii_bytes(bytes) {
        bytes.map_values(|b: u8| b as char)
    } else {
        utf8_lossy(bytes)
    }
}

/// Calls `String::from_utf8_lossy`, which decodes UTF-8 and replaces each
/// invalid sequence with U+FFFD.  Claimed: the result is `utf8_lossy` of
/// the bytes, and ASCII bytes (valid UTF-8, one character each) decode to
/// themselves.  Not claimed: anything more about other bytes.
#[verifier::external_body]
pub(crate) fn utf8_lossy_string(bytes: &[u8]) -> (s: String)
    ensures
        s@ == utf8_lossy(bytes@),
        all_ascii_bytes(bytes@) ==> s@ == bytes@.map_values(|b: u8| b as char),
{
    String::from_utf8_lossy(bytes).into_owned()
}

/// Number of `.` in a token.
pub open spec fn dot_count(s: Seq<char>) -> nat
    decreases s.len(),
{
    if s.len() == 0 {
        0
    } else {
        dot_count(s.drop_last()) + if s.last() == '.' { 1nat } else { 0nat }
    }
}

/// A token with at least two dots is a reverse-DNS Flatpak app id.
pub open spec fn flatpak_id_spec(t: Seq<char>) -> bool {
    dot_count(t) >= 2
}

pub fn is_flatpak_id(token: &Vec<char>) -> (r: bool)
    ensures
        r == flatpak_id_spec(token@),
{
    let mut n: usize = 0;
    let mut i: usize = 0;
    while i < token.len()
        invariant
            i <= token.len(),
            n == dot_count(token@.take(i as int)),
            n <= i,
        decreases token.len() - i,
    {
        proof {
            assert(token@.take(i + 1).drop_last() == token@.take(i as int));
        }
        if token[i] == '.' {
            n = n + 1;
        }
        i = i + 1;
    }
    proof {
        assert(token@.take(i as int) == token@);
    }
    n >= 2
}

/// A catalog token as it is stored: trimmed and ASCII-lowercased.
pub open spec fn catalog_key(t: Seq<char>) -> Seq<char> {
    ascii_lower_seq(trim(t))
}

/// `app-flatpak-<appid>-<hash>.scope` → `<appid>` (lowercased), the hash
/// stripped when there is a `-` after the id's first character.
pub open spec fn flatpak_scope_id(cgroup: Seq<char>) -> Option<Seq<char>> {
    let lower = ascii_lower_seq(cgroup);
    match find_seq(lower, "app-flatpak-"@) {
        None => None,
        Some(m) => {
            let start = m + 12;
            match find_seq(lower.skip(start), ".scope"@) {
                None => None,
                Some(e) => {
                    let inner = lower.subrange(start, start + e);
                    match last_index_of(inner, '-') {
                        Some(idx) if idx > 0 => Some(inner.take(idx)),
                        _ => Some(inner),
                    }
                },
            }
        },
    }
}

pub fn flatpak_id_from_cgroup(cgroup: &str) -> (r: Option<String>)
    ensures
        match r {
            Some(id) => flatpak_scope_id(cgroup@) == Some(id@),
            None => flatpak_scope_id(cgroup@) is None,
        },
{
    let raw = to_chars(cgroup);
    let lower = lower_ascii_chars(&raw);
    let marker = to_chars("app-flatpak-");
    let m = match find_chars(&lower, &marker) {
        Some(m) => m,
        None => return None,
    };
    proof {
        reveal_strlit("app-flatpak-");
        lemma_find_from_some(lower@, marker@, 0);
        assert(m + 12 <= lower@.len());
        assert(m + 12 <= lower.len());
    }
    let start = m + 12;
    let tail = slice_chars(&lower, start, lower.len());
    proof {
        assert(tail@ == lower@.skip(start as int));
    }
    let scope = to_chars(".scope");
    let e = match find_chars(&tail, &scope) {
        Some(e) => e,
        None => return None,
    };
    proof {
        reveal_strlit(".scope");
        lemma_find_from_some(tail@, scope@, 0);
        assert(e + 6 <= tail@.len());
    }
    let inner = slice_chars(&lower, start, start + e);
    match rfind_char(&inner, '-') {
        Some(idx) => {
            if idx > 0 {
                let head = slice_chars(&inner, 0, idx);
                return Some(from_chars(&head));
            }
        },
        None => {},
    }
    Some(from_chars(&inner))
}

/// `path.rsplit('/').next()` when non-empty: the text after the last `/`.
pub open spec fn basename_spec(path: Seq<char>) -> Option<Seq<char>> {
    let b = match last_index_of(path, '/') {
        Some(i) => path.skip(i + 1),
        None => path,
    };
    if b.len() > 0 {
        Some(b)
    } else {
        None
    }
}

pub fn basename(path: &str) -> (r: Option<String>)
    ensures
        match r {
            Some(b) => basename_spec(path@) == Some(b@),
            None => basename_spec(path@) is None,
        },
{
    let v = to_chars(path);
    let start = match rfind_char(&v, '/') {
        Some(i) => i + 1,
        None => 0,
    };
    proof {
        if start == 0 {
            assert(v@.skip(0) == v@);
        }
    }
    if start < v.len() {
        let b = slice_chars(&v, start, v.len());
        proof {
            assert(b@ == v@.skip(start as int));
        }
        Some(from_chars(&b))
    } else {
        None
    }
}

/// Separators of command-line path segments: `/`, backslash, `:`, space, and
/// the NUL that ends each argument.
pub open spec fn cmd_sep(b: u8) -> bool {
    b == 0x2f || b == 0x5c || b == 0x3a || b == 0x20 || b == 0x00
}

/// `[i, j)` is a maximal non-empty run of non-separator bytes of `c`.
pub open spec fn segment(c: Seq<u8>, i: int, j: int) -> bool {
    &&& 0 <= i < j <= c.len()
    &&& (i == 0 || cmd_sep(c[i - 1]))
    &&& (j == c.len() || cmd_sep(c[j]))
    &&& forall|k: int| i <= k < j ==> !cmd_sep(#[trigger] c[k])
}

/// A segment's text with trailing `.exe` / `.EXE` stripped.
pub open spec fn segment_name(c: Seq<u8>, i: int, j: int) -> Seq<char> {
    trim_end_matches(trim_end_matches(lossy_text(c.subrange(i, j)), ".exe"@), ".EXE"@)
}

/// Token `j` of `tokens` is catalog entry `x`, of the Flatpak kind when
/// `flat` and of the name kind otherwise.
pub open spec fn token_is(tokens: Seq<String>, j: int, x: Seq<char>, flat: bool) -> bool {
    &&& 0 <= j < tokens.len()
    &&& catalog_key(tokens[j]@) == x
    &&& x.len() > 0
    &&& flatpak_id_spec(x) == flat
}

/// Pushing an absent element keeps a sequence duplicate-free and adds
/// exactly that element.
pub proof fn lemma_push_fresh(s: Seq<Seq<char>>, v: Seq<char>)
    requires
        s.no_duplicates(),
        !s.contains(v),
    ensures
        s.push(v).no_duplicates(),
        forall|x: Seq<char>| #[trigger] s.push(v).contains(x) <==> (s.contains(x) || x == v),
{
    let t = s.push(v);
    assert forall|a: int, b: int| 0 <= a < b < t.len() implies t[a] != t[b] by {
        if b == s.len() {
            assert(s.contains(s[a]));
        }
    }
    assert forall|x: Seq<char>| #[trigger] t.contains(x) <==> (s.contains(x) || x == v) by {
        if t.contains(x) {
            let q = choose|q: int| 0 <= q < t.len() && t[q] == x;
            if q < s.len() {
                assert(s[q] == x);
            }
        }
        if s.contains(x) {
            let q = choose|q: int| 0 <= q < s.len() && s[q] == x;
            assert(t[q] == x);
        }
        if x == v {
            assert(t[s.len() as int] == x);
        }
    }
}

/// The known-games catalog.
#[derive(Debug)]
pub struct KnownGames {
    /// Process-name tokens (comm / exe basename / cmdline segments).
    names: Vec<String>,
    /// Flatpak app ids, matched against the cgroup scope.
    flatpak: Vec<String>,
}

pub open spec fn views(v: Seq<String>) -> Seq<Seq<char>> {
    v.map_values(|s: String| s@)
}

/// Is `x` one of the strings of `v`?
pub fn contains_string(v: &Vec<String>, x: &Vec<char>) -> (r: bool)
    ensures
        r == views(v@).contains(x@),
{
    let mut i: usize = 0;
    while i < v.len()
        invariant
            i <= v.len(),
            forall|j: int| 0 <= j < i ==> views(v@)[j] != x@,
        decreases v.len() - i,
    {
        let s = to_chars(v[i].as_str());
        if crate::text::chars_eq(&s, x) {
            proof {
                assert(views(v@)[i as int] == x@);
            }
            return true;
        }
        i = i + 1;
    }
    false
}

impl KnownGames {
    pub closed spec fn name_set(&self) -> Set<Seq<char>> {
        views(self.names@).to_set()
    }

    pub closed spec fn flatpak_set(&self) -> Set<Seq<char>> {
        views(self.flatpak@).to_set()
    }

    /// No token is stored twice.
    pub closed spec fn wf(&self) -> bool {
        views(self.names@).no_duplicates() && views(self.flatpak@).no_duplicates()
    }

    /// An empty catalog.
    pub fn empty() -> (k: KnownGames)
        ensures
            k.wf(),
            k.name_set() == Set::<Seq<char>>::empty(),
            k.flatpak_set() == Set::<Seq<char>>::empty(),
    {
        let k = KnownGames { names: Vec::new(), flatpak: Vec::new() };
        proof {
            assert(views(k.names@).to_set() =~= Set::<Seq<char>>::empty());
            assert(views(k.flatpak@).to_set() =~= Set::<Seq<char>>::empty());
        }
        k
    }

    /// Build the catalog from its raw tokens: each is trimmed and
    /// lowercased, empty ones are skipped, and it lands in the Flatpak set
    /// when it has two or more dots, else in the name set.
    pub fn from_tokens(tokens: &Vec<String>) -> (k: KnownGames)
        ensures
            k.wf(),
            forall|x: Seq<char>|
                #[trigger] k.name_set().contains(x) <==> exists|j: int| #[trigger] token_is(
                    tokens@,
                    j,
                    x,
                    false,
                ),
            forall|x: Seq<char>|
                #[trigger] k.flatpak_set().contains(x) <==> exists|j: int| #[trigger] token_is(
                    tokens@,
                    j,
                    x,
                    true,
                ),
    {
        let mut names: Vec<String> = Vec::new();
        let mut flatpak: Vec<String> = Vec::new();
        let mut i: usize = 0;
        while i < tokens.len()
            invariant
                i <= tokens.len(),
                views(names@).no_duplicates(),
                views(flatpak@).no_duplicates(),
                forall|x: Seq<char>|
                    #[trigger] views(names@).contains(x) <==> exists|j: int|
                        j < i && #[trigger] token_is(tokens@, j, x, false),
                forall|x: Seq<char>|
                    #[trigger] views(flatpak@).contains(x) <==> exists|j: int|
                        j < i && #[trigger] token_is(tokens@, j, x, true),
            decreases tokens.len() - i,
        {
            let ghost old_names = views(names@);
            let ghost old_flat = views(flatpak@);
            let raw = to_chars(tokens[i].as_str());
            let t = trim_chars(&raw);
            let key = lower_ascii_chars(&t);
            let ghost kv = key@;
            let nonempty = key.len() > 0;
            let flat = is_flatpak_id(&key);
            if nonempty {
                if flat {
                    if !contains_string(&flatpak, &key) {
                        flatpak.push(from_chars(&key));
                        proof {
                            assert(views(flatpak@) =~= old_flat.push(kv));
                            lemma_push_fresh(old_flat, kv);
                        }
                    }
                } else {
                    if !contains_string(&names, &key) {
                        names.push(from_chars(&key));
                        proof {
                            assert(views(names@) =~= old_names.push(kv));
                            lemma_push_fresh(old_names, kv);
                        }
                    }
                }
            }
            proof {
                // Each set gained at most the current token.
                assert forall|x: Seq<char>| #[trigger] views(names@).contains(x) <==> (old_names.contains(x)
                    || token_is(tokens@, i as int, x, false)) by {
                    if nonempty && !flat && x == kv {
                        assert(views(names@).contains(x));
                    }
                }
                assert forall|x: Seq<char>| #[trigger] views(flatpak@).contains(x) <==> (old_flat.contains(x)
                    || token_is(tokens@, i as int, x, true)) by {
                    if nonempty && flat && x == kv {
                        assert(views(flatpak@).contains(x));
                    }
                }
                assert forall|x: Seq<char>| #[trigger] views(names@).contains(x) <==> exists|j: int|
                    j < i + 1 && #[trigger] token_is(tokens@, j, x, false) by {
                    if exists|j: int| j < i + 1 && #[trigger] token_is(tokens@, j, x, false) {
                        let j = choose|j: int| j < i + 1 && #[trigger] token_is(tokens@, j, x, false);
                        if j < i {
                            assert(old_names.contains(x));
                        }
                    }
                    if old_names.contains(x) {
                        let j = choose|j: int| j < i && #[trigger] token_is(tokens@, j, x, false);
                        assert(j < i + 1 && token_is(tokens@, j, x, false));
                    }
                }
                assert forall|x: Seq<char>| #[trigger] views(flatpak@).contains(x) <==> exists|j: int|
                    j < i + 1 && #[trigger] token_is(tokens@, j, x, true) by {
                    if exists|j: int| j < i + 1 && #[trigger] token_is(tokens@, j, x, true) {
                        let j = choose|j: int| j < i + 1 && #[trigger] token_is(tokens@, j, x, true);
                        if j < i {
                            assert(old_flat.contains(x));
                        }
                    }
                    if old_flat.contains(x) {
                        let j = choose|j: int| j < i && #[trigger] token_is(tokens@, j, x, true);
                        assert(j < i + 1 && token_is(tokens@, j, x, true));
                    }
                }
            }
            i = i + 1;
        }
        KnownGames { names, flatpak }
    }

    /// Number of catalog entries (saturating at `usize::MAX`).
    pub fn len(&self) -> (n: usize)
        requires
            self.wf(),
        ensures
            n == if self.name_set().len() + self.flatpak_set().len() > usize::MAX {
                usize::MAX as int
            } else {
                (self.name_set().len() + self.flatpak_set().len()) as int
            },
    {
        proof {
            views(self.names@).unique_seq_to_set();
            views(self.flatpak@).unique_seq_to_set();
        }
        self.names.len().saturating_add(self.flatpak.len())
    }

    /// Is `name` (case-insensitively) a listed process token?
    pub open spec fn known_name_spec(&self, name: Seq<char>) -> bool {
        name.len() > 0 && self.name_set().contains(ascii_lower_seq(name))
    }

    /// Quick `comm`-name check.
    pub fn is_known_name(&self, comm: &str) -> (r: bool)
        ensures
            r == self.known_name_spec(comm@),
    {
        let v = to_chars(comm);
        self.is_known_chars(&v)
    }

    fn is_known_chars(&self, name: &Vec<char>) -> (r: bool)
        ensures
            r == self.known_name_spec(name@),
    {
        if name.len() == 0 {
            return false;
        }
        let l = lower_ascii_chars(name);
        let r = contains_string(&self.names, &l);
        proof {
            if r {
                assert(self.name_set().contains(l@));
            } else {
                assert(!self.name_set().contains(l@));
            }
        }
        r
    }

    /// Full detection: comm, exe basename, cmdline segments, Flatpak scope.
    pub open spec fn known_entry_spec(&self, e: ProcEntry) -> bool {
        ||| self.known_name_spec(e.name@)
        ||| (e.exe matches Some(x) && basename_spec(x@) matches Some(b) && self.known_name_spec(b))
        ||| (e.cmdline matches Some(c) && exists|i: int, j: int|
            #[trigger] segment(c@, i, j) && segment_name(c@, i, j).len() > 0
                && self.known_name_spec(segment_name(c@, i, j)))
        ||| (e.cgroup matches Some(g) && flatpak_scope_id(g@) matches Some(id)
            && self.flatpak_set().contains(id))
    }

    pub fn is_known_entry(&self, entry: &ProcEntry) -> (r: bool)
        ensures
            r == self.known_entry_spec(*entry),
            entry.name@.len() > 0 && self.name_set().contains(ascii_lower_seq(entry.name@)) ==> r,
            entry.exe matches Some(x) && basename_spec(x@) matches Some(b) && self.name_set().contains(
                ascii_lower_seq(b),
            ) ==> r,
    {
        if self.is_known_name(entry.name.as_str()) {
            return true;
        }
        let exe_hit = match &entry.exe {
            Some(x) => match basename(x.as_str()) {
                Some(b) => self.is_known_name(b.as_str()),
                None => false,
            },
            None => false,
        };
        if exe_hit {
            return true;
        }
        let cmd_hit = match &entry.cmdline {
            Some(c) => self.any_segment_known(c),
            None => false,
        };
        if cmd_hit {
            return true;
        }
        match &entry.cgroup {
            Some(g) => match flatpak_id_from_cgroup(g.as_str()) {
                Some(id) => {
                    let idv = to_chars(id.as_str());
                    let r = contains_string(&self.flatpak, &idv);
                    proof {
                        if r {
                            assert(self.flatpak_set().contains(idv@));
                        } else {
                            assert(!self.flatpak_set().contains(idv@));
                        }
                    }
                    r
                },
                None => false,
            },
            None => false,
        }
    }

    /// Is segment `[i, j)` of `c` a known name?
    fn segment_known(&self, c: &Vec<u8>, i: usize, j: usize) -> (r: bool)
        requires
            i <= j <= c.len(),
        ensures
            r == (segment_name(c@, i as int, j as int).len() > 0 && self.known_name_spec(
                segment_name(c@, i as int, j as int),
            )),
    {
        let s = utf8_lossy_string(vstd::slice::slice_subrange(c.as_slice(), i, j));
        let sv = to_chars(s.as_str());
        let exe = to_chars(".exe");
        let exe_up = to_chars(".EXE");
        let a = trim_end_matches_chars(&sv, &exe);
        let clean = trim_end_matches_chars(&a, &exe_up);
        clean.len() > 0 && self.is_known_chars(&clean)
    }

    /// Does some command-line segment name a known game?
    fn any_segment_known(&self, c: &Vec<u8>) -> (r: bool)
        ensures
            r == exists|i: int, j: int|
                #[trigger] segment(c@, i, j) && segment_name(c@, i, j).len() > 0
                    && self.known_name_spec(segment_name(c@, i, j)),
    {
        let mut start: usize = 0;
        let mut pos: usize = 0;
        while pos < c.len()
            invariant
                start <= pos <= c.len(),
                start == 0 || cmd_sep(c@[start - 1]),
                forall|k: int| start <= k < pos ==> !cmd_sep(#[trigger] c@[k]),
                forall|i: int, j: int|
                    #[trigger] segment(c@, i, j) && i < start ==> !(segment_name(c@, i, j).len() > 0
                        && self.known_name_spec(segment_name(c@, i, j))),
            decreases c.len() - pos,
        {
            let b = c[pos];
            if b == 0x2f || b == 0x5c || b == 0x3a || b == 0x20 || b == 0x00 {
                if start < pos && self.segment_known(c, start, pos) {
                    proof {
                        assert(segment(c@, start as int, pos as int));
                    }
                    return true;
                }
                proof {
                    assert forall|i: int, j: int|
                        #[trigger] segment(c@, i, j) && i < pos + 1 implies !(segment_name(c@, i, j).len() > 0
                            && self.known_name_spec(segment_name(c@, i, j))) by {
                        if i >= start {
                            if i == start {
                                if j > pos {
                                    assert(!cmd_sep(c@[pos as int]));
                                }
                                if j < pos {
                                    assert(!cmd_sep(c@[j]));
                                }
                            } else if i <= pos {
                                assert(!cmd_sep(c@[i - 1]) || i - 1 == pos || i - 1 < start);
                                if i < pos {
                                    assert(!cmd_sep(c@[i - 1]));
                                } else {
                                    assert(cmd_sep(c@[pos as int]));
                                    assert(!cmd_sep(c@[i]));
                                }
                            }
                        }
                    }
                }
                start = pos + 1;
            }
            pos = pos + 1;
        }
        if start < pos && self.segment_known(c, start, pos) {
            proof {
                assert(segment(c@, start as int, pos as int));
            }
            return true;
        }
        proof {
            assert forall|i: int, j: int|
                #[trigger] segment(c@, i, j) implies !(segment_name(c@, i, j).len() > 0
                    && self.known_name_spec(segment_name(c@, i, j))) by {
                if i >= start {
                    if i == start {
                        if j < pos {
                            assert(!cmd_sep(c@[j]));
                        }
                    } else {
                        assert(!cmd_sep(c@[i - 1]));
                    }
                }
            }
        }
        false
    }
}

/// An entry is known when its comm, or the last `/`-segment of its exe
/// path, is a listed process token (compared in ASCII lowercase), or when
/// its cgroup scope names a listed Flatpak id.
pub proof fn lemma_listed_entry_is_known(k: KnownGames, e: ProcEntry)
    ensures
        e.name@.len() > 0 && k.name_set().contains(ascii_lower_seq(e.name@)) ==> k.known_entry_spec(e),
        (e.exe matches Some(x) && basename_spec(x@) matches Some(b) && k.name_set().contains(
            ascii_lower_seq(b),
        )) ==> k.known_entry_spec(e),
        (e.cgroup matches Some(g) && flatpak_scope_id(g@) matches Some(id) && k.flatpak_set().contains(
            id,
        )) ==> k.known_entry_spec(e),
{
}

/// The exe basename is the text after the last `/` of the path: a path
/// `dir/b` whose `b` holds no `/` and is not empty has basename `b`.
pub proof fn lemma_basename_after_last_slash(dir: Seq<char>, b: Seq<char>)
    requires
        b.len() > 0,
        forall|i: int| 0 <= i < b.len() ==> b[i] != '/',
    ensures
        basename_spec(dir + seq!['/'] + b) == Some(b),
{
    let p = dir + seq!['/'] + b;
    assert(p[dir.len() as int] == '/');
    assert forall|j: int| dir.len() < j < p.len() implies p[j] != '/' by {
        assert(p[j] == b[j - dir.len() - 1]);
    }
    let k = dir.len() as int;
    assert(0 <= k < p.len() && p[k] == '/' && forall|j: int| k < j < p.len() ==> p[j] != '/');
    let i = last_index_of(p, '/').unwrap();
    assert(0 <= i < p.len() && p[i] == '/' && forall|j: int| i < j < p.len() ==> p[j] != '/');
    if i < k {
        assert(p[k] != '/');
    }
    if i > k {
        assert(p[i] != '/');
    }
    assert(i == k);
    assert(p.skip(k + 1) =~= b);
}

} // verus!
