//! Native OS theme and accent colour: the detection ladder KDE
//! (`kdeglobals`) -> GTK (`gsettings`) -> bare WMs (XDG portal,
//! `.Xresources`), and the accent cascade down to a neutral fallback.  The
//! caller runs the commands and reads the files; this module interprets
//! what they print.

use vstd::prelude::*;

use crate::common::opt_chars;
use crate::proc_scan::{lines, split_lines};
use crate::text::{
    cat, chars_eq, contains_chars, from_chars, has_prefix, parse_i64, parse_signed_spec,
    starts_with_chars, ends_with_chars, to_chars, trim, trim_chars, words, split_whitespace,
    ascii_lower_seq, lower_ascii_chars, trim_end_matches,
};

verus! {

/// The colours of a theme.
#[derive(Debug)]
pub struct ThemeColors {
    /// Window background ("canvas").
    pub bg: String,
    /// Sidebar / header background.
    pub sidebar: String,
    /// Card / raised surface.
    pub surface: String,
    pub surface_hover: String,
    /// Primary text.
    pub text: String,
    pub muted: String,
    pub muted2: String,
    pub border: String,
    /// The OS accent colour (hex); empty when the backend has none.
    pub accent: String,
}

/// A theme: its colours and whether it is dark.
#[derive(Debug)]
pub struct NativeTheme {
    pub colors: ThemeColors,
    /// Best-effort dark/light signal.
    pub dark: bool,
}

// ---------------------------------------------------------------------------
// Text helpers.
// ---------------------------------------------------------------------------

pub open spec fn is_quote_char(c: char) -> bool {
    c == '\'' || c == '"' || c == '('
}

pub open spec fn strip_front(s: Seq<char>) -> Seq<char>
    decreases s.len(),
{
    if s.len() > 0 && is_quote_char(s[0]) {
        strip_front(s.drop_first())
    } else {
        s
    }
}

pub open spec fn strip_back(s: Seq<char>) -> Seq<char>
    decreases s.len(),
{
    if s.len() > 0 && is_quote_char(s.last()) {
        strip_back(s.drop_last())
    } else {
        s
    }
}

/// `'value'` / `"value"` / `(value` -> `value`: trimmed, quote characters
/// stripped from both ends, trimmed again.
pub open spec fn unquote_spec(s: Seq<char>) -> Seq<char> {
    trim(strip_back(strip_front(trim(s))))
}

fn strip_quotes(v: &Vec<char>) -> (r: Vec<char>)
    ensures
        r@ == strip_back(strip_front(v@)),
{
    let mut lo: usize = 0;
    proof {
        assert(v@.skip(0) =~= v@);
    }
    while lo < v.len() && (v[lo] == '\'' || v[lo] == '"' || v[lo] == '(')
        invariant
            lo <= v@.len(),
            strip_front(v@) == strip_front(v@.skip(lo as int)),
        decreases v.len() - lo,
    {
        assert(v@.skip(lo as int).drop_first() =~= v@.skip(lo + 1));
        lo = lo + 1;
    }
    let mut hi: usize = v.len();
    proof {
        assert(v@.subrange(lo as int, hi as int) =~= strip_front(v@));
    }
    while hi > lo && (v[hi - 1] == '\'' || v[hi - 1] == '"' || v[hi - 1] == '(')
        invariant
            lo <= hi <= v@.len(),
            strip_back(strip_front(v@)) == strip_back(v@.subrange(lo as int, hi as int)),
        decreases hi - lo,
    {
        assert(v@.subrange(lo as int, hi as int).drop_last() =~= v@.subrange(lo as int, hi - 1));
        hi = hi - 1;
    }
    crate::text::slice_chars(v, lo, hi)
}

pub fn unquote(s: &str) -> (r: String)
    ensures
        r@ == unquote_spec(s@),
{
    let t = trim_chars(&to_chars(s));
    let q = strip_quotes(&t);
    from_chars(&trim_chars(&q))
}

/// `str::split` at a character: the pieces between occurrences, empty
/// pieces included.
pub open spec fn split_state(s: Seq<char>, c: char) -> (Seq<Seq<char>>, Seq<char>)
    decreases s.len(),
{
    if s.len() == 0 {
        (seq![], seq![])
    } else {
        let (done, cur) = split_state(s.drop_last(), c);
        if s.last() == c {
            (done.push(cur), seq![])
        } else {
            (done, cur.push(s.last()))
        }
    }
}

pub open spec fn split_at_char(s: Seq<char>, c: char) -> Seq<Seq<char>> {
    let (done, cur) = split_state(s, c);
    done.push(cur)
}

fn split_char(s: &Vec<char>, c: char) -> (r: Vec<Vec<char>>)
    ensures
        r@.len() == split_at_char(s@, c).len(),
        forall|i: int| 0 <= i < r@.len() ==> #[trigger] r@[i]@ == split_at_char(s@, c)[i],
{
    let mut done: Vec<Vec<char>> = Vec::new();
    let mut cur: Vec<char> = Vec::new();
    let mut i: usize = 0;
    while i < s.len()
        invariant
            i <= s@.len(),
            done@.len() == split_state(s@.take(i as int), c).0.len(),
            forall|k: int| 0 <= k < done@.len() ==> #[trigger] done@[k]@ == split_state(s@.take(i as int), c).0[k],
            cur@ == split_state(s@.take(i as int), c).1,
        decreases s.len() - i,
    {
        proof {
            assert(s@.take(i + 1).drop_last() == s@.take(i as int));
            assert(s@.take(i + 1).last() == s@[i as int]);
        }
        if s[i] == c {
            let w = cur;
            done.push(w);
            cur = Vec::new();
        } else {
            cur.push(s[i]);
        }
        i = i + 1;
    }
    proof {
        assert(s@.take(s@.len() as int) == s@);
    }
    done.push(cur);
    done
}

// ---------------------------------------------------------------------------
// Colours.
// ---------------------------------------------------------------------------

pub open spec fn hex_digit(d: int) -> char {
    if d < 10 {
        ('0' as int + d) as char
    } else {
        ('a' as int + d - 10) as char
    }
}

/// Two lowercase hex digits (`{:02x}`) of a byte value.
pub open spec fn hex2(n: int) -> Seq<char> {
    seq![hex_digit(n / 16), hex_digit(n % 16)]
}

/// `#rrggbb`.
pub open spec fn rgb_spec(r: int, g: int, b: int) -> Seq<char> {
    seq!['#'] + hex2(r) + hex2(g) + hex2(b)
}

fn hex_digit_char(d: u8) -> (c: char)
    requires
        d < 16,
    ensures
        c == hex_digit(d as int),
{
    if d < 10 {
        ((48 + d) as u8) as char
    } else {
        ((97 + d - 10) as u8) as char
    }
}

fn push_hex2(v: &mut Vec<char>, n: u8)
    ensures
        final(v)@ == old(v)@ + hex2(n as int),
{
    v.push(hex_digit_char(n / 16));
    v.push(hex_digit_char(n % 16));
    proof {
        assert(final(v)@ =~= old(v)@ + hex2(n as int));
    }
}

pub fn rgb(r: u8, g: u8, b: u8) -> (s: String)
    ensures
        s@ == rgb_spec(r as int, g as int, b as int),
{
    let mut v: Vec<char> = Vec::new();
    v.push('#');
    push_hex2(&mut v, r);
    push_hex2(&mut v, g);
    push_hex2(&mut v, b);
    proof {
        assert(v@ =~= rgb_spec(r as int, g as int, b as int));
    }
    from_chars(&v)
}

/// Neutral blue, never purple.
pub fn fallback_accent() -> (s: String)
    ensures
        s@ == rgb_spec(53, 132, 228),
        s@ == "#3584e4"@,
{
    proof {
        lemma_fallback_accent_text();
    }
    rgb(53, 132, 228)
}

/// The fallback accent is GNOME's blue, `#3584e4`.
pub proof fn lemma_fallback_accent_text()
    ensures
        rgb_spec(53, 132, 228) == "#3584e4"@,
{
    reveal_strlit("#3584e4");
    assert(hex2(53) =~= seq!['3', '5']);
    assert(hex2(132) =~= seq!['8', '4']);
    assert(hex2(228) =~= seq!['e', '4']);
    assert(rgb_spec(53, 132, 228) =~= "#3584e4"@);
}

/// The numbers of a comma-separated tuple, when every piece is an `i64`.
pub open spec fn tuple_numbers(pieces: Seq<Seq<char>>) -> Option<Seq<int>>
    decreases pieces.len(),
{
    if pieces.len() == 0 {
        Some(seq![])
    } else {
        match (
            tuple_numbers(pieces.drop_last()),
            parse_signed_spec(trim(pieces.last()), i64::MIN as int, i64::MAX as int),
        ) {
            (Some(ns), Some(n)) => Some(ns.push(n)),
            _ => None,
        }
    }
}

/// `34,209,238` -> `#22d1ee`: at least three numbers, all within 0..=255.
pub open spec fn rgb_tuple_spec(s: Seq<char>) -> Option<Seq<char>> {
    match tuple_numbers(split_at_char(s, ',')) {
        Some(ns) => if ns.len() >= 3 && (forall|i: int| 0 <= i < ns.len() ==> 0 <= #[trigger] ns[i] <= 255) {
            Some(rgb_spec(ns[0], ns[1], ns[2]))
        } else {
            None
        },
        None => None,
    }
}

pub fn rgb_tuple_to_hex(s: &str) -> (r: Option<String>)
    ensures
        opt_chars(r) == rgb_tuple_spec(s@),
{
    let pieces = split_char(&to_chars(s), ',');
    let ghost ps = split_at_char(s@, ',');
    let mut nums: Vec<i64> = Vec::new();
    let mut i: usize = 0;
    proof {
        assert(ps.take(0) =~= seq![]);
    }
    while i < pieces.len()
        invariant
            i <= pieces@.len(),
            pieces@.len() == ps.len(),
            ps == split_at_char(s@, ','),
            forall|k: int| 0 <= k < pieces@.len() ==> #[trigger] pieces@[k]@ == ps[k],
            tuple_numbers(ps.take(i as int)) == Some(nums@.map_values(|n: i64| n as int)),
        decreases pieces.len() - i,
    {
        proof {
            assert(ps.take(i + 1).drop_last() =~= ps.take(i as int));
            assert(ps.take(i + 1).last() == pieces@[i as int]@);
        }
        match parse_i64(&trim_chars(&pieces[i])) {
            Some(n) => {
                let ghost before = nums@;
                nums.push(n);
                proof {
                    assert(nums@.map_values(|n: i64| n as int) =~= before.map_values(|n: i64| n as int).push(
                        n as int,
                    ));
                }
            },
            None => {
                proof {
                    lemma_tuple_numbers_none(ps, i as int);
                }
                return None;
            },
        }
        i = i + 1;
    }
    proof {
        assert(ps.take(pieces@.len() as int) =~= ps);
    }
    let ghost ns = nums@.map_values(|n: i64| n as int);
    if nums.len() < 3 {
        return None;
    }
    let mut j: usize = 0;
    while j < nums.len()
        invariant
            j <= nums@.len(),
            ns == nums@.map_values(|n: i64| n as int),
            tuple_numbers(split_at_char(s@, ',')) == Some(ns),
            ns.len() >= 3,
            forall|k: int| 0 <= k < j ==> 0 <= #[trigger] ns[k] <= 255,
        decreases nums.len() - j,
    {
        if nums[j] < 0 || nums[j] > 255 {
            proof {
                assert(!(0 <= ns[j as int] <= 255));
            }
            return None;
        }
        j = j + 1;
    }
    proof {
        assert(0 <= ns[0] <= 255 && 0 <= ns[1] <= 255 && 0 <= ns[2] <= 255);
    }
    Some(rgb(nums[0] as u8, nums[1] as u8, nums[2] as u8))
}

/// Once a piece fails to parse, the whole tuple does.
proof fn lemma_tuple_numbers_none(ps: Seq<Seq<char>>, i: int)
    requires
        0 <= i < ps.len(),
        parse_signed_spec(trim(ps[i]), i64::MIN as int, i64::MAX as int) is None,
    ensures
        tuple_numbers(ps) is None,
    decreases ps.len(),
{
    if i < ps.len() - 1 {
        assert(ps.drop_last()[i] == ps[i]);
        lemma_tuple_numbers_none(ps.drop_last(), i);
    }
}

// ---------------------------------------------------------------------------
// INI files (`kdeglobals`).
// ---------------------------------------------------------------------------

/// (section, key, value) entries of an INI text, in order; `[Section]`
/// lines switch the section, `key=value` lines add an entry (key trimmed,
/// value unquoted), other lines are skipped.
pub open spec fn ini_state(ls: Seq<Seq<char>>) -> (Seq<(Seq<char>, Seq<char>, Seq<char>)>, Seq<char>)
    decreases ls.len(),
{
    if ls.len() == 0 {
        (seq![], seq![])
    } else {
        let (es, sec) = ini_state(ls.drop_last());
        let l = trim(ls.last());
        let header = l.len() > 0 && l[0] == '[' && l.last() == ']';
        if l.len() == 0 || header {
            if header {
                (es, l.subrange(1, l.len() - 1))
            } else {
                (es, sec)
            }
        } else {
            match crate::text::first_index_of(l, '=') {
                Some(k) => (es.push((sec, trim(l.take(k)), unquote_spec(l.skip(k + 1)))), sec),
                None => (es, sec),
            }
        }
    }
}

pub open spec fn ini_entries(text: Seq<char>) -> Seq<(Seq<char>, Seq<char>, Seq<char>)> {
    ini_state(lines(text)).0
}

pub open spec fn triple_views(v: Seq<(String, String, String)>) -> Seq<(Seq<char>, Seq<char>, Seq<char>)> {
    v.map_values(|t: (String, String, String)| (t.0@, t.1@, t.2@))
}

/// Parse an INI text.
pub fn parse_ini(text: &str) -> (r: Vec<(String, String, String)>)
    ensures
        triple_views(r@) == ini_entries(text@),
{
    let v = to_chars(text);
    let ls = split_lines(&v);
    let ghost all = lines(text@);
    let mut out: Vec<(String, String, String)> = Vec::new();
    let mut section: Vec<char> = Vec::new();
    let mut i: usize = 0;
    proof {
        assert(all.take(0) =~= seq![]);
        assert(triple_views(out@) =~= seq![]);
    }
    while i < ls.len()
        invariant
            i <= ls@.len(),
            ls@.len() == all.len(),
            all == lines(text@),
            forall|j: int| 0 <= j < ls@.len() ==> #[trigger] ls@[j]@ == all[j],
            ini_state(all.take(i as int)) == (triple_views(out@), section@),
        decreases ls.len() - i,
    {
        proof {
            assert(all.take(i + 1).drop_last() =~= all.take(i as int));
            assert(all.take(i + 1).last() == ls@[i as int]@);
        }
        let l = trim_chars(&ls[i]);
        let header = l.len() > 0 && l[0] == '[' && l[l.len() - 1] == ']';
        if l.len() == 0 || header {
            if header {
                section = crate::text::slice_chars(&l, 1, l.len() - 1);
            }
        } else {
            match crate::text::find_char(&l, '=') {
                Some(k) => {
                    let key = trim_chars(&crate::text::slice_chars(&l, 0, k));
                    let raw = from_chars(&crate::text::slice_chars(&l, k + 1, l.len()));
                    let value = unquote(raw.as_str());
                    let ghost before = out@;
                    out.push((from_chars(&section), from_chars(&key), value));
                    proof {
                        assert(l@.take(k as int) =~= l@.subrange(0, k as int));
                        assert(l@.skip(k + 1) =~= l@.subrange(k + 1, l@.len() as int));
                        assert(triple_views(out@) =~= triple_views(before).push(
                            (section@, trim(l@.take(k as int)), unquote_spec(l@.skip(k + 1))),
                        ));
                    }
                },
                None => {},
            }
        }
        i = i + 1;
    }
    proof {
        assert(all.take(ls@.len() as int) =~= all);
    }
    out
}

/// The value of the last entry with this section and key.
pub open spec fn ini_lookup(es: Seq<(Seq<char>, Seq<char>, Seq<char>)>, section: Seq<char>, key: Seq<char>) -> Option<Seq<char>>
    decreases es.len(),
{
    if es.len() == 0 {
        None
    } else if es.last().0 == section && es.last().1 == key {
        Some(es.last().2)
    } else {
        ini_lookup(es.drop_last(), section, key)
    }
}

pub fn ini_get(entries: &Vec<(String, String, String)>, section: &str, key: &str) -> (r: Option<String>)
    ensures
        opt_chars(r) == ini_lookup(triple_views(entries@), section@, key@),
{
    let ghost es = triple_views(entries@);
    let mut i: usize = entries.len();
    proof {
        assert(es.take(es.len() as int) =~= es);
    }
    while i > 0
        invariant
            i <= entries@.len(),
            es == triple_views(entries@),
            ini_lookup(es, section@, key@) == ini_lookup(es.take(i as int), section@, key@),
        decreases i,
    {
        let e = &entries[i - 1];
        proof {
            assert(es.take(i as int).last() == (e.0@, e.1@, e.2@));
            assert(es.take(i as int).drop_last() =~= es.take(i - 1));
        }
        if str_eq_chars(e.0.as_str(), section) && str_eq_chars(e.1.as_str(), key) {
            return Some(e.2.clone());
        }
        i = i - 1;
    }
    None
}

fn str_eq_chars(a: &str, b: &str) -> (r: bool)
    ensures
        r == (a@ == b@),
{
    chars_eq(&to_chars(a), &to_chars(b))
}

/// A KDE colour: the entry's value read as an RGB tuple.
pub open spec fn kde_color(es: Seq<(Seq<char>, Seq<char>, Seq<char>)>, section: Seq<char>, key: Seq<char>) -> Option<Seq<char>> {
    match ini_lookup(es, section, key) {
        Some(v) => rgb_tuple_spec(v),
        None => None,
    }
}

fn kde_color_of(entries: &Vec<(String, String, String)>, section: &str, key: &str) -> (r: Option<String>)
    ensures
        opt_chars(r) == kde_color(triple_views(entries@), section@, key@),
{
    match ini_get(entries, section, key) {
        Some(v) => rgb_tuple_to_hex(v.as_str()),
        None => None,
    }
}

pub open spec fn or_default(o: Option<Seq<char>>, d: Seq<char>) -> Seq<char> {
    match o {
        Some(v) => v,
        None => d,
    }
}

fn string_or(o: Option<String>, d: &str) -> (r: String)
    ensures
        r@ == or_default(opt_chars(o), d@),
{
    match o {
        Some(v) => v,
        None => d.to_owned(),
    }
}

/// The colours of `kdeglobals`: window and button backgrounds are needed;
/// the rest fall back to neighbouring colours or fixed greys.
pub open spec fn kde_colors_spec(es: Seq<(Seq<char>, Seq<char>, Seq<char>)>, r: Option<ThemeColors>) -> bool {
    let bg = kde_color(es, "Colors:Window"@, "BackgroundNormal"@);
    let surface = kde_color(es, "Colors:Button"@, "BackgroundNormal"@);
    match (bg, surface) {
        (Some(b), Some(s)) => {
            let muted = or_default(kde_color(es, "Colors:Window"@, "ForegroundInactive"@), "#888888"@);
            r matches Some(c) && {
                &&& c.bg@ == b
                &&& c.sidebar@ == or_default(kde_color(es, "Colors:View"@, "BackgroundNormal"@), b)
                &&& c.surface@ == s
                &&& c.surface_hover@ == s
                &&& c.text@ == or_default(kde_color(es, "Colors:Window"@, "ForegroundNormal"@), "#ffffff"@)
                &&& c.muted@ == muted
                &&& c.muted2@ == muted
                &&& c.border@ == or_default(kde_color(es, "Colors:View"@, "BackgroundAlternate"@), s)
                &&& c.accent@ == or_default(kde_color(es, "Colors:Selection"@, "BackgroundNormal"@), seq![])
            }
        },
        _ => r is None,
    }
}

/// The theme colours `kdeglobals` describes.
pub fn kde_colors(entries: &Vec<(String, String, String)>) -> (r: Option<ThemeColors>)
    ensures
        kde_colors_spec(triple_views(entries@), r),
{
    let bg = match kde_color_of(entries, "Colors:Window", "BackgroundNormal") {
        Some(b) => b,
        None => return None,
    };
    let surface = match kde_color_of(entries, "Colors:Button", "BackgroundNormal") {
        Some(s) => s,
        None => return None,
    };
    let text = string_or(kde_color_of(entries, "Colors:Window", "ForegroundNormal"), "#ffffff");
    let muted = string_or(kde_color_of(entries, "Colors:Window", "ForegroundInactive"), "#888888");
    let sidebar = string_or(kde_color_of(entries, "Colors:View", "BackgroundNormal"), bg.as_str());
    let border = string_or(kde_color_of(entries, "Colors:View", "BackgroundAlternate"), surface.as_str());
    let accent = string_or(kde_color_of(entries, "Colors:Selection", "BackgroundNormal"), "");
    proof {
        assert(""@ =~= seq![]) by {
            reveal_strlit("");
        }
    }
    Some(
        ThemeColors {
            bg,
            sidebar,
            surface: surface.clone(),
            surface_hover: surface,
            text,
            muted: muted.clone(),
            muted2: muted,
            border,
            accent,
        },
    )
}

// ---------------------------------------------------------------------------
// Accents.
// ---------------------------------------------------------------------------

/// The GTK accent presets and their colours.
pub open spec fn gtk_preset(name: Seq<char>) -> Option<(int, int, int)> {
    if name == "blue"@ {
        Some((53, 132, 228))
    } else if name == "teal"@ {
        Some((25, 162, 155))
    } else if name == "green"@ {
        Some((51, 171, 80))
    } else if name == "yellow"@ {
        Some((242, 185, 53))
    } else if name == "orange"@ {
        Some((245, 135, 31))
    } else if name == "red"@ {
        Some((207, 73, 73))
    } else if name == "purple"@ {
        Some((130, 90, 209))
    } else if name == "pink"@ {
        Some((222, 82, 150))
    } else if name == "slate"@ {
        Some((120, 120, 130))
    } else {
        None
    }
}

fn gtk_preset_color(name: &str) -> (r: Option<String>)
    ensures
        opt_chars(r) == (match gtk_preset(name@) {
            Some((a, b, c)) => Some(rgb_spec(a, b, c)),
            None => None,
        }),
{
    if str_eq_chars(name, "blue") {
        Some(rgb(53, 132, 228))
    } else if str_eq_chars(name, "teal") {
        Some(rgb(25, 162, 155))
    } else if str_eq_chars(name, "green") {
        Some(rgb(51, 171, 80))
    } else if str_eq_chars(name, "yellow") {
        Some(rgb(242, 185, 53))
    } else if str_eq_chars(name, "orange") {
        Some(rgb(245, 135, 31))
    } else if str_eq_chars(name, "red") {
        Some(rgb(207, 73, 73))
    } else if str_eq_chars(name, "purple") {
        Some(rgb(130, 90, 209))
    } else if str_eq_chars(name, "pink") {
        Some(rgb(222, 82, 150))
    } else if str_eq_chars(name, "slate") {
        Some(rgb(120, 120, 130))
    } else {
        None
    }
}

pub open spec fn is_hex_digit(c: char) -> bool {
    ('0' <= c && c <= '9') || ('a' <= c && c <= 'f') || ('A' <= c && c <= 'F')
}

pub open spec fn strip_hashes(s: Seq<char>) -> Seq<char>
    decreases s.len(),
{
    if s.len() > 0 && s[0] == '#' {
        strip_hashes(s.drop_first())
    } else {
        s
    }
}

/// A gsettings accent: a preset name, or six hex digits (with or without
/// `#`), normalized to lowercase `#rrggbb`.
pub open spec fn preset_or_hex_spec(val: Seq<char>) -> Option<Seq<char>> {
    match gtk_preset(val) {
        Some((a, b, c)) => Some(rgb_spec(a, b, c)),
        None => {
            let hex = strip_hashes(val);
            if hex.len() == 6 && (forall|i: int| 0 <= i < 6 ==> is_hex_digit(#[trigger] hex[i])) {
                Some(seq!['#'] + ascii_lower_seq(hex))
            } else {
                None
            }
        },
    }
}

fn strip_hash_chars(v: &Vec<char>) -> (r: Vec<char>)
    ensures
        r@ == strip_hashes(v@),
{
    let mut i: usize = 0;
    proof {
        assert(v@.skip(0) =~= v@);
    }
    while i < v.len() && v[i] == '#'
        invariant
            i <= v@.len(),
            strip_hashes(v@) == strip_hashes(v@.skip(i as int)),
        decreases v.len() - i,
    {
        assert(v@.skip(i as int).drop_first() =~= v@.skip(i + 1));
        i = i + 1;
    }
    crate::text::slice_chars(v, i, v.len())
}

fn all_hex(v: &Vec<char>) -> (r: bool)
    ensures
        r == (forall|i: int| 0 <= i < v@.len() ==> is_hex_digit(#[trigger] v@[i])),
{
    let mut i: usize = 0;
    while i < v.len()
        invariant
            i <= v@.len(),
            forall|j: int| 0 <= j < i ==> is_hex_digit(#[trigger] v@[j]),
        decreases v.len() - i,
    {
        let c = v[i];
        if !(('0' <= c && c <= '9') || ('a' <= c && c <= 'f') || ('A' <= c && c <= 'F')) {
            return false;
        }
        i = i + 1;
    }
    true
}

/// The accent of a gsettings key (`val`: its value, when it could be read).
pub fn gsetting_preset_or_hex(val: Option<&str>) -> (r: Option<String>)
    ensures
        opt_chars(r) == (match val {
            Some(v) => preset_or_hex_spec(v@),
            None => None,
        }),
{
    let v = match val {
        Some(v) => v,
        None => return None,
    };
    match gtk_preset_color(v) {
        Some(c) => return Some(c),
        None => {},
    }
    let hex = strip_hash_chars(&to_chars(v));
    if hex.len() == 6 && all_hex(&hex) {
        let mut out: Vec<char> = Vec::new();
        out.push('#');
        let low = lower_ascii_chars(&hex);
        crate::text::extend_chars(&mut out, &low);
        proof {
            assert(out@ =~= seq!['#'] + ascii_lower_seq(hex@));
        }
        Some(from_chars(&out))
    } else {
        None
    }
}

/// The value `gsettings get` printed, unquoted.
pub fn gsettings_value(output: Option<&str>) -> (r: Option<String>)
    ensures
        opt_chars(r) == (match output {
            Some(o) => Some(unquote_spec(o@)),
            None => None,
        }),
{
    match output {
        Some(o) => Some(unquote(o)),
        None => None,
    }
}

/// The accent `kreadconfig` printed (an RGB tuple).
pub fn kde_accent(output: Option<&str>) -> (r: Option<String>)
    ensures
        opt_chars(r) == (match output {
            Some(o) => rgb_tuple_spec(unquote_spec(o@)),
            None => None,
        }),
{
    match output {
        Some(o) => rgb_tuple_to_hex(unquote(o).as_str()),
        None => None,
    }
}

/// The accent in effect: the first source that had one, else the neutral
/// fallback.
pub fn get_accent(found: Option<String>) -> (r: String)
    ensures
        r@ == (match found {
            Some(a) => a@,
            None => "#3584e4"@,
        }),
        (match found {
            Some(a) => a@.len() > 0,
            None => true,
        }) ==> r@.len() > 0,
{
    proof {
        reveal_strlit("#3584e4");
    }
    match found {
        Some(a) => a,
        None => fallback_accent(),
    }
}

/// The colours of the dark default theme, all but the accent.
pub open spec fn default_palette(c: ThemeColors) -> bool {
    &&& c.bg@ == "#1e1e1e"@
    &&& c.sidebar@ == "#252526"@
    &&& c.surface@ == "#2d2d30"@
    &&& c.surface_hover@ == "#3e3e42"@
    &&& c.text@ == "#d4d4d4"@
    &&& c.muted@ == "#808080"@
    &&& c.muted2@ == "#555555"@
    &&& c.border@ == "#404040"@
}

/// The colours of the dark theme an XDG portal's dark scheme gives.
pub open spec fn portal_palette(c: ThemeColors) -> bool {
    &&& c.bg@ == "#1e1e1e"@
    &&& c.sidebar@ == "#1a1a1a"@
    &&& c.surface@ == "#252526"@
    &&& c.surface_hover@ == "#333333"@
    &&& c.text@ == "#ffffff"@
    &&& c.muted@ == "#888888"@
    &&& c.muted2@ == "#555555"@
    &&& c.border@ == "#333333"@
    &&& c.accent@ == "#8b5cf6"@
}

/// The theme when no backend described one: a dark neutral palette.
pub fn default_theme() -> (t: NativeTheme)
    ensures
        t.dark,
        default_palette(t.colors),
        t.colors.accent@ == rgb_spec(53, 132, 228),
{
    NativeTheme {
        colors: ThemeColors {
            bg: "#1e1e1e".to_owned(),
            sidebar: "#252526".to_owned(),
            surface: "#2d2d30".to_owned(),
            surface_hover: "#3e3e42".to_owned(),
            text: "#d4d4d4".to_owned(),
            muted: "#808080".to_owned(),
            muted2: "#555555".to_owned(),
            border: "#404040".to_owned(),
            accent: fallback_accent(),
        },
        dark: true,
    }
}

/// The dark theme for an XDG portal that reports the dark colour scheme
/// (its reply contains `1`).
pub fn portal_theme(reply: &str) -> (r: Option<NativeTheme>)
    ensures
        r is Some == trim(reply@).contains('1'),
        r matches Some(t) ==> t.dark && portal_palette(t.colors),
{
    let t = trim_chars(&to_chars(reply));
    if crate::text::find_char(&t, '1').is_some() {
        Some(
            NativeTheme {
                colors: ThemeColors {
                    bg: "#1e1e1e".to_owned(),
                    sidebar: "#1a1a1a".to_owned(),
                    surface: "#252526".to_owned(),
                    surface_hover: "#333333".to_owned(),
                    text: "#ffffff".to_owned(),
                    muted: "#888888".to_owned(),
                    muted2: "#555555".to_owned(),
                    border: "#333333".to_owned(),
                    accent: "#8b5cf6".to_owned(),
                },
                dark: true,
            },
        )
    } else {
        proof {
            assert(!t@.contains('1'));
        }
        None
    }
}

// ---------------------------------------------------------------------------
// GTK (gsettings) and bare WMs (.Xresources, Hyprland).
// ---------------------------------------------------------------------------

/// `str::to_lowercase`: the Unicode lowercase mapping of a string.
pub uninterp spec fn str_lower(s: Seq<char>) -> Seq<char>;

pub open spec fn all_ascii(s: Seq<char>) -> bool {
    forall|i: int| 0 <= i < s.len() ==> (#[trigger] s[i] as u32) < 128
}

/// Calls `str::to_lowercase`.  Claimed: the result is `str_lower(s)`, and
/// for an ASCII string it is the ASCII lowercase of `s`.  Not claimed:
/// anything about non-ASCII text beyond the name.
#[verifier::external_body]
fn lowercase(s: &str) -> (r: String)
    ensures
        r@ == str_lower(s@),
        all_ascii(s@) ==> r@ == ascii_lower_seq(s@),
{
    s.to_lowercase()
}

/// The known GTK palettes, in matching order: the needle looked for in the
/// lowercased theme name, the colours (bg, sidebar, surface, hover, text,
/// muted, border, accent), and whether the background is dark.
pub open spec fn gtk_palette(i: int) -> (Seq<char>, Seq<Seq<char>>, bool) {
    if i == 0 {
        ("adwaita-dark"@, seq!["#242424"@, "#1e1e1e"@, "#303030"@, "#3c3c3c"@, "#ffffff"@, "#9a9996"@, "#1e1e1e"@, "#3584e4"@], true)
    } else if i == 1 {
        ("adwaita"@, seq!["#fafafa"@, "#f0f0f0"@, "#ffffff"@, "#f5f5f5"@, "#000000"@, "#77767b"@, "#e6e6e6"@, "#3584e4"@], false)
    } else if i == 2 {
        ("yaru-dark"@, seq!["#1e1e1e"@, "#111111"@, "#2d2d2d"@, "#3d3d3d"@, "#f7f7f7"@, "#b3b3b3"@, "#1e1e1e"@, "#e95420"@], true)
    } else if i == 3 {
        ("mint-y-dark"@, seq!["#2f3032"@, "#2a2b2d"@, "#383a3c"@, "#424446"@, "#dfdfdf"@, "#a0a0a0"@, "#252627"@, "#62a05f"@], true)
    } else {
        ("pop-dark"@, seq!["#333132"@, "#292728"@, "#413e3f"@, "#4d4a4b"@, "#f2f2f2"@, "#b0afb0"@, "#292728"@, "#f6d32d"@], true)
    }
}

/// A theme carries palette `i`'s colours with the given darkness.
pub open spec fn is_palette_theme(t: NativeTheme, i: int, dark: bool) -> bool {
    let p = gtk_palette(i).1;
    &&& t.colors.bg@ == p[0]
    &&& t.colors.sidebar@ == p[1]
    &&& t.colors.surface@ == p[2]
    &&& t.colors.surface_hover@ == p[3]
    &&& t.colors.text@ == p[4]
    &&& t.colors.muted@ == p[5]
    &&& t.colors.muted2@ == p[5]
    &&& t.colors.border@ == p[6]
    &&& t.colors.accent@ == p[7]
    &&& t.dark == dark
}

fn colors_of(bg: &str, sidebar: &str, surface: &str, hover: &str, text: &str, muted: &str, border: &str, accent: &str) -> (c: ThemeColors)
    ensures
        c.bg@ == bg@,
        c.sidebar@ == sidebar@,
        c.surface@ == surface@,
        c.surface_hover@ == hover@,
        c.text@ == text@,
        c.muted@ == muted@,
        c.muted2@ == muted@,
        c.border@ == border@,
        c.accent@ == accent@,
{
    ThemeColors {
        bg: bg.to_owned(),
        sidebar: sidebar.to_owned(),
        surface: surface.to_owned(),
        surface_hover: hover.to_owned(),
        text: text.to_owned(),
        muted: muted.to_owned(),
        muted2: muted.to_owned(),
        border: border.to_owned(),
        accent: accent.to_owned(),
    }
}

fn palette_theme(i: usize, dark: bool) -> (t: NativeTheme)
    requires
        i < 5,
    ensures
        is_palette_theme(t, i as int, dark),
{
    let colors = if i == 0 {
        colors_of("#242424", "#1e1e1e", "#303030", "#3c3c3c", "#ffffff", "#9a9996", "#1e1e1e", "#3584e4")
    } else if i == 1 {
        colors_of("#fafafa", "#f0f0f0", "#ffffff", "#f5f5f5", "#000000", "#77767b", "#e6e6e6", "#3584e4")
    } else if i == 2 {
        colors_of("#1e1e1e", "#111111", "#2d2d2d", "#3d3d3d", "#f7f7f7", "#b3b3b3", "#1e1e1e", "#e95420")
    } else if i == 3 {
        colors_of("#2f3032", "#2a2b2d", "#383a3c", "#424446", "#dfdfdf", "#a0a0a0", "#252627", "#62a05f")
    } else {
        colors_of("#333132", "#292728", "#413e3f", "#4d4a4b", "#f2f2f2", "#b0afb0", "#292728", "#f6d32d")
    };
    NativeTheme { colors, dark }
}

fn palette_needle(i: usize) -> (n: &'static str)
    requires
        i < 5,
    ensures
        n@ == gtk_palette(i as int).0,
{
    if i == 0 {
        "adwaita-dark"
    } else if i == 1 {
        "adwaita"
    } else if i == 2 {
        "yaru-dark"
    } else if i == 3 {
        "mint-y-dark"
    } else {
        "pop-dark"
    }
}

/// The first palette from `k` on whose needle the lowercased theme name
/// contains.
pub open spec fn palette_match_from(theme_l: Seq<char>, k: int) -> Option<int>
    decreases 5 - k,
{
    if k < 0 || k >= 5 {
        None
    } else if crate::text::contains_seq(theme_l, gtk_palette(k).0) {
        Some(k)
    } else {
        palette_match_from(theme_l, k + 1)
    }
}

/// The GTK theme for a gsettings `gtk-theme` value and `color-scheme`
/// value: a known palette by name, else Adwaita dark or light.
pub open spec fn gtk_theme_spec(theme: Option<Seq<char>>, scheme: Option<Seq<char>>, r: Option<NativeTheme>) -> bool {
    let theme_l = str_lower(or_default(theme, seq![]));
    match palette_match_from(theme_l, 0) {
        Some(i) => r matches Some(t) && is_palette_theme(t, i, gtk_palette(i).2),
        None => {
            let dark = scheme == Some("prefer-dark"@) || crate::text::contains_seq(theme_l, "dark"@);
            if dark {
                r matches Some(t) && is_palette_theme(t, 0, true)
            } else if theme_l.len() > 0 {
                r matches Some(t) && is_palette_theme(t, 1, false)
            } else {
                r is None
            }
        },
    }
}

pub fn gtk_theme(theme: Option<&str>, scheme: Option<&str>) -> (r: Option<NativeTheme>)
    ensures
        gtk_theme_spec(crate::setup::opt_view(theme), crate::setup::opt_view(scheme), r),
{
    let name = match theme {
        Some(t) => t,
        None => "",
    };
    proof {
        assert(""@ =~= seq![]) by {
            reveal_strlit("");
        }
        assert(name@ == or_default(crate::setup::opt_view(theme), seq![]));
    }
    let theme_l = lowercase(name);
    let tl = to_chars(theme_l.as_str());
    let mut i: usize = 0;
    while i < 5
        invariant
            i <= 5,
            tl@ == str_lower(or_default(crate::setup::opt_view(theme), seq![])),
            palette_match_from(tl@, 0) == palette_match_from(tl@, i as int),
        decreases 5 - i,
    {
        if contains_chars(&tl, &to_chars(palette_needle(i))) {
            let dark = i != 1;
            return Some(palette_theme(i, dark));
        }
        i = i + 1;
    }
    let prefers_dark = match scheme {
        Some(s) => str_eq_chars(s, "prefer-dark"),
        None => false,
    };
    let dark = prefers_dark || contains_chars(&tl, &to_chars("dark"));
    if dark {
        Some(palette_theme(0, true))
    } else if tl.len() > 0 {
        Some(palette_theme(1, false))
    } else {
        None
    }
}

/// `.Xresources` colours: the first `background`, `foreground`, `color8`
/// and `color4` values (keys compared lowercased, `!` lines are comments).
pub open spec fn xres_state(ls: Seq<Seq<char>>) -> (Option<Seq<char>>, Option<Seq<char>>, Option<Seq<char>>, Option<Seq<char>>)
    decreases ls.len(),
{
    if ls.len() == 0 {
        (None, None, None, None)
    } else {
        let (bg, fg, muted, accent) = xres_state(ls.drop_last());
        let l = trim(ls.last());
        if l.len() == 0 || l[0] == '!' {
            (bg, fg, muted, accent)
        } else {
            match crate::text::first_index_of(l, ':') {
                None => (bg, fg, muted, accent),
                Some(k) => {
                    let key = str_lower(trim(l.take(k)));
                    let val = trim(l.skip(k + 1));
                    if key == "background"@ {
                        (if bg is Some { bg } else { Some(val) }, fg, muted, accent)
                    } else if key == "foreground"@ {
                        (bg, if fg is Some { fg } else { Some(val) }, muted, accent)
                    } else if key == "color8"@ || key == "color 8"@ {
                        (bg, fg, if muted is Some { muted } else { Some(val) }, accent)
                    } else if key == "color4"@ || key == "color 4"@ {
                        (bg, fg, muted, if accent is Some { accent } else { Some(val) })
                    } else {
                        (bg, fg, muted, accent)
                    }
                },
            }
        }
    }
}

pub open spec fn xres_colors_spec(text: Seq<char>, r: Option<ThemeColors>) -> bool {
    let (bg, fg, muted, accent) = xres_state(lines(text));
    match (bg, fg) {
        (Some(b), Some(f)) => r matches Some(c) && {
            let m = or_default(muted, "#444444"@);
            &&& c.bg@ == b
            &&& c.sidebar@ == b
            &&& c.surface@ == b
            &&& c.surface_hover@ == b
            &&& c.text@ == f
            &&& c.muted@ == m
            &&& c.muted2@ == m
            &&& c.border@ == m
            &&& c.accent@ == or_default(accent, "#8b5cf6"@)
        },
        _ => r is None,
    }
}

fn first_wins(slot: &mut Option<Vec<char>>, val: &Vec<char>)
    ensures
        crate::apps::opt_vec(*final(slot)) == (if *old(slot) is Some {
            crate::apps::opt_vec(*old(slot))
        } else {
            Some(val@)
        }),
{
    if slot.is_none() {
        *slot = Some(crate::text::slice_chars(val, 0, val.len()));
        proof {
            assert(crate::apps::opt_vec(*slot) == Some(val@));
        }
    }
}

/// The colours of an `.Xresources` text (its darkness is the caller's).
pub fn xresources_colors(text: &str) -> (r: Option<ThemeColors>)
    ensures
        xres_colors_spec(text@, r),
{
    let v = to_chars(text);
    let ls = split_lines(&v);
    let ghost all = lines(text@);
    let mut bg: Option<Vec<char>> = None;
    let mut fg: Option<Vec<char>> = None;
    let mut muted: Option<Vec<char>> = None;
    let mut accent: Option<Vec<char>> = None;
    let mut i: usize = 0;
    proof {
        assert(all.take(0) =~= seq![]);
    }
    while i < ls.len()
        invariant
            i <= ls@.len(),
            ls@.len() == all.len(),
            all == lines(text@),
            forall|j: int| 0 <= j < ls@.len() ==> #[trigger] ls@[j]@ == all[j],
            xres_state(all.take(i as int)) == (
                crate::apps::opt_vec(bg),
                crate::apps::opt_vec(fg),
                crate::apps::opt_vec(muted),
                crate::apps::opt_vec(accent),
            ),
        decreases ls.len() - i,
    {
        proof {
            assert(all.take(i + 1).drop_last() =~= all.take(i as int));
            assert(all.take(i + 1).last() == ls@[i as int]@);
        }
        let l = trim_chars(&ls[i]);
        if l.len() == 0 || l[0] == '!' {
        } else {
            match crate::text::find_char(&l, ':') {
                None => {},
                Some(k) => {
                    let key_raw = trim_chars(&crate::text::slice_chars(&l, 0, k));
                    let key = lowercase(from_chars(&key_raw).as_str());
                    let val = trim_chars(&crate::text::slice_chars(&l, k + 1, l.len()));
                    proof {
                        assert(l@.take(k as int) =~= l@.subrange(0, k as int));
                        assert(l@.skip(k + 1) =~= l@.subrange(k + 1, l@.len() as int));
                    }
                    let ks = key.as_str();
                    if str_eq_chars(ks, "background") {
                        first_wins(&mut bg, &val);
                    } else if str_eq_chars(ks, "foreground") {
                        first_wins(&mut fg, &val);
                    } else if str_eq_chars(ks, "color8") || str_eq_chars(ks, "color 8") {
                        first_wins(&mut muted, &val);
                    } else if str_eq_chars(ks, "color4") || str_eq_chars(ks, "color 4") {
                        first_wins(&mut accent, &val);
                    }
                },
            }
        }
        i = i + 1;
    }
    proof {
        assert(all.take(ls@.len() as int) =~= all);
    }
    match (bg, fg) {
        (Some(b), Some(f)) => {
            let m = match muted {
                Some(m) => from_chars(&m),
                None => "#444444".to_owned(),
            };
            let a = match accent {
                Some(a) => from_chars(&a),
                None => "#8b5cf6".to_owned(),
            };
            let bs = from_chars(&b);
            Some(
                ThemeColors {
                    bg: bs.clone(),
                    sidebar: bs.clone(),
                    surface: bs.clone(),
                    surface_hover: bs,
                    text: from_chars(&f),
                    muted: m.clone(),
                    muted2: m.clone(),
                    border: m,
                    accent: a,
                },
            )
        },
        _ => None,
    }
}

/// The first token of `ws` from `k` on that starts with `0x`, past the `0x`.
pub open spec fn first_0x(ws: Seq<Seq<char>>, k: int) -> Option<Seq<char>>
    decreases ws.len() - k,
{
    if k < 0 || k >= ws.len() {
        None
    } else if has_prefix(ws[k], "0x"@) {
        Some(ws[k].skip(2))
    } else {
        first_0x(ws, k + 1)
    }
}

/// The last six characters (all of a shorter text).
pub open spec fn last_six(s: Seq<char>) -> Seq<char> {
    if s.len() >= 6 {
        s.skip(s.len() - 6)
    } else {
        s
    }
}

/// Hyprland's active border colour (`0xAARRGGBB`-like) as `#rrggbb`:
/// trailing `ff` pairs dropped, the last six characters kept, all hex.
pub open spec fn hyprland_spec(out: Seq<char>) -> Option<Seq<char>> {
    match first_0x(words(out), 0) {
        None => None,
        Some(hex) => {
            let tail = last_six(trim_end_matches(hex, "ff"@));
            if tail.len() == 6 && (forall|i: int| 0 <= i < 6 ==> is_hex_digit(#[trigger] tail[i])) {
                Some(seq!['#'] + ascii_lower_seq(tail))
            } else {
                None
            }
        },
    }
}

/// The Hyprland accent from `hyprctl getoption decoration:col.active_border`
/// output, read character by character (hyprctl prints ASCII).
pub fn hyprland_accent(out: &str) -> (r: Option<String>)
    ensures
        opt_chars(r) == hyprland_spec(out@),
{
    let ws = split_whitespace(&to_chars(out));
    let ghost wsv = words(out@);
    let p = to_chars("0x");
    proof {
        reveal_strlit("0x");
    }
    let mut k: usize = 0;
    let mut hex: Option<Vec<char>> = None;
    while k < ws.len() && hex.is_none()
        invariant
            k <= ws@.len(),
            ws@.len() == wsv.len(),
            p@ == "0x"@,
            "0x"@.len() == 2,
            wsv == words(out@),
            forall|j: int| 0 <= j < ws@.len() ==> #[trigger] ws@[j]@ == wsv[j],
            hex is None ==> first_0x(wsv, 0) == first_0x(wsv, k as int),
            hex matches Some(h) ==> first_0x(wsv, 0) == Some(h@),
        decreases ws.len() - k + (if hex is None {
            1int
        } else {
            0int
        }),
    {
        if starts_with_chars(&ws[k], &p) {
            let h = crate::text::slice_chars(&ws[k], 2, ws[k].len());
            proof {
                assert(h@ =~= wsv[k as int].skip(2));
            }
            hex = Some(h);
        } else {
            k = k + 1;
        }
    }
    let hex = match hex {
        Some(h) => h,
        None => return None,
    };
    proof {
        assert(first_0x(words(out@), 0) == Some(hex@));
    }
    let ff = to_chars("ff");
    let clean = crate::text::trim_end_matches_chars(&hex, &ff);
    proof {
        assert(clean@ == trim_end_matches(hex@, "ff"@));
    }
    let tail = if clean.len() >= 6 {
        crate::text::slice_chars(&clean, clean.len() - 6, clean.len())
    } else {
        crate::text::slice_chars(&clean, 0, clean.len())
    };
    proof {
        if clean@.len() >= 6 {
            assert(tail@ =~= clean@.skip(clean@.len() - 6));
        } else {
            assert(tail@ =~= clean@);
        }
        assert(tail@ == last_six(trim_end_matches(hex@, "ff"@)));
    }
    if tail.len() == 6 && all_hex(&tail) {
        let mut o: Vec<char> = Vec::new();
        o.push('#');
        let low = lower_ascii_chars(&tail);
        crate::text::extend_chars(&mut o, &low);
        proof {
            assert(o@ =~= seq!['#'] + ascii_lower_seq(tail@));
        }
        Some(from_chars(&o))
    } else {
        None
    }
}

/// The theme in effect: the first backend's theme, or the dark default;
/// an empty accent is filled from the accent cascade (`accent`, which is
/// then non-empty, as the cascade always gives a colour).  The accent is
/// never empty.
pub fn get_native_theme(found: Option<NativeTheme>, accent: String) -> (t: NativeTheme)
    requires
        found matches Some(f) && f.colors.accent@.len() == 0 ==> accent@.len() > 0,
    ensures
        t.colors.accent@.len() > 0,
        match found {
            Some(f) => t.dark == f.dark && t.colors == (if f.colors.accent@.len() == 0 {
                ThemeColors { accent: accent, ..f.colors }
            } else {
                f.colors
            }),
            None => t.dark && default_palette(t.colors) && t.colors.accent@ == "#3584e4"@,
        },
{
    proof {
        lemma_fallback_accent_text();
        reveal_strlit("#3584e4");
    }
    let mut t = match found {
        Some(f) => f,
        None => default_theme(),
    };
    if t.colors.accent.as_str().unicode_len() == 0 {
        t.colors.accent = accent;
    }
    t
}

} // verus!
