//! The user's configuration file, in `key = value` lines, and the settings it
//! changes.

use vstd::prelude::*;

use crate::text::{
    append_chars, ascii_lower, chars_eq, chars_of, copy_range, has_prefix, lines, lower_ascii,
    split_lines, starts_with, string_of, trim, trim_char, trim_matching, trim_ws, views,
};

verus! {

broadcast use vstd::string::group_string_axioms;

// ---------------------------------------------------------------------------
// `key = value` lines
// ---------------------------------------------------------------------------

/// The part of `t` before the first `c` and the part after it, if `c` occurs.
pub open spec fn split_once_spec(t: Seq<char>, c: char) -> Option<(Seq<char>, Seq<char>)> {
    if exists|i: int| 0 <= i < t.len() && t[i] == c {
        let i = choose|i: int|
            0 <= i < t.len() && t[i] == c && forall|j: int| 0 <= j < i ==> t[j] != c;
        Some((t.take(i), t.skip(i + 1)))
    } else {
        None
    }
}

/// The entry a configuration line gives: none for a blank line or a comment
/// (`#` or `//`) or a line without `=`; otherwise the key, trimmed and in
/// ASCII lowercase, and the value, trimmed and stripped of surrounding
/// double quotes, then of single quotes.
pub open spec fn kv_entry(l: Seq<char>) -> Option<(Seq<char>, Seq<char>)> {
    let t = trim(l);
    if t.len() == 0 || t[0] == '#' || has_prefix(t, seq!['/', '/']) {
        None
    } else {
        match split_once_spec(t, '=') {
            Some((k, v)) => Some(
                (ascii_lower(trim(k)), trim_char(trim_char(trim(v), '"'), '\'')),
            ),
            None => None,
        }
    }
}

/// The map the lines give, a later line overriding an earlier one for the
/// same key.
pub open spec fn kv_map(ls: Seq<Seq<char>>) -> Map<Seq<char>, Seq<char>>
    decreases ls.len(),
{
    if ls.len() == 0 {
        Map::empty()
    } else {
        match kv_entry(ls.last()) {
            Some((k, v)) => kv_map(ls.drop_last()).insert(k, v),
            None => kv_map(ls.drop_last()),
        }
    }
}

/// The keys and values of a configuration text.
pub struct KvMap {
    keys: Vec<String>,
    vals: Vec<String>,
}

impl KvMap {
    pub closed spec fn wf(self) -> bool {
        &&& self.keys@.len() == self.vals@.len()
        &&& forall|i: int, j: int|
            0 <= i < self.keys@.len() && 0 <= j < self.keys@.len() && i != j ==> self.keys@[i]@
                != self.keys@[j]@
    }

    /// The map from keys to values.
    pub closed spec fn view(self) -> Map<Seq<char>, Seq<char>> {
        Map::new(
            |k: Seq<char>| exists|i: int| 0 <= i < self.keys@.len() && self.keys@[i]@ == k,
            |k: Seq<char>|
                self.vals@[choose|i: int| 0 <= i < self.keys@.len() && self.keys@[i]@ == k]@,
        )
    }

    pub fn new() -> (m: KvMap)
        ensures
            m.wf(),
            m.view() == Map::<Seq<char>, Seq<char>>::empty(),
    {
        let m = KvMap { keys: Vec::new(), vals: Vec::new() };
        assert(m.view() =~= Map::<Seq<char>, Seq<char>>::empty());
        m
    }

    fn index_of(&self, key: &[char]) -> (r: Option<usize>)
        requires
            self.wf(),
        ensures
            r matches Some(i) ==> i < self.keys@.len() && self.keys@[i as int]@ == key@,
            r is None ==> forall|i: int| 0 <= i < self.keys@.len() ==> self.keys@[i]@ != key@,
    {
        let mut i: usize = 0;
        while i < self.keys.len()
            invariant
                i <= self.keys@.len(),
                forall|j: int| 0 <= j < i ==> self.keys@[j]@ != key@,
            decreases self.keys@.len() - i,
        {
            let k = chars_of(self.keys[i].as_str());
            if chars_eq(k.as_slice(), key) {
                return Some(i);
            }
            i = i + 1;
        }
        None
    }

    /// Sets `key` to `val`, replacing an earlier value.
    pub fn insert(&mut self, key: &[char], val: &[char])
        requires
            old(self).wf(),
        ensures
            final(self).wf(),
            final(self).view() == old(self).view().insert(key@, val@),
    {
        let ghost before = self.view();
        match self.index_of(key) {
            Some(i) => {
                self.vals.set(i, string_of(val));
                proof {
                    assert forall|k: Seq<char>| #[trigger] self.view().contains_key(k)
                        <==> before.insert(key@, val@).contains_key(k) by {
                        if before.contains_key(k) {
                            let j = choose|j: int| 0 <= j < self.keys@.len() && self.keys@[j]@ == k;
                        }
                    }
                    assert forall|k: Seq<char>| self.view().contains_key(k) implies #[trigger] self.view()[k]
                        == before.insert(key@, val@)[k] by {
                        let j = choose|j: int| 0 <= j < self.keys@.len() && self.keys@[j]@ == k;
                        if k == key@ {
                            assert(j == i);
                        } else {
                            assert(j != i);
                        }
                    }
                    assert(self.view() =~= before.insert(key@, val@));
                }
            },
            None => {
                let ghost old_keys = self.keys@;
                self.keys.push(string_of(key));
                self.vals.push(string_of(val));
                proof {
                    let n = self.keys@.len() - 1;
                    assert forall|k: Seq<char>| #[trigger] self.view().contains_key(k)
                        <==> before.insert(key@, val@).contains_key(k) by {
                        if before.contains_key(k) {
                            let j = choose|j: int| 0 <= j < old_keys.len() && old_keys[j]@ == k;
                            assert(self.keys@[j] == old_keys[j]);
                            assert(self.keys@[j]@ == k);
                        }
                        if k == key@ {
                            assert(self.keys@[n]@ == k);
                        }
                    }
                    assert forall|k: Seq<char>| self.view().contains_key(k) implies #[trigger] self.view()[k]
                        == before.insert(key@, val@)[k] by {
                        let j = choose|j: int| 0 <= j < self.keys@.len() && self.keys@[j]@ == k;
                        if k == key@ {
                            assert(j == n);
                        } else {
                            assert(j != n);
                            assert(self.keys@[j] == old_keys[j]);
                            assert(before.contains_key(k));
                            let j0 = choose|j0: int| 0 <= j0 < old_keys.len() && old_keys[j0]@ == k;
                            assert(self.keys@[j0] == old_keys[j0]);
                            assert(j0 == j);
                        }
                    }
                    assert(self.view() =~= before.insert(key@, val@));
                }
            },
        }
    }

    /// The value of `key`, if the text set one.
    pub fn get(&self, key: &str) -> (r: Option<&String>)
        requires
            self.wf(),
        ensures
            r matches Some(v) ==> self.view().contains_key(key@) && self.view()[key@] == v@,
            r is None ==> !self.view().contains_key(key@),
    {
        let k = chars_of(key);
        match self.index_of(k.as_slice()) {
            Some(i) => {
                let ghost j = choose|j: int| 0 <= j < self.keys@.len() && self.keys@[j]@ == key@;
                assert(self.keys@[i as int]@ == key@);
                assert(j == i);
                Some(&self.vals[i])
            },
            None => None,
        }
    }
}

/// Finds the first `c` in `t`.
fn find_char(t: &[char], c: char) -> (r: Option<usize>)
    ensures
        r matches Some(i) ==> i < t@.len() && t@[i as int] == c && forall|j: int|
            0 <= j < i ==> t@[j] != c,
        r is None ==> forall|j: int| 0 <= j < t@.len() ==> t@[j] != c,
{
    let mut i: usize = 0;
    while i < t.len()
        invariant
            i <= t@.len(),
            forall|j: int| 0 <= j < i ==> t@[j] != c,
        decreases t@.len() - i,
    {
        if t[i] == c {
            return Some(i);
        }
        i = i + 1;
    }
    None
}

/// The entry of one configuration line.
fn line_entry(l: &[char]) -> (r: Option<(Vec<char>, Vec<char>)>)
    ensures
        r matches Some((k, v)) ==> kv_entry(l@) == Some((k@, v@)),
        r is None ==> kv_entry(l@) is None,
{
    let t = trim_ws(l);
    let slash = chars_of("//");
    proof {
        reveal_strlit("//");
    }
    assert(slash@ =~= seq!['/', '/']);
    if t.len() == 0 || t[0] == '#' || starts_with(t.as_slice(), slash.as_slice()) {
        return None;
    }
    match find_char(t.as_slice(), '=') {
        None => None,
        Some(i) => {
            proof {
                let w = choose|w: int|
                    0 <= w < t@.len() && t@[w] == '=' && forall|j: int| 0 <= j < w ==> t@[j] != '=';
                assert(t@[i as int] == '=');
                if w < i {
                } else if w > i {
                    assert(t@[i as int] != '=');
                }
                assert(w == i);
            }
            let k = copy_range(t.as_slice(), 0, i);
            let v = copy_range(t.as_slice(), i + 1, t.len());
            assert(k@ =~= t@.take(i as int));
            assert(v@ =~= t@.skip(i + 1));
            let kt = trim_ws(k.as_slice());
            let key = lower_ascii(kt.as_slice());
            let vt = trim_ws(v.as_slice());
            let v1 = trim_matching(vt.as_slice(), '"');
            let val = trim_matching(v1.as_slice(), '\'');
            Some((key, val))
        },
    }
}

/// Reads a configuration text into its keys and values.
pub fn parse_kv(text: &str) -> (m: KvMap)
    ensures
        m.wf(),
        m.view() == kv_map(lines(text@)),
{
    let chars = chars_of(text);
    let ls = split_lines(chars.as_slice());
    let ghost lv = views(ls@);
    let mut m = KvMap::new();
    let mut i: usize = 0;
    assert(lv.take(0) =~= Seq::<Seq<char>>::empty());
    while i < ls.len()
        invariant
            i <= ls@.len(),
            lv == views(ls@),
            lv == lines(text@),
            m.wf(),
            m.view() == kv_map(lv.take(i as int)),
        decreases ls@.len() - i,
    {
        assert(lv.take(i + 1 as int).drop_last() =~= lv.take(i as int));
        assert(lv.take(i + 1 as int).last() == ls@[i as int]@);
        match line_entry(ls[i].as_slice()) {
            Some((k, v)) => {
                m.insert(k.as_slice(), v.as_slice());
            },
            None => {},
        }
        i = i + 1;
    }
    assert(lv.take(ls@.len() as int) =~= lv);
    m
}

// ---------------------------------------------------------------------------
// Values
// ---------------------------------------------------------------------------

/// `base.join(rest)` for paths: an absolute `rest` replaces `base`, otherwise
/// `rest` is appended with one `/` between them when `base` needs it.
pub open spec fn path_join(base: Seq<char>, rest: Seq<char>) -> Seq<char> {
    if rest.len() > 0 && rest[0] == '/' {
        rest
    } else if base.len() == 0 {
        rest
    } else if base.last() == '/' {
        base + rest
    } else {
        base + seq!['/'] + rest
    }
}

pub fn join_path(base: &str, rest: &str) -> (r: String)
    ensures
        r@ == path_join(base@, rest@),
{
    let b = chars_of(base);
    let t = chars_of(rest);
    if t.len() > 0 && t[0] == '/' {
        return string_of(t.as_slice());
    }
    if b.len() == 0 {
        return string_of(t.as_slice());
    }
    let mut out = b;
    if out[out.len() - 1] != '/' {
        out.push('/');
    }
    append_chars(&mut out, t.as_slice());
    string_of(out.as_slice())
}

/// A configured path: `~` is the home folder and `~/x` is `x` inside it;
/// environment variables are not expanded.
pub open spec fn unquote_path_spec(home: Seq<char>, v: Seq<char>) -> Seq<char> {
    if v == seq!['~'] {
        home
    } else if has_prefix(v, seq!['~', '/']) {
        path_join(home, v.skip(2))
    } else {
        v
    }
}

pub fn unquote_path(home: &str, v: &str) -> (r: String)
    ensures
        r@ == unquote_path_spec(home@, v@),
{
    let c = chars_of(v);
    if c.len() == 1 && c[0] == '~' {
        assert(c@ =~= seq!['~']);
        return string_of(chars_of(home).as_slice());
    }
    let mut p: Vec<char> = Vec::new();
    p.push('~');
    p.push('/');
    assert(p@ =~= seq!['~', '/']);
    if starts_with(c.as_slice(), p.as_slice()) {
        let rest = copy_range(c.as_slice(), 2, c.len());
        assert(rest@ =~= c@.skip(2));
        let rest = string_of(rest.as_slice());
        join_path(home, rest.as_str())
    } else {
        proof {
            if c@ == seq!['~'] {
                assert(c@.len() == 1);
            }
        }
        string_of(c.as_slice())
    }
}

/// The value of a run of decimal digits.
pub open spec fn digits_value(d: Seq<char>) -> int
    decreases d.len(),
{
    if d.len() == 0 {
        0
    } else {
        digits_value(d.drop_last()) * 10 + (d.last() as int - 48)
    }
}

pub open spec fn all_digits(d: Seq<char>) -> bool {
    forall|i: int| 0 <= i < d.len() ==> '0' <= #[trigger] d[i] && d[i] <= '9'
}

/// `str::parse::<i32>`: an optional `+` or `-`, then at least one decimal
/// digit, the value within the range of `i32`.
pub open spec fn parse_i32_spec(s: Seq<char>) -> Option<i32> {
    let neg = s.len() > 0 && s[0] == '-';
    let d = if s.len() > 0 && (s[0] == '-' || s[0] == '+') {
        s.drop_first()
    } else {
        s
    };
    let v = if neg {
        -digits_value(d)
    } else {
        digits_value(d)
    };
    if d.len() == 0 || !all_digits(d) || v < i32::MIN || v > i32::MAX {
        None
    } else {
        Some(v as i32)
    }
}

proof fn lemma_digits_monotone(d: Seq<char>, i: int)
    requires
        all_digits(d),
        0 <= i <= d.len(),
    ensures
        digits_value(d.take(i)) <= digits_value(d),
        0 <= digits_value(d.take(i)),
    decreases d.len() - i,
{
    if i < d.len() {
        lemma_digits_monotone(d, i + 1);
        assert(d.take(i + 1).drop_last() =~= d.take(i));
        assert('0' <= d[i]);
    } else {
        assert(d.take(i) =~= d);
        lemma_digits_nonneg(d);
    }
}

proof fn lemma_digits_nonneg(d: Seq<char>)
    requires
        all_digits(d),
    ensures
        0 <= digits_value(d),
    decreases d.len(),
{
    if d.len() > 0 {
        assert(all_digits(d.drop_last()));
        lemma_digits_nonneg(d.drop_last());
        assert('0' <= d[d.len() - 1]);
    }
}

pub fn parse_i32(s: &str) -> (r: Option<i32>)
    ensures
        r == parse_i32_spec(s@),
{
    let c = chars_of(s);
    let n = c.len();
    let neg = n > 0 && c[0] == '-';
    let start: usize = if n > 0 && (c[0] == '-' || c[0] == '+') {
        1
    } else {
        0
    };
    let ghost d = if n > 0 && (c@[0] == '-' || c@[0] == '+') {
        c@.drop_first()
    } else {
        c@
    };
    assert(d =~= c@.skip(start as int));
    if start == n {
        return None;
    }
    let mut acc: i64 = 0;
    let mut i: usize = start;
    while i < n
        invariant
            start <= i <= n,
            n == c@.len(),
            c@ == s@,
            neg == (n > 0 && c@[0] == '-'),
            d == (if n > 0 && (c@[0] == '-' || c@[0] == '+') {
                c@.drop_first()
            } else {
                c@
            }),
            d == c@.skip(start as int),
            0 < d.len(),
            all_digits(d.take(i - start)),
            acc == digits_value(d.take(i - start)),
            0 <= acc <= 2147483648,
        decreases n - i,
    {
        let ch = c[i];
        if ch < '0' || ch > '9' {
            proof {
                assert(d[i - start] == ch);
                assert(!all_digits(d));
            }
            return None;
        }
        let dv: i64 = (ch as u32 - 48) as i64;
        let next = acc * 10 + dv;
        proof {
            let a = d.take(i - start);
            let b = d.take(i + 1 - start);
            assert(b.drop_last() =~= a);
            assert(b.last() == ch);
            assert(digits_value(b) == next);
            assert forall|j: int| 0 <= j < b.len() implies '0' <= #[trigger] b[j] && b[j] <= '9' by {
                if j < a.len() {
                    assert(b[j] == a[j]);
                }
            }
        }
        i = i + 1;
        if next > 2147483648 {
            proof {
                assert(digits_value(d.take(i - start)) == next);
                if all_digits(d) {
                    lemma_digits_monotone(d, i - start);
                }
            }
            return None;
        }
        acc = next;
    }
    assert(d.take(n - start) =~= d);
    if neg {
        Some((0 - acc) as i32)
    } else if acc > 2147483647 {
        None
    } else {
        Some(acc as i32)
    }
}

/// The words that turn a boolean setting on, compared in ASCII lowercase.
pub open spec fn bool_word(v: Seq<char>) -> bool {
    let l = ascii_lower(v);
    l == "1"@ || l == "true"@ || l == "yes"@ || l == "oui"@ || l == "on"@
}

pub fn parse_bool(v: &str) -> (r: bool)
    ensures
        r == bool_word(v@),
{
    let c = chars_of(v);
    let l = lower_ascii(c.as_slice());
    let l = l.as_slice();
    crate::model::eq_lit(l, "1") || crate::model::eq_lit(l, "true") || crate::model::eq_lit(l, "yes")
        || crate::model::eq_lit(l, "oui") || crate::model::eq_lit(l, "on")
}

pub open spec fn clamp_spec(v: int, lo: int, hi: int) -> int {
    if v < lo {
        lo
    } else if v > hi {
        hi
    } else {
        v
    }
}

pub fn clamp_i32(v: i32, lo: i32, hi: i32) -> (r: i32)
    requires
        lo <= hi,
    ensures
        r == clamp_spec(v as int, lo as int, hi as int),
{
    if v < lo {
        lo
    } else if v > hi {
        hi
    } else {
        v
    }
}

// ---------------------------------------------------------------------------
// Settings
// ---------------------------------------------------------------------------

/// The settings of the configuration file that hold no fraction: the
/// folders, the engines' targets, the thumbnail sizes and the switches.
pub struct Settings {
    pub steam_dir: String,
    pub perso_dir: String,
    /// Screen given to `linux-wallpaperengine --screen-root`; none means the focused one.
    pub monitor: Option<String>,
    /// Output given to `mpvpaper` (`*` = every screen).
    pub mpv_output: String,
    pub transition_type: String,
    /// Size of the thumbnails on screen (logical px).
    pub thumb_px: i32,
    /// Size of the cached thumbnails (px).
    pub thumb_cache_px: i32,
    /// When false, the process does not stay in memory once closed.
    pub resident: bool,
    pub autoselect_first: bool,
}

/// The value a setting takes from a map: the configured one if the key is
/// set, the previous one otherwise.
pub open spec fn setting(kv: Map<Seq<char>, Seq<char>>, key: Seq<char>, prev: Seq<char>) -> Seq<char> {
    if kv.contains_key(key) {
        kv[key]
    } else {
        prev
    }
}

/// An integer setting: the configured value clamped to `[lo, hi]` when it
/// parses, the previous one otherwise.
pub open spec fn int_setting(kv: Map<Seq<char>, Seq<char>>, key: Seq<char>, prev: i32, lo: int, hi: int) -> int {
    if kv.contains_key(key) && parse_i32_spec(kv[key]) is Some {
        clamp_spec(parse_i32_spec(kv[key])->0 as int, lo, hi)
    } else {
        prev as int
    }
}

/// A boolean setting.
pub open spec fn bool_setting(kv: Map<Seq<char>, Seq<char>>, key: Seq<char>, prev: bool) -> bool {
    if kv.contains_key(key) {
        bool_word(kv[key])
    } else {
        prev
    }
}

impl Settings {
    /// The defaults, with the given source folders.
    pub fn new(steam_dir: String, perso_dir: String) -> (s: Settings)
        ensures
            s.steam_dir@ == steam_dir@,
            s.perso_dir@ == perso_dir@,
            s.monitor is None,
            s.mpv_output@ == "*"@,
            s.transition_type@ == "grow"@,
            s.thumb_px == 80,
            s.thumb_cache_px == 256,
            s.resident,
            s.autoselect_first,
    {
        Settings {
            steam_dir,
            perso_dir,
            monitor: None,
            mpv_output: "*".to_owned(),
            transition_type: "grow".to_owned(),
            thumb_px: 80,
            thumb_cache_px: 256,
            resident: true,
            autoselect_first: true,
        }
    }

    /// Takes the settings that the configuration sets, `home` standing for `~`.
    pub fn apply(&mut self, kv: &KvMap, home: &str)
        requires
            kv.wf(),
        ensures
            final(self).steam_dir@ == (if kv.view().contains_key("steam_dir"@) {
                unquote_path_spec(home@, kv.view()["steam_dir"@])
            } else {
                old(self).steam_dir@
            }),
            final(self).perso_dir@ == (if kv.view().contains_key("perso_dir"@) {
                unquote_path_spec(home@, kv.view()["perso_dir"@])
            } else {
                old(self).perso_dir@
            }),
            final(self).mpv_output@ == setting(kv.view(), "mpv_output"@, old(self).mpv_output@),
            final(self).transition_type@ == setting(
                kv.view(),
                "transition_type"@,
                old(self).transition_type@,
            ),
            kv.view().contains_key("monitor"@) ==> (if kv.view()["monitor"@].len() == 0
                || kv.view()["monitor"@] == "auto"@ {
                final(self).monitor is None
            } else {
                final(self).monitor matches Some(m) && m@ == kv.view()["monitor"@]
            }),
            !kv.view().contains_key("monitor"@) ==> final(self).monitor == old(self).monitor,
            final(self).thumb_px == int_setting(kv.view(), "thumb_px"@, old(self).thumb_px, 16, 512),
            final(self).thumb_cache_px == int_setting(
                kv.view(),
                "thumb_cache_px"@,
                old(self).thumb_cache_px,
                64,
                2048,
            ),
            final(self).resident == bool_setting(kv.view(), "resident"@, old(self).resident),
            final(self).autoselect_first == bool_setting(
                kv.view(),
                "autoselect_first"@,
                old(self).autoselect_first,
            ),
    {
        self.apply_text(kv, home);
        self.apply_numbers(kv);
    }

    fn apply_text(&mut self, kv: &KvMap, home: &str)
        requires
            kv.wf(),
        ensures
            final(self).steam_dir@ == (if kv.view().contains_key("steam_dir"@) {
                unquote_path_spec(home@, kv.view()["steam_dir"@])
            } else {
                old(self).steam_dir@
            }),
            final(self).perso_dir@ == (if kv.view().contains_key("perso_dir"@) {
                unquote_path_spec(home@, kv.view()["perso_dir"@])
            } else {
                old(self).perso_dir@
            }),
            final(self).mpv_output@ == setting(kv.view(), "mpv_output"@, old(self).mpv_output@),
            final(self).transition_type@ == setting(
                kv.view(),
                "transition_type"@,
                old(self).transition_type@,
            ),
            kv.view().contains_key("monitor"@) ==> (if kv.view()["monitor"@].len() == 0
                || kv.view()["monitor"@] == "auto"@ {
                final(self).monitor is None
            } else {
                final(self).monitor matches Some(m) && m@ == kv.view()["monitor"@]
            }),
            !kv.view().contains_key("monitor"@) ==> final(self).monitor == old(self).monitor,
            final(self).thumb_px == old(self).thumb_px,
            final(self).thumb_cache_px == old(self).thumb_cache_px,
            final(self).resident == old(self).resident,
            final(self).autoselect_first == old(self).autoselect_first,
    {
        if let Some(v) = kv.get("steam_dir") {
            self.steam_dir = unquote_path(home, v.as_str());
        }
        if let Some(v) = kv.get("perso_dir") {
            self.perso_dir = unquote_path(home, v.as_str());
        }
        if let Some(v) = kv.get("mpv_output") {
            self.mpv_output = v.clone();
        }
        if let Some(v) = kv.get("monitor") {
            let c = chars_of(v.as_str());
            if c.len() == 0 || crate::model::eq_lit(c.as_slice(), "auto") {
                self.monitor = None;
            } else {
                self.monitor = Some(v.clone());
            }
        }
        if let Some(v) = kv.get("transition_type") {
            self.transition_type = v.clone();
        }
    }

    fn apply_numbers(&mut self, kv: &KvMap)
        requires
            kv.wf(),
        ensures
            final(self).steam_dir == old(self).steam_dir,
            final(self).perso_dir == old(self).perso_dir,
            final(self).mpv_output == old(self).mpv_output,
            final(self).transition_type == old(self).transition_type,
            final(self).monitor == old(self).monitor,
            final(self).thumb_px == int_setting(kv.view(), "thumb_px"@, old(self).thumb_px, 16, 512),
            final(self).thumb_cache_px == int_setting(
                kv.view(),
                "thumb_cache_px"@,
                old(self).thumb_cache_px,
                64,
                2048,
            ),
            final(self).resident == bool_setting(kv.view(), "resident"@, old(self).resident),
            final(self).autoselect_first == bool_setting(
                kv.view(),
                "autoselect_first"@,
                old(self).autoselect_first,
            ),
    {
        if let Some(v) = kv.get("thumb_px") {
            if let Some(n) = parse_i32(v.as_str()) {
                self.thumb_px = clamp_i32(n, 16, 512);
            }
        }
        if let Some(v) = kv.get("thumb_cache_px") {
            if let Some(n) = parse_i32(v.as_str()) {
                self.thumb_cache_px = clamp_i32(n, 64, 2048);
            }
        }
        if let Some(v) = kv.get("resident") {
            self.resident = parse_bool(v.as_str());
        }
        if let Some(v) = kv.get("autoselect_first") {
            self.autoselect_first = parse_bool(v.as_str());
        }
    }
}

} // verus!
