//! The catalogue model: one `Wallpaper` per listed entry, with its kind,
//! its provenance and its "favourite: yes/no" flag.

use vstd::prelude::*;

use crate::text::{
    append_chars, ascii_lower, chars_eq, chars_lt, chars_of, copy_range, has_prefix, lemma_lex_asymmetric,
    lemma_lex_irreflexive, lemma_lex_total, lemma_lex_transitive, lex_lt, lower_ascii, starts_with,
    string_of, to_lowercase, unicode_lowercase,
};

verus! {

broadcast use vstd::string::group_string_axioms;

/// Where an entry comes from.
#[derive(Debug, Clone, Copy, PartialEq, Eq, Structural)]
pub enum Source {
    Steam,
    Perso,
}

/// What an entry is, and so which engine shows it.
#[derive(Debug, Clone, Copy, PartialEq, Eq, Structural)]
pub enum Kind {
    /// A Wallpaper Engine scene: a `.pkg` file is present, the native engine is needed.
    Pkg,
    Video,
    Gif,
    Image,
}

/// Whether the characters of `s` are exactly those of `lit`.
pub fn eq_lit(s: &[char], lit: &str) -> (r: bool)
    ensures
        r == (s@ == lit@),
{
    let l = chars_of(lit);
    chars_eq(s, l.as_slice())
}

pub open spec fn source_label(s: Source) -> Seq<char> {
    match s {
        Source::Steam => "steam"@,
        Source::Perso => "perso"@,
    }
}

impl Source {
    pub fn label(self) -> (r: &'static str)
        ensures
            r@ == source_label(self),
    {
        match self {
            Source::Steam => "steam",
            Source::Perso => "perso",
        }
    }
}

pub open spec fn kind_badge(k: Kind) -> Seq<char> {
    match k {
        Kind::Pkg => "PKG"@,
        Kind::Video => "MP4"@,
        Kind::Gif => "GIF"@,
        Kind::Image => "IMG"@,
    }
}

/// The video extensions, in lowercase.
pub open spec fn is_video_ext(e: Seq<char>) -> bool {
    e == "mp4"@ || e == "webm"@ || e == "mkv"@ || e == "mov"@
}

/// The still-image extensions (GIF excluded), in lowercase.
pub open spec fn is_still_ext(e: Seq<char>) -> bool {
    e == "jpg"@ || e == "jpeg"@ || e == "png"@ || e == "webp"@ || e == "avif"@ || e == "bmp"@
        || e == "tiff"@ || e == "tif"@
}

/// The kind of a file by its extension, compared without ASCII case.
pub open spec fn kind_of_ext(ext: Seq<char>) -> Option<Kind> {
    let e = ascii_lower(ext);
    if is_video_ext(e) {
        Some(Kind::Video)
    } else if e == "gif"@ {
        Some(Kind::Gif)
    } else if is_still_ext(e) {
        Some(Kind::Image)
    } else {
        None
    }
}

/// Extensions accepted for files of the personal folder.
pub open spec fn is_image_ext(ext: Seq<char>) -> bool {
    let e = ascii_lower(ext);
    is_still_ext(e) || e == "gif"@
}

fn video_ext(e: &[char]) -> (r: bool)
    ensures
        r == is_video_ext(e@),
{
    eq_lit(e, "mp4") || eq_lit(e, "webm") || eq_lit(e, "mkv") || eq_lit(e, "mov")
}

fn still_ext(e: &[char]) -> (r: bool)
    ensures
        r == is_still_ext(e@),
{
    eq_lit(e, "jpg") || eq_lit(e, "jpeg") || eq_lit(e, "png") || eq_lit(e, "webp") || eq_lit(
        e,
        "avif",
    ) || eq_lit(e, "bmp") || eq_lit(e, "tiff") || eq_lit(e, "tif")
}

impl Kind {
    pub fn badge(self) -> (r: &'static str)
        ensures
            r@ == kind_badge(self),
    {
        match self {
            Kind::Pkg => "PKG",
            Kind::Video => "MP4",
            Kind::Gif => "GIF",
            Kind::Image => "IMG",
        }
    }

    pub fn from_extension(ext: &str) -> (r: Option<Kind>)
        ensures
            r == kind_of_ext(ext@),
    {
        let raw = chars_of(ext);
        let e = lower_ascii(raw.as_slice());
        if video_ext(e.as_slice()) {
            Some(Kind::Video)
        } else if eq_lit(e.as_slice(), "gif") {
            Some(Kind::Gif)
        } else if still_ext(e.as_slice()) {
            Some(Kind::Image)
        } else {
            None
        }
    }

    /// Extensions accepted for the files of the personal folder.
    pub fn is_image_extension(ext: &str) -> (r: bool)
        ensures
            r == is_image_ext(ext@),
    {
        let raw = chars_of(ext);
        let e = lower_ascii(raw.as_slice());
        still_ext(e.as_slice()) || eq_lit(e.as_slice(), "gif")
    }
}

/// One listed entry.
#[derive(Debug, Clone)]
pub struct Wallpaper {
    /// Stable, unique identifier: `steam:<id>` or `perso:<file>`. It is what
    /// the favourites file holds.
    pub id: String,
    pub title: String,
    /// Folder (Steam) or file (personal).
    pub path: String,
    /// Image used for the thumbnail (`preview.jpg` for Steam).
    pub preview: Option<String>,
    /// Media shown as wallpaper (unused for `.pkg` scenes).
    pub media: Option<String>,
    pub kind: Kind,
    pub source: Source,
    /// Real extension in lowercase (`png`, `mp4`, `pkg`...); the type search
    /// (`#png`, `#pkg`, `#video`) looks at it.
    pub ext: String,
    /// The "favourite: yes/no" flag.
    pub favorite: bool,
}

/// Drops `p` from the front of `s` as many times as it occurs there
/// (`str::trim_start_matches` with a string pattern).
pub open spec fn strip_all_prefix(s: Seq<char>, p: Seq<char>) -> Seq<char>
    decreases s.len(),
{
    if p.len() > 0 && has_prefix(s, p) {
        strip_all_prefix(s.skip(p.len() as int), p)
    } else {
        s
    }
}

/// The file a thumbnail is made from: the preview, else the media, else the path.
pub open spec fn thumb_source_of(w: Wallpaper) -> Seq<char> {
    match w.preview {
        Some(p) => p@,
        None => match w.media {
            Some(m) => m@,
            None => w.path@,
        },
    }
}

/// The line shown under the title: `<extra> · <ext> · <source>`.
pub open spec fn subtitle_of(w: Wallpaper) -> Seq<char> {
    let extra = if w.source == Source::Steam {
        strip_all_prefix(w.id@, "steam:"@)
    } else {
        "perso"@
    };
    let ext = if w.ext@.len() == 0 {
        ascii_lower(kind_badge(w.kind))
    } else {
        w.ext@
    };
    extra + " · "@ + ext + " · "@ + source_label(w.source)
}

/// Whether an entry answers a type token (`png`, `pkg`, `video`...).
pub open spec fn matches_type_spec(w: Wallpaper, t: Seq<char>) -> bool {
    let e = w.ext@;
    if e == t {
        true
    } else if t == "video"@ || t == "videos"@ {
        is_video_ext(e)
    } else if t == "image"@ || t == "img"@ || t == "photo"@ {
        is_still_ext(e)
    } else if t == "jpeg"@ {
        e == "jpg"@ || e == "jpeg"@
    } else if t == "anim"@ || t == "animation"@ {
        e == "gif"@
    } else if t == "scene"@ || t == "we"@ {
        e == "pkg"@
    } else if t == "perso"@ || t == "local"@ {
        w.source == Source::Perso
    } else if t == "steam"@ || t == "workshop"@ {
        w.source == Source::Steam
    } else {
        false
    }
}

fn strip_prefix_repeatedly(s: &[char], p: &[char]) -> (r: Vec<char>)
    requires
        p@.len() > 0,
    ensures
        r@ == strip_all_prefix(s@, p@),
{
    let mut lo: usize = 0;
    let n = s.len();
    let mut rest = copy_range(s, 0, n);
    assert(s@.subrange(0, n as int) =~= s@);
    while starts_with(rest.as_slice(), p)
        invariant
            p@.len() > 0,
            n == s@.len(),
            lo <= n,
            rest@ == s@.skip(lo as int),
            strip_all_prefix(s@, p@) == strip_all_prefix(rest@, p@),
        decreases n - lo,
    {
        let ghost before = rest@;
        lo = lo + p.len();
        rest = copy_range(s, lo, n);
        assert(before.skip(p@.len() as int) =~= rest@);
    }
    rest
}

impl Wallpaper {
    /// The file the thumbnail is made from.
    pub fn thumb_source(&self) -> (r: Option<&String>)
        ensures
            r matches Some(x) && x@ == thumb_source_of(*self),
    {
        match &self.preview {
            Some(p) => Some(p),
            None => match &self.media {
                Some(m) => Some(m),
                None => Some(&self.path),
            },
        }
    }

    /// The line shown under the title in the list.
    pub fn subtitle(&self) -> (r: String)
        ensures
            r@ == subtitle_of(*self),
    {
        let mut out: Vec<char> = Vec::new();
        if self.source == Source::Steam {
            let id = chars_of(self.id.as_str());
            let pre = chars_of("steam:");
            proof {
                reveal_strlit("steam:");
            }
            let extra = strip_prefix_repeatedly(id.as_slice(), pre.as_slice());
            append_chars(&mut out, extra.as_slice());
        } else {
            let extra = chars_of("perso");
            append_chars(&mut out, extra.as_slice());
        }
        let sep = chars_of(" · ");
        append_chars(&mut out, sep.as_slice());
        let ext = chars_of(self.ext.as_str());
        if ext.len() == 0 {
            let badge = chars_of(self.kind.badge());
            let low = lower_ascii(badge.as_slice());
            append_chars(&mut out, low.as_slice());
        } else {
            append_chars(&mut out, ext.as_slice());
        }
        append_chars(&mut out, sep.as_slice());
        let label = chars_of(self.source.label());
        append_chars(&mut out, label.as_slice());
        string_of(out.as_slice())
    }

    /// Whether the entry answers a type token (`png`, `pkg`, `video`...).
    pub fn matches_type(&self, token: &str) -> (r: bool)
        ensures
            r == matches_type_spec(*self, token@),
    {
        let e = chars_of(self.ext.as_str());
        let t = chars_of(token);
        let e = e.as_slice();
        let t = t.as_slice();
        if chars_eq(e, t) {
            true
        } else if eq_lit(t, "video") || eq_lit(t, "videos") {
            video_ext(e)
        } else if eq_lit(t, "image") || eq_lit(t, "img") || eq_lit(t, "photo") {
            still_ext(e)
        } else if eq_lit(t, "jpeg") {
            eq_lit(e, "jpg") || eq_lit(e, "jpeg")
        } else if eq_lit(t, "anim") || eq_lit(t, "animation") {
            eq_lit(e, "gif")
        } else if eq_lit(t, "scene") || eq_lit(t, "we") {
            eq_lit(e, "pkg")
        } else if eq_lit(t, "perso") || eq_lit(t, "local") {
            self.source == Source::Perso
        } else if eq_lit(t, "steam") || eq_lit(t, "workshop") {
            self.source == Source::Steam
        } else {
            false
        }
    }
}

/// The filters that the type-filter rotation goes through, in order.
pub open spec fn type_cycle() -> Seq<Seq<char>> {
    seq!["pkg"@, "mp4"@, "gif"@, "img"@, "perso"@, "steam"@]
}

/// Number of filters in the rotation.
pub const TYPE_CYCLE_LEN: usize = 6;

/// The `i`-th filter of the rotation.
pub fn type_cycle_at(i: usize) -> (r: &'static str)
    requires
        i < TYPE_CYCLE_LEN,
    ensures
        r@ == type_cycle()[i as int],
{
    match i {
        0 => "pkg",
        1 => "mp4",
        2 => "gif",
        3 => "img",
        4 => "perso",
        _ => "steam",
    }
}

// ---------------------------------------------------------------------------
// Display order
// ---------------------------------------------------------------------------

/// The title as the display order compares it: in Unicode lowercase.
pub open spec fn title_key(w: Wallpaper) -> Seq<char> {
    unicode_lowercase(w.title@)
}

/// `a` is listed strictly before `b`: favourites first, then by lowercase
/// title in code-point order.
pub open spec fn display_before(a: Wallpaper, b: Wallpaper) -> bool {
    ||| a.favorite && !b.favorite
    ||| a.favorite == b.favorite && lex_lt(title_key(a), title_key(b))
}

/// `a` and `b` have the same place in the display order.
pub open spec fn same_rank(a: Wallpaper, b: Wallpaper) -> bool {
    a.favorite == b.favorite && title_key(a) == title_key(b)
}

/// `perm` witnesses that `out` is `inp` sorted stably by display order:
/// `out[k]` is `inp[perm[k]]`, `perm` is a permutation, `out` is sorted, and
/// entries of the same rank keep their relative order.
pub open spec fn is_stable_sort_perm(inp: Seq<Wallpaper>, out: Seq<Wallpaper>, perm: Seq<int>) -> bool {
    &&& perm.len() == inp.len()
    &&& out.len() == inp.len()
    &&& forall|k: int| 0 <= k < perm.len() ==> 0 <= #[trigger] perm[k] < inp.len()
    &&& forall|k: int| 0 <= k < perm.len() ==> #[trigger] out[k] == inp[perm[k]]
    &&& forall|k: int, l: int| 0 <= k < l < perm.len() ==> perm[k] != perm[l]
    &&& forall|k: int, l: int| 0 <= k < l < out.len() ==> !display_before(out[l], out[k])
    &&& forall|k: int, l: int|
        0 <= k < l < out.len() && same_rank(out[k], out[l]) ==> perm[k] < perm[l]
}

/// `out` is `inp` in display order, ties kept in their original order.
pub open spec fn is_display_sort(inp: Seq<Wallpaper>, out: Seq<Wallpaper>) -> bool {
    &&& out.len() == inp.len()
    &&& exists|perm: Seq<int>| is_stable_sort_perm(inp, out, perm)
}

/// The display order is a strict weak order whose ties are `same_rank`.
pub proof fn lemma_display_order(a: Wallpaper, b: Wallpaper, c: Wallpaper)
    ensures
        display_before(a, b) ==> !display_before(b, a),
        display_before(a, b) ==> !same_rank(a, b),
        display_before(a, b) || display_before(b, a) || same_rank(a, b),
        display_before(a, b) && display_before(b, c) ==> display_before(a, c),
        same_rank(a, b) && display_before(b, c) ==> display_before(a, c),
        display_before(a, b) && same_rank(b, c) ==> display_before(a, c),
        !display_before(b, a) && !display_before(c, b) ==> !display_before(c, a),
{
    let (ka, kb, kc) = (title_key(a), title_key(b), title_key(c));
    lemma_lex_irreflexive(ka);
    lemma_lex_irreflexive(kb);
    lemma_lex_total(ka, kb);
    lemma_lex_total(kb, kc);
    lemma_lex_total(ka, kc);
    if lex_lt(ka, kb) {
        lemma_lex_asymmetric(ka, kb);
    }
    if lex_lt(ka, kb) && lex_lt(kb, kc) {
        lemma_lex_transitive(ka, kb, kc);
    }
    if lex_lt(kc, ka) && lex_lt(ka, kb) {
        lemma_lex_transitive(kc, ka, kb);
    }
    if lex_lt(kb, kc) && lex_lt(kc, ka) {
        lemma_lex_transitive(kb, kc, ka);
    }
    if lex_lt(kc, ka) {
        lemma_lex_asymmetric(kc, ka);
    }
    if lex_lt(kb, ka) {
        lemma_lex_asymmetric(kb, ka);
    }
    if lex_lt(kc, kb) {
        lemma_lex_asymmetric(kc, kb);
    }
}

fn key_before(fa: bool, la: &[char], fb: bool, lb: &[char]) -> (r: bool)
    ensures
        r == ((fa && !fb) || (fa == fb && lex_lt(la@, lb@))),
{
    if fa && !fb {
        true
    } else if fa == fb {
        chars_lt(la, lb)
    } else {
        false
    }
}

/// Sorts the entries for display: favourites first, then by title in
/// lowercase, keeping the original order of ties.
pub fn sort_for_display(list: &mut Vec<Wallpaper>)
    ensures
        is_display_sort(old(list)@, final(list)@),
{
    let n = list.len();
    let ghost orig = list@;
    let mut keys: Vec<Vec<char>> = Vec::new();
    let mut t: usize = 0;
    while t < n
        invariant
            n == list@.len(),
            list@ == orig,
            t <= n,
            keys@.len() == t,
            forall|k: int| 0 <= k < t ==> #[trigger] keys@[k]@ == title_key(list@[k]),
        decreases n - t,
    {
        let low = to_lowercase(list[t].title.as_str());
        keys.push(chars_of(low.as_str()));
        t = t + 1;
    }
    let ghost mut perm: Seq<int> = Seq::new(n as nat, |k: int| k);
    let mut i: usize = 0;
    while i < n
        invariant
            n == list@.len(),
            n == keys@.len(),
            n == orig.len(),
            i <= n,
            forall|k: int| 0 <= k < n ==> #[trigger] keys@[k]@ == title_key(list@[k]),
            perm.len() == n,
            forall|k: int| 0 <= k < n ==> 0 <= #[trigger] perm[k] < n,
            forall|k: int| 0 <= k < n ==> #[trigger] list@[k] == orig[perm[k]],
            forall|k: int, l: int| 0 <= k < l < n ==> perm[k] != perm[l],
            forall|k: int| i <= k < n ==> #[trigger] perm[k] == k,
            forall|k: int| 0 <= k < i ==> #[trigger] perm[k] < i,
            forall|k: int, l: int| 0 <= k < l < i ==> !display_before(list@[l], list@[k]),
            forall|k: int, l: int|
                0 <= k < l < i && same_rank(list@[k], list@[l]) ==> perm[k] < perm[l],
        decreases n - i,
    {
        let ghost prev = list@;
        let ghost prevk = keys@;
        let x = list.remove(i);
        let kx = keys.remove(i);
        assert(x == prev[i as int]);
        assert(kx@ == title_key(x));
        let mut j: usize = i;
        while j > 0 && key_before(x.favorite, kx.as_slice(), list[j - 1].favorite, keys[j - 1].as_slice())
            invariant
                0 <= j <= i < n,
                prev.len() == n,
                prevk.len() == n,
                list@ == prev.remove(i as int),
                keys@ == prevk.remove(i as int),
                forall|k: int| 0 <= k < n ==> #[trigger] prevk[k]@ == title_key(prev[k]),
                kx@ == title_key(x),
                forall|m: int| j <= m < i ==> display_before(x, #[trigger] list@[m]),
            decreases j,
        {
            j = j - 1;
        }
        proof {
            assert(forall|m: int| 0 <= m < i ==> #[trigger] list@[m] == prev[m]);
            assert forall|m: int| j <= m < i implies display_before(x, #[trigger] prev[m]) by {
                assert(list@[m] == prev[m]);
            }
            if j > 0 {
                assert(!display_before(x, prev[j - 1]));
            }
        }
        list.insert(j, x);
        keys.insert(j, kx);
        proof {
            let newperm = perm.take(j as int) + seq![i as int] + perm.subrange(j as int, i as int)
                + perm.skip(i + 1);
            let cur = list@;
            assert(newperm.len() == n);
            assert forall|k: int| 0 <= k < n implies #[trigger] cur[k] == orig[newperm[k]] && 0
                <= newperm[k] < n by {
                if k < j {
                    assert(newperm[k] == perm[k]);
                    assert(cur[k] == prev[k]);
                } else if k == j {
                    assert(newperm[k] == i);
                } else if k <= i {
                    assert(newperm[k] == perm[k - 1]);
                    assert(cur[k] == prev[k - 1]);
                } else {
                    assert(newperm[k] == perm[k]);
                    assert(cur[k] == prev[k]);
                }
            }
            assert forall|k: int| 0 <= k < n implies #[trigger] keys@[k]@ == title_key(cur[k]) by {
                if k < j {
                } else if k == j {
                } else if k <= i {
                    assert(keys@[k] == prevk[k - 1]);
                } else {
                    assert(keys@[k] == prevk[k]);
                }
            }
            assert forall|k: int, l: int| 0 <= k < l < n implies newperm[k] != newperm[l] by {
                let pk = if k < j {
                    k
                } else if k == j {
                    i as int
                } else if k <= i {
                    k - 1
                } else {
                    k
                };
                let pl = if l < j {
                    l
                } else if l == j {
                    i as int
                } else if l <= i {
                    l - 1
                } else {
                    l
                };
                assert(newperm[k] == perm[pk]);
                assert(newperm[l] == perm[pl]);
                assert(pk != pl);
                if pk < pl {
                    assert(perm[pk] != perm[pl]);
                } else {
                    assert(perm[pl] != perm[pk]);
                }
            }
            assert forall|k: int| i + 1 <= k < n implies #[trigger] newperm[k] == k by {
                assert(newperm[k] == perm[k]);
            }
            assert forall|k: int| 0 <= k < i + 1 implies #[trigger] newperm[k] < i + 1 by {
                if k < j {
                    assert(newperm[k] == perm[k]);
                } else if k == j {
                } else {
                    assert(newperm[k] == perm[k - 1]);
                }
            }
            assert forall|k: int, l: int| 0 <= k < l < i + 1 implies !display_before(cur[l], cur[k])
                && (same_rank(cur[k], cur[l]) ==> newperm[k] < newperm[l]) by {
                if l < j {
                    assert(cur[k] == prev[k] && cur[l] == prev[l]);
                    assert(newperm[k] == perm[k] && newperm[l] == perm[l]);
                } else if l == j {
                    assert(cur[k] == prev[k]);
                    assert(cur[l] == x);
                    assert(newperm[l] == i);
                    assert(newperm[k] == perm[k]);
                    assert(perm[k] < i);
                    if k < j - 1 {
                        assert(!display_before(prev[j - 1], prev[k]));
                        lemma_display_order(prev[k], prev[j - 1], x);
                    }
                    assert(!display_before(x, prev[k]));
                } else if k == j {
                    assert(cur[k] == x);
                    assert(cur[l] == prev[l - 1]);
                    assert(display_before(x, prev[l - 1]));
                    lemma_display_order(x, prev[l - 1], x);
                } else if k < j {
                    assert(cur[k] == prev[k] && cur[l] == prev[l - 1]);
                    assert(newperm[k] == perm[k] && newperm[l] == perm[l - 1]);
                } else {
                    assert(cur[k] == prev[k - 1] && cur[l] == prev[l - 1]);
                    assert(newperm[k] == perm[k - 1] && newperm[l] == perm[l - 1]);
                }
            }
            perm = newperm;
        }
        i = i + 1;
    }
    assert(is_stable_sort_perm(orig, list@, perm));
}


/// What the display order means for a sorted list: favourites come before
/// all other entries; among entries with the same flag, titles compared in
/// lowercase never go down; and entries with the same flag whose lowercase
/// titles are equal keep the order they had.
pub proof fn lemma_display_sort_by_lowercase_title(inp: Seq<Wallpaper>, out: Seq<Wallpaper>)
    requires
        is_display_sort(inp, out),
    ensures
        forall|k: int, l: int|
            0 <= k < l < out.len() && (#[trigger] out[l]).favorite ==> (#[trigger] out[k]).favorite,
        forall|k: int, l: int|
            0 <= k < l < out.len() && (#[trigger] out[k]).favorite == (#[trigger] out[l]).favorite
                ==> !lex_lt(unicode_lowercase(out[l].title@), unicode_lowercase(out[k].title@)),
        exists|perm: Seq<int>|
            perm.len() == out.len() && (forall|k: int|
                0 <= k < out.len() ==> 0 <= #[trigger] perm[k] < inp.len() && out[k] == inp[perm[k]])
                && (forall|k: int, l: int|
                0 <= k < l < out.len() ==> #[trigger] perm[k] != #[trigger] perm[l]) && (forall|
                k: int,
                l: int,
            |
                0 <= k < l < out.len() && (#[trigger] out[k]).favorite == (#[trigger] out[l]).favorite
                    && unicode_lowercase(out[k].title@) == unicode_lowercase(out[l].title@)
                    ==> perm[k] < perm[l]),
{
    let perm = choose|perm: Seq<int>| is_stable_sort_perm(inp, out, perm);
    assert forall|k: int, l: int|
        0 <= k < l < out.len() && (#[trigger] out[l]).favorite implies (#[trigger] out[k]).favorite by {
        assert(!display_before(out[l], out[k]));
    }
    assert forall|k: int, l: int|
        0 <= k < l < out.len() && (#[trigger] out[k]).favorite == (#[trigger] out[l]).favorite
            implies !lex_lt(unicode_lowercase(out[l].title@), unicode_lowercase(out[k].title@)) by {
        assert(!display_before(out[l], out[k]));
    }
    assert forall|k: int, l: int|
        0 <= k < l < out.len() && (#[trigger] out[k]).favorite == (#[trigger] out[l]).favorite
            && unicode_lowercase(out[k].title@) == unicode_lowercase(out[l].title@) implies perm[k]
        < perm[l] by {
        assert(same_rank(out[k], out[l]));
    }
    assert forall|k: int| 0 <= k < out.len() implies 0 <= #[trigger] perm[k] < inp.len() && out[k]
        == inp[perm[k]] by {
        assert(out[k] == inp[perm[k]]);
    }
}

} // verus!
