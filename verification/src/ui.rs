//! The logic of the picker window: the search query, the rows shown (a
//! favourites section, then the rest), and the selection moves.

use vstd::prelude::*;

use crate::favorites::Favorites;
use crate::ipc::Command;
use crate::model::{
    display_before, is_display_sort, matches_type_spec, same_rank, sort_for_display, subtitle_of, title_key,
    type_cycle, type_cycle_at, Wallpaper, TYPE_CYCLE_LEN,
};
use crate::text::{
    append_chars, ascii_lower, chars_of, contains_chars, decimal, decimal_chars, has_sub, join,
    join_chars, lower_ascii, spaced, split_words, string_of, string_views, to_lowercase, unicode_lowercase,
    views, words, is_word, lemma_words_are_words, lemma_words_of_spaced, lemma_ascii_lower_idempotent,
    lemma_ascii_lower_join, lemma_lower_word, lemma_words_of_joined,
};

verus! {

broadcast use vstd::string::group_string_axioms;

// ---------------------------------------------------------------------------
// Query
// ---------------------------------------------------------------------------

/// A parsed search: free text, plus type filters.
///
/// Tokens prefixed by `#` are type filters and take no part in the text
/// search: `#png montagne` looks for "montagne" among PNG files. Several
/// filters combine with OR (`#png #jpg`).
pub struct Query {
    pub text: String,
    pub types: Vec<String>,
}

/// A token `#t` with `t` non-empty is a type filter.
pub open spec fn is_type_token(w: Seq<char>) -> bool {
    w.len() > 1 && w[0] == '#'
}

/// The tokens that are not type filters, in order.
pub open spec fn text_tokens(ws: Seq<Seq<char>>) -> Seq<Seq<char>>
    decreases ws.len(),
{
    if ws.len() == 0 {
        Seq::empty()
    } else if is_type_token(ws.last()) {
        text_tokens(ws.drop_last())
    } else {
        text_tokens(ws.drop_last()).push(ws.last())
    }
}

/// The type filters, without their `#`, in ASCII lowercase, in order.
pub open spec fn type_tokens(ws: Seq<Seq<char>>) -> Seq<Seq<char>>
    decreases ws.len(),
{
    if ws.len() == 0 {
        Seq::empty()
    } else if is_type_token(ws.last()) {
        type_tokens(ws.drop_last()).push(ascii_lower(ws.last().drop_first()))
    } else {
        type_tokens(ws.drop_last())
    }
}

/// The free text of a raw search: its other tokens joined by one space, in
/// ASCII lowercase.
pub open spec fn query_text(raw: Seq<char>) -> Seq<char> {
    ascii_lower(join(text_tokens(words(raw)), " "@))
}

/// The type filters of a raw search.
pub open spec fn query_types(raw: Seq<char>) -> Seq<Seq<char>> {
    type_tokens(words(raw))
}

/// Whether an entry answers a query of text `text` and filters `types`:
/// the text occurs in the lowercase title or identifier (or is empty), and
/// the entry answers one of the filters (or there is none).
pub open spec fn query_matches(text: Seq<char>, types: Seq<Seq<char>>, w: Wallpaper) -> bool {
    &&& (text.len() == 0 || has_sub(unicode_lowercase(w.title@), text) || has_sub(
        unicode_lowercase(w.id@),
        text,
    ))
    &&& (types.len() == 0 || exists|i: int| 0 <= i < types.len() && matches_type_spec(w, #[trigger] types[i]))
}

proof fn lemma_tokens_of_words(ws: Seq<Seq<char>>)
    requires
        forall|k: int| 0 <= k < ws.len() ==> is_word(#[trigger] ws[k]),
    ensures
        forall|k: int|
            0 <= k < text_tokens(ws).len() ==> is_word(#[trigger] text_tokens(ws)[k])
                && !is_type_token(text_tokens(ws)[k]),
        forall|k: int|
            0 <= k < type_tokens(ws).len() ==> (#[trigger] type_tokens(ws)[k]).len() > 0
                && ascii_lower(type_tokens(ws)[k]) == type_tokens(ws)[k],
    decreases ws.len(),
{
    if ws.len() > 0 {
        let rest = ws.drop_last();
        assert forall|k: int| 0 <= k < rest.len() implies is_word(#[trigger] rest[k]) by {
            assert(rest[k] == ws[k]);
        }
        lemma_tokens_of_words(rest);
        let x = ws.last();
        assert(is_word(x));
        if is_type_token(x) {
            let t = ascii_lower(x.drop_first());
            lemma_ascii_lower_idempotent(x.drop_first());
            assert(t.len() == x.len() - 1);
            assert(text_tokens(ws) == text_tokens(rest));
            let tt = type_tokens(ws);
            assert(tt == type_tokens(rest).push(t));
            assert forall|k: int| 0 <= k < tt.len() implies (#[trigger] tt[k]).len() > 0
                && ascii_lower(tt[k]) == tt[k] by {
                if k < tt.len() - 1 {
                    assert(tt[k] == type_tokens(rest)[k]);
                }
            }
        } else {
            assert(type_tokens(ws) == type_tokens(rest));
            let xt = text_tokens(ws);
            assert forall|k: int| 0 <= k < xt.len() implies is_word(#[trigger] xt[k])
                && !is_type_token(xt[k]) by {
                if k < xt.len() - 1 {
                    assert(xt[k] == text_tokens(rest)[k]);
                }
            }
        }
    }
}

proof fn lemma_plain_tokens(ls: Seq<Seq<char>>)
    requires
        forall|k: int| 0 <= k < ls.len() ==> !is_type_token(#[trigger] ls[k]),
    ensures
        text_tokens(ls) == ls,
        type_tokens(ls) == Seq::<Seq<char>>::empty(),
    decreases ls.len(),
{
    if ls.len() > 0 {
        let rest = ls.drop_last();
        assert forall|k: int| 0 <= k < rest.len() implies !is_type_token(#[trigger] rest[k]) by {
            assert(rest[k] == ls[k]);
        }
        lemma_plain_tokens(rest);
        assert(!is_type_token(ls.last()));
        assert(rest.push(ls.last()) =~= ls);
    }
}

/// A parsed search is in normal form: each type filter is non-empty and in
/// ASCII lowercase, and parsing the free text again gives the same text and
/// no filter.
pub proof fn lemma_query_parse_stable(raw: Seq<char>)
    ensures
        forall|k: int|
            0 <= k < query_types(raw).len() ==> (#[trigger] query_types(raw)[k]).len() > 0
                && ascii_lower(query_types(raw)[k]) == query_types(raw)[k],
        query_text(query_text(raw)) == query_text(raw),
        query_types(query_text(raw)).len() == 0,
{
    reveal_strlit(" ");
    let sp = seq![' '];
    assert(" "@ =~= sp);
    assert(ascii_lower(sp) =~= sp);
    let ws = words(raw);
    lemma_words_are_words(raw);
    lemma_tokens_of_words(ws);
    let tt = text_tokens(ws);
    let lt = tt.map_values(|x: Seq<char>| ascii_lower(x));
    lemma_ascii_lower_join(tt, sp);
    assert(query_text(raw) == join(lt, sp));
    assert forall|k: int| 0 <= k < lt.len() implies is_word(#[trigger] lt[k]) && !is_type_token(
        lt[k],
    ) && ascii_lower(lt[k]) == lt[k] by {
        lemma_lower_word(tt[k]);
        lemma_ascii_lower_idempotent(tt[k]);
    }
    lemma_words_of_joined(lt);
    lemma_plain_tokens(lt);
    lemma_ascii_lower_join(lt, sp);
    assert(lt.map_values(|x: Seq<char>| ascii_lower(x)) =~= lt);
}

/// Adding a type filter `#t` at the end of a search keeps its free text and
/// adds `t` (in ASCII lowercase) to its filters: a first filter narrows the
/// results, a further one widens them (filters combine with OR).
pub proof fn lemma_added_filter(raw: Seq<char>, t: Seq<char>, w: Wallpaper)
    requires
        t.len() > 0,
        forall|i: int| 0 <= i < t.len() ==> !crate::text::is_ws(#[trigger] t[i]),
    ensures
        ({
            let raw2 = raw + seq![' ', '#'] + t;
            let m1 = query_matches(query_text(raw), query_types(raw), w);
            let m2 = query_matches(query_text(raw2), query_types(raw2), w);
            &&& query_text(raw2) == query_text(raw)
            &&& query_types(raw2) == query_types(raw).push(ascii_lower(t))
            &&& query_types(raw).len() == 0 ==> (m2 ==> m1)
            &&& query_types(raw).len() > 0 ==> (m1 ==> m2)
        }),
{
    let x = seq!['#'] + t;
    assert forall|i: int| 0 <= i < x.len() implies !crate::text::is_ws(#[trigger] x[i]) by {
        if i > 0 {
            assert(x[i] == t[i - 1]);
        }
    }
    let raw2 = raw + seq![' ', '#'] + t;
    assert(raw2 =~= raw + seq![' '] + x);
    crate::text::lemma_words_push(raw, x);
    let ws = words(raw);
    assert(words(raw2) == ws.push(x));
    assert(ws.push(x).drop_last() =~= ws);
    assert(is_type_token(x));
    assert(x.drop_first() =~= t);
    let types1 = query_types(raw);
    let types2 = query_types(raw2);
    if types1.len() > 0 && query_matches(query_text(raw), types1, w) {
        let i = choose|i: int| 0 <= i < types1.len() && matches_type_spec(w, #[trigger] types1[i]);
        assert(types2[i] == types1[i]);
    }
}

impl Query {
    pub open spec fn types_view(&self) -> Seq<Seq<char>> {
        string_views(self.types@)
    }

    pub open spec fn matches_spec(&self, w: Wallpaper) -> bool {
        query_matches(self.text@, self.types_view(), w)
    }

    pub fn parse(raw: &str) -> (q: Query)
        ensures
            q.text@ == query_text(raw@),
            q.types_view() == query_types(raw@),
    {
        let chars = chars_of(raw);
        let ws = split_words(chars.as_slice());
        let mut kept: Vec<Vec<char>> = Vec::new();
        let mut types: Vec<String> = Vec::new();
        let mut i: usize = 0;
        while i < ws.len()
            invariant
                i <= ws@.len(),
                views(ws@) == words(raw@),
                views(kept@) == text_tokens(views(ws@).take(i as int)),
                string_views(types@) == type_tokens(views(ws@).take(i as int)),
            decreases ws@.len() - i,
        {
            let w = &ws[i];
            let ghost before = views(ws@).take(i as int);
            let ghost after = views(ws@).take(i + 1 as int);
            assert(after.drop_last() =~= before);
            assert(after.last() == w@);
            if w.len() > 1 && w[0] == '#' {
                let t = crate::text::copy_range(w.as_slice(), 1, w.len());
                let low = lower_ascii(t.as_slice());
                let ghost ty = types@;
                types.push(string_of(low.as_slice()));
                assert(w@.drop_first() =~= t@);
                assert(string_views(types@) =~= string_views(ty).push(low@));
            } else {
                let ghost k = kept@;
                kept.push(crate::text::copy_range(w.as_slice(), 0, w.len()));
                assert(w@.subrange(0, w@.len() as int) =~= w@);
                assert(views(kept@) =~= views(k).push(w@));
            }
            i = i + 1;
        }
        assert(views(ws@).take(ws@.len() as int) =~= views(ws@));
        let sp = chars_of(" ");
        let joined = join_chars(&kept, sp.as_slice());
        let low = lower_ascii(joined.as_slice());
        Query { text: string_of(low.as_slice()), types }
    }

    pub fn matches(&self, w: &Wallpaper) -> (r: bool)
        ensures
            r == self.matches_spec(*w),
    {
        let text = chars_of(self.text.as_str());
        let by_text = if text.len() == 0 {
            true
        } else {
            let title = to_lowercase(w.title.as_str());
            let title = chars_of(title.as_str());
            if contains_chars(title.as_slice(), text.as_slice()) {
                true
            } else {
                let id = to_lowercase(w.id.as_str());
                let id = chars_of(id.as_str());
                contains_chars(id.as_slice(), text.as_slice())
            }
        };
        let by_type = if self.types.len() == 0 {
            true
        } else {
            let mut found = false;
            let mut i: usize = 0;
            while i < self.types.len()
                invariant
                    i <= self.types@.len(),
                    found == exists|k: int|
                        0 <= k < i && matches_type_spec(*w, #[trigger] self.types_view()[k]),
                decreases self.types@.len() - i,
            {
                let m = w.matches_type(self.types[i].as_str());
                assert(self.types_view()[i as int] == self.types@[i as int]@);
                if m {
                    found = true;
                }
                i = i + 1;
            }
            found
        };
        by_text && by_type
    }

    /// The active filters, joined by `, `, if any.
    pub fn type_label(&self) -> (r: Option<String>)
        ensures
            self.types@.len() == 0 ==> r is None,
            self.types@.len() > 0 ==> (r matches Some(s) && s@ == join(self.types_view(), ", "@)),
    {
        if self.types.len() == 0 {
            None
        } else {
            let mut parts: Vec<Vec<char>> = Vec::new();
            let mut i: usize = 0;
            while i < self.types.len()
                invariant
                    i <= self.types@.len(),
                    views(parts@) == self.types_view().take(i as int),
                decreases self.types@.len() - i,
            {
                let ghost p = parts@;
                parts.push(chars_of(self.types[i].as_str()));
                assert(views(parts@) =~= views(p).push(self.types@[i as int]@));
                assert(self.types_view().take(i + 1 as int) =~= self.types_view().take(
                    i as int,
                ).push(self.types@[i as int]@));
                i = i + 1;
            }
            assert(self.types_view().take(self.types@.len() as int) =~= self.types_view());
            let sep = chars_of(", ");
            let joined = join_chars(&parts, sep.as_slice());
            Some(string_of(joined.as_slice()))
        }
    }
}

// ---------------------------------------------------------------------------
// Rows
// ---------------------------------------------------------------------------

/// One line of the list: a section header, or the entry at an index of the
/// catalogue.
#[derive(Clone, Debug, PartialEq, Eq)]
pub enum Row {
    Header { text: String },
    Item(usize),
}

/// What a row shows, with the header text as characters.
pub enum RowView {
    Header(Seq<char>),
    Item(nat),
}

impl View for Row {
    type V = RowView;

    open spec fn view(&self) -> RowView {
        match self {
            Row::Header { text } => RowView::Header(text@),
            Row::Item(i) => RowView::Item(*i as nat),
        }
    }
}

/// The rows' views.
pub open spec fn row_views(rows: Seq<Row>) -> Seq<RowView> {
    rows.map_values(|r: Row| r@)
}

/// Indices, in increasing order, of the entries of `all[..n]` whose flag is
/// `fav` and that answer the query.
pub open spec fn section_indices(
    all: Seq<Wallpaper>,
    n: int,
    text: Seq<char>,
    types: Seq<Seq<char>>,
    fav: bool,
) -> Seq<nat>
    decreases n,
{
    if n <= 0 {
        Seq::empty()
    } else {
        let rest = section_indices(all, n - 1, text, types, fav);
        if all[n - 1].favorite == fav && query_matches(text, types, all[n - 1]) {
            rest.push((n - 1) as nat)
        } else {
            rest
        }
    }
}

/// A section: a header with its title and count, then its items; nothing
/// when it has no item.
pub open spec fn section_rows(title: Seq<char>, idx: Seq<nat>) -> Seq<RowView> {
    if idx.len() == 0 {
        Seq::empty()
    } else {
        seq![RowView::Header(title + " ("@ + decimal(idx.len()) + ")"@)] + idx.map_values(
            |i: nat| RowView::Item(i),
        )
    }
}

/// The rows shown for a catalogue and a raw search: the favourites section
/// first, then the section of all the other wallpapers.
pub open spec fn rows_for(all: Seq<Wallpaper>, raw: Seq<char>) -> Seq<RowView> {
    let text = query_text(raw);
    let types = query_types(raw);
    section_rows("FAVORIS"@, section_indices(all, all.len() as int, text, types, true))
        + section_rows(
        "TOUS LES FONDS D'ÉCRAN"@,
        section_indices(all, all.len() as int, text, types, false),
    )
}

proof fn lemma_section_indices(
    all: Seq<Wallpaper>,
    n: int,
    text: Seq<char>,
    types: Seq<Seq<char>>,
    fav: bool,
)
    requires
        0 <= n <= all.len(),
    ensures
        ({
            let s = section_indices(all, n, text, types, fav);
            &&& forall|i: int|
                0 <= i < s.len() ==> s[i] < n && all[s[i] as int].favorite == fav && query_matches(
                    text,
                    types,
                    all[#[trigger] s[i] as int],
                )
            &&& forall|i: int, j: int| 0 <= i < j < s.len() ==> #[trigger] s[i] < #[trigger] s[j]
            &&& forall|k: int|
                0 <= k < n && all[k].favorite == fav && query_matches(text, types, #[trigger] all[k])
                    ==> s.contains(k as nat)
        }),
    decreases n,
{
    if n > 0 {
        lemma_section_indices(all, n - 1, text, types, fav);
        let rest = section_indices(all, n - 1, text, types, fav);
        let s = section_indices(all, n, text, types, fav);
        if all[n - 1].favorite == fav && query_matches(text, types, all[n - 1]) {
            assert(s == rest.push((n - 1) as nat));
            assert forall|k: int|
                0 <= k < n && all[k].favorite == fav && query_matches(
                    text,
                    types,
                    #[trigger] all[k],
                ) implies s.contains(k as nat) by {
                if k == n - 1 {
                    assert(s[s.len() - 1] == k as nat);
                } else {
                    assert(rest.contains(k as nat));
                    let i = choose|i: int| 0 <= i < rest.len() && rest[i] == k as nat;
                    assert(s[i] == k as nat);
                }
            }
        } else {
            assert(s == rest);
        }
    }
}

proof fn lemma_section_items(title: Seq<char>, idx: Seq<nat>)
    ensures
        forall|j: int|
            0 <= j < section_rows(title, idx).len() && #[trigger] section_rows(title, idx)[j] is Item
                ==> j >= 1 && section_rows(title, idx)[j] == RowView::Item(idx[j - 1]),
        forall|i: int|
            0 <= i < idx.len() ==> section_rows(title, idx)[i + 1] == RowView::Item(
                #[trigger] idx[i],
            ),
        section_rows(title, idx).len() == (if idx.len() == 0 {
            0
        } else {
            idx.len() + 1
        }),
{
}

/// The rows list each entry that answers the search exactly once, and no
/// other entry, the favourites before all the others: what `build_rows`
/// returns.
pub proof fn lemma_rows_show_matches(all: Seq<Wallpaper>, raw: Seq<char>)
    ensures
        ({
            let text = query_text(raw);
            let types = query_types(raw);
            let r = rows_for(all, raw);
            &&& forall|j: int|
                0 <= j < r.len() ==> (#[trigger] r[j] matches RowView::Item(a) ==> a < all.len()
                    && query_matches(text, types, all[a as int]))
            &&& forall|k: int|
                0 <= k < all.len() && query_matches(text, types, #[trigger] all[k]) ==> r.contains(
                    RowView::Item(k as nat),
                )
            &&& forall|i: int, j: int|
                0 <= i < j < r.len() ==> (#[trigger] r[i] matches RowView::Item(a) ==> (
                #[trigger] r[j] matches RowView::Item(b) ==> a != b && (all[b as int].favorite
                    ==> all[a as int].favorite)))
        }),
{
    let text = query_text(raw);
    let types = query_types(raw);
    let n = all.len() as int;
    let fi = section_indices(all, n, text, types, true);
    let ri = section_indices(all, n, text, types, false);
    lemma_section_indices(all, n, text, types, true);
    lemma_section_indices(all, n, text, types, false);
    let s1 = section_rows("FAVORIS"@, fi);
    let s2 = section_rows("TOUS LES FONDS D'ÉCRAN"@, ri);
    lemma_section_items("FAVORIS"@, fi);
    lemma_section_items("TOUS LES FONDS D'ÉCRAN"@, ri);
    let r = rows_for(all, raw);
    assert(r == s1 + s2);
    assert forall|j: int| 0 <= j < r.len() implies (#[trigger] r[j] matches RowView::Item(a)
        ==> a < all.len() && query_matches(text, types, all[a as int])) by {
        if r[j] is Item {
            if j < s1.len() {
                assert(r[j] == s1[j]);
                assert(s1[j] == RowView::Item(fi[j - 1]));
            } else {
                assert(r[j] == s2[j - s1.len()]);
                assert(s2[j - s1.len()] == RowView::Item(ri[j - s1.len() - 1]));
            }
        }
    }
    assert forall|k: int|
        0 <= k < all.len() && query_matches(text, types, #[trigger] all[k]) implies r.contains(
        RowView::Item(k as nat),
    ) by {
        if all[k].favorite {
            assert(fi.contains(k as nat));
            let i = choose|i: int| 0 <= i < fi.len() && fi[i] == k as nat;
            assert(s1[i + 1] == RowView::Item(fi[i]));
            assert(r[i + 1] == s1[i + 1]);
        } else {
            assert(ri.contains(k as nat));
            let i = choose|i: int| 0 <= i < ri.len() && ri[i] == k as nat;
            assert(s2[i + 1] == RowView::Item(ri[i]));
            assert(r[s1.len() + i + 1] == s2[i + 1]);
        }
    }
    assert forall|i: int, j: int| 0 <= i < j < r.len() implies (#[trigger] r[i] matches RowView::Item(
        a,
    ) ==> (#[trigger] r[j] matches RowView::Item(b) ==> a != b && (all[b as int].favorite
        ==> all[a as int].favorite))) by {
        if r[i] is Item && r[j] is Item {
            if j < s1.len() {
                assert(r[i] == s1[i] && r[j] == s1[j]);
                assert(s1[i] == RowView::Item(fi[i - 1]));
                assert(s1[j] == RowView::Item(fi[j - 1]));
            } else if i >= s1.len() {
                assert(r[i] == s2[i - s1.len()] && r[j] == s2[j - s1.len()]);
                assert(s2[i - s1.len()] == RowView::Item(ri[i - s1.len() - 1]));
                assert(s2[j - s1.len()] == RowView::Item(ri[j - s1.len() - 1]));
            } else {
                assert(r[i] == s1[i] && r[j] == s2[j - s1.len()]);
                assert(s1[i] == RowView::Item(fi[i - 1]));
                assert(s2[j - s1.len()] == RowView::Item(ri[j - s1.len() - 1]));
            }
        }
    }
}

/// Appends one section to `rows`.
fn push_section(rows: &mut Vec<Row>, title: &str, idx: &Vec<usize>)
    ensures
        row_views(final(rows)@) == row_views(old(rows)@) + section_rows(
            title@,
            idx@.map_values(|i: usize| i as nat),
        ),
{
    let ghost nat_idx = idx@.map_values(|i: usize| i as nat);
    if idx.len() == 0 {
        assert(row_views(rows@) + section_rows(title@, nat_idx) =~= row_views(rows@));
        return ;
    }
    let ghost start = rows@;
    let mut text = chars_of(title);
    let open = chars_of(" (");
    append_chars(&mut text, open.as_slice());
    let count = decimal_chars(idx.len());
    append_chars(&mut text, count.as_slice());
    let close = chars_of(")");
    append_chars(&mut text, close.as_slice());
    rows.push(Row::Header { text: string_of(text.as_slice()) });
    let mut i: usize = 0;
    while i < idx.len()
        invariant
            i <= idx@.len(),
            nat_idx == idx@.map_values(|i: usize| i as nat),
            idx@.len() > 0,
            row_views(rows@) == row_views(start) + seq![
                RowView::Header(title@ + " ("@ + decimal(idx@.len()) + ")"@),
            ] + nat_idx.take(i as int).map_values(|i: nat| RowView::Item(i)),
        decreases idx@.len() - i,
    {
        let ghost r = rows@;
        rows.push(Row::Item(idx[i]));
        assert(row_views(rows@) =~= row_views(r).push(RowView::Item(idx@[i as int] as nat)));
        assert(nat_idx.take(i + 1 as int).map_values(|i: nat| RowView::Item(i)) =~= nat_idx.take(
            i as int,
        ).map_values(|i: nat| RowView::Item(i)).push(RowView::Item(idx@[i as int] as nat)));
        i = i + 1;
    }
    assert(nat_idx.take(idx@.len() as int) =~= nat_idx);
    assert(row_views(rows@) =~= row_views(start) + section_rows(title@, nat_idx));
}

/// Builds the rows shown: the favourites section first, then the rest.
pub fn build_rows(all: &Vec<Wallpaper>, query: &str) -> (rows: Vec<Row>)
    ensures
        row_views(rows@) == rows_for(all@, query@),
{
    let q = Query::parse(query);
    let mut favs: Vec<usize> = Vec::new();
    let mut rest: Vec<usize> = Vec::new();
    let mut i: usize = 0;
    let ghost text = query_text(query@);
    let ghost types = query_types(query@);
    while i < all.len()
        invariant
            i <= all@.len(),
            q.text@ == text,
            q.types_view() == types,
            favs@.map_values(|i: usize| i as nat) == section_indices(all@, i as int, text, types, true),
            rest@.map_values(|i: usize| i as nat) == section_indices(all@, i as int, text, types, false),
        decreases all@.len() - i,
    {
        let m = q.matches(&all[i]);
        let ghost f = favs@;
        let ghost r = rest@;
        if m && all[i].favorite {
            favs.push(i);
            assert(favs@.map_values(|i: usize| i as nat) =~= f.map_values(|i: usize| i as nat).push(i as nat));
        } else if m {
            rest.push(i);
            assert(rest@.map_values(|i: usize| i as nat) =~= r.map_values(|i: usize| i as nat).push(i as nat));
        }
        i = i + 1;
    }
    let mut rows: Vec<Row> = Vec::new();
    push_section(&mut rows, "FAVORIS", &favs);
    push_section(&mut rows, "TOUS LES FONDS D'ÉCRAN", &rest);
    assert(row_views(Seq::<Row>::empty()) =~= Seq::<RowView>::empty());
    rows
}

// ---------------------------------------------------------------------------
// Type-filter rotation
// ---------------------------------------------------------------------------

/// The filter after `cur` in the rotation: the first one when there is none
/// or `cur` is not in the rotation, none after the last one.
pub open spec fn cycle_next(cur: Option<Seq<char>>) -> Option<Seq<char>> {
    match cur {
        None => Some(type_cycle()[0]),
        Some(c) => if c == type_cycle()[0] {
            Some(type_cycle()[1])
        } else if c == type_cycle()[1] {
            Some(type_cycle()[2])
        } else if c == type_cycle()[2] {
            Some(type_cycle()[3])
        } else if c == type_cycle()[3] {
            Some(type_cycle()[4])
        } else if c == type_cycle()[4] {
            Some(type_cycle()[5])
        } else if c == type_cycle()[5] {
            None
        } else {
            Some(type_cycle()[0])
        },
    }
}

/// The filter the search text ends with: its last word when that starts
/// with `#`, without the `#`, in ASCII lowercase.
pub open spec fn current_filter(ws: Seq<Seq<char>>) -> Option<Seq<char>> {
    if ws.len() > 0 && ws.last().len() > 0 && ws.last()[0] == '#' {
        Some(ascii_lower(ws.last().drop_first()))
    } else {
        None
    }
}

/// The search text after one turn of the rotation: the current filter word
/// is replaced by the next filter (or removed after the last one); the
/// words are joined by spaces, with a final space so that typing can go on.
pub open spec fn next_filter_text_spec(text: Seq<char>) -> Seq<char> {
    let ws = words(text);
    let cur = current_filter(ws);
    let kept = if cur is Some {
        ws.drop_last()
    } else {
        ws
    };
    let out = match cycle_next(cur) {
        Some(t) => kept.push(seq!['#'] + t),
        None => kept,
    };
    spaced(out)
}

fn cycle_position(c: &[char]) -> (r: Option<usize>)
    ensures
        match r {
            Some(i) => i < TYPE_CYCLE_LEN && c@ == type_cycle()[i as int] && forall|j: int|
                0 <= j < i ==> c@ != type_cycle()[j],
            None => forall|j: int| 0 <= j < TYPE_CYCLE_LEN ==> c@ != type_cycle()[j],
        },
{
    let mut i: usize = 0;
    while i < TYPE_CYCLE_LEN
        invariant
            i <= TYPE_CYCLE_LEN,
            forall|j: int| 0 <= j < i ==> c@ != type_cycle()[j],
        decreases TYPE_CYCLE_LEN - i,
    {
        if crate::model::eq_lit(c, type_cycle_at(i)) {
            return Some(i);
        }
        i = i + 1;
    }
    None
}

/// Turns the type-filter rotation one step in a search text.
pub fn next_filter_text(text: &str) -> (r: String)
    ensures
        r@ == next_filter_text_spec(text@),
{
    let chars = chars_of(text);
    let mut ws = split_words(chars.as_slice());
    let n = ws.len();
    let cur: Option<Vec<char>> = if n > 0 && ws[n - 1].len() > 0 && ws[n - 1][0] == '#' {
        let w = &ws[n - 1];
        let t = crate::text::copy_range(w.as_slice(), 1, w.len());
        assert(t@ =~= w@.drop_first());
        Some(lower_ascii(t.as_slice()))
    } else {
        None
    };
    let ghost vws = views(ws@);
    assert(vws.len() > 0 ==> vws.last() == ws@[n - 1]@);
    let next: Option<&'static str> = match &cur {
        None => Some(type_cycle_at(0)),
        Some(c) => match cycle_position(c.as_slice()) {
            Some(i) => if i + 1 == TYPE_CYCLE_LEN {
                None
            } else {
                Some(type_cycle_at(i + 1))
            },
            None => Some(type_cycle_at(0)),
        },
    };
    proof {
        reveal_strlit("pkg");
        reveal_strlit("mp4");
        reveal_strlit("gif");
        reveal_strlit("img");
        reveal_strlit("perso");
        reveal_strlit("steam");
        let cv = match &cur {
            Some(c) => Some(c@),
            None => None,
        };
        assert(cv == current_filter(vws));
        assert(match next {
            Some(t) => cycle_next(cv) == Some(t@),
            None => cycle_next(cv) is None,
        });
    }
    if cur.is_some() {
        ws.pop();
        assert(views(ws@) =~= vws.drop_last());
    }
    let ghost kept = views(ws@);
    match next {
        Some(t) => {
            let mut w: Vec<char> = Vec::new();
            w.push('#');
            append_chars(&mut w, chars_of(t).as_slice());
            ws.push(w);
            assert(views(ws@) =~= kept.push(seq!['#'] + t@));
        },
        None => {},
    }
    if ws.len() == 0 {
        assert(views(ws@).len() == 0);
        return String::new();
    }
    let sp = chars_of(" ");
    proof {
        reveal_strlit(" ");
        assert(sp@ =~= seq![' ']);
    }
    let mut out = join_chars(&ws, sp.as_slice());
    append_chars(&mut out, sp.as_slice());
    string_of(out.as_slice())
}

proof fn lemma_cycle_words()
    ensures
        forall|i: int|
            0 <= i < TYPE_CYCLE_LEN ==> is_word(seq!['#'] + #[trigger] type_cycle()[i])
                && ascii_lower(type_cycle()[i]) == type_cycle()[i],
{
    reveal_strlit("pkg");
    reveal_strlit("mp4");
    reveal_strlit("gif");
    reveal_strlit("img");
    reveal_strlit("perso");
    reveal_strlit("steam");
    assert forall|i: int| 0 <= i < TYPE_CYCLE_LEN implies is_word(
        seq!['#'] + #[trigger] type_cycle()[i],
    ) && ascii_lower(type_cycle()[i]) == type_cycle()[i] by {
        let t = type_cycle()[i];
        let w = seq!['#'] + t;
        assert(w.len() > 0);
        assert forall|j: int| 0 <= j < w.len() implies !crate::text::is_ws(#[trigger] w[j]) by {
            if j > 0 {
                assert(w[j] == t[j - 1]);
            }
        }
        assert(ascii_lower(t) =~= t);
    }
}

/// One turn of the type-filter rotation keeps the words typed before the
/// filter word, and the filter it leaves active is the next one of the
/// rotation (`#pkg`, `#mp4`, `#gif`, `#img`, `#perso`, `#steam`); after the
/// last one no filter word is left.
pub proof fn lemma_rotation_turn(text: Seq<char>)
    ensures
        ({
            let ws = words(text);
            let cur = current_filter(ws);
            let kept = if cur is Some {
                ws.drop_last()
            } else {
                ws
            };
            let nws = words(next_filter_text_spec(text));
            &&& nws.take(kept.len() as int) == kept
            &&& match cycle_next(cur) {
                Some(t) => nws.len() == kept.len() + 1 && current_filter(nws) == Some(t),
                None => nws == kept,
            }
        }),
{
    let ws = words(text);
    let cur = current_filter(ws);
    let kept = if cur is Some {
        ws.drop_last()
    } else {
        ws
    };
    lemma_words_are_words(text);
    lemma_cycle_words();
    assert forall|k: int| 0 <= k < kept.len() implies is_word(#[trigger] kept[k]) by {
        assert(kept[k] == ws[k]);
    }
    match cycle_next(cur) {
        Some(t) => {
            let out = kept.push(seq!['#'] + t);
            assert(exists|i: int| 0 <= i < TYPE_CYCLE_LEN && t == type_cycle()[i]);
            let i = choose|i: int| 0 <= i < TYPE_CYCLE_LEN && t == type_cycle()[i];
            assert(is_word(seq!['#'] + type_cycle()[i]));
            assert forall|k: int| 0 <= k < out.len() implies is_word(#[trigger] out[k]) by {
                if k < kept.len() {
                    assert(out[k] == kept[k]);
                }
            }
            lemma_words_of_spaced(out);
            assert(out.take(kept.len() as int) =~= kept);
            assert(out.last().drop_first() =~= t);
        },
        None => {
            lemma_words_of_spaced(kept);
            assert(kept.take(kept.len() as int) =~= kept);
        },
    }
}

// ---------------------------------------------------------------------------
// Selection
// ---------------------------------------------------------------------------

pub open spec fn is_header(r: RowView) -> bool {
    r is Header
}

/// The first index from `from` on that is past the end or not a header.
pub open spec fn skip_forward(rows: Seq<RowView>, from: int) -> int
    decreases rows.len() - from,
{
    if 0 <= from < rows.len() && is_header(rows[from]) {
        skip_forward(rows, from + 1)
    } else {
        from
    }
}

/// The last index from `from` down that is before the start, past the end,
/// or not a header.
pub open spec fn skip_backward(rows: Seq<RowView>, from: int) -> int
    decreases from + 1,
{
    if 0 <= from < rows.len() && is_header(rows[from]) {
        skip_backward(rows, from - 1)
    } else {
        from
    }
}

/// Moves `left` items from `idx` (-1 when nothing is selected), skipping
/// section headers, and stops at either end.
pub open spec fn move_spec(rows: Seq<RowView>, idx: int, fwd: bool, left: nat) -> int
    decreases left,
{
    if left == 0 {
        idx
    } else {
        let next = if fwd {
            skip_forward(rows, idx + 1)
        } else {
            skip_backward(rows, idx - 1)
        };
        if next < 0 || next >= rows.len() {
            idx
        } else {
            move_spec(rows, next, fwd, (left - 1) as nat)
        }
    }
}

/// The row to select after moving the selection by `delta` items (up when
/// negative): none when nothing changes.
pub open spec fn moved_selection_spec(rows: Seq<RowView>, selected: Option<usize>, delta: int) -> Option<int> {
    let start: int = match selected {
        Some(s) => s as int,
        None => -1,
    };
    if delta == 0 || rows.len() == 0 {
        None
    } else {
        let end = move_spec(rows, start, delta > 0, (if delta > 0 { delta } else { -delta }) as nat);
        if end >= 0 && end != start {
            Some(end)
        } else {
            None
        }
    }
}

proof fn lemma_skip_forward_lands(rows: Seq<RowView>, from: int)
    ensures
        0 <= skip_forward(rows, from) < rows.len() ==> !is_header(rows[skip_forward(rows, from)]),
        skip_forward(rows, from) >= from,
    decreases rows.len() - from,
{
    if 0 <= from < rows.len() && is_header(rows[from]) {
        lemma_skip_forward_lands(rows, from + 1);
    }
}

proof fn lemma_skip_backward_lands(rows: Seq<RowView>, from: int)
    ensures
        0 <= skip_backward(rows, from) < rows.len() ==> !is_header(rows[skip_backward(rows, from)]),
        skip_backward(rows, from) <= from,
    decreases from + 1,
{
    if 0 <= from < rows.len() && is_header(rows[from]) {
        lemma_skip_backward_lands(rows, from - 1);
    }
}

/// A move either leaves the selection where it is or lands on an item.
pub proof fn lemma_move_lands_on_item(rows: Seq<RowView>, idx: int, fwd: bool, left: nat)
    ensures
        move_spec(rows, idx, fwd, left) == idx || (0 <= move_spec(rows, idx, fwd, left) < rows.len()
            && !is_header(rows[move_spec(rows, idx, fwd, left)])),
    decreases left,
{
    if left > 0 {
        let next = if fwd {
            skip_forward(rows, idx + 1)
        } else {
            skip_backward(rows, idx - 1)
        };
        lemma_skip_forward_lands(rows, idx + 1);
        lemma_skip_backward_lands(rows, idx - 1);
        if 0 <= next < rows.len() {
            lemma_move_lands_on_item(rows, next, fwd, (left - 1) as nat);
        }
    }
}

fn is_header_at(rows: &Vec<Row>, i: usize) -> (r: bool)
    requires
        i < rows@.len(),
    ensures
        r == is_header(row_views(rows@)[i as int]),
{
    match &rows[i] {
        Row::Header { .. } => true,
        Row::Item(_) => false,
    }
}

/// The index of an optional position, -1 for none.
pub open spec fn pos_int(p: Option<usize>) -> int {
    match p {
        Some(i) => i as int,
        None => -1,
    }
}

/// One step: the next item in the direction, if any.
fn step(rows: &Vec<Row>, idx: Option<usize>, fwd: bool) -> (r: Option<usize>)
    ensures
        ({
            let rv = row_views(rows@);
            let next = if fwd {
                skip_forward(rv, pos_int(idx) + 1)
            } else {
                skip_backward(rv, pos_int(idx) - 1)
            };
            match r {
                Some(n) => n == next && 0 <= next < rv.len(),
                None => next < 0 || next >= rv.len(),
            }
        }),
{
    let ghost rv = row_views(rows@);
    let n = rows.len();
    if fwd {
        let mut c: usize = match idx {
            Some(i) => {
                if i >= n {
                    return None;
                }
                i + 1
            },
            None => 0,
        };
        while c < n && is_header_at(rows, c)
            invariant
                n == rows@.len(),
                rv == row_views(rows@),
                c <= n,
                skip_forward(rv, pos_int(idx) + 1) == skip_forward(rv, c as int),
            decreases n - c,
        {
            c = c + 1;
        }
        if c < n {
            Some(c)
        } else {
            None
        }
    } else {
        let i = match idx {
            Some(i) => i,
            None => return None,
        };
        if i == 0 {
            return None;
        }
        let mut c: usize = i - 1;
        if c >= n {
            return None;
        }
        loop
            invariant
                n == rows@.len(),
                rv == row_views(rows@),
                idx == Some(i),
                !fwd,
                c < n,
                skip_backward(rv, i - 1) == skip_backward(rv, c as int),
            decreases c,
        {
            if !is_header_at(rows, c) {
                return Some(c);
            }
            if c == 0 {
                assert(skip_backward(rv, -1) == -1);
                return None;
            }
            c = c - 1;
        }
    }
}

/// The row to select after moving by `delta` items, skipping section
/// headers: none when the selection stays where it is.
pub fn moved_selection(rows: &Vec<Row>, selected: Option<usize>, delta: i32) -> (r: Option<usize>)
    ensures
        match r {
            Some(i) => moved_selection_spec(row_views(rows@), selected, delta as int) == Some(i as int),
            None => moved_selection_spec(row_views(rows@), selected, delta as int) is None,
        },
        r matches Some(i) ==> i < rows@.len() && !is_header(row_views(rows@)[i as int]),
{
    let ghost rv = row_views(rows@);
    if delta == 0 || rows.len() == 0 {
        return None;
    }
    let fwd = delta > 0;
    let total: u32 = if delta > 0 {
        delta as u32
    } else {
        (0 - (delta as i64)) as u32
    };
    assert(total as int == (if delta > 0 { delta as int } else { -delta }));
    let mut left: u32 = total;
    let mut idx: Option<usize> = selected;
    while left > 0
        invariant
            rv == row_views(rows@),
            move_spec(rv, pos_int(selected), fwd, total as nat) == move_spec(
                rv,
                pos_int(idx),
                fwd,
                left as nat,
            ),
        decreases left,
    {
        match step(rows, idx, fwd) {
            None => {
                assert(move_spec(rv, pos_int(idx), fwd, left as nat) == pos_int(idx));
                left = 0;
            },
            Some(c) => {
                idx = Some(c);
                left = left - 1;
            },
        }
    }
    proof {
        lemma_move_lands_on_item(rv, pos_int(selected), fwd, total as nat);
    }
    match idx {
        None => None,
        Some(e) => match selected {
            Some(s) => if e != s {
                Some(e)
            } else {
                None
            },
            None => Some(e),
        },
    }
}

/// The first row that is an item.
pub fn first_item_row(rows: &Vec<Row>) -> (r: Option<usize>)
    ensures
        match r {
            Some(i) => i < rows@.len() && !is_header(row_views(rows@)[i as int]) && forall|j: int|
                0 <= j < i ==> is_header(#[trigger] row_views(rows@)[j]),
            None => forall|j: int| 0 <= j < rows@.len() ==> is_header(#[trigger] row_views(rows@)[j]),
        },
{
    let mut i: usize = 0;
    while i < rows.len()
        invariant
            i <= rows@.len(),
            forall|j: int| 0 <= j < i ==> is_header(#[trigger] row_views(rows@)[j]),
        decreases rows@.len() - i,
    {
        if !is_header_at(rows, i) {
            return Some(i);
        }
        i = i + 1;
    }
    None
}

/// The last row that is an item.
pub fn last_item_row(rows: &Vec<Row>) -> (r: Option<usize>)
    ensures
        match r {
            Some(i) => i < rows@.len() && !is_header(row_views(rows@)[i as int]) && forall|j: int|
                i < j < rows@.len() ==> is_header(#[trigger] row_views(rows@)[j]),
            None => forall|j: int| 0 <= j < rows@.len() ==> is_header(#[trigger] row_views(rows@)[j]),
        },
{
    let mut i: usize = rows.len();
    while i > 0
        invariant
            i <= rows@.len(),
            forall|j: int| i <= j < rows@.len() ==> is_header(#[trigger] row_views(rows@)[j]),
        decreases i,
    {
        if !is_header_at(rows, i - 1) {
            return Some(i - 1);
        }
        i = i - 1;
    }
    None
}

/// The catalogue index of the selected row, when it is an item.
pub fn item_at(rows: &Vec<Row>, selected: Option<usize>) -> (r: Option<usize>)
    ensures
        r == (match selected {
            Some(s) => if s < rows@.len() {
                match row_views(rows@)[s as int] {
                    RowView::Item(i) => Some(i as usize),
                    RowView::Header(_) => None,
                }
            } else {
                None
            },
            None => None,
        }),
{
    match selected {
        None => None,
        Some(s) => if s < rows.len() {
            match &rows[s] {
                Row::Item(i) => Some(*i),
                Row::Header { .. } => None,
            }
        } else {
            None
        },
    }
}

/// Whether row `r` shows the entry whose identifier is `id`.
pub open spec fn shows_id(all: Seq<Wallpaper>, r: RowView, id: Seq<char>) -> bool {
    match r {
        RowView::Item(i) => i < all.len() && all[i as int].id@ == id,
        RowView::Header(_) => false,
    }
}

/// The first row showing the entry `id`.
pub fn row_of_id(rows: &Vec<Row>, all: &Vec<Wallpaper>, id: &str) -> (r: Option<usize>)
    ensures
        match r {
            Some(i) => i < rows@.len() && shows_id(all@, row_views(rows@)[i as int], id@) && forall|
                j: int,
            | 0 <= j < i ==> !shows_id(all@, #[trigger] row_views(rows@)[j], id@),
            None => forall|j: int|
                0 <= j < rows@.len() ==> !shows_id(all@, #[trigger] row_views(rows@)[j], id@),
        },
{
    let mut i: usize = 0;
    while i < rows.len()
        invariant
            i <= rows@.len(),
            forall|j: int| 0 <= j < i ==> !shows_id(all@, #[trigger] row_views(rows@)[j], id@),
        decreases rows@.len() - i,
    {
        match &rows[i] {
            Row::Item(k) => {
                if *k < all.len() && crate::text::str_eq(all[*k].id.as_str(), id) {
                    return Some(i);
                }
            },
            Row::Header { .. } => {},
        }
        i = i + 1;
    }
    None
}

/// Whether two row lists show the same thing.
pub fn rows_equal(a: &Vec<Row>, b: &Vec<Row>) -> (r: bool)
    ensures
        r == (row_views(a@) == row_views(b@)),
{
    if a.len() != b.len() {
        assert(row_views(a@).len() != row_views(b@).len());
        return false;
    }
    let mut i: usize = 0;
    while i < a.len()
        invariant
            a@.len() == b@.len(),
            i <= a@.len(),
            forall|j: int| 0 <= j < i ==> row_views(a@)[j] == row_views(b@)[j],
        decreases a@.len() - i,
    {
        let same = match (&a[i], &b[i]) {
            (Row::Item(x), Row::Item(y)) => *x == *y,
            (Row::Header { text: x }, Row::Header { text: y }) => crate::text::str_eq(
                x.as_str(),
                y.as_str(),
            ),
            _ => false,
        };
        if !same {
            assert(row_views(a@)[i as int] != row_views(b@)[i as int]);
            return false;
        }
        i = i + 1;
    }
    assert(row_views(a@) =~= row_views(b@));
    true
}

/// The row selected after rebuilding the list: the one showing `keep_id`
/// when given and shown, else the first item.
pub fn selection_after_refilter(rows: &Vec<Row>, all: &Vec<Wallpaper>, keep_id: Option<&str>) -> (r: Option<usize>)
    ensures
        ({
            let kept = match keep_id {
                Some(id) => exists|j: int|
                    0 <= j < rows@.len() && shows_id(all@, #[trigger] row_views(rows@)[j], id@),
                None => false,
            };
            kept ==> (r matches Some(i) && i < rows@.len() && shows_id(
                all@,
                row_views(rows@)[i as int],
                keep_id->0@,
            ) && forall|j: int|
                0 <= j < i ==> !shows_id(all@, #[trigger] row_views(rows@)[j], keep_id->0@))
        }),
        ({
            let kept = match keep_id {
                Some(id) => exists|j: int|
                    0 <= j < rows@.len() && shows_id(all@, #[trigger] row_views(rows@)[j], id@),
                None => false,
            };
            !kept ==> match r {
                Some(i) => i < rows@.len() && !is_header(row_views(rows@)[i as int]) && forall|
                    j: int,
                | 0 <= j < i ==> is_header(#[trigger] row_views(rows@)[j]),
                None => forall|j: int|
                    0 <= j < rows@.len() ==> is_header(#[trigger] row_views(rows@)[j]),
            }
        }),
{
    if let Some(id) = keep_id {
        if let Some(i) = row_of_id(rows, all, id) {
            return Some(i);
        }
    }
    first_item_row(rows)
}

/// The status line: the active filter, the rows shown, the favourites and
/// the size of the catalogue.
pub open spec fn status_spec(filter: Option<Seq<char>>, shown: nat, favs: nat, total: nat) -> Seq<char> {
    (match filter {
        Some(f) => "type "@ + f + " · "@,
        None => Seq::empty(),
    }) + decimal(shown) + " affichés · "@ + decimal(favs) + " favoris · "@ + decimal(total)
        + " au total"@
}

pub fn status_text(filter: Option<&str>, shown: usize, favs: usize, total: usize) -> (r: String)
    ensures
        r@ == status_spec(
            match filter {
                Some(f) => Some(f@),
                None => None,
            },
            shown as nat,
            favs as nat,
            total as nat,
        ),
{
    let mut out: Vec<char> = Vec::new();
    match filter {
        Some(f) => {
            append_chars(&mut out, chars_of("type ").as_slice());
            append_chars(&mut out, chars_of(f).as_slice());
            append_chars(&mut out, chars_of(" · ").as_slice());
        },
        None => {},
    }
    append_chars(&mut out, decimal_chars(shown).as_slice());
    append_chars(&mut out, chars_of(" affichés · ").as_slice());
    append_chars(&mut out, decimal_chars(favs).as_slice());
    append_chars(&mut out, chars_of(" favoris · ").as_slice());
    append_chars(&mut out, decimal_chars(total).as_slice());
    append_chars(&mut out, chars_of(" au total").as_slice());
    string_of(out.as_slice())
}

/// The entries with their favourite flags taken from `favs`.
pub open spec fn with_flags(all: Seq<Wallpaper>, favs: Favorites) -> Seq<Wallpaper> {
    Seq::new(
        all.len(),
        |k: int| Wallpaper { favorite: favs.is_favorite_spec(all[k].id@), ..all[k] },
    )
}

/// Copies the favourites file's state into the entries, then puts them back
/// in display order.
pub fn sync_favorites(all: &mut Vec<Wallpaper>, favs: &Favorites)
    requires
        favs.wf(),
    ensures
        is_display_sort(with_flags(old(all)@, *favs), final(all)@),
{
    let ghost start = all@;
    let mut i: usize = 0;
    while i < all.len()
        invariant
            favs.wf(),
            i <= all@.len(),
            all@.len() == start.len(),
            forall|k: int| 0 <= k < i ==> #[trigger] all@[k] == with_flags(start, *favs)[k],
            forall|k: int| i <= k < all@.len() ==> #[trigger] all@[k] == start[k],
        decreases all@.len() - i,
    {
        let mut w = all.remove(i);
        let f = favs.is_favorite(w.id.as_str());
        w.favorite = f;
        all.insert(i, w);
        i = i + 1;
    }
    assert(all@ =~= with_flags(start, *favs));
    sort_for_display(all);
}

/// Whether the window is shown when the resident process starts for a
/// command: always, but for `hide`.
pub fn shows_on_start(cmd: Command) -> (r: bool)
    ensures
        r == (cmd != Command::Hide),
{
    match cmd {
        Command::Hide => false,
        _ => true,
    }
}


// ---------------------------------------------------------------------------
// Keys and row labels
// ---------------------------------------------------------------------------

/// A key of the keyboard, as far as the window tells keys apart: the keypad
/// arrows count as arrows, and every Enter key as `Enter`.
#[derive(Clone, Copy, Debug, PartialEq, Eq, Structural)]
pub enum Key {
    Escape,
    Up,
    Down,
    PageUp,
    Home,
    PageDown,
    End,
    Enter,
    Tab,
    /// A key that types this character.
    Char(char),
    Other,
}

/// What a key does in the window.
#[derive(Clone, Copy, Debug, PartialEq, Eq, Structural)]
pub enum KeyAction {
    Hide,
    /// Move the selection by this many items.
    Move(i32),
    First,
    Last,
    Activate,
    ToggleFavorite,
    CycleFilter,
}

/// The window's keys: Escape hides; the arrows, `Ctrl+N`/`Ctrl+J` and
/// `Ctrl+P`/`Ctrl+K` move; Page Up and Home go to the first result, Page
/// Down and End to the last; Enter applies; Tab and `Ctrl+F` pin or unpin;
/// `Ctrl+T` turns the type filter. Any other key goes on to the search field.
pub open spec fn key_action_spec(k: Key, ctrl: bool) -> Option<KeyAction> {
    match k {
        Key::Escape => Some(KeyAction::Hide),
        Key::Up => Some(KeyAction::Move(-1i32)),
        Key::Down => Some(KeyAction::Move(1i32)),
        Key::PageUp | Key::Home => Some(KeyAction::First),
        Key::PageDown | Key::End => Some(KeyAction::Last),
        Key::Enter => Some(KeyAction::Activate),
        Key::Tab => Some(KeyAction::ToggleFavorite),
        Key::Char(c) => if !ctrl {
            None
        } else if c == 'f' || c == 'F' {
            Some(KeyAction::ToggleFavorite)
        } else if c == 't' || c == 'T' {
            Some(KeyAction::CycleFilter)
        } else if c == 'n' || c == 'j' {
            Some(KeyAction::Move(1i32))
        } else if c == 'p' || c == 'k' {
            Some(KeyAction::Move(-1i32))
        } else {
            None
        },
        Key::Other => None,
    }
}

/// What the key `k` does, `ctrl` telling whether Control is held; none when
/// the key is left to the search field.
pub fn key_action(k: Key, ctrl: bool) -> (r: Option<KeyAction>)
    ensures
        r == key_action_spec(k, ctrl),
{
    match k {
        Key::Escape => Some(KeyAction::Hide),
        Key::Up => Some(KeyAction::Move(-1)),
        Key::Down => Some(KeyAction::Move(1)),
        Key::PageUp | Key::Home => Some(KeyAction::First),
        Key::PageDown | Key::End => Some(KeyAction::Last),
        Key::Enter => Some(KeyAction::Activate),
        Key::Tab => Some(KeyAction::ToggleFavorite),
        Key::Char(c) => if !ctrl {
            None
        } else if c == 'f' || c == 'F' {
            Some(KeyAction::ToggleFavorite)
        } else if c == 't' || c == 'T' {
            Some(KeyAction::CycleFilter)
        } else if c == 'n' || c == 'j' {
            Some(KeyAction::Move(1))
        } else if c == 'p' || c == 'k' {
            Some(KeyAction::Move(-1))
        } else {
            None
        },
        Key::Other => None,
    }
}

/// The second line of an entry's row: a dot first when it is the wallpaper
/// shown now, then its subtitle.
pub open spec fn row_subtitle_spec(w: Wallpaper, applied: bool) -> Seq<char> {
    (if applied {
        "● "@
    } else {
        Seq::empty()
    }) + subtitle_of(w)
}

/// The star shown at the end of a favourite's row.
pub open spec fn row_star_spec(favorite: bool) -> Seq<char> {
    if favorite {
        "★"@
    } else {
        Seq::empty()
    }
}

/// The texts of an entry's row: its title, its second line, and its star.
pub fn row_labels(w: &Wallpaper, applied: bool) -> (r: (String, String, &'static str))
    ensures
        r.0@ == w.title@,
        r.1@ == row_subtitle_spec(*w, applied),
        r.2@ == row_star_spec(w.favorite),
{
    let mut sub = if applied {
        chars_of("● ")
    } else {
        Vec::new()
    };
    let tail = chars_of(w.subtitle().as_str());
    append_chars(&mut sub, tail.as_slice());
    proof {
        reveal_strlit("");
    }
    let star = if w.favorite {
        "★"
    } else {
        ""
    };
    (w.title.clone(), string_of(sub.as_slice()), star)
}


/// The free-text search looks in both the title and the identifier, each in
/// lowercase: with no type filter and a non-empty text, an entry answers the
/// query exactly when its lowercase title or its lowercase identifier holds
/// the text; with filters, it must also answer one of them.
pub proof fn lemma_text_search_title_or_id(q: Query, w: Wallpaper)
    ensures
        q.text@.len() > 0 ==> (q.matches_spec(w) ==> (has_sub(unicode_lowercase(w.title@), q.text@)
            || has_sub(unicode_lowercase(w.id@), q.text@))),
        q.types_view().len() == 0 && has_sub(unicode_lowercase(w.title@), q.text@)
            ==> q.matches_spec(w),
        q.types_view().len() == 0 && has_sub(unicode_lowercase(w.id@), q.text@)
            ==> q.matches_spec(w),
        q.types_view().len() == 0 && q.text@.len() == 0 ==> q.matches_spec(w),
        q.matches_spec(w) && q.types_view().len() > 0 ==> exists|i: int|
            0 <= i < q.types_view().len() && matches_type_spec(w, #[trigger] q.types_view()[i]),
{
}

} // verus!