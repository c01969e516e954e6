//! Favourites and their file format.
//!
//! The format is meant to be read and edited by hand, one entry per line:
//!
//! ```text
//! # Wallpaper Selector — favoris
//! steam:1355236618      → favourite: yes
//! perso:neocity.png     → favourite: yes
//! !perso:kirokaze.gif   → favourite: no (explicit, takes precedence)
//! ```
//!
//! Identifiers are those of `Wallpaper::id`.

use vstd::prelude::*;

use crate::text::{
    append_chars, chars_eq, chars_lt, chars_of, copy_range, eq_pred, lemma_lex_asymmetric,
    lemma_lex_irreflexive, lemma_lex_total, lemma_lex_transitive, lemma_split_by_len, lex_lt,
    lines, split_by, split_lines, strip_cr, string_of, string_views, trim, trim_by, trim_end_by,
    trim_start_by, trim_ws, views, is_ws, ws_pred, text_of_lines, lemma_lines_of_text,
    has_no, lemma_trim_end_keeps_first,
};

verus! {

broadcast use vstd::string::group_string_axioms;

// ---------------------------------------------------------------------------
// Reading the file
// ---------------------------------------------------------------------------

/// What one line of the file says: nothing (blank or `#` comment), "yes"
/// for an identifier, or "no" for an identifier after `!`.
pub open spec fn fav_entry(l: Seq<char>) -> Option<(bool, Seq<char>)> {
    let t = trim(l);
    if t.len() == 0 || t[0] == '#' {
        None
    } else if t[0] == '!' {
        Some((false, trim(t.drop_first())))
    } else {
        Some((true, t))
    }
}

/// The identifiers that some line of `ls` marks with `flag`.
pub open spec fn ids_marked(ls: Seq<Seq<char>>, flag: bool) -> Set<Seq<char>> {
    Set::new(|id: Seq<char>| exists|k: int| 0 <= k < ls.len() && fav_entry(ls[k]) == Some((flag, id)))
}

/// The identifiers that a file's text marks as favourites.
pub open spec fn parsed_yes(text: Seq<char>) -> Set<Seq<char>> {
    ids_marked(lines(text), true)
}

/// The identifiers that a file's text marks as explicitly not favourite.
pub open spec fn parsed_no(text: Seq<char>) -> Set<Seq<char>> {
    ids_marked(lines(text), false)
}

// ---------------------------------------------------------------------------
// Writing the file
// ---------------------------------------------------------------------------

pub open spec fn header_lines() -> Seq<Seq<char>> {
    seq![
        "# Wallpaper Selector — favoris"@,
        "# Une ligne = un identifiant. Prefixer par '!' force « non favori »."@,
        "# Les identifiants sont des dossiers Steam ou des fichiers perso."@,
        Seq::empty(),
    ]
}

/// `!` before each identifier.
pub open spec fn negated(ids: Seq<Seq<char>>) -> Seq<Seq<char>> {
    ids.map_values(|id: Seq<char>| seq!['!'] + id)
}

/// The lines of a saved file: the header, the favourites, then the
/// identifiers marked "no" behind `!`.
pub open spec fn saved_lines(yes: Seq<Seq<char>>, no: Seq<Seq<char>>) -> Seq<Seq<char>> {
    header_lines() + yes + negated(no)
}

/// Strictly increasing in code-point order, hence without repetition.
pub open spec fn strictly_sorted(s: Seq<Seq<char>>) -> bool {
    forall|k: int, l: int| 0 <= k < l < s.len() ==> lex_lt(s[k], s[l])
}

// ---------------------------------------------------------------------------
// The set of favourites
// ---------------------------------------------------------------------------

#[derive(Debug, Clone)]
pub struct Favorites {
    yes: Vec<String>,
    no: Vec<String>,
    path: String,
}

impl Favorites {
    /// The favourites, in increasing order.
    pub closed spec fn yes_ids(self) -> Seq<Seq<char>> {
        string_views(self.yes@)
    }

    /// The identifiers marked "no", in increasing order.
    pub closed spec fn no_ids(self) -> Seq<Seq<char>> {
        string_views(self.no@)
    }

    /// The file the favourites are kept in.
    pub closed spec fn path_view(self) -> Seq<char> {
        self.path@
    }

    pub open spec fn yes_set(self) -> Set<Seq<char>> {
        self.yes_ids().to_set()
    }

    pub open spec fn no_set(self) -> Set<Seq<char>> {
        self.no_ids().to_set()
    }

    pub open spec fn wf(self) -> bool {
        strictly_sorted(self.yes_ids()) && strictly_sorted(self.no_ids())
    }

    /// An identifier is a favourite when it is listed and not marked "no".
    pub open spec fn is_favorite_spec(self, id: Seq<char>) -> bool {
        self.yes_set().contains(id) && !self.no_set().contains(id)
    }

    /// The text `save` writes.
    pub open spec fn saved_text(self) -> Seq<char> {
        text_of_lines(saved_lines(self.yes_ids(), self.no_ids()))
    }

    /// No favourite yet, kept in the file `path`.
    pub fn new(path: String) -> (f: Favorites)
        ensures
            f.wf(),
            f.yes_set().is_empty(),
            f.no_set().is_empty(),
            f.path_view() == path@,
    {
        let f = Favorites { yes: Vec::new(), no: Vec::new(), path };
        assert(f.yes_ids() =~= Seq::<Seq<char>>::empty());
        assert(f.no_ids() =~= Seq::<Seq<char>>::empty());
        assert(f.yes_set() =~= Set::<Seq<char>>::empty());
        assert(f.no_set() =~= Set::<Seq<char>>::empty());
        f
    }

    /// The file the favourites are kept in.
    pub fn path(&self) -> (r: &String)
        ensures
            r@ == self.path_view(),
    {
        &self.path
    }

    /// Replaces the state by what the file's text says.
    pub fn parse(&mut self, text: &str)
        ensures
            final(self).wf(),
            final(self).yes_set() == parsed_yes(text@),
            final(self).no_set() == parsed_no(text@),
            final(self).path_view() == old(self).path_view(),
    {
        self.yes = Vec::new();
        self.no = Vec::new();
        let chars = chars_of(text);
        let ls = split_lines(chars.as_slice());
        let ghost lv = views(ls@);
        let mut i: usize = 0;
        assert(self.yes_ids() =~= Seq::<Seq<char>>::empty());
        assert(self.no_ids() =~= Seq::<Seq<char>>::empty());
        assert(self.yes_set() =~= ids_marked(lv.take(0), true));
        assert(self.no_set() =~= ids_marked(lv.take(0), false));
        while i < ls.len()
            invariant
                i <= ls@.len(),
                lv == views(ls@),
                lv == lines(text@),
                self.wf(),
                self.path_view() == old(self).path_view(),
                self.yes_set() == ids_marked(lv.take(i as int), true),
                self.no_set() == ids_marked(lv.take(i as int), false),
            decreases ls@.len() - i,
        {
            let t = trim_ws(ls[i].as_slice());
            let ghost entry = fav_entry(lv[i as int]);
            let ghost before_yes = self.yes_set();
            let ghost before_no = self.no_set();
            assert(lv[i as int] == ls@[i as int]@);
            if t.len() == 0 || t[0] == '#' {
                assert(entry is None);
            } else if t[0] == '!' {
                let rest = copy_range(t.as_slice(), 1, t.len());
                assert(rest@ =~= t@.drop_first());
                let id = trim_ws(rest.as_slice());
                insert_sorted(&mut self.no, id.as_slice());
                assert(entry == Some((false, id@)));
            } else {
                insert_sorted(&mut self.yes, t.as_slice());
                assert(entry == Some((true, t@)));
            }
            proof {
                let a = lv.take(i as int);
                let b = lv.take(i + 1 as int);
                assert(b =~= a.push(lv[i as int]));
                lemma_ids_marked_push(a, lv[i as int], true);
                lemma_ids_marked_push(a, lv[i as int], false);
            }
            i = i + 1;
        }
        assert(lv.take(ls@.len() as int) =~= lv);
    }

    pub fn is_favorite(&self, id: &str) -> (r: bool)
        requires
            self.wf(),
        ensures
            r == self.is_favorite_spec(id@),
    {
        let c = chars_of(id);
        let (in_yes, _) = find_sorted(&self.yes, c.as_slice());
        if !in_yes {
            return false;
        }
        let (in_no, _) = find_sorted(&self.no, c.as_slice());
        !in_no
    }

    /// Marks `id` as favourite (and lifts a "no" on it), or takes it out of
    /// the favourites; returns the number of favourites listed afterwards.
    pub fn set(&mut self, id: &str, favorite: bool) -> (n: usize)
        requires
            old(self).wf(),
        ensures
            n == final(self).yes_set().len(),
            final(self).wf(),
            final(self).path_view() == old(self).path_view(),
            favorite ==> final(self).yes_set() == old(self).yes_set().insert(id@),
            favorite ==> final(self).no_set() == old(self).no_set().remove(id@),
            !favorite ==> final(self).yes_set() == old(self).yes_set().remove(id@),
            !favorite ==> final(self).no_set() == old(self).no_set(),
            final(self).is_favorite_spec(id@) == favorite,
            forall|other: Seq<char>|
                other != id@ ==> final(self).is_favorite_spec(other) == old(self).is_favorite_spec(
                    other,
                ),
    {
        let c = chars_of(id);
        if favorite {
            remove_sorted(&mut self.no, c.as_slice());
            insert_sorted(&mut self.yes, c.as_slice());
        } else {
            remove_sorted(&mut self.yes, c.as_slice());
        }
        self.len()
    }

    /// The number of favourites listed.
    pub fn len(&self) -> (r: usize)
        requires
            self.wf(),
        ensures
            r == self.yes_set().len(),
    {
        proof {
            lemma_sorted_no_duplicates(self.yes_ids());
            self.yes_ids().unique_seq_to_set();
        }
        self.yes.len()
    }

    /// The file's text: a header, the favourites in increasing order, then
    /// the identifiers marked "no" behind `!`, one per line.
    pub fn to_text(&self) -> (r: String)
        ensures
            r@ == self.saved_text(),
    {
        let mut out: Vec<char> = Vec::new();
        let ghost hl = header_lines();
        proof {
            reveal_strlit("# Wallpaper Selector — favoris");
            reveal_strlit("# Une ligne = un identifiant. Prefixer par '!' force « non favori ».");
            reveal_strlit("# Les identifiants sont des dossiers Steam ou des fichiers perso.");
        }
        let nl = chars_of("\n");
        proof {
            reveal_strlit("\n");
        }
        assert(nl@ =~= seq!['\n']);
        assert(hl.take(0) =~= Seq::<Seq<char>>::empty());
        let h1 = chars_of("# Wallpaper Selector — favoris");
        append_chars(&mut out, h1.as_slice());
        append_chars(&mut out, nl.as_slice());
        assert(hl.take(1).drop_last() =~= hl.take(0));
        assert(hl.take(1).last() == h1@);
        assert(text_of_lines(hl.take(0)) =~= Seq::<char>::empty());
        assert(out@ =~= text_of_lines(hl.take(1)));
        let h2 = chars_of("# Une ligne = un identifiant. Prefixer par '!' force « non favori ».");
        append_chars(&mut out, h2.as_slice());
        append_chars(&mut out, nl.as_slice());
        assert(hl.take(2).drop_last() =~= hl.take(1));
        assert(out@ =~= text_of_lines(hl.take(2)));
        let h3 = chars_of("# Les identifiants sont des dossiers Steam ou des fichiers perso.");
        append_chars(&mut out, h3.as_slice());
        append_chars(&mut out, nl.as_slice());
        assert(hl.take(3).drop_last() =~= hl.take(2));
        assert(out@ =~= text_of_lines(hl.take(3)));
        append_chars(&mut out, nl.as_slice());
        assert(hl.take(4).drop_last() =~= hl.take(3));
        assert(out@ =~= text_of_lines(hl.take(4)));
        assert(hl.take(4) =~= hl);
        let ghost ys = self.yes_ids();
        assert(hl + ys.take(0) =~= hl);
        let mut i: usize = 0;
        while i < self.yes.len()
            invariant
                i <= self.yes@.len(),
                ys == self.yes_ids(),
                nl@ == seq!['\n'],
                out@ == text_of_lines(hl + ys.take(i as int)),
            decreases self.yes@.len() - i,
        {
            let id = chars_of(self.yes[i].as_str());
            append_chars(&mut out, id.as_slice());
            append_chars(&mut out, nl.as_slice());
            assert((hl + ys.take(i + 1 as int)).drop_last() =~= hl + ys.take(i as int));
            assert(ys[i as int] == self.yes@[i as int]@);
            i = i + 1;
        }
        assert(ys.take(self.yes@.len() as int) =~= ys);
        let ghost ns = negated(self.no_ids());
        assert(hl + ys + ns.take(0) =~= hl + ys);
        let mut j: usize = 0;
        while j < self.no.len()
            invariant
                j <= self.no@.len(),
                ns == negated(self.no_ids()),
                nl@ == seq!['\n'],
                out@ == text_of_lines(hl + ys + ns.take(j as int)),
            decreases self.no@.len() - j,
        {
            let mut line: Vec<char> = Vec::new();
            line.push('!');
            let id = chars_of(self.no[j].as_str());
            append_chars(&mut line, id.as_slice());
            append_chars(&mut out, line.as_slice());
            append_chars(&mut out, nl.as_slice());
            assert((hl + ys + ns.take(j + 1 as int)).drop_last() =~= hl + ys + ns.take(j as int));
            assert(line@ =~= seq!['!'] + self.no@[j as int]@);
            assert(ns[j as int] == seq!['!'] + self.no_ids()[j as int]);
            j = j + 1;
        }
        assert(ns.take(self.no@.len() as int) =~= ns);
        assert(hl + ys + ns =~= saved_lines(self.yes_ids(), self.no_ids()));
        string_of(out.as_slice())
    }
}

// ---------------------------------------------------------------------------
// Reading back what was written
// ---------------------------------------------------------------------------

/// An identifier that a "yes" line gives back as it is: not empty, without
/// white space at either end, not starting with `#` or `!`, on one line.
pub open spec fn clean_yes_id(id: Seq<char>) -> bool {
    &&& id.len() > 0
    &&& !is_ws(id[0])
    &&& !is_ws(id.last())
    &&& id[0] != '#'
    &&& id[0] != '!'
    &&& has_no(id, '\n')
}

/// An identifier that a `!` line gives back as it is: without white space at
/// either end, on one line.
pub open spec fn clean_no_id(id: Seq<char>) -> bool {
    &&& (id.len() == 0 || (!is_ws(id[0]) && !is_ws(id.last())))
    &&& has_no(id, '\n')
}

proof fn lemma_trim_clean(id: Seq<char>)
    requires
        id.len() == 0 || (!is_ws(id[0]) && !is_ws(id.last())),
    ensures
        trim(id) == id,
{
    if id.len() > 0 {
        assert(trim_start_by(id, ws_pred()) == id);
        assert(trim_end_by(id, ws_pred()) == id);
    }
}

/// What `save` writes, `parse` reads back: the same favourites and the same
/// identifiers marked "no", for identifiers that fit on a line as they are.
pub proof fn lemma_saved_text_parses_back(f: Favorites)
    requires
        f.wf(),
        forall|id: Seq<char>| f.yes_set().contains(id) ==> clean_yes_id(id),
        forall|id: Seq<char>| f.no_set().contains(id) ==> clean_no_id(id),
    ensures
        parsed_yes(f.saved_text()) == f.yes_set(),
        parsed_no(f.saved_text()) == f.no_set(),
{
    let ys = f.yes_ids();
    let ns = f.no_ids();
    let hl = header_lines();
    let ls = saved_lines(ys, ns);
    reveal_strlit("# Wallpaper Selector — favoris");
    reveal_strlit("# Une ligne = un identifiant. Prefixer par '!' force « non favori ».");
    reveal_strlit("# Les identifiants sont des dossiers Steam ou des fichiers perso.");
    let h = hl.len() as int;
    let y = ys.len() as int;
    assert forall|k: int| 0 <= k < ls.len() implies has_no(#[trigger] ls[k], '\n') && strip_cr(
        ls[k],
    ) == ls[k] && fav_entry(ls[k]) == (if k < h {
        None
    } else if k < h + y {
        Some((true, ys[k - h]))
    } else {
        Some((false, ns[k - h - y]))
    }) by {
        if k < h {
            let l = hl[k];
            assert(ls[k] == l);
            if k < 3 {
                assert(l[0] == '#');
                assert(!is_ws(l[0]));
                assert(trim_start_by(l, ws_pred()) == l);
                lemma_trim_end_keeps_first(l, ws_pred());
            } else {
                assert(l.len() == 0);
            }
        } else if k < h + y {
            let id = ys[k - h];
            assert(ls[k] == id);
            assert(ys.contains(id));
            assert(f.yes_set().contains(id));
            assert(clean_yes_id(id));
            lemma_trim_clean(id);
        } else {
            let id = ns[k - h - y];
            assert(ns.contains(id));
            assert(f.no_set().contains(id));
            assert(clean_no_id(id));
            let l = seq!['!'] + id;
            assert(ls[k] == l);
            assert(l[0] == '!');
            assert forall|i: int| 0 <= i < l.len() implies l[i] != '\n' by {
                if i > 0 {
                    assert(l[i] == id[i - 1]);
                }
            }
            assert(trim_start_by(l, ws_pred()) == l);
            assert(trim_end_by(l, ws_pred()) == l);
            assert(l.drop_first() =~= id);
            lemma_trim_clean(id);
        }
    }
    lemma_lines_of_text(ls);
    assert(lines(f.saved_text()) == ls);
    assert forall|id: Seq<char>| ids_marked(ls, true).contains(id) <==> f.yes_set().contains(id) by {
        if ids_marked(ls, true).contains(id) {
            let k = choose|k: int| 0 <= k < ls.len() && fav_entry(ls[k]) == Some((true, id));
            assert(k >= h && k < h + y);
            assert(ys[k - h] == id);
        }
        if f.yes_set().contains(id) {
            let j = choose|j: int| 0 <= j < ys.len() && ys[j] == id;
            assert(fav_entry(ls[h + j]) == Some((true, id)));
        }
    }
    assert forall|id: Seq<char>| ids_marked(ls, false).contains(id) <==> f.no_set().contains(id) by {
        if ids_marked(ls, false).contains(id) {
            let k = choose|k: int| 0 <= k < ls.len() && fav_entry(ls[k]) == Some((false, id));
            assert(k >= h + y);
            assert(ns[k - h - y] == id);
        }
        if f.no_set().contains(id) {
            let j = choose|j: int| 0 <= j < ns.len() && ns[j] == id;
            assert(fav_entry(ls[h + y + j]) == Some((false, id)));
        }
    }
    assert(parsed_yes(f.saved_text()) =~= f.yes_set());
    assert(parsed_no(f.saved_text()) =~= f.no_set());
}

// ---------------------------------------------------------------------------
// Sorted vectors of identifiers
// ---------------------------------------------------------------------------

proof fn lemma_sorted_no_duplicates(s: Seq<Seq<char>>)
    requires
        strictly_sorted(s),
    ensures
        s.no_duplicates(),
{
    assert forall|k: int, l: int| 0 <= k < s.len() && 0 <= l < s.len() && k != l implies s[k]
        != s[l] by {
        if k < l {
            lemma_lex_irreflexive(s[k]);
        } else {
            lemma_lex_irreflexive(s[l]);
        }
    }
}

/// Whether `v[i]` comes before `id`.
fn lt_at(v: &Vec<String>, i: usize, id: &[char]) -> (r: bool)
    requires
        i < v@.len(),
    ensures
        r == lex_lt(string_views(v@)[i as int], id@),
{
    let c = chars_of(v[i].as_str());
    chars_lt(c.as_slice(), id)
}

/// Looks `id` up in a strictly sorted vector: whether it is there, and the
/// index where it is or where it would go.
fn find_sorted(v: &Vec<String>, id: &[char]) -> (r: (bool, usize))
    requires
        strictly_sorted(string_views(v@)),
    ensures
        r.1 <= v@.len(),
        r.0 == string_views(v@).contains(id@),
        r.0 ==> r.1 < v@.len() && v@[r.1 as int]@ == id@,
        forall|k: int| 0 <= k < r.1 ==> lex_lt(#[trigger] string_views(v@)[k], id@),
        !r.0 ==> forall|k: int| r.1 <= k < v@.len() ==> lex_lt(id@, #[trigger] string_views(v@)[k]),
{
    let ghost s = string_views(v@);
    let mut i: usize = 0;
    while i < v.len() && lt_at(v, i, id)
        invariant
            i <= v@.len(),
            s == string_views(v@),
            strictly_sorted(s),
            forall|k: int| 0 <= k < i ==> lex_lt(#[trigger] s[k], id@),
        decreases v@.len() - i,
    {
        i = i + 1;
    }
    if i < v.len() {
        let c = chars_of(v[i].as_str());
        assert(s[i as int] == c@);
        let found = chars_eq(c.as_slice(), id);
        proof {
            if found {
                assert(s.contains(id@));
            } else {
                assert(!lex_lt(s[i as int], id@));
                lemma_lex_total(c@, id@);
                assert forall|k: int| i <= k < v@.len() implies lex_lt(id@, #[trigger] s[k]) by {
                    if k > i {
                        lemma_lex_transitive(id@, s[i as int], s[k]);
                    }
                }
                assert forall|k: int| 0 <= k < s.len() implies s[k] != id@ by {
                    if k < i {
                        lemma_lex_irreflexive(id@);
                    } else {
                        lemma_lex_irreflexive(id@);
                    }
                }
            }
        }
        (found, i)
    } else {
        proof {
            assert forall|k: int| 0 <= k < s.len() implies s[k] != id@ by {
                lemma_lex_irreflexive(id@);
            }
        }
        (false, i)
    }
}

/// Adds `id` to a strictly sorted vector, where it belongs.
fn insert_sorted(v: &mut Vec<String>, id: &[char])
    requires
        strictly_sorted(string_views(old(v)@)),
    ensures
        strictly_sorted(string_views(final(v)@)),
        string_views(final(v)@).to_set() == string_views(old(v)@).to_set().insert(id@),
{
    let ghost s0 = string_views(v@);
    let (found, at) = find_sorted(v, id);
    if found {
        assert(string_views(v@).to_set() =~= s0.to_set().insert(id@));
        return ;
    }
    v.insert(at, string_of(id));
    proof {
        let s1 = string_views(v@);
        assert(s1 =~= s0.insert(at as int, id@));
        assert forall|k: int, l: int| 0 <= k < l < s1.len() implies lex_lt(s1[k], s1[l]) by {
            if l < at {
            } else if l == at {
                assert(s1[k] == s0[k]);
            } else if k < at {
                assert(s1[l] == s0[l - 1]);
                assert(lex_lt(s0[k], id@));
                if k < at {
                    lemma_lex_transitive(s0[k], id@, s0[l - 1]);
                }
            } else if k == at {
                assert(s1[l] == s0[l - 1]);
            } else {
                assert(s1[k] == s0[k - 1] && s1[l] == s0[l - 1]);
            }
        }
        assert forall|x: Seq<char>| s1.to_set().contains(x) <==> s0.to_set().insert(id@).contains(
            x,
        ) by {
            if s1.contains(x) {
                let k = choose|k: int| 0 <= k < s1.len() && s1[k] == x;
                if k < at {
                    assert(s0[k] == x);
                } else if k > at {
                    assert(s0[k - 1] == x);
                }
            }
            if s0.contains(x) {
                let k = choose|k: int| 0 <= k < s0.len() && s0[k] == x;
                if k < at {
                    assert(s1[k] == x);
                } else {
                    assert(s1[k + 1] == x);
                }
            }
            if x == id@ {
                assert(s1[at as int] == x);
            }
        }
        assert(s1.to_set() =~= s0.to_set().insert(id@));
    }
}

/// Takes `id` out of a strictly sorted vector.
fn remove_sorted(v: &mut Vec<String>, id: &[char])
    requires
        strictly_sorted(string_views(old(v)@)),
    ensures
        strictly_sorted(string_views(final(v)@)),
        string_views(final(v)@).to_set() == string_views(old(v)@).to_set().remove(id@),
{
    let ghost s0 = string_views(v@);
    let (found, at) = find_sorted(v, id);
    if !found {
        assert(string_views(v@).to_set() =~= s0.to_set().remove(id@));
        return ;
    }
    v.remove(at);
    proof {
        assert(s0[at as int] == id@);
        let s1 = string_views(v@);
        assert(s1 =~= s0.remove(at as int));
        assert forall|k: int, l: int| 0 <= k < l < s1.len() implies lex_lt(s1[k], s1[l]) by {
            if l < at {
            } else if k < at {
                assert(s1[l] == s0[l + 1]);
            } else {
                assert(s1[k] == s0[k + 1] && s1[l] == s0[l + 1]);
            }
        }
        lemma_sorted_no_duplicates(s0);
        assert forall|x: Seq<char>| s1.to_set().contains(x) <==> s0.to_set().remove(id@).contains(
            x,
        ) by {
            if s1.contains(x) {
                let k = choose|k: int| 0 <= k < s1.len() && s1[k] == x;
                if k < at {
                    assert(s0[k] == x);
                    assert(s0[k] != s0[at as int]);
                } else {
                    assert(s0[k + 1] == x);
                    assert(s0[k + 1] != s0[at as int]);
                }
            }
            if s0.contains(x) && x != id@ {
                let k = choose|k: int| 0 <= k < s0.len() && s0[k] == x;
                if k < at {
                    assert(s1[k] == x);
                } else {
                    assert(k != at);
                    assert(s1[k - 1] == x);
                }
            }
        }
        assert(s1.to_set() =~= s0.to_set().remove(id@));
    }
}

proof fn lemma_ids_marked_push(a: Seq<Seq<char>>, l: Seq<char>, flag: bool)
    ensures
        ids_marked(a.push(l), flag) == (match fav_entry(l) {
            Some((f, id)) => if f == flag {
                ids_marked(a, flag).insert(id)
            } else {
                ids_marked(a, flag)
            },
            None => ids_marked(a, flag),
        }),
{
    let b = a.push(l);
    let expected = match fav_entry(l) {
        Some((f, id)) => if f == flag {
            ids_marked(a, flag).insert(id)
        } else {
            ids_marked(a, flag)
        },
        None => ids_marked(a, flag),
    };
    assert forall|x: Seq<char>| ids_marked(b, flag).contains(x) <==> expected.contains(x) by {
        if ids_marked(b, flag).contains(x) {
            let k = choose|k: int| 0 <= k < b.len() && fav_entry(b[k]) == Some((flag, x));
            if k < a.len() {
                assert(a[k] == b[k]);
            }
        }
        if ids_marked(a, flag).contains(x) {
            let k = choose|k: int| 0 <= k < a.len() && fav_entry(a[k]) == Some((flag, x));
            assert(b[k] == a[k]);
        }
        if fav_entry(l) == Some((flag, x)) {
            assert(b[a.len() as int] == l);
        }
    }
    assert(ids_marked(b, flag) =~= expected);
}

} // verus!
