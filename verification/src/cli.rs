//! The command line: its options, and what the listing commands print.

use vstd::prelude::*;

use crate::model::{kind_badge, Wallpaper};
use crate::text::{
    append_chars, chars_lt, chars_of, lemma_lex_asymmetric, lemma_lex_total, lemma_lex_transitive,
    lex_lt, string_of, string_views,
};

verus! {

broadcast use vstd::string::group_string_axioms;

/// What the command asks for.
#[derive(Debug)]
pub enum Mode {
    Toggle,
    Show,
    Hide,
    Quit,
    Reload,
    RebuildCache,
    Favorites,
    /// Mark (`true`) or unmark (`false`) an identifier as favourite.
    Favorite(String, bool),
    /// List the catalogue, as JSON when `true`.
    Print(bool),
    Help,
    Version,
}

pub enum ModeView {
    Toggle,
    Show,
    Hide,
    Quit,
    Reload,
    RebuildCache,
    Favorites,
    Favorite(Seq<char>, bool),
    Print(bool),
    Help,
    Version,
}

impl View for Mode {
    type V = ModeView;

    open spec fn view(&self) -> ModeView {
        match self {
            Mode::Toggle => ModeView::Toggle,
            Mode::Show => ModeView::Show,
            Mode::Hide => ModeView::Hide,
            Mode::Quit => ModeView::Quit,
            Mode::Reload => ModeView::Reload,
            Mode::RebuildCache => ModeView::RebuildCache,
            Mode::Favorites => ModeView::Favorites,
            Mode::Favorite(id, on) => ModeView::Favorite(id@, *on),
            Mode::Print(json) => ModeView::Print(*json),
            Mode::Help => ModeView::Help,
            Mode::Version => ModeView::Version,
        }
    }
}

#[derive(Debug)]
pub struct Cli {
    pub mode: Mode,
    /// Stay attached to the terminal instead of going to the background.
    pub foreground: bool,
}

/// The message for an option that needs an identifier after it.
pub open spec fn missing_id_message(a: Seq<char>) -> Seq<char> {
    a + " attend un identifiant (ex. steam:1355236618)"@
}

/// The message for an unknown option.
pub open spec fn unknown_option_message(a: Seq<char>) -> Seq<char> {
    "option inconnue : "@ + a
}

/// Reads the options from the `i`-th on, with the mode and the foreground
/// flag set so far. Help and version end the reading; a later option of
/// another mode replaces the mode; `-f`, `--favorite` and `--unfavorite`
/// take the next argument.
pub open spec fn parse_from(args: Seq<Seq<char>>, i: int, mode: ModeView, fg: bool) -> Result<
    (ModeView, bool),
    Seq<char>,
>
    decreases args.len() - i,
{
    if i < 0 || i >= args.len() {
        Ok((mode, fg))
    } else {
        let a = args[i];
        if a == "-h"@ || a == "--help"@ {
            Ok((ModeView::Help, fg))
        } else if a == "-V"@ || a == "--version"@ {
            Ok((ModeView::Version, fg))
        } else if a == "-F"@ || a == "--foreground"@ {
            parse_from(args, i + 1, mode, true)
        } else if a == "-t"@ || a == "--toggle"@ {
            parse_from(args, i + 1, ModeView::Toggle, fg)
        } else if a == "-s"@ || a == "--show"@ {
            parse_from(args, i + 1, ModeView::Show, fg)
        } else if a == "--hide"@ {
            parse_from(args, i + 1, ModeView::Hide, fg)
        } else if a == "-q"@ || a == "--quit"@ {
            parse_from(args, i + 1, ModeView::Quit, fg)
        } else if a == "--reload"@ {
            parse_from(args, i + 1, ModeView::Reload, fg)
        } else if a == "--rebuild-cache"@ {
            parse_from(args, i + 1, ModeView::RebuildCache, fg)
        } else if a == "--favorites"@ || a == "--list-favorites"@ {
            parse_from(args, i + 1, ModeView::Favorites, fg)
        } else if a == "--print"@ {
            parse_from(args, i + 1, ModeView::Print(false), fg)
        } else if a == "--json"@ {
            parse_from(args, i + 1, ModeView::Print(true), fg)
        } else if a == "-f"@ || a == "--favorite"@ || a == "--unfavorite"@ {
            if i + 1 < args.len() {
                parse_from(args, i + 2, ModeView::Favorite(args[i + 1], a != "--unfavorite"@), fg)
            } else {
                Err(missing_id_message(a))
            }
        } else {
            Err(unknown_option_message(a))
        }
    }
}

/// The command line's meaning: toggling in the background by default.
pub open spec fn parse_args_spec(args: Seq<Seq<char>>) -> Result<(ModeView, bool), Seq<char>> {
    parse_from(args, 0, ModeView::Toggle, false)
}

fn is_lit(a: &[char], lit: &str) -> (r: bool)
    ensures
        r == (a@ == lit@),
{
    crate::model::eq_lit(a, lit)
}

/// Reads the command line (without the program name).
pub fn parse_args(args: &Vec<String>) -> (r: Result<Cli, String>)
    ensures
        match r {
            Ok(cli) => parse_args_spec(string_views(args@)) == Ok::<(ModeView, bool), Seq<char>>(
                (cli.mode@, cli.foreground),
            ),
            Err(e) => parse_args_spec(string_views(args@)) == Err::<(ModeView, bool), Seq<char>>(e@),
        },
{
    let ghost av = string_views(args@);
    let mut mode = Mode::Toggle;
    let mut foreground = false;
    let mut i: usize = 0;
    while i < args.len()
        invariant
            i <= args@.len(),
            av == string_views(args@),
            parse_args_spec(av) == parse_from(av, i as int, mode@, foreground),
        decreases args@.len() - i,
    {
        let a = chars_of(args[i].as_str());
        let s = a.as_slice();
        assert(av[i as int] == a@);
        if is_lit(s, "-h") || is_lit(s, "--help") {
            return Ok(Cli { mode: Mode::Help, foreground });
        } else if is_lit(s, "-V") || is_lit(s, "--version") {
            return Ok(Cli { mode: Mode::Version, foreground });
        } else if is_lit(s, "-F") || is_lit(s, "--foreground") {
            foreground = true;
        } else if is_lit(s, "-t") || is_lit(s, "--toggle") {
            mode = Mode::Toggle;
        } else if is_lit(s, "-s") || is_lit(s, "--show") {
            mode = Mode::Show;
        } else if is_lit(s, "--hide") {
            mode = Mode::Hide;
        } else if is_lit(s, "-q") || is_lit(s, "--quit") {
            mode = Mode::Quit;
        } else if is_lit(s, "--reload") {
            mode = Mode::Reload;
        } else if is_lit(s, "--rebuild-cache") {
            mode = Mode::RebuildCache;
        } else if is_lit(s, "--favorites") || is_lit(s, "--list-favorites") {
            mode = Mode::Favorites;
        } else if is_lit(s, "--print") {
            mode = Mode::Print(false);
        } else if is_lit(s, "--json") {
            mode = Mode::Print(true);
        } else if is_lit(s, "-f") || is_lit(s, "--favorite") || is_lit(s, "--unfavorite") {
            if i + 1 < args.len() {
                let on = !is_lit(s, "--unfavorite");
                mode = Mode::Favorite(args[i + 1].clone(), on);
                assert(av[i + 1] == args@[i + 1]@);
                i = i + 1;
            } else {
                let mut m = a.clone();
                let tail = chars_of(" attend un identifiant (ex. steam:1355236618)");
                append_chars(&mut m, tail.as_slice());
                return Err(string_of(m.as_slice()));
            }
        } else {
            let mut m = chars_of("option inconnue : ");
            append_chars(&mut m, s);
            return Err(string_of(m.as_slice()));
        }
        i = i + 1;
    }
    Ok(Cli { mode, foreground })
}

/// Whether the first launch goes to the background: when resident, not
/// asked to stay in the foreground, and not already the detached process.
pub fn should_detach(resident: bool, foreground: bool, already_detached: bool) -> (r: bool)
    ensures
        r == (resident && !foreground && !already_detached),
{
    resident && !foreground && !already_detached
}

/// `s` padded with spaces to `n` characters (`{:<n}`).
pub open spec fn pad_spec(s: Seq<char>, n: nat) -> Seq<char> {
    if s.len() < n {
        s + Seq::new((n - s.len()) as nat, |i: int| ' ')
    } else {
        s
    }
}

fn pad(out: &mut Vec<char>, s: &[char], n: usize)
    ensures
        final(out)@ == old(out)@ + pad_spec(s@, n as nat),
{
    let ghost start = out@;
    append_chars(out, s);
    let mut k: usize = s.len();
    while k < n
        invariant
            s@.len() <= k <= n || (k == s@.len() && k >= n),
            out@ == start + s@ + Seq::new((k - s@.len()) as nat, |i: int| ' '),
        decreases n - k,
    {
        let ghost before = out@;
        out.push(' ');
        assert(Seq::new((k + 1 - s@.len()) as nat, |i: int| ' ') =~= Seq::new(
            (k - s@.len()) as nat,
            |i: int| ' ',
        ).push(' '));
        assert(out@ =~= start + s@ + Seq::new((k + 1 - s@.len()) as nat, |i: int| ' '));
        k = k + 1;
    }
    if s.len() >= n {
        assert(Seq::new((k - s@.len()) as nat, |i: int| ' ') =~= Seq::<char>::empty());
        assert(out@ =~= start + s@);
    }
}

/// The line `--print` shows for an entry: a star for a favourite, the title
/// over 40 columns, the badge over 6, then the identifier.
pub open spec fn print_line_spec(w: Wallpaper) -> Seq<char> {
    (if w.favorite {
        "★"@
    } else {
        " "@
    }) + seq![' '] + pad_spec(w.title@, 40) + seq![' '] + pad_spec(kind_badge(w.kind), 6) + seq![' ']
        + w.id@
}

pub fn print_line(w: &Wallpaper) -> (r: String)
    ensures
        r@ == print_line_spec(*w),
{
    let mut out = if w.favorite {
        chars_of("★")
    } else {
        chars_of(" ")
    };
    out.push(' ');
    pad(&mut out, chars_of(w.title.as_str()).as_slice(), 40);
    out.push(' ');
    pad(&mut out, chars_of(w.kind.badge()).as_slice(), 6);
    out.push(' ');
    append_chars(&mut out, chars_of(w.id.as_str()).as_slice());
    string_of(out.as_slice())
}

/// Whether an entry of the catalogue has the identifier `id`.
pub fn id_exists(items: &Vec<Wallpaper>, id: &str) -> (r: bool)
    ensures
        r == exists|k: int| 0 <= k < items@.len() && #[trigger] items@[k].id@ == id@,
{
    let mut i: usize = 0;
    while i < items.len()
        invariant
            i <= items@.len(),
            forall|k: int| 0 <= k < i ==> #[trigger] items@[k].id@ != id@,
        decreases items@.len() - i,
    {
        if crate::text::str_eq(items[i].id.as_str(), id) {
            return true;
        }
        i = i + 1;
    }
    false
}

/// `out` is `inp` reordered, in non-decreasing code-point order.
pub open spec fn is_sorted_permutation(inp: Seq<Seq<char>>, out: Seq<Seq<char>>) -> bool {
    &&& out.len() == inp.len()
    &&& forall|k: int, l: int| 0 <= k < l < out.len() ==> !lex_lt(out[l], out[k])
    &&& exists|perm: Seq<int>|
        {
            &&& perm.len() == inp.len()
            &&& forall|k: int| 0 <= k < perm.len() ==> 0 <= #[trigger] perm[k] < inp.len()
            &&& forall|k: int| 0 <= k < perm.len() ==> #[trigger] out[k] == inp[perm[k]]
            &&& forall|k: int, l: int| 0 <= k < l < perm.len() ==> perm[k] != perm[l]
        }
}

/// The identifiers of the favourites, in increasing order (`--favorites`).
pub fn favorite_ids(items: &Vec<Wallpaper>) -> (r: Vec<String>)
    ensures
        is_sorted_permutation(favorite_id_seq(items@, items@.len() as int), string_views(r@)),
{
    let mut ids: Vec<String> = Vec::new();
    let mut i: usize = 0;
    while i < items.len()
        invariant
            i <= items@.len(),
            string_views(ids@) == favorite_id_seq(items@, i as int),
        decreases items@.len() - i,
    {
        if items[i].favorite {
            let ghost before = ids@;
            ids.push(items[i].id.clone());
            assert(string_views(ids@) =~= string_views(before).push(items@[i as int].id@));
        }
        i = i + 1;
    }
    sort_strings(&mut ids);
    ids
}

/// The identifiers of the favourites among the first `n` entries, in order.
pub open spec fn favorite_id_seq(items: Seq<Wallpaper>, n: int) -> Seq<Seq<char>>
    decreases n,
{
    if n <= 0 {
        Seq::empty()
    } else if items[n - 1].favorite {
        favorite_id_seq(items, n - 1).push(items[n - 1].id@)
    } else {
        favorite_id_seq(items, n - 1)
    }
}

/// Whether `x` comes strictly before `v[j]`.
fn precedes_at(x: &[char], v: &Vec<String>, j: usize) -> (r: bool)
    requires
        j < v@.len(),
    ensures
        r == lex_lt(x@, string_views(v@)[j as int]),
{
    let c = chars_of(v[j].as_str());
    chars_lt(x, c.as_slice())
}

/// Sorts strings in increasing code-point order (the order of `String`).
pub fn sort_strings(v: &mut Vec<String>)
    ensures
        is_sorted_permutation(string_views(old(v)@), string_views(final(v)@)),
{
    let n = v.len();
    let ghost orig = string_views(v@);
    let ghost mut perm: Seq<int> = Seq::new(n as nat, |k: int| k);
    let mut i: usize = 0;
    while i < n
        invariant
            n == v@.len(),
            n == orig.len(),
            i <= n,
            perm.len() == n,
            forall|k: int| 0 <= k < n ==> 0 <= #[trigger] perm[k] < n,
            forall|k: int| 0 <= k < n ==> #[trigger] string_views(v@)[k] == orig[perm[k]],
            forall|k: int, l: int| 0 <= k < l < n ==> perm[k] != perm[l],
            forall|k: int, l: int|
                0 <= k < l < i ==> !lex_lt(string_views(v@)[l], string_views(v@)[k]),
        decreases n - i,
    {
        let ghost prev = string_views(v@);
        let x = v.remove(i);
        let ghost xs = x@;
        assert(xs == prev[i as int]);
        let xc = chars_of(x.as_str());
        let mut j: usize = i;
        while j > 0 && precedes_at(xc.as_slice(), v, j - 1)
            invariant
                0 <= j <= i < n,
                v@.len() == n - 1,
                prev.len() == n,
                string_views(v@) == prev.remove(i as int),
                xc@ == xs,
                forall|m: int| j <= m < i ==> lex_lt(xs, #[trigger] prev[m]),
            decreases j,
        {
            assert(string_views(v@)[j - 1] == prev[j - 1]);
            j = j - 1;
        }
        proof {
            if j > 0 {
                assert(string_views(v@)[j - 1] == prev[j - 1]);
                assert(!lex_lt(xs, prev[j - 1]));
            }
        }
        v.insert(j, x);
        proof {
            let newperm = perm.take(j as int) + seq![perm[i as int]] + perm.subrange(j as int, i as int)
                + perm.skip(i + 1);
            let cur = string_views(v@);
            assert forall|k: int| 0 <= k < n implies #[trigger] cur[k] == orig[newperm[k]] && 0
                <= newperm[k] < n by {
                if k < j {
                    assert(cur[k] == prev[k]);
                } else if k == j {
                } else if k <= i {
                    assert(cur[k] == prev[k - 1]);
                } else {
                    assert(cur[k] == prev[k]);
                }
            }
            assert forall|k: int, l: int| 0 <= k < l < n implies newperm[k] != newperm[l] by {
                let pk = if k < j {
                    k
                } else if k == j {
                    i as int
                } else if k <= i {
                    k - 1
                } else {
                    k
                };
                let pl = if l < j {
                    l
                } else if l == j {
                    i as int
                } else if l <= i {
                    l - 1
                } else {
                    l
                };
                assert(newperm[k] == perm[pk]);
                assert(newperm[l] == perm[pl]);
                if pk < pl {
                    assert(perm[pk] != perm[pl]);
                } else {
                    assert(perm[pl] != perm[pk]);
                }
            }
            assert forall|k: int, l: int| 0 <= k < l < i + 1 implies !lex_lt(cur[l], cur[k]) by {
                if l < j {
                    assert(cur[k] == prev[k] && cur[l] == prev[l]);
                } else if l == j {
                    assert(cur[k] == prev[k]);
                    assert(cur[l] == xs);
                    lemma_lex_total(xs, prev[j - 1]);
                    if k < j - 1 {
                        assert(!lex_lt(prev[j - 1], prev[k]));
                        if lex_lt(xs, prev[k]) {
                            lemma_lex_total(prev[k], prev[j - 1]);
                            if lex_lt(prev[k], prev[j - 1]) {
                                lemma_lex_transitive(xs, prev[k], prev[j - 1]);
                            }
                        }
                    }
                } else if k == j {
                    assert(cur[k] == xs);
                    assert(cur[l] == prev[l - 1]);
                    lemma_lex_asymmetric(xs, prev[l - 1]);
                } else if k < j {
                    assert(cur[k] == prev[k] && cur[l] == prev[l - 1]);
                } else {
                    assert(cur[k] == prev[k - 1] && cur[l] == prev[l - 1]);
                }
            }
            perm = newperm;
        }
        i = i + 1;
    }
}


proof fn lemma_parse_from_extend(args: Seq<Seq<char>>, a: Seq<char>, i: int, m: ModeView, fg: bool)
    requires
        0 <= i <= args.len(),
        parse_from(args, i, m, fg) is Ok,
        !(parse_from(args, i, m, fg)->Ok_0.0 is Help),
        !(parse_from(args, i, m, fg)->Ok_0.0 is Version),
    ensures
        parse_from(args.push(a), i, m, fg) == parse_from(
            args.push(a),
            args.len() as int,
            parse_from(args, i, m, fg)->Ok_0.0,
            parse_from(args, i, m, fg)->Ok_0.1,
        ),
    decreases args.len() - i,
{
    let ext = args.push(a);
    if i < args.len() {
        let x = args[i];
        assert(ext[i] == x);
        if i + 1 < args.len() {
            assert(ext[i + 1] == args[i + 1]);
        }
        if x == "-h"@ || x == "--help"@ || x == "-V"@ || x == "--version"@ {
        } else if x == "-F"@ || x == "--foreground"@ {
            lemma_parse_from_extend(args, a, i + 1, m, true);
        } else if x == "-t"@ || x == "--toggle"@ {
            lemma_parse_from_extend(args, a, i + 1, ModeView::Toggle, fg);
        } else if x == "-s"@ || x == "--show"@ {
            lemma_parse_from_extend(args, a, i + 1, ModeView::Show, fg);
        } else if x == "--hide"@ {
            lemma_parse_from_extend(args, a, i + 1, ModeView::Hide, fg);
        } else if x == "-q"@ || x == "--quit"@ {
            lemma_parse_from_extend(args, a, i + 1, ModeView::Quit, fg);
        } else if x == "--reload"@ {
            lemma_parse_from_extend(args, a, i + 1, ModeView::Reload, fg);
        } else if x == "--rebuild-cache"@ {
            lemma_parse_from_extend(args, a, i + 1, ModeView::RebuildCache, fg);
        } else if x == "--favorites"@ || x == "--list-favorites"@ {
            lemma_parse_from_extend(args, a, i + 1, ModeView::Favorites, fg);
        } else if x == "--print"@ {
            lemma_parse_from_extend(args, a, i + 1, ModeView::Print(false), fg);
        } else if x == "--json"@ {
            lemma_parse_from_extend(args, a, i + 1, ModeView::Print(true), fg);
        } else if x == "-f"@ || x == "--favorite"@ || x == "--unfavorite"@ {
            lemma_parse_from_extend(
                args,
                a,
                i + 2,
                ModeView::Favorite(args[i + 1], x != "--unfavorite"@),
                fg,
            );
        } else {
        }
    }
}

/// `--print` and `--json` choose the listing as text and as JSON: added at
/// the end of any command line that reads as a mode other than help or
/// version, `--print` gives the text listing `Print(false)` and `--json` the
/// JSON listing `Print(true)`, the foreground flag as it was.
pub proof fn lemma_listing_options(args: Seq<Seq<char>>, m: ModeView, fg: bool)
    requires
        parse_args_spec(args) == Ok::<(ModeView, bool), Seq<char>>((m, fg)),
        !(m is Help),
        !(m is Version),
    ensures
        parse_args_spec(args.push("--print"@)) == Ok::<(ModeView, bool), Seq<char>>((ModeView::Print(false), fg)),
        parse_args_spec(args.push("--json"@)) == Ok::<(ModeView, bool), Seq<char>>((ModeView::Print(true), fg)),
{
    reveal_strlit("-h");
    reveal_strlit("--help");
    reveal_strlit("-V");
    reveal_strlit("--version");
    reveal_strlit("-F");
    reveal_strlit("--foreground");
    reveal_strlit("-t");
    reveal_strlit("--toggle");
    reveal_strlit("-s");
    reveal_strlit("--show");
    reveal_strlit("--hide");
    reveal_strlit("-q");
    reveal_strlit("--quit");
    reveal_strlit("--reload");
    reveal_strlit("--rebuild-cache");
    reveal_strlit("--favorites");
    reveal_strlit("--list-favorites");
    reveal_strlit("--print");
    reveal_strlit("--json");
    let n = args.len() as int;
    lemma_parse_from_extend(args, "--print"@, 0, ModeView::Toggle, false);
    lemma_parse_from_extend(args, "--json"@, 0, ModeView::Toggle, false);
    let p = args.push("--print"@);
    let j = args.push("--json"@);
    assert(p[n] == "--print"@);
    assert(j[n] == "--json"@);
    assert("--json"@[2] == 'j' && "--help"@[2] == 'h' && "--hide"@[2] == 'h' && "--quit"@[2]
        == 'q' && "--show"@[2] == 's');
    assert("--json"@ != "--help"@ && "--json"@ != "--hide"@ && "--json"@ != "--quit"@ && "--json"@
        != "--show"@);
    reveal_strlit("-f");
    reveal_strlit("--favorite");
    reveal_strlit("--unfavorite");
    assert(parse_from(p, n, m, fg) == parse_from(p, n + 1, ModeView::Print(false), fg));
    assert(parse_from(j, n, m, fg) == parse_from(j, n + 1, ModeView::Print(true), fg));
    assert(parse_from(p, n + 1, ModeView::Print(false), fg) == Ok::<(ModeView, bool), Seq<char>>((ModeView::Print(false), fg)));
    assert(parse_from(j, n + 1, ModeView::Print(true), fg) == Ok::<(ModeView, bool), Seq<char>>((ModeView::Print(true), fg)));
}

} // verus!
