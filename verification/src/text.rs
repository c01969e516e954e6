//! Character-sequence helpers shared by the parsers of the library, with the
//! specification of each operation on `Seq<char>`.

use vstd::prelude::*;

verus! {

broadcast use vstd::string::group_string_axioms;

// ---------------------------------------------------------------------------
// Views of vectors of strings
// ---------------------------------------------------------------------------

/// The character sequences held by a sequence of character vectors.
pub open spec fn views(v: Seq<Vec<char>>) -> Seq<Seq<char>> {
    v.map_values(|x: Vec<char>| x@)
}

/// The character sequences held by a sequence of strings.
pub open spec fn string_views(v: Seq<String>) -> Seq<Seq<char>> {
    v.map_values(|x: String| x@)
}

// ---------------------------------------------------------------------------
// Characters
// ---------------------------------------------------------------------------

/// Unicode `White_Space`: the characters that `char::is_whitespace` accepts.
pub open spec fn is_ws(c: char) -> bool {
    let u = c as u32;
    ||| 0x9 <= u && u <= 0xD
    ||| u == 0x20
    ||| u == 0x85
    ||| u == 0xA0
    ||| u == 0x1680
    ||| 0x2000 <= u && u <= 0x200A
    ||| u == 0x2028
    ||| u == 0x2029
    ||| u == 0x202F
    ||| u == 0x205F
    ||| u == 0x3000
}

/// Whether `c` is a Unicode white-space character.
pub fn is_white_space(c: char) -> (r: bool)
    ensures
        r == is_ws(c),
{
    let u = c as u32;
    (0x9 <= u && u <= 0xD) || u == 0x20 || u == 0x85 || u == 0xA0 || u == 0x1680 || (0x2000 <= u
        && u <= 0x200A) || u == 0x2028 || u == 0x2029 || u == 0x202F || u == 0x205F || u == 0x3000
}

/// ASCII lowercase of one character: `A`..`Z` become `a`..`z`, the rest is kept.
pub open spec fn lower_char(c: char) -> char {
    if 'A' <= c && c <= 'Z' {
        ((c as u32) + 32) as char
    } else {
        c
    }
}

/// ASCII lowercase of a character sequence (`str::to_ascii_lowercase`).
pub open spec fn ascii_lower(s: Seq<char>) -> Seq<char> {
    s.map_values(|c: char| lower_char(c))
}

pub fn lower_one(c: char) -> (r: char)
    ensures
        r == lower_char(c),
{
    if 'A' <= c && c <= 'Z' {
        let u: u32 = (c as u32) + 32;
        let b: u8 = u as u8;
        b as char
    } else {
        c
    }
}

/// ASCII lowercase copy of a character slice.
pub fn lower_ascii(s: &[char]) -> (r: Vec<char>)
    ensures
        r@ == ascii_lower(s@),
{
    let mut r: Vec<char> = Vec::new();
    let mut i: usize = 0;
    while i < s.len()
        invariant
            i <= s@.len(),
            r@ == ascii_lower(s@.take(i as int)),
        decreases s@.len() - i,
    {
        let c = lower_one(s[i]);
        r.push(c);
        i = i + 1;
        assert(ascii_lower(s@.take(i as int)) =~= ascii_lower(s@.take(i - 1 as int)).push(c));
    }
    assert(s@.take(s@.len() as int) =~= s@);
    r
}

// ---------------------------------------------------------------------------
// Strings and character vectors
// ---------------------------------------------------------------------------

/// The characters of a string slice, in order.
pub fn chars_of(s: &str) -> (r: Vec<char>)
    ensures
        r@ == s@,
{
    let mut r: Vec<char> = Vec::new();
    for c in it: s.chars()
        invariant
            r@ == it.history(),
    {
        r.push(c);
    }
    r
}

/// Appends one character to a string: a wrapper of `String::push`, which
/// extends the string by exactly that character.
#[verifier::external_body]
fn push_char(s: &mut String, c: char)
    ensures
        final(s)@ == old(s)@.push(c),
{
    s.push(c);
}

/// A string holding exactly the given characters.
pub fn string_of(v: &[char]) -> (r: String)
    ensures
        r@ == v@,
{
    let mut r = String::new();
    let mut i: usize = 0;
    while i < v.len()
        invariant
            i <= v@.len(),
            r@ == v@.take(i as int),
        decreases v@.len() - i,
    {
        push_char(&mut r, v[i]);
        i = i + 1;
        assert(v@.take(i as int) =~= v@.take(i - 1 as int).push(v@[i - 1]));
    }
    assert(v@.take(v@.len() as int) =~= v@);
    r
}

/// A copy of `s[lo..hi]`.
pub fn copy_range(s: &[char], lo: usize, hi: usize) -> (r: Vec<char>)
    requires
        lo <= hi <= s@.len(),
    ensures
        r@ == s@.subrange(lo as int, hi as int),
{
    let mut r: Vec<char> = Vec::new();
    let mut i: usize = lo;
    while i < hi
        invariant
            lo <= i <= hi <= s@.len(),
            r@ == s@.subrange(lo as int, i as int),
        decreases hi - i,
    {
        r.push(s[i]);
        i = i + 1;
        assert(s@.subrange(lo as int, i as int) =~= s@.subrange(lo as int, i - 1 as int).push(
            s@[i - 1],
        ));
    }
    r
}

/// Appends the characters of `t` to `r`.
pub fn append_chars(r: &mut Vec<char>, t: &[char])
    ensures
        final(r)@ == old(r)@ + t@,
{
    let mut i: usize = 0;
    let ghost r0 = r@;
    while i < t.len()
        invariant
            i <= t@.len(),
            r@ == r0 + t@.take(i as int),
        decreases t@.len() - i,
    {
        r.push(t[i]);
        i = i + 1;
        assert(r0 + t@.take(i as int) =~= (r0 + t@.take(i - 1 as int)).push(t@[i - 1]));
    }
    assert(t@.take(t@.len() as int) =~= t@);
}

/// Whether two character slices are equal.
pub fn chars_eq(a: &[char], b: &[char]) -> (r: bool)
    ensures
        r == (a@ == b@),
{
    if a.len() != b.len() {
        return false;
    }
    let mut i: usize = 0;
    while i < a.len()
        invariant
            a@.len() == b@.len(),
            i <= a@.len(),
            forall|j: int| 0 <= j < i ==> a@[j] == b@[j],
        decreases a@.len() - i,
    {
        if a[i] != b[i] {
            return false;
        }
        i = i + 1;
    }
    assert(a@ =~= b@);
    true
}

/// Whether two string slices hold the same characters.
pub fn str_eq(a: &str, b: &str) -> (r: bool)
    ensures
        r == (a@ == b@),
{
    let x = chars_of(a);
    let y = chars_of(b);
    chars_eq(x.as_slice(), y.as_slice())
}

// ---------------------------------------------------------------------------
// Prefixes and substrings
// ---------------------------------------------------------------------------

/// `s` begins with `p`.
pub open spec fn has_prefix(s: Seq<char>, p: Seq<char>) -> bool {
    p.len() <= s.len() && s.take(p.len() as int) == p
}

/// `s` ends with `p`.
pub open spec fn has_suffix(s: Seq<char>, p: Seq<char>) -> bool {
    p.len() <= s.len() && s.skip(s.len() - p.len()) == p
}

/// `t` occurs in `s` at position `i`.
pub open spec fn occurs_at(s: Seq<char>, t: Seq<char>, i: int) -> bool {
    0 <= i && i + t.len() <= s.len() && s.subrange(i, i + t.len()) == t
}

/// `t` occurs somewhere in `s` (`str::contains`).
pub open spec fn has_sub(s: Seq<char>, t: Seq<char>) -> bool {
    exists|i: int| occurs_at(s, t, i)
}

pub fn starts_with(s: &[char], p: &[char]) -> (r: bool)
    ensures
        r == has_prefix(s@, p@),
{
    if p.len() > s.len() {
        return false;
    }
    let mut i: usize = 0;
    while i < p.len()
        invariant
            p@.len() <= s@.len(),
            i <= p@.len(),
            forall|j: int| 0 <= j < i ==> s@[j] == p@[j],
        decreases p@.len() - i,
    {
        if s[i] != p[i] {
            assert(s@.take(p@.len() as int)[i as int] != p@[i as int]);
            return false;
        }
        i = i + 1;
    }
    assert(s@.take(p@.len() as int) =~= p@);
    true
}

pub fn ends_with(s: &[char], p: &[char]) -> (r: bool)
    ensures
        r == has_suffix(s@, p@),
{
    if p.len() > s.len() {
        return false;
    }
    let n = s.len();
    let off = n - p.len();
    let mut i: usize = 0;
    while i < p.len()
        invariant
            n == s@.len(),
            p@.len() <= s@.len(),
            off == s@.len() - p@.len(),
            i <= p@.len(),
            forall|j: int| 0 <= j < i ==> s@[off + j] == p@[j],
        decreases p@.len() - i,
    {
        if s[off + i] != p[i] {
            assert(s@.skip(off as int)[i as int] != p@[i as int]);
            return false;
        }
        i = i + 1;
    }
    assert(s@.skip(off as int) =~= p@);
    true
}

/// Whether `t` occurs in `s` at position `i`.
fn matches_at(s: &[char], t: &[char], i: usize) -> (r: bool)
    requires
        i + t@.len() <= s@.len(),
    ensures
        r == occurs_at(s@, t@, i as int),
{
    let n = s.len();
    let mut j: usize = 0;
    while j < t.len()
        invariant
            n == s@.len(),
            i + t@.len() <= s@.len(),
            j <= t@.len(),
            forall|k: int| 0 <= k < j ==> s@[i + k] == t@[k],
        decreases t@.len() - j,
    {
        if s[i + j] != t[j] {
            assert(s@.subrange(i as int, i + t@.len())[j as int] != t@[j as int]);
            return false;
        }
        j = j + 1;
    }
    assert(s@.subrange(i as int, i + t@.len()) =~= t@);
    true
}

/// Substring search (`str::contains`).
pub fn contains_chars(s: &[char], t: &[char]) -> (r: bool)
    ensures
        r == has_sub(s@, t@),
{
    if t.len() > s.len() {
        return false;
    }
    if t.len() == 0 {
        assert(s@.subrange(0, 0) =~= t@);
        assert(occurs_at(s@, t@, 0));
        return true;
    }
    let last = s.len() - t.len();
    let mut i: usize = 0;
    while i <= last
        invariant
            s@.len() <= usize::MAX,
            0 < t@.len() <= s@.len(),
            last == s@.len() - t@.len(),
            i <= last + 1,
            forall|k: int| 0 <= k < i ==> !occurs_at(s@, t@, k),
        decreases last + 1 - i,
    {
        if matches_at(s, t, i) {
            return true;
        }
        i = i + 1;
    }
    false
}

// ---------------------------------------------------------------------------
// Trimming
// ---------------------------------------------------------------------------

/// The white-space predicate, as a value.
pub open spec fn ws_pred() -> spec_fn(char) -> bool {
    |c: char| is_ws(c)
}

/// The predicate "is the character `c`", as a value.
pub open spec fn eq_pred(c: char) -> spec_fn(char) -> bool {
    |x: char| x == c
}

/// Drops the leading characters that satisfy `p`.
pub open spec fn trim_start_by(s: Seq<char>, p: spec_fn(char) -> bool) -> Seq<char>
    decreases s.len(),
{
    if s.len() > 0 && p(s[0]) {
        trim_start_by(s.drop_first(), p)
    } else {
        s
    }
}

/// Drops the trailing characters that satisfy `p`.
pub open spec fn trim_end_by(s: Seq<char>, p: spec_fn(char) -> bool) -> Seq<char>
    decreases s.len(),
{
    if s.len() > 0 && p(s.last()) {
        trim_end_by(s.drop_last(), p)
    } else {
        s
    }
}

/// Both ends (`str::trim_matches` with a predicate).
pub open spec fn trim_by(s: Seq<char>, p: spec_fn(char) -> bool) -> Seq<char> {
    trim_end_by(trim_start_by(s, p), p)
}

/// `str::trim`: white space removed at both ends.
pub open spec fn trim(s: Seq<char>) -> Seq<char> {
    trim_by(s, ws_pred())
}

/// `str::trim_matches(c)`: every leading and trailing `c` removed.
pub open spec fn trim_char(s: Seq<char>, c: char) -> Seq<char> {
    trim_by(s, eq_pred(c))
}

pub proof fn lemma_trim_start_skip(s: Seq<char>, p: spec_fn(char) -> bool, k: int)
    requires
        0 <= k <= s.len(),
        forall|i: int| 0 <= i < k ==> p(s[i]),
        k < s.len() ==> !p(s[k]),
    ensures
        trim_start_by(s, p) == s.skip(k),
    decreases k,
{
    if k == 0 {
        assert(s.skip(0) =~= s);
    } else {
        assert(p(s[0]));
        let t = s.drop_first();
        assert forall|i: int| 0 <= i < k - 1 implies p(t[i]) by {
            assert(t[i] == s[i + 1]);
        }
        lemma_trim_start_skip(t, p, k - 1);
        assert(t.skip(k - 1) =~= s.skip(k));
    }
}

pub proof fn lemma_trim_end_take(s: Seq<char>, p: spec_fn(char) -> bool, k: int)
    requires
        0 <= k <= s.len(),
        forall|i: int| k <= i < s.len() ==> p(s[i]),
        k > 0 ==> !p(s[k - 1]),
    ensures
        trim_end_by(s, p) == s.take(k),
    decreases s.len() - k,
{
    if k == s.len() {
        assert(s.take(k) =~= s);
    } else {
        assert(p(s.last()));
        let t = s.drop_last();
        lemma_trim_end_take(t, p, k);
        assert(t.take(k) =~= s.take(k));
    }
}

/// Whether `x` satisfies white space (`ws`) or equality with `c` (otherwise).
fn pred_holds(ws: bool, c: char, x: char) -> (r: bool)
    ensures
        r == (if ws {
            ws_pred()
        } else {
            eq_pred(c)
        })(x),
{
    if ws {
        is_white_space(x)
    } else {
        x == c
    }
}

/// Trims both ends by white space (`ws`) or by the character `c`.
fn trim_where(s: &[char], ws: bool, c: char) -> (r: Vec<char>)
    ensures
        r@ == trim_by(
            s@,
            if ws {
                ws_pred()
            } else {
                eq_pred(c)
            },
        ),
{
    let ghost p = if ws {
        ws_pred()
    } else {
        eq_pred(c)
    };
    let n = s.len();
    let mut lo: usize = 0;
    while lo < n && pred_holds(ws, c, s[lo])
        invariant
            p == (if ws {
                ws_pred()
            } else {
                eq_pred(c)
            }),
            n == s@.len(),
            lo <= n,
            forall|i: int| 0 <= i < lo ==> p(s@[i]),
        decreases n - lo,
    {
        lo = lo + 1;
    }
    proof {
        lemma_trim_start_skip(s@, p, lo as int);
    }
    let mut hi: usize = n;
    while hi > lo && pred_holds(ws, c, s[hi - 1])
        invariant
            p == (if ws {
                ws_pred()
            } else {
                eq_pred(c)
            }),
            n == s@.len(),
            lo <= hi <= n,
            forall|i: int| hi <= i < n ==> p(s@[i]),
        decreases hi,
    {
        hi = hi - 1;
    }
    proof {
        let t = s@.skip(lo as int);
        assert forall|i: int| hi - lo <= i < t.len() implies p(t[i]) by {
            assert(t[i] == s@[lo + i]);
        }
        if hi > lo {
            assert(t[hi - lo - 1] == s@[hi - 1]);
        }
        lemma_trim_end_take(t, p, hi - lo);
        assert(t.take(hi - lo) =~= s@.subrange(lo as int, hi as int));
    }
    copy_range(s, lo, hi)
}

/// `str::trim` on characters.
pub fn trim_ws(s: &[char]) -> (r: Vec<char>)
    ensures
        r@ == trim(s@),
{
    trim_where(s, true, ' ')
}

/// `str::trim_matches(c)` on characters.
pub fn trim_matching(s: &[char], c: char) -> (r: Vec<char>)
    ensures
        r@ == trim_char(s@, c),
{
    trim_where(s, false, c)
}

// ---------------------------------------------------------------------------
// Splitting
// ---------------------------------------------------------------------------

/// Splits `s` at every character satisfying `p`; always at least one part.
pub open spec fn split_by(s: Seq<char>, p: spec_fn(char) -> bool) -> Seq<Seq<char>>
    decreases s.len(),
{
    if s.len() == 0 {
        seq![Seq::empty()]
    } else {
        let parts = split_by(s.drop_last(), p);
        if p(s.last()) {
            parts.push(Seq::empty())
        } else {
            parts.update(parts.len() - 1, parts.last().push(s.last()))
        }
    }
}

pub proof fn lemma_split_by_len(s: Seq<char>, p: spec_fn(char) -> bool)
    ensures
        split_by(s, p).len() >= 1,
    decreases s.len(),
{
    if s.len() > 0 {
        lemma_split_by_len(s.drop_last(), p);
    }
}

/// The non-empty parts, in order.
pub open spec fn nonempty_parts(parts: Seq<Seq<char>>) -> Seq<Seq<char>>
    decreases parts.len(),
{
    if parts.len() == 0 {
        Seq::empty()
    } else {
        let rest = nonempty_parts(parts.drop_last());
        if parts.last().len() > 0 {
            rest.push(parts.last())
        } else {
            rest
        }
    }
}

/// `str::split_whitespace`: the maximal runs of non-white-space characters.
pub open spec fn words(s: Seq<char>) -> Seq<Seq<char>> {
    nonempty_parts(split_by(s, ws_pred()))
}

/// A line as `str::lines` yields it from a part that was ended by `'\n'`.
pub open spec fn strip_cr(l: Seq<char>) -> Seq<char> {
    if l.len() > 0 && l.last() == '\r' {
        l.drop_last()
    } else {
        l
    }
}

/// `str::lines`: the parts between `'\n'`, each with one `'\r'` removed before
/// its `'\n'`; a last part that is empty is not a line.
pub open spec fn lines(s: Seq<char>) -> Seq<Seq<char>> {
    let parts = split_by(s, eq_pred('\n'));
    let body = parts.drop_last().map_values(|l: Seq<char>| strip_cr(l));
    if parts.last().len() == 0 {
        body
    } else {
        body.push(parts.last())
    }
}

/// The words of `s`, as `str::split_whitespace` yields them.
pub fn split_words(s: &[char]) -> (r: Vec<Vec<char>>)
    ensures
        views(r@) == words(s@),
{
    let ghost p = ws_pred();
    let mut out: Vec<Vec<char>> = Vec::new();
    let mut cur: Vec<char> = Vec::new();
    let mut i: usize = 0;
    proof {
        assert(s@.take(0) =~= Seq::<char>::empty());
    }
    while i < s.len()
        invariant
            p == ws_pred(),
            i <= s@.len(),
            split_by(s@.take(i as int), p).len() >= 1,
            views(out@) == nonempty_parts(split_by(s@.take(i as int), p).drop_last()),
            cur@ == split_by(s@.take(i as int), p).last(),
        decreases s@.len() - i,
    {
        let c = s[i];
        let ghost prev = s@.take(i as int);
        let ghost parts = split_by(prev, p);
        i = i + 1;
        let ghost next = s@.take(i as int);
        assert(next.drop_last() =~= prev);
        assert(next.last() == c);
        if is_white_space(c) {
            let ghost o = out@;
            if cur.len() > 0 {
                out.push(cur);
                assert(views(out@) =~= views(o).push(parts.last()));
            }
            cur = Vec::new();
            assert(split_by(next, p) == parts.push(Seq::empty()));
            assert(split_by(next, p).drop_last() =~= parts);
            assert(parts =~= parts.drop_last().push(parts.last()));
        } else {
            cur.push(c);
            assert(split_by(next, p) == parts.update(parts.len() - 1, parts.last().push(c)));
            assert(split_by(next, p).drop_last() =~= parts.drop_last());
        }
    }
    proof {
        assert(s@.take(s@.len() as int) =~= s@);
        let parts = split_by(s@, p);
        assert(parts =~= parts.drop_last().push(parts.last()));
    }
    if cur.len() > 0 {
        let ghost o = out@;
        out.push(cur);
        assert(views(out@) =~= views(o).push(cur@));
    }
    out
}

/// The lines of `s`, as `str::lines` yields them.
pub fn split_lines(s: &[char]) -> (r: Vec<Vec<char>>)
    ensures
        views(r@) == lines(s@),
{
    let ghost p = eq_pred('\n');
    let mut out: Vec<Vec<char>> = Vec::new();
    let mut cur: Vec<char> = Vec::new();
    let mut i: usize = 0;
    proof {
        assert(s@.take(0) =~= Seq::<char>::empty());
    }
    while i < s.len()
        invariant
            p == eq_pred('\n'),
            i <= s@.len(),
            split_by(s@.take(i as int), p).len() >= 1,
            views(out@) == split_by(s@.take(i as int), p).drop_last().map_values(
                |l: Seq<char>| strip_cr(l),
            ),
            cur@ == split_by(s@.take(i as int), p).last(),
        decreases s@.len() - i,
    {
        let c = s[i];
        let ghost prev = s@.take(i as int);
        let ghost parts = split_by(prev, p);
        i = i + 1;
        let ghost next = s@.take(i as int);
        assert(next.drop_last() =~= prev);
        assert(next.last() == c);
        if c == '\n' {
            let ghost o = out@;
            let n = cur.len();
            if n > 0 && cur[n - 1] == '\r' {
                cur.pop();
            }
            assert(cur@ == strip_cr(parts.last()));
            let ghost last = cur@;
            out.push(cur);
            cur = Vec::new();
            assert(views(out@) =~= views(o).push(last));
            assert(parts =~= parts.drop_last().push(parts.last()));
            assert(parts.map_values(|l: Seq<char>| strip_cr(l)) =~= parts.drop_last().map_values(
                |l: Seq<char>| strip_cr(l),
            ).push(strip_cr(parts.last())));
            assert(split_by(next, p) == parts.push(Seq::empty()));
            assert(split_by(next, p).drop_last() =~= parts);
            assert(views(out@) =~= parts.map_values(|l: Seq<char>| strip_cr(l)));
        } else {
            cur.push(c);
            assert(split_by(next, p) == parts.update(parts.len() - 1, parts.last().push(c)));
            assert(split_by(next, p).drop_last() =~= parts.drop_last());
        }
    }
    proof {
        assert(s@.take(s@.len() as int) =~= s@);
    }
    if cur.len() > 0 {
        let ghost o = out@;
        out.push(cur);
        assert(views(out@) =~= views(o).push(cur@));
    }
    out
}

/// Each line followed by `'\n'`.
pub open spec fn text_of_lines(ls: Seq<Seq<char>>) -> Seq<char>
    decreases ls.len(),
{
    if ls.len() == 0 {
        Seq::empty()
    } else {
        text_of_lines(ls.drop_last()) + ls.last() + seq!['\n']
    }
}

/// No character of `s` is `c`.
pub open spec fn has_no(s: Seq<char>, c: char) -> bool {
    forall|i: int| 0 <= i < s.len() ==> s[i] != c
}

pub proof fn lemma_split_by_none(s: Seq<char>, p: spec_fn(char) -> bool)
    requires
        forall|i: int| 0 <= i < s.len() ==> !p(s[i]),
    ensures
        split_by(s, p) == seq![s],
    decreases s.len(),
{
    if s.len() > 0 {
        lemma_split_by_none(s.drop_last(), p);
        assert(s.drop_last().push(s.last()) =~= s);
        assert(seq![s.drop_last()].update(0, s.drop_last().push(s.last())) =~= seq![s]);
    } else {
        assert(s =~= Seq::<char>::empty());
    }
}

pub proof fn lemma_split_by_append(a: Seq<char>, b: Seq<char>, p: spec_fn(char) -> bool)
    ensures
        split_by(a + b, p) == split_by(a, p).drop_last() + seq![
            split_by(a, p).last() + split_by(b, p)[0],
        ] + split_by(b, p).skip(1),
    decreases b.len(),
{
    lemma_split_by_len(a, p);
    lemma_split_by_len(b, p);
    let pa = split_by(a, p);
    if b.len() == 0 {
        assert(a + b =~= a);
        assert(split_by(b, p) =~= seq![Seq::<char>::empty()]);
        assert(pa.last() + Seq::<char>::empty() =~= pa.last());
        assert(pa =~= pa.drop_last() + seq![pa.last()]);
        assert(split_by(b, p).skip(1) =~= Seq::<Seq<char>>::empty());
        assert(pa.drop_last() + seq![pa.last() + split_by(b, p)[0]] + split_by(b, p).skip(1) =~= pa);
    } else {
        let b1 = b.drop_last();
        let c = b.last();
        lemma_split_by_append(a, b1, p);
        lemma_split_by_len(b1, p);
        assert((a + b).drop_last() =~= a + b1);
        assert((a + b).last() == c);
        let pb1 = split_by(b1, p);
        let pab1 = split_by(a + b1, p);
        if p(c) {
            assert(split_by(b, p) == pb1.push(Seq::empty()));
            assert(split_by(b, p).skip(1) =~= pb1.skip(1).push(Seq::empty()));
            assert(split_by(a + b, p) =~= pab1.push(Seq::empty()));
        } else {
            assert(split_by(b, p) == pb1.update(pb1.len() - 1, pb1.last().push(c)));
            if pb1.len() == 1 {
                assert(pa.last() + pb1[0].push(c) =~= (pa.last() + pb1[0]).push(c));
            } else {
                assert(split_by(b, p).skip(1) =~= pb1.skip(1).update(
                    pb1.len() - 2,
                    pb1.last().push(c),
                ));
            }
            assert(split_by(a + b, p) =~= pab1.update(pab1.len() - 1, pab1.last().push(c)));
        }
    }
}

/// The lines of a text made of lines each followed by `'\n'` are those lines,
/// when none holds `'\n'` or ends with `'\r'`.
pub proof fn lemma_lines_of_text(ls: Seq<Seq<char>>)
    requires
        forall|k: int| 0 <= k < ls.len() ==> has_no(#[trigger] ls[k], '\n'),
        forall|k: int| 0 <= k < ls.len() ==> strip_cr(#[trigger] ls[k]) == ls[k],
    ensures
        lines(text_of_lines(ls)) == ls,
        split_by(text_of_lines(ls), eq_pred('\n')).last().len() == 0,
    decreases ls.len(),
{
    let p = eq_pred('\n');
    if ls.len() == 0 {
        assert(split_by(Seq::<char>::empty(), p) =~= seq![Seq::<char>::empty()]);
        assert(lines(Seq::<char>::empty()) =~= Seq::<Seq<char>>::empty());
    } else {
        let rest = ls.drop_last();
        let l = ls.last();
        lemma_lines_of_text(rest);
        let t = text_of_lines(rest);
        let b = l + seq!['\n'];
        assert(text_of_lines(ls) == t + l + seq!['\n']);
        assert(t + l + seq!['\n'] =~= t + b);
        lemma_split_by_none(l, p);
        assert(b.drop_last() =~= l);
        assert(split_by(b, p) == seq![l].push(Seq::<char>::empty()));
        lemma_split_by_append(t, b, p);
        let pt = split_by(t, p);
        lemma_split_by_len(t, p);
        assert(pt.last() + l =~= l);
        let parts = split_by(t + b, p);
        assert(parts =~= pt.drop_last() + seq![l] + seq![Seq::<char>::empty()]);
        assert(parts.drop_last() =~= pt.drop_last().push(l));
        assert(lines(t) =~= pt.drop_last().map_values(|x: Seq<char>| strip_cr(x)));
        assert(lines(t + b) =~= pt.drop_last().map_values(|x: Seq<char>| strip_cr(x)).push(
            strip_cr(l),
        ));
        assert(rest.push(l) =~= ls);
    }
}

pub proof fn lemma_trim_end_keeps_first(s: Seq<char>, p: spec_fn(char) -> bool)
    requires
        s.len() > 0,
        !p(s[0]),
    ensures
        trim_end_by(s, p).len() > 0,
        trim_end_by(s, p)[0] == s[0],
    decreases s.len(),
{
    if s.len() > 1 && p(s.last()) {
        lemma_trim_end_keeps_first(s.drop_last(), p);
    }
}

// ---------------------------------------------------------------------------
// Joining
// ---------------------------------------------------------------------------

/// `[T]::join(sep)` on character sequences.
pub open spec fn join(parts: Seq<Seq<char>>, sep: Seq<char>) -> Seq<char>
    decreases parts.len(),
{
    if parts.len() == 0 {
        Seq::empty()
    } else if parts.len() == 1 {
        parts[0]
    } else {
        join(parts.drop_last(), sep) + sep + parts.last()
    }
}

/// A word as `words` yields it: not empty, and without white space.
pub open spec fn is_word(w: Seq<char>) -> bool {
    w.len() > 0 && forall|i: int| 0 <= i < w.len() ==> !is_ws(#[trigger] w[i])
}

/// Words joined by single spaces, with one space after the last; nothing
/// when there is no word.
pub open spec fn spaced(ws: Seq<Seq<char>>) -> Seq<char> {
    if ws.len() == 0 {
        Seq::empty()
    } else {
        join(ws, seq![' ']) + seq![' ']
    }
}

proof fn lemma_split_parts_clean(s: Seq<char>, p: spec_fn(char) -> bool)
    ensures
        forall|k: int, i: int|
            0 <= k < split_by(s, p).len() && 0 <= i < split_by(s, p)[k].len() ==> !p(
                #[trigger] split_by(s, p)[k][i],
            ),
    decreases s.len(),
{
    if s.len() > 0 {
        let parts = split_by(s.drop_last(), p);
        lemma_split_parts_clean(s.drop_last(), p);
        lemma_split_by_len(s.drop_last(), p);
        if !p(s.last()) {
            let q = split_by(s, p);
            assert forall|k: int, i: int| 0 <= k < q.len() && 0 <= i < q[k].len() implies !p(
                #[trigger] q[k][i],
            ) by {
                if k == q.len() - 1 && i == q[k].len() - 1 {
                    assert(q[k][i] == s.last());
                } else if k == q.len() - 1 {
                    assert(q[k][i] == parts[k][i]);
                } else {
                    assert(q[k] == parts[k]);
                }
            }
        } else {
            let q = split_by(s, p);
            assert forall|k: int, i: int| 0 <= k < q.len() && 0 <= i < q[k].len() implies !p(
                #[trigger] q[k][i],
            ) by {
                assert(k < parts.len());
                assert(q[k] == parts[k]);
            }
        }
    }
}

proof fn lemma_nonempty_parts_words(parts: Seq<Seq<char>>)
    requires
        forall|k: int, i: int|
            0 <= k < parts.len() && 0 <= i < parts[k].len() ==> !is_ws(#[trigger] parts[k][i]),
    ensures
        forall|k: int|
            0 <= k < nonempty_parts(parts).len() ==> is_word(#[trigger] nonempty_parts(parts)[k]),
    decreases parts.len(),
{
    if parts.len() > 0 {
        let rest = parts.drop_last();
        assert forall|k: int, i: int| 0 <= k < rest.len() && 0 <= i < rest[k].len() implies !is_ws(
            #[trigger] rest[k][i],
        ) by {
            assert(rest[k] == parts[k]);
        }
        lemma_nonempty_parts_words(rest);
        let l = parts.last();
        assert forall|i: int| 0 <= i < l.len() implies !is_ws(#[trigger] l[i]) by {
            assert(l[i] == parts[parts.len() - 1][i]);
        }
        let np = nonempty_parts(parts);
        let nr = nonempty_parts(rest);
        assert forall|k: int| 0 <= k < np.len() implies is_word(#[trigger] np[k]) by {
            if k < nr.len() {
                assert(np[k] == nr[k]);
            } else {
                assert(np[k] == l);
            }
        }
    }
}

/// Every part that `words` yields is a word.
pub proof fn lemma_words_are_words(s: Seq<char>)
    ensures
        forall|k: int| 0 <= k < words(s).len() ==> is_word(#[trigger] words(s)[k]),
{
    let parts = split_by(s, ws_pred());
    lemma_split_parts_clean(s, ws_pred());
    assert forall|k: int, i: int| 0 <= k < parts.len() && 0 <= i < parts[k].len() implies !is_ws(
        #[trigger] parts[k][i],
    ) by {
        assert(!ws_pred()(parts[k][i]));
    }
    lemma_nonempty_parts_words(parts);
}

/// Words written out with single spaces read back as the same words.
pub proof fn lemma_words_of_spaced(ws: Seq<Seq<char>>)
    requires
        forall|k: int| 0 <= k < ws.len() ==> is_word(#[trigger] ws[k]),
    ensures
        words(spaced(ws)) == ws,
        split_by(spaced(ws), ws_pred()).last().len() == 0,
    decreases ws.len(),
{
    let p = ws_pred();
    if ws.len() == 0 {
        let e = Seq::<char>::empty();
        assert(spaced(ws) == e);
        assert(split_by(e, p) =~= seq![e]);
        assert(seq![e].drop_last() =~= Seq::<Seq<char>>::empty());
        assert(nonempty_parts(Seq::<Seq<char>>::empty()) == Seq::<Seq<char>>::empty());
        assert(nonempty_parts(seq![e]) == nonempty_parts(seq![e].drop_last()));
        assert(words(spaced(ws)) =~= ws);
    } else {
        let rest = ws.drop_last();
        let w = ws.last();
        assert forall|k: int| 0 <= k < rest.len() implies is_word(#[trigger] rest[k]) by {
            assert(rest[k] == ws[k]);
        }
        lemma_words_of_spaced(rest);
        let b = w + seq![' '];
        assert(spaced(ws) =~= spaced(rest) + b) by {
            if rest.len() > 0 {
                assert(join(ws, seq![' ']) == join(rest, seq![' ']) + seq![' '] + w);
            } else {
                assert(join(ws, seq![' ']) == w);
            }
        }
        assert(is_word(w));
        lemma_split_by_none(w, p);
        assert(b.drop_last() =~= w);
        assert(p(b.last()));
        assert(split_by(b, p) == seq![w].push(Seq::<char>::empty()));
        let a = spaced(rest);
        let pa = split_by(a, p);
        lemma_split_by_len(a, p);
        lemma_split_by_append(a, b, p);
        assert(pa.last() + w =~= w);
        let q = split_by(a + b, p);
        assert(q =~= pa.drop_last().push(w).push(Seq::<char>::empty()));
        assert(q.drop_last() =~= pa.drop_last().push(w));
        assert(pa.drop_last().push(w).drop_last() =~= pa.drop_last());
        assert(nonempty_parts(pa) == nonempty_parts(pa.drop_last()));
        assert(nonempty_parts(q) == nonempty_parts(q.drop_last()));
        assert(rest.push(w) =~= ws);
    }
}

pub fn join_chars(parts: &Vec<Vec<char>>, sep: &[char]) -> (r: Vec<char>)
    ensures
        r@ == join(views(parts@), sep@),
{
    let mut r: Vec<char> = Vec::new();
    let mut i: usize = 0;
    while i < parts.len()
        invariant
            i <= parts@.len(),
            r@ == join(views(parts@).take(i as int), sep@),
        decreases parts@.len() - i,
    {
        let ghost before = views(parts@).take(i as int);
        if i > 0 {
            append_chars(&mut r, sep);
        }
        append_chars(&mut r, parts[i].as_slice());
        i = i + 1;
        let ghost after = views(parts@).take(i as int);
        assert(after.drop_last() =~= before);
        if i == 1 {
            assert(r@ =~= after[0]);
        }
    }
    assert(views(parts@).take(parts@.len() as int) =~= views(parts@));
    r
}

// ---------------------------------------------------------------------------
// Numbers
// ---------------------------------------------------------------------------

/// The decimal digit `d` (`d < 10`).
pub open spec fn digit_char(d: nat) -> char {
    ((d + 48) as u8) as char
}

/// Decimal representation of `n`, without leading zeros (`"0"` for zero).
pub open spec fn decimal(n: nat) -> Seq<char>
    decreases n,
{
    if n < 10 {
        seq![digit_char(n)]
    } else {
        decimal(n / 10).push(digit_char(n % 10))
    }
}

/// `n.to_string()`.
pub fn decimal_chars(n: usize) -> (r: Vec<char>)
    ensures
        r@ == decimal(n as nat),
{
    decimal_u64(n as u64)
}

/// `n.to_string()` for a `u64`.
pub fn decimal_u64(n: u64) -> (r: Vec<char>)
    ensures
        r@ == decimal(n as nat),
{
    let mut m: u64 = n;
    let mut suffix: Vec<char> = Vec::new();
    while m >= 10
        invariant
            decimal(n as nat) == decimal(m as nat) + suffix@,
        decreases m,
    {
        let d: u8 = (m % 10) as u8;
        let c: char = (d + 48) as char;
        assert(c == digit_char((m % 10) as nat));
        let ghost old_suffix = suffix@;
        suffix.insert(0, c);
        assert(decimal(m as nat) == decimal((m / 10) as nat).push(c));
        assert(decimal((m / 10) as nat).push(c) + old_suffix =~= decimal((m / 10) as nat)
            + suffix@);
        m = m / 10;
    }
    let d: u8 = m as u8;
    let c: char = (d + 48) as char;
    let mut r: Vec<char> = Vec::new();
    r.push(c);
    append_chars(&mut r, suffix.as_slice());
    assert(decimal(m as nat) =~= seq![c]);
    r
}

/// Decimal representation of an integer, with `-` before a negative one.
pub open spec fn signed_decimal(v: int) -> Seq<char> {
    if v < 0 {
        seq!['-'] + decimal((-v) as nat)
    } else {
        decimal(v as nat)
    }
}

/// `v.to_string()` for an `i64`.
pub fn decimal_i64(v: i64) -> (r: Vec<char>)
    ensures
        r@ == signed_decimal(v as int),
{
    if v < 0 {
        let m: u64 = if v == i64::MIN {
            9223372036854775808u64
        } else {
            (0 - v) as u64
        };
        let mut r: Vec<char> = Vec::new();
        r.push('-');
        let d = decimal_u64(m);
        append_chars(&mut r, d.as_slice());
        r
    } else {
        decimal_u64(v as u64)
    }
}

// ---------------------------------------------------------------------------
// Order
// ---------------------------------------------------------------------------

/// Lexicographic order on character sequences by code point: the order of
/// `str`'s `Ord`, since UTF-8 keeps the code-point order of characters.
pub open spec fn lex_lt(a: Seq<char>, b: Seq<char>) -> bool
    decreases a.len(),
{
    if a.len() == 0 {
        b.len() > 0
    } else if b.len() == 0 {
        false
    } else if a[0] < b[0] {
        true
    } else if a[0] > b[0] {
        false
    } else {
        lex_lt(a.drop_first(), b.drop_first())
    }
}

pub proof fn lemma_lex_irreflexive(a: Seq<char>)
    ensures
        !lex_lt(a, a),
    decreases a.len(),
{
    if a.len() > 0 {
        lemma_lex_irreflexive(a.drop_first());
    }
}

pub proof fn lemma_lex_transitive(a: Seq<char>, b: Seq<char>, c: Seq<char>)
    requires
        lex_lt(a, b),
        lex_lt(b, c),
    ensures
        lex_lt(a, c),
    decreases a.len(),
{
    if a.len() > 0 && b.len() > 0 && c.len() > 0 {
        if a[0] == b[0] && b[0] == c[0] {
            lemma_lex_transitive(a.drop_first(), b.drop_first(), c.drop_first());
        }
    }
}

pub proof fn lemma_lex_total(a: Seq<char>, b: Seq<char>)
    ensures
        a == b || lex_lt(a, b) || lex_lt(b, a),
    decreases a.len(),
{
    if a.len() > 0 && b.len() > 0 {
        if a[0] == b[0] {
            lemma_lex_total(a.drop_first(), b.drop_first());
            if a.drop_first() == b.drop_first() {
                assert(a[0] == b[0]);
                assert(a =~= seq![a[0]] + a.drop_first());
                assert(b =~= seq![b[0]] + b.drop_first());
            }
        }
    } else if a.len() == 0 && b.len() == 0 {
        assert(a =~= b);
    }
}

pub proof fn lemma_lex_asymmetric(a: Seq<char>, b: Seq<char>)
    requires
        lex_lt(a, b),
    ensures
        !lex_lt(b, a),
{
    if lex_lt(b, a) {
        lemma_lex_transitive(a, b, a);
        lemma_lex_irreflexive(a);
    }
}

/// `a < b` in lexicographic code-point order.
pub fn chars_lt(a: &[char], b: &[char]) -> (r: bool)
    ensures
        r == lex_lt(a@, b@),
{
    let mut i: usize = 0;
    assert(a@.skip(0) =~= a@);
    assert(b@.skip(0) =~= b@);
    while i < a.len() && i < b.len()
        invariant
            i <= a@.len(),
            i <= b@.len(),
            lex_lt(a@, b@) == lex_lt(a@.skip(i as int), b@.skip(i as int)),
        decreases a@.len() - i,
    {
        let x = a[i];
        let y = b[i];
        let ghost sa = a@.skip(i as int);
        let ghost sb = b@.skip(i as int);
        assert(sa[0] == a@[i as int]);
        assert(sb[0] == b@[i as int]);
        if x < y {
            return true;
        }
        if x > y {
            return false;
        }
        assert(sa.drop_first() =~= a@.skip(i + 1 as int));
        assert(sb.drop_first() =~= b@.skip(i + 1 as int));
        i = i + 1;
    }
    i == a.len() && i < b.len()
}

// ---------------------------------------------------------------------------
// Unicode lowercase
// ---------------------------------------------------------------------------

/// What `str::to_lowercase` returns for a string: its lowercase form under
/// the Unicode `Lowercase` mapping, a function of the characters alone.
pub uninterp spec fn unicode_lowercase(s: Seq<char>) -> Seq<char>;

/// Wrapper of `str::to_lowercase`; the contract claims only that the result
/// is that function of the argument's characters.
#[verifier::external_body]
pub(crate) fn to_lowercase(s: &str) -> (r: String)
    ensures
        r@ == unicode_lowercase(s@),
{
    s.to_lowercase()
}


/// A space after a text adds no word.
pub proof fn lemma_words_trailing_space(s: Seq<char>)
    ensures
        words(s + seq![' ']) == words(s),
{
    let t = s + seq![' '];
    assert(t.drop_last() =~= s);
    assert(ws_pred()(t.last()));
    let parts = split_by(s, ws_pred());
    assert(split_by(t, ws_pred()) == parts.push(Seq::<char>::empty()));
    assert(parts.push(Seq::<char>::empty()).drop_last() =~= parts);
}

/// A word written after a text and a space is one more word.
pub proof fn lemma_words_push(s: Seq<char>, w: Seq<char>)
    requires
        is_word(w),
    ensures
        words(s + seq![' '] + w) == words(s).push(w),
{
    let p = ws_pred();
    let b = seq![' '] + w;
    assert(s + seq![' '] + w =~= s + b);
    lemma_split_by_none(w, p);
    lemma_split_by_append(seq![' '], w, p);
    let e = Seq::<char>::empty();
    assert(seq![' '].drop_last() =~= e);
    assert(split_by(e, p) =~= seq![e]);
    assert(split_by(seq![' '], p) == seq![e].push(e));
    assert(seq![e].push(e).last() + w =~= w);
    assert(split_by(b, p) =~= seq![e, w]);
    let a = split_by(s, p);
    lemma_split_by_len(s, p);
    lemma_split_by_append(s, b, p);
    assert(a.last() + e =~= a.last());
    assert(a.drop_last() + seq![a.last()] =~= a);
    let q = split_by(s + b, p);
    assert(q =~= a.push(w));
    assert(a.push(w).drop_last() =~= a);
}

/// Words joined by single spaces read back as the same words.
pub proof fn lemma_words_of_joined(ws: Seq<Seq<char>>)
    requires
        forall|k: int| 0 <= k < ws.len() ==> is_word(#[trigger] ws[k]),
    ensures
        words(join(ws, seq![' '])) == ws,
{
    if ws.len() == 0 {
        let e = Seq::<char>::empty();
        assert(join(ws, seq![' ']) == e);
        assert(split_by(e, ws_pred()) =~= seq![e]);
        assert(seq![e].drop_last() =~= Seq::<Seq<char>>::empty());
        assert(nonempty_parts(Seq::<Seq<char>>::empty()) == Seq::<Seq<char>>::empty());
        assert(nonempty_parts(seq![e]) == nonempty_parts(seq![e].drop_last()));
        assert(words(e) =~= ws);
    } else {
        lemma_words_of_spaced(ws);
        lemma_words_trailing_space(join(ws, seq![' ']));
    }
}

/// ASCII lowercase goes through concatenation.
pub proof fn lemma_ascii_lower_concat(a: Seq<char>, b: Seq<char>)
    ensures
        ascii_lower(a + b) == ascii_lower(a) + ascii_lower(b),
{
    assert(ascii_lower(a + b) =~= ascii_lower(a) + ascii_lower(b));
}

/// ASCII lowercase twice is ASCII lowercase once.
pub proof fn lemma_ascii_lower_idempotent(a: Seq<char>)
    ensures
        ascii_lower(ascii_lower(a)) == ascii_lower(a),
{
    assert forall|i: int| 0 <= i < a.len() implies #[trigger] lower_char(lower_char(a[i]))
        == lower_char(a[i]) by {
        let c = a[i];
        if 'A' <= c && c <= 'Z' {
            assert((((c as u32) + 32) as char) as u32 == (c as u32) + 32);
        }
    }
    assert(ascii_lower(ascii_lower(a)) =~= ascii_lower(a));
}

/// ASCII lowercase keeps a word a word, and changes no character into `#`.
pub proof fn lemma_lower_word(w: Seq<char>)
    ensures
        ascii_lower(w).len() == w.len(),
        is_word(w) ==> is_word(ascii_lower(w)),
        w.len() > 0 ==> (ascii_lower(w)[0] == '#' <==> w[0] == '#'),
{
    assert forall|i: int| 0 <= i < w.len() implies (is_ws(#[trigger] ascii_lower(w)[i]) <==> is_ws(
        w[i],
    )) && (ascii_lower(w)[i] == '#' <==> w[i] == '#') by {
        let c = w[i];
        if 'A' <= c && c <= 'Z' {
            assert((((c as u32) + 32) as char) as u32 == (c as u32) + 32);
        }
    }
}

/// ASCII lowercase of words joined by a separator: the lowercase words
/// joined by the lowercase separator.
pub proof fn lemma_ascii_lower_join(ws: Seq<Seq<char>>, sep: Seq<char>)
    ensures
        ascii_lower(join(ws, sep)) == join(ws.map_values(|x: Seq<char>| ascii_lower(x)), ascii_lower(sep)),
    decreases ws.len(),
{
    let lw = ws.map_values(|x: Seq<char>| ascii_lower(x));
    if ws.len() == 1 {
        assert(lw[0] == ascii_lower(ws[0]));
    } else if ws.len() > 1 {
        lemma_ascii_lower_join(ws.drop_last(), sep);
        assert(lw.drop_last() =~= ws.drop_last().map_values(|x: Seq<char>| ascii_lower(x)));
        lemma_ascii_lower_concat(join(ws.drop_last(), sep) + sep, ws.last());
        lemma_ascii_lower_concat(join(ws.drop_last(), sep), sep);
        assert(lw.last() == ascii_lower(ws.last()));
    } else {
        assert(ascii_lower(Seq::<char>::empty()) =~= Seq::<char>::empty());
    }
}

} // verus!
