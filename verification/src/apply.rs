//! Applying the chosen wallpaper: which engine shows it (`awww` for images,
//! `mpvpaper` for videos, `linux-wallpaperengine` for Wallpaper Engine
//! scenes), which engines are stopped first, the command that is launched,
//! and the record kept in the last-wallpaper file, in the format other
//! session scripts read.

use vstd::prelude::*;

use crate::config::{join_path, path_join, split_once_spec};
use crate::json::{array_flag_names, json_array_flag_names, json_member_i64, member_i64, opt_view, pair_views};
use crate::model::Kind;
use crate::text::{
    append_chars, chars_of, copy_range, decimal_i64, is_ws, signed_decimal, string_of,
    string_views, trim, trim_end_by, trim_start_by, trim_ws, ws_pred,
};

verus! {

broadcast use vstd::string::group_string_axioms;

#[derive(Debug, Clone, Copy, PartialEq, Eq, Structural)]
pub enum Backend {
    Awww,
    Mpvpaper,
    WallpaperEngine,
}

pub open spec fn cache_tag_spec(b: Backend) -> Seq<char> {
    match b {
        Backend::Awww => "AWWW"@,
        Backend::Mpvpaper => "MPV"@,
        Backend::WallpaperEngine => "LWE"@,
    }
}

pub open spec fn backend_spec(k: Kind) -> Backend {
    match k {
        Kind::Pkg => Backend::WallpaperEngine,
        Kind::Video => Backend::Mpvpaper,
        Kind::Gif | Kind::Image => Backend::Awww,
    }
}

impl Backend {
    /// The tag of the engine in the last-wallpaper file.
    pub fn cache_tag(self) -> (r: &'static str)
        ensures
            r@ == cache_tag_spec(self),
    {
        match self {
            Backend::Awww => "AWWW",
            Backend::Mpvpaper => "MPV",
            Backend::WallpaperEngine => "LWE",
        }
    }
}

pub fn backend_for(kind: Kind) -> (b: Backend)
    ensures
        b == backend_spec(kind),
{
    match kind {
        Kind::Pkg => Backend::WallpaperEngine,
        Kind::Video => Backend::Mpvpaper,
        Kind::Gif | Kind::Image => Backend::Awww,
    }
}

// ---------------------------------------------------------------------------
// Stopping the other engines
// ---------------------------------------------------------------------------

/// A running engine that may have to be stopped.
#[derive(Debug, Clone, Copy, PartialEq, Eq, Structural)]
pub enum Engine {
    Mpvpaper,
    WallpaperEngine,
    Awww,
}

/// The engines stopped, in order, before an engine starts: the ones not in
/// use, or two wallpapers would be stacked; `mpvpaper` is restarted too.
pub open spec fn stop_order(b: Backend) -> Seq<Engine> {
    match b {
        Backend::Awww => seq![Engine::Mpvpaper, Engine::WallpaperEngine],
        Backend::Mpvpaper => seq![Engine::Awww, Engine::WallpaperEngine, Engine::Mpvpaper],
        Backend::WallpaperEngine => seq![Engine::Mpvpaper, Engine::Awww],
    }
}

pub fn engines_to_stop(b: Backend) -> (r: Vec<Engine>)
    ensures
        r@ == stop_order(b),
{
    let mut r: Vec<Engine> = Vec::new();
    match b {
        Backend::Awww => {
            r.push(Engine::Mpvpaper);
            r.push(Engine::WallpaperEngine);
        },
        Backend::Mpvpaper => {
            r.push(Engine::Awww);
            r.push(Engine::WallpaperEngine);
            r.push(Engine::Mpvpaper);
        },
        Backend::WallpaperEngine => {
            r.push(Engine::Mpvpaper);
            r.push(Engine::Awww);
        },
    }
    assert(r@ =~= stop_order(b));
    r
}

/// The views of `(flag, pattern)` pairs.
pub open spec fn str_pairs(v: Seq<(&str, &str)>) -> Seq<(Seq<char>, Seq<char>)> {
    v.map_values(|p: (&str, &str)| (p.0@, p.1@))
}

/// The `pkill` calls that stop an engine, as `(flag, pattern)`. The kernel
/// keeps only 15 characters of a process name, so `linux-wallpaperengine`
/// is matched on its whole command line with `-f`.
pub open spec fn pkill_spec(e: Engine) -> Seq<(Seq<char>, Seq<char>)> {
    match e {
        Engine::Mpvpaper => seq![("-x"@, "mpvpaper"@)],
        Engine::WallpaperEngine => seq![("-f"@, "linux-wallpaperengine"@)],
        Engine::Awww => seq![("-x"@, "awww"@), ("-x"@, "awww-daemon"@)],
    }
}

pub fn stop_mpvpaper() -> (r: Vec<(&'static str, &'static str)>)
    ensures
        str_pairs(r@) == pkill_spec(Engine::Mpvpaper),
{
    let mut r: Vec<(&'static str, &'static str)> = Vec::new();
    r.push(("-x", "mpvpaper"));
    assert(str_pairs(r@) =~= pkill_spec(Engine::Mpvpaper));
    r
}

pub fn stop_wallpaper_engine() -> (r: Vec<(&'static str, &'static str)>)
    ensures
        str_pairs(r@) == pkill_spec(Engine::WallpaperEngine),
{
    let mut r: Vec<(&'static str, &'static str)> = Vec::new();
    r.push(("-f", "linux-wallpaperengine"));
    assert(str_pairs(r@) =~= pkill_spec(Engine::WallpaperEngine));
    r
}

pub fn stop_awww() -> (r: Vec<(&'static str, &'static str)>)
    ensures
        str_pairs(r@) == pkill_spec(Engine::Awww),
{
    let mut r: Vec<(&'static str, &'static str)> = Vec::new();
    r.push(("-x", "awww"));
    r.push(("-x", "awww-daemon"));
    assert(str_pairs(r@) =~= pkill_spec(Engine::Awww));
    r
}

pub fn pkill_calls(e: Engine) -> (r: Vec<(&'static str, &'static str)>)
    ensures
        str_pairs(r@) == pkill_spec(e),
{
    match e {
        Engine::Mpvpaper => stop_mpvpaper(),
        Engine::WallpaperEngine => stop_wallpaper_engine(),
        Engine::Awww => stop_awww(),
    }
}

// ---------------------------------------------------------------------------
// The command that shows the wallpaper
// ---------------------------------------------------------------------------

/// A program to start and its arguments.
pub struct Launch {
    pub program: String,
    pub args: Vec<String>,
}

#[derive(Debug, Clone, Copy, PartialEq, Eq, Structural)]
pub enum ApplyError {
    /// A video entry without a media file.
    NoVideoMedia,
}

/// The screen given to `linux-wallpaperengine`: the configured one, else the
/// focused one, else `eDP-1`.
pub open spec fn monitor_spec(configured: Option<Seq<char>>, focused: Option<Seq<char>>) -> Seq<char> {
    match configured {
        Some(m) => m,
        None => match focused {
            Some(f) => f,
            None => "eDP-1"@,
        },
    }
}

pub fn choose_monitor(configured: Option<&str>, focused: Option<&str>) -> (r: String)
    ensures
        r@ == monitor_spec(
            match configured {
                Some(c) => Some(c@),
                None => None,
            },
            match focused {
                Some(f) => Some(f@),
                None => None,
            },
        ),
{
    match configured {
        Some(m) => m.to_owned(),
        None => match focused {
            Some(f) => f.to_owned(),
            None => "eDP-1".to_owned(),
        },
    }
}

/// The program each engine is started as.
pub open spec fn program_spec(b: Backend) -> Seq<char> {
    match b {
        Backend::Awww => "awww"@,
        Backend::Mpvpaper => "mpvpaper"@,
        Backend::WallpaperEngine => "linux-wallpaperengine"@,
    }
}

/// The arguments of the launch, and the file or folder it shows, for an
/// entry at `path` with optional `media`; `none` when a video has no media.
pub open spec fn launch_spec(
    b: Backend,
    path: Seq<char>,
    media: Option<Seq<char>>,
    monitor: Seq<char>,
    mpv_output: Seq<char>,
    transition_type: Seq<char>,
    transition_pos: Option<Seq<char>>,
    transition_duration: Seq<char>,
) -> Option<(Seq<Seq<char>>, Seq<char>)> {
    match b {
        Backend::WallpaperEngine => Some((seq![path, "--screen-root"@, monitor], path)),
        Backend::Mpvpaper => match media {
            Some(m) => Some((seq!["-o"@, "no-audio --loop-playlist"@, mpv_output, m], m)),
            None => None,
        },
        Backend::Awww => {
            let m = match media {
                Some(m) => m,
                None => path,
            };
            let pos = match transition_pos {
                Some(p) => seq!["--transition-pos"@, p],
                None => Seq::empty(),
            };
            Some(
                (
                    seq!["img"@, m, "--transition-type"@, transition_type] + pos + seq![
                        "--transition-duration"@,
                        transition_duration,
                    ],
                    m,
                ),
            )
        },
    }
}

fn push_str(v: &mut Vec<String>, s: &str)
    ensures
        string_views(final(v)@) == string_views(old(v)@).push(s@),
{
    let ghost before = v@;
    v.push(s.to_owned());
    assert(string_views(v@) =~= string_views(before).push(s@));
}

/// The command that shows the entry, and what the last-wallpaper file
/// records of it. `transition_pos` is the pointer position the `grow`
/// transition starts from, when known.
pub fn launch_plan(
    b: Backend,
    path: &str,
    media: Option<&str>,
    monitor: &str,
    mpv_output: &str,
    transition_type: &str,
    transition_pos: Option<&str>,
    transition_duration: &str,
) -> (r: Result<(Launch, String), ApplyError>)
    ensures
        ({
            let spec = launch_spec(
                b,
                path@,
                match media {
                    Some(m) => Some(m@),
                    None => None,
                },
                monitor@,
                mpv_output@,
                transition_type@,
                match transition_pos {
                    Some(p) => Some(p@),
                    None => None,
                },
                transition_duration@,
            );
            match r {
                Ok((launch, target)) => spec == Some((string_views(launch.args@), target@))
                    && launch.program@ == program_spec(b),
                Err(e) => spec is None && e == ApplyError::NoVideoMedia,
            }
        }),
{
    let mut args: Vec<String> = Vec::new();
    assert(string_views(args@) =~= Seq::<Seq<char>>::empty());
    match b {
        Backend::WallpaperEngine => {
            push_str(&mut args, path);
            push_str(&mut args, "--screen-root");
            push_str(&mut args, monitor);
            assert(string_views(args@) =~= seq![path@, "--screen-root"@, monitor@]);
            Ok((Launch { program: "linux-wallpaperengine".to_owned(), args }, path.to_owned()))
        },
        Backend::Mpvpaper => match media {
            None => Err(ApplyError::NoVideoMedia),
            Some(m) => {
                push_str(&mut args, "-o");
                push_str(&mut args, "no-audio --loop-playlist");
                push_str(&mut args, mpv_output);
                push_str(&mut args, m);
                assert(string_views(args@) =~= seq!["-o"@, "no-audio --loop-playlist"@, mpv_output@, m@]);
                Ok((Launch { program: "mpvpaper".to_owned(), args }, m.to_owned()))
            },
        },
        Backend::Awww => {
            let m = match media {
                Some(m) => m,
                None => path,
            };
            push_str(&mut args, "img");
            push_str(&mut args, m);
            push_str(&mut args, "--transition-type");
            push_str(&mut args, transition_type);
            let ghost head = string_views(args@);
            match transition_pos {
                Some(p) => {
                    push_str(&mut args, "--transition-pos");
                    push_str(&mut args, p);
                    assert(string_views(args@) =~= head + seq!["--transition-pos"@, p@]);
                },
                None => {
                    assert(string_views(args@) =~= head + Seq::<Seq<char>>::empty());
                },
            }
            let ghost mid = string_views(args@);
            push_str(&mut args, "--transition-duration");
            push_str(&mut args, transition_duration);
            assert(string_views(args@) =~= mid + seq!["--transition-duration"@, transition_duration@]);
            assert(head =~= seq!["img"@, m@, "--transition-type"@, transition_type@]);
            Ok((Launch { program: "awww".to_owned(), args }, m.to_owned()))
        },
    }
}

/// The socket of the `awww` daemon: `<runtime>/<display>-awww-daemon.sock`,
/// the display being `wayland-0` when unknown; none without a runtime folder.
pub fn awww_socket(runtime_dir: Option<&str>, display: Option<&str>) -> (r: Option<String>)
    ensures
        runtime_dir is None ==> r is None,
        runtime_dir matches Some(rt) ==> (r matches Some(s) && s@ == path_join(
            rt@,
            match display {
                Some(d) => d@,
                None => "wayland-0"@,
            } + "-awww-daemon.sock"@,
        )),
{
    match runtime_dir {
        None => None,
        Some(rt) => {
            let mut name = match display {
                Some(d) => chars_of(d),
                None => chars_of("wayland-0"),
            };
            let suffix = chars_of("-awww-daemon.sock");
            append_chars(&mut name, suffix.as_slice());
            let name = string_of(name.as_slice());
            Some(join_path(rt, name.as_str()))
        },
    }
}

// ---------------------------------------------------------------------------
// Reading the compositor's answers
// ---------------------------------------------------------------------------

/// The pointer position as the `grow` transition takes it: `x,y`.
pub open spec fn cursor_text_spec(x: i64, y: i64) -> Seq<char> {
    signed_decimal(x as int) + seq![','] + signed_decimal(y as int)
}

pub fn cursor_text(x: i64, y: i64) -> (r: String)
    ensures
        r@ == cursor_text_spec(x, y),
{
    let mut out = decimal_i64(x);
    out.push(',');
    let yd = decimal_i64(y);
    append_chars(&mut out, yd.as_slice());
    string_of(out.as_slice())
}

/// The pointer position from the JSON that `hyprctl -j cursorpos` prints.
pub fn cursor_position(hyprctl_output: &[u8]) -> (r: Option<String>)
    ensures
        match (json_member_i64(hyprctl_output@, "x"@), json_member_i64(hyprctl_output@, "y"@)) {
            (Some(x), Some(y)) => r matches Some(s) && s@ == cursor_text_spec(x, y),
            _ => r is None,
        },
{
    let x = member_i64(hyprctl_output, "x");
    let y = member_i64(hyprctl_output, "y");
    match (x, y) {
        (Some(x), Some(y)) => Some(cursor_text(x, y)),
        _ => None,
    }
}

/// The name of the first screen whose `focused` flag is true, if it has one.
pub open spec fn first_focused(es: Seq<(Option<bool>, Option<Seq<char>>)>) -> Option<Seq<char>>
    decreases es.len(),
{
    if es.len() == 0 {
        None
    } else if es[0].0 == Some(true) {
        es[0].1
    } else {
        first_focused(es.drop_first())
    }
}

/// The focused screen among `(focused, name)` pairs, in order.
pub fn focused_name(entries: &Vec<(Option<bool>, Option<String>)>) -> (r: Option<String>)
    ensures
        opt_view(r) == first_focused(pair_views(entries@)),
{
    let ghost es = pair_views(entries@);
    let mut i: usize = 0;
    assert(es.skip(0) =~= es);
    while i < entries.len()
        invariant
            i <= entries@.len(),
            es == pair_views(entries@),
            first_focused(es) == first_focused(es.skip(i as int)),
        decreases entries@.len() - i,
    {
        let ghost rest = es.skip(i as int);
        assert(rest[0] == es[i as int]);
        if entries[i].0 == Some(true) {
            return match &entries[i].1 {
                Some(n) => Some(n.clone()),
                None => None,
            };
        }
        assert(rest.drop_first() =~= es.skip(i + 1 as int));
        i = i + 1;
    }
    assert(es.skip(i as int) =~= Seq::<(Option<bool>, Option<Seq<char>>)>::empty());
    None
}

/// The focused screen from the JSON that `hyprctl -j monitors` prints.
pub fn focused_monitor(hyprctl_output: &[u8]) -> (r: Option<String>)
    ensures
        opt_view(r) == match json_array_flag_names(hyprctl_output@, "focused"@, "name"@) {
            Some(es) => first_focused(es),
            None => None,
        },
{
    match array_flag_names(hyprctl_output, "focused", "name") {
        Some(entries) => focused_name(&entries),
        None => None,
    }
}

// ---------------------------------------------------------------------------
// The last-wallpaper file
// ---------------------------------------------------------------------------

/// The line recorded after applying: the engine's tag, `|`, then what it shows.
pub open spec fn record_spec(b: Backend, target: Seq<char>) -> Seq<char> {
    cache_tag_spec(b) + seq!['|'] + target
}

pub fn last_wallpaper_record(b: Backend, target: &str) -> (r: String)
    ensures
        r@ == record_spec(b, target@),
{
    let mut out = chars_of(b.cache_tag());
    out.push('|');
    let t = chars_of(target);
    append_chars(&mut out, t.as_slice());
    string_of(out.as_slice())
}

/// What a last-wallpaper file says is shown: the trimmed text after its first `|`.
pub open spec fn current_spec(text: Seq<char>) -> Option<Seq<char>> {
    match split_once_spec(trim(text), '|') {
        Some((_, p)) => Some(p),
        None => None,
    }
}

pub fn parse_last_wallpaper(text: &str) -> (r: Option<String>)
    ensures
        opt_view(r) == current_spec(text@),
{
    let raw = chars_of(text);
    let t = trim_ws(raw.as_slice());
    let mut i: usize = 0;
    while i < t.len()
        invariant
            i <= t@.len(),
            t@ == trim(text@),
            forall|j: int| 0 <= j < i ==> t@[j] != '|',
        decreases t@.len() - i,
    {
        if t[i] == '|' {
            proof {
                let w = choose|w: int|
                    0 <= w < t@.len() && t@[w] == '|' && forall|j: int| 0 <= j < w ==> t@[j] != '|';
                if w < i {
                } else if w > i {
                    assert(t@[i as int] != '|');
                }
                assert(w == i);
            }
            let rest = copy_range(t.as_slice(), i + 1, t.len());
            assert(rest@ =~= t@.skip(i + 1));
            return Some(string_of(rest.as_slice()));
        }
        i = i + 1;
    }
    None
}

/// What is recorded after applying is read back as what was shown, for a
/// target that does not end with white space.
pub proof fn lemma_record_read_back(b: Backend, target: Seq<char>)
    requires
        target.len() == 0 || !is_ws(target.last()),
    ensures
        current_spec(record_spec(b, target)) == Some(target),
{
    reveal_strlit("AWWW");
    reveal_strlit("MPV");
    reveal_strlit("LWE");
    let tag = cache_tag_spec(b);
    let s = record_spec(b, target);
    assert(s[0] == tag[0]);
    assert(trim_start_by(s, ws_pred()) == s);
    if target.len() > 0 {
        assert(s.last() == target.last());
    } else {
        assert(s.last() == '|');
    }
    assert(trim_end_by(s, ws_pred()) == s);
    let n = tag.len() as int;
    assert(s[n] == '|');
    assert forall|j: int| 0 <= j < n implies s[j] != '|' by {
        assert(s[j] == tag[j]);
    }
    let w = choose|w: int| 0 <= w < s.len() && s[w] == '|' && forall|j: int| 0 <= j < w ==> s[j] != '|';
    if w < n {
        assert(s[w] != '|');
    } else if w > n {
        assert(s[n] != '|');
    }
    assert(s.skip(n + 1) =~= target);
}


/// What each engine is handed and what is recorded: `awww` gets `img` and
/// the entry's media file when it has one, its path only without media, and
/// that same file is recorded; `mpvpaper` plays the media, which is
/// recorded, and refuses an entry without media; `linux-wallpaperengine`
/// gets the entry's folder, which is recorded, and the screen.
pub proof fn lemma_engines_get_the_media(
    path: Seq<char>,
    media: Option<Seq<char>>,
    monitor: Seq<char>,
    mpv_output: Seq<char>,
    transition_type: Seq<char>,
    transition_pos: Option<Seq<char>>,
    transition_duration: Seq<char>,
)
    ensures
        ({
            let shown = match media {
                Some(m) => m,
                None => path,
            };
            launch_spec(Backend::Awww, path, media, monitor, mpv_output, transition_type, transition_pos, transition_duration)
                matches Some((args, target)) && args.len() >= 2 && args[0] == "img"@ && args[1]
                == shown && target == shown && args.last() == transition_duration
        }),
        ({
            let r = launch_spec(Backend::Mpvpaper, path, media, monitor, mpv_output, transition_type, transition_pos, transition_duration);
            match media {
                Some(m) => r matches Some((args, target)) && args.len() > 0 && args.last() == m
                    && target == m,
                None => r is None,
            }
        }),
        launch_spec(Backend::WallpaperEngine, path, media, monitor, mpv_output, transition_type, transition_pos, transition_duration)
            matches Some((args, target)) && args.len() == 3 && args[0] == path && args[2] == monitor
            && target == path,
{
    let shown = match media {
        Some(m) => m,
        None => path,
    };
    let pos = match transition_pos {
        Some(p) => seq!["--transition-pos"@, p],
        None => Seq::<Seq<char>>::empty(),
    };
    let args = seq!["img"@, shown, "--transition-type"@, transition_type] + pos + seq![
        "--transition-duration"@,
        transition_duration,
    ];
    assert(args[0] == "img"@);
    assert(args[1] == shown);
    assert(args.last() == transition_duration);
}

} // verus!
