//! The decisions taken while listing the wallpaper folders.
//!
//! Listing is I/O and stays with the caller; given what a folder holds, these
//! functions decide which entries are wallpapers, which file is the preview,
//! which one is the media, and build each `Wallpaper`.

use vstd::prelude::*;

use crate::favorites::Favorites;
use crate::json::{json_member_string, member_string, opt_view};
use crate::model::{kind_of_ext, is_image_ext, Kind, Source, Wallpaper};
use crate::text::{
    append_chars, ascii_lower, chars_of, contains_chars, copy_range, ends_with, has_no, has_sub,
    has_suffix, lower_ascii, string_of, trim, trim_ws,
};

verus! {

broadcast use vstd::string::group_string_axioms;

// ---------------------------------------------------------------------------
// File names
// ---------------------------------------------------------------------------

/// The name of a directory entry: no `/` in it.
pub open spec fn is_entry_name(name: Seq<char>) -> bool {
    has_no(name, '/')
}

/// `Path::file_name` of a bare name: none for ``, `.` and `..`.
pub open spec fn has_file_name(name: Seq<char>) -> bool {
    name.len() > 0 && name != seq!['.'] && name != seq!['.', '.']
}

/// The index of the last `.` in `name`, or -1.
pub open spec fn last_dot(name: Seq<char>) -> int
    decreases name.len(),
{
    if name.len() == 0 {
        -1
    } else if name.last() == '.' {
        name.len() - 1
    } else {
        last_dot(name.drop_last())
    }
}

/// `Path::extension` of a bare name: after the last `.`, unless that dot
/// starts the name or there is none.
pub open spec fn ext_spec(name: Seq<char>) -> Option<Seq<char>> {
    if !has_file_name(name) || last_dot(name) <= 0 {
        None
    } else {
        Some(name.skip(last_dot(name) + 1))
    }
}

/// `Path::file_stem` of a bare name: before the last `.`, or the whole name
/// when that dot starts the name or there is none.
pub open spec fn stem_spec(name: Seq<char>) -> Option<Seq<char>> {
    if !has_file_name(name) {
        None
    } else if last_dot(name) <= 0 {
        Some(name)
    } else {
        Some(name.take(last_dot(name)))
    }
}

proof fn lemma_last_dot(name: Seq<char>, i: int)
    requires
        -1 <= i < name.len(),
        i >= 0 ==> name[i] == '.',
        forall|j: int| i < j < name.len() ==> name[j] != '.',
    ensures
        last_dot(name) == i,
    decreases name.len(),
{
    if name.len() > 0 && i < name.len() - 1 {
        lemma_last_dot(name.drop_last(), i);
    }
}

/// Where the last `.` of `name` is.
fn find_last_dot(name: &[char]) -> (r: Option<usize>)
    ensures
        r matches Some(i) ==> i as int == last_dot(name@) && i < name@.len(),
        r is None ==> last_dot(name@) == -1,
{
    let mut i: usize = name.len();
    while i > 0
        invariant
            i <= name@.len(),
            forall|j: int| i <= j < name@.len() ==> name@[j] != '.',
        decreases i,
    {
        if name[i - 1] == '.' {
            proof {
                lemma_last_dot(name@, i - 1);
            }
            return Some(i - 1);
        }
        i = i - 1;
    }
    proof {
        lemma_last_dot(name@, -1);
    }
    None
}

fn has_file_name_exec(name: &[char]) -> (r: bool)
    ensures
        r == has_file_name(name@),
{
    if name.len() == 0 {
        return false;
    }
    if name.len() == 1 && name[0] == '.' {
        assert(name@ =~= seq!['.']);
        return false;
    }
    if name.len() == 2 && name[0] == '.' && name[1] == '.' {
        assert(name@ =~= seq!['.', '.']);
        return false;
    }
    proof {
        if name@ == seq!['.'] || name@ == seq!['.', '.'] {
            assert(name@.len() <= 2);
        }
    }
    true
}

/// The extension of an entry's name, as `Path::extension` gives it.
pub fn file_extension(name: &[char]) -> (r: Option<Vec<char>>)
    requires
        is_entry_name(name@),
    ensures
        match r {
            Some(e) => ext_spec(name@) == Some(e@),
            None => ext_spec(name@) is None,
        },
{
    if !has_file_name_exec(name) {
        return None;
    }
    match find_last_dot(name) {
        None => None,
        Some(0) => None,
        Some(i) => {
            let n = name.len();
            Some(copy_range(name, i + 1, n))
        },
    }
}

/// The stem of an entry's name, as `Path::file_stem` gives it.
pub fn file_stem(name: &[char]) -> (r: Option<Vec<char>>)
    requires
        is_entry_name(name@),
    ensures
        match r {
            Some(e) => stem_spec(name@) == Some(e@),
            None => stem_spec(name@) is None,
        },
{
    if !has_file_name_exec(name) {
        return None;
    }
    match find_last_dot(name) {
        None => Some(copy_range(name, 0, name.len())),
        Some(0) => Some(copy_range(name, 0, name.len())),
        Some(i) => Some(copy_range(name, 0, i)),
    }
}

/// An optional value, or the empty sequence.
pub open spec fn or_empty(o: Option<Seq<char>>) -> Seq<char> {
    match o {
        Some(s) => s,
        None => Seq::empty(),
    }
}

fn ext_or_empty(name: &[char]) -> (r: Vec<char>)
    requires
        is_entry_name(name@),
    ensures
        r@ == or_empty(ext_spec(name@)),
{
    match file_extension(name) {
        Some(e) => e,
        None => Vec::new(),
    }
}

fn stem_or_empty(name: &[char]) -> (r: Vec<char>)
    requires
        is_entry_name(name@),
    ensures
        r@ == or_empty(stem_spec(name@)),
{
    match file_stem(name) {
        Some(e) => e,
        None => Vec::new(),
    }
}

// ---------------------------------------------------------------------------
// The personal folder
// ---------------------------------------------------------------------------

/// The entry a file of the personal folder gives: none for what is not a
/// file, for a hidden file, or for a file that is not an image.
pub open spec fn perso_entry_spec(name: Seq<char>, is_file: bool) -> Option<(Kind, Seq<char>)> {
    let ext = or_empty(ext_spec(name));
    if !is_file || (name.len() > 0 && name[0] == '.') {
        None
    } else {
        match kind_of_ext(ext) {
            Some(k) => if is_image_ext(ext) {
                Some((k, ascii_lower(ext)))
            } else {
                None
            },
            None => None,
        }
    }
}

/// The wallpaper a file of the personal folder gives, with id `perso:<name>`.
pub fn perso_entry(name: &str, path: &str, is_file: bool, favs: &Favorites) -> (r: Option<Wallpaper>)
    requires
        is_entry_name(name@),
        favs.wf(),
    ensures
        match perso_entry_spec(name@, is_file) {
            None => r is None,
            Some((k, e)) => r matches Some(w) && {
                &&& w.id@ == "perso:"@ + name@
                &&& w.title@ == name@
                &&& w.path@ == path@
                &&& w.preview matches Some(p) && p@ == path@
                &&& w.media matches Some(m) && m@ == path@
                &&& w.kind == k
                &&& w.ext@ == e
                &&& w.source == Source::Perso
                &&& w.favorite == favs.is_favorite_spec(w.id@)
            },
        },
{
    if !is_file {
        return None;
    }
    let n = chars_of(name);
    if n.len() > 0 && n[0] == '.' {
        return None;
    }
    let ext = ext_or_empty(n.as_slice());
    let ext_s = string_of(ext.as_slice());
    let kind = match Kind::from_extension(ext_s.as_str()) {
        Some(k) => k,
        None => return None,
    };
    if !Kind::is_image_extension(ext_s.as_str()) {
        return None;
    }
    let mut id = chars_of("perso:");
    append_chars(&mut id, n.as_slice());
    let id = string_of(id.as_slice());
    let low = lower_ascii(ext.as_slice());
    let favorite = favs.is_favorite(id.as_str());
    Some(
        Wallpaper {
            favorite,
            id,
            title: name.to_owned(),
            preview: Some(path.to_owned()),
            media: Some(path.to_owned()),
            path: path.to_owned(),
            kind,
            ext: string_of(low.as_slice()),
            source: Source::Perso,
        },
    )
}

// ---------------------------------------------------------------------------
// Workshop folders
// ---------------------------------------------------------------------------

/// File stems that name a preview image.
pub open spec fn is_preview_stem(s: Seq<char>) -> bool {
    s == "preview"@ || s == "thumbnail"@ || s == "thumb"@ || s == "screenshot"@
}

fn preview_stem(s: &[char]) -> (r: bool)
    ensures
        r == is_preview_stem(s@),
{
    crate::model::eq_lit(s, "preview") || crate::model::eq_lit(s, "thumbnail")
        || crate::model::eq_lit(s, "thumb") || crate::model::eq_lit(s, "screenshot")
}

/// What was learned of a Workshop folder's files so far.
pub struct FilesView {
    pub has_pkg: bool,
    pub preview: Option<Seq<char>>,
    pub media: Option<Seq<char>>,
    pub media_kind: Option<Kind>,
    /// The lowercase extension of the media's name (empty without media).
    pub media_ext: Seq<char>,
}

/// What was learned of a Workshop folder's files so far.
pub struct SteamFiles {
    pub has_pkg: bool,
    pub preview: Option<String>,
    pub media: Option<String>,
    pub media_kind: Option<Kind>,
    pub media_ext: String,
}

impl View for SteamFiles {
    type V = FilesView;

    open spec fn view(&self) -> FilesView {
        FilesView {
            has_pkg: self.has_pkg,
            preview: opt_view(self.preview),
            media: opt_view(self.media),
            media_kind: self.media_kind,
            media_ext: self.media_ext@,
        }
    }
}

/// One file met while reading a Workshop folder itself: a `.pkg` file marks
/// a scene; a preview image is kept, the first one unless a JPEG comes later
/// (lighter than the PNG most items also carry); other files named like
/// previews or thumbnails are skipped; the first other known media is the
/// media.
pub open spec fn flat_step(st: FilesView, name: Seq<char>, path: Seq<char>, is_file: bool) -> FilesView {
    let n = ascii_lower(name);
    let stem = or_empty(stem_spec(n));
    let ext = or_empty(ext_spec(n));
    if !is_file {
        st
    } else if has_suffix(n, ".pkg"@) {
        FilesView { has_pkg: true, ..st }
    } else if is_preview_stem(stem) && kind_of_ext(ext) is Some {
        if st.preview is None || ext == "jpg"@ || ext == "jpeg"@ {
            FilesView { preview: Some(path), ..st }
        } else {
            st
        }
    } else if has_sub(n, "preview"@) || has_sub(n, "thumb"@) {
        st
    } else if st.media is None && kind_of_ext(ext) is Some {
        FilesView { media: Some(path), media_kind: kind_of_ext(ext), media_ext: ext, ..st }
    } else {
        st
    }
}

/// One file met in a sub-folder, searched only when the folder itself gave
/// nothing: the first file named like a preview is the preview; otherwise the
/// first known media not named like a preview or thumbnail is the media.
pub open spec fn deep_step(st: FilesView, name: Seq<char>, path: Seq<char>) -> FilesView {
    let n = ascii_lower(name);
    let stem = or_empty(stem_spec(n));
    let ext = or_empty(ext_spec(n));
    if is_preview_stem(stem) && st.preview is None {
        FilesView { preview: Some(path), ..st }
    } else if st.media is None && !has_sub(n, "preview"@) && !has_sub(n, "thumb"@) && kind_of_ext(
        ext,
    ) is Some {
        FilesView { media: Some(path), media_kind: kind_of_ext(ext), media_ext: ext, ..st }
    } else {
        st
    }
}

/// One entry of a Workshop folder, as the caller lists it.
pub struct FileEntry {
    pub name: String,
    pub path: String,
    pub is_file: bool,
}

/// The state after the files of a folder, in order.
pub open spec fn flat_fold(st: FilesView, es: Seq<FileEntry>) -> FilesView
    decreases es.len(),
{
    if es.len() == 0 {
        st
    } else {
        let last = es.last();
        flat_step(flat_fold(st, es.drop_last()), last.name@, last.path@, last.is_file)
    }
}

pub open spec fn no_files() -> FilesView {
    FilesView {
        has_pkg: false,
        preview: None,
        media: None,
        media_kind: None,
        media_ext: Seq::empty(),
    }
}

fn contains_lit(s: &[char], lit: &str) -> (r: bool)
    ensures
        r == has_sub(s@, lit@),
{
    let l = chars_of(lit);
    contains_chars(s, l.as_slice())
}

impl SteamFiles {
    pub fn new() -> (r: SteamFiles)
        ensures
            r@ == no_files(),
    {
        SteamFiles {
            has_pkg: false,
            preview: None,
            media: None,
            media_kind: None,
            media_ext: String::new(),
        }
    }

    /// Takes one file of the folder itself into account.
    pub fn visit(&mut self, name: &str, path: &str, is_file: bool)
        requires
            is_entry_name(name@),
        ensures
            final(self)@ == flat_step(old(self)@, name@, path@, is_file),
    {
        if !is_file {
            return ;
        }
        let raw = chars_of(name);
        let n = lower_ascii(raw.as_slice());
        assert(is_entry_name(n@)) by {
            assert forall|i: int| 0 <= i < n@.len() implies n@[i] != '/' by {
                assert(n@[i] == crate::text::lower_char(raw@[i]));
            }
        }
        let pkg = chars_of(".pkg");
        if ends_with(n.as_slice(), pkg.as_slice()) {
            self.has_pkg = true;
            return ;
        }
        let stem = stem_or_empty(n.as_slice());
        let ext = ext_or_empty(n.as_slice());
        let ext_s = string_of(ext.as_slice());
        let kind = Kind::from_extension(ext_s.as_str());
        if preview_stem(stem.as_slice()) && kind.is_some() {
            let is_jpeg = crate::model::eq_lit(ext.as_slice(), "jpg") || crate::model::eq_lit(
                ext.as_slice(),
                "jpeg",
            );
            if self.preview.is_none() || is_jpeg {
                self.preview = Some(path.to_owned());
            }
            return ;
        }
        if contains_lit(n.as_slice(), "preview") || contains_lit(n.as_slice(), "thumb") {
            return ;
        }
        if self.media.is_none() {
            if let Some(k) = kind {
                self.media_kind = Some(k);
                self.media = Some(path.to_owned());
                self.media_ext = ext_s;
            }
        }
    }

    /// Takes one file of a sub-folder into account.
    pub fn visit_deep(&mut self, name: &str, path: &str)
        requires
            is_entry_name(name@),
        ensures
            final(self)@ == deep_step(old(self)@, name@, path@),
    {
        let raw = chars_of(name);
        let n = lower_ascii(raw.as_slice());
        assert(is_entry_name(n@)) by {
            assert forall|i: int| 0 <= i < n@.len() implies n@[i] != '/' by {
                assert(n@[i] == crate::text::lower_char(raw@[i]));
            }
        }
        let stem = stem_or_empty(n.as_slice());
        let ext = ext_or_empty(n.as_slice());
        let ext_s = string_of(ext.as_slice());
        if preview_stem(stem.as_slice()) && self.preview.is_none() {
            self.preview = Some(path.to_owned());
        } else if self.media.is_none() && !contains_lit(n.as_slice(), "preview") && !contains_lit(
            n.as_slice(),
            "thumb",
        ) {
            if let Some(k) = Kind::from_extension(ext_s.as_str()) {
                self.media_kind = Some(k);
                self.media = Some(path.to_owned());
                self.media_ext = ext_s;
            }
        }
    }

    /// Whether the folder gave nothing, so that its sub-folders are searched.
    pub fn needs_deep_search(&self) -> (r: bool)
        ensures
            r == (!self.has_pkg && self.media is None && self.preview is None),
    {
        !self.has_pkg && self.media.is_none() && self.preview.is_none()
    }
}

/// What the files of a Workshop folder give, in the order listed.
pub fn classify_files(entries: &Vec<FileEntry>) -> (r: SteamFiles)
    requires
        forall|k: int| 0 <= k < entries@.len() ==> is_entry_name(#[trigger] entries@[k].name@),
    ensures
        r@ == flat_fold(no_files(), entries@),
{
    let mut st = SteamFiles::new();
    let mut i: usize = 0;
    while i < entries.len()
        invariant
            i <= entries@.len(),
            forall|k: int| 0 <= k < entries@.len() ==> is_entry_name(#[trigger] entries@[k].name@),
            st@ == flat_fold(no_files(), entries@.take(i as int)),
        decreases entries@.len() - i,
    {
        let e = &entries[i];
        st.visit(e.name.as_str(), e.path.as_str(), e.is_file);
        assert(entries@.take(i + 1 as int).drop_last() =~= entries@.take(i as int));
        i = i + 1;
    }
    assert(entries@.take(entries@.len() as int) =~= entries@);
    st
}

/// Whether the sub-folder search enters a folder named `name` met at
/// `depth` (counted down to 1): always above the last level, and at the last
/// level only for `assets`, `media` and `images`, in any case.
pub fn descend_into(name: &str, depth: u8) -> (r: bool)
    ensures
        r == ({
            let n = ascii_lower(name@);
            n == "assets"@ || n == "media"@ || n == "images"@ || depth > 1
        }),
{
    let raw = chars_of(name);
    let n = lower_ascii(raw.as_slice());
    crate::model::eq_lit(n.as_slice(), "assets") || crate::model::eq_lit(n.as_slice(), "media")
        || crate::model::eq_lit(n.as_slice(), "images") || depth > 1
}

/// The kind of a Workshop entry: a scene when a `.pkg` is there, else the
/// media's kind, else a video when the project says so, else an image.
pub open spec fn steam_kind(st: FilesView, declared_type: Option<Seq<char>>) -> Kind {
    if st.has_pkg {
        Kind::Pkg
    } else {
        match st.media_kind {
            Some(k) => k,
            None => if declared_type == Some("video"@) {
                Kind::Video
            } else {
                Kind::Image
            },
        }
    }
}

/// The title and type a project file declares: the title trimmed and only
/// when not empty, the type in ASCII lowercase.
pub open spec fn project_fields_spec(title: Option<Seq<char>>, ty: Option<Seq<char>>) -> (Option<Seq<char>>, Option<Seq<char>>) {
    (
        match title {
            Some(t) => if trim(t).len() > 0 {
                Some(trim(t))
            } else {
                None
            },
            None => None,
        },
        match ty {
            Some(t) => Some(ascii_lower(t)),
            None => None,
        },
    )
}

pub fn project_fields(title: Option<String>, ty: Option<String>) -> (r: (Option<String>, Option<String>))
    ensures
        (opt_view(r.0), opt_view(r.1)) == project_fields_spec(opt_view(title), opt_view(ty)),
{
    let t = match title {
        Some(t) => {
            let c = chars_of(t.as_str());
            let tr = trim_ws(c.as_slice());
            if tr.len() > 0 {
                Some(string_of(tr.as_slice()))
            } else {
                None
            }
        },
        None => None,
    };
    let y = match ty {
        Some(y) => {
            let c = chars_of(y.as_str());
            let l = lower_ascii(c.as_slice());
            Some(string_of(l.as_slice()))
        },
        None => None,
    };
    (t, y)
}

/// The title and type that a folder's `project.json` declares at its top
/// level.
pub fn project_info(bytes: &[u8]) -> (r: (Option<String>, Option<String>))
    ensures
        (opt_view(r.0), opt_view(r.1)) == project_fields_spec(
            json_member_string(bytes@, "title"@),
            json_member_string(bytes@, "type"@),
        ),
{
    let title = member_string(bytes, "title");
    let ty = member_string(bytes, "type");
    project_fields(title, ty)
}

/// The wallpaper a Workshop folder gives, with id `steam:<folder name>`.
pub fn steam_wallpaper(
    ws_id: &str,
    dir: &str,
    title: Option<String>,
    declared_type: Option<String>,
    files: &SteamFiles,
    favs: &Favorites,
) -> (w: Wallpaper)
    requires
        favs.wf(),
    ensures
        w.id@ == "steam:"@ + ws_id@,
        w.title@ == (match title {
            Some(t) => t@,
            None => ws_id@,
        }),
        w.path@ == dir@,
        opt_view(w.preview) == files@.preview,
        opt_view(w.media) == files@.media,
        w.kind == steam_kind(files@, opt_view(declared_type)),
        w.ext@ == (if files.has_pkg {
            "pkg"@
        } else {
            files@.media_ext
        }),
        w.source == Source::Steam,
        w.favorite == favs.is_favorite_spec(w.id@),
{
    let kind = if files.has_pkg {
        Kind::Pkg
    } else {
        match files.media_kind {
            Some(k) => k,
            None => {
                let video = match &declared_type {
                    Some(t) => crate::model::eq_lit(chars_of(t.as_str()).as_slice(), "video"),
                    None => false,
                };
                if video {
                    Kind::Video
                } else {
                    Kind::Image
                }
            },
        }
    };
    let ext = if files.has_pkg {
        "pkg".to_owned()
    } else {
        files.media_ext.clone()
    };
    let mut id = chars_of("steam:");
    append_chars(&mut id, chars_of(ws_id).as_slice());
    let id = string_of(id.as_slice());
    let favorite = favs.is_favorite(id.as_str());
    let title = match title {
        Some(t) => t,
        None => ws_id.to_owned(),
    };
    Wallpaper {
        favorite,
        id,
        title,
        path: dir.to_owned(),
        preview: files.preview.clone(),
        media: files.media.clone(),
        kind,
        ext,
        source: Source::Steam,
    }
}


/// In a Workshop folder, a file that is no `.pkg`, no preview and holds
/// neither `preview` nor `thumb` in its name becomes the media when there is
/// none yet and its extension is of a known kind (video, GIF or still
/// image), with that kind and that extension; a still image such as
/// `wallpaper.png` is taken as an image. Nothing else of the summary changes.
pub proof fn lemma_flat_step_takes_media(st: FilesView, name: Seq<char>, path: Seq<char>)
    requires
        st.media is None,
        !has_suffix(ascii_lower(name), ".pkg"@),
        !is_preview_stem(or_empty(stem_spec(ascii_lower(name)))),
        !has_sub(ascii_lower(name), "preview"@),
        !has_sub(ascii_lower(name), "thumb"@),
        kind_of_ext(or_empty(ext_spec(ascii_lower(name)))) is Some,
    ensures
        ({
            let ext = or_empty(ext_spec(ascii_lower(name)));
            let r = flat_step(st, name, path, true);
            &&& r.media == Some(path)
            &&& r.media_kind == kind_of_ext(ext)
            &&& r.media_ext == ext
            &&& r.has_pkg == st.has_pkg
            &&& r.preview == st.preview
            &&& crate::model::is_still_ext(ascii_lower(ext)) ==> r.media_kind == Some(Kind::Image)
        }),
{
    let ext = or_empty(ext_spec(ascii_lower(name)));
    let e = ascii_lower(ext);
    if crate::model::is_still_ext(e) {
        reveal_strlit("mp4");
        reveal_strlit("webm");
        reveal_strlit("mkv");
        reveal_strlit("mov");
        reveal_strlit("gif");
        reveal_strlit("jpg");
        reveal_strlit("jpeg");
        reveal_strlit("png");
        reveal_strlit("webp");
        reveal_strlit("avif");
        reveal_strlit("bmp");
        reveal_strlit("tiff");
        reveal_strlit("tif");
        assert(e.len() >= 3 && e[0] != 'm' && e[0] != 'g');
        assert("mp4"@[0] == 'm' && "mkv"@[0] == 'm' && "mov"@[0] == 'm' && "gif"@[0] == 'g');
        assert(e != "webm"@) by {
            if e == "webp"@ {
                assert(e[3] == 'p' && "webm"@[3] == 'm');
            } else {
                assert(e[0] != 'w' && "webm"@[0] == 'w');
            }
        }
        assert(!crate::model::is_video_ext(e));
        assert(e != "gif"@);
    }
}

} // verus!
