use wallpaper_selector::favorites::Favorites;
use wallpaper_selector::model::{Kind, Source};
use wallpaper_selector::scan::{
    classify_files, descend_into, file_extension, file_stem, perso_entry, project_info,
    steam_wallpaper, FileEntry, SteamFiles,
};

fn s(v: Option<Vec<char>>) -> Option<String> {
    v.map(|c| c.into_iter().collect())
}

fn chars(x: &str) -> Vec<char> {
    x.chars().collect()
}

#[test]
fn names() {
    assert_eq!(s(file_extension(&chars("a.tar.gz"))).as_deref(), Some("gz"));
    assert_eq!(s(file_extension(&chars(".hidden"))), None);
    assert_eq!(s(file_extension(&chars("noext"))), None);
    assert_eq!(s(file_extension(&chars("a."))).as_deref(), Some(""));
    assert_eq!(s(file_extension(&chars(".."))), None);
    assert_eq!(s(file_stem(&chars("a.tar.gz"))).as_deref(), Some("a.tar"));
    assert_eq!(s(file_stem(&chars(".hidden"))).as_deref(), Some(".hidden"));
    assert_eq!(s(file_stem(&chars("noext"))).as_deref(), Some("noext"));
}

#[test]
fn personal_files() {
    let mut favs = Favorites::new("f".to_string());
    favs.set("perso:cabin.PNG", true);
    let w = perso_entry("cabin.PNG", "/p/cabin.PNG", true, &favs).unwrap();
    assert_eq!(w.id, "perso:cabin.PNG");
    assert_eq!(w.title, "cabin.PNG");
    assert_eq!(w.ext, "png");
    assert_eq!(w.kind, Kind::Image);
    assert_eq!(w.source, Source::Perso);
    assert!(w.favorite);
    assert_eq!(w.media.as_deref(), Some("/p/cabin.PNG"));
    assert!(perso_entry(".x.png", "/p/.x.png", true, &favs).is_none());
    assert!(perso_entry("v.mp4", "/p/v.mp4", true, &favs).is_none());
    assert!(perso_entry("d.png", "/p/d.png", false, &favs).is_none());
    assert_eq!(perso_entry("l.gif", "/p/l.gif", true, &favs).unwrap().kind, Kind::Gif);
}

fn entry(name: &str, is_file: bool) -> FileEntry {
    FileEntry { name: name.to_string(), path: format!("/ws/1/{name}"), is_file }
}

#[test]
fn workshop_folders() {
    let st = classify_files(&vec![
        entry("preview.png", true),
        entry("scene.json", true),
        entry("Preview.JPG", true),
        entry("thumbnail_big.mp4", true),
        entry("clip.MP4", true),
        entry("other.webm", true),
        entry("sub", false),
    ]);
    assert!(!st.has_pkg);
    assert_eq!(st.preview.as_deref(), Some("/ws/1/Preview.JPG"));
    assert_eq!(st.media.as_deref(), Some("/ws/1/clip.MP4"));
    assert_eq!(st.media_kind, Some(Kind::Video));
    assert_eq!(st.media_ext, "mp4");
    assert!(!st.needs_deep_search());
    let favs = Favorites::new("f".to_string());
    let w = steam_wallpaper("1", "/ws/1", Some("Snow".to_string()), None, &st, &favs);
    assert_eq!(w.id, "steam:1");
    assert_eq!(w.title, "Snow");
    assert_eq!(w.kind, Kind::Video);
    assert_eq!(w.ext, "mp4");
    assert_eq!(w.source, Source::Steam);

    let pkg = classify_files(&vec![entry("scene.pkg", true), entry("preview.gif", true)]);
    assert!(pkg.has_pkg);
    let w = steam_wallpaper("2", "/ws/2", None, Some("video".to_string()), &pkg, &favs);
    assert_eq!(w.kind, Kind::Pkg);
    assert_eq!(w.ext, "pkg");
    assert_eq!(w.title, "2");

    let empty = classify_files(&vec![entry("project.json", true)]);
    assert!(empty.needs_deep_search());
    let w = steam_wallpaper("3", "/ws/3", None, Some("video".to_string()), &empty, &favs);
    assert_eq!(w.kind, Kind::Video);
    assert_eq!(w.ext, "");
    let w = steam_wallpaper("3", "/ws/3", None, None, &empty, &favs);
    assert_eq!(w.kind, Kind::Image);
}

#[test]
fn deep_search() {
    assert!(descend_into("assets", 1));
    assert!(!descend_into("other", 1));
    assert!(descend_into("other", 2));
    assert!(descend_into("Media", 1));
    let mut st = SteamFiles::new();
    st.visit_deep("Thumb.bin", "/d/Thumb.bin");
    st.visit_deep("my_preview.png", "/d/my_preview.png");
    st.visit_deep("loop.GIF", "/d/loop.GIF");
    st.visit_deep("b.png", "/d/b.png");
    assert_eq!(st.preview.as_deref(), Some("/d/Thumb.bin"));
    assert_eq!(st.media.as_deref(), Some("/d/loop.GIF"));
    assert_eq!(st.media_kind, Some(Kind::Gif));
}

#[test]
fn project_files() {
    let (t, ty) = project_info(br#"{"title": "  Neon City ", "type": "Video", "general": {"type": "scene"}}"#);
    assert_eq!(t.as_deref(), Some("Neon City"));
    assert_eq!(ty.as_deref(), Some("video"));
    let (t, ty) = project_info(br#"{"title": "   "}"#);
    assert_eq!(t, None);
    assert_eq!(ty, None);
    assert_eq!(project_info(b"{broken"), (None, None));
}
