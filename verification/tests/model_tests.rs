use wallpaper_selector::model::{sort_for_display, type_cycle_at, Kind, Source, Wallpaper};

fn wp(id: &str, title: &str, ext: &str, kind: Kind, source: Source, favorite: bool) -> Wallpaper {
    Wallpaper {
        id: id.to_string(),
        title: title.to_string(),
        path: "/w".to_string(),
        preview: None,
        media: None,
        kind,
        ext: ext.to_string(),
        source,
        favorite,
    }
}

#[test]
fn labels_and_badges() {
    assert_eq!(Source::Steam.label(), "steam");
    assert_eq!(Source::Perso.label(), "perso");
    assert_eq!(Kind::Pkg.badge(), "PKG");
    assert_eq!(Kind::Video.badge(), "MP4");
    assert_eq!(Kind::Gif.badge(), "GIF");
    assert_eq!(Kind::Image.badge(), "IMG");
}

#[test]
fn kinds_by_extension_ignore_case() {
    assert_eq!(Kind::from_extension("MP4"), Some(Kind::Video));
    assert_eq!(Kind::from_extension("webm"), Some(Kind::Video));
    assert_eq!(Kind::from_extension("Gif"), Some(Kind::Gif));
    assert_eq!(Kind::from_extension("tif"), Some(Kind::Image));
    assert_eq!(Kind::from_extension("pkg"), None);
    assert_eq!(Kind::from_extension(""), None);
    assert!(Kind::is_image_extension("GIF"));
    assert!(Kind::is_image_extension("jpeg"));
    assert!(!Kind::is_image_extension("mp4"));
}

#[test]
fn thumbnail_source_prefers_preview_then_media() {
    let mut w = wp("perso:a.png", "a.png", "png", Kind::Image, Source::Perso, false);
    assert_eq!(w.thumb_source().map(|s| s.as_str()), Some("/w"));
    w.media = Some("/m".to_string());
    assert_eq!(w.thumb_source().map(|s| s.as_str()), Some("/m"));
    w.preview = Some("/p".to_string());
    assert_eq!(w.thumb_source().map(|s| s.as_str()), Some("/p"));
}

#[test]
fn subtitles() {
    let s = wp("steam:steam:42", "x", "mp4", Kind::Video, Source::Steam, false);
    assert_eq!(s.subtitle(), "42 · mp4 · steam");
    let p = wp("perso:a", "a", "", Kind::Gif, Source::Perso, false);
    assert_eq!(p.subtitle(), "perso · gif · perso");
}

#[test]
fn type_tokens() {
    let v = wp("steam:1", "v", "webm", Kind::Video, Source::Steam, false);
    assert!(v.matches_type("webm"));
    assert!(v.matches_type("videos"));
    assert!(v.matches_type("workshop"));
    assert!(!v.matches_type("local"));
    let j = wp("perso:j", "j", "jpg", Kind::Image, Source::Perso, false);
    assert!(j.matches_type("jpeg"));
    assert!(j.matches_type("photo"));
    assert!(!j.matches_type("anim"));
    let g = wp("perso:g", "g", "gif", Kind::Gif, Source::Perso, false);
    assert!(g.matches_type("animation"));
    assert!(!g.matches_type("image"));
    let s = wp("steam:s", "s", "pkg", Kind::Pkg, Source::Steam, false);
    assert!(s.matches_type("scene"));
    assert!(s.matches_type("we"));
}

#[test]
fn display_order_puts_favourites_first_then_titles() {
    let mut list = vec![
        wp("perso:b", "beta", "png", Kind::Image, Source::Perso, false),
        wp("perso:a", "Alpha", "png", Kind::Image, Source::Perso, false),
        wp("perso:z", "zeta", "png", Kind::Image, Source::Perso, true),
        wp("perso:a2", "alpha", "png", Kind::Image, Source::Perso, false),
        wp("perso:c", "Charlie", "png", Kind::Image, Source::Perso, true),
    ];
    sort_for_display(&mut list);
    let ids: Vec<&str> = list.iter().map(|w| w.id.as_str()).collect();
    // Ties (Alpha / alpha) keep their original order.
    assert_eq!(ids, vec!["perso:c", "perso:z", "perso:a", "perso:a2", "perso:b"]);
}

#[test]
fn rotation_order() {
    let all: Vec<&str> = (0..6).map(type_cycle_at).collect();
    assert_eq!(all, vec!["pkg", "mp4", "gif", "img", "perso", "steam"]);
}
