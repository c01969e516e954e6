use wallpaper_selector::cli::{favorite_ids, id_exists, parse_args, print_line, should_detach, sort_strings, Mode};
use wallpaper_selector::model::{Kind, Source, Wallpaper};

fn args(v: &[&str]) -> Vec<String> {
    v.iter().map(|s| s.to_string()).collect()
}

#[test]
fn options() {
    let c = parse_args(&args(&[])).ok().unwrap();
    assert!(matches!(c.mode, Mode::Toggle));
    assert!(!c.foreground);
    let c = parse_args(&args(&["-F", "--show"])).ok().unwrap();
    assert!(matches!(c.mode, Mode::Show));
    assert!(c.foreground);
    let c = parse_args(&args(&["--json"])).ok().unwrap();
    assert!(matches!(c.mode, Mode::Print(true)));
    let c = parse_args(&args(&["--unfavorite", "perso:a", "-F"])).ok().unwrap();
    assert!(matches!(c.mode, Mode::Favorite(ref id, false) if id == "perso:a"));
    assert!(c.foreground);
    let c = parse_args(&args(&["-f", "steam:1"])).ok().unwrap();
    assert!(matches!(c.mode, Mode::Favorite(ref id, true) if id == "steam:1"));
    let c = parse_args(&args(&["--quit", "-h", "--bogus"])).ok().unwrap();
    assert!(matches!(c.mode, Mode::Help));
    assert_eq!(
        parse_args(&args(&["--favorite"])).err().unwrap(),
        "--favorite attend un identifiant (ex. steam:1355236618)"
    );
    assert_eq!(parse_args(&args(&["-x"])).err().unwrap(), "option inconnue : -x");
}

#[test]
fn detaching() {
    assert!(should_detach(true, false, false));
    assert!(!should_detach(true, true, false));
    assert!(!should_detach(true, false, true));
    assert!(!should_detach(false, false, false));
}

fn wp(id: &str, title: &str, fav: bool) -> Wallpaper {
    Wallpaper {
        id: id.to_string(),
        title: title.to_string(),
        path: "/p".to_string(),
        preview: None,
        media: None,
        kind: Kind::Image,
        ext: "png".to_string(),
        source: Source::Perso,
        favorite: fav,
    }
}

#[test]
fn listings() {
    let items = vec![wp("steam:9", "b", true), wp("perso:x", "a", false), wp("perso:a", "c", true)];
    assert_eq!(favorite_ids(&items), vec!["perso:a", "steam:9"]);
    assert!(id_exists(&items, "perso:x"));
    assert!(!id_exists(&items, "perso:y"));
    let line = print_line(&items[0]);
    assert_eq!(line, format!("★ {:<40} {:<6} {}", "b", "IMG", "steam:9"));
    let long = "x".repeat(45);
    assert_eq!(print_line(&wp("i", &long, false)), format!("  {} IMG    i", long));
    let mut v = args(&["b", "a", "c", "a"]);
    sort_strings(&mut v);
    assert_eq!(v, args(&["a", "a", "b", "c"]));
}
