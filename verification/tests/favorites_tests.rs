use wallpaper_selector::favorites::Favorites;

#[test]
fn parse_reads_yes_and_no_lines() {
    let mut f = Favorites::new("/tmp/favs".to_string());
    f.parse("# comment\n\n  perso:a.png  \n!  perso:b.gif \nsteam:1\r\n!steam:1\n");
    assert!(f.is_favorite("perso:a.png"));
    assert!(!f.is_favorite("perso:b.gif"));
    // An explicit "no" takes precedence.
    assert!(!f.is_favorite("steam:1"));
    assert_eq!(f.len(), 2);
    assert_eq!(f.path(), "/tmp/favs");
}

#[test]
fn set_marks_and_unmarks() {
    let mut f = Favorites::new("f".to_string());
    f.parse("!perso:x\n");
    assert!(!f.is_favorite("perso:x"));
    assert_eq!(f.set("perso:x", true), 1);
    assert!(f.is_favorite("perso:x"));
    assert_eq!(f.len(), 1);
    assert_eq!(f.set("perso:y", true), 2);
    assert_eq!(f.set("perso:y", true), 2);
    assert_eq!(f.set("perso:y", false), 1);
    assert_eq!(f.set("perso:x", false), 0);
    assert!(!f.is_favorite("perso:x"));
    assert_eq!(f.len(), 0);
}

#[test]
fn saved_text_is_sorted_and_reads_back() {
    let mut f = Favorites::new("f".to_string());
    f.set("steam:2", true);
    f.set("perso:a", true);
    f.set("perso:z", true);
    f.parse(&f.to_text());
    let mut g = Favorites::new("f".to_string());
    g.parse("perso:z\nsteam:2\nperso:a\n!perso:q\n");
    let text = g.to_text();
    assert_eq!(
        text,
        "# Wallpaper Selector — favoris\n\
         # Une ligne = un identifiant. Prefixer par '!' force « non favori ».\n\
         # Les identifiants sont des dossiers Steam ou des fichiers perso.\n\
         \n\
         perso:a\nperso:z\nsteam:2\n!perso:q\n"
    );
    let mut h = Favorites::new("f".to_string());
    h.parse(&text);
    assert_eq!(h.to_text(), text);
    assert!(h.is_favorite("steam:2"));
    assert!(!h.is_favorite("perso:q"));
    assert_eq!(f.len(), 3);
}

#[test]
fn empty_file_has_no_favourite() {
    let mut f = Favorites::new("f".to_string());
    f.parse("");
    assert_eq!(f.len(), 0);
    assert!(!f.is_favorite(""));
}
