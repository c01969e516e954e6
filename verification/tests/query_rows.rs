use wallpaper_selector::model::{Kind, Source, Wallpaper};
use wallpaper_selector::ui::{build_rows, Query, Row};

fn wp(title: &str, ext: &str, source: Source, favorite: bool) -> Wallpaper {
    let kind = match ext {
        "pkg" => Kind::Pkg,
        "gif" => Kind::Gif,
        "mp4" | "webm" => Kind::Video,
        _ => Kind::Image,
    };
    Wallpaper {
        id: format!("{}:{title}", source.label()),
        title: title.to_string(),
        path: "/tmp".to_string(),
        preview: None,
        media: None,
        kind,
        ext: ext.to_string(),
        source,
        favorite,
    }
}

fn items() -> Vec<Wallpaper> {
    vec![
        wp("neocity.png", "png", Source::Perso, true),
        wp("cabin.jpg", "jpg", Source::Perso, true),
        wp("Dragon Bones", "pkg", Source::Steam, false),
        wp("Snow", "mp4", Source::Steam, false),
        wp("Loop", "gif", Source::Steam, false),
    ]
}

#[test]
fn parse_separe_texte_et_filtres() {
    let q = Query::parse("#PNG montagne #jpg");
    assert_eq!(q.text, "montagne");
    assert_eq!(q.types, vec!["png", "jpg"]);

    let vide = Query::parse("   ");
    assert!(vide.text.is_empty() && vide.types.is_empty());

    // Un « # » seul reste du texte libre.
    let diese = Query::parse("#");
    assert_eq!(diese.text, "#");
    assert!(diese.types.is_empty());
}

#[test]
fn filtre_sur_l_extension_reelle() {
    let q = Query::parse("#png");
    assert!(q.matches(&wp("a.png", "png", Source::Perso, false)));
    assert!(!q.matches(&wp("a.jpg", "jpg", Source::Perso, false)));
}

#[test]
fn alias_de_type() {
    let video = Query::parse("#video");
    assert!(video.matches(&wp("a.mp4", "mp4", Source::Steam, false)));
    assert!(video.matches(&wp("a.webm", "webm", Source::Steam, false)));
    assert!(!video.matches(&wp("a.png", "png", Source::Perso, false)));

    let image = Query::parse("#img");
    assert!(image.matches(&wp("a.png", "png", Source::Perso, false)));
    assert!(image.matches(&wp("a.jpg", "jpg", Source::Perso, false)));
    assert!(!image.matches(&wp("a.pkg", "pkg", Source::Steam, false)));
}

#[test]
fn filtre_par_source() {
    let steam = Query::parse("#steam");
    assert!(steam.matches(&wp("Dragon", "pkg", Source::Steam, false)));
    assert!(!steam.matches(&wp("cabin", "png", Source::Perso, false)));
}

#[test]
fn plusieurs_filtres_se_cumulent_en_ou() {
    let q = Query::parse("#png #jpg");
    assert!(q.matches(&wp("a.png", "png", Source::Perso, false)));
    assert!(q.matches(&wp("b.jpg", "jpg", Source::Perso, false)));
    assert!(!q.matches(&wp("c.pkg", "pkg", Source::Steam, false)));
}

#[test]
fn texte_et_filtre_se_cumulent_en_et() {
    let q = Query::parse("#png neocity");
    assert!(q.matches(&wp("neocity.png", "png", Source::Perso, false)));
    assert!(!q.matches(&wp("cabin.png", "png", Source::Perso, false)));
}

#[test]
fn favoris_en_tete_avec_en_tete_de_section() {
    let rows = build_rows(&items(), "");
    assert!(matches!(rows[0], Row::Header { .. }));
    assert_eq!(rows[1], Row::Item(0));
    assert_eq!(rows[2], Row::Item(1));
    // Puis une seconde section pour le reste.
    let second = rows
        .iter()
        .rposition(|r| matches!(r, Row::Header { .. }))
        .map(|i| i + 1)
        .unwrap();
    assert_eq!(rows[second], Row::Item(2));
    assert_eq!(rows.len(), 7); // 2 en-têtes + 5 entrées
}

#[test]
fn aucun_resultat_ne_produit_aucune_ligne() {
    assert!(build_rows(&items(), "#webm").is_empty());
    assert!(build_rows(&items(), "introuvable").is_empty());
}

#[test]
fn filtre_reduit_les_deux_sections() {
    let rows = build_rows(&items(), "#png");
    // Le favori PNG garde sa section, le reste disparaît.
    assert_eq!(rows.len(), 2);
    assert!(matches!(rows[0], Row::Header { .. }));
    assert_eq!(rows[1], Row::Item(0));
}

#[test]
fn section_headers_carry_their_counts() {
    let rows = build_rows(&items(), "");
    assert_eq!(rows[0], Row::Header { text: "FAVORIS (2)".to_string() });
    assert_eq!(rows[3], Row::Header { text: "TOUS LES FONDS D'ÉCRAN (3)".to_string() });
}

#[test]
fn text_search_ignores_case_and_looks_at_ids() {
    let q = Query::parse("DRAGON");
    assert_eq!(q.text, "dragon");
    assert!(q.matches(&wp("Dragon Bones", "pkg", Source::Steam, false)));
    let by_id = Query::parse("steam:snow");
    assert!(by_id.matches(&wp("Snow", "mp4", Source::Steam, false)));
    assert!(!by_id.matches(&wp("Loop", "gif", Source::Steam, false)));
}

#[test]
fn several_text_words_are_searched_together() {
    let q = Query::parse("  dragon   bones  ");
    assert_eq!(q.text, "dragon bones");
    assert!(q.matches(&wp("Dragon Bones", "pkg", Source::Steam, false)));
    assert!(!q.matches(&wp("Bones Dragon", "pkg", Source::Steam, false)));
}

#[test]
fn type_label_lists_the_filters() {
    assert_eq!(Query::parse("#png x #JPG").type_label(), Some("png, jpg".to_string()));
    assert_eq!(Query::parse("x").type_label(), None);
}

#[test]
fn unicode_titles_are_searched_in_lowercase() {
    let q = Query::parse("été");
    assert!(q.matches(&wp("ÉTÉ à Paris", "png", Source::Perso, false)));
}

#[test]
fn each_match_is_listed_once_favourites_first() {
    let all = items();
    let rows = build_rows(&all, "#png #gif #pkg");
    let shown: Vec<usize> = rows
        .iter()
        .filter_map(|r| match r {
            Row::Item(i) => Some(*i),
            Row::Header { .. } => None,
        })
        .collect();
    assert_eq!(shown, vec![0, 2, 4]);
    let q = Query::parse("#png #gif #pkg");
    for (i, w) in all.iter().enumerate() {
        assert_eq!(q.matches(w), shown.contains(&i));
    }
    assert_eq!(rows[0], Row::Header { text: "FAVORIS (1)".to_string() });
    assert_eq!(rows[2], Row::Header { text: "TOUS LES FONDS D'ÉCRAN (2)".to_string() });
}

#[test]
fn parsed_text_parses_back_without_filters() {
    let q = Query::parse("  Forêt   #PNG Nuit #Video ");
    assert_eq!(q.types, vec!["png", "video"]);
    let again = Query::parse(&q.text);
    assert_eq!(again.text, q.text);
    assert!(again.types.is_empty());
}

#[test]
fn first_filter_narrows_next_filter_widens() {
    let all = items();
    let q0 = Query::parse("o");
    let q1 = Query::parse("o #png");
    let q2 = Query::parse("o #png #MP4");
    assert_eq!(q1.text, q0.text);
    assert_eq!(q2.types, vec!["png", "mp4"]);
    for w in &all {
        if q1.matches(w) {
            assert!(q0.matches(w));
            assert!(q2.matches(w));
        }
    }
    assert!(q0.matches(&all[3]) && !q1.matches(&all[3]) && q2.matches(&all[3]));
}
