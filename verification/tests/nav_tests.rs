use wallpaper_selector::favorites::Favorites;
use wallpaper_selector::ipc::Command;
use wallpaper_selector::model::{Kind, Source, Wallpaper};
use wallpaper_selector::ui::{
    first_item_row, item_at, last_item_row, moved_selection, next_filter_text, row_of_id,
    rows_equal, selection_after_refilter, shows_on_start, status_text, sync_favorites, Row,
};
use wallpaper_selector::ui::{key_action, row_labels, Key, KeyAction};

fn rows() -> Vec<Row> {
    vec![
        Row::Header { text: "A".to_string() },
        Row::Item(0),
        Row::Item(1),
        Row::Header { text: "B".to_string() },
        Row::Item(2),
    ]
}

#[test]
fn filter_rotation() {
    assert_eq!(next_filter_text(""), "#pkg ");
    assert_eq!(next_filter_text("neon #pkg "), "neon #mp4 ");
    assert_eq!(next_filter_text("#PNG"), "#pkg ");
    assert_eq!(next_filter_text("#"), "#pkg ");
    assert_eq!(next_filter_text("neon #perso"), "neon #steam ");
    assert_eq!(next_filter_text("neon #steam"), "neon ");
    assert_eq!(next_filter_text("#steam"), "");
    let mut t = String::new();
    let mut seen = Vec::new();
    for _ in 0..7 {
        t = next_filter_text(&t);
        seen.push(t.clone());
    }
    assert_eq!(seen, vec!["#pkg ", "#mp4 ", "#gif ", "#img ", "#perso ", "#steam ", ""]);
}

#[test]
fn selection_moves_skip_headers() {
    let r = rows();
    assert_eq!(moved_selection(&r, None, 1), Some(1));
    assert_eq!(moved_selection(&r, Some(2), 1), Some(4));
    assert_eq!(moved_selection(&r, Some(4), -1), Some(2));
    assert_eq!(moved_selection(&r, Some(4), 1), None);
    assert_eq!(moved_selection(&r, Some(1), -1), None);
    assert_eq!(moved_selection(&r, Some(1), 10), Some(4));
    assert_eq!(moved_selection(&r, None, -1), None);
    assert_eq!(moved_selection(&r, Some(1), 0), None);
    assert_eq!(moved_selection(&vec![], None, 1), None);
    assert_eq!(moved_selection(&r, Some(5), -1), Some(4));
    assert_eq!(first_item_row(&r), Some(1));
    assert_eq!(last_item_row(&r), Some(4));
    assert_eq!(first_item_row(&vec![Row::Header { text: "x".to_string() }]), None);
    assert_eq!(item_at(&r, Some(4)), Some(2));
    assert_eq!(item_at(&r, Some(3)), None);
    assert_eq!(item_at(&r, None), None);
}

fn wp(id: &str, title: &str) -> Wallpaper {
    Wallpaper {
        id: id.to_string(),
        title: title.to_string(),
        path: "/p".to_string(),
        preview: None,
        media: None,
        kind: Kind::Image,
        ext: "png".to_string(),
        source: Source::Perso,
        favorite: false,
    }
}

#[test]
fn refilter_keeps_the_entry() {
    let r = rows();
    let all = vec![wp("perso:a", "a"), wp("perso:b", "b"), wp("perso:c", "c")];
    assert_eq!(row_of_id(&r, &all, "perso:c"), Some(4));
    assert_eq!(row_of_id(&r, &all, "perso:z"), None);
    assert_eq!(selection_after_refilter(&r, &all, Some("perso:b")), Some(2));
    assert_eq!(selection_after_refilter(&r, &all, Some("perso:z")), Some(1));
    assert_eq!(selection_after_refilter(&r, &all, None), Some(1));
    assert!(rows_equal(&r, &rows()));
    let mut other = rows();
    other[0] = Row::Header { text: "C".to_string() };
    assert!(!rows_equal(&r, &other));
}

#[test]
fn status_and_start() {
    assert_eq!(status_text(Some("png, jpg"), 3, 1, 10), "type png, jpg · 3 affichés · 1 favoris · 10 au total");
    assert_eq!(status_text(None, 0, 0, 0), "0 affichés · 0 favoris · 0 au total");
    assert!(!shows_on_start(Command::Hide));
    assert!(shows_on_start(Command::Reload));
}

#[test]
fn favourites_are_synchronised_then_sorted() {
    let mut all = vec![wp("perso:a", "a"), wp("perso:b", "b")];
    let mut favs = Favorites::new("f".to_string());
    favs.set("perso:b", true);
    sync_favorites(&mut all, &favs);
    assert_eq!(all[0].id, "perso:b");
    assert!(all[0].favorite);
    assert!(!all[1].favorite);
}

#[test]
fn keys_of_the_window() {
    assert_eq!(key_action(Key::Escape, false), Some(KeyAction::Hide));
    assert_eq!(key_action(Key::Up, false), Some(KeyAction::Move(-1)));
    assert_eq!(key_action(Key::Down, true), Some(KeyAction::Move(1)));
    assert_eq!(key_action(Key::Home, false), Some(KeyAction::First));
    assert_eq!(key_action(Key::PageUp, false), Some(KeyAction::First));
    assert_eq!(key_action(Key::End, false), Some(KeyAction::Last));
    assert_eq!(key_action(Key::Enter, false), Some(KeyAction::Activate));
    assert_eq!(key_action(Key::Tab, false), Some(KeyAction::ToggleFavorite));
    assert_eq!(key_action(Key::Char('F'), true), Some(KeyAction::ToggleFavorite));
    assert_eq!(key_action(Key::Char('t'), true), Some(KeyAction::CycleFilter));
    assert_eq!(key_action(Key::Char('j'), true), Some(KeyAction::Move(1)));
    assert_eq!(key_action(Key::Char('k'), true), Some(KeyAction::Move(-1)));
    assert_eq!(key_action(Key::Char('t'), false), None);
    assert_eq!(key_action(Key::Char('x'), true), None);
    assert_eq!(key_action(Key::Other, true), None);
}

#[test]
fn labels_of_a_row() {
    let w = Wallpaper {
        id: "steam:42".to_string(),
        title: "Snow".to_string(),
        path: "/w/42".to_string(),
        preview: None,
        media: None,
        kind: Kind::Video,
        source: Source::Steam,
        ext: "mp4".to_string(),
        favorite: true,
    };
    let (t, s, star) = row_labels(&w, true);
    assert_eq!(t, "Snow");
    assert_eq!(s, "● 42 · mp4 · steam");
    assert_eq!(star, "★");
    let mut w2 = w.clone();
    w2.favorite = false;
    let (_, s2, star2) = row_labels(&w2, false);
    assert_eq!(s2, "42 · mp4 · steam");
    assert_eq!(star2, "");
}
