use wallpaper_selector::thumbs::{fnv1a, hash_id, progress_due, thumb_path, worker_count};

#[test]
fn fnv_values() {
    assert_eq!(fnv1a(""), 0xcbf2_9ce4_8422_2325);
    assert_eq!(hash_id(""), "cbf29ce484222325.png");
    assert_eq!(hash_id("perso:neocity.png"), "a3111fe522ac5e80.png");
    assert_eq!(hash_id("steam:1355236618"), "9c113ee6dbd57573.png");
}

#[test]
fn thumb_paths() {
    assert_eq!(thumb_path("/c/thumbs", "perso:neocity.png"), "/c/thumbs/a3111fe522ac5e80.png");
}

#[test]
fn pace() {
    assert!(progress_due(8, 100));
    assert!(progress_due(13, 13));
    assert!(!progress_due(9, 100));
    assert_eq!(worker_count(None), 4);
    assert_eq!(worker_count(Some(2)), 2);
    assert_eq!(worker_count(Some(32)), 8);
}
