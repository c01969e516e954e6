use wallpaper_selector::config::{
    clamp_i32, join_path, parse_bool, parse_i32, parse_kv, unquote_path, Settings,
};

#[test]
fn key_value_lines() {
    let kv = parse_kv("# c\n// c\n Steam_Dir = \"~/games\" \nmonitor='DP-1'\nbad line\nthumb_px=10\nthumb_px = 90\n");
    assert_eq!(kv.get("steam_dir").map(|s| s.as_str()), Some("~/games"));
    assert_eq!(kv.get("monitor").map(|s| s.as_str()), Some("DP-1"));
    assert_eq!(kv.get("thumb_px").map(|s| s.as_str()), Some("90"));
    assert!(kv.get("bad line").is_none());
    assert!(kv.get("# c").is_none());
}

#[test]
fn value_split_at_first_equal_sign() {
    let kv = parse_kv("a = b = c\n=x\n");
    assert_eq!(kv.get("a").map(|s| s.as_str()), Some("b = c"));
    assert_eq!(kv.get("").map(|s| s.as_str()), Some("x"));
}

#[test]
fn integers() {
    assert_eq!(parse_i32("42"), Some(42));
    assert_eq!(parse_i32("+7"), Some(7));
    assert_eq!(parse_i32("-2147483648"), Some(i32::MIN));
    assert_eq!(parse_i32("2147483647"), Some(i32::MAX));
    assert_eq!(parse_i32("2147483648"), None);
    assert_eq!(parse_i32("99999999999999999999"), None);
    assert_eq!(parse_i32(""), None);
    assert_eq!(parse_i32("-"), None);
    assert_eq!(parse_i32("1.5"), None);
    assert_eq!(parse_i32(" 1"), None);
    assert_eq!(clamp_i32(5, 16, 512), 16);
    assert_eq!(clamp_i32(600, 16, 512), 512);
    assert_eq!(clamp_i32(100, 16, 512), 100);
}

#[test]
fn booleans() {
    for w in ["1", "true", "YES", "Oui", "on"] {
        assert!(parse_bool(w));
    }
    for w in ["0", "false", "non", "off", ""] {
        assert!(!parse_bool(w));
    }
}

#[test]
fn paths() {
    assert_eq!(join_path("/home/u", "x"), "/home/u/x");
    assert_eq!(join_path("/home/u/", "x"), "/home/u/x");
    assert_eq!(join_path("/home/u", "/abs"), "/abs");
    assert_eq!(join_path("", "x"), "x");
    assert_eq!(unquote_path("/home/u", "~"), "/home/u");
    assert_eq!(unquote_path("/home/u", "~/Images"), "/home/u/Images");
    assert_eq!(unquote_path("/home/u", "~other"), "~other");
    assert_eq!(unquote_path("/home/u", "$HOME/x"), "$HOME/x");
}

#[test]
fn settings_take_what_is_configured() {
    let mut s = Settings::new("/s".to_string(), "/p".to_string());
    assert_eq!(s.thumb_px, 80);
    assert_eq!(s.thumb_cache_px, 256);
    assert_eq!(s.mpv_output, "*");
    assert_eq!(s.transition_type, "grow");
    assert!(s.resident && s.autoselect_first && s.monitor.is_none());
    let kv = parse_kv(
        "perso_dir = ~/w\nthumb_px = 4\nthumb_cache_px = x\nresident = no\nmonitor = auto\nmpv_output = HDMI-A-1\ntransition_type = wipe\n",
    );
    s.apply(&kv, "/home/u");
    assert_eq!(s.steam_dir, "/s");
    assert_eq!(s.perso_dir, "/home/u/w");
    assert_eq!(s.thumb_px, 16);
    assert_eq!(s.thumb_cache_px, 256);
    assert!(!s.resident);
    assert!(s.monitor.is_none());
    assert_eq!(s.mpv_output, "HDMI-A-1");
    assert_eq!(s.transition_type, "wipe");
    let kv = parse_kv("monitor = DP-2\nthumb_cache_px=9999\n");
    s.apply(&kv, "/home/u");
    assert_eq!(s.monitor.as_deref(), Some("DP-2"));
    assert_eq!(s.thumb_cache_px, 2048);
}
