use wallpaper_selector::apply::{
    awww_socket, backend_for, choose_monitor, cursor_position, cursor_text, engines_to_stop,
    focused_monitor, last_wallpaper_record, launch_plan, parse_last_wallpaper, pkill_calls,
    ApplyError, Backend, Engine,
};
use wallpaper_selector::model::Kind;

#[test]
fn backends() {
    assert_eq!(backend_for(Kind::Pkg), Backend::WallpaperEngine);
    assert_eq!(backend_for(Kind::Video), Backend::Mpvpaper);
    assert_eq!(backend_for(Kind::Gif), Backend::Awww);
    assert_eq!(backend_for(Kind::Image), Backend::Awww);
    assert_eq!(Backend::Awww.cache_tag(), "AWWW");
    assert_eq!(Backend::Mpvpaper.cache_tag(), "MPV");
    assert_eq!(Backend::WallpaperEngine.cache_tag(), "LWE");
}

#[test]
fn engines_stopped() {
    assert_eq!(engines_to_stop(Backend::Awww), vec![Engine::Mpvpaper, Engine::WallpaperEngine]);
    assert_eq!(
        engines_to_stop(Backend::Mpvpaper),
        vec![Engine::Awww, Engine::WallpaperEngine, Engine::Mpvpaper]
    );
    assert_eq!(pkill_calls(Engine::Awww), vec![("-x", "awww"), ("-x", "awww-daemon")]);
    assert_eq!(pkill_calls(Engine::WallpaperEngine), vec![("-f", "linux-wallpaperengine")]);
}

#[test]
fn launches() {
    let (l, t) = launch_plan(Backend::Awww, "/p/a.png", None, "m", "*", "grow", Some("10,20"), "1.2")
        .ok()
        .unwrap();
    assert_eq!(l.program, "awww");
    assert_eq!(
        l.args,
        vec!["img", "/p/a.png", "--transition-type", "grow", "--transition-pos", "10,20", "--transition-duration", "1.2"]
    );
    assert_eq!(t, "/p/a.png");
    let (l, t) = launch_plan(Backend::Mpvpaper, "/d", Some("/d/v.mp4"), "m", "*", "grow", None, "1")
        .ok()
        .unwrap();
    assert_eq!(l.program, "mpvpaper");
    assert_eq!(l.args, vec!["-o", "no-audio --loop-playlist", "*", "/d/v.mp4"]);
    assert_eq!(t, "/d/v.mp4");
    assert!(matches!(
        launch_plan(Backend::Mpvpaper, "/d", None, "m", "*", "grow", None, "1"),
        Err(ApplyError::NoVideoMedia)
    ));
    let (l, t) = launch_plan(Backend::WallpaperEngine, "/ws/1", None, "DP-1", "*", "g", None, "1")
        .ok()
        .unwrap();
    assert_eq!(l.program, "linux-wallpaperengine");
    assert_eq!(l.args, vec!["/ws/1", "--screen-root", "DP-1"]);
    assert_eq!(t, "/ws/1");
}

#[test]
fn monitors_and_cursor() {
    assert_eq!(choose_monitor(Some("A"), Some("B")), "A");
    assert_eq!(choose_monitor(None, Some("B")), "B");
    assert_eq!(choose_monitor(None, None), "eDP-1");
    assert_eq!(cursor_text(-3, 1200), "-3,1200");
    assert_eq!(cursor_position(br#"{"x": 10, "y": -20}"#).as_deref(), Some("10,-20"));
    assert_eq!(cursor_position(br#"{"x": 1.5, "y": 2}"#), None);
    assert_eq!(cursor_position(b"not json"), None);
    let mons = br#"[{"name":"A","focused":false},{"name":"B","focused":true},{"name":"C","focused":true}]"#;
    assert_eq!(focused_monitor(mons).as_deref(), Some("B"));
    assert_eq!(focused_monitor(br#"[{"name":"A"}]"#), None);
    assert_eq!(focused_monitor(br#"{"name":"A"}"#), None);
}

#[test]
fn last_wallpaper_file() {
    let r = last_wallpaper_record(Backend::Mpvpaper, "/v/x|y.mp4");
    assert_eq!(r, "MPV|/v/x|y.mp4");
    assert_eq!(parse_last_wallpaper(&r).as_deref(), Some("/v/x|y.mp4"));
    assert_eq!(parse_last_wallpaper("  AWWW|/a.png\n").as_deref(), Some("/a.png"));
    assert_eq!(parse_last_wallpaper("nothing"), None);
    assert_eq!(
        awww_socket(Some("/run/user/1"), None).as_deref(),
        Some("/run/user/1/wayland-0-awww-daemon.sock")
    );
    assert_eq!(awww_socket(None, Some("wayland-1")), None);
}
