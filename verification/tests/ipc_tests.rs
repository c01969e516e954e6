use wallpaper_selector::ipc::{answer_for, claim_socket, reply_is_ok, reply_line, Command, ServeError};

#[test]
fn commands_round_trip() {
    for c in [Command::Toggle, Command::Show, Command::Hide, Command::Quit, Command::Reload] {
        assert_eq!(Command::parse(&c.request_line()), Some(c));
        assert_eq!(Command::parse(c.wire()), Some(c));
    }
    assert_eq!(Command::request_line(Command::Show), "show\n");
    assert_eq!(Command::parse("  reload \r\n"), Some(Command::Reload));
    assert_eq!(Command::parse("TOGGLE"), None);
    assert_eq!(Command::parse(""), None);
}

#[test]
fn replies() {
    assert_eq!(reply_line(true), "ok\n");
    assert_eq!(reply_line(false), "timeout\n");
    assert!(reply_is_ok(reply_line(true)));
    assert!(!reply_is_ok(reply_line(false)));
    assert!(!reply_is_ok(""));
}

#[test]
fn socket_claim() {
    assert!(matches!(claim_socket(true, true), Err(ServeError::AlreadyRunning)));
    assert!(matches!(claim_socket(true, false), Ok(true)));
    assert!(matches!(claim_socket(false, false), Ok(false)));
}

#[test]
fn one_request_line_and_its_answer() {
    assert_eq!(answer_for("toggle\n", true), Some("ok\n"));
    assert_eq!(answer_for(" show ", false), Some("timeout\n"));
    assert_eq!(answer_for("bogus\n", true), None);
    assert_eq!(answer_for("", false), None);
    assert!(reply_is_ok(answer_for(&Command::Reload.request_line(), true).unwrap()));
}
