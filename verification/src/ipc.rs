//! The control protocol of the resident process.
//!
//! The first launch becomes the resident process listening on a socket; each
//! later launch sends one command line and waits for the one-line reply, which
//! is `ok` once the action has been carried out.

use vstd::prelude::*;

use crate::text::{chars_of, chars_eq, trim, trim_ws, trim_start_by, trim_end_by, ws_pred};

verus! {

broadcast use vstd::string::group_string_axioms;

/// `std::io::Error`, carried through unchanged.
#[verifier::external_type_specification]
#[verifier::external_body]
pub struct ExIoError(std::io::Error);

#[derive(Debug, Clone, Copy, PartialEq, Eq, Structural)]
pub enum Command {
    Toggle,
    Show,
    Hide,
    Quit,
    Reload,
}

/// The word a command is sent as.
pub open spec fn wire_spec(c: Command) -> Seq<char> {
    match c {
        Command::Toggle => "toggle"@,
        Command::Show => "show"@,
        Command::Hide => "hide"@,
        Command::Quit => "quit"@,
        Command::Reload => "reload"@,
    }
}

/// The command a received line names, white space around it ignored.
pub open spec fn parse_spec(line: Seq<char>) -> Option<Command> {
    let t = trim(line);
    if t == "toggle"@ {
        Some(Command::Toggle)
    } else if t == "show"@ {
        Some(Command::Show)
    } else if t == "hide"@ {
        Some(Command::Hide)
    } else if t == "quit"@ {
        Some(Command::Quit)
    } else if t == "reload"@ {
        Some(Command::Reload)
    } else {
        None
    }
}

/// The line a client sends for a command.
pub open spec fn request_spec(c: Command) -> Seq<char> {
    wire_spec(c) + seq!['\n']
}

/// The line the resident process answers: `ok` once the action is done,
/// `timeout` when it was not acknowledged in time.
pub open spec fn reply_spec(acked: bool) -> Seq<char> {
    if acked {
        "ok\n"@
    } else {
        "timeout\n"@
    }
}

/// Whether a reply line reports success.
pub open spec fn reply_ok_spec(line: Seq<char>) -> bool {
    trim(line) == "ok"@
}

impl Command {
    pub fn wire(self) -> (r: &'static str)
        ensures
            r@ == wire_spec(self),
    {
        match self {
            Command::Toggle => "toggle",
            Command::Show => "show",
            Command::Hide => "hide",
            Command::Quit => "quit",
            Command::Reload => "reload",
        }
    }

    pub fn parse(s: &str) -> (r: Option<Command>)
        ensures
            r == parse_spec(s@),
    {
        let raw = chars_of(s);
        let t = trim_ws(raw.as_slice());
        let t = t.as_slice();
        if chars_eq(t, chars_of("toggle").as_slice()) {
            Some(Command::Toggle)
        } else if chars_eq(t, chars_of("show").as_slice()) {
            Some(Command::Show)
        } else if chars_eq(t, chars_of("hide").as_slice()) {
            Some(Command::Hide)
        } else if chars_eq(t, chars_of("quit").as_slice()) {
            Some(Command::Quit)
        } else if chars_eq(t, chars_of("reload").as_slice()) {
            Some(Command::Reload)
        } else {
            None
        }
    }

    /// The line sent to the resident process.
    pub fn request_line(self) -> (r: String)
        ensures
            r@ == request_spec(self),
    {
        let mut s = chars_of(self.wire());
        s.push('\n');
        crate::text::string_of(s.as_slice())
    }
}

/// The reply the resident process writes back.
pub fn reply_line(acked: bool) -> (r: &'static str)
    ensures
        r@ == reply_spec(acked),
{
    if acked {
        "ok\n"
    } else {
        "timeout\n"
    }
}

/// Whether a reply line reports success.
pub fn reply_is_ok(line: &str) -> (r: bool)
    ensures
        r == reply_ok_spec(line@),
{
    let raw = chars_of(line);
    let t = trim_ws(raw.as_slice());
    chars_eq(t.as_slice(), chars_of("ok").as_slice())
}

/// What the resident process writes back for one request line, once the
/// handler has run or not: nothing for a line that names no command (the
/// handler is not called for it either), otherwise `ok` when the action was
/// acknowledged in time and `timeout` when it was not.
pub open spec fn answer_spec(line: Seq<char>, acked: bool) -> Option<Seq<char>> {
    match parse_spec(line) {
        Some(_) => Some(reply_spec(acked)),
        None => None,
    }
}

/// The answer to one request line.
pub fn answer_for(line: &str, acked: bool) -> (r: Option<&'static str>)
    ensures
        match answer_spec(line@, acked) {
            Some(a) => r matches Some(x) && x@ == a,
            None => r is None,
        },
{
    match Command::parse(line) {
        Some(_) => Some(reply_line(acked)),
        None => None,
    }
}

/// Trimming a word followed by a line break gives the word back.
proof fn lemma_trim_word_newline(w: Seq<char>)
    requires
        w.len() > 0,
        !crate::text::is_ws(w[0]),
        !crate::text::is_ws(w.last()),
    ensures
        trim(w + seq!['\n']) == w,
{
    let s = w + seq!['\n'];
    assert(trim_start_by(s, ws_pred()) == s);
    assert(s.drop_last() =~= w);
    assert(trim_end_by(s, ws_pred()) == trim_end_by(w, ws_pred()));
    assert(trim_end_by(w, ws_pred()) == w);
}

/// Each request is read back as the command it was sent for.
pub proof fn lemma_request_parses_back(c: Command)
    ensures
        parse_spec(request_spec(c)) == Some(c),
{
    reveal_strlit("toggle");
    reveal_strlit("show");
    reveal_strlit("hide");
    reveal_strlit("quit");
    reveal_strlit("reload");
    lemma_trim_word_newline(wire_spec(c));
}

/// One request: the line sent for `c` is handled as `c`, and its answer
/// reports success to the client exactly when the action was acknowledged.
pub proof fn lemma_request_answered(c: Command, acked: bool)
    ensures
        parse_spec(request_spec(c)) == Some(c),
        answer_spec(request_spec(c), acked) matches Some(a) && reply_ok_spec(a) == acked,
{
    lemma_request_parses_back(c);
    lemma_reply_reports_ack(acked);
}

/// A reply reports success exactly when the action was acknowledged.
pub proof fn lemma_reply_reports_ack(acked: bool)
    ensures
        reply_ok_spec(reply_spec(acked)) == acked,
{
    reveal_strlit("ok\n");
    reveal_strlit("timeout\n");
    reveal_strlit("ok");
    reveal_strlit("timeout");
    let w: Seq<char> = if acked {
        "ok"@
    } else {
        "timeout"@
    };
    assert(reply_spec(acked) =~= w + seq!['\n']);
    lemma_trim_word_newline(w);
}

/// Why the resident process could not take the socket.
pub enum ServeError {
    /// A resident process already answers on this socket.
    AlreadyRunning,
    Io(std::io::Error),
}

/// What to do before listening, given whether the socket path exists and
/// whether a process answers on it: refuse when one answers; otherwise
/// `Ok(true)` when a stale socket file must be removed first.
pub fn claim_socket(exists: bool, answers: bool) -> (r: Result<bool, ServeError>)
    ensures
        exists && answers ==> r matches Err(ServeError::AlreadyRunning),
        !(exists && answers) ==> r == Ok::<bool, ServeError>(exists),
{
    if exists && answers {
        Err(ServeError::AlreadyRunning)
    } else {
        Ok(exists)
    }
}

} // verus!
