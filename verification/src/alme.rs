//! The management protocol: what a line from a client is taken for, and
//! which command a request names.
//!
//! Sockets and JSON are the caller's work. A request is one line of text; a
//! response is one line of text.

use vstd::prelude::*;
use vstd::string::StringExecFns;

verus! {

/// Longest line that is taken for a request, in bytes.
pub const MAX_REQUEST_LENGTH: usize = 65536;

/// Seconds to wait for the next line of a client.
pub const MAX_READER_TIMEOUT: u64 = 60;

/// A request of a client: the command and its arguments, as JSON text.
#[derive(Debug, Clone, PartialEq, Eq)]
pub struct AlmeRequest {
    /// The command, such as `ping` or `log:tail`.
    pub cmd: String,
    /// The arguments of the command, as JSON text.
    pub args: String,
}

/// The answer to a request.
#[derive(Debug, Clone, PartialEq, Eq)]
pub struct AlmeResponse {
    /// Whether the command succeeded.
    pub success: bool,
    /// What to tell the user.
    pub message: String,
    /// What the command produced, as JSON text.
    pub data: Option<String>,
}

impl AlmeResponse {
    /// The answer to a command that succeeded.
    pub fn success(message: &str, data: Option<String>) -> (r: AlmeResponse)
        ensures
            r.success,
            r.message@ == message@,
            r.data == data,
    {
        AlmeResponse { success: true, message: String::from_str(message), data }
    }

    /// The answer to a command that failed.
    pub fn error(message: &str) -> (r: AlmeResponse)
        ensures
            !r.success,
            r.message@ == message@,
            r.data is None,
    {
        AlmeResponse { success: false, message: String::from_str(message), data: None }
    }
}

/// `s` without the line ends, `\r` and `\n`, that it ends with.
pub open spec fn without_line_end(s: Seq<char>) -> Seq<char>
    decreases s.len(),
{
    if s.len() > 0 && (s.last() == '\r' || s.last() == '\n') {
        without_line_end(s.drop_last())
    } else {
        s
    }
}

/// What `str::trim` makes of `s`: `s` without the white space around it.
pub uninterp spec fn trimmed(s: Seq<char>) -> Seq<char>;

/// `str::trim_end_matches` for `\r` and `\n`: `s` without the line ends
/// that it ends with.
#[verifier::external_body]
pub(crate) fn trim_line_end(s: &str) -> (r: String)
    ensures
        r@ == without_line_end(s@),
{
    s.trim_end_matches(&['\r', '\n']).to_string()
}

/// `str::trim`: `s` without the white space around it.
#[verifier::external_body]
pub(crate) fn trim(s: &str) -> (r: String)
    ensures
        r@ == trimmed(s@),
{
    s.trim().to_string()
}

/// What a line from a client is taken for.
#[derive(Debug, Clone, PartialEq, Eq)]
pub enum LineVerdict {
    /// Too long to be looked at; the client is told so.
    TooLarge,
    /// Nothing but white space; it is passed over.
    Blank,
    /// A request: the line without its end and the white space around it.
    Request(String),
}

/// Decides what a line of `read` bytes is taken for.
///
/// A line of more than [`MAX_REQUEST_LENGTH`] bytes is too large. Otherwise
/// the line end and the white space around the rest are taken off; what is
/// left is the request, unless nothing is left.
pub fn judge_line(line: &str, read: usize) -> (r: LineVerdict)
    ensures
        read > MAX_REQUEST_LENGTH ==> r is TooLarge,
        read <= MAX_REQUEST_LENGTH && trimmed(without_line_end(line@)).len() == 0 ==> r is Blank,
        read <= MAX_REQUEST_LENGTH && trimmed(without_line_end(line@)).len() > 0 ==> match r {
            LineVerdict::Request(text) => text@ == trimmed(without_line_end(line@)),
            _ => false,
        },
{
    if read > MAX_REQUEST_LENGTH {
        return LineVerdict::TooLarge;
    }
    let text = trim(trim_line_end(line).as_str());
    if text.as_str().unicode_len() == 0 {
        LineVerdict::Blank
    } else {
        LineVerdict::Request(text)
    }
}

/// The commands that the runtime answers.
#[derive(Debug, Clone, Copy, PartialEq, Eq, Structural)]
pub enum AlmeCommand {
    /// `ping`: is anybody there?
    Ping,
    /// `status`: how is the runtime?
    Status,
    /// `log:tail`: the last lines of the log.
    LogTail,
    /// `module:list`: the modules that are installed.
    ModuleList,
    /// Anything else.
    Unknown,
}

/// The command that `cmd` names.
pub open spec fn command_named(cmd: Seq<char>) -> AlmeCommand {
    if cmd == "ping"@ {
        AlmeCommand::Ping
    } else if cmd == "status"@ {
        AlmeCommand::Status
    } else if cmd == "log:tail"@ {
        AlmeCommand::LogTail
    } else if cmd == "module:list"@ {
        AlmeCommand::ModuleList
    } else {
        AlmeCommand::Unknown
    }
}

/// Finds the command that a request names.
pub fn dispatch_command(cmd: &str) -> (r: AlmeCommand)
    ensures
        r == command_named(cmd@),
{
    let name = String::from_str(cmd);
    if name == String::from_str("ping") {
        AlmeCommand::Ping
    } else if name == String::from_str("status") {
        AlmeCommand::Status
    } else if name == String::from_str("log:tail") {
        AlmeCommand::LogTail
    } else if name == String::from_str("module:list") {
        AlmeCommand::ModuleList
    } else {
        AlmeCommand::Unknown
    }
}

/// The answer to a command that is not known.
pub fn unknown_command(cmd: &str) -> (r: AlmeResponse)
    ensures
        !r.success,
        r.message@ == "Unknown command: "@ + cmd@,
        r.data is None,
{
    let mut message = String::from_str("Unknown command: ");
    message.append(cmd);
    AlmeResponse { success: false, message, data: None }
}

/// The answer to `ping`.
pub fn handle_ping() -> (r: AlmeResponse)
    ensures
        r.success,
        r.message@ == "pong"@,
        r.data is None,
{
    AlmeResponse::success("pong", None)
}

} // verus!
