//! The errors of the Frama-C session, and how each is reported to a client.

use vstd::prelude::*;
use vstd::string::*;

verus! {

/// What can go wrong between the server and Frama-C.
#[derive(Debug)]
pub enum FramaCError {
    /// The connection failed, with the operating system's words.
    Io(String),
    /// A text was no JSON, with the parser's words.
    Json(String),
    InvalidFrame(String),
    ServerError { id: String, msg: String },
    Rejected { id: String },
    Killed { id: String },
    ConnectTimeout,
    /// An operation ran out of its time, given in seconds and nanoseconds.
    Timeout { secs: u64, nanos: u32 },
    UnexpectedResponse(String),
    FunctionNotFound(String),
    GlobalNotFound(String),
    SymbolNotFound(String),
}

/// The three codes under which a tool call fails.
#[derive(Debug, Clone, Copy, PartialEq, Eq, Structural)]
pub enum McpErrorKind {
    InvalidParams,
    InvalidRequest,
    InternalError,
}

/// A failed tool call, as the client sees it.
#[derive(Debug)]
pub struct McpError {
    pub kind: McpErrorKind,
    pub message: String,
}

/// The `Debug` text of a `std::time::Duration` of `secs` seconds and `nanos`
/// nanoseconds.
pub uninterp spec fn duration_shown(secs: u64, nanos: u32) -> Seq<char>;

/// Formats `std::time::Duration::new(secs, nanos)` with `{:?}`. With less than
/// a second in `nanos` nothing is carried over, so `new` does not panic.
#[verifier::external_body]
fn duration_text(secs: u64, nanos: u32) -> (r: String)
    requires
        nanos < 1_000_000_000,
    ensures
        r@ == duration_shown(secs, nanos),
{
    format!("{:?}", std::time::Duration::new(secs, nanos))
}

impl FramaCError {
    /// A time limit has less than a second beside its whole seconds.
    pub open spec fn valid(self) -> bool {
        match self {
            FramaCError::Timeout { secs, nanos } => nanos < 1_000_000_000,
            _ => true,
        }
    }

    /// The message of the error.
    pub open spec fn shown(self) -> Seq<char> {
        match self {
            FramaCError::Io(e) => "I/O error: "@ + e@,
            FramaCError::Json(e) => "JSON error: "@ + e@,
            FramaCError::InvalidFrame(m) => "Invalid frame: "@ + m@,
            FramaCError::ServerError { id, msg } => "Frama-C server error ["@ + id@ + "]: "@ + msg@,
            FramaCError::Rejected { id } => "Request rejected ["@ + id@ + "]"@,
            FramaCError::Killed { id } => "Request killed ["@ + id@ + "]"@,
            FramaCError::ConnectTimeout => "Connection timeout: waiting for CMDLINEOFF"@,
            FramaCError::Timeout { secs, nanos } => "Operation timeout after "@ + duration_shown(
                secs,
                nanos,
            ),
            FramaCError::UnexpectedResponse(m) => "Unexpected response: "@ + m@,
            FramaCError::FunctionNotFound(n) => "Function not found: "@ + n@,
            FramaCError::GlobalNotFound(n) => "Global variable not found: "@ + n@,
            FramaCError::SymbolNotFound(n) => "Symbol not found: "@ + n@,
        }
    }

    /// The code under which the error is reported.
    pub open spec fn reported_kind(self) -> McpErrorKind {
        match self {
            FramaCError::Rejected { .. } => McpErrorKind::InvalidRequest,
            FramaCError::FunctionNotFound(_)
            | FramaCError::GlobalNotFound(_)
            | FramaCError::SymbolNotFound(_) => McpErrorKind::InvalidParams,
            _ => McpErrorKind::InternalError,
        }
    }

    /// The message under which the error is reported.
    pub open spec fn reported_message(self) -> Seq<char> {
        match self {
            FramaCError::ServerError { id, msg } => msg@,
            FramaCError::Rejected { id } => "rejected: "@ + id@,
            FramaCError::Killed { id } => "killed: "@ + id@,
            FramaCError::ConnectTimeout => "connection timeout"@,
            FramaCError::Timeout { secs, nanos } => "timeout after "@ + duration_shown(secs, nanos),
            FramaCError::FunctionNotFound(n) => "function not found: "@ + n@,
            FramaCError::GlobalNotFound(n) => "global variable not found: "@ + n@,
            FramaCError::SymbolNotFound(n) => "symbol not found: "@ + n@,
            _ => self.shown(),
        }
    }

    /// The message of the error.
    pub fn message(&self) -> (r: String)
        requires
            self.valid(),
        ensures
            r@ == self.shown(),
    {
        match self {
            FramaCError::Io(e) => "I/O error: ".to_owned().concat(e.as_str()),
            FramaCError::Json(e) => "JSON error: ".to_owned().concat(e.as_str()),
            FramaCError::InvalidFrame(m) => "Invalid frame: ".to_owned().concat(m.as_str()),
            FramaCError::ServerError { id, msg } => "Frama-C server error [".to_owned().concat(
                id.as_str(),
            ).concat("]: ").concat(msg.as_str()),
            FramaCError::Rejected { id } => "Request rejected [".to_owned().concat(
                id.as_str(),
            ).concat("]"),
            FramaCError::Killed { id } => "Request killed [".to_owned().concat(id.as_str()).concat(
                "]",
            ),
            FramaCError::ConnectTimeout => "Connection timeout: waiting for CMDLINEOFF".to_owned(),
            FramaCError::Timeout { secs, nanos } => "Operation timeout after ".to_owned().concat(
                duration_text(*secs, *nanos).as_str(),
            ),
            FramaCError::UnexpectedResponse(m) => "Unexpected response: ".to_owned().concat(
                m.as_str(),
            ),
            FramaCError::FunctionNotFound(n) => "Function not found: ".to_owned().concat(
                n.as_str(),
            ),
            FramaCError::GlobalNotFound(n) => "Global variable not found: ".to_owned().concat(
                n.as_str(),
            ),
            FramaCError::SymbolNotFound(n) => "Symbol not found: ".to_owned().concat(n.as_str()),
        }
    }

    /// How the error is reported to the client of a tool.
    pub fn to_mcp(&self) -> (r: McpError)
        requires
            self.valid(),
        ensures
            r.kind == self.reported_kind(),
            r.message@ == self.reported_message(),
    {
        match self {
            FramaCError::ServerError { id, msg } => McpError {
                kind: McpErrorKind::InternalError,
                message: msg.clone(),
            },
            FramaCError::Rejected { id } => McpError {
                kind: McpErrorKind::InvalidRequest,
                message: "rejected: ".to_owned().concat(id.as_str()),
            },
            FramaCError::Killed { id } => McpError {
                kind: McpErrorKind::InternalError,
                message: "killed: ".to_owned().concat(id.as_str()),
            },
            FramaCError::ConnectTimeout => McpError {
                kind: McpErrorKind::InternalError,
                message: "connection timeout".to_owned(),
            },
            FramaCError::Timeout { secs, nanos } => McpError {
                kind: McpErrorKind::InternalError,
                message: "timeout after ".to_owned().concat(duration_text(*secs, *nanos).as_str()),
            },
            FramaCError::FunctionNotFound(n) => McpError {
                kind: McpErrorKind::InvalidParams,
                message: "function not found: ".to_owned().concat(n.as_str()),
            },
            FramaCError::GlobalNotFound(n) => McpError {
                kind: McpErrorKind::InvalidParams,
                message: "global variable not found: ".to_owned().concat(n.as_str()),
            },
            FramaCError::SymbolNotFound(n) => McpError {
                kind: McpErrorKind::InvalidParams,
                message: "symbol not found: ".to_owned().concat(n.as_str()),
            },
            _ => McpError { kind: McpErrorKind::InternalError, message: self.message() },
        }
    }
}

/// A request that was rejected is the caller's, and so is a name that is not known; all
/// else is reported as internal. What is reported tells the request or the name.
pub proof fn errors_are_reported_by_kind(e: FramaCError)
    ensures
        e.reported_kind() == McpErrorKind::InvalidRequest <==> e is Rejected,
        e.reported_kind() == McpErrorKind::InvalidParams <==> e is FunctionNotFound
            || e is GlobalNotFound || e is SymbolNotFound,
        e matches FramaCError::ServerError { id, msg } ==> e.reported_message() == msg@,
        e matches FramaCError::Rejected { id } ==> e.reported_message() == "rejected: "@ + id@,
        e matches FramaCError::Killed { id } ==> e.reported_message() == "killed: "@ + id@,
        e matches FramaCError::FunctionNotFound(n) ==> e.reported_message()
            == "function not found: "@ + n@,
        e matches FramaCError::GlobalNotFound(n) ==> e.reported_message()
            == "global variable not found: "@ + n@,
        e matches FramaCError::SymbolNotFound(n) ==> e.reported_message() == "symbol not found: "@
            + n@,
{
}

} // verus!
