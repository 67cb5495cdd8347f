//! What can go wrong.
use vstd::prelude::*;
use vstd::string::*;

verus! {

/// A collection failed.
#[derive(Debug, Clone, PartialEq, Eq)]
pub enum CollectError {
    System { message: String },
    Timeout,
    Partial { message: String },
}

impl CollectError {
    /// The error in words.
    pub fn text(&self) -> (r: String)
        ensures
            r@ == match self {
                CollectError::System { message } => "underlying system call failed: "@ + message@,
                CollectError::Timeout => "timeout while collecting"@,
                CollectError::Partial { message } => "partial failure: "@ + message@,
            },
    {
        match self {
            CollectError::System { message } => {
                "underlying system call failed: ".to_owned().concat(message.as_str())
            },
            CollectError::Timeout => "timeout while collecting".to_owned(),
            CollectError::Partial { message } => {
                "partial failure: ".to_owned().concat(message.as_str())
            },
        }
    }
}

/// A snapshot could not be handed on.
#[derive(Debug, Clone, PartialEq, Eq)]
pub enum SinkError {
    /// The system's words for a failed read or write
    Io { source: String },
    Serde { message: String },
    Remote { message: String },
    Timeout,
}

impl SinkError {
    /// The error in words.
    pub fn text(&self) -> (r: String)
        ensures
            r@ == match self {
                SinkError::Io { source } => "io error: "@ + source@,
                SinkError::Serde { message } => "serialization error: "@ + message@,
                SinkError::Remote { message } => "remote write failed: "@ + message@,
                SinkError::Timeout => "timeout"@,
            },
    {
        match self {
            SinkError::Io { source } => "io error: ".to_owned().concat(source.as_str()),
            SinkError::Serde { message } => {
                "serialization error: ".to_owned().concat(message.as_str())
            },
            SinkError::Remote { message } => {
                "remote write failed: ".to_owned().concat(message.as_str())
            },
            SinkError::Timeout => "timeout".to_owned(),
        }
    }
}

/// A scheduler could not start.
#[derive(Debug, Clone, Copy, PartialEq, Eq, Structural)]
pub enum SchedulerError {
    AlreadyRunning,
}

impl SchedulerError {
    /// The error in words.
    pub fn text(&self) -> (r: String)
        ensures
            r@ == "scheduler is already running"@,
    {
        "scheduler is already running".to_owned()
    }
}

/// The text that `Debug` gives a `str`.
pub uninterp spec fn quoted(s: Seq<char>) -> Seq<char>;

/// Writes a text with the `Debug` of `str`: in quotes, with escapes. The result
/// depends on the text alone; the escapes are not spelled out here.
#[verifier::external_body]
fn quote(s: &str) -> (r: String)
    ensures
        r@ == quoted(s@),
{
    format!("{s:?}")
}

/// The daemon could not be reached or understood.
#[derive(Debug, Clone, PartialEq, Eq)]
pub enum ClientError {
    /// There is no daemon at that socket
    Connect { path: String, source: String },
    Io { source: String },
    /// The reply is none of the protocol's
    Protocol { reply: String },
}

impl ClientError {
    /// The error in words.
    pub fn text(&self) -> (r: String)
        ensures
            r@ == match self {
                ClientError::Connect { path, source } => "no daemon reachable at "@ + path@ + ": "@
                    + source@,
                ClientError::Io { source } => "daemon connection failed: "@ + source@,
                ClientError::Protocol { reply } => "unexpected reply from daemon: "@ + quoted(
                    reply@,
                ),
            },
    {
        match self {
            ClientError::Connect { path, source } => {
                "no daemon reachable at ".to_owned().concat(path.as_str()).concat(": ").concat(
                    source.as_str(),
                )
            },
            ClientError::Io { source } => {
                "daemon connection failed: ".to_owned().concat(source.as_str())
            },
            ClientError::Protocol { reply } => {
                "unexpected reply from daemon: ".to_owned().concat(quote(reply.as_str()).as_str())
            },
        }
    }
}

/// A settings file could not be read or written.
#[derive(Debug, Clone, PartialEq, Eq)]
pub enum ConfigError {
    Read { path: String, source: String },
    Parse { path: String, message: String },
    Write { path: String, source: String },
}

impl ConfigError {
    /// The error in words.
    pub fn text(&self) -> (r: String)
        ensures
            r@ == match self {
                ConfigError::Read { path, source } => "failed to read "@ + path@ + ": "@ + source@,
                ConfigError::Parse { path, message } => "failed to parse "@ + path@ + ": "@
                    + message@,
                ConfigError::Write { path, source } => "failed to write "@ + path@ + ": "@
                    + source@,
            },
    {
        match self {
            ConfigError::Read { path, source } => {
                "failed to read ".to_owned().concat(path.as_str()).concat(": ").concat(
                    source.as_str(),
                )
            },
            ConfigError::Parse { path, message } => {
                "failed to parse ".to_owned().concat(path.as_str()).concat(": ").concat(
                    message.as_str(),
                )
            },
            ConfigError::Write { path, source } => {
                "failed to write ".to_owned().concat(path.as_str()).concat(": ").concat(
                    source.as_str(),
                )
            },
        }
    }
}

/// What came of reading a file.
pub enum FileRead {
    Content(String),
    /// There is no such file
    Missing,
    /// The system's words
    Failed(String),
}

/// What a settings file holds; nothing where there is none. A file that cannot be
/// read is an error, not an empty one.
pub fn file_content(path: &str, read: FileRead) -> (r: Result<Option<String>, ConfigError>)
    ensures
        match read {
            FileRead::Content(text) => r == Ok::<Option<String>, ConfigError>(Some(text)),
            FileRead::Missing => r == Ok::<Option<String>, ConfigError>(None),
            FileRead::Failed(source) => r is Err && r->Err_0 is Read && r->Err_0->Read_path@
                == path@ && r->Err_0->Read_source == source,
        },
{
    match read {
        FileRead::Content(text) => Ok(Some(text)),
        FileRead::Missing => Ok(None),
        FileRead::Failed(source) => Err(ConfigError::Read { path: path.to_owned(), source }),
    }
}

} // verus!
