//! The errors that the library reports, and their wording.
use vstd::prelude::*;

verus! {

/// Why a transcript cannot be read.
#[derive(Debug, PartialEq)]
pub enum TranscriptError {
    /// Trying again would not help.
    Fatal { message: String },
    /// A record does not parse.
    Parse { line: usize, message: String },
}

/// The content of a [`TranscriptError`].
pub enum TranscriptFault {
    Fatal { message: Seq<char> },
    Parse { line: usize, message: Seq<char> },
}

impl View for TranscriptError {
    type V = TranscriptFault;

    open spec fn view(&self) -> TranscriptFault {
        match self {
            TranscriptError::Fatal { message } => TranscriptFault::Fatal { message: message@ },
            TranscriptError::Parse { line, message } => TranscriptFault::Parse {
                line: *line,
                message: message@,
            },
        }
    }
}

/// Why a hook or a host cannot be served.
#[derive(Debug, PartialEq)]
pub enum GitAiError {
    Generic(String),
    PresetError(String),
}

/// The content of a [`GitAiError`].
pub enum GitAiFault {
    Generic(Seq<char>),
    PresetError(Seq<char>),
}

impl View for GitAiError {
    type V = GitAiFault;

    open spec fn view(&self) -> GitAiFault {
        match self {
            GitAiError::Generic(message) => GitAiFault::Generic(message@),
            GitAiError::PresetError(message) => GitAiFault::PresetError(message@),
        }
    }
}

/// A step in the work with the database that can fail.
#[derive(Clone, Copy, Debug, PartialEq, Eq)]
pub enum DbStep {
    SetCacheSize,
    PrepareMessages,
    QueryMessages,
    ReadMessage,
    PrepareParts,
    QueryParts,
    ReadPart,
    PrepareSessions,
    QuerySessions,
    ReadSession,
}

/// How the error of a failed step begins.
pub open spec fn step_failed(step: DbStep) -> Seq<char> {
    match step {
        DbStep::SetCacheSize => "Failed to set PRAGMA cache_size: "@,
        DbStep::PrepareMessages => "Failed to prepare message query: "@,
        DbStep::QueryMessages => "Failed to query messages: "@,
        DbStep::ReadMessage => "Failed to read message row: "@,
        DbStep::PrepareParts => "Failed to prepare part query: "@,
        DbStep::QueryParts => "Failed to query parts: "@,
        DbStep::ReadPart => "Failed to read part row: "@,
        DbStep::PrepareSessions => "Failed to prepare session query: "@,
        DbStep::QuerySessions => "Failed to query sessions: "@,
        DbStep::ReadSession => "Failed to read session row: "@,
    }
}

/// The fault that a failed step with this cause is reported as.
pub open spec fn step_fault(step: DbStep, cause: Seq<char>) -> TranscriptFault {
    TranscriptFault::Fatal { message: step_failed(step) + cause }
}

/// Two texts, one behind the other.
pub fn concat2(a: &str, b: &str) -> (s: String)
    ensures
        s@ == a@ + b@,
{
    let mut s: String = String::new();
    s.append(a);
    s.append(b);
    assert(s@ == a@ + b@);
    s
}

/// Four texts, one behind the other.
pub fn concat4(a: &str, b: &str, c: &str, d: &str) -> (s: String)
    ensures
        s@ == a@ + b@ + c@ + d@,
{
    let mut s = concat2(a, b);
    s.append(c);
    s.append(d);
    s
}

impl TranscriptError {
    /// The error of a failed step.
    pub fn of_step(step: DbStep, cause: &str) -> (error: TranscriptError)
        ensures
            error@ == step_fault(step, cause@),
    {
        let start: &str = match step {
            DbStep::SetCacheSize => "Failed to set PRAGMA cache_size: ",
            DbStep::PrepareMessages => "Failed to prepare message query: ",
            DbStep::QueryMessages => "Failed to query messages: ",
            DbStep::ReadMessage => "Failed to read message row: ",
            DbStep::PrepareParts => "Failed to prepare part query: ",
            DbStep::QueryParts => "Failed to query parts: ",
            DbStep::ReadPart => "Failed to read part row: ",
            DbStep::PrepareSessions => "Failed to prepare session query: ",
            DbStep::QuerySessions => "Failed to query sessions: ",
            DbStep::ReadSession => "Failed to read session row: ",
        };
        TranscriptError::Fatal { message: concat2(start, cause) }
    }

    /// The error of a database that does not open.
    pub fn not_opened(path: &str, cause: &str) -> (error: TranscriptError)
        ensures
            error@ == (TranscriptFault::Fatal {
                message: "Failed to open Kilo database "@ + path@ + ": "@ + cause@,
            }),
    {
        TranscriptError::Fatal {
            message: concat4("Failed to open Kilo database ", path, ": ", cause),
        }
    }
}

/// The content of an error is its kind and the text of its message.
pub proof fn law_content_of_an_error(message: String, line: usize)
    ensures
        (TranscriptError::Fatal { message })@ == (TranscriptFault::Fatal { message: message@ }),
        (TranscriptError::Parse { line, message })@ == (TranscriptFault::Parse {
            line,
            message: message@,
        }),
        GitAiError::Generic(message)@ == GitAiFault::Generic(message@),
        GitAiError::PresetError(message)@ == GitAiFault::PresetError(message@),
{
}

/// The error of a failed step ends with the cause, behind the same words for every cause.
pub proof fn law_failed_step_names_its_cause(step: DbStep, a: Seq<char>, b: Seq<char>)
    ensures
        step_fault(step, a) is Fatal,
        a.is_suffix_of(step_fault(step, a)->Fatal_message),
        step_fault(step, a)->Fatal_message.take(
            step_fault(step, a)->Fatal_message.len() - a.len(),
        ) == step_fault(step, b)->Fatal_message.take(
            step_fault(step, b)->Fatal_message.len() - b.len(),
        ),
{
    let start = step_failed(step);
    assert((start + a).take(start.len() as int) == start);
    assert((start + b).take(start.len() as int) == start);
    assert((start + a).subrange(start.len() as int, (start + a).len() as int) == a);
}

} // verus!
