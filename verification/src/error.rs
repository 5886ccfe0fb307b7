//! What can go wrong, and the form in which the window receives it.
use vstd::prelude::*;
use vstd::string::*;

verus! {

/// Every failure of the app. Failures of the operating system or of a file parser reach
/// the library as their message.
#[derive(Debug, PartialEq, Eq)]
pub enum AppError {
    Io(String),
    Json(String),
    Validation(String),
    ProfileNotFound(String),
    LastProfile,
    ExecutableNotFound(String),
    LaunchFailed { name: String, reason: String },
    ProcessNotDetected(String),
    ElevationDenied,
    AccessDenied(String),
    CloseTimedOut(String),
    Unsupported(String),
    SessionInProgress,
    KeptCrashing(String),
    SimConnectUnavailable,
    Autostart(String),
    Internal(String),
}

#[derive(Debug, Clone, Copy, PartialEq, Eq, Structural)]
pub enum ErrorKind {
    Io,
    Json,
    Validation,
    ProfileNotFound,
    LastProfile,
    ExecutableNotFound,
    LaunchFailed,
    ProcessNotDetected,
    ElevationDenied,
    AccessDenied,
    CloseTimedOut,
    Unsupported,
    SessionInProgress,
    KeptCrashing,
    SimConnectUnavailable,
    Autostart,
    Internal,
}

/// An error as the window receives it.
#[derive(Debug, PartialEq, Eq)]
pub struct ErrorPayload {
    pub kind: ErrorKind,
    pub message: String,
}

pub struct ErrorPayloadView {
    pub kind: ErrorKind,
    pub message: Seq<char>,
}

impl View for ErrorPayload {
    type V = ErrorPayloadView;

    open spec fn view(&self) -> ErrorPayloadView {
        ErrorPayloadView { kind: self.kind, message: self.message@ }
    }
}

impl DeepView for ErrorPayload {
    type V = ErrorPayloadView;

    open spec fn deep_view(&self) -> ErrorPayloadView {
        self@
    }
}

impl Clone for ErrorPayload {
    fn clone(&self) -> (copy: Self)
        ensures
            copy@ == self@,
    {
        ErrorPayload { kind: self.kind, message: self.message.clone() }
    }
}

pub open spec fn error_kind(error: AppError) -> ErrorKind {
    match error {
        AppError::Io(_) => ErrorKind::Io,
        AppError::Json(_) => ErrorKind::Json,
        AppError::Validation(_) => ErrorKind::Validation,
        AppError::ProfileNotFound(_) => ErrorKind::ProfileNotFound,
        AppError::LastProfile => ErrorKind::LastProfile,
        AppError::ExecutableNotFound(_) => ErrorKind::ExecutableNotFound,
        AppError::LaunchFailed { .. } => ErrorKind::LaunchFailed,
        AppError::ProcessNotDetected(_) => ErrorKind::ProcessNotDetected,
        AppError::ElevationDenied => ErrorKind::ElevationDenied,
        AppError::AccessDenied(_) => ErrorKind::AccessDenied,
        AppError::CloseTimedOut(_) => ErrorKind::CloseTimedOut,
        AppError::Unsupported(_) => ErrorKind::Unsupported,
        AppError::SessionInProgress => ErrorKind::SessionInProgress,
        AppError::KeptCrashing(_) => ErrorKind::KeptCrashing,
        AppError::SimConnectUnavailable => ErrorKind::SimConnectUnavailable,
        AppError::Autostart(_) => ErrorKind::Autostart,
        AppError::Internal(_) => ErrorKind::Internal,
    }
}

/// The text shown for an error.
pub open spec fn error_message(error: AppError) -> Seq<char> {
    match error {
        AppError::Io(m) => "I/O error: "@ + m@,
        AppError::Json(m) => "invalid JSON: "@ + m@,
        AppError::Validation(m) => "validation failed: "@ + m@,
        AppError::ProfileNotFound(id) => "profile not found: "@ + id@,
        AppError::LastProfile => "the last remaining profile cannot be deleted"@,
        AppError::ExecutableNotFound(path) => "executable not found: "@ + path@,
        AppError::LaunchFailed { name, reason } => "failed to launch "@ + name@ + ": "@ + reason@,
        AppError::ProcessNotDetected(name) => "process "@ + name@ + " was not detected after launch"@,
        AppError::ElevationDenied => "elevation was denied by the user"@,
        AppError::AccessDenied(name) => "access denied while closing "@ + name@
            + ": run AutoStart as administrator"@,
        AppError::CloseTimedOut(name) => name@ + " did not close in time"@,
        AppError::Unsupported(what) => "not supported on this platform: "@ + what@,
        AppError::SessionInProgress => "a session is already in progress"@,
        AppError::KeptCrashing(name) => name@ + " kept crashing and was not reopened again"@,
        AppError::SimConnectUnavailable => "SimConnect did not become available in time"@,
        AppError::Autostart(m) => "could not update the startup entry: "@ + m@,
        AppError::Internal(m) => m@,
    }
}

fn join2(a: &str, b: &str) -> (text: String)
    ensures
        text@ == a@ + b@,
{
    String::from_str(a).concat(b)
}

fn join3(a: &str, b: &str, c: &str) -> (text: String)
    ensures
        text@ == a@ + b@ + c@,
{
    String::from_str(a).concat(b).concat(c)
}

impl AppError {
    pub fn kind(&self) -> (kind: ErrorKind)
        ensures
            kind == error_kind(*self),
    {
        match self {
            AppError::Io(_) => ErrorKind::Io,
            AppError::Json(_) => ErrorKind::Json,
            AppError::Validation(_) => ErrorKind::Validation,
            AppError::ProfileNotFound(_) => ErrorKind::ProfileNotFound,
            AppError::LastProfile => ErrorKind::LastProfile,
            AppError::ExecutableNotFound(_) => ErrorKind::ExecutableNotFound,
            AppError::LaunchFailed { .. } => ErrorKind::LaunchFailed,
            AppError::ProcessNotDetected(_) => ErrorKind::ProcessNotDetected,
            AppError::ElevationDenied => ErrorKind::ElevationDenied,
            AppError::AccessDenied(_) => ErrorKind::AccessDenied,
            AppError::CloseTimedOut(_) => ErrorKind::CloseTimedOut,
            AppError::Unsupported(_) => ErrorKind::Unsupported,
            AppError::SessionInProgress => ErrorKind::SessionInProgress,
            AppError::KeptCrashing(_) => ErrorKind::KeptCrashing,
            AppError::SimConnectUnavailable => ErrorKind::SimConnectUnavailable,
            AppError::Autostart(_) => ErrorKind::Autostart,
            AppError::Internal(_) => ErrorKind::Internal,
        }
    }

    /// The text shown for the error.
    pub fn message(&self) -> (text: String)
        ensures
            text@ == error_message(*self),
    {
        match self {
            AppError::Io(m) => join2("I/O error: ", m.as_str()),
            AppError::Json(m) => join2("invalid JSON: ", m.as_str()),
            AppError::Validation(m) => join2("validation failed: ", m.as_str()),
            AppError::ProfileNotFound(id) => join2("profile not found: ", id.as_str()),
            AppError::LastProfile => String::from_str("the last remaining profile cannot be deleted"),
            AppError::ExecutableNotFound(path) => join2("executable not found: ", path.as_str()),
            AppError::LaunchFailed { name, reason } => {
                let head = join3("failed to launch ", name.as_str(), ": ");
                head.concat(reason.as_str())
            },
            AppError::ProcessNotDetected(name) => join3(
                "process ",
                name.as_str(),
                " was not detected after launch",
            ),
            AppError::ElevationDenied => String::from_str("elevation was denied by the user"),
            AppError::AccessDenied(name) => join3(
                "access denied while closing ",
                name.as_str(),
                ": run AutoStart as administrator",
            ),
            AppError::CloseTimedOut(name) => join2(name.as_str(), " did not close in time"),
            AppError::Unsupported(what) => join2("not supported on this platform: ", what.as_str()),
            AppError::SessionInProgress => String::from_str("a session is already in progress"),
            AppError::KeptCrashing(name) => join2(
                name.as_str(),
                " kept crashing and was not reopened again",
            ),
            AppError::SimConnectUnavailable => String::from_str(
                "SimConnect did not become available in time",
            ),
            AppError::Autostart(m) => join2("could not update the startup entry: ", m.as_str()),
            AppError::Internal(m) => m.clone(),
        }
    }

    /// The error as the window receives it: its kind and its text.
    pub fn payload(&self) -> (payload: ErrorPayload)
        ensures
            payload@.kind == error_kind(*self),
            payload@.message == error_message(*self),
    {
        ErrorPayload { kind: self.kind(), message: self.message() }
    }
}

} // verus!
