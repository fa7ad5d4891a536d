//! The error taxonomy shared by every command.

use vstd::prelude::*;

verus! {

/// The kind of an [`AppError`], without its detail text.
#[derive(Clone, Copy, Debug, PartialEq, Eq, Structural)]
pub enum ErrorKind {
    ChallengeNotFound,
    UserNotFound,
    CredentialNotFound,
    InvalidOrigin,
    WebAuthn,
    Storage,
    Json,
    Io,
    InvalidInput,
}

/// What an [`AppError`] is in contracts: its kind and its detail text.
pub struct ErrorView {
    pub kind: ErrorKind,
    pub detail: Seq<char>,
}

/// An error of a command. Each variant carries the detail that is shown after the
/// variant's fixed prefix in [`AppError::message`].
#[derive(Debug)]
pub enum AppError {
    /// No live challenge is stored under the given id.
    ChallengeNotFound(String),
    /// The user is unknown, or known without any credential.
    UserNotFound(String),
    /// No stored credential has the given id.
    CredentialNotFound(String),
    /// The origin of a finish step is not the one that the ceremony was begun for.
    InvalidOrigin(String),
    /// The verification library refused the ceremony.
    WebAuthn(String),
    /// A persisted artifact could not be read, written or understood.
    Storage(String),
    /// A document could not be serialised.
    Json(String),
    /// Input or output failed.
    Io(String),
    /// An argument or the client's payload is malformed.
    InvalidInput(String),
}

impl View for AppError {
    type V = ErrorView;

    open spec fn view(&self) -> ErrorView {
        match self {
            AppError::ChallengeNotFound(d) => ErrorView { kind: ErrorKind::ChallengeNotFound, detail: d@ },
            AppError::UserNotFound(d) => ErrorView { kind: ErrorKind::UserNotFound, detail: d@ },
            AppError::CredentialNotFound(d) => ErrorView { kind: ErrorKind::CredentialNotFound, detail: d@ },
            AppError::InvalidOrigin(d) => ErrorView { kind: ErrorKind::InvalidOrigin, detail: d@ },
            AppError::WebAuthn(d) => ErrorView { kind: ErrorKind::WebAuthn, detail: d@ },
            AppError::Storage(d) => ErrorView { kind: ErrorKind::Storage, detail: d@ },
            AppError::Json(d) => ErrorView { kind: ErrorKind::Json, detail: d@ },
            AppError::Io(d) => ErrorView { kind: ErrorKind::Io, detail: d@ },
            AppError::InvalidInput(d) => ErrorView { kind: ErrorKind::InvalidInput, detail: d@ },
        }
    }
}

/// The code that the output document carries for an error of the given kind.
pub open spec fn code_of(kind: ErrorKind) -> Seq<char> {
    match kind {
        ErrorKind::ChallengeNotFound => "CHALLENGE_NOT_FOUND"@,
        ErrorKind::UserNotFound => "USER_NOT_FOUND"@,
        ErrorKind::CredentialNotFound => "CREDENTIAL_NOT_FOUND"@,
        ErrorKind::InvalidOrigin => "INVALID_ORIGIN"@,
        ErrorKind::WebAuthn => "WEBAUTHN_ERROR"@,
        ErrorKind::Storage => "STORAGE_ERROR"@,
        ErrorKind::Json => "JSON_ERROR"@,
        ErrorKind::Io => "IO_ERROR"@,
        ErrorKind::InvalidInput => "INVALID_INPUT"@,
    }
}

/// The fixed text that opens the message of an error of the given kind.
pub open spec fn prefix_of(kind: ErrorKind) -> Seq<char> {
    match kind {
        ErrorKind::ChallengeNotFound => "Challenge not found: "@,
        ErrorKind::UserNotFound => "User not found: "@,
        ErrorKind::CredentialNotFound => "Credential not found: "@,
        ErrorKind::InvalidOrigin => "Invalid origin: "@,
        ErrorKind::WebAuthn => "WebAuthn error: "@,
        ErrorKind::Storage => "Storage error: "@,
        ErrorKind::Json => "JSON error: "@,
        ErrorKind::Io => "IO error: "@,
        ErrorKind::InvalidInput => "Invalid input: "@,
    }
}

/// Whether an error of this kind reports a failure of the storage layer rather than
/// a decision of a command.
pub open spec fn is_storage_failure(kind: ErrorKind) -> bool {
    kind == ErrorKind::Storage || kind == ErrorKind::Json || kind == ErrorKind::Io
}

impl AppError {
    /// The kind of this error.
    pub fn kind(&self) -> (k: ErrorKind)
        ensures
            k == self@.kind,
    {
        match self {
            AppError::ChallengeNotFound(_) => ErrorKind::ChallengeNotFound,
            AppError::UserNotFound(_) => ErrorKind::UserNotFound,
            AppError::CredentialNotFound(_) => ErrorKind::CredentialNotFound,
            AppError::InvalidOrigin(_) => ErrorKind::InvalidOrigin,
            AppError::WebAuthn(_) => ErrorKind::WebAuthn,
            AppError::Storage(_) => ErrorKind::Storage,
            AppError::Json(_) => ErrorKind::Json,
            AppError::Io(_) => ErrorKind::Io,
            AppError::InvalidInput(_) => ErrorKind::InvalidInput,
        }
    }

    /// The detail text that the error was made with.
    pub fn detail(&self) -> (d: &String)
        ensures
            d@ == self@.detail,
    {
        match self {
            AppError::ChallengeNotFound(d) => d,
            AppError::UserNotFound(d) => d,
            AppError::CredentialNotFound(d) => d,
            AppError::InvalidOrigin(d) => d,
            AppError::WebAuthn(d) => d,
            AppError::Storage(d) => d,
            AppError::Json(d) => d,
            AppError::Io(d) => d,
            AppError::InvalidInput(d) => d,
        }
    }

    /// The machine-readable code of the error, one fixed string per kind.
    pub fn error_code(&self) -> (code: &'static str)
        ensures
            code@ == code_of(self@.kind),
    {
        match self {
            AppError::ChallengeNotFound(_) => "CHALLENGE_NOT_FOUND",
            AppError::UserNotFound(_) => "USER_NOT_FOUND",
            AppError::CredentialNotFound(_) => "CREDENTIAL_NOT_FOUND",
            AppError::InvalidOrigin(_) => "INVALID_ORIGIN",
            AppError::WebAuthn(_) => "WEBAUTHN_ERROR",
            AppError::Storage(_) => "STORAGE_ERROR",
            AppError::Json(_) => "JSON_ERROR",
            AppError::Io(_) => "IO_ERROR",
            AppError::InvalidInput(_) => "INVALID_INPUT",
        }
    }

    /// The text shown to a person: the kind's prefix followed by the detail.
    pub fn message(&self) -> (text: String)
        ensures
            text@ == prefix_of(self@.kind) + self@.detail,
    {
        let prefix = match self {
            AppError::ChallengeNotFound(_) => "Challenge not found: ",
            AppError::UserNotFound(_) => "User not found: ",
            AppError::CredentialNotFound(_) => "Credential not found: ",
            AppError::InvalidOrigin(_) => "Invalid origin: ",
            AppError::WebAuthn(_) => "WebAuthn error: ",
            AppError::Storage(_) => "Storage error: ",
            AppError::Json(_) => "JSON error: ",
            AppError::Io(_) => "IO error: ",
            AppError::InvalidInput(_) => "Invalid input: ",
        };
        let mut text = String::from_str(prefix);
        text.append(self.detail().as_str());
        text
    }

    /// Whether the error reports a failure of the storage layer.
    pub fn is_storage_failure(&self) -> (b: bool)
        ensures
            b == is_storage_failure(self@.kind),
    {
        match self {
            AppError::Storage(_) | AppError::Json(_) | AppError::Io(_) => true,
            _ => false,
        }
    }
}

} // verus!
