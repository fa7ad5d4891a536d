//! What the commands hand back, as typed values. Turning them into documents is left
//! to the caller.

use vstd::prelude::*;
use crate::storage::opt_text;

verus! {

/// The envelope of a successful command.
#[derive(Debug)]
pub struct SuccessResponse<T> {
    pub success: bool,
    pub data: T,
}

impl<T> SuccessResponse<T> {
    /// Wraps the payload of a successful command.
    pub fn new(data: T) -> (response: Self)
        ensures
            response.success,
            response.data == data,
    {
        SuccessResponse { success: true, data }
    }
}

/// The code and the message of a failed command.
#[derive(Debug)]
pub struct ErrorDetail {
    pub code: String,
    pub message: String,
}

/// The envelope of a failed command.
#[derive(Debug)]
pub struct ErrorResponse {
    pub success: bool,
    pub error: ErrorDetail,
}

impl ErrorResponse {
    /// Wraps the code and the message of a failed command.
    pub fn new(code: &str, message: &str) -> (response: Self)
        ensures
            !response.success,
            response.error.code@ == code@,
            response.error.message@ == message@,
    {
        ErrorResponse { success: false, error: ErrorDetail { code: code.to_owned(), message: message.to_owned() } }
    }
}

/// What the begin of a ceremony hands back: the options for the client, as a JSON
/// document, and the id under which the ceremony's challenge was stored.
#[derive(Debug)]
pub struct CeremonyBeginData {
    pub public_key: String,
    pub challenge_id: String,
}

/// What a finished registration hands back.
#[derive(Debug)]
pub struct RegisterFinishData {
    pub credential_id: String,
    pub aaguid: String,
    pub created_at: String,
}

/// What a finished login hands back.
#[derive(Debug)]
pub struct LoginFinishData {
    pub username: String,
    pub user_verified: bool,
    pub counter: u32,
}

/// One line of a user's list of credentials.
#[derive(Debug)]
pub struct CredentialListItem {
    pub credential_id: String,
    pub username: String,
    pub device_name: String,
    pub created_at: String,
    pub last_used_at: Option<String>,
    pub backup_eligible: bool,
    pub user_verified: bool,
}

pub struct CredentialListItemView {
    pub credential_id: Seq<char>,
    pub username: Seq<char>,
    pub device_name: Seq<char>,
    pub created_at: Seq<char>,
    pub last_used_at: Option<Seq<char>>,
    pub backup_eligible: bool,
    pub user_verified: bool,
}

impl View for CredentialListItem {
    type V = CredentialListItemView;

    open spec fn view(&self) -> CredentialListItemView {
        CredentialListItemView {
            credential_id: self.credential_id@,
            username: self.username@,
            device_name: self.device_name@,
            created_at: self.created_at@,
            last_used_at: opt_text(self.last_used_at),
            backup_eligible: self.backup_eligible,
            user_verified: self.user_verified,
        }
    }
}

/// What a deleted credential hands back.
#[derive(Debug)]
pub struct CredentialDeleteData {
    pub credential_id: String,
    pub deleted: bool,
}

/// What a sweep of the challenges hands back.
#[derive(Debug)]
pub struct CleanupData {
    pub removed_count: usize,
}

/// What a renamed credential hands back.
#[derive(Debug)]
pub struct CredentialUpdateData {
    pub credential_id: String,
    pub old_name: String,
    pub new_name: String,
}

/// What is reported of the credential store in a health check.
#[derive(Debug)]
pub struct StorageStatus {
    pub writable: bool,
    pub path: String,
    pub count: usize,
}

/// What a health check hands back.
#[derive(Debug)]
pub struct HealthCheckData {
    pub status: String,
    pub version: String,
    pub storage: StorageStatus,
}

/// What a command hands back, whichever command it was.
#[derive(Debug)]
pub enum CommandOutput {
    RegisterBegin(CeremonyBeginData),
    RegisterFinish(RegisterFinishData),
    LoginBegin(CeremonyBeginData),
    LoginFinish(LoginFinishData),
    CredentialList(Vec<CredentialListItem>),
    CredentialDelete(CredentialDeleteData),
    CredentialUpdate(CredentialUpdateData),
    Cleanup(CleanupData),
    HealthCheck(HealthCheckData),
}

} // verus!
