//! The management of stored credentials, and the sweep of the challenges.

use vstd::prelude::*;
use crate::credential_store::{
    credentials_of, device_name_of, owner_index, renamed, without_credential, CredentialStore,
};
use crate::errors::{AppError, ErrorKind, ErrorView, is_storage_failure};
use crate::schemas::{
    CleanupData, CredentialDeleteData, CredentialListItem, CredentialListItemView, CredentialUpdateData,
};
use crate::storage::{
    clone_opt_text, state_of, StorageProvider, Stored, StoredCredential, StoredCredentialView,
};

verus! {

/// The line of a user's list that stands for a stored credential.
pub open spec fn list_item_of(c: StoredCredentialView, username: Seq<char>) -> CredentialListItemView {
    CredentialListItemView {
        credential_id: c.credential_id,
        username,
        device_name: c.device_name,
        created_at: c.created_at,
        last_used_at: c.last_used_at,
        backup_eligible: c.backup_eligible,
        user_verified: c.user_verified,
    }
}

/// The list of a user's credentials: one line for each, in their stored order.
pub open spec fn list_of(creds: Seq<StoredCredentialView>, username: Seq<char>) -> Seq<CredentialListItemView> {
    creds.map_values(|c: StoredCredentialView| list_item_of(c, username))
}

/// The views of a list.
pub open spec fn item_views(items: Seq<CredentialListItem>) -> Seq<CredentialListItemView> {
    items.map_values(|i: CredentialListItem| i@)
}

/// The line of a user's list that stands for a stored credential.
pub fn list_item(credential: &StoredCredential, username: &str) -> (item: CredentialListItem)
    ensures
        item@ == list_item_of(credential@, username@),
{
    CredentialListItem {
        credential_id: credential.credential_id.clone(),
        username: username.to_owned(),
        device_name: credential.device_name.clone(),
        created_at: credential.created_at.clone(),
        last_used_at: clone_opt_text(&credential.last_used_at),
        backup_eligible: credential.backup_eligible,
        user_verified: credential.user_verified,
    }
}

/// The list of the credentials that a store holds for a user. A user that the store
/// does not know has an empty list.
pub fn list_in(store: &CredentialStore, username: &str) -> (items: Vec<CredentialListItem>)
    ensures
        item_views(items@) == list_of(credentials_of(store@, username@), username@),
{
    let mut items: Vec<CredentialListItem> = Vec::new();
    match store.get(username) {
        Some(record) => {
            let mut i: usize = 0;
            while i < record.credentials.len()
                invariant
                    i <= record.credentials.len(),
                    items.len() == i,
                    forall|k: int| 0 <= k < i ==> items@[k]@ == list_item_of(record@.credentials[k], username@),
                decreases record.credentials.len() - i,
            {
                assert(record@.credentials[i as int] == record.credentials@[i as int]@);
                items.push(list_item(&record.credentials[i], username));
                i += 1;
            }
            assert(item_views(items@) =~= list_of(record@.credentials, username@));
        },
        None => {
            assert(item_views(items@) =~= list_of(Seq::<StoredCredentialView>::empty(), username@));
        },
    }
    items
}

/// What a listing comes to: the list of the user's stored credentials, unless the
/// storage layer fails.
pub open spec fn list_outcome(
    stored: Stored,
    username: Seq<char>,
    r: Result<Vec<CredentialListItem>, AppError>,
) -> bool {
    match r {
        Ok(items) => item_views(items@) =~= list_of(credentials_of(stored.credentials, username), username),
        Err(e) => is_storage_failure(e@.kind),
    }
}

/// Lists the credentials of a user. A user without a record has an empty list.
pub fn list_credentials<S: StorageProvider>(storage: &S, username: &str) -> (r: Result<
    Vec<CredentialListItem>,
    AppError,
>)
    ensures
        list_outcome(state_of(*storage), username@, r),
{
    match storage.load_credentials() {
        Ok(store) => Ok(list_in(&store, username)),
        Err(e) => Err(e),
    }
}

/// What a deletion comes to: how what is stored after it relates to what was stored
/// before it, and to what it returns. The challenges are never touched. A success has
/// taken the credential from its first owner. A failure that is not one of the storage
/// layer says that no user holds the credential, and has changed nothing; where no
/// user holds the credential nothing is changed in any case.
pub open spec fn delete_outcome(
    before: Stored,
    after: Stored,
    credential_id: Seq<char>,
    r: Result<CredentialDeleteData, AppError>,
) -> bool {
    &&& after.challenges =~= before.challenges
    &&& match r {
        Ok(data) => {
            &&& owner_index(before.credentials, credential_id) is Some
            &&& after.credentials =~= without_credential(before.credentials, credential_id)
            &&& data.credential_id@ == credential_id
            &&& data.deleted
        },
        Err(e) => {
            &&& !is_storage_failure(e@.kind) ==> {
                &&& owner_index(before.credentials, credential_id) is None
                &&& e@ == (ErrorView { kind: ErrorKind::CredentialNotFound, detail: credential_id })
            }
            &&& owner_index(before.credentials, credential_id) is None ==> after.credentials =~= before.credentials
        },
    }
}

/// Deletes the credential with the given id. An id that no user holds is answered as
/// a credential that was not found, and nothing is written.
pub fn delete_credential<S: StorageProvider>(storage: &mut S, credential_id: &str) -> (r: Result<
    CredentialDeleteData,
    AppError,
>)
    ensures
        delete_outcome(state_of(*old(storage)), state_of(*final(storage)), credential_id@, r),
{
    let mut store = match storage.load_credentials() {
        Ok(store) => store,
        Err(e) => {
            return Err(e);
        },
    };
    if !store.remove_credential(credential_id) {
        return Err(AppError::CredentialNotFound(credential_id.to_owned()));
    }
    match storage.save_credentials(&store) {
        Ok(()) => Ok(CredentialDeleteData { credential_id: credential_id.to_owned(), deleted: true }),
        Err(e) => Err(e),
    }
}

/// What a renaming comes to: how what is stored after it relates to what was stored
/// before it, and to what it returns. The challenges are never touched. A success has
/// given the credential its new label and returns the old one. A failure that is not
/// one of the storage layer says that no user holds the credential, and has changed
/// nothing; where no user holds the credential nothing is changed in any case.
pub open spec fn update_outcome(
    before: Stored,
    after: Stored,
    credential_id: Seq<char>,
    new_name: Seq<char>,
    r: Result<CredentialUpdateData, AppError>,
) -> bool {
    &&& after.challenges =~= before.challenges
    &&& match r {
        Ok(data) => {
            &&& device_name_of(before.credentials, credential_id) == Some(data.old_name@)
            &&& after.credentials =~= renamed(before.credentials, credential_id, new_name)
            &&& data.credential_id@ == credential_id
            &&& data.new_name@ == new_name
        },
        Err(e) => {
            &&& !is_storage_failure(e@.kind) ==> {
                &&& owner_index(before.credentials, credential_id) is None
                &&& e@ == (ErrorView { kind: ErrorKind::CredentialNotFound, detail: credential_id })
            }
            &&& owner_index(before.credentials, credential_id) is None ==> after.credentials =~= before.credentials
        },
    }
}

/// Gives the credential with the given id a new label. An id that no user holds is
/// answered as a credential that was not found, and nothing is written.
pub fn update_credential<S: StorageProvider>(storage: &mut S, credential_id: &str, new_name: &str) -> (r: Result<
    CredentialUpdateData,
    AppError,
>)
    ensures
        update_outcome(state_of(*old(storage)), state_of(*final(storage)), credential_id@, new_name@, r),
{
    let mut store = match storage.load_credentials() {
        Ok(store) => store,
        Err(e) => {
            return Err(e);
        },
    };
    let old_name = match store.rename_credential(credential_id, new_name) {
        Some(name) => name,
        None => {
            return Err(AppError::CredentialNotFound(credential_id.to_owned()));
        },
    };
    match storage.save_credentials(&store) {
        Ok(()) => Ok(
            CredentialUpdateData { credential_id: credential_id.to_owned(), old_name, new_name: new_name.to_owned() },
        ),
        Err(e) => Err(e),
    }
}

/// What a sweep of the challenges comes to: how what is stored after it relates to
/// what was stored before it, and to what it returns. The credentials are never
/// touched, and no challenge is added or changed. A success has deleted the
/// challenges that had expired and no other, and reports how many it has deleted.
pub open spec fn cleanup_outcome(before: Stored, after: Stored, r: Result<CleanupData, AppError>) -> bool {
    &&& after.credentials =~= before.credentials
    &&& after.challenges.submap_of(before.challenges)
    &&& match r {
        Ok(data) => {
            &&& after.challenges =~= before.challenges.remove_keys(before.expired)
            &&& data.removed_count == 0 ==> after.challenges =~= before.challenges
            &&& before.challenges.dom().finite() ==> data.removed_count + after.challenges.dom().len()
                == before.challenges.dom().len()
        },
        Err(e) => is_storage_failure(e@.kind),
    }
}

/// Deletes the challenges that have expired and reports how many there were. No
/// credential and no other challenge is touched. The outcome is the store's own,
/// handed on: its count as the count of the sweep, its failure as the failure.
pub fn cleanup_challenges<S: StorageProvider>(storage: &mut S) -> (r: Result<CleanupData, AppError>)
    ensures
        cleanup_outcome(state_of(*old(storage)), state_of(*final(storage)), r),
{
    match storage.cleanup_challenges() {
        Ok(removed_count) => Ok(CleanupData { removed_count }),
        Err(e) => Err(e),
    }
}

} // verus!
