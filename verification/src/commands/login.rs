//! The authentication ceremony: a user proves to hold a registered credential.

use vstd::prelude::*;
use webauthn_rp::request::auth::AllowedCredentials;
use crate::calendar::iso8601_text;
use crate::codec::{base64url_bytes, base64url_text, decode_base64url, encode_base64url};
use crate::commands::register::{reference_of, CredentialRef};
use crate::commands::{
    begin_challenge, begun_under, check_challenge, differ_in_one_at_most, early_failure, encodes, finish_refusal, host_of, is_state_of,
    is_begun, is_ceremony_state, is_random_id, joined, lemma_differ_in_one, make_rp_id, state_decodes,
};
use crate::credential_store::{
    credential_index, credentials_of, has_id, ids_unique, lemma_changes_keep_ids_unique, lemma_usage_is_stored,
    used, user_record, with_usage,
    CredentialStore, UsageUpdate, UsageUpdateView, UserEntryView,
};
use crate::search::lemma_first_index;
use crate::errors::{AppError, ErrorKind, ErrorView, is_storage_failure};
use crate::schemas::{CeremonyBeginData, LoginFinishData};
use crate::storage::{
    now_iso8601, state_of, ChallengeType, StorageProvider, Stored, StoredCredential, StoredCredentialView,
    UserRecord,
};
use crate::webauthn::{
    allowed_ids, allowed_push, allowed_with_capacity, authenticated_credential, authenticated_dynamic_state,
    authentication_client_json, authentication_origin, counter_advanced, counter_in, named_credential,
    parsed_authentication, user_verified_in, verified_in, check_credential_id, decode_authentication_state, decode_dynamic_state,
    decode_static_state, dynamic_state_data, is_dynamic_state, encode_authentication_state,
    is_credential_id_len, static_state_decodes,
    parse_authentication, response_credential_id, rp_id_accepted, second_factor_options,
    start_authentication, transports_accepted, user_handle_from_bytes, verify_authentication, BackupState,
    DynamicStateData, CAPACITY_LIMIT, DYNAMIC_STATE_LEN, TRANSPORTS_LIMIT, USER_HANDLE_LEN,
};

verus! {

/// Why a login cannot begin for a user, given the credentials that are stored: the
/// user is unknown, or known without any credential. Both are answered alike, as a
/// user of that name that was not found, so that the answer does not tell whether the
/// name is known. `None` where the user has a credential.
pub open spec fn login_refusal(users: Seq<UserEntryView>, username: Seq<char>) -> Option<ErrorView> {
    if credentials_of(users, username).len() == 0 {
        Some(ErrorView { kind: ErrorKind::UserNotFound, detail: username })
    } else {
        None
    }
}

/// The record of a user who may log in: one with at least one credential.
pub fn require_credentials<'a>(store: &'a CredentialStore, username: &str) -> (r: Result<&'a UserRecord, AppError>)
    ensures
        match r {
            Ok(record) => login_refusal(store@, username@) is None && user_record(store@, username@) == Some(
                record@,
            ) && record.credentials.len() > 0,
            Err(e) => login_refusal(store@, username@) == Some(e@),
        },
{
    match store.get(username) {
        None => Err(AppError::UserNotFound(username.to_owned())),
        Some(record) => {
            if record.credentials.len() == 0 {
                Err(AppError::UserNotFound(username.to_owned()))
            } else {
                Ok(record)
            }
        },
    }
}

/// A user without a stored credential is refused as not found, and in the same words
/// whether or not the store knows the name.
pub proof fn lemma_no_credentials_no_login(
    known: Seq<UserEntryView>,
    unknown: Seq<UserEntryView>,
    username: Seq<char>,
)
    requires
        user_record(known, username) matches Some(record) && record.credentials.len() == 0,
        user_record(unknown, username) is None,
    ensures
        login_refusal(known, username) == login_refusal(unknown, username),
        login_refusal(known, username) == Some(ErrorView { kind: ErrorKind::UserNotFound, detail: username }),
{
}

/// The credentials with which the user may log in: all that are stored for the user.
/// A stored credential that cannot be named fails the whole.
pub fn allowed_credentials(record: &UserRecord) -> (r: Result<Vec<CredentialRef>, AppError>)
    ensures
        match r {
            Ok(refs) => refs.len() == record@.credentials.len() && forall|k: int|
                0 <= k < refs.len() ==> reference_of(record@.credentials[k]) == Some((#[trigger] refs@[k])@),
            Err(e) => e@.kind == ErrorKind::Storage && exists|k: int|
                0 <= k < record@.credentials.len() && reference_of(#[trigger] record@.credentials[k]) is None,
        },
{
    let mut refs: Vec<CredentialRef> = Vec::new();
    let mut i: usize = 0;
    while i < record.credentials.len()
        invariant
            i <= record.credentials.len(),
            refs.len() == i,
            forall|k: int| 0 <= k < i ==> reference_of(record@.credentials[k]) == Some((#[trigger] refs@[k])@),
        decreases record.credentials.len() - i,
    {
        let credential = &record.credentials[i];
        assert(record@.credentials[i as int] == credential@);
        let id = match decode_base64url(credential.credential_id.as_str()) {
            Ok(id) => id,
            Err(reason) => {
                return Err(AppError::Storage(joined("Failed to decode credential ID: ", reason.as_str())));
            },
        };
        match check_credential_id(id.as_slice()) {
            Ok(()) => {},
            Err(reason) => {
                return Err(AppError::Storage(joined("Invalid credential ID: ", reason.as_str())));
            },
        }
        let transports = if transports_accepted(credential.transports) {
            credential.transports
        } else {
            0
        };
        refs.push(CredentialRef { id, transports });
        i += 1;
    }
    Ok(refs)
}

/// The ids of `ids` in their order, each at its first place only.
pub open spec fn each_once(ids: Seq<Seq<u8>>) -> Seq<Seq<u8>>
    decreases ids.len(),
{
    if ids.len() == 0 {
        ids
    } else {
        let before = each_once(ids.drop_last());
        if before.contains(ids.last()) {
            before
        } else {
            before.push(ids.last())
        }
    }
}

/// The ids of the credentials that `refs` names.
pub open spec fn ids_of(refs: Seq<CredentialRef>) -> Seq<Seq<u8>> {
    refs.map_values(|r: CredentialRef| r.id@)
}

/// The list of allowed credentials that the verification library is handed: the
/// credentials that `refs` names, in their order, each once.
fn allowed_list(refs: &Vec<CredentialRef>) -> (list: AllowedCredentials)
    requires
        forall|k: int|
            0 <= k < refs.len() ==> is_credential_id_len((#[trigger] refs@[k]).id@.len()) && refs@[k].transports
                < TRANSPORTS_LIMIT,
    ensures
        allowed_ids(list) == each_once(ids_of(refs@)),
        refs.len() > 0 ==> allowed_ids(list).len() > 0,
{
    let capacity = if refs.len() <= CAPACITY_LIMIT {
        refs.len()
    } else {
        CAPACITY_LIMIT
    };
    let mut list = allowed_with_capacity(capacity);
    let ghost ids = ids_of(refs@);
    let mut i: usize = 0;
    assert(ids.take(0) =~= Seq::<Seq<u8>>::empty());
    while i < refs.len()
        invariant
            i <= refs.len(),
            ids == ids_of(refs@),
            allowed_ids(list) == each_once(ids.take(i as int)),
            i > 0 ==> allowed_ids(list).len() > 0,
            forall|k: int|
                0 <= k < refs.len() ==> is_credential_id_len((#[trigger] refs@[k]).id@.len())
                    && refs@[k].transports < TRANSPORTS_LIMIT,
        decreases refs.len() - i,
    {
        let ghost before = allowed_ids(list);
        let id = refs[i].id.clone();
        assert(id@ == ids[i as int]) by {
            assert(id@ =~= refs@[i as int].id@);
        }
        assert(ids.take(i + 1).drop_last() =~= ids.take(i as int));
        assert(ids.take(i + 1).last() == ids[i as int]);
        let added = allowed_push(&mut list, id, refs[i].transports);
        assert(allowed_ids(list).len() > 0) by {
            if !added {
                assert(before.contains(ids[i as int]));
            }
        }
        i += 1;
    }
    assert(ids.take(i as int) =~= ids);
    list
}

/// Whether each of the credentials can be named to the verification library.
pub open spec fn all_named(creds: Seq<StoredCredentialView>) -> bool {
    forall|k: int| 0 <= k < creds.len() ==> reference_of(#[trigger] creds[k]) is Some
}

/// What the begin of a login comes to: how what is stored after it relates to what
/// was stored before it, and to what it returns. The credentials are never touched. A
/// success was not refused, found every credential of the user fit to be named,
/// returns an id of the form of a random identifier and stores one challenge under
/// it, of a login of the user at the relying party, with a state of the ceremony that
/// a finish can read; it touches no other. A login that is to be refused is refused
/// as it is to be, unless the storage layer fails, and stores nothing. A login that
/// is not to be refused is never answered with the user as not found: a relying party
/// that the verification library does not take is answered as invalid input, and
/// nothing else is; at a relying party that it takes, a stored credential of the user
/// that cannot be named is a failure of the storage layer. A failure that is not one
/// of the storage layer stores nothing.
pub open spec fn login_begin_outcome(
    before: Stored,
    after: Stored,
    username: Seq<char>,
    rp_id: Seq<char>,
    r: Result<CeremonyBeginData, AppError>,
) -> bool {
    &&& after.credentials =~= before.credentials
    &&& match r {
        Ok(data) => {
            &&& login_refusal(before.credentials, username) is None
            &&& rp_id_accepted(rp_id)
            &&& all_named(credentials_of(before.credentials, username))
            &&& is_random_id(data.challenge_id@)
            &&& begun_under(before, after, data.challenge_id@)
            &&& is_begun(after.challenges[data.challenge_id@], ChallengeType::Authentication, username, rp_id)
            &&& is_ceremony_state(after.challenges[data.challenge_id@].state, ChallengeType::Authentication)
        },
        Err(e) => {
            &&& login_refusal(before.credentials, username) matches Some(refused) ==> {
                &&& e@ == refused || is_storage_failure(e@.kind)
                &&& after.challenges =~= before.challenges
            }
            &&& login_refusal(before.credentials, username) is None ==> {
                &&& e@.kind == ErrorKind::InvalidInput || e@.kind == ErrorKind::WebAuthn || is_storage_failure(e@.kind)
                &&& !rp_id_accepted(rp_id) ==> e@.kind == ErrorKind::InvalidInput || is_storage_failure(e@.kind)
                &&& e@.kind == ErrorKind::InvalidInput ==> !rp_id_accepted(rp_id)
                &&& rp_id_accepted(rp_id) && !all_named(credentials_of(before.credentials, username))
                    ==> is_storage_failure(e@.kind)
            }
            &&& !is_storage_failure(e@.kind) ==> after.challenges =~= before.challenges
            &&& differ_in_one_at_most(before.challenges, after.challenges)
        },
    }
}

/// Begins a login of a user. The user must have a credential; whether the store does
/// not know the name or holds no credential for it is answered alike. The state of the
/// ceremony is stored under a fresh id, which is returned with the options for the
/// client.
pub fn login_begin<S: StorageProvider>(storage: &mut S, username: &str, rp_id: &str) -> (r: Result<
    CeremonyBeginData,
    AppError,
>)
    ensures
        login_begin_outcome(state_of(*old(storage)), state_of(*final(storage)), username@, rp_id@, r),
{
    proof {
        lemma_differ_in_one(storage.challenges(), storage.challenges(), Seq::empty());
    }
    let store = match storage.load_credentials() {
        Ok(store) => store,
        Err(e) => {
            return Err(e);
        },
    };
    let record = match require_credentials(&store, username) {
        Ok(record) => record,
        Err(e) => {
            return Err(e);
        },
    };
    let rp = make_rp_id(rp_id)?;
    let refs = allowed_credentials(record)?;
    proof {
        let creds = credentials_of(storage.credentials(), username@);
        assert forall|k: int| 0 <= k < creds.len() implies reference_of(#[trigger] creds[k]) is Some by {
            assert(reference_of(creds[k]) == Some(refs@[k]@));
        }
    }
    let allowed = allowed_list(&refs);
    let options = match second_factor_options(&rp, allowed) {
        Ok(options) => options,
        Err(reason) => {
            return Err(AppError::WebAuthn(reason));
        },
    };
    let (server_state, client_state) = match start_authentication(options) {
        Ok(states) => states,
        Err(reason) => {
            return Err(AppError::WebAuthn(reason));
        },
    };
    let state_bytes = match encode_authentication_state(&server_state) {
        Ok(bytes) => bytes,
        Err(reason) => {
            return Err(AppError::WebAuthn(joined("Failed to encode server state: ", reason.as_str())));
        },
    };
    let challenge_id = begin_challenge(storage, ChallengeType::Authentication, username, rp_id, &state_bytes)?;
    proof {
        let state = storage.challenges()[challenge_id@].state;
        assert(encodes(state, state_bytes@) && state_decodes(ChallengeType::Authentication, state_bytes@));
    }
    match authentication_client_json(&client_state) {
        Ok(public_key) => Ok(CeremonyBeginData { public_key, challenge_id }),
        Err(reason) => Err(AppError::Json(reason)),
    }
}

/// What a verified authentication changes in the credential that was used. A
/// credential counts as eligible for backup unless the authenticator said that it is
/// not.
pub open spec fn usage_of(dynamic: DynamicStateData, encoded: Seq<char>, now: Seq<char>) -> UsageUpdateView {
    UsageUpdateView {
        dynamic_state: encoded,
        sign_count: dynamic.sign_count,
        user_verified: dynamic.user_verified,
        backup_eligible: dynamic.backup != BackupState::NotEligible,
        last_used_at: now,
    }
}

/// What a verified authentication changes in the credential that was used.
pub fn new_usage(dynamic: &DynamicStateData, encoded: String, now: String) -> (usage: UsageUpdate)
    ensures
        usage@ == usage_of(*dynamic, encoded@, now@),
{
    let backup_eligible = match dynamic.backup {
        BackupState::NotEligible => false,
        _ => true,
    };
    UsageUpdate {
        dynamic_state: encoded,
        sign_count: dynamic.sign_count,
        user_verified: dynamic.user_verified,
        backup_eligible,
        last_used_at: now,
    }
}

/// Why a response that names the credential `credential_id` cannot be verified for
/// the user of its challenge, given the credentials that are stored: the user has no
/// record, or the record holds no credential with that id. `None` where the
/// credential is stored for the user.
pub open spec fn credential_refusal(
    users: Seq<UserEntryView>,
    username: Seq<char>,
    credential_id: Seq<char>,
) -> Option<ErrorView> {
    match user_record(users, username) {
        None => Some(ErrorView { kind: ErrorKind::UserNotFound, detail: username }),
        Some(record) => if credential_index(record.credentials, credential_id) is None {
            Some(ErrorView { kind: ErrorKind::CredentialNotFound, detail: "No matching credential found"@ })
        } else {
            None
        },
    }
}

/// The stored credential of a user that a response names.
pub fn select_credential<'a>(store: &'a CredentialStore, username: &str, credential_id: &str) -> (r: Result<
    &'a StoredCredential,
    AppError,
>)
    ensures
        match r {
            Ok(credential) => {
                &&& credential_refusal(store@, username@, credential_id@) is None
                &&& credential@ == credentials_of(store@, username@)[credential_index(
                    credentials_of(store@, username@),
                    credential_id@,
                ).unwrap()]
            },
            Err(e) => credential_refusal(store@, username@, credential_id@) == Some(e@),
        },
{
    match store.get(username) {
        None => Err(AppError::UserNotFound(username.to_owned())),
        Some(record) => {
            match record.find_credential(credential_id) {
                Some(j) => Ok(&record.credentials[j]),
                None => Err(AppError::CredentialNotFound("No matching credential found".to_owned())),
            }
        },
    }
}

/// The bytes that a part of a stored credential stands for, which must be `len` in
/// number. A part that stands for no bytes or for another number of them is a storage
/// error.
pub fn stored_bytes(encoded: &str, what: &str, len: usize) -> (r: Result<Vec<u8>, AppError>)
    ensures
        match r {
            Ok(bytes) => bytes.len() == len && base64url_bytes(encoded@) == Some(bytes@),
            Err(e) => e@.kind == ErrorKind::Storage && (base64url_bytes(encoded@) matches Some(bytes)
                ==> bytes.len() != len),
        },
{
    match decode_base64url(encoded) {
        Ok(bytes) => {
            if bytes.len() == len {
                Ok(bytes)
            } else {
                let mut detail = joined("Invalid ", what);
                detail.append(" length");
                Err(AppError::Storage(detail))
            }
        },
        Err(reason) => {
            let mut detail = joined("Failed to decode ", what);
            detail.append(": ");
            detail.append(reason.as_str());
            Err(AppError::Storage(detail))
        },
    }
}

/// Whether `u` is a change that a finished login records: its dynamic state is the
/// storage encoding of a dynamic state that holds the counter and the flags of the
/// change, and it names a point in time at which the credential was used.
pub open spec fn is_usage(u: UsageUpdateView) -> bool {
    &&& is_state_of(u.dynamic_state, u.sign_count, u.user_verified, u.backup_eligible)
    &&& exists|secs: nat| secs <= u64::MAX && u.last_used_at == iso8601_text(secs)
}

/// Whether `u` is the change that a finished login with the outcome `data` records.
pub open spec fn is_recorded(u: UsageUpdateView, data: LoginFinishData) -> bool {
    u.sign_count == data.counter && u.user_verified == data.user_verified && is_usage(u)
}

/// The id, in the storage encoding, of the credential that the client's response in
/// `input` names.
pub open spec fn named_id(input: Seq<char>) -> Seq<char> {
    base64url_text(named_credential(parsed_authentication(input)->0))
}

/// Whether a stored credential counts its user as verified: whether its dynamic state
/// says so.
pub open spec fn stored_verified(c: StoredCredentialView) -> bool {
    verified_in(base64url_bytes(c.dynamic_state)->0)
}

/// The signature counter that is stored for a credential: the one in its dynamic
/// state.
pub open spec fn stored_counter(c: StoredCredentialView) -> int {
    counter_in(base64url_bytes(c.dynamic_state)->0)
}

/// Whether the parts of a stored credential that a login needs can be read: the
/// static state stands for bytes that the verification library can read, the dynamic
/// state for the encoded form of one, and the user handle for 64 bytes.
pub open spec fn is_readable(c: StoredCredentialView) -> bool {
    &&& base64url_bytes(c.static_state) matches Some(bytes) && static_state_decodes(bytes)
    &&& base64url_bytes(c.dynamic_state) matches Some(bytes) && is_dynamic_state(bytes)
    &&& base64url_bytes(c.user_handle) matches Some(bytes) && bytes.len() == USER_HANDLE_LEN
}

/// The first credential of a user with the given id.
pub open spec fn credential_of(users: Seq<UserEntryView>, username: Seq<char>, id: Seq<char>) -> StoredCredentialView {
    credentials_of(users, username)[credential_index(credentials_of(users, username), id).unwrap()]
}

/// Whether the credentials `after` are the credentials `before` with the usage that
/// a finished login with the outcome `data` reports recorded in the credential of the
/// user with the given id: the credential is stored for the user and can be read, and
/// the counter that is reported has advanced from the one that was stored.
pub open spec fn has_recorded(
    before: Seq<UserEntryView>,
    after: Seq<UserEntryView>,
    data: LoginFinishData,
    id: Seq<char>,
) -> bool {
    &&& credential_refusal(before, data.username@, id) is None
    &&& is_readable(credential_of(before, data.username@, id))
    &&& counter_advanced(stored_counter(credential_of(before, data.username@, id)), data.counter as int)
    &&& exists|u: UsageUpdateView| is_recorded(u, data) && after =~= #[trigger] with_usage(before, data.username@, id, u)
}

/// What the finish of a login comes to: how what is stored after it relates to what
/// was stored before it, and to what it returns. No other challenge is ever touched. A
/// success was owed no failure before the response was verified, has a response whose
/// client data names the given origin, has used the challenge up, names the user of
/// the challenge, and has recorded the usage that it reports in the credential that
/// the response names, which is stored for that user; it reports the user as verified
/// where the credential did before or the response does. A failure keeps the challenge;
/// unless it is one of the storage layer it keeps the credentials too. A step that is
/// to be refused is refused as it is to be, and a step to which a failure is owed
/// before the response is verified fails with a failure of that kind, unless the
/// storage layer fails to read the challenge; both change nothing. A response that
/// names a credential which is not stored for the user of the challenge is refused as
/// that is to be, unless the storage layer fails, and changes nothing; so the user is
/// reported as not found exactly where the user has no record, and the credential
/// exactly where the record does not hold it. A credential that is stored but cannot
/// be read is a failure of the storage layer, and changes nothing. Any other failure
/// is one of the verification or of the storage layer.
pub open spec fn login_finish_outcome(
    before: Stored,
    after: Stored,
    challenge_id: Seq<char>,
    origin: Seq<char>,
    input: Seq<char>,
    r: Result<LoginFinishData, AppError>,
) -> bool {
    let refusal = finish_refusal(before.challenges, challenge_id, ChallengeType::Authentication, origin);
    let early = early_failure(before.challenges, challenge_id, ChallengeType::Authentication, origin, input);
    let username = before.challenges[challenge_id].username;
    &&& after.challenges.remove(challenge_id) =~= before.challenges.remove(challenge_id)
    &&& match r {
        Ok(data) => {
            &&& refusal is None
            &&& early is None
            &&& !after.challenges.contains_key(challenge_id)
            &&& authentication_origin(parsed_authentication(input)->0) == origin
            &&& data.username@ == before.challenges[challenge_id].username
            &&& has_recorded(before.credentials, after.credentials, data, named_id(input))
            &&& data.user_verified == (stored_verified(
                credential_of(before.credentials, data.username@, named_id(input)),
            ) || user_verified_in(parsed_authentication(input)->0))
        },
        Err(e) => {
            &&& after.challenges =~= before.challenges
            &&& !is_storage_failure(e@.kind) ==> after.credentials =~= before.credentials
            &&& refusal matches Some(refused) ==> {
                &&& after.credentials =~= before.credentials
                &&& e@ == refused || (is_storage_failure(e@.kind) && before.challenges.contains_key(challenge_id))
            }
            &&& early matches Some(kind) ==> {
                &&& after.credentials =~= before.credentials
                &&& e@.kind == kind || (is_storage_failure(e@.kind) && before.challenges.contains_key(challenge_id))
            }
            &&& early is None ==> match credential_refusal(before.credentials, username, named_id(input)) {
                Some(refused) => {
                    &&& e@ == refused || is_storage_failure(e@.kind)
                    &&& after.credentials =~= before.credentials
                },
                None => if is_readable(credential_of(before.credentials, username, named_id(input))) {
                    e@.kind == ErrorKind::WebAuthn || is_storage_failure(e@.kind)
                } else {
                    is_storage_failure(e@.kind) && after.credentials =~= before.credentials
                },
            }
        },
    }
}

/// Finishes the login that was begun under `challenge_id`, with the client's response
/// `input`. The challenge must be one of a login, and the host of the origin must be
/// the relying party that the login was begun for; only then is the response looked
/// at. The response must name a credential that is stored for the user. A response
/// that the verification library accepts records the usage in that credential and
/// uses the challenge up. Nothing is stored or deleted where the step fails for
/// another reason than the storage layer.
pub fn login_finish<S: StorageProvider>(storage: &mut S, challenge_id: &str, origin_str: &str, input: &str) -> (r:
    Result<LoginFinishData, AppError>)
    ensures
        login_finish_outcome(
            state_of(*old(storage)),
            state_of(*final(storage)),
            challenge_id@,
            origin_str@,
            input@,
            r,
        ),
{
    let challenge = match storage.load_challenge(challenge_id) {
        Ok(challenge) => challenge,
        Err(e) => {
            return Err(e);
        },
    };
    match check_challenge(&challenge, ChallengeType::Authentication, origin_str) {
        Ok(()) => {},
        Err(e) => {
            return Err(e);
        },
    }
    let rp = make_rp_id(challenge.rp_id.as_str())?;
    let state_bytes = match decode_base64url(challenge.state.as_str()) {
        Ok(bytes) => bytes,
        Err(reason) => {
            return Err(AppError::Storage(joined("Failed to decode server state: ", reason.as_str())));
        },
    };
    let server_state = match decode_authentication_state(state_bytes.as_slice()) {
        Ok(state) => state,
        Err(reason) => {
            return Err(AppError::Storage(joined("Failed to decode authentication state: ", reason.as_str())));
        },
    };
    let response = match parse_authentication(input) {
        Ok(response) => response,
        Err(reason) => {
            return Err(AppError::InvalidInput(joined("Invalid client response: ", reason.as_str())));
        },
    };
    let store = match storage.load_credentials() {
        Ok(store) => store,
        Err(e) => {
            return Err(e);
        },
    };
    let credential_id = encode_base64url(response_credential_id(&response).as_slice());
    let stored = match select_credential(&store, challenge.username.as_str(), credential_id.as_str()) {
        Ok(stored) => stored,
        Err(e) => {
            return Err(e);
        },
    };
    let static_bytes = match decode_base64url(stored.static_state.as_str()) {
        Ok(bytes) => bytes,
        Err(reason) => {
            return Err(AppError::Storage(joined("Failed to decode static state: ", reason.as_str())));
        },
    };
    let static_state = match decode_static_state(static_bytes.as_slice()) {
        Ok(state) => state,
        Err(reason) => {
            return Err(AppError::Storage(joined("Failed to decode static state: ", reason.as_str())));
        },
    };
    let dynamic_bytes = stored_bytes(stored.dynamic_state.as_str(), "dynamic state", DYNAMIC_STATE_LEN)?;
    let dynamic_state = match decode_dynamic_state(&dynamic_bytes) {
        Ok(state) => state,
        Err(reason) => {
            return Err(AppError::Storage(joined("Failed to decode dynamic state: ", reason.as_str())));
        },
    };
    let handle_bytes = stored_bytes(stored.user_handle.as_str(), "user handle", USER_HANDLE_LEN)?;
    let handle = user_handle_from_bytes(&handle_bytes);
    let ghost used = credential_of(old(storage).credentials(), challenge.username@, credential_id@);
    proof {
        assert(credential_id@ == named_id(input@));
        assert(used == stored@);
        assert(is_readable(used));
        lemma_first_index(
            credentials_of(old(storage).credentials(), challenge.username@),
            has_id(credential_id@),
        );
    }
    let mut credential = match authenticated_credential(&response, &handle, static_state, dynamic_state) {
        Ok(credential) => credential,
        Err(reason) => {
            return Err(
                AppError::WebAuthn(joined("Failed to create authenticated credential: ", reason.as_str())),
            );
        },
    };
    match verify_authentication(server_state, &rp, &response, &mut credential, origin_str, false, true) {
        Ok(_) => {},
        Err(reason) => {
            return Err(AppError::WebAuthn(reason));
        },
    }
    let dynamic = dynamic_state_data(&authenticated_dynamic_state(&credential));
    let usage = new_usage(&dynamic, encode_base64url(dynamic.encoded.as_slice()), now_iso8601());
    proof {
        assert(encodes(usage@.dynamic_state, dynamic.encoded@));
        assert(is_usage(usage@));
        assert(counter_advanced(stored_counter(used), dynamic.sign_count as int));
        assert(dynamic.user_verified == (stored_verified(used) || user_verified_in(response)));
    }
    let mut store = match storage.load_credentials() {
        Ok(store) => store,
        Err(e) => {
            return Err(e);
        },
    };
    let ghost recorded = usage@;
    store.record_usage(challenge.username.as_str(), credential_id.as_str(), usage);
    match storage.save_credentials(&store) {
        Ok(()) => {},
        Err(e) => {
            return Err(e);
        },
    }
    match storage.delete_challenge(challenge_id) {
        Ok(()) => {},
        Err(e) => {
            return Err(e);
        },
    }
    let data = LoginFinishData {
        username: challenge.username,
        user_verified: dynamic.user_verified,
        counter: dynamic.sign_count,
    };
    proof {
        assert(is_recorded(recorded, data));
        assert(credential_refusal(old(storage).credentials(), data.username@, credential_id@) is None);
        assert(is_readable(credential_of(old(storage).credentials(), data.username@, credential_id@)));
        assert(storage.credentials() =~= with_usage(
            old(storage).credentials(),
            data.username@,
            credential_id@,
            recorded,
        ));
        assert(has_recorded(old(storage).credentials(), storage.credentials(), data, credential_id@));
    }
    Ok(data)
}

/// A login cannot begin for a user without a stored credential: it is answered with
/// the user as not found, unless the storage layer fails, and stores nothing.
pub proof fn lemma_login_needs_a_credential(
    before: Stored,
    after: Stored,
    username: Seq<char>,
    rp_id: Seq<char>,
    r: Result<CeremonyBeginData, AppError>,
)
    requires
        login_begin_outcome(before, after, username, rp_id, r),
        credentials_of(before.credentials, username).len() == 0,
    ensures
        r matches Err(e) && (e@.kind == ErrorKind::UserNotFound || is_storage_failure(e@.kind)),
        after.credentials == before.credentials,
        after.challenges == before.challenges,
{
}

/// A challenge that a finished login has used up cannot be used again: a second
/// finish under the same id is answered with the id as not found, and changes nothing.
pub proof fn lemma_login_cannot_be_repeated(
    first: Stored,
    second: Stored,
    third: Stored,
    challenge_id: Seq<char>,
    origin: Seq<char>,
    input: Seq<char>,
    done: Result<LoginFinishData, AppError>,
    again_origin: Seq<char>,
    again_input: Seq<char>,
    again: Result<LoginFinishData, AppError>,
)
    requires
        login_finish_outcome(first, second, challenge_id, origin, input, done),
        done is Ok,
        login_finish_outcome(second, third, challenge_id, again_origin, again_input, again),
    ensures
        again matches Err(e) && e@ == (ErrorView { kind: ErrorKind::ChallengeNotFound, detail: challenge_id }),
        third.credentials == second.credentials,
        third.challenges == second.challenges,
{
}

/// A finish of a login whose origin has another host than the relying party that the
/// login was begun for is refused as coming from a wrong origin, whatever the response
/// is, unless the storage layer fails to read the challenge; and nothing is stored or
/// deleted.
pub proof fn lemma_login_is_bound_to_its_origin(
    before: Stored,
    after: Stored,
    challenge_id: Seq<char>,
    origin: Seq<char>,
    input: Seq<char>,
    r: Result<LoginFinishData, AppError>,
)
    requires
        login_finish_outcome(before, after, challenge_id, origin, input, r),
        before.challenges.contains_key(challenge_id),
        before.challenges[challenge_id].challenge_type == ChallengeType::Authentication,
        host_of(origin) != Some(before.challenges[challenge_id].rp_id),
    ensures
        r matches Err(e) && (e@.kind == ErrorKind::InvalidOrigin || is_storage_failure(e@.kind)),
        after.credentials == before.credentials,
        after.challenges == before.challenges,
{
}

/// A login of a user with a stored credential is never answered with the user as not
/// found.
pub proof fn lemma_known_user_is_not_reported_missing(
    before: Stored,
    after: Stored,
    username: Seq<char>,
    rp_id: Seq<char>,
    r: Result<CeremonyBeginData, AppError>,
)
    requires
        login_begin_outcome(before, after, username, rp_id, r),
        credentials_of(before.credentials, username).len() > 0,
    ensures
        r matches Err(e) ==> e@.kind != ErrorKind::UserNotFound,
{
}

/// A finished login never falls behind the signature counter that is stored: where
/// the stored credential has counted before, the login reports a greater counter, and
/// the counter that is stored after it is the one that it reports.
pub proof fn lemma_login_advances_the_counter(
    before: Stored,
    after: Stored,
    challenge_id: Seq<char>,
    origin: Seq<char>,
    input: Seq<char>,
    r: Result<LoginFinishData, AppError>,
)
    requires
        login_finish_outcome(before, after, challenge_id, origin, input, r),
        r is Ok,
    ensures
        ({
            let data = r->Ok_0;
            let used = credential_of(before.credentials, data.username@, named_id(input));
            &&& data.counter >= stored_counter(used)
            &&& stored_counter(used) > 0 ==> data.counter > stored_counter(used)
            &&& stored_counter(credential_of(after.credentials, data.username@, named_id(input))) == data.counter
        }),
{
    let data = r->Ok_0;
    let id = named_id(input);
    let u = choose|u: UsageUpdateView|
        is_recorded(u, data) && after.credentials =~= #[trigger] with_usage(
            before.credentials,
            data.username@,
            id,
            u,
        );
    let bytes = choose|bytes: Seq<u8>| #[trigger]
        encodes(u.dynamic_state, bytes) && is_dynamic_state(bytes) && counter_in(bytes) == u.sign_count;
    lemma_usage_is_stored(before.credentials, data.username@, id, u);
    let creds = credentials_of(before.credentials, data.username@);
    let place = credential_index(creds, id).unwrap();
    lemma_first_index(creds, has_id(id));
    assert(after.credentials == with_usage(before.credentials, data.username@, id, u));
    assert(credential_of(after.credentials, data.username@, id) == used(creds[place], u));
    assert(base64url_bytes(u.dynamic_state) == Some(bytes));
}

/// A finished login keeps the ids of the store unique.
pub proof fn lemma_login_keeps_ids_unique(
    before: Stored,
    after: Stored,
    challenge_id: Seq<char>,
    origin: Seq<char>,
    input: Seq<char>,
    r: Result<LoginFinishData, AppError>,
)
    requires
        login_finish_outcome(before, after, challenge_id, origin, input, r),
        r is Ok,
        ids_unique(before.credentials),
    ensures
        ids_unique(after.credentials),
{
    let data = r->Ok_0;
    let id = named_id(input);
    let u = choose|u: UsageUpdateView|
        is_recorded(u, data) && after.credentials =~= #[trigger] with_usage(
            before.credentials,
            data.username@,
            id,
            u,
        );
    lemma_changes_keep_ids_unique(before.credentials, data.username@, id, Seq::empty(), u);
}

} // verus!
