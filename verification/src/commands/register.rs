//! The registration ceremony: a user gets a new credential.

use vstd::prelude::*;
use webauthn_rp::request::PublicKeyCredentialDescriptor;
use crate::calendar::iso8601_text;
use crate::codec::{base64url_bytes, decode_base64url, encode_base64url, format_aaguid, try_encode_base64url};
use crate::commands::{
    begin_challenge, begun_under, check_challenge, differ_in_one_at_most, early_failure, encodes, finish_refusal, host_of, is_state_of,
    is_begun, is_ceremony_state, is_random_id, joined, lemma_differ_in_one, make_rp_id, state_decodes,
};
use crate::commands::login::login_refusal;
use crate::credential_store::{
    credentials_of, ids_unique, lemma_add_keeps_ids_unique, lemma_added_credential_is_held, owner_index,
    user_record, with_credential, CredentialStore, UserEntryView,
};
use crate::errors::{AppError, ErrorKind, ErrorView, is_storage_failure};
use crate::schemas::{CeremonyBeginData, RegisterFinishData};
use crate::storage::{
    now_iso8601, state_of, ChallengeType, StorageProvider, Stored, StoredCredential, StoredCredentialView,
    UserRecord, UserRecordView,
};
use crate::webauthn::{
    check_credential_id, credential_descriptor, decode_registration_state, descriptor_ref, dynamic_state_data,
    encode_registration_state, fresh_user_handle, is_credential_id_len, nickname_accepted, parse_nickname,
    parse_registration, parse_username, parsed_registration, passkey_options, registered_aaguid, registered_dynamic_state,
    registered_id, registered_static_state, registered_transports, registered_user_handle,
    registration_client_json, registration_origin, rp_id_accepted, start_registration, transports_accepted, user_handle_bytes,
    user_handle_from_bytes, username_accepted, verify_registration, BackupState, TRANSPORTS_LIMIT,
    USER_HANDLE_LEN,
};

verus! {

/// A credential as the verification library is told of it: the bytes of its id and
/// the code of its transports.
#[derive(Debug)]
pub struct CredentialRef {
    pub id: Vec<u8>,
    pub transports: u8,
}

impl View for CredentialRef {
    type V = (Seq<u8>, u8);

    open spec fn view(&self) -> (Seq<u8>, u8) {
        (self.id@, self.transports)
    }
}

/// The views of a sequence of references.
pub open spec fn ref_views(refs: Seq<CredentialRef>) -> Seq<(Seq<u8>, u8)> {
    refs.map_values(|r: CredentialRef| r@)
}

/// The code of the transports that a stored credential is named with: the stored
/// code, or that of no transport where the stored code is no set of transports.
pub open spec fn usable_transports(code: u8) -> u8 {
    if code < TRANSPORTS_LIMIT {
        code
    } else {
        0
    }
}

/// How a stored credential is named to the verification library: by the bytes of its
/// id, where the stored id stands for bytes and they can be an id. Other credentials
/// cannot be named.
pub open spec fn reference_of(c: StoredCredentialView) -> Option<(Seq<u8>, u8)> {
    match base64url_bytes(c.credential_id) {
        Some(id) => if is_credential_id_len(id.len()) {
            Some((id, usable_transports(c.transports)))
        } else {
            None
        },
        None => None,
    }
}

/// The credentials that a new authenticator of the user must not be one of.
pub fn excluded_credentials(record: &UserRecord) -> (refs: Vec<CredentialRef>)
    ensures
        ref_views(refs@) == record@.credentials.filter_map(|c: StoredCredentialView| reference_of(c)),
{
    let ghost f = |c: StoredCredentialView| reference_of(c);
    let ghost all = record@.credentials;
    let mut refs: Vec<CredentialRef> = Vec::new();
    let mut i: usize = 0;
    assert(ref_views(refs@) =~= all.take(0).filter_map(f));
    while i < record.credentials.len()
        invariant
            i <= record.credentials.len(),
            all == record@.credentials,
            f == |c: StoredCredentialView| reference_of(c),
            ref_views(refs@) == all.take(i as int).filter_map(f),
        decreases record.credentials.len() - i,
    {
        let credential = &record.credentials[i];
        let ghost before = ref_views(refs@);
        proof {
            assert(all.take(i + 1).drop_last() =~= all.take(i as int));
            assert(all.take(i + 1).last() == credential@);
        }
        match decode_base64url(credential.credential_id.as_str()) {
            Ok(id) => {
                if check_credential_id(id.as_slice()).is_ok() {
                    let transports = if transports_accepted(credential.transports) {
                        credential.transports
                    } else {
                        0
                    };
                    let ghost added = (id@, transports);
                    refs.push(CredentialRef { id, transports });
                    assert(ref_views(refs@) =~= before + seq![added]);
                }
            },
            Err(_) => {},
        }
        i += 1;
    }
    assert(all.take(i as int) =~= all);
    refs
}

/// What a sequence of descriptors names: the id and the transports of each.
pub open spec fn described(list: Seq<PublicKeyCredentialDescriptor<Vec<u8>>>) -> Seq<(Seq<u8>, u8)> {
    list.map_values(|d: PublicKeyCredentialDescriptor<Vec<u8>>| descriptor_ref(d))
}

/// The descriptors of the credentials that `refs` names, in their order, for the
/// verification library.
fn descriptors(refs: &Vec<CredentialRef>) -> (list: Vec<PublicKeyCredentialDescriptor<Vec<u8>>>)
    requires
        forall|k: int|
            0 <= k < refs.len() ==> is_credential_id_len((#[trigger] refs@[k]).id@.len()) && refs@[k].transports
                < TRANSPORTS_LIMIT,
    ensures
        described(list@) == ref_views(refs@),
{
    let mut list: Vec<PublicKeyCredentialDescriptor<Vec<u8>>> = Vec::new();
    let mut i: usize = 0;
    while i < refs.len()
        invariant
            i <= refs.len(),
            list.len() == i,
            forall|k: int| 0 <= k < i ==> descriptor_ref(#[trigger] list@[k]) == refs@[k]@,
            forall|k: int|
                0 <= k < refs.len() ==> is_credential_id_len((#[trigger] refs@[k]).id@.len())
                    && refs@[k].transports < TRANSPORTS_LIMIT,
        decreases refs.len() - i,
    {
        let id = refs[i].id.clone();
        assert(id@ =~= refs@[i as int].id@);
        list.push(credential_descriptor(id, refs[i].transports));
        i += 1;
    }
    assert(described(list@) =~= ref_views(refs@));
    list
}

/// The bytes of the handle that is stored for a user.
pub fn stored_user_handle(record: &UserRecord) -> (r: Result<Vec<u8>, AppError>)
    ensures
        match r {
            Ok(bytes) => bytes.len() == USER_HANDLE_LEN && base64url_bytes(record@.user_id) == Some(bytes@),
            Err(e) => e@.kind == ErrorKind::Storage && (match base64url_bytes(record@.user_id) {
                Some(bytes) => bytes.len() != USER_HANDLE_LEN,
                None => true,
            }),
        },
{
    match decode_base64url(record.user_id.as_str()) {
        Ok(bytes) => {
            if bytes.len() == USER_HANDLE_LEN {
                Ok(bytes)
            } else {
                Err(AppError::Storage("Invalid user handle length".to_owned()))
            }
        },
        Err(reason) => Err(AppError::Storage(joined("Failed to decode user handle: ", reason.as_str()))),
    }
}

/// What a registration of a user starts from: the handle that the user has, and the
/// credentials that a new authenticator of the user must not be one of.
#[derive(Debug)]
pub struct RegistrationPlan {
    /// The bytes of the stored handle. `None` for a user without a record, who gets a
    /// fresh handle.
    pub handle: Option<Vec<u8>>,
    pub exclude: Vec<CredentialRef>,
}

/// The view of an optional byte string.
pub open spec fn opt_bytes(o: Option<Vec<u8>>) -> Option<Seq<u8>> {
    match o {
        Some(bytes) => Some(bytes@),
        None => None,
    }
}

/// Whether `plan` is what a registration of a user with the given record starts from:
/// a known user keeps the handle and leaves out the credentials that are stored.
pub open spec fn is_plan_for(plan: RegistrationPlan, record: Option<UserRecordView>) -> bool {
    match record {
        None => plan.handle is None && plan.exclude@.len() == 0,
        Some(record) => {
            &&& opt_bytes(plan.handle) == base64url_bytes(record.user_id)
            &&& plan.handle is Some
            &&& plan.handle->0.len() == USER_HANDLE_LEN
            &&& ref_views(plan.exclude@) == record.credentials.filter_map(|c: StoredCredentialView| reference_of(c))
        },
    }
}

/// Whether the handle that is stored in a record can be used: it stands for 64 bytes.
pub open spec fn has_usable_handle(record: UserRecordView) -> bool {
    match base64url_bytes(record.user_id) {
        Some(bytes) => bytes.len() == USER_HANDLE_LEN,
        None => false,
    }
}

/// What a registration of a user starts from, given the credentials that are stored.
/// It fails, with a storage error, only for a known user whose stored handle cannot be
/// used.
pub fn plan_registration(store: &CredentialStore, username: &str) -> (r: Result<RegistrationPlan, AppError>)
    ensures
        match r {
            Ok(plan) => is_plan_for(plan, user_record(store@, username@)),
            Err(e) => e@.kind == ErrorKind::Storage && user_record(store@, username@) is Some && !has_usable_handle(
                user_record(store@, username@)->0,
            ),
        },
{
    match store.get(username) {
        Some(record) => {
            let handle = stored_user_handle(record)?;
            Ok(RegistrationPlan { handle: Some(handle), exclude: excluded_credentials(record) })
        },
        None => Ok(RegistrationPlan { handle: None, exclude: Vec::new() }),
    }
}

/// What the begin of a registration comes to: how what is stored after it relates to
/// what was stored before it, and to what it returns. The credentials are never
/// touched. A success returns an id of the form of a random identifier and stores one
/// challenge under it, of a registration for the user and the relying party, with a
/// state of the ceremony that a finish can read; it touches no other, and where the
/// user has a record, the handle that is stored in it can be used. A relying party or
/// a user name that the verification library does not take is answered as invalid
/// input, and nothing else is. At a relying party that it takes, a user whose stored
/// handle cannot be used is answered with a failure of the storage layer. A failure
/// that is not one of the storage layer stores nothing.
pub open spec fn register_begin_outcome(
    before: Stored,
    after: Stored,
    username: Seq<char>,
    rp_id: Seq<char>,
    r: Result<CeremonyBeginData, AppError>,
) -> bool {
    &&& after.credentials =~= before.credentials
    &&& match r {
        Ok(data) => {
            &&& rp_id_accepted(rp_id) && username_accepted(username) && nickname_accepted(username)
            &&& user_record(before.credentials, username) matches Some(record) ==> has_usable_handle(record)
            &&& is_random_id(data.challenge_id@)
            &&& begun_under(before, after, data.challenge_id@)
            &&& is_begun(after.challenges[data.challenge_id@], ChallengeType::Registration, username, rp_id)
            &&& is_ceremony_state(after.challenges[data.challenge_id@].state, ChallengeType::Registration)
        },
        Err(e) => {
            &&& !rp_id_accepted(rp_id) ==> e@.kind == ErrorKind::InvalidInput
            &&& !username_accepted(username) || !nickname_accepted(username) ==> e@.kind == ErrorKind::InvalidInput
                || is_storage_failure(e@.kind)
            &&& e@.kind == ErrorKind::InvalidInput ==> !rp_id_accepted(rp_id) || !username_accepted(username)
                || !nickname_accepted(username)
            &&& e@.kind == ErrorKind::InvalidInput || e@.kind == ErrorKind::WebAuthn || is_storage_failure(e@.kind)
            &&& rp_id_accepted(rp_id) && (user_record(before.credentials, username) matches Some(record)
                && !has_usable_handle(record)) ==> is_storage_failure(e@.kind)
            &&& !is_storage_failure(e@.kind) ==> after.challenges =~= before.challenges
            &&& differ_in_one_at_most(before.challenges, after.challenges)
        },
    }
}

/// Begins the registration of a new credential for a user. The user keeps the handle
/// and is told to leave out the credentials that the store holds for the name; a user
/// that the store does not know gets a fresh handle. The state of the ceremony is
/// stored under a fresh id, which is returned with the options for the client.
pub fn register_begin<S: StorageProvider>(
    storage: &mut S,
    username: &str,
    rp_id: &str,
    _user_verification: &str,
) -> (r: Result<CeremonyBeginData, AppError>)
    ensures
        register_begin_outcome(state_of(*old(storage)), state_of(*final(storage)), username@, rp_id@, r),
{
    proof {
        lemma_differ_in_one(storage.challenges(), storage.challenges(), Seq::empty());
    }
    let rp = make_rp_id(rp_id)?;
    let store = match storage.load_credentials() {
        Ok(store) => store,
        Err(e) => {
            return Err(e);
        },
    };
    let plan = plan_registration(&store, username)?;
    proof {
        let refs = plan.exclude;
        assert forall|k: int| 0 <= k < refs.len() implies is_credential_id_len((#[trigger] refs@[k]).id@.len())
            && refs@[k].transports < TRANSPORTS_LIMIT by {
            let record = user_record(store@, username@)->0;
            let f = |c: StoredCredentialView| reference_of(c);
            assert(ref_views(refs@)[k] == refs@[k]@);
            assert(record.credentials.filter_map(f).contains(refs@[k]@));
            record.credentials.lemma_filter_map_contains(f, refs@[k]@);
        }
    }
    let handle = match &plan.handle {
        Some(bytes) => user_handle_from_bytes(bytes),
        None => fresh_user_handle(),
    };
    let exclude = descriptors(&plan.exclude);
    let name = match parse_username(username) {
        Ok(name) => name,
        Err(reason) => {
            return Err(AppError::InvalidInput(joined("Invalid username: ", reason.as_str())));
        },
    };
    let display_name = match parse_nickname(username) {
        Ok(name) => name,
        Err(reason) => {
            return Err(AppError::InvalidInput(joined("Invalid display name: ", reason.as_str())));
        },
    };
    let options = passkey_options(&rp, name, display_name, &handle, exclude);
    let (server_state, client_state) = match start_registration(options) {
        Ok(states) => states,
        Err(reason) => {
            return Err(AppError::WebAuthn(reason));
        },
    };
    let state_bytes = match encode_registration_state(&server_state) {
        Ok(bytes) => bytes,
        Err(reason) => {
            return Err(AppError::WebAuthn(joined("Failed to encode server state: ", reason.as_str())));
        },
    };
    let challenge_id = begin_challenge(storage, ChallengeType::Registration, username, rp_id, &state_bytes)?;
    proof {
        let state = storage.challenges()[challenge_id@].state;
        assert(encodes(state, state_bytes@) && state_decodes(ChallengeType::Registration, state_bytes@));
    }
    match registration_client_json(&client_state) {
        Ok(public_key) => Ok(CeremonyBeginData { public_key, challenge_id }),
        Err(reason) => Err(AppError::Json(reason)),
    }
}

/// What a verified registration yields, with the parts that are stored as they are
/// stored.
#[derive(Debug)]
pub struct RegisteredParts {
    pub credential_id: String,
    pub transports: u8,
    pub user_handle: String,
    pub static_state: String,
    pub dynamic_state: String,
    pub backup: BackupState,
    pub user_verified: bool,
    pub sign_count: u32,
}

/// The credential that is stored for a verified registration. A credential counts as
/// eligible for backup unless the authenticator said that it is not.
pub open spec fn stored_credential_of(
    parts: RegisteredParts,
    device_name: Seq<char>,
    created_at: Seq<char>,
) -> StoredCredentialView {
    StoredCredentialView {
        credential_id: parts.credential_id@,
        device_name,
        static_state: parts.static_state@,
        dynamic_state: parts.dynamic_state@,
        user_handle: parts.user_handle@,
        transports: parts.transports,
        created_at,
        last_used_at: None,
        backup_eligible: parts.backup != BackupState::NotEligible,
        user_verified: parts.user_verified,
        sign_count: parts.sign_count,
    }
}

/// The credential that is stored for a verified registration.
pub fn new_stored_credential(parts: RegisteredParts, device_name: &str, created_at: &str) -> (credential:
    StoredCredential)
    ensures
        credential@ == stored_credential_of(parts, device_name@, created_at@),
{
    let backup_eligible = match parts.backup {
        BackupState::NotEligible => false,
        _ => true,
    };
    StoredCredential {
        credential_id: parts.credential_id,
        device_name: device_name.to_owned(),
        static_state: parts.static_state,
        dynamic_state: parts.dynamic_state,
        user_handle: parts.user_handle,
        transports: parts.transports,
        created_at: created_at.to_owned(),
        last_used_at: None,
        backup_eligible,
        user_verified: parts.user_verified,
        sign_count: parts.sign_count,
    }
}

/// Whether `c` is the credential that a finished registration with the outcome `data`
/// stores under the label `device_name`: fresh, never used, with an id by which it
/// can be named to the verification library, with a dynamic state that holds its
/// counter and flags and with a handle of the length of a handle.
pub open spec fn is_registered(c: StoredCredentialView, data: RegisterFinishData, device_name: Seq<char>) -> bool {
    &&& c.credential_id == data.credential_id@
    &&& c.device_name == device_name
    &&& c.created_at == data.created_at@
    &&& c.last_used_at is None
    &&& reference_of(c) is Some
    &&& is_state_of(c.dynamic_state, c.sign_count, c.user_verified, c.backup_eligible)
    &&& base64url_bytes(c.user_handle) matches Some(bytes) && bytes.len() == USER_HANDLE_LEN
    &&& base64url_bytes(c.static_state) is Some
    &&& exists|secs: nat| secs <= u64::MAX && c.created_at == iso8601_text(secs)
}

/// What is answered where a part of a credential is too long to be stored.
fn too_long(part: &str) -> (e: AppError)
    ensures
        e@.kind == ErrorKind::WebAuthn,
{
    AppError::WebAuthn(joined(part, " is too long to be stored"))
}

/// Whether the credentials `after` are the credentials `before` with one more
/// credential in the record of the given user: the one that a finished registration
/// with the outcome `data` stores under the label `device_name`, with an id that no
/// user held before.
pub open spec fn has_registered(
    before: Seq<UserEntryView>,
    after: Seq<UserEntryView>,
    username: Seq<char>,
    data: RegisterFinishData,
    device_name: Seq<char>,
) -> bool {
    exists|c: StoredCredentialView, handle: Seq<char>|
        is_registered(c, data, device_name) && owner_index(before, c.credential_id) is None && after
            =~= #[trigger] with_credential(before, username, handle, c)
}

/// What the finish of a registration comes to: how what is stored after it relates
/// to what was stored before it, and to what it returns. No other challenge is ever
/// touched. A success was owed no failure before the response was verified, has a
/// response whose client data names the given origin, has used the challenge up and
/// has added one credential, fresh, under the given label and with an id that is new
/// to the store, to the record of the challenge's user. A
/// failure keeps the challenge; unless it is one of the storage layer it keeps the
/// credentials too. A step that is to be refused is refused as it is to be, and a
/// step to which a failure is owed before the response is verified fails with a
/// failure of that kind, unless the storage layer fails to read the challenge; both
/// change nothing. Any other failure is one of the verification or of the storage
/// layer.
pub open spec fn register_finish_outcome(
    before: Stored,
    after: Stored,
    challenge_id: Seq<char>,
    origin: Seq<char>,
    device_name: Seq<char>,
    input: Seq<char>,
    r: Result<RegisterFinishData, AppError>,
) -> bool {
    let refusal = finish_refusal(before.challenges, challenge_id, ChallengeType::Registration, origin);
    let early = early_failure(before.challenges, challenge_id, ChallengeType::Registration, origin, input);
    &&& after.challenges.remove(challenge_id) =~= before.challenges.remove(challenge_id)
    &&& match r {
        Ok(data) => {
            &&& refusal is None
            &&& early is None
            &&& !after.challenges.contains_key(challenge_id)
            &&& registration_origin(parsed_registration(input)->0) == origin
            &&& has_registered(
                before.credentials,
                after.credentials,
                before.challenges[challenge_id].username,
                data,
                device_name,
            )
        },
        Err(e) => {
            &&& after.challenges =~= before.challenges
            &&& !is_storage_failure(e@.kind) ==> after.credentials =~= before.credentials
            &&& refusal matches Some(refused) ==> {
                &&& after.credentials =~= before.credentials
                &&& e@ == refused || (is_storage_failure(e@.kind) && before.challenges.contains_key(challenge_id))
            }
            &&& early matches Some(kind) ==> {
                &&& after.credentials =~= before.credentials
                &&& e@.kind == kind || (is_storage_failure(e@.kind) && before.challenges.contains_key(challenge_id))
            }
            &&& early is None ==> e@.kind == ErrorKind::WebAuthn || is_storage_failure(e@.kind)
        },
    }
}

/// Finishes the registration that was begun under `challenge_id`, with the client's
/// response `input`. The challenge must be one of a registration, and the host of the
/// origin must be the relying party that the registration was begun for; only then is
/// the response looked at. A response that the verification library accepts adds a
/// credential to the user's record and uses the challenge up, unless a user holds a
/// credential with the same id already: that is a failure of the verification.
/// Nothing is stored or deleted where the step fails for another reason than the
/// storage layer.
pub fn register_finish<S: StorageProvider>(
    storage: &mut S,
    challenge_id: &str,
    origin_str: &str,
    device_name: &str,
    input: &str,
) -> (r: Result<RegisterFinishData, AppError>)
    ensures
        register_finish_outcome(
            state_of(*old(storage)),
            state_of(*final(storage)),
            challenge_id@,
            origin_str@,
            device_name@,
            input@,
            r,
        ),
{
    let challenge = match storage.load_challenge(challenge_id) {
        Ok(challenge) => challenge,
        Err(e) => {
            return Err(e);
        },
    };
    match check_challenge(&challenge, ChallengeType::Registration, origin_str) {
        Ok(()) => {},
        Err(e) => {
            return Err(e);
        },
    }
    let rp = make_rp_id(challenge.rp_id.as_str())?;
    let state_bytes = match decode_base64url(challenge.state.as_str()) {
        Ok(bytes) => bytes,
        Err(reason) => {
            return Err(AppError::Storage(joined("Failed to decode server state: ", reason.as_str())));
        },
    };
    let server_state = match decode_registration_state(state_bytes.as_slice()) {
        Ok(state) => state,
        Err(reason) => {
            return Err(AppError::Storage(joined("Failed to decode registration state: ", reason.as_str())));
        },
    };
    let registration = match parse_registration(input) {
        Ok(registration) => registration,
        Err(reason) => {
            return Err(AppError::InvalidInput(joined("Invalid client response: ", reason.as_str())));
        },
    };
    let credential = match verify_registration(server_state, &rp, &registration, origin_str, false) {
        Ok(credential) => credential,
        Err(reason) => {
            return Err(AppError::WebAuthn(reason));
        },
    };
    let credential_id = encode_base64url(registered_id(&credential).as_slice());
    let static_state = match try_encode_base64url(registered_static_state(&credential).as_slice()) {
        Some(text) => text,
        None => {
            return Err(too_long("The static state"));
        },
    };
    let dynamic = dynamic_state_data(&registered_dynamic_state(&credential));
    let created_at = now_iso8601();
    let aaguid = format_aaguid(registered_aaguid(&credential).as_slice());
    let handle = encode_base64url(user_handle_bytes(&registered_user_handle(&credential)).as_slice());
    let parts = RegisteredParts {
        credential_id: credential_id.clone(),
        transports: registered_transports(&credential),
        user_handle: handle.clone(),
        static_state,
        dynamic_state: encode_base64url(dynamic.encoded.as_slice()),
        backup: dynamic.backup,
        user_verified: dynamic.user_verified,
        sign_count: dynamic.sign_count,
    };
    proof {
        assert(encodes(parts.dynamic_state@, dynamic.encoded@));
    }
    let stored = new_stored_credential(parts, device_name, created_at.as_str());
    let mut store = match storage.load_credentials() {
        Ok(store) => store,
        Err(e) => {
            return Err(e);
        },
    };
    if store.owner_position(credential_id.as_str()).is_some() {
        return Err(AppError::WebAuthn("The credential is already registered".to_owned()));
    }
    let ghost added = stored@;
    let ghost handle_text = handle@;
    store.add_credential(challenge.username.as_str(), handle, stored);
    match storage.save_credentials(&store) {
        Ok(()) => {},
        Err(e) => {
            return Err(e);
        },
    }
    match storage.delete_challenge(challenge_id) {
        Ok(()) => {},
        Err(e) => {
            return Err(e);
        },
    }
    let data = RegisterFinishData { credential_id, aaguid, created_at };
    proof {
        let username = old(storage).challenges()[challenge_id@].username;
        assert(is_registered(added, data, device_name@));
        assert(storage.credentials() =~= with_credential(old(storage).credentials(), username, handle_text, added));
        assert(has_registered(old(storage).credentials(), storage.credentials(), username, data, device_name@));
    }
    Ok(data)
}

/// A challenge that a finished registration has used up cannot be used again: a
/// second finish under the same id is answered with the id as not found, and changes
/// nothing.
pub proof fn lemma_registration_cannot_be_repeated(
    first: Stored,
    second: Stored,
    third: Stored,
    challenge_id: Seq<char>,
    origin: Seq<char>,
    device_name: Seq<char>,
    input: Seq<char>,
    done: Result<RegisterFinishData, AppError>,
    again_origin: Seq<char>,
    again_device_name: Seq<char>,
    again_input: Seq<char>,
    again: Result<RegisterFinishData, AppError>,
)
    requires
        register_finish_outcome(first, second, challenge_id, origin, device_name, input, done),
        done is Ok,
        register_finish_outcome(second, third, challenge_id, again_origin, again_device_name, again_input, again),
    ensures
        again matches Err(e) && e@ == (ErrorView { kind: ErrorKind::ChallengeNotFound, detail: challenge_id }),
        third.credentials == second.credentials,
        third.challenges == second.challenges,
{
}

/// A finish of a registration whose origin has another host than the relying party
/// that the registration was begun for is refused as coming from a wrong origin,
/// whatever the response is, unless the storage layer fails to read the challenge;
/// and nothing is stored or deleted.
pub proof fn lemma_registration_is_bound_to_its_origin(
    before: Stored,
    after: Stored,
    challenge_id: Seq<char>,
    origin: Seq<char>,
    device_name: Seq<char>,
    input: Seq<char>,
    r: Result<RegisterFinishData, AppError>,
)
    requires
        register_finish_outcome(before, after, challenge_id, origin, device_name, input, r),
        before.challenges.contains_key(challenge_id),
        before.challenges[challenge_id].challenge_type == ChallengeType::Registration,
        host_of(origin) != Some(before.challenges[challenge_id].rp_id),
    ensures
        r matches Err(e) && (e@.kind == ErrorKind::InvalidOrigin || is_storage_failure(e@.kind)),
        after.credentials == before.credentials,
        after.challenges == before.challenges,
{
}

/// A finished registration keeps the ids of the store unique: the credential that it
/// adds has an id that no user held.
pub proof fn lemma_registration_keeps_ids_unique(
    before: Stored,
    after: Stored,
    challenge_id: Seq<char>,
    origin: Seq<char>,
    device_name: Seq<char>,
    input: Seq<char>,
    r: Result<RegisterFinishData, AppError>,
)
    requires
        register_finish_outcome(before, after, challenge_id, origin, device_name, input, r),
        r is Ok,
        ids_unique(before.credentials),
    ensures
        ids_unique(after.credentials),
{
    let username = before.challenges[challenge_id].username;
    let data = r->Ok_0;
    let (c, handle) = choose|c: StoredCredentialView, handle: Seq<char>|
        is_registered(c, data, device_name) && owner_index(before.credentials, c.credential_id) is None
            && after.credentials =~= #[trigger] with_credential(before.credentials, username, handle, c);
    lemma_add_keeps_ids_unique(before.credentials, username, handle, c);
}

/// A user for whom a registration was finished can begin a login: the store then
/// holds a credential for the user, the one that was added as the last, so a login
/// is not refused for want of one.
pub proof fn lemma_registered_user_has_a_credential(
    before: Stored,
    after: Stored,
    challenge_id: Seq<char>,
    origin: Seq<char>,
    device_name: Seq<char>,
    input: Seq<char>,
    r: Result<RegisterFinishData, AppError>,
)
    requires
        register_finish_outcome(before, after, challenge_id, origin, device_name, input, r),
        r is Ok,
    ensures
        ({
            let username = before.challenges[challenge_id].username;
            let held = credentials_of(after.credentials, username);
            &&& held.len() == credentials_of(before.credentials, username).len() + 1
            &&& is_registered(held.last(), r->Ok_0, device_name)
            &&& held.drop_last() == credentials_of(before.credentials, username)
            &&& login_refusal(after.credentials, username) is None
        }),
{
    let username = before.challenges[challenge_id].username;
    let data = r->Ok_0;
    let (c, handle) = choose|c: StoredCredentialView, handle: Seq<char>|
        is_registered(c, data, device_name) && owner_index(before.credentials, c.credential_id) is None
            && after.credentials =~= #[trigger] with_credential(before.credentials, username, handle, c);
    lemma_added_credential_is_held(before.credentials, username, handle, c);
    let held = credentials_of(after.credentials, username);
    assert(held.drop_last() =~= credentials_of(before.credentials, username));
}

/// A registration that is finished right after it was begun is owed no failure for
/// the state of the ceremony: what the begin has stored is the encoded form of a state
/// of a registration, at a relying party that the verification library takes.
pub proof fn lemma_begun_state_can_be_read(
    before: Stored,
    after: Stored,
    username: Seq<char>,
    rp_id: Seq<char>,
    r: Result<CeremonyBeginData, AppError>,
)
    requires
        register_begin_outcome(before, after, username, rp_id, r),
        r is Ok,
    ensures
        ({
            let challenge = after.challenges[r->Ok_0.challenge_id@];
            &&& base64url_bytes(challenge.state) is Some
            &&& state_decodes(ChallengeType::Registration, base64url_bytes(challenge.state)->0)
            &&& rp_id_accepted(challenge.rp_id)
        }),
{
    let challenge = after.challenges[r->Ok_0.challenge_id@];
    let bytes = choose|bytes: Seq<u8>| #[trigger]
        encodes(challenge.state, bytes) && state_decodes(ChallengeType::Registration, bytes);
}

} // verus!
