//! The calls into the verification library `webauthn_rp`, and the values that cross
//! the border. Nothing in this file is proved: each function states what the library
//! documents of the call it makes, and every other file relies on that.

use vstd::prelude::*;
use webauthn_rp::bin::{Decode, Encode};
use webauthn_rp::request::auth::{
    AllowedCredentials, NonDiscoverableAuthenticationClientState, NonDiscoverableAuthenticationServerState,
    NonDiscoverableCredentialRequestOptions,
};
use webauthn_rp::request::register::{
    Nickname, PublicKeyCredentialCreationOptions, RegistrationClientState, RegistrationServerState, UserHandle,
    Username,
};
use webauthn_rp::request::{Credentials, PublicKeyCredentialDescriptor, RpId};
use webauthn_rp::response::auth::Authentication;
use webauthn_rp::response::register::{CompressedPubKey, DynamicState, Registration, StaticState};
use webauthn_rp::{AuthenticatedCredential, RegisteredCredential};

verus! {

/// `webauthn_rp::request::RpId`: the id of a relying party.
#[verifier::external_type_specification]
#[verifier::external_body]
pub struct ExRpId(RpId);

/// `webauthn_rp::request::register::UserHandle`: the handle of a user.
#[verifier::external_type_specification]
#[verifier::external_body]
pub struct ExUserHandle<const LEN: usize>(UserHandle<LEN>);

/// `webauthn_rp::request::register::Username`: a name that the library has taken.
#[verifier::external_type_specification]
#[verifier::external_body]
pub struct ExUsername<'a>(Username<'a>);

/// `webauthn_rp::request::register::Nickname`: a display name that the library has taken.
#[verifier::external_type_specification]
#[verifier::external_body]
pub struct ExNickname<'a>(Nickname<'a>);

/// `webauthn_rp::request::PublicKeyCredentialDescriptor`: a credential named by id and transports.
#[verifier::external_type_specification]
#[verifier::external_body]
#[verifier::reject_recursive_types(T)]
pub struct ExDescriptor<T>(PublicKeyCredentialDescriptor<T>);

/// `webauthn_rp::request::register::PublicKeyCredentialCreationOptions`: what a registration asks of the client.
#[verifier::external_type_specification]
#[verifier::external_body]
pub struct ExCreationOptions<'a, 'b, 'c, 'd, const LEN: usize>(
    PublicKeyCredentialCreationOptions<'a, 'b, 'c, 'd, LEN>,
);

/// `webauthn_rp::request::register::RegistrationServerState`: what the server keeps of a registration.
#[verifier::external_type_specification]
#[verifier::external_body]
pub struct ExRegistrationServerState<const LEN: usize>(RegistrationServerState<LEN>);

/// `webauthn_rp::request::register::RegistrationClientState`: what the client is sent to begin a registration.
#[verifier::external_type_specification]
#[verifier::external_body]
pub struct ExRegistrationClientState<'a, 'b, 'c, 'd, const LEN: usize>(
    RegistrationClientState<'a, 'b, 'c, 'd, LEN>,
);

/// `webauthn_rp::response::register::Registration`: the client's response to a registration.
#[verifier::external_type_specification]
#[verifier::external_body]
pub struct ExRegistration(Registration);

/// `webauthn_rp::RegisteredCredential`: the credential of a verified registration.
#[verifier::external_type_specification]
#[verifier::external_body]
pub struct ExRegisteredCredential<'a, const LEN: usize>(RegisteredCredential<'a, LEN>);

/// `webauthn_rp::request::auth::AllowedCredentials`: the credentials with which a login may be made.
#[verifier::external_type_specification]
#[verifier::external_body]
pub struct ExAllowedCredentials(AllowedCredentials);

/// `webauthn_rp::request::auth::NonDiscoverableCredentialRequestOptions`: what a login asks of the client.
#[verifier::external_type_specification]
#[verifier::external_body]
pub struct ExRequestOptions<'a, 'b>(NonDiscoverableCredentialRequestOptions<'a, 'b>);

/// `webauthn_rp::request::auth::NonDiscoverableAuthenticationServerState`: what the server keeps of a login.
#[verifier::external_type_specification]
#[verifier::external_body]
pub struct ExAuthenticationServerState(NonDiscoverableAuthenticationServerState);

/// `webauthn_rp::request::auth::NonDiscoverableAuthenticationClientState`: what the client is sent to begin a login.
#[verifier::external_type_specification]
#[verifier::external_body]
pub struct ExAuthenticationClientState<'a, 'b>(NonDiscoverableAuthenticationClientState<'a, 'b>);

/// `webauthn_rp::response::auth::Authentication`: the client's response to a login.
#[verifier::external_type_specification]
#[verifier::external_body]
pub struct ExAuthentication<const LEN: usize, const DISCOVERABLE: bool>(Authentication<LEN, DISCOVERABLE>);

/// `webauthn_rp::response::register::StaticState`: the part of a credential that never changes.
#[verifier::external_type_specification]
#[verifier::external_body]
#[verifier::reject_recursive_types(K)]
pub struct ExStaticState<K>(StaticState<K>);

/// `webauthn_rp::response::register::CompressedPubKey`: a public key as it is stored.
#[verifier::external_type_specification]
#[verifier::external_body]
#[verifier::reject_recursive_types(A)]
#[verifier::reject_recursive_types(B)]
#[verifier::reject_recursive_types(C)]
#[verifier::reject_recursive_types(D)]
pub struct ExCompressedPubKey<A, B, C, D>(CompressedPubKey<A, B, C, D>);

/// `webauthn_rp::response::register::DynamicState`: the part of a credential that a login may change.
#[verifier::external_type_specification]
#[verifier::external_body]
pub struct ExDynamicState(DynamicState);

/// `webauthn_rp::AuthenticatedCredential`: a stored credential made ready for a login.
#[verifier::external_type_specification]
#[verifier::external_body]
#[verifier::reject_recursive_types(K)]
pub struct ExAuthenticatedCredential<'a, 'b, const LEN: usize, K>(AuthenticatedCredential<'a, 'b, LEN, K>);

/// The number of bytes of a user handle.
pub const USER_HANDLE_LEN: usize = 64;

/// The number of bytes of an encoded dynamic state.
pub const DYNAMIC_STATE_LEN: usize = 7;

/// The least code that is no set of transports.
pub const TRANSPORTS_LIMIT: u8 = 64;

/// The most credentials for which room is reserved ahead.
pub const CAPACITY_LIMIT: usize = 1024;

/// Whether a credential id may have the given number of bytes.
pub open spec fn is_credential_id_len(n: nat) -> bool {
    16 <= n <= 1023
}

/// Whether one of the 64 characters of a text from position `from` on is a dot.
pub open spec fn has_dot_within(text: Seq<char>, from: int) -> bool {
    exists|j: int| from <= j < from + 64 && #[trigger] text[j] == '.'
}

/// Whether the library takes a text as the id of a relying party: a domain written in
/// ASCII. The text is not empty and holds ASCII alone. Its labels, which dots part,
/// have 1 to 63 characters each; after the last label one more dot may stand. Without
/// that dot the text has 253 characters at most.
pub open spec fn rp_id_accepted(rp_id: Seq<char>) -> bool {
    &&& rp_id.len() >= 1
    &&& forall|i: int| 0 <= i < rp_id.len() ==> #[trigger] rp_id[i] <= '\u{7f}'
    &&& rp_id.len() <= if rp_id.last() == '.' {
        254int
    } else {
        253int
    }
    &&& rp_id[0] != '.'
    &&& forall|i: int| 0 < i < rp_id.len() && rp_id[i - 1] == '.' ==> #[trigger] rp_id[i] != '.'
    &&& forall|i: int| 0 <= i && i + 64 <= rp_id.len() ==> #[trigger] has_dot_within(rp_id, i)
}

/// The client's response to a registration that the library reads from a text; `None`
/// where it reads none from it.
pub uninterp spec fn parsed_registration(input: Seq<char>) -> Option<Registration>;

/// The client's response to a login that the library reads from a text; `None` where
/// it reads none from it.
pub uninterp spec fn parsed_authentication(input: Seq<char>) -> Option<Authentication<64, false>>;

/// The origin that the client data in a response to a registration names, as the
/// verification reads it.
pub uninterp spec fn registration_origin(response: Registration) -> Seq<char>;

/// The origin that the client data in a response to a login names, as the
/// verification reads it.
pub uninterp spec fn authentication_origin(response: Authentication<64, false>) -> Seq<char>;

/// The id of the credential that a response to a login names.
pub uninterp spec fn named_credential(response: Authentication<64, false>) -> Seq<u8>;

/// Whether the authenticator data in a response to a login says that the user was
/// verified, as the verification reads it.
pub uninterp spec fn user_verified_in(response: Authentication<64, false>) -> bool;

/// Whether bytes are the encoded form of what the server keeps of a registration. The
/// library reads such bytes wherever the clock of the machine can hold the time of
/// expiry that they name, and reads no others.
pub uninterp spec fn registration_state_decodes(bytes: Seq<u8>) -> bool;

/// Whether bytes are the encoded form of what the server keeps of a login. The
/// library reads such bytes wherever the clock of the machine can hold the time of
/// expiry that they name, and reads no others.
pub uninterp spec fn authentication_state_decodes(bytes: Seq<u8>) -> bool;

/// Whether the library can read bytes as the part of a credential that never changes.
pub uninterp spec fn static_state_decodes(bytes: Seq<u8>) -> bool;

/// Whether bytes are the encoded form of the part of a credential that a login may
/// change: seven bytes, which are a flag for the verification of the user, a code of
/// the backup, the signature counter in four bytes and a code of the attachment.
pub open spec fn is_dynamic_state(bytes: Seq<u8>) -> bool {
    bytes.len() == DYNAMIC_STATE_LEN && bytes[0] <= 1 && bytes[1] <= 2 && bytes[6] <= 2
}

/// The signature counter in the encoded form of a dynamic state: its third to sixth
/// byte, the lowest first.
pub open spec fn counter_in(bytes: Seq<u8>) -> int {
    bytes[2] + 256 * bytes[3] + 65536 * bytes[4] + 16777216 * bytes[5]
}

/// Whether the encoded form of a dynamic state says that the user was verified.
pub open spec fn verified_in(bytes: Seq<u8>) -> bool {
    bytes[0] == 1
}

/// The code of a backup state in the encoded form of a dynamic state.
pub open spec fn backup_code(backup: BackupState) -> u8 {
    match backup {
        BackupState::NotEligible => 0,
        BackupState::Eligible => 1,
        BackupState::Exists => 2,
    }
}

/// Whether a signature counter has advanced from `previous` to `current` as the
/// verification demands: an authenticator that counted before must have counted on.
pub open spec fn counter_advanced(previous: int, current: int) -> bool {
    previous == 0 || current > previous
}

/// The seven bytes that `DynamicState::encode` gives for a dynamic state.
pub uninterp spec fn dynamic_state_bytes(state: DynamicState) -> Seq<u8>;

/// The dynamic state that an authenticated credential holds.
pub uninterp spec fn held_state(
    credential: AuthenticatedCredential<'_, '_, 64, CompressedPubKey<[u8; 32], [u8; 32], [u8; 48], Vec<u8>>>,
) -> DynamicState;

/// The id and the code of the transports that a descriptor holds.
pub uninterp spec fn descriptor_ref(descriptor: PublicKeyCredentialDescriptor<Vec<u8>>) -> (Seq<u8>, u8);

/// Whether the library takes a text as the name of a user.
pub uninterp spec fn username_accepted(name: Seq<char>) -> bool;

/// Whether the library takes a text as the display name of a user.
pub uninterp spec fn nickname_accepted(name: Seq<char>) -> bool;

/// The ids that a list of allowed credentials holds, in the order in which they were
/// pushed.
pub uninterp spec fn allowed_ids(list: AllowedCredentials) -> Seq<Seq<u8>>;

/// Whether and how far a credential is backed up.
#[derive(Clone, Copy, Debug, PartialEq, Eq, Structural)]
pub enum BackupState {
    NotEligible,
    Eligible,
    Exists,
}

/// The part of a credential that an authentication may change, as plain values, with
/// its encoded form.
#[derive(Debug)]
pub struct DynamicStateData {
    pub user_verified: bool,
    pub backup: BackupState,
    pub sign_count: u32,
    pub encoded: Vec<u8>,
}

/// `AsciiDomain::try_from` on an owned copy of the text, the domain then made an
/// `RpId::Domain`. The contract says which texts are taken, as the source has it: the
/// empty text, a single dot, a text that is too long, an empty label, a label of more
/// than 63 bytes and a byte outside of ASCII are refused, and nothing else is. A
/// refusal is handed on as its message.
#[verifier::external_body]
pub(crate) fn parse_rp_id(rp_id: &str) -> (r: Result<RpId, String>)
    ensures
        r is Ok <==> rp_id_accepted(rp_id@),
{
    webauthn_rp::request::AsciiDomain::try_from(rp_id.to_owned()).map(RpId::Domain).map_err(|e| e.to_string())
}

/// `Username::try_from` on a text. Whether the text is taken depends on the text alone.
#[verifier::external_body]
pub(crate) fn parse_username<'a>(name: &'a str) -> (r: Result<Username<'a>, String>)
    ensures
        r is Ok <==> username_accepted(name@),
{
    Username::try_from(name).map_err(|e| e.to_string())
}

/// `Nickname::try_from` on a text. Whether the text is taken depends on the text alone.
#[verifier::external_body]
pub(crate) fn parse_nickname<'a>(name: &'a str) -> (r: Result<Nickname<'a>, String>)
    ensures
        r is Ok <==> nickname_accepted(name@),
{
    Nickname::try_from(name).map_err(|e| e.to_string())
}

/// `UserHandle::<64>::new`: a handle of random bytes.
#[verifier::external_body]
pub(crate) fn fresh_user_handle() -> (handle: UserHandle<64>) {
    UserHandle::<64>::new()
}

/// `UserHandle::<64>::decode`, which takes any 64 bytes.
#[verifier::external_body]
pub(crate) fn user_handle_from_bytes(bytes: &Vec<u8>) -> (handle: UserHandle<64>)
    requires
        bytes.len() == USER_HANDLE_LEN,
{
    let mut array = [0u8; 64];
    array.copy_from_slice(bytes.as_slice());
    match UserHandle::<64>::decode(array) {
        Ok(handle) => handle,
        Err(never) => match never {},
    }
}

/// `UserHandle::encode`: the 64 bytes of a handle.
#[verifier::external_body]
pub(crate) fn user_handle_bytes(handle: &UserHandle<64>) -> (bytes: Vec<u8>)
    ensures
        bytes.len() == USER_HANDLE_LEN,
{
    match handle.encode() {
        Ok(array) => array.to_vec(),
        Err(never) => match never {},
    }
}

/// `CredentialId::<&[u8]>::decode`, asked only whether it takes the bytes: it takes
/// 16 to 1023 of them. A refusal is handed on as its message.
#[verifier::external_body]
pub(crate) fn check_credential_id(id: &[u8]) -> (r: Result<(), String>)
    ensures
        r is Ok <==> is_credential_id_len(id@.len()),
{
    webauthn_rp::response::CredentialId::<&[u8]>::decode(id).map(|_| ()).map_err(|e| e.to_string())
}

/// `AuthTransports::decode`, asked only whether it takes the code: it takes the codes
/// in which no bit but the lowest six is set.
#[verifier::external_body]
pub(crate) fn transports_accepted(code: u8) -> (accepted: bool)
    ensures
        accepted == (code < TRANSPORTS_LIMIT),
{
    webauthn_rp::response::AuthTransports::decode(code).is_ok()
}

/// A `PublicKeyCredentialDescriptor` of an id and a set of transports, both made with
/// their `decode`, which keeps the bytes and the code as they are. The calls fail on
/// an id or a code that `decode` does not take.
#[verifier::external_body]
pub(crate) fn credential_descriptor(id: Vec<u8>, transports: u8) -> (descriptor: PublicKeyCredentialDescriptor<
    Vec<u8>,
>)
    requires
        is_credential_id_len(id@.len()),
        transports < TRANSPORTS_LIMIT,
    ensures
        descriptor_ref(descriptor) == (id@, transports),
{
    PublicKeyCredentialDescriptor {
        id: webauthn_rp::response::CredentialId::<Vec<u8>>::decode(id).unwrap(),
        transports: webauthn_rp::response::AuthTransports::decode(transports).unwrap(),
    }
}

/// `PublicKeyCredentialCreationOptions::passkey` for a user whose display name is
/// given beside the name. It draws the random challenge of the ceremony.
#[verifier::external_body]
pub(crate) fn passkey_options<'a>(
    rp: &'a RpId,
    name: Username<'a>,
    display_name: Nickname<'a>,
    id: &'a UserHandle<64>,
    exclude: Vec<PublicKeyCredentialDescriptor<Vec<u8>>>,
) -> (options: PublicKeyCredentialCreationOptions<'a, 'a, 'a, 'a, 64>) {
    let user = webauthn_rp::request::register::PublicKeyCredentialUserEntity {
        name,
        id,
        display_name: Some(display_name),
    };
    PublicKeyCredentialCreationOptions::passkey(rp, user, exclude)
}

/// `PublicKeyCredentialCreationOptions::start_ceremony`. It reads the clock to set
/// the time at which the ceremony expires. A refusal is handed on as its message.
#[verifier::external_body]
pub(crate) fn start_registration<'a>(options: PublicKeyCredentialCreationOptions<'a, 'a, 'a, 'a, 64>) -> (r: Result<
    (RegistrationServerState<64>, RegistrationClientState<'a, 'a, 'a, 'a, 64>),
    String,
>) {
    options.start_ceremony().map_err(|e| e.to_string())
}

/// `RegistrationServerState::encode`. What it gives is the encoded form of a state,
/// made to be read again by `decode`. A failure is handed on as its message.
#[verifier::external_body]
pub(crate) fn encode_registration_state(state: &RegistrationServerState<64>) -> (r: Result<Vec<u8>, String>)
    ensures
        r matches Ok(bytes) ==> registration_state_decodes(bytes@),
{
    state.encode().map_err(|e| e.to_string())
}

/// `RegistrationServerState::<64>::decode`. It reads nothing but the encoded form of a
/// state; whether it reads that depends on the range of the machine's clock too. A
/// failure is handed on as its message.
#[verifier::external_body]
pub(crate) fn decode_registration_state(bytes: &[u8]) -> (r: Result<RegistrationServerState<64>, String>)
    ensures
        r is Ok ==> registration_state_decodes(bytes@),
{
    RegistrationServerState::<64>::decode(bytes).map_err(|e| e.to_string())
}

/// `serde_json::to_string` on what the client is sent to begin a registration.
#[verifier::external_body]
pub(crate) fn registration_client_json(state: &RegistrationClientState<'_, '_, '_, '_, 64>) -> (r: Result<
    String,
    String,
>) {
    serde_json::to_string(state).map_err(|e| e.to_string())
}

/// `Registration::from_json_relaxed` on the bytes of a text. What it reads depends on
/// the text alone. A failure is handed on as its message.
#[verifier::external_body]
pub(crate) fn parse_registration(input: &str) -> (r: Result<Registration, String>)
    ensures
        match r {
            Ok(response) => parsed_registration(input@) == Some(response),
            Err(_) => parsed_registration(input@) is None,
        },
{
    Registration::from_json_relaxed(input.as_bytes()).map_err(|e| e.to_string())
}

/// `RegistrationServerState::verify` with one allowed origin; the other options are
/// the library's defaults. It reads the clock. A response that it accepts names the
/// allowed origin in its client data. A refusal is handed on as its message.
#[verifier::external_body]
pub(crate) fn verify_registration<'a>(
    state: RegistrationServerState<64>,
    rp: &RpId,
    response: &'a Registration,
    origin: &str,
    error_on_unsolicited_extensions: bool,
) -> (r: Result<RegisteredCredential<'a, 64>, String>)
    ensures
        r is Ok ==> registration_origin(*response) == origin@,
{
    let origins = [origin.to_owned()];
    let options = webauthn_rp::request::register::RegistrationVerificationOptions::<String, String> {
        allowed_origins: &origins,
        error_on_unsolicited_extensions,
        ..Default::default()
    };
    state.verify(rp, response, &options).map_err(|e| e.to_string())
}

/// `RegisteredCredential::id`, as bytes: a `CredentialId`, which is made up of 16 to
/// 1023 bytes.
#[verifier::external_body]
pub(crate) fn registered_id(credential: &RegisteredCredential<'_, 64>) -> (id: Vec<u8>)
    ensures
        is_credential_id_len(id@.len()),
{
    credential.id().as_ref().to_vec()
}

/// `RegisteredCredential::transports`, as the code that `encode` gives.
#[verifier::external_body]
pub(crate) fn registered_transports(credential: &RegisteredCredential<'_, 64>) -> (code: u8) {
    match credential.transports().encode() {
        Ok(code) => code,
        Err(never) => match never {},
    }
}

/// `RegisteredCredential::user_id`, copied.
#[verifier::external_body]
pub(crate) fn registered_user_handle(credential: &RegisteredCredential<'_, 64>) -> (handle: UserHandle<64>) {
    *credential.user_id()
}

/// `RegisteredCredential::static_state`, as the bytes that `encode` gives.
#[verifier::external_body]
pub(crate) fn registered_static_state(credential: &RegisteredCredential<'_, 64>) -> (bytes: Vec<u8>) {
    match credential.static_state().encode() {
        Ok(bytes) => bytes,
        Err(never) => match never {},
    }
}

/// `RegisteredCredential::dynamic_state`.
#[verifier::external_body]
pub(crate) fn registered_dynamic_state(credential: &RegisteredCredential<'_, 64>) -> (state: DynamicState) {
    credential.dynamic_state()
}

/// The identifier of the authenticator's model in `RegisteredCredential::metadata`,
/// as bytes.
#[verifier::external_body]
pub(crate) fn registered_aaguid(credential: &RegisteredCredential<'_, 64>) -> (bytes: Vec<u8>) {
    credential.metadata().aaguid.data().to_vec()
}

/// The fields of a `DynamicState` with what `DynamicState::encode` gives for it: the
/// encoded form holds the flag, the code of the backup and the counter of the fields.
#[verifier::external_body]
pub(crate) fn dynamic_state_data(state: &DynamicState) -> (data: DynamicStateData)
    ensures
        data.encoded@ == dynamic_state_bytes(*state),
        is_dynamic_state(data.encoded@),
        verified_in(data.encoded@) == data.user_verified,
        data.encoded@[1] == backup_code(data.backup),
        counter_in(data.encoded@) == data.sign_count,
{
    DynamicStateData {
        user_verified: state.user_verified,
        backup: match state.backup {
            webauthn_rp::response::Backup::NotEligible => BackupState::NotEligible,
            webauthn_rp::response::Backup::Eligible => BackupState::Eligible,
            webauthn_rp::response::Backup::Exists => BackupState::Exists,
        },
        sign_count: state.sign_count,
        encoded: match state.encode() {
            Ok(array) => array.to_vec(),
            Err(never) => match never {},
        },
    }
}

/// `AllowedCredentials::with_capacity`: an empty list.
#[verifier::external_body]
pub(crate) fn allowed_with_capacity(capacity: usize) -> (list: AllowedCredentials)
    requires
        capacity <= CAPACITY_LIMIT,
    ensures
        allowed_ids(list) == Seq::<Seq<u8>>::empty(),
{
    AllowedCredentials::with_capacity(capacity)
}

/// `AllowedCredentials::push` of the credential with the given id and transports. A
/// credential whose id the list holds already is not added.
#[verifier::external_body]
pub(crate) fn allowed_push(list: &mut AllowedCredentials, id: Vec<u8>, transports: u8) -> (added: bool)
    requires
        is_credential_id_len(id@.len()),
        transports < TRANSPORTS_LIMIT,
    ensures
        added == !allowed_ids(*old(list)).contains(id@),
        allowed_ids(*final(list)) == if added {
            allowed_ids(*old(list)).push(id@)
        } else {
            allowed_ids(*old(list))
        },
{
    let descriptor = PublicKeyCredentialDescriptor {
        id: webauthn_rp::response::CredentialId::<Vec<u8>>::decode(id).unwrap(),
        transports: webauthn_rp::response::AuthTransports::decode(transports).unwrap(),
    };
    list.push(descriptor.into())
}

/// `NonDiscoverableCredentialRequestOptions::second_factor`, which refuses an empty
/// list and no other. It draws the random challenge of the ceremony. The refusal is
/// handed on as its message.
#[verifier::external_body]
pub(crate) fn second_factor_options<'a>(rp: &'a RpId, allowed: AllowedCredentials) -> (r: Result<
    NonDiscoverableCredentialRequestOptions<'a, 'a>,
    String,
>)
    ensures
        r is Ok <==> allowed_ids(allowed).len() > 0,
{
    NonDiscoverableCredentialRequestOptions::second_factor(rp, allowed).map_err(|e| e.to_string())
}

/// `NonDiscoverableCredentialRequestOptions::start_ceremony`. It reads the clock to
/// set the time at which the ceremony expires. A refusal is handed on as its message.
#[verifier::external_body]
pub(crate) fn start_authentication<'a>(options: NonDiscoverableCredentialRequestOptions<'a, 'a>) -> (r: Result<
    (NonDiscoverableAuthenticationServerState, NonDiscoverableAuthenticationClientState<'a, 'a>),
    String,
>) {
    options.start_ceremony().map_err(|e| e.to_string())
}

/// `NonDiscoverableAuthenticationServerState::encode`. What it gives is the encoded
/// form of a state, made to be read again by `decode`. A failure is handed on as its
/// message.
#[verifier::external_body]
pub(crate) fn encode_authentication_state(state: &NonDiscoverableAuthenticationServerState) -> (r: Result<
    Vec<u8>,
    String,
>)
    ensures
        r matches Ok(bytes) ==> authentication_state_decodes(bytes@),
{
    state.encode().map_err(|e| e.to_string())
}

/// `NonDiscoverableAuthenticationServerState::decode`. It reads nothing but the
/// encoded form of a state; whether it reads that depends on the range of the
/// machine's clock too. A failure is handed on as its message.
#[verifier::external_body]
pub(crate) fn decode_authentication_state(bytes: &[u8]) -> (r: Result<
    NonDiscoverableAuthenticationServerState,
    String,
>)
    ensures
        r is Ok ==> authentication_state_decodes(bytes@),
{
    NonDiscoverableAuthenticationServerState::decode(bytes).map_err(|e| e.to_string())
}

/// `serde_json::to_string` on what the client is sent to begin an authentication.
#[verifier::external_body]
pub(crate) fn authentication_client_json(state: &NonDiscoverableAuthenticationClientState<'_, '_>) -> (r: Result<
    String,
    String,
>) {
    serde_json::to_string(state).map_err(|e| e.to_string())
}

/// `Authentication::<64, false>::from_json_relaxed` on the bytes of a text. What it
/// reads depends on the text alone. A failure is handed on as its message.
#[verifier::external_body]
pub(crate) fn parse_authentication(input: &str) -> (r: Result<Authentication<64, false>, String>)
    ensures
        match r {
            Ok(response) => parsed_authentication(input@) == Some(response),
            Err(_) => parsed_authentication(input@) is None,
        },
{
    Authentication::<64, false>::from_json_relaxed(input.as_bytes()).map_err(|e| e.to_string())
}

/// `Authentication::raw_id`, as bytes: a `CredentialId`, which is made up of 16 to
/// 1023 bytes.
#[verifier::external_body]
pub(crate) fn response_credential_id(response: &Authentication<64, false>) -> (id: Vec<u8>)
    ensures
        id@ == named_credential(*response),
        is_credential_id_len(id@.len()),
{
    response.raw_id().as_ref().to_vec()
}

/// `StaticState::decode` for compressed keys. Whether it can read the bytes depends on
/// the bytes alone. A failure is handed on as its message.
#[verifier::external_body]
pub(crate) fn decode_static_state(bytes: &[u8]) -> (r: Result<
    StaticState<CompressedPubKey<[u8; 32], [u8; 32], [u8; 48], Vec<u8>>>,
    String,
>)
    ensures
        r is Ok <==> static_state_decodes(bytes@),
{
    StaticState::decode(bytes).map_err(|e| e.to_string())
}

/// `DynamicState::decode` on seven bytes. It reads a flag that is 0 or 1 and two
/// codes that are 2 at most, with any counter between them, and refuses other bytes;
/// the state that it reads is the one that `DynamicState::encode` gives these bytes
/// for. A failure is handed on as its message.
#[verifier::external_body]
pub(crate) fn decode_dynamic_state(bytes: &Vec<u8>) -> (r: Result<DynamicState, String>)
    requires
        bytes.len() == DYNAMIC_STATE_LEN,
    ensures
        r is Ok <==> is_dynamic_state(bytes@),
        r matches Ok(state) ==> dynamic_state_bytes(state) == bytes@,
{
    let mut array = [0u8; 7];
    array.copy_from_slice(bytes.as_slice());
    DynamicState::decode(array).map_err(|e| e.to_string())
}

/// `AuthenticatedCredential::new` for the credential that a response names. The
/// credential holds the dynamic state that it was made with. A refusal is handed on as
/// its message.
#[verifier::external_body]
pub(crate) fn authenticated_credential<'a>(
    response: &'a Authentication<64, false>,
    user: &'a UserHandle<64>,
    static_state: StaticState<CompressedPubKey<[u8; 32], [u8; 32], [u8; 48], Vec<u8>>>,
    dynamic_state: DynamicState,
) -> (r: Result<
    AuthenticatedCredential<'a, 'a, 64, CompressedPubKey<[u8; 32], [u8; 32], [u8; 48], Vec<u8>>>,
    String,
>)
    ensures
        r matches Ok(credential) ==> held_state(credential) == dynamic_state,
{
    AuthenticatedCredential::new(response.raw_id(), user, static_state, dynamic_state).map_err(|e| e.to_string())
}

/// `NonDiscoverableAuthenticationServerState::verify` with one allowed origin; the
/// options not given here are the library's defaults, among them that a signature
/// counter which does not advance is refused. It reads the clock and may change the
/// dynamic state of the credential. A response that it accepts names the allowed
/// origin in its client data; the counter that the credential then holds has advanced
/// from the one that it held; and the credential then counts the user as verified
/// where it did before, or where `update_uv` is set and the response says so, and
/// nowhere else. A refusal is handed on as its message.
#[verifier::external_body]
pub(crate) fn verify_authentication<'a>(
    state: NonDiscoverableAuthenticationServerState,
    rp: &RpId,
    response: &'a Authentication<64, false>,
    credential: &mut AuthenticatedCredential<'_, '_, 64, CompressedPubKey<[u8; 32], [u8; 32], [u8; 48], Vec<u8>>>,
    origin: &str,
    error_on_unsolicited_extensions: bool,
    update_uv: bool,
) -> (r: Result<bool, String>)
    ensures
        r is Ok ==> authentication_origin(*response) == origin@,
        r is Ok ==> counter_advanced(
            counter_in(dynamic_state_bytes(held_state(*old(credential)))),
            counter_in(dynamic_state_bytes(held_state(*final(credential)))),
        ),
        r is Ok ==> verified_in(dynamic_state_bytes(held_state(*final(credential)))) == (verified_in(
            dynamic_state_bytes(held_state(*old(credential))),
        ) || (update_uv && user_verified_in(*response))),
{
    let origins = [origin.to_owned()];
    let options = webauthn_rp::request::auth::AuthenticationVerificationOptions::<String, String> {
        allowed_origins: &origins,
        error_on_unsolicited_extensions,
        update_uv,
        ..Default::default()
    };
    state.verify(rp, response, credential, &options).map_err(|e| e.to_string())
}

/// `AuthenticatedCredential::dynamic_state`.
#[verifier::external_body]
pub(crate) fn authenticated_dynamic_state(
    credential: &AuthenticatedCredential<'_, '_, 64, CompressedPubKey<[u8; 32], [u8; 32], [u8; 48], Vec<u8>>>,
) -> (state: DynamicState)
    ensures
        state == held_state(*credential),
{
    credential.dynamic_state()
}

} // verus!
