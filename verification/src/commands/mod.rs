//! The commands, one module per group, and what the two ceremonies share.

pub mod credential;
pub mod health;
pub mod login;
pub mod register;

use vstd::prelude::*;
use webauthn_rp::request::RpId;
use crate::calendar::iso8601_text;
use crate::cli::{Cli, Commands, CommandsView, CredentialAction, CredentialActionView};
use crate::codec::{
    base64url_bytes, base64url_text, encoded_len, is_base64url, try_encode_base64url, MAX_ENCODABLE_LEN,
};
use crate::errors::{AppError, ErrorKind, ErrorView, is_storage_failure};
use crate::schemas::{CeremonyBeginData, CommandOutput};
use crate::storage::{
    now_iso8601, state_of, ChallengeState, ChallengeStateView, ChallengeType, StorageProvider, Stored,
};
use crate::text::{chars_of, text_eq};
use crate::webauthn::{
    authentication_state_decodes, counter_in, is_dynamic_state, parse_rp_id, verified_in, parsed_authentication, parsed_registration,
    registration_state_decodes, rp_id_accepted,
};

verus! {

/// Two texts, one after the other.
pub fn joined(first: &str, second: &str) -> (text: String)
    ensures
        text@ == first@ + second@,
{
    let mut text = first.to_owned();
    text.append(second);
    text
}

/// What follows the scheme in an origin with the scheme `https` or `http`.
pub open spec fn after_scheme(origin: Seq<char>) -> Option<Seq<char>> {
    if "https://"@.is_prefix_of(origin) {
        Some(origin.skip(8))
    } else if "http://"@.is_prefix_of(origin) {
        Some(origin.skip(7))
    } else {
        None
    }
}

/// What stands before the first `/` of a text: all of it where there is none.
pub open spec fn authority_of(rest: Seq<char>) -> Seq<char> {
    match rest.index_of_first('/') {
        Some(k) => rest.take(k),
        None => rest,
    }
}

/// What stands before the last `:` of a text: all of it where there is none.
pub open spec fn without_port(authority: Seq<char>) -> Seq<char> {
    match authority.index_of_last(':') {
        Some(k) => authority.take(k),
        None => authority,
    }
}

/// The host of an origin: what stands between the scheme and the port or path. An
/// origin with another scheme than `https` or `http` has none.
pub open spec fn host_of(origin: Seq<char>) -> Option<Seq<char>> {
    match after_scheme(origin) {
        Some(rest) => Some(without_port(authority_of(rest))),
        None => None,
    }
}

/// Whether `prefix` opens `text`.
fn starts_with(text: &Vec<char>, prefix: &Vec<char>) -> (b: bool)
    ensures
        b == prefix@.is_prefix_of(text@),
{
    if prefix.len() > text.len() {
        return false;
    }
    let mut i: usize = 0;
    while i < prefix.len()
        invariant
            i <= prefix.len() <= text.len(),
            forall|j: int| 0 <= j < i ==> prefix@[j] == text@[j],
        decreases prefix.len() - i,
    {
        if prefix[i] != text[i] {
            return false;
        }
        i += 1;
    }
    true
}

/// The host of an origin.
pub fn extract_host(origin: &str) -> (host: Option<&str>)
    ensures
        match host {
            Some(h) => host_of(origin@) == Some(h@),
            None => host_of(origin@) is None,
        },
{
    let chars = chars_of(origin);
    proof {
        reveal_strlit("https://");
        reveal_strlit("http://");
    }
    let start: usize = if starts_with(&chars, &chars_of("https://")) {
        8
    } else if starts_with(&chars, &chars_of("http://")) {
        7
    } else {
        return None;
    };
    let ghost rest = origin@.skip(start as int);
    assert(after_scheme(origin@) == Some(rest));
    let mut end: usize = start;
    while end < chars.len() && chars[end] != '/'
        invariant
            start <= end <= chars.len(),
            forall|j: int| start <= j < end ==> chars@[j] != '/',
        decreases chars.len() - end,
    {
        end += 1;
    }
    let ghost authority = rest.take(end - start);
    proof {
        rest.index_of_first_ensures('/');
        if end < chars.len() {
            assert(rest[end - start] == '/');
            assert(rest.contains('/'));
            let k = rest.index_of_first('/').unwrap();
            assert(rest[k] == chars@[start + k]);
            assert(k == end - start);
        } else {
            if rest.contains('/') {
                let k = choose|k: int| 0 <= k < rest.len() && rest[k] == '/';
                assert(chars@[start + k] != '/');
            }
            assert(rest.take(end - start) =~= rest);
        }
        assert(authority_of(rest) == authority);
    }
    let mut cut: usize = end;
    let mut found: bool = false;
    while cut > start && !found
        invariant
            start <= cut <= end <= chars.len(),
            !found ==> forall|j: int| cut <= j < end ==> chars@[j] != ':',
            found ==> cut < end && chars@[cut as int] == ':' && forall|j: int| cut < j < end ==> chars@[j] != ':',
        decreases cut - start + if found { 0int } else { 1int },
    {
        cut -= 1;
        if chars[cut] == ':' {
            found = true;
        }
    }
    let stop: usize = if found {
        cut
    } else {
        end
    };
    proof {
        authority.index_of_last_ensures(':');
        if found {
            assert(authority[cut - start] == ':');
            assert(authority.contains(':'));
            let k = authority.index_of_last(':').unwrap();
            assert(authority[k] == chars@[start + k]);
            assert(k == cut - start);
        } else {
            if authority.contains(':') {
                let k = choose|k: int| 0 <= k < authority.len() && authority[k] == ':';
                assert(chars@[start + k] != ':');
            }
            assert(authority.take(end - start) =~= authority);
        }
        assert(origin@.subrange(start as int, stop as int) =~= without_port(authority));
    }
    Some(origin.substring_char(start, stop))
}

/// The relying party of the given id, as the verification library knows it.
pub fn make_rp_id(rp_id: &str) -> (r: Result<RpId, AppError>)
    ensures
        r is Ok <==> rp_id_accepted(rp_id@),
        r matches Err(e) ==> e@.kind == ErrorKind::InvalidInput && "Invalid RP ID: "@.is_prefix_of(e@.detail),
{
    match parse_rp_id(rp_id) {
        Ok(rp) => Ok(rp),
        Err(reason) => Err(AppError::InvalidInput(joined("Invalid RP ID: ", reason.as_str()))),
    }
}

/// What a challenge of the wrong kind is answered with.
pub open spec fn wrong_kind_detail(expected: ChallengeType) -> Seq<char> {
    match expected {
        ChallengeType::Registration => "Challenge is not a registration challenge"@,
        ChallengeType::Authentication => "Challenge is not an authentication challenge"@,
    }
}

/// Why a finish step may not go on with a challenge: the challenge belongs to the
/// other ceremony, or the origin's host is not the relying party that the ceremony was
/// begun for. `None` where it may go on.
pub open spec fn challenge_refusal(
    challenge: ChallengeStateView,
    expected: ChallengeType,
    origin: Seq<char>,
) -> Option<ErrorView> {
    if challenge.challenge_type != expected {
        Some(ErrorView { kind: ErrorKind::InvalidInput, detail: wrong_kind_detail(expected) })
    } else {
        match host_of(origin) {
            None => Some(ErrorView { kind: ErrorKind::InvalidOrigin, detail: "Origin has no host"@ }),
            Some(host) => if host != challenge.rp_id {
                Some(
                    ErrorView {
                        kind: ErrorKind::InvalidOrigin,
                        detail: "Origin "@ + origin + " does not match RP ID "@ + challenge.rp_id,
                    },
                )
            } else {
                None
            },
        }
    }
}

/// Why a finish step may not go on, given all that is stored: there is no challenge
/// under the id, or the challenge refuses.
pub open spec fn finish_refusal(
    challenges: Map<Seq<char>, ChallengeStateView>,
    challenge_id: Seq<char>,
    expected: ChallengeType,
    origin: Seq<char>,
) -> Option<ErrorView> {
    if !challenges.contains_key(challenge_id) {
        Some(ErrorView { kind: ErrorKind::ChallengeNotFound, detail: challenge_id })
    } else {
        challenge_refusal(challenges[challenge_id], expected, origin)
    }
}

/// Decides whether a finish step may go on with the challenge that was loaded for it.
pub fn check_challenge(challenge: &ChallengeState, expected: ChallengeType, origin: &str) -> (r: Result<
    (),
    AppError,
>)
    ensures
        match r {
            Ok(()) => challenge_refusal(challenge@, expected, origin@) is None,
            Err(e) => challenge_refusal(challenge@, expected, origin@) == Some(e@),
        },
{
    if challenge.challenge_type != expected {
        let detail = match expected {
            ChallengeType::Registration => "Challenge is not a registration challenge",
            ChallengeType::Authentication => "Challenge is not an authentication challenge",
        };
        return Err(AppError::InvalidInput(detail.to_owned()));
    }
    match extract_host(origin) {
        None => Err(AppError::InvalidOrigin("Origin has no host".to_owned())),
        Some(host) => {
            if !text_eq(host, challenge.rp_id.as_str()) {
                let mut detail = joined("Origin ", origin);
                detail.append(" does not match RP ID ");
                detail.append(challenge.rp_id.as_str());
                Err(AppError::InvalidOrigin(detail))
            } else {
                Ok(())
            }
        },
    }
}

/// A finish step whose origin has another host than the relying party of its
/// challenge is refused as coming from a wrong origin, whatever else it brings.
pub proof fn lemma_foreign_origin_is_refused(
    challenge: ChallengeStateView,
    origin: Seq<char>,
)
    requires
        host_of(origin) != Some(challenge.rp_id),
    ensures
        challenge_refusal(challenge, challenge.challenge_type, origin) matches Some(refusal) && refusal.kind
            == ErrorKind::InvalidOrigin,
{
}

/// Whether a character is a digit of the lower-case hexadecimal notation.
pub open spec fn is_lower_hex_digit(c: char) -> bool {
    ('0' <= c && c <= '9') || ('a' <= c && c <= 'f')
}

/// Whether a text has the form of a random identifier: 32 lower-case hexadecimal
/// digits in groups of 8, 4, 4, 4 and 12 with a hyphen between the groups, the first
/// digit of the third group a `4`, for the version, and the first digit of the fourth
/// group one of `8`, `9`, `a` and `b`, for the variant.
pub open spec fn is_random_id(text: Seq<char>) -> bool {
    &&& text.len() == 36
    &&& forall|i: int|
        0 <= i < 36 ==> if i == 8 || i == 13 || i == 18 || i == 23 {
            #[trigger] text[i] == '-'
        } else {
            is_lower_hex_digit(text[i])
        }
    &&& text[14] == '4'
    &&& text[19] == '8' || text[19] == '9' || text[19] == 'a' || text[19] == 'b'
}

/// `uuid::Uuid::new_v4`, as the text that its `to_string` gives. Which identifier it
/// is depends on chance; every one is of version 4 and of the variant of RFC 4122, and
/// is written in lower case with hyphens.
#[verifier::external_body]
fn random_uuid() -> (id: String)
    ensures
        is_random_id(id@),
{
    uuid::Uuid::new_v4().to_string()
}

/// A fresh id for a challenge, drawn at random. It has the form of a random
/// identifier, so it is not empty and holds nothing that would lead out of a
/// directory where it is used as the name of a file.
pub fn new_challenge_id() -> (id: String)
    ensures
        is_random_id(id@),
        id@.len() > 0,
        !id@.contains('/'),
        !id@.contains('.'),
{
    let id = random_uuid();
    proof {
        if id@.contains('/') {
            let i = choose|i: int| 0 <= i < id@.len() && id@[i] == '/';
            assert(id@[i] == '-' || is_lower_hex_digit(id@[i]));
        }
        if id@.contains('.') {
            let i = choose|i: int| 0 <= i < id@.len() && id@[i] == '.';
            assert(id@[i] == '-' || is_lower_hex_digit(id@[i]));
        }
    }
    id
}

/// Whether a stored challenge is what the begin of a ceremony of the given kind,
/// for the given user and relying party, stores: it names the three and was made at
/// some point in time.
pub open spec fn is_begun(
    challenge: ChallengeStateView,
    kind: ChallengeType,
    username: Seq<char>,
    rp_id: Seq<char>,
) -> bool {
    &&& challenge.challenge_type == kind
    &&& challenge.username == username
    &&& challenge.rp_id == rp_id
    &&& exists|secs: nat| secs <= u64::MAX && challenge.created_at == iso8601_text(secs)
}

/// Whether at most the challenge of one id differs between what was stored before and
/// what is stored after.
pub open spec fn differ_in_one_at_most(
    before: Map<Seq<char>, ChallengeStateView>,
    after: Map<Seq<char>, ChallengeStateView>,
) -> bool {
    exists|id: Seq<char>| #[trigger] after.remove(id) =~= before.remove(id)
}

/// What differs at one id at most differs in one at most.
pub proof fn lemma_differ_in_one(
    before: Map<Seq<char>, ChallengeStateView>,
    after: Map<Seq<char>, ChallengeStateView>,
    id: Seq<char>,
)
    requires
        after.remove(id) =~= before.remove(id),
    ensures
        differ_in_one_at_most(before, after),
{
}

/// Whether `state` is the storage encoding of `bytes`: it stands for them, is made of
/// the alphabet of the encoding alone, without padding, and has four characters for
/// every three bytes, the last group cut short.
pub open spec fn encodes(state: Seq<char>, bytes: Seq<u8>) -> bool {
    &&& state == base64url_text(bytes)
    &&& base64url_bytes(state) == Some(bytes)
    &&& is_base64url(state)
    &&& state.len() == encoded_len(bytes.len())
}

/// Whether a text is the storage encoding of a dynamic state that holds the given
/// signature counter and flags.
pub open spec fn is_state_of(dynamic_state: Seq<char>, sign_count: u32, user_verified: bool, backup_eligible: bool) -> bool {
    exists|bytes: Seq<u8>| #[trigger]
        encodes(dynamic_state, bytes) && is_dynamic_state(bytes) && counter_in(bytes) == sign_count && verified_in(
            bytes,
        ) == user_verified && (bytes[1] != 0) == backup_eligible
}

/// Whether bytes are the encoded form of what the server keeps of a ceremony of the
/// given kind.
pub open spec fn state_decodes(kind: ChallengeType, bytes: Seq<u8>) -> bool {
    match kind {
        ChallengeType::Registration => registration_state_decodes(bytes),
        ChallengeType::Authentication => authentication_state_decodes(bytes),
    }
}

/// Whether a text is what the begin of a ceremony of the given kind stores as the
/// state of the ceremony: the storage encoding of the encoded form of a state of such
/// a ceremony.
pub open spec fn is_ceremony_state(state: Seq<char>, kind: ChallengeType) -> bool {
    exists|bytes: Seq<u8>| #[trigger] encodes(state, bytes) && state_decodes(kind, bytes)
}

/// Whether the verification library can read a text as the client's response to a
/// ceremony of the given kind.
pub open spec fn response_parses(kind: ChallengeType, input: Seq<char>) -> bool {
    match kind {
        ChallengeType::Registration => parsed_registration(input) is Some,
        ChallengeType::Authentication => parsed_authentication(input) is Some,
    }
}

/// The kind of the failure that is owed to a finish step before the client's response
/// is verified, given what is stored. The step is refused; or the relying party of its
/// challenge is none that the verification library takes; or what is stored as the
/// state of the ceremony is not the encoded form of one; or the response cannot be
/// read. `None` where nothing of this holds and the response is verified, unless the
/// clock of the machine cannot hold the time at which the ceremony expires, which is a
/// failure of the storage layer.
pub open spec fn early_failure(
    challenges: Map<Seq<char>, ChallengeStateView>,
    challenge_id: Seq<char>,
    expected: ChallengeType,
    origin: Seq<char>,
    input: Seq<char>,
) -> Option<ErrorKind> {
    match finish_refusal(challenges, challenge_id, expected, origin) {
        Some(refused) => Some(refused.kind),
        None => {
            let challenge = challenges[challenge_id];
            if !rp_id_accepted(challenge.rp_id) {
                Some(ErrorKind::InvalidInput)
            } else if base64url_bytes(challenge.state) is None || !state_decodes(
                expected,
                base64url_bytes(challenge.state)->0,
            ) {
                Some(ErrorKind::Storage)
            } else if !response_parses(expected, input) {
                Some(ErrorKind::InvalidInput)
            } else {
                None
            }
        },
    }
}

/// Whether a challenge was begun under `id` between `before` and `after`: the id was
/// in no use, a challenge stands under it now, and no other was touched.
pub open spec fn begun_under(before: Stored, after: Stored, id: Seq<char>) -> bool {
    &&& !before.challenges.contains_key(id)
    &&& after.challenges.contains_key(id)
    &&& after.challenges.remove(id) =~= before.challenges.remove(id)
}

/// The ids of two challenges that were begun one after the other differ, and the
/// second begin leaves the challenge of the first as it was: an id that is in use is
/// never given out again.
pub proof fn lemma_begun_ids_differ(first: Stored, second: Stored, third: Stored, a: Seq<char>, b: Seq<char>)
    requires
        begun_under(first, second, a),
        begun_under(second, third, b),
    ensures
        a != b,
        third.challenges.contains_key(a),
        third.challenges[a] == second.challenges[a],
{
    assert(third.challenges.remove(b).contains_key(a));
    assert(third.challenges.remove(b)[a] == second.challenges.remove(b)[a]);
}

/// Stores the state of a ceremony that begins under a fresh id and returns the id. The
/// id is drawn at random and was in no use: should the draw give the id of a
/// challenge that is stored, the begin fails in the storage layer and the stored
/// challenge stays. Without the storage layer it fails only where the state is too
/// long to be encoded, and then nothing is stored.
pub fn begin_challenge<S: StorageProvider>(
    storage: &mut S,
    kind: ChallengeType,
    username: &str,
    rp_id: &str,
    ceremony_state: &Vec<u8>,
) -> (r: Result<String, AppError>)
    ensures
        final(storage).credentials() == old(storage).credentials(),
        match r {
            Ok(id) => {
                &&& ceremony_state.len() <= MAX_ENCODABLE_LEN
                &&& is_random_id(id@)
                &&& !old(storage).challenges().contains_key(id@)
                &&& final(storage).challenges().contains_key(id@)
                &&& is_begun(final(storage).challenges()[id@], kind, username@, rp_id@)
                &&& encodes(final(storage).challenges()[id@].state, ceremony_state@)
                &&& final(storage).challenges().remove(id@) == old(storage).challenges().remove(id@)
            },
            Err(e) => {
                &&& e@.kind == ErrorKind::WebAuthn || is_storage_failure(e@.kind)
                &&& e@.kind == ErrorKind::WebAuthn <==> ceremony_state.len() > MAX_ENCODABLE_LEN
                &&& e@.kind == ErrorKind::WebAuthn ==> final(storage).challenges() == old(storage).challenges()
                &&& differ_in_one_at_most(old(storage).challenges(), final(storage).challenges())
            },
        },
{
    let state = match try_encode_base64url(ceremony_state.as_slice()) {
        Some(text) => text,
        None => {
            proof {
                lemma_differ_in_one(storage.challenges(), storage.challenges(), Seq::empty());
            }
            return Err(AppError::WebAuthn("Failed to encode server state: state is too long".to_owned()));
        },
    };
    let id = new_challenge_id();
    match storage.load_challenge(id.as_str()) {
        Ok(_) => {
            proof {
                lemma_differ_in_one(storage.challenges(), storage.challenges(), Seq::empty());
            }
            return Err(AppError::Storage("The id that was drawn for the challenge is in use".to_owned()));
        },
        Err(e) => {
            if e.kind() != ErrorKind::ChallengeNotFound {
                proof {
                    lemma_differ_in_one(storage.challenges(), storage.challenges(), Seq::empty());
                }
                return Err(e);
            }
        },
    }
    let challenge = ChallengeState {
        challenge_type: kind,
        username: username.to_owned(),
        rp_id: rp_id.to_owned(),
        state,
        created_at: now_iso8601(),
    };
    let r = storage.save_challenge(id.as_str(), &challenge);
    proof {
        lemma_differ_in_one(old(storage).challenges(), storage.challenges(), id@);
    }
    match r {
        Ok(()) => Ok(id),
        Err(e) => Err(e),
    }
}

/// What the begin of a ceremony of the given kind comes to.
pub open spec fn begin_outcome(
    kind: ChallengeType,
    before: Stored,
    after: Stored,
    username: Seq<char>,
    rp_id: Seq<char>,
    r: Result<CeremonyBeginData, AppError>,
) -> bool {
    match kind {
        ChallengeType::Registration => register::register_begin_outcome(before, after, username, rp_id, r),
        ChallengeType::Authentication => login::login_begin_outcome(before, after, username, rp_id, r),
    }
}

/// The ids of challenges do not collide: two ceremonies that begin one after the
/// other, of whatever kind and for whomever, get different ids, and the challenge of
/// the first is still stored, as it was, after the second has begun.
pub proof fn lemma_challenge_ids_do_not_collide(
    first: Stored,
    second: Stored,
    third: Stored,
    kind: ChallengeType,
    username: Seq<char>,
    rp_id: Seq<char>,
    begun: Result<CeremonyBeginData, AppError>,
    next_kind: ChallengeType,
    next_username: Seq<char>,
    next_rp_id: Seq<char>,
    next_begun: Result<CeremonyBeginData, AppError>,
)
    requires
        begin_outcome(kind, first, second, username, rp_id, begun),
        begin_outcome(next_kind, second, third, next_username, next_rp_id, next_begun),
        begun is Ok,
        next_begun is Ok,
    ensures
        begun->Ok_0.challenge_id@ != next_begun->Ok_0.challenge_id@,
        third.challenges.contains_key(begun->Ok_0.challenge_id@),
        third.challenges[begun->Ok_0.challenge_id@] == second.challenges[begun->Ok_0.challenge_id@],
{
    lemma_begun_ids_differ(first, second, third, begun->Ok_0.challenge_id@, next_begun->Ok_0.challenge_id@);
}

/// What a command needs from outside of the arguments and the store.
#[derive(Debug)]
pub struct Surroundings {
    /// The client's response, for the finish of a ceremony.
    pub client_response: String,
    /// Whether the place of the credentials can be written to, for the health check.
    pub writable: bool,
    /// The version of the program, for the health check.
    pub version: String,
}

/// The view of what a command needs from outside.
pub struct SurroundingsView {
    pub client_response: Seq<char>,
    pub writable: bool,
    pub version: Seq<char>,
}

impl View for Surroundings {
    type V = SurroundingsView;

    open spec fn view(&self) -> SurroundingsView {
        SurroundingsView {
            client_response: self.client_response@,
            writable: self.writable,
            version: self.version@,
        }
    }
}

/// What running a command comes to: what the command itself comes to, with its
/// outcome handed back as the output of that command.
pub open spec fn run_outcome(
    before: Stored,
    after: Stored,
    location: Seq<char>,
    command: CommandsView,
    surroundings: SurroundingsView,
    r: Result<CommandOutput, AppError>,
) -> bool {
    match command {
        CommandsView::RegisterBegin { username, rp_id, .. } => match r {
            Ok(CommandOutput::RegisterBegin(data)) => register::register_begin_outcome(
                before,
                after,
                username,
                rp_id,
                Ok(data),
            ),
            Ok(_) => false,
            Err(e) => register::register_begin_outcome(before, after, username, rp_id, Err(e)),
        },
        CommandsView::RegisterFinish { challenge_id, origin, device_name } => match r {
            Ok(CommandOutput::RegisterFinish(data)) => register::register_finish_outcome(
                before,
                after,
                challenge_id,
                origin,
                device_name,
                surroundings.client_response,
                Ok(data),
            ),
            Ok(_) => false,
            Err(e) => register::register_finish_outcome(
                before,
                after,
                challenge_id,
                origin,
                device_name,
                surroundings.client_response,
                Err(e),
            ),
        },
        CommandsView::LoginBegin { username, rp_id } => match r {
            Ok(CommandOutput::LoginBegin(data)) => login::login_begin_outcome(before, after, username, rp_id, Ok(data)),
            Ok(_) => false,
            Err(e) => login::login_begin_outcome(before, after, username, rp_id, Err(e)),
        },
        CommandsView::LoginFinish { challenge_id, origin } => match r {
            Ok(CommandOutput::LoginFinish(data)) => login::login_finish_outcome(
                before,
                after,
                challenge_id,
                origin,
                surroundings.client_response,
                Ok(data),
            ),
            Ok(_) => false,
            Err(e) => login::login_finish_outcome(
                before,
                after,
                challenge_id,
                origin,
                surroundings.client_response,
                Err(e),
            ),
        },
        CommandsView::CredentialManage { action } => match action {
            CredentialActionView::List { username } => after == before && match r {
                Ok(CommandOutput::CredentialList(items)) => credential::list_outcome(before, username, Ok(items)),
                Ok(_) => false,
                Err(e) => credential::list_outcome(before, username, Err(e)),
            },
            CredentialActionView::Delete { id } => match r {
                Ok(CommandOutput::CredentialDelete(data)) => credential::delete_outcome(before, after, id, Ok(data)),
                Ok(_) => false,
                Err(e) => credential::delete_outcome(before, after, id, Err(e)),
            },
            CredentialActionView::Update { id, name } => match r {
                Ok(CommandOutput::CredentialUpdate(data)) => credential::update_outcome(
                    before,
                    after,
                    id,
                    name,
                    Ok(data),
                ),
                Ok(_) => false,
                Err(e) => credential::update_outcome(before, after, id, name, Err(e)),
            },
            CredentialActionView::Cleanup => match r {
                Ok(CommandOutput::Cleanup(data)) => credential::cleanup_outcome(before, after, Ok(data)),
                Ok(_) => false,
                Err(e) => credential::cleanup_outcome(before, after, Err(e)),
            },
        },
        CommandsView::HealthCheck => after == before && match r {
            Ok(CommandOutput::HealthCheck(data)) => health::health_outcome(
                before,
                location,
                surroundings.writable,
                surroundings.version,
                data,
            ),
            _ => false,
        },
    }
}

/// Runs the command of a parsed command line against a store. The finish of a
/// ceremony takes the client's response from the surroundings, the health check takes
/// from them what it reports beside the store.
pub fn run<S: StorageProvider>(storage: &mut S, cli: Cli, surroundings: &Surroundings) -> (r: Result<
    CommandOutput,
    AppError,
>)
    ensures
        run_outcome(
            state_of(*old(storage)),
            state_of(*final(storage)),
            old(storage).location(),
            cli.command@,
            surroundings@,
            r,
        ),
{
    match cli.command {
        Commands::RegisterBegin { username, rp_id, user_verification } => {
            match register::register_begin(storage, username.as_str(), rp_id.as_str(), user_verification.as_str()) {
                Ok(data) => Ok(CommandOutput::RegisterBegin(data)),
                Err(e) => Err(e),
            }
        },
        Commands::RegisterFinish { challenge_id, origin, device_name } => {
            match register::register_finish(
                storage,
                challenge_id.as_str(),
                origin.as_str(),
                device_name.as_str(),
                surroundings.client_response.as_str(),
            ) {
                Ok(data) => Ok(CommandOutput::RegisterFinish(data)),
                Err(e) => Err(e),
            }
        },
        Commands::LoginBegin { username, rp_id } => {
            match login::login_begin(storage, username.as_str(), rp_id.as_str()) {
                Ok(data) => Ok(CommandOutput::LoginBegin(data)),
                Err(e) => Err(e),
            }
        },
        Commands::LoginFinish { challenge_id, origin } => {
            match login::login_finish(
                storage,
                challenge_id.as_str(),
                origin.as_str(),
                surroundings.client_response.as_str(),
            ) {
                Ok(data) => Ok(CommandOutput::LoginFinish(data)),
                Err(e) => Err(e),
            }
        },
        Commands::CredentialManage { action } => match action {
            CredentialAction::List { username } => {
                match credential::list_credentials(&*storage, username.as_str()) {
                    Ok(items) => Ok(CommandOutput::CredentialList(items)),
                    Err(e) => Err(e),
                }
            },
            CredentialAction::Delete { id } => {
                match credential::delete_credential(storage, id.as_str()) {
                    Ok(data) => Ok(CommandOutput::CredentialDelete(data)),
                    Err(e) => Err(e),
                }
            },
            CredentialAction::Update { id, name } => {
                match credential::update_credential(storage, id.as_str(), name.as_str()) {
                    Ok(data) => Ok(CommandOutput::CredentialUpdate(data)),
                    Err(e) => Err(e),
                }
            },
            CredentialAction::Cleanup => {
                match credential::cleanup_challenges(storage) {
                    Ok(data) => Ok(CommandOutput::Cleanup(data)),
                    Err(e) => Err(e),
                }
            },
        },
        Commands::HealthCheck => Ok(
            CommandOutput::HealthCheck(
                health::health_check(&*storage, surroundings.writable, surroundings.version.as_str()),
            ),
        ),
    }
}

} // verus!
