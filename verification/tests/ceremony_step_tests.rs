use webauthn_helper::codec::{decode_base64url, encode_base64url};
use webauthn_helper::commands::credential::{list_in, list_item};
use webauthn_helper::commands::login::{
    allowed_credentials, new_usage, require_credentials, select_credential, stored_bytes,
};
use webauthn_helper::commands::register::{
    excluded_credentials, new_stored_credential, plan_registration, stored_user_handle, RegisteredParts,
};
use webauthn_helper::commands::{begin_challenge, joined};
use webauthn_helper::credential_store::CredentialStore;
use webauthn_helper::errors::{AppError, ErrorKind};
use webauthn_helper::memory::MemoryStorage;
use webauthn_helper::storage::{
    ChallengeState, ChallengeType, ExpiredChallenges, Location, StorageProvider, StoredChallenges,
    StoredCredential, StoredCredentials, UserRecord,
};
use webauthn_helper::webauthn::{BackupState, DynamicStateData};

fn credential(id: &str, transports: u8) -> StoredCredential {
    StoredCredential {
        credential_id: id.to_string(),
        device_name: "Key".to_string(),
        static_state: "ss".to_string(),
        dynamic_state: "ds".to_string(),
        user_handle: "uh".to_string(),
        transports,
        created_at: "2025-01-01T00:00:00Z".to_string(),
        last_used_at: None,
        backup_eligible: false,
        user_verified: false,
        sign_count: 0,
    }
}

fn record(user_id: &str, credentials: Vec<StoredCredential>) -> UserRecord {
    UserRecord { user_id: user_id.to_string(), credentials }
}

#[test]
fn a_stored_handle_must_stand_for_64_bytes() {
    let bytes: Vec<u8> = (0u8..64).collect();
    assert_eq!(stored_user_handle(&record(&encode_base64url(&bytes), vec![])).unwrap(), bytes);
    for len in [0usize, 1, 63, 65] {
        let err = stored_user_handle(&record(&encode_base64url(&vec![1u8; len]), vec![])).unwrap_err();
        assert_eq!(err.kind(), ErrorKind::Storage);
        assert_eq!(err.detail(), "Invalid user handle length");
    }
    let err = stored_user_handle(&record("***", vec![])).unwrap_err();
    assert_eq!(err.kind(), ErrorKind::Storage);
    assert!(err.detail().starts_with("Failed to decode user handle: "));
}

#[test]
fn the_exclusion_names_what_can_be_named() {
    let a = encode_base64url(&[1u8; 16]);
    let b = encode_base64url(&[2u8; 40]);
    let refs = excluded_credentials(&record(
        "h",
        vec![
            credential(&a, 0x20),
            credential("***", 1),
            credential(&encode_base64url(&[3u8; 15]), 1),
            credential(&b, 64),
            credential(&encode_base64url(&[4u8; 1024]), 1),
            credential(&a, 63),
        ],
    ));
    let named: Vec<(Vec<u8>, u8)> = refs.into_iter().map(|r| (r.id, r.transports)).collect();
    assert_eq!(named, vec![(vec![1u8; 16], 0x20), (vec![2u8; 40], 0), (vec![1u8; 16], 63)]);
    assert!(excluded_credentials(&record("h", vec![])).is_empty());
}

#[test]
fn a_registration_starts_from_what_is_stored() {
    let mut store = CredentialStore::new();
    let handle: Vec<u8> = (100u8..164).collect();
    store.insert(
        "alice".to_string(),
        record(&encode_base64url(&handle), vec![credential(&encode_base64url(&[1u8; 16]), 4), credential("***", 4)]),
    );
    store.insert("broken".to_string(), record("dGVzdA", vec![]));

    let known = plan_registration(&store, "alice").unwrap();
    assert_eq!(known.handle, Some(handle));
    assert_eq!(known.exclude.len(), 1);
    assert_eq!(known.exclude[0].id, vec![1u8; 16]);
    assert_eq!(known.exclude[0].transports, 4);

    let unknown = plan_registration(&store, "bob").unwrap();
    assert_eq!(unknown.handle, None);
    assert!(unknown.exclude.is_empty());

    let err = plan_registration(&store, "broken").unwrap_err();
    assert_eq!(err.kind(), ErrorKind::Storage);
}

#[test]
fn a_login_names_every_stored_credential_or_fails() {
    let a = encode_base64url(&[1u8; 16]);
    let b = encode_base64url(&[2u8; 1023]);
    let refs = allowed_credentials(&record("h", vec![credential(&a, 1), credential(&b, 255)])).unwrap();
    let named: Vec<(Vec<u8>, u8)> = refs.into_iter().map(|r| (r.id, r.transports)).collect();
    assert_eq!(named, vec![(vec![1u8; 16], 1), (vec![2u8; 1023], 0)]);
    assert!(allowed_credentials(&record("h", vec![])).unwrap().is_empty());

    let err = allowed_credentials(&record("h", vec![credential(&a, 1), credential("***", 1)])).unwrap_err();
    assert_eq!(err.kind(), ErrorKind::Storage);
    assert!(err.detail().starts_with("Failed to decode credential ID: "));
    let err =
        allowed_credentials(&record("h", vec![credential(&encode_base64url(&[1u8; 15]), 1), credential(&a, 1)]))
            .unwrap_err();
    assert_eq!(err.kind(), ErrorKind::Storage);
    assert!(err.detail().starts_with("Invalid credential ID: "));
    assert!(err.detail().len() > "Invalid credential ID: ".len());
}

#[test]
fn a_login_needs_a_credential() {
    let mut store = CredentialStore::new();
    store.insert("empty".to_string(), record("h", vec![]));
    store.insert("alice".to_string(), record("h", vec![credential("c", 0)]));
    assert_eq!(require_credentials(&store, "alice").unwrap().credentials.len(), 1);
    let err = require_credentials(&store, "empty").unwrap_err();
    assert_eq!(err.kind(), ErrorKind::UserNotFound);
    assert_eq!(err.message(), "User not found: empty");
    let err = require_credentials(&store, "nobody").unwrap_err();
    assert_eq!(err.kind(), ErrorKind::UserNotFound);
    assert_eq!(err.message(), "User not found: nobody");
}

#[test]
fn the_credential_of_a_response_is_looked_up_under_its_user() {
    let mut store = CredentialStore::new();
    let mut second = credential("c2", 0);
    second.device_name = "Second".to_string();
    store.insert("alice".to_string(), record("h", vec![credential("c1", 0), second]));
    store.insert("bob".to_string(), record("h", vec![credential("c3", 0)]));
    assert_eq!(select_credential(&store, "alice", "c2").unwrap().device_name, "Second");
    let err = select_credential(&store, "alice", "c3").unwrap_err();
    assert_eq!(err.kind(), ErrorKind::CredentialNotFound);
    assert_eq!(err.detail(), "No matching credential found");
    let err = select_credential(&store, "carol", "c1").unwrap_err();
    assert_eq!(err.kind(), ErrorKind::UserNotFound);
    assert_eq!(err.detail(), "carol");
}

fn parts(backup: BackupState) -> RegisteredParts {
    RegisteredParts {
        credential_id: "cid".to_string(),
        transports: 6,
        user_handle: "handle".to_string(),
        static_state: "static".to_string(),
        dynamic_state: "dynamic".to_string(),
        backup,
        user_verified: true,
        sign_count: 17,
    }
}

#[test]
fn a_verified_registration_becomes_a_stored_credential() {
    let stored = new_stored_credential(parts(BackupState::NotEligible), "YubiKey", "2025-01-01T00:00:00Z");
    assert_eq!(stored.credential_id, "cid");
    assert_eq!(stored.device_name, "YubiKey");
    assert_eq!(stored.static_state, "static");
    assert_eq!(stored.dynamic_state, "dynamic");
    assert_eq!(stored.user_handle, "handle");
    assert_eq!(stored.transports, 6);
    assert_eq!(stored.created_at, "2025-01-01T00:00:00Z");
    assert_eq!(stored.last_used_at, None);
    assert!(!stored.backup_eligible);
    assert!(stored.user_verified);
    assert_eq!(stored.sign_count, 17);
    assert!(new_stored_credential(parts(BackupState::Eligible), "d", "t").backup_eligible);
    assert!(new_stored_credential(parts(BackupState::Exists), "d", "t").backup_eligible);
}

#[test]
fn a_verified_login_becomes_a_usage() {
    let dynamic =
        DynamicStateData { user_verified: true, backup: BackupState::Exists, sign_count: 42, encoded: vec![1, 2, 42, 0, 0, 0, 0] };
    let usage = new_usage(&dynamic, "AQIqAAAAAA".to_string(), "2025-06-01T00:00:00Z".to_string());
    assert_eq!(usage.dynamic_state, "AQIqAAAAAA");
    assert_eq!(usage.sign_count, 42);
    assert!(usage.user_verified);
    assert!(usage.backup_eligible);
    assert_eq!(usage.last_used_at, "2025-06-01T00:00:00Z");
    let plain =
        DynamicStateData { user_verified: false, backup: BackupState::NotEligible, sign_count: 0, encoded: vec![0; 7] };
    let usage = new_usage(&plain, String::new(), String::new());
    assert!(!usage.backup_eligible);
    assert!(!usage.user_verified);
}

#[test]
fn list_items_carry_the_user_and_the_credential() {
    let mut used = credential("cid", 0);
    used.device_name = "YubiKey".to_string();
    used.last_used_at = Some("2025-06-01T00:00:00Z".to_string());
    used.user_verified = true;
    let item = list_item(&used, "user");
    assert_eq!(item.credential_id, "cid");
    assert_eq!(item.username, "user");
    assert_eq!(item.device_name, "YubiKey");
    assert_eq!(item.created_at, "2025-01-01T00:00:00Z");
    assert_eq!(item.last_used_at, Some("2025-06-01T00:00:00Z".to_string()));
    assert!(!item.backup_eligible);
    assert!(item.user_verified);

    let mut store = CredentialStore::new();
    store.insert("user".to_string(), record("h", vec![credential("a", 0), used]));
    let items = list_in(&store, "user");
    assert_eq!(items.iter().map(|i| i.credential_id.as_str()).collect::<Vec<_>>(), vec!["a", "cid"]);
    assert!(list_in(&store, "nobody").is_empty());
}

#[test]
fn a_begun_challenge_is_stored_with_its_encoded_state() {
    let mut storage = MemoryStorage::new();
    let state = vec![9u8, 8, 7, 6, 5];
    let id = begin_challenge(&mut storage, ChallengeType::Authentication, "alice", "example.com", &state).unwrap();
    assert!(uuid::Uuid::parse_str(&id).is_ok());
    let stored = storage.load_challenge(&id).unwrap();
    assert_eq!(stored.challenge_type, ChallengeType::Authentication);
    assert_eq!(stored.username, "alice");
    assert_eq!(stored.rp_id, "example.com");
    assert_eq!(decode_base64url(&stored.state).unwrap(), state);
    assert!(stored.created_at.ends_with('Z'));
    let other = begin_challenge(&mut storage, ChallengeType::Registration, "bob", "example.org", &state).unwrap();
    assert_ne!(id, other);
    assert_eq!(storage.load_challenge(&id).unwrap().username, "alice");
    assert_eq!(storage.load_challenge(&other).unwrap().username, "bob");
}

#[test]
fn texts_are_joined() {
    assert_eq!(joined("Invalid RP ID: ", "empty"), "Invalid RP ID: empty");
    assert_eq!(joined("", ""), "");
    assert_eq!(joined("ü", "ß"), "üß");
}

#[test]
fn the_parts_of_a_stored_credential_are_decoded_as_they_stand() {
    assert_eq!(stored_bytes("AQIDBAUGBw", "dynamic state", 7).unwrap(), vec![1, 2, 3, 4, 5, 6, 7]);
    assert_eq!(stored_bytes("", "nothing", 0).unwrap(), Vec::<u8>::new());
    let err = stored_bytes("AQIDBAUG", "dynamic state", 7).unwrap_err();
    assert_eq!(err.kind(), ErrorKind::Storage);
    assert_eq!(err.detail(), "Invalid dynamic state length");
    let err = stored_bytes("***", "user handle", 64).unwrap_err();
    assert_eq!(err.kind(), ErrorKind::Storage);
    assert!(err.detail().starts_with("Failed to decode user handle: "));
}

/// A store in which a challenge stands under every id.
struct Crowded {
    saved: usize,
}

impl StorageProvider for Crowded {
    fn credentials(&self) -> StoredCredentials {
        unreachable!()
    }

    fn challenges(&self) -> StoredChallenges {
        unreachable!()
    }

    fn expired(&self) -> ExpiredChallenges {
        unreachable!()
    }

    fn location(&self) -> Location {
        unreachable!()
    }

    fn load_credentials(&self) -> Result<CredentialStore, AppError> {
        Ok(CredentialStore::new())
    }

    fn save_credentials(&mut self, _store: &CredentialStore) -> Result<(), AppError> {
        Ok(())
    }

    fn load_challenge(&self, _challenge_id: &str) -> Result<ChallengeState, AppError> {
        Ok(ChallengeState {
            challenge_type: ChallengeType::Registration,
            username: "somebody".to_string(),
            rp_id: "example.com".to_string(),
            state: String::new(),
            created_at: "2025-01-01T00:00:00Z".to_string(),
        })
    }

    fn save_challenge(&mut self, _challenge_id: &str, _state: &ChallengeState) -> Result<(), AppError> {
        self.saved += 1;
        Ok(())
    }

    fn delete_challenge(&mut self, _challenge_id: &str) -> Result<(), AppError> {
        Ok(())
    }

    fn cleanup_challenges(&mut self) -> Result<usize, AppError> {
        Ok(0)
    }

    fn credentials_path(&self) -> &str {
        "nowhere"
    }
}

#[test]
fn a_challenge_is_never_begun_under_an_id_that_is_in_use() {
    let mut storage = Crowded { saved: 0 };
    let err = begin_challenge(&mut storage, ChallengeType::Registration, "alice", "example.com", &vec![1, 2, 3])
        .unwrap_err();
    assert_eq!(err.kind(), ErrorKind::Storage);
    assert_eq!(storage.saved, 0);

    // where the id is free, the challenge is stored under it
    let mut storage = MemoryStorage::new();
    let id = begin_challenge(&mut storage, ChallengeType::Registration, "alice", "example.com", &vec![1, 2, 3])
        .unwrap();
    let next = begin_challenge(&mut storage, ChallengeType::Authentication, "alice", "example.com", &vec![4])
        .unwrap();
    assert_ne!(id, next);
    assert_eq!(storage.load_challenge(&id).unwrap().state, "AQID");
    assert_eq!(storage.load_challenge(&next).unwrap().state, "BA");
}
