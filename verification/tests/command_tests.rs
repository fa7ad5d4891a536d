use webauthn_helper::cli::Cli;
use webauthn_helper::commands::credential::{
    cleanup_challenges, delete_credential, list_credentials, update_credential,
};
use webauthn_helper::commands::health::health_check;
use webauthn_helper::commands::login::{login_begin, login_finish};
use webauthn_helper::commands::register::{register_begin, register_finish};
use webauthn_helper::commands::{check_challenge, extract_host, make_rp_id, new_challenge_id, run, Surroundings};
use webauthn_helper::credential_store::CredentialStore;
use webauthn_helper::errors::{AppError, ErrorKind};
use webauthn_helper::memory::MemoryStorage;
use webauthn_helper::schemas::{CommandOutput, ErrorResponse};
use webauthn_helper::storage::{ChallengeState, ChallengeType, StorageProvider, StoredCredential, UserRecord};

fn args(list: &[&str]) -> Vec<String> {
    list.iter().map(|a| a.to_string()).collect()
}

fn surroundings(input: &str) -> Surroundings {
    Surroundings { client_response: input.to_string(), writable: true, version: "1.0.0".to_string() }
}

fn invoke(storage: &mut MemoryStorage, list: &[&str], input: &str) -> Result<CommandOutput, AppError> {
    let cli = Cli::parse(args(list)).unwrap();
    run(storage, cli, &surroundings(input))
}

fn credential(id: &str, device: &str) -> StoredCredential {
    StoredCredential {
        credential_id: id.to_string(),
        device_name: device.to_string(),
        static_state: "ss".to_string(),
        dynamic_state: "ds".to_string(),
        user_handle: "uh".to_string(),
        transports: 0,
        created_at: "2025-01-01T00:00:00Z".to_string(),
        last_used_at: None,
        backup_eligible: false,
        user_verified: false,
        sign_count: 0,
    }
}

fn challenge(kind: ChallengeType, username: &str, rp_id: &str, state: &str) -> ChallengeState {
    ChallengeState {
        challenge_type: kind,
        username: username.to_string(),
        rp_id: rp_id.to_string(),
        state: state.to_string(),
        created_at: "2025-01-01T00:00:00Z".to_string(),
    }
}

fn total(storage: &MemoryStorage) -> usize {
    storage.load_credentials().unwrap().credential_count()
}

#[test]
fn register_begin_valid_domain_rp_id() {
    let mut storage = MemoryStorage::new();
    match invoke(&mut storage, &["register-begin", "--username", "testuser", "--rp-id", "example.com"], "") {
        Ok(CommandOutput::RegisterBegin(data)) => {
            assert!(!data.challenge_id.is_empty(), "Must contain challengeId");
            let public_key: serde_json::Value = serde_json::from_str(&data.public_key).unwrap();
            assert!(public_key.is_object(), "Must contain publicKey object");
            let stored = storage.load_challenge(&data.challenge_id).unwrap();
            assert_eq!(stored.challenge_type, ChallengeType::Registration);
            assert_eq!(stored.username, "testuser");
            assert_eq!(stored.rp_id, "example.com");
        }
        other => panic!("unexpected {other:?}"),
    }
}

#[test]
fn register_begin_produces_valid_challenge_id_format() {
    let mut storage = MemoryStorage::new();
    let data = register_begin(&mut storage, "e2e_test_user", "example.com", "preferred").unwrap();
    // Challenge ID should be a UUID
    assert!(uuid::Uuid::parse_str(&data.challenge_id).is_ok(), "challengeId should be a valid UUID");
    assert!(storage.load_challenge(&data.challenge_id).is_ok());
}

#[test]
fn challenge_randomness_uniqueness() {
    // Generate multiple challenges and verify they are all distinct.
    let mut set = std::collections::HashSet::new();
    for _ in 0..100 {
        let id = new_challenge_id();
        assert!(set.insert(id), "UUID collision detected — challenge randomness problem");
    }
}

#[test]
fn begun_ceremonies_get_distinct_ids() {
    let mut storage = MemoryStorage::new();
    let mut set = std::collections::HashSet::new();
    for _ in 0..120 {
        let data = register_begin(&mut storage, "alice", "example.com", "preferred").unwrap();
        assert!(set.insert(data.challenge_id));
    }
    for id in &set {
        assert!(storage.load_challenge(id).is_ok());
    }
}

#[test]
fn register_begin_refuses_an_invalid_rp_id() {
    let mut storage = MemoryStorage::new();
    let err = register_begin(&mut storage, "alice", "", "preferred").unwrap_err();
    assert_eq!(err.kind(), ErrorKind::InvalidInput);
    assert!(err.detail().starts_with("Invalid RP ID: "));
    assert_eq!(err.error_code(), "INVALID_INPUT");
}

#[test]
fn register_begin_refuses_an_invalid_username() {
    let mut storage = MemoryStorage::new();
    let err = register_begin(&mut storage, "", "example.com", "preferred").unwrap_err();
    assert_eq!(err.kind(), ErrorKind::InvalidInput);
    assert!(err.detail().starts_with("Invalid username: "));
}

#[test]
fn register_begin_for_a_known_user_names_the_stored_credentials() {
    let mut storage = MemoryStorage::new();
    let handle = webauthn_helper::codec::encode_base64url(&[7u8; 64]);
    let known_id = webauthn_helper::codec::encode_base64url(&[9u8; 32]);
    let mut store = CredentialStore::new();
    store.add_credential("alice", handle, credential(&known_id, "Key"));
    store.add_credential("alice", String::new(), credential("not base64 !!", "Broken"));
    storage.save_credentials(&store).unwrap();
    let data = register_begin(&mut storage, "alice", "example.com", "preferred").unwrap();
    let public_key: serde_json::Value = serde_json::from_str(&data.public_key).unwrap();
    let text = public_key.to_string();
    assert!(text.contains(&known_id), "the stored credential is excluded: {text}");
    assert!(text.contains(&webauthn_helper::codec::encode_base64url(&[7u8; 64])), "the stored handle is used");
    assert_eq!(total(&storage), 2);
}

#[test]
fn register_begin_with_a_broken_stored_handle_fails() {
    let mut storage = MemoryStorage::new();
    let mut store = CredentialStore::new();
    store.insert("alice".to_string(), UserRecord { user_id: "dGVzdA".to_string(), credentials: vec![] });
    store.insert("bob".to_string(), UserRecord { user_id: "not base64 !!".to_string(), credentials: vec![] });
    storage.save_credentials(&store).unwrap();
    let err = register_begin(&mut storage, "alice", "example.com", "preferred").unwrap_err();
    assert_eq!(err.kind(), ErrorKind::Storage);
    assert_eq!(err.detail(), "Invalid user handle length");
    let err = register_begin(&mut storage, "bob", "example.com", "preferred").unwrap_err();
    assert_eq!(err.kind(), ErrorKind::Storage);
    assert!(err.detail().starts_with("Failed to decode user handle: "));
}

#[test]
fn register_finish_nonexistent_challenge() {
    let mut storage = MemoryStorage::new();
    let err = invoke(
        &mut storage,
        &[
            "register-finish",
            "--challenge-id",
            "nonexistent-id-12345",
            "--origin",
            "https://example.com",
            "--device-name",
            "TestKey",
        ],
        "{}",
    )
    .unwrap_err();
    assert_eq!(err.error_code(), "CHALLENGE_NOT_FOUND");
    assert!(err.message().contains("nonexistent-id-12345"), "Error message should include the missing challenge ID");
}

#[test]
fn register_finish_with_malformed_stdin_json() {
    let mut storage = MemoryStorage::new();
    let challenge_id = "test-malformed-json-challenge";
    // "dGVzdA" is the encoding of "test"
    storage
        .save_challenge(challenge_id, &challenge(ChallengeType::Registration, "testuser", "example.com", "dGVzdA"))
        .unwrap();
    let err = invoke(
        &mut storage,
        &[
            "register-finish",
            "--challenge-id",
            challenge_id,
            "--origin",
            "https://example.com",
            "--device-name",
            "TestKey",
        ],
        "this is not valid JSON at all {{{{",
    )
    .unwrap_err();
    assert!(!err.error_code().is_empty());
    assert!(!err.message().is_empty(), "Error message should be non-empty and descriptive");
    assert_eq!(total(&storage), 0);
}

#[test]
fn register_finish_with_a_response_that_is_no_json_is_invalid_input() {
    let mut storage = MemoryStorage::new();
    let begun = register_begin(&mut storage, "alice", "example.com", "preferred").unwrap();
    let err = register_finish(
        &mut storage,
        &begun.challenge_id,
        "https://example.com",
        "Key",
        "this is not valid JSON at all {{{{",
    )
    .unwrap_err();
    assert_eq!(err.kind(), ErrorKind::InvalidInput);
    assert!(err.detail().starts_with("Invalid client response: "));
    assert_eq!(total(&storage), 0);
    assert!(storage.load_challenge(&begun.challenge_id).is_ok(), "a failed finish keeps the challenge");
}

#[test]
fn register_finish_with_a_foreign_origin_is_refused() {
    let mut storage = MemoryStorage::new();
    let begun = register_begin(&mut storage, "alice", "example.com", "preferred").unwrap();
    let err =
        register_finish(&mut storage, &begun.challenge_id, "https://evil.com", "Key", "{}").unwrap_err();
    assert_eq!(err.kind(), ErrorKind::InvalidOrigin);
    assert_eq!(err.error_code(), "INVALID_ORIGIN");
    assert_eq!(err.detail(), "Origin https://evil.com does not match RP ID example.com");
    assert_eq!(err.message(), "Invalid origin: Origin https://evil.com does not match RP ID example.com");
    let store = storage.load_credentials().unwrap();
    assert!(!store.contains_key("alice"), "no credential is persisted for alice");
    assert!(store.is_empty());
    assert!(storage.load_challenge(&begun.challenge_id).is_ok());
}

#[test]
fn register_finish_with_an_origin_without_a_host_is_refused() {
    let mut storage = MemoryStorage::new();
    let begun = register_begin(&mut storage, "alice", "example.com", "preferred").unwrap();
    let err = register_finish(&mut storage, &begun.challenge_id, "example.com", "Key", "{}").unwrap_err();
    assert_eq!(err.kind(), ErrorKind::InvalidOrigin);
    assert_eq!(err.detail(), "Origin has no host");
}

#[test]
fn register_finish_with_a_login_challenge_is_refused() {
    let mut storage = MemoryStorage::new();
    storage.save_challenge("c", &challenge(ChallengeType::Authentication, "alice", "example.com", "dGVzdA")).unwrap();
    let err = register_finish(&mut storage, "c", "https://evil.com", "Key", "{}").unwrap_err();
    assert_eq!(err.kind(), ErrorKind::InvalidInput);
    assert_eq!(err.detail(), "Challenge is not a registration challenge");
}

#[test]
fn login_finish_with_a_registration_challenge_is_refused() {
    let mut storage = MemoryStorage::new();
    let begun = register_begin(&mut storage, "alice", "example.com", "preferred").unwrap();
    let err = login_finish(&mut storage, &begun.challenge_id, "https://example.com", "{}").unwrap_err();
    assert_eq!(err.kind(), ErrorKind::InvalidInput);
    assert_eq!(err.detail(), "Challenge is not an authentication challenge");
}

#[test]
fn finish_with_a_state_that_cannot_be_decoded_is_a_storage_error() {
    let mut storage = MemoryStorage::new();
    storage.save_challenge("a", &challenge(ChallengeType::Registration, "u", "example.com", "not base64 !!")).unwrap();
    storage.save_challenge("b", &challenge(ChallengeType::Registration, "u", "example.com", "dGVzdA")).unwrap();
    storage.save_challenge("c", &challenge(ChallengeType::Authentication, "u", "example.com", "dGVzdA")).unwrap();
    let err = register_finish(&mut storage, "a", "https://example.com", "Key", "{}").unwrap_err();
    assert_eq!(err.kind(), ErrorKind::Storage);
    assert!(err.detail().starts_with("Failed to decode server state: "));
    let err = register_finish(&mut storage, "b", "https://example.com", "Key", "{}").unwrap_err();
    assert_eq!(err.kind(), ErrorKind::Storage);
    assert!(err.detail().starts_with("Failed to decode registration state: "));
    let err = login_finish(&mut storage, "c", "https://example.com", "{}").unwrap_err();
    assert_eq!(err.kind(), ErrorKind::Storage);
    assert!(err.detail().starts_with("Failed to decode authentication state: "));
}

#[test]
fn finish_with_an_invalid_stored_rp_id_is_invalid_input() {
    let mut storage = MemoryStorage::new();
    storage.save_challenge("a", &challenge(ChallengeType::Registration, "u", "", "dGVzdA")).unwrap();
    let err = register_finish(&mut storage, "a", "https://", "Key", "{}").unwrap_err();
    assert_eq!(err.kind(), ErrorKind::InvalidInput);
    assert!(err.detail().starts_with("Invalid RP ID: "));
}

#[test]
fn login_begin_nonexistent_user() {
    let mut storage = MemoryStorage::new();
    let err = invoke(&mut storage, &["login-begin", "--username", "nobody_exists_here", "--rp-id", "example.com"], "")
        .unwrap_err();
    assert_eq!(err.error_code(), "USER_NOT_FOUND");
    assert!(err.message().contains("nobody_exists_here"), "Error message should include the username");
}

#[test]
fn login_begin_for_a_user_without_credentials_is_user_not_found() {
    let mut storage = MemoryStorage::new();
    let mut store = CredentialStore::new();
    store.insert("empty".to_string(), UserRecord { user_id: "h".to_string(), credentials: vec![] });
    storage.save_credentials(&store).unwrap();
    for rp_id in ["example.com", "", "not a domain\u{0}"] {
        let unknown = login_begin(&mut storage, "nobody", rp_id).unwrap_err();
        assert_eq!(unknown.kind(), ErrorKind::UserNotFound);
        assert_eq!(unknown.detail(), "nobody");
        let empty = login_begin(&mut storage, "empty", rp_id).unwrap_err();
        assert_eq!(empty.kind(), ErrorKind::UserNotFound);
        assert_eq!(empty.detail(), "empty");
        assert_eq!(empty.error_code(), unknown.error_code());
        // the two answers read alike, but for the name
        assert_eq!(empty.message(), "User not found: empty");
        assert_eq!(unknown.message(), "User not found: nobody");
        let twin = login_begin(&mut storage, "empty2", rp_id).unwrap_err();
        assert_eq!(twin.message().replace("empty2", "empty"), empty.message());
    }
}

#[test]
fn login_begin_stores_a_login_challenge() {
    let mut storage = MemoryStorage::new();
    let id = webauthn_helper::codec::encode_base64url(&[3u8; 20]);
    let mut store = CredentialStore::new();
    store.add_credential("alice", "h".to_string(), credential(&id, "Key"));
    storage.save_credentials(&store).unwrap();
    let data = login_begin(&mut storage, "alice", "example.com").unwrap();
    assert!(uuid::Uuid::parse_str(&data.challenge_id).is_ok());
    let public_key: serde_json::Value = serde_json::from_str(&data.public_key).unwrap();
    assert!(public_key.is_object());
    assert!(public_key.to_string().contains(&id), "the stored credential is allowed");
    let stored = storage.load_challenge(&data.challenge_id).unwrap();
    assert_eq!(stored.challenge_type, ChallengeType::Authentication);
    assert_eq!(stored.username, "alice");
    assert_eq!(stored.rp_id, "example.com");
    assert_eq!(total(&storage), 1);
}

#[test]
fn login_begin_refuses_an_invalid_rp_id() {
    let mut storage = MemoryStorage::new();
    let id = webauthn_helper::codec::encode_base64url(&[3u8; 20]);
    let mut store = CredentialStore::new();
    store.add_credential("alice", "h".to_string(), credential(&id, "Key"));
    storage.save_credentials(&store).unwrap();
    let err = login_begin(&mut storage, "alice", "").unwrap_err();
    assert_eq!(err.kind(), ErrorKind::InvalidInput);
}

#[test]
fn login_begin_with_a_stored_id_that_cannot_be_named_fails() {
    let mut storage = MemoryStorage::new();
    let mut store = CredentialStore::new();
    store.add_credential("alice", "h".to_string(), credential("not base64 !!", "Key"));
    store.add_credential("bob", "h".to_string(), credential("dGVzdA", "Key"));
    storage.save_credentials(&store).unwrap();
    let err = login_begin(&mut storage, "alice", "example.com").unwrap_err();
    assert_eq!(err.kind(), ErrorKind::Storage);
    assert!(err.detail().starts_with("Failed to decode credential ID: "));
    let err = login_begin(&mut storage, "bob", "example.com").unwrap_err();
    assert_eq!(err.kind(), ErrorKind::Storage);
    assert!(err.detail().starts_with("Invalid credential ID: "));
}

#[test]
fn login_finish_nonexistent_challenge() {
    let mut storage = MemoryStorage::new();
    let err = invoke(
        &mut storage,
        &["login-finish", "--challenge-id", "no-such-challenge", "--origin", "https://example.com"],
        "{}",
    )
    .unwrap_err();
    assert_eq!(err.error_code(), "CHALLENGE_NOT_FOUND");
    assert_eq!(err.detail(), "no-such-challenge");
}

#[test]
fn login_finish_with_a_foreign_origin_is_refused() {
    let mut storage = MemoryStorage::new();
    let id = webauthn_helper::codec::encode_base64url(&[3u8; 20]);
    let mut store = CredentialStore::new();
    store.add_credential("alice", "h".to_string(), credential(&id, "Key"));
    storage.save_credentials(&store).unwrap();
    let begun = login_begin(&mut storage, "alice", "example.com").unwrap();
    let err = login_finish(&mut storage, &begun.challenge_id, "https://example.com.evil.org", "{}").unwrap_err();
    assert_eq!(err.kind(), ErrorKind::InvalidOrigin);
    assert!(storage.load_challenge(&begun.challenge_id).is_ok());
    let err = login_finish(&mut storage, &begun.challenge_id, "https://example.com", "not json").unwrap_err();
    assert_eq!(err.kind(), ErrorKind::InvalidInput);
}

#[test]
fn credential_delete_nonexistent() {
    let mut storage = MemoryStorage::new();
    let err = invoke(&mut storage, &["credential-manage", "delete", "--id", "nonexistent-credential-id"], "")
        .unwrap_err();
    assert_eq!(err.error_code(), "CREDENTIAL_NOT_FOUND");
    assert_eq!(err.detail(), "nonexistent-credential-id");
}

#[test]
fn credential_update_nonexistent() {
    let mut storage = MemoryStorage::new();
    let err = invoke(&mut storage, &["credential-manage", "update", "--id", "nonexistent-id", "--name", "NewName"], "")
        .unwrap_err();
    assert_eq!(err.error_code(), "CREDENTIAL_NOT_FOUND");
}

#[test]
fn credential_list_empty_user() {
    let mut storage = MemoryStorage::new();
    // Listing for a non-existent user should succeed with empty list
    match invoke(&mut storage, &["credential-manage", "list", "--username", "nonexistent_user"], "") {
        Ok(CommandOutput::CredentialList(items)) => assert!(items.is_empty()),
        other => panic!("unexpected {other:?}"),
    }
    assert!(list_credentials(&storage, "nonexistent_user").unwrap().is_empty());
}

#[test]
fn credentials_are_listed_deleted_and_renamed() {
    let mut storage = MemoryStorage::new();
    let mut store = CredentialStore::new();
    store.add_credential("alice", "ha".to_string(), credential("cid-1", "YubiKey"));
    let mut used = credential("cid-2", "Phone");
    used.last_used_at = Some("2025-06-01T00:00:00Z".to_string());
    used.backup_eligible = true;
    used.user_verified = true;
    store.add_credential("alice", "ignored".to_string(), used);
    store.add_credential("bob", "hb".to_string(), credential("cid-3", "Token"));
    storage.save_credentials(&store).unwrap();

    let items = list_credentials(&storage, "alice").unwrap();
    assert_eq!(items.len(), 2);
    assert_eq!(items[0].credential_id, "cid-1");
    assert_eq!(items[0].username, "alice");
    assert_eq!(items[0].device_name, "YubiKey");
    assert_eq!(items[0].created_at, "2025-01-01T00:00:00Z");
    assert_eq!(items[0].last_used_at, None);
    assert!(!items[0].backup_eligible);
    assert!(!items[0].user_verified);
    assert_eq!(items[1].credential_id, "cid-2");
    assert_eq!(items[1].last_used_at, Some("2025-06-01T00:00:00Z".to_string()));
    assert!(items[1].backup_eligible);
    assert!(items[1].user_verified);

    let updated = update_credential(&mut storage, "cid-3", "Renamed").unwrap();
    assert_eq!(updated.credential_id, "cid-3");
    assert_eq!(updated.old_name, "Token");
    assert_eq!(updated.new_name, "Renamed");
    assert_eq!(list_credentials(&storage, "bob").unwrap()[0].device_name, "Renamed");
    assert_eq!(list_credentials(&storage, "alice").unwrap()[0].device_name, "YubiKey");

    let deleted = delete_credential(&mut storage, "cid-1").unwrap();
    assert_eq!(deleted.credential_id, "cid-1");
    assert!(deleted.deleted);
    let items = list_credentials(&storage, "alice").unwrap();
    assert_eq!(items.len(), 1);
    assert_eq!(items[0].credential_id, "cid-2");
    assert_eq!(total(&storage), 2);

    let again = delete_credential(&mut storage, "cid-1").unwrap_err();
    assert_eq!(again.kind(), ErrorKind::CredentialNotFound);
    assert_eq!(total(&storage), 2);
}

#[test]
fn credential_cleanup_returns_json() {
    let mut storage = MemoryStorage::new();
    match invoke(&mut storage, &["credential-manage", "cleanup"], "") {
        Ok(CommandOutput::Cleanup(data)) => assert_eq!(data.removed_count, 0),
        other => panic!("unexpected {other:?}"),
    }
}

#[test]
fn cleanup_twice_removes_nothing_the_second_time() {
    let mut storage = MemoryStorage::new();
    let first = register_begin(&mut storage, "alice", "example.com", "preferred").unwrap();
    storage.set_time(100);
    let second = register_begin(&mut storage, "alice", "example.com", "preferred").unwrap();
    storage.set_time(200);
    assert_eq!(cleanup_challenges(&mut storage).unwrap().removed_count, 1);
    assert_eq!(cleanup_challenges(&mut storage).unwrap().removed_count, 0);
    assert!(storage.load_challenge(&first.challenge_id).is_err());
    assert!(storage.load_challenge(&second.challenge_id).is_ok());
    let err = register_finish(&mut storage, &first.challenge_id, "https://example.com", "Key", "{}").unwrap_err();
    assert_eq!(err.kind(), ErrorKind::ChallengeNotFound);
}

#[test]
fn health_check_returns_json() {
    let mut storage = MemoryStorage::new();
    match invoke(&mut storage, &["health-check"], "") {
        Ok(CommandOutput::HealthCheck(data)) => {
            assert_eq!(data.status, "ok");
            assert_eq!(data.version, "1.0.0");
            assert!(data.storage.writable);
            assert_eq!(data.storage.path, storage.credentials_path());
            assert_eq!(data.storage.count, 0);
        }
        other => panic!("unexpected {other:?}"),
    }
}

#[test]
fn health_check_counts_credentials_and_reports_degradation() {
    let mut storage = MemoryStorage::new();
    let mut store = CredentialStore::new();
    store.add_credential("alice", "h".to_string(), credential("a", "A"));
    store.add_credential("alice", "h".to_string(), credential("b", "B"));
    store.add_credential("bob", "h".to_string(), credential("c", "C"));
    storage.save_credentials(&store).unwrap();
    let data = health_check(&storage, false, "0.3.1");
    assert_eq!(data.status, "degraded");
    assert_eq!(data.version, "0.3.1");
    assert!(!data.storage.writable);
    assert_eq!(data.storage.count, 3);
}

#[test]
fn all_error_responses_have_consistent_json_shape() {
    // Test multiple error-inducing commands and verify the shape of what they answer
    let error_commands: Vec<Vec<&str>> = vec![
        vec!["register-finish", "--challenge-id", "x", "--origin", "https://a.com", "--device-name", "d"],
        vec!["login-finish", "--challenge-id", "x", "--origin", "https://a.com"],
        vec!["credential-manage", "delete", "--id", "x"],
    ];

    for list in error_commands {
        let mut storage = MemoryStorage::new();
        let err = invoke(&mut storage, &list, "{}").unwrap_err();
        let response = ErrorResponse::new(err.error_code(), &err.message());
        assert!(!response.success, "Missing 'success' field for {:?}", list);
        assert!(!response.error.code.is_empty(), "Missing 'error.code' for {:?}", list);
        assert!(!response.error.message.is_empty(), "Missing 'error.message' for {:?}", list);
    }
}

#[test]
fn hosts_of_origins() {
    assert_eq!(extract_host("https://example.com"), Some("example.com"));
    assert_eq!(extract_host("http://example.com"), Some("example.com"));
    assert_eq!(extract_host("https://example.com:8443"), Some("example.com"));
    assert_eq!(extract_host("https://example.com/path/to?x=1"), Some("example.com"));
    assert_eq!(extract_host("https://example.com:8443/path:with/colon"), Some("example.com"));
    assert_eq!(extract_host("http://192.168.1.1:80"), Some("192.168.1.1"));
    assert_eq!(extract_host("https://"), Some(""));
    assert_eq!(extract_host("https:///path"), Some(""));
    assert_eq!(extract_host("https://a:b:c"), Some("a:b"));
    assert_eq!(extract_host("https://[::1]:8080"), Some("[::1]"));
    assert_eq!(extract_host("https://bücher.example:1"), Some("bücher.example"));
    assert_eq!(extract_host("example.com"), None);
    assert_eq!(extract_host("ftp://example.com"), None);
    assert_eq!(extract_host("HTTPS://example.com"), None);
    assert_eq!(extract_host("https:/example.com"), None);
    assert_eq!(extract_host(""), None);
    assert_eq!(extract_host("http"), None);
}

#[test]
fn challenges_are_checked_before_anything_else() {
    let registration = challenge(ChallengeType::Registration, "alice", "example.com", "s");
    assert!(check_challenge(&registration, ChallengeType::Registration, "https://example.com").is_ok());
    assert!(check_challenge(&registration, ChallengeType::Registration, "https://example.com:443/x").is_ok());
    let wrong_kind = check_challenge(&registration, ChallengeType::Authentication, "https://evil.com").unwrap_err();
    assert_eq!(wrong_kind.kind(), ErrorKind::InvalidInput);
    assert_eq!(wrong_kind.detail(), "Challenge is not an authentication challenge");
    let foreign = check_challenge(&registration, ChallengeType::Registration, "https://evil.com").unwrap_err();
    assert_eq!(foreign.kind(), ErrorKind::InvalidOrigin);
    let upper = check_challenge(&registration, ChallengeType::Registration, "https://EXAMPLE.com").unwrap_err();
    assert_eq!(upper.kind(), ErrorKind::InvalidOrigin);
    assert_eq!(upper.detail(), "Origin https://EXAMPLE.com does not match RP ID example.com");
}

#[test]
fn relying_party_ids_are_checked_by_the_library() {
    assert!(make_rp_id("example.com").is_ok());
    assert!(make_rp_id("192.168.1.1").is_ok());
    let err = make_rp_id("").unwrap_err();
    assert_eq!(err.kind(), ErrorKind::InvalidInput);
    assert!(err.detail().starts_with("Invalid RP ID: "));
    assert!(err.detail().len() > "Invalid RP ID: ".len());
    assert!(make_rp_id(".").is_err());
    assert!(make_rp_id("bücher.example").is_err());
}

#[test]
fn a_stored_code_that_is_no_set_of_transports_counts_as_none() {
    let mut storage = MemoryStorage::new();
    let id = webauthn_helper::codec::encode_base64url(&[5u8; 16]);
    let mut odd = credential(&id, "Key");
    odd.transports = 200;
    let mut store = CredentialStore::new();
    store.add_credential("alice", webauthn_helper::codec::encode_base64url(&[1u8; 64]), odd);
    let mut usb = credential(&webauthn_helper::codec::encode_base64url(&[6u8; 16]), "Usb");
    usb.transports = 0x20;
    store.add_credential("alice", String::new(), usb);
    storage.save_credentials(&store).unwrap();

    let begun = login_begin(&mut storage, "alice", "example.com").unwrap();
    let options: serde_json::Value = serde_json::from_str(&begun.public_key).unwrap();
    let allowed = options["allowCredentials"].as_array().unwrap();
    assert_eq!(allowed.len(), 2);
    let named: Vec<(String, usize)> = allowed
        .iter()
        .map(|c| (c["id"].as_str().unwrap().to_string(), c["transports"].as_array().unwrap().len()))
        .collect();
    assert!(named.contains(&(id.clone(), 0)));
    assert!(named.contains(&(webauthn_helper::codec::encode_base64url(&[6u8; 16]), 1)));

    let begun = register_begin(&mut storage, "alice", "example.com", "preferred").unwrap();
    let options: serde_json::Value = serde_json::from_str(&begun.public_key).unwrap();
    assert_eq!(options["excludeCredentials"].as_array().unwrap().len(), 2);
}

#[test]
fn stored_ids_that_cannot_be_ids_are_left_out_of_the_exclusion() {
    let mut storage = MemoryStorage::new();
    let mut store = CredentialStore::new();
    store.add_credential("alice", webauthn_helper::codec::encode_base64url(&[1u8; 64]), credential("dGVzdA", "Short"));
    store.add_credential("alice", String::new(), credential("not base64 !!", "Broken"));
    let long = webauthn_helper::codec::encode_base64url(&[2u8; 1024]);
    store.add_credential("alice", String::new(), credential(&long, "Long"));
    let longest = webauthn_helper::codec::encode_base64url(&[3u8; 1023]);
    store.add_credential("alice", String::new(), credential(&longest, "Longest"));
    let shortest = webauthn_helper::codec::encode_base64url(&[4u8; 16]);
    store.add_credential("alice", String::new(), credential(&shortest, "Shortest"));
    let too_short = webauthn_helper::codec::encode_base64url(&[5u8; 15]);
    store.add_credential("alice", String::new(), credential(&too_short, "TooShort"));
    storage.save_credentials(&store).unwrap();
    let begun = register_begin(&mut storage, "alice", "example.com", "preferred").unwrap();
    let options: serde_json::Value = serde_json::from_str(&begun.public_key).unwrap();
    let mut excluded: Vec<String> = options["excludeCredentials"]
        .as_array()
        .unwrap()
        .iter()
        .map(|c| c["id"].as_str().unwrap().to_string())
        .collect();
    excluded.sort();
    let mut expected = vec![longest, shortest];
    expected.sort();
    assert_eq!(excluded, expected);
}

#[test]
fn a_login_allows_the_stored_credentials_in_their_order_each_once() {
    let mut storage = MemoryStorage::new();
    let first = webauthn_helper::codec::encode_base64url(&[9u8; 16]);
    let second = webauthn_helper::codec::encode_base64url(&[1u8; 16]);
    let third = webauthn_helper::codec::encode_base64url(&[5u8; 16]);
    let mut store = CredentialStore::new();
    for id in [&first, &second, &first, &third, &second] {
        store.add_credential("alice", "h".to_string(), credential(id, "Key"));
    }
    storage.save_credentials(&store).unwrap();
    let begun = login_begin(&mut storage, "alice", "example.com").unwrap();
    let options: serde_json::Value = serde_json::from_str(&begun.public_key).unwrap();
    let allowed: Vec<String> = options["allowCredentials"]
        .as_array()
        .unwrap()
        .iter()
        .map(|c| c["id"].as_str().unwrap().to_string())
        .collect();
    assert_eq!(allowed, vec![first, second, third]);
}

#[test]
fn a_fresh_id_has_the_form_of_a_random_identifier() {
    for _ in 0..50 {
        let id = new_challenge_id();
        let chars: Vec<char> = id.chars().collect();
        assert_eq!(chars.len(), 36);
        for (i, c) in chars.iter().enumerate() {
            if i == 8 || i == 13 || i == 18 || i == 23 {
                assert_eq!(*c, '-');
            } else {
                assert!(c.is_ascii_digit() || ('a'..='f').contains(c), "{id}");
            }
        }
        assert_eq!(chars[14], '4');
        assert!(['8', '9', 'a', 'b'].contains(&chars[19]));
        assert!(webauthn_helper::storage::is_challenge_file_name(
            &webauthn_helper::storage::FileStorage::challenge_file_name(&id)
        ));
    }
}

#[test]
fn relying_party_ids_are_domains_in_ascii() {
    let label = "a".repeat(63);
    assert!(make_rp_id(&label).is_ok());
    assert!(make_rp_id(&"a".repeat(64)).is_err());
    assert!(make_rp_id(&format!("{label}.b")).is_ok());
    assert!(make_rp_id("example.com.").is_ok());
    assert!(make_rp_id("example..com").is_err());
    assert!(make_rp_id(".example.com").is_err());
    assert!(make_rp_id("example.com..").is_err());
    assert!(make_rp_id("\u{0}").is_ok());
    assert!(make_rp_id("EXAMPLE.com").is_ok());
    assert!(make_rp_id("\u{80}").is_err());
    assert!(make_rp_id("λ.com").is_err());
    let longest = format!("{label}.{label}.{label}.{}", "a".repeat(61));
    assert_eq!(longest.len(), 253);
    assert!(make_rp_id(&longest).is_ok());
    assert!(make_rp_id(&format!("{longest}.")).is_ok());
    assert!(make_rp_id(&format!("{longest}a")).is_err());
    let too_long = format!("{label}.{label}.{label}.{}.", "a".repeat(62));
    assert_eq!(too_long.len(), 255);
    assert!(make_rp_id(&too_long).is_err());
}

#[test]
fn a_begun_ceremony_stores_a_state_in_the_storage_encoding() {
    let mut storage = MemoryStorage::new();
    let id = webauthn_helper::codec::encode_base64url(&[3u8; 20]);
    let mut store = CredentialStore::new();
    store.add_credential("alice", "h".to_string(), credential(&id, "Key"));
    storage.save_credentials(&store).unwrap();
    let begun = [
        register_begin(&mut storage, "bob", "example.com", "preferred").unwrap(),
        login_begin(&mut storage, "alice", "example.com").unwrap(),
    ];
    for data in begun {
        let state = storage.load_challenge(&data.challenge_id).unwrap().state;
        assert!(state.chars().all(|c| c.is_ascii_alphanumeric() || c == '-' || c == '_'), "{state}");
        let bytes = webauthn_helper::codec::decode_base64url(&state).unwrap();
        assert!(!bytes.is_empty());
        assert_eq!(state.len(), (4 * bytes.len() + 2) / 3);
        assert_eq!(webauthn_helper::codec::encode_base64url(&bytes), state);
    }
}
