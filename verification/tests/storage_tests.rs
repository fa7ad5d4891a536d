use webauthn_helper::codec::encode_base64url;
use webauthn_helper::commands::new_challenge_id;
use webauthn_helper::credential_store::CredentialStore;
use webauthn_helper::errors::ErrorKind;
use webauthn_helper::memory::MemoryStorage;
use webauthn_helper::storage::{
    is_challenge_file_name, is_stale_file, now_iso8601, stale_challenge_files, sweep_plan, sweep_report, Artifact,
    ChallengeFile, ChallengeState, ChallengeType, FileAge, FileStorage, Removal, StorageProvider, UserRecord,
    CHALLENGE_MAX_AGE_SECS,
};

fn test_storage() -> MemoryStorage {
    MemoryStorage::new()
}

fn challenge(kind: ChallengeType, username: &str, rp_id: &str, state: &str, created_at: &str) -> ChallengeState {
    ChallengeState {
        challenge_type: kind,
        username: username.to_string(),
        rp_id: rp_id.to_string(),
        state: state.to_string(),
        created_at: created_at.to_string(),
    }
}

#[test]
fn test_load_empty_credentials() {
    let storage = test_storage();
    let store = storage.load_credentials().unwrap();
    assert!(store.is_empty());
}

#[test]
fn test_save_and_load_credentials() {
    let mut storage = test_storage();
    let mut store = CredentialStore::new();
    store.insert("root".to_string(), UserRecord { user_id: "test_user_id".to_string(), credentials: vec![] });
    storage.save_credentials(&store).unwrap();
    let loaded = storage.load_credentials().unwrap();
    assert!(loaded.contains_key("root"));
}

#[test]
fn test_challenge_lifecycle() {
    let mut storage = test_storage();
    let challenge_id = new_challenge_id();
    let state = challenge(ChallengeType::Registration, "root", "192.168.1.1", "test_state_data", &now_iso8601());

    storage.save_challenge(&challenge_id, &state).unwrap();
    let loaded = storage.load_challenge(&challenge_id).unwrap();
    assert_eq!(loaded.username, "root");
    assert_eq!(loaded.challenge_type, ChallengeType::Registration);

    storage.delete_challenge(&challenge_id).unwrap();
    assert!(storage.load_challenge(&challenge_id).is_err());
}

#[test]
fn test_challenge_not_found() {
    let storage = test_storage();
    let result = storage.load_challenge("nonexistent");
    assert!(result.is_err());
}

#[test]
fn test_cleanup_challenges() {
    let mut storage = test_storage();
    let result = storage.cleanup_challenges().unwrap();
    assert_eq!(result, 0);
}

#[test]
fn challenge_save_load_roundtrip() {
    let mut storage = test_storage();
    let challenge_id = new_challenge_id();
    let state = challenge(
        ChallengeType::Registration,
        "root",
        "192.168.1.1",
        &encode_base64url(b"random_server_state_bytes"),
        "2025-01-01T00:00:00Z",
    );
    storage.save_challenge(&challenge_id, &state).unwrap();
    let loaded = storage.load_challenge(&challenge_id).unwrap();
    assert_eq!(loaded.username, state.username);
    assert_eq!(loaded.rp_id, state.rp_id);
    assert_eq!(loaded.state, state.state);
    assert_eq!(loaded.challenge_type, ChallengeType::Registration);
    assert_eq!(loaded.created_at, "2025-01-01T00:00:00Z");
}

#[test]
fn challenge_delete_then_load_fails() {
    let mut storage = test_storage();
    let challenge_id = "test-challenge-to-delete";
    storage.save_challenge(challenge_id, &challenge(ChallengeType::Registration, "u", "rp", "s", "t")).unwrap();
    assert!(storage.load_challenge(challenge_id).is_ok());
    storage.delete_challenge(challenge_id).unwrap();
    assert!(storage.load_challenge(challenge_id).is_err());
}

#[test]
fn missing_challenge_is_reported_under_its_id() {
    let storage = test_storage();
    let err = storage.load_challenge("abc-123").unwrap_err();
    assert_eq!(err.kind(), ErrorKind::ChallengeNotFound);
    assert_eq!(err.detail(), "abc-123");
    assert_eq!(err.message(), "Challenge not found: abc-123");
}

#[test]
fn deleting_a_missing_challenge_succeeds() {
    let mut storage = test_storage();
    assert!(storage.delete_challenge("never-stored").is_ok());
}

#[test]
fn saving_a_challenge_twice_keeps_the_later_state() {
    let mut storage = test_storage();
    storage.save_challenge("id", &challenge(ChallengeType::Registration, "a", "rp", "one", "t")).unwrap();
    storage.save_challenge("other", &challenge(ChallengeType::Authentication, "b", "rp", "x", "t")).unwrap();
    storage.save_challenge("id", &challenge(ChallengeType::Authentication, "a", "rp", "two", "t")).unwrap();
    let loaded = storage.load_challenge("id").unwrap();
    assert_eq!(loaded.state, "two");
    assert_eq!(loaded.challenge_type, ChallengeType::Authentication);
    assert_eq!(storage.load_challenge("other").unwrap().state, "x");
}

#[test]
fn cleanup_removes_only_expired_challenges_and_counts_them() {
    let mut storage = test_storage();
    storage.set_time(1_000);
    storage.save_challenge("old", &challenge(ChallengeType::Registration, "a", "rp", "s", "t")).unwrap();
    storage.set_time(1_050);
    storage.save_challenge("at-limit", &challenge(ChallengeType::Registration, "a", "rp", "s", "t")).unwrap();
    storage.set_time(1_100);
    storage.save_challenge("young", &challenge(ChallengeType::Registration, "a", "rp", "s", "t")).unwrap();

    storage.set_time(1_050 + CHALLENGE_MAX_AGE_SECS);
    assert_eq!(storage.cleanup_challenges().unwrap(), 1);
    assert!(storage.load_challenge("old").is_err());
    assert!(storage.load_challenge("at-limit").is_ok());
    assert!(storage.load_challenge("young").is_ok());

    assert_eq!(storage.cleanup_challenges().unwrap(), 0);
    assert!(storage.load_challenge("at-limit").is_ok());

    storage.set_time(1_100 + CHALLENGE_MAX_AGE_SECS + 1);
    assert_eq!(storage.cleanup_challenges().unwrap(), 2);
    assert_eq!(storage.cleanup_challenges().unwrap(), 0);
}

#[test]
fn cleanup_leaves_challenges_stored_in_the_future() {
    let mut storage = test_storage();
    storage.set_time(5_000);
    storage.save_challenge("ahead", &challenge(ChallengeType::Registration, "a", "rp", "s", "t")).unwrap();
    storage.set_time(10);
    assert_eq!(storage.cleanup_challenges().unwrap(), 0);
    assert!(storage.load_challenge("ahead").is_ok());
}

#[test]
fn cleanup_keeps_the_credentials() {
    let mut storage = test_storage();
    let mut store = CredentialStore::new();
    store.insert("root".to_string(), UserRecord { user_id: "h".to_string(), credentials: vec![] });
    storage.save_credentials(&store).unwrap();
    storage.save_challenge("c", &challenge(ChallengeType::Registration, "a", "rp", "s", "t")).unwrap();
    storage.set_time(500);
    assert_eq!(storage.cleanup_challenges().unwrap(), 1);
    assert!(storage.load_credentials().unwrap().contains_key("root"));
}

#[test]
fn max_age_is_two_minutes() {
    assert_eq!(CHALLENGE_MAX_AGE_SECS, 120);
}

#[test]
fn file_storage_knows_its_places() {
    let storage = FileStorage::new();
    assert_eq!(storage.credentials_path(), "/etc/webauthn/credentials.json");
    assert_eq!(storage.challenge_dir(), "/tmp/webauthn/challenges");
    let other = FileStorage::with_paths("/a/creds.json".to_string(), "/b/challenges".to_string());
    assert_eq!(other.credentials_path(), "/a/creds.json");
    assert_eq!(other.challenge_dir(), "/b/challenges");
    assert_eq!(FileStorage::challenge_file_name("abc-123"), "abc-123.json");
}

#[test]
fn missing_credentials_artifact_is_an_empty_store() {
    let store = FileStorage::credentials_from_artifact(Artifact::Missing).unwrap();
    assert!(store.is_empty());
}

#[test]
fn held_credentials_artifact_is_handed_on() {
    let mut held = CredentialStore::new();
    held.insert("root".to_string(), UserRecord { user_id: "h".to_string(), credentials: vec![] });
    let store = FileStorage::credentials_from_artifact(Artifact::Holds(held)).unwrap();
    assert_eq!(store.len(), 1);
    assert!(store.contains_key("root"));
}

fn load_text(text: &str) -> Result<CredentialStore, webauthn_helper::errors::AppError> {
    let found = match serde_json::from_str::<serde_json::Value>(text) {
        Ok(_) => Artifact::Holds(CredentialStore::new()),
        Err(e) => Artifact::Unusable(e.to_string()),
    };
    FileStorage::credentials_from_artifact(found)
}

#[test]
fn corrupted_credentials_json_returns_error_not_panic() {
    let result = load_text("this is {{{ not valid JSON !!!");
    assert!(result.is_err(), "Corrupted JSON must yield Err, not panic");
    let err = result.unwrap_err();
    assert_eq!(err.kind(), ErrorKind::Storage);
    assert_eq!(err.error_code(), "STORAGE_ERROR");
    let err_msg = err.message();
    assert!(!err_msg.is_empty(), "Error message should be non-empty");
}

#[test]
fn empty_credentials_file_returns_error() {
    let result = load_text("");
    assert!(result.is_err(), "Empty file should yield a deserialization error");
    assert_eq!(result.unwrap_err().kind(), ErrorKind::Storage);
}

#[test]
fn truncated_credentials_json_returns_error() {
    let result = load_text(r#"{"users":{"root":{"user_id":"abc","credentials":[{"#);
    assert!(result.is_err(), "Truncated JSON must yield Err");
    assert_eq!(result.unwrap_err().kind(), ErrorKind::Storage);
}

#[test]
fn challenge_artifacts_map_to_results() {
    let missing = FileStorage::challenge_from_artifact("nonexistent-id-12345", Artifact::Missing).unwrap_err();
    assert_eq!(missing.kind(), ErrorKind::ChallengeNotFound);
    assert!(missing.message().contains("nonexistent-id-12345"));
    let broken =
        FileStorage::challenge_from_artifact("x", Artifact::Unusable("expected value".to_string())).unwrap_err();
    assert_eq!(broken.kind(), ErrorKind::Storage);
    assert_eq!(broken.detail(), "expected value");
    let held = challenge(ChallengeType::Authentication, "admin", "example.com", "xyz", "2025-01-01T00:00:00Z");
    let loaded = FileStorage::challenge_from_artifact("x", Artifact::Holds(held)).unwrap();
    assert_eq!(loaded.challenge_type, ChallengeType::Authentication);
    assert_eq!(loaded.username, "admin");
}

#[test]
fn challenge_file_names_end_in_json_after_a_stem() {
    assert!(is_challenge_file_name("abc.json"));
    assert!(is_challenge_file_name("3f2b0c1e-aaaa-bbbb-cccc-0123456789ab.json"));
    assert!(is_challenge_file_name("a.b.json"));
    assert!(is_challenge_file_name("..json"));
    assert!(!is_challenge_file_name(".json"));
    assert!(!is_challenge_file_name("json"));
    assert!(!is_challenge_file_name("abc.JSON"));
    assert!(!is_challenge_file_name("abc.json.tmp"));
    assert!(!is_challenge_file_name("abc.jsonx"));
    assert!(!is_challenge_file_name("abc."));
    assert!(!is_challenge_file_name(""));
    assert!(!is_challenge_file_name(".."));
    assert!(is_challenge_file_name("ключ.json"));
}

fn file(name: &str, age: Option<(u64, u32)>) -> ChallengeFile {
    ChallengeFile { name: name.to_string(), age: age.map(|(secs, nanos)| FileAge { secs, nanos }) }
}

#[test]
fn a_file_is_stale_only_beyond_the_maximum_age() {
    assert!(!is_stale_file(&file("a.json", Some((119, 999_999_999))), 120));
    assert!(!is_stale_file(&file("a.json", Some((120, 0))), 120));
    assert!(is_stale_file(&file("a.json", Some((120, 1))), 120));
    assert!(is_stale_file(&file("a.json", Some((121, 0))), 120));
    assert!(!is_stale_file(&file("a.json", None), 120));
    assert!(!is_stale_file(&file("a.txt", Some((1_000, 0))), 120));
    assert!(!is_stale_file(&file(".json", Some((1_000, 0))), 120));
}

#[test]
fn a_sweep_names_exactly_the_stale_files() {
    let files = vec![
        file("fresh.json", Some((10, 0))),
        file("old.json", Some((500, 0))),
        file("notes.txt", Some((900, 0))),
        file("unknown.json", None),
        file("older.json", Some((121, 5))),
        file("limit.json", Some((120, 0))),
    ];
    assert_eq!(stale_challenge_files(&files, CHALLENGE_MAX_AGE_SECS), vec![1, 4]);
    assert_eq!(stale_challenge_files(&Vec::new(), CHALLENGE_MAX_AGE_SECS), Vec::<usize>::new());
}

#[test]
fn a_second_sweep_finds_nothing() {
    let files = vec![
        file("fresh.json", Some((10, 0))),
        file("old.json", Some((500, 0))),
        file("older.json", Some((121, 5))),
    ];
    let stale = stale_challenge_files(&files, CHALLENGE_MAX_AGE_SECS);
    assert_eq!(stale.len(), 2);
    let left: Vec<ChallengeFile> = files
        .into_iter()
        .enumerate()
        .filter(|(i, _)| !stale.contains(i))
        .map(|(_, f)| f)
        .collect();
    assert_eq!(left.len(), 1);
    assert_eq!(stale_challenge_files(&left, CHALLENGE_MAX_AGE_SECS).len(), 0);
}

#[test]
fn a_sweep_of_a_missing_directory_sets_out_to_remove_nothing() {
    assert_eq!(sweep_plan(None, CHALLENGE_MAX_AGE_SECS), Vec::<usize>::new());
    let files = vec![file("fresh.json", Some((10, 0))), file("old.json", Some((500, 0)))];
    assert_eq!(sweep_plan(Some(&files), CHALLENGE_MAX_AGE_SECS), vec![1]);
    assert_eq!(sweep_plan(Some(&Vec::new()), CHALLENGE_MAX_AGE_SECS), Vec::<usize>::new());
}

#[test]
fn a_sweep_counts_the_files_that_it_removed_itself() {
    assert_eq!(sweep_report(&Vec::new()).unwrap(), 0);
    assert_eq!(sweep_report(&vec![Removal::Removed, Removal::Removed, Removal::Removed]).unwrap(), 3);
    // a file that had vanished is no failure, and is not counted
    assert_eq!(sweep_report(&vec![Removal::Removed, Removal::Vanished, Removal::Removed]).unwrap(), 2);
    assert_eq!(sweep_report(&vec![Removal::Vanished, Removal::Vanished]).unwrap(), 0);
}

#[test]
fn a_sweep_fails_with_the_first_removal_that_failed() {
    let removals = vec![
        Removal::Removed,
        Removal::Failed("permission denied".to_string()),
        Removal::Removed,
        Removal::Failed("busy".to_string()),
    ];
    let err = sweep_report(&removals).unwrap_err();
    assert_eq!(err.kind(), ErrorKind::Io);
    assert_eq!(err.detail(), "permission denied");
    assert_eq!(err.error_code(), "IO_ERROR");
}
