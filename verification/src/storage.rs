//! The durable state of the ceremonies: what is stored, and the interface of the store.

use vstd::prelude::*;
use crate::credential_store::{CredentialStore, UserEntryView};
use crate::errors::{AppError, ErrorKind, ErrorView, is_storage_failure};
use crate::calendar::{format_iso8601, iso8601_text};
use crate::search::{first_index, lemma_first_index_is, lemma_first_index_none};
use crate::text::{chars_of, text_eq};

verus! {

/// The view of an optional string.
pub open spec fn opt_text(o: Option<String>) -> Option<Seq<char>> {
    match o {
        Some(s) => Some(s@),
        None => None,
    }
}

/// Copies an optional string.
pub fn clone_opt_text(o: &Option<String>) -> (r: Option<String>)
    ensures
        opt_text(r) == opt_text(*o),
{
    match o {
        Some(s) => Some(s.clone()),
        None => None,
    }
}

/// Which of the two ceremonies a challenge belongs to.
#[derive(Clone, Copy, Debug, PartialEq, Eq, Structural)]
pub enum ChallengeType {
    Registration,
    Authentication,
}

/// The state of one ceremony between its begin and its finish.
#[derive(Debug)]
pub struct ChallengeState {
    pub challenge_type: ChallengeType,
    /// The user that the ceremony was begun for.
    pub username: String,
    /// The relying party id that the ceremony was begun for.
    pub rp_id: String,
    /// The verification library's own state of the ceremony, in the storage encoding.
    pub state: String,
    pub created_at: String,
}

pub struct ChallengeStateView {
    pub challenge_type: ChallengeType,
    pub username: Seq<char>,
    pub rp_id: Seq<char>,
    pub state: Seq<char>,
    pub created_at: Seq<char>,
}

impl View for ChallengeState {
    type V = ChallengeStateView;

    open spec fn view(&self) -> ChallengeStateView {
        ChallengeStateView {
            challenge_type: self.challenge_type,
            username: self.username@,
            rp_id: self.rp_id@,
            state: self.state@,
            created_at: self.created_at@,
        }
    }
}

impl Clone for ChallengeState {
    fn clone(&self) -> (r: Self)
        ensures
            r@ == self@,
    {
        ChallengeState {
            challenge_type: self.challenge_type,
            username: self.username.clone(),
            rp_id: self.rp_id.clone(),
            state: self.state.clone(),
            created_at: self.created_at.clone(),
        }
    }
}

/// One registered authenticator.
#[derive(Debug)]
pub struct StoredCredential {
    /// The credential's id, in the storage encoding. Ids are meant to be unique over
    /// the whole store, not only within one user.
    pub credential_id: String,
    /// The label that the user gave the authenticator.
    pub device_name: String,
    pub static_state: String,
    pub dynamic_state: String,
    pub user_handle: String,
    pub transports: u8,
    pub created_at: String,
    pub last_used_at: Option<String>,
    pub backup_eligible: bool,
    pub user_verified: bool,
    /// The authenticator's usage counter as last seen.
    pub sign_count: u32,
}

pub struct StoredCredentialView {
    pub credential_id: Seq<char>,
    pub device_name: Seq<char>,
    pub static_state: Seq<char>,
    pub dynamic_state: Seq<char>,
    pub user_handle: Seq<char>,
    pub transports: u8,
    pub created_at: Seq<char>,
    pub last_used_at: Option<Seq<char>>,
    pub backup_eligible: bool,
    pub user_verified: bool,
    pub sign_count: u32,
}

impl View for StoredCredential {
    type V = StoredCredentialView;

    open spec fn view(&self) -> StoredCredentialView {
        StoredCredentialView {
            credential_id: self.credential_id@,
            device_name: self.device_name@,
            static_state: self.static_state@,
            dynamic_state: self.dynamic_state@,
            user_handle: self.user_handle@,
            transports: self.transports,
            created_at: self.created_at@,
            last_used_at: opt_text(self.last_used_at),
            backup_eligible: self.backup_eligible,
            user_verified: self.user_verified,
            sign_count: self.sign_count,
        }
    }
}

impl Clone for StoredCredential {
    fn clone(&self) -> (r: Self)
        ensures
            r@ == self@,
    {
        StoredCredential {
            credential_id: self.credential_id.clone(),
            device_name: self.device_name.clone(),
            static_state: self.static_state.clone(),
            dynamic_state: self.dynamic_state.clone(),
            user_handle: self.user_handle.clone(),
            transports: self.transports,
            created_at: self.created_at.clone(),
            last_used_at: clone_opt_text(&self.last_used_at),
            backup_eligible: self.backup_eligible,
            user_verified: self.user_verified,
            sign_count: self.sign_count,
        }
    }
}

/// The views of a sequence of credentials.
pub open spec fn credential_views(creds: Seq<StoredCredential>) -> Seq<StoredCredentialView> {
    creds.map_values(|c: StoredCredential| c@)
}

/// Copies a list of credentials.
pub fn clone_credentials(creds: &Vec<StoredCredential>) -> (r: Vec<StoredCredential>)
    ensures
        credential_views(r@) == credential_views(creds@),
{
    let mut out: Vec<StoredCredential> = Vec::new();
    let mut i: usize = 0;
    while i < creds.len()
        invariant
            i <= creds.len(),
            out.len() == i,
            forall|j: int| 0 <= j < i ==> out@[j]@ == creds@[j]@,
        decreases creds.len() - i,
    {
        out.push(creds[i].clone());
        i += 1;
    }
    assert(credential_views(out@) =~= credential_views(creds@));
    out
}

/// What is stored for one user: a stable handle and the user's credentials in the
/// order in which they were registered.
#[derive(Debug)]
pub struct UserRecord {
    pub user_id: String,
    pub credentials: Vec<StoredCredential>,
}

pub struct UserRecordView {
    pub user_id: Seq<char>,
    pub credentials: Seq<StoredCredentialView>,
}

impl View for UserRecord {
    type V = UserRecordView;

    open spec fn view(&self) -> UserRecordView {
        UserRecordView { user_id: self.user_id@, credentials: credential_views(self.credentials@) }
    }
}

impl Clone for UserRecord {
    fn clone(&self) -> (r: Self)
        ensures
            r@ == self@,
    {
        UserRecord { user_id: self.user_id.clone(), credentials: clone_credentials(&self.credentials) }
    }
}

/// What is stored of the credentials, as contracts see it: the entries of the
/// aggregate in their order.
pub type StoredCredentials = Seq<UserEntryView>;

/// What is stored of the challenges, as contracts see it: each challenge under its id.
pub type StoredChallenges = Map<Seq<char>, ChallengeStateView>;

/// The ids of challenges that have expired, as contracts see them.
pub type ExpiredChallenges = Set<Seq<char>>;

/// A place in the file system, as contracts see it.
pub type Location = Seq<char>;

/// The interface of the durable store. A challenge is stored under its id from the
/// begin of a ceremony until it is deleted; the credentials form one aggregate that is
/// read and replaced as a whole. An implementation is free to fail on any call, except
/// that looking up an id under which nothing is stored reports exactly that.
pub trait StorageProvider {
    /// The credential aggregate that is stored, seen as a load returns it.
    spec fn credentials(&self) -> StoredCredentials;

    /// The challenges that are stored, by id.
    spec fn challenges(&self) -> StoredChallenges;

    /// The ids of the stored challenges that have outlived
    /// [`CHALLENGE_MAX_AGE_SECS`], as a sweep finds them.
    spec fn expired(&self) -> ExpiredChallenges;

    /// Reads the credential aggregate. A store that was never written is empty.
    fn load_credentials(&self) -> (r: Result<CredentialStore, AppError>)
        ensures
            match r {
                Ok(store) => store@ == self.credentials(),
                Err(e) => is_storage_failure(e@.kind),
            },
    ;

    /// Replaces the credential aggregate. After a failure nothing is known of it.
    fn save_credentials(&mut self, store: &CredentialStore) -> (r: Result<(), AppError>)
        ensures
            final(self).challenges() == old(self).challenges(),
            match r {
                Ok(()) => final(self).credentials() == store@,
                Err(e) => is_storage_failure(e@.kind),
            },
    ;

    /// Reads the challenge stored under an id.
    fn load_challenge(&self, challenge_id: &str) -> (r: Result<ChallengeState, AppError>)
        ensures
            match r {
                Ok(state) => self.challenges().contains_key(challenge_id@) && self.challenges()[challenge_id@]
                    == state@,
                Err(e) => if self.challenges().contains_key(challenge_id@) {
                    is_storage_failure(e@.kind)
                } else {
                    e@ == (ErrorView { kind: ErrorKind::ChallengeNotFound, detail: challenge_id@ })
                },
            },
    ;

    /// Stores a challenge under an id. After a failure nothing is known of what is
    /// stored under that id.
    fn save_challenge(&mut self, challenge_id: &str, state: &ChallengeState) -> (r: Result<(), AppError>)
        ensures
            final(self).credentials() == old(self).credentials(),
            final(self).challenges().remove(challenge_id@) == old(self).challenges().remove(challenge_id@),
            match r {
                Ok(()) => final(self).challenges() == old(self).challenges().insert(challenge_id@, state@),
                Err(e) => is_storage_failure(e@.kind),
            },
    ;

    /// Deletes the challenge stored under an id. Deleting what is not there succeeds.
    fn delete_challenge(&mut self, challenge_id: &str) -> (r: Result<(), AppError>)
        ensures
            final(self).credentials() == old(self).credentials(),
            match r {
                Ok(()) => final(self).challenges() == old(self).challenges().remove(challenge_id@),
                Err(e) => is_storage_failure(e@.kind) && final(self).challenges() == old(self).challenges(),
            },
    ;

    /// Deletes the challenges that have outlived [`CHALLENGE_MAX_AGE_SECS`] and returns
    /// how many it deleted. No other challenge is touched. After a failure some of
    /// them may be gone.
    fn cleanup_challenges(&mut self) -> (r: Result<usize, AppError>)
        ensures
            final(self).credentials() == old(self).credentials(),
            final(self).challenges().submap_of(old(self).challenges()),
            match r {
                Ok(n) => {
                    &&& final(self).challenges() == old(self).challenges().remove_keys(old(self).expired())
                    &&& n == 0 ==> final(self).challenges() == old(self).challenges()
                    &&& old(self).challenges().dom().finite() ==> {
                        n + final(self).challenges().dom().len() == old(self).challenges().dom().len()
                    }
                },
                Err(e) => is_storage_failure(e@.kind),
            },
    ;

    /// Where the credential aggregate is kept.
    spec fn location(&self) -> Location;

    /// Where the credential aggregate is kept, for reports.
    fn credentials_path(&self) -> (path: &str)
        ensures
            path@ == self.location(),
    ;
}

/// What a store holds, as contracts see it, and which of its challenges have
/// expired.
pub struct Stored {
    pub credentials: StoredCredentials,
    pub challenges: StoredChallenges,
    pub expired: ExpiredChallenges,
}

/// What a store holds.
pub open spec fn state_of<S: StorageProvider>(storage: S) -> Stored {
    Stored { credentials: storage.credentials(), challenges: storage.challenges(), expired: storage.expired() }
}

/// A challenge older than this many seconds has expired.
pub const CHALLENGE_MAX_AGE_SECS: u64 = 120;

/// Where the file-backed store keeps its artifacts: the credential aggregate in one
/// file, each challenge in a file of its own in one directory.
#[derive(Debug)]
pub struct FileStorage {
    credentials_path: String,
    challenge_dir: String,
}

impl FileStorage {
    /// The store at its fixed places.
    pub fn new() -> (storage: Self)
        ensures
            storage.credentials_file() == "/etc/webauthn/credentials.json"@,
            storage.challenge_directory() == "/tmp/webauthn/challenges"@,
    {
        FileStorage {
            credentials_path: "/etc/webauthn/credentials.json".to_owned(),
            challenge_dir: "/tmp/webauthn/challenges".to_owned(),
        }
    }

    /// A store at places of the caller's choice.
    pub fn with_paths(credentials_path: String, challenge_dir: String) -> (storage: Self)
        ensures
            storage.credentials_file() == credentials_path@,
            storage.challenge_directory() == challenge_dir@,
    {
        FileStorage { credentials_path, challenge_dir }
    }

    /// The path of the credential aggregate.
    pub closed spec fn credentials_file(&self) -> Seq<char> {
        self.credentials_path@
    }

    /// The path of the directory of the challenges.
    pub closed spec fn challenge_directory(&self) -> Seq<char> {
        self.challenge_dir@
    }

    /// The path of the credential aggregate.
    pub fn credentials_path(&self) -> (path: &str)
        ensures
            path@ == self.credentials_file(),
    {
        self.credentials_path.as_str()
    }

    /// The path of the directory of the challenges.
    pub fn challenge_dir(&self) -> (path: &str)
        ensures
            path@ == self.challenge_directory(),
    {
        self.challenge_dir.as_str()
    }

    /// The name of the file that holds the challenge of the given id.
    pub fn challenge_file_name(challenge_id: &str) -> (name: String)
        ensures
            name@ == challenge_id@ + ".json"@,
    {
        let mut name = challenge_id.to_owned();
        name.append(".json");
        name
    }
}

/// What was found where an artifact is kept: nothing, something that cannot be read
/// or understood, with the reason, or the value that it holds.
#[derive(Debug)]
pub enum Artifact<T> {
    Missing,
    Unusable(String),
    Holds(T),
}

impl FileStorage {
    /// What a load of the credential aggregate returns for what was found in its
    /// place: an aggregate that was never written is empty, one that cannot be read or
    /// understood is a storage error.
    pub fn credentials_from_artifact(found: Artifact<CredentialStore>) -> (r: Result<CredentialStore, AppError>)
        ensures
            match found {
                Artifact::Missing => r matches Ok(store) && store@ == Seq::<UserEntryView>::empty(),
                Artifact::Unusable(reason) => r matches Err(e) && e@ == (ErrorView {
                    kind: ErrorKind::Storage,
                    detail: reason@,
                }),
                Artifact::Holds(held) => r matches Ok(store) && store@ == held@,
            },
    {
        match found {
            Artifact::Missing => Ok(CredentialStore::new()),
            Artifact::Unusable(reason) => Err(AppError::Storage(reason)),
            Artifact::Holds(held) => Ok(held),
        }
    }

    /// What a load of a challenge returns for what was found in its place: a challenge
    /// that is not there is reported as not found, under its id, one that cannot be
    /// read or understood is a storage error.
    pub fn challenge_from_artifact(challenge_id: &str, found: Artifact<ChallengeState>) -> (r: Result<
        ChallengeState,
        AppError,
    >)
        ensures
            match found {
                Artifact::Missing => r matches Err(e) && e@ == (ErrorView {
                    kind: ErrorKind::ChallengeNotFound,
                    detail: challenge_id@,
                }),
                Artifact::Unusable(reason) => r matches Err(e) && e@ == (ErrorView {
                    kind: ErrorKind::Storage,
                    detail: reason@,
                }),
                Artifact::Holds(held) => r matches Ok(state) && state@ == held@,
            },
    {
        match found {
            Artifact::Missing => Err(AppError::ChallengeNotFound(challenge_id.to_owned())),
            Artifact::Unusable(reason) => Err(AppError::Storage(reason)),
            Artifact::Holds(held) => Ok(held),
        }
    }
}

/// How long ago a file was last written.
#[derive(Clone, Copy, Debug, PartialEq, Eq, Structural)]
pub struct FileAge {
    pub secs: u64,
    /// The part of a second beyond `secs`, in nanoseconds.
    pub nanos: u32,
}

/// One entry of the directory of the challenges: the name of the file and its age,
/// where the age is known and the file was not written in the future.
#[derive(Debug)]
pub struct ChallengeFile {
    pub name: String,
    pub age: Option<FileAge>,
}

pub struct ChallengeFileView {
    pub name: Seq<char>,
    pub age: Option<FileAge>,
}

impl View for ChallengeFile {
    type V = ChallengeFileView;

    open spec fn view(&self) -> ChallengeFileView {
        ChallengeFileView { name: self.name@, age: self.age }
    }
}

/// The views of a sequence of directory entries.
pub open spec fn file_views(files: Seq<ChallengeFile>) -> Seq<ChallengeFileView> {
    files.map_values(|f: ChallengeFile| f@)
}

/// Whether a file name ends in `.json` after a stem that is not empty.
pub open spec fn has_json_extension(name: Seq<char>) -> bool {
    match name.index_of_last('.') {
        Some(k) => k > 0 && name.skip(k + 1) == "json"@,
        None => false,
    }
}

/// Whether an age is more than `max_secs` seconds.
pub open spec fn older_than(age: FileAge, max_secs: u64) -> bool {
    age.secs > max_secs || (age.secs == max_secs && age.nanos > 0)
}

/// Whether a directory entry is a challenge that has outlived `max_secs` seconds.
pub open spec fn is_stale(file: ChallengeFileView, max_secs: u64) -> bool {
    has_json_extension(file.name) && file.age is Some && older_than(file.age->0, max_secs)
}

/// Selects the stale entries.
pub open spec fn stale(max_secs: u64) -> spec_fn(ChallengeFileView) -> bool {
    |f: ChallengeFileView| is_stale(f, max_secs)
}

/// Selects the entries that are not stale.
pub open spec fn fresh(max_secs: u64) -> spec_fn(ChallengeFileView) -> bool {
    |f: ChallengeFileView| !is_stale(f, max_secs)
}

/// Whether a file name ends in `.json` after a stem that is not empty.
pub fn is_challenge_file_name(name: &str) -> (b: bool)
    ensures
        b == has_json_extension(name@),
{
    let chars = chars_of(name);
    let mut cut: usize = chars.len();
    let mut found: bool = false;
    while cut > 0 && !found
        invariant
            cut <= chars.len(),
            !found ==> forall|j: int| cut <= j < chars.len() ==> chars@[j] != '.',
            found ==> cut < chars.len() && chars@[cut as int] == '.' && forall|j: int|
                cut < j < chars.len() ==> chars@[j] != '.',
        decreases cut + if found { 0int } else { 1int },
    {
        cut -= 1;
        if chars[cut] == '.' {
            found = true;
        }
    }
    proof {
        name@.index_of_last_ensures('.');
        if found {
            assert(name@.contains('.'));
        } else {
            if name@.contains('.') {
                let k = choose|k: int| 0 <= k < name@.len() && name@[k] == '.';
                assert(chars@[k] != '.');
            }
        }
    }
    if !found || cut == 0 {
        return false;
    }
    text_eq(name.substring_char(cut + 1, chars.len()), "json")
}

/// Whether a directory entry is a challenge that has outlived `max_age_secs` seconds.
pub fn is_stale_file(file: &ChallengeFile, max_age_secs: u64) -> (b: bool)
    ensures
        b == is_stale(file@, max_age_secs),
{
    match file.age {
        Some(age) => (age.secs > max_age_secs || (age.secs == max_age_secs && age.nanos > 0))
            && is_challenge_file_name(file.name.as_str()),
        None => false,
    }
}

/// The positions of the stale entries among `files`, in ascending order: the files
/// that a sweep is to delete. Their number is the number of stale entries.
pub fn stale_challenge_files(files: &Vec<ChallengeFile>, max_age_secs: u64) -> (positions: Vec<usize>)
    ensures
        forall|k: int| 0 <= k < positions.len() ==> (#[trigger] positions@[k]) < files.len() && is_stale(
            files@[positions@[k] as int]@,
            max_age_secs,
        ),
        forall|k: int, l: int| 0 <= k < l < positions.len() ==> positions@[k] < positions@[l],
        forall|i: int| 0 <= i < files.len() && is_stale(#[trigger] files@[i]@, max_age_secs) ==> positions@.contains(
            i as usize,
        ),
        positions.len() == file_views(files@).filter(stale(max_age_secs)).len(),
{
    let ghost all = file_views(files@);
    let ghost p = stale(max_age_secs);
    let mut positions: Vec<usize> = Vec::new();
    let mut i: usize = 0;
    proof {
        reveal(Seq::filter);
        assert(all.take(0).filter(p) =~= Seq::<ChallengeFileView>::empty());
    }
    while i < files.len()
        invariant
            i <= files.len(),
            all == file_views(files@),
            p == stale(max_age_secs),
            forall|k: int| 0 <= k < positions.len() ==> (#[trigger] positions@[k]) < i && is_stale(
                files@[positions@[k] as int]@,
                max_age_secs,
            ),
            forall|k: int, l: int| 0 <= k < l < positions.len() ==> positions@[k] < positions@[l],
            forall|m: int| 0 <= m < i && is_stale(#[trigger] files@[m]@, max_age_secs) ==> positions@.contains(
                m as usize,
            ),
            positions.len() == all.take(i as int).filter(p).len(),
        decreases files.len() - i,
    {
        proof {
            reveal(Seq::filter);
            assert(all.take(i + 1).drop_last() =~= all.take(i as int));
            assert(all.take(i + 1).last() == files@[i as int]@);
        }
        let ghost before = positions@;
        if is_stale_file(&files[i], max_age_secs) {
            positions.push(i);
            proof {
                assert(positions@[positions.len() - 1] == i);
                assert forall|m: int|
                    0 <= m < i + 1 && is_stale(#[trigger] files@[m]@, max_age_secs) implies positions@.contains(
                    m as usize,
                ) by {
                    if m < i {
                        assert(before.contains(m as usize));
                        let k = choose|k: int| 0 <= k < before.len() && before[k] == m as usize;
                        assert(positions@[k] == m as usize);
                    }
                }
            }
        }
        i += 1;
    }
    assert(all.take(i as int) =~= all);
    positions
}

/// A sweep over what a sweep has left finds nothing to delete.
pub proof fn lemma_second_sweep_finds_nothing(files: Seq<ChallengeFileView>, max_secs: u64)
    ensures
        files.filter(fresh(max_secs)).filter(stale(max_secs)).len() == 0,
    decreases files.len(),
{
    reveal(Seq::filter);
    let left = files.filter(fresh(max_secs));
    if files.len() > 0 {
        lemma_second_sweep_finds_nothing(files.drop_last(), max_secs);
        if fresh(max_secs)(files.last()) {
            assert(left.drop_last() =~= files.drop_last().filter(fresh(max_secs)));
        }
    }
}

/// The files that a sweep sets out to remove, by their positions in the listing of the
/// challenge directory: the stale ones, and none where the directory is missing and
/// there is no listing.
pub fn sweep_plan(listing: Option<&Vec<ChallengeFile>>, max_age_secs: u64) -> (positions: Vec<usize>)
    ensures
        match listing {
            None => positions.len() == 0,
            Some(files) => {
                &&& forall|k: int|
                    0 <= k < positions.len() ==> (#[trigger] positions@[k]) < files.len() && is_stale(
                        files@[positions@[k] as int]@,
                        max_age_secs,
                    )
                &&& forall|k: int, l: int| 0 <= k < l < positions.len() ==> positions@[k] < positions@[l]
                &&& forall|i: int|
                    0 <= i < files.len() && is_stale(#[trigger] files@[i]@, max_age_secs) ==> positions@.contains(
                        i as usize,
                    )
                &&& positions.len() == file_views(files@).filter(stale(max_age_secs)).len()
            },
        },
{
    match listing {
        None => Vec::new(),
        Some(files) => stale_challenge_files(files, max_age_secs),
    }
}

/// What became of a file that a sweep set out to remove.
#[derive(Debug)]
pub enum Removal {
    /// The file was removed.
    Removed,
    /// The file was gone already: another invocation had used the challenge up or
    /// swept it.
    Vanished,
    /// The file could not be removed, for the reason given.
    Failed(String),
}

/// Selects the removals that failed.
pub open spec fn is_failed() -> spec_fn(Removal) -> bool {
    |removal: Removal| removal is Failed
}

/// The number of files that were removed among `removals`.
pub open spec fn removed_count(removals: Seq<Removal>) -> nat
    decreases removals.len(),
{
    if removals.len() == 0 {
        0
    } else {
        removed_count(removals.drop_last()) + if removals.last() is Removed {
            1nat
        } else {
            0nat
        }
    }
}

/// What a sweep reports, given what became of the files that it set out to remove, in
/// their order. A removal that failed fails the sweep, the first of them with its
/// reason. Otherwise the sweep reports the number of files that it removed itself: a
/// file that had vanished is no failure and is not counted.
pub fn sweep_report(removals: &Vec<Removal>) -> (r: Result<usize, AppError>)
    ensures
        match first_index(removals@, is_failed()) {
            Some(k) => r matches Err(e) && e@ == (ErrorView { kind: ErrorKind::Io, detail: removals@[k]->Failed_0@ }),
            None => r matches Ok(count) && count == removed_count(removals@),
        },
{
    let mut count: usize = 0;
    let mut i: usize = 0;
    while i < removals.len()
        invariant
            i <= removals.len(),
            count <= i,
            count == removed_count(removals@.take(i as int)),
            forall|j: int| 0 <= j < i ==> !is_failed()(#[trigger] removals@[j]),
        decreases removals.len() - i,
    {
        proof {
            assert(removals@.take(i + 1).drop_last() =~= removals@.take(i as int));
            assert(removals@.take(i + 1).last() == removals@[i as int]);
        }
        match &removals[i] {
            Removal::Removed => {
                count += 1;
            },
            Removal::Vanished => {},
            Removal::Failed(reason) => {
                proof {
                    lemma_first_index_is(removals@, is_failed(), i as int);
                }
                return Err(AppError::Io(reason.clone()));
            },
        }
        i += 1;
    }
    proof {
        assert(removals@.take(i as int) =~= removals@);
        lemma_first_index_none(removals@, is_failed());
    }
    Ok(count)
}

/// A sweep in which no removal failed and every file had vanished reports that it
/// removed nothing.
pub proof fn lemma_vanished_files_are_not_counted(removals: Seq<Removal>)
    requires
        forall|j: int| 0 <= j < removals.len() ==> #[trigger] removals[j] is Vanished,
    ensures
        first_index(removals, is_failed()) is None,
        removed_count(removals) == 0,
    decreases removals.len(),
{
    lemma_first_index_none(removals, is_failed());
    if removals.len() > 0 {
        lemma_vanished_files_are_not_counted(removals.drop_last());
    }
}

/// `SystemTime::now` with `duration_since` from `UNIX_EPOCH`, as whole seconds: the
/// seconds since the first day of 1970 began, and `None` where the clock stands
/// before that day.
#[verifier::external_body]
fn unix_time_secs() -> (secs: Option<u64>) {
    match std::time::SystemTime::now().duration_since(std::time::UNIX_EPOCH) {
        Ok(elapsed) => Some(elapsed.as_secs()),
        Err(_) => None,
    }
}

/// The text of the present point in time. A clock that stands before the first day
/// of 1970 is read as the beginning of that day.
pub fn now_iso8601() -> (text: String)
    ensures
        exists|secs: nat| secs <= u64::MAX && text@ == iso8601_text(secs),
{
    let secs: u64 = match unix_time_secs() {
        Some(secs) => secs,
        None => 0,
    };
    let text = format_iso8601(secs);
    assert(secs as nat <= u64::MAX && text@ == iso8601_text(secs as nat));
    text
}

} // verus!
