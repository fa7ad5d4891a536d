//! The aggregate of registered credentials: one record per user name.

use vstd::prelude::*;
use crate::search::{first_index, lemma_first_index, lemma_first_index_is, lemma_first_index_none};
use crate::storage::{
    credential_views, opt_text, StoredCredential, StoredCredentialView, UserRecord, UserRecordView,
};
use crate::text::text_eq;

verus! {

/// One user's name with what is stored for the user.
#[derive(Debug)]
pub struct UserEntry {
    pub username: String,
    pub record: UserRecord,
}

pub struct UserEntryView {
    pub username: Seq<char>,
    pub record: UserRecordView,
}

impl View for UserEntry {
    type V = UserEntryView;

    open spec fn view(&self) -> UserEntryView {
        UserEntryView { username: self.username@, record: self.record@ }
    }
}

impl Clone for UserEntry {
    fn clone(&self) -> (r: Self)
        ensures
            r@ == self@,
    {
        UserEntry { username: self.username.clone(), record: self.record.clone() }
    }
}

/// The views of a sequence of entries.
pub open spec fn entry_views(entries: Seq<UserEntry>) -> Seq<UserEntryView> {
    entries.map_values(|e: UserEntry| e@)
}

/// No user name occurs in two entries.
pub open spec fn names_distinct(users: Seq<UserEntryView>) -> bool {
    forall|i: int, j: int|
        0 <= i < users.len() && 0 <= j < users.len() && i != j ==> (#[trigger] users[i]).username != (
        #[trigger] users[j]).username
}

/// Selects the entries of one user name.
pub open spec fn is_named(name: Seq<char>) -> spec_fn(UserEntryView) -> bool {
    |e: UserEntryView| e.username == name
}

/// Selects the credentials with one id.
pub open spec fn has_id(id: Seq<char>) -> spec_fn(StoredCredentialView) -> bool {
    |c: StoredCredentialView| c.credential_id == id
}

/// Selects the credentials with any other id than the given one.
pub open spec fn has_other_id(id: Seq<char>) -> spec_fn(StoredCredentialView) -> bool {
    |c: StoredCredentialView| c.credential_id != id
}

/// Selects the entries that hold a credential with the given id.
pub open spec fn holds_id(id: Seq<char>) -> spec_fn(UserEntryView) -> bool {
    |e: UserEntryView| credential_index(e.record.credentials, id) is Some
}

/// Where the first credential with the given id stands among `creds`.
pub open spec fn credential_index(creds: Seq<StoredCredentialView>, id: Seq<char>) -> Option<int> {
    first_index(creds, has_id(id))
}

/// Where the entry of the given user stands in the store.
pub open spec fn user_index(users: Seq<UserEntryView>, name: Seq<char>) -> Option<int> {
    first_index(users, is_named(name))
}

/// Where the first entry that holds a credential with the given id stands in the store.
pub open spec fn owner_index(users: Seq<UserEntryView>, id: Seq<char>) -> Option<int> {
    first_index(users, holds_id(id))
}

/// The record stored for a user, if there is one.
pub open spec fn user_record(users: Seq<UserEntryView>, name: Seq<char>) -> Option<UserRecordView> {
    match user_index(users, name) {
        Some(i) => Some(users[i].record),
        None => None,
    }
}

/// The credentials stored for a user; none where the user is unknown.
pub open spec fn credentials_of(users: Seq<UserEntryView>, name: Seq<char>) -> Seq<StoredCredentialView> {
    match user_index(users, name) {
        Some(i) => users[i].record.credentials,
        None => Seq::empty(),
    }
}

/// The entry `e` with its credentials replaced.
pub open spec fn entry_with_credentials(e: UserEntryView, credentials: Seq<StoredCredentialView>) -> UserEntryView {
    UserEntryView { username: e.username, record: UserRecordView { user_id: e.record.user_id, credentials } }
}

/// The store after `record` was put under `name`, in place of what was there.
pub open spec fn with_user(users: Seq<UserEntryView>, name: Seq<char>, record: UserRecordView) -> Seq<UserEntryView> {
    match user_index(users, name) {
        Some(i) => users.update(i, UserEntryView { username: name, record }),
        None => users.push(UserEntryView { username: name, record }),
    }
}

/// The store after `credential` was appended to the record of `name`. A user without
/// a record gets one, with `user_id` as its handle.
pub open spec fn with_credential(
    users: Seq<UserEntryView>,
    name: Seq<char>,
    user_id: Seq<char>,
    credential: StoredCredentialView,
) -> Seq<UserEntryView> {
    match user_index(users, name) {
        Some(i) => users.update(i, entry_with_credentials(users[i], users[i].record.credentials.push(credential))),
        None => users.push(
            UserEntryView { username: name, record: UserRecordView { user_id, credentials: seq![credential] } },
        ),
    }
}

/// The store after the first user that holds a credential with the given id has lost
/// every credential with that id.
pub open spec fn without_credential(users: Seq<UserEntryView>, id: Seq<char>) -> Seq<UserEntryView> {
    match owner_index(users, id) {
        Some(i) => users.update(
            i,
            entry_with_credentials(users[i], users[i].record.credentials.filter(has_other_id(id))),
        ),
        None => users,
    }
}

/// The label of the first credential with the given id, looked for user by user.
pub open spec fn device_name_of(users: Seq<UserEntryView>, id: Seq<char>) -> Option<Seq<char>> {
    match owner_index(users, id) {
        Some(i) => {
            let creds = users[i].record.credentials;
            Some(creds[credential_index(creds, id).unwrap()].device_name)
        },
        None => None,
    }
}

/// The store after the first credential with the given id, looked for user by user,
/// got a new label.
pub open spec fn renamed(users: Seq<UserEntryView>, id: Seq<char>, new_name: Seq<char>) -> Seq<UserEntryView> {
    match owner_index(users, id) {
        Some(i) => {
            let creds = users[i].record.credentials;
            let j = credential_index(creds, id).unwrap();
            users.update(
                i,
                entry_with_credentials(
                    users[i],
                    creds.update(j, StoredCredentialView { device_name: new_name, ..creds[j] }),
                ),
            )
        },
        None => users,
    }
}

/// What a successful authentication changes in a credential.
pub struct UsageUpdate {
    pub dynamic_state: String,
    pub sign_count: u32,
    pub user_verified: bool,
    pub backup_eligible: bool,
    pub last_used_at: String,
}

pub struct UsageUpdateView {
    pub dynamic_state: Seq<char>,
    pub sign_count: u32,
    pub user_verified: bool,
    pub backup_eligible: bool,
    pub last_used_at: Seq<char>,
}

impl View for UsageUpdate {
    type V = UsageUpdateView;

    open spec fn view(&self) -> UsageUpdateView {
        UsageUpdateView {
            dynamic_state: self.dynamic_state@,
            sign_count: self.sign_count,
            user_verified: self.user_verified,
            backup_eligible: self.backup_eligible,
            last_used_at: self.last_used_at@,
        }
    }
}

/// The credential `c` after the usage `u` was recorded in it.
pub open spec fn used(c: StoredCredentialView, u: UsageUpdateView) -> StoredCredentialView {
    StoredCredentialView {
        dynamic_state: u.dynamic_state,
        sign_count: u.sign_count,
        user_verified: u.user_verified,
        backup_eligible: u.backup_eligible,
        last_used_at: Some(u.last_used_at),
        ..c
    }
}

/// The store after the usage `u` was recorded in the first credential of user `name`
/// with the given id. Nothing changes where the user or the credential is missing.
pub open spec fn with_usage(
    users: Seq<UserEntryView>,
    name: Seq<char>,
    id: Seq<char>,
    u: UsageUpdateView,
) -> Seq<UserEntryView> {
    match user_index(users, name) {
        Some(i) => {
            let creds = users[i].record.credentials;
            match credential_index(creds, id) {
                Some(j) => users.update(i, entry_with_credentials(users[i], creds.update(j, used(creds[j], u)))),
                None => users,
            }
        },
        None => users,
    }
}

/// The number of credentials in the whole store.
pub open spec fn total_credentials(users: Seq<UserEntryView>) -> nat
    decreases users.len(),
{
    if users.len() == 0 {
        0
    } else {
        total_credentials(users.drop_last()) + users.last().record.credentials.len()
    }
}

impl UserRecord {
    /// Where the first credential with the given id stands in this record.
    pub fn find_credential(&self, credential_id: &str) -> (found: Option<usize>)
        ensures
            match found {
                Some(j) => j < self@.credentials.len() && credential_index(self@.credentials, credential_id@) == Some(
                    j as int,
                ),
                None => credential_index(self@.credentials, credential_id@) is None,
            },
    {
        let ghost creds = self@.credentials;
        let mut j: usize = 0;
        while j < self.credentials.len()
            invariant
                j <= self.credentials.len(),
                creds == self@.credentials,
                forall|k: int| 0 <= k < j ==> !has_id(credential_id@)(#[trigger] creds[k]),
            decreases self.credentials.len() - j,
        {
            if text_eq(self.credentials[j].credential_id.as_str(), credential_id) {
                proof {
                    lemma_first_index_is(creds, has_id(credential_id@), j as int);
                }
                return Some(j);
            }
            j += 1;
        }
        proof {
            lemma_first_index_none(creds, has_id(credential_id@));
        }
        None
    }
}


/// The credentials of every user, keyed by user name. No name has two entries; the
/// entries keep the order in which they were put in.
#[derive(Debug)]
pub struct CredentialStore {
    users: Vec<UserEntry>,
}

impl View for CredentialStore {
    type V = Seq<UserEntryView>;

    closed spec fn view(&self) -> Seq<UserEntryView> {
        entry_views(self.users@)
    }
}

impl Clone for CredentialStore {
    fn clone(&self) -> (r: Self)
        ensures
            r@ == self@,
    {
        proof {
            use_type_invariant(self);
        }
        let mut users: Vec<UserEntry> = Vec::new();
        let mut i: usize = 0;
        while i < self.users.len()
            invariant
                i <= self.users.len(),
                users.len() == i,
                forall|k: int| 0 <= k < i ==> users@[k]@ == self.users@[k]@,
            decreases self.users.len() - i,
        {
            users.push(self.users[i].clone());
            i += 1;
        }
        assert(entry_views(users@) =~= entry_views(self.users@));
        CredentialStore { users }
    }
}

impl CredentialStore {
    #[verifier::type_invariant]
    spec fn distinct(&self) -> bool {
        names_distinct(entry_views(self.users@))
    }

    /// A store without any user.
    pub fn new() -> (store: Self)
        ensures
            store@ == Seq::<UserEntryView>::empty(),
    {
        let store = CredentialStore { users: Vec::new() };
        assert(store@ =~= Seq::<UserEntryView>::empty());
        store
    }

    /// States what holds of every store: no user name has two entries.
    pub fn names_are_distinct(&self)
        ensures
            names_distinct(self@),
    {
        proof {
            use_type_invariant(self);
        }
    }

    /// The number of users.
    pub fn len(&self) -> (n: usize)
        ensures
            n == self@.len(),
    {
        self.users.len()
    }

    /// Whether the store has no user.
    pub fn is_empty(&self) -> (b: bool)
        ensures
            b == (self@.len() == 0),
    {
        self.users.len() == 0
    }

    /// The entry at a position, in the order in which the users were put in.
    pub fn entry(&self, i: usize) -> (e: &UserEntry)
        requires
            i < self@.len(),
        ensures
            e@ == self@[i as int],
    {
        &self.users[i]
    }

    /// Where the entry of a user stands.
    pub fn position(&self, username: &str) -> (found: Option<usize>)
        ensures
            match found {
                Some(i) => i < self@.len() && user_index(self@, username@) == Some(i as int),
                None => user_index(self@, username@) is None,
            },
    {
        let mut i: usize = 0;
        while i < self.users.len()
            invariant
                i <= self.users.len(),
                forall|k: int| 0 <= k < i ==> !is_named(username@)(#[trigger] self@[k]),
            decreases self.users.len() - i,
        {
            if text_eq(self.users[i].username.as_str(), username) {
                proof {
                    lemma_first_index_is(self@, is_named(username@), i as int);
                }
                return Some(i);
            }
            i += 1;
        }
        proof {
            lemma_first_index_none(self@, is_named(username@));
        }
        None
    }

    /// Whether the user has a record.
    pub fn contains_key(&self, username: &str) -> (b: bool)
        ensures
            b == user_record(self@, username@).is_some(),
    {
        self.position(username).is_some()
    }

    /// The record of a user.
    pub fn get(&self, username: &str) -> (record: Option<&UserRecord>)
        ensures
            match record {
                Some(r) => user_record(self@, username@) == Some(r@),
                None => user_record(self@, username@) is None,
            },
    {
        match self.position(username) {
            Some(i) => Some(&self.users[i].record),
            None => None,
        }
    }

    /// Takes the entries out, leaving the store empty.
    fn take_users(&mut self) -> (users: Vec<UserEntry>)
        ensures
            users@ == old(self).users@,
            final(self).users@.len() == 0,
    {
        let mut users: Vec<UserEntry> = Vec::new();
        core::mem::swap(&mut self.users, &mut users);
        users
    }

    /// Puts entries into a store that was left empty.
    fn put_users(&mut self, users: Vec<UserEntry>)
        requires
            names_distinct(entry_views(users@)),
        ensures
            final(self).users@ == users@,
    {
        let mut users = users;
        core::mem::swap(&mut self.users, &mut users);
    }

    /// Puts `record` under `username`, in place of what was there.
    pub fn insert(&mut self, username: String, record: UserRecord)
        ensures
            final(self)@ == with_user(old(self)@, username@, record@),
    {
        proof {
            use_type_invariant(&*self);
            lemma_first_index(self@, is_named(username@));
        }
        let found = self.position(username.as_str());
        let ghost before = self@;
        let mut users = self.take_users();
        match found {
            Some(i) => {
                users[i].record = record;
                assert(entry_views(users@) =~= before.update(
                    i as int,
                    UserEntryView { username: username@, record: record@ },
                ));
            },
            None => {
                let ghost added = UserEntryView { username: username@, record: record@ };
                users.push(UserEntry { username, record });
                assert(entry_views(users@) =~= before.push(added));
            },
        }
        self.put_users(users);
    }

    /// Where the first entry that holds a credential with the given id stands.
    pub fn owner_position(&self, credential_id: &str) -> (found: Option<usize>)
        ensures
            match found {
                Some(i) => i < self@.len() && owner_index(self@, credential_id@) == Some(i as int),
                None => owner_index(self@, credential_id@) is None,
            },
    {
        let mut i: usize = 0;
        while i < self.users.len()
            invariant
                i <= self.users.len(),
                forall|k: int| 0 <= k < i ==> !holds_id(credential_id@)(#[trigger] self@[k]),
            decreases self.users.len() - i,
        {
            if self.users[i].record.find_credential(credential_id).is_some() {
                proof {
                    lemma_first_index_is(self@, holds_id(credential_id@), i as int);
                }
                return Some(i);
            }
            i += 1;
        }
        proof {
            lemma_first_index_none(self@, holds_id(credential_id@));
        }
        None
    }

    /// Appends `credential` to the record of `username`. A user without a record gets
    /// one, with `user_id` as its handle.
    pub fn add_credential(&mut self, username: &str, user_id: String, credential: StoredCredential)
        ensures
            final(self)@ == with_credential(old(self)@, username@, user_id@, credential@),
    {
        proof {
            use_type_invariant(&*self);
            lemma_first_index(self@, is_named(username@));
        }
        let found = self.position(username);
        let ghost before = self@;
        let mut users = self.take_users();
        match found {
            Some(i) => {
                let ghost creds = before[i as int].record.credentials;
                users[i].record.credentials.push(credential);
                assert(users@[i as int]@.record.credentials =~= creds.push(credential@));
                assert(entry_views(users@) =~= before.update(
                    i as int,
                    entry_with_credentials(before[i as int], creds.push(credential@)),
                ));
            },
            None => {
                let ghost added = UserEntryView {
                    username: username@,
                    record: UserRecordView { user_id: user_id@, credentials: seq![credential@] },
                };
                let mut credentials: Vec<StoredCredential> = Vec::new();
                credentials.push(credential);
                assert(credential_views(credentials@) =~= seq![credential@]);
                users.push(UserEntry { username: username.to_owned(), record: UserRecord { user_id, credentials } });
                assert(entry_views(users@) =~= before.push(added));
            },
        }
        self.put_users(users);
    }

    /// Removes every credential with the given id from the first user that holds one.
    /// Returns whether there was such a user.
    pub fn remove_credential(&mut self, credential_id: &str) -> (removed: bool)
        ensures
            removed == owner_index(old(self)@, credential_id@).is_some(),
            final(self)@ == without_credential(old(self)@, credential_id@),
    {
        proof {
            use_type_invariant(&*self);
        }
        match self.owner_position(credential_id) {
            Some(i) => {
                let ghost before = self@;
                let mut users = self.take_users();
                let kept = credentials_without(&users[i].record.credentials, credential_id);
                users[i].record.credentials = kept;
                assert(entry_views(users@) =~= before.update(
                    i as int,
                    entry_with_credentials(
                        before[i as int],
                        before[i as int].record.credentials.filter(has_other_id(credential_id@)),
                    ),
                ));
                self.put_users(users);
                true
            },
            None => false,
        }
    }

    /// Gives the first credential with the given id, looked for user by user, a new
    /// label. Returns the label that it had.
    pub fn rename_credential(&mut self, credential_id: &str, new_name: &str) -> (old_name: Option<String>)
        ensures
            opt_text(old_name) == device_name_of(old(self)@, credential_id@),
            final(self)@ == renamed(old(self)@, credential_id@, new_name@),
    {
        proof {
            use_type_invariant(&*self);
        }
        match self.owner_position(credential_id) {
            Some(i) => {
                proof {
                    lemma_first_index(self@, holds_id(credential_id@));
                }
                let ghost before = self@;
                let ghost creds = before[i as int].record.credentials;
                let mut users = self.take_users();
                match users[i].record.find_credential(credential_id) {
                    Some(j) => {
                        let old_name = users[i].record.credentials[j].device_name.clone();
                        users[i].record.credentials[j].device_name = new_name.to_owned();
                        assert(users@[i as int]@.record.credentials =~= creds.update(
                            j as int,
                            StoredCredentialView { device_name: new_name@, ..creds[j as int] },
                        ));
                        assert(entry_views(users@) =~= renamed(before, credential_id@, new_name@));
                        self.put_users(users);
                        Some(old_name)
                    },
                    None => {
                        self.put_users(users);
                        None
                    },
                }
            },
            None => None,
        }
    }

    /// Records a usage in the first credential of `username` with the given id.
    /// Returns whether there was such a credential.
    pub fn record_usage(&mut self, username: &str, credential_id: &str, usage: UsageUpdate) -> (recorded: bool)
        ensures
            recorded == credential_index(credentials_of(old(self)@, username@), credential_id@).is_some(),
            final(self)@ == with_usage(old(self)@, username@, credential_id@, usage@),
    {
        proof {
            use_type_invariant(&*self);
            lemma_first_index_none(Seq::<StoredCredentialView>::empty(), has_id(credential_id@));
        }
        match self.position(username) {
            Some(i) => {
                match self.users[i].record.find_credential(credential_id) {
                    Some(j) => {
                        let ghost before = self@;
                        let ghost creds = before[i as int].record.credentials;
                        let mut users = self.take_users();
                        users[i].record.credentials[j].dynamic_state = usage.dynamic_state;
                        users[i].record.credentials[j].sign_count = usage.sign_count;
                        users[i].record.credentials[j].user_verified = usage.user_verified;
                        users[i].record.credentials[j].backup_eligible = usage.backup_eligible;
                        users[i].record.credentials[j].last_used_at = Some(usage.last_used_at);
                        assert(users@[i as int]@.record.credentials =~= creds.update(
                            j as int,
                            used(creds[j as int], usage@),
                        ));
                        assert(entry_views(users@) =~= with_usage(before, username@, credential_id@, usage@));
                        self.put_users(users);
                        true
                    },
                    None => false,
                }
            },
            None => false,
        }
    }

    /// The number of credentials in the whole store, as far as it can be counted.
    pub fn credential_count(&self) -> (n: usize)
        ensures
            n == if total_credentials(self@) <= usize::MAX { total_credentials(self@) } else { usize::MAX as nat },
    {
        let mut n: usize = 0;
        let mut i: usize = 0;
        while i < self.users.len()
            invariant
                i <= self.users.len(),
                n == if total_credentials(self@.take(i as int)) <= usize::MAX {
                    total_credentials(self@.take(i as int))
                } else {
                    usize::MAX as nat
                },
            decreases self.users.len() - i,
        {
            assert(self@.take(i + 1).drop_last() =~= self@.take(i as int));
            n = n.saturating_add(self.users[i].record.credentials.len());
            i += 1;
        }
        assert(self@.take(i as int) =~= self@);
        n
    }
}

/// The credentials of `creds` whose id is not the given one, in their order.
pub fn credentials_without(creds: &Vec<StoredCredential>, credential_id: &str) -> (kept: Vec<StoredCredential>)
    ensures
        credential_views(kept@) == credential_views(creds@).filter(has_other_id(credential_id@)),
{
    let ghost all = credential_views(creds@);
    let ghost p = has_other_id(credential_id@);
    let mut kept: Vec<StoredCredential> = Vec::new();
    let mut j: usize = 0;
    proof {
        reveal(Seq::filter);
        assert(all.take(0).filter(p) =~= Seq::<StoredCredentialView>::empty());
        assert(credential_views(kept@) =~= Seq::<StoredCredentialView>::empty());
    }
    while j < creds.len()
        invariant
            j <= creds.len(),
            all == credential_views(creds@),
            p == has_other_id(credential_id@),
            credential_views(kept@) == all.take(j as int).filter(p),
        decreases creds.len() - j,
    {
        proof {
            reveal(Seq::filter);
            assert(all.take(j + 1).drop_last() =~= all.take(j as int));
            assert(all.take(j + 1).last() == all[j as int]);
        }
        let ghost before = credential_views(kept@);
        if !text_eq(creds[j].credential_id.as_str(), credential_id) {
            kept.push(creds[j].clone());
            assert(credential_views(kept@) =~= before.push(all[j as int]));
        }
        j += 1;
    }
    assert(all.take(j as int) =~= all);
    kept
}

/// Whether the entry at position `i` has a credential at position `j`.
pub open spec fn is_place(users: Seq<UserEntryView>, i: int, j: int) -> bool {
    0 <= i < users.len() && 0 <= j < users[i].record.credentials.len()
}

/// The id of the credential at position `j` of the entry at position `i`.
pub open spec fn id_at(users: Seq<UserEntryView>, i: int, j: int) -> Seq<char> {
    users[i].record.credentials[j].credential_id
}

/// No credential id occurs twice in the store, be it under one user or under two.
pub open spec fn ids_unique(users: Seq<UserEntryView>) -> bool {
    forall|i1: int, j1: int, i2: int, j2: int|
        #![trigger id_at(users, i1, j1), id_at(users, i2, j2)]
        is_place(users, i1, j1) && is_place(users, i2, j2) && id_at(users, i1, j1) == id_at(users, i2, j2) ==> i1
            == i2 && j1 == j2
}

/// No user holds a credential with the given id exactly where the id stands at no
/// place of the store.
pub proof fn lemma_owner_index_none(users: Seq<UserEntryView>, id: Seq<char>)
    ensures
        owner_index(users, id) is None <==> forall|i: int, j: int|
            is_place(users, i, j) ==> #[trigger] id_at(users, i, j) != id,
{
    lemma_first_index(users, holds_id(id));
    if owner_index(users, id) is None {
        assert forall|i: int, j: int| is_place(users, i, j) implies #[trigger] id_at(users, i, j) != id by {
            assert(!holds_id(id)(users[i]));
            lemma_first_index(users[i].record.credentials, has_id(id));
            assert(!has_id(id)(users[i].record.credentials[j]));
        }
    } else {
        let i = owner_index(users, id).unwrap();
        lemma_first_index(users[i].record.credentials, has_id(id));
        let j = credential_index(users[i].record.credentials, id).unwrap();
        assert(is_place(users, i, j) && id_at(users, i, j) == id);
    }
}

/// A credential whose id is new to the store leaves the ids unique when it is added.
pub proof fn lemma_add_keeps_ids_unique(
    users: Seq<UserEntryView>,
    name: Seq<char>,
    user_id: Seq<char>,
    credential: StoredCredentialView,
)
    requires
        ids_unique(users),
        owner_index(users, credential.credential_id) is None,
    ensures
        ids_unique(with_credential(users, name, user_id, credential)),
{
    let after = with_credential(users, name, user_id, credential);
    lemma_owner_index_none(users, credential.credential_id);
    lemma_first_index(users, is_named(name));
    // where the new credential stands
    let (at, pos): (int, int) = match user_index(users, name) {
        Some(i) => (i, users[i].record.credentials.len() as int),
        None => (users.len() as int, 0),
    };
    assert forall|i: int, j: int| is_place(after, i, j) implies if i == at && j == pos {
        #[trigger] id_at(after, i, j) == credential.credential_id
    } else {
        is_place(users, i, j) && id_at(after, i, j) == id_at(users, i, j)
    } by {}
    assert forall|i1: int, j1: int, i2: int, j2: int|
        #![trigger id_at(after, i1, j1), id_at(after, i2, j2)]
        is_place(after, i1, j1) && is_place(after, i2, j2) && id_at(after, i1, j1) == id_at(after, i2, j2) implies i1
        == i2 && j1 == j2 by {
        if !(i1 == at && j1 == pos) && !(i2 == at && j2 == pos) {
            assert(id_at(users, i1, j1) == id_at(users, i2, j2));
        } else if !(i1 == at && j1 == pos) {
            assert(id_at(users, i1, j1) == credential.credential_id);
        } else if !(i2 == at && j2 == pos) {
            assert(id_at(users, i2, j2) == credential.credential_id);
        }
    }
}

/// A new label or a recorded usage leaves the ids of the store as they are.
pub proof fn lemma_changes_keep_ids_unique(
    users: Seq<UserEntryView>,
    name: Seq<char>,
    id: Seq<char>,
    new_name: Seq<char>,
    usage: UsageUpdateView,
)
    requires
        ids_unique(users),
    ensures
        ids_unique(renamed(users, id, new_name)),
        ids_unique(with_usage(users, name, id, usage)),
{
    lemma_first_index(users, holds_id(id));
    lemma_first_index(users, is_named(name));
    let a = renamed(users, id, new_name);
    match owner_index(users, id) {
        Some(i) => {
            lemma_first_index(users[i].record.credentials, has_id(id));
        },
        None => {},
    }
    assert forall|i: int, j: int| is_place(a, i, j) implies is_place(users, i, j) && #[trigger] id_at(a, i, j)
        == id_at(users, i, j) by {}
    assert forall|i1: int, j1: int, i2: int, j2: int|
        #![trigger id_at(a, i1, j1), id_at(a, i2, j2)]
        is_place(a, i1, j1) && is_place(a, i2, j2) && id_at(a, i1, j1) == id_at(a, i2, j2) implies i1 == i2 && j1
        == j2 by {
        assert(id_at(users, i1, j1) == id_at(users, i2, j2));
    }
    let b = with_usage(users, name, id, usage);
    match user_index(users, name) {
        Some(i) => {
            lemma_first_index(users[i].record.credentials, has_id(id));
        },
        None => {},
    }
    assert forall|i: int, j: int| is_place(b, i, j) implies is_place(users, i, j) && #[trigger] id_at(b, i, j)
        == id_at(users, i, j) by {}
    assert forall|i1: int, j1: int, i2: int, j2: int|
        #![trigger id_at(b, i1, j1), id_at(b, i2, j2)]
        is_place(b, i1, j1) && is_place(b, i2, j2) && id_at(b, i1, j1) == id_at(b, i2, j2) implies i1 == i2 && j1
        == j2 by {
        assert(id_at(users, i1, j1) == id_at(users, i2, j2));
    }
}

/// A credential that is added for a user is the last of the credentials that the store
/// then holds for the user, behind those that it held.
pub proof fn lemma_added_credential_is_held(
    users: Seq<UserEntryView>,
    name: Seq<char>,
    user_id: Seq<char>,
    credential: StoredCredentialView,
)
    ensures
        credentials_of(with_credential(users, name, user_id, credential), name) == credentials_of(users, name).push(
            credential,
        ),
{
    lemma_first_index(users, is_named(name));
    let after = with_credential(users, name, user_id, credential);
    match user_index(users, name) {
        Some(i) => {
            assert forall|k: int| 0 <= k < i implies !is_named(name)(#[trigger] after[k]) by {
                assert(after[k] == users[k]);
            }
            assert(is_named(name)(after[i]));
            lemma_first_index_is(after, is_named(name), i);
        },
        None => {
            assert forall|k: int| 0 <= k < users.len() implies !is_named(name)(#[trigger] after[k]) by {
                assert(after[k] == users[k]);
            }
            assert(is_named(name)(after[users.len() as int]));
            lemma_first_index_is(after, is_named(name), users.len() as int);
            assert(credentials_of(after, name) =~= Seq::<StoredCredentialView>::empty().push(credential));
        },
    }
}

/// A usage that is recorded in a credential of a user is what the store then holds
/// for that credential, at the place where the credential stood.
pub proof fn lemma_usage_is_stored(users: Seq<UserEntryView>, name: Seq<char>, id: Seq<char>, usage: UsageUpdateView)
    requires
        credential_index(credentials_of(users, name), id) is Some,
    ensures
        ({
            let creds = credentials_of(users, name);
            let place = credential_index(creds, id).unwrap();
            let after = credentials_of(with_usage(users, name, id, usage), name);
            &&& after == creds.update(place, used(creds[place], usage))
            &&& credential_index(after, id) == Some(place)
        }),
{
    lemma_first_index(users, is_named(name));
    lemma_first_index(Seq::<StoredCredentialView>::empty(), has_id(id));
    let i = user_index(users, name).unwrap();
    let creds = users[i].record.credentials;
    lemma_first_index(creds, has_id(id));
    let j = credential_index(creds, id).unwrap();
    let after = with_usage(users, name, id, usage);
    assert forall|k: int| 0 <= k < i implies !is_named(name)(#[trigger] after[k]) by {
        assert(after[k] == users[k]);
    }
    assert(is_named(name)(after[i]));
    lemma_first_index_is(after, is_named(name), i);
    let changed = creds.update(j, used(creds[j], usage));
    assert forall|k: int| 0 <= k < j implies !has_id(id)(#[trigger] changed[k]) by {
        assert(changed[k] == creds[k]);
    }
    assert(has_id(id)(changed[j]));
    lemma_first_index_is(changed, has_id(id), j);
}

/// Where the credentials of `creds` that have another id than `id` stood in `creds`:
/// each at a place of its own, in their order.
proof fn lemma_kept_places(creds: Seq<StoredCredentialView>, id: Seq<char>) -> (places: Seq<int>)
    ensures
        places.len() == creds.filter(has_other_id(id)).len(),
        forall|k: int|
            0 <= k < places.len() ==> 0 <= #[trigger] places[k] < creds.len() && creds.filter(has_other_id(id))[k]
                == creds[places[k]] && creds[places[k]].credential_id != id,
        forall|k: int, l: int| 0 <= k < l < places.len() ==> places[k] < places[l],
    decreases creds.len(),
{
    reveal(Seq::filter);
    if creds.len() == 0 {
        Seq::empty()
    } else {
        let before = lemma_kept_places(creds.drop_last(), id);
        if has_other_id(id)(creds.last()) {
            before.push(creds.len() - 1)
        } else {
            before
        }
    }
}

/// With unique ids, a removed credential is gone from the whole store, and the ids
/// stay unique.
pub proof fn lemma_removed_credential_is_gone(users: Seq<UserEntryView>, id: Seq<char>)
    requires
        ids_unique(users),
    ensures
        owner_index(without_credential(users, id), id) is None,
        ids_unique(without_credential(users, id)),
{
    let after = without_credential(users, id);
    lemma_first_index(users, holds_id(id));
    lemma_owner_index_none(users, id);
    match owner_index(users, id) {
        None => {},
        Some(at) => {
            let creds = users[at].record.credentials;
            lemma_first_index(creds, has_id(id));
            let held = credential_index(creds, id).unwrap();
            assert(is_place(users, at, held) && id_at(users, at, held) == id);
            let places = lemma_kept_places(creds, id);
            // where each credential that is left stood before
            let origin = |i: int, j: int| if i == at { places[j] } else { j };
            assert forall|i: int, j: int| is_place(after, i, j) implies is_place(users, i, origin(i, j))
                && #[trigger] id_at(after, i, j) == id_at(users, i, origin(i, j)) && id_at(after, i, j) != id by {
                if i != at {
                    assert(id_at(users, i, j) == id ==> i == at);
                }
            }
            assert forall|i1: int, j1: int, i2: int, j2: int|
                #![trigger id_at(after, i1, j1), id_at(after, i2, j2)]
                is_place(after, i1, j1) && is_place(after, i2, j2) && id_at(after, i1, j1) == id_at(
                    after,
                    i2,
                    j2,
                ) implies i1 == i2 && j1 == j2 by {
                assert(id_at(users, i1, origin(i1, j1)) == id_at(users, i2, origin(i2, j2)));
                if i1 == at && j1 != j2 {
                    if j1 < j2 {
                        assert(places[j1] < places[j2]);
                    } else {
                        assert(places[j2] < places[j1]);
                    }
                }
            }
        },
    }
    lemma_owner_index_none(after, id);
}

} // verus!
