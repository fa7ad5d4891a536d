//! A store that lives in memory, with a clock that its owner sets.

use vstd::prelude::*;
use crate::credential_store::{CredentialStore, UserEntryView};
use crate::errors::AppError;
use crate::search::{first_index, lemma_first_index, lemma_first_index_is, lemma_first_index_none};
use crate::storage::{ChallengeState, ChallengeStateView, StorageProvider, CHALLENGE_MAX_AGE_SECS};
use crate::text::text_eq;

verus! {

/// One stored challenge with the time at which it was stored.
struct Slot {
    id: String,
    state: ChallengeState,
    stored_at: u64,
}

struct SlotView {
    id: Seq<char>,
    state: ChallengeStateView,
    stored_at: u64,
}

impl View for Slot {
    type V = SlotView;

    closed spec fn view(&self) -> SlotView {
        SlotView { id: self.id@, state: self.state@, stored_at: self.stored_at }
    }
}

spec fn slot_views(slots: Seq<Slot>) -> Seq<SlotView> {
    slots.map_values(|s: Slot| s@)
}

/// Selects the slot of one id.
spec fn stored_under(id: Seq<char>) -> spec_fn(SlotView) -> bool {
    |s: SlotView| s.id == id
}

/// No id has two slots.
spec fn ids_distinct(slots: Seq<SlotView>) -> bool {
    forall|i: int, j: int|
        0 <= i < slots.len() && 0 <= j < slots.len() && i != j ==> (#[trigger] slots[i]).id != (#[trigger] slots[j]).id
}

/// The challenges held in a sequence of slots, by id.
spec fn challenge_map(slots: Seq<SlotView>) -> Map<Seq<char>, ChallengeStateView> {
    Map::new(
        |id: Seq<char>| first_index(slots, stored_under(id)) is Some,
        |id: Seq<char>| slots[first_index(slots, stored_under(id)).unwrap()].state,
    )
}

/// The time at which each held challenge was stored, by id.
spec fn time_map(slots: Seq<SlotView>) -> Map<Seq<char>, u64> {
    Map::new(
        |id: Seq<char>| first_index(slots, stored_under(id)) is Some,
        |id: Seq<char>| slots[first_index(slots, stored_under(id)).unwrap()].stored_at,
    )
}

/// Whether something stored at `stored_at` has expired at `now`.
pub open spec fn expired_at(stored_at: u64, now: u64) -> bool {
    now >= stored_at && now - stored_at > CHALLENGE_MAX_AGE_SECS
}

/// The ids of the challenges among `challenges`, stored at the times `times`, that
/// have expired at the time `now`.
pub open spec fn expired_ids(
    challenges: Map<Seq<char>, ChallengeStateView>,
    times: Map<Seq<char>, u64>,
    now: u64,
) -> Set<Seq<char>> {
    Set::new(|id: Seq<char>| challenges.contains_key(id) && expired_at(times[id], now))
}

/// Whether a sweep at the time `now` has made the challenges `after`, stored at the
/// times `times_after`, of the challenges `before`, stored at the times
/// `times_before`, and has deleted `removed` of them: the challenges that had expired
/// are gone, the others are as they were, and `removed` is the number of those that
/// are gone.
pub open spec fn is_swept(
    before: Map<Seq<char>, ChallengeStateView>,
    times_before: Map<Seq<char>, u64>,
    now: u64,
    after: Map<Seq<char>, ChallengeStateView>,
    times_after: Map<Seq<char>, u64>,
    removed: usize,
) -> bool {
    &&& forall|id: Seq<char>| #[trigger]
        after.contains_key(id) <==> before.contains_key(id) && !expired_at(times_before[id], now)
    &&& after.submap_of(before)
    &&& times_after.submap_of(times_before)
    &&& times_after.dom() =~= after.dom()
    &&& before.dom().finite() ==> removed + after.dom().len() == before.dom().len()
}

/// A sweep that follows a sweep at the same time deletes nothing.
pub proof fn lemma_second_sweep_deletes_nothing(
    first: Map<Seq<char>, ChallengeStateView>,
    first_times: Map<Seq<char>, u64>,
    now: u64,
    second: Map<Seq<char>, ChallengeStateView>,
    second_times: Map<Seq<char>, u64>,
    removed: usize,
    third: Map<Seq<char>, ChallengeStateView>,
    third_times: Map<Seq<char>, u64>,
    removed_again: usize,
)
    requires
        first.dom().finite(),
        is_swept(first, first_times, now, second, second_times, removed),
        is_swept(second, second_times, now, third, third_times, removed_again),
    ensures
        removed_again == 0,
        third == second,
{
    assert forall|id: Seq<char>| second.contains_key(id) implies #[trigger] third.contains_key(id) by {
        assert(second_times.dom().contains(id));
        assert(first_times.dom().contains(id) ==> second_times[id] == first_times[id]);
        assert(first.dom().contains(id));
    }
    assert(third =~= second);
    vstd::set_lib::lemma_len_subset(second.dom(), first.dom());
}

/// With distinct ids, the slot at a position is the one that its id leads to.
proof fn lemma_slot_found(slots: Seq<SlotView>, i: int)
    requires
        ids_distinct(slots),
        0 <= i < slots.len(),
    ensures
        first_index(slots, stored_under(slots[i].id)) == Some(i),
{
    lemma_first_index(slots, stored_under(slots[i].id));
}

/// What a sequence of slots holds after one slot was put in, in place of the slot of
/// the same id if there was one.
proof fn lemma_after_put(before: Seq<SlotView>, after: Seq<SlotView>, added: SlotView)
    requires
        ids_distinct(before),
        match first_index(before, stored_under(added.id)) {
            Some(i) => after == before.update(i, added),
            None => after == before.push(added),
        },
    ensures
        ids_distinct(after),
        challenge_map(after) == challenge_map(before).insert(added.id, added.state),
        time_map(after) == time_map(before).insert(added.id, added.stored_at),
{
    let found = first_index(before, stored_under(added.id));
    lemma_first_index(before, stored_under(added.id));
    let at: int = match found {
        Some(i) => i,
        None => before.len() as int,
    };
    assert(after[at] == added);
    assert forall|k: int| 0 <= k < after.len() && k != at implies #[trigger] after[k] == before[k] && after[k].id
        != added.id by {
        if found is None {
            assert(!stored_under(added.id)(before[k]));
        }
    }
    assert(ids_distinct(after));
    assert forall|id: Seq<char>|
        first_index(after, stored_under(id)) is Some <==> (id == added.id || first_index(
            before,
            stored_under(id),
        ) is Some) by {
        lemma_index_after_put(before, after, added, at, id);
    }
    assert forall|id: Seq<char>| #[trigger]
        challenge_map(after).contains_key(id) implies challenge_map(after)[id] == challenge_map(before).insert(
        added.id,
        added.state,
    )[id] && time_map(after)[id] == time_map(before).insert(added.id, added.stored_at)[id] by {
        lemma_index_after_put(before, after, added, at, id);
        lemma_first_index(before, stored_under(id));
        if id != added.id {
            let k = first_index(before, stored_under(id)).unwrap();
            assert(stored_under(id)(before[k]));
            assert(k != at);
            assert(after[k] == before[k]);
        }
    }
    assert(challenge_map(after) =~= challenge_map(before).insert(added.id, added.state));
    assert(time_map(after) =~= time_map(before).insert(added.id, added.stored_at));
}

/// Where an id leads to after one slot was put in at position `at`.
proof fn lemma_index_after_put(before: Seq<SlotView>, after: Seq<SlotView>, added: SlotView, at: int, id: Seq<char>)
    requires
        0 <= at < after.len(),
        after[at] == added,
        forall|k: int| 0 <= k < after.len() && k != at ==> #[trigger] after[k] == before[k] && after[k].id != added.id,
        after.len() == before.len() || (after.len() == before.len() + 1 && at == before.len()),
        at < before.len() ==> before[at].id == added.id,
    ensures
        first_index(after, stored_under(id)) == if id == added.id {
            Some(at)
        } else {
            first_index(before, stored_under(id))
        },
{
    lemma_first_index(before, stored_under(id));
    if id == added.id {
        assert forall|k: int| 0 <= k < at implies !stored_under(id)(#[trigger] after[k]) by {}
        lemma_first_index_is(after, stored_under(id), at);
    } else {
        match first_index(before, stored_under(id)) {
            Some(k) => {
                assert(k != at);
                assert(after[k] == before[k]);
                assert forall|l: int| 0 <= l < k implies !stored_under(id)(#[trigger] after[l]) by {
                    if l != at {
                        assert(after[l] == before[l]);
                    }
                }
                lemma_first_index_is(after, stored_under(id), k);
            },
            None => {
                assert forall|l: int| 0 <= l < after.len() implies !stored_under(id)(#[trigger] after[l]) by {
                    if l != at {
                        assert(after[l] == before[l]);
                    }
                }
                lemma_first_index_none(after, stored_under(id));
            },
        }
    }
}

/// What a sequence of slots holds after some of its slots were dropped. `origin` says
/// where each slot that stays stood before.
proof fn lemma_after_drop(before: Seq<SlotView>, after: Seq<SlotView>, origin: Seq<int>)
    requires
        ids_distinct(before),
        origin.len() == after.len(),
        forall|k: int|
            0 <= k < origin.len() ==> 0 <= #[trigger] origin[k] < before.len() && after[k] == before[origin[k]],
        forall|k: int, l: int| 0 <= k < l < origin.len() ==> origin[k] < origin[l],
    ensures
        ids_distinct(after),
        forall|id: Seq<char>| #[trigger]
            challenge_map(after).contains_key(id) <==> challenge_map(before).contains_key(id) && origin.contains(
                first_index(before, stored_under(id)).unwrap(),
            ),
        challenge_map(after).submap_of(challenge_map(before)),
        time_map(after).submap_of(time_map(before)),
{
    assert forall|i: int, j: int| 0 <= i < after.len() && 0 <= j < after.len() && i != j implies (
    #[trigger] after[i]).id != (#[trigger] after[j]).id by {
        if i < j {
            assert(origin[i] < origin[j]);
        } else {
            assert(origin[j] < origin[i]);
        }
    }
    assert forall|id: Seq<char>|
        (#[trigger] challenge_map(after).contains_key(id) <==> challenge_map(before).contains_key(id)
            && origin.contains(first_index(before, stored_under(id)).unwrap())) && (challenge_map(after).contains_key(
            id,
        ) ==> challenge_map(after)[id] == challenge_map(before)[id] && time_map(after)[id] == time_map(before)[id]) by {
        lemma_first_index(before, stored_under(id));
        lemma_first_index(after, stored_under(id));
        match first_index(after, stored_under(id)) {
            Some(k) => {
                lemma_slot_found(before, origin[k]);
                assert(origin.contains(origin[k]));
            },
            None => {
                match first_index(before, stored_under(id)) {
                    Some(m) => {
                        if origin.contains(m) {
                            let k = choose|k: int| 0 <= k < origin.len() && origin[k] == m;
                            assert(stored_under(id)(after[k]));
                        }
                    },
                    None => {},
                }
            },
        }
    }
    assert forall|id: Seq<char>| #[trigger] time_map(after).contains_key(id) implies time_map(before).contains_key(id)
        && time_map(after)[id] == time_map(before)[id] by {
        assert(challenge_map(after).contains_key(id));
    }
}

/// Distinct ids make as many challenges as there are slots.
proof fn lemma_domain_size(slots: Seq<SlotView>)
    requires
        ids_distinct(slots),
    ensures
        challenge_map(slots).dom().finite(),
        challenge_map(slots).dom().len() == slots.len(),
    decreases slots.len(),
{
    if slots.len() == 0 {
        assert forall|id: Seq<char>| !(#[trigger] challenge_map(slots).dom().contains(id)) by {
            lemma_first_index(slots, stored_under(id));
        }
        assert(challenge_map(slots).dom() =~= Set::<Seq<char>>::empty());
    } else {
        let rest = slots.drop_last();
        let last = slots.last();
        lemma_domain_size(rest);
        assert(slots =~= rest.push(last));
        assert(first_index(rest, stored_under(last.id)) is None) by {
            assert forall|k: int| 0 <= k < rest.len() implies !stored_under(last.id)(#[trigger] rest[k]) by {
                assert(slots[k] == rest[k]);
            }
            lemma_first_index_none(rest, stored_under(last.id));
        }
        lemma_after_put(rest, slots, last);
        assert(!challenge_map(rest).dom().contains(last.id));
        assert(challenge_map(slots).dom() =~= challenge_map(rest).dom().insert(last.id));
    }
}

/// A store in memory. It never fails. Its clock stands still until it is set.
pub struct MemoryStorage {
    credentials: CredentialStore,
    slots: Vec<Slot>,
    clock: u64,
    path: String,
}

impl MemoryStorage {
    #[verifier::type_invariant]
    spec fn distinct(&self) -> bool {
        ids_distinct(slot_views(self.slots@))
    }

    /// The slots as contracts see them.
    spec fn held(&self) -> Seq<SlotView> {
        slot_views(self.slots@)
    }

    /// The time on the store's clock, in seconds.
    pub closed spec fn now(&self) -> u64 {
        self.clock
    }

    /// The time at which each stored challenge was stored.
    pub closed spec fn stored_times(&self) -> Map<Seq<char>, u64> {
        time_map(slot_views(self.slots@))
    }

    /// An empty store with its clock at zero.
    pub fn new() -> (store: Self)
        ensures
            store.credentials() == Seq::<UserEntryView>::empty(),
            store.challenges() == Map::<Seq<char>, ChallengeStateView>::empty(),
            store.now() == 0,
    {
        let store = MemoryStorage {
            credentials: CredentialStore::new(),
            slots: Vec::new(),
            clock: 0,
            path: "memory".to_owned(),
        };
        proof {
            assert forall|id: Seq<char>| !(#[trigger] challenge_map(store.held()).contains_key(id)) by {
                lemma_first_index(store.held(), stored_under(id));
            }
            assert(store.challenges() =~= Map::<Seq<char>, ChallengeStateView>::empty());
        }
        store
    }

    /// Sets the clock.
    pub fn set_time(&mut self, now: u64)
        ensures
            final(self).now() == now,
            final(self).credentials() == old(self).credentials(),
            final(self).challenges() == old(self).challenges(),
            final(self).stored_times() == old(self).stored_times(),
    {
        proof {
            use_type_invariant(&*self);
        }
        self.clock = now;
    }

    /// Where the slot of an id stands.
    fn slot_position(&self, challenge_id: &str) -> (found: Option<usize>)
        ensures
            match found {
                Some(i) => i < self.slots.len() && first_index(self.held(), stored_under(challenge_id@)) == Some(
                    i as int,
                ),
                None => first_index(self.held(), stored_under(challenge_id@)) is None,
            },
    {
        let mut i: usize = 0;
        while i < self.slots.len()
            invariant
                i <= self.slots.len(),
                forall|k: int| 0 <= k < i ==> !stored_under(challenge_id@)(#[trigger] self.held()[k]),
            decreases self.slots.len() - i,
        {
            if text_eq(self.slots[i].id.as_str(), challenge_id) {
                proof {
                    lemma_first_index_is(self.held(), stored_under(challenge_id@), i as int);
                }
                return Some(i);
            }
            i += 1;
        }
        proof {
            lemma_first_index_none(self.held(), stored_under(challenge_id@));
        }
        None
    }

    fn take_slots(&mut self) -> (slots: Vec<Slot>)
        ensures
            slots@ == old(self).slots@,
            final(self).slots@.len() == 0,
            final(self).credentials == old(self).credentials,
            final(self).clock == old(self).clock,
            final(self).path == old(self).path,
    {
        let mut slots: Vec<Slot> = Vec::new();
        core::mem::swap(&mut self.slots, &mut slots);
        slots
    }

    fn put_slots(&mut self, slots: Vec<Slot>)
        requires
            ids_distinct(slot_views(slots@)),
        ensures
            final(self).slots@ == slots@,
            final(self).credentials == old(self).credentials,
            final(self).clock == old(self).clock,
            final(self).path == old(self).path,
    {
        let mut slots = slots;
        core::mem::swap(&mut self.slots, &mut slots);
    }
}

impl StorageProvider for MemoryStorage {
    closed spec fn credentials(&self) -> Seq<UserEntryView> {
        self.credentials@
    }

    closed spec fn challenges(&self) -> Map<Seq<char>, ChallengeStateView> {
        challenge_map(slot_views(self.slots@))
    }

    closed spec fn expired(&self) -> Set<Seq<char>> {
        expired_ids(challenge_map(slot_views(self.slots@)), time_map(slot_views(self.slots@)), self.clock)
    }

    fn load_credentials(&self) -> (r: Result<CredentialStore, AppError>)
        ensures
            r is Ok,
    {
        Ok(self.credentials.clone())
    }

    fn save_credentials(&mut self, store: &CredentialStore) -> (r: Result<(), AppError>)
        ensures
            r is Ok,
            final(self).now() == old(self).now(),
            final(self).stored_times() == old(self).stored_times(),
    {
        proof {
            use_type_invariant(&*self);
        }
        self.credentials = store.clone();
        Ok(())
    }

    fn load_challenge(&self, challenge_id: &str) -> (r: Result<ChallengeState, AppError>)
        ensures
            r is Ok <==> self.challenges().contains_key(challenge_id@),
    {
        match self.slot_position(challenge_id) {
            Some(i) => Ok(self.slots[i].state.clone()),
            None => Err(AppError::ChallengeNotFound(challenge_id.to_owned())),
        }
    }

    fn save_challenge(&mut self, challenge_id: &str, state: &ChallengeState) -> (r: Result<(), AppError>)
        ensures
            r is Ok,
            final(self).now() == old(self).now(),
            final(self).stored_times() == old(self).stored_times().insert(challenge_id@, old(self).now()),
    {
        proof {
            use_type_invariant(&*self);
        }
        let found = self.slot_position(challenge_id);
        let ghost before = self.held();
        let clock = self.clock;
        let mut slots = self.take_slots();
        let slot = Slot { id: challenge_id.to_owned(), state: state.clone(), stored_at: clock };
        let ghost added = slot@;
        match found {
            Some(i) => {
                slots[i] = slot;
                assert(slot_views(slots@) =~= before.update(i as int, added));
            },
            None => {
                proof {
                    lemma_first_index(before, stored_under(challenge_id@));
                }
                slots.push(slot);
                assert(slot_views(slots@) =~= before.push(added));
            },
        }
        let ghost after = slot_views(slots@);
        proof {
            lemma_after_put(before, after, added);
            assert(challenge_map(after).remove(challenge_id@) =~= challenge_map(before).remove(challenge_id@));
        }
        self.put_slots(slots);
        Ok(())
    }

    fn delete_challenge(&mut self, challenge_id: &str) -> (r: Result<(), AppError>)
        ensures
            r is Ok,
            final(self).now() == old(self).now(),
            final(self).stored_times() == old(self).stored_times().remove(challenge_id@),
    {
        proof {
            use_type_invariant(&*self);
        }
        let found = self.slot_position(challenge_id);
        let ghost before = self.held();
        match found {
            Some(i) => {
                let mut slots = self.take_slots();
                slots.remove(i);
                let ghost after = slot_views(slots@);
                proof {
                    assert(after =~= before.remove(i as int));
                    let origin = Seq::new(after.len(), |k: int| if k < i { k } else { k + 1 });
                    lemma_after_drop(before, after, origin);
                    lemma_first_index(before, stored_under(challenge_id@));
                    assert forall|id: Seq<char>| #[trigger]
                        challenge_map(after).contains_key(id) <==> challenge_map(before).remove(
                            challenge_id@,
                        ).contains_key(id) by {
                        lemma_first_index(before, stored_under(id));
                        if challenge_map(before).contains_key(id) {
                            let m = first_index(before, stored_under(id)).unwrap();
                            if id == challenge_id@ {
                                assert(m == i);
                                assert(!origin.contains(i as int));
                            } else {
                                assert(m != i);
                                let k = if m < i { m } else { m - 1 };
                                assert(origin[k] == m);
                            }
                        }
                    }
                    assert(challenge_map(after) =~= challenge_map(before).remove(challenge_id@));
                    assert(time_map(after) =~= time_map(before).remove(challenge_id@));
                }
                self.put_slots(slots);
            },
            None => {
                proof {
                    assert(challenge_map(before) =~= challenge_map(before).remove(challenge_id@));
                    assert(time_map(before) =~= time_map(before).remove(challenge_id@));
                }
            },
        }
        Ok(())
    }

    fn cleanup_challenges(&mut self) -> (r: Result<usize, AppError>)
        ensures
            r is Ok,
            final(self).now() == old(self).now(),
            is_swept(
                old(self).challenges(),
                old(self).stored_times(),
                old(self).now(),
                final(self).challenges(),
                final(self).stored_times(),
                r->Ok_0,
            ),
            old(self).expired() == expired_ids(old(self).challenges(), old(self).stored_times(), old(self).now()),
    {
        proof {
            use_type_invariant(&*self);
        }
        let ghost before = self.held();
        let clock = self.clock;
        let slots = self.take_slots();
        let mut kept: Vec<Slot> = Vec::new();
        let mut removed: usize = 0;
        let ghost mut origin: Seq<int> = Seq::empty();
        let mut i: usize = 0;
        while i < slots.len()
            invariant
                i <= slots.len(),
                slot_views(slots@) == before,
                removed + kept.len() == i,
                origin.len() == kept.len(),
                forall|k: int| 0 <= k < origin.len() ==> 0 <= #[trigger] origin[k] < i && slot_views(kept@)[k]
                    == before[origin[k]] && !expired_at(before[origin[k]].stored_at, clock),
                forall|k: int, l: int| 0 <= k < l < origin.len() ==> origin[k] < origin[l],
                forall|m: int| 0 <= m < i && !expired_at(#[trigger] before[m].stored_at, clock) ==> origin.contains(m),
            decreases slots.len() - i,
        {
            let ghost kept_before = slot_views(kept@);
            let ghost origin_before = origin;
            assert(before[i as int] == slots@[i as int]@);
            if clock >= slots[i].stored_at && clock - slots[i].stored_at > CHALLENGE_MAX_AGE_SECS {
                removed = removed + 1;
            } else {
                let slot = Slot {
                    id: slots[i].id.clone(),
                    state: slots[i].state.clone(),
                    stored_at: slots[i].stored_at,
                };
                kept.push(slot);
                proof {
                    origin = origin.push(i as int);
                    assert(slot_views(kept@) =~= kept_before.push(before[i as int]));
                    assert(origin[origin.len() - 1] == i);
                }
            }
            proof {
                assert forall|m: int|
                    0 <= m < i + 1 && !expired_at(#[trigger] before[m].stored_at, clock) implies origin.contains(
                    m,
                ) by {
                    if m < i {
                        assert(origin_before.contains(m));
                        let k = choose|k: int| 0 <= k < origin_before.len() && origin_before[k] == m;
                        assert(origin[k] == m);
                    }
                }
            }
            i += 1;
        }
        let ghost after = slot_views(kept@);
        proof {
            lemma_after_drop(before, after, origin);
            assert forall|id: Seq<char>| #[trigger]
                challenge_map(after).contains_key(id) <==> challenge_map(before).contains_key(id) && !expired_at(
                    time_map(before)[id],
                    clock,
                ) by {
                lemma_first_index(before, stored_under(id));
                if challenge_map(before).contains_key(id) {
                    let m = first_index(before, stored_under(id)).unwrap();
                    if origin.contains(m) {
                        let k = choose|k: int| 0 <= k < origin.len() && origin[k] == m;
                        assert(!expired_at(before[origin[k]].stored_at, clock));
                    }
                }
            }
            lemma_domain_size(before);
            lemma_domain_size(after);
            assert(time_map(after).dom() =~= challenge_map(after).dom());
            assert(challenge_map(after) =~= challenge_map(before).remove_keys(
                expired_ids(challenge_map(before), time_map(before), clock),
            ));
            if removed == 0 {
                assert forall|id: Seq<char>| challenge_map(before).contains_key(id) implies #[trigger] challenge_map(
                    after,
                ).contains_key(id) by {
                    lemma_first_index(before, stored_under(id));
                    lemma_all_present(origin, before.len() as int, first_index(before, stored_under(id)).unwrap());
                }
                assert(challenge_map(after) =~= challenge_map(before));
            }
        }
        self.put_slots(kept);
        Ok(removed)
    }

    closed spec fn location(&self) -> Seq<char> {
        self.path@
    }

    fn credentials_path(&self) -> (path: &str) {
        self.path.as_str()
    }
}

/// A sequence of `n` distinct numbers below `n` holds every number below `n`.
proof fn lemma_all_present(s: Seq<int>, n: int, m: int)
    requires
        s.len() == n,
        0 <= m < n,
        forall|k: int| 0 <= k < s.len() ==> 0 <= #[trigger] s[k] < n,
        forall|k: int, l: int| 0 <= k < l < s.len() ==> s[k] != s[l],
    ensures
        s.contains(m),
{
    if !s.contains(m) {
        // every element then lies among the n - 1 numbers other than m
        let t = s.map_values(|x: int| if x > m { x - 1 } else { x });
        assert forall|k: int| 0 <= k < t.len() implies 0 <= #[trigger] t[k] < n - 1 by {
            assert(s.contains(s[k]));
        }
        lemma_pigeonhole(t, n - 1);
        let (k, l) = choose|k: int, l: int| 0 <= k < l < t.len() && t[k] == t[l];
        assert(s.contains(s[k]));
        assert(s.contains(s[l]));
        assert(s[k] == s[l]);
    }
}

/// Among `n + 1` numbers below `n` two are equal.
proof fn lemma_pigeonhole(s: Seq<int>, n: int)
    requires
        s.len() == n + 1,
        0 <= n,
        forall|k: int| 0 <= k < s.len() ==> 0 <= #[trigger] s[k] < n,
    ensures
        exists|k: int, l: int| 0 <= k < l < s.len() && s[k] == s[l],
    decreases n,
{
    if n == 0 {
        let x = s[0];
        assert(0 <= x < n);
    } else {
        let last = s[n];
        if exists|k: int| 0 <= k < n && s[k] == last {
            let k = choose|k: int| 0 <= k < n && s[k] == last;
            assert(0 <= k < n < s.len() && s[k] == s[n]);
        } else {
            let t = s.take(n).map_values(|x: int| if x > last { x - 1 } else { x });
            assert forall|k: int| 0 <= k < t.len() implies 0 <= #[trigger] t[k] < n - 1 by {
                assert(s[k] != last);
            }
            lemma_pigeonhole(t, n - 1);
            let (k, l) = choose|k: int, l: int| 0 <= k < l < t.len() && t[k] == t[l];
            assert(s[k] != last);
            assert(s[l] != last);
            assert(0 <= k < l < s.len() && s[k] == s[l]);
        }
    }
}

} // verus!
