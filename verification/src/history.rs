//! Laws of a store over many operations that all went well.
use vstd::prelude::*;

use crate::keys::{before, law_before_irreflexive, BLIND_ID_LEN};
use crate::model::{in_batch, is_front, law_offer_stores_payload, StorageView};
use crate::storage::{batch_result, PendingBatch};

verus! {

/// An operation of a store, with what it was answered.
pub enum Step {
    /// A chunk was offered.
    Offer { blind_id: Seq<u8>, payload: Seq<u8>, now: u64, is_new: bool, key: Seq<u8> },
    /// A batch was taken.
    Batch,
    /// A key was confirmed.
    Confirm { key: Seq<u8>, now: u64 },
}

impl Step {
    /// The operation leads from one state of the store to the other.
    pub open spec fn leads(self, s: StorageView, after: StorageView) -> bool {
        match self {
            Step::Offer { blind_id, payload, now, is_new, key } => {
                &&& blind_id.len() == BLIND_ID_LEN
                &&& s.offered(blind_id, payload, now, is_new, key, after)
            },
            Step::Batch => after == s,
            Step::Confirm { key, now } => s.consumed(key, now, after),
        }
    }

    /// The operation stored a new chunk.
    pub open spec fn inserts(self) -> bool {
        self matches Step::Offer { is_new, .. } && is_new
    }
}

/// The states that a store goes through, from an empty one on.
pub open spec fn is_history(steps: Seq<Step>, states: Seq<StorageView>) -> bool {
    &&& states.len() == steps.len() + 1
    &&& states[0] == StorageView::empty()
    &&& forall|i: int|
        0 <= i < steps.len() ==> (#[trigger] steps[i]).leads(states[i], states[i + 1])
}

/// How many of the first `n` operations stored a new chunk.
pub open spec fn insertions(steps: Seq<Step>, n: nat) -> nat
    decreases n,
{
    if n == 0 {
        0
    } else {
        insertions(steps, (n - 1) as nat) + if steps[n - 1].inserts() {
            1nat
        } else {
            0
        }
    }
}

/// How many of the first `n` operations confirmed a chunk that waited.
pub open spec fn confirmations(steps: Seq<Step>, states: Seq<StorageView>, n: nat) -> nat
    decreases n,
{
    if n == 0 {
        0
    } else {
        confirmations(steps, states, (n - 1) as nat) + if steps[n - 1] matches Step::Confirm {
            key,
            ..
        } && states[n - 1].pending.contains_key(key) {
            1nat
        } else {
            0
        }
    }
}

/// The keys that the first `n` operations stored new chunks under.
pub open spec fn new_keys(steps: Seq<Step>, n: nat) -> Set<Seq<u8>>
    decreases n,
{
    if n == 0 {
        Set::empty()
    } else {
        match steps[n - 1] {
            Step::Offer { is_new: true, key, .. } => new_keys(steps, (n - 1) as nat).insert(key),
            _ => new_keys(steps, (n - 1) as nat),
        }
    }
}

/// Those of them that were confirmed later.
pub open spec fn confirmed_keys(steps: Seq<Step>, n: nat) -> Set<Seq<u8>>
    decreases n,
{
    if n == 0 {
        Set::empty()
    } else {
        let m = (n - 1) as nat;
        match steps[n - 1] {
            Step::Confirm { key, .. } => if new_keys(steps, m).contains(key) {
                confirmed_keys(steps, m).insert(key)
            } else {
                confirmed_keys(steps, m)
            },
            _ => confirmed_keys(steps, m),
        }
    }
}

/// No key is given to a new chunk twice: no identifier arrives again, after its
/// record was evicted, at the very nanosecond of its first arrival.
pub open spec fn keys_differ(steps: Seq<Step>) -> bool {
    forall|i: int|
        0 <= i < steps.len() ==> ((#[trigger] steps[i]) matches Step::Offer {
            is_new: true,
            key,
            ..
        } ==> !new_keys(steps, i as nat).contains(key))
}

/// The number of chunks that wait is that of insertions less that of
/// confirmations, at every point of a history.
pub proof fn law_waiting_is_insertions_less_confirmations(
    steps: Seq<Step>,
    states: Seq<StorageView>,
    n: nat,
)
    requires
        is_history(steps, states),
        n <= steps.len(),
    ensures
        states[n as int].pending.dom().finite(),
        states[n as int].pending.len() == insertions(steps, n) - confirmations(steps, states, n),
    decreases n,
{
    if n > 0 {
        let m: int = n - 1;
        law_waiting_is_insertions_less_confirmations(steps, states, m as nat);
        let s: StorageView = states[m];
        let after: StorageView = states[m + 1];
        assert(steps[m].leads(s, after));
        if let Step::Offer { blind_id, payload, now, is_new, key } = steps[m] {
            if is_new {
                law_offer_stores_payload(s, blind_id, payload, now, is_new, key, after);
                assert(after.pending.dom() =~= s.pending.dom().insert(key));
            }
        }
    }
}

/// The number of chunks that wait is that of the insertions less that of the
/// keys so returned that were confirmed later, at every point of a history in
/// which no key is given twice; those keys, less the confirmed ones, wait.
pub proof fn law_waiting_is_what_was_not_confirmed(
    steps: Seq<Step>,
    states: Seq<StorageView>,
    n: nat,
)
    requires
        is_history(steps, states),
        keys_differ(steps),
        n <= steps.len(),
    ensures
        states[n as int].pending.dom() == new_keys(steps, n).difference(confirmed_keys(steps, n)),
        states[n as int].pending.dom().finite(),
        states[n as int].pending.len() == insertions(steps, n) - confirmed_keys(steps, n).len(),
        new_keys(steps, n).finite(),
        new_keys(steps, n).len() == insertions(steps, n),
        confirmed_keys(steps, n).subset_of(new_keys(steps, n)),
    decreases n,
{
    let waiting: Set<Seq<u8>> = states[n as int].pending.dom();
    if n > 0 {
        let m: int = n - 1;
        law_waiting_is_what_was_not_confirmed(steps, states, m as nat);
        let s: StorageView = states[m];
        let after: StorageView = states[m + 1];
        assert(steps[m].leads(s, after));
        match steps[m] {
            Step::Offer { blind_id, payload, now, is_new, key } => {
                if is_new {
                    law_offer_stores_payload(s, blind_id, payload, now, is_new, key, after);
                    assert(!new_keys(steps, m as nat).contains(key));
                }
            },
            Step::Batch => {},
            Step::Confirm { key, now } => {},
        }
    }
    assert(waiting =~= new_keys(steps, n).difference(confirmed_keys(steps, n)));
    vstd::set_lib::lemma_len_subset(confirmed_keys(steps, n), new_keys(steps, n));
    vstd::set_lib::lemma_len_subset(waiting, new_keys(steps, n));
    vstd::set_lib::lemma_set_difference_len(new_keys(steps, n), confirmed_keys(steps, n));
    assert(new_keys(steps, n).intersect(confirmed_keys(steps, n)) =~= confirmed_keys(steps, n));
}

/// A store whose whole batch was confirmed is empty.
pub proof fn law_confirmed_batch_leaves_nothing(
    s: StorageView,
    n: nat,
    batch: PendingBatch,
    times: Seq<u64>,
    states: Seq<StorageView>,
)
    requires
        batch_result(s.pending, n, batch),
        batch.error is None,
        s.pending.dom().finite(),
        s.pending.len() <= n,
        states.len() == batch@.len() + 1,
        states[0] == s,
        forall|i: int|
            0 <= i < batch@.len() ==> states[i].consumed(
                (#[trigger] batch@[i]).0,
                times[i],
                states[i + 1],
            ),
    ensures
        states.last().pending == Map::<Seq<u8>, Seq<u8>>::empty(),
{
    assert forall|k: Seq<u8>| #[trigger] s.pending.contains_key(k) implies in_batch(batch@, k) by {
        if batch@.len() == n && !in_batch(batch@, k) {
            lemma_batch_is_within(s, batch, k);
        }
    }
    lemma_confirmed_are_gone(s, batch@, times, states, batch@.len());
    assert(batch@.take(batch@.len() as int) =~= batch@);
    assert forall|k: Seq<u8>| !(#[trigger] states.last().pending.contains_key(k)) by {
        assert(states.last() == states[batch@.len() as int]);
    }
    assert(states.last().pending =~= Map::empty());
}

/// A batch is shorter than what waits where a chunk that waits is not in it.
proof fn lemma_batch_is_within(s: StorageView, batch: PendingBatch, k: Seq<u8>)
    requires
        is_front(batch@, s.pending),
        s.pending.dom().finite(),
        s.pending.contains_key(k),
        !in_batch(batch@, k),
    ensures
        batch@.len() < s.pending.len(),
{
    let keys: Seq<Seq<u8>> = Seq::new(batch@.len(), |i: int| batch@[i].0);
    assert forall|i: int, j: int| 0 <= i < j < keys.len() implies keys[i] != keys[j] by {
        law_before_irreflexive(batch@[i].0);
        assert(before(batch@[i].0, batch@[j].0));
    }
    assert(keys.no_duplicates());
    keys.unique_seq_to_set();
    assert forall|j: Seq<u8>| keys.to_set().contains(j) implies s.pending.dom().remove(k).contains(
        j,
    ) by {
        let i: int = choose|i: int| 0 <= i < keys.len() && keys[i] == j;
        assert(s.pending.contains_key(batch@[i].0));
    }
    vstd::set_lib::lemma_len_subset(keys.to_set(), s.pending.dom().remove(k));
}

proof fn lemma_confirmed_are_gone(
    s: StorageView,
    batch: Seq<(Seq<u8>, Seq<u8>)>,
    times: Seq<u64>,
    states: Seq<StorageView>,
    n: nat,
)
    requires
        n <= batch.len(),
        states.len() == batch.len() + 1,
        states[0] == s,
        forall|i: int|
            0 <= i < batch.len() ==> states[i].consumed(
                (#[trigger] batch[i]).0,
                times[i],
                states[i + 1],
            ),
    ensures
        forall|k: Seq<u8>| #[trigger]
            states[n as int].pending.contains_key(k) ==> s.pending.contains_key(k) && !in_batch(
                batch.take(n as int),
                k,
            ),
    decreases n,
{
    if n > 0 {
        let m: int = n - 1;
        lemma_confirmed_are_gone(s, batch, times, states, m as nat);
        assert(states[m].consumed(batch[m].0, times[m], states[m + 1]));
        assert forall|k: Seq<u8>| #[trigger]
            states[n as int].pending.contains_key(k) implies s.pending.contains_key(k)
            && !in_batch(batch.take(n as int), k) by {
            assert(states[m].pending.contains_key(k));
            if in_batch(batch.take(n as int), k) {
                let i: int = choose|i: int|
                    0 <= i < n && (#[trigger] batch.take(n as int)[i]).0 == k;
                if i < m {
                    assert(batch.take(m)[i].0 == k);
                }
            }
        }
    }
}

/// That nothing waits, that the number waiting is zero, and that a batch of one
/// has nothing in it are the same.
pub proof fn law_emptiness_agrees(s: StorageView, batch: PendingBatch)
    requires
        s.pending.dom().finite(),
        batch_result(s.pending, 1, batch),
        batch.error is None,
    ensures
        s.pending == Map::<Seq<u8>, Seq<u8>>::empty() <==> s.pending.len() == 0,
        s.pending == Map::<Seq<u8>, Seq<u8>>::empty() <==> batch@.len() == 0,
{
    if s.pending.len() == 0 {
        assert(s.pending.dom() =~= Set::empty());
        assert(s.pending =~= Map::empty());
    }
    if batch@.len() == 0 {
        assert(s.pending =~= Map::empty());
    } else {
        assert(s.pending.contains_key(batch@[0].0));
    }
}

} // verus!
