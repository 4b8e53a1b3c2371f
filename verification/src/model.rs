//! What a store holds, as mathematics, and the laws of its operations.
use vstd::prelude::*;

use crate::engine::at_most;
use crate::keys::{
    before, blind_id_of, is_expired, key_bytes, law_before_irreflexive, law_before_transitive,
    law_key_order_is_arrival_order, law_key_round_trip, law_timestamp_round_trip, names_blind_id,
    timestamp_bytes, timestamp_of, BLIND_ID_LEN, TIMESTAMP_LEN,
};
use crate::ring::{
    gave_way, is_stale, law_free_slot_keeps_the_young, law_oldest_gives_way,
    law_record_lasts_a_day, law_room_is_unique, room_made, ACK_SLOTS,
};

verus! {

/// The contents of a store: chunks that wait, by key, and the times at which
/// consumed chunks were confirmed, by blind identifier.
#[verifier::ext_equal]
pub struct StorageView {
    pub pending: Map<Seq<u8>, Seq<u8>>,
    pub acknowledged: Map<Seq<u8>, Seq<u8>>,
}

impl StorageView {
    /// A store that holds nothing.
    pub open spec fn empty() -> StorageView {
        StorageView { pending: Map::empty(), acknowledged: Map::empty() }
    }

    /// A chunk with this blind identifier waits.
    pub open spec fn has_pending(self, blind_id: Seq<u8>) -> bool {
        exists|k: Seq<u8>| #[trigger] self.pending.contains_key(k) && names_blind_id(k, blind_id)
    }

    /// `key` is the first key, in byte order, of a waiting chunk with this
    /// blind identifier.
    pub open spec fn first_pending(self, blind_id: Seq<u8>, key: Seq<u8>) -> bool {
        &&& self.pending.contains_key(key)
        &&& names_blind_id(key, blind_id)
        &&& forall|k: Seq<u8>| #[trigger]
            self.pending.contains_key(k) && names_blind_id(k, blind_id) && k != key ==> before(
                key,
                k,
            )
    }

    /// The store has seen this blind identifier: it waits or was confirmed.
    pub open spec fn knows(self, blind_id: Seq<u8>) -> bool {
        self.has_pending(blind_id) || self.acknowledged.contains_key(blind_id)
    }

    /// The store after a chunk has been added.
    pub open spec fn arrive(self, blind_id: Seq<u8>, payload: Seq<u8>, now: u64) -> StorageView {
        StorageView { pending: self.pending.insert(key_bytes(now, blind_id), payload), ..self }
    }

    /// What offering a chunk does: a known blind identifier changes nothing
    /// and is answered with the key that stands for it; a new one is added.
    pub open spec fn offered(
        self,
        blind_id: Seq<u8>,
        payload: Seq<u8>,
        now: u64,
        is_new: bool,
        key: Seq<u8>,
        after: StorageView,
    ) -> bool {
        if self.has_pending(blind_id) {
            !is_new && self.first_pending(blind_id, key) && after == self
        } else if self.acknowledged.contains_key(blind_id) {
            !is_new && key == blind_id && after == self
        } else {
            is_new && key == key_bytes(now, blind_id) && after == self.arrive(
                blind_id,
                payload,
                now,
            )
        }
    }

    /// What confirming a waiting chunk does: its entry leaves pending, and its
    /// blind identifier takes a slot of the acknowledged ring. A key that does
    /// not wait changes nothing.
    pub open spec fn consumed(self, key: Seq<u8>, now: u64, after: StorageView) -> bool {
        if self.pending.contains_key(key) {
            &&& after.pending == self.pending.remove(key)
            &&& acknowledges(self.acknowledged, blind_id_of(key), now, after.acknowledged)
        } else {
            after == self
        }
    }

    /// The store without its acknowledged entries.
    pub open spec fn forget_acknowledged(self) -> StorageView {
        StorageView { acknowledged: Map::empty(), ..self }
    }

    /// The store without the chunks that have waited for more than seven days.
    pub open spec fn expire(self, now: u64) -> StorageView {
        StorageView { pending: self.pending.filter_keys(|k: Seq<u8>| !is_expired(k, now)), ..self }
    }

    /// What every store that was filled by these operations keeps: keys and
    /// values have their layout, a blind identifier waits at most once, none
    /// waits that was confirmed, and what was confirmed fits the slots.
    pub open spec fn well_formed(self) -> bool {
        &&& forall|k: Seq<u8>| #[trigger]
            self.pending.contains_key(k) ==> k.len() == TIMESTAMP_LEN + BLIND_ID_LEN
                && !self.acknowledged.contains_key(blind_id_of(k))
        &&& forall|j: Seq<u8>, k: Seq<u8>| #[trigger]
            self.pending.contains_key(j) && #[trigger] self.pending.contains_key(k) && blind_id_of(
                j,
            ) == blind_id_of(k) ==> j == k
        &&& forall|k: Seq<u8>| #[trigger]
            self.acknowledged.contains_key(k) ==> k.len() == BLIND_ID_LEN
                && self.acknowledged[k].len() == TIMESTAMP_LEN
        &&& at_most(self.acknowledged, ACK_SLOTS as nat)
    }
}

/// What recording an identifier at time `now` does to the acknowledged ring: it
/// is there with that time, and room was made for it among the others.
pub open spec fn acknowledges(
    ring: Map<Seq<u8>, Seq<u8>>,
    id: Seq<u8>,
    now: u64,
    after: Map<Seq<u8>, Seq<u8>>,
) -> bool {
    &&& after.contains_key(id)
    &&& after[id] == timestamp_bytes(now)
    &&& room_made(ring.remove(id), now, after.remove(id))
}

/// `batch` is the front of the pending map in the order of the keys: each of
/// its entries waits, with that payload, and whatever waits beside them comes
/// after them.
pub open spec fn is_front(
    batch: Seq<(Seq<u8>, Seq<u8>)>,
    pending: Map<Seq<u8>, Seq<u8>>,
) -> bool {
    &&& forall|i: int|
        0 <= i < batch.len() ==> pending.contains_key((#[trigger] batch[i]).0)
            && pending[batch[i].0] == batch[i].1
    &&& forall|i: int, j: int|
        0 <= i < j < batch.len() ==> before(#[trigger] batch[i].0, #[trigger] batch[j].0)
    &&& forall|i: int, k: Seq<u8>|
        #![trigger batch[i], pending.contains_key(k)]
        0 <= i < batch.len() && pending.contains_key(k) && !in_batch(batch, k) ==> before(
            batch[i].0,
            k,
        )
}

/// The batch has an entry under this key.
pub open spec fn in_batch(batch: Seq<(Seq<u8>, Seq<u8>)>, key: Seq<u8>) -> bool {
    exists|i: int| 0 <= i < batch.len() && (#[trigger] batch[i]).0 == key
}

/// A store that holds nothing is well formed.
pub proof fn law_empty_is_well_formed()
    ensures
        StorageView::empty().well_formed(),
{
}

/// Offering a chunk keeps a store well formed.
pub proof fn law_offer_keeps_well_formed(
    s: StorageView,
    blind_id: Seq<u8>,
    payload: Seq<u8>,
    now: u64,
    is_new: bool,
    key: Seq<u8>,
    after: StorageView,
)
    requires
        s.well_formed(),
        blind_id.len() == BLIND_ID_LEN,
        s.offered(blind_id, payload, now, is_new, key, after),
    ensures
        after.well_formed(),
{
    law_key_round_trip(now, blind_id);
    if is_new {
        assert forall|j: Seq<u8>, k: Seq<u8>| #[trigger]
            after.pending.contains_key(j) && #[trigger] after.pending.contains_key(k)
                && blind_id_of(j) == blind_id_of(k) implies j == k by {
            if j != k {
                if j == key {
                    assert(s.pending.contains_key(k));
                    assert(names_blind_id(k, blind_id));
                } else if k == key {
                    assert(s.pending.contains_key(j));
                    assert(names_blind_id(j, blind_id));
                } else {
                    assert(s.pending.contains_key(j) && s.pending.contains_key(k));
                }
            }
        }
        assert forall|k: Seq<u8>| #[trigger] after.pending.contains_key(k) implies k.len()
            == TIMESTAMP_LEN + BLIND_ID_LEN && !after.acknowledged.contains_key(blind_id_of(k)) by {
            if k != key {
                assert(s.pending.contains_key(k));
            }
        }
    }
}

/// Confirming a chunk keeps a store well formed.
pub proof fn law_consume_keeps_well_formed(
    s: StorageView,
    key: Seq<u8>,
    now: u64,
    after: StorageView,
)
    requires
        s.well_formed(),
        s.consumed(key, now, after),
    ensures
        after.well_formed(),
{
    if s.pending.contains_key(key) {
        let id: Seq<u8> = blind_id_of(key);
        assert(timestamp_bytes(now).len() == TIMESTAMP_LEN);
        assert forall|k: Seq<u8>| #[trigger] after.acknowledged.contains_key(k) && k
            != id implies s.acknowledged.contains_key(k) && s.acknowledged[k]
            == after.acknowledged[k] by {
            assert(after.acknowledged.remove(id).dom().contains(k));
            assert(s.acknowledged.remove(id).dom().contains(k));
        }
        assert forall|k: Seq<u8>| #[trigger] after.pending.contains_key(k) implies k.len()
            == TIMESTAMP_LEN + BLIND_ID_LEN && !after.acknowledged.contains_key(blind_id_of(k)) by {
            assert(s.pending.contains_key(k));
        }
        assert forall|j: Seq<u8>, k: Seq<u8>| #[trigger]
            after.pending.contains_key(j) && #[trigger] after.pending.contains_key(k)
                && blind_id_of(j) == blind_id_of(k) implies j == k by {
            assert(s.pending.contains_key(j) && s.pending.contains_key(k));
        }
        law_ring_is_bounded(s.acknowledged, id, now, after.acknowledged);
    }
}

/// The acknowledged ring never has more records than slots.
pub proof fn law_ring_is_bounded(
    ring: Map<Seq<u8>, Seq<u8>>,
    id: Seq<u8>,
    now: u64,
    after: Map<Seq<u8>, Seq<u8>>,
)
    requires
        acknowledges(ring, id, now, after),
    ensures
        at_most(after, ACK_SLOTS as nat),
        after.dom().finite(),
        after.len() <= ACK_SLOTS,
{
    assert(after.dom() =~= after.remove(id).dom().insert(id));
}

/// The acknowledged ring holds no record that is older than a day.
pub proof fn law_ring_is_fresh(
    ring: Map<Seq<u8>, Seq<u8>>,
    id: Seq<u8>,
    now: u64,
    after: Map<Seq<u8>, Seq<u8>>,
    k: Seq<u8>,
)
    requires
        acknowledges(ring, id, now, after),
        after.contains_key(k),
    ensures
        !is_stale(after[k], now),
{
    law_timestamp_round_trip(now, Seq::empty());
    assert(timestamp_bytes(now) + Seq::<u8>::empty() =~= timestamp_bytes(now));
    if k != id {
        assert(after.remove(id).contains_key(k));
    }
}

/// A record that gives way to a new one is no younger than any that stays, and
/// gives way only where the slots are all taken. The clock does not run back
/// between the records.
pub proof fn law_ring_is_first_in_first_out(
    ring: Map<Seq<u8>, Seq<u8>>,
    id: Seq<u8>,
    now: u64,
    after: Map<Seq<u8>, Seq<u8>>,
    gone: Seq<u8>,
    left: Seq<u8>,
)
    requires
        acknowledges(ring, id, now, after),
        ring.contains_key(gone),
        !is_stale(ring[gone], now),
        timestamp_of(ring[gone]) <= now,
        !after.contains_key(gone),
        after.contains_key(left),
    ensures
        timestamp_of(ring[gone]) <= timestamp_of(after[left]),
        after.len() == ACK_SLOTS,
{
    let others: Map<Seq<u8>, Seq<u8>> = ring.remove(id);
    let kept: Map<Seq<u8>, Seq<u8>> = after.remove(id);
    law_timestamp_round_trip(now, Seq::empty());
    assert(timestamp_bytes(now) + Seq::<u8>::empty() =~= timestamp_bytes(now));
    assert(gave_way(others, now, kept, gone));
    assert(after.dom() =~= kept.dom().insert(id));
    if left != id {
        law_oldest_gives_way(others, now, kept, gone, left);
    }
}

/// What recording an identifier leaves is determined.
pub proof fn law_ring_is_determined(
    ring: Map<Seq<u8>, Seq<u8>>,
    id: Seq<u8>,
    now: u64,
    a: Map<Seq<u8>, Seq<u8>>,
    b: Map<Seq<u8>, Seq<u8>>,
)
    requires
        acknowledges(ring, id, now, a),
        acknowledges(ring, id, now, b),
    ensures
        a == b,
{
    law_room_is_unique(ring.remove(id), now, a.remove(id), b.remove(id));
    assert(a =~= a.remove(id).insert(id, timestamp_bytes(now)));
    assert(b =~= b.remove(id).insert(id, timestamp_bytes(now)));
}

/// What is left of a well formed store is well formed.
pub proof fn law_part_is_well_formed(s: StorageView, part: StorageView)
    requires
        s.well_formed(),
        part.pending.submap_of(s.pending),
        part.acknowledged.submap_of(s.acknowledged),
    ensures
        part.well_formed(),
{
    assert forall|k: Seq<u8>| #[trigger] part.pending.contains_key(k) implies k.len()
        == TIMESTAMP_LEN + BLIND_ID_LEN && !part.acknowledged.contains_key(blind_id_of(k)) by {
        assert(s.pending.contains_key(k));
    }
    assert forall|j: Seq<u8>, k: Seq<u8>| #[trigger]
        part.pending.contains_key(j) && #[trigger] part.pending.contains_key(k) && blind_id_of(j)
            == blind_id_of(k) implies j == k by {
        assert(s.pending.contains_key(j) && s.pending.contains_key(k));
    }
    assert forall|k: Seq<u8>| #[trigger] part.acknowledged.contains_key(k) implies k.len()
        == BLIND_ID_LEN && part.acknowledged[k].len() == TIMESTAMP_LEN by {
        assert(s.acknowledged.contains_key(k));
    }
    assert(part.acknowledged.dom().subset_of(s.acknowledged.dom()));
    vstd::set_lib::lemma_len_subset(part.acknowledged.dom(), s.acknowledged.dom());
}

/// Both tiers of cleanup keep a store well formed.
pub proof fn law_cleanup_keeps_well_formed(s: StorageView, now: u64)
    requires
        s.well_formed(),
    ensures
        s.forget_acknowledged().well_formed(),
        s.expire(now).well_formed(),
{
    law_part_is_well_formed(s, s.forget_acknowledged());
    law_part_is_well_formed(s, s.expire(now));
}

/// Offering is idempotent: once a chunk has been offered, offering its blind
/// identifier again, at any time and with any payload, adds nothing, changes
/// nothing and is answered with the same key.
pub proof fn law_offer_is_idempotent(
    s: StorageView,
    blind_id: Seq<u8>,
    payload: Seq<u8>,
    now: u64,
    is_new: bool,
    key: Seq<u8>,
    after: StorageView,
    payload2: Seq<u8>,
    now2: u64,
    is_new2: bool,
    key2: Seq<u8>,
    after2: StorageView,
)
    requires
        blind_id.len() == BLIND_ID_LEN,
        s.offered(blind_id, payload, now, is_new, key, after),
        after.offered(blind_id, payload2, now2, is_new2, key2, after2),
    ensures
        after.knows(blind_id),
        !is_new2,
        after2 == after,
        key2 == key,
{
    law_key_round_trip(now, blind_id);
    if s.has_pending(blind_id) {
        if key2 != key {
            law_before_transitive(key, key2, key);
            law_before_irreflexive(key);
        }
    } else if s.acknowledged.contains_key(blind_id) {
    } else {
        assert(after.pending.contains_key(key));
        assert(after.has_pending(blind_id));
        if key2 != key {
            assert(s.pending.contains_key(key2));
        }
    }
}

/// What is stored is what was offered: a new chunk waits under its key with
/// its payload as it came, and every other entry is as it was.
pub proof fn law_offer_stores_payload(
    s: StorageView,
    blind_id: Seq<u8>,
    payload: Seq<u8>,
    now: u64,
    is_new: bool,
    key: Seq<u8>,
    after: StorageView,
)
    requires
        blind_id.len() == BLIND_ID_LEN,
        s.offered(blind_id, payload, now, is_new, key, after),
        is_new,
    ensures
        !s.pending.contains_key(key),
        after.pending.contains_key(key),
        after.pending[key] == payload,
        after.pending.remove(key) == s.pending,
        after.acknowledged == s.acknowledged,
{
    law_key_round_trip(now, blind_id);
    if s.pending.contains_key(key) {
        assert(s.has_pending(blind_id));
    }
    assert(after.pending.remove(key) =~= s.pending);
}

/// What is handed over is what was offered: where a batch of the store holds the
/// key of a new chunk, it holds its payload as it came.
pub proof fn law_batch_hands_over_payload(
    s: StorageView,
    blind_id: Seq<u8>,
    payload: Seq<u8>,
    now: u64,
    key: Seq<u8>,
    after: StorageView,
    batch: Seq<(Seq<u8>, Seq<u8>)>,
    i: int,
)
    requires
        s.offered(blind_id, payload, now, true, key, after),
        is_front(batch, after.pending),
        0 <= i < batch.len(),
        batch[i].0 == key,
    ensures
        batch[i].1 == payload,
{
}

/// A confirmed chunk does not come back: after it has been consumed, offering
/// its blind identifier again adds nothing, as long as its record is kept.
pub proof fn law_consumed_chunk_is_not_stored_again(
    s: StorageView,
    key: Seq<u8>,
    confirmed: u64,
    mid: StorageView,
    payload: Seq<u8>,
    now: u64,
    is_new: bool,
    answer: Seq<u8>,
    after: StorageView,
)
    requires
        s.well_formed(),
        s.pending.contains_key(key),
        s.consumed(key, confirmed, mid),
        mid.offered(blind_id_of(key), payload, now, is_new, answer, after),
    ensures
        !is_new,
        answer == blind_id_of(key),
        after == mid,
{
    if mid.has_pending(blind_id_of(key)) {
        let k: Seq<u8> = choose|k: Seq<u8>| #[trigger]
            mid.pending.contains_key(k) && names_blind_id(k, blind_id_of(key));
        assert(s.pending.contains_key(k));
        assert(k == key);
    }
}

/// A consumed chunk leaves pending for acknowledged, alone: no other chunk is
/// touched, and no other identifier is recorded.
pub proof fn law_consume_moves_one_entry(
    s: StorageView,
    key: Seq<u8>,
    now: u64,
    after: StorageView,
    other: Seq<u8>,
    other_id: Seq<u8>,
)
    requires
        s.pending.contains_key(key),
        s.consumed(key, now, after),
        other != key,
        other_id != blind_id_of(key),
    ensures
        !after.pending.contains_key(key),
        after.acknowledged.contains_key(blind_id_of(key)),
        after.acknowledged[blind_id_of(key)] == timestamp_bytes(now),
        after.pending.contains_key(other) <==> s.pending.contains_key(other),
        s.pending.contains_key(other) ==> after.pending[other] == s.pending[other],
        after.acknowledged.contains_key(other_id) ==> s.acknowledged.contains_key(other_id)
            && after.acknowledged[other_id] == s.acknowledged[other_id],
{
    let id: Seq<u8> = blind_id_of(key);
    if after.acknowledged.contains_key(other_id) {
        assert(after.acknowledged.remove(id).dom().contains(other_id));
        assert(s.acknowledged.remove(id).dom().contains(other_id));
    }
}

/// Cleanup loses nothing that is younger than seven days: forgetting the
/// acknowledged entries leaves pending alone, and expiry keeps every chunk that
/// has not expired, with its payload, and adds none.
pub proof fn law_cleanup_keeps_young_chunks(s: StorageView, now: u64, key: Seq<u8>)
    ensures
        s.forget_acknowledged().pending == s.pending,
        s.expire(now).acknowledged == s.acknowledged,
        s.expire(now).pending.contains_key(key) <==> s.pending.contains_key(key) && !is_expired(
            key,
            now,
        ),
        s.expire(now).pending.contains_key(key) ==> s.expire(now).pending[key] == s.pending[key],
{
}

/// The entries of a batch come in the order of arrival.
pub proof fn law_front_is_in_arrival_order(
    s: StorageView,
    batch: Seq<(Seq<u8>, Seq<u8>)>,
    i: int,
    j: int,
)
    requires
        s.well_formed(),
        is_front(batch, s.pending),
        0 <= i < j < batch.len(),
    ensures
        timestamp_of(batch[i].0) <= timestamp_of(batch[j].0),
{
    assert(s.pending.contains_key(batch[i].0));
    assert(s.pending.contains_key(batch[j].0));
    law_key_order_is_arrival_order(batch[i].0, batch[j].0);
}

/// A batch is the oldest that there is: what stays behind arrived no earlier.
pub proof fn law_front_is_oldest(
    s: StorageView,
    batch: Seq<(Seq<u8>, Seq<u8>)>,
    i: int,
    left: Seq<u8>,
)
    requires
        s.well_formed(),
        is_front(batch, s.pending),
        0 <= i < batch.len(),
        s.pending.contains_key(left),
        !in_batch(batch, left),
    ensures
        timestamp_of(batch[i].0) <= timestamp_of(left),
{
    assert(s.pending.contains_key(batch[i].0));
    law_key_order_is_arrival_order(batch[i].0, left);
}

/// There is one front of each length.
pub proof fn law_front_is_unique(
    a: Seq<(Seq<u8>, Seq<u8>)>,
    b: Seq<(Seq<u8>, Seq<u8>)>,
    pending: Map<Seq<u8>, Seq<u8>>,
)
    requires
        is_front(a, pending),
        is_front(b, pending),
        a.len() == b.len(),
    ensures
        a == b,
{
    assert forall|n: int| 0 <= n <= a.len() implies a.take(n) == b.take(n) by {
        lemma_fronts_agree(a, b, pending, n);
    }
    assert(a.take(a.len() as int) =~= a);
    assert(b.take(b.len() as int) =~= b);
}

proof fn lemma_fronts_agree(
    a: Seq<(Seq<u8>, Seq<u8>)>,
    b: Seq<(Seq<u8>, Seq<u8>)>,
    pending: Map<Seq<u8>, Seq<u8>>,
    n: int,
)
    requires
        is_front(a, pending),
        is_front(b, pending),
        a.len() == b.len(),
        0 <= n <= a.len(),
    ensures
        a.take(n) == b.take(n),
    decreases n,
{
    if n > 0 {
        let m: int = n - 1;
        lemma_fronts_agree(a, b, pending, m);
        assert forall|i: int| 0 <= i < m implies a[i] == b[i] by {
            assert(a.take(m)[i] == b.take(m)[i]);
        }
        if a[m].0 != b[m].0 {
            lemma_front_position(a, b, pending, m);
            lemma_front_position(b, a, pending, m);
            law_before_transitive(a[m].0, b[m].0, a[m].0);
            law_before_irreflexive(a[m].0);
        }
        assert(a.take(n) =~= a.take(m).push(a[m]));
        assert(b.take(n) =~= b.take(m).push(b[m]));
    }
}

/// Where two fronts agree up to a position and differ there, each has the
/// smaller key there: one of them has it out of order.
proof fn lemma_front_position(
    a: Seq<(Seq<u8>, Seq<u8>)>,
    b: Seq<(Seq<u8>, Seq<u8>)>,
    pending: Map<Seq<u8>, Seq<u8>>,
    m: int,
)
    requires
        is_front(a, pending),
        is_front(b, pending),
        a.len() == b.len(),
        0 <= m < a.len(),
        forall|i: int| 0 <= i < m ==> a[i] == b[i],
        a[m].0 != b[m].0,
    ensures
        before(a[m].0, b[m].0),
{
    assert(pending.contains_key(b[m].0));
    if in_batch(a, b[m].0) {
        let i: int = choose|i: int| 0 <= i < a.len() && (#[trigger] a[i]).0 == b[m].0;
        if i < m {
            assert(before(b[i].0, b[m].0));
            law_before_irreflexive(b[m].0);
        } else {
            assert(before(a[m].0, a[i].0));
        }
    } else {
        assert(before(a[m].0, b[m].0));
    }
}

/// A blind identifier is known just where a key that ends in it waits, or where it
/// is acknowledged.
pub proof fn law_known_is_held(s: StorageView, id: Seq<u8>)
    requires
        id.len() == 16,
    ensures
        s.has_pending(id) <==> exists|k: Seq<u8>| #[trigger]
            s.pending.contains_key(k) && k.len() >= 16 && k.skip(k.len() - 16) == id,
        s.knows(id) <==> s.has_pending(id) || s.acknowledged.contains_key(id),
{
    if s.has_pending(id) {
        let k: Seq<u8> = choose|k: Seq<u8>| #[trigger]
            s.pending.contains_key(k) && names_blind_id(k, id);
        assert(k.skip(k.len() - 16) =~= blind_id_of(k));
    }
    if exists|k: Seq<u8>| #[trigger]
        s.pending.contains_key(k) && k.len() >= 16 && k.skip(k.len() - 16) == id {
        let k: Seq<u8> = choose|k: Seq<u8>| #[trigger]
            s.pending.contains_key(k) && k.len() >= 16 && k.skip(k.len() - 16) == id;
        assert(k.skip(k.len() - 16) =~= blind_id_of(k));
        assert(names_blind_id(k, id));
    }
}

/// What an offer comes to, by what the store held: an identifier that waits or is
/// acknowledged adds nothing, and any other is added under the time of its
/// arrival, and is all that is added.
pub proof fn law_offer_adds_what_is_unknown(
    s: StorageView,
    id: Seq<u8>,
    payload: Seq<u8>,
    now: u64,
    is_new: bool,
    key: Seq<u8>,
    after: StorageView,
)
    requires
        id.len() == 16,
        s.offered(id, payload, now, is_new, key, after),
    ensures
        is_new <==> !s.acknowledged.contains_key(id) && !exists|k: Seq<u8>| #[trigger]
            s.pending.contains_key(k) && k.len() >= 16 && k.skip(k.len() - 16) == id,
        is_new ==> {
            &&& key.len() == 24
            &&& timestamp_of(key) == now
            &&& key.skip(8) == id
            &&& after.pending == s.pending.insert(key, payload)
            &&& after.acknowledged == s.acknowledged
        },
        !is_new ==> after == s && (key == id || (s.pending.contains_key(key) && key.len() >= 16
            && key.skip(key.len() - 16) == id)),
{
    law_known_is_held(s, id);
    law_key_round_trip(now, id);
    assert(key_bytes(now, id).skip(8) =~= id);
    if s.has_pending(id) {
        assert(key.skip(key.len() - 16) =~= blind_id_of(key));
    }
}

/// Of several keys that end in an identifier, the first is that of the earliest
/// arrival.
pub proof fn law_first_is_the_earliest(s: StorageView, id: Seq<u8>, key: Seq<u8>, other: Seq<u8>)
    requires
        s.first_pending(id, key),
        s.pending.contains_key(other),
        names_blind_id(other, id),
    ensures
        s.pending.contains_key(key),
        names_blind_id(key, id),
        timestamp_of(key) <= timestamp_of(other),
{
    if other != key {
        law_key_order_is_arrival_order(key, other);
    }
}

/// Expiry takes away just what has waited for more than seven days, by the time
/// that its key begins with; forgetting takes away no chunk.
pub proof fn law_expiry_takes_the_old(s: StorageView, now: u64, key: Seq<u8>)
    ensures
        s.expire(now).pending.contains_key(key) <==> s.pending.contains_key(key) && !(key.len() >= 8
            && now > timestamp_of(key) + 7 * 24 * 3600 * 1_000_000_000),
        s.expire(now).pending.contains_key(key) ==> s.expire(now).pending[key] == s.pending[key],
        s.expire(now).acknowledged == s.acknowledged,
        s.forget_acknowledged().pending == s.pending,
        !s.forget_acknowledged().acknowledged.contains_key(key),
{
}

/// A record is kept for a day: an identifier that was confirmed at time `t` is
/// still acknowledged after another one has been recorded, up to a day later,
/// where the slots are not all taken; and after that day it is not.
pub proof fn law_record_is_kept_for_a_day(
    ring: Map<Seq<u8>, Seq<u8>>,
    id: Seq<u8>,
    now: u64,
    after: Map<Seq<u8>, Seq<u8>>,
    other: Seq<u8>,
    t: u64,
)
    requires
        acknowledges(ring, id, now, after),
        other != id,
        ring.contains_key(other),
        ring[other] == timestamp_bytes(t),
        ring.dom().finite(),
        ring.len() < ACK_SLOTS,
    ensures
        now <= t + 24 * 3600 * 1_000_000_000 ==> after.contains_key(other) && after[other]
            == timestamp_bytes(t),
        now > t + 24 * 3600 * 1_000_000_000 ==> !after.contains_key(other),
        after.contains_key(id) && after[id] == timestamp_bytes(now),
{
    let others: Map<Seq<u8>, Seq<u8>> = ring.remove(id);
    law_record_lasts_a_day(t, now, Seq::empty());
    vstd::set_lib::lemma_len_subset(others.dom(), ring.dom());
    if now <= t + 24 * 3600 * 1_000_000_000 {
        law_free_slot_keeps_the_young(others, now, after.remove(id), other);
    } else if after.contains_key(other) {
        assert(after.remove(id).dom().contains(other));
        assert(others.dom().contains(other));
        law_ring_is_fresh(ring, id, now, after, other);
    }
}

/// A chunk that was consumed stays consumed for a day: confirmed at time `t`, and
/// sent again up to a day later after others were confirmed, it is not stored
/// again, where the slots are not all taken.
pub proof fn law_consumed_chunk_is_remembered_for_a_day(
    s: StorageView,
    key: Seq<u8>,
    t: u64,
    mid: StorageView,
    other: Seq<u8>,
    u: u64,
    late: StorageView,
    payload: Seq<u8>,
    now: u64,
    is_new: bool,
    answer: Seq<u8>,
    after: StorageView,
)
    requires
        s.well_formed(),
        s.pending.contains_key(key),
        s.consumed(key, t, mid),
        mid.pending.contains_key(other),
        mid.consumed(other, u, late),
        mid.acknowledged.len() < ACK_SLOTS,
        u <= t + 24 * 3600 * 1_000_000_000,
        late.offered(blind_id_of(key), payload, now, is_new, answer, after),
    ensures
        !is_new,
        answer == blind_id_of(key),
        after == late,
{
    let id: Seq<u8> = blind_id_of(key);
    law_consume_keeps_well_formed(s, key, t, mid);
    law_consume_keeps_well_formed(mid, other, u, late);
    assert(mid.acknowledged.contains_key(id));
    assert(blind_id_of(other) != id);
    law_record_is_kept_for_a_day(
        mid.acknowledged,
        blind_id_of(other),
        u,
        late.acknowledged,
        id,
        t,
    );
    if late.has_pending(id) {
        let k: Seq<u8> = choose|k: Seq<u8>| #[trigger]
            late.pending.contains_key(k) && names_blind_id(k, id);
    }
}

} // verus!
