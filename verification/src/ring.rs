//! The ring of acknowledged blind identifiers.
//!
//! It has a fixed number of slots. Recording an identifier evicts what is older
//! than a day, and, where the slots are all taken, the oldest records.
use vstd::prelude::*;

use crate::engine::at_most;
use crate::keys::{
    before, bytes_before, decode_timestamp, law_before_irreflexive, law_before_total,
    law_before_transitive, law_key_order_is_arrival_order, law_timestamp_round_trip,
    timestamp_bytes, timestamp_of, TIMESTAMP_LEN,
};
use crate::model::in_batch;
use crate::storage::entries_view;

verus! {

/// How many acknowledged identifiers are kept.
pub const ACK_SLOTS: usize = 4096;

/// How long an acknowledged identifier is kept, in nanoseconds: a day.
pub const ACK_TTL_NS: u64 = 86_400_000_000_000;

/// The record with this time is older than a day, or the time is none.
pub open spec fn is_stale(stamp: Seq<u8>, now: u64) -> bool {
    stamp.len() != TIMESTAMP_LEN || now - timestamp_of(stamp) > ACK_TTL_NS
}

/// Whether a record with this time is older than a day.
pub fn stamp_stale(stamp: &[u8], now: u64) -> (stale: bool)
    ensures
        stale == is_stale(stamp@, now),
{
    if stamp.len() != TIMESTAMP_LEN {
        return true;
    }
    let t: u64 = decode_timestamp(stamp);
    now.saturating_sub(t) > ACK_TTL_NS
}

/// A record, as identifier and time, comes before another one: by its time, and
/// at the same time by its identifier.
pub open spec fn older(a: (Seq<u8>, Seq<u8>), b: (Seq<u8>, Seq<u8>)) -> bool {
    before(a.1, b.1) || (a.1 == b.1 && before(a.0, b.0))
}

/// Whether a record comes before another one.
fn comes_first(a: &(Vec<u8>, Vec<u8>), b: &(Vec<u8>, Vec<u8>)) -> (first: bool)
    ensures
        first == older((a.0@, a.1@), (b.0@, b.1@)),
{
    if bytes_before(a.1.as_slice(), b.1.as_slice()) {
        return true;
    }
    proof {
        law_before_total(a.1@, b.1@);
        law_before_irreflexive(b.1@);
    }
    if bytes_before(b.1.as_slice(), a.1.as_slice()) {
        return false;
    }
    bytes_before(a.0.as_slice(), b.0.as_slice())
}

/// No record comes before itself.
pub proof fn law_older_irreflexive(a: (Seq<u8>, Seq<u8>))
    ensures
        !older(a, a),
{
    law_before_irreflexive(a.0);
    law_before_irreflexive(a.1);
}

/// The order of records is transitive.
pub proof fn law_older_transitive(
    a: (Seq<u8>, Seq<u8>),
    b: (Seq<u8>, Seq<u8>),
    c: (Seq<u8>, Seq<u8>),
)
    requires
        older(a, b),
        older(b, c),
    ensures
        older(a, c),
{
    if before(a.1, b.1) && before(b.1, c.1) {
        law_before_transitive(a.1, b.1, c.1);
    } else if a.1 == b.1 && b.1 == c.1 {
        law_before_transitive(a.0, b.0, c.0);
    }
}

/// Of two different records one comes before the other.
pub proof fn law_older_total(a: (Seq<u8>, Seq<u8>), b: (Seq<u8>, Seq<u8>))
    ensures
        a == b || older(a, b) || older(b, a),
{
    law_before_total(a.0, b.0);
    law_before_total(a.1, b.1);
}

/// The identifier has a record among `all`, not older than a day, that `part`
/// lacks.
pub open spec fn gave_way(
    all: Map<Seq<u8>, Seq<u8>>,
    now: u64,
    part: Map<Seq<u8>, Seq<u8>>,
    id: Seq<u8>,
) -> bool {
    all.contains_key(id) && !part.contains_key(id) && !is_stale(all[id], now)
}

/// `part` is what is left of `all` while room is made for one more record: what
/// has gone is older than a day, or it had to give way, and then it comes before
/// all that is left, which fills the other slots.
pub open spec fn room_part(
    all: Map<Seq<u8>, Seq<u8>>,
    now: u64,
    part: Map<Seq<u8>, Seq<u8>>,
) -> bool {
    &&& part.submap_of(all)
    &&& forall|k: Seq<u8>| #[trigger]
        gave_way(all, now, part, k) ==> part.dom().finite() && part.len() >= ACK_SLOTS - 1
    &&& forall|k: Seq<u8>, j: Seq<u8>|
        #![trigger gave_way(all, now, part, k), part.contains_key(j)]
        gave_way(all, now, part, k) && part.contains_key(j) ==> !is_stale(part[j], now) && older(
            (k, all[k]),
            (j, part[j]),
        )
}

/// `kept` is what is left of `all` once room has been made for one more record.
pub open spec fn room_made(
    all: Map<Seq<u8>, Seq<u8>>,
    now: u64,
    kept: Map<Seq<u8>, Seq<u8>>,
) -> bool {
    &&& room_part(all, now, kept)
    &&& at_most(kept, (ACK_SLOTS - 1) as nat)
    &&& forall|j: Seq<u8>| #[trigger] kept.contains_key(j) ==> !is_stale(kept[j], now)
}

/// `entries` lists the map, once each.
pub open spec fn lists(entries: Seq<(Seq<u8>, Seq<u8>)>, map: Map<Seq<u8>, Seq<u8>>) -> bool {
    &&& forall|i: int, j: int|
        0 <= i < j < entries.len() ==> #[trigger] entries[i].0 != #[trigger] entries[j].0
    &&& forall|i: int|
        0 <= i < entries.len() ==> map.contains_key((#[trigger] entries[i]).0)
            && map[entries[i].0] == entries[i].1
    &&& forall|k: Seq<u8>| #[trigger] map.contains_key(k) ==> in_batch(entries, k)
}

/// The record to evict next, so that there is room for one more: one that is
/// older than a day, else the oldest where the slots are all taken.
pub fn ring_victim(records: &Vec<(Vec<u8>, Vec<u8>)>, now: u64) -> (victim: Option<usize>)
    ensures
        match victim {
            Some(v) => {
                &&& v < records@.len()
                &&& is_stale(entries_view(records@)[v as int].1, now) || {
                    &&& records@.len() > ACK_SLOTS - 1
                    &&& forall|j: int|
                        0 <= j < records@.len() ==> !is_stale(
                            (#[trigger] entries_view(records@)[j]).1,
                            now,
                        )
                    &&& forall|j: int|
                        0 <= j < records@.len() && j != v ==> !older(
                            #[trigger] entries_view(records@)[j],
                            entries_view(records@)[v as int],
                        )
                }
            },
            None => {
                &&& records@.len() <= ACK_SLOTS - 1
                &&& forall|j: int|
                    0 <= j < records@.len() ==> !is_stale(
                        (#[trigger] entries_view(records@)[j]).1,
                        now,
                    )
            },
        },
{
    let mut oldest: usize = 0;
    let mut i: usize = 0;
    let ghost view = entries_view(records@);
    while i < records.len()
        invariant
            i <= records@.len(),
            view == entries_view(records@),
            oldest < i || (i == 0 && oldest == 0),
            forall|j: int| 0 <= j < i ==> !is_stale((#[trigger] view[j]).1, now),
            forall|j: int| 0 <= j < i ==> !older(#[trigger] view[j], view[oldest as int]),
        decreases records@.len() - i,
    {
        if stamp_stale(records[i].1.as_slice(), now) {
            return Some(i);
        }
        let ghost last = oldest;
        if comes_first(&records[i], &records[oldest]) {
            oldest = i;
        }
        proof {
            law_older_irreflexive(view[i as int]);
            assert forall|j: int| 0 <= j < i + 1 implies !older(
                #[trigger] view[j],
                view[oldest as int],
            ) by {
                if oldest == i && j < i && older(view[j], view[i as int]) {
                    law_older_transitive(view[j], view[i as int], view[last as int]);
                }
            }
        }
        i = i + 1;
    }
    if records.len() > ACK_SLOTS - 1 {
        Some(oldest)
    } else {
        None
    }
}

/// A list of a map is as long as the map.
pub proof fn lemma_list_len(entries: Seq<(Seq<u8>, Seq<u8>)>, map: Map<Seq<u8>, Seq<u8>>)
    requires
        lists(entries, map),
    ensures
        map.dom().finite(),
        map.len() == entries.len(),
{
    let keys: Seq<Seq<u8>> = Seq::new(entries.len(), |i: int| entries[i].0);
    assert(keys.no_duplicates()) by {
        assert forall|i: int, j: int| 0 <= i < keys.len() && 0 <= j < keys.len() && i
            != j implies keys[i] != keys[j] by {
            assert(entries[i].0 != entries[j].0);
        }
    }
    assert forall|k: Seq<u8>| keys.to_set().contains(k) <==> map.dom().contains(k) by {
        if map.contains_key(k) {
            let i: int = choose|i: int| 0 <= i < entries.len() && (#[trigger] entries[i]).0 == k;
            assert(keys[i] == k);
        }
        if keys.to_set().contains(k) {
            let i: int = choose|i: int| 0 <= i < keys.len() && keys[i] == k;
            assert(map.contains_key(entries[i].0));
        }
    }
    assert(keys.to_set() =~= map.dom());
    keys.unique_seq_to_set();
}

/// Taking an entry out of a list takes it out of the map.
pub proof fn lemma_list_remove(
    entries: Seq<(Seq<u8>, Seq<u8>)>,
    map: Map<Seq<u8>, Seq<u8>>,
    v: int,
)
    requires
        lists(entries, map),
        0 <= v < entries.len(),
    ensures
        lists(entries.remove(v), map.remove(entries[v].0)),
{
    let rest: Seq<(Seq<u8>, Seq<u8>)> = entries.remove(v);
    assert forall|i: int, j: int| 0 <= i < j < rest.len() implies #[trigger] rest[i].0
        != #[trigger] rest[j].0 by {
        let a: int = if i < v { i } else { i + 1 };
        let b: int = if j < v { j } else { j + 1 };
        assert(entries[a].0 != entries[b].0);
    }
    assert forall|i: int| 0 <= i < rest.len() implies map.remove(entries[v].0).contains_key(
        (#[trigger] rest[i]).0,
    ) && map.remove(entries[v].0)[rest[i].0] == rest[i].1 by {
        let a: int = if i < v { i } else { i + 1 };
        assert(rest[i] == entries[a]);
        if a < v {
            assert(entries[a].0 != entries[v].0);
        } else {
            assert(entries[v].0 != entries[a].0);
        }
    }
    assert forall|k: Seq<u8>| #[trigger]
        map.remove(entries[v].0).contains_key(k) implies in_batch(rest, k) by {
        assert(map.contains_key(k));
        let a: int = choose|a: int| 0 <= a < entries.len() && (#[trigger] entries[a]).0 == k;
        let i: int = if a < v { a } else { a - 1 };
        assert(rest[i].0 == k);
    }
}

/// Evicting the record that is to be evicted next goes on making room.
pub proof fn lemma_eviction_makes_room(
    all: Map<Seq<u8>, Seq<u8>>,
    now: u64,
    part: Map<Seq<u8>, Seq<u8>>,
    entries: Seq<(Seq<u8>, Seq<u8>)>,
    v: int,
)
    requires
        room_part(all, now, part),
        lists(entries, part),
        0 <= v < entries.len(),
        is_stale(entries[v].1, now) || {
            &&& entries.len() > ACK_SLOTS - 1
            &&& forall|j: int| 0 <= j < entries.len() ==> !is_stale((#[trigger] entries[j]).1, now)
            &&& forall|j: int|
                0 <= j < entries.len() && j != v ==> !older(#[trigger] entries[j], entries[v])
        },
    ensures
        room_part(all, now, part.remove(entries[v].0)),
{
    let gone: Seq<u8> = entries[v].0;
    let rest: Map<Seq<u8>, Seq<u8>> = part.remove(gone);
    lemma_list_len(entries, part);
    assert(part.contains_key(gone) && part[gone] == entries[v].1);
    assert forall|k: Seq<u8>| #[trigger] gave_way(all, now, rest, k) implies rest.dom().finite()
        && rest.len() >= ACK_SLOTS - 1 by {
        if k != gone {
            assert(gave_way(all, now, part, k));
            assert(part.contains_key(gone));
        }
    }
    assert forall|k: Seq<u8>, j: Seq<u8>|
        #![trigger gave_way(all, now, rest, k), rest.contains_key(j)]
        gave_way(all, now, rest, k) && rest.contains_key(j) implies !is_stale(rest[j], now)
        && older((k, all[k]), (j, rest[j])) by {
        assert(part.contains_key(j));
        if k != gone {
            assert(gave_way(all, now, part, k));
        } else {
            let i: int = choose|i: int| 0 <= i < entries.len() && (#[trigger] entries[i]).0 == j;
            assert(entries[i] == (j, part[j]));
            assert(entries[v] == (k, all[k]));
            law_older_total(entries[i], entries[v]);
        }
    }
}

/// What is kept is determined: there is one way to make room.
pub proof fn law_room_is_unique(
    all: Map<Seq<u8>, Seq<u8>>,
    now: u64,
    a: Map<Seq<u8>, Seq<u8>>,
    b: Map<Seq<u8>, Seq<u8>>,
)
    requires
        room_made(all, now, a),
        room_made(all, now, b),
    ensures
        a == b,
{
    lemma_room_subset(all, now, a, b);
    lemma_room_subset(all, now, b, a);
    assert(a =~= b);
}

proof fn lemma_room_subset(
    all: Map<Seq<u8>, Seq<u8>>,
    now: u64,
    a: Map<Seq<u8>, Seq<u8>>,
    b: Map<Seq<u8>, Seq<u8>>,
)
    requires
        room_made(all, now, a),
        room_made(all, now, b),
    ensures
        a.submap_of(b),
{
    assert forall|k: Seq<u8>| #[trigger] a.contains_key(k) implies b.contains_key(k) && a[k]
        == b[k] by {
        assert(a.dom().contains(k) && all.contains_key(k) && all[k] == a[k]);
        if !b.contains_key(k) {
            assert(gave_way(all, now, b, k));
            if b.dom().subset_of(a.dom()) {
                assert(b.dom().subset_of(a.dom().remove(k)));
                vstd::set_lib::lemma_len_subset(b.dom(), a.dom().remove(k));
            }
            let j: Seq<u8> = choose|j: Seq<u8>| #[trigger]
                b.contains_key(j) && !a.contains_key(j);
            assert(b.dom().contains(j) && all.contains_key(j) && all[j] == b[j]);
            assert(gave_way(all, now, a, j));
            law_older_transitive((k, all[k]), (j, all[j]), (k, all[k]));
            law_older_irreflexive((k, all[k]));
        }
    }
}

/// The ring is first in, first out: a record that gives way is no younger than
/// any that is kept.
pub proof fn law_oldest_gives_way(
    all: Map<Seq<u8>, Seq<u8>>,
    now: u64,
    kept: Map<Seq<u8>, Seq<u8>>,
    gone: Seq<u8>,
    left: Seq<u8>,
)
    requires
        room_made(all, now, kept),
        gave_way(all, now, kept, gone),
        kept.contains_key(left),
    ensures
        timestamp_of(all[gone]) <= timestamp_of(kept[left]),
        kept.len() == ACK_SLOTS - 1,
{
    if before(all[gone], kept[left]) {
        law_key_order_is_arrival_order(all[gone], kept[left]);
    }
}

/// Where the slots are not all taken, only what is older than a day is evicted.
pub proof fn law_free_slot_keeps_the_young(
    all: Map<Seq<u8>, Seq<u8>>,
    now: u64,
    kept: Map<Seq<u8>, Seq<u8>>,
    id: Seq<u8>,
)
    requires
        room_made(all, now, kept),
        at_most(all, (ACK_SLOTS - 1) as nat),
        all.contains_key(id),
        !is_stale(all[id], now),
    ensures
        kept.contains_key(id),
        kept[id] == all[id],
{
    if !kept.contains_key(id) {
        assert(gave_way(all, now, kept, id));
        assert(kept.dom().subset_of(all.dom().remove(id)));
        vstd::set_lib::lemma_len_subset(kept.dom(), all.dom().remove(id));
    }
}

/// A record grows stale at the end of the day after its time, and a value that is
/// no time is stale.
pub proof fn law_record_lasts_a_day(t: u64, now: u64, odd: Seq<u8>)
    requires
        odd.len() != 8,
    ensures
        is_stale(timestamp_bytes(t), now) <==> now > t + 24 * 3600 * 1_000_000_000,
        is_stale(odd, now),
{
    law_timestamp_round_trip(t, Seq::empty());
    assert(timestamp_bytes(t) + Seq::<u8>::empty() =~= timestamp_bytes(t));
}

/// Records come in the order of their times, and those of one time in the order of
/// their identifiers.
pub proof fn law_records_are_ordered_by_time(a: Seq<u8>, t: u64, b: Seq<u8>, u: u64)
    ensures
        t < u ==> older((a, timestamp_bytes(t)), (b, timestamp_bytes(u))),
        older((a, timestamp_bytes(t)), (b, timestamp_bytes(u))) ==> t <= u,
        t == u ==> (older((a, timestamp_bytes(t)), (b, timestamp_bytes(u))) <==> before(a, b)),
{
    let x: Seq<u8> = timestamp_bytes(t);
    let y: Seq<u8> = timestamp_bytes(u);
    law_timestamp_round_trip(t, Seq::empty());
    law_timestamp_round_trip(u, Seq::empty());
    assert(x + Seq::<u8>::empty() =~= x);
    assert(y + Seq::<u8>::empty() =~= y);
    law_before_total(x, y);
    law_before_irreflexive(x);
    if before(x, y) {
        law_key_order_is_arrival_order(x, y);
    }
    if before(y, x) {
        law_key_order_is_arrival_order(y, x);
    }
}

} // verus!
