//! Byte layout of the keys of the two trees, and the order of byte strings.
//!
//! A key of the pending tree is an arrival time of eight bytes, big-endian,
//! followed by a blind identifier of sixteen bytes, so that the byte order of
//! the keys is the order of arrival. A key of the acknowledged tree is a blind
//! identifier, and its value is a time in the same eight bytes.
use vstd::prelude::*;

verus! {

/// Length of a blind identifier in bytes.
pub const BLIND_ID_LEN: usize = 16;

/// Length of an encoded time in bytes.
pub const TIMESTAMP_LEN: usize = 8;

/// How long an entry may stay pending, in nanoseconds: seven days.
pub const TTL_7_DAYS_NS: u64 = 604_800_000_000_000;

// ---------------------------------------------------------------------------
// Times
// ---------------------------------------------------------------------------
/// The eight big-endian bytes of a time.
pub open spec fn timestamp_bytes(t: u64) -> Seq<u8> {
    seq![
        ((t / 0x100_0000_0000_0000) % 256) as u8,
        ((t / 0x1_0000_0000_0000) % 256) as u8,
        ((t / 0x100_0000_0000) % 256) as u8,
        ((t / 0x1_0000_0000) % 256) as u8,
        ((t / 0x100_0000) % 256) as u8,
        ((t / 0x1_0000) % 256) as u8,
        ((t / 0x100) % 256) as u8,
        (t % 256) as u8,
    ]
}

/// The number that the first eight bytes of `key` spell, big-endian.
pub open spec fn timestamp_of(key: Seq<u8>) -> int {
    key[0] * 0x100_0000_0000_0000 + key[1] * 0x1_0000_0000_0000 + key[2] * 0x100_0000_0000 + key[3]
        * 0x1_0000_0000 + key[4] * 0x100_0000 + key[5] * 0x1_0000 + key[6] * 0x100 + key[7]
}

/// The big-endian bytes of a time.
pub fn encode_timestamp(t: u64) -> (bytes: Vec<u8>)
    ensures
        bytes@ == timestamp_bytes(t),
{
    let bytes: Vec<u8> = vec![
        ((t / 0x100_0000_0000_0000) % 256) as u8,
        ((t / 0x1_0000_0000_0000) % 256) as u8,
        ((t / 0x100_0000_0000) % 256) as u8,
        ((t / 0x1_0000_0000) % 256) as u8,
        ((t / 0x100_0000) % 256) as u8,
        ((t / 0x1_0000) % 256) as u8,
        ((t / 0x100) % 256) as u8,
        (t % 256) as u8,
    ];
    assert(bytes@ =~= timestamp_bytes(t));
    bytes
}

/// The time at the front of a key.
pub fn decode_timestamp(key: &[u8]) -> (t: u64)
    requires
        key@.len() >= TIMESTAMP_LEN,
    ensures
        t == timestamp_of(key@),
{
    (key[0] as u64) * 0x100_0000_0000_0000 + (key[1] as u64) * 0x1_0000_0000_0000 + (key[2] as u64)
        * 0x100_0000_0000 + (key[3] as u64) * 0x1_0000_0000 + (key[4] as u64) * 0x100_0000 + (
    key[5] as u64) * 0x1_0000 + (key[6] as u64) * 0x100 + (key[7] as u64)
}

/// Reading back the time of a key gives the time that the key was made with.
pub proof fn law_timestamp_round_trip(t: u64, rest: Seq<u8>)
    ensures
        timestamp_bytes(t).len() == TIMESTAMP_LEN,
        timestamp_of(timestamp_bytes(t) + rest) == t,
{
    let key = timestamp_bytes(t) + rest;
    assert(forall|i: int| 0 <= i < 8 ==> key[i] == timestamp_bytes(t)[i]);
    lemma_base_256_digits(t);
}

/// A number is the sum of its eight digits to the base 256.
proof fn lemma_base_256_digits(t: u64)
    ensures
        t == ((t / 0x100_0000_0000_0000) % 256) * 0x100_0000_0000_0000 + ((t / 0x1_0000_0000_0000)
            % 256) * 0x1_0000_0000_0000 + ((t / 0x100_0000_0000) % 256) * 0x100_0000_0000 + ((t
            / 0x1_0000_0000) % 256) * 0x1_0000_0000 + ((t / 0x100_0000) % 256) * 0x100_0000 + ((t
            / 0x1_0000) % 256) * 0x1_0000 + ((t / 0x100) % 256) * 0x100 + t % 256,
{
    assert(t / 0x1_0000 == (t / 0x100) / 256);
    assert(t / 0x100_0000 == (t / 0x1_0000) / 256);
    assert(t / 0x1_0000_0000 == (t / 0x100_0000) / 256);
    assert(t / 0x100_0000_0000 == (t / 0x1_0000_0000) / 256);
    assert(t / 0x1_0000_0000_0000 == (t / 0x100_0000_0000) / 256);
    assert(t / 0x100_0000_0000_0000 == (t / 0x1_0000_0000_0000) / 256);
}

// ---------------------------------------------------------------------------
// Keys
// ---------------------------------------------------------------------------
/// The key under which a chunk that arrived at time `t` waits.
pub open spec fn key_bytes(t: u64, blind_id: Seq<u8>) -> Seq<u8> {
    timestamp_bytes(t) + blind_id
}

/// The blind identifier of a key: its last sixteen bytes.
pub open spec fn blind_id_of(key: Seq<u8>) -> Seq<u8> {
    key.subrange(key.len() - BLIND_ID_LEN, key.len() as int)
}

/// The key is long enough to hold a blind identifier, and holds this one.
pub open spec fn names_blind_id(key: Seq<u8>, blind_id: Seq<u8>) -> bool {
    key.len() >= BLIND_ID_LEN && blind_id_of(key) == blind_id
}

/// An entry under this key has been pending for more than seven days.
pub open spec fn is_expired(key: Seq<u8>, now: u64) -> bool {
    key.len() >= TIMESTAMP_LEN && now - timestamp_of(key) > TTL_7_DAYS_NS
}

/// Makes the key of a chunk that arrived at time `t`.
pub fn pending_key(t: u64, blind_id: &[u8; 16]) -> (key: Vec<u8>)
    ensures
        key@ == key_bytes(t, blind_id@),
{
    let mut key: Vec<u8> = encode_timestamp(t);
    let mut i: usize = 0;
    while i < BLIND_ID_LEN
        invariant
            i <= BLIND_ID_LEN,
            key@ == timestamp_bytes(t) + blind_id@.take(i as int),
        decreases BLIND_ID_LEN - i,
    {
        key.push(blind_id[i]);
        i = i + 1;
        assert(blind_id@.take(i as int) =~= blind_id@.take(i - 1).push(blind_id@[i - 1]));
    }
    assert(blind_id@.take(16) =~= blind_id@);
    key
}

/// Whether the last sixteen bytes of `key` are `blind_id`.
pub fn key_names(key: &[u8], blind_id: &[u8; 16]) -> (found: bool)
    ensures
        found == names_blind_id(key@, blind_id@),
{
    if key.len() < BLIND_ID_LEN {
        return false;
    }
    let start: usize = key.len() - BLIND_ID_LEN;
    let mut i: usize = 0;
    while i < BLIND_ID_LEN
        invariant
            i <= BLIND_ID_LEN,
            start + BLIND_ID_LEN == key.len(),
            forall|j: int| 0 <= j < i ==> key@[start + j] == blind_id@[j],
        decreases BLIND_ID_LEN - i,
    {
        if key[start + i] != blind_id[i] {
            assert(blind_id_of(key@)[i as int] != blind_id@[i as int]);
            return false;
        }
        i = i + 1;
    }
    assert(blind_id_of(key@) =~= blind_id@);
    true
}

/// Copies the last sixteen bytes of a key.
pub fn key_blind_id(key: &[u8]) -> (blind_id: Vec<u8>)
    requires
        key@.len() >= BLIND_ID_LEN,
    ensures
        blind_id@ == blind_id_of(key@),
{
    let mut blind_id: Vec<u8> = Vec::new();
    let mut i: usize = key.len() - BLIND_ID_LEN;
    while i < key.len()
        invariant
            BLIND_ID_LEN <= key.len(),
            key@.len() - BLIND_ID_LEN <= i <= key.len(),
            blind_id@ == key@.subrange(key@.len() - BLIND_ID_LEN, i as int),
        decreases key@.len() - i,
    {
        blind_id.push(key[i]);
        i = i + 1;
        assert(key@.subrange(key@.len() - BLIND_ID_LEN, i as int) =~= key@.subrange(
            key@.len() - BLIND_ID_LEN,
            i - 1,
        ).push(key@[i - 1]));
    }
    blind_id
}

/// Whether an entry under `key` is past its seven days at time `now`.
pub fn key_expired(key: &[u8], now: u64) -> (expired: bool)
    ensures
        expired == is_expired(key@, now),
{
    if key.len() < TIMESTAMP_LEN {
        return false;
    }
    let t: u64 = decode_timestamp(key);
    now.saturating_sub(t) > TTL_7_DAYS_NS
}

/// A key gives back the time and the blind identifier that it was made of.
pub proof fn law_key_round_trip(t: u64, blind_id: Seq<u8>)
    requires
        blind_id.len() == BLIND_ID_LEN,
    ensures
        key_bytes(t, blind_id).len() == TIMESTAMP_LEN + BLIND_ID_LEN,
        timestamp_of(key_bytes(t, blind_id)) == t,
        blind_id_of(key_bytes(t, blind_id)) == blind_id,
        names_blind_id(key_bytes(t, blind_id), blind_id),
{
    law_timestamp_round_trip(t, blind_id);
    assert(blind_id_of(key_bytes(t, blind_id)) =~= blind_id);
}

/// An entry expires only with time: at its own arrival and for seven days
/// after it is kept, and once expired it stays so.
pub proof fn law_expiry(t: u64, blind_id: Seq<u8>, now: u64, later: u64)
    requires
        blind_id.len() == BLIND_ID_LEN,
        now <= later,
    ensures
        is_expired(key_bytes(t, blind_id), now) <==> now > t + TTL_7_DAYS_NS,
        is_expired(key_bytes(t, blind_id), now) ==> is_expired(key_bytes(t, blind_id), later),
{
    law_key_round_trip(t, blind_id);
}

// ---------------------------------------------------------------------------
// The order of byte strings
// ---------------------------------------------------------------------------
/// `a` and `b` agree before position `i`, and there `a` ends or is smaller.
pub open spec fn smaller_at(a: Seq<u8>, b: Seq<u8>, i: int) -> bool {
    &&& 0 <= i <= a.len()
    &&& i < b.len()
    &&& forall|j: int| 0 <= j < i ==> a[j] == b[j]
    &&& i < a.len() ==> a[i] < b[i]
}

/// The lexicographic order of byte strings.
pub open spec fn before(a: Seq<u8>, b: Seq<u8>) -> bool {
    exists|i: int| smaller_at(a, b, i)
}

/// Whether a byte string comes before another one.
pub fn bytes_before(a: &[u8], b: &[u8]) -> (first: bool)
    ensures
        first == before(a@, b@),
{
    let mut i: usize = 0;
    while i < a.len() && i < b.len()
        invariant
            i <= a@.len(),
            i <= b@.len(),
            forall|j: int| 0 <= j < i ==> a@[j] == b@[j],
        decreases a@.len() - i,
    {
        if a[i] < b[i] {
            assert(smaller_at(a@, b@, i as int));
            return true;
        }
        if b[i] < a[i] {
            assert(smaller_at(b@, a@, i as int));
            proof {
                if before(a@, b@) {
                    law_before_transitive(a@, b@, a@);
                    law_before_irreflexive(a@);
                }
            }
            return false;
        }
        i = i + 1;
    }
    if i < b.len() {
        assert(smaller_at(a@, b@, i as int));
        return true;
    }
    false
}

/// Whether two byte strings are the same.
pub fn bytes_equal(a: &[u8], b: &[u8]) -> (same: bool)
    ensures
        same == (a@ == b@),
{
    if a.len() != b.len() {
        return false;
    }
    let mut i: usize = 0;
    while i < a.len()
        invariant
            i <= a@.len() == b@.len(),
            a.len() == b.len(),
            forall|j: int| 0 <= j < i ==> a@[j] == b@[j],
        decreases a@.len() - i,
    {
        if a[i] != b[i] {
            assert(a@[i as int] != b@[i as int]);
            return false;
        }
        i = i + 1;
    }
    assert(a@ =~= b@);
    true
}

/// No byte string comes before itself.
pub proof fn law_before_irreflexive(a: Seq<u8>)
    ensures
        !before(a, a),
{
}

/// The order of byte strings is transitive.
pub proof fn law_before_transitive(a: Seq<u8>, b: Seq<u8>, c: Seq<u8>)
    requires
        before(a, b),
        before(b, c),
    ensures
        before(a, c),
{
    let i: int = choose|i: int| smaller_at(a, b, i);
    let j: int = choose|j: int| smaller_at(b, c, j);
    if i <= j {
        assert(smaller_at(a, c, i));
    } else {
        assert(smaller_at(a, c, j));
    }
}

/// Of two different byte strings one comes before the other.
pub proof fn law_before_total(a: Seq<u8>, b: Seq<u8>)
    ensures
        a == b || before(a, b) || before(b, a),
    decreases a.len(),
{
    if a.len() == 0 {
        if b.len() > 0 {
            assert(smaller_at(a, b, 0));
        } else {
            assert(a =~= b);
        }
    } else if b.len() == 0 {
        assert(smaller_at(b, a, 0));
    } else if a[0] < b[0] {
        assert(smaller_at(a, b, 0));
    } else if b[0] < a[0] {
        assert(smaller_at(b, a, 0));
    } else {
        let ta: Seq<u8> = a.skip(1);
        let tb: Seq<u8> = b.skip(1);
        law_before_total(ta, tb);
        if ta == tb {
            assert(a =~= seq![a[0]] + ta);
            assert(b =~= seq![b[0]] + tb);
        } else if before(ta, tb) {
            let i: int = choose|i: int| smaller_at(ta, tb, i);
            lemma_smaller_behind_head(a, b, i);
        } else {
            let i: int = choose|i: int| smaller_at(tb, ta, i);
            lemma_smaller_behind_head(b, a, i);
        }
    }
}

/// What the tails of two strings with the same head decide, they decide too.
proof fn lemma_smaller_behind_head(a: Seq<u8>, b: Seq<u8>, i: int)
    requires
        a.len() > 0,
        b.len() > 0,
        a[0] == b[0],
        smaller_at(a.skip(1), b.skip(1), i),
    ensures
        before(a, b),
{
    assert forall|j: int| 0 <= j < i + 1 implies a[j] == b[j] by {
        if j > 0 {
            assert(a.skip(1)[j - 1] == b.skip(1)[j - 1]);
        }
    }
    assert(smaller_at(a, b, i + 1));
}

/// The byte order of keys is the order of arrival: a key that comes before
/// another holds no later time.
pub proof fn law_key_order_is_arrival_order(a: Seq<u8>, b: Seq<u8>)
    requires
        a.len() >= TIMESTAMP_LEN,
        b.len() >= TIMESTAMP_LEN,
        before(a, b),
    ensures
        timestamp_of(a) <= timestamp_of(b),
{
    let i: int = choose|i: int| smaller_at(a, b, i);
    if i < 8 {
        assert(a[i] < b[i]);
    }
    assert(0 < i ==> a[0] == b[0]);
    assert(1 < i ==> a[1] == b[1]);
    assert(2 < i ==> a[2] == b[2]);
    assert(3 < i ==> a[3] == b[3]);
    assert(4 < i ==> a[4] == b[4]);
    assert(5 < i ==> a[5] == b[5]);
    assert(6 < i ==> a[6] == b[6]);
    assert(7 < i ==> a[7] == b[7]);
}

/// A chunk that arrived earlier has the key that comes first.
pub proof fn law_earlier_key_comes_first(t: u64, id: Seq<u8>, later: u64, later_id: Seq<u8>)
    requires
        id.len() == BLIND_ID_LEN,
        later_id.len() == BLIND_ID_LEN,
        t < later,
    ensures
        before(key_bytes(t, id), key_bytes(later, later_id)),
{
    let a: Seq<u8> = key_bytes(t, id);
    let b: Seq<u8> = key_bytes(later, later_id);
    law_key_round_trip(t, id);
    law_key_round_trip(later, later_id);
    law_before_total(a, b);
    if before(b, a) {
        law_key_order_is_arrival_order(b, a);
    }
}

/// A key is eight bytes of time and sixteen of blind identifier, in that order.
pub proof fn law_key_layout(t: u64, id: Seq<u8>)
    requires
        id.len() == 16,
    ensures
        key_bytes(t, id).len() == 24,
        timestamp_of(key_bytes(t, id).subrange(0, 8)) == t,
        key_bytes(t, id).subrange(8, 24) == id,
{
    law_key_round_trip(t, id);
    let front: Seq<u8> = key_bytes(t, id).subrange(0, 8);
    assert(front =~= timestamp_bytes(t));
    law_timestamp_round_trip(t, Seq::empty());
    assert(timestamp_bytes(t) + Seq::<u8>::empty() =~= timestamp_bytes(t));
    assert(key_bytes(t, id).subrange(8, 24) =~= id);
}

/// A key names the blind identifier that it ends in, and no other, whatever
/// stands before it; a key of fewer than sixteen bytes names none.
pub proof fn law_key_names_its_end(front: Seq<u8>, id: Seq<u8>, other: Seq<u8>, short: Seq<u8>)
    requires
        id.len() == 16,
        short.len() < 16,
    ensures
        names_blind_id(front + id, other) <==> other == id,
        blind_id_of(front + id) == id,
        !names_blind_id(short, other),
{
    assert(blind_id_of(front + id) =~= id);
}

/// An entry expires at the end of the seventh day after the time that its key
/// begins with, and one whose key holds no time never does.
pub proof fn law_seven_days(t: u64, rest: Seq<u8>, now: u64, short: Seq<u8>)
    requires
        short.len() < 8,
    ensures
        is_expired(timestamp_bytes(t) + rest, now) <==> now > t + 7 * 24 * 3600 * 1_000_000_000,
        !is_expired(short, now),
{
    law_timestamp_round_trip(t, rest);
}

/// Of two byte strings with a common front, the first difference decides: the one
/// that ends, or that has the smaller byte, comes before.
pub proof fn law_first_difference_decides(front: Seq<u8>, a: Seq<u8>, b: Seq<u8>)
    requires
        b.len() > 0,
        a.len() == 0 || a[0] < b[0],
    ensures
        before(front + a, front + b),
        !before(front + b, front + a),
{
    assert(smaller_at(front + a, front + b, front.len() as int));
    if before(front + b, front + a) {
        law_before_transitive(front + a, front + b, front + a);
        law_before_irreflexive(front + a);
    }
}

} // verus!
