//! The store: two trees of one database. Chunks that wait for the consumer are
//! pending; the blind identifiers of those that it has taken are acknowledged.
use vstd::prelude::*;

use crate::clock::{is_clock_time, unix_nanos};
use crate::engine::{
    db_cache_limit, db_flush_interval, db_path, enumerates, open_db, open_tree, scan_next,
    scan_rest, tree_clear, tree_contains_key, tree_contents, tree_durable, tree_flush, tree_insert,
    tree_origin, tree_remove, tree_scan,
};
use crate::keys::{
    before, blind_id_of, bytes_equal, encode_timestamp, is_expired, key_blind_id, key_bytes,
    key_expired, key_names, law_before_irreflexive, law_key_round_trip, names_blind_id,
    pending_key, timestamp_bytes, timestamp_of, BLIND_ID_LEN,
};
use crate::model::{
    in_batch, is_front, law_consume_keeps_well_formed, law_known_is_held,
    law_offer_keeps_well_formed, law_part_is_well_formed, StorageView,
};
use crate::ring::{
    is_stale, lemma_eviction_makes_room, lemma_list_len, lemma_list_remove, lists, ring_victim,
    room_made, room_part,
};

verus! {

/// Bytes that the database may cache: 64 MiB.
pub const CACHE_CAPACITY: u64 = 67_108_864;

/// Milliseconds between two background flushes of the database.
pub const FLUSH_EVERY_MS: u64 = 1000;

/// What an operation of the store failed at, and why.
#[derive(Debug)]
pub enum StorageError {
    /// The database or one of its trees did not open.
    Open(sled::Error),
    /// An entry could not be read.
    Read(sled::Error),
    /// An entry could not be written or removed.
    Write(sled::Error),
    /// What was written could not be synced to disk.
    Flush(sled::Error),
}

/// What opening came to, in the store's own terms.
pub fn open_result<T>(r: Result<T, sled::Error>) -> (mapped: Result<T, StorageError>)
    ensures
        match r {
            Ok(v) => mapped == Ok::<T, StorageError>(v),
            Err(e) => mapped == Err::<T, StorageError>(StorageError::Open(e)),
        },
{
    match r {
        Ok(v) => Ok(v),
        Err(e) => Err(StorageError::Open(e)),
    }
}

/// What a read came to, in the store's own terms.
pub fn read_result<T>(r: Result<T, sled::Error>) -> (mapped: Result<T, StorageError>)
    ensures
        match r {
            Ok(v) => mapped == Ok::<T, StorageError>(v),
            Err(e) => mapped == Err::<T, StorageError>(StorageError::Read(e)),
        },
{
    match r {
        Ok(v) => Ok(v),
        Err(e) => Err(StorageError::Read(e)),
    }
}

/// What a write came to, in the store's own terms.
pub fn write_result<T>(r: Result<T, sled::Error>) -> (mapped: Result<T, StorageError>)
    ensures
        match r {
            Ok(v) => mapped == Ok::<T, StorageError>(v),
            Err(e) => mapped == Err::<T, StorageError>(StorageError::Write(e)),
        },
{
    match r {
        Ok(v) => Ok(v),
        Err(e) => Err(StorageError::Write(e)),
    }
}

/// What a sync came to, in the store's own terms.
pub fn flush_result<T>(r: Result<T, sled::Error>) -> (mapped: Result<T, StorageError>)
    ensures
        match r {
            Ok(v) => mapped == Ok::<T, StorageError>(v),
            Err(e) => mapped == Err::<T, StorageError>(StorageError::Flush(e)),
        },
{
    match r {
        Ok(v) => Ok(v),
        Err(e) => Err(StorageError::Flush(e)),
    }
}

/// The key that stands for a known blind identifier, by the key that it waits
/// under, where it waits, and by whether it was acknowledged; nothing where it is
/// not known.
pub fn known_as(waiting: Option<Vec<u8>>, acknowledged: bool, blind_id: &[u8; 16]) -> (r: Option<
    Vec<u8>,
>)
    ensures
        match waiting {
            Some(key) => r == Some(key),
            None => if acknowledged {
                r matches Some(key) && key@ == blind_id@
            } else {
                r is None
            },
        },
{
    match waiting {
        Some(key) => Some(key),
        None => if acknowledged {
            Some(vstd::slice::slice_to_vec(blind_id.as_slice()))
        } else {
            None
        },
    }
}

/// What is to be done about a chunk that is confirmed.
#[derive(Debug)]
pub enum ConfirmMove {
    /// Nothing: it did not wait.
    Rest,
    /// Take it out, and acknowledge this blind identifier, with this time.
    Acknowledge { blind_id: Vec<u8>, stamp: Vec<u8> },
}

/// Decides what is to be done about a key that is confirmed at time `now`, by
/// whether it waits.
pub fn confirm_move(waits: bool, key: &[u8], now: u64) -> (r: ConfirmMove)
    requires
        waits ==> key@.len() >= BLIND_ID_LEN,
    ensures
        if waits {
            r matches ConfirmMove::Acknowledge { blind_id, stamp } && blind_id@ == blind_id_of(key@)
                && stamp@ == timestamp_bytes(now)
        } else {
            r == ConfirmMove::Rest
        },
{
    if waits {
        ConfirmMove::Acknowledge { blind_id: key_blind_id(key), stamp: encode_timestamp(now) }
    } else {
        ConfirmMove::Rest
    }
}

/// The store.
pub struct Storage {
    /// Keeps the database open.
    #[allow(dead_code)]
    db: sled::Db,
    db_path: String,
    /// By arrival time and blind identifier, the payload.
    pending: sled::Tree,
    /// By blind identifier, the time of the confirmation.
    acknowledged: sled::Tree,
}

impl View for Storage {
    type V = StorageView;

    closed spec fn view(&self) -> StorageView {
        StorageView {
            pending: tree_contents(self.pending),
            acknowledged: tree_contents(self.acknowledged),
        }
    }
}

impl Storage {
    /// What the store had on disk as of the last sync through its handles.
    pub closed spec fn durable(&self) -> StorageView {
        StorageView {
            pending: tree_durable(self.pending),
            acknowledged: tree_durable(self.acknowledged),
        }
    }

    /// The directory of the database.
    pub closed spec fn path(&self) -> Seq<char> {
        self.db_path@
    }

    /// The store is the pair of trees of the database in that directory, which
    /// was opened with these settings.
    pub closed spec fn opened_at(&self, path: Seq<char>, cache: nat, flush_ms: nat) -> bool {
        &&& self.db_path@ == path
        &&& db_path(self.db) == path
        &&& db_cache_limit(self.db) <= cache
        &&& db_flush_interval(self.db) == flush_ms
        &&& tree_origin(self.pending) == (path, "pending"@)
        &&& tree_origin(self.acknowledged) == (path, "acknowledged"@)
    }

    /// The store is still the same pair of trees of the same database.
    pub closed spec fn same_database(&self, other: &Storage) -> bool {
        &&& self.db == other.db
        &&& self.db_path == other.db_path
        &&& tree_origin(self.pending) == tree_origin(other.pending)
        &&& tree_origin(self.acknowledged) == tree_origin(other.acknowledged)
    }

    /// Opens the store in a directory. Whether that succeeds, and what the
    /// store then holds, rests on the disk.
    pub fn open(path: &str) -> (r: Result<Storage, StorageError>)
        ensures
            match r {
                Ok(store) => store.path() == path@ && store.opened_at(
                    path@,
                    CACHE_CAPACITY as nat,
                    FLUSH_EVERY_MS as nat,
                ),
                Err(e) => e is Open,
            },
    {
        proof {
            reveal_strlit("pending");
            reveal_strlit("acknowledged");
        }
        let mut db = match open_result(open_db(path, CACHE_CAPACITY, FLUSH_EVERY_MS)) {
            Ok(db) => db,
            Err(e) => return Err(e),
        };
        let pending = match open_result(open_tree(&mut db, "pending")) {
            Ok(tree) => tree,
            Err(e) => return Err(e),
        };
        assert("pending"@.len() != "acknowledged"@.len());
        let acknowledged = match open_result(open_tree(&mut db, "acknowledged")) {
            Ok(tree) => tree,
            Err(e) => return Err(e),
        };
        Ok(Storage { db, db_path: path.to_owned(), pending, acknowledged })
    }

    /// The directory of the database.
    pub fn db_path(&self) -> (path: &str)
        ensures
            path@ == self.path(),
    {
        self.db_path.as_str()
    }

    /// Looks for a waiting chunk by its blind identifier, in the order of the
    /// keys.
    fn find_pending_by_blind_id(&self, blind_id: &[u8; 16]) -> (r: Result<
        Option<Vec<u8>>,
        StorageError,
    >)
        ensures
            match r {
                Ok(Some(key)) => self@.first_pending(blind_id@, key@),
                Ok(None) => !self@.has_pending(blind_id@),
                Err(e) => e is Read,
            },
    {
        let mut scan = tree_scan(&self.pending);
        let ghost all = scan_rest(scan);
        let ghost mut i: int = 0;
        assert(all.skip(0) =~= all);
        loop
            invariant
                enumerates(all, self@.pending),
                0 <= i <= all.len(),
                scan_rest(scan) == all.skip(i),
                forall|j: int| 0 <= j < i ==> !names_blind_id((#[trigger] all[j]).0, blind_id@),
            decreases all.len() - i,
        {
            match scan_next(&mut scan) {
                None => {
                    assert(i == all.len());
                    return Ok(None);
                },
                Some(Ok((key, _value))) => {
                    assert(all[i] == all.skip(i)[0]);
                    if key_names(key.as_slice(), blind_id) {
                        assert forall|k: Seq<u8>| #[trigger]
                            self@.pending.contains_key(k) && names_blind_id(k, blind_id@) && k
                                != key@ implies before(key@, k) by {
                            let j: int = choose|j: int|
                                0 <= j < all.len() && (#[trigger] all[j]).0 == k;
                            assert(before(all[i].0, all[j].0));
                        }
                        return Ok(Some(key));
                    }
                    proof {
                        assert(all.skip(i).skip(1) =~= all.skip(i + 1));
                        i = i + 1;
                    }
                },
                Some(Err(e)) => {
                    return Err(StorageError::Read(e));
                },
            }
        }
    }

    /// Stores a chunk that arrives now; see `insert_pending_at`.
    pub fn insert_pending(&mut self, blind_id: &[u8; 16], payload: &[u8]) -> (r: Result<
        (bool, Vec<u8>),
        StorageError,
    >)
        ensures
            final(self).same_database(old(self)),
            exists|now: u64|
                is_clock_time(now) && #[trigger] insert_result(
                    *old(self),
                    blind_id@,
                    payload@,
                    now,
                    r,
                    *final(self),
                ),
    {
        let now: u64 = unix_nanos();
        self.insert_pending_at(blind_id, payload, now)
    }

    /// Looks a blind identifier up: gives the key that it waits under, or the
    /// identifier itself where it was confirmed. One that waits is synced to disk
    /// before the answer, which costs nothing where all is synced.
    pub fn known_key(&mut self, blind_id: &[u8; 16]) -> (r: Result<Option<Vec<u8>>, StorageError>)
        ensures
            final(self).same_database(old(self)),
            known_result(*old(self), blind_id@, r, *final(self)),
    {
        let waiting = match self.find_pending_by_blind_id(blind_id) {
            Ok(waiting) => waiting,
            Err(e) => return Err(e),
        };
        assert(waiting is Some <==> self@.has_pending(blind_id@));
        let mut acknowledged: bool = false;
        if waiting.is_some() {
            match flush_result(tree_flush(&mut self.pending)) {
                Ok(_) => {},
                Err(e) => return Err(e),
            }
        } else {
            match read_result(tree_contains_key(&self.acknowledged, blind_id.as_slice())) {
                Ok(found) => {
                    acknowledged = found;
                },
                Err(e) => return Err(e),
            }
        }
        Ok(known_as(waiting, acknowledged, blind_id))
    }

    /// Stores a chunk that arrives at time `now`, and syncs it to disk, unless
    /// its blind identifier is known. Returns whether it was new, and the key
    /// that it waits under, or its blind identifier where it was confirmed. What
    /// waits is on disk before the answer, whether it is new or not.
    pub fn insert_pending_at(&mut self, blind_id: &[u8; 16], payload: &[u8], now: u64) -> (r:
        Result<(bool, Vec<u8>), StorageError>)
        ensures
            final(self).same_database(old(self)),
            insert_result(*old(self), blind_id@, payload@, now, r, *final(self)),
    {
        match self.known_key(blind_id) {
            Ok(Some(key)) => return Ok((false, key)),
            Ok(None) => {},
            Err(e) => return Err(e),
        }
        let key = pending_key(now, blind_id);
        match write_result(tree_insert(&mut self.pending, key.as_slice(), payload)) {
            Ok(_) => {},
            Err(e) => return Err(e),
        }
        match flush_result(tree_flush(&mut self.pending)) {
            Ok(_) => Ok((true, key)),
            Err(e) => Err(e),
        }
    }

    /// Takes the oldest `n` chunks that wait, without removing them. Where a
    /// read fails on the way, the batch ends there and says so.
    pub fn pop_pending_batch(&self, n: usize) -> (batch: PendingBatch)
        ensures
            batch_result(self@.pending, n as nat, batch),
    {
        let mut entries: Vec<(Vec<u8>, Vec<u8>)> = Vec::new();
        let mut scan = tree_scan(&self.pending);
        let ghost all = scan_rest(scan);
        assert(all.skip(0) =~= all);
        while entries.len() < n
            invariant
                enumerates(all, self@.pending),
                entries@.len() <= n,
                entries@.len() <= all.len(),
                scan_rest(scan) == all.skip(entries@.len() as int),
                entries_view(entries@) == all.take(entries@.len() as int),
            decreases n - entries@.len(),
        {
            let ghost i: int = entries@.len() as int;
            match scan_next(&mut scan) {
                None => {
                    assert(i == all.len());
                    proof {
                        lemma_take_is_front(all, self@.pending, i);
                    }
                    assert(all.take(i) =~= all);
                    return PendingBatch { entries, error: None };
                },
                Some(Ok((key, value))) => {
                    assert(all[i] == all.skip(i)[0]);
                    entries.push((key, value));
                    assert(all.skip(i).skip(1) =~= all.skip(i + 1));
                    assert(entries_view(entries@) =~= all.take(i).push(all[i]));
                    assert(all.take(i + 1) =~= all.take(i).push(all[i]));
                },
                Some(Err(e)) => {
                    proof {
                        lemma_take_is_front(all, self@.pending, i);
                    }
                    return PendingBatch { entries, error: Some(StorageError::Read(e)) };
                },
            }
        }
        proof {
            lemma_take_is_front(all, self@.pending, entries@.len() as int);
        }
        PendingBatch { entries, error: None }
    }

    /// Confirms now that a chunk has been consumed; see `confirm_consumed_at`.
    pub fn confirm_consumed(&mut self, key: &[u8]) -> (r: Result<(), StorageError>)
        requires
            key@.len() >= BLIND_ID_LEN || !old(self)@.pending.contains_key(key@),
        ensures
            final(self).same_database(old(self)),
            exists|now: u64|
                is_clock_time(now) && #[trigger] consume_result(
                    old(self)@,
                    key@,
                    now,
                    r,
                    final(self)@,
                ),
    {
        let now: u64 = unix_nanos();
        self.confirm_consumed_at(key, now)
    }

    /// Confirms at time `now` that a chunk has been consumed: its entry leaves
    /// pending, and its blind identifier takes a slot of the acknowledged ring.
    pub fn confirm_consumed_at(&mut self, key: &[u8], now: u64) -> (r: Result<(), StorageError>)
        requires
            key@.len() >= BLIND_ID_LEN || !old(self)@.pending.contains_key(key@),
        ensures
            final(self).same_database(old(self)),
            consume_result(old(self)@, key@, now, r, final(self)@),
    {
        let waits: bool = match read_result(tree_contains_key(&self.pending, key)) {
            Ok(waits) => waits,
            Err(e) => return Err(e),
        };
        match confirm_move(waits, key, now) {
            ConfirmMove::Rest => Ok(()),
            ConfirmMove::Acknowledge { blind_id, stamp } => {
                match self.make_room(blind_id.as_slice(), now) {
                    Ok(()) => {},
                    Err(e) => return Err(e),
                }
                let ghost room = self@.acknowledged;
                match write_result(tree_remove(&mut self.pending, key)) {
                    Ok(_) => {},
                    Err(e) => return Err(e),
                }
                let r = write_result(
                    tree_insert(&mut self.acknowledged, blind_id.as_slice(), stamp.as_slice()),
                );
                assert(room.insert(blind_id@, stamp@).remove(blind_id@) =~= room.remove(
                    blind_id@,
                ));
                r
            },
        }
    }

    /// Confirms now that the chunk with a blind identifier has been consumed; see
    /// `confirm_blind_id_at`.
    pub fn confirm_blind_id(&mut self, blind_id: &[u8; 16]) -> (r: Result<bool, StorageError>)
        ensures
            final(self).same_database(old(self)),
            exists|now: u64|
                is_clock_time(now) && #[trigger] settle_result(
                    old(self)@,
                    blind_id@,
                    now,
                    r,
                    final(self)@,
                ),
    {
        let now: u64 = unix_nanos();
        self.confirm_blind_id_at(blind_id, now)
    }

    /// Confirms at time `now` that the chunk with a blind identifier has been
    /// consumed, and says whether it waited. Of several, the first is confirmed.
    pub fn confirm_blind_id_at(&mut self, blind_id: &[u8; 16], now: u64) -> (r: Result<
        bool,
        StorageError,
    >)
        ensures
            final(self).same_database(old(self)),
            settle_result(old(self)@, blind_id@, now, r, final(self)@),
    {
        let key = match self.find_pending_by_blind_id(blind_id) {
            Ok(Some(key)) => key,
            Ok(None) => return Ok(false),
            Err(e) => return Err(e),
        };
        match self.confirm_consumed_at(key.as_slice(), now) {
            Ok(()) => {
                assert(consume_result(old(self)@, key@, now, Ok(()), self@));
                Ok(true)
            },
            Err(e) => {
                assert(consume_result(old(self)@, key@, now, Err(e), self@));
                Err(e)
            },
        }
    }

    /// The acknowledged records but for that of one blind identifier.
    fn other_records(&self, blind_id: &[u8]) -> (r: Result<
        Vec<(Vec<u8>, Vec<u8>)>,
        StorageError,
    >)
        ensures
            match r {
                Ok(records) => lists(
                    entries_view(records@),
                    self@.acknowledged.remove(blind_id@),
                ),
                Err(e) => e is Read,
            },
    {
        let mut records: Vec<(Vec<u8>, Vec<u8>)> = Vec::new();
        let mut scan = tree_scan(&self.acknowledged);
        let ghost all = scan_rest(scan);
        let ghost mut i: int = 0;
        assert(all.skip(0) =~= all);
        loop
            invariant
                enumerates(all, self@.acknowledged),
                0 <= i <= all.len(),
                scan_rest(scan) == all.skip(i),
                forall|a: int, b: int|
                    0 <= a < b < records@.len() ==> (#[trigger] entries_view(records@)[a]).0 != (
                    #[trigger] entries_view(records@)[b]).0,
                forall|a: int|
                    0 <= a < records@.len() ==> {
                        let e = #[trigger] entries_view(records@)[a];
                        &&& e.0 != blind_id@
                        &&& self@.acknowledged.contains_key(e.0)
                        &&& self@.acknowledged[e.0] == e.1
                    },
                forall|a: int, j: int|
                    0 <= a < records@.len() && i <= j < all.len() ==> before(
                        (#[trigger] entries_view(records@)[a]).0,
                        (#[trigger] all[j]).0,
                    ),
                forall|j: int|
                    0 <= j < i && (#[trigger] all[j]).0 != blind_id@ ==> in_batch(
                        entries_view(records@),
                        all[j].0,
                    ),
            decreases all.len() - i,
        {
            match scan_next(&mut scan) {
                None => {
                    assert(i == all.len());
                    assert forall|k: Seq<u8>| #[trigger]
                        self@.acknowledged.remove(blind_id@).contains_key(k) implies in_batch(
                        entries_view(records@),
                        k,
                    ) by {
                        assert(self@.acknowledged.contains_key(k));
                        let j: int = choose|j: int|
                            0 <= j < all.len() && (#[trigger] all[j]).0 == k;
                        assert(all[j].0 != blind_id@);
                    }
                    return Ok(records);
                },
                Some(Ok((key, value))) => {
                    assert(all[i] == all.skip(i)[0]);
                    assert(all.skip(i).skip(1) =~= all.skip(i + 1));
                    assert(self@.acknowledged.contains_key(all[i].0));
                    let ghost seen = entries_view(records@);
                    let ghost e = (key@, value@);
                    if !bytes_equal(key.as_slice(), blind_id) {
                        records.push((key, value));
                        assert(entries_view(records@) =~= seen.push(e));
                        proof {
                            law_before_irreflexive(e.0);
                            assert(seen.push(e)[seen.len() as int] == e);
                        }
                        assert forall|a: int, b: int| 0 <= a < b < records@.len() implies (
                        #[trigger] entries_view(records@)[a]).0 != (#[trigger] entries_view(
                            records@,
                        )[b]).0 by {
                            if b == seen.len() {
                                assert(before(seen[a].0, all[i].0));
                            } else {
                                assert(seen[a].0 != seen[b].0);
                            }
                        }
                        assert forall|j: int| 0 <= j < i + 1 && (#[trigger] all[j]).0
                            != blind_id@ implies in_batch(seen.push(e), all[j].0) by {
                            if j < i {
                                let a: int = choose|a: int|
                                    0 <= a < seen.len() && (#[trigger] seen[a]).0 == all[j].0;
                                assert(seen.push(e)[a].0 == all[j].0);
                            }
                        }
                    }
                    proof {
                        i = i + 1;
                    }
                },
                Some(Err(e)) => {
                    return Err(StorageError::Read(e));
                },
            }
        }
    }

    /// Makes room among the acknowledged records for one of a blind identifier.
    fn make_room(&mut self, blind_id: &[u8], now: u64) -> (r: Result<(), StorageError>)
        ensures
            final(self).same_database(old(self)),
            final(self)@.pending == old(self)@.pending,
            room_result(old(self)@.acknowledged, blind_id@, now, r, final(self)@.acknowledged),
    {
        let mut rest = match self.other_records(blind_id) {
            Ok(rest) => rest,
            Err(e) => return Err(e),
        };
        let ghost id = blind_id@;
        let ghost all = self@.acknowledged.remove(id);
        loop
            invariant
                id == blind_id@,
                all == old(self)@.acknowledged.remove(id),
                self.same_database(old(self)),
                self@.pending == old(self)@.pending,
                lists(entries_view(rest@), self@.acknowledged.remove(id)),
                room_part(all, now, self@.acknowledged.remove(id)),
                same_record(old(self)@.acknowledged, self@.acknowledged, id),
            decreases rest@.len(),
        {
            let ghost view = entries_view(rest@);
            let ghost part = self@.acknowledged.remove(id);
            proof {
                lemma_list_len(view, part);
            }
            match ring_victim(&rest, now) {
                None => {
                    assert forall|j: Seq<u8>| #[trigger] part.contains_key(j) implies !is_stale(
                        part[j],
                        now,
                    ) by {
                        let i: int = choose|i: int|
                            0 <= i < view.len() && (#[trigger] view[i]).0 == j;
                        assert(!is_stale(view[i].1, now));
                    }
                    return Ok(());
                },
                Some(v) => {
                    let ghost gone = view[v as int].0;
                    proof {
                        lemma_eviction_makes_room(all, now, part, view, v as int);
                        lemma_list_remove(view, part, v as int);
                        assert(part.contains_key(gone));
                        assert(self@.acknowledged.remove(gone).remove(id) =~= part.remove(gone));
                    }
                    match write_result(tree_remove(&mut self.acknowledged, rest[v].0.as_slice())) {
                        Ok(_) => {},
                        Err(e) => return Err(e),
                    }
                    let _record = rest.remove(v);
                    assert(entries_view(rest@) =~= view.remove(v as int));
                },
            }
        }
    }

    /// How many chunks wait.
    pub fn pending_len(&self) -> (r: Result<usize, StorageError>)
        ensures
            match r {
                Ok(n) => self@.pending.dom().finite() && n == self@.pending.len(),
                Err(e) => e is Read,
            },
    {
        // A vector of units takes no room; its length is the count.
        let mut count: Vec<()> = Vec::new();
        let mut scan = tree_scan(&self.pending);
        let ghost all = scan_rest(scan);
        assert(all.skip(0) =~= all);
        loop
            invariant
                enumerates(all, self@.pending),
                count@.len() <= all.len(),
                scan_rest(scan) == all.skip(count@.len() as int),
            decreases all.len() - count@.len(),
        {
            match scan_next(&mut scan) {
                None => {
                    proof {
                        lemma_enumeration_len(all, self@.pending);
                    }
                    return Ok(count.len());
                },
                Some(Ok(_)) => {
                    let ghost i: int = count@.len() as int;
                    count.push(());
                    assert(all.skip(i).skip(1) =~= all.skip(i + 1));
                },
                Some(Err(e)) => {
                    return Err(StorageError::Read(e));
                },
            }
        }
    }

    /// Whether no chunk waits.
    pub fn pending_is_empty(&self) -> (r: Result<bool, StorageError>)
        ensures
            match r {
                Ok(empty) => empty <==> self@.pending == Map::<Seq<u8>, Seq<u8>>::empty(),
                Err(e) => e is Read,
            },
    {
        let mut scan = tree_scan(&self.pending);
        let ghost all = scan_rest(scan);
        match scan_next(&mut scan) {
            None => {
                assert(self@.pending =~= Map::empty());
                Ok(true)
            },
            Some(Ok(_)) => {
                assert(self@.pending.contains_key(all[0].0));
                Ok(false)
            },
            Some(Err(e)) => Err(StorageError::Read(e)),
        }
    }

    /// First tier of cleanup: forgets what was acknowledged, which the consumer
    /// has, and syncs.
    fn clear_acknowledged(&mut self) -> (r: Result<(), StorageError>)
        ensures
            final(self).same_database(old(self)),
            clear_result(*old(self), r, *final(self)),
    {
        match write_result(tree_clear(&mut self.acknowledged)) {
            Ok(_) => {},
            Err(e) => return Err(e),
        }
        match flush_result(tree_flush(&mut self.acknowledged)) {
            Ok(_) => Ok(()),
            Err(e) => Err(e),
        }
    }

    /// The keys of the chunks that have waited for more than seven days.
    fn expired_keys(&self, now: u64) -> (r: Result<Vec<Vec<u8>>, StorageError>)
        ensures
            match r {
                Ok(keys) => lists_expired(keys_view(keys@), self@, now),
                Err(e) => e is Read,
            },
    {
        let mut keys: Vec<Vec<u8>> = Vec::new();
        let mut scan = tree_scan(&self.pending);
        let ghost all = scan_rest(scan);
        let ghost mut i: int = 0;
        assert(all.skip(0) =~= all);
        loop
            invariant
                enumerates(all, self@.pending),
                0 <= i <= all.len(),
                scan_rest(scan) == all.skip(i),
                forall|a: int, b: int|
                    0 <= a < b < keys@.len() ==> #[trigger] keys_view(keys@)[a]
                        != #[trigger] keys_view(keys@)[b],
                forall|a: int|
                    0 <= a < keys@.len() ==> expired_in(self@, now, #[trigger] keys_view(keys@)[a]),
                forall|a: int, j: int|
                    0 <= a < keys@.len() && i <= j < all.len() ==> before(
                        #[trigger] keys_view(keys@)[a],
                        (#[trigger] all[j]).0,
                    ),
                forall|j: int|
                    0 <= j < i && is_expired((#[trigger] all[j]).0, now) ==> keys_view(
                        keys@,
                    ).contains(all[j].0),
            decreases all.len() - i,
        {
            match scan_next(&mut scan) {
                None => {
                    assert(i == all.len());
                    assert forall|k: Seq<u8>| #[trigger]
                        expired_in(self@, now, k) implies keys_view(keys@).contains(k) by {
                        let j: int = choose|j: int|
                            0 <= j < all.len() && (#[trigger] all[j]).0 == k;
                        assert(is_expired(all[j].0, now));
                    }
                    return Ok(keys);
                },
                Some(Ok((key, _value))) => {
                    assert(all[i] == all.skip(i)[0]);
                    assert(all.skip(i).skip(1) =~= all.skip(i + 1));
                    let ghost seen = keys_view(keys@);
                    let ghost k = key@;
                    assert(self@.pending.contains_key(k));
                    if key_expired(key.as_slice(), now) {
                        keys.push(key);
                        assert(keys_view(keys@) =~= seen.push(k));
                        assert(forall|j: int|
                            i < j < all.len() ==> before(k, (#[trigger] all[j]).0));
                        proof {
                            law_before_irreflexive(k);
                            assert(seen.push(k)[seen.len() as int] == k);
                        }
                        assert forall|j: int|
                            0 <= j < i + 1 && is_expired(
                                (#[trigger] all[j]).0,
                                now,
                            ) implies seen.push(k).contains(all[j].0) by {
                            if j < i {
                                let a: int = choose|a: int|
                                    0 <= a < seen.len() && seen[a] == all[j].0;
                                assert(seen.push(k)[a] == all[j].0);
                            }
                        }
                    }
                    proof {
                        i = i + 1;
                    }
                },
                Some(Err(e)) => {
                    return Err(StorageError::Read(e));
                },
            }
        }
    }

    /// Second tier of cleanup: removes the chunks that have waited for more
    /// than seven days, syncs, and says how many there were.
    fn remove_expired(&mut self, now: u64) -> (r: Result<usize, StorageError>)
        ensures
            final(self).same_database(old(self)),
            expire_result(*old(self), now, r, *final(self)),
    {
        let keys = match self.expired_keys(now) {
            Ok(keys) => keys,
            Err(e) => return Err(e),
        };
        let ghost gone = keys_view(keys@);
        let ghost pending = self@.pending;
        assert(pending.remove_keys(gone.take(0).to_set()) =~= pending);
        let mut i: usize = 0;
        while i < keys.len()
            invariant
                i <= keys@.len(),
                gone == keys_view(keys@),
                pending == old(self)@.pending,
                lists_expired(gone, old(self)@, now),
                self@.acknowledged == old(self)@.acknowledged,
                self.same_database(old(self)),
                self@.pending == pending.remove_keys(gone.take(i as int).to_set()),
            decreases keys@.len() - i,
        {
            let ghost done = gone.take(i as int).to_set();
            assert(gone[i as int] == keys@[i as int]@);
            assert(gone.take(i + 1) =~= gone.take(i as int).push(gone[i as int]));
            assert(gone.take(i + 1).to_set() =~= done.insert(gone[i as int])) by {
                lemma_to_set_of_push(gone.take(i as int), gone[i as int]);
            }
            assert(pending.remove_keys(done).remove(gone[i as int]) =~= pending.remove_keys(
                done.insert(gone[i as int]),
            ));
            proof {
                lemma_removing_expired(old(self)@, now, gone, i as int);
                lemma_removing_expired(old(self)@, now, gone, i + 1);
            }
            match write_result(tree_remove(&mut self.pending, keys[i].as_slice())) {
                Ok(_) => {},
                Err(e) => return Err(e),
            }
            i = i + 1;
        }
        proof {
            assert(gone.take(gone.len() as int) =~= gone);
            lemma_all_expired(old(self)@, now, gone);
        }
        match flush_result(tree_flush(&mut self.pending)) {
            Ok(_) => Ok(keys.len()),
            Err(e) => Err(e),
        }
    }

    /// One step of the cleanup now; see `trim_to_watermark_at`.
    pub fn trim_to_watermark(
        &mut self,
        stage: TrimStage,
        db_size: u64,
        high_bytes: u64,
        low_bytes: u64,
    ) -> (r: Result<TrimStage, StorageError>)
        ensures
            final(self).same_database(old(self)),
            exists|now: u64|
                is_clock_time(now) && #[trigger] trim_result(
                    *old(self),
                    stage,
                    db_size,
                    high_bytes,
                    low_bytes,
                    now,
                    r,
                    *final(self),
                ),
    {
        let now: u64 = unix_nanos();
        self.trim_to_watermark_at(stage, db_size, high_bytes, low_bytes, now)
    }

    /// One step of the cleanup, at time `now`. A cleanup begins at
    /// `TrimStage::Start`; the size of the database is measured before each
    /// step and handed in, until a step ends at `TrimStage::Done`.
    ///
    /// Below the high mark nothing happens. At or above it, the acknowledged
    /// entries go first; if the size is then still above the low mark, the
    /// chunks that are older than seven days go; if it is still at or above the
    /// high mark after that, backpressure is called for. No other chunk is ever
    /// dropped.
    pub fn trim_to_watermark_at(
        &mut self,
        stage: TrimStage,
        db_size: u64,
        high_bytes: u64,
        low_bytes: u64,
        now: u64,
    ) -> (r: Result<TrimStage, StorageError>)
        ensures
            final(self).same_database(old(self)),
            trim_result(
                *old(self),
                stage,
                db_size,
                high_bytes,
                low_bytes,
                now,
                r,
                *final(self),
            ),
    {
        match trim_step(stage, db_size, high_bytes, low_bytes) {
            TrimMove::Finish { backpressure } => Ok(TrimStage::Done { backpressure }),
            TrimMove::ClearAcknowledged => match self.clear_acknowledged() {
                Ok(()) => Ok(TrimStage::AcknowledgedCleared),
                Err(e) => Err(e),
            },
            TrimMove::RemoveExpired => match self.remove_expired(now) {
                Ok(removed) => Ok(TrimStage::ExpiredRemoved { removed }),
                Err(e) => Err(e),
            },
        }
    }
}

/// How far a cleanup has come.
#[derive(Debug, Clone, Copy, PartialEq, Eq, Structural)]
pub enum TrimStage {
    /// Nothing has been done.
    Start,
    /// The acknowledged entries are gone.
    AcknowledgedCleared,
    /// The chunks older than seven days are gone too; so many there were.
    ExpiredRemoved { removed: usize },
    /// The cleanup is over; whether producers have to slow down.
    Done { backpressure: bool },
}

/// What one step of a cleanup has to do.
#[derive(Debug, Clone, Copy, PartialEq, Eq, Structural)]
pub enum TrimMove {
    ClearAcknowledged,
    RemoveExpired,
    Finish { backpressure: bool },
}

/// What the next step is, at a stage and with a size of the database.
pub open spec fn trim_move(
    stage: TrimStage,
    db_size: u64,
    high_bytes: u64,
    low_bytes: u64,
) -> TrimMove {
    match stage {
        TrimStage::Start => if db_size < high_bytes {
            TrimMove::Finish { backpressure: false }
        } else {
            TrimMove::ClearAcknowledged
        },
        TrimStage::AcknowledgedCleared => if db_size <= low_bytes {
            TrimMove::Finish { backpressure: false }
        } else {
            TrimMove::RemoveExpired
        },
        TrimStage::ExpiredRemoved { removed: _ } => TrimMove::Finish {
            backpressure: db_size > low_bytes && db_size >= high_bytes,
        },
        TrimStage::Done { backpressure } => TrimMove::Finish { backpressure },
    }
}

/// Decides what the next step is.
pub fn trim_step(stage: TrimStage, db_size: u64, high_bytes: u64, low_bytes: u64) -> (r: TrimMove)
    ensures
        r == trim_move(stage, db_size, high_bytes, low_bytes),
{
    match stage {
        TrimStage::Start => if db_size < high_bytes {
            TrimMove::Finish { backpressure: false }
        } else {
            TrimMove::ClearAcknowledged
        },
        TrimStage::AcknowledgedCleared => if db_size <= low_bytes {
            TrimMove::Finish { backpressure: false }
        } else {
            TrimMove::RemoveExpired
        },
        TrimStage::ExpiredRemoved { removed: _ } => TrimMove::Finish {
            backpressure: db_size > low_bytes && db_size >= high_bytes,
        },
        TrimStage::Done { backpressure } => TrimMove::Finish { backpressure },
    }
}

/// The key waits and is past its seven days.
spec fn expired_in(s: StorageView, now: u64, key: Seq<u8>) -> bool {
    s.pending.contains_key(key) && is_expired(key, now)
}

/// Keys as sequences of bytes.
spec fn keys_view(keys: Seq<Vec<u8>>) -> Seq<Seq<u8>> {
    keys.map_values(|key: Vec<u8>| key@)
}

/// `keys` lists the waiting keys that are past their seven days, once each.
spec fn lists_expired(keys: Seq<Seq<u8>>, s: StorageView, now: u64) -> bool {
    &&& forall|i: int, j: int| 0 <= i < j < keys.len() ==> #[trigger] keys[i] != #[trigger] keys[j]
    &&& forall|i: int| 0 <= i < keys.len() ==> expired_in(s, now, #[trigger] keys[i])
    &&& forall|k: Seq<u8>| #[trigger] expired_in(s, now, k) ==> keys.contains(k)
}

/// The keys that wait and are past their seven days.
pub open spec fn expired_set(s: StorageView, now: u64) -> Set<Seq<u8>> {
    s.pending.dom().filter(|key: Seq<u8>| is_expired(key, now))
}

/// What clearing the acknowledged entries comes to. A failed write leaves some
/// of them; the pending chunks stay in any case.
pub open spec fn clear_result(
    before_call: Storage,
    r: Result<(), StorageError>,
    after_call: Storage,
) -> bool {
    let s = before_call@;
    match r {
        Ok(()) => after_call@ == s.forget_acknowledged() && after_call.durable().acknowledged
            == after_call@.acknowledged,
        Err(StorageError::Write(_)) => after_call@.pending == s.pending
            && after_call@.acknowledged.submap_of(s.acknowledged),
        Err(StorageError::Flush(_)) => after_call@ == s.forget_acknowledged(),
        Err(_) => false,
    }
}

/// What removing the expired chunks comes to. Where a write fails, some of
/// them are left; a chunk that has not expired stays in any case.
pub open spec fn expire_result(
    before_call: Storage,
    now: u64,
    r: Result<usize, StorageError>,
    after_call: Storage,
) -> bool {
    let s = before_call@;
    match r {
        Ok(removed) => {
            &&& after_call@ == s.expire(now)
            &&& after_call.durable().pending == after_call@.pending
            &&& expired_set(s, now).finite()
            &&& removed == expired_set(s, now).len()
        },
        Err(StorageError::Read(_)) => after_call == before_call,
        Err(StorageError::Write(_)) => {
            &&& after_call@.acknowledged == s.acknowledged
            &&& after_call@.pending.submap_of(s.pending)
            &&& s.expire(now).pending.submap_of(after_call@.pending)
        },
        Err(StorageError::Flush(_)) => after_call@ == s.expire(now),
        Err(StorageError::Open(_)) => false,
    }
}

/// What one step of a cleanup comes to.
pub open spec fn trim_result(
    before_call: Storage,
    stage: TrimStage,
    db_size: u64,
    high_bytes: u64,
    low_bytes: u64,
    now: u64,
    r: Result<TrimStage, StorageError>,
    after_call: Storage,
) -> bool {
    match trim_move(stage, db_size, high_bytes, low_bytes) {
        TrimMove::Finish { backpressure } => r == Ok::<TrimStage, StorageError>(
            TrimStage::Done { backpressure },
        ) && after_call == before_call,
        TrimMove::ClearAcknowledged => match r {
            Ok(next) => next == TrimStage::AcknowledgedCleared && clear_result(
                before_call,
                Ok(()),
                after_call,
            ),
            Err(e) => clear_result(before_call, Err(e), after_call),
        },
        TrimMove::RemoveExpired => match r {
            Ok(TrimStage::ExpiredRemoved { removed }) => expire_result(
                before_call,
                now,
                Ok(removed),
                after_call,
            ),
            Ok(_) => false,
            Err(e) => expire_result(before_call, now, Err(e), after_call),
        },
    }
}

/// A front of the pending chunks, and what cut it short.
pub struct PendingBatch {
    /// Key and payload of each chunk, oldest first.
    pub entries: Vec<(Vec<u8>, Vec<u8>)>,
    /// The failure that ended the batch early.
    pub error: Option<StorageError>,
}

/// Keys and payloads as sequences of bytes.
pub open spec fn entries_view(entries: Seq<(Vec<u8>, Vec<u8>)>) -> Seq<(Seq<u8>, Seq<u8>)> {
    entries.map_values(|e: (Vec<u8>, Vec<u8>)| (e.0@, e.1@))
}

impl View for PendingBatch {
    type V = Seq<(Seq<u8>, Seq<u8>)>;

    open spec fn view(&self) -> Seq<(Seq<u8>, Seq<u8>)> {
        entries_view(self.entries@)
    }
}

/// What taking the oldest `n` chunks comes to: a front of what waits, of `n`
/// chunks or of all that there are, or of fewer where a read failed.
pub open spec fn batch_result(
    pending: Map<Seq<u8>, Seq<u8>>,
    n: nat,
    batch: PendingBatch,
) -> bool {
    &&& is_front(batch@, pending)
    &&& match batch.error {
        None => batch@.len() == n || (batch@.len() < n && forall|k: Seq<u8>| #[trigger]
            pending.contains_key(k) ==> in_batch(batch@, k)),
        Some(e) => e is Read && batch@.len() < n,
    }
}

/// What looking a blind identifier up comes to. The store holds what it held, and
/// what waits is on disk where an identifier that waits was found. A failed sync
/// comes of one that waits.
pub open spec fn known_result(
    before_call: Storage,
    blind_id: Seq<u8>,
    r: Result<Option<Vec<u8>>, StorageError>,
    after_call: Storage,
) -> bool {
    let s = before_call@;
    match r {
        Ok(Some(key)) => if s.has_pending(blind_id) {
            &&& s.first_pending(blind_id, key@)
            &&& after_call@ == s
            &&& after_call.durable().pending == after_call@.pending
        } else {
            &&& s.acknowledged.contains_key(blind_id)
            &&& key@ == blind_id
            &&& after_call == before_call
        },
        Ok(None) => !s.knows(blind_id) && after_call == before_call,
        Err(StorageError::Read(_)) => after_call == before_call,
        Err(StorageError::Flush(_)) => s.has_pending(blind_id) && after_call@ == s,
        Err(_) => false,
    }
}

/// What storing a chunk at time `now` comes to. On success the offer has its
/// effect, and where the blind identifier then waits, what waits is on disk. A
/// failed read changes nothing; a failed write leaves the store as it was or with
/// the chunk, and a failed sync leaves it with the chunk, which was new or waited
/// before. Only an unknown blind identifier is ever written.
pub open spec fn insert_result(
    before_call: Storage,
    blind_id: Seq<u8>,
    payload: Seq<u8>,
    now: u64,
    r: Result<(bool, Vec<u8>), StorageError>,
    after_call: Storage,
) -> bool {
    let s = before_call@;
    match r {
        Ok((is_new, key)) => {
            &&& s.offered(blind_id, payload, now, is_new, key@, after_call@)
            &&& if is_new || s.has_pending(blind_id) {
                after_call.durable().pending == after_call@.pending
            } else {
                after_call == before_call
            }
        },
        Err(StorageError::Read(_)) => after_call == before_call,
        Err(StorageError::Write(_)) => !s.knows(blind_id) && (after_call@ == s || after_call@
            == s.arrive(blind_id, payload, now)),
        Err(StorageError::Flush(_)) => {
            ||| s.has_pending(blind_id) && after_call@ == s
            ||| !s.knows(blind_id) && after_call@ == s.arrive(blind_id, payload, now)
        },
        Err(StorageError::Open(_)) => false,
    }
}

/// The identifier has the same record in both, or in neither.
pub open spec fn same_record(
    ring: Map<Seq<u8>, Seq<u8>>,
    after: Map<Seq<u8>, Seq<u8>>,
    id: Seq<u8>,
) -> bool {
    &&& after.contains_key(id) <==> ring.contains_key(id)
    &&& ring.contains_key(id) ==> after[id] == ring[id]
}

/// What making room for the record of an identifier comes to. A failed read
/// changes nothing; a failed write has evicted some of what was to be evicted.
pub open spec fn room_result(
    ring: Map<Seq<u8>, Seq<u8>>,
    id: Seq<u8>,
    now: u64,
    r: Result<(), StorageError>,
    after: Map<Seq<u8>, Seq<u8>>,
) -> bool {
    match r {
        Ok(()) => same_record(ring, after, id) && room_made(ring.remove(id), now, after.remove(id)),
        Err(StorageError::Read(_)) => after == ring,
        Err(StorageError::Write(_)) => same_record(ring, after, id) && room_part(
            ring.remove(id),
            now,
            after.remove(id),
        ),
        Err(_) => false,
    }
}

/// What confirming a key at time `now` comes to. A failed read changes nothing.
/// A failed write comes of a key that waits: it leaves the entry in pending, with
/// room made or partly made in the ring, or has taken it out, with room made, and
/// then the blind identifier may be recorded or not; nothing else changes.
pub open spec fn consume_result(
    s: StorageView,
    key: Seq<u8>,
    now: u64,
    r: Result<(), StorageError>,
    after: StorageView,
) -> bool {
    let id = blind_id_of(key);
    match r {
        Ok(()) => s.consumed(key, now, after),
        Err(StorageError::Read(_)) => after == s,
        Err(StorageError::Write(_)) => s.pending.contains_key(key) && {
            ||| {
                &&& after.pending == s.pending
                &&& same_record(s.acknowledged, after.acknowledged, id)
                &&& room_part(s.acknowledged.remove(id), now, after.acknowledged.remove(id))
            }
            ||| {
                &&& after.pending == s.pending.remove(key)
                &&& same_record(s.acknowledged, after.acknowledged, id)
                &&& room_made(s.acknowledged.remove(id), now, after.acknowledged.remove(id))
            }
            ||| s.consumed(key, now, after)
        },
        Err(_) => false,
    }
}

/// What confirming a blind identifier at time `now` comes to: its first waiting
/// key is confirmed, and where none waits nothing changes.
pub open spec fn settle_result(
    s: StorageView,
    blind_id: Seq<u8>,
    now: u64,
    r: Result<bool, StorageError>,
    after: StorageView,
) -> bool {
    match r {
        Ok(true) => exists|key: Seq<u8>|
            s.first_pending(blind_id, key) && #[trigger] consume_result(s, key, now, Ok(()), after),
        Ok(false) => !s.has_pending(blind_id) && after == s,
        Err(e) => (e is Read && after == s) || exists|key: Seq<u8>|
            s.first_pending(blind_id, key) && #[trigger] consume_result(s, key, now, Err(e), after),
    }
}

/// An enumeration is as long as what it enumerates.
proof fn lemma_enumeration_len(all: Seq<(Seq<u8>, Seq<u8>)>, map: Map<Seq<u8>, Seq<u8>>)
    requires
        enumerates(all, map),
    ensures
        map.dom().finite(),
        map.len() == all.len(),
{
    assert forall|i: int, j: int| 0 <= i < j < all.len() implies #[trigger] all[i].0
        != #[trigger] all[j].0 by {
        law_before_irreflexive(all[i].0);
    }
    lemma_list_len(all, map);
}

/// The first entries of an enumeration are a front of what it enumerates.
proof fn lemma_take_is_front(
    all: Seq<(Seq<u8>, Seq<u8>)>,
    pending: Map<Seq<u8>, Seq<u8>>,
    n: int,
)
    requires
        enumerates(all, pending),
        0 <= n <= all.len(),
    ensures
        is_front(all.take(n), pending),
        n == all.len() ==> forall|k: Seq<u8>| #[trigger]
            pending.contains_key(k) ==> in_batch(all.take(n), k),
{
    let batch: Seq<(Seq<u8>, Seq<u8>)> = all.take(n);
    assert forall|i: int| 0 <= i < batch.len() implies pending.contains_key(
        (#[trigger] batch[i]).0,
    ) && pending[batch[i].0] == batch[i].1 by {
        assert(batch[i] == all[i]);
    }
    assert forall|i: int, j: int| 0 <= i < j < batch.len() implies before(
        #[trigger] batch[i].0,
        #[trigger] batch[j].0,
    ) by {
        assert(before(all[i].0, all[j].0));
    }
    assert forall|k: Seq<u8>| #[trigger] pending.contains_key(k) implies in_batch(batch, k)
        || exists|j: int| n <= j < all.len() && (#[trigger] all[j]).0 == k by {
        let j: int = choose|j: int| 0 <= j < all.len() && (#[trigger] all[j]).0 == k;
        if j < n {
            assert(batch[j].0 == k);
        }
    }
    assert forall|i: int, k: Seq<u8>|
        #![trigger batch[i], pending.contains_key(k)]
        0 <= i < batch.len() && pending.contains_key(k) && !in_batch(batch, k) implies before(
        batch[i].0,
        k,
    ) by {
        let j: int = choose|j: int| n <= j < all.len() && (#[trigger] all[j]).0 == k;
        assert(before(all[i].0, all[j].0));
    }
}

/// What keeps a store in its place keeps the directory that it was opened in,
/// and the settings.
pub proof fn law_place_is_kept(s: Storage, after: Storage, path: Seq<char>, cache: nat, ms: nat)
    requires
        s.opened_at(path, cache, ms),
        after.same_database(&s),
    ensures
        after.opened_at(path, cache, ms),
        after.path() == s.path(),
{
}

/// Storing loses nothing: whatever comes of it, success or failure, every chunk
/// that waited still waits with its payload, and what was acknowledged stays.
pub proof fn law_insert_keeps_what_waits(
    s: Storage,
    blind_id: Seq<u8>,
    payload: Seq<u8>,
    now: u64,
    r: Result<(bool, Vec<u8>), StorageError>,
    after: Storage,
)
    requires
        blind_id.len() == BLIND_ID_LEN,
        insert_result(s, blind_id, payload, now, r, after),
    ensures
        s@.pending.submap_of(after@.pending),
        after@.acknowledged == s@.acknowledged,
{
    law_key_round_trip(now, blind_id);
    let key: Seq<u8> = key_bytes(now, blind_id);
    if s@.pending.contains_key(key) {
        assert(s@.has_pending(blind_id));
    }
}

/// Success means stored: the chunk waits or was confirmed before. Where it waits
/// it is on disk, under the key that is returned, with the payload that it waits
/// with, and a new one with the payload that came.
pub proof fn law_insert_success_is_stored(
    s: Storage,
    blind_id: Seq<u8>,
    payload: Seq<u8>,
    now: u64,
    is_new: bool,
    key: Vec<u8>,
    after: Storage,
)
    requires
        blind_id.len() == BLIND_ID_LEN,
        insert_result(s, blind_id, payload, now, Ok((is_new, key)), after),
    ensures
        after@.knows(blind_id),
        is_new <==> !s@.knows(blind_id),
        after@.has_pending(blind_id) ==> {
            &&& names_blind_id(key@, blind_id)
            &&& after@.pending.contains_key(key@)
            &&& after.durable().pending.contains_key(key@)
            &&& after.durable().pending[key@] == after@.pending[key@]
        },
        is_new ==> after@.has_pending(blind_id) && after@.pending[key@] == payload,
{
    law_key_round_trip(now, blind_id);
    if is_new {
        assert(after@.pending.contains_key(key_bytes(now, blind_id)));
    }
}

/// Confirming one chunk leaves every other as it was, whatever comes of it, and
/// acknowledges no other.
pub proof fn law_consume_keeps_the_others(
    s: StorageView,
    key: Seq<u8>,
    now: u64,
    r: Result<(), StorageError>,
    after: StorageView,
)
    requires
        consume_result(s, key, now, r, after),
    ensures
        after.pending.remove(key) == s.pending.remove(key),
        after.acknowledged.remove(blind_id_of(key)).submap_of(
            s.acknowledged.remove(blind_id_of(key)),
        ),
{
    assert(after.pending.remove(key) =~= s.pending.remove(key));
}

/// No step of a cleanup drops a chunk that has waited for seven days or less,
/// or adds one, whatever comes of the step.
pub proof fn law_trim_drops_no_young_chunk(
    s: Storage,
    stage: TrimStage,
    db_size: u64,
    high_bytes: u64,
    low_bytes: u64,
    now: u64,
    r: Result<TrimStage, StorageError>,
    after: Storage,
)
    requires
        trim_result(s, stage, db_size, high_bytes, low_bytes, now, r, after),
    ensures
        after@.pending.submap_of(s@.pending),
        s@.expire(now).pending.submap_of(after@.pending),
{
}

/// A cleanup calls for backpressure only at its end, after both tiers, and only
/// where the database is still at or above the high mark.
pub proof fn law_backpressure_is_the_last_resort(
    stage: TrimStage,
    db_size: u64,
    high_bytes: u64,
    low_bytes: u64,
)
    requires
        !(stage is Done),
    ensures
        trim_move(stage, db_size, high_bytes, low_bytes) == (TrimMove::Finish {
            backpressure: true,
        }) <==> stage is ExpiredRemoved && db_size >= high_bytes && db_size > low_bytes,
        db_size < high_bytes ==> !(trim_move(stage, db_size, high_bytes, low_bytes)
            is ClearAcknowledged),
{
}

/// Whatever comes of storing a chunk, a well formed store stays well formed.
pub proof fn law_insert_keeps_well_formed(
    s: Storage,
    blind_id: Seq<u8>,
    payload: Seq<u8>,
    now: u64,
    r: Result<(bool, Vec<u8>), StorageError>,
    after: Storage,
)
    requires
        s@.well_formed(),
        blind_id.len() == BLIND_ID_LEN,
        insert_result(s, blind_id, payload, now, r, after),
    ensures
        after@.well_formed(),
{
    if after@ != s@ {
        law_offer_keeps_well_formed(
            s@,
            blind_id,
            payload,
            now,
            true,
            key_bytes(now, blind_id),
            s@.arrive(blind_id, payload, now),
        );
    }
}

/// Whatever comes of confirming a chunk, a well formed store stays well formed.
pub proof fn law_confirm_keeps_well_formed(
    s: StorageView,
    key: Seq<u8>,
    now: u64,
    r: Result<(), StorageError>,
    after: StorageView,
)
    requires
        s.well_formed(),
        consume_result(s, key, now, r, after),
    ensures
        after.well_formed(),
{
    if s.consumed(key, now, after) {
        law_consume_keeps_well_formed(s, key, now, after);
    } else {
        let id: Seq<u8> = blind_id_of(key);
        assert forall|k: Seq<u8>| #[trigger]
            after.acknowledged.dom().contains(k) implies s.acknowledged.dom().contains(k)
            && after.acknowledged[k] == s.acknowledged[k] by {
            if k != id {
                assert(after.acknowledged.remove(id).dom().contains(k));
                assert(s.acknowledged.remove(id).dom().contains(k));
            }
        }
        law_part_is_well_formed(s, after);
    }
}

/// Whatever comes of a step of a cleanup, a well formed store stays well formed.
pub proof fn law_trim_keeps_well_formed(
    s: Storage,
    stage: TrimStage,
    db_size: u64,
    high_bytes: u64,
    low_bytes: u64,
    now: u64,
    r: Result<TrimStage, StorageError>,
    after: Storage,
)
    requires
        s@.well_formed(),
        trim_result(s, stage, db_size, high_bytes, low_bytes, now, r, after),
    ensures
        after@.well_formed(),
{
    law_part_is_well_formed(s@, after@);
}

/// How many steps of a cleanup can still follow.
pub open spec fn steps_left(stage: TrimStage) -> nat {
    match stage {
        TrimStage::Start => 3,
        TrimStage::AcknowledgedCleared => 2,
        TrimStage::ExpiredRemoved { removed: _ } => 1,
        TrimStage::Done { backpressure: _ } => 0,
    }
}

/// A cleanup ends after three steps at most.
pub proof fn law_trim_ends(
    s: Storage,
    stage: TrimStage,
    db_size: u64,
    high_bytes: u64,
    low_bytes: u64,
    now: u64,
    next: TrimStage,
    after: Storage,
)
    requires
        trim_result(s, stage, db_size, high_bytes, low_bytes, now, Ok(next), after),
        !(stage is Done),
    ensures
        steps_left(next) < steps_left(stage),
{
}

proof fn lemma_to_set_of_push(s: Seq<Seq<u8>>, key: Seq<u8>)
    ensures
        s.push(key).to_set() == s.to_set().insert(key),
{
    assert forall|k: Seq<u8>| s.push(key).to_set().contains(k) <==> s.to_set().insert(
        key,
    ).contains(k) by {
        if s.to_set().contains(k) {
            let i: int = choose|i: int| 0 <= i < s.len() && s[i] == k;
            assert(s.push(key)[i] == k);
        }
        if k == key {
            assert(s.push(key)[s.len() as int] == k);
        }
        if s.push(key).to_set().contains(k) && k != key {
            let i: int = choose|i: int| 0 <= i < s.push(key).len() && s.push(key)[i] == k;
            assert(s[i] == k);
        }
    }
    assert(s.push(key).to_set() =~= s.to_set().insert(key));
}

/// Removing some expired keys removes no chunk that has not expired.
proof fn lemma_removing_expired(s: StorageView, now: u64, gone: Seq<Seq<u8>>, n: int)
    requires
        0 <= n <= gone.len(),
        lists_expired(gone, s, now),
    ensures
        s.pending.remove_keys(gone.take(n).to_set()).submap_of(s.pending),
        s.expire(now).pending.submap_of(s.pending.remove_keys(gone.take(n).to_set())),
{
    let left: Map<Seq<u8>, Seq<u8>> = s.pending.remove_keys(gone.take(n).to_set());
    assert forall|k: Seq<u8>| #[trigger]
        s.expire(now).pending.contains_key(k) implies left.contains_key(k)
        && s.expire(now).pending[k] == left[k] by {
        if gone.take(n).to_set().contains(k) {
            let j: int = choose|j: int| 0 <= j < gone.take(n).len() && gone.take(n)[j] == k;
            assert(gone[j] == k);
        }
    }
}

/// Removing all expired keys is expiry, and counts them.
proof fn lemma_all_expired(s: StorageView, now: u64, gone: Seq<Seq<u8>>)
    requires
        lists_expired(gone, s, now),
    ensures
        s.pending.remove_keys(gone.to_set()) == s.expire(now).pending,
        expired_set(s, now).finite(),
        expired_set(s, now).len() == gone.len(),
{
    assert forall|k: Seq<u8>| gone.to_set().contains(k) <==> expired_set(s, now).contains(k) by {
        if expired_set(s, now).contains(k) {
            assert(expired_in(s, now, k));
        }
        if gone.to_set().contains(k) {
            let j: int = choose|j: int| 0 <= j < gone.len() && gone[j] == k;
            assert(expired_in(s, now, gone[j]));
        }
    }
    assert(gone.to_set() =~= expired_set(s, now));
    assert(gone.no_duplicates());
    gone.unique_seq_to_set();
    assert(s.pending.remove_keys(gone.to_set()) =~= s.expire(now).pending);
}

/// What a store holds is what its trees hold, and what it has on disk is what they
/// had at the last sync.
proof fn law_store_is_its_trees(s: Storage)
    ensures
        s@.pending == tree_contents(s.pending),
        s@.acknowledged == tree_contents(s.acknowledged),
        s.durable().pending == tree_durable(s.pending),
        s.durable().acknowledged == tree_durable(s.acknowledged),
        s.path() == s.db_path@,
{
}

/// A store that was opened in a place is that of the trees of that name there, and
/// two stores are of one database just where their trees are.
proof fn law_store_has_its_place(s: Storage, path: Seq<char>, cache: nat, ms: nat, other: Storage)
    ensures
        s.opened_at(path, cache, ms) <==> {
            &&& s.db_path@ == path
            &&& db_path(s.db) == path
            &&& db_cache_limit(s.db) <= cache
            &&& db_flush_interval(s.db) == ms
            &&& tree_origin(s.pending) == (path, "pending"@)
            &&& tree_origin(s.acknowledged) == (path, "acknowledged"@)
        },
        s.same_database(&other) <==> {
            &&& s.db == other.db
            &&& s.db_path == other.db_path
            &&& tree_origin(s.pending) == tree_origin(other.pending)
            &&& tree_origin(s.acknowledged) == tree_origin(other.acknowledged)
        },
{
}

/// The cache has sixty-four mebibytes, and the database is flushed every second.
pub proof fn law_database_settings()
    ensures
        CACHE_CAPACITY == 64 * 1024 * 1024,
        FLUSH_EVERY_MS == 1000,
{
}

/// The entries of a batch are its keys and payloads, one by one.
pub proof fn law_entries_are_keys_and_payloads(batch: PendingBatch, i: int)
    requires
        0 <= i < batch.entries@.len(),
    ensures
        batch@.len() == batch.entries@.len(),
        batch@[i].0 == batch.entries@[i].0@,
        batch@[i].1 == batch.entries@[i].1@,
{
}

/// A batch that was read to its end has as many chunks as were asked for, or all
/// that wait; each waits with its payload; and what is not in it comes after all
/// that is.
pub proof fn law_batch_has_what_was_asked_for(
    pending: Map<Seq<u8>, Seq<u8>>,
    n: nat,
    batch: PendingBatch,
    i: int,
    left: Seq<u8>,
)
    requires
        batch_result(pending, n, batch),
        pending.dom().finite(),
        0 <= i < batch@.len(),
    ensures
        batch@.len() <= n,
        batch@.len() <= pending.len(),
        batch.error is None ==> batch@.len() == n || batch@.len() == pending.len(),
        pending.contains_key(batch@[i].0),
        pending[batch@[i].0] == batch@[i].1,
        pending.contains_key(left) && !in_batch(batch@, left) ==> before(batch@[i].0, left),
        forall|j: int|
            i < j < batch@.len() ==> before(batch@[i].0, #[trigger] batch@[j].0),
{
    lemma_batch_len(pending, batch@);
    if batch.error is None && batch@.len() < n {
        assert forall|a: int, b: int| 0 <= a < b < batch@.len() implies #[trigger] batch@[a].0
            != #[trigger] batch@[b].0 by {
            law_before_irreflexive(batch@[a].0);
        }
        assert(lists(batch@, pending));
        lemma_list_len(batch@, pending);
    }
}

/// A front is no longer than what it is a front of.
proof fn lemma_batch_len(pending: Map<Seq<u8>, Seq<u8>>, batch: Seq<(Seq<u8>, Seq<u8>)>)
    requires
        is_front(batch, pending),
        pending.dom().finite(),
    ensures
        batch.len() <= pending.len(),
{
    let keys: Seq<Seq<u8>> = Seq::new(batch.len(), |i: int| batch[i].0);
    assert forall|i: int, j: int| 0 <= i < j < keys.len() implies keys[i] != keys[j] by {
        law_before_irreflexive(batch[i].0);
        assert(before(batch[i].0, batch[j].0));
    }
    assert(keys.no_duplicates());
    keys.unique_seq_to_set();
    assert forall|k: Seq<u8>| keys.to_set().contains(k) implies pending.dom().contains(k) by {
        let i: int = choose|i: int| 0 <= i < keys.len() && keys[i] == k;
        assert(pending.contains_key(batch[i].0));
    }
    vstd::set_lib::lemma_len_subset(keys.to_set(), pending.dom());
}

/// A cleanup goes by the marks. Below the high mark it does nothing. At or above it
/// the acknowledged records go, and no chunk. Above the low mark after that, the
/// chunks that have waited for more than seven days go, just those, and they are
/// counted. After that it ends, and calls for backpressure where the size is above
/// both marks. A step that fails goes no further.
pub proof fn law_cleanup_goes_by_the_marks(
    s: Storage,
    stage: TrimStage,
    db_size: u64,
    high_bytes: u64,
    low_bytes: u64,
    now: u64,
    r: Result<TrimStage, StorageError>,
    after: Storage,
    key: Seq<u8>,
)
    requires
        trim_result(s, stage, db_size, high_bytes, low_bytes, now, r, after),
    ensures
        stage == TrimStage::Start && db_size < high_bytes ==> r == Ok::<TrimStage, StorageError>(
            TrimStage::Done { backpressure: false },
        ) && after == s,
        stage == TrimStage::Start && db_size >= high_bytes && r is Ok ==> {
            &&& r == Ok::<TrimStage, StorageError>(TrimStage::AcknowledgedCleared)
            &&& after@.pending == s@.pending
            &&& !after@.acknowledged.contains_key(key)
            &&& !after.durable().acknowledged.contains_key(key)
        },
        stage == TrimStage::AcknowledgedCleared && db_size <= low_bytes ==> r == Ok::<
            TrimStage,
            StorageError,
        >(TrimStage::Done { backpressure: false }) && after == s,
        stage == TrimStage::AcknowledgedCleared && db_size > low_bytes && r is Ok ==> {
            &&& r matches Ok(TrimStage::ExpiredRemoved { removed })
            &&& s@.pending.dom().finite() ==> after@.pending.dom().finite()
                && after@.pending.len() + removed == s@.pending.len()
            &&& after@.pending.contains_key(key) <==> s@.pending.contains_key(key) && !(key.len()
                >= 8 && now > timestamp_of(key) + 7 * 24 * 3600 * 1_000_000_000)
            &&& after@.pending.contains_key(key) ==> after@.pending[key] == s@.pending[key]
            &&& after@.acknowledged == s@.acknowledged
            &&& after.durable().pending == after@.pending
        },
        stage is ExpiredRemoved ==> r == Ok::<TrimStage, StorageError>(
            TrimStage::Done { backpressure: db_size >= high_bytes && db_size > low_bytes },
        ) && after == s,
        stage matches TrimStage::Done { backpressure } ==> r == Ok::<TrimStage, StorageError>(
            TrimStage::Done { backpressure },
        ) && after == s,
        r is Err ==> after@.pending.submap_of(s@.pending) && (s@.pending.contains_key(key)
            && !after@.pending.contains_key(key) ==> key.len() >= 8 && now > timestamp_of(key) + 7
            * 24 * 3600 * 1_000_000_000),
{
    let gone: Set<Seq<u8>> = expired_set(s@, now);
    if stage == TrimStage::AcknowledgedCleared && db_size > low_bytes && r is Ok
        && s@.pending.dom().finite() {
        let dom: Set<Seq<u8>> = s@.pending.dom();
        assert(after@.pending.dom() =~= dom.difference(gone));
        vstd::set_lib::lemma_set_difference_len(dom, gone);
        assert(dom.intersect(gone) =~= gone);
        vstd::set_lib::lemma_len_subset(after@.pending.dom(), dom);
    }
    if r is Err && s@.pending.contains_key(key) && !after@.pending.contains_key(key) {
        law_trim_drops_no_young_chunk(
            s,
            stage,
            db_size,
            high_bytes,
            low_bytes,
            now,
            r,
            after,
        );
        if s@.expire(now).pending.contains_key(key) {
            assert(s@.expire(now).pending.dom().contains(key));
        }
    }
}

/// A confirmation by blind identifier says whether a key that ends in it waited;
/// where none did nothing changes, and where one did one such key is gone, the
/// earliest, and its identifier is acknowledged with the time.
pub proof fn law_settling_answers_for_what_waits(
    s: StorageView,
    id: Seq<u8>,
    now: u64,
    waited: bool,
    after: StorageView,
)
    requires
        id.len() == 16,
        settle_result(s, id, now, Ok(waited), after),
    ensures
        waited <==> exists|k: Seq<u8>| #[trigger]
            s.pending.contains_key(k) && k.len() >= 16 && k.skip(k.len() - 16) == id,
        !waited ==> after == s,
        waited ==> {
            &&& exists|k: Seq<u8>|
                {
                    &&& #[trigger] s.pending.contains_key(k)
                    &&& k.len() >= 16
                    &&& k.skip(k.len() - 16) == id
                    &&& after.pending == s.pending.remove(k)
                }
            &&& after.acknowledged.contains_key(id)
            &&& after.acknowledged[id] == timestamp_bytes(now)
        },
{
    law_known_is_held(s, id);
    if waited {
        let key: Seq<u8> = choose|key: Seq<u8>|
            s.first_pending(id, key) && #[trigger] consume_result(s, key, now, Ok(()), after);
        assert(s.has_pending(id));
        assert(key.skip(key.len() - 16) =~= blind_id_of(key));
        assert(s.pending.contains_key(key));
    }
}

} // verus!
