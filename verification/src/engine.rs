//! The sled database engine, as the rest of the crate sees it.
//!
//! A tree is an ordered map from byte strings to byte strings. Each function
//! here makes one call into sled, and its contract says what that call does to
//! the contents of the tree. The contracts hold of a handle that nobody shares:
//! a tree is changed through `&mut` alone, its name is asked for once, and no
//! handle is ever cloned.
use vstd::prelude::*;

use crate::keys::before;

verus! {

/// `sled::Db`, an open database.
#[verifier::external_type_specification]
#[verifier::external_body]
pub struct ExDb(sled::Db);

/// `sled::Tree`, one keyspace of a database.
#[verifier::external_type_specification]
#[verifier::external_body]
pub struct ExTree(sled::Tree);

/// `sled::Error`, what an operation of the engine fails with.
#[verifier::external_type_specification]
#[verifier::external_body]
pub struct ExError(sled::Error);

/// The directory of a database.
pub uninterp spec fn db_path(db: sled::Db) -> Seq<char>;

/// The most bytes that the cache of a database may take.
pub uninterp spec fn db_cache_limit(db: sled::Db) -> nat;

/// The milliseconds between two background flushes of a database.
pub uninterp spec fn db_flush_interval(db: sled::Db) -> nat;

/// The names of the trees that have been handed out of a database.
pub uninterp spec fn db_handed_out(db: sled::Db) -> Set<Seq<char>>;

/// The directory of the database that a tree belongs to, and the tree's name.
pub uninterp spec fn tree_origin(tree: sled::Tree) -> (Seq<char>, Seq<char>);

/// The entries of a tree.
pub uninterp spec fn tree_contents(tree: sled::Tree) -> Map<Seq<u8>, Seq<u8>>;

/// The entries that a tree had on disk as of the last sync through its handle.
pub uninterp spec fn tree_durable(tree: sled::Tree) -> Map<Seq<u8>, Seq<u8>>;

/// The entries that a walk has yet to hand out.
pub uninterp spec fn scan_rest(scan: Scan<'_>) -> Seq<(Seq<u8>, Seq<u8>)>;

/// The contents of an empty tree.
pub open spec fn no_entries() -> Map<Seq<u8>, Seq<u8>> {
    Map::empty()
}

/// The map is finite and has no more than `n` entries.
pub open spec fn at_most(map: Map<Seq<u8>, Seq<u8>>, n: nat) -> bool {
    map.dom().finite() && map.len() <= n
}

/// `entries` lists the map once each, in the order of the keys.
pub open spec fn enumerates(
    entries: Seq<(Seq<u8>, Seq<u8>)>,
    map: Map<Seq<u8>, Seq<u8>>,
) -> bool {
    &&& forall|i: int, j: int|
        0 <= i < j < entries.len() ==> before(#[trigger] entries[i].0, #[trigger] entries[j].0)
    &&& forall|i: int|
        0 <= i < entries.len() ==> map.contains_key((#[trigger] entries[i]).0)
            && map[entries[i].0] == entries[i].1
    &&& forall|k: Seq<u8>| #[trigger]
        map.contains_key(k) ==> exists|i: int|
            0 <= i < entries.len() && (#[trigger] entries[i]).0 == k
}

/// `sled::Config::open`, on a configuration with the given directory, cache
/// size and flush interval. The cache may be cut down to the memory that the
/// machine allows. Whether the database opens, and what it holds, rests on the
/// disk. Of an open database no tree has been handed out. The engine panics on
/// a cache of fewer than 256 bytes.
#[verifier::external_body]
pub(crate) fn open_db(path: &str, cache_capacity: u64, flush_every_ms: u64) -> (r: Result<
    sled::Db,
    sled::Error,
>)
    requires
        cache_capacity >= 256,
    ensures
        r matches Ok(db) ==> db_path(db) == path@,
        r matches Ok(db) ==> db_cache_limit(db) <= cache_capacity,
        r matches Ok(db) ==> db_flush_interval(db) == flush_every_ms,
        r matches Ok(db) ==> db_handed_out(db) == Set::<Seq<char>>::empty(),
{
    sled::Config::new()
        .path(path)
        .cache_capacity(cache_capacity)
        .flush_every_ms(Some(flush_every_ms))
        .open()
}

/// `sled::Db::open_tree`: the tree of that name, made empty where there is
/// none. What it holds rests on the disk. A name that has been handed out
/// already would give a second handle to the same tree.
#[verifier::external_body]
pub(crate) fn open_tree(db: &mut sled::Db, name: &str) -> (r: Result<sled::Tree, sled::Error>)
    requires
        !db_handed_out(*old(db)).contains(name@),
    ensures
        db_path(*final(db)) == db_path(*old(db)),
        db_cache_limit(*final(db)) == db_cache_limit(*old(db)),
        db_flush_interval(*final(db)) == db_flush_interval(*old(db)),
        db_handed_out(*final(db)) == db_handed_out(*old(db)).insert(name@),
        r matches Ok(tree) ==> tree_origin(tree) == (db_path(*old(db)), name@),
{
    db.open_tree(name)
}

/// `sled::Tree::insert`: binds the key to the value. A failure leaves the tree
/// as it was or with the new entry, and touches no other key.
#[verifier::external_body]
pub(crate) fn tree_insert(tree: &mut sled::Tree, key: &[u8], value: &[u8]) -> (r: Result<
    (),
    sled::Error,
>)
    ensures
        tree_origin(*final(tree)) == tree_origin(*old(tree)),
        r is Ok ==> tree_contents(*final(tree)) == tree_contents(*old(tree)).insert(key@, value@),
        r is Err ==> tree_contents(*final(tree)) == tree_contents(*old(tree)) || tree_contents(
            *final(tree),
        ) == tree_contents(*old(tree)).insert(key@, value@),
{
    tree.insert(key, value).map(|_previous| ())
}

/// `sled::Tree::remove`: takes the key out and says whether it was there. A
/// failure leaves the tree as it was or without the key, and touches no other
/// key.
#[verifier::external_body]
pub(crate) fn tree_remove(tree: &mut sled::Tree, key: &[u8]) -> (r: Result<
    Option<Vec<u8>>,
    sled::Error,
>)
    ensures
        tree_origin(*final(tree)) == tree_origin(*old(tree)),
        r matches Ok(previous) ==> {
            &&& tree_contents(*final(tree)) == tree_contents(*old(tree)).remove(key@)
            &&& previous is Some <==> tree_contents(*old(tree)).contains_key(key@)
            &&& previous matches Some(value) ==> value@ == tree_contents(*old(tree))[key@]
        },
        r is Err ==> tree_contents(*final(tree)) == tree_contents(*old(tree)) || tree_contents(
            *final(tree),
        ) == tree_contents(*old(tree)).remove(key@),
{
    tree.remove(key).map(|previous| previous.map(|value| value.to_vec()))
}

/// `sled::Tree::contains_key`.
#[verifier::external_body]
pub(crate) fn tree_contains_key(tree: &sled::Tree, key: &[u8]) -> (r: Result<bool, sled::Error>)
    ensures
        r matches Ok(found) ==> found == tree_contents(*tree).contains_key(key@),
{
    tree.contains_key(key)
}

/// `sled::Tree::clear`: removes every entry, one by one. A failure leaves some
/// of the entries, and changes none of those.
#[verifier::external_body]
pub(crate) fn tree_clear(tree: &mut sled::Tree) -> (r: Result<(), sled::Error>)
    ensures
        tree_origin(*final(tree)) == tree_origin(*old(tree)),
        r is Ok ==> tree_contents(*final(tree)) == no_entries(),
        r is Err ==> tree_contents(*final(tree)).submap_of(tree_contents(*old(tree))),
{
    tree.clear()
}

/// `sled::Tree::flush`: writes out and syncs the database that the tree
/// belongs to. Once it has succeeded, every write made before it survives a
/// crash. What the tree holds stays the same, also where it fails.
#[verifier::external_body]
pub(crate) fn tree_flush(tree: &mut sled::Tree) -> (r: Result<usize, sled::Error>)
    ensures
        tree_origin(*final(tree)) == tree_origin(*old(tree)),
        tree_contents(*final(tree)) == tree_contents(*old(tree)),
        r is Ok ==> tree_durable(*final(tree)) == tree_contents(*old(tree)),
{
    tree.flush()
}

/// A walk over the entries of a tree: a `sled::Iter`, which reads the tree as
/// it goes. It borrows the tree, so that the tree cannot change meanwhile.
#[verifier::external_body]
pub struct Scan<'a> {
    iter: sled::Iter,
    #[allow(dead_code)]
    tree: &'a sled::Tree,
}

/// `sled::Tree::iter`: a walk over all entries, in the order of the keys.
#[verifier::external_body]
pub(crate) fn tree_scan<'a>(tree: &'a sled::Tree) -> (scan: Scan<'a>)
    ensures
        enumerates(scan_rest(scan), tree_contents(*tree)),
{
    Scan { iter: tree.iter(), tree }
}

/// `<sled::Iter as Iterator>::next`: the next entry, where one is left. A read
/// that fails passes over no entry.
#[verifier::external_body]
pub(crate) fn scan_next(scan: &mut Scan<'_>) -> (r: Option<
    Result<(Vec<u8>, Vec<u8>), sled::Error>,
>)
    ensures
        match r {
            None => scan_rest(*old(scan)).len() == 0 && scan_rest(*final(scan)) == scan_rest(
                *old(scan),
            ),
            Some(Ok((key, value))) => {
                &&& scan_rest(*old(scan)).len() > 0
                &&& scan_rest(*old(scan))[0] == (key@, value@)
                &&& scan_rest(*final(scan)) == scan_rest(*old(scan)).skip(1)
            },
            Some(Err(_)) => scan_rest(*final(scan)) == scan_rest(*old(scan)),
        },
{
    scan.iter.next().map(|r| r.map(|(key, value)| (key.to_vec(), value.to_vec())))
}

} // verus!
