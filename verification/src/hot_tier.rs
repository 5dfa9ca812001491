//! The hot tier: a size-bounded in-memory cache of pieces.
//!
//! `moka::sync::Cache` keeps the entries and decides what to evict. It runs its
//! maintenance on the calling thread only, and the cache handle never leaves the
//! struct that owns it, so each call is described by what it does to the handle.

use bytes::Bytes;
use crate::payload;
use std::sync::mpsc::Receiver;
use std::sync::mpsc::SyncSender;
use std::sync::mpsc::TrySendError;
use std::sync::Arc;
use vstd::prelude::*;

verus! {

/// Lower-case info hash and piece index.
pub type PieceKey = (String, i32);

/// `moka::sync::Cache`, a concurrent cache bounded by total weight.
#[verifier::external_type_specification]
#[verifier::external_body]
#[verifier::reject_recursive_types(K)]
#[verifier::reject_recursive_types(V)]
#[verifier::reject_recursive_types(S)]
pub struct ExCache<K, V, S>(moka::sync::Cache<K, V, S>);

/// `std::sync::mpsc::SyncSender`, the sending half of a bounded channel.
#[verifier::external_type_specification]
#[verifier::external_body]
#[verifier::reject_recursive_types(T)]
pub struct ExSyncSender<T>(std::sync::mpsc::SyncSender<T>);

/// `std::sync::mpsc::Receiver`, the receiving half of a channel.
#[verifier::external_type_specification]
#[verifier::external_body]
#[verifier::reject_recursive_types(T)]
pub struct ExReceiver<T>(std::sync::mpsc::Receiver<T>);

/// A piece that left the hot tier and is on its way to the warm tier.
pub struct EvictedPiece {
    pub info_hash: String,
    pub piece_idx: i32,
    pub data: Bytes,
}

/// The number of pieces that a queue holds before it takes no more.
pub uninterp spec fn queue_slots(tx: SyncSender<EvictedPiece>) -> usize;

/// The sending half that was made together with a receiving half.
pub uninterp spec fn queue_sender(rx: Receiver<EvictedPiece>) -> SyncSender<EvictedPiece>;

/// The queue to which the cache hands what it evicts.
pub uninterp spec fn hot_outlet(c: moka::sync::Cache<(String, i32), Bytes>) -> SyncSender<
    EvictedPiece,
>;

/// The entries that a lookup can see.
pub uninterp spec fn hot_entries(c: moka::sync::Cache<(String, i32), Bytes>) -> Map<
    (Seq<char>, i32),
    Seq<u8>,
>;

/// What was asked of the cache since it was built, oldest first: `(hash,
/// Some((idx, data)))` for an insertion, `(hash, None)` for the removal of a
/// whole torrent.
pub uninterp spec fn hot_history(c: moka::sync::Cache<(String, i32), Bytes>) -> Seq<
    (Seq<char>, Option<(i32, Seq<u8>)>),
>;

/// What the cache handed to its eviction listener, oldest first: hash, index and
/// contents of each entry that left its table.
pub uninterp spec fn hot_handed(c: moka::sync::Cache<(String, i32), Bytes>) -> Seq<
    (Seq<char>, i32, Seq<u8>),
>;

/// The total weight that the cache was built for.
pub uninterp spec fn hot_limit(c: moka::sync::Cache<(String, i32), Bytes>) -> u64;

/// The number of entries as the cache last counted them.
pub uninterp spec fn hot_entry_count(c: moka::sync::Cache<(String, i32), Bytes>) -> u64;

/// The total weight of the entries as the cache last counted it.
pub uninterp spec fn hot_weighted_size(c: moka::sync::Cache<(String, i32), Bytes>) -> u64;

/// The weight of a payload: its length, capped to what 32 bits hold.
pub open spec fn weight(data: Seq<u8>) -> int {
    if data.len() <= u32::MAX {
        data.len() as int
    } else {
        u32::MAX as int
    }
}

/// The weight of everything ever inserted.
pub open spec fn inserted_weight(h: Seq<(Seq<char>, Option<(i32, Seq<u8>)>)>) -> int
    decreases h.len(),
{
    if h.len() == 0 {
        0
    } else {
        inserted_weight(h.drop_last()) + match h.last().1 {
            Some(p) => weight(p.1),
            None => 0,
        }
    }
}

/// The torrent was removed at some time.
pub open spec fn was_purged(
    h: Seq<(Seq<char>, Option<(i32, Seq<u8>)>)>,
    hash: Seq<char>,
) -> bool {
    h.contains((hash, None))
}

/// The entries of all torrents but one.
pub open spec fn without_torrent(
    m: Map<(Seq<char>, i32), Seq<u8>>,
    hash: Seq<char>,
) -> Map<(Seq<char>, i32), Seq<u8>> {
    Map::new(|k: (Seq<char>, i32)| m.contains_key(k) && k.0 != hash, |k: (Seq<char>, i32)| m[k])
}

/// What was last inserted under a key.
pub open spec fn last_put(
    h: Seq<(Seq<char>, Option<(i32, Seq<u8>)>)>,
    k: (Seq<char>, i32),
) -> Option<Seq<u8>>
    decreases h.len(),
{
    if h.len() == 0 {
        None
    } else {
        match h.last().1 {
            Some(p) => if (h.last().0, p.0) == k {
                Some(p.1)
            } else {
                last_put(h.drop_last(), k)
            },
            None => last_put(h.drop_last(), k),
        }
    }
}

/// The contents were inserted under the key at some time.
pub open spec fn was_put(
    h: Seq<(Seq<char>, Option<(i32, Seq<u8>)>)>,
    k: (Seq<char>, i32),
    data: Seq<u8>,
) -> bool {
    h.contains((k.0, Some((k.1, data))))
}

/// Every entry holds what was last inserted under its key.
pub open spec fn all_latest(
    m: Map<(Seq<char>, i32), Seq<u8>>,
    h: Seq<(Seq<char>, Option<(i32, Seq<u8>)>)>,
) -> bool {
    forall|k: (Seq<char>, i32)| #[trigger] m.contains_key(k) ==> last_put(h, k) == Some(m[k])
}

/// Whatever is seen after was seen before, but for entries of torrents that were
/// removed at some time.
pub open spec fn no_strangers(
    before: Map<(Seq<char>, i32), Seq<u8>>,
    after: Map<(Seq<char>, i32), Seq<u8>>,
    h: Seq<(Seq<char>, Option<(i32, Seq<u8>)>)>,
) -> bool {
    forall|k: (Seq<char>, i32)| #[trigger]
        after.contains_key(k) ==> before.contains_key(k) || was_purged(h, k.0)
}

/// What was last handed to the listener under a key.
pub open spec fn last_handed(s: Seq<(Seq<char>, i32, Seq<u8>)>, k: (Seq<char>, i32)) -> Option<
    Seq<u8>,
>
    decreases s.len(),
{
    if s.len() == 0 {
        None
    } else if (s.last().0, s.last().1) == k {
        Some(s.last().2)
    } else {
        last_handed(s.drop_last(), k)
    }
}

/// Every entry that is gone was handed to the listener, and nothing under its key
/// after it.
pub open spec fn handed_on(
    before: Map<(Seq<char>, i32), Seq<u8>>,
    after: Map<(Seq<char>, i32), Seq<u8>>,
    handed: Seq<(Seq<char>, i32, Seq<u8>)>,
) -> bool {
    forall|k: (Seq<char>, i32)| #[trigger]
        before.contains_key(k) && !after.contains_key(k) ==> last_handed(handed, k) == Some(
            before[k],
        )
}

/// The entry was seen with this data.
pub open spec fn was_seen(
    m: Map<(Seq<char>, i32), Seq<u8>>,
    item: (Seq<char>, i32, Seq<u8>),
) -> bool {
    m.contains_key((item.0, item.1)) && m[(item.0, item.1)] == item.2
}

/// Only entries that were seen are handed to the listener, or that became part of
/// the cache with the call, or that were hidden with their torrent.
pub open spec fn handed_from(
    before: Map<(Seq<char>, i32), Seq<u8>>,
    taken: Map<(Seq<char>, i32), Seq<u8>>,
    h: Seq<(Seq<char>, Option<(i32, Seq<u8>)>)>,
    handed: Seq<(Seq<char>, i32, Seq<u8>)>,
) -> bool {
    forall|j: int|
        0 <= j < handed.len() ==> {
            ||| was_seen(before, #[trigger] handed[j])
            ||| was_seen(taken, handed[j])
            ||| (was_purged(h, handed[j].0) && was_put(
                h,
                (handed[j].0, handed[j].1),
                handed[j].2,
            ))
        }
}

/// What was handed to the listener by a call.
pub open spec fn newly_handed(
    before: Seq<(Seq<char>, i32, Seq<u8>)>,
    after: Seq<(Seq<char>, i32, Seq<u8>)>,
) -> Seq<(Seq<char>, i32, Seq<u8>)> {
    after.skip(before.len() as int)
}

/// Number of insertions.
pub open spec fn insertions(h: Seq<(Seq<char>, Option<(i32, Seq<u8>)>)>) -> nat
    decreases h.len(),
{
    if h.len() == 0 {
        0
    } else {
        insertions(h.drop_last()) + match h.last().1 {
            Some(_) => 1nat,
            None => 0nat,
        }
    }
}

/// The key of an insertion.
pub open spec fn key_put(e: (Seq<char>, Option<(i32, Seq<u8>)>)) -> (Seq<char>, i32) {
    match e.1 {
        Some(p) => (e.0, p.0),
        None => (e.0, 0),
    }
}

/// Number of different keys that were inserted.
pub open spec fn distinct_keys(h: Seq<(Seq<char>, Option<(i32, Seq<u8>)>)>) -> nat
    decreases h.len(),
{
    if h.len() == 0 {
        0
    } else if h.last().1 is Some && last_put(h.drop_last(), key_put(h.last())) is None {
        distinct_keys(h.drop_last()) + 1
    } else {
        distinct_keys(h.drop_last())
    }
}

/// How often a key was inserted.
pub open spec fn times_put(
    h: Seq<(Seq<char>, Option<(i32, Seq<u8>)>)>,
    k: (Seq<char>, i32),
) -> nat
    decreases h.len(),
{
    if h.len() == 0 {
        0
    } else if h.last().1 is Some && key_put(h.last()) == k {
        times_put(h.drop_last(), k) + 1
    } else {
        times_put(h.drop_last(), k)
    }
}

/// No torrent was removed.
pub open spec fn never_purged(h: Seq<(Seq<char>, Option<(i32, Seq<u8>)>)>) -> bool {
    forall|i: int| 0 <= i < h.len() ==> (#[trigger] h[i]).1 is Some
}

/// The operation inserts under a key that was inserted before.
pub open spec fn puts_again(h: Seq<(Seq<char>, Option<(i32, Seq<u8>)>)>, j: int) -> bool {
    h[j].1 is Some && last_put(h.take(j), key_put(h[j])) is Some
}

/// One search of the cache through its table comes past every entry: it takes 384
/// entries, and it skips those whose generation, a 16-bit counter of overwritings,
/// is ahead of what the cache has worked off.
pub open spec fn searchable(h: Seq<(Seq<char>, Option<(i32, Seq<u8>)>)>) -> bool {
    &&& distinct_keys(h) <= 384
    &&& forall|k: (Seq<char>, i32)| #[trigger] times_put(h, k) <= 32767
}

/// The cache may not have searched its table since the removal at `m`: it does so in
/// its next maintenance, which comes with the 65th insertion at the latest.
pub open spec fn unsearched(
    h: Seq<(Seq<char>, Option<(i32, Seq<u8>)>)>,
    m: int,
    n: int,
) -> bool {
    insertions(h.subrange(m, n)) <= 64
}

/// The search for the entries that the removal at `m` hides comes past all of them,
/// and no entry is being overwritten meanwhile.
pub open spec fn carried_out(h: Seq<(Seq<char>, Option<(i32, Seq<u8>)>)>, m: int) -> bool {
    forall|n: int|
        m < n <= h.len() && #[trigger] unsearched(h, m, n) ==> {
            &&& searchable(h.take(n))
            &&& n < h.len() ==> !puts_again(h, n)
        }
}

/// What a removal hides stays hidden. The cache searches its table for the entries
/// of removed torrents and then forgets about the removals; an entry that the
/// search passes over is seen again.
pub open spec fn stays_hidden(h: Seq<(Seq<char>, Option<(i32, Seq<u8>)>)>) -> bool {
    forall|m: int| 0 <= m < h.len() && (#[trigger] h[m]).1 is None ==> carried_out(h, m)
}

/// The weight of some entries together.
pub open spec fn total_weight(m: Map<(Seq<char>, i32), Seq<u8>>) -> int
    decreases m.dom().len(),
{
    if m.dom().finite() && m.dom().len() > 0 {
        let k = m.dom().choose();
        weight(m[k]) + total_weight(m.remove(k))
    } else {
        0
    }
}

/// The weight of the last `n` insertions.
pub open spec fn recent_weight(h: Seq<(Seq<char>, Option<(i32, Seq<u8>)>)>, n: nat) -> int
    decreases h.len(),
{
    if h.len() == 0 || n == 0 {
        0
    } else {
        match h.last().1 {
            Some(p) => weight(p.1) + recent_weight(h.drop_last(), (n - 1) as nat),
            None => recent_weight(h.drop_last(), n),
        }
    }
}

/// The weight of an insertion.
pub open spec fn weight_put(e: (Seq<char>, Option<(i32, Seq<u8>)>)) -> int {
    match e.1 {
        Some(p) => weight(p.1),
        None => 0,
    }
}

/// What is inserted under a key again is no heavier than before.
pub open spec fn never_grows(h: Seq<(Seq<char>, Option<(i32, Seq<u8>)>)>) -> bool {
    forall|i: int, j: int|
        0 <= i < j < h.len() && (#[trigger] h[i]).1 is Some && (#[trigger] h[j]).1 is Some
            && key_put(h[i]) == key_put(h[j]) ==> weight_put(h[j]) <= weight_put(h[i])
}

/// The entries weigh no more than the limit and the last 64 insertions together,
/// unless an entry was overwritten with a heavier one.
pub open spec fn within_bounds(
    m: Map<(Seq<char>, i32), Seq<u8>>,
    limit: u64,
    h: Seq<(Seq<char>, Option<(i32, Seq<u8>)>)>,
) -> bool {
    never_grows(h) ==> total_weight(m) <= limit + recent_weight(h, 64)
}

/// Everything ever inserted fits at once, so that nothing is evicted for size.
pub open spec fn never_full(limit: u64, h: Seq<(Seq<char>, Option<(i32, Seq<u8>)>)>) -> bool {
    0 < limit && inserted_weight(h) <= limit
}

/// What the weigher of the cache returns for an entry.
pub fn piece_weight(data: &Bytes) -> (w: u32)
    ensures
        w == weight(payload::content(*data)),
{
    let n: usize = payload::bytes_len(data);
    if n as u64 <= u32::MAX as u64 {
        n as u32
    } else {
        u32::MAX
    }
}

/// The message that stands for an entry that left the cache.
pub fn evicted_piece(key: &PieceKey, data: Bytes) -> (e: EvictedPiece)
    ensures
        e.info_hash@ == key.0@,
        e.piece_idx == key.1,
        e.data == data,
{
    EvictedPiece { info_hash: key.0.clone(), piece_idx: key.1, data }
}

/// Calls `std::sync::mpsc::sync_channel`: the two halves of a new queue that holds
/// at most `slots` pieces.
#[verifier::external_body]
pub(crate) fn eviction_queue(slots: usize) -> (r: (SyncSender<EvictedPiece>, Receiver<EvictedPiece>))
    ensures
        queue_slots(r.0) == slots,
        queue_sender(r.1) == r.0,
{
    std::sync::mpsc::sync_channel(slots)
}

/// The receipt of an offer to a queue: what `SyncSender::try_send` answered. Only
/// the call itself makes one.
#[verifier::external_body]
pub struct Offered {
    outcome: Result<(), TrySendError<EvictedPiece>>,
}

/// The queue that was offered a piece.
pub uninterp spec fn offered_to(o: Offered) -> SyncSender<EvictedPiece>;

/// The piece that was offered: hash, index and contents.
pub uninterp spec fn offered_piece(o: Offered) -> (Seq<char>, i32, Seq<u8>);

/// Calls `SyncSender::try_send`: offers the piece to the queue without blocking. A
/// queue that is full, or that has no receiver left, does not take it; whether it
/// does depends on the receiving thread.
#[verifier::external_body]
fn offer(tx: &SyncSender<EvictedPiece>, piece: EvictedPiece) -> (o: Offered)
    ensures
        offered_to(o) == *tx,
        offered_piece(o) == (piece.info_hash@, piece.piece_idx, payload::content(piece.data)),
{
    Offered { outcome: tx.try_send(piece) }
}

/// What the eviction listener of the cache does: it offers the entry to the drain
/// task. An entry that the queue does not take is dropped, and the piece stays in
/// the backend's memory.
fn forward_evicted(tx: &SyncSender<EvictedPiece>, key: &PieceKey, data: Bytes) -> (o: Offered)
    ensures
        offered_to(o) == *tx,
        offered_piece(o) == (key.0@, key.1, payload::content(data)),
{
    offer(tx, evicted_piece(key, data))
}

/// Whether an entry belongs to the torrent `info_hash`.
pub fn is_of_torrent(key: &PieceKey, info_hash: &String) -> (r: bool)
    ensures
        r == (key.0@ == info_hash@),
{
    key.0 == *info_hash
}

/// Calls `Cache::builder` with `piece_weight` as the weigher, `max_hot_bytes` as
/// the maximum capacity, invalidation closures enabled and `forward_evicted` as
/// the eviction listener, then `CacheBuilder::build`: an empty cache with that
/// limit and that outlet. When the listener runs, and for which entries, is left to the cache.
#[verifier::external_body]
pub(crate) fn hot_build(max_hot_bytes: u64, tx: SyncSender<EvictedPiece>) -> (c:
    moka::sync::Cache<(String, i32), Bytes>)
    ensures
        hot_entries(c).is_empty(),
        hot_history(c).len() == 0,
        hot_handed(c).len() == 0,
        hot_limit(c) == max_hot_bytes,
        hot_outlet(c) == tx,
{
    moka::sync::Cache::builder()
        .weigher(|_key: &PieceKey, data: &Bytes| piece_weight(data))
        .max_capacity(max_hot_bytes)
        .support_invalidation_closures()
        .eviction_listener(move |key: Arc<PieceKey>, data: Bytes, _cause| {
            let _ = forward_evicted(&tx, &key, data);
        })
        .build()
}

/// Calls `Cache::insert`. The new entry replaces one with the same key, which is
/// handed to the eviction listener; the maintenance that the call may run evicts
/// entries, the new one among them, and hands each of them to the listener. Entries
/// hold what was last inserted under their key. An entry of a removed torrent can
/// be seen again, unless the history is one with which removals stay hidden. As
/// long as everything ever inserted fits into the cache nothing is evicted, and the
/// new entry is seen at once unless its torrent was removed earlier (the removal
/// hides what was inserted in the same instant of the cache's clock). What the
/// cache has worked off weighs no more than its limit, and at most 64 insertions
/// wait to be worked off; an entry that was overwritten with a heavier one can
/// exceed that for as long as the cache, which bounds the time of its maintenance,
/// has not evicted enough.
#[verifier::external_body]
pub(crate) fn hot_insert(
    c: &mut moka::sync::Cache<(String, i32), Bytes>,
    key: PieceKey,
    data: Bytes,
)
    ensures
        hot_history(*final(c)) == hot_history(*old(c)).push(
            (key.0@, Some((key.1, payload::content(data)))),
        ),
        hot_limit(*final(c)) == hot_limit(*old(c)),
        hot_outlet(*final(c)) == hot_outlet(*old(c)),
        all_latest(hot_entries(*final(c)), hot_history(*final(c))),
        within_bounds(hot_entries(*final(c)), hot_limit(*final(c)), hot_history(*final(c))),
        no_strangers(
            hot_entries(*old(c)).insert((key.0@, key.1), payload::content(data)),
            hot_entries(*final(c)),
            hot_history(*old(c)),
        ),
        stays_hidden(hot_history(*final(c))) ==> hot_entries(*final(c)).submap_of(
            hot_entries(*old(c)).insert((key.0@, key.1), payload::content(data)),
        ),
        never_full(hot_limit(*final(c)), hot_history(*final(c))) && stays_hidden(
            hot_history(*final(c)),
        ) && !was_purged(hot_history(*old(c)), key.0@) ==> hot_entries(*final(c)) == hot_entries(
            *old(c),
        ).insert((key.0@, key.1), payload::content(data)),
        hot_handed(*old(c)).is_prefix_of(hot_handed(*final(c))),
        handed_on(
            hot_entries(*old(c)).remove((key.0@, key.1)),
            hot_entries(*final(c)),
            newly_handed(hot_handed(*old(c)), hot_handed(*final(c))),
        ),
        hot_entries(*old(c)).contains_key((key.0@, key.1)) ==> newly_handed(
            hot_handed(*old(c)),
            hot_handed(*final(c)),
        ).contains((key.0@, key.1, hot_entries(*old(c))[(key.0@, key.1)])),
        0 < hot_limit(*old(c)) && !was_purged(hot_history(*old(c)), key.0@) && !hot_entries(
            *final(c),
        ).contains_key((key.0@, key.1)) ==> last_handed(
            newly_handed(hot_handed(*old(c)), hot_handed(*final(c))),
            (key.0@, key.1),
        ) == Some(payload::content(data)),
        handed_from(
            hot_entries(*old(c)),
            hot_entries(*old(c)).insert((key.0@, key.1), payload::content(data)),
            hot_history(*old(c)),
            newly_handed(hot_handed(*old(c)), hot_handed(*final(c))),
        ),
{
    c.insert(key, data);
}

/// Calls `Cache::get`: a clone of the value seen under the key. The maintenance
/// that the call may run evicts entries, unless everything ever inserted fits, and
/// hands each of them to the eviction listener. An entry of a removed torrent can
/// be seen again afterwards, unless the history is one with which removals stay
/// hidden. The bound on the weight of the entries holds as after an insertion.
#[verifier::external_body]
pub(crate) fn hot_get(c: &mut moka::sync::Cache<(String, i32), Bytes>, key: &PieceKey) -> (r:
    Option<Bytes>)
    ensures
        match r {
            Some(data) => hot_entries(*old(c)).contains_key((key.0@, key.1)) && payload::content(data)
                == hot_entries(*old(c))[(key.0@, key.1)],
            None => !hot_entries(*old(c)).contains_key((key.0@, key.1)),
        },
        hot_history(*final(c)) == hot_history(*old(c)),
        hot_limit(*final(c)) == hot_limit(*old(c)),
        hot_outlet(*final(c)) == hot_outlet(*old(c)),
        all_latest(hot_entries(*final(c)), hot_history(*final(c))),
        within_bounds(hot_entries(*final(c)), hot_limit(*final(c)), hot_history(*final(c))),
        no_strangers(hot_entries(*old(c)), hot_entries(*final(c)), hot_history(*old(c))),
        stays_hidden(hot_history(*final(c))) ==> hot_entries(*final(c)).submap_of(
            hot_entries(*old(c)),
        ),
        never_full(hot_limit(*final(c)), hot_history(*final(c))) && stays_hidden(
            hot_history(*final(c)),
        ) ==> hot_entries(*final(c)) == hot_entries(*old(c)),
        hot_handed(*old(c)).is_prefix_of(hot_handed(*final(c))),
        handed_on(
            hot_entries(*old(c)),
            hot_entries(*final(c)),
            newly_handed(hot_handed(*old(c)), hot_handed(*final(c))),
        ),
        handed_from(
            hot_entries(*old(c)),
            hot_entries(*old(c)),
            hot_history(*old(c)),
            newly_handed(hot_handed(*old(c)), hot_handed(*final(c))),
        ),
{
    c.get(key)
}

/// Calls `Cache::contains_key`: whether a value is seen under the key. The call
/// counts as no access and runs no maintenance.
#[verifier::external_body]
pub(crate) fn hot_contains(c: &moka::sync::Cache<(String, i32), Bytes>, key: &PieceKey) -> (r: bool)
    ensures
        r == hot_entries(*c).contains_key((key.0@, key.1)),
{
    c.contains_key(key)
}

/// Calls `Cache::invalidate_entries_if` with `is_of_torrent`: after the call no
/// lookup sees an entry of the torrent, and the entries of other torrents stay. The
/// call runs no maintenance.
#[verifier::external_body]
pub(crate) fn hot_purge(c: &mut moka::sync::Cache<(String, i32), Bytes>, info_hash: String)
    ensures
        hot_history(*final(c)) == hot_history(*old(c)).push((info_hash@, None)),
        hot_handed(*final(c)) == hot_handed(*old(c)),
        hot_limit(*final(c)) == hot_limit(*old(c)),
        hot_outlet(*final(c)) == hot_outlet(*old(c)),
        hot_entries(*final(c)) == without_torrent(hot_entries(*old(c)), info_hash@),
{
    let _ = c.invalidate_entries_if(move |key, _data| is_of_torrent(key, &info_hash));
}

/// Calls `Cache::entry_count`: the count that the last maintenance left.
#[verifier::external_body]
pub(crate) fn hot_count(c: &moka::sync::Cache<(String, i32), Bytes>) -> (n: u64)
    ensures
        n == hot_entry_count(*c),
{
    c.entry_count()
}

/// Calls `Cache::weighted_size`: the total weight that the last maintenance left.
#[verifier::external_body]
pub(crate) fn hot_weight(c: &moka::sync::Cache<(String, i32), Bytes>) -> (n: u64)
    ensures
        n == hot_weighted_size(*c),
{
    c.weighted_size()
}

} // verus!
