//! The two-tier piece cache: a bounded hot tier in memory over the warm tier on
//! disk.
//!
//! A piece enters through `put`. When the hot tier evicts it, it travels through a
//! bounded queue to the drain, which writes it to the warm tier and then frees the
//! backend's copy. A lookup asks the hot tier first and the warm tier second.

use bytes::Bytes;
use crate::hot_laws;
use crate::hot_tier;
use crate::hot_tier::EvictedPiece;
use crate::hot_tier::PieceKey;
use crate::info_hash;
use crate::paths;
use crate::payload;
use crate::pins;
use crate::pins::PinCounts;
use crate::warm;
use crate::warm::ReadPlan;
use crate::warm::WarmModel;
use crate::warm::WarmTier;
use crate::warm::WriteEvent;
use crate::warm::WriteJob;
use crate::warm::WriteStep;
use std::sync::mpsc::Receiver;
use vstd::prelude::*;

verus! {

/// Slots of the queue between the hot tier and the drain.
pub const EVICTION_QUEUE_SLOTS: usize = 4096;

/// Hot tier size unless configured otherwise: 512 MiB.
pub const DEFAULT_MAX_HOT_BYTES: u64 = 536_870_912;

/// Configuration of a [`HybridPieceCache`].
#[derive(Debug, Clone)]
pub struct HybridCacheConfig {
    /// Maximum total bytes to keep in the hot tier across all torrents.
    pub max_hot_bytes: u64,
    /// Root directory of the warm tier's flat files.
    pub warm_dir: String,
}

impl HybridCacheConfig {
    /// The default configuration, with the warm tier in a directory for temporary
    /// files.
    pub fn default_in(temp_dir: &str) -> (r: HybridCacheConfig)
        ensures
            r.max_hot_bytes == DEFAULT_MAX_HOT_BYTES,
            r.warm_dir@ == paths::joined(temp_dir@, "stremio_warm_cache"@),
    {
        HybridCacheConfig {
            max_hot_bytes: DEFAULT_MAX_HOT_BYTES,
            warm_dir: paths::join(temp_dir, "stremio_warm_cache"),
        }
    }
}

/// The state of the cache.
pub struct CacheModel {
    /// What a lookup in the hot tier can see.
    pub hot: Map<(Seq<char>, i32), Seq<u8>>,
    /// Insertions and removals since the cache was created.
    pub history: Seq<(Seq<char>, Option<(i32, Seq<u8>)>)>,
    /// What left the hot tier and was offered to the drain, oldest first.
    pub handed: Seq<(Seq<char>, i32, Seq<u8>)>,
    /// Size of the hot tier.
    pub limit: u64,
    pub warm: WarmModel,
    pub pins: Map<(Seq<char>, i32), u32>,
}

/// Where a lookup finds a piece.
pub enum Found {
    Hot(Seq<u8>),
    Warm { hash: Seq<char>, offset: int, len: int },
    Nowhere,
}

impl CacheModel {
    pub open spec fn key(info_hash: Seq<char>, piece_idx: i32) -> (Seq<char>, i32) {
        (info_hash::folded(info_hash), piece_idx)
    }

    /// Where a lookup finds the piece: the hot tier comes first.
    pub open spec fn found(self, info_hash: Seq<char>, piece_idx: i32) -> Found {
        let h = info_hash::folded(info_hash);
        let wh = info_hash::folded(h);
        if self.hot.contains_key((h, piece_idx)) {
            Found::Hot(self.hot[(h, piece_idx)])
        } else if self.warm.has(wh, piece_idx) {
            let (offset, len) = self.warm.region(wh, piece_idx);
            Found::Warm { hash: wh, offset, len }
        } else {
            Found::Nowhere
        }
    }

    /// Nothing that was inserted had to leave for lack of space.
    pub open spec fn never_full(self) -> bool {
        hot_tier::never_full(self.limit, self.history)
    }

    /// What was removed with its torrent does not come back.
    pub open spec fn stays_hidden(self) -> bool {
        hot_tier::stays_hidden(self.history)
    }

    /// What was last put under a key and is not in the hot tier was handed on, and
    /// nothing under that key after it. This holds of torrents that were never
    /// removed, and of a hot tier that holds anything at all.
    pub open spec fn nothing_is_lost(self) -> bool {
        0 < self.limit ==> forall|k: (Seq<char>, i32)|
            #![trigger hot_tier::last_put(self.history, k)]
            hot_tier::last_put(self.history, k) is Some && !hot_tier::was_purged(self.history, k.0)
                && !self.hot.contains_key(k) ==> hot_tier::last_handed(self.handed, k)
                == hot_tier::last_put(self.history, k)
    }

    /// The hot tier keeps to its size, but for the last 64 pieces put, as long as no
    /// piece is put again with more data.
    pub open spec fn is_bounded(self) -> bool {
        hot_tier::within_bounds(self.hot, self.limit, self.history)
    }

    /// What holds of every state of a cache.
    pub open spec fn valid(self) -> bool {
        &&& hot_tier::all_latest(self.hot, self.history)
        &&& self.nothing_is_lost()
        &&& self.is_bounded()
        &&& self.warm.valid()
        &&& pins::all_positive(self.pins)
    }

    /// What the hot tier handed on since an earlier state.
    pub open spec fn handed_since(self, earlier: CacheModel) -> Seq<(Seq<char>, i32, Seq<u8>)> {
        hot_tier::newly_handed(earlier.handed, self.handed)
    }

    /// `next` may follow when a piece is put. The hot tier takes it, hands on what
    /// it replaces, and may evict any entries, each of which it hands on. Nothing is
    /// evicted if everything fits. Entries of removed torrents may come back, unless
    /// the history is one with which removals stay hidden.
    pub open spec fn put_leads_to(
        self,
        info_hash: Seq<char>,
        piece_idx: i32,
        data: Seq<u8>,
        next: CacheModel,
    ) -> bool {
        let h = info_hash::folded(info_hash);
        let k = (h, piece_idx);
        let taken = self.hot.insert(k, data);
        let handed = next.handed_since(self);
        &&& next.history == self.history.push((h, Some((piece_idx, data))))
        &&& hot_tier::all_latest(next.hot, next.history)
        &&& next.is_bounded()
        &&& hot_tier::no_strangers(taken, next.hot, self.history)
        &&& next.stays_hidden() ==> next.hot.submap_of(taken)
        &&& next.never_full() && next.stays_hidden() && !hot_tier::was_purged(self.history, h)
            ==> next.hot == taken
        &&& self.handed.is_prefix_of(next.handed)
        &&& hot_tier::handed_on(self.hot.remove(k), next.hot, handed)
        &&& self.hot.contains_key(k) ==> handed.contains((h, piece_idx, self.hot[k]))
        &&& 0 < self.limit && !hot_tier::was_purged(self.history, h) && !next.hot.contains_key(k)
            ==> hot_tier::last_handed(handed, k) == Some(data)
        &&& hot_tier::handed_from(self.hot, taken, self.history, handed)
        &&& next.limit == self.limit
        &&& next.warm == self.warm
        &&& next.pins == self.pins
    }

    /// `next` may follow when a piece is looked up: the hot tier may evict entries,
    /// each of which it hands on, none if everything fits. Entries of removed
    /// torrents may come back, unless the history is one with which removals stay
    /// hidden.
    pub open spec fn get_leads_to(self, next: CacheModel) -> bool {
        let handed = next.handed_since(self);
        &&& next.history == self.history
        &&& hot_tier::all_latest(next.hot, next.history)
        &&& next.is_bounded()
        &&& hot_tier::no_strangers(self.hot, next.hot, self.history)
        &&& self.stays_hidden() ==> next.hot.submap_of(self.hot)
        &&& self.never_full() && self.stays_hidden() ==> next.hot == self.hot
        &&& self.handed.is_prefix_of(next.handed)
        &&& hot_tier::handed_on(self.hot, next.hot, handed)
        &&& hot_tier::handed_from(self.hot, self.hot, self.history, handed)
        &&& next.limit == self.limit
        &&& next.warm == self.warm
        &&& next.pins == self.pins
    }

    /// The cache without a torrent.
    pub open spec fn without(self, info_hash: Seq<char>) -> CacheModel {
        let h = info_hash::folded(info_hash);
        CacheModel {
            hot: hot_tier::without_torrent(self.hot, h),
            history: self.history.push((h, None)),
            warm: self.warm.without(h),
            ..self
        }
    }
}

/// A pin on a piece. It is handed back with [`HybridPieceCache::release`].
pub struct PiecePinGuard {
    key: PieceKey,
}

impl View for PiecePinGuard {
    type V = (Seq<char>, i32);

    closed spec fn view(&self) -> (Seq<char>, i32) {
        self.key@
    }
}

/// The answer to a lookup.
pub enum Lookup {
    /// The hot tier has the piece.
    Hot(Bytes),
    /// The warm tier has it; this is where to read it.
    Warm(ReadPlan),
    Nowhere,
}

impl Lookup {
    /// The answer stands for `f`.
    pub open spec fn stands_for(self, f: Found) -> bool {
        match (self, f) {
            (Lookup::Hot(data), Found::Hot(d)) => payload::content(data) == d,
            (Lookup::Warm(plan), Found::Warm { hash, offset, len }) => {
                &&& plan.info_hash@ == hash
                &&& plan.offset == offset
                &&& plan.len == len
            },
            (Lookup::Nowhere, Found::Nowhere) => true,
            _ => false,
        }
    }
}

/// Two-tier piece cache.
pub struct HybridPieceCache {
    hot: moka::sync::Cache<(String, i32), Bytes>,
    warm: WarmTier,
    pin_counts: PinCounts,
}

impl View for HybridPieceCache {
    type V = CacheModel;

    closed spec fn view(&self) -> CacheModel {
        CacheModel {
            hot: hot_tier::hot_entries(self.hot),
            history: hot_tier::hot_history(self.hot),
            handed: hot_tier::hot_handed(self.hot),
            limit: hot_tier::hot_limit(self.hot),
            warm: self.warm@,
            pins: self.pin_counts@,
        }
    }
}

impl HybridPieceCache {
    pub closed spec fn wf(self) -> bool {
        self.warm.wf() && self.pin_counts.wf() && self@.valid()
    }

    /// The root directory of the warm tier.
    pub closed spec fn root(self) -> Seq<char> {
        self.warm.root()
    }

    /// The queue that takes the evicted pieces.
    pub closed spec fn outlet(self) -> std::sync::mpsc::SyncSender<EvictedPiece> {
        hot_tier::hot_outlet(self.hot)
    }

    /// The hot tier's own count of its entries and of their weight.
    pub closed spec fn counters(self) -> (u64, u64) {
        (hot_tier::hot_entry_count(self.hot), hot_tier::hot_weighted_size(self.hot))
    }

    /// A well-formed cache has a valid model.
    pub proof fn wf_is_valid(self)
        requires
            self.wf(),
        ensures
            self@.valid(),
    {
    }

    /// Creates an empty cache, and the queue from which the drain receives the
    /// pieces that the hot tier evicts.
    pub fn new(config: HybridCacheConfig) -> (r: (HybridPieceCache, Receiver<EvictedPiece>))
        ensures
            r.0.wf(),
            r.0.root() == config.warm_dir@,
            r.0@.limit == config.max_hot_bytes,
            r.0@.hot == Map::<(Seq<char>, i32), Seq<u8>>::empty(),
            r.0@.history.len() == 0,
            r.0@.handed.len() == 0,
            r.0@.warm.lengths == Map::<Seq<char>, u64>::empty(),
            r.0@.warm.files == Map::<Seq<char>, warm::FileModel>::empty(),
            r.0@.pins == Map::<(Seq<char>, i32), u32>::empty(),
            r.0.outlet() == hot_tier::queue_sender(r.1),
            hot_tier::queue_slots(r.0.outlet()) == EVICTION_QUEUE_SLOTS,
    {
        let (tx, rx) = hot_tier::eviction_queue(EVICTION_QUEUE_SLOTS);
        let cache = HybridPieceCache {
            hot: hot_tier::hot_build(config.max_hot_bytes, tx),
            warm: WarmTier::new(config.warm_dir),
            pin_counts: PinCounts::new(),
        };
        proof {
            cache.warm.wf_is_valid();
            cache.pin_counts.wf_is_positive();
        }
        assert(cache@.hot =~= Map::<(Seq<char>, i32), Seq<u8>>::empty());
        (cache, rx)
    }

    /// Stores a piece in the hot tier.
    pub fn put(&mut self, info_hash: &str, piece_idx: i32, data: Bytes)
        requires
            old(self).wf(),
        ensures
            final(self).wf(),
            final(self).root() == old(self).root(),
            final(self).outlet() == old(self).outlet(),
            old(self)@.put_leads_to(info_hash@, piece_idx, payload::content(data), final(self)@),
    {
        let key = (info_hash::fold_hash(info_hash), piece_idx);
        hot_tier::hot_insert(&mut self.hot, key, data);
        proof {
            a_put_keeps_the_cache_valid(old(self)@, info_hash@, piece_idx, payload::content(data), self@);
        }
    }

    /// Looks a piece up: hot tier first, warm tier second.
    pub fn get_sync(&mut self, info_hash: &str, piece_idx: i32) -> (r: Lookup)
        requires
            old(self).wf(),
        ensures
            final(self).wf(),
            final(self).root() == old(self).root(),
            final(self).outlet() == old(self).outlet(),
            old(self)@.get_leads_to(final(self)@),
            r.stands_for(old(self)@.found(info_hash@, piece_idx)),
    {
        let key = (info_hash::fold_hash(info_hash), piece_idx);
        let hit = hot_tier::hot_get(&mut self.hot, &key);
        proof {
            a_lookup_keeps_the_cache_valid(old(self)@, self@);
        }
        match hit {
            Some(data) => Lookup::Hot(data),
            None => match self.warm.get_piece_sync(key.0.as_str(), piece_idx) {
                Some(plan) => Lookup::Warm(plan),
                None => Lookup::Nowhere,
            },
        }
    }

    /// Whether a lookup would find the piece.
    pub fn has_piece_sync(&self, info_hash: &str, piece_idx: i32) -> (r: bool)
        requires
            self.wf(),
        ensures
            r == !(self@.found(info_hash@, piece_idx) is Nowhere),
    {
        let key = (info_hash::fold_hash(info_hash), piece_idx);
        hot_tier::hot_contains(&self.hot, &key) || self.warm.has_piece(key.0.as_str(), piece_idx)
    }

    /// Registers a torrent's piece length, without which none of its pieces can be
    /// written to the warm tier. The first length stands.
    pub fn register_torrent(&mut self, info_hash: &str, piece_length: u64)
        requires
            old(self).wf(),
        ensures
            final(self).wf(),
            final(self).root() == old(self).root(),
            final(self).outlet() == old(self).outlet(),
            final(self)@ == (CacheModel {
                warm: old(self)@.warm.registered(info_hash::folded(info_hash@), piece_length),
                ..old(self)@
            }),
    {
        self.warm.register(info_hash, piece_length);
        proof {
            self.warm.wf_is_valid();
        }
    }

    /// Removes a torrent from both tiers and names the directory whose contents to
    /// delete.
    pub fn remove_torrent(&mut self, info_hash: &str) -> (dir: String)
        requires
            old(self).wf(),
        ensures
            final(self).wf(),
            final(self).root() == old(self).root(),
            final(self).outlet() == old(self).outlet(),
            final(self)@ == old(self)@.without(info_hash@),
            dir@ == paths::joined(old(self).root(), info_hash::folded(info_hash@)),
    {
        hot_tier::hot_purge(&mut self.hot, info_hash::fold_hash(info_hash));
        let dir = self.warm.remove(info_hash);
        proof {
            self.warm.wf_is_valid();
            a_removal_keeps_the_cache_valid(old(self)@, self@, info_hash::folded(info_hash@));
        }
        dir
    }

    /// Pins a piece, so that its memory is not freed before the pin is handed back.
    pub fn pin_piece(&mut self, info_hash: &str, piece_idx: i32) -> (guard: PiecePinGuard)
        requires
            old(self).wf(),
            pins::count_of(old(self)@.pins, CacheModel::key(info_hash@, piece_idx)) < u32::MAX,
        ensures
            final(self).wf(),
            final(self).root() == old(self).root(),
            final(self).outlet() == old(self).outlet(),
            guard@ == CacheModel::key(info_hash@, piece_idx),
            final(self)@ == (CacheModel { pins: pins::pinned(old(self)@.pins, guard@), ..old(self)@ }),
    {
        let key = (info_hash::fold_hash(info_hash), piece_idx);
        self.pin_counts.pin(&key);
        proof {
            self.pin_counts.wf_is_positive();
        }
        PiecePinGuard { key }
    }

    /// Pins a piece unless its counter is exhausted; then nothing changes.
    pub fn try_pin_piece(&mut self, info_hash: &str, piece_idx: i32) -> (r: Option<PiecePinGuard>)
        requires
            old(self).wf(),
        ensures
            final(self).wf(),
            final(self).root() == old(self).root(),
            final(self).outlet() == old(self).outlet(),
            match r {
                Some(guard) => {
                    &&& pins::count_of(old(self)@.pins, guard@) < u32::MAX
                    &&& guard@ == CacheModel::key(info_hash@, piece_idx)
                    &&& final(self)@ == (CacheModel {
                        pins: pins::pinned(old(self)@.pins, guard@),
                        ..old(self)@
                    })
                },
                None => {
                    &&& pins::count_of(old(self)@.pins, CacheModel::key(info_hash@, piece_idx))
                        == u32::MAX
                    &&& final(self)@ == old(self)@
                },
            },
    {
        let key = (info_hash::fold_hash(info_hash), piece_idx);
        if self.pin_counts.count(&key) == u32::MAX {
            None
        } else {
            Some(self.pin_piece(info_hash, piece_idx))
        }
    }

    /// Takes a pin back.
    pub fn release(&mut self, guard: &PiecePinGuard)
        requires
            old(self).wf(),
        ensures
            final(self).wf(),
            final(self).root() == old(self).root(),
            final(self).outlet() == old(self).outlet(),
            final(self)@ == (CacheModel { pins: pins::unpinned(old(self)@.pins, guard@), ..old(self)@ }),
    {
        self.pin_counts.unpin(&guard.key);
        proof {
            self.pin_counts.wf_is_positive();
        }
    }

    /// The pin counts, for the drain.
    pub fn pins(&self) -> (r: &PinCounts)
        requires
            self.wf(),
        ensures
            r.wf(),
            r@ == self@.pins,
    {
        &self.pin_counts
    }

    /// The warm tier, for the paths of its files.
    pub fn warm(&self) -> (r: &WarmTier)
        requires
            self.wf(),
        ensures
            r.wf(),
            r@ == self@.warm,
            r.root() == self.root(),
    {
        &self.warm
    }

    /// Takes the write of an evicted piece one event further; see
    /// [`WarmTier::write_piece_sync`].
    pub fn persist(&mut self, job: &WriteJob, event: WriteEvent) -> (step: WriteStep)
        requires
            old(self).wf(),
            old(self)@.warm.awaits(*job, event),
        ensures
            final(self).wf(),
            final(self).root() == old(self).root(),
            final(self).outlet() == old(self).outlet(),
            final(self)@ == (CacheModel { warm: old(self)@.warm.after(*job, event), ..old(self)@ }),
            step == old(self)@.warm.step_after(*job, event),
    {
        let step = self.warm.write_piece_sync(job, event);
        proof {
            self.warm.wf_is_valid();
        }
        step
    }

    /// Gives the hot tier up, and with it the sending side of the queue. What is left
    /// is what the drain needs to finish.
    pub fn close(self) -> (r: (WarmTier, PinCounts))
        requires
            self.wf(),
        ensures
            r.0.wf(),
            r.0@ == self@.warm,
            r.0.root() == self.root(),
            r.1.wf(),
            r.1@ == self@.pins,
    {
        (self.warm, self.pin_counts)
    }

    /// Hot tier statistics: number of entries and their total weight in bytes, as
    /// of its last maintenance.
    pub fn stats(&self) -> (r: (u64, u64))
        ensures
            r == self.counters(),
    {
        (hot_tier::hot_count(&self.hot), hot_tier::hot_weight(&self.hot))
    }
}

/// What was handed on last comes from the newer of two parts, if it has anything
/// under the key.
proof fn lemma_last_handed_of_parts(
    a: Seq<(Seq<char>, i32, Seq<u8>)>,
    b: Seq<(Seq<char>, i32, Seq<u8>)>,
    k: (Seq<char>, i32),
)
    ensures
        hot_tier::last_handed(a + b, k) == (match hot_tier::last_handed(b, k) {
            Some(d) => Some(d),
            None => hot_tier::last_handed(a, k),
        }),
    decreases b.len(),
{
    if b.len() == 0 {
        assert(a + b =~= a);
    } else {
        assert((a + b).drop_last() =~= a + b.drop_last());
        lemma_last_handed_of_parts(a, b.drop_last(), k);
    }
}

/// Nothing was handed on last under a key that does not occur.
proof fn lemma_nothing_handed(s: Seq<(Seq<char>, i32, Seq<u8>)>, k: (Seq<char>, i32))
    requires
        forall|j: int| 0 <= j < s.len() ==> ((#[trigger] s[j]).0, s[j].1) != k,
    ensures
        hot_tier::last_handed(s, k) is None,
    decreases s.len(),
{
    if s.len() > 0 {
        assert(s.last() == s[s.len() - 1]);
        let rest = s.drop_last();
        assert forall|j: int| 0 <= j < rest.len() implies ((#[trigger] rest[j]).0, rest[j].1) != k by {
            assert(rest[j] == s[j]);
        }
        lemma_nothing_handed(rest, k);
    }
}

/// What is handed on under the key of a torrent that was never removed was seen.
proof fn lemma_unseen_is_not_handed(
    before: Map<(Seq<char>, i32), Seq<u8>>,
    taken: Map<(Seq<char>, i32), Seq<u8>>,
    h: Seq<(Seq<char>, Option<(i32, Seq<u8>)>)>,
    handed: Seq<(Seq<char>, i32, Seq<u8>)>,
    k: (Seq<char>, i32),
)
    requires
        hot_tier::handed_from(before, taken, h, handed),
        !before.contains_key(k),
        !taken.contains_key(k),
        !hot_tier::was_purged(h, k.0),
    ensures
        hot_tier::last_handed(handed, k) is None,
{
    assert forall|j: int| 0 <= j < handed.len() implies ((#[trigger] handed[j]).0, handed[j].1)
        != k by {
        assert(hot_tier::was_seen(before, handed[j]) || hot_tier::was_seen(taken, handed[j])
            || hot_tier::was_purged(h, handed[j].0));
    }
    lemma_nothing_handed(handed, k);
}

/// A longer history remembers all removals.
proof fn lemma_purges_are_remembered(
    h: Seq<(Seq<char>, Option<(i32, Seq<u8>)>)>,
    e: (Seq<char>, Option<(i32, Seq<u8>)>),
    hash: Seq<char>,
)
    ensures
        hot_tier::was_purged(h, hash) ==> hot_tier::was_purged(h.push(e), hash),
{
    if hot_tier::was_purged(h, hash) {
        let i = choose|i: int| 0 <= i < h.len() && h[i] == (hash, None::<(i32, Seq<u8>)>);
        assert(h.push(e)[i] == h[i]);
    }
}

/// Putting a piece leads from valid states to valid states.
pub proof fn a_put_keeps_the_cache_valid(
    m: CacheModel,
    info_hash: Seq<char>,
    piece_idx: i32,
    data: Seq<u8>,
    next: CacheModel,
)
    requires
        m.valid(),
        m.put_leads_to(info_hash, piece_idx, data, next),
    ensures
        next.valid(),
{
    let h = info_hash::folded(info_hash);
    let key = (h, piece_idx);
    let e = (h, Some((piece_idx, data)));
    let taken = m.hot.insert(key, data);
    let handed = next.handed_since(m);
    assert(next.handed =~= m.handed + handed);
    assert(next.history.drop_last() =~= m.history);
    if 0 < next.limit {
        assert forall|k: (Seq<char>, i32)|
            #![trigger hot_tier::last_put(next.history, k)]
            hot_tier::last_put(next.history, k) is Some && !hot_tier::was_purged(next.history, k.0)
                && !next.hot.contains_key(k) implies hot_tier::last_handed(next.handed, k)
            == hot_tier::last_put(next.history, k) by {
            lemma_purges_are_remembered(m.history, e, k.0);
            lemma_last_handed_of_parts(m.handed, handed, k);
            if k != key {
                assert(hot_tier::last_put(next.history, k) == hot_tier::last_put(m.history, k));
                if m.hot.contains_key(k) {
                    assert(m.hot.remove(key).contains_key(k));
                } else {
                    lemma_unseen_is_not_handed(m.hot, taken, m.history, handed, k);
                }
            }
        }
    }
}

/// Looking a piece up leads from valid states to valid states.
pub proof fn a_lookup_keeps_the_cache_valid(m: CacheModel, next: CacheModel)
    requires
        m.valid(),
        m.get_leads_to(next),
    ensures
        next.valid(),
{
    let handed = next.handed_since(m);
    assert(next.handed =~= m.handed + handed);
    if 0 < next.limit {
        assert forall|k: (Seq<char>, i32)|
            #![trigger hot_tier::last_put(next.history, k)]
            hot_tier::last_put(next.history, k) is Some && !hot_tier::was_purged(next.history, k.0)
                && !next.hot.contains_key(k) implies hot_tier::last_handed(next.handed, k)
            == hot_tier::last_put(next.history, k) by {
            lemma_last_handed_of_parts(m.handed, handed, k);
            if !m.hot.contains_key(k) {
                lemma_unseen_is_not_handed(m.hot, m.hot, m.history, handed, k);
            }
        }
    }
}

/// Removing a torrent leads from valid states to valid states.
pub proof fn a_removal_keeps_the_cache_valid(m: CacheModel, next: CacheModel, hash: Seq<char>)
    requires
        m.valid(),
        next.warm.valid(),
        next.history == m.history.push((hash, None)),
        next.hot == hot_tier::without_torrent(m.hot, hash),
        next.handed == m.handed,
        next.limit == m.limit,
        next.pins == m.pins,
    ensures
        next.valid(),
{
    let e = (hash, None::<(i32, Seq<u8>)>);
    hot_laws::a_removal_keeps_to_the_bounds(m.hot, m.limit, m.history, hash);
    assert(next.history.drop_last() =~= m.history);
    assert forall|k: (Seq<char>, i32)| #[trigger] next.hot.contains_key(k) implies hot_tier::last_put(
        next.history,
        k,
    ) == Some(next.hot[k]) by {
        assert(m.hot.contains_key(k));
    }
    if 0 < next.limit {
        assert forall|k: (Seq<char>, i32)|
            #![trigger hot_tier::last_put(next.history, k)]
            hot_tier::last_put(next.history, k) is Some && !hot_tier::was_purged(next.history, k.0)
                && !next.hot.contains_key(k) implies hot_tier::last_handed(next.handed, k)
            == hot_tier::last_put(next.history, k) by {
            lemma_purges_are_remembered(m.history, e, k.0);
            assert(hot_tier::last_put(next.history, k) == hot_tier::last_put(m.history, k));
            assert(next.history[next.history.len() - 1] == e);
        }
    }
}

/// A piece that was put is found with its data, and so is every piece that was
/// there before, as long as everything put so far fits into the hot tier, the
/// torrent was not removed and removals stay hidden.
pub proof fn a_put_piece_is_found(
    m: CacheModel,
    next: CacheModel,
    info_hash: Seq<char>,
    piece_idx: i32,
    data: Seq<u8>,
    other_hash: Seq<char>,
    other_idx: i32,
)
    requires
        m.put_leads_to(info_hash, piece_idx, data, next),
        next.never_full(),
        next.stays_hidden(),
        !hot_tier::was_purged(m.history, info_hash::folded(info_hash)),
    ensures
        next.found(info_hash, piece_idx) == Found::Hot(data),
        CacheModel::key(other_hash, other_idx) != CacheModel::key(info_hash, piece_idx)
            ==> next.found(other_hash, other_idx) == m.found(other_hash, other_idx),
{
}

/// Whatever the hot tier evicts or brings back, a lookup there yields what was last
/// put under the key, and never anything older.
pub proof fn the_hot_tier_never_returns_stale_data(
    m: CacheModel,
    info_hash: Seq<char>,
    piece_idx: i32,
)
    requires
        m.valid(),
        m.found(info_hash, piece_idx) is Hot,
    ensures
        Some(m.found(info_hash, piece_idx)->Hot_0) == hot_tier::last_put(
            m.history,
            CacheModel::key(info_hash, piece_idx),
        ),
{
    assert(m.hot.contains_key(CacheModel::key(info_hash, piece_idx)));
}

/// A put piece is never gone without a trace: it is in the hot tier with its data,
/// or that data was handed on to the drain, as the last thing under its key. The
/// torrent was not removed, and the hot tier has room for anything at all.
pub proof fn a_put_piece_is_kept_or_handed_on(
    m: CacheModel,
    info_hash: Seq<char>,
    piece_idx: i32,
    data: Seq<u8>,
)
    requires
        m.valid(),
        0 < m.limit,
        hot_tier::last_put(m.history, CacheModel::key(info_hash, piece_idx)) == Some(data),
        !hot_tier::was_purged(m.history, info_hash::folded(info_hash)),
    ensures
        m.found(info_hash, piece_idx) == Found::Hot(data) || hot_tier::last_handed(
            m.handed,
            CacheModel::key(info_hash, piece_idx),
        ) == Some(data),
{
}

/// Looking a piece up does not change what is found, as long as everything put so
/// far fits into the hot tier and removals stay hidden.
pub proof fn lookups_change_nothing_while_everything_fits(
    m: CacheModel,
    next: CacheModel,
    info_hash: Seq<char>,
    piece_idx: i32,
)
    requires
        m.get_leads_to(next),
        m.never_full(),
        m.stays_hidden(),
    ensures
        next.found(info_hash, piece_idx) == m.found(info_hash, piece_idx),
{
}

/// The case of the letters of a hash does not matter.
pub proof fn hashes_with_one_folding_name_one_torrent(
    m: CacheModel,
    a: Seq<char>,
    b: Seq<char>,
    piece_idx: i32,
)
    requires
        info_hash::folded(a) == info_hash::folded(b),
    ensures
        m.found(a, piece_idx) == m.found(b, piece_idx),
        m.without(a) == m.without(b),
{
}

/// A removed torrent is found nowhere; every piece of other torrents is found as
/// before.
pub proof fn a_removed_torrent_is_found_nowhere(
    m: CacheModel,
    info_hash: Seq<char>,
    other: Seq<char>,
    piece_idx: i32,
)
    requires
        info_hash::folded(info_hash::folded(info_hash)) == info_hash::folded(info_hash),
        info_hash::folded(other) != info_hash::folded(info_hash),
        info_hash::folded(info_hash::folded(other)) == info_hash::folded(other),
    ensures
        m.without(info_hash).found(info_hash, piece_idx) is Nowhere,
        m.without(info_hash).found(other, piece_idx) == m.found(other, piece_idx),
{
}

/// An evicted piece whose write ended well is found again, and what is found reads
/// as what was written, unless the hot tier has the piece again.
pub proof fn a_persisted_piece_is_found(m: CacheModel, job: WriteJob, disk: Seq<u8>, data: Seq<u8>)
    requires
        info_hash::folded(job.info_hash@) == job.info_hash@,
        m.warm.valid(),
        m.warm.awaits(job, WriteEvent::Written { ok: true }),
        disk.len() >= m.warm.files[job.info_hash@].allocated,
        data.len() == job.data_len,
    ensures
        ({
            let next = CacheModel {
                warm: m.warm.after(job, WriteEvent::Written { ok: true }),
                ..m
            };
            let start = warm::slot_start(m.warm.files[job.info_hash@].slot, job.piece_idx);
            match next.found(job.info_hash@, job.piece_idx) {
                Found::Hot(d) => m.found(job.info_hash@, job.piece_idx) == Found::Hot(d),
                Found::Warm { hash, offset, len } => {
                    &&& hash == job.info_hash@
                    &&& warm::pread(warm::pwritten(disk, start, data), offset, len) == data
                },
                Found::Nowhere => false,
            }
        }),
{
    warm::a_written_piece_reads_back(m.warm, job, disk, data);
}

/// The statistics are the hot tier's own two counters, the number of entries first.
proof fn lemma_the_counters_are_the_hot_tiers(c: HybridPieceCache)
    ensures
        c.counters().0 == hot_tier::hot_entry_count(c.hot),
        c.counters().1 == hot_tier::hot_weighted_size(c.hot),
{
}

} // verus!
