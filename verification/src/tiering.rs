//! What holds of both tiers together: where a piece is after any run of puts,
//! lookups, removals and finished writes.

use crate::hot_laws;
use crate::hot_tier;
use crate::hybrid_cache;
use crate::hybrid_cache::CacheModel;
use crate::hybrid_cache::Found;
use crate::info_hash;
use crate::warm;
use crate::warm::WriteEvent;
use crate::warm::WriteJob;
use crate::warm_runs;
use crate::warm_runs::OnDisk;
use crate::warm_runs::WarmAct;
use vstd::prelude::*;

verus! {

/// The cache, the contents of the flat files, and how many of the pieces that the
/// hot tier handed on the drain has dealt with.
pub struct Tiers {
    pub cache: CacheModel,
    pub disk: Map<Seq<char>, Seq<u8>>,
    pub drained: nat,
}

/// A call on the cache, or a step of the drain.
pub enum TierAct {
    Put { info_hash: Seq<char>, piece_idx: i32, data: Seq<u8> },
    Get,
    Register { info_hash: Seq<char>, piece_length: u64 },
    Remove { info_hash: Seq<char> },
    /// The drain writes the next piece.
    Write { job: WriteJob },
    /// The drain leaves the next piece out: its torrent is not registered.
    LeaveOut,
}

impl TierAct {
    /// The call removes the torrent with this lower-case hash.
    pub open spec fn removes(self, hash: Seq<char>) -> bool {
        self matches TierAct::Remove { info_hash } && info_hash::folded(info_hash) == hash
    }

    /// The call brings the torrent back.
    pub open spec fn revives(self, hash: Seq<char>) -> bool {
        match self {
            TierAct::Put { info_hash, .. } => info_hash::folded(info_hash) == hash,
            TierAct::Register { info_hash, .. } => info_hash::folded(info_hash) == hash,
            _ => false,
        }
    }
}

impl Tiers {
    pub open spec fn on_disk(self) -> OnDisk {
        OnDisk { tier: self.cache.warm, disk: self.disk }
    }

    /// The piece that the drain deals with next.
    pub open spec fn next_handed(self) -> (Seq<char>, i32, Seq<u8>) {
        self.cache.handed[self.drained as int]
    }

    /// The next piece can be written to its slot.
    pub open spec fn next_fits(self) -> bool {
        let (h, _, data) = self.next_handed();
        &&& info_hash::folded(h) == h
        &&& data.len() <= warm::padded(self.cache.warm.lengths[h] as int)
    }

    /// The drain has dealt with everything.
    pub open spec fn caught_up(self) -> bool {
        self.drained == self.cache.handed.len()
    }

    /// `next` may follow an operation; writes of the drain succeed.
    pub open spec fn may_lead_to(self, act: TierAct, next: Tiers) -> bool {
        match act {
            TierAct::Put { info_hash, piece_idx, data } => {
                &&& self.cache.put_leads_to(info_hash, piece_idx, data, next.cache)
                &&& next.disk == self.disk
                &&& next.drained == self.drained
            },
            TierAct::Get => {
                &&& self.cache.get_leads_to(next.cache)
                &&& next.disk == self.disk
                &&& next.drained == self.drained
            },
            TierAct::Register { info_hash, piece_length } => {
                let h = info_hash::folded(info_hash);
                &&& next.cache == CacheModel {
                    warm: self.cache.warm.registered(h, piece_length),
                    ..self.cache
                }
                &&& next.disk == self.disk
                &&& next.drained == self.drained
            },
            TierAct::Remove { info_hash } => {
                &&& next.cache == self.cache.without(info_hash)
                &&& next.disk == self.disk.remove(info_hash::folded(info_hash))
                &&& next.drained == self.drained
            },
            TierAct::Write { job } => {
                let (h, i, data) = self.next_handed();
                let after = self.on_disk().finished(job, data);
                &&& self.drained < self.cache.handed.len()
                &&& job.info_hash@ == info_hash::folded(h)
                &&& job.piece_idx == i
                &&& job.data_len == data.len()
                &&& self.cache.warm.awaits(job, WriteEvent::Start)
                &&& next.cache == CacheModel { warm: after.tier, ..self.cache }
                &&& next.disk == after.disk
                &&& next.drained == self.drained + 1
            },
            TierAct::LeaveOut => {
                &&& self.drained < self.cache.handed.len()
                &&& !self.cache.warm.lengths.contains_key(info_hash::folded(self.next_handed().0))
                &&& next.cache == self.cache
                &&& next.disk == self.disk
                &&& next.drained == self.drained + 1
            },
        }
    }

    /// What holds of a torrent that is registered and not removed: the pieces of it
    /// that the drain has dealt with are stored.
    pub open spec fn keeps(self, hash: Seq<char>, piece_idx: i32) -> bool {
        &&& self.cache.valid()
        &&& self.on_disk().backed()
        &&& self.drained <= self.cache.handed.len()
        &&& 0 < self.cache.limit
        &&& self.cache.warm.lengths.contains_key(hash)
        &&& !hot_tier::was_purged(self.cache.history, hash)
        &&& match hot_tier::last_handed(
            self.cache.handed.take(self.drained as int),
            (hash, piece_idx),
        ) {
            Some(data) => self.on_disk().stored(hash, piece_idx, data),
            None => true,
        }
    }

    /// What holds of a torrent that was removed.
    pub open spec fn lacks(self, hash: Seq<char>) -> bool {
        &&& self.on_disk().backed()
        &&& self.drained <= self.cache.handed.len()
        &&& !self.cache.warm.lengths.contains_key(hash)
        &&& forall|k: (Seq<char>, i32)| #[trigger] self.cache.hot.contains_key(k) ==> k.0 != hash
    }
}

/// Each state of a run follows from the one before by its operation.
pub open spec fn is_run(states: Seq<Tiers>, acts: Seq<TierAct>) -> bool {
    &&& states.len() == acts.len() + 1
    &&& forall|j: int|
        0 <= j < acts.len() ==> states[j].may_lead_to(#[trigger] acts[j], states[j + 1])
}

proof fn lemma_shorter_run(states: Seq<Tiers>, acts: Seq<TierAct>)
    requires
        is_run(states, acts),
        acts.len() > 0,
    ensures
        is_run(states.drop_last(), acts.drop_last()),
        states.drop_last()[0] == states[0],
        states.drop_last().last() == states[acts.len() - 1],
        states.last() == states[acts.len() as int],
{
    let (s, a) = (states.drop_last(), acts.drop_last());
    assert forall|j: int| 0 <= j < a.len() implies s[j].may_lead_to(#[trigger] a[j], s[j + 1]) by {
        assert(a[j] == acts[j]);
        assert(states[j].may_lead_to(acts[j], states[j + 1]));
    }
}

/// One operation keeps what holds of a registered torrent.
proof fn lemma_step_keeps(
    s: Tiers,
    act: TierAct,
    next: Tiers,
    hash: Seq<char>,
    piece_idx: i32,
)
    requires
        s.keeps(hash, piece_idx),
        s.may_lead_to(act, next),
        !act.removes(hash),
        act is Write ==> s.next_fits(),
        info_hash::folded(hash) == hash,
    ensures
        next.keeps(hash, piece_idx),
{
    let k = (hash, piece_idx);
    let dealt = s.cache.handed.take(s.drained as int);
    match act {
        TierAct::Put { info_hash, piece_idx: p, data } => {
            hybrid_cache::a_put_keeps_the_cache_valid(s.cache, info_hash, p, data, next.cache);
            assert(next.cache.handed.take(next.drained as int) =~= dealt);
            assert(next.cache.history.drop_last() =~= s.cache.history);
            lemma_still_not_purged(
                s.cache.history,
                (info_hash::folded(info_hash), Some((p, data))),
                hash,
            );
        },
        TierAct::Get => {
            hybrid_cache::a_lookup_keeps_the_cache_valid(s.cache, next.cache);
            assert(next.cache.handed.take(next.drained as int) =~= dealt);
        },
        TierAct::Register { info_hash, piece_length } => {
            let h = info_hash::folded(info_hash);
            let wa = WarmAct::Register { hash: h, piece_length };
            warm_runs::operations_keep_files_backed(s.on_disk(), wa, next.on_disk());
            match hot_tier::last_handed(dealt, k) {
                Some(d) => {
                    warm_runs::operations_keep_other_pieces(
                        s.on_disk(),
                        wa,
                        next.on_disk(),
                        hash,
                        piece_idx,
                        d,
                    );
                },
                None => {},
            }
        },
        TierAct::Remove { info_hash } => {
            let h = info_hash::folded(info_hash);
            let wa = WarmAct::Remove { hash: h };
            warm_runs::operations_keep_files_backed(s.on_disk(), wa, next.on_disk());
            hybrid_cache::a_removal_keeps_the_cache_valid(s.cache, next.cache, h);
            lemma_still_not_purged(s.cache.history, (h, None), hash);
            match hot_tier::last_handed(dealt, k) {
                Some(d) => {
                    warm_runs::operations_keep_other_pieces(
                        s.on_disk(),
                        wa,
                        next.on_disk(),
                        hash,
                        piece_idx,
                        d,
                    );
                },
                None => {},
            }
        },
        TierAct::Write { job } => {
            let (h, i, data) = s.next_handed();
            let more = next.cache.handed.take(next.drained as int);
            assert(more.drop_last() =~= dealt);
            assert(more.last() == s.next_handed());
            let kept = match hot_tier::last_handed(dealt, k) {
                Some(d) => d,
                None => Seq::empty(),
            };
            warm_runs::a_finished_job_stores_its_piece(
                s.on_disk(),
                job,
                data,
                hash,
                piece_idx,
                kept,
            );
        },
        TierAct::LeaveOut => {
            let more = next.cache.handed.take(next.drained as int);
            assert(more.drop_last() =~= dealt);
            assert(more.last() == s.next_handed());
        },
    }
}

proof fn lemma_still_not_purged(
    h: Seq<(Seq<char>, Option<(i32, Seq<u8>)>)>,
    e: (Seq<char>, Option<(i32, Seq<u8>)>),
    hash: Seq<char>,
)
    requires
        !hot_tier::was_purged(h, hash),
        e != (hash, None::<(i32, Seq<u8>)>),
    ensures
        !hot_tier::was_purged(h.push(e), hash),
{
    if hot_tier::was_purged(h.push(e), hash) {
        let i = choose|i: int|
            0 <= i < h.push(e).len() && h.push(e)[i] == (hash, None::<(i32, Seq<u8>)>);
        if i < h.len() {
            assert(h[i] == (hash, None::<(i32, Seq<u8>)>));
        }
    }
}

/// After any run of operations, whatever the hot tier evicts, a piece of a
/// registered torrent that was put is found with the data that was put last, once
/// the drain has caught up: in the hot tier, or in the warm tier, where a read of
/// its region yields that data. The torrent is not removed in the run, no piece is
/// longer than its slot, and the writes of the drain succeed.
pub proof fn a_put_piece_is_found_after_any_run(
    states: Seq<Tiers>,
    acts: Seq<TierAct>,
    info_hash: Seq<char>,
    piece_idx: i32,
    data: Seq<u8>,
)
    requires
        is_run(states, acts),
        states[0].keeps(info_hash::folded(info_hash), piece_idx),
        info_hash::folded(info_hash::folded(info_hash)) == info_hash::folded(info_hash),
        forall|j: int|
            0 <= j < acts.len() ==> {
                &&& !(#[trigger] acts[j]).removes(info_hash::folded(info_hash))
                &&& acts[j] is Write ==> states[j].next_fits()
            },
        states.last().caught_up(),
        hot_tier::last_put(
            states.last().cache.history,
            CacheModel::key(info_hash, piece_idx),
        ) == Some(data),
    ensures
        match states.last().cache.found(info_hash, piece_idx) {
            Found::Hot(d) => d == data,
            Found::Warm { hash, offset, len } => warm::pread(
                states.last().disk[hash],
                offset,
                len,
            ) == data,
            Found::Nowhere => false,
        },
{
    let hash = info_hash::folded(info_hash);
    lemma_run_keeps(states, acts, hash, piece_idx);
    let end = states.last();
    assert(end.cache.handed.take(end.drained as int) =~= end.cache.handed);
    hybrid_cache::a_put_piece_is_kept_or_handed_on(end.cache, info_hash, piece_idx, data);
    if end.cache.found(info_hash, piece_idx) is Hot {
        hybrid_cache::the_hot_tier_never_returns_stale_data(end.cache, info_hash, piece_idx);
    }
}

proof fn lemma_run_keeps(
    states: Seq<Tiers>,
    acts: Seq<TierAct>,
    hash: Seq<char>,
    piece_idx: i32,
)
    requires
        is_run(states, acts),
        states[0].keeps(hash, piece_idx),
        info_hash::folded(hash) == hash,
        forall|j: int|
            0 <= j < acts.len() ==> {
                &&& !(#[trigger] acts[j]).removes(hash)
                &&& acts[j] is Write ==> states[j].next_fits()
            },
    ensures
        states.last().keeps(hash, piece_idx),
    decreases acts.len(),
{
    if acts.len() > 0 {
        let n = acts.len() - 1;
        lemma_shorter_run(states, acts);
        let (s, a) = (states.drop_last(), acts.drop_last());
        assert forall|j: int| 0 <= j < a.len() implies {
            &&& !(#[trigger] a[j]).removes(hash)
            &&& a[j] is Write ==> s[j].next_fits()
        } by {
            assert(a[j] == acts[j]);
        }
        lemma_run_keeps(s, a, hash, piece_idx);
        assert(states[n].may_lead_to(acts[n], states[n + 1]));
        lemma_step_keeps(states[n], acts[n], states[n + 1], hash, piece_idx);
    }
}

/// A new cache keeps every piece of a torrent once the torrent is registered.
pub proof fn a_new_cache_keeps_registered_torrents(s: Tiers, hash: Seq<char>, piece_idx: i32)
    requires
        s.cache.valid(),
        s.cache.handed.len() == 0,
        s.cache.history.len() == 0,
        s.cache.warm.files.is_empty(),
        s.cache.warm.lengths.contains_key(hash),
        0 < s.cache.limit,
        s.drained == 0,
    ensures
        s.keeps(hash, piece_idx),
{
}

/// One operation keeps a removed torrent away.
proof fn lemma_step_lacks(s: Tiers, act: TierAct, next: Tiers, hash: Seq<char>)
    requires
        s.lacks(hash),
        s.may_lead_to(act, next),
        !act.revives(hash),
        act is Write ==> s.next_fits(),
        next.cache.stays_hidden(),
    ensures
        next.lacks(hash),
{
    match act {
        TierAct::Put { info_hash, piece_idx, data } => {
            let taken = s.cache.hot.insert((info_hash::folded(info_hash), piece_idx), data);
            assert forall|k: (Seq<char>, i32)| #[trigger] next.cache.hot.contains_key(k) implies k.0
                != hash by {
                assert(next.cache.hot.dom().contains(k));
                assert(taken.dom().contains(k));
            }
        },
        TierAct::Get => {
            assert forall|k: (Seq<char>, i32)| #[trigger] next.cache.hot.contains_key(k) implies k.0
                != hash by {
                assert(next.cache.hot.dom().contains(k));
                assert(s.cache.hot.dom().contains(k));
            }
        },
        TierAct::Register { info_hash, piece_length } => {
            let wa = WarmAct::Register { hash: info_hash::folded(info_hash), piece_length };
            warm_runs::operations_keep_files_backed(s.on_disk(), wa, next.on_disk());
        },
        TierAct::Remove { info_hash } => {
            let wa = WarmAct::Remove { hash: info_hash::folded(info_hash) };
            warm_runs::operations_keep_files_backed(s.on_disk(), wa, next.on_disk());
            assert forall|k: (Seq<char>, i32)| #[trigger] next.cache.hot.contains_key(k) implies k.0
                != hash by {
                assert(s.cache.hot.contains_key(k));
            }
        },
        TierAct::Write { job } => {
            let data = s.next_handed().2;
            warm_runs::a_finished_job_stores_its_piece(
                s.on_disk(),
                job,
                data,
                hash,
                0,
                Seq::empty(),
            );
        },
        TierAct::LeaveOut => {},
    }
}

/// A removed torrent is found nowhere, under any spelling of its hash, after any run
/// of operations that neither put its pieces nor register it again. The history is
/// one with which removals stay hidden (see [`hot_laws::few_keys_stay_hidden`] and
/// [`hot_laws::later_insertions_reveal_nothing`]), no piece is longer than its slot,
/// and the writes of the drain succeed.
pub proof fn a_removed_torrent_stays_away(
    before: Tiers,
    states: Seq<Tiers>,
    acts: Seq<TierAct>,
    removed: Seq<char>,
    spelling: Seq<char>,
    piece_idx: i32,
)
    requires
        before.on_disk().backed(),
        before.drained <= before.cache.handed.len(),
        before.may_lead_to((TierAct::Remove { info_hash: removed }), states[0]),
        is_run(states, acts),
        info_hash::folded(spelling) == info_hash::folded(removed),
        info_hash::folded(info_hash::folded(removed)) == info_hash::folded(removed),
        forall|j: int|
            0 <= j < acts.len() ==> {
                &&& !(#[trigger] acts[j]).revives(info_hash::folded(removed))
                &&& acts[j] is Write ==> states[j].next_fits()
            },
        states.last().cache.stays_hidden(),
    ensures
        states.last().cache.found(spelling, piece_idx) is Nowhere,
{
    let hash = info_hash::folded(removed);
    warm_runs::operations_keep_files_backed(
        before.on_disk(),
        WarmAct::Remove { hash },
        states[0].on_disk(),
    );
    lemma_run_lacks(states, acts, hash);
    let end = states.last();
    if end.cache.warm.files.contains_key(hash) {
        assert(end.on_disk().tier.lengths.contains_key(hash));
    }
}

proof fn lemma_run_lacks(states: Seq<Tiers>, acts: Seq<TierAct>, hash: Seq<char>)
    requires
        is_run(states, acts),
        states[0].lacks(hash),
        forall|j: int|
            0 <= j < acts.len() ==> {
                &&& !(#[trigger] acts[j]).revives(hash)
                &&& acts[j] is Write ==> states[j].next_fits()
            },
        states.last().cache.stays_hidden(),
    ensures
        states.last().lacks(hash),
    decreases acts.len(),
{
    if acts.len() > 0 {
        let n = acts.len() - 1;
        lemma_shorter_run(states, acts);
        let (s, a) = (states.drop_last(), acts.drop_last());
        assert forall|j: int| 0 <= j < a.len() implies {
            &&& !(#[trigger] a[j]).revives(hash)
            &&& a[j] is Write ==> s[j].next_fits()
        } by {
            assert(a[j] == acts[j]);
        }
        assert(states[n].may_lead_to(acts[n], states[n + 1]));
        match acts[n] {
            TierAct::Put { info_hash, piece_idx, data } => {
                hot_laws::removals_stayed_hidden_before(
                    states[n].cache.history,
                    (info_hash::folded(info_hash), Some((piece_idx, data))),
                );
            },
            TierAct::Remove { info_hash } => {
                hot_laws::removals_stayed_hidden_before(
                    states[n].cache.history,
                    (info_hash::folded(info_hash), None),
                );
            },
            _ => {},
        }
        lemma_run_lacks(s, a, hash);
        lemma_step_lacks(states[n], acts[n], states[n + 1], hash);
    }
}

} // verus!
