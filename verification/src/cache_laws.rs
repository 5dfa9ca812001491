//! What the operations of the piece cache do, told by what the two tiers hold.

use bytes::Bytes;
use crate::hot_tier;
use crate::hybrid_cache;
use crate::hybrid_cache::CacheModel;
use crate::hybrid_cache::Found;
use crate::hybrid_cache::Lookup;
use crate::info_hash;
use crate::payload;
use crate::warm::ReadPlan;
use crate::warm_laws;
use vstd::prelude::*;

verus! {

/// A lookup finds what the hot tier has under the lower-case hash; else what the warm
/// tier has stored, at the slot of the piece and with its stored length; else nothing.
pub proof fn where_a_lookup_finds_a_piece(
    m: CacheModel,
    hash: Seq<char>,
    piece_idx: i32,
    key: Seq<char>,
    name: Seq<char>,
)
    requires
        key == info_hash::folded(hash),
        name == info_hash::folded(key),
        0 <= piece_idx || m.warm.files[name].slot == 0,
    ensures
        ({
            let found = m.found(hash, piece_idx);
            let hot = m.hot.contains_key((key, piece_idx));
            let warm = m.warm.files.contains_key(name) && m.warm.files[name].present.contains_key(
                piece_idx,
            );
            &&& hot ==> found == Found::Hot(m.hot[(key, piece_idx)])
            &&& !hot && warm ==> found == (Found::Warm {
                hash: name,
                offset: piece_idx * m.warm.files[name].slot,
                len: m.warm.files[name].present[piece_idx] as int,
            })
            &&& !hot && !warm ==> found == Found::Nowhere
        }),
{
    if m.warm.files.contains_key(name) {
        warm_laws::slots_lie_one_after_the_other(m.warm.files[name].slot, piece_idx);
    }
}

/// A piece with a negative index is looked for in the same places.
pub proof fn negative_indices_are_looked_up_too(
    m: CacheModel,
    hash: Seq<char>,
    piece_idx: i32,
    key: Seq<char>,
    name: Seq<char>,
)
    requires
        key == info_hash::folded(hash),
        name == info_hash::folded(key),
    ensures
        m.hot.contains_key((key, piece_idx)) ==> m.found(hash, piece_idx) == Found::Hot(
            m.hot[(key, piece_idx)],
        ),
        !m.hot.contains_key((key, piece_idx)) ==> (m.found(hash, piece_idx) is Nowhere <==> !(
        m.warm.files.contains_key(name) && m.warm.files[name].present.contains_key(piece_idx))),
        !m.hot.contains_key((key, piece_idx)) ==> m.found(hash, piece_idx) !is Hot,
{
}

/// The answer to a lookup has the bytes that were found in the hot tier, or names the
/// region that was found in the warm tier, or says that there is nothing.
pub proof fn an_answer_tells_what_was_found(answer: Lookup, found: Found, data: Bytes, plan: ReadPlan)
    requires
        answer.stands_for(found),
    ensures
        found is Nowhere <==> answer is Nowhere,
        found is Hot <==> answer is Hot,
        found is Warm <==> answer is Warm,
        answer == Lookup::Hot(data) ==> found == Found::Hot(payload::content(data)),
        answer == Lookup::Warm(plan) ==> found == (Found::Warm {
            hash: plan.info_hash@,
            offset: plan.offset as int,
            len: plan.len as int,
        }),
{
}

/// A put is remembered as the last operation under the lower-case hash with exactly its
/// index and its bytes. It touches neither the warm tier nor the pins nor the size of
/// the hot tier. Unless the tier evicts, all that it held and the piece are there
/// afterwards; what it evicts or replaces it hands on.
pub proof fn what_a_put_does(
    m: CacheModel,
    hash: Seq<char>,
    piece_idx: i32,
    data: Seq<u8>,
    next: CacheModel,
    key: Seq<char>,
)
    requires
        m.put_leads_to(hash, piece_idx, data, next),
        key == info_hash::folded(hash),
    ensures
        ({
            let k = (key, piece_idx);
            let taken = m.hot.insert(k, data);
            let handed = next.handed.skip(m.handed.len() as int);
            let calm = 0 < m.limit && hot_tier::inserted_weight(next.history) <= m.limit
                && hot_tier::stays_hidden(next.history);
            &&& next.history == m.history.push((key, Some((piece_idx, data))))
            &&& hot_tier::last_put(next.history, k) == Some(data)
            &&& next.hot.contains_key(k) ==> next.hot[k] == data
            &&& next.warm == m.warm
            &&& next.pins == m.pins
            &&& next.limit == m.limit
            &&& hot_tier::all_latest(next.hot, next.history)
            &&& hot_tier::within_bounds(next.hot, next.limit, next.history)
            &&& hot_tier::no_strangers(taken, next.hot, m.history)
            &&& hot_tier::stays_hidden(next.history) ==> next.hot.submap_of(taken)
            &&& calm && !m.history.contains((key, None)) ==> next.hot == taken
            &&& m.handed.is_prefix_of(next.handed)
            &&& hot_tier::handed_on(m.hot.remove(k), next.hot, handed)
            &&& m.hot.contains_key(k) ==> handed.contains((key, piece_idx, m.hot[k]))
            &&& 0 < m.limit && !m.history.contains((key, None)) && !next.hot.contains_key(k)
                ==> hot_tier::last_handed(handed, k) == Some(data)
            &&& hot_tier::handed_from(m.hot, taken, m.history, handed)
        }),
{
    assert(next.history.drop_last() =~= m.history);
}

/// A lookup adds nothing to what was put or removed and touches neither the warm tier
/// nor the pins nor the size of the hot tier. Unless the tier evicts, it holds what it
/// held; what it evicts it hands on.
pub proof fn what_a_lookup_does(m: CacheModel, next: CacheModel)
    requires
        m.get_leads_to(next),
    ensures
        ({
            let handed = next.handed.skip(m.handed.len() as int);
            let calm = 0 < m.limit && hot_tier::inserted_weight(m.history) <= m.limit
                && hot_tier::stays_hidden(m.history);
            &&& next.history == m.history
            &&& next.warm == m.warm
            &&& next.pins == m.pins
            &&& next.limit == m.limit
            &&& hot_tier::all_latest(next.hot, next.history)
            &&& hot_tier::within_bounds(next.hot, next.limit, next.history)
            &&& hot_tier::no_strangers(m.hot, next.hot, m.history)
            &&& hot_tier::stays_hidden(m.history) ==> next.hot.submap_of(m.hot)
            &&& calm ==> next.hot == m.hot
            &&& m.handed.is_prefix_of(next.handed)
            &&& hot_tier::handed_on(m.hot, next.hot, handed)
            &&& hot_tier::handed_from(m.hot, m.hot, m.history, handed)
        }),
{
}

/// A removal hides the torrent's pieces in the hot tier, forgets its piece length and
/// its file in the warm tier, and is remembered. Pieces of other torrents, pins and what
/// was handed on stay.
pub proof fn what_a_removal_does(
    m: CacheModel,
    hash: Seq<char>,
    key: Seq<char>,
    k: (Seq<char>, i32),
    other: Seq<char>,
)
    requires
        key == info_hash::folded(hash),
    ensures
        ({
            let next = m.without(hash);
            &&& next.hot.contains_key(k) <==> m.hot.contains_key(k) && k.0 != key
            &&& next.hot.contains_key(k) ==> next.hot[k] == m.hot[k]
            &&& next.history == m.history.push((key, None))
            &&& next.handed == m.handed
            &&& next.limit == m.limit
            &&& next.pins == m.pins
            &&& !next.warm.files.contains_key(key)
            &&& !next.warm.lengths.contains_key(key)
            &&& other != key ==> {
                &&& next.warm.files.contains_key(other) == m.warm.files.contains_key(other)
                &&& next.warm.lengths.contains_key(other) == m.warm.lengths.contains_key(other)
                &&& m.warm.files.contains_key(other) ==> next.warm.files[other]
                    == m.warm.files[other]
                &&& m.warm.lengths.contains_key(other) ==> next.warm.lengths[other]
                    == m.warm.lengths[other]
            }
        }),
{
}

/// What holds of every state: the hot tier has only what was put last under its keys,
/// keeps to its size, and has handed on what it lacks; no piece has a count of no pins.
pub proof fn what_holds_of_every_cache(m: CacheModel, k: (Seq<char>, i32))
    requires
        m.valid(),
    ensures
        m.hot.contains_key(k) ==> hot_tier::last_put(m.history, k) == Some(m.hot[k]),
        hot_tier::within_bounds(m.hot, m.limit, m.history),
        0 < m.limit && hot_tier::last_put(m.history, k) is Some && !m.history.contains((k.0, None))
            && !m.hot.contains_key(k) ==> hot_tier::last_handed(m.handed, k) == hot_tier::last_put(
            m.history,
            k,
        ),
        m.pins.contains_key(k) ==> m.pins[k] > 0,
        m.warm.valid(),
{
}

/// The queue between the tiers has 4096 slots, and the hot tier 512 MiB by default.
pub proof fn the_sizes_of_a_cache()
    ensures
        hybrid_cache::EVICTION_QUEUE_SLOTS == 4096,
        hybrid_cache::DEFAULT_MAX_HOT_BYTES == 512 * 1024 * 1024,
{
}

} // verus!
