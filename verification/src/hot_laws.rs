//! What holds of the hot tier for every history: when removals stay hidden, and how
//! much the tier holds at most.

use crate::hot_tier;
use crate::hybrid_cache::CacheModel;
use vstd::prelude::*;

verus! {

/// The first operations of a longer history.
proof fn lemma_same_beginning(
    h: Seq<(Seq<char>, Option<(i32, Seq<u8>)>)>,
    e: (Seq<char>, Option<(i32, Seq<u8>)>),
    m: int,
    n: int,
)
    requires
        0 <= m < n <= h.len(),
    ensures
        h.push(e).take(n) == h.take(n),
        h.push(e).subrange(m, n) == h.subrange(m, n),
        n < h.len() ==> h.push(e)[n] == h[n],
{
    assert(h.push(e).take(n) =~= h.take(n));
    assert(h.push(e).subrange(m, n) =~= h.subrange(m, n));
}

/// If what removals hide is hidden for good, it was so after every earlier operation.
pub proof fn removals_stayed_hidden_before(
    h: Seq<(Seq<char>, Option<(i32, Seq<u8>)>)>,
    e: (Seq<char>, Option<(i32, Seq<u8>)>),
)
    requires
        hot_tier::stays_hidden(h.push(e)),
    ensures
        hot_tier::stays_hidden(h),
{
    let longer = h.push(e);
    assert forall|m: int| 0 <= m < h.len() && (#[trigger] h[m]).1 is None implies hot_tier::carried_out(
        h,
        m,
    ) by {
        assert(longer[m] == h[m]);
        assert forall|n: int| m < n <= h.len() && #[trigger] hot_tier::unsearched(h, m, n) implies {
            &&& hot_tier::searchable(h.take(n))
            &&& n < h.len() ==> !hot_tier::puts_again(h, n)
        } by {
            lemma_same_beginning(h, e, m, n);
            assert(hot_tier::unsearched(longer, m, n));
        }
    }
}

/// A history grows by its operations.
proof fn lemma_counts_grow(
    h: Seq<(Seq<char>, Option<(i32, Seq<u8>)>)>,
    n: int,
    k: (Seq<char>, i32),
)
    requires
        0 <= n <= h.len(),
    ensures
        hot_tier::distinct_keys(h.take(n)) <= hot_tier::distinct_keys(h),
        hot_tier::times_put(h.take(n), k) <= hot_tier::times_put(h, k),
    decreases h.len(),
{
    if n == h.len() {
        assert(h.take(n) =~= h);
    } else {
        assert(h.take(n) =~= h.drop_last().take(n));
        lemma_counts_grow(h.drop_last(), n, k);
    }
}

/// What removals hide stays hidden as long as at most 384 different keys were put,
/// none of them more than 32767 times, and no key again after the first removal.
pub proof fn few_keys_stay_hidden(h: Seq<(Seq<char>, Option<(i32, Seq<u8>)>)>)
    requires
        hot_tier::distinct_keys(h) <= 384,
        forall|k: (Seq<char>, i32)| #[trigger] hot_tier::times_put(h, k) <= 32767,
        forall|j: int|
            0 <= j < h.len() && #[trigger] hot_tier::puts_again(h, j) ==> hot_tier::never_purged(
                h.take(j),
            ),
    ensures
        hot_tier::stays_hidden(h),
{
    assert forall|m: int| 0 <= m < h.len() && (#[trigger] h[m]).1 is None implies hot_tier::carried_out(
        h,
        m,
    ) by {
        assert forall|n: int| m < n <= h.len() && #[trigger] hot_tier::unsearched(h, m, n) implies {
            &&& hot_tier::searchable(h.take(n))
            &&& n < h.len() ==> !hot_tier::puts_again(h, n)
        } by {
            lemma_counts_grow(h, n, (Seq::empty(), 0));
            assert forall|k: (Seq<char>, i32)| #[trigger] hot_tier::times_put(h.take(n), k)
                <= 32767 by {
                lemma_counts_grow(h, n, k);
            }
            if n < h.len() && hot_tier::puts_again(h, n) {
                assert(h.take(n)[m] == h[m]);
            }
        }
    }
}

/// Once 65 insertions went by since every removal, any insertion leaves hidden what
/// is hidden, whatever its key and however many keys there are.
pub proof fn later_insertions_reveal_nothing(
    h: Seq<(Seq<char>, Option<(i32, Seq<u8>)>)>,
    e: (Seq<char>, Option<(i32, Seq<u8>)>),
)
    requires
        hot_tier::stays_hidden(h),
        e.1 is Some,
        forall|m: int|
            0 <= m < h.len() && (#[trigger] h[m]).1 is None ==> hot_tier::insertions(
                h.subrange(m, h.len() as int),
            ) > 64,
    ensures
        hot_tier::stays_hidden(h.push(e)),
{
    let longer = h.push(e);
    assert forall|m: int|
        0 <= m < longer.len() && (#[trigger] longer[m]).1 is None implies hot_tier::carried_out(
        longer,
        m,
    ) by {
        assert(h[m].1 is None);
        assert forall|n: int|
            m < n <= longer.len() && #[trigger] hot_tier::unsearched(longer, m, n) implies {
            &&& hot_tier::searchable(longer.take(n))
            &&& n < longer.len() ==> !hot_tier::puts_again(longer, n)
        } by {
            lemma_same_beginning(h, e, m, h.len() as int);
            if n <= h.len() {
                lemma_same_beginning(h, e, m, n);
                assert(hot_tier::unsearched(h, m, n));
            } else {
                assert(longer.subrange(m, n).drop_last() =~= h.subrange(m, h.len() as int));
            }
        }
    }
}

/// The weight of entries does not depend on the order in which they are counted.
proof fn lemma_total_without(m: Map<(Seq<char>, i32), Seq<u8>>, k: (Seq<char>, i32))
    requires
        m.dom().finite(),
        m.contains_key(k),
    ensures
        hot_tier::total_weight(m) == hot_tier::weight(m[k]) + hot_tier::total_weight(m.remove(k)),
    decreases m.dom().len(),
{
    let c = m.dom().choose();
    assert(m.dom().contains(k));
    assert(m.dom().contains(c));
    if c != k {
        assert(m.remove(c).dom() =~= m.dom().remove(c));
        assert(m.remove(k).dom() =~= m.dom().remove(k));
        lemma_total_without(m.remove(c), k);
        lemma_total_without(m.remove(k), c);
        assert(m.remove(c).remove(k) =~= m.remove(k).remove(c));
    }
}

/// Fewer entries weigh no more.
proof fn lemma_part_weighs_less(
    part: Map<(Seq<char>, i32), Seq<u8>>,
    m: Map<(Seq<char>, i32), Seq<u8>>,
)
    requires
        m.dom().finite(),
        part.submap_of(m),
    ensures
        part.dom().finite(),
        0 <= hot_tier::total_weight(part) <= hot_tier::total_weight(m),
    decreases m.dom().len(),
{
    if m.dom().len() == 0 {
        assert(m.dom() =~= Set::empty());
        assert(part.dom() =~= Set::empty());
    } else {
        let k = m.dom().choose();
        assert(m.dom().contains(k));
        assert(m.remove(k).dom() =~= m.dom().remove(k));
        assert(part.remove(k).submap_of(m.remove(k))) by {
            assert forall|x: (Seq<char>, i32)| #[trigger]
                part.remove(k).dom().contains(x) implies m.remove(k).dom().contains(x)
                && part.remove(k)[x] == m.remove(k)[x] by {
                assert(part.dom().contains(x));
            }
        }
        lemma_part_weighs_less(part.remove(k), m.remove(k));
        if part.contains_key(k) {
            assert(part.dom() =~= part.remove(k).dom().insert(k));
            lemma_total_without(part, k);
            assert(part.dom().contains(k) && m[k] == part[k]);
        } else {
            assert(part.remove(k) =~= part);
        }
    }
}

/// Only finitely many keys were put.
proof fn lemma_finitely_many_entries(
    m: Map<(Seq<char>, i32), Seq<u8>>,
    h: Seq<(Seq<char>, Option<(i32, Seq<u8>)>)>,
)
    requires
        forall|k: (Seq<char>, i32)| #[trigger]
            m.contains_key(k) ==> hot_tier::last_put(h, k) is Some,
    ensures
        m.dom().finite(),
    decreases h.len(),
{
    if h.len() == 0 {
        assert forall|k: (Seq<char>, i32)| !m.dom().contains(k) by {
            assert(!m.contains_key(k));
        }
        assert(m.dom() =~= Set::empty());
    } else {
        let k = hot_tier::key_put(h.last());
        let rest = if h.last().1 is Some {
            m.remove(k)
        } else {
            m
        };
        assert forall|x: (Seq<char>, i32)| #[trigger]
            rest.contains_key(x) implies hot_tier::last_put(h.drop_last(), x) is Some by {
            assert(m.contains_key(x));
        }
        lemma_finitely_many_entries(rest, h.drop_last());
        if m.contains_key(k) && h.last().1 is Some {
            assert(m.dom() =~= rest.dom().insert(k));
        } else {
            assert(m.dom() =~= rest.dom());
        }
    }
}

/// Removing a torrent keeps the tier within its bounds.
pub proof fn a_removal_keeps_to_the_bounds(
    m: Map<(Seq<char>, i32), Seq<u8>>,
    limit: u64,
    h: Seq<(Seq<char>, Option<(i32, Seq<u8>)>)>,
    hash: Seq<char>,
)
    requires
        hot_tier::all_latest(m, h),
        hot_tier::within_bounds(m, limit, h),
    ensures
        hot_tier::within_bounds(
            hot_tier::without_torrent(m, hash),
            limit,
            h.push((hash, None)),
        ),
{
    let longer = h.push((hash, None));
    assert(longer.drop_last() =~= h);
    if hot_tier::never_grows(longer) {
        assert forall|i: int, j: int|
            0 <= i < j < h.len() && (#[trigger] h[i]).1 is Some && (#[trigger] h[j]).1 is Some
                && hot_tier::key_put(h[i]) == hot_tier::key_put(h[j]) implies hot_tier::weight_put(h[j])
            <= hot_tier::weight_put(h[i]) by {
            assert(longer[i] == h[i] && longer[j] == h[j]);
        }
        lemma_finitely_many_entries(m, h);
        lemma_part_weighs_less(hot_tier::without_torrent(m, hash), m);
    }
}

/// A few insertions weigh at most as much as that many of the heaviest.
proof fn lemma_recent_insertions_are_light(
    h: Seq<(Seq<char>, Option<(i32, Seq<u8>)>)>,
    n: nat,
    heaviest: nat,
)
    requires
        forall|j: int| 0 <= j < h.len() ==> hot_tier::weight_put(#[trigger] h[j]) <= heaviest,
    ensures
        hot_tier::recent_weight(h, n) <= n * heaviest,
    decreases h.len(),
{
    if h.len() == 0 || n == 0 {
        assert(0 <= n * heaviest) by (nonlinear_arith);
    } else {
        let rest = h.drop_last();
        assert forall|j: int| 0 <= j < rest.len() implies hot_tier::weight_put(#[trigger] rest[j])
            <= heaviest by {
            assert(rest[j] == h[j]);
        }
        assert(hot_tier::weight_put(h[h.len() - 1]) <= heaviest);
        match h.last().1 {
            Some(_) => {
                lemma_recent_insertions_are_light(rest, (n - 1) as nat, heaviest);
                assert((n - 1) * heaviest + heaviest == n * heaviest) by (nonlinear_arith);
            },
            None => {
                lemma_recent_insertions_are_light(rest, n, heaviest);
            },
        }
    }
}

/// The hot tier is bounded in every state: its entries are finitely many, and they
/// weigh no more than the tier's size and 64 of the heaviest pieces together. No
/// piece was put again with more data than before.
pub proof fn the_hot_tier_is_bounded(m: CacheModel, heaviest: nat)
    requires
        m.valid(),
        hot_tier::never_grows(m.history),
        forall|j: int|
            0 <= j < m.history.len() ==> hot_tier::weight_put(#[trigger] m.history[j]) <= heaviest,
    ensures
        m.hot.dom().finite(),
        hot_tier::total_weight(m.hot) <= m.limit + 64 * heaviest,
{
    lemma_finitely_many_entries(m.hot, m.history);
    lemma_recent_insertions_are_light(m.history, 64, heaviest);
}

/// A piece weighs as many bytes as it has, up to what 32 bits hold.
pub proof fn a_piece_weighs_its_bytes(data: Seq<u8>)
    ensures
        data.len() <= 0xffff_ffff ==> hot_tier::weight(data) == data.len(),
        data.len() > 0xffff_ffff ==> hot_tier::weight(data) == 0xffff_ffff,
{
}

} // verus!
