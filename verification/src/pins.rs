//! Pin counts: how many readers are looking at a piece in the backend's memory.
//!
//! A piece with a non-zero count must not be freed there.

use crate::hot_tier::PieceKey;
use crate::table::Table;
use vstd::prelude::*;

verus! {

/// The number of pins on a piece.
pub open spec fn count_of(m: Map<(Seq<char>, i32), u32>, k: (Seq<char>, i32)) -> u32 {
    if m.contains_key(k) {
        m[k]
    } else {
        0
    }
}

/// The counts with one more pin on a piece.
pub open spec fn pinned(m: Map<(Seq<char>, i32), u32>, k: (Seq<char>, i32)) -> Map<
    (Seq<char>, i32),
    u32,
> {
    m.insert(k, (count_of(m, k) + 1) as u32)
}

/// The counts with one pin less on a piece; an unpinned piece has no entry.
pub open spec fn unpinned(m: Map<(Seq<char>, i32), u32>, k: (Seq<char>, i32)) -> Map<
    (Seq<char>, i32),
    u32,
> {
    if count_of(m, k) <= 1 {
        m.remove(k)
    } else {
        m.insert(k, (count_of(m, k) - 1) as u32)
    }
}

/// Only pinned pieces have an entry.
pub open spec fn all_positive(m: Map<(Seq<char>, i32), u32>) -> bool {
    forall|k: (Seq<char>, i32)| #[trigger] m.contains_key(k) ==> m[k] > 0
}

/// Pin counts by piece.
pub struct PinCounts {
    counts: Table<PieceKey, u32>,
}

impl View for PinCounts {
    type V = Map<(Seq<char>, i32), u32>;

    closed spec fn view(&self) -> Map<(Seq<char>, i32), u32> {
        self.counts@
    }
}

impl PinCounts {
    pub closed spec fn wf(self) -> bool {
        self.counts.wf() && all_positive(self.counts@)
    }

    /// Only pinned pieces have an entry.
    pub proof fn wf_is_positive(self)
        requires
            self.wf(),
        ensures
            all_positive(self@),
    {
    }

    pub fn new() -> (r: PinCounts)
        ensures
            r.wf(),
            r@ == Map::<(Seq<char>, i32), u32>::empty(),
    {
        PinCounts { counts: Table::new() }
    }

    /// The number of pins on a piece.
    pub fn count(&self, key: &PieceKey) -> (n: u32)
        requires
            self.wf(),
        ensures
            n == count_of(self@, key@),
    {
        match self.counts.get(key) {
            Some(c) => *c,
            None => 0,
        }
    }

    /// Adds a pin.
    pub fn pin(&mut self, key: &PieceKey)
        requires
            old(self).wf(),
            count_of(old(self)@, key@) < u32::MAX,
        ensures
            final(self).wf(),
            final(self)@ == pinned(old(self)@, key@),
    {
        let n: u32 = self.count(key);
        self.counts.insert((key.0.clone(), key.1), n + 1);
    }

    /// Takes a pin away. Nothing happens to a piece that is not pinned.
    pub fn unpin(&mut self, key: &PieceKey)
        requires
            old(self).wf(),
        ensures
            final(self).wf(),
            final(self)@ == unpinned(old(self)@, key@),
    {
        let n: u32 = self.count(key);
        if n <= 1 {
            self.counts.remove(key);
        } else {
            self.counts.insert((key.0.clone(), key.1), n - 1);
        }
    }
}

/// A pin that is taken away again leaves no trace.
pub proof fn unpinning_undoes_pinning(m: Map<(Seq<char>, i32), u32>, k: (Seq<char>, i32))
    requires
        all_positive(m),
        count_of(m, k) < u32::MAX,
    ensures
        unpinned(pinned(m, k), k) == m,
{
    assert(unpinned(pinned(m, k), k) =~= m);
}

/// Pins on different pieces do not touch each other.
pub proof fn pins_are_independent(
    m: Map<(Seq<char>, i32), u32>,
    k: (Seq<char>, i32),
    other: (Seq<char>, i32),
)
    requires
        k != other,
    ensures
        count_of(pinned(m, k), other) == count_of(m, other),
        count_of(unpinned(m, k), other) == count_of(m, other),
{
}

/// How often a piece occurs in a list.
pub open spec fn times(s: Seq<(Seq<char>, i32)>, k: (Seq<char>, i32)) -> nat
    decreases s.len(),
{
    if s.len() == 0 {
        0
    } else {
        times(s.drop_last(), k) + if s.last() == k {
            1nat
        } else {
            0nat
        }
    }
}

/// The counts after all pieces of a list were pinned.
pub open spec fn pinned_all(m: Map<(Seq<char>, i32), u32>, s: Seq<(Seq<char>, i32)>) -> Map<
    (Seq<char>, i32),
    u32,
>
    decreases s.len(),
{
    if s.len() == 0 {
        m
    } else {
        pinned(pinned_all(m, s.drop_last()), s.last())
    }
}

/// The counts after all pieces of a list were unpinned.
pub open spec fn unpinned_all(m: Map<(Seq<char>, i32), u32>, s: Seq<(Seq<char>, i32)>) -> Map<
    (Seq<char>, i32),
    u32,
>
    decreases s.len(),
{
    if s.len() == 0 {
        m
    } else {
        unpinned(unpinned_all(m, s.drop_last()), s.last())
    }
}

/// Every pin of a list counts once.
proof fn lemma_pins_add_up(m: Map<(Seq<char>, i32), u32>, s: Seq<(Seq<char>, i32)>)
    requires
        all_positive(m),
        forall|k: (Seq<char>, i32)| count_of(m, k) + #[trigger] times(s, k) <= u32::MAX,
    ensures
        all_positive(pinned_all(m, s)),
        forall|k: (Seq<char>, i32)| #[trigger]
            count_of(pinned_all(m, s), k) == count_of(m, k) + times(s, k),
    decreases s.len(),
{
    if s.len() > 0 {
        let rest = s.drop_last();
        assert forall|k: (Seq<char>, i32)| count_of(m, k) + #[trigger] times(rest, k)
            <= u32::MAX by {
            assert(times(rest, k) <= times(s, k));
        }
        lemma_pins_add_up(m, rest);
        let last = s.last();
        assert(count_of(pinned_all(m, rest), last) == count_of(m, last) + times(rest, last));
        assert(count_of(m, last) + times(s, last) <= u32::MAX);
        assert forall|k: (Seq<char>, i32)| #[trigger] count_of(pinned_all(m, s), k) == count_of(m, k)
            + times(s, k) by {
            assert(count_of(pinned_all(m, rest), k) == count_of(m, k) + times(rest, k));
            assert(count_of(m, k) + times(s, k) <= u32::MAX);
        }
    }
}

/// Every pin of a list that is taken away counts once.
proof fn lemma_unpins_add_up(m: Map<(Seq<char>, i32), u32>, s: Seq<(Seq<char>, i32)>)
    requires
        all_positive(m),
        forall|k: (Seq<char>, i32)| #[trigger] times(s, k) <= count_of(m, k),
    ensures
        all_positive(unpinned_all(m, s)),
        forall|k: (Seq<char>, i32)| #[trigger]
            count_of(unpinned_all(m, s), k) == count_of(m, k) - times(s, k),
    decreases s.len(),
{
    if s.len() > 0 {
        let rest = s.drop_last();
        assert forall|k: (Seq<char>, i32)| #[trigger] times(rest, k) <= count_of(m, k) by {
            assert(times(rest, k) <= times(s, k));
        }
        lemma_unpins_add_up(m, rest);
        assert forall|k: (Seq<char>, i32)| #[trigger] count_of(unpinned_all(m, s), k) == count_of(
            m,
            k,
        ) - times(s, k) by {
            assert(count_of(unpinned_all(m, rest), k) == count_of(m, k) - times(rest, k));
            assert(times(s, k) <= count_of(m, k));
        }
    }
}

/// Any number of pins, on any pieces and with repetitions, that are taken away
/// again in any order leave no trace.
pub proof fn pins_released_in_any_order_leave_no_trace(
    m: Map<(Seq<char>, i32), u32>,
    taken: Seq<(Seq<char>, i32)>,
    released: Seq<(Seq<char>, i32)>,
)
    requires
        all_positive(m),
        forall|k: (Seq<char>, i32)| count_of(m, k) + #[trigger] times(taken, k) <= u32::MAX,
        forall|k: (Seq<char>, i32)| #[trigger] times(released, k) == times(taken, k),
    ensures
        unpinned_all(pinned_all(m, taken), released) == m,
{
    lemma_pins_add_up(m, taken);
    let high = pinned_all(m, taken);
    assert forall|k: (Seq<char>, i32)| #[trigger] times(released, k) <= count_of(high, k) by {
        assert(times(released, k) == times(taken, k));
    }
    lemma_unpins_add_up(high, released);
    let low = unpinned_all(high, released);
    assert forall|k: (Seq<char>, i32)| count_of(low, k) == count_of(m, k) by {
        assert(times(released, k) == times(taken, k));
        assert(count_of(high, k) == count_of(m, k) + times(taken, k));
    }
    assert forall|k: (Seq<char>, i32)| low.contains_key(k) == m.contains_key(k) by {
        assert(count_of(low, k) == count_of(m, k));
    }
    assert forall|k: (Seq<char>, i32)| m.contains_key(k) implies low[k] == m[k] by {
        assert(count_of(low, k) == count_of(m, k));
    }
    assert(low =~= m);
}

/// A pin that is taken away counts one down, and the entry of the last one goes.
pub proof fn unpinning_counts_down(m: Map<(Seq<char>, i32), u32>, k: (Seq<char>, i32))
    requires
        all_positive(m),
        m.contains_key(k),
    ensures
        m[k] > 1 ==> unpinned(m, k).contains_key(k) && unpinned(m, k)[k] == m[k] - 1,
        m[k] == 1 ==> !unpinned(m, k).contains_key(k),
        all_positive(unpinned(m, k)),
{
}

/// A pin adds one to the count of its piece, a piece without an entry counting zero; a
/// pin that is taken away subtracts one, and the entry goes with the last. No other
/// entry is touched by either.
pub proof fn pins_count_one_at_a_time(
    m: Map<(Seq<char>, i32), u32>,
    k: (Seq<char>, i32),
    other: (Seq<char>, i32),
)
    ensures
        m.contains_key(k) ==> count_of(m, k) == m[k],
        !m.contains_key(k) ==> count_of(m, k) == 0,
        pinned(m, k).contains_key(k),
        !m.contains_key(k) ==> pinned(m, k)[k] == 1,
        m.contains_key(k) && m[k] < u32::MAX ==> pinned(m, k)[k] == m[k] + 1,
        !m.contains_key(k) ==> unpinned(m, k) == m,
        m.contains_key(k) && m[k] <= 1 ==> !unpinned(m, k).contains_key(k),
        m.contains_key(k) && m[k] > 1 ==> unpinned(m, k).contains_key(k) && unpinned(m, k)[k] == m[k]
            - 1,
        other != k ==> {
            &&& pinned(m, k).contains_key(other) == m.contains_key(other)
            &&& unpinned(m, k).contains_key(other) == m.contains_key(other)
            &&& m.contains_key(other) ==> pinned(m, k)[other] == m[other] && unpinned(m, k)[other]
                == m[other]
        },
{
    if !m.contains_key(k) {
        assert(unpinned(m, k) =~= m);
    }
}

} // verus!
