//! The eviction drain: what becomes of pieces that left the hot tier.
//!
//! A piece is written to the warm tier first. Only a piece that was written, and
//! that no reader has pinned, is freed in the backend's memory; a pinned one is
//! kept on a list and looked at again later.

use crate::hot_tier::EvictedPiece;
use crate::pins;
use crate::pins::PinCounts;
use crate::warm::WarmModel;
use crate::warm::WriteEvent;
use crate::warm::WriteJob;
use crate::warm::WriteStep;
use vstd::prelude::*;

verus! {

/// How long to wait for the next piece while others are held back by readers.
pub const RETRY_INTERVAL_MS: u64 = 50;

/// A piece that is on disk but whose memory a reader may still be using.
pub struct DeferredEviction {
    pub info_hash: String,
    pub piece_idx: i32,
}

impl View for DeferredEviction {
    type V = (Seq<char>, i32);

    open spec fn view(&self) -> (Seq<char>, i32) {
        (self.info_hash@, self.piece_idx)
    }
}

/// How to wait for the next piece.
#[derive(Clone, Copy, Debug, PartialEq, Eq, Structural)]
pub enum Receive {
    /// Until one arrives.
    Block,
    /// At most this long.
    Within { millis: u64 },
}

/// How the wait ended.
pub enum Received {
    Piece(EvictedPiece),
    TimedOut,
    Disconnected,
}

/// What the drain does after a wait.
pub enum DrainStep {
    /// Write this piece to the warm tier.
    Persist(EvictedPiece),
    /// Look at the deferred pieces again.
    Retry,
    /// The cache is gone; the drain ends.
    Stop,
}

/// The pieces of a list, by hash and index.
pub open spec fn ids(s: Seq<DeferredEviction>) -> Seq<(Seq<char>, i32)> {
    s.map_values(|d: DeferredEviction| d@)
}

/// The pieces that some reader has pinned, in order.
pub open spec fn held(s: Seq<(Seq<char>, i32)>, m: Map<(Seq<char>, i32), u32>) -> Seq<
    (Seq<char>, i32),
> {
    s.filter(|k: (Seq<char>, i32)| pins::count_of(m, k) > 0)
}

/// The pieces that no reader has pinned, in order.
pub open spec fn free(s: Seq<(Seq<char>, i32)>, m: Map<(Seq<char>, i32), u32>) -> Seq<
    (Seq<char>, i32),
> {
    s.filter(|k: (Seq<char>, i32)| pins::count_of(m, k) == 0)
}

/// The state of the drain: the pieces whose release is deferred, oldest first.
pub struct DrainTask {
    deferred: Vec<DeferredEviction>,
}

impl View for DrainTask {
    type V = Seq<(Seq<char>, i32)>;

    closed spec fn view(&self) -> Seq<(Seq<char>, i32)> {
        ids(self.deferred@)
    }
}

impl DrainTask {
    pub fn new() -> (r: DrainTask)
        ensures
            r@.len() == 0,
    {
        DrainTask { deferred: Vec::new() }
    }

    /// Takes the pieces that are no longer pinned off the list and returns them, to
    /// be freed. Both lists keep the order in which the pieces were deferred.
    pub fn retry_deferred(&mut self, pins: &PinCounts) -> (freed: Vec<DeferredEviction>)
        requires
            pins.wf(),
        ensures
            final(self)@ == held(old(self)@, pins@),
            ids(freed@) == free(old(self)@, pins@),
    {
        let ghost all = self@;
        let mut still_pinned: Vec<DeferredEviction> = Vec::new();
        let mut freed: Vec<DeferredEviction> = Vec::new();
        let mut i: usize = 0;
        while i < self.deferred.len()
            invariant
                pins.wf(),
                all == ids(self.deferred@),
                i <= self.deferred.len(),
                ids(still_pinned@) == held(all.take(i as int), pins@),
                ids(freed@) == free(all.take(i as int), pins@),
            decreases self.deferred.len() - i,
        {
            proof {
                lemma_split_step(all, i as int, pins@);
            }
            let d = &self.deferred[i];
            let key = (d.info_hash.clone(), d.piece_idx);
            let ev = DeferredEviction { info_hash: d.info_hash.clone(), piece_idx: d.piece_idx };
            let ghost was_pinned = still_pinned@;
            let ghost was_freed = freed@;
            if pins.count(&key) > 0 {
                still_pinned.push(ev);
                assert(ids(still_pinned@) =~= ids(was_pinned).push(ev@));
            } else {
                freed.push(ev);
                assert(ids(freed@) =~= ids(was_freed).push(ev@));
            }
            i += 1;
        }
        assert(all.take(all.len() as int) =~= all);
        self.deferred = still_pinned;
        freed
    }

    /// How to wait for the next piece: with pieces on the list, only briefly.
    pub fn next_receive(&self) -> (r: Receive)
        ensures
            r == (if self@.len() == 0 {
                Receive::Block
            } else {
                Receive::Within { millis: RETRY_INTERVAL_MS }
            }),
    {
        if self.deferred.len() == 0 {
            Receive::Block
        } else {
            Receive::Within { millis: RETRY_INTERVAL_MS }
        }
    }

    /// What follows a wait.
    pub fn on_received(outcome: Received) -> (step: DrainStep)
        ensures
            match outcome {
                Received::Piece(p) => step == DrainStep::Persist(p),
                Received::TimedOut => step is Retry,
                Received::Disconnected => step is Stop,
            },
    {
        match outcome {
            Received::Piece(p) => DrainStep::Persist(p),
            Received::TimedOut => DrainStep::Retry,
            Received::Disconnected => DrainStep::Stop,
        }
    }

    /// Takes note of how the write of a piece to the warm tier ended, a write that
    /// could not begin counting as failed, and returns the piece to be freed. A piece that was not written stays in the backend's
    /// memory for good; one that was written but is pinned joins the list.
    pub fn on_written(
        &mut self,
        info_hash: &String,
        piece_idx: i32,
        outcome: WriteStep,
        pins: &PinCounts,
    ) -> (freed: Option<DeferredEviction>)
        requires
            pins.wf(),
        ensures
            final(self)@ == (if outcome is Persisted && pins::count_of(
                pins@,
                (info_hash@, piece_idx),
            ) > 0 {
                old(self)@.push((info_hash@, piece_idx))
            } else {
                old(self)@
            }),
            match freed {
                Some(d) => {
                    &&& outcome is Persisted
                    &&& pins::count_of(pins@, (info_hash@, piece_idx)) == 0
                    &&& d@ == (info_hash@, piece_idx)
                },
                None => {
                    ||| !(outcome is Persisted)
                    ||| pins::count_of(pins@, (info_hash@, piece_idx)) > 0
                },
            },
    {
        match outcome {
            WriteStep::Persisted => {},
            _ => {
                return None;
            },
        }
        let key = (info_hash.clone(), piece_idx);
        let ev = DeferredEviction { info_hash: info_hash.clone(), piece_idx };
        if pins.count(&key) > 0 {
            let ghost before = self.deferred@;
            self.deferred.push(ev);
            assert(ids(self.deferred@) =~= ids(before).push(ev@));
            None
        } else {
            Some(ev)
        }
    }
}

/// The next piece goes to one of the two lists.
proof fn lemma_split_step(s: Seq<(Seq<char>, i32)>, i: int, m: Map<(Seq<char>, i32), u32>)
    requires
        0 <= i < s.len(),
    ensures
        held(s.take(i + 1), m) == (if pins::count_of(m, s[i]) > 0 {
            held(s.take(i), m).push(s[i])
        } else {
            held(s.take(i), m)
        }),
        free(s.take(i + 1), m) == (if pins::count_of(m, s[i]) > 0 {
            free(s.take(i), m)
        } else {
            free(s.take(i), m).push(s[i])
        }),
{
    reveal(Seq::filter);
    assert(s.take(i + 1).drop_last() =~= s.take(i));
    assert(s.take(i + 1).last() == s[i]);
}

/// Looking at the deferred pieces again loses none of them, frees no pinned one
/// and keeps no unpinned one.
pub proof fn a_retry_loses_nothing(s: Seq<(Seq<char>, i32)>, m: Map<(Seq<char>, i32), u32>)
    ensures
        held(s, m).len() + free(s, m).len() == s.len(),
        held(s, m).to_multiset().add(free(s, m).to_multiset()) == s.to_multiset(),
        forall|i: int| 0 <= i < held(s, m).len() ==> pins::count_of(m, #[trigger] held(s, m)[i]) > 0,
        forall|i: int| 0 <= i < free(s, m).len() ==> pins::count_of(m, #[trigger] free(s, m)[i]) == 0,
    decreases s.len(),
{
    reveal(Seq::filter);
    broadcast use vstd::seq_lib::group_to_multiset_ensures;

    if s.len() > 0 {
        let rest = s.drop_last();
        a_retry_loses_nothing(rest, m);
        assert(s =~= rest.push(s.last()));
    }
    assert(held(s, m).to_multiset().add(free(s, m).to_multiset()) =~= s.to_multiset());
}

/// Every piece of a list is in the warm tier.
pub open spec fn all_stored(s: Seq<(Seq<char>, i32)>, w: WarmModel) -> bool {
    forall|i: int| 0 <= i < s.len() ==> w.has((#[trigger] s[i]).0, s[i].1)
}

/// Pieces that wait to be freed stay in the warm tier whatever is written next, and
/// a piece joins them, or is freed, only once it is stored itself. So what a retry
/// frees is stored, as long as its torrent is not removed.
pub proof fn only_stored_pieces_are_freed(
    s: Seq<(Seq<char>, i32)>,
    w: WarmModel,
    job: WriteJob,
    event: WriteEvent,
    m: Map<(Seq<char>, i32), u32>,
)
    requires
        w.valid(),
        w.awaits(job, event),
        all_stored(s, w),
    ensures
        all_stored(s, w.after(job, event)),
        w.step_after(job, event) is Persisted ==> all_stored(
            s.push((job.info_hash@, job.piece_idx)),
            w.after(job, event),
        ),
        all_stored(free(s, m), w),
        all_stored(held(s, m), w),
{
    let w2 = w.after(job, event);
    assert forall|i: int| 0 <= i < s.len() implies w2.has((#[trigger] s[i]).0, s[i].1) by {
        assert(w.has(s[i].0, s[i].1));
    }
    lemma_filter_keeps_stored(s, w, |k: (Seq<char>, i32)| pins::count_of(m, k) == 0);
    lemma_filter_keeps_stored(s, w, |k: (Seq<char>, i32)| pins::count_of(m, k) > 0);
}

proof fn lemma_filter_keeps_stored(
    s: Seq<(Seq<char>, i32)>,
    w: WarmModel,
    p: spec_fn((Seq<char>, i32)) -> bool,
)
    requires
        all_stored(s, w),
    ensures
        all_stored(s.filter(p), w),
{
    let f = s.filter(p);
    assert forall|i: int| 0 <= i < f.len() implies w.has((#[trigger] f[i]).0, f[i].1) by {
        s.lemma_filter_contains_rev(p, f[i]);
        let j = choose|j: int| 0 <= j < s.len() && s[j] == f[i];
        assert(w.has(s[j].0, s[j].1));
    }
}

/// A retry judges each deferred piece alone, in the order of the list: the piece is
/// kept behind those that are kept before it while it has pins, and else freed behind
/// those that are freed before it.
pub proof fn each_deferred_piece_is_judged_alone(
    s: Seq<(Seq<char>, i32)>,
    k: (Seq<char>, i32),
    m: Map<(Seq<char>, i32), u32>,
)
    ensures
        held(Seq::empty(), m).len() == 0,
        free(Seq::empty(), m).len() == 0,
        m.contains_key(k) && m[k] > 0 ==> held(s.push(k), m) == held(s, m).push(k) && free(
            s.push(k),
            m,
        ) == free(s, m),
        !m.contains_key(k) || m[k] == 0 ==> held(s.push(k), m) == held(s, m) && free(s.push(k), m)
            == free(s, m).push(k),
{
    reveal(Seq::filter);
    assert(s.push(k).drop_last() =~= s);
}

/// A list of deferred pieces is seen piece by piece, each by its hash and index.
pub proof fn deferred_pieces_are_seen_as_they_are(s: Seq<DeferredEviction>, i: int)
    requires
        0 <= i < s.len(),
    ensures
        ids(s).len() == s.len(),
        ids(s)[i] == (s[i].info_hash@, s[i].piece_idx),
{
}

/// While pieces are deferred the drain looks at them again every 50 milliseconds.
pub proof fn the_time_between_retries()
    ensures
        RETRY_INTERVAL_MS == 50,
{
}

} // verus!
