//! Grace periods: when an engine that nobody streams is paused, and when it is
//! removed.
//!
//! An engine whose last stream closed is first left alone, so that a player can
//! reconnect; then its downloads are paused while the peers are kept; then it is
//! removed. An engine that was never streamed is only removed, after a longer time.

use crate::engine::EngineState;
use crate::table::Table;
use vstd::prelude::*;

verus! {

/// Seconds after which an engine that was never streamed is removed.
pub const IDLE_ENGINE_TIMEOUT_SECS: u64 = 300;

/// Seconds between two looks at the engines.
pub const TICK_SECS: u64 = 5;

/// What becomes of an engine.
#[derive(Clone, Copy, Debug, PartialEq, Eq, Structural)]
pub enum Verdict {
    /// It is being streamed.
    Active,
    /// Nothing yet.
    Keep,
    /// Its downloads are paused.
    Pause,
    /// It is removed.
    Remove,
}

/// Seconds from `then` to `now`, none if `then` is still to come.
pub open spec fn secs_since(then: i64, now: i64) -> int {
    if now >= then {
        now - then
    } else {
        0
    }
}

/// What becomes of an engine in this state; `paused` tells whether its downloads
/// were paused since it was last streamed.
pub open spec fn verdict_on(
    s: EngineState,
    paused: bool,
    now: i64,
    pause_secs: u64,
    remove_secs: u64,
) -> Verdict {
    if s.active_streams > 0 {
        Verdict::Active
    } else if s.inactive_since == 0 {
        if secs_since(s.last_accessed, now) >= IDLE_ENGINE_TIMEOUT_SECS {
            Verdict::Remove
        } else {
            Verdict::Keep
        }
    } else if s.inactive_since < 0 {
        Verdict::Keep
    } else if secs_since(s.inactive_since, now) >= remove_secs {
        Verdict::Remove
    } else if secs_since(s.inactive_since, now) >= pause_secs && !paused {
        Verdict::Pause
    } else {
        Verdict::Keep
    }
}

/// The times that matter can be subtracted.
pub open spec fn is_measurable(s: EngineState, now: i64) -> bool {
    s.active_streams == 0 ==> {
        &&& s.inactive_since == 0 ==> i64::MIN <= now - s.last_accessed <= i64::MAX
        &&& s.inactive_since > 0 ==> i64::MIN <= now - s.inactive_since
    }
}

/// What becomes of an engine in this state.
pub fn verdict(s: EngineState, paused: bool, now: i64, pause_secs: u64, remove_secs: u64) -> (v:
    Verdict)
    requires
        is_measurable(s, now),
    ensures
        v == verdict_on(s, paused, now, pause_secs, remove_secs),
{
    if s.active_streams > 0 {
        return Verdict::Active;
    }
    if s.inactive_since == 0 {
        let secs: u64 = at_least_zero(now - s.last_accessed);
        if secs >= IDLE_ENGINE_TIMEOUT_SECS {
            return Verdict::Remove;
        }
        return Verdict::Keep;
    }
    if s.inactive_since < 0 {
        return Verdict::Keep;
    }
    let secs: u64 = at_least_zero(now - s.inactive_since);
    if secs >= remove_secs {
        Verdict::Remove
    } else if secs >= pause_secs && !paused {
        Verdict::Pause
    } else {
        Verdict::Keep
    }
}

fn at_least_zero(d: i64) -> (r: u64)
    ensures
        r == (if d < 0 {
            0
        } else {
            d as int
        }),
{
    if d < 0 {
        0
    } else {
        d as u64
    }
}

/// The engines of a registry, as of one moment.
pub open spec fn states(s: Seq<(String, EngineState)>) -> Seq<(Seq<char>, EngineState)> {
    s.map_values(|e: (String, EngineState)| (e.0@, e.1))
}

/// Each engine is listed once.
pub open spec fn is_listing(s: Seq<(Seq<char>, EngineState)>) -> bool {
    forall|i: int, j: int| 0 <= i < j < s.len() ==> (#[trigger] s[i]).0 != (#[trigger] s[j]).0
}

/// The hashes of the listed engines with a verdict, in order.
pub open spec fn with_verdict(
    s: Seq<(Seq<char>, EngineState)>,
    v: Verdict,
    paused: Set<Seq<char>>,
    now: i64,
    pause_secs: u64,
    remove_secs: u64,
) -> Seq<Seq<char>> {
    s.filter(
        |e: (Seq<char>, EngineState)|
            verdict_on(e.1, paused.contains(e.0), now, pause_secs, remove_secs) == v,
    ).map_values(|e: (Seq<char>, EngineState)| e.0)
}

/// The listed engine at `i` loses its mark as paused: it is streamed again, or it
/// goes.
pub open spec fn loses_mark(
    s: Seq<(Seq<char>, EngineState)>,
    i: int,
    h: Seq<char>,
    now: i64,
    pause_secs: u64,
    remove_secs: u64,
) -> bool {
    &&& 0 <= i < s.len()
    &&& s[i].0 == h
    &&& {
        let v = verdict_on(s[i].1, true, now, pause_secs, remove_secs);
        v == Verdict::Active || v == Verdict::Remove
    }
}

/// The engines that are marked as paused after a look at a listing.
pub open spec fn marks_after(
    paused: Set<Seq<char>>,
    s: Seq<(Seq<char>, EngineState)>,
    now: i64,
    pause_secs: u64,
    remove_secs: u64,
) -> Set<Seq<char>> {
    Set::new(
        |h: Seq<char>|
            paused.contains(h) && !(exists|i: int|
                loses_mark(s, i, h, now, pause_secs, remove_secs)),
    )
}

/// The hashes of a list.
pub open spec fn hashes(s: Seq<String>) -> Seq<Seq<char>> {
    s.map_values(|h: String| h@)
}

/// What to do after a look at the engines.
pub struct GraceActions {
    pub to_pause: Vec<String>,
    pub to_remove: Vec<String>,
}

/// Remembers which engines were paused since they were last streamed.
pub struct GraceTask {
    paused: Table<String, bool>,
}

impl View for GraceTask {
    type V = Set<Seq<char>>;

    closed spec fn view(&self) -> Set<Seq<char>> {
        self.paused@.dom()
    }
}

impl GraceTask {
    pub closed spec fn wf(self) -> bool {
        self.paused.wf()
    }

    pub fn new() -> (g: GraceTask)
        ensures
            g.wf(),
            g@ == Set::<Seq<char>>::empty(),
    {
        let g = GraceTask { paused: Table::new() };
        assert(g@ =~= Set::<Seq<char>>::empty());
        g
    }

    /// Looks at a listing of the engines and says which to pause and which to
    /// remove.
    pub fn tick(
        &mut self,
        engines: &Vec<(String, EngineState)>,
        now: i64,
        pause_secs: u64,
        remove_secs: u64,
    ) -> (actions: GraceActions)
        requires
            old(self).wf(),
            is_listing(states(engines@)),
            forall|i: int| 0 <= i < engines.len() ==> is_measurable(#[trigger] engines[i].1, now),
        ensures
            final(self).wf(),
            final(self)@ == marks_after(old(self)@, states(engines@), now, pause_secs, remove_secs),
            hashes(actions.to_pause@) == with_verdict(
                states(engines@),
                Verdict::Pause,
                old(self)@,
                now,
                pause_secs,
                remove_secs,
            ),
            hashes(actions.to_remove@) == with_verdict(
                states(engines@),
                Verdict::Remove,
                old(self)@,
                now,
                pause_secs,
                remove_secs,
            ),
    {
        let ghost all = states(engines@);
        let ghost marks = self@;
        let mut to_pause: Vec<String> = Vec::new();
        let mut to_remove: Vec<String> = Vec::new();
        let mut i: usize = 0;
        assert(self@ =~= marks_after(marks, all.take(0), now, pause_secs, remove_secs));
        while i < engines.len()
            invariant
                i <= engines.len(),
                self.wf(),
                all == states(engines@),
                is_listing(all),
                forall|j: int|
                    0 <= j < engines.len() ==> is_measurable(#[trigger] engines[j].1, now),
                self@ == marks_after(marks, all.take(i as int), now, pause_secs, remove_secs),
                hashes(to_pause@) == with_verdict(
                    all.take(i as int),
                    Verdict::Pause,
                    marks,
                    now,
                    pause_secs,
                    remove_secs,
                ),
                hashes(to_remove@) == with_verdict(
                    all.take(i as int),
                    Verdict::Remove,
                    marks,
                    now,
                    pause_secs,
                    remove_secs,
                ),
            decreases engines.len() - i,
        {
            let hash = &engines[i].0;
            let state = engines[i].1;
            let paused = self.paused.contains(hash);
            let ghost h = hash@;
            let ghost was = self@;
            let v = verdict(state, paused, now, pause_secs, remove_secs);
            proof {
                assert(all[i as int] == (h, state));
                lemma_mark_is_current(marks, all, i as int, now, pause_secs, remove_secs);
                lemma_verdict_step(all, i as int, Verdict::Pause, marks, now, pause_secs, remove_secs);
                lemma_verdict_step(all, i as int, Verdict::Remove, marks, now, pause_secs, remove_secs);
                lemma_marks_step(marks, all, i as int, now, pause_secs, remove_secs);
            }
            let ghost was_pause = to_pause@;
            let ghost was_remove = to_remove@;
            match v {
                Verdict::Active => {
                    self.paused.remove(hash);
                    assert(self@ =~= was.remove(h));
                },
                Verdict::Remove => {
                    to_remove.push(hash.clone());
                    assert(hashes(to_remove@) =~= hashes(was_remove).push(h));
                    self.paused.remove(hash);
                    assert(self@ =~= was.remove(h));
                },
                Verdict::Pause => {
                    to_pause.push(hash.clone());
                    assert(hashes(to_pause@) =~= hashes(was_pause).push(h));
                },
                Verdict::Keep => {},
            }
            i += 1;
        }
        assert(all.take(all.len() as int) =~= all);
        GraceActions { to_pause, to_remove }
    }

    /// Takes note that an engine's downloads were paused.
    pub fn note_paused(&mut self, hash: String)
        requires
            old(self).wf(),
        ensures
            final(self).wf(),
            final(self)@ == old(self)@.insert(hash@),
    {
        self.paused.insert(hash, true);
        assert(self@ =~= old(self)@.insert(hash@));
    }
}

/// No earlier engine of a listing changes the mark of the next one.
proof fn lemma_mark_is_current(
    paused: Set<Seq<char>>,
    s: Seq<(Seq<char>, EngineState)>,
    i: int,
    now: i64,
    pause_secs: u64,
    remove_secs: u64,
)
    requires
        is_listing(s),
        0 <= i < s.len(),
    ensures
        marks_after(paused, s.take(i), now, pause_secs, remove_secs).contains(s[i].0)
            == paused.contains(s[i].0),
{
    let h = s[i].0;
    assert forall|j: int| !loses_mark(s.take(i), j, h, now, pause_secs, remove_secs) by {
        if 0 <= j < i {
            assert(s.take(i)[j] == s[j]);
            assert(s[j].0 != s[i].0);
        }
    }
}

/// The next engine of a listing joins the engines with its verdict.
proof fn lemma_verdict_step(
    s: Seq<(Seq<char>, EngineState)>,
    i: int,
    v: Verdict,
    paused: Set<Seq<char>>,
    now: i64,
    pause_secs: u64,
    remove_secs: u64,
)
    requires
        0 <= i < s.len(),
    ensures
        with_verdict(s.take(i + 1), v, paused, now, pause_secs, remove_secs) == (if verdict_on(
            s[i].1,
            paused.contains(s[i].0),
            now,
            pause_secs,
            remove_secs,
        ) == v {
            with_verdict(s.take(i), v, paused, now, pause_secs, remove_secs).push(s[i].0)
        } else {
            with_verdict(s.take(i), v, paused, now, pause_secs, remove_secs)
        }),
{
    reveal(Seq::filter);
    let p = |e: (Seq<char>, EngineState)|
        verdict_on(e.1, paused.contains(e.0), now, pause_secs, remove_secs) == v;
    let f = |e: (Seq<char>, EngineState)| e.0;
    assert(s.take(i + 1).drop_last() =~= s.take(i));
    assert(s.take(i + 1).last() == s[i]);
    assert(s.take(i).filter(p).push(s[i]).map_values(f) =~= s.take(i).filter(p).map_values(f).push(
        s[i].0,
    ));
}

/// The next engine of a listing takes at most its own mark away.
proof fn lemma_marks_step(
    paused: Set<Seq<char>>,
    s: Seq<(Seq<char>, EngineState)>,
    i: int,
    now: i64,
    pause_secs: u64,
    remove_secs: u64,
)
    requires
        0 <= i < s.len(),
    ensures
        marks_after(paused, s.take(i + 1), now, pause_secs, remove_secs) == (if loses_mark(
            s,
            i,
            s[i].0,
            now,
            pause_secs,
            remove_secs,
        ) {
            marks_after(paused, s.take(i), now, pause_secs, remove_secs).remove(s[i].0)
        } else {
            marks_after(paused, s.take(i), now, pause_secs, remove_secs)
        }),
{
    let shorter = s.take(i);
    let longer = s.take(i + 1);
    let before = marks_after(paused, shorter, now, pause_secs, remove_secs);
    let after = marks_after(paused, longer, now, pause_secs, remove_secs);
    assert forall|h: Seq<char>| #[trigger]
        after.contains(h) == (before.contains(h) && !loses_mark(
            s,
            i,
            h,
            now,
            pause_secs,
            remove_secs,
        )) by {
        if exists|j: int| loses_mark(longer, j, h, now, pause_secs, remove_secs) {
            let j = choose|j: int| loses_mark(longer, j, h, now, pause_secs, remove_secs);
            if j < i {
                assert(longer[j] == shorter[j]);
                assert(loses_mark(shorter, j, h, now, pause_secs, remove_secs));
            }
        }
        if loses_mark(s, i, h, now, pause_secs, remove_secs) {
            assert(loses_mark(longer, i, h, now, pause_secs, remove_secs));
        }
        if exists|j: int| loses_mark(shorter, j, h, now, pause_secs, remove_secs) {
            let j = choose|j: int| loses_mark(shorter, j, h, now, pause_secs, remove_secs);
            assert(longer[j] == shorter[j]);
            assert(loses_mark(longer, j, h, now, pause_secs, remove_secs));
        }
    }
    if loses_mark(s, i, s[i].0, now, pause_secs, remove_secs) {
        assert(after =~= before.remove(s[i].0));
    } else {
        assert(after =~= before);
    }
}

/// An engine that is being streamed is neither paused nor removed.
pub proof fn a_streamed_engine_is_left_alone(
    s: EngineState,
    paused: bool,
    now: i64,
    pause_secs: u64,
    remove_secs: u64,
)
    requires
        s.active_streams > 0 || s.inactive_since < 0,
    ensures
        verdict_on(s, paused, now, pause_secs, remove_secs) != Verdict::Pause,
        verdict_on(s, paused, now, pause_secs, remove_secs) != Verdict::Remove,
{
}

/// No look at a listing pauses or removes an engine that is being streamed.
pub proof fn a_look_spares_streamed_engines(
    paused: Set<Seq<char>>,
    s: Seq<(Seq<char>, EngineState)>,
    i: int,
    now: i64,
    pause_secs: u64,
    remove_secs: u64,
)
    requires
        is_listing(s),
        0 <= i < s.len(),
        s[i].1.active_streams > 0 || s[i].1.inactive_since < 0,
    ensures
        !with_verdict(s, Verdict::Pause, paused, now, pause_secs, remove_secs).contains(s[i].0),
        !with_verdict(s, Verdict::Remove, paused, now, pause_secs, remove_secs).contains(s[i].0),
{
    let h = s[i].0;
    a_streamed_engine_is_left_alone(s[i].1, paused.contains(h), now, pause_secs, remove_secs);
    if with_verdict(s, Verdict::Pause, paused, now, pause_secs, remove_secs).contains(h) {
        let j = lemma_verdict_source(s, Verdict::Pause, paused, now, pause_secs, remove_secs, h);
        lemma_listed_once(s, i, j);
    }
    if with_verdict(s, Verdict::Remove, paused, now, pause_secs, remove_secs).contains(h) {
        let j = lemma_verdict_source(s, Verdict::Remove, paused, now, pause_secs, remove_secs, h);
        lemma_listed_once(s, i, j);
    }
}

/// One hash has one place in a listing.
proof fn lemma_listed_once(s: Seq<(Seq<char>, EngineState)>, i: int, j: int)
    requires
        is_listing(s),
        0 <= i < s.len(),
        0 <= j < s.len(),
        s[i].0 == s[j].0,
    ensures
        i == j,
{
    if i < j {
        assert(s[i].0 != s[j].0);
    } else if j < i {
        assert(s[j].0 != s[i].0);
    }
}

/// An engine that was never streamed is removed five minutes after it was last
/// asked for, and never paused.
pub proof fn an_unused_engine_is_removed_after_five_minutes(
    s: EngineState,
    paused: bool,
    now: i64,
    pause_secs: u64,
    remove_secs: u64,
)
    requires
        s.active_streams == 0,
        s.inactive_since == 0,
    ensures
        verdict_on(s, paused, now, pause_secs, remove_secs) == Verdict::Remove <==> now
            - s.last_accessed >= 300,
        verdict_on(s, paused, now, pause_secs, remove_secs) != Verdict::Pause,
{
}

/// An engine whose last stream closed goes through its grace periods: nothing, then
/// a pause, then the removal.
pub proof fn grace_periods_follow_each_other(
    s: EngineState,
    now: i64,
    pause_secs: u64,
    remove_secs: u64,
)
    requires
        s.active_streams == 0,
        0 < s.inactive_since <= now,
    ensures
        now - s.inactive_since < pause_secs && now - s.inactive_since < remove_secs ==> verdict_on(
            s,
            false,
            now,
            pause_secs,
            remove_secs,
        ) == Verdict::Keep,
        pause_secs <= now - s.inactive_since < remove_secs ==> verdict_on(
            s,
            false,
            now,
            pause_secs,
            remove_secs,
        ) == Verdict::Pause,
        remove_secs <= now - s.inactive_since ==> verdict_on(
            s,
            false,
            now,
            pause_secs,
            remove_secs,
        ) == Verdict::Remove,
{
}

/// While nothing happens to an engine, it stays due for removal once it is.
pub proof fn removal_stays_due(
    s: EngineState,
    paused: bool,
    now: i64,
    later: i64,
    later_paused: bool,
    pause_secs: u64,
    remove_secs: u64,
)
    requires
        now <= later,
        verdict_on(s, paused, now, pause_secs, remove_secs) == Verdict::Remove,
    ensures
        verdict_on(s, later_paused, later, pause_secs, remove_secs) == Verdict::Remove,
{
}

/// An engine that is marked as paused is not paused again. The mark stays until
/// the engine is streamed again or removed.
pub proof fn an_engine_is_paused_once(
    paused: Set<Seq<char>>,
    s: Seq<(Seq<char>, EngineState)>,
    i: int,
    now: i64,
    pause_secs: u64,
    remove_secs: u64,
)
    requires
        is_listing(s),
        0 <= i < s.len(),
        paused.contains(s[i].0),
    ensures
        verdict_on(s[i].1, true, now, pause_secs, remove_secs) != Verdict::Pause,
        marks_after(paused, s, now, pause_secs, remove_secs).contains(s[i].0) <==> verdict_on(
            s[i].1,
            true,
            now,
            pause_secs,
            remove_secs,
        ) == Verdict::Keep,
{
    let h = s[i].0;
    let v = verdict_on(s[i].1, true, now, pause_secs, remove_secs);
    if v == Verdict::Keep {
        assert forall|j: int| !loses_mark(s, j, h, now, pause_secs, remove_secs) by {
            if 0 <= j < i {
                assert(s[j].0 != s[i].0);
            } else if i < j < s.len() {
                assert(s[i].0 != s[j].0);
            }
        }
    } else {
        assert(loses_mark(s, i, h, now, pause_secs, remove_secs));
    }
}

/// What is paused and what is removed in one look have nothing in common.
pub proof fn nothing_is_both_paused_and_removed(
    paused: Set<Seq<char>>,
    s: Seq<(Seq<char>, EngineState)>,
    now: i64,
    pause_secs: u64,
    remove_secs: u64,
    h: Seq<char>,
)
    requires
        is_listing(s),
        with_verdict(s, Verdict::Pause, paused, now, pause_secs, remove_secs).contains(h),
    ensures
        !with_verdict(s, Verdict::Remove, paused, now, pause_secs, remove_secs).contains(h),
{
    let i = lemma_verdict_source(s, Verdict::Pause, paused, now, pause_secs, remove_secs, h);
    if with_verdict(s, Verdict::Remove, paused, now, pause_secs, remove_secs).contains(h) {
        let j = lemma_verdict_source(s, Verdict::Remove, paused, now, pause_secs, remove_secs, h);
        lemma_listed_once(s, i, j);
    }
}

/// Whatever is listed with a verdict stands somewhere in the listing and has it.
proof fn lemma_verdict_source(
    s: Seq<(Seq<char>, EngineState)>,
    v: Verdict,
    paused: Set<Seq<char>>,
    now: i64,
    pause_secs: u64,
    remove_secs: u64,
    h: Seq<char>,
) -> (i: int)
    requires
        with_verdict(s, v, paused, now, pause_secs, remove_secs).contains(h),
    ensures
        0 <= i < s.len(),
        s[i].0 == h,
        verdict_on(s[i].1, paused.contains(h), now, pause_secs, remove_secs) == v,
{
    let p = |e: (Seq<char>, EngineState)|
        verdict_on(e.1, paused.contains(e.0), now, pause_secs, remove_secs) == v;
    let listed = with_verdict(s, v, paused, now, pause_secs, remove_secs);
    let k = choose|k: int| 0 <= k < listed.len() && listed[k] == h;
    let e = s.filter(p)[k];
    s.lemma_filter_pred(p, k);
    s.lemma_filter_contains_rev(p, e);
    choose|i: int| 0 <= i < s.len() && s[i] == e
}

/// What becomes of an engine, for every state and time. It is active while it has
/// streams. It is removed five minutes after the last access if it was never streamed,
/// and after the longer grace period if it was. It is paused after the shorter one,
/// unless it was paused already or is removed. Otherwise nothing happens; nothing ever
/// does while a stream is being opened.
pub proof fn what_becomes_of_an_engine(
    s: EngineState,
    paused: bool,
    now: i64,
    pause_secs: u64,
    remove_secs: u64,
)
    ensures
        ({
            let v = verdict_on(s, paused, now, pause_secs, remove_secs);
            let idle = s.active_streams == 0;
            let unused = s.inactive_since == 0;
            let left = s.inactive_since > 0;
            let long_enough = now - s.inactive_since >= remove_secs || remove_secs == 0;
            let a_while = now - s.inactive_since >= pause_secs || pause_secs == 0;
            &&& v == Verdict::Active <==> s.active_streams > 0
            &&& v == Verdict::Remove <==> idle && ((unused && now - s.last_accessed >= 300) || (left
                && long_enough))
            &&& v == Verdict::Pause <==> idle && left && !long_enough && a_while && !paused
            &&& idle && s.inactive_since < 0 ==> v == Verdict::Keep
        }),
{
}

/// An engine with a verdict is on the list of that verdict, an engine without it is
/// not, and the list keeps the order of the listing.
pub proof fn each_engine_is_judged_alone(
    s: Seq<(Seq<char>, EngineState)>,
    e: (Seq<char>, EngineState),
    v: Verdict,
    paused: Set<Seq<char>>,
    now: i64,
    pause_secs: u64,
    remove_secs: u64,
)
    ensures
        with_verdict(Seq::empty(), v, paused, now, pause_secs, remove_secs).len() == 0,
        verdict_on(e.1, paused.contains(e.0), now, pause_secs, remove_secs) == v ==> with_verdict(
            s.push(e),
            v,
            paused,
            now,
            pause_secs,
            remove_secs,
        ) == with_verdict(s, v, paused, now, pause_secs, remove_secs).push(e.0),
        verdict_on(e.1, paused.contains(e.0), now, pause_secs, remove_secs) != v ==> with_verdict(
            s.push(e),
            v,
            paused,
            now,
            pause_secs,
            remove_secs,
        ) == with_verdict(s, v, paused, now, pause_secs, remove_secs),
{
    reveal(Seq::filter);
    let longer = s.push(e);
    lemma_verdict_step(longer, s.len() as int, v, paused, now, pause_secs, remove_secs);
    assert(longer.take(s.len() as int) =~= s);
    assert(longer.take(longer.len() as int) =~= longer);
}

/// A look takes marks away and adds none: those of the listed engines that are streamed
/// or removed, and no others.
pub proof fn which_marks_a_look_takes_away(
    paused: Set<Seq<char>>,
    s: Seq<(Seq<char>, EngineState)>,
    i: int,
    h: Seq<char>,
    now: i64,
    pause_secs: u64,
    remove_secs: u64,
)
    ensures
        marks_after(paused, s, now, pause_secs, remove_secs).contains(h) ==> paused.contains(h),
        0 <= i < s.len() && s[i].0 == h && s[i].1.active_streams > 0 ==> !marks_after(
            paused,
            s,
            now,
            pause_secs,
            remove_secs,
        ).contains(h),
        0 <= i < s.len() && s[i].0 == h && verdict_on(s[i].1, true, now, pause_secs, remove_secs)
            == Verdict::Remove ==> !marks_after(paused, s, now, pause_secs, remove_secs).contains(h),
        paused.contains(h) && (forall|j: int|
            0 <= j < s.len() && (#[trigger] s[j]).0 == h ==> {
                &&& s[j].1.active_streams == 0
                &&& verdict_on(s[j].1, true, now, pause_secs, remove_secs) != Verdict::Remove
            }) ==> marks_after(paused, s, now, pause_secs, remove_secs).contains(h),
{
    if 0 <= i < s.len() && s[i].0 == h {
        let v = verdict_on(s[i].1, true, now, pause_secs, remove_secs);
        if v == Verdict::Active || v == Verdict::Remove {
            assert(loses_mark(s, i, h, now, pause_secs, remove_secs));
        }
    }
    if forall|j: int|
        0 <= j < s.len() && (#[trigger] s[j]).0 == h ==> {
            &&& s[j].1.active_streams == 0
            &&& verdict_on(s[j].1, true, now, pause_secs, remove_secs) != Verdict::Remove
        } {
        assert forall|j: int| !loses_mark(s, j, h, now, pause_secs, remove_secs) by {
            if 0 <= j < s.len() && s[j].0 == h {
                assert(s[j].1.active_streams == 0);
            }
        }
    }
}

/// The times of an engine can be subtracted wherever the difference that matters fits
/// 64 bits; those of a running service, none of which is negative, always can.
pub proof fn times_of_a_service_are_measurable(s: EngineState, now: i64)
    ensures
        is_measurable(s, now) <==> {
            ||| s.active_streams > 0
            ||| s.inactive_since < 0
            ||| s.inactive_since == 0 && i64::MIN <= now - s.last_accessed <= i64::MAX
            ||| s.inactive_since > 0 && i64::MIN <= now - s.inactive_since
        },
        0 <= now && 0 <= s.last_accessed ==> is_measurable(s, now),
        s.active_streams > 0 || s.inactive_since < 0 ==> is_measurable(s, now),
        s.inactive_since > 0 && 0 <= now ==> is_measurable(s, now),
{
}

/// A listing is seen engine by engine, and so is a list of hashes. Each engine is
/// listed once where no two hashes are the same.
pub proof fn engines_are_seen_as_they_are(
    s: Seq<(String, EngineState)>,
    listed: Seq<String>,
    i: int,
)
    ensures
        states(s).len() == s.len(),
        0 <= i < s.len() ==> states(s)[i] == (s[i].0@, s[i].1),
        hashes(listed).len() == listed.len(),
        0 <= i < listed.len() ==> hashes(listed)[i] == listed[i]@,
        (forall|j: int, k: int|
            0 <= j < k < s.len() ==> (#[trigger] s[j]).0@ != (#[trigger] s[k]).0@) ==> is_listing(
            states(s),
        ),
{
    if forall|j: int, k: int|
        0 <= j < k < s.len() ==> (#[trigger] s[j]).0@ != (#[trigger] s[k]).0@ {
        assert forall|j: int, k: int| 0 <= j < k < states(s).len() implies (#[trigger] states(s)[j]).0
            != (#[trigger] states(s)[k]).0 by {
            assert(s[j].0@ != s[k].0@);
        }
    }
}

/// The service looks at its engines every five seconds.
pub proof fn the_time_between_looks()
    ensures
        TICK_SECS == 5,
        IDLE_ENGINE_TIMEOUT_SECS == 300,
{
}

} // verus!
