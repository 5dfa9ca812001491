//! Engines: one per torrent that the service knows.

use vstd::prelude::*;

verus! {

/// Value of `inactive_since` for an engine that was never streamed.
pub const NEVER_STREAMED: i64 = 0;

/// The clock of all engines: whole seconds since the service started.
pub fn elapsed_secs(uptime_secs: u64) -> (now: i64)
    ensures
        now == uptime_secs as i64,
{
    uptime_secs as i64
}

/// The counters of an engine as of one moment.
#[derive(Clone, Copy, Debug, PartialEq, Eq, Structural)]
pub struct EngineState {
    /// Streams that are open now.
    pub active_streams: usize,
    /// When the last stream closed. Zero if there never was one, negative while one
    /// is open.
    pub inactive_since: i64,
    /// When the engine was last asked for.
    pub last_accessed: i64,
}

/// A torrent with its backend handle and its counters.
pub struct Engine<H> {
    pub info_hash: String,
    pub handle: H,
    pub state: EngineState,
}

impl<H> Engine<H> {
    /// An engine that nobody has streamed yet.
    pub fn new_with_handle(handle: H, info_hash: &str, now: i64) -> (e: Engine<H>)
        ensures
            e.handle == handle,
            e.info_hash@ == info_hash@,
            e.state == (EngineState {
                active_streams: 0,
                inactive_since: NEVER_STREAMED,
                last_accessed: now,
            }),
    {
        Engine {
            info_hash: info_hash.to_owned(),
            handle,
            state: EngineState {
                active_streams: 0,
                inactive_since: NEVER_STREAMED,
                last_accessed: now,
            },
        }
    }

    /// Takes note that the torrent was asked for again.
    pub fn touch(&mut self, now: i64)
        ensures
            final(self).handle == old(self).handle,
            final(self).info_hash == old(self).info_hash,
            final(self).state == (EngineState { last_accessed: now, ..old(self).state }),
    {
        self.state.last_accessed = now;
    }

    /// Takes note that a stream was closed. When it was the last one, the engine is
    /// inactive from now on. The counter wraps.
    pub fn stream_closed(&mut self, now: i64)
        ensures
            final(self).handle == old(self).handle,
            final(self).info_hash == old(self).info_hash,
            final(self).state == closed(old(self).state, now),
    {
        let prev: usize = self.state.active_streams;
        self.state.active_streams = prev.wrapping_sub(1);
        if prev == 1 {
            self.state.inactive_since = now;
        }
    }
}

/// The counters after a stream was closed.
pub open spec fn closed(s: EngineState, now: i64) -> EngineState {
    EngineState {
        active_streams: if s.active_streams == 0 {
            usize::MAX
        } else {
            (s.active_streams - 1) as usize
        },
        inactive_since: if s.active_streams == 1 {
            now
        } else {
            s.inactive_since
        },
        ..s
    }
}

/// Only the last of several streams makes the engine inactive when it closes.
pub proof fn only_the_last_stream_starts_inactivity(s: EngineState, now: i64)
    requires
        s.active_streams > 0,
    ensures
        closed(s, now).active_streams == s.active_streams - 1,
        closed(s, now).active_streams == 0 ==> closed(s, now).inactive_since == now,
        closed(s, now).active_streams > 0 ==> closed(s, now).inactive_since == s.inactive_since,
{
}

/// The clock is never negative and never goes back, as long as the uptime does not.
/// The uptimes beyond what 63 bits hold are left out.
pub proof fn the_clock_never_goes_back(earlier: u64, later: u64)
    requires
        earlier <= later <= i64::MAX,
    ensures
        0 <= (earlier as i64) <= (later as i64),
{
}

/// Closing a stream counts it down, and the counter wraps at zero. Only where it was
/// the only one is the time noted; the last access is never touched.
pub proof fn what_closing_a_stream_changes(s: EngineState, now: i64)
    ensures
        s.active_streams > 0 ==> closed(s, now).active_streams + 1 == s.active_streams,
        s.active_streams == 0 ==> closed(s, now).active_streams == usize::MAX,
        s.active_streams == 1 ==> closed(s, now).inactive_since == now,
        s.active_streams != 1 ==> closed(s, now).inactive_since == s.inactive_since,
        closed(s, now).last_accessed == s.last_accessed,
{
}

/// The mark of an engine that was never streamed is the beginning of the clock.
pub proof fn the_mark_of_an_unstreamed_engine()
    ensures
        NEVER_STREAMED == 0,
{
}

} // verus!
