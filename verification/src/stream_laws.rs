//! What holds of a stream over many polls.

use bytes::Bytes;
use crate::payload;
use crate::pins;
use crate::stream;
use crate::stream::PriorityPlan;
use crate::stream::ReadEvent;
use crate::stream::SeekTarget;
use crate::stream::SeekType;
use crate::stream::StepModel;
use crate::stream::StreamModel;
use vstd::prelude::*;

verus! {

/// `data` is what piece `p` of the torrent `t` holds; the last piece may be short.
pub open spec fn is_piece_of(t: Seq<u8>, piece_length: u64, p: i32, data: Seq<u8>) -> bool {
    let begin = p * piece_length;
    let end = if begin + piece_length <= t.len() {
        begin + piece_length
    } else {
        t.len() as int
    };
    &&& 0 <= p
    &&& begin <= t.len()
    &&& data == t.subrange(begin, end)
}

/// What the event makes available is the torrent's own data.
pub open spec fn is_true_event(m: StreamModel, t: Seq<u8>, event: ReadEvent) -> bool {
    match m.source(event) {
        Some(data) => is_piece_of(t, m.piece_length, m.piece(), data),
        None => true,
    }
}

/// The piece that the stream keeps is the torrent's own data.
pub open spec fn keeps_true_piece(m: StreamModel, t: Seq<u8>) -> bool {
    match m.cached {
        Some(c) => is_piece_of(t, m.piece_length, c.0, c.1),
        None => true,
    }
}

/// Position of the reader in the torrent.
pub open spec fn global_pos(m: StreamModel) -> int {
    m.file_offset + m.current_pos
}

/// Pieces can be numbered and their offsets addressed.
pub open spec fn is_addressable(m: StreamModel) -> bool {
    &&& 0 < m.piece_length <= usize::MAX
    &&& global_pos(m) <= u64::MAX
    &&& global_pos(m) / m.piece_length as int <= i32::MAX
}

/// The bytes that a poll delivers are those of the torrent at the reader's
/// position, and the position moves on by as many. Nothing is delivered only
/// where the buffer is full or the torrent ends.
pub proof fn delivered_bytes_are_the_torrents(
    m: StreamModel,
    t: Seq<u8>,
    event: ReadEvent,
    room: usize,
    data: Seq<u8>,
)
    requires
        is_addressable(m),
        m.awaits(event),
        m.can_take(event, room),
        m.source(event) == Some(data),
        is_true_event(m, t, event),
    ensures
        ({
            let n = m.chunk_len(data, room);
            let g = global_pos(m);
            &&& 0 <= n <= room
            &&& m.step_after(event, room) is Deliver
            &&& m.step_after(event, room)->chunk == m.chunk(data, room)
            &&& m.chunk(data, room).len() == n
            &&& n > 0 ==> g + n <= t.len() && m.chunk(data, room) == t.subrange(g, g + n)
            &&& room > 0 && g < t.len() ==> n > 0
            &&& m.after(event, room).current_pos == m.current_pos + n
        }),
{
    lemma_chunk_is_the_torrents(m, t, data, room);
}

/// The bytes that the reader gets of a true piece are those of the torrent at its
/// position, and they do not reach into the next piece.
proof fn lemma_chunk_is_the_torrents(m: StreamModel, t: Seq<u8>, data: Seq<u8>, room: usize)
    requires
        is_addressable(m),
        is_piece_of(t, m.piece_length, m.piece(), data),
    ensures
        ({
            let n = m.chunk_len(data, room);
            let g = global_pos(m);
            &&& 0 <= n <= room
            &&& m.chunk(data, room).len() == n
            &&& n > 0 ==> g + n <= t.len() && m.chunk(data, room) == t.subrange(g, g + n)
            &&& room > 0 && g < t.len() ==> n > 0
            &&& n > 0 ==> g % m.piece_length as int + n <= m.piece_length
        }),
{
    let l = m.piece_length as int;
    let g = global_pos(m);
    let p = g / l;
    let offset = g % l;
    assert(g == l * p + offset && 0 <= offset < l && 0 <= p) by {
        vstd::arithmetic::div_mod::lemma_fundamental_div_mod(g, l);
        vstd::arithmetic::div_mod::lemma_mod_bound(g, l);
        vstd::arithmetic::div_mod::lemma_div_pos_is_pos(g, l);
    }
    assert(p * l == l * p) by (nonlinear_arith);
    assert(m.piece() == p);
    assert(m.offset_in_piece() == offset);
    let n = m.chunk_len(data, room);
    if n > 0 {
        assert(m.chunk(data, room) =~= t.subrange(g, g + n));
    }
}

/// A stream that is only told the truth keeps only true data.
pub proof fn the_kept_piece_stays_true(m: StreamModel, t: Seq<u8>, event: ReadEvent, room: usize)
    requires
        keeps_true_piece(m, t),
        is_true_event(m, t, event),
    ensures
        keeps_true_piece(m.after(event, room), t),
{
}

/// Serving from the kept piece is no less true than serving from the cache.
pub proof fn the_kept_piece_is_a_true_source(m: StreamModel, t: Seq<u8>)
    requires
        keeps_true_piece(m, t),
    ensures
        is_true_event(m, t, ReadEvent::Start),
{
}

/// The bytes of two deliveries in a row lie next to each other in the torrent.
pub proof fn deliveries_in_a_row_join(
    m: StreamModel,
    t: Seq<u8>,
    first: ReadEvent,
    first_room: usize,
    first_data: Seq<u8>,
    second: ReadEvent,
    second_room: usize,
    second_data: Seq<u8>,
)
    requires
        is_addressable(m),
        m.awaits(first),
        m.can_take(first, first_room),
        m.source(first) == Some(first_data),
        is_true_event(m, t, first),
        m.chunk_len(first_data, first_room) > 0,
        is_addressable(m.after(first, first_room)),
        m.after(first, first_room).awaits(second),
        m.after(first, first_room).can_take(second, second_room),
        m.after(first, first_room).source(second) == Some(second_data),
        is_true_event(m.after(first, first_room), t, second),
        m.after(first, first_room).chunk_len(second_data, second_room) > 0,
    ensures
        ({
            let m2 = m.after(first, first_room);
            let a = m.chunk(first_data, first_room);
            let b = m2.chunk(second_data, second_room);
            a + b == t.subrange(global_pos(m), global_pos(m) + a.len() + b.len())
        }),
{
    let m2 = m.after(first, first_room);
    delivered_bytes_are_the_torrents(m, t, first, first_room, first_data);
    delivered_bytes_are_the_torrents(m2, t, second, second_room, second_data);
    let a = m.chunk(first_data, first_room);
    let b = m2.chunk(second_data, second_room);
    assert(m2.file_offset == m.file_offset);
    assert(a + b =~= t.subrange(global_pos(m), global_pos(m) + a.len() + b.len()));
}

/// Each question of a poll is followed by its answer only, leaves the stream as it
/// is but for the pin, and comes later in the order of the sources than the one
/// before. The pin comes with the read of the backend's memory and goes with its
/// answer; no poll ends with one.
pub proof fn a_poll_asks_in_order(
    m: StreamModel,
    event: ReadEvent,
    room: usize,
    cached: ReadEvent,
    have: ReadEvent,
    memory: ReadEvent,
    again: ReadEvent,
)
    requires
        m.awaits(event),
        cached is Cached,
        have is Have,
        memory is Memory,
        again is CachedAgain,
    ensures
        ({
            let step = m.step_after(event, room);
            let next = m.after(event, room);
            &&& step is LookUp ==> event is Start && next == m && next.awaits(cached)
            &&& step is AskHave ==> event is Cached && next == m && next.awaits(have)
            &&& step is ReadMemory ==> event is Have && next == m.with_pin(Some(m.read_key()))
                && next.awaits(memory)
            &&& step is LookUpAgain ==> event is Memory && next == m.with_pin(None) && next.awaits(
                again,
            )
            &&& event is CachedAgain ==> step is Deliver || step is WaitForWarm
            &&& step !is ReadMemory ==> next.pin is None
        }),
{
}

/// A poll fails only where the reader's position has no piece, or where the piece
/// was requested by other means.
pub proof fn when_a_poll_fails(m: StreamModel, event: ReadEvent, room: usize)
    requires
        m.awaits(event),
    ensures
        m.step_after(event, room) is Fail <==> (event is Start && m.piece() < 0) || (
        event matches ReadEvent::Have { have: true, .. } && m.requested.contains_key(m.piece())),
{
}

/// A poll delivers exactly when one of the sources has the piece.
pub proof fn a_source_is_never_passed_over(m: StreamModel, event: ReadEvent, room: usize)
    requires
        m.awaits(event),
    ensures
        m.step_after(event, room) is Deliver <==> m.source(event) is Some,
{
}

/// A prefetch is ordered at most once while the reader stays on a piece.
pub proof fn a_prefetch_is_ordered_once(
    m: StreamModel,
    first: ReadEvent,
    room: usize,
    second: ReadEvent,
    second_room: usize,
)
    requires
        first matches ReadEvent::Cached { data: Some(_), .. },
        m.after(first, room).piece() == m.piece(),
        m.after(first, room).step_after(second, second_room) is Deliver,
    ensures
        m.after(first, room).step_after(second, second_room)->prefetch is None,
{
}

/// The first wait is reported; after a report, the next one comes two seconds
/// later at the earliest. A nudge comes after ten seconds at the earliest, and the
/// next one ten seconds after that.
pub proof fn waits_are_reported_sparingly(
    m: StreamModel,
    room: usize,
    now: u64,
    elapsed: u64,
    later: u64,
    later_elapsed: u64,
)
    requires
        now <= later,
    ensures
        ({
            let order = m.wait_order(now, elapsed);
            let next = m.after(ReadEvent::Have { have: false, now, elapsed }, room);
            let later_order = next.wait_order(later, later_elapsed);
            &&& !m.first_wait_logged ==> order.report
            &&& order.report ==> (later_order.report <==> later - now >= 2_000_000_000)
            &&& order.nudge ==> elapsed >= 10_000_000_000
            &&& order.nudge ==> (later_order.nudge ==> later - now >= 10_000_000_000)
        }),
{
}

/// Waiting moves nothing: the position and the data sources stay.
pub proof fn waiting_keeps_the_position(m: StreamModel, event: ReadEvent, room: usize)
    requires
        m.awaits(event),
        m.step_after(event, room) is Wait || m.step_after(event, room) is WaitForWarm,
    ensures
        m.after(event, room).current_pos == m.current_pos,
        m.after(event, room).cached == m.cached,
        m.after(event, room).requested == m.requested,
{
}

/// Once the deadlines were looked at for a position, they stand there until the
/// reader moves to another piece, and they stand for good once the file is
/// complete. The kind of the last seek is used up by looking.
pub proof fn deadlines_are_set_once_per_piece(
    m: StreamModel,
    pos: u64,
    have: Seq<bool>,
    other: u64,
)
    ensures
        m.prioritised(pos, have).priorities_stand(pos),
        m.priority_plan(pos, have) is Complete ==> m.prioritised(pos, have).priorities_stand(other),
        m.prioritised(pos, have).prioritised(pos, have) == m.prioritised(pos, have),
        !(m.priority_plan(pos, have) is Keep) ==> m.prioritised(pos, have).seek_type
            == SeekType::Sequential,
{
}

/// A file whose pieces have all arrived is complete, and no other.
pub proof fn when_a_file_is_complete(m: StreamModel, pos: u64, have: Seq<bool>)
    requires
        !m.priorities_stand(pos),
    ensures
        m.prioritised(pos, have).is_complete <==> stream::all_true(have),
        m.priority_plan(pos, have) == PriorityPlan::Complete <==> stream::all_true(have),
{
}

/// A look at the deadlines that finds all pieces of the file there sets none, and no
/// later look, at any position and with whatever pieces, changes anything or asks
/// for any.
pub proof fn a_complete_file_needs_no_more_deadlines(
    m: StreamModel,
    pos: u64,
    have: Seq<bool>,
    later_pos: u64,
    later_have: Seq<bool>,
)
    requires
        !m.priorities_stand(pos),
    ensures
        ({
            let next = m.prioritised(pos, have);
            &&& next.is_complete == stream::all_true(have)
            &&& stream::all_true(have) ==> m.priority_plan(pos, have) == PriorityPlan::Complete
            &&& stream::all_true(have) ==> next.prioritised(later_pos, later_have) == next
            &&& stream::all_true(have) ==> next.priority_plan(later_pos, later_have)
                == PriorityPlan::Keep
        }),
{
}

/// A look at the deadlines uses the kind of the last seek up, remembers the piece
/// and leaves position and kept piece alone, whether the file is complete or not. A
/// second look on the same piece changes nothing and asks for nothing.
pub proof fn a_second_look_on_a_piece_changes_nothing(
    m: StreamModel,
    pos: u64,
    have: Seq<bool>,
    second_pos: u64,
    second_have: Seq<bool>,
)
    requires
        !m.priorities_stand(pos),
        stream::piece_of(m.file_offset, second_pos, m.piece_length) == stream::piece_of(
            m.file_offset,
            pos,
            m.piece_length,
        ),
    ensures
        ({
            let next = m.prioritised(pos, have);
            &&& next.seek_type == SeekType::Sequential
            &&& next.last_priorities_piece == stream::piece_of(m.file_offset, pos, m.piece_length)
            &&& next.current_pos == m.current_pos
            &&& next.cached == m.cached
            &&& next.prioritised(second_pos, second_have) == next
            &&& next.priority_plan(second_pos, second_have) == PriorityPlan::Keep
        }),
{
}

/// Pieces that are due now stay due now, background work keeps its deadline, and
/// every other deadline moves back by less than fifty, the order kept. Streams
/// whose numbers differ in the last digit never ask for the same moment.
pub proof fn deadlines_of_streams_are_interleaved(a: i32, b: i32, stream_id: usize, other: usize)
    ensures
        stream::shared_deadline(0, stream_id) == 0,
        a >= 100_000 ==> stream::shared_deadline(a, stream_id) == a,
        a != 0 && a < 100_000 ==> a <= stream::shared_deadline(a, stream_id) < a + 50,
        a != 0 && b != 0 && a < b < 100_000 ==> stream::shared_deadline(a, stream_id)
            < stream::shared_deadline(b, stream_id),
        a != 0 && a < 100_000 && stream_id % 10 != other % 10 ==> stream::shared_deadline(
            a,
            stream_id,
        ) != stream::shared_deadline(a, other),
{
}

/// Deadlines are only asserted for missing pieces of the file.
pub proof fn deadlines_are_for_missing_pieces(
    m: StreamModel,
    items: Seq<stream::PriorityItem>,
    have: Seq<bool>,
    i: int,
)
    requires
        0 <= i < m.deadlines_for(items, have).len(),
    ensures
        m.first_piece <= m.deadlines_for(items, have)[i].0 <= m.last_piece,
        !have[m.deadlines_for(items, have)[i].0 - m.first_piece],
{
    let wanted = |item: stream::PriorityItem| m.is_wanted(item, have);
    items.lemma_filter_pred(wanted, i);
}

/// A seek leads to the requested place, drops the kept piece and is classified by
/// where it leads. The next look at the deadlines treats the reader as sequential
/// again.
pub proof fn seeks_lead_where_they_say(m: StreamModel, target: SeekTarget, metadata_start: u64)
    requires
        m.can_seek(target),
    ensures
        m.sought(target, metadata_start).current_pos == m.seek_position(target),
        m.sought(target, metadata_start).cached is None,
        m.sought(target, metadata_start).seek_type == SeekType::ContainerMetadata <==> m.seek_position(
            target,
        ) >= metadata_start,
        m.sought(target, metadata_start).seek_type == SeekType::UserScrub <==> m.seek_position(target)
            < metadata_start,
        target matches SeekTarget::Start(pos) ==> m.sought(target, metadata_start).current_pos == pos,
        target == SeekTarget::Current(0) && m.current_pos <= i64::MAX ==> m.sought(
            target,
            metadata_start,
        ).current_pos == m.current_pos,
        target == SeekTarget::End(0) && m.file_size <= i64::MAX ==> m.sought(
            target,
            metadata_start,
        ).current_pos == m.file_size,
        m.sought(target, metadata_start).step_after(ReadEvent::Start, 0) !is Deliver,
{
}

/// All answers that a poll may get.
pub struct Answers {
    pub cached: Option<Bytes>,
    pub speed: u64,
    pub have: bool,
    pub now: u64,
    pub elapsed: u64,
    pub memory: Vec<u8>,
    pub cached_again: Option<Bytes>,
}

impl Answers {
    pub open spec fn first(self) -> ReadEvent {
        ReadEvent::Cached { data: self.cached, speed: self.speed }
    }

    pub open spec fn second(self) -> ReadEvent {
        ReadEvent::Have { have: self.have, now: self.now, elapsed: self.elapsed }
    }

    pub open spec fn third(self) -> ReadEvent {
        ReadEvent::Memory { bytes: self.memory }
    }

    pub open spec fn fourth(self) -> ReadEvent {
        ReadEvent::CachedAgain { data: self.cached_again }
    }
}

/// How a poll ends when each question is answered in turn, and the stream after it.
#[verifier::opaque]
pub open spec fn polled(m: StreamModel, a: Answers, room: usize) -> (StepModel, StreamModel) {
    let pinned = m.after(a.second(), room);
    let released = pinned.after(a.third(), room);
    if !(m.step_after(ReadEvent::Start, room) is LookUp) {
        (m.step_after(ReadEvent::Start, room), m.after(ReadEvent::Start, room))
    } else if !(m.step_after(a.first(), room) is AskHave) {
        (m.step_after(a.first(), room), m.after(a.first(), room))
    } else if !(m.step_after(a.second(), room) is ReadMemory) {
        (m.step_after(a.second(), room), pinned)
    } else if !(pinned.step_after(a.third(), room) is LookUpAgain) {
        (pinned.step_after(a.third(), room), released)
    } else {
        (released.step_after(a.fourth(), room), released.after(a.fourth(), room))
    }
}

/// The pin counts after such a poll.
pub open spec fn pins_when_polled(
    m: StreamModel,
    a: Answers,
    room: usize,
    counts: Map<(Seq<char>, i32), u32>,
) -> Map<(Seq<char>, i32), u32> {
    let pinned = m.after(a.second(), room);
    let released = pinned.after(a.third(), room);
    let during = m.pins_after(a.second(), counts);
    let after = pinned.pins_after(a.third(), during);
    if !(m.step_after(ReadEvent::Start, room) is LookUp) {
        m.pins_after(ReadEvent::Start, counts)
    } else if !(m.step_after(a.first(), room) is AskHave) {
        m.pins_after(a.first(), counts)
    } else if !(m.step_after(a.second(), room) is ReadMemory) {
        during
    } else if !(pinned.step_after(a.third(), room) is LookUpAgain) {
        after
    } else {
        released.pins_after(a.fourth(), after)
    }
}

/// While the backend's memory is read, the piece has one pin more than before; when
/// the answer is in, and so whenever a poll ends, the counts are what they were, and
/// the stream holds no pin.
pub proof fn a_memory_read_holds_a_pin(
    m: StreamModel,
    a: Answers,
    room: usize,
    counts: Map<(Seq<char>, i32), u32>,
)
    requires
        m.pin is None,
        pins::all_positive(counts),
        m.can_pin(a.second(), counts),
    ensures
        m.step_after(a.second(), room) is ReadMemory ==> {
            let during = m.pins_after(a.second(), counts);
            let pinned = m.after(a.second(), room);
            &&& pinned.pin == Some(m.read_key())
            &&& pins::count_of(during, m.read_key()) == pins::count_of(counts, m.read_key()) + 1
            &&& pinned.pins_after(a.third(), during) == counts
            &&& pinned.after(a.third(), room).pin is None
        },
        pins_when_polled(m, a, room, counts) == counts,
        polled(m, a, room).1.pin is None,
{
    reveal(polled);
    if m.orders_pin(a.second()) {
        pins::unpinning_undoes_pinning(counts, m.read_key());
    }
}

/// The contents of the first source that has the piece: the kept piece, the cache,
/// then, for a piece that the backend has, its memory and the cache again.
pub open spec fn first_source(m: StreamModel, a: Answers) -> Option<Seq<u8>> {
    if m.piece() < 0 {
        None
    } else if m.holds_piece() {
        Some(m.held_data())
    } else if a.cached is Some {
        Some(payload::content(a.cached->0))
    } else if !a.have || m.requested.contains_key(m.piece()) {
        None
    } else if a.memory@.len() > 0 {
        Some(a.memory@)
    } else if a.cached_again is Some {
        Some(payload::content(a.cached_again->0))
    } else {
        None
    }
}

/// A poll delivers from the first source that has the piece. Without one it waits:
/// for the piece where the backend does not have it, for the warm tier where the
/// backend has freed it. It fails without a piece to read, and where the piece was
/// requested by other means.
pub proof fn how_a_poll_ends(m: StreamModel, a: Answers, room: usize)
    ensures
        ({
            let (step, next) = polled(m, a, room);
            match first_source(m, a) {
                Some(data) => {
                    &&& step is Deliver
                    &&& step->Deliver_piece == m.piece()
                    &&& step->chunk == m.chunk(data, room)
                    &&& step->put is Some <==> !m.holds_piece() && a.cached is None
                        && a.memory@.len() > 0
                    &&& step->put is Some ==> step->put->0 == data
                    &&& next.current_pos == m.served(data, room).current_pos
                    &&& next.cached is Some
                    &&& next.held_data() == data
                },
                None => {
                    &&& next.current_pos == m.current_pos
                    &&& next.cached == m.cached
                    &&& if m.piece() < 0 {
                        step is Fail
                    } else if !a.have {
                        step == StepModel::Wait(m.wait_order(a.now, a.elapsed))
                    } else if m.requested.contains_key(m.piece()) {
                        step is Fail
                    } else {
                        step == (StepModel::WaitForWarm { piece: m.piece() })
                    }
                },
            }
        }),
{
    reveal(polled);
}

/// A poll of a run: which pieces of the file have arrived, the answers it gets, and
/// the space in the reader's buffer.
pub struct Poll {
    pub have: Seq<bool>,
    pub answers: Answers,
    pub room: usize,
}

/// The stream when a poll has looked at the deadlines.
pub open spec fn begun(m: StreamModel, p: Poll) -> StreamModel {
    m.prioritised(m.current_pos, p.have)
}

/// The bytes that a step gives to the reader.
pub open spec fn bytes_of(step: StepModel) -> Seq<u8> {
    match step {
        StepModel::Deliver { chunk, .. } => chunk,
        _ => Seq::empty(),
    }
}

/// The stream after a run of polls.
pub open spec fn after_polls(m: StreamModel, polls: Seq<Poll>) -> StreamModel
    decreases polls.len(),
{
    if polls.len() == 0 {
        m
    } else {
        let p = polls.last();
        polled(begun(after_polls(m, polls.drop_last()), p), p.answers, p.room).1
    }
}

/// The bytes that a run of polls gives to the reader.
pub open spec fn bytes_polled(m: StreamModel, polls: Seq<Poll>) -> Seq<u8>
    decreases polls.len(),
{
    if polls.len() == 0 {
        Seq::empty()
    } else {
        let p = polls.last();
        bytes_polled(m, polls.drop_last()) + bytes_of(
            polled(begun(after_polls(m, polls.drop_last()), p), p.answers, p.room).0,
        )
    }
}

/// The source from which a poll is served, if any, has the torrent's own data.
pub open spec fn is_told_the_truth(m: StreamModel, t: Seq<u8>, a: Answers) -> bool {
    match first_source(m, a) {
        Some(data) => is_piece_of(t, m.piece_length, m.piece(), data),
        None => true,
    }
}

/// Every poll of a run is told the truth.
pub open spec fn all_told_the_truth(m: StreamModel, t: Seq<u8>, polls: Seq<Poll>) -> bool {
    forall|j: int|
        0 <= j < polls.len() ==> is_told_the_truth(
            begun(after_polls(m, polls.take(j)), #[trigger] polls[j]),
            t,
            polls[j].answers,
        )
}

/// The pieces of the torrent can be numbered and their bytes addressed, and the
/// reader stands inside it.
pub open spec fn reads_inside(m: StreamModel, t: Seq<u8>) -> bool {
    &&& 0 < m.piece_length <= usize::MAX
    &&& t.len() <= u64::MAX
    &&& t.len() as int / m.piece_length as int <= i32::MAX
    &&& global_pos(m) <= t.len()
}

proof fn lemma_inside_is_addressable(m: StreamModel, t: Seq<u8>)
    requires
        reads_inside(m, t),
    ensures
        is_addressable(m),
{
    vstd::arithmetic::div_mod::lemma_div_is_ordered(
        global_pos(m),
        t.len() as int,
        m.piece_length as int,
    );
}

/// One poll gives the reader the bytes of the torrent at its position, none of them
/// beyond the piece, and moves the position on by as many.
pub proof fn a_poll_gives_the_torrents_bytes(
    m: StreamModel,
    t: Seq<u8>,
    a: Answers,
    room: usize,
)
    requires
        reads_inside(m, t),
        is_told_the_truth(m, t, a),
    ensures
        ({
            let (step, next) = polled(m, a, room);
            let g = global_pos(m);
            let n = bytes_of(step).len();
            &&& bytes_of(step) == t.subrange(g, g + n)
            &&& n > 0 ==> g % m.piece_length as int + n <= m.piece_length
            &&& global_pos(next) == g + n
            &&& next.file_offset == m.file_offset
            &&& reads_inside(next, t)
        }),
{
    reveal(polled);
    lemma_inside_is_addressable(m, t);
    how_a_poll_ends(m, a, room);
    let (step, next) = polled(m, a, room);
    let g = global_pos(m);
    match first_source(m, a) {
        Some(data) => {
            lemma_chunk_is_the_torrents(m, t, data, room);
        },
        None => {},
    }
    assert(next.piece_length == m.piece_length && next.file_offset == m.file_offset);
    assert(bytes_of(step) =~= t.subrange(g, g + bytes_of(step).len()));
}

/// Any number of polls in a row, with whatever buffer sizes, sources and waits, give
/// the reader one stretch of the torrent without gap or repetition: from where it
/// stood to where it stands.
pub proof fn polls_in_a_row_give_one_stretch(m: StreamModel, t: Seq<u8>, polls: Seq<Poll>)
    requires
        reads_inside(m, t),
        all_told_the_truth(m, t, polls),
    ensures
        bytes_polled(m, polls) == t.subrange(global_pos(m), global_pos(after_polls(m, polls))),
        after_polls(m, polls).current_pos == m.current_pos + bytes_polled(m, polls).len(),
        after_polls(m, polls).file_offset == m.file_offset,
        reads_inside(after_polls(m, polls), t),
    decreases polls.len(),
{
    let g = global_pos(m);
    if polls.len() == 0 {
        assert(bytes_polled(m, polls) =~= t.subrange(g, g));
    } else {
        let rest = polls.drop_last();
        let p = polls.last();
        assert forall|j: int| 0 <= j < rest.len() implies is_told_the_truth(
            begun(after_polls(m, rest.take(j)), #[trigger] rest[j]),
            t,
            rest[j].answers,
        ) by {
            assert(rest.take(j) =~= polls.take(j));
            assert(rest[j] == polls[j]);
        }
        polls_in_a_row_give_one_stretch(m, t, rest);
        let before = after_polls(m, rest);
        let at = begun(before, p);
        assert(polls.take(polls.len() - 1) =~= rest);
        assert(polls[polls.len() - 1] == p);
        assert(is_told_the_truth(at, t, p.answers));
        assert(reads_inside(at, t));
        a_poll_gives_the_torrents_bytes(at, t, p.answers, p.room);
        let end = after_polls(m, polls);
        assert(bytes_polled(m, polls) =~= t.subrange(g, global_pos(end)));
    }
}

} // verus!
