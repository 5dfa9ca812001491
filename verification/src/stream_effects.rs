//! What each event, each look at the deadlines and each seek does to a stream, told
//! by positions, pieces and bytes.

use bytes::Bytes;
use crate::hybrid_cache::CacheModel;
use crate::info_hash;
use crate::payload;
use crate::stream;
use crate::stream::LibtorrentFileStream;
use crate::stream::PriorityItem;
use crate::stream::PriorityPlan;
use crate::stream::ReadEvent;
use crate::stream::ReadStep;
use crate::stream::SeekTarget;
use crate::stream::SeekType;
use crate::stream::StepModel;
use crate::stream::StreamModel;
use crate::stream::WaitOrder;
use crate::stream_laws;
use crate::stream_laws::Answers;
use vstd::prelude::*;

verus! {

/// Piece `p` holds byte `at` of a torrent whose pieces have `piece_length` bytes.
pub open spec fn holds_byte(p: int, piece_length: u64, at: int) -> bool {
    p * piece_length <= at < (p + 1) * piece_length
}

/// Byte `at` of the torrent lies in a piece with a number.
pub open spec fn has_numbered_piece(piece_length: u64, at: int) -> bool {
    exists|p: int| 0 <= p <= i32::MAX && #[trigger] holds_byte(p, piece_length, at)
}

/// The reader's position in the torrent.
pub open spec fn place(m: StreamModel) -> int {
    m.file_offset + m.current_pos
}

proof fn lemma_the_piece_holds_the_byte(file_offset: u64, pos: u64, piece_length: u64)
    requires
        0 < piece_length,
    ensures
        ({
            let q = (file_offset + pos) / piece_length as int;
            &&& 0 <= q
            &&& holds_byte(q, piece_length, file_offset + pos)
            &&& stream::piece_of(file_offset, pos, piece_length) == q as i32
            &&& forall|p: int| #[trigger] holds_byte(p, piece_length, file_offset + pos) ==> p == q
        }),
{
    let at = file_offset + pos;
    let l = piece_length as int;
    let q = at / l;
    vstd::arithmetic::div_mod::lemma_fundamental_div_mod(at, l);
    vstd::arithmetic::div_mod::lemma_mod_bound(at, l);
    vstd::arithmetic::div_mod::lemma_div_pos_is_pos(at, l);
    assert(q * l == l * q && (q + 1) * l == l * q + l) by (nonlinear_arith);
    assert forall|p: int| #[trigger] holds_byte(p, piece_length, at) implies p == q by {
        assert(p <= q) by (nonlinear_arith)
            requires
                p * l <= at,
                at < (q + 1) * l,
                0 < l,
        ;
        assert(q <= p) by (nonlinear_arith)
            requires
                q * l <= at,
                at < (p + 1) * l,
                0 < l,
        ;
    }
}

/// The piece of a position is the one that holds the byte at that position. There is
/// none without a piece length; a number beyond 31 bits is cut to them.
pub proof fn the_piece_of_a_position_holds_its_byte(file_offset: u64, pos: u64, piece_length: u64)
    ensures
        piece_length == 0 ==> stream::piece_of(file_offset, pos, piece_length) == -1,
        has_numbered_piece(piece_length, file_offset + pos) ==> {
            &&& 0 <= stream::piece_of(file_offset, pos, piece_length)
            &&& holds_byte(
                stream::piece_of(file_offset, pos, piece_length) as int,
                piece_length,
                file_offset + pos,
            )
        },
        forall|p: int|
            0 < piece_length && #[trigger] holds_byte(p, piece_length, file_offset + pos)
                ==> stream::piece_of(file_offset, pos, piece_length) == p as i32,
{
    if 0 < piece_length {
        lemma_the_piece_holds_the_byte(file_offset, pos, piece_length);
    } else {
        let at = file_offset + pos;
        assert forall|p: int| !(#[trigger] holds_byte(p, piece_length, at)) by {
            assert(p * 0 == 0 && (p + 1) * 0 == 0) by (nonlinear_arith);
        }
    }
}

/// The piece that a step is about.
pub open spec fn subject(step: StepModel) -> Option<i32> {
    match step {
        StepModel::LookUp { piece } => Some(piece),
        StepModel::AskHave { piece } => Some(piece),
        StepModel::ReadMemory { piece } => Some(piece),
        StepModel::LookUpAgain { piece } => Some(piece),
        StepModel::Deliver { piece, .. } => Some(piece),
        StepModel::Wait(order) => Some(order.piece),
        StepModel::WaitForWarm { piece } => Some(piece),
        StepModel::Fail => None,
    }
}

/// Every question of a poll, every wait and every delivery is about the piece that
/// holds the reader's position. So are the pin of a memory read, the piece that is
/// kept, and the prefetch, which begins after it.
pub proof fn every_step_is_about_the_readers_piece(m: StreamModel, event: ReadEvent, room: usize)
    requires
        has_numbered_piece(m.piece_length, place(m)),
    ensures
        ({
            let step = m.step_after(event, room);
            let next = m.after(event, room);
            &&& subject(step) matches Some(p) ==> holds_byte(p as int, m.piece_length, place(m))
            &&& step matches StepModel::Deliver { prefetch: Some(f), .. } ==> holds_byte(
                f.after as int,
                m.piece_length,
                place(m),
            )
            &&& step matches StepModel::ReadMemory { piece } ==> next.pin == Some(
                (info_hash::folded(m.info_hash), piece),
            )
            &&& next.cached != m.cached ==> next.cached is Some && holds_byte(
                (next.cached->0).0 as int,
                m.piece_length,
                place(m),
            )
        }),
{
    the_piece_of_a_position_holds_its_byte(m.file_offset, m.current_pos, m.piece_length);
}

/// The place of the reader in its piece.
pub open spec fn place_in_piece(m: StreamModel) -> int {
    ((place(m) % m.piece_length as int) as usize) as int
}

/// `chunk` is as much of `data`, from the reader's place on, as there is and as there
/// is room for.
pub open spec fn is_chunk_of(m: StreamModel, data: Seq<u8>, room: usize, chunk: Seq<u8>) -> bool {
    let from = place_in_piece(m);
    &&& chunk.len() <= room
    &&& chunk.len() > 0 ==> from + chunk.len() <= data.len() && chunk == data.subrange(
        from,
        from + chunk.len(),
    )
    &&& chunk.len() == room || from + chunk.len() >= data.len()
}

/// The stream after the reader got `n` bytes of a piece.
pub open spec fn moved_on(m: StreamModel, n: int, piece: i32) -> StreamModel {
    StreamModel {
        current_pos: (m.current_pos + n) as u64,
        first_read_logged: m.first_read_logged || n > 0,
        requested: m.requested.remove(piece),
        ..m
    }
}

/// A poll begins by serving the reader from the kept piece, if that is the reader's,
/// and otherwise by looking the piece up. Without a piece it fails.
pub proof fn how_a_poll_begins(m: StreamModel, room: usize, piece: i32)
    requires
        piece == stream::piece_of(m.file_offset, m.current_pos, m.piece_length),
    ensures
        ({
            let step = m.step_after(ReadEvent::Start, room);
            let next = m.after(ReadEvent::Start, room);
            &&& piece < 0 ==> step == StepModel::Fail && next == m
            &&& piece >= 0 && (m.cached matches Some(c) ==> c.0 != piece) ==> step == (
            StepModel::LookUp { piece }) && next == m
            &&& piece >= 0 && m.cached is Some && (m.cached->0).0 == piece ==> {
                &&& step is Deliver
                &&& step->Deliver_piece == piece
                &&& is_chunk_of(m, (m.cached->0).1, room, step->chunk)
                &&& step->put is None
                &&& step->prefetch is None
                &&& next == moved_on(m, step->chunk.len() as int, piece)
            }
        }),
{
}

/// What the piece cache has is served and kept, and orders a prefetch once per piece,
/// farther ahead the faster the download. A miss leads to the backend.
pub proof fn how_a_lookup_is_answered(
    m: StreamModel,
    data: Option<Bytes>,
    speed: u64,
    room: usize,
    piece: i32,
)
    requires
        piece == stream::piece_of(m.file_offset, m.current_pos, m.piece_length),
    ensures
        ({
            let event = ReadEvent::Cached { data, speed };
            let step = m.step_after(event, room);
            let next = m.after(event, room);
            &&& data is None ==> step == (StepModel::AskHave { piece }) && next == m
            &&& data is Some ==> {
                let bytes = payload::content(data->0);
                &&& step is Deliver
                &&& step->Deliver_piece == piece
                &&& is_chunk_of(m, bytes, room, step->chunk)
                &&& step->put is None
                &&& m.last_prefetch_piece == piece ==> step->prefetch is None
                &&& m.last_prefetch_piece != piece ==> step->prefetch is Some
                    && step->prefetch->0.after == piece && is_prefetch_depth(
                    speed,
                    step->prefetch->0.count,
                )
                &&& next == (StreamModel {
                    cached: Some((piece, bytes, 0)),
                    last_prefetch_piece: piece,
                    ..moved_on(m, step->chunk.len() as int, piece)
                })
            }
        }),
{
}

/// The number of pieces to fetch ahead at a rate of bytes per second.
pub open spec fn is_prefetch_depth(speed: u64, count: i32) -> bool {
    &&& speed > 10_000_000 ==> count == 8
    &&& 5_000_000 < speed <= 10_000_000 ==> count == 5
    &&& 1_000_000 < speed <= 5_000_000 ==> count == 3
    &&& speed <= 1_000_000 ==> count == 2
}

/// The depth of a prefetch at every rate.
pub proof fn faster_downloads_are_fetched_farther_ahead(speed: u64, faster: u64)
    requires
        speed <= faster,
    ensures
        is_prefetch_depth(speed, stream::prefetch_count_at(speed)),
        2 <= stream::prefetch_count_at(speed) <= stream::prefetch_count_at(faster) <= 8,
{
}

/// At least `span` has passed since the last time, if there was one.
pub open spec fn has_passed(then: Option<u64>, now: u64, span: int) -> bool {
    then matches Some(t) ==> now >= t + span
}

/// A piece that the backend lacks is waited for with the stream's deadline; the wait
/// is reported at first and every two seconds, and nudged after ten seconds and every
/// ten seconds. Only the notes of the reports and nudges change.
pub proof fn how_a_missing_piece_is_waited_for(
    m: StreamModel,
    now: u64,
    elapsed: u64,
    room: usize,
    piece: i32,
)
    requires
        piece == stream::piece_of(m.file_offset, m.current_pos, m.piece_length),
    ensures
        ({
            let event = ReadEvent::Have { have: false, now, elapsed };
            let step = m.step_after(event, room);
            let next = m.after(event, room);
            let report = !m.first_wait_logged || has_passed(m.last_wait_log, now, 2_000_000_000);
            let nudge = elapsed >= 10_000_000_000 && has_passed(
                m.last_deadline_reset_at,
                now,
                10_000_000_000,
            );
            &&& step == StepModel::Wait(
                WaitOrder { piece, deadline: m.wait_deadline_ms, report, nudge },
            )
            &&& next == (StreamModel {
                first_wait_logged: true,
                last_wait_log: if report {
                    Some(now)
                } else {
                    m.last_wait_log
                },
                last_deadline_reset_at: if nudge {
                    Some(now)
                } else {
                    m.last_deadline_reset_at
                },
                ..m
            })
        }),
{
}

/// A piece that the backend has is pinned and read from its memory, unless it was
/// requested by other means; then the poll fails.
pub proof fn how_a_present_piece_is_read(
    m: StreamModel,
    now: u64,
    elapsed: u64,
    room: usize,
    piece: i32,
)
    requires
        piece == stream::piece_of(m.file_offset, m.current_pos, m.piece_length),
    ensures
        ({
            let event = ReadEvent::Have { have: true, now, elapsed };
            let step = m.step_after(event, room);
            let next = m.after(event, room);
            &&& m.requested.contains_key(piece) ==> step == StepModel::Fail && next == m
            &&& !m.requested.contains_key(piece) ==> {
                &&& step == (StepModel::ReadMemory { piece })
                &&& next == (StreamModel {
                    pin: Some((info_hash::folded(m.info_hash), piece)),
                    ..m
                })
            }
        }),
{
}

/// What the backend's memory holds is served, kept, and put into the cache; where it
/// holds nothing, the cache is asked once more. The pin is gone either way.
pub proof fn how_a_memory_read_is_answered(
    m: StreamModel,
    bytes: Vec<u8>,
    room: usize,
    piece: i32,
)
    requires
        piece == stream::piece_of(m.file_offset, m.current_pos, m.piece_length),
    ensures
        ({
            let event = ReadEvent::Memory { bytes };
            let step = m.step_after(event, room);
            let next = m.after(event, room);
            &&& bytes@.len() == 0 ==> step == (StepModel::LookUpAgain { piece }) && next == (
            StreamModel { pin: None, ..m })
            &&& bytes@.len() > 0 ==> {
                &&& step is Deliver
                &&& step->Deliver_piece == piece
                &&& is_chunk_of(m, bytes@, room, step->chunk)
                &&& step->put == Some(bytes@)
                &&& step->prefetch is None
                &&& next == (StreamModel {
                    cached: Some((piece, bytes@, 0)),
                    pin: None,
                    ..moved_on(m, step->chunk.len() as int, piece)
                })
            }
        }),
{
}

/// What the cache has at the second look is served and kept; without it the reader
/// waits for the warm tier.
pub proof fn how_a_second_lookup_is_answered(
    m: StreamModel,
    data: Option<Bytes>,
    room: usize,
    piece: i32,
)
    requires
        piece == stream::piece_of(m.file_offset, m.current_pos, m.piece_length),
    ensures
        ({
            let event = ReadEvent::CachedAgain { data };
            let step = m.step_after(event, room);
            let next = m.after(event, room);
            &&& data is None ==> step == (StepModel::WaitForWarm { piece }) && next == m
            &&& data is Some ==> {
                let bytes = payload::content(data->0);
                &&& step is Deliver
                &&& step->Deliver_piece == piece
                &&& is_chunk_of(m, bytes, room, step->chunk)
                &&& step->put is None
                &&& step->prefetch is None
                &&& next == (StreamModel {
                    cached: Some((piece, bytes, 0)),
                    ..moved_on(m, step->chunk.len() as int, piece)
                })
            }
        }),
{
}

/// When a stream can be told an event: a poll may begin when no memory read is under
/// way; the answers come while the stream has a piece to read and does not hold it,
/// the answer of a memory read while the pin is held.
pub proof fn what_a_stream_may_be_told(
    m: StreamModel,
    data: Option<Bytes>,
    speed: u64,
    have: bool,
    now: u64,
    elapsed: u64,
    bytes: Vec<u8>,
    piece: i32,
)
    requires
        piece == stream::piece_of(m.file_offset, m.current_pos, m.piece_length),
    ensures
        ({
            let needs = piece >= 0 && (m.cached matches Some(c) ==> c.0 != piece);
            let wanted = !m.requested.contains_key(piece);
            &&& m.awaits(ReadEvent::Start) <==> m.pin is None
            &&& m.awaits(ReadEvent::Cached { data, speed }) <==> m.pin is None && needs
            &&& m.awaits(ReadEvent::Have { have, now, elapsed }) <==> m.pin is None && needs
            &&& m.awaits(ReadEvent::Memory { bytes }) <==> m.pin is Some && needs && wanted
            &&& m.awaits(ReadEvent::CachedAgain { data }) <==> m.pin is None && needs && wanted
        }),
{
}

/// An event can be taken whenever the position stays within 64 bits, which it does
/// wherever nothing is delivered.
pub proof fn when_bytes_can_be_counted(m: StreamModel, event: ReadEvent, room: usize)
    requires
        m.awaits(event),
    ensures
        m.step_after(event, room) !is Deliver ==> m.can_take(event, room),
        m.step_after(event, room) is Deliver ==> (m.can_take(event, room) <==> m.current_pos
            + m.step_after(event, room)->chunk.len() <= u64::MAX),
        m.current_pos + room <= u64::MAX ==> m.can_take(event, room),
{
}

/// The number of pins on a piece.
pub open spec fn pins_on(counts: Map<(Seq<char>, i32), u32>, k: (Seq<char>, i32)) -> int {
    if counts.contains_key(k) {
        counts[k] as int
    } else {
        0
    }
}

/// An event that leads to a memory read adds one pin to the piece that is read, the
/// answer takes the pin that is held away, and no other event and no other piece has
/// its pins changed. A pin can be added wherever its count has room.
pub proof fn how_a_poll_pins(
    m: StreamModel,
    event: ReadEvent,
    room: usize,
    counts: Map<(Seq<char>, i32), u32>,
    other: (Seq<char>, i32),
)
    requires
        m.awaits(event),
    ensures
        ({
            let step = m.step_after(event, room);
            let after = m.pins_after(event, counts);
            &&& step matches StepModel::ReadMemory { piece } ==> {
                let k = (info_hash::folded(m.info_hash), piece);
                &&& m.can_pin(event, counts) <==> pins_on(counts, k) < u32::MAX
                &&& m.can_pin(event, counts) ==> pins_on(after, k) == pins_on(counts, k) + 1
                &&& other != k ==> pins_on(after, other) == pins_on(counts, other)
            }
            &&& step !is ReadMemory ==> m.can_pin(event, counts)
            &&& event is Memory ==> {
                let k = m.pin->0;
                &&& pins_on(counts, k) > 0 ==> pins_on(after, k) == pins_on(counts, k) - 1
                &&& pins_on(counts, k) <= 1 ==> !after.contains_key(k)
                &&& other != k ==> pins_on(after, other) == pins_on(counts, other)
            }
            &&& step !is ReadMemory && event !is Memory ==> after == counts
        }),
{
}

/// All pieces of the file have arrived.
pub open spec fn has_all(have: Seq<bool>) -> bool {
    !have.contains(false)
}

proof fn lemma_all_have_arrived(have: Seq<bool>)
    ensures
        stream::all_true(have) <==> has_all(have),
{
    if !has_all(have) {
        let i = choose|i: int| 0 <= i < have.len() && have[i] == false;
        assert(!have[i]);
    }
    if !stream::all_true(have) {
        let i = choose|i: int| 0 <= i < have.len() && !(#[trigger] have[i]);
        assert(have[i] == false);
        assert(have.contains(false));
    }
}

/// A look at the deadlines asks for the pieces from the one that holds the position
/// up to the last one of the file.
pub proof fn deadlines_begin_at_the_position(m: StreamModel, pos: u64, have: Seq<bool>)
    requires
        has_numbered_piece(m.piece_length, m.file_offset + pos),
        m.last_piece < i32::MAX,
    ensures
        m.priority_plan(pos, have) matches PriorityPlan::Schedule { current_piece, end_piece } ==> {
            &&& holds_byte(current_piece as int, m.piece_length, m.file_offset + pos)
            &&& end_piece == m.last_piece + 1
        },
{
    the_piece_of_a_position_holds_its_byte(m.file_offset, pos, m.piece_length);
}

/// What a look at the deadlines does. Nothing, for a complete file, without a piece
/// length, and on the piece of the last look. Otherwise it remembers the piece and
/// uses the kind of the last seek up; the file is complete if no piece is missing, and
/// else the pieces from here to the end of the file are to be scheduled.
pub proof fn what_a_look_at_the_deadlines_does(
    m: StreamModel,
    pos: u64,
    have: Seq<bool>,
    piece: i32,
)
    requires
        piece == stream::piece_of(m.file_offset, pos, m.piece_length),
        m.last_piece < i32::MAX,
    ensures
        ({
            let plan = m.priority_plan(pos, have);
            let next = m.prioritised(pos, have);
            let idle = m.is_complete || m.piece_length == 0 || piece == m.last_priorities_piece;
            &&& m.priorities_stand(pos) <==> idle
            &&& idle ==> plan == PriorityPlan::Keep && next == m
            &&& !idle && !have.contains(false) ==> {
                &&& plan == PriorityPlan::Complete
                &&& next == (StreamModel {
                    seek_type: SeekType::Sequential,
                    last_priorities_piece: piece,
                    is_complete: true,
                    ..m
                })
            }
            &&& !idle && have.contains(false) ==> {
                &&& plan == (PriorityPlan::Schedule {
                    current_piece: piece,
                    end_piece: (m.last_piece + 1) as i32,
                })
                &&& next == (StreamModel {
                    seek_type: SeekType::Sequential,
                    last_priorities_piece: piece,
                    is_complete: false,
                    ..m
                })
            }
        }),
{
    lemma_all_have_arrived(have);
}

/// The number of pieces of a file counts its first and its last one.
pub proof fn the_pieces_of_a_file_are_counted(m: StreamModel)
    ensures
        m.first_piece <= m.last_piece ==> m.first_piece + m.piece_count() == m.last_piece + 1,
        m.first_piece > m.last_piece ==> m.piece_count() == 0,
{
}

/// Each proposal is judged alone and keeps its place: a missing piece of the file gets
/// its deadline, set off by the stream's number unless it is due now or background
/// work, and any other proposal is passed over.
pub proof fn each_proposal_is_judged_alone(
    m: StreamModel,
    items: Seq<PriorityItem>,
    item: PriorityItem,
    have: Seq<bool>,
)
    requires
        have.len() == m.piece_count(),
    ensures
        m.deadlines_for(Seq::empty(), have).len() == 0,
        ({
            let before = m.deadlines_for(items, have);
            let after = m.deadlines_for(items.push(item), have);
            let due = if item.deadline == 0 || item.deadline >= 100_000 {
                item.deadline as int
            } else {
                item.deadline + 5 * (m.stream_id % 10)
            };
            if m.first_piece <= item.piece_idx <= m.last_piece && !have[item.piece_idx
                - m.first_piece] {
                after == before.push((item.piece_idx, due as i32))
            } else {
                after == before
            }
        }),
{
    reveal(Seq::filter);
    let wanted = |i: PriorityItem| m.is_wanted(i, have);
    let order = |i: PriorityItem|
        (i.piece_idx, stream::shared_deadline(i.deadline, m.stream_id) as i32);
    assert(items.push(item).drop_last() =~= items);
    assert(items.filter(wanted).push(item).map_values(order) =~= items.filter(wanted).map_values(
        order,
    ).push(order(item)));
}

/// A seek counts from the beginning, from the position or from the end of the file,
/// and stops at the beginning. It drops the kept piece, notes whether it leads to the
/// metadata, and leaves the rest of the stream alone. Positions and sizes beyond 63
/// bits are left out of the relative seeks.
pub proof fn seeks_count_from_where_they_say(
    m: StreamModel,
    at: u64,
    delta: i64,
    metadata_start: u64,
)
    ensures
        m.can_seek(SeekTarget::Start(at)),
        m.sought(SeekTarget::Start(at), metadata_start) == put_at(m, at, metadata_start),
        m.current_pos <= i64::MAX ==> {
            let to = m.current_pos + delta;
            &&& m.can_seek(SeekTarget::Current(delta)) <==> to <= i64::MAX
            &&& 0 <= to <= i64::MAX ==> m.sought(SeekTarget::Current(delta), metadata_start)
                == put_at(m, to as u64, metadata_start)
            &&& to < 0 ==> m.sought(SeekTarget::Current(delta), metadata_start) == put_at(
                m,
                0,
                metadata_start,
            )
        },
        m.file_size <= i64::MAX ==> {
            let to = m.file_size + delta;
            &&& m.can_seek(SeekTarget::End(delta)) <==> to <= i64::MAX
            &&& 0 <= to <= i64::MAX ==> m.sought(SeekTarget::End(delta), metadata_start) == put_at(
                m,
                to as u64,
                metadata_start,
            )
            &&& to < 0 ==> m.sought(SeekTarget::End(delta), metadata_start) == put_at(
                m,
                0,
                metadata_start,
            )
        },
{
}

/// The stream with its reader moved to a position.
pub open spec fn put_at(m: StreamModel, at: u64, metadata_start: u64) -> StreamModel {
    StreamModel {
        current_pos: at,
        seek_type: if at >= metadata_start {
            SeekType::ContainerMetadata
        } else {
            SeekType::UserScrub
        },
        cached: None,
        ..m
    }
}

/// A relative seek from a position or size beyond 63 bits counts from its value in
/// two's complement.
pub proof fn seeks_from_beyond_63_bits(m: StreamModel, delta: i64, metadata_start: u64)
    ensures
        ({
            let to = (m.current_pos as i64) + delta;
            &&& m.can_seek(SeekTarget::Current(delta)) <==> i64::MIN <= to <= i64::MAX
            &&& i64::MIN <= to < 0 ==> m.sought(SeekTarget::Current(delta), metadata_start)
                == put_at(m, 0, metadata_start)
            &&& 0 <= to <= i64::MAX ==> m.sought(SeekTarget::Current(delta), metadata_start)
                == put_at(m, to as u64, metadata_start)
        }),
        ({
            let to = (m.file_size as i64) + delta;
            &&& m.can_seek(SeekTarget::End(delta)) <==> i64::MIN <= to <= i64::MAX
            &&& i64::MIN <= to < 0 ==> m.sought(SeekTarget::End(delta), metadata_start) == put_at(
                m,
                0,
                metadata_start,
            )
            &&& 0 <= to <= i64::MAX ==> m.sought(SeekTarget::End(delta), metadata_start) == put_at(
                m,
                to as u64,
                metadata_start,
            )
        }),
{
}

/// Seeks by two distances in a row are one seek by their sum, where neither passes the
/// beginning.
pub proof fn relative_seeks_add_up(m: StreamModel, a: i64, b: i64, metadata_start: u64)
    requires
        m.current_pos <= i64::MAX,
        0 <= m.current_pos + a <= i64::MAX,
        0 <= m.current_pos + a + b <= i64::MAX,
        i64::MIN <= a + b <= i64::MAX,
    ensures
        m.sought(SeekTarget::Current(a), metadata_start).sought(
            SeekTarget::Current(b),
            metadata_start,
        ).current_pos == m.sought(
            SeekTarget::Current((a + b) as i64),
            metadata_start,
        ).current_pos,
        m.sought(SeekTarget::Current(a), metadata_start).current_pos - m.current_pos == a,
{
}

/// A prefetch covers the pieces right behind the reader's, one after the other, as many
/// as were ordered and none beyond the end of the file.
pub proof fn a_prefetch_covers_the_next_pieces(after: i32, count: i32, last_piece: i32, i: int)
    ensures
        ({
            let s = stream::covered(after, count, last_piece);
            &&& 0 <= i < s.len() ==> s[i] == after + 1 + i && s[i] <= last_piece
            &&& count <= 0 || after >= last_piece ==> s.len() == 0
            &&& 0 < count && after < last_piece ==> s.len() <= count && (s.len() == count || s.len()
                > 0 && s.last() == last_piece)
        }),
{
}

/// The model of a stream has the stream's own values.
pub proof fn a_stream_is_seen_as_it_is(s: LibtorrentFileStream)
    ensures
        s@.first_piece == s.first_piece,
        s@.last_piece == s.last_piece,
        s@.piece_length == s.piece_length,
        s@.file_offset == s.file_offset,
        s@.current_pos == s.current_pos,
        s@.is_complete == s.is_complete,
        s@.last_priorities_piece == s.last_priorities_piece,
        s@.stream_id == s.stream_id,
        s@.info_hash == s.info_hash@,
        s.cached_piece_data is None <==> s@.cached is None,
        s.cached_piece_data matches Some(c) ==> s@.cached == Some(
            (c.0, payload::content(c.1), c.2),
        ),
        s@.last_prefetch_piece == s.last_prefetch_piece,
        s@.requested == s.requested_piece_via_api@,
        s@.seek_type == s.seek_type,
        s@.file_size == s.file_size,
        s@.first_read_logged == s.first_read_logged,
        s@.first_wait_logged == s.first_wait_logged,
        s@.last_wait_log == s.last_wait_log,
        s@.last_deadline_reset_at == s.last_deadline_reset_at,
        s@.wait_deadline_ms == s.wait_deadline_ms,
        s.memory_pin is None <==> s@.pin is None,
        s.memory_pin matches Some(g) ==> s@.pin == Some(g@),
{
}

/// The model of a step has the step's own values.
pub proof fn a_step_is_seen_as_it_is(step: ReadStep)
    ensures
        match step {
            ReadStep::LookUp { piece } => step@ == (StepModel::LookUp { piece }),
            ReadStep::AskHave { piece } => step@ == (StepModel::AskHave { piece }),
            ReadStep::ReadMemory { piece } => step@ == (StepModel::ReadMemory { piece }),
            ReadStep::LookUpAgain { piece } => step@ == (StepModel::LookUpAgain { piece }),
            ReadStep::Deliver(d) => {
                &&& step@ is Deliver
                &&& step@->Deliver_piece == d.piece
                &&& step@->chunk == payload::content(d.chunk)
                &&& step@->put is Some <==> d.put is Some
                &&& d.put matches Some(b) ==> step@->put == Some(payload::content(b))
                &&& step@->prefetch == d.prefetch
            },
            ReadStep::Wait(order) => step@ == StepModel::Wait(order),
            ReadStep::WaitForWarm { piece } => step@ == (StepModel::WaitForWarm { piece }),
            ReadStep::Fail => step@ == StepModel::Fail,
        },
{
}

/// The key of a piece is its lower-case hash and its index.
pub proof fn the_key_of_a_piece(m: StreamModel, hash: Seq<char>, piece_idx: i32)
    ensures
        CacheModel::key(hash, piece_idx) == (info_hash::folded(hash), piece_idx),
        m.read_key() == (
            info_hash::folded(m.info_hash),
            stream::piece_of(m.file_offset, m.current_pos, m.piece_length),
        ),
{
}

/// How many milliseconds a waiting reader waits, for a piece and for the warm tier, and
/// the priority of a piece that is waited for.
pub proof fn the_times_of_a_wait()
    ensures
        stream::WAIT_RETRY_MS == 500,
        stream::WARM_RETRY_MS == 10,
        stream::WAIT_PRIORITY == 7,
{
}

/// Every answer that a poll uses is true of the piece that it asked about: the cache
/// and the backend's memory have that piece's own bytes, if any.
pub open spec fn is_answered_truly(m: StreamModel, t: Seq<u8>, a: Answers, room: usize) -> bool {
    let pinned = m.after(a.second(), room);
    let l = m.piece_length;
    &&& m.step_after(ReadEvent::Start, room) matches StepModel::LookUp { piece } ==> (
    a.cached matches Some(b) ==> stream_laws::is_piece_of(t, l, piece, payload::content(b)))
    &&& m.step_after(a.second(), room) matches StepModel::ReadMemory { piece } ==> (
    a.memory@.len() > 0 ==> stream_laws::is_piece_of(t, l, piece, a.memory@))
    &&& pinned.step_after(a.third(), room) matches StepModel::LookUpAgain { piece } ==> (
    a.cached_again matches Some(b) ==> stream_laws::is_piece_of(t, l, piece, payload::content(b)))
}

/// A poll whose questions are answered truly gives the reader the bytes of the torrent
/// at its position and moves the position on by as many. What it puts into the cache is
/// the data of the piece under whose number it is put, and what it keeps is the data of
/// the piece under whose number it is kept.
pub proof fn true_answers_give_the_torrents_bytes(
    m: StreamModel,
    t: Seq<u8>,
    a: Answers,
    room: usize,
)
    requires
        stream_laws::reads_inside(m, t),
        stream_laws::keeps_true_piece(m, t),
        is_answered_truly(m, t, a, room),
    ensures
        ({
            let (step, next) = stream_laws::polled(m, a, room);
            let bytes = stream_laws::bytes_of(step);
            &&& place(m) + bytes.len() <= t.len()
            &&& bytes == t.subrange(place(m), place(m) + bytes.len())
            &&& place(next) == place(m) + bytes.len()
            &&& step matches StepModel::Deliver { piece, put: Some(data), .. }
                ==> stream_laws::is_piece_of(t, m.piece_length, piece, data)
            &&& stream_laws::keeps_true_piece(next, t)
        }),
{
    reveal(stream_laws::polled);
    let l = m.piece_length as int;
    lemma_the_piece_holds_the_byte(m.file_offset, m.current_pos, m.piece_length);
    vstd::arithmetic::div_mod::lemma_div_is_ordered(place(m), t.len() as int, l);
    let p = m.piece();
    assert(0 <= p);
    assert(stream_laws::is_told_the_truth(m, t, a));
    stream_laws::a_poll_gives_the_torrents_bytes(m, t, a, room);
    stream_laws::how_a_poll_ends(m, a, room);
}

} // verus!
