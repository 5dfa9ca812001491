//! The per-request file stream: where a reader stands in its file, which piece it
//! needs next, and where that piece comes from.
//!
//! A poll walks through the sources of a piece in a fixed order: the stream's own
//! last piece, the piece cache, the backend's memory, and the piece cache once
//! more. Each outside answer is an event; the stream says what to do next.

use bytes::Bytes;
use crate::hybrid_cache::CacheModel;
use crate::hybrid_cache::HybridPieceCache;
use crate::hybrid_cache::PiecePinGuard;
use crate::info_hash;
use crate::payload;
use crate::pins;
use std::collections::HashMap;
use vstd::prelude::*;

verus! {

/// Pieces that are waited for get the highest priority.
pub const WAIT_PRIORITY: u8 = 7;

/// A waiting reader looks again after this long even when nobody wakes it.
pub const WAIT_RETRY_MS: u64 = 500;

/// How long to wait for the drain to finish writing a piece.
pub const WARM_RETRY_MS: u64 = 10;

/// Deadlines from here on are background work and are shared by all streams.
pub const BACKGROUND_DEADLINE: i32 = 100_000;

/// Nanoseconds between two reports of a wait.
pub const WAIT_REPORT_NANOS: u64 = 2_000_000_000;

/// Nanoseconds after which a wait counts as stuck, and between two nudges.
pub const NUDGE_NANOS: u64 = 10_000_000_000;

/// Why the reader stands where it stands.
#[derive(Clone, Copy, Debug, PartialEq, Eq, Structural)]
pub enum SeekType {
    /// It read up to here.
    Sequential,
    /// It starts from the beginning of the file.
    InitialPlayback,
    /// The user moved it.
    UserScrub,
    /// It reads container metadata at the end of the file.
    ContainerMetadata,
}

/// Where to move to.
#[derive(Clone, Copy, Debug, PartialEq, Eq, Structural)]
pub enum SeekTarget {
    Start(u64),
    Current(i64),
    End(i64),
}

/// A piece with the time in which it should arrive, as the scheduler proposes it.
#[derive(Clone, Copy, Debug, PartialEq, Eq, Structural)]
pub struct PriorityItem {
    pub piece_idx: i32,
    pub deadline: i32,
}

/// What to do about piece deadlines.
#[derive(Clone, Copy, Debug, PartialEq, Eq, Structural)]
pub enum PriorityPlan {
    /// Nothing changed since the last time.
    Keep,
    /// All pieces of the file have arrived.
    Complete,
    /// Ask the scheduler about the pieces from `current_piece` up to, but not
    /// including, `end_piece`.
    Schedule { current_piece: i32, end_piece: i32 },
}

/// Pieces to bring into the cache ahead of the reader.
#[derive(Clone, Copy, Debug, PartialEq, Eq, Structural)]
pub struct Prefetch {
    /// The piece that the reader is on.
    pub after: i32,
    pub count: i32,
}

/// What to do while a piece is missing.
#[derive(Clone, Copy, Debug, PartialEq, Eq, Structural)]
pub struct WaitOrder {
    pub piece: i32,
    /// Deadline to assert for the piece.
    pub deadline: i32,
    /// The wait is to be reported.
    pub report: bool,
    /// The piece is stuck: assert priority and deadline zero once more.
    pub nudge: bool,
}

/// What a poll was told.
pub enum ReadEvent {
    /// The poll begins.
    Start,
    /// What the piece cache has; `speed` is the estimated download rate in bytes
    /// per second, rounded up.
    Cached { data: Option<Bytes>, speed: u64 },
    /// Whether the backend has the piece; `now` and `elapsed` are nanoseconds
    /// since the stream was created.
    Have { have: bool, now: u64, elapsed: u64 },
    /// What the backend's memory holds of the piece; empty if it was freed.
    Memory { bytes: Vec<u8> },
    /// What the piece cache has after the backend's memory was found empty.
    CachedAgain { data: Option<Bytes> },
}

/// Bytes for the reader.
pub struct Delivery {
    /// The piece that the bytes are from.
    pub piece: i32,
    pub chunk: Bytes,
    /// The contents of the piece, if they are to be put into the piece cache.
    pub put: Option<Bytes>,
    pub prefetch: Option<Prefetch>,
}

/// What a poll does next.
pub enum ReadStep {
    /// Look the piece up in the piece cache.
    LookUp { piece: i32 },
    /// Ask the backend whether it has the piece.
    AskHave { piece: i32 },
    /// Read the piece from the backend's memory. The piece is pinned until the answer
    /// comes.
    ReadMemory { piece: i32 },
    /// Look the piece up once more.
    LookUpAgain { piece: i32 },
    /// The poll ends with these bytes.
    Deliver(Delivery),
    /// The poll ends without bytes; the piece has to arrive first.
    Wait(WaitOrder),
    /// The poll ends without bytes; the piece is on its way to the warm tier.
    WaitForWarm { piece: i32 },
    /// The poll ends with an error.
    Fail,
}

/// The steps, with payloads taken by their contents.
pub enum StepModel {
    LookUp { piece: i32 },
    AskHave { piece: i32 },
    ReadMemory { piece: i32 },
    LookUpAgain { piece: i32 },
    Deliver { piece: i32, chunk: Seq<u8>, put: Option<Seq<u8>>, prefetch: Option<Prefetch> },
    Wait(WaitOrder),
    WaitForWarm { piece: i32 },
    Fail,
}

impl View for ReadStep {
    type V = StepModel;

    open spec fn view(&self) -> StepModel {
        match *self {
            ReadStep::LookUp { piece } => StepModel::LookUp { piece },
            ReadStep::AskHave { piece } => StepModel::AskHave { piece },
            ReadStep::ReadMemory { piece } => StepModel::ReadMemory { piece },
            ReadStep::LookUpAgain { piece } => StepModel::LookUpAgain { piece },
            ReadStep::Deliver(d) => StepModel::Deliver {
                piece: d.piece,
                chunk: payload::content(d.chunk),
                put: match d.put {
                    Some(b) => Some(payload::content(b)),
                    None => None,
                },
                prefetch: d.prefetch,
            },
            ReadStep::Wait(w) => StepModel::Wait(w),
            ReadStep::WaitForWarm { piece } => StepModel::WaitForWarm { piece },
            ReadStep::Fail => StepModel::Fail,
        }
    }
}

/// The piece in which position `pos` of the file lies; -1 without pieces.
pub open spec fn piece_of(file_offset: u64, pos: u64, piece_length: u64) -> i32 {
    if piece_length > 0 {
        ((file_offset + pos) / piece_length as int) as i32
    } else {
        (-1) as i32
    }
}

/// How many pieces to fetch ahead at a download rate.
pub open spec fn prefetch_count_at(speed: u64) -> i32 {
    if speed > 10_000_000 {
        8
    } else if speed > 5_000_000 {
        5
    } else if speed > 1_000_000 {
        3
    } else {
        2
    }
}

/// The deadline that a stream asserts for a proposed one: streams are set apart
/// by a small offset, except for pieces that are due now and for background work.
pub open spec fn shared_deadline(deadline: i32, stream_id: usize) -> int {
    if deadline == 0 {
        0
    } else if deadline >= BACKGROUND_DEADLINE {
        deadline as int
    } else {
        deadline + (stream_id % 10) * 5
    }
}

/// At least `span` nanoseconds have passed since `then`, or there was no `then`.
pub open spec fn is_due(then: Option<u64>, now: u64, span: u64) -> bool {
    match then {
        Some(t) => now - t >= span,
        None => true,
    }
}

/// The state of a stream.
#[verifier::ext_equal]
pub struct StreamModel {
    pub first_piece: i32,
    pub last_piece: i32,
    pub piece_length: u64,
    pub file_offset: u64,
    pub current_pos: u64,
    pub is_complete: bool,
    pub last_priorities_piece: i32,
    pub stream_id: usize,
    pub info_hash: Seq<char>,
    pub cached: Option<(i32, Seq<u8>, u64)>,
    pub last_prefetch_piece: i32,
    pub requested: Map<i32, u64>,
    pub seek_type: SeekType,
    pub file_size: u64,
    pub first_read_logged: bool,
    pub first_wait_logged: bool,
    pub last_wait_log: Option<u64>,
    pub last_deadline_reset_at: Option<u64>,
    pub wait_deadline_ms: i32,
    /// The piece that is pinned for a read of the backend's memory.
    pub pin: Option<(Seq<char>, i32)>,
}

impl StreamModel {
    /// The piece that the reader needs.
    pub open spec fn piece(self) -> i32 {
        piece_of(self.file_offset, self.current_pos, self.piece_length)
    }

    /// Where in the piece the reader stands.
    pub open spec fn offset_in_piece(self) -> usize {
        ((self.file_offset + self.current_pos) % self.piece_length as int) as usize
    }

    /// How many bytes of a piece the reader gets.
    pub open spec fn chunk_len(self, data: Seq<u8>, room: usize) -> int {
        let available = if self.offset_in_piece() <= data.len() {
            data.len() - self.offset_in_piece()
        } else {
            0
        };
        if room <= available {
            room as int
        } else {
            available
        }
    }

    /// Which bytes of a piece the reader gets.
    pub open spec fn chunk(self, data: Seq<u8>, room: usize) -> Seq<u8> {
        if self.chunk_len(data, room) == 0 {
            Seq::empty()
        } else {
            data.subrange(
                self.offset_in_piece() as int,
                self.offset_in_piece() + self.chunk_len(data, room),
            )
        }
    }

    /// The stream after the reader got its bytes of a piece.
    pub open spec fn served(self, data: Seq<u8>, room: usize) -> StreamModel {
        StreamModel {
            current_pos: (self.current_pos + self.chunk_len(data, room)) as u64,
            first_read_logged: self.first_read_logged || self.chunk_len(data, room) > 0,
            requested: self.requested.remove(self.piece()),
            ..self
        }
    }

    /// The stream after it kept a piece for the next poll.
    pub open spec fn keeping(self, piece: i32, data: Seq<u8>) -> StreamModel {
        StreamModel { cached: Some((piece, data, 0)), ..self }
    }

    /// The stream holds the piece that the reader needs.
    pub open spec fn holds_piece(self) -> bool {
        match self.cached {
            Some(c) => self.piece() >= 0 && c.0 == self.piece(),
            None => false,
        }
    }

    /// The contents of the piece that the stream holds.
    pub open spec fn held_data(self) -> Seq<u8> {
        match self.cached {
            Some(c) => c.1,
            None => Seq::empty(),
        }
    }

    /// The event is an answer to what the stream asks at this point of a poll.
    pub open spec fn awaits(self, event: ReadEvent) -> bool {
        match event {
            ReadEvent::Start => self.pin is None,
            ReadEvent::Cached { .. } | ReadEvent::Have { .. } => self.pin is None && self.piece()
                >= 0 && !self.holds_piece(),
            ReadEvent::Memory { .. } => self.pin is Some && self.piece() >= 0 && !self.holds_piece()
                && !self.requested.contains_key(self.piece()),
            ReadEvent::CachedAgain { .. } => self.pin is None && self.piece() >= 0
                && !self.holds_piece() && !self.requested.contains_key(self.piece()),
        }
    }

    /// The key of the piece that the reader needs.
    pub open spec fn read_key(self) -> (Seq<char>, i32) {
        CacheModel::key(self.info_hash, self.piece())
    }

    /// The event leads to a read of the backend's memory, for which the piece is
    /// pinned.
    pub open spec fn orders_pin(self, event: ReadEvent) -> bool {
        event matches ReadEvent::Have { have: true, .. } && !self.requested.contains_key(
            self.piece(),
        )
    }

    /// The pin counts after an event: a pin comes with the order to read the
    /// backend's memory and goes with the answer.
    pub open spec fn pins_after(self, event: ReadEvent, m: Map<(Seq<char>, i32), u32>) -> Map<
        (Seq<char>, i32),
        u32,
    > {
        if self.orders_pin(event) {
            pins::pinned(m, self.read_key())
        } else if event is Memory && self.pin is Some {
            pins::unpinned(m, self.pin->0)
        } else {
            m
        }
    }

    /// The pin that the event orders can be counted.
    pub open spec fn can_pin(self, event: ReadEvent, m: Map<(Seq<char>, i32), u32>) -> bool {
        self.orders_pin(event) ==> pins::count_of(m, self.read_key()) < u32::MAX
    }

    pub open spec fn with_pin(self, pin: Option<(Seq<char>, i32)>) -> StreamModel {
        StreamModel { pin, ..self }
    }

    /// The piece that the event makes available.
    pub open spec fn source(self, event: ReadEvent) -> Option<Seq<u8>> {
        match event {
            ReadEvent::Start => if self.holds_piece() {
                Some(self.held_data())
            } else {
                None
            },
            ReadEvent::Cached { data: Some(b), .. } | ReadEvent::CachedAgain { data: Some(b) } => Some(
                payload::content(b),
            ),
            ReadEvent::Memory { bytes } => if bytes@.len() > 0 {
                Some(bytes@)
            } else {
                None
            },
            _ => None,
        }
    }

    /// The bytes that the event delivers can be counted.
    pub open spec fn can_take(self, event: ReadEvent, room: usize) -> bool {
        match self.source(event) {
            Some(data) => self.current_pos + self.chunk_len(data, room) <= u64::MAX,
            None => true,
        }
    }

    /// What the stream orders while the piece is missing.
    pub open spec fn wait_order(self, now: u64, elapsed: u64) -> WaitOrder {
        WaitOrder {
            piece: self.piece(),
            deadline: self.wait_deadline_ms,
            report: !self.first_wait_logged || is_due(self.last_wait_log, now, WAIT_REPORT_NANOS),
            nudge: elapsed >= NUDGE_NANOS && is_due(self.last_deadline_reset_at, now, NUDGE_NANOS),
        }
    }

    /// The stream after an event.
    pub open spec fn after(self, event: ReadEvent, room: usize) -> StreamModel {
        match event {
            ReadEvent::Start => if self.holds_piece() {
                self.served(self.held_data(), room)
            } else {
                self
            },
            ReadEvent::Cached { data: Some(b), .. } => StreamModel {
                last_prefetch_piece: self.piece(),
                ..self.served(payload::content(b), room).keeping(self.piece(), payload::content(b))
            },
            ReadEvent::Have { have: false, now, elapsed } => StreamModel {
                first_wait_logged: true,
                last_wait_log: if self.wait_order(now, elapsed).report {
                    Some(now)
                } else {
                    self.last_wait_log
                },
                last_deadline_reset_at: if self.wait_order(now, elapsed).nudge {
                    Some(now)
                } else {
                    self.last_deadline_reset_at
                },
                ..self
            },
            ReadEvent::Have { have: true, .. } => if self.orders_pin(event) {
                self.with_pin(Some(self.read_key()))
            } else {
                self
            },
            ReadEvent::Memory { bytes } => if bytes@.len() > 0 {
                self.served(bytes@, room).keeping(self.piece(), bytes@).with_pin(None)
            } else {
                self.with_pin(None)
            },
            ReadEvent::CachedAgain { data: Some(b) } => self.served(
                payload::content(b),
                room,
            ).keeping(self.piece(), payload::content(b)),
            _ => self,
        }
    }

    /// The step that follows an event.
    pub open spec fn step_after(self, event: ReadEvent, room: usize) -> StepModel {
        let piece = self.piece();
        match event {
            ReadEvent::Start => if piece < 0 {
                StepModel::Fail
            } else if self.holds_piece() {
                StepModel::Deliver {
                    piece,
                    chunk: self.chunk(self.held_data(), room),
                    put: None,
                    prefetch: None,
                }
            } else {
                StepModel::LookUp { piece }
            },
            ReadEvent::Cached { data, speed } => match data {
                Some(b) => StepModel::Deliver {
                    piece,
                    chunk: self.chunk(payload::content(b), room),
                    put: None,
                    prefetch: if piece != self.last_prefetch_piece {
                        Some(Prefetch { after: piece, count: prefetch_count_at(speed) })
                    } else {
                        None
                    },
                },
                None => StepModel::AskHave { piece },
            },
            ReadEvent::Have { have, now, elapsed } => if !have {
                StepModel::Wait(self.wait_order(now, elapsed))
            } else if self.requested.contains_key(piece) {
                StepModel::Fail
            } else {
                StepModel::ReadMemory { piece }
            },
            ReadEvent::Memory { bytes } => if bytes@.len() > 0 {
                StepModel::Deliver {
                    piece,
                    chunk: self.chunk(bytes@, room),
                    put: Some(bytes@),
                    prefetch: None,
                }
            } else {
                StepModel::LookUpAgain { piece }
            },
            ReadEvent::CachedAgain { data } => match data {
                Some(b) => StepModel::Deliver {
                    piece,
                    chunk: self.chunk(payload::content(b), room),
                    put: None,
                    prefetch: None,
                },
                None => StepModel::WaitForWarm { piece },
            },
        }
    }

    /// The piece deadlines need no attention at `pos`.
    pub open spec fn priorities_stand(self, pos: u64) -> bool {
        ||| self.is_complete
        ||| self.piece_length == 0
        ||| piece_of(self.file_offset, pos, self.piece_length) == self.last_priorities_piece
    }

    /// Number of pieces of the file.
    pub open spec fn piece_count(self) -> int {
        if self.first_piece <= self.last_piece {
            self.last_piece - self.first_piece + 1
        } else {
            0
        }
    }

    /// The stream after its piece deadlines were looked at for `pos`, where
    /// `have` tells which pieces of the file have arrived.
    pub open spec fn prioritised(self, pos: u64, have: Seq<bool>) -> StreamModel {
        if self.priorities_stand(pos) {
            self
        } else {
            StreamModel {
                seek_type: SeekType::Sequential,
                last_priorities_piece: piece_of(self.file_offset, pos, self.piece_length),
                is_complete: all_true(have),
                ..self
            }
        }
    }

    /// What is to be done about piece deadlines.
    pub open spec fn priority_plan(self, pos: u64, have: Seq<bool>) -> PriorityPlan {
        if self.priorities_stand(pos) {
            PriorityPlan::Keep
        } else if all_true(have) {
            PriorityPlan::Complete
        } else {
            PriorityPlan::Schedule {
                current_piece: piece_of(self.file_offset, pos, self.piece_length),
                end_piece: (self.last_piece + 1) as i32,
            }
        }
    }

    /// The proposed piece belongs to the file and has not arrived.
    pub open spec fn is_wanted(self, item: PriorityItem, have: Seq<bool>) -> bool {
        &&& self.first_piece <= item.piece_idx <= self.last_piece
        &&& !have[item.piece_idx - self.first_piece]
    }

    /// The deadlines to assert, in the order of the proposals.
    pub open spec fn deadlines_for(self, items: Seq<PriorityItem>, have: Seq<bool>) -> Seq<
        (i32, i32),
    > {
        items.filter(|item: PriorityItem| self.is_wanted(item, have)).map_values(
            |item: PriorityItem|
                (item.piece_idx, shared_deadline(item.deadline, self.stream_id) as i32),
        )
    }

    /// Where a seek leads.
    pub open spec fn seek_position(self, target: SeekTarget) -> int {
        match target {
            SeekTarget::Start(pos) => pos as int,
            SeekTarget::Current(delta) => at_least_zero((self.current_pos as i64) + delta),
            SeekTarget::End(delta) => at_least_zero((self.file_size as i64) + delta),
        }
    }

    /// The seek can be computed with 64 bits.
    pub open spec fn can_seek(self, target: SeekTarget) -> bool {
        match target {
            SeekTarget::Start(_) => true,
            SeekTarget::Current(delta) => i64::MIN <= (self.current_pos as i64) + delta <= i64::MAX,
            SeekTarget::End(delta) => i64::MIN <= (self.file_size as i64) + delta <= i64::MAX,
        }
    }

    /// The stream after a seek; positions from `metadata_start` on hold container
    /// metadata.
    pub open spec fn sought(self, target: SeekTarget, metadata_start: u64) -> StreamModel {
        StreamModel {
            current_pos: self.seek_position(target) as u64,
            seek_type: if self.seek_position(target) >= metadata_start {
                SeekType::ContainerMetadata
            } else {
                SeekType::UserScrub
            },
            cached: None,
            ..self
        }
    }
}

pub open spec fn at_least_zero(x: int) -> int {
    if x < 0 {
        0
    } else {
        x
    }
}

/// Every flag is set.
pub open spec fn all_true(flags: Seq<bool>) -> bool {
    forall|i: int| 0 <= i < flags.len() ==> #[trigger] flags[i]
}

/// A stream over one file of a torrent.
pub struct LibtorrentFileStream {
    pub first_piece: i32,
    pub last_piece: i32,
    pub piece_length: u64,
    /// Offset of the file in the torrent.
    pub file_offset: u64,
    pub current_pos: u64,
    /// All pieces of the file have arrived.
    pub is_complete: bool,
    /// The piece for which deadlines were last set.
    pub last_priorities_piece: i32,
    pub stream_id: usize,
    pub info_hash: String,
    /// The last piece served: index, contents and start, which is always zero.
    pub cached_piece_data: Option<(i32, Bytes, u64)>,
    /// The last piece for which a prefetch was ordered.
    pub last_prefetch_piece: i32,
    /// Pieces requested from the backend by other means, with the time.
    pub requested_piece_via_api: HashMap<i32, u64>,
    pub seek_type: SeekType,
    pub file_size: u64,
    pub first_read_logged: bool,
    pub first_wait_logged: bool,
    pub last_wait_log: Option<u64>,
    pub last_deadline_reset_at: Option<u64>,
    /// Deadline to assert for a missing piece; lower is more urgent.
    pub wait_deadline_ms: i32,
    /// The pin that is held while the backend's memory is read.
    pub memory_pin: Option<PiecePinGuard>,
}

impl View for LibtorrentFileStream {
    type V = StreamModel;

    open spec fn view(&self) -> StreamModel {
        StreamModel {
            first_piece: self.first_piece,
            last_piece: self.last_piece,
            piece_length: self.piece_length,
            file_offset: self.file_offset,
            current_pos: self.current_pos,
            is_complete: self.is_complete,
            last_priorities_piece: self.last_priorities_piece,
            stream_id: self.stream_id,
            info_hash: self.info_hash@,
            cached: match self.cached_piece_data {
                Some(c) => Some((c.0, payload::content(c.1), c.2)),
                None => None,
            },
            last_prefetch_piece: self.last_prefetch_piece,
            requested: self.requested_piece_via_api@,
            seek_type: self.seek_type,
            file_size: self.file_size,
            first_read_logged: self.first_read_logged,
            first_wait_logged: self.first_wait_logged,
            last_wait_log: self.last_wait_log,
            last_deadline_reset_at: self.last_deadline_reset_at,
            wait_deadline_ms: self.wait_deadline_ms,
            pin: match self.memory_pin {
                Some(guard) => Some(guard@),
                None => None,
            },
        }
    }
}

/// Whether `span` nanoseconds have passed since `then`.
fn due(then: Option<u64>, now: u64, span: u64) -> (r: bool)
    requires
        span > 0,
    ensures
        r == is_due(then, now, span),
{
    match then {
        Some(t) => now >= t && now - t >= span,
        None => true,
    }
}

/// Whether every flag is set.
fn all_set(flags: &Vec<bool>) -> (r: bool)
    ensures
        r == all_true(flags@),
{
    let mut i: usize = 0;
    while i < flags.len()
        invariant
            i <= flags.len(),
            forall|j: int| 0 <= j < i ==> #[trigger] flags[j],
        decreases flags.len() - i,
    {
        if !flags[i] {
            assert(!flags@[i as int]);
            return false;
        }
        i += 1;
    }
    true
}

/// How many pieces to fetch ahead at a download rate.
pub fn prefetch_count(speed: u64) -> (n: i32)
    ensures
        n == prefetch_count_at(speed),
{
    if speed > 10_000_000 {
        8
    } else if speed > 5_000_000 {
        5
    } else if speed > 1_000_000 {
        3
    } else {
        2
    }
}

impl LibtorrentFileStream {
    /// The piece in which position `pos` of the file lies.
    pub fn piece_at(&self, pos: u64) -> (piece: i32)
        requires
            self.piece_length > 0 ==> self.file_offset + pos <= u64::MAX,
        ensures
            piece == piece_of(self.file_offset, pos, self.piece_length),
    {
        if self.piece_length > 0 {
            ((self.file_offset + pos) / self.piece_length) as i32
        } else {
            -1
        }
    }

    /// Serves the reader from a piece.
    fn serve(&mut self, piece: i32, data: &Bytes, room: usize) -> (chunk: Bytes)
        requires
            old(self).piece_length > 0,
            old(self).file_offset + old(self).current_pos <= u64::MAX,
            piece == old(self)@.piece(),
            old(self).current_pos + old(self)@.chunk_len(payload::content(*data), room) <= u64::MAX,
        ensures
            final(self)@ == old(self)@.served(payload::content(*data), room),
            payload::content(chunk) == old(self)@.chunk(payload::content(*data), room),
            final(self).cached_piece_data == old(self).cached_piece_data,
    {
        broadcast use vstd::std_specs::hash::group_hash_axioms;

        let offset: usize = ((self.file_offset + self.current_pos) % self.piece_length) as usize;
        let len: usize = payload::bytes_len(data);
        let available: usize = if offset <= len {
            len - offset
        } else {
            0
        };
        let to_read: usize = if room <= available {
            room
        } else {
            available
        };
        let chunk = if to_read > 0 {
            self.current_pos = self.current_pos + to_read as u64;
            self.first_read_logged = true;
            payload::bytes_slice(data, offset, offset + to_read)
        } else {
            payload::bytes_slice(data, 0, 0)
        };
        self.requested_piece_via_api.remove(&piece);
        assert(self@ =~= old(self)@.served(payload::content(*data), room));
        assert(payload::content(chunk) =~= old(self)@.chunk(payload::content(*data), room));
        chunk
    }

    /// Takes a poll one event further: `room` is the space left in the reader's
    /// buffer. A piece is pinned in the cache before the backend's memory is read, and
    /// released when what was read comes back.
    pub fn poll_read(&mut self, cache: &mut HybridPieceCache, event: ReadEvent, room: usize) -> (step:
        ReadStep)
        requires
            old(cache).wf(),
            old(self).piece_length > 0 ==> old(self).file_offset + old(self).current_pos <= u64::MAX,
            old(self)@.awaits(event),
            old(self)@.can_take(event, room),
            old(self)@.can_pin(event, old(cache)@.pins),
        ensures
            final(self)@ == old(self)@.after(event, room),
            step@ == old(self)@.step_after(event, room),
            final(cache).wf(),
            final(cache).root() == old(cache).root(),
            final(cache).outlet() == old(cache).outlet(),
            final(cache)@ == (CacheModel {
                pins: old(self)@.pins_after(event, old(cache)@.pins),
                ..old(cache)@
            }),
    {
        broadcast use vstd::std_specs::hash::group_hash_axioms;

        let piece: i32 = self.piece_at(self.current_pos);
        match event {
            ReadEvent::Start => {
                if piece < 0 {
                    return ReadStep::Fail;
                }
                let held = match &self.cached_piece_data {
                    Some(c) => if c.0 == piece {
                        Some(payload::bytes_clone(&c.1))
                    } else {
                        None
                    },
                    None => None,
                };
                match held {
                    Some(data) => {
                        let chunk = self.serve(piece, &data, room);
                        ReadStep::Deliver(Delivery { piece, chunk, put: None, prefetch: None })
                    },
                    None => ReadStep::LookUp { piece },
                }
            },
            ReadEvent::Cached { data, speed } => match data {
                Some(data) => {
                    let chunk = self.serve(piece, &data, room);
                    self.cached_piece_data = Some((piece, data, 0));
                    let prefetch = if piece != self.last_prefetch_piece {
                        Some(Prefetch { after: piece, count: prefetch_count(speed) })
                    } else {
                        None
                    };
                    self.last_prefetch_piece = piece;
                    ReadStep::Deliver(Delivery { piece, chunk, put: None, prefetch })
                },
                None => ReadStep::AskHave { piece },
            },
            ReadEvent::Have { have, now, elapsed } => {
                if have {
                    if self.requested_piece_via_api.contains_key(&piece) {
                        return ReadStep::Fail;
                    }
                    self.memory_pin = Some(cache.pin_piece(self.info_hash.as_str(), piece));
                    return ReadStep::ReadMemory { piece };
                }
                let report = !self.first_wait_logged || due(
                    self.last_wait_log,
                    now,
                    WAIT_REPORT_NANOS,
                );
                if report {
                    self.first_wait_logged = true;
                    self.last_wait_log = Some(now);
                }
                let nudge = elapsed >= NUDGE_NANOS && due(
                    self.last_deadline_reset_at,
                    now,
                    NUDGE_NANOS,
                );
                if nudge {
                    self.last_deadline_reset_at = Some(now);
                }
                ReadStep::Wait(WaitOrder { piece, deadline: self.wait_deadline_ms, report, nudge })
            },
            ReadEvent::Memory { bytes } => {
                match self.memory_pin.take() {
                    Some(guard) => {
                        cache.release(&guard);
                    },
                    None => {},
                }
                if bytes.len() == 0 {
                    return ReadStep::LookUpAgain { piece };
                }
                let data = payload::bytes_from_vec(bytes);
                let chunk = self.serve(piece, &data, room);
                let put = payload::bytes_clone(&data);
                self.cached_piece_data = Some((piece, data, 0));
                ReadStep::Deliver(Delivery { piece, chunk, put: Some(put), prefetch: None })
            },
            ReadEvent::CachedAgain { data } => match data {
                Some(data) => {
                    let chunk = self.serve(piece, &data, room);
                    self.cached_piece_data = Some((piece, data, 0));
                    ReadStep::Deliver(Delivery { piece, chunk, put: None, prefetch: None })
                },
                None => ReadStep::WaitForWarm { piece },
            },
        }
    }

    /// Takes a poll one event further, unless a pin that it needs cannot be counted;
    /// then nothing changes.
    pub fn try_poll_read(
        &mut self,
        cache: &mut HybridPieceCache,
        event: ReadEvent,
        room: usize,
    ) -> (r: Option<ReadStep>)
        requires
            old(cache).wf(),
            old(self).piece_length > 0 ==> old(self).file_offset + old(self).current_pos <= u64::MAX,
            old(self)@.awaits(event),
            old(self)@.can_take(event, room),
        ensures
            final(cache).wf(),
            final(cache).root() == old(cache).root(),
            final(cache).outlet() == old(cache).outlet(),
            match r {
                Some(step) => {
                    &&& old(self)@.can_pin(event, old(cache)@.pins)
                    &&& final(self)@ == old(self)@.after(event, room)
                    &&& step@ == old(self)@.step_after(event, room)
                    &&& final(cache)@ == (CacheModel {
                        pins: old(self)@.pins_after(event, old(cache)@.pins),
                        ..old(cache)@
                    })
                },
                None => {
                    &&& !old(self)@.can_pin(event, old(cache)@.pins)
                    &&& final(self)@ == old(self)@
                    &&& final(cache)@ == old(cache)@
                },
            },
    {
        broadcast use vstd::std_specs::hash::group_hash_axioms;

        let piece: i32 = self.piece_at(self.current_pos);
        let may_pin = match &event {
            ReadEvent::Have { have, .. } => *have && !self.requested_piece_via_api.contains_key(
                &piece,
            ),
            _ => false,
        };
        if may_pin {
            let key = (info_hash::fold_hash(self.info_hash.as_str()), piece);
            if cache.pins().count(&key) == u32::MAX {
                return None;
            }
        }
        Some(self.poll_read(cache, event, room))
    }

    /// Whether the piece deadlines need attention at `pos`. Only then is it worth
    /// asking the backend which pieces have arrived.
    pub fn needs_priorities(&self, pos: u64) -> (r: bool)
        requires
            !self.is_complete && self.piece_length > 0 ==> self.file_offset + pos <= u64::MAX,
        ensures
            r == !self@.priorities_stand(pos),
    {
        !self.is_complete && self.piece_length != 0 && self.piece_at(pos)
            != self.last_priorities_piece
    }

    /// Looks at the piece deadlines for position `pos`; `have` tells for each piece
    /// of the file whether it has arrived.
    pub fn set_priorities(&mut self, pos: u64, have: &Vec<bool>) -> (plan: PriorityPlan)
        requires
            !old(self).is_complete && old(self).piece_length > 0 ==> old(self).file_offset + pos
                <= u64::MAX,
            have@.len() == old(self)@.piece_count(),
            old(self)@.priority_plan(pos, have@) is Schedule ==> old(self).last_piece < i32::MAX,
        ensures
            final(self)@ == old(self)@.prioritised(pos, have@),
            plan == old(self)@.priority_plan(pos, have@),
    {
        if !self.needs_priorities(pos) {
            return PriorityPlan::Keep;
        }
        let current_piece: i32 = self.piece_at(pos);
        self.seek_type = SeekType::Sequential;
        self.last_priorities_piece = current_piece;
        if !all_set(have) {
            return PriorityPlan::Schedule { current_piece, end_piece: self.last_piece + 1 };
        }
        self.is_complete = true;
        PriorityPlan::Complete
    }

    /// The deadlines to assert for the scheduler's proposals.
    pub fn deadlines(&self, items: &Vec<PriorityItem>, have: &Vec<bool>) -> (r: Vec<(i32, i32)>)
        requires
            have@.len() == self@.piece_count(),
        ensures
            r@ == self@.deadlines_for(items@, have@),
    {
        let jitter: i32 = (self.stream_id % 10) as i32 * 5;
        let ghost wanted = |item: PriorityItem| self@.is_wanted(item, have@);
        let ghost order = |item: PriorityItem|
            (item.piece_idx, shared_deadline(item.deadline, self.stream_id) as i32);
        let mut r: Vec<(i32, i32)> = Vec::new();
        let mut i: usize = 0;
        while i < items.len()
            invariant
                i <= items.len(),
                have@.len() == self@.piece_count(),
                jitter == (self.stream_id % 10) * 5,
                wanted == (|item: PriorityItem| self@.is_wanted(item, have@)),
                order == (|item: PriorityItem|
                    (item.piece_idx, shared_deadline(item.deadline, self.stream_id) as i32)),
                r@ == items@.take(i as int).filter(wanted).map_values(order),
            decreases items.len() - i,
        {
            let item = items[i];
            proof {
                reveal(Seq::filter);
                let s = items@.take(i + 1);
                assert(s.drop_last() =~= items@.take(i as int));
                assert(s.last() == item);
                assert(items@.take(i as int).filter(wanted).push(item).map_values(order)
                    =~= items@.take(i as int).filter(wanted).map_values(order).push(order(item)));
            }
            if item.piece_idx >= self.first_piece && item.piece_idx <= self.last_piece && !have[(
            item.piece_idx as i64 - self.first_piece as i64) as usize] {
                let deadline: i32 = if item.deadline == 0 {
                    0
                } else if item.deadline >= BACKGROUND_DEADLINE {
                    item.deadline
                } else {
                    item.deadline + jitter
                };
                r.push((item.piece_idx, deadline));
            }
            i += 1;
        }
        assert(items@.take(items.len() as int) =~= items@);
        r
    }

    /// Moves the reader; positions from `metadata_start` on hold container
    /// metadata.
    pub fn start_seek(&mut self, target: SeekTarget, metadata_start: u64)
        requires
            old(self)@.can_seek(target),
        ensures
            final(self)@ == old(self)@.sought(target, metadata_start),
    {
        let new_pos: u64 = match target {
            SeekTarget::Start(pos) => pos,
            SeekTarget::Current(delta) => {
                let sum: i64 = self.current_pos as i64 + delta;
                if sum < 0 {
                    0
                } else {
                    sum as u64
                }
            },
            SeekTarget::End(delta) => {
                let sum: i64 = self.file_size as i64 + delta;
                if sum < 0 {
                    0
                } else {
                    sum as u64
                }
            },
        };
        self.seek_type = if new_pos >= metadata_start {
            SeekType::ContainerMetadata
        } else {
            SeekType::UserScrub
        };
        self.current_pos = new_pos;
        self.cached_piece_data = None;
    }

    /// The position that a seek led to, and whether the piece deadlines are to be
    /// looked at for it.
    pub fn poll_complete(&self) -> (r: (u64, bool))
        requires
            self.piece_length > 0 ==> self.file_offset + self.current_pos <= u64::MAX,
        ensures
            r.0 == self.current_pos,
            r.1 == (self@.piece() != self.last_priorities_piece),
    {
        (self.current_pos, self.piece_at(self.current_pos) != self.last_priorities_piece)
    }
}

/// The pieces after `after` that a prefetch of `count` pieces covers.
pub open spec fn covered(after: i32, count: i32, last_piece: i32) -> Seq<int> {
    let end = if after + count <= last_piece {
        after + count
    } else {
        last_piece as int
    };
    Seq::new(
        if end > after {
            (end - after) as nat
        } else {
            0
        },
        |i: int| after + 1 + i,
    )
}

/// The pieces that a prefetch looks at, in order; it ends with the file.
pub fn prefetch_pieces(order: &Prefetch, last_piece: i32) -> (r: Vec<i32>)
    ensures
        r@.map_values(|p: i32| p as int) == covered(order.after, order.count, last_piece),
{
    let mut r: Vec<i32> = Vec::new();
    let mut next: i32 = order.after;
    let mut left: i32 = order.count;
    while left > 0 && next < last_piece
        invariant
            order.after <= next,
            left <= order.count,
            order.count > 0 ==> left >= 0,
            order.count <= 0 ==> left == order.count,
            next - order.after == order.count - left,
            next > order.after ==> next <= last_piece,
            r@.map_values(|p: i32| p as int) == Seq::new(
                (next - order.after) as nat,
                |i: int| order.after + 1 + i,
            ),
        decreases left,
    {
        next += 1;
        left -= 1;
        let ghost before = r@;
        r.push(next);
        assert(r@.map_values(|p: i32| p as int) =~= before.map_values(|p: i32| p as int).push(
            next as int,
        ));
        assert(r@.map_values(|p: i32| p as int) =~= Seq::new(
            (next - order.after) as nat,
            |i: int| order.after + 1 + i,
        ));
    }
    assert(r@.map_values(|p: i32| p as int) =~= covered(order.after, order.count, last_piece));
    r
}

/// Whether a prefetch reads a piece from the backend's memory: the backend has it
/// and the cache has not.
pub fn wants_prefetch(cache: &HybridPieceCache, info_hash: &str, piece_idx: i32, have: bool) -> (r:
    bool)
    requires
        cache.wf(),
    ensures
        r == (have && cache@.found(info_hash@, piece_idx) is Nowhere),
{
    !cache.has_piece_sync(info_hash, piece_idx) && have
}

/// Puts a prefetched piece into the cache; nothing happens when the backend's
/// memory had nothing.
pub fn store_prefetched(
    cache: &mut HybridPieceCache,
    info_hash: &str,
    piece_idx: i32,
    bytes: Vec<u8>,
)
    requires
        old(cache).wf(),
    ensures
        final(cache).wf(),
        final(cache).root() == old(cache).root(),
        final(cache).outlet() == old(cache).outlet(),
        if bytes@.len() > 0 {
            old(cache)@.put_leads_to(info_hash@, piece_idx, bytes@, final(cache)@)
        } else {
            final(cache)@ == old(cache)@
        },
{
    if bytes.len() > 0 {
        cache.put(info_hash, piece_idx, payload::bytes_from_vec(bytes));
    }
}

} // verus!
