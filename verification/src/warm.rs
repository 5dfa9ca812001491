//! The warm tier: one flat file per torrent, one slot per piece.
//!
//! The slot of piece `i` starts at `i * slot` where `slot` is the torrent's piece
//! length rounded up to a whole number of pages. The tier keeps track of which
//! slots hold data, how much, and how long each file is; it tells its caller which
//! file operation comes next and takes the outcome back.

use bytes::Bytes;
use crate::info_hash;
use crate::paths;
use crate::payload;
use crate::table::Table;
use std::collections::HashMap;
use vstd::prelude::*;

verus! {

/// `piece_length` rounded up to a multiple of 4096.
pub open spec fn padded(piece_length: int) -> int {
    ((piece_length + 4095) / 4096) * 4096
}

/// Where the slot of a piece starts.
pub open spec fn slot_start(slot: u64, piece_idx: i32) -> int {
    (piece_idx as u64) * slot
}

/// Where the slot of a piece ends.
pub open spec fn slot_end(slot: u64, piece_idx: i32) -> int {
    slot_start(slot, piece_idx) + slot
}

/// The slot of the piece can be addressed with 64 bits.
pub open spec fn slot_fits(piece_length: u64, piece_idx: i32) -> bool {
    &&& piece_length + 4095 <= u64::MAX
    &&& slot_end(padded(piece_length as int) as u64, piece_idx) <= u64::MAX
}

/// What is known of a flat file.
pub struct FileModel {
    /// Bytes per slot.
    pub slot: u64,
    /// Length of the file.
    pub allocated: u64,
    /// The slots that hold a piece, with the length of the piece.
    pub present: Map<i32, usize>,
}

impl FileModel {
    /// A file that was just opened.
    pub open spec fn fresh(piece_length: u64) -> FileModel {
        FileModel {
            slot: padded(piece_length as int) as u64,
            allocated: 0,
            present: Map::empty(),
        }
    }

    /// Every stored piece lies inside the file.
    pub open spec fn valid(self) -> bool {
        &&& self.slot % 4096 == 0
        &&& forall|p: i32| #[trigger]
            self.present.contains_key(p) ==> slot_end(self.slot, p) <= self.allocated
    }
}

/// A flat file as the tier sees it: slot size, stored lengths and file length.
pub struct WarmFile {
    piece_length_padded: u64,
    present: HashMap<i32, usize>,
    allocated_len: u64,
}

impl View for WarmFile {
    type V = FileModel;

    closed spec fn view(&self) -> FileModel {
        FileModel {
            slot: self.piece_length_padded,
            allocated: self.allocated_len,
            present: self.present@,
        }
    }
}

/// Rounds a piece length up to whole pages.
pub fn pad_to_page(piece_length: u64) -> (r: u64)
    requires
        piece_length + 4095 <= u64::MAX,
    ensures
        r == padded(piece_length as int),
{
    let sum: u64 = piece_length + 4095;
    assert(sum & !4095u64 == sum - sum % 4096) by (bit_vector);
    sum & !4095u64
}

impl WarmFile {
    /// The record of a file that was just opened.
    pub fn new(piece_length: u64) -> (f: WarmFile)
        requires
            piece_length + 4095 <= u64::MAX,
        ensures
            f@ == FileModel::fresh(piece_length),
            f@.valid(),
    {
        broadcast use vstd::std_specs::hash::group_hash_axioms;

        let f = WarmFile {
            piece_length_padded: pad_to_page(piece_length),
            present: HashMap::new(),
            allocated_len: 0,
        };
        assert(f@.present =~= Map::empty());
        f
    }

    /// The length to which the file has to grow before the piece can be written;
    /// none when the slot already lies inside the file.
    pub fn growth(&self, piece_idx: i32) -> (r: Option<u64>)
        requires
            slot_end(self@.slot, piece_idx) <= u64::MAX,
        ensures
            r == (if self@.allocated < slot_end(self@.slot, piece_idx) {
                Some(slot_end(self@.slot, piece_idx) as u64)
            } else {
                None
            }),
    {
        let required: u64 = self.offset(piece_idx) + self.piece_length_padded;
        if self.allocated_len < required {
            Some(required)
        } else {
            None
        }
    }

    /// The offset of the piece's slot.
    pub fn offset(&self, piece_idx: i32) -> (r: u64)
        requires
            slot_start(self@.slot, piece_idx) <= u64::MAX,
        ensures
            r == slot_start(self@.slot, piece_idx),
    {
        piece_idx as u64 * self.piece_length_padded
    }

    /// Takes note that the file now has room for the piece's slot.
    fn grown(&mut self, piece_idx: i32)
        requires
            old(self)@.valid(),
            old(self)@.allocated <= slot_end(old(self)@.slot, piece_idx) <= u64::MAX,
        ensures
            final(self)@.valid(),
            final(self)@ == (FileModel {
                allocated: slot_end(old(self)@.slot, piece_idx) as u64,
                ..old(self)@
            }),
    {
        self.allocated_len = self.offset(piece_idx) + self.piece_length_padded;
    }

    /// Takes note that `data_len` bytes were written to the piece's slot.
    fn written(&mut self, piece_idx: i32, data_len: usize)
        requires
            old(self)@.valid(),
            slot_end(old(self)@.slot, piece_idx) <= old(self)@.allocated,
        ensures
            final(self)@.valid(),
            final(self)@ == (FileModel {
                present: old(self)@.present.insert(piece_idx, data_len),
                ..old(self)@
            }),
    {
        broadcast use vstd::std_specs::hash::group_hash_axioms;

        self.present.insert(piece_idx, data_len);
    }

    /// Offset and length of the stored piece; none when the slot is empty.
    pub fn read_piece(&self, piece_idx: i32) -> (r: Option<(u64, usize)>)
        requires
            self@.valid(),
        ensures
            r == (if self@.present.contains_key(piece_idx) {
                Some((slot_start(self@.slot, piece_idx) as u64, self@.present[piece_idx]))
            } else {
                None
            }),
    {
        broadcast use vstd::std_specs::hash::group_hash_axioms;

        match self.present.get(&piece_idx) {
            Some(len) => {
                assert(self@.present.contains_key(piece_idx));
                Some((self.offset(piece_idx), *len))
            },
            None => None,
        }
    }

    pub fn has_piece(&self, piece_idx: i32) -> (r: bool)
        ensures
            r == self@.present.contains_key(piece_idx),
    {
        broadcast use vstd::std_specs::hash::group_hash_axioms;

        self.present.contains_key(&piece_idx)
    }
}

/// A piece on its way into its flat file.
pub struct WriteJob {
    /// Lower-case info hash.
    pub info_hash: String,
    pub piece_idx: i32,
    pub data_len: usize,
    /// The registered piece length of the torrent.
    pub piece_length: u64,
}

impl WriteJob {
    /// Whether the slot can be addressed; a caller checks this before it goes on.
    pub fn fits(&self) -> (r: bool)
        ensures
            r == slot_fits(self.piece_length, self.piece_idx),
    {
        if self.piece_length > u64::MAX - 4095 {
            return false;
        }
        let slot: u64 = pad_to_page(self.piece_length);
        match (self.piece_idx as u64).checked_mul(slot) {
            Some(start) => start <= u64::MAX - slot,
            None => false,
        }
    }
}

/// What to do next for a write job.
#[derive(Clone, Copy, Debug, PartialEq, Eq, Structural)]
pub enum WriteStep {
    /// Open the torrent's flat file, creating it and its directory.
    Open,
    /// Set the length of the file.
    Grow { len: u64 },
    /// Write the payload at this offset.
    Write { offset: u64 },
    /// The piece is on disk; the backend's copy may be freed.
    Persisted,
    /// The piece is not on disk; the backend's copy must stay.
    Failed,
}

/// What happened to a write job.
#[derive(Clone, Copy, Debug, PartialEq, Eq, Structural)]
pub enum WriteEvent {
    Start,
    Opened { ok: bool },
    Grown { ok: bool },
    Written { ok: bool },
}

/// A region of a flat file that holds a piece.
pub struct ReadPlan {
    /// Lower-case info hash: the file's name among the open files.
    pub info_hash: String,
    pub offset: u64,
    pub len: usize,
}

/// What is known of the whole tier.
pub struct WarmModel {
    /// Piece length per registered torrent.
    pub lengths: Map<Seq<char>, u64>,
    /// Flat file per torrent that has one.
    pub files: Map<Seq<char>, FileModel>,
}

impl WarmModel {
    /// Files belong to registered torrents and have that torrent's slots.
    pub open spec fn valid(self) -> bool {
        forall|h: Seq<char>| #[trigger]
            self.files.contains_key(h) ==> {
                &&& self.lengths.contains_key(h)
                &&& self.lengths[h] + 4095 <= u64::MAX
                &&& self.files[h].slot == padded(self.lengths[h] as int)
                &&& self.files[h].valid()
            }
    }

    /// The first file operation that a job needs.
    pub open spec fn first_step(self, hash: Seq<char>, piece_idx: i32) -> WriteStep {
        if !self.files.contains_key(hash) {
            WriteStep::Open
        } else if self.files[hash].allocated < slot_end(self.files[hash].slot, piece_idx) {
            WriteStep::Grow { len: slot_end(self.files[hash].slot, piece_idx) as u64 }
        } else {
            WriteStep::Write { offset: slot_start(self.files[hash].slot, piece_idx) as u64 }
        }
    }

    /// The event is an outcome of the operation that the job stands at.
    pub open spec fn awaits(self, job: WriteJob, event: WriteEvent) -> bool {
        &&& self.lengths.contains_key(job.info_hash@)
        &&& self.lengths[job.info_hash@] == job.piece_length
        &&& slot_fits(job.piece_length, job.piece_idx)
        &&& match event {
            WriteEvent::Start => true,
            WriteEvent::Opened { .. } => self.first_step(job.info_hash@, job.piece_idx) is Open,
            WriteEvent::Grown { .. } => self.first_step(job.info_hash@, job.piece_idx) is Grow,
            WriteEvent::Written { .. } => self.first_step(job.info_hash@, job.piece_idx) is Write,
        }
    }

    pub open spec fn with_file(self, hash: Seq<char>, f: FileModel) -> WarmModel {
        WarmModel { files: self.files.insert(hash, f), ..self }
    }

    /// The tier after an event.
    pub open spec fn after(self, job: WriteJob, event: WriteEvent) -> WarmModel {
        let h = job.info_hash@;
        match event {
            WriteEvent::Opened { ok: true } => self.with_file(h, FileModel::fresh(job.piece_length)),
            WriteEvent::Grown { ok: true } => self.with_file(
                h,
                FileModel {
                    allocated: slot_end(self.files[h].slot, job.piece_idx) as u64,
                    ..self.files[h]
                },
            ),
            WriteEvent::Written { ok: true } => self.with_file(
                h,
                FileModel {
                    present: self.files[h].present.insert(job.piece_idx, job.data_len),
                    ..self.files[h]
                },
            ),
            _ => self,
        }
    }

    /// The step that follows an event.
    pub open spec fn step_after(self, job: WriteJob, event: WriteEvent) -> WriteStep {
        match event {
            WriteEvent::Start => self.first_step(job.info_hash@, job.piece_idx),
            WriteEvent::Opened { ok: true } | WriteEvent::Grown { ok: true } => self.after(
                job,
                event,
            ).first_step(job.info_hash@, job.piece_idx),
            WriteEvent::Written { ok: true } => WriteStep::Persisted,
            _ => WriteStep::Failed,
        }
    }

    /// The piece is stored.
    pub open spec fn has(self, hash: Seq<char>, piece_idx: i32) -> bool {
        self.files.contains_key(hash) && self.files[hash].present.contains_key(piece_idx)
    }

    /// Where the stored piece lies, and how long it is.
    pub open spec fn region(self, hash: Seq<char>, piece_idx: i32) -> (int, int) {
        (
            slot_start(self.files[hash].slot, piece_idx),
            self.files[hash].present[piece_idx] as int,
        )
    }

    /// The tier once a torrent's piece length is known; the first length stays.
    pub open spec fn registered(self, hash: Seq<char>, piece_length: u64) -> WarmModel {
        if self.lengths.contains_key(hash) {
            self
        } else {
            WarmModel { lengths: self.lengths.insert(hash, piece_length), ..self }
        }
    }

    /// The tier without a torrent.
    pub open spec fn without(self, hash: Seq<char>) -> WarmModel {
        WarmModel { lengths: self.lengths.remove(hash), files: self.files.remove(hash) }
    }
}

/// Registry of the flat files of all torrents.
pub struct WarmTier {
    dir: String,
    piece_lengths: Table<String, u64>,
    files: Table<String, WarmFile>,
}

impl View for WarmTier {
    type V = WarmModel;

    closed spec fn view(&self) -> WarmModel {
        WarmModel {
            lengths: self.piece_lengths@,
            files: self.files@.map_values(|f: WarmFile| f@),
        }
    }
}

impl WarmTier {
    pub closed spec fn wf(self) -> bool {
        &&& self.piece_lengths.wf()
        &&& self.files.wf()
        &&& self@.valid()
    }

    /// The directory under which the flat files lie.
    pub closed spec fn root(self) -> Seq<char> {
        self.dir@
    }

    /// A well-formed tier has a valid model.
    pub proof fn wf_is_valid(self)
        requires
            self.wf(),
        ensures
            self@.valid(),
    {
    }

    pub fn new(dir: String) -> (r: WarmTier)
        ensures
            r.wf(),
            r@.lengths == Map::<Seq<char>, u64>::empty(),
            r@.files == Map::<Seq<char>, FileModel>::empty(),
            r.root() == dir@,
    {
        let r = WarmTier { dir, piece_lengths: Table::new(), files: Table::new() };
        assert(r@.files =~= Map::<Seq<char>, FileModel>::empty());
        r
    }

    /// Registers a torrent's piece length. A torrent that is already registered
    /// keeps the length it has.
    pub fn register(&mut self, info_hash: &str, piece_length: u64)
        requires
            old(self).wf(),
        ensures
            final(self).wf(),
            final(self).root() == old(self).root(),
            final(self)@ == old(self)@.registered(info_hash::folded(info_hash@), piece_length),
    {
        let ih = info_hash::fold_hash(info_hash);
        if !self.piece_lengths.contains(&ih) {
            self.piece_lengths.insert(ih, piece_length);
            assert(self@.files == old(self)@.files);
            assert(forall|h: Seq<char>| #[trigger]
                old(self)@.files.contains_key(h) ==> old(self)@.lengths.contains_key(h));
        }
    }

    /// Starts writing a piece. None when the torrent's piece length is unknown; the
    /// piece then stays in the backend's memory.
    pub fn begin_write(&self, info_hash: &str, piece_idx: i32, data_len: usize) -> (r: Option<
        WriteJob,
    >)
        requires
            self.wf(),
        ensures
            match r {
                Some(job) => {
                    &&& self@.lengths.contains_key(info_hash::folded(info_hash@))
                    &&& job.info_hash@ == info_hash::folded(info_hash@)
                    &&& job.piece_length == self@.lengths[info_hash::folded(info_hash@)]
                    &&& job.piece_idx == piece_idx
                    &&& job.data_len == data_len
                },
                None => !self@.lengths.contains_key(info_hash::folded(info_hash@)),
            },
    {
        let ih = info_hash::fold_hash(info_hash);
        match self.piece_lengths.get(&ih) {
            Some(piece_length) => Some(
                WriteJob { piece_length: *piece_length, info_hash: ih, piece_idx, data_len },
            ),
            None => None,
        }
    }

    /// Whether a job stands where the event can happen to it. It does not once its
    /// torrent was removed.
    pub fn expects(&self, job: &WriteJob, event: WriteEvent) -> (r: bool)
        requires
            self.wf(),
        ensures
            r == self@.awaits(*job, event),
    {
        let registered = match self.piece_lengths.get(&job.info_hash) {
            Some(piece_length) => *piece_length == job.piece_length,
            None => false,
        };
        if !registered || !job.fits() {
            return false;
        }
        let growth = match self.files.get(&job.info_hash) {
            Some(f) => {
                assert(self@.files.contains_key(job.info_hash@));
                Some(f.growth(job.piece_idx))
            },
            None => None,
        };
        match event {
            WriteEvent::Start => true,
            WriteEvent::Opened { .. } => growth.is_none(),
            WriteEvent::Grown { .. } => match growth {
                Some(g) => g.is_some(),
                None => false,
            },
            WriteEvent::Written { .. } => match growth {
                Some(g) => g.is_none(),
                None => false,
            },
        }
    }

    /// Takes a write job one event further: records what happened and tells what
    /// to do next. The job is persisted exactly when the payload was written.
    pub fn write_piece_sync(&mut self, job: &WriteJob, event: WriteEvent) -> (step: WriteStep)
        requires
            old(self).wf(),
            old(self)@.awaits(*job, event),
        ensures
            final(self).wf(),
            final(self).root() == old(self).root(),
            final(self)@ == old(self)@.after(*job, event),
            step == old(self)@.step_after(*job, event),
    {
        match event {
            WriteEvent::Start => {},
            WriteEvent::Opened { ok } => {
                if !ok {
                    return WriteStep::Failed;
                }
                self.files.insert(job.info_hash.clone(), WarmFile::new(job.piece_length));
                assert(self@.files =~= old(self)@.after(*job, event).files);
            },
            WriteEvent::Grown { ok } => {
                if !ok {
                    return WriteStep::Failed;
                }
                match self.files.get_mut(&job.info_hash) {
                    Some(f) => {
                        f.grown(job.piece_idx);
                    },
                    None => {},
                }
                assert(self@.files =~= old(self)@.after(*job, event).files);
            },
            WriteEvent::Written { ok } => {
                if !ok {
                    return WriteStep::Failed;
                }
                match self.files.get_mut(&job.info_hash) {
                    Some(f) => {
                        f.written(job.piece_idx, job.data_len);
                    },
                    None => {},
                }
                assert(self@.files =~= old(self)@.after(*job, event).files);
                return WriteStep::Persisted;
            },
        }
        match self.files.get(&job.info_hash) {
            Some(f) => match f.growth(job.piece_idx) {
                Some(len) => WriteStep::Grow { len },
                None => WriteStep::Write { offset: f.offset(job.piece_idx) },
            },
            None => WriteStep::Open,
        }
    }

    /// Where to read a piece from. None when it is not stored.
    pub fn get_piece_sync(&self, info_hash: &str, piece_idx: i32) -> (r: Option<ReadPlan>)
        requires
            self.wf(),
        ensures
            match r {
                Some(plan) => {
                    &&& self@.has(info_hash::folded(info_hash@), piece_idx)
                    &&& plan.info_hash@ == info_hash::folded(info_hash@)
                    &&& (plan.offset as int, plan.len as int) == self@.region(
                        info_hash::folded(info_hash@),
                        piece_idx,
                    )
                },
                None => !self@.has(info_hash::folded(info_hash@), piece_idx),
            },
    {
        let ih = info_hash::fold_hash(info_hash);
        match self.files.get(&ih) {
            Some(f) => {
                assert(self@.files.contains_key(ih@));
                assert(self@.files[ih@].valid());
                match f.read_piece(piece_idx) {
                    Some((offset, len)) => {
                        assert(self@.files[ih@].present.contains_key(piece_idx));
                        Some(ReadPlan { info_hash: ih, offset, len })
                    },
                    None => None,
                }
            },
            None => None,
        }
    }

    pub fn has_piece(&self, info_hash: &str, piece_idx: i32) -> (r: bool)
        requires
            self.wf(),
        ensures
            r == self@.has(info_hash::folded(info_hash@), piece_idx),
    {
        let ih = info_hash::fold_hash(info_hash);
        match self.files.get(&ih) {
            Some(f) => f.has_piece(piece_idx),
            None => false,
        }
    }

    /// Forgets a torrent and names the directory whose contents to delete.
    pub fn remove(&mut self, info_hash: &str) -> (dir: String)
        requires
            old(self).wf(),
        ensures
            final(self).wf(),
            final(self).root() == old(self).root(),
            final(self)@ == old(self)@.without(info_hash::folded(info_hash@)),
            dir@ == paths::joined(old(self).root(), info_hash::folded(info_hash@)),
    {
        let ih = info_hash::fold_hash(info_hash);
        self.files.remove(&ih);
        self.piece_lengths.remove(&ih);
        assert(self@.files =~= old(self)@.without(ih@).files);
        paths::join(self.dir.as_str(), ih.as_str())
    }

    /// The directory of a torrent's flat file.
    pub fn torrent_dir(&self, job: &WriteJob) -> (dir: String)
        ensures
            dir@ == paths::joined(self.root(), job.info_hash@),
    {
        paths::join(self.dir.as_str(), job.info_hash.as_str())
    }

    /// The path of a torrent's flat file.
    pub fn flat_file(&self, job: &WriteJob) -> (path: String)
        ensures
            path@ == paths::joined(paths::joined(self.root(), job.info_hash@), "pieces.flat"@),
    {
        let dir = self.torrent_dir(job);
        paths::join(dir.as_str(), "pieces.flat")
    }
}

/// The payload that a read of a flat file yields: the buffer as the read left it,
/// or nothing when the read failed.
pub fn finish_read(outcome: Option<Vec<u8>>) -> (r: Option<Bytes>)
    ensures
        match (r, outcome) {
            (Some(data), Some(buf)) => payload::content(data) == buf@,
            (None, None) => true,
            _ => false,
        },
{
    match outcome {
        Some(buf) => Some(payload::bytes_from_vec(buf)),
        None => None,
    }
}

/// The contents of a file after `data` was written at `offset`; the file grows
/// where the data reaches beyond its end.
pub open spec fn pwritten(disk: Seq<u8>, offset: int, data: Seq<u8>) -> Seq<u8> {
    Seq::new(
        if offset + data.len() <= disk.len() {
            disk.len()
        } else {
            (offset + data.len()) as nat
        },
        |i: int|
            if offset <= i < offset + data.len() {
                data[i - offset]
            } else {
                disk[i]
            },
    )
}

/// The contents of a file after it grew to `len`: the new part is a hole.
pub open spec fn grown_to(disk: Seq<u8>, len: int) -> Seq<u8> {
    disk + Seq::new((len - disk.len()) as nat, |i: int| 0u8)
}

/// The `len` bytes at `offset`.
pub open spec fn pread(disk: Seq<u8>, offset: int, len: int) -> Seq<u8> {
    disk.subrange(offset, offset + len)
}

/// A slot holds a piece of the registered length, is made of whole pages and
/// wastes less than a page.
pub proof fn a_slot_is_the_least_number_of_pages(piece_length: int)
    requires
        0 <= piece_length,
    ensures
        piece_length <= padded(piece_length) < piece_length + 4096,
        padded(piece_length) % 4096 == 0,
{
}

/// Slots of different pieces do not overlap.
pub proof fn slots_are_disjoint(slot: u64, p: i32, q: i32)
    requires
        p != q,
    ensures
        slot_end(slot, p) <= slot_start(slot, q) || slot_end(slot, q) <= slot_start(slot, p),
{
    assert(p as u64 != q as u64) by (bit_vector)
        requires
            p != q,
    ;
    let a = (p as u64) as int;
    let b = (q as u64) as int;
    let s = slot as int;
    assert(a < b ==> a * s + s <= b * s) by (nonlinear_arith)
        requires
            0 <= a,
            0 <= b,
            0 <= s,
    ;
    assert(b < a ==> b * s + s <= a * s) by (nonlinear_arith)
        requires
            0 <= a,
            0 <= b,
            0 <= s,
    ;
}

/// Every write starts on a page boundary.
pub proof fn slots_start_on_page_boundaries(slot: u64, p: i32)
    requires
        slot % 4096 == 0,
    ensures
        slot_start(slot, p) % 4096 == 0,
{
    let pages = slot as int / 4096;
    let n = (p as u64) as int;
    assert(slot == 4096 * pages);
    assert(n * (4096 * pages) == 4096 * (n * pages)) by (nonlinear_arith);
    assert((4096 * (n * pages)) % 4096 == 0);
}

/// A negative index never has an addressable slot: its bit pattern is too large.
pub proof fn a_negative_index_never_fits(piece_length: u64, p: i32)
    requires
        p < 0,
        0 < piece_length,
    ensures
        !slot_fits(piece_length, p),
{
    assert(p as u64 >= 0xffff_ffff_8000_0000u64) by (bit_vector)
        requires
            p < 0,
    ;
    if piece_length + 4095 <= u64::MAX {
        let slot = padded(piece_length as int);
        a_slot_is_the_least_number_of_pages(piece_length as int);
        assert(4096 <= slot <= u64::MAX);
        assert((p as u64) as int * slot >= 0xffff_ffff_8000_0000 * 4096) by (nonlinear_arith)
            requires
                (p as u64) as int >= 0xffff_ffff_8000_0000,
                slot >= 4096,
        ;
    }
}

/// A piece that was written reads back unchanged. If it is no longer than its slot,
/// every other piece of the torrent reads as before.
pub proof fn a_written_piece_reads_back(w: WarmModel, job: WriteJob, disk: Seq<u8>, data: Seq<u8>)
    requires
        w.valid(),
        w.awaits(job, WriteEvent::Written { ok: true }),
        disk.len() >= w.files[job.info_hash@].allocated,
        data.len() == job.data_len,
    ensures
        ({
            let h = job.info_hash@;
            let w2 = w.after(job, WriteEvent::Written { ok: true });
            let disk2 = pwritten(disk, slot_start(w.files[h].slot, job.piece_idx), data);
            let (offset, len) = w2.region(h, job.piece_idx);
            &&& w2.has(h, job.piece_idx)
            &&& pread(disk2, offset, len) == data
            &&& data.len() <= w.files[h].slot ==> disk2.len() == disk.len()
            &&& forall|q: i32|
                data.len() <= w.files[h].slot && q != job.piece_idx && #[trigger] w.has(h, q)
                    && w.region(h, q).1 <= w.files[h].slot ==> {
                    &&& w2.has(h, q)
                    &&& w2.region(h, q) == w.region(h, q)
                    &&& pread(disk2, w.region(h, q).0, w.region(h, q).1) == pread(
                        disk,
                        w.region(h, q).0,
                        w.region(h, q).1,
                    )
                }
        }),
{
    let h = job.info_hash@;
    let f = w.files[h];
    let w2 = w.after(job, WriteEvent::Written { ok: true });
    let start = slot_start(f.slot, job.piece_idx);
    let disk2 = pwritten(disk, start, data);
    lemma_slot_start_is_nonnegative(f.slot, job.piece_idx);
    assert(slot_end(f.slot, job.piece_idx) <= f.allocated);
    assert(pread(disk2, start, data.len() as int) =~= data);
    assert forall|q: i32|
        data.len() <= f.slot && q != job.piece_idx && #[trigger] w.has(h, q) && w.region(h, q).1
            <= f.slot implies {
        &&& w2.has(h, q)
        &&& w2.region(h, q) == w.region(h, q)
        &&& pread(disk2, w.region(h, q).0, w.region(h, q).1) == pread(
            disk,
            w.region(h, q).0,
            w.region(h, q).1,
        )
    } by {
        assert(f.valid());
        assert(f.present.contains_key(q));
        slots_are_disjoint(f.slot, job.piece_idx, q);
        lemma_slot_start_is_nonnegative(f.slot, q);
        assert(pread(disk2, w.region(h, q).0, w.region(h, q).1) =~= pread(
            disk,
            w.region(h, q).0,
            w.region(h, q).1,
        ));
    }
}

/// A file that grows keeps the pieces it holds.
pub proof fn growing_keeps_stored_pieces(w: WarmModel, job: WriteJob, disk: Seq<u8>)
    requires
        w.valid(),
        w.awaits(job, WriteEvent::Grown { ok: true }),
        disk.len() == w.files[job.info_hash@].allocated,
    ensures
        ({
            let h = job.info_hash@;
            let w2 = w.after(job, WriteEvent::Grown { ok: true });
            let disk2 = grown_to(disk, slot_end(w.files[h].slot, job.piece_idx));
            &&& disk2.len() == w2.files[h].allocated
            &&& w.files[h].allocated < w2.files[h].allocated
            &&& forall|q: i32| #[trigger]
                w.has(h, q) && w.region(h, q).1 <= w.files[h].slot ==> {
                    &&& w2.has(h, q)
                    &&& w2.region(h, q) == w.region(h, q)
                    &&& pread(disk2, w.region(h, q).0, w.region(h, q).1) == pread(
                        disk,
                        w.region(h, q).0,
                        w.region(h, q).1,
                    )
                }
        }),
{
    let h = job.info_hash@;
    let f = w.files[h];
    let w2 = w.after(job, WriteEvent::Grown { ok: true });
    let disk2 = grown_to(disk, slot_end(f.slot, job.piece_idx));
    assert(slot_end(f.slot, job.piece_idx) <= u64::MAX);
    assert forall|q: i32| #[trigger] w.has(h, q) && w.region(h, q).1 <= f.slot implies {
        &&& w2.has(h, q)
        &&& w2.region(h, q) == w.region(h, q)
        &&& pread(disk2, w.region(h, q).0, w.region(h, q).1) == pread(
            disk,
            w.region(h, q).0,
            w.region(h, q).1,
        )
    } by {
        assert(f.valid());
        assert(f.present.contains_key(q));
        lemma_slot_start_is_nonnegative(f.slot, q);
        assert(pread(disk2, w.region(h, q).0, w.region(h, q).1) =~= pread(
            disk,
            w.region(h, q).0,
            w.region(h, q).1,
        ));
    }
}

proof fn lemma_slot_start_is_nonnegative(slot: u64, p: i32)
    ensures
        0 <= slot_start(slot, p),
{
    assert(0 <= (p as u64) as int * slot as int) by (nonlinear_arith)
        requires
            0 <= (p as u64) as int,
            0 <= slot as int,
    ;
}

/// A job whose file operations all succeed opens the file at most once, grows it
/// at most once, writes once, and ends with the piece stored.
pub proof fn a_job_without_failures_stores_the_piece(w: WarmModel, job: WriteJob)
    requires
        w.valid(),
        w.awaits(job, WriteEvent::Start),
    ensures
        ({
            let first = w.step_after(job, WriteEvent::Start);
            let w1 = if first is Open {
                w.after(job, WriteEvent::Opened { ok: true })
            } else {
                w
            };
            let second = w1.step_after(job, WriteEvent::Start);
            let w2 = if second is Grow {
                w1.after(job, WriteEvent::Grown { ok: true })
            } else {
                w1
            };
            let third = w2.step_after(job, WriteEvent::Start);
            let w3 = w2.after(job, WriteEvent::Written { ok: true });
            &&& first is Open ==> w.awaits(job, WriteEvent::Opened { ok: true }) && w.step_after(
                job,
                WriteEvent::Opened { ok: true },
            ) == second
            &&& second !is Open
            &&& second is Grow ==> w1.awaits(job, WriteEvent::Grown { ok: true }) && w1.step_after(
                job,
                WriteEvent::Grown { ok: true },
            ) == third
            &&& third is Write
            &&& w2.awaits(job, WriteEvent::Written { ok: true })
            &&& w2.step_after(job, WriteEvent::Written { ok: true }) is Persisted
            &&& w3.has(job.info_hash@, job.piece_idx)
            &&& w3.region(job.info_hash@, job.piece_idx) == (
                slot_start(padded(job.piece_length as int) as u64, job.piece_idx),
                job.data_len as int,
            )
        }),
{
}

/// A file operation that fails ends the job and stores nothing; only a finished
/// write reports the piece as persisted.
pub proof fn a_failed_job_changes_nothing(w: WarmModel, job: WriteJob, event: WriteEvent)
    ensures
        w.step_after(job, event) is Failed ==> w.after(job, event) == w,
        w.step_after(job, event) is Persisted <==> event == (WriteEvent::Written { ok: true }),
{
}

/// A job of one torrent leaves the files of all others alone.
pub proof fn jobs_keep_to_their_torrent(
    w: WarmModel,
    job: WriteJob,
    event: WriteEvent,
    other: Seq<char>,
)
    requires
        other != job.info_hash@,
    ensures
        w.after(job, event).lengths == w.lengths,
        w.after(job, event).files.contains_key(other) == w.files.contains_key(other),
        w.after(job, event).files[other] == w.files[other],
{
}

/// The first registered piece length of a torrent stands.
pub proof fn registering_twice_is_registering_once(w: WarmModel, hash: Seq<char>, a: u64, b: u64)
    ensures
        w.registered(hash, a).registered(hash, b) == w.registered(hash, a),
{
}

/// A removed torrent has no pieces and no piece length, and can be registered
/// anew; other torrents keep theirs.
pub proof fn removing_forgets_one_torrent(w: WarmModel, hash: Seq<char>, other: Seq<char>, p: i32)
    requires
        other != hash,
    ensures
        !w.without(hash).has(hash, p),
        !w.without(hash).lengths.contains_key(hash),
        w.without(hash).has(other, p) == w.has(other, p),
        w.without(hash).region(other, p) == w.region(other, p),
        w.without(hash).lengths.contains_key(other) == w.lengths.contains_key(other),
        w.without(hash).lengths[other] == w.lengths[other],
{
}

} // verus!
