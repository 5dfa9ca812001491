//! Preloading: reading a whole file ahead of its playback.
//!
//! A preload prepares the file, asks for its size, opens a reader at its beginning
//! and reads to its end; what it reads is in the piece cache by then. One preload
//! runs per torrent.

use crate::info_hash;
use crate::table::Table;
use vstd::prelude::*;
use vstd::string::StringExecFns;

verus! {

/// Nanoseconds between two estimates of the download speed.
pub const SPEED_INTERVAL_NANOS: u64 = 1_000_000_000;

/// Bytes to ask for in one read.
pub const READ_BUFFER_BYTES: usize = 1_048_576;

/// How far a preload is. `F` is the type of fractions and rates.
#[derive(Clone, Debug)]
pub enum PreloadProgress<F> {
    Pending,
    Downloading { progress: F, speed: F },
    Ready,
    Failed { reason: String },
}

/// Parameters of a cancellation.
pub struct CancelQuery {
    /// Whether to delete all downloaded data too.
    pub delete: bool,
}

impl Default for CancelQuery {
    fn default() -> (q: CancelQuery)
        ensures
            !q.delete,
    {
        CancelQuery { delete: false }
    }
}

/// A running preload. `P` is how its progress is shared, `A` how it is aborted.
pub struct PreloadTask<P, A> {
    pub file_idx: usize,
    pub progress: P,
    pub abort_handle: A,
}

/// The fraction and the rate to report for a progress.
pub open spec fn reported<F>(p: PreloadProgress<F>, zero: F, one: F) -> (F, F) {
    match p {
        PreloadProgress::Pending => (zero, zero),
        PreloadProgress::Downloading { progress, speed } => (progress, speed),
        PreloadProgress::Ready => (one, zero),
        PreloadProgress::Failed { .. } => (zero, zero),
    }
}

/// The fraction and the rate to report for a progress.
pub fn preload_progress<F: Copy>(status: &PreloadProgress<F>, zero: F, one: F) -> (r: (F, F))
    ensures
        r == reported(*status, zero, one),
{
    match status {
        PreloadProgress::Pending => (zero, zero),
        PreloadProgress::Downloading { progress, speed } => (*progress, *speed),
        PreloadProgress::Ready => (one, zero),
        PreloadProgress::Failed { .. } => (zero, zero),
    }
}

/// What a cancellation has to do.
pub struct CancelPlan<P, A> {
    /// Lower-case info hash.
    pub info_hash: String,
    /// The task to abort, if one was running.
    pub task: Option<PreloadTask<P, A>>,
    /// Whether the torrent is to be removed together with its files.
    pub delete_files: bool,
}

/// The answer to a cancellation.
pub enum CancelReply {
    /// Done.
    NoContent,
    /// The files could not be deleted.
    Failed { reason: String },
}

/// The answer to a cancellation, given how the deletion of the files ended, if it
/// was asked for.
pub fn cancel_reply(removal: Option<Result<(), String>>) -> (r: CancelReply)
    ensures
        match removal {
            Some(Err(e)) => r == (CancelReply::Failed { reason: e }),
            _ => r is NoContent,
        },
{
    match removal {
        Some(Err(e)) => CancelReply::Failed { reason: e },
        _ => CancelReply::NoContent,
    }
}

/// What a request to preload finds.
pub enum StartPlan<'a, P, A> {
    /// A preload of the torrent exists already.
    AlreadyRunning(&'a PreloadTask<P, A>),
    /// A preload is to be started under this hash.
    Start { info_hash: String },
}

/// The preloads by torrent.
pub struct PreloadSessions<P, A> {
    tasks: Table<String, PreloadTask<P, A>>,
}

impl<P, A> View for PreloadSessions<P, A> {
    type V = Map<Seq<char>, PreloadTask<P, A>>;

    closed spec fn view(&self) -> Map<Seq<char>, PreloadTask<P, A>> {
        self.tasks@
    }
}

impl<P, A> PreloadSessions<P, A> {
    pub closed spec fn wf(self) -> bool {
        self.tasks.wf()
    }

    pub fn new() -> (r: PreloadSessions<P, A>)
        ensures
            r.wf(),
            r@ == Map::<Seq<char>, PreloadTask<P, A>>::empty(),
    {
        PreloadSessions { tasks: Table::new() }
    }

    /// What to do for a request to preload a torrent.
    pub fn start_preload(&self, info_hash: &str) -> (plan: StartPlan<'_, P, A>)
        requires
            self.wf(),
        ensures
            match plan {
                StartPlan::AlreadyRunning(task) => self@.contains_key(
                    info_hash::folded(info_hash@),
                ) && *task == self@[info_hash::folded(info_hash@)],
                StartPlan::Start { info_hash: ih } => !self@.contains_key(
                    info_hash::folded(info_hash@),
                ) && ih@ == info_hash::folded(info_hash@),
            },
    {
        let ih = info_hash::fold_hash(info_hash);
        match self.tasks.get(&ih) {
            Some(task) => StartPlan::AlreadyRunning(task),
            None => StartPlan::Start { info_hash: ih },
        }
    }

    /// Makes a started preload known under the hash of its plan.
    pub fn insert(&mut self, info_hash: String, task: PreloadTask<P, A>)
        requires
            old(self).wf(),
        ensures
            final(self).wf(),
            final(self)@ == old(self)@.insert(info_hash@, task),
    {
        self.tasks.insert(info_hash, task);
    }

    /// The preload of a torrent.
    pub fn get(&self, info_hash: &str) -> (r: Option<&PreloadTask<P, A>>)
        requires
            self.wf(),
        ensures
            match r {
                Some(task) => self@.contains_key(info_hash::folded(info_hash@)) && *task
                    == self@[info_hash::folded(info_hash@)],
                None => !self@.contains_key(info_hash::folded(info_hash@)),
            },
    {
        let ih = info_hash::fold_hash(info_hash);
        self.tasks.get(&ih)
    }

    /// Forgets the preload of a torrent. What was downloaded is kept unless its
    /// deletion is asked for.
    pub fn cancel_preload(&mut self, info_hash: &str, query: &CancelQuery) -> (plan: CancelPlan<
        P,
        A,
    >)
        requires
            old(self).wf(),
        ensures
            final(self).wf(),
            final(self)@ == old(self)@.remove(info_hash::folded(info_hash@)),
            plan.info_hash@ == info_hash::folded(info_hash@),
            plan.delete_files == query.delete,
            match plan.task {
                Some(task) => old(self)@.contains_key(info_hash::folded(info_hash@)) && task
                    == old(self)@[info_hash::folded(info_hash@)],
                None => !old(self)@.contains_key(info_hash::folded(info_hash@)),
            },
    {
        let ih = info_hash::fold_hash(info_hash);
        let task = self.tasks.remove(&ih);
        CancelPlan { info_hash: ih, task, delete_files: query.delete }
    }
}

/// How far a preload run is.
#[derive(Clone, Copy, Debug, PartialEq, Eq, Structural)]
pub enum Stage {
    Preparing,
    Listing,
    Opening,
    Reading,
    Over,
}

/// What happened to a preload run.
pub enum PreloadEvent {
    /// The file was prepared for streaming.
    Prepared,
    PrepareFailed { error: String },
    /// The length of the file in the torrent's file list.
    Listed { length: Option<u64> },
    /// A reader was opened at the beginning of the file.
    Opened,
    OpenFailed { error: String },
    /// A read returned this many bytes, `elapsed` nanoseconds after the last
    /// estimate of the speed.
    Read { count: usize, elapsed: u64 },
    ReadFailed { error: String },
}

/// What a preload run does next.
pub enum PreloadStep {
    ListFiles,
    OpenReader,
    Read,
    /// Publish the progress, then read on. A sample of bytes and nanoseconds gives
    /// a new estimate of the speed.
    Advance { bytes_read: u64, file_size: u64, sample: Option<(u64, u64)> },
    /// The whole file was read.
    Ready,
    Failed { reason: String },
}

/// The steps, with texts taken by their characters.
pub enum PreloadStepModel {
    ListFiles,
    OpenReader,
    Read,
    Advance { bytes_read: u64, file_size: u64, sample: Option<(u64, u64)> },
    Ready,
    Failed { reason: Seq<char> },
}

impl View for PreloadStep {
    type V = PreloadStepModel;

    open spec fn view(&self) -> PreloadStepModel {
        match *self {
            PreloadStep::ListFiles => PreloadStepModel::ListFiles,
            PreloadStep::OpenReader => PreloadStepModel::OpenReader,
            PreloadStep::Read => PreloadStepModel::Read,
            PreloadStep::Advance { bytes_read, file_size, sample } => PreloadStepModel::Advance {
                bytes_read,
                file_size,
                sample,
            },
            PreloadStep::Ready => PreloadStepModel::Ready,
            PreloadStep::Failed { reason } => PreloadStepModel::Failed { reason: reason@ },
        }
    }
}

/// The bookkeeping of a preload run.
#[derive(Clone, Copy, Debug, PartialEq, Eq, Structural)]
pub struct PreloadRun {
    pub stage: Stage,
    pub file_size: u64,
    pub bytes_read: u64,
    /// Bytes read since the last estimate of the speed.
    pub bytes_since_update: u64,
}

impl PreloadRun {
    pub open spec fn valid(self) -> bool {
        &&& self.bytes_since_update <= self.bytes_read
        &&& self.stage == Stage::Opening || self.stage == Stage::Reading ==> self.file_size > 0
        &&& self.stage != Stage::Reading && self.stage != Stage::Over ==> self.bytes_read == 0
    }

    /// The event can happen at this stage, and what it counts can be counted.
    pub open spec fn awaits(self, event: PreloadEvent) -> bool {
        match event {
            PreloadEvent::Prepared | PreloadEvent::PrepareFailed { .. } => self.stage
                == Stage::Preparing,
            PreloadEvent::Listed { .. } => self.stage == Stage::Listing,
            PreloadEvent::Opened | PreloadEvent::OpenFailed { .. } => self.stage == Stage::Opening,
            PreloadEvent::Read { count, .. } => self.stage == Stage::Reading && self.bytes_read
                + count <= u64::MAX,
            PreloadEvent::ReadFailed { .. } => self.stage == Stage::Reading,
        }
    }

    pub open spec fn at(self, stage: Stage) -> PreloadRun {
        PreloadRun { stage, ..self }
    }

    /// The run after an event.
    pub open spec fn after(self, event: PreloadEvent) -> PreloadRun {
        match event {
            PreloadEvent::Prepared => self.at(Stage::Listing),
            PreloadEvent::Listed { length } => match length {
                Some(n) => if n > 0 {
                    PreloadRun { stage: Stage::Opening, file_size: n, ..self }
                } else {
                    self.at(Stage::Over)
                },
                None => self.at(Stage::Over),
            },
            PreloadEvent::Opened => self.at(Stage::Reading),
            PreloadEvent::Read { count, elapsed } => if count == 0 {
                self.at(Stage::Over)
            } else {
                PreloadRun {
                    bytes_read: (self.bytes_read + count) as u64,
                    bytes_since_update: if elapsed >= SPEED_INTERVAL_NANOS {
                        0
                    } else {
                        (self.bytes_since_update + count) as u64
                    },
                    ..self
                }
            },
            _ => self.at(Stage::Over),
        }
    }

    /// The step that follows an event.
    pub open spec fn step_after(self, event: PreloadEvent) -> PreloadStepModel {
        match event {
            PreloadEvent::Prepared => PreloadStepModel::ListFiles,
            PreloadEvent::PrepareFailed { error } => PreloadStepModel::Failed { reason: error@ },
            PreloadEvent::Listed { length } => match length {
                Some(n) => if n > 0 {
                    PreloadStepModel::OpenReader
                } else {
                    PreloadStepModel::Failed { reason: "File size unknown"@ }
                },
                None => PreloadStepModel::Failed { reason: "File size unknown"@ },
            },
            PreloadEvent::Opened => PreloadStepModel::Read,
            PreloadEvent::OpenFailed { error } => PreloadStepModel::Failed {
                reason: "Reader open failed: "@ + error@,
            },
            PreloadEvent::Read { count, elapsed } => if count == 0 {
                PreloadStepModel::Ready
            } else {
                PreloadStepModel::Advance {
                    bytes_read: (self.bytes_read + count) as u64,
                    file_size: self.file_size,
                    sample: if elapsed >= SPEED_INTERVAL_NANOS {
                        Some(((self.bytes_since_update + count) as u64, elapsed))
                    } else {
                        None
                    },
                }
            },
            PreloadEvent::ReadFailed { error } => PreloadStepModel::Failed {
                reason: "Read error: "@ + error@,
            },
        }
    }

    /// A run that has not begun; the file is to be prepared.
    pub fn new() -> (r: PreloadRun)
        ensures
            r == (PreloadRun {
                stage: Stage::Preparing,
                file_size: 0,
                bytes_read: 0,
                bytes_since_update: 0,
            }),
            r.valid(),
    {
        PreloadRun { stage: Stage::Preparing, file_size: 0, bytes_read: 0, bytes_since_update: 0 }
    }

    /// Whether the event may be handed to the run; reads are counted up to the
    /// limits of 64 bits.
    pub fn expects(&self, event: &PreloadEvent) -> (r: bool)
        ensures
            r == self.awaits(*event),
    {
        match event {
            PreloadEvent::Prepared | PreloadEvent::PrepareFailed { .. } => self.stage
                == Stage::Preparing,
            PreloadEvent::Listed { .. } => self.stage == Stage::Listing,
            PreloadEvent::Opened | PreloadEvent::OpenFailed { .. } => self.stage == Stage::Opening,
            PreloadEvent::Read { count, .. } => self.stage == Stage::Reading && *count as u64
                <= u64::MAX - self.bytes_read,
            PreloadEvent::ReadFailed { .. } => self.stage == Stage::Reading,
        }
    }

    /// Takes a run one event further.
    pub fn advance(&mut self, event: PreloadEvent) -> (step: PreloadStep)
        requires
            old(self).valid(),
            old(self).awaits(event),
        ensures
            final(self).valid(),
            *final(self) == old(self).after(event),
            step@ == old(self).step_after(event),
    {
        match event {
            PreloadEvent::Prepared => {
                self.stage = Stage::Listing;
                PreloadStep::ListFiles
            },
            PreloadEvent::PrepareFailed { error } => {
                self.stage = Stage::Over;
                PreloadStep::Failed { reason: error }
            },
            PreloadEvent::Listed { length } => {
                match length {
                    Some(n) => {
                        if n > 0 {
                            self.stage = Stage::Opening;
                            self.file_size = n;
                            return PreloadStep::OpenReader;
                        }
                    },
                    None => {},
                }
                self.stage = Stage::Over;
                PreloadStep::Failed { reason: "File size unknown".to_owned() }
            },
            PreloadEvent::Opened => {
                self.stage = Stage::Reading;
                PreloadStep::Read
            },
            PreloadEvent::OpenFailed { error } => {
                self.stage = Stage::Over;
                PreloadStep::Failed { reason: prefixed("Reader open failed: ", &error) }
            },
            PreloadEvent::Read { count, elapsed } => {
                if count == 0 {
                    self.stage = Stage::Over;
                    return PreloadStep::Ready;
                }
                self.bytes_read = self.bytes_read + count as u64;
                self.bytes_since_update = self.bytes_since_update + count as u64;
                let sample = if elapsed >= SPEED_INTERVAL_NANOS {
                    let bytes: u64 = self.bytes_since_update;
                    self.bytes_since_update = 0;
                    Some((bytes, elapsed))
                } else {
                    None
                };
                PreloadStep::Advance {
                    bytes_read: self.bytes_read,
                    file_size: self.file_size,
                    sample,
                }
            },
            PreloadEvent::ReadFailed { error } => {
                self.stage = Stage::Over;
                PreloadStep::Failed { reason: prefixed("Read error: ", &error) }
            },
        }
    }
}

/// A message with the text of an error behind it.
fn prefixed(message: &str, error: &String) -> (r: String)
    ensures
        r@ == message@ + error@,
{
    let mut r = message.to_owned();
    r.append(error.as_str());
    r
}

/// The answer when a torrent could not be added.
pub fn add_failure(error: &String) -> (r: String)
    ensures
        r@ == "Failed to add torrent: "@ + error@,
{
    prefixed("Failed to add torrent: ", error)
}

/// The answer when the free space of the disk is unknown.
pub fn disk_space_failure(error: &String) -> (r: String)
    ensures
        r@ == "Could not determine disk space: "@ + error@,
{
    prefixed("Could not determine disk space: ", error)
}

/// The bytes that a series of reads returned.
pub open spec fn total(reads: Seq<(usize, u64)>) -> int
    decreases reads.len(),
{
    if reads.len() == 0 {
        0
    } else {
        total(reads.drop_last()) + reads.last().0
    }
}

/// The run after a series of reads.
pub open spec fn after_reads(r: PreloadRun, reads: Seq<(usize, u64)>) -> PreloadRun
    decreases reads.len(),
{
    if reads.len() == 0 {
        r
    } else {
        after_reads(r, reads.drop_last()).after(
            PreloadEvent::Read { count: reads.last().0, elapsed: reads.last().1 },
        )
    }
}

/// A run that reads without reaching the end has counted every byte, and goes on
/// reading.
pub proof fn every_byte_is_counted(r: PreloadRun, reads: Seq<(usize, u64)>)
    requires
        r.stage == Stage::Reading,
        r.bytes_read + total(reads) <= u64::MAX,
        forall|i: int| 0 <= i < reads.len() ==> (#[trigger] reads[i]).0 > 0,
    ensures
        after_reads(r, reads).bytes_read == r.bytes_read + total(reads),
        after_reads(r, reads).stage == Stage::Reading,
        after_reads(r, reads).file_size == r.file_size,
    decreases reads.len(),
{
    if reads.len() > 0 {
        let rest = reads.drop_last();
        assert forall|i: int| 0 <= i < rest.len() implies (#[trigger] rest[i]).0 > 0 by {
            assert(rest[i] == reads[i]);
        }
        assert(reads.last() == reads[reads.len() - 1]);
        every_byte_is_counted(r, rest);
    }
}

/// A run is ready exactly when a read reaches the end of the file; it is over then,
/// and also when it failed.
pub proof fn when_a_run_ends(r: PreloadRun, event: PreloadEvent)
    requires
        r.awaits(event),
    ensures
        r.step_after(event) is Ready <==> (event matches PreloadEvent::Read { count, .. } && count
            == 0),
        r.after(event).stage == Stage::Over <==> r.step_after(event) is Ready || r.step_after(
            event,
        ) is Failed,
{
}

/// A cancelled preload can be started again; a known one cannot. Other torrents'
/// preloads stay as they are.
pub proof fn one_preload_per_torrent<P, A>(
    m: Map<Seq<char>, PreloadTask<P, A>>,
    hash: Seq<char>,
    other: Seq<char>,
    task: PreloadTask<P, A>,
)
    requires
        hash != other,
    ensures
        m.insert(hash, task).contains_key(hash),
        m.insert(hash, task)[hash] == task,
        !m.insert(hash, task).remove(hash).contains_key(hash),
        m.insert(hash, task).contains_key(other) == m.contains_key(other),
        m.insert(hash, task).remove(hash).contains_key(other) == m.contains_key(other),
        m.contains_key(other) ==> m.insert(hash, task).remove(hash)[other] == m[other],
{
}

/// Every progress that is published counts all bytes read so far, those of the last
/// read among them, against the listed size of the file; so the count never falls. The
/// bytes since the last estimate are sampled once a second has passed.
pub proof fn published_progress_counts_every_byte(r: PreloadRun, count: usize, elapsed: u64)
    requires
        count > 0,
        r.bytes_read + count <= u64::MAX,
        r.bytes_since_update + count <= u64::MAX,
    ensures
        ({
            let event = PreloadEvent::Read { count, elapsed };
            let step = r.step_after(event);
            let next = r.after(event);
            &&& step is Advance
            &&& step->Advance_bytes_read == r.bytes_read + count
            &&& step->Advance_bytes_read == next.bytes_read
            &&& step->Advance_file_size == r.file_size
            &&& elapsed < 1_000_000_000 ==> step->sample is None && next.bytes_since_update
                == r.bytes_since_update + count
            &&& elapsed >= 1_000_000_000 ==> step->sample == Some(
                ((r.bytes_since_update + count) as u64, elapsed),
            ) && next.bytes_since_update == 0
            &&& next.stage == r.stage
            &&& next.file_size == r.file_size
        }),
{
}

/// What a run does on its way: it prepares, lists, opens and reads, in this order. It
/// remembers the listed size of the file; a size of zero counts as unknown.
pub proof fn how_a_run_goes_on(r: PreloadRun, length: Option<u64>)
    ensures
        r.step_after(PreloadEvent::Prepared) == PreloadStepModel::ListFiles,
        r.after(PreloadEvent::Prepared) == (PreloadRun { stage: Stage::Listing, ..r }),
        length matches Some(n) && n > 0 ==> {
            &&& r.step_after(PreloadEvent::Listed { length }) == PreloadStepModel::OpenReader
            &&& r.after(PreloadEvent::Listed { length }) == (PreloadRun {
                stage: Stage::Opening,
                file_size: length->0,
                ..r
            })
        },
        length is None || length == Some(0u64) ==> {
            &&& r.step_after(PreloadEvent::Listed { length }) == (PreloadStepModel::Failed {
                reason: "File size unknown"@,
            })
            &&& r.after(PreloadEvent::Listed { length }) == (PreloadRun { stage: Stage::Over, ..r })
        },
        r.step_after(PreloadEvent::Opened) == PreloadStepModel::Read,
        r.after(PreloadEvent::Opened) == (PreloadRun { stage: Stage::Reading, ..r }),
{
}

/// How a run ends: ready when a read finds the end of the file, and otherwise failed
/// with the text of the error behind what was tried. Its counts stay.
pub proof fn how_a_run_ends(r: PreloadRun, elapsed: u64, error: String)
    ensures
        ({
            let over = PreloadRun { stage: Stage::Over, ..r };
            let prepare = PreloadEvent::PrepareFailed { error };
            let open = PreloadEvent::OpenFailed { error };
            let read = PreloadEvent::ReadFailed { error };
            let end = PreloadEvent::Read { count: 0, elapsed };
            &&& r.step_after(end) == PreloadStepModel::Ready
            &&& r.after(end) == over
            &&& r.step_after(prepare) == (PreloadStepModel::Failed { reason: error@ })
            &&& r.after(prepare) == over
            &&& r.step_after(open) == (PreloadStepModel::Failed {
                reason: "Reader open failed: "@ + error@,
            })
            &&& r.after(open) == over
            &&& r.step_after(read) == (PreloadStepModel::Failed {
                reason: "Read error: "@ + error@,
            })
            &&& r.after(read) == over
        }),
{
}

/// What a run may be told at each stage.
pub proof fn what_a_run_may_be_told(
    r: PreloadRun,
    length: Option<u64>,
    error: String,
    count: usize,
    elapsed: u64,
)
    ensures
        r.awaits(PreloadEvent::Prepared) <==> r.stage == Stage::Preparing,
        r.awaits(PreloadEvent::PrepareFailed { error }) <==> r.stage == Stage::Preparing,
        r.awaits(PreloadEvent::Listed { length }) <==> r.stage == Stage::Listing,
        r.awaits(PreloadEvent::Opened) <==> r.stage == Stage::Opening,
        r.awaits(PreloadEvent::OpenFailed { error }) <==> r.stage == Stage::Opening,
        r.awaits(PreloadEvent::Read { count, elapsed }) <==> r.stage == Stage::Reading
            && r.bytes_read + count <= u64::MAX,
        r.awaits(PreloadEvent::ReadFailed { error }) <==> r.stage == Stage::Reading,
{
}

/// Between two estimates of the speed, every byte is sampled once: what a series of
/// reads adds to the count is what its samples hold and what is left for the next one.
pub proof fn every_byte_is_sampled_once(r: PreloadRun, count: usize, elapsed: u64)
    requires
        r.bytes_read + count <= u64::MAX,
        r.bytes_since_update <= r.bytes_read,
        count > 0,
    ensures
        ({
            let event = PreloadEvent::Read { count, elapsed };
            let sampled = match r.step_after(event) {
                PreloadStepModel::Advance { sample: Some(s), .. } => s.0 as int,
                _ => 0,
            };
            sampled + r.after(event).bytes_since_update == r.bytes_since_update + count
        }),
{
}

/// The model of a step has the step's own values.
pub proof fn a_preload_step_is_seen_as_it_is(step: PreloadStep)
    ensures
        match step {
            PreloadStep::ListFiles => step@ == PreloadStepModel::ListFiles,
            PreloadStep::OpenReader => step@ == PreloadStepModel::OpenReader,
            PreloadStep::Read => step@ == PreloadStepModel::Read,
            PreloadStep::Advance { bytes_read, file_size, sample } => step@ == (
            PreloadStepModel::Advance { bytes_read, file_size, sample }),
            PreloadStep::Ready => step@ == PreloadStepModel::Ready,
            PreloadStep::Failed { reason } => step@ == (PreloadStepModel::Failed { reason: reason@ }),
        },
{
}

/// What is reported: nothing of a preload that waits or failed, all of one that is
/// ready, and of a running one its own progress and speed. Only a running one has a
/// speed.
pub proof fn what_is_reported<F>(p: PreloadProgress<F>, zero: F, one: F)
    ensures
        p is Pending || p is Failed ==> reported(p, zero, one) == (zero, zero),
        p is Ready ==> reported(p, zero, one) == (one, zero),
        p matches PreloadProgress::Downloading { progress, speed } ==> reported(p, zero, one) == (
            progress,
            speed,
        ),
{
}

/// A run is in order when no more bytes wait for an estimate than were read, when it
/// knows a size before it opens the file, and when it has read nothing before it reads.
pub proof fn when_a_run_is_in_order(r: PreloadRun)
    ensures
        r.valid() <==> {
            &&& r.bytes_since_update <= r.bytes_read
            &&& r.stage == Stage::Opening || r.stage == Stage::Reading ==> r.file_size > 0
            &&& r.stage == Stage::Preparing || r.stage == Stage::Listing || r.stage
                == Stage::Opening ==> r.bytes_read == 0
        },
{
}

/// A read asks for one mebibyte.
pub proof fn the_size_of_a_read()
    ensures
        READ_BUFFER_BYTES == 1024 * 1024,
{
}

} // verus!
