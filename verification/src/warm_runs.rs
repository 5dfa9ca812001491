//! What holds of the warm tier and its flat files over any run of operations.

use crate::warm;
use crate::warm::FileModel;
use crate::warm::WarmModel;
use crate::warm::WriteEvent;
use crate::warm::WriteJob;
use vstd::prelude::*;

verus! {

/// The contents of a file after its length was set.
pub open spec fn resized(disk: Seq<u8>, len: int) -> Seq<u8> {
    if len <= disk.len() {
        disk.take(len)
    } else {
        warm::grown_to(disk, len)
    }
}

/// An operation on the tier. For an event of a job, `data` is what the job writes.
pub enum WarmAct {
    Register { hash: Seq<char>, piece_length: u64 },
    Remove { hash: Seq<char> },
    Event { job: WriteJob, event: WriteEvent, data: Seq<u8> },
}

impl WarmAct {
    /// The operation is about this piece.
    pub open spec fn touches(self, hash: Seq<char>, piece_idx: i32) -> bool {
        match self {
            WarmAct::Register { .. } => false,
            WarmAct::Remove { hash: h } => h == hash,
            WarmAct::Event { job, .. } => (job.info_hash@, job.piece_idx) == (hash, piece_idx),
        }
    }

    /// What is written fits into a slot.
    pub open spec fn fits(self) -> bool {
        match self {
            WarmAct::Event { job, data, .. } => data.len() <= warm::padded(job.piece_length as int),
            _ => true,
        }
    }
}

/// The tier together with the contents of the flat files, by torrent.
pub struct OnDisk {
    pub tier: WarmModel,
    pub disk: Map<Seq<char>, Seq<u8>>,
}

impl OnDisk {
    /// Every file is as long as the tier takes it to be.
    pub open spec fn backed(self) -> bool {
        &&& self.tier.valid()
        &&& forall|h: Seq<char>| #[trigger]
            self.tier.files.contains_key(h) ==> self.disk[h].len() >= self.tier.files[h].allocated
    }

    /// The piece is stored, and a read of its region yields `data`.
    pub open spec fn stored(self, hash: Seq<char>, piece_idx: i32, data: Seq<u8>) -> bool {
        let (offset, len) = self.tier.region(hash, piece_idx);
        &&& self.tier.has(hash, piece_idx)
        &&& len == data.len()
        &&& data.len() <= self.tier.files[hash].slot
        &&& warm::pread(self.disk[hash], offset, len) == data
    }

    /// `next` may follow an operation. A write that fails may leave anything in its
    /// slot, but nowhere else.
    pub open spec fn may_lead_to(self, act: WarmAct, next: OnDisk) -> bool {
        match act {
            WarmAct::Register { hash, piece_length } => {
                &&& next.tier == self.tier.registered(hash, piece_length)
                &&& next.disk == self.disk
            },
            WarmAct::Remove { hash } => {
                &&& next.tier == self.tier.without(hash)
                &&& next.disk == self.disk.remove(hash)
            },
            WarmAct::Event { job, event, data } => {
                let h = job.info_hash@;
                let f = self.tier.files[h];
                let start = warm::slot_start(f.slot, job.piece_idx);
                let end = warm::slot_end(f.slot, job.piece_idx);
                &&& self.tier.awaits(job, event)
                &&& data.len() == job.data_len
                &&& next.tier == self.tier.after(job, event)
                &&& match event {
                    WriteEvent::Grown { ok: true } => next.disk == self.disk.insert(
                        h,
                        resized(self.disk[h], end),
                    ),
                    WriteEvent::Written { ok: true } => next.disk == self.disk.insert(
                        h,
                        warm::pwritten(self.disk[h], start, data),
                    ),
                    WriteEvent::Written { ok: false } => {
                        &&& next.disk == self.disk.insert(h, next.disk[h])
                        &&& self.disk[h].len() <= next.disk[h].len()
                        &&& forall|i: int|
                            0 <= i < self.disk[h].len() && !(start <= i < end)
                                ==> #[trigger] next.disk[h][i] == self.disk[h][i]
                    },
                    _ => next.disk == self.disk,
                }
            },
        }
    }
}

/// Each state of a run follows from the one before by its operation.
pub open spec fn is_run(states: Seq<OnDisk>, acts: Seq<WarmAct>) -> bool {
    &&& states.len() == acts.len() + 1
    &&& forall|j: int|
        0 <= j < acts.len() ==> states[j].may_lead_to(#[trigger] acts[j], states[j + 1])
}

proof fn lemma_slots_are_addressable(f: FileModel, p: i32)
    ensures
        0 <= warm::slot_start(f.slot, p),
{
    assert(0 <= (p as u64) as int * f.slot as int) by (nonlinear_arith)
        requires
            0 <= (p as u64) as int,
            0 <= f.slot as int,
    ;
}

/// An operation keeps the files backed.
pub proof fn operations_keep_files_backed(s: OnDisk, act: WarmAct, next: OnDisk)
    requires
        s.backed(),
        s.may_lead_to(act, next),
    ensures
        next.backed(),
{
    match act {
        WarmAct::Register { hash, piece_length } => {
            assert forall|h: Seq<char>| #[trigger] next.tier.files.contains_key(h) implies {
                &&& next.tier.lengths.contains_key(h)
                &&& next.tier.lengths[h] == s.tier.lengths[h]
            } by {
                assert(s.tier.files.contains_key(h));
            }
        },
        WarmAct::Remove { hash } => {
            assert forall|h: Seq<char>| #[trigger] next.tier.files.contains_key(h) implies {
                &&& s.tier.files.contains_key(h)
                &&& h != hash
            } by {}
        },
        WarmAct::Event { job, event, data } => {
            let h = job.info_hash@;
            if s.tier.files.contains_key(h) {
                lemma_slots_are_addressable(s.tier.files[h], job.piece_idx);
                assert(s.tier.files[h].valid());
            }
            assert forall|g: Seq<char>| #[trigger] next.tier.files.contains_key(g) implies {
                &&& next.tier.lengths.contains_key(g)
                &&& next.tier.lengths[g] + 4095 <= u64::MAX
                &&& next.tier.files[g].slot == warm::padded(next.tier.lengths[g] as int)
                &&& next.tier.files[g].valid()
                &&& next.disk[g].len() >= next.tier.files[g].allocated
            } by {
                if g == h {
                    assert(next.tier.files[h].slot % 4096 == 0);
                    assert forall|p: i32| #[trigger] next.tier.files[h].present.contains_key(p) implies
                        warm::slot_end(next.tier.files[h].slot, p) <= next.tier.files[h].allocated by {
                        if event != (WriteEvent::Opened { ok: true }) {
                            if p != job.piece_idx || s.tier.files[h].present.contains_key(p) {
                                assert(s.tier.files[h].present.contains_key(p));
                            }
                        }
                    }
                } else {
                    assert(s.tier.files.contains_key(g));
                }
            }
        },
    }
}

/// A finished write stores the piece.
pub proof fn a_finished_write_stores_the_piece(s: OnDisk, job: WriteJob, data: Seq<u8>, next: OnDisk)
    requires
        s.backed(),
        data.len() <= warm::padded(job.piece_length as int),
        s.may_lead_to(
            (WarmAct::Event { job, event: WriteEvent::Written { ok: true }, data }),
            next,
        ),
    ensures
        next.stored(job.info_hash@, job.piece_idx, data),
{
    assert(s.tier.files.contains_key(job.info_hash@));
    warm::a_written_piece_reads_back(s.tier, job, s.disk[job.info_hash@], data);
}

/// An operation on other pieces keeps a stored piece.
pub proof fn operations_keep_other_pieces(
    s: OnDisk,
    act: WarmAct,
    next: OnDisk,
    hash: Seq<char>,
    piece_idx: i32,
    data: Seq<u8>,
)
    requires
        s.backed(),
        s.may_lead_to(act, next),
        s.stored(hash, piece_idx, data),
        !act.touches(hash, piece_idx),
        act.fits(),
    ensures
        next.stored(hash, piece_idx, data),
{
    let f = s.tier.files[hash];
    assert(f.valid());
    assert(f.present.contains_key(piece_idx));
    lemma_slots_are_addressable(f, piece_idx);
    let start = warm::slot_start(f.slot, piece_idx);
    match act {
        WarmAct::Register { .. } => {},
        WarmAct::Remove { .. } => {},
        WarmAct::Event { job, event, data: written } => {
            if job.info_hash@ == hash {
                warm::slots_are_disjoint(f.slot, job.piece_idx, piece_idx);
                lemma_slots_are_addressable(f, job.piece_idx);
                assert(warm::pread(next.disk[hash], start, data.len() as int) =~= warm::pread(
                    s.disk[hash],
                    start,
                    data.len() as int,
                ));
            }
        },
    }
}

/// A stored piece reads back after any run of operations on other pieces whose data
/// fit their slots, whether these succeed or fail, as long as its torrent is not
/// removed.
pub proof fn a_stored_piece_reads_back_after_any_run(
    states: Seq<OnDisk>,
    acts: Seq<WarmAct>,
    hash: Seq<char>,
    piece_idx: i32,
    data: Seq<u8>,
)
    requires
        is_run(states, acts),
        states[0].backed(),
        states[0].stored(hash, piece_idx, data),
        forall|j: int|
            0 <= j < acts.len() ==> !(#[trigger] acts[j]).touches(hash, piece_idx) && acts[j].fits(),
    ensures
        states.last().backed(),
        states.last().stored(hash, piece_idx, data),
    decreases acts.len(),
{
    if acts.len() > 0 {
        let n = acts.len() - 1;
        lemma_shorter_run(states, acts);
        assert forall|j: int| 0 <= j < acts.drop_last().len() implies !(
        #[trigger] acts.drop_last()[j]).touches(hash, piece_idx) && acts.drop_last()[j].fits() by {
            assert(acts.drop_last()[j] == acts[j]);
        }
        a_stored_piece_reads_back_after_any_run(
            states.drop_last(),
            acts.drop_last(),
            hash,
            piece_idx,
            data,
        );
        assert(states[n].may_lead_to(acts[n], states[n + 1]));
        operations_keep_files_backed(states[n], acts[n], states[n + 1]);
        operations_keep_other_pieces(states[n], acts[n], states[n + 1], hash, piece_idx, data);
    }
}

/// A piece that is never written is never found.
pub proof fn an_unwritten_piece_is_never_found(
    states: Seq<OnDisk>,
    acts: Seq<WarmAct>,
    hash: Seq<char>,
    piece_idx: i32,
)
    requires
        is_run(states, acts),
        !states[0].tier.has(hash, piece_idx),
        forall|j: int|
            0 <= j < acts.len() ==> {
                ||| (#[trigger] acts[j]) is Remove
                ||| !acts[j].touches(hash, piece_idx)
            },
    ensures
        !states.last().tier.has(hash, piece_idx),
    decreases acts.len(),
{
    if acts.len() > 0 {
        let n = acts.len() - 1;
        lemma_shorter_run(states, acts);
        assert forall|j: int| 0 <= j < acts.drop_last().len() implies {
            ||| (#[trigger] acts.drop_last()[j]) is Remove
            ||| !acts.drop_last()[j].touches(hash, piece_idx)
        } by {
            assert(acts.drop_last()[j] == acts[j]);
        }
        an_unwritten_piece_is_never_found(states.drop_last(), acts.drop_last(), hash, piece_idx);
        assert(states[n].may_lead_to(acts[n], states[n + 1]));
    }
}

proof fn lemma_shorter_run(states: Seq<OnDisk>, acts: Seq<WarmAct>)
    requires
        is_run(states, acts),
        acts.len() > 0,
    ensures
        is_run(states.drop_last(), acts.drop_last()),
        states.drop_last()[0] == states[0],
        states.drop_last().last() == states[acts.len() - 1],
        states.last() == states[acts.len() as int],
{
    let (s, a) = (states.drop_last(), acts.drop_last());
    assert forall|j: int| 0 <= j < a.len() implies s[j].may_lead_to(#[trigger] a[j], s[j + 1]) by {
        assert(a[j] == acts[j]);
        assert(states[j].may_lead_to(acts[j], states[j + 1]));
    }
}

impl OnDisk {
    /// With the file of the job open.
    pub open spec fn opened(self, job: WriteJob) -> OnDisk {
        if self.tier.first_step(job.info_hash@, job.piece_idx) is Open {
            OnDisk { tier: self.tier.after(job, WriteEvent::Opened { ok: true }), ..self }
        } else {
            self
        }
    }

    /// With room for the slot of the job.
    pub open spec fn roomy(self, job: WriteJob) -> OnDisk {
        let h = job.info_hash@;
        if self.tier.first_step(h, job.piece_idx) is Grow {
            OnDisk {
                tier: self.tier.after(job, WriteEvent::Grown { ok: true }),
                disk: self.disk.insert(
                    h,
                    resized(
                        self.disk[h],
                        warm::slot_end(self.tier.files[h].slot, job.piece_idx),
                    ),
                ),
            }
        } else {
            self
        }
    }

    /// With the slot of the job written.
    pub open spec fn written(self, job: WriteJob, data: Seq<u8>) -> OnDisk {
        let h = job.info_hash@;
        OnDisk {
            tier: self.tier.after(job, WriteEvent::Written { ok: true }),
            disk: self.disk.insert(
                h,
                warm::pwritten(
                    self.disk[h],
                    warm::slot_start(self.tier.files[h].slot, job.piece_idx),
                    data,
                ),
            ),
        }
    }

    /// After a job whose operations all succeeded: the file is opened if it was not,
    /// it is grown if the slot lies beyond its end, and the slot is written.
    pub open spec fn finished(self, job: WriteJob, data: Seq<u8>) -> OnDisk {
        self.opened(job).roomy(job).written(job, data)
    }
}

/// A finished job stores its piece and keeps every other one.
pub proof fn a_finished_job_stores_its_piece(
    s: OnDisk,
    job: WriteJob,
    data: Seq<u8>,
    hash: Seq<char>,
    piece_idx: i32,
    kept: Seq<u8>,
)
    requires
        s.backed(),
        s.tier.awaits(job, WriteEvent::Start),
        data.len() == job.data_len,
        data.len() <= warm::padded(job.piece_length as int),
    ensures
        s.finished(job, data).backed(),
        s.finished(job, data).stored(job.info_hash@, job.piece_idx, data),
        (hash, piece_idx) != (job.info_hash@, job.piece_idx) && s.stored(hash, piece_idx, kept)
            ==> s.finished(job, data).stored(hash, piece_idx, kept),
        s.finished(job, data).tier.lengths == s.tier.lengths,
        forall|h: Seq<char>|
            h != job.info_hash@ ==> (#[trigger] s.finished(job, data).tier.files.contains_key(h)
                <==> s.tier.files.contains_key(h)),
{
    warm::a_job_without_failures_stores_the_piece(s.tier, job);
    let s1 = s.opened(job);
    let s2 = s1.roomy(job);
    let s3 = s2.written(job, data);
    let keep = (hash, piece_idx) != (job.info_hash@, job.piece_idx) && s.stored(
        hash,
        piece_idx,
        kept,
    );
    if s.tier.first_step(job.info_hash@, job.piece_idx) is Open {
        let act = WarmAct::Event { job, event: WriteEvent::Opened { ok: true }, data };
        operations_keep_files_backed(s, act, s1);
        if keep {
            operations_keep_other_pieces(s, act, s1, hash, piece_idx, kept);
        }
    }
    if s1.tier.first_step(job.info_hash@, job.piece_idx) is Grow {
        let act = WarmAct::Event { job, event: WriteEvent::Grown { ok: true }, data };
        operations_keep_files_backed(s1, act, s2);
        if keep {
            operations_keep_other_pieces(s1, act, s2, hash, piece_idx, kept);
        }
    }
    let act = WarmAct::Event { job, event: WriteEvent::Written { ok: true }, data };
    operations_keep_files_backed(s2, act, s3);
    a_finished_write_stores_the_piece(s2, job, data, s3);
    if keep {
        operations_keep_other_pieces(s2, act, s3, hash, piece_idx, kept);
    }
}

} // verus!
