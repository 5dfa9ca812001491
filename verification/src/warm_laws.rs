//! What the operations of the warm tier do, told by lengths, offsets and stored
//! pieces.

use crate::warm;
use crate::warm::FileModel;
use crate::warm::WarmModel;
use crate::warm::WriteEvent;
use crate::warm::WriteJob;
use crate::warm::WriteStep;
use crate::warm_runs::OnDisk;
use vstd::prelude::*;

verus! {

/// `slot` is the least number of whole pages that holds `piece_length` bytes.
pub open spec fn is_page_count_for(slot: int, piece_length: int) -> bool {
    &&& slot % 4096 == 0
    &&& piece_length <= slot < piece_length + 4096
}

/// The first registration of a torrent records exactly the length that was given; a
/// later one records nothing. No other torrent and no file is touched.
pub proof fn registering_records_the_given_length(
    w: WarmModel,
    hash: Seq<char>,
    piece_length: u64,
    other: Seq<char>,
)
    ensures
        w.registered(hash, piece_length).lengths.contains_key(hash),
        !w.lengths.contains_key(hash) ==> w.registered(hash, piece_length).lengths[hash]
            == piece_length,
        w.lengths.contains_key(hash) ==> w.registered(hash, piece_length).lengths[hash]
            == w.lengths[hash],
        other != hash ==> w.registered(hash, piece_length).lengths.contains_key(other)
            == w.lengths.contains_key(other),
        other != hash && w.lengths.contains_key(other) ==> w.registered(
            hash,
            piece_length,
        ).lengths[other] == w.lengths[other],
        w.registered(hash, piece_length).files == w.files,
{
}

/// The slot of piece `p` is the `p`-th stretch of one slot's length, counted from
/// the beginning of the file.
pub proof fn slots_lie_one_after_the_other(slot: u64, p: i32)
    requires
        0 <= p || slot == 0,
    ensures
        warm::slot_start(slot, p) == p * slot,
        warm::slot_end(slot, p) == (p + 1) * slot,
        p == 0 ==> warm::slot_start(slot, p) == 0,
        0 < p ==> warm::slot_start(slot, p) == warm::slot_end(slot, (p - 1) as i32),
{
    assert((p + 1) * slot == p * slot + slot) by (nonlinear_arith);
    assert(p * slot == (p - 1) * slot + slot) by (nonlinear_arith);
    assert(0 * slot == 0) by (nonlinear_arith);
}

/// A slot can be addressed exactly when it ends within 64 bits. A negative index has
/// an address only without bytes.
pub proof fn when_a_slot_can_be_addressed(piece_length: u64, p: i32, slot: int)
    requires
        is_page_count_for(slot, piece_length as int),
    ensures
        0 <= p || piece_length == 0 ==> (warm::slot_fits(piece_length, p) <==> piece_length + 4095
            <= u64::MAX && (p + 1) * slot <= u64::MAX),
        p < 0 && 0 < piece_length ==> !warm::slot_fits(piece_length, p),
{
    warm::a_slot_is_the_least_number_of_pages(piece_length as int);
    assert(warm::padded(piece_length as int) == slot);
    if 0 <= p || piece_length == 0 {
        if piece_length + 4095 <= u64::MAX {
            assert(slot <= u64::MAX);
            slots_lie_one_after_the_other(slot as u64, p);
        }
    } else {
        warm::a_negative_index_never_fits(piece_length, p);
    }
}

/// Every file of a tier has the slots of its torrent's registered length, and a
/// stored piece lies at the beginning of its own slot, inside the file, with the
/// length that it was written with.
pub proof fn a_stored_piece_lies_in_its_slot(w: WarmModel, hash: Seq<char>, p: i32)
    requires
        w.valid(),
        w.files.contains_key(hash),
    ensures
        w.lengths.contains_key(hash),
        is_page_count_for(w.files[hash].slot as int, w.lengths[hash] as int),
        w.has(hash, p) <==> w.files[hash].present.contains_key(p),
        (0 <= p || w.lengths[hash] == 0) && w.files[hash].present.contains_key(p) ==> {
            &&& w.region(hash, p) == (
                p * w.files[hash].slot,
                w.files[hash].present[p] as int,
            )
            &&& (p + 1) * w.files[hash].slot <= w.files[hash].allocated
        },
{
    warm::a_slot_is_the_least_number_of_pages(w.lengths[hash] as int);
    if 0 <= p || w.lengths[hash] == 0 {
        slots_lie_one_after_the_other(w.files[hash].slot, p);
    }
}

/// A torrent without a file has no stored pieces.
pub proof fn without_a_file_nothing_is_stored(w: WarmModel, hash: Seq<char>, p: i32)
    requires
        !w.files.contains_key(hash),
    ensures
        !w.has(hash, p),
{
}

/// Two stored pieces of a torrent, neither longer than the registered piece length,
/// have no byte in common.
pub proof fn stored_pieces_lie_apart(w: WarmModel, hash: Seq<char>, p: i32, q: i32)
    requires
        w.valid(),
        w.has(hash, p),
        w.has(hash, q),
        p != q,
        w.files[hash].present[p] <= w.lengths[hash],
        w.files[hash].present[q] <= w.lengths[hash],
    ensures
        ({
            let (a, b) = (w.region(hash, p), w.region(hash, q));
            a.0 + a.1 <= b.0 || b.0 + b.1 <= a.0
        }),
{
    a_stored_piece_lies_in_its_slot(w, hash, p);
    a_stored_piece_lies_in_its_slot(w, hash, q);
    warm::slots_are_disjoint(w.files[hash].slot, p, q);
}

/// What a job is told to do: to open the file where there is none; to let it grow to
/// the end of the piece's slot where it ends before; and otherwise to write, at the
/// place where the piece will be read from.
pub proof fn what_a_job_does_next(w: WarmModel, job: WriteJob)
    requires
        w.valid(),
        w.lengths.contains_key(job.info_hash@),
        w.lengths[job.info_hash@] == job.piece_length,
        warm::slot_fits(job.piece_length, job.piece_idx),
    ensures
        ({
            let h = job.info_hash@;
            let slot = w.files[h].slot;
            let end = (job.piece_idx + 1) * slot;
            let step = w.step_after(job, WriteEvent::Start);
            &&& !w.files.contains_key(h) <==> step is Open
            &&& w.files.contains_key(h) && w.files[h].allocated < end <==> step is Grow
            &&& step is Open || step is Grow || step is Write
            &&& step matches WriteStep::Grow { len } ==> len == end
            &&& step matches WriteStep::Write { offset } ==> {
                &&& offset == job.piece_idx * slot
                &&& offset == w.after(job, WriteEvent::Written { ok: true }).region(
                    h,
                    job.piece_idx,
                ).0
                &&& end <= w.files[h].allocated
            }
        }),
{
    let h = job.info_hash@;
    when_a_slot_can_be_addressed(
        job.piece_length,
        job.piece_idx,
        warm::padded(job.piece_length as int),
    );
    if w.files.contains_key(h) {
        slots_lie_one_after_the_other(w.files[h].slot, job.piece_idx);
        assert(warm::slot_end(w.files[h].slot, job.piece_idx) <= u64::MAX);
        assert(0 <= job.piece_idx * w.files[h].slot) by (nonlinear_arith)
            requires
                0 <= job.piece_idx || w.files[h].slot == 0,
        ;
    }
}

/// What a job's outcomes lead to: an opened file is empty and has slots of whole
/// pages; a file that grew ends with the piece's slot; a written piece is stored with
/// the length of its data. All else stays.
pub proof fn what_an_outcome_changes(
    w: WarmModel,
    job: WriteJob,
    other: Seq<char>,
    q: i32,
)
    requires
        w.valid(),
        warm::slot_fits(job.piece_length, job.piece_idx),
        w.files.contains_key(job.info_hash@) ==> w.lengths[job.info_hash@] == job.piece_length,
    ensures
        ({
            let h = job.info_hash@;
            let opened = w.after(job, WriteEvent::Opened { ok: true });
            let grown = w.after(job, WriteEvent::Grown { ok: true });
            let written = w.after(job, WriteEvent::Written { ok: true });
            &&& opened.lengths == w.lengths
            &&& grown.lengths == w.lengths
            &&& written.lengths == w.lengths
            &&& opened.files.contains_key(h)
            &&& is_page_count_for(opened.files[h].slot as int, job.piece_length as int)
            &&& opened.files[h].allocated == 0
            &&& !opened.files[h].present.contains_key(q)
            &&& w.files.contains_key(h) ==> {
                &&& grown.files.contains_key(h)
                &&& grown.files[h].allocated == (job.piece_idx + 1) * w.files[h].slot
                &&& grown.files[h].slot == w.files[h].slot
                &&& grown.files[h].present == w.files[h].present
                &&& written.files.contains_key(h)
                &&& written.files[h].allocated == w.files[h].allocated
                &&& written.files[h].slot == w.files[h].slot
                &&& written.files[h].present.contains_key(job.piece_idx)
                &&& written.files[h].present[job.piece_idx] == job.data_len
                &&& q != job.piece_idx ==> written.files[h].present.contains_key(q)
                    == w.files[h].present.contains_key(q)
                &&& q != job.piece_idx && w.files[h].present.contains_key(q)
                    ==> written.files[h].present[q] == w.files[h].present[q]
            }
            &&& other != h ==> {
                &&& opened.files.contains_key(other) == w.files.contains_key(other)
                &&& grown.files.contains_key(other) == w.files.contains_key(other)
                &&& written.files.contains_key(other) == w.files.contains_key(other)
                &&& w.files.contains_key(other) ==> opened.files[other] == w.files[other]
                    && grown.files[other] == w.files[other] && written.files[other]
                    == w.files[other]
            }
        }),
{
    let h = job.info_hash@;
    warm::a_slot_is_the_least_number_of_pages(job.piece_length as int);
    when_a_slot_can_be_addressed(
        job.piece_length,
        job.piece_idx,
        warm::padded(job.piece_length as int),
    );
    if w.files.contains_key(h) {
        slots_lie_one_after_the_other(w.files[h].slot, job.piece_idx);
        assert(warm::slot_end(w.files[h].slot, job.piece_idx) <= u64::MAX);
    }
}

/// A start, and every outcome that is a failure, changes nothing. A failure ends the
/// job as failed, a finished write as persisted; after opening and growing the job
/// goes on as it would begin then.
pub proof fn how_a_job_goes_on(w: WarmModel, job: WriteJob)
    ensures
        w.after(job, WriteEvent::Start) == w,
        w.after(job, WriteEvent::Opened { ok: false }) == w,
        w.after(job, WriteEvent::Grown { ok: false }) == w,
        w.after(job, WriteEvent::Written { ok: false }) == w,
        w.step_after(job, WriteEvent::Opened { ok: false }) == WriteStep::Failed,
        w.step_after(job, WriteEvent::Grown { ok: false }) == WriteStep::Failed,
        w.step_after(job, WriteEvent::Written { ok: false }) == WriteStep::Failed,
        w.step_after(job, WriteEvent::Written { ok: true }) == WriteStep::Persisted,
        w.step_after(job, WriteEvent::Opened { ok: true }) == w.after(
            job,
            WriteEvent::Opened { ok: true },
        ).step_after(job, WriteEvent::Start),
        w.step_after(job, WriteEvent::Grown { ok: true }) == w.after(
            job,
            WriteEvent::Grown { ok: true },
        ).step_after(job, WriteEvent::Start),
{
}

/// A job may begin whenever its torrent is registered with its piece length and its
/// slot can be addressed. It may be told an outcome exactly of the operation that it
/// was last told to do.
pub proof fn what_a_job_may_be_told(w: WarmModel, job: WriteJob, ok: bool)
    ensures
        w.awaits(job, WriteEvent::Start) <==> w.lengths.contains_key(job.info_hash@)
            && w.lengths[job.info_hash@] == job.piece_length && warm::slot_fits(
            job.piece_length,
            job.piece_idx,
        ),
        w.awaits(job, WriteEvent::Opened { ok }) <==> w.awaits(job, WriteEvent::Start)
            && w.step_after(job, WriteEvent::Start) is Open,
        w.awaits(job, WriteEvent::Grown { ok }) <==> w.awaits(job, WriteEvent::Start)
            && w.step_after(job, WriteEvent::Start) is Grow,
        w.awaits(job, WriteEvent::Written { ok }) <==> w.awaits(job, WriteEvent::Start)
            && w.step_after(job, WriteEvent::Start) is Write,
{
}

/// Removing a torrent drops its piece length and its file and nothing else.
pub proof fn removing_drops_length_and_file(w: WarmModel, hash: Seq<char>, other: Seq<char>)
    ensures
        !w.without(hash).lengths.contains_key(hash),
        !w.without(hash).files.contains_key(hash),
        other != hash ==> {
            &&& w.without(hash).lengths.contains_key(other) == w.lengths.contains_key(other)
            &&& w.without(hash).files.contains_key(other) == w.files.contains_key(other)
            &&& w.lengths.contains_key(other) ==> w.without(hash).lengths[other] == w.lengths[other]
            &&& w.files.contains_key(other) ==> w.without(hash).files[other] == w.files[other]
        },
{
}

/// Two pieces of a newly registered torrent, neither longer than the registered
/// length, that are written one after the other lie apart, each at its multiple of
/// the slot, and each reads back as it was written.
pub proof fn pieces_of_a_registered_torrent_read_back(
    s: OnDisk,
    hash: Seq<char>,
    piece_length: u64,
    first: WriteJob,
    first_data: Seq<u8>,
    second: WriteJob,
    second_data: Seq<u8>,
)
    requires
        s.backed(),
        !s.tier.lengths.contains_key(hash),
        first.info_hash@ == hash,
        second.info_hash@ == hash,
        first.piece_length == s.tier.registered(hash, piece_length).lengths[hash],
        second.piece_length == s.tier.registered(hash, piece_length).lengths[hash],
        0 <= first.piece_idx,
        0 <= second.piece_idx,
        first.piece_idx != second.piece_idx,
        piece_length + 4095 <= u64::MAX,
        (first.piece_idx + 1) * (piece_length + 4095) <= u64::MAX,
        (second.piece_idx + 1) * (piece_length + 4095) <= u64::MAX,
        first_data.len() == first.data_len,
        second_data.len() == second.data_len,
        first_data.len() <= piece_length,
        second_data.len() <= piece_length,
    ensures
        ({
            let begun = OnDisk { tier: s.tier.registered(hash, piece_length), ..s };
            let end = begun.finished(first, first_data).finished(second, second_data);
            let slot = end.tier.files[hash].slot as int;
            let (a, b) = (first.piece_idx * slot, second.piece_idx * slot);
            &&& end.tier.lengths[hash] == piece_length
            &&& is_page_count_for(slot, piece_length as int)
            &&& end.tier.has(hash, first.piece_idx)
            &&& end.tier.has(hash, second.piece_idx)
            &&& end.tier.region(hash, first.piece_idx) == (a, first_data.len() as int)
            &&& end.tier.region(hash, second.piece_idx) == (b, second_data.len() as int)
            &&& a + piece_length <= b || b + piece_length <= a
            &&& end.disk[hash].subrange(a, a + first_data.len()) == first_data
            &&& end.disk[hash].subrange(b, b + second_data.len()) == second_data
        }),
{
    let begun = OnDisk { tier: s.tier.registered(hash, piece_length), ..s };
    registering_records_the_given_length(s.tier, hash, piece_length, hash);
    assert forall|h: Seq<char>| #[trigger] begun.tier.files.contains_key(h) implies begun.tier.lengths[h]
        == s.tier.lengths[h] && begun.tier.lengths.contains_key(h) by {
        assert(s.tier.files.contains_key(h));
    }
    assert(begun.backed());
    let slot = warm::padded(piece_length as int);
    warm::a_slot_is_the_least_number_of_pages(piece_length as int);
    assert((first.piece_idx + 1) * slot <= u64::MAX) by (nonlinear_arith)
        requires
            0 <= first.piece_idx,
            slot <= piece_length + 4095,
            (first.piece_idx + 1) * (piece_length + 4095) <= u64::MAX,
    ;
    assert((second.piece_idx + 1) * slot <= u64::MAX) by (nonlinear_arith)
        requires
            0 <= second.piece_idx,
            slot <= piece_length + 4095,
            (second.piece_idx + 1) * (piece_length + 4095) <= u64::MAX,
    ;
    when_a_slot_can_be_addressed(piece_length, first.piece_idx, slot);
    when_a_slot_can_be_addressed(piece_length, second.piece_idx, slot);
    what_a_job_may_be_told(begun.tier, first, true);
    crate::warm_runs::a_finished_job_stores_its_piece(
        begun,
        first,
        first_data,
        hash,
        second.piece_idx,
        second_data,
    );
    let mid = begun.finished(first, first_data);
    what_a_job_may_be_told(mid.tier, second, true);
    crate::warm_runs::a_finished_job_stores_its_piece(
        mid,
        second,
        second_data,
        hash,
        first.piece_idx,
        first_data,
    );
    let end = mid.finished(second, second_data);
    a_stored_piece_lies_in_its_slot(end.tier, hash, first.piece_idx);
    a_stored_piece_lies_in_its_slot(end.tier, hash, second.piece_idx);
    warm::slots_are_disjoint(end.tier.files[hash].slot, first.piece_idx, second.piece_idx);
    slots_lie_one_after_the_other(end.tier.files[hash].slot, first.piece_idx);
    slots_lie_one_after_the_other(end.tier.files[hash].slot, second.piece_idx);
}

/// A file that was just opened for a torrent: it holds nothing, and its slots are
/// whole pages.
pub proof fn a_new_file_is_empty(piece_length: u64, p: i32)
    requires
        piece_length + 4095 <= u64::MAX,
    ensures
        FileModel::fresh(piece_length).allocated == 0,
        !FileModel::fresh(piece_length).present.contains_key(p),
        is_page_count_for(FileModel::fresh(piece_length).slot as int, piece_length as int),
{
    warm::a_slot_is_the_least_number_of_pages(piece_length as int);
}

} // verus!
