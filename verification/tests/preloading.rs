use enginefs::preload::add_failure;
use enginefs::preload::cancel_reply;
use enginefs::preload::disk_space_failure;
use enginefs::preload::preload_progress;
use enginefs::preload::CancelQuery;
use enginefs::preload::CancelReply;
use enginefs::preload::PreloadEvent;
use enginefs::preload::PreloadProgress;
use enginefs::preload::PreloadRun;
use enginefs::preload::PreloadSessions;
use enginefs::preload::PreloadStep;
use enginefs::preload::PreloadTask;
use enginefs::preload::Stage;
use enginefs::preload::StartPlan;

fn task(file_idx: usize) -> PreloadTask<&'static str, u32> {
    PreloadTask { file_idx, progress: "progress", abort_handle: 1 }
}

fn failure(step: PreloadStep) -> String {
    match step {
        PreloadStep::Failed { reason } => reason,
        _ => panic!("expected a failure"),
    }
}

fn reading() -> PreloadRun {
    let mut run = PreloadRun::new();
    assert!(matches!(run.advance(PreloadEvent::Prepared), PreloadStep::ListFiles));
    let listed = PreloadEvent::Listed { length: Some(1000) };
    assert!(matches!(run.advance(listed), PreloadStep::OpenReader));
    assert!(matches!(run.advance(PreloadEvent::Opened), PreloadStep::Read));
    run
}

#[test]
fn one_preload_runs_per_torrent() {
    let mut sessions: PreloadSessions<&'static str, u32> = PreloadSessions::new();
    let hash = match sessions.start_preload("AB") {
        StartPlan::Start { info_hash } => info_hash,
        StartPlan::AlreadyRunning(_) => panic!("nothing runs"),
    };
    assert_eq!(hash, "ab");
    sessions.insert(hash, task(4));
    match sessions.start_preload("ab") {
        StartPlan::AlreadyRunning(t) => assert_eq!(t.file_idx, 4),
        StartPlan::Start { .. } => panic!("it runs"),
    }
    assert_eq!(sessions.get("Ab").map(|t| t.file_idx), Some(4));
    assert!(sessions.get("cd").is_none());
}

#[test]
fn cancelling_forgets_the_preload() {
    let mut sessions: PreloadSessions<&'static str, u32> = PreloadSessions::new();
    sessions.insert("ab".to_string(), task(4));
    sessions.insert("cd".to_string(), task(5));
    let plan = sessions.cancel_preload("AB", &CancelQuery::default());
    assert_eq!(plan.info_hash, "ab");
    assert!(!plan.delete_files);
    assert_eq!(plan.task.map(|t| t.file_idx), Some(4));
    assert!(sessions.get("ab").is_none());
    assert!(sessions.get("cd").is_some());
    let plan = sessions.cancel_preload("ab", &CancelQuery { delete: true });
    assert!(plan.delete_files);
    assert!(plan.task.is_none());
}

#[test]
fn reported_fractions_and_rates() {
    let report = |p: &PreloadProgress<f64>| preload_progress(p, 0.0, 1.0);
    assert_eq!(report(&PreloadProgress::Pending), (0.0, 0.0));
    assert_eq!(
        report(&PreloadProgress::Downloading { progress: 0.25, speed: 9.5 }),
        (0.25, 9.5)
    );
    assert_eq!(report(&PreloadProgress::Ready), (1.0, 0.0));
    assert_eq!(report(&PreloadProgress::Failed { reason: "x".to_string() }), (0.0, 0.0));
}

#[test]
fn a_run_reads_to_the_end() {
    let mut run = reading();
    match run.advance(PreloadEvent::Read { count: 400, elapsed: 999_999_999 }) {
        PreloadStep::Advance { bytes_read, file_size, sample } => {
            assert_eq!((bytes_read, file_size, sample), (400, 1000, None))
        }
        _ => panic!("expected progress"),
    }
    match run.advance(PreloadEvent::Read { count: 500, elapsed: 1_000_000_000 }) {
        PreloadStep::Advance { bytes_read, file_size, sample } => {
            assert_eq!((bytes_read, file_size), (900, 1000));
            assert_eq!(sample, Some((900, 1_000_000_000)));
        }
        _ => panic!("expected progress"),
    }
    match run.advance(PreloadEvent::Read { count: 100, elapsed: 2_000_000_000 }) {
        PreloadStep::Advance { bytes_read, sample, .. } => {
            assert_eq!(bytes_read, 1000);
            assert_eq!(sample, Some((100, 2_000_000_000)));
        }
        _ => panic!("expected progress"),
    }
    assert!(matches!(
        run.advance(PreloadEvent::Read { count: 0, elapsed: 0 }),
        PreloadStep::Ready
    ));
    assert_eq!(run.stage, Stage::Over);
}

#[test]
fn runs_fail_with_a_reason() {
    let mut run = PreloadRun::new();
    let error = "no metadata".to_string();
    assert_eq!(failure(run.advance(PreloadEvent::PrepareFailed { error })), "no metadata");
    assert_eq!(run.stage, Stage::Over);

    for length in [None, Some(0)] {
        let mut run = PreloadRun::new();
        run.advance(PreloadEvent::Prepared);
        assert_eq!(failure(run.advance(PreloadEvent::Listed { length })), "File size unknown");
        assert_eq!(run.stage, Stage::Over);
    }

    let mut run = PreloadRun::new();
    run.advance(PreloadEvent::Prepared);
    run.advance(PreloadEvent::Listed { length: Some(1) });
    let error = "closed".to_string();
    assert_eq!(
        failure(run.advance(PreloadEvent::OpenFailed { error })),
        "Reader open failed: closed"
    );

    let mut run = reading();
    let error = "gone".to_string();
    assert_eq!(failure(run.advance(PreloadEvent::ReadFailed { error })), "Read error: gone");
    assert_eq!(run.stage, Stage::Over);
}

#[test]
fn runs_expect_their_events() {
    let run = PreloadRun::new();
    assert!(run.expects(&PreloadEvent::Prepared));
    assert!(!run.expects(&PreloadEvent::Opened));
    let mut run = reading();
    assert!(run.expects(&PreloadEvent::Read { count: 5, elapsed: 0 }));
    assert!(run.expects(&PreloadEvent::ReadFailed { error: String::new() }));
    assert!(!run.expects(&PreloadEvent::Listed { length: None }));
    run.bytes_read = u64::MAX - 4;
    assert!(!run.expects(&PreloadEvent::Read { count: 5, elapsed: 0 }));
    assert!(run.expects(&PreloadEvent::Read { count: 4, elapsed: 0 }));
}

#[test]
fn answers_for_failures() {
    assert_eq!(add_failure(&"e".to_string()), "Failed to add torrent: e");
    assert_eq!(disk_space_failure(&"e".to_string()), "Could not determine disk space: e");
}

#[test]
fn answers_to_cancellations() {
    assert!(matches!(cancel_reply(None), CancelReply::NoContent));
    assert!(matches!(cancel_reply(Some(Ok(()))), CancelReply::NoContent));
    match cancel_reply(Some(Err("busy".to_string()))) {
        CancelReply::Failed { reason } => assert_eq!(reason, "busy"),
        CancelReply::NoContent => panic!("expected the error"),
    }
}
