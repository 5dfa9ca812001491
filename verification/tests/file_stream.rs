use bytes::Bytes;
use enginefs::hybrid_cache::HybridCacheConfig;
use enginefs::hybrid_cache::HybridPieceCache;
use enginefs::hybrid_cache::Lookup;
use enginefs::stream::prefetch_count;
use enginefs::stream::prefetch_pieces;
use enginefs::stream::store_prefetched;
use enginefs::stream::wants_prefetch;
use enginefs::stream::Delivery;
use enginefs::stream::LibtorrentFileStream;
use enginefs::stream::Prefetch;
use enginefs::stream::PriorityItem;
use enginefs::stream::PriorityPlan;
use enginefs::stream::ReadEvent;
use enginefs::stream::ReadStep;
use enginefs::stream::SeekTarget;
use enginefs::stream::SeekType;
use enginefs::stream::WaitOrder;
use std::collections::HashMap;

const SECOND: u64 = 1_000_000_000;

/// A file of 25 bytes that starts 5 bytes into a torrent with pieces of 10 bytes.
fn stream() -> LibtorrentFileStream {
    LibtorrentFileStream {
        first_piece: 0,
        last_piece: 2,
        piece_length: 10,
        file_offset: 5,
        current_pos: 0,
        is_complete: false,
        last_priorities_piece: -1,
        stream_id: 13,
        info_hash: "aa".to_string(),
        cached_piece_data: None,
        last_prefetch_piece: -1,
        requested_piece_via_api: HashMap::new(),
        seek_type: SeekType::InitialPlayback,
        file_size: 25,
        first_read_logged: false,
        first_wait_logged: false,
        last_wait_log: None,
        last_deadline_reset_at: None,
        wait_deadline_ms: 50,
        memory_pin: None,
    }
}

fn cache() -> HybridPieceCache {
    let config = HybridCacheConfig { max_hot_bytes: 1024, warm_dir: "/warm".to_string() };
    HybridPieceCache::new(config).0
}

/// The torrent: byte `i` is `i`.
fn torrent() -> Vec<u8> {
    (0u8..30).collect()
}

fn piece(p: i32) -> Bytes {
    let p = p as usize;
    Bytes::from(torrent()[p * 10..(p + 1) * 10].to_vec())
}

fn delivered(step: ReadStep) -> Delivery {
    match step {
        ReadStep::Deliver(d) => d,
        _ => panic!("expected bytes"),
    }
}

#[test]
fn pieces_of_positions() {
    let mut c = cache();
    let mut s = stream();
    assert_eq!(s.piece_at(0), 0);
    assert_eq!(s.piece_at(4), 0);
    assert_eq!(s.piece_at(5), 1);
    assert_eq!(s.piece_at(24), 2);
    s.piece_length = 0;
    assert_eq!(s.piece_at(24), -1);
}

#[test]
fn a_poll_goes_through_the_sources_in_order() {
    let mut c = cache();
    let mut s = stream();
    assert!(matches!(s.poll_read(&mut c, ReadEvent::Start, 8), ReadStep::LookUp { piece: 0 }));
    assert!(matches!(
        s.poll_read(&mut c, ReadEvent::Cached { data: None, speed: 0 }, 8),
        ReadStep::AskHave { piece: 0 }
    ));
    assert!(matches!(
        s.poll_read(&mut c, ReadEvent::Have { have: true, now: 1, elapsed: 1 }, 8),
        ReadStep::ReadMemory { piece: 0 }
    ));
    assert!(matches!(
        s.poll_read(&mut c, ReadEvent::Memory { bytes: Vec::new() }, 8),
        ReadStep::LookUpAgain { piece: 0 }
    ));
    assert!(matches!(
        s.poll_read(&mut c, ReadEvent::CachedAgain { data: None }, 8),
        ReadStep::WaitForWarm { piece: 0 }
    ));
    assert_eq!(s.current_pos, 0);
    assert!(!s.first_read_logged);
}

#[test]
fn the_cache_serves_and_orders_a_prefetch_once() {
    let mut c = cache();
    let mut s = stream();
    let d = delivered(s.poll_read(&mut c, ReadEvent::Cached { data: Some(piece(0)), speed: 6_000_000 }, 3));
    assert_eq!(d.chunk.to_vec(), vec![5, 6, 7]);
    assert!(d.put.is_none());
    assert_eq!(d.prefetch, Some(Prefetch { after: 0, count: 5 }));
    assert_eq!(s.current_pos, 3);
    assert!(s.first_read_logged);

    // The kept piece serves the rest, up to the end of the piece.
    let d = delivered(s.poll_read(&mut c, ReadEvent::Start, 100));
    assert_eq!(d.chunk.to_vec(), vec![8, 9]);
    assert_eq!(d.prefetch, None);
    assert_eq!(s.current_pos, 5);

    // The next piece is another one.
    assert!(matches!(s.poll_read(&mut c, ReadEvent::Start, 100), ReadStep::LookUp { piece: 1 }));
    let d = delivered(s.poll_read(&mut c, ReadEvent::Cached { data: Some(piece(1)), speed: 0 }, 1));
    assert_eq!(d.chunk.to_vec(), vec![10]);
    assert_eq!(d.prefetch, Some(Prefetch { after: 1, count: 2 }));
}

#[test]
fn a_whole_file_is_read_in_order() {
    let mut c = cache();
    let mut s = stream();
    let mut out: Vec<u8> = Vec::new();
    while s.current_pos < s.file_size {
        let chunk = match s.poll_read(&mut c, ReadEvent::Start, 4) {
            ReadStep::Deliver(d) => d.chunk,
            ReadStep::LookUp { piece: p } => {
                delivered(s.poll_read(&mut c, ReadEvent::Cached { data: Some(piece(p)), speed: 0 }, 4)).chunk
            }
            _ => panic!("unexpected step"),
        };
        out.extend_from_slice(&chunk);
    }
    assert_eq!(out, torrent()[5..30].to_vec());
}

#[test]
fn the_backends_memory_serves_and_is_put_into_the_cache() {
    let mut c = cache();
    let mut s = stream();
    s.current_pos = 7;
    s.poll_read(&mut c, ReadEvent::Have { have: true, now: 1, elapsed: 1 }, 100);
    let d = delivered(s.poll_read(&mut c, ReadEvent::Memory { bytes: piece(1).to_vec() }, 100));
    assert_eq!(d.chunk.to_vec(), (12u8..20).collect::<Vec<u8>>());
    assert_eq!(d.put, Some(piece(1)));
    assert_eq!(d.piece, 1);
    assert_eq!(d.prefetch, None);
    assert_eq!(s.current_pos, 15);
    let (p, data, start) = s.cached_piece_data.expect("kept");
    assert_eq!((p, data, start), (1, piece(1), 0));
}

#[test]
fn the_second_lookup_serves_without_prefetch() {
    let mut c = cache();
    let mut s = stream();
    let d = delivered(s.poll_read(&mut c, ReadEvent::CachedAgain { data: Some(piece(0)) }, 2));
    assert_eq!(d.chunk.to_vec(), vec![5, 6]);
    assert_eq!(d.put, None);
    assert_eq!(d.prefetch, None);
    assert_eq!(s.last_prefetch_piece, -1);
}

#[test]
fn a_short_piece_delivers_nothing_beyond_its_end() {
    let mut c = cache();
    let mut s = stream();
    let d = delivered(s.poll_read(&mut c, 
        ReadEvent::Cached { data: Some(Bytes::from_static(b"abc")), speed: 0 },
        100,
    ));
    assert!(d.chunk.is_empty());
    assert_eq!(s.current_pos, 0);
    assert!(!s.first_read_logged);
    // Nothing fits into a full buffer.
    let d = delivered(s.poll_read(&mut c, ReadEvent::CachedAgain { data: Some(piece(0)) }, 0));
    assert!(d.chunk.is_empty());
    assert_eq!(s.current_pos, 0);
}

#[test]
fn serving_a_piece_forgets_that_it_was_requested() {
    let mut c = cache();
    let mut s = stream();
    s.requested_piece_via_api.insert(0, 1);
    s.requested_piece_via_api.insert(1, 1);
    assert!(matches!(
        s.poll_read(&mut c, ReadEvent::Have { have: true, now: 1, elapsed: 1 }, 8),
        ReadStep::Fail
    ));
    delivered(s.poll_read(&mut c, ReadEvent::Cached { data: Some(piece(0)), speed: 0 }, 1));
    assert!(!s.requested_piece_via_api.contains_key(&0));
    assert!(s.requested_piece_via_api.contains_key(&1));
}

#[test]
fn a_position_without_piece_is_an_error() {
    let mut c = cache();
    let mut s = stream();
    s.piece_length = 0;
    assert!(matches!(s.poll_read(&mut c, ReadEvent::Start, 8), ReadStep::Fail));
    // The index is truncated to 32 bits.
    let mut c = cache();
    let mut s = stream();
    s.piece_length = 1;
    s.current_pos = 1 << 31;
    assert!(matches!(s.poll_read(&mut c, ReadEvent::Start, 8), ReadStep::Fail));
}

#[test]
fn waits_are_reported_every_two_seconds_and_nudged_every_ten() {
    let mut c = cache();
    let mut s = stream();
    let mut wait = |s: &mut LibtorrentFileStream, now: u64| -> WaitOrder {
        match s.poll_read(&mut c, ReadEvent::Have { have: false, now, elapsed: now }, 8) {
            ReadStep::Wait(order) => order,
            _ => panic!("expected to wait"),
        }
    };
    let order = wait(&mut s, 1);
    assert_eq!(order, WaitOrder { piece: 0, deadline: 50, report: true, nudge: false });
    assert!(s.first_wait_logged);
    assert!(!wait(&mut s, 2 * SECOND).report);
    assert!(wait(&mut s, 2 * SECOND + 1).report);
    assert!(!wait(&mut s, 4 * SECOND).report);
    assert!(!wait(&mut s, 10 * SECOND - 1).nudge);
    assert!(wait(&mut s, 10 * SECOND).nudge);
    assert!(!wait(&mut s, 20 * SECOND - 1).nudge);
    assert!(wait(&mut s, 20 * SECOND).nudge);
    assert_eq!(s.current_pos, 0);
}

#[test]
fn prefetch_counts_by_speed() {
    assert_eq!(prefetch_count(0), 2);
    assert_eq!(prefetch_count(1_000_000), 2);
    assert_eq!(prefetch_count(1_000_001), 3);
    assert_eq!(prefetch_count(5_000_000), 3);
    assert_eq!(prefetch_count(5_000_001), 5);
    assert_eq!(prefetch_count(10_000_000), 5);
    assert_eq!(prefetch_count(10_000_001), 8);
}

#[test]
fn a_prefetch_ends_with_the_file() {
    assert_eq!(prefetch_pieces(&Prefetch { after: 3, count: 3 }, 100), vec![4, 5, 6]);
    assert_eq!(prefetch_pieces(&Prefetch { after: 3, count: 8 }, 5), vec![4, 5]);
    assert!(prefetch_pieces(&Prefetch { after: 5, count: 8 }, 5).is_empty());
    assert!(prefetch_pieces(&Prefetch { after: 9, count: 2 }, 5).is_empty());
    assert!(prefetch_pieces(&Prefetch { after: 0, count: 0 }, 5).is_empty());
    assert_eq!(
        prefetch_pieces(&Prefetch { after: i32::MAX - 1, count: 8 }, i32::MAX),
        vec![i32::MAX]
    );
}

#[test]
fn a_prefetch_reads_what_the_cache_lacks() {
    let mut cache = cache();
    assert!(wants_prefetch(&cache, "aa", 1, true));
    assert!(!wants_prefetch(&cache, "aa", 1, false));
    store_prefetched(&mut cache, "aa", 1, Vec::new());
    assert!(wants_prefetch(&cache, "aa", 1, true));
    store_prefetched(&mut cache, "AA", 1, vec![1, 2, 3]);
    assert!(!wants_prefetch(&cache, "aa", 1, true));
    match cache.get_sync("aa", 1) {
        Lookup::Hot(data) => assert_eq!(data.to_vec(), vec![1, 2, 3]),
        _ => panic!("expected the hot tier"),
    }
}

#[test]
fn deadlines_are_looked_at_once_per_piece() {
    let mut c = cache();
    let mut s = stream();
    s.seek_type = SeekType::UserScrub;
    assert!(s.needs_priorities(0));
    assert_eq!(
        s.set_priorities(0, &vec![true, false, true]),
        PriorityPlan::Schedule { current_piece: 0, end_piece: 3 }
    );
    assert_eq!(s.seek_type, SeekType::Sequential);
    assert_eq!(s.last_priorities_piece, 0);
    assert!(!s.is_complete);
    assert!(!s.needs_priorities(4));
    assert_eq!(s.set_priorities(4, &vec![true, false, true]), PriorityPlan::Keep);
    assert!(s.needs_priorities(5));
    assert_eq!(s.set_priorities(5, &vec![true, true, true]), PriorityPlan::Complete);
    assert!(s.is_complete);
    assert!(!s.needs_priorities(15));
    assert_eq!(s.set_priorities(15, &vec![false, false, false]), PriorityPlan::Keep);
}

#[test]
fn a_file_without_pieces_is_complete() {
    let mut c = cache();
    let mut s = stream();
    s.first_piece = 3;
    s.last_piece = 2;
    assert_eq!(s.set_priorities(0, &Vec::new()), PriorityPlan::Complete);
}

#[test]
fn no_piece_length_means_no_deadlines() {
    let mut c = cache();
    let mut s = stream();
    s.piece_length = 0;
    assert!(!s.needs_priorities(0));
    assert_eq!(s.set_priorities(0, &vec![false, false, false]), PriorityPlan::Keep);
    assert_eq!(s.seek_type, SeekType::InitialPlayback);
}

#[test]
fn deadlines_are_set_apart_by_stream() {
    let mut c = cache();
    let mut s = stream();
    s.first_piece = 10;
    s.last_piece = 14;
    let items: Vec<PriorityItem> = [
        (9, 100),
        (10, 0),
        (11, 100),
        (12, 99_999),
        (13, 100_000),
        (14, 250),
        (15, 1),
    ]
    .iter()
    .map(|&(piece_idx, deadline)| PriorityItem { piece_idx, deadline })
    .collect();
    let have = vec![false, false, false, false, true];
    assert_eq!(
        s.deadlines(&items, &have),
        vec![(10, 0), (11, 115), (12, 100_014), (13, 100_000)]
    );
    s.stream_id = 20;
    assert_eq!(
        s.deadlines(&items, &have),
        vec![(10, 0), (11, 100), (12, 99_999), (13, 100_000)]
    );
}

#[test]
fn seeks() {
    let mut c = cache();
    let mut s = stream();
    delivered(s.poll_read(&mut c, ReadEvent::Cached { data: Some(piece(0)), speed: 0 }, 3));
    s.start_seek(SeekTarget::Start(12), 20);
    assert_eq!(s.current_pos, 12);
    assert_eq!(s.seek_type, SeekType::UserScrub);
    assert!(s.cached_piece_data.is_none());
    assert_eq!(s.poll_complete(), (12, true));
    s.start_seek(SeekTarget::Current(-2), 20);
    assert_eq!(s.current_pos, 10);
    s.start_seek(SeekTarget::Current(-100), 20);
    assert_eq!(s.current_pos, 0);
    s.start_seek(SeekTarget::End(-5), 20);
    assert_eq!(s.current_pos, 20);
    assert_eq!(s.seek_type, SeekType::ContainerMetadata);
    s.start_seek(SeekTarget::End(10), 20);
    assert_eq!(s.current_pos, 35);
    s.last_priorities_piece = 4;
    assert_eq!(s.poll_complete(), (35, false));
}

#[test]
fn a_memory_read_is_pinned() {
    let mut c = cache();
    let mut s = stream();
    s.info_hash = "AA".to_string();
    let key = ("aa".to_string(), 0);
    let other = c.pin_piece("aa", 0);
    assert_eq!(c.pins().count(&key), 1);
    let have = ReadEvent::Have { have: true, now: 1, elapsed: 1 };
    assert!(matches!(s.poll_read(&mut c, have, 8), ReadStep::ReadMemory { piece: 0 }));
    assert_eq!(c.pins().count(&key), 2);
    assert!(s.memory_pin.is_some());
    delivered(s.poll_read(&mut c, ReadEvent::Memory { bytes: piece(0).to_vec() }, 8));
    assert_eq!(c.pins().count(&key), 1);
    assert!(s.memory_pin.is_none());
    // An empty answer releases the pin as well.
    let mut s = stream();
    let have = ReadEvent::Have { have: true, now: 1, elapsed: 1 };
    let step = s.try_poll_read(&mut c, have, 8).expect("room for a pin");
    assert!(matches!(step, ReadStep::ReadMemory { piece: 0 }));
    assert_eq!(c.pins().count(&key), 2);
    assert!(matches!(
        s.poll_read(&mut c, ReadEvent::Memory { bytes: Vec::new() }, 8),
        ReadStep::LookUpAgain { piece: 0 }
    ));
    assert_eq!(c.pins().count(&key), 1);
    c.release(&other);
    assert_eq!(c.pins().count(&key), 0);
}

#[test]
fn a_position_is_not_summed_up_without_pieces() {
    let mut c = cache();
    let mut s = stream();
    s.piece_length = 0;
    s.file_offset = u64::MAX;
    s.current_pos = 7;
    assert!(matches!(s.poll_read(&mut c, ReadEvent::Start, 8), ReadStep::Fail));
    assert!(!s.needs_priorities(7));
    assert_eq!(s.poll_complete(), (7, false));
    s.piece_length = 10;
    s.is_complete = true;
    assert!(!s.needs_priorities(7));
    assert_eq!(s.set_priorities(7, &vec![true, true, true]), PriorityPlan::Keep);
}
