use bytes::Bytes;
use enginefs::drain::DrainStep;
use enginefs::drain::DrainTask;
use enginefs::drain::Receive;
use enginefs::drain::Received;
use enginefs::hot_tier::evicted_piece;
use enginefs::hot_tier::is_of_torrent;
use enginefs::hot_tier::piece_weight;
use enginefs::hot_tier::EvictedPiece;
use enginefs::hybrid_cache::HybridCacheConfig;
use enginefs::hybrid_cache::HybridPieceCache;
use enginefs::hybrid_cache::Lookup;
use enginefs::paths::join;
use enginefs::pins::PinCounts;
use enginefs::warm::finish_read;
use enginefs::warm::pad_to_page;
use enginefs::warm::WarmFile;
use enginefs::warm::WarmTier;
use enginefs::warm::WriteEvent;
use enginefs::warm::WriteJob;
use enginefs::warm::WriteStep;

const HASH: &str = "abcdef0123456789abcdef0123456789abcdef01";
const UPPER: &str = "ABCDEF0123456789ABCDEF0123456789ABCDEF01";
const OTHER: &str = "ffffffffffffffffffffffffffffffffffffffff";

fn cache_of(max_hot_bytes: u64) -> HybridPieceCache {
    let config = HybridCacheConfig { max_hot_bytes, warm_dir: "/warm".to_string() };
    HybridPieceCache::new(config).0
}

fn hot(cache: &mut HybridPieceCache, hash: &str, idx: i32) -> Option<Vec<u8>> {
    match cache.get_sync(hash, idx) {
        Lookup::Hot(data) => Some(data.to_vec()),
        _ => None,
    }
}

fn store(tier: &mut WarmTier, hash: &str, idx: i32, len: usize) -> Vec<WriteStep> {
    let job = tier.begin_write(hash, idx, len).expect("registered");
    assert!(job.fits());
    let mut steps = Vec::new();
    let mut step = tier.write_piece_sync(&job, WriteEvent::Start);
    loop {
        steps.push(step);
        step = match step {
            WriteStep::Open => tier.write_piece_sync(&job, WriteEvent::Opened { ok: true }),
            WriteStep::Grow { .. } => tier.write_piece_sync(&job, WriteEvent::Grown { ok: true }),
            WriteStep::Write { .. } => {
                tier.write_piece_sync(&job, WriteEvent::Written { ok: true })
            }
            WriteStep::Persisted | WriteStep::Failed => return steps,
        };
    }
}

#[test]
fn default_configuration() {
    let config = HybridCacheConfig::default_in("/tmp");
    assert_eq!(config.max_hot_bytes, 512 * 1024 * 1024);
    assert_eq!(config.warm_dir, "/tmp/stremio_warm_cache");
    assert_eq!(config.clone().warm_dir, config.warm_dir);
}

#[test]
fn a_put_piece_is_found_under_any_case() {
    let mut cache = cache_of(1024);
    cache.put(UPPER, 3, Bytes::from_static(b"piece three"));
    assert_eq!(hot(&mut cache, HASH, 3), Some(b"piece three".to_vec()));
    assert_eq!(hot(&mut cache, UPPER, 3), Some(b"piece three".to_vec()));
    assert!(cache.has_piece_sync(UPPER, 3));
    assert!(!cache.has_piece_sync(HASH, 4));
    assert!(!cache.has_piece_sync(OTHER, 3));
    assert!(matches!(cache.get_sync(HASH, 4), Lookup::Nowhere));
}

#[test]
fn a_second_put_replaces_the_first() {
    let mut cache = cache_of(1024);
    cache.put(HASH, 0, Bytes::from_static(b"old"));
    cache.put(HASH, 1, Bytes::from_static(b"other"));
    cache.put(HASH, 0, Bytes::from_static(b"new"));
    assert_eq!(hot(&mut cache, HASH, 0), Some(b"new".to_vec()));
    assert_eq!(hot(&mut cache, HASH, 1), Some(b"other".to_vec()));
}

#[test]
fn a_removed_torrent_is_gone_and_others_stay() {
    let mut cache = cache_of(1024);
    cache.put(HASH, 0, Bytes::from_static(b"mine"));
    cache.put(OTHER, 0, Bytes::from_static(b"theirs"));
    cache.register_torrent(HASH, 16);
    let dir = cache.remove_torrent(UPPER);
    assert_eq!(dir, format!("/warm/{}", HASH));
    assert!(!cache.has_piece_sync(HASH, 0));
    assert!(matches!(cache.get_sync(HASH, 0), Lookup::Nowhere));
    assert_eq!(hot(&mut cache, OTHER, 0), Some(b"theirs".to_vec()));
    assert!(cache.warm().begin_write(HASH, 0, 4).is_none());
}

#[test]
fn statistics_start_at_zero() {
    let cache = cache_of(1024);
    assert_eq!(cache.stats(), (0, 0));
}

#[test]
fn statistics_follow_the_hot_tier() {
    let mut cache = cache_of(1_000_000);
    for i in 0..2000 {
        cache.put(HASH, i, Bytes::from(vec![7u8; 10]));
    }
    let (entries, weight) = cache.stats();
    assert!(entries > 0 && entries <= 2000);
    assert_eq!(weight, entries * 10);
}

#[test]
fn evicted_pieces_arrive_at_the_queue() {
    let config = HybridCacheConfig { max_hot_bytes: 64, warm_dir: "/warm".to_string() };
    let (mut cache, queue) = HybridPieceCache::new(config);
    for i in 0..3000 {
        cache.put(UPPER, i, Bytes::from(vec![(i % 251) as u8; 16]));
    }
    let mut received = 0;
    while let Ok(piece) = queue.try_recv() {
        assert_eq!(piece.info_hash, HASH);
        assert_eq!(piece.data.to_vec(), vec![(piece.piece_idx % 251) as u8; 16]);
        received += 1;
    }
    assert!(received > 0);
    assert!(received <= 4096);
}

#[test]
fn a_full_queue_takes_no_more() {
    let config = HybridCacheConfig { max_hot_bytes: 1, warm_dir: "/warm".to_string() };
    let (mut cache, queue) = HybridPieceCache::new(config);
    for i in 0..12000 {
        cache.put(HASH, i, Bytes::from_static(b"xx"));
    }
    let mut received = 0;
    while queue.try_recv().is_ok() {
        received += 1;
    }
    assert_eq!(received, 4096);
}

#[test]
fn weights_and_messages_of_entries() {
    assert_eq!(piece_weight(&Bytes::from_static(b"")), 0);
    assert_eq!(piece_weight(&Bytes::from_static(b"12345")), 5);
    let key = (HASH.to_string(), 9);
    let message = evicted_piece(&key, Bytes::from_static(b"abc"));
    assert_eq!(message.info_hash, HASH);
    assert_eq!(message.piece_idx, 9);
    assert_eq!(message.data, Bytes::from_static(b"abc"));
    assert!(is_of_torrent(&key, &HASH.to_string()));
    assert!(!is_of_torrent(&key, &OTHER.to_string()));
}

#[test]
fn slots_are_padded_to_pages() {
    assert_eq!(pad_to_page(0), 0);
    assert_eq!(pad_to_page(1), 4096);
    assert_eq!(pad_to_page(4096), 4096);
    assert_eq!(pad_to_page(4097), 8192);
    assert_eq!(pad_to_page(1 << 20), 1 << 20);
}

#[test]
fn slots_of_a_flat_file() {
    let file = WarmFile::new(5000);
    assert_eq!(file.offset(0), 0);
    assert_eq!(file.offset(3), 3 * 8192);
    assert_eq!(file.growth(3), Some(4 * 8192));
    assert_eq!(file.read_piece(3), None);
    assert!(!file.has_piece(3));
}

#[test]
fn a_piece_is_opened_grown_written_and_persisted() {
    let mut tier = WarmTier::new("/warm".to_string());
    tier.register(UPPER, 5000);
    let steps = store(&mut tier, HASH, 2, 5000);
    assert_eq!(
        steps,
        vec![
            WriteStep::Open,
            WriteStep::Grow { len: 3 * 8192 },
            WriteStep::Write { offset: 2 * 8192 },
            WriteStep::Persisted,
        ]
    );
    // An earlier slot lies inside the file already.
    let steps = store(&mut tier, HASH, 0, 4000);
    assert_eq!(steps, vec![WriteStep::Write { offset: 0 }, WriteStep::Persisted]);
    // A later one does not.
    let steps = store(&mut tier, HASH, 3, 1);
    assert_eq!(
        steps,
        vec![
            WriteStep::Grow { len: 4 * 8192 },
            WriteStep::Write { offset: 3 * 8192 },
            WriteStep::Persisted,
        ]
    );
    let plan = tier.get_piece_sync(UPPER, 2).expect("stored");
    assert_eq!((plan.info_hash.as_str(), plan.offset, plan.len), (HASH, 2 * 8192, 5000));
    let plan = tier.get_piece_sync(HASH, 0).expect("stored");
    assert_eq!((plan.offset, plan.len), (0, 4000));
    assert!(tier.has_piece(HASH, 3));
    assert!(!tier.has_piece(HASH, 1));
    assert!(tier.get_piece_sync(HASH, 1).is_none());
    assert!(!tier.has_piece(OTHER, 2));
}

#[test]
fn what_is_written_reads_back_from_the_disk() {
    let mut tier = WarmTier::new("/warm".to_string());
    tier.register(HASH, 10);
    let mut disk: Vec<u8> = Vec::new();
    for (idx, data) in [(1, b"second".to_vec()), (0, b"first".to_vec()), (2, b"third!".to_vec())] {
        for step in store(&mut tier, HASH, idx, data.len()) {
            match step {
                WriteStep::Grow { len } => disk.resize(len as usize, 0),
                WriteStep::Write { offset } => {
                    disk[offset as usize..offset as usize + data.len()].copy_from_slice(&data)
                }
                _ => {}
            }
        }
    }
    for (idx, data) in [(0, b"first".to_vec()), (1, b"second".to_vec()), (2, b"third!".to_vec())] {
        let plan = tier.get_piece_sync(HASH, idx).expect("stored");
        let buf = disk[plan.offset as usize..plan.offset as usize + plan.len].to_vec();
        assert_eq!(finish_read(Some(buf)).expect("read"), Bytes::from(data));
    }
    assert!(finish_read(None).is_none());
}

#[test]
fn failed_operations_store_nothing() {
    let mut tier = WarmTier::new("/warm".to_string());
    tier.register(HASH, 10);
    let job = tier.begin_write(HASH, 0, 4).expect("registered");
    assert_eq!(tier.write_piece_sync(&job, WriteEvent::Start), WriteStep::Open);
    assert_eq!(
        tier.write_piece_sync(&job, WriteEvent::Opened { ok: false }),
        WriteStep::Failed
    );
    assert_eq!(tier.write_piece_sync(&job, WriteEvent::Start), WriteStep::Open);
    assert_eq!(
        tier.write_piece_sync(&job, WriteEvent::Opened { ok: true }),
        WriteStep::Grow { len: 4096 }
    );
    assert_eq!(tier.write_piece_sync(&job, WriteEvent::Grown { ok: false }), WriteStep::Failed);
    assert_eq!(
        tier.write_piece_sync(&job, WriteEvent::Start),
        WriteStep::Grow { len: 4096 }
    );
    assert_eq!(
        tier.write_piece_sync(&job, WriteEvent::Grown { ok: true }),
        WriteStep::Write { offset: 0 }
    );
    assert_eq!(
        tier.write_piece_sync(&job, WriteEvent::Written { ok: false }),
        WriteStep::Failed
    );
    assert!(!tier.has_piece(HASH, 0));
}

#[test]
fn an_unregistered_torrent_is_not_written() {
    let mut tier = WarmTier::new("/warm".to_string());
    assert!(tier.begin_write(HASH, 0, 4).is_none());
    tier.register(HASH, 100);
    tier.register(UPPER, 999_999);
    assert_eq!(tier.begin_write(HASH, 0, 4).expect("registered").piece_length, 100);
    store(&mut tier, HASH, 0, 4);
    assert_eq!(tier.remove(UPPER), format!("/warm/{}", HASH));
    assert!(!tier.has_piece(HASH, 0));
    assert!(tier.begin_write(HASH, 0, 4).is_none());
    tier.register(HASH, 5000);
    assert_eq!(tier.begin_write(HASH, 0, 4).expect("registered").piece_length, 5000);
}

#[test]
fn slots_that_cannot_be_addressed() {
    let job = |piece_idx: i32, piece_length: u64| WriteJob {
        info_hash: HASH.to_string(),
        piece_idx,
        data_len: 1,
        piece_length,
    };
    assert!(job(i32::MAX, 1 << 24).fits());
    assert!(!job(-1, 1).fits());
    assert!(job(-1, 0).fits());
    assert!(!job(0, u64::MAX).fits());
    assert!(!job(i32::MAX, 1 << 40).fits());
}

#[test]
fn paths_of_flat_files() {
    let tier = WarmTier::new("/warm/".to_string());
    let job = WriteJob {
        info_hash: HASH.to_string(),
        piece_idx: 0,
        data_len: 1,
        piece_length: 1,
    };
    assert_eq!(tier.torrent_dir(&job), format!("/warm/{}", HASH));
    assert_eq!(tier.flat_file(&job), format!("/warm/{}/pieces.flat", HASH));
    assert_eq!(join("a", "b"), "a/b");
    assert_eq!(join("a/", "b"), "a/b");
    assert_eq!(join("", "b"), "b");
    assert_eq!(join("a", "/b"), "/b");
    assert_eq!(join("a", ""), "a/");
}

#[test]
fn a_persisted_piece_is_found_in_the_warm_tier() {
    let mut cache = cache_of(1024);
    cache.register_torrent(UPPER, 5000);
    let job = cache.warm().begin_write(HASH, 7, 4321).expect("registered");
    assert!(job.fits());
    assert!(matches!(cache.get_sync(HASH, 7), Lookup::Nowhere));
    assert_eq!(cache.persist(&job, WriteEvent::Start), WriteStep::Open);
    cache.persist(&job, WriteEvent::Opened { ok: true });
    cache.persist(&job, WriteEvent::Grown { ok: true });
    assert_eq!(cache.persist(&job, WriteEvent::Written { ok: true }), WriteStep::Persisted);
    assert!(cache.has_piece_sync(UPPER, 7));
    match cache.get_sync(UPPER, 7) {
        Lookup::Warm(plan) => {
            assert_eq!((plan.info_hash.as_str(), plan.offset, plan.len), (HASH, 7 * 8192, 4321))
        }
        _ => panic!("expected the warm tier"),
    }
    // The hot tier comes first.
    cache.put(HASH, 7, Bytes::from_static(b"hot"));
    assert_eq!(hot(&mut cache, HASH, 7), Some(b"hot".to_vec()));
}

#[test]
fn pins_are_counted() {
    let mut cache = cache_of(1024);
    let key = (HASH.to_string(), 5);
    let other = (HASH.to_string(), 6);
    let first = cache.pin_piece(UPPER, 5);
    let second = cache.try_pin_piece(HASH, 5).expect("room for a pin");
    assert_eq!(cache.pins().count(&key), 2);
    assert_eq!(cache.pins().count(&other), 0);
    cache.release(&first);
    assert_eq!(cache.pins().count(&key), 1);
    cache.release(&second);
    assert_eq!(cache.pins().count(&key), 0);
    cache.release(&second);
    assert_eq!(cache.pins().count(&key), 0);
}

#[test]
fn unpinning_an_unpinned_piece_does_nothing() {
    let mut pins = PinCounts::new();
    let key = (HASH.to_string(), 1);
    pins.unpin(&key);
    assert_eq!(pins.count(&key), 0);
    pins.pin(&key);
    pins.unpin(&key);
    assert_eq!(pins.count(&key), 0);
}

#[test]
fn only_written_and_unpinned_pieces_are_freed() {
    let mut pins = PinCounts::new();
    let mut drain = DrainTask::new();
    let hash = HASH.to_string();
    assert_eq!(drain.next_receive(), Receive::Block);

    // Not written: kept for good.
    assert!(drain.on_written(&hash, 1, WriteStep::Failed, &pins).is_none());
    assert_eq!(drain.next_receive(), Receive::Block);

    // Written and unpinned: freed at once.
    let freed = drain.on_written(&hash, 2, WriteStep::Persisted, &pins).expect("freed");
    assert_eq!((freed.info_hash.as_str(), freed.piece_idx), (HASH, 2));
    assert_eq!(drain.next_receive(), Receive::Block);

    // Written but pinned: deferred until the pins are gone.
    pins.pin(&(hash.clone(), 3));
    pins.pin(&(hash.clone(), 4));
    pins.pin(&(hash.clone(), 5));
    assert!(drain.on_written(&hash, 3, WriteStep::Persisted, &pins).is_none());
    assert!(drain.on_written(&hash, 4, WriteStep::Persisted, &pins).is_none());
    assert!(drain.on_written(&hash, 5, WriteStep::Persisted, &pins).is_none());
    assert_eq!(drain.next_receive(), Receive::Within { millis: 50 });
    assert!(drain.retry_deferred(&pins).is_empty());
    pins.unpin(&(hash.clone(), 5));
    pins.unpin(&(hash.clone(), 3));
    let freed: Vec<i32> = drain.retry_deferred(&pins).iter().map(|d| d.piece_idx).collect();
    assert_eq!(freed, vec![3, 5]);
    assert_eq!(drain.next_receive(), Receive::Within { millis: 50 });
    pins.unpin(&(hash.clone(), 4));
    let freed: Vec<i32> = drain.retry_deferred(&pins).iter().map(|d| d.piece_idx).collect();
    assert_eq!(freed, vec![4]);
    assert_eq!(drain.next_receive(), Receive::Block);
}

#[test]
fn what_follows_a_wait_of_the_drain() {
    let piece = EvictedPiece {
        info_hash: HASH.to_string(),
        piece_idx: 8,
        data: Bytes::from_static(b"data"),
    };
    match DrainTask::on_received(Received::Piece(piece)) {
        DrainStep::Persist(p) => {
            assert_eq!(p.piece_idx, 8);
            assert_eq!(p.data, Bytes::from_static(b"data"));
        }
        _ => panic!("expected a piece"),
    }
    assert!(matches!(DrainTask::on_received(Received::TimedOut), DrainStep::Retry));
    assert!(matches!(DrainTask::on_received(Received::Disconnected), DrainStep::Stop));
}

#[test]
fn hashes_outside_ascii_are_folded_too() {
    let mut cache = cache_of(1024);
    cache.put("\u{c4}B", 0, Bytes::from_static(b"umlaut"));
    assert_eq!(hot(&mut cache, "\u{e4}b", 0), Some(b"umlaut".to_vec()));
}

#[test]
fn what_leaves_the_hot_tier_arrives_or_is_still_there() {
    let config = HybridCacheConfig { max_hot_bytes: 100, warm_dir: "/warm".to_string() };
    let (mut cache, queue) = HybridPieceCache::new(config);
    for i in 0..1000 {
        cache.put(HASH, i, Bytes::from(vec![(i % 251) as u8; 10]));
    }
    let mut handed = vec![false; 1000];
    while let Ok(piece) = queue.try_recv() {
        assert_eq!(piece.data.to_vec(), vec![(piece.piece_idx % 251) as u8; 10]);
        handed[piece.piece_idx as usize] = true;
    }
    for i in 0..1000 {
        assert!(handed[i as usize] || cache.has_piece_sync(HASH, i));
    }
}

#[test]
fn a_replaced_piece_is_handed_on() {
    let config = HybridCacheConfig { max_hot_bytes: 100, warm_dir: "/warm".to_string() };
    let (mut cache, queue) = HybridPieceCache::new(config);
    cache.put(HASH, 0, Bytes::from_static(b"old"));
    cache.put(HASH, 0, Bytes::from_static(b"new"));
    let piece = queue.try_recv().expect("handed on");
    assert_eq!((piece.piece_idx, piece.data), (0, Bytes::from_static(b"old")));
    assert_eq!(hot(&mut cache, HASH, 0), Some(b"new".to_vec()));
}

#[test]
fn a_removed_torrent_stays_away() {
    let mut cache = cache_of(1 << 20);
    for i in 0..300 {
        cache.put(UPPER, i, Bytes::from_static(b"x"));
    }
    cache.put(OTHER, 0, Bytes::from_static(b"theirs"));
    cache.remove_torrent(HASH);
    for _ in 0..10 {
        for i in 0..300 {
            assert!(matches!(cache.get_sync(HASH, i), Lookup::Nowhere));
        }
    }
    assert_eq!(hot(&mut cache, OTHER, 0), Some(b"theirs".to_vec()));
}

#[test]
fn a_torrent_put_again_before_its_removal_stays_away() {
    let mut cache = cache_of(1 << 20);
    for _ in 0..3 {
        for i in 0..300 {
            cache.put(HASH, i, Bytes::from_static(b"x"));
        }
    }
    cache.remove_torrent(UPPER);
    for i in 0..80 {
        cache.put(OTHER, i, Bytes::from_static(b"theirs"));
    }
    for _ in 0..10 {
        for i in 0..300 {
            assert!(matches!(cache.get_sync(HASH, i), Lookup::Nowhere));
        }
    }
    assert_eq!(hot(&mut cache, OTHER, 79), Some(b"theirs".to_vec()));
}

#[test]
fn later_puts_do_not_bring_a_removed_torrent_back() {
    let mut cache = cache_of(1 << 20);
    for i in 0..100 {
        cache.put(HASH, i, Bytes::from_static(b"x"));
    }
    cache.remove_torrent(HASH);
    for _ in 0..2 {
        for i in 0..1000 {
            cache.put(OTHER, i, Bytes::from_static(b"theirs"));
            assert!(!cache.has_piece_sync(HASH, i % 100));
        }
    }
    for i in 0..100 {
        assert!(matches!(cache.get_sync(HASH, i), Lookup::Nowhere));
    }
    assert_eq!(hot(&mut cache, OTHER, 999), Some(b"theirs".to_vec()));
}

#[test]
fn the_hot_tier_keeps_to_its_size() {
    let mut cache = cache_of(10_000);
    for round in 0..2 {
        for i in 0..300 {
            cache.put(HASH, i, Bytes::from(vec![round; 1000]));
            let seen = (0..300).filter(|&j| cache.has_piece_sync(HASH, j)).count();
            assert!(seen * 1000 <= 10_000 + 64 * 1000);
        }
    }
    assert!(cache.stats().1 <= 10_000);
}

#[test]
fn a_piece_that_left_the_hot_tier_is_found_on_disk() {
    let config = HybridCacheConfig { max_hot_bytes: 64, warm_dir: "/warm".to_string() };
    let (mut cache, queue) = HybridPieceCache::new(config);
    cache.register_torrent(HASH, 16);
    let mut disk: Vec<u8> = Vec::new();
    for i in 0..500 {
        cache.put(HASH, i, Bytes::from(vec![(i % 251) as u8; 16]));
    }
    while let Ok(piece) = queue.try_recv() {
        let warm = cache.warm();
        let job = warm.begin_write(&piece.info_hash, piece.piece_idx, 16).expect("registered");
        let mut step = cache.persist(&job, WriteEvent::Start);
        loop {
            let event = match step {
                WriteStep::Open => WriteEvent::Opened { ok: true },
                WriteStep::Grow { len } => {
                    disk.resize(len as usize, 0);
                    WriteEvent::Grown { ok: true }
                }
                WriteStep::Write { offset } => {
                    let at = offset as usize;
                    disk[at..at + 16].copy_from_slice(&piece.data);
                    WriteEvent::Written { ok: true }
                }
                WriteStep::Persisted => break,
                WriteStep::Failed => panic!("nothing fails here"),
            };
            assert!(cache.warm().expects(&job, event));
            step = cache.persist(&job, event);
        }
    }
    for i in 0..500 {
        let expected = vec![(i % 251) as u8; 16];
        match cache.get_sync(UPPER, i) {
            Lookup::Hot(data) => assert_eq!(data.to_vec(), expected),
            Lookup::Warm(plan) => {
                let at = plan.offset as usize;
                assert_eq!(disk[at..at + plan.len].to_vec(), expected);
            }
            // Evicted by this very lookup, and not yet written.
            Lookup::Nowhere => {
                let piece = queue.try_iter().find(|p| p.piece_idx == i).expect("handed on");
                assert_eq!(piece.data.to_vec(), expected);
            }
        }
    }
}

#[test]
fn jobs_expect_their_events() {
    let mut tier = WarmTier::new("/warm".to_string());
    tier.register(HASH, 10);
    let job = tier.begin_write(HASH, 0, 4).expect("registered");
    assert!(tier.expects(&job, WriteEvent::Start));
    assert!(tier.expects(&job, WriteEvent::Opened { ok: true }));
    assert!(!tier.expects(&job, WriteEvent::Grown { ok: true }));
    tier.write_piece_sync(&job, WriteEvent::Opened { ok: true });
    assert!(!tier.expects(&job, WriteEvent::Opened { ok: true }));
    assert!(tier.expects(&job, WriteEvent::Grown { ok: true }));
    assert!(!tier.expects(&job, WriteEvent::Written { ok: true }));
    tier.write_piece_sync(&job, WriteEvent::Grown { ok: true });
    assert!(tier.expects(&job, WriteEvent::Written { ok: true }));
    tier.remove(HASH);
    assert!(!tier.expects(&job, WriteEvent::Written { ok: true }));
    assert!(!tier.expects(&job, WriteEvent::Start));
}

#[test]
fn pins_released_in_another_order() {
    let mut cache = cache_of(1024);
    let a = cache.pin_piece(HASH, 1);
    let b = cache.pin_piece(HASH, 2);
    let c = cache.pin_piece(UPPER, 1);
    assert_eq!(cache.pins().count(&(HASH.to_string(), 1)), 2);
    cache.release(&b);
    cache.release(&a);
    assert_eq!(cache.pins().count(&(HASH.to_string(), 1)), 1);
    cache.release(&c);
    assert_eq!(cache.pins().count(&(HASH.to_string(), 1)), 0);
    assert_eq!(cache.pins().count(&(HASH.to_string(), 2)), 0);
}

#[test]
fn a_closed_cache_leaves_the_drain_its_state() {
    let mut cache = cache_of(1024);
    cache.register_torrent(HASH, 10);
    let _pin = cache.pin_piece(HASH, 3);
    let (warm, pins) = cache.close();
    assert_eq!(warm.begin_write(HASH, 0, 4).expect("registered").piece_length, 10);
    assert_eq!(pins.count(&(HASH.to_string(), 3)), 1);
}

#[test]
fn stored_pieces_survive_other_writes() {
    let mut tier = WarmTier::new("/warm".to_string());
    tier.register(HASH, 10);
    tier.register(OTHER, 20);
    let mut disk: Vec<u8> = Vec::new();
    let mut write = |tier: &mut WarmTier, idx: i32, data: Vec<u8>| {
        for step in store(tier, HASH, idx, data.len()) {
            match step {
                WriteStep::Grow { len } => disk.resize(len as usize, 0),
                WriteStep::Write { offset } => {
                    disk[offset as usize..offset as usize + data.len()].copy_from_slice(&data)
                }
                _ => {}
            }
        }
    };
    write(&mut tier, 5, b"kept".to_vec());
    for i in [9, 4, 6, 0, 12] {
        write(&mut tier, i, vec![i as u8; 10]);
    }
    store(&mut tier, OTHER, 5, 20);
    tier.remove(OTHER);
    let plan = tier.get_piece_sync(UPPER, 5).expect("stored");
    assert_eq!(disk[plan.offset as usize..plan.offset as usize + plan.len].to_vec(), b"kept");
    assert!(tier.get_piece_sync(HASH, 7).is_none());
}
