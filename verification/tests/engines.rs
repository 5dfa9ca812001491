use enginefs::engine::elapsed_secs;
use enginefs::engine::Engine;
use enginefs::engine::EngineState;
use enginefs::engine_fs::BackendEngineFS;
use enginefs::engine_fs::Directories;
use enginefs::engine_fs::EngineSource;
use enginefs::files::FileHandle;
use enginefs::grace::verdict;
use enginefs::grace::GraceTask;
use enginefs::grace::Verdict;
use enginefs::table::Table;
use enginefs::trackers::default_trackers;
use enginefs::trackers::merge_trackers;

type Registry = BackendEngineFS<&'static str, u32, &'static str>;

fn registry() -> Registry {
    Registry::new_with_backend(
        "backend",
        vec![("aa".to_string(), 1), ("bb".to_string(), 2)],
        "/cache".to_string(),
        "/downloads".to_string(),
    )
}

fn state(active_streams: usize, inactive_since: i64, last_accessed: i64) -> EngineState {
    EngineState { active_streams, inactive_since, last_accessed }
}

#[test]
fn a_new_registry() {
    let r = registry();
    assert_eq!(*r.get_backend(), "backend");
    assert_eq!(r.setup.cache_dir, "/cache");
    assert_eq!(r.setup.download_dir, "/downloads");
    assert_eq!(r.setup.grace_pause_secs, 30);
    assert_eq!(r.setup.grace_remove_secs, 60);
    assert!(r.setup.tracker_storage.is_none());
    assert_eq!(r.get_engine("AA"), Some(&1));
    assert_eq!(r.get_engine("bb"), Some(&2));
    assert_eq!(r.get_engine("cc"), None);
    let mut keys = r.list_engines();
    keys.sort();
    assert_eq!(keys, vec!["aa".to_string(), "bb".to_string()]);
}

#[test]
fn configured_registries() {
    let dirs = Directories::libtorrent("/root");
    assert_eq!(dirs.download_dir, "/root/libtorrent-downloads");
    assert_eq!(dirs.cache_dir, "/root/libtorrent-downloads");
    assert_eq!(dirs.disk_cache_dir, Some("/root/disk-cache".to_string()));
    let r = Registry::new_with_storage("backend", &dirs, 7, 9, Some("storage"));
    assert_eq!((r.setup.grace_pause_secs, r.setup.grace_remove_secs), (7, 9));
    assert_eq!(r.setup.tracker_storage, Some("storage"));
    assert_eq!(r.setup.cache_dir, "/root/libtorrent-downloads");
    assert!(r.list_engines().is_empty());
    let dirs = Directories::librqbit("/root/");
    assert_eq!(dirs.download_dir, "/root/rqbit-downloads");
    assert_eq!(dirs.cache_dir, "/root/cache");
    assert_eq!(dirs.disk_cache_dir, None);
    let r = Registry::new("backend", &dirs, 1, 2);
    assert_eq!(r.setup.tracker_storage, None);
    assert_eq!((r.setup.grace_pause_secs, r.setup.grace_remove_secs), (1, 2));
}

#[test]
fn of_two_restored_engines_the_later_stands() {
    let r = Registry::new_with_backend_and_storage(
        "backend",
        vec![("aa".to_string(), 1), ("aa".to_string(), 2)],
        "/cache".to_string(),
        "/downloads".to_string(),
        None,
    );
    assert_eq!(r.get_engine("aa"), Some(&2));
    assert_eq!(r.list_engines().len(), 1);
}

#[test]
fn adding_and_removing_engines() {
    let mut r = registry();
    assert_eq!(r.add_torrent("cc".to_string(), 3), None);
    assert_eq!(r.add_torrent("cc".to_string(), 4), Some(&3));
    assert_eq!(r.get_engine("CC"), Some(&3));
    // Keys are stored as the backend names them and looked up in lower case.
    assert_eq!(r.add_torrent("DD".to_string(), 5), None);
    assert_eq!(r.get_engine("DD"), None);
    assert_eq!(r.engine(&"DD".to_string()), Some(&5));
    match r.get_or_add_engine("AA") {
        EngineSource::Known(e) => assert_eq!(*e, 1),
        EngineSource::Magnet(_) => panic!("known"),
    }
    match r.get_or_add_engine("Ee") {
        EngineSource::Magnet(link) => assert_eq!(link, "magnet:?xt=urn:btih:Ee"),
        EngineSource::Known(_) => panic!("unknown"),
    }
    r.remove_engine("AA");
    assert_eq!(r.get_engine("aa"), None);
    assert_eq!(r.remove_engine_and_files("BB"), "bb");
    assert_eq!(r.get_engine("bb"), None);
    r.remove_engines(&vec!["DD".to_string(), "zz".to_string()]);
    assert_eq!(r.list_engines(), vec!["cc".to_string()]);
}

#[test]
fn one_file_is_active_at_a_time() {
    let mut r = registry();
    assert_eq!(r.on_stream_start("AA", 0), None);
    assert_eq!(r.on_stream_start("aa", 0), None);
    assert_eq!(r.on_stream_start("aa", 1), Some(("aa".to_string(), 0)));
    assert_eq!(r.try_on_stream_start("bb", 1), Some(Some(("aa".to_string(), 1))));
    assert_eq!(r.try_on_stream_start("BB", 1), Some(None));
}

#[test]
fn the_last_stream_of_a_file_is_cleaned_up() {
    let mut r = registry();
    r.on_stream_start("aa", 0);
    r.on_stream_start("aa", 0);
    assert_eq!(r.on_stream_end("AA", 0), None);
    assert_eq!(r.on_stream_end("aa", 0), Some(("aa".to_string(), 0)));
    r.finish_file_cleanup(&("aa".to_string(), 0));
    // No file is active, so nothing makes way.
    assert_eq!(r.on_stream_start("bb", 0), None);
    // An end without a start is cleaned up as well.
    assert_eq!(r.on_stream_end("aa", 5), Some(("aa".to_string(), 5)));
    r.finish_file_cleanup(&("aa".to_string(), 5));
    assert_eq!(r.on_stream_start("aa", 0), Some(("bb".to_string(), 0)));
}

#[test]
fn a_reconnect_keeps_the_file_active() {
    let mut r = registry();
    r.on_stream_start("aa", 0);
    let cleanup = r.on_stream_end("aa", 0).expect("last stream");
    r.on_stream_start("aa", 0);
    r.finish_file_cleanup(&cleanup);
    assert_eq!(r.on_stream_start("bb", 0), Some(("aa".to_string(), 0)));
}

#[test]
fn engines_count_their_streams() {
    let mut e = Engine::new_with_handle("handle", "aa", 17);
    assert_eq!(e.handle, "handle");
    assert_eq!(e.info_hash, "aa");
    assert_eq!(e.state, state(0, 0, 17));
    e.touch(20);
    assert_eq!(e.state.last_accessed, 20);
    e.state = state(2, -1, 20);
    e.stream_closed(30);
    assert_eq!(e.state, state(1, -1, 20));
    e.stream_closed(40);
    assert_eq!(e.state, state(0, 40, 20));
    e.stream_closed(50);
    assert_eq!(e.state, state(usize::MAX, 40, 20));
    assert_eq!(elapsed_secs(123), 123);
    assert!(0 <= elapsed_secs(5) && elapsed_secs(5) <= elapsed_secs(6));
}

#[test]
fn a_file_handle_holds_what_it_was_given() {
    let f = FileHandle::new(5, "name".to_string(), "stream", 7);
    assert_eq!((f.size, f.name.as_str(), f.stream, f.engine), (5, "name", "stream", 7));
}

#[test]
fn verdicts() {
    let v = |s: EngineState, paused: bool, now: i64| verdict(s, paused, now, 30, 60);
    // Streamed.
    assert_eq!(v(state(1, 5, 0), false, 1000), Verdict::Active);
    assert_eq!(v(state(0, -1, 0), false, 1000), Verdict::Keep);
    // Never streamed.
    assert_eq!(v(state(0, 0, 100), false, 399), Verdict::Keep);
    assert_eq!(v(state(0, 0, 100), false, 400), Verdict::Remove);
    assert_eq!(v(state(0, 0, 100), false, 50), Verdict::Keep);
    // Inactive.
    assert_eq!(v(state(0, 100, 0), false, 129), Verdict::Keep);
    assert_eq!(v(state(0, 100, 0), false, 130), Verdict::Pause);
    assert_eq!(v(state(0, 100, 0), true, 130), Verdict::Keep);
    assert_eq!(v(state(0, 100, 0), true, 160), Verdict::Remove);
    assert_eq!(v(state(0, 100, 0), false, 160), Verdict::Remove);
    assert_eq!(v(state(0, 100, 0), false, 90), Verdict::Keep);
    // Removal goes before the pause.
    assert_eq!(verdict(state(0, 100, 0), false, 150, 60, 30), Verdict::Remove);
}

#[test]
fn an_engine_is_paused_once_per_inactivity() {
    let mut g = GraceTask::new();
    let name = |h: &str| h.to_string();
    let listing = vec![
        (name("aa"), state(0, 100, 0)),
        (name("bb"), state(1, -1, 0)),
        (name("cc"), state(0, 0, 0)),
        (name("dd"), state(0, 100, 0)),
    ];
    let actions = g.tick(&listing, 135, 30, 60);
    assert_eq!(actions.to_pause, vec![name("aa"), name("dd")]);
    assert!(actions.to_remove.is_empty());
    // One of the two could be paused.
    g.note_paused(name("aa"));
    let actions = g.tick(&listing, 140, 30, 60);
    assert_eq!(actions.to_pause, vec![name("dd")]);
    // A stream clears the mark.
    let streamed = vec![(name("aa"), state(1, -1, 0))];
    let actions = g.tick(&streamed, 145, 30, 60);
    assert!(actions.to_pause.is_empty() && actions.to_remove.is_empty());
    let actions = g.tick(&vec![(name("aa"), state(0, 146, 0))], 180, 30, 60);
    assert_eq!(actions.to_pause, vec![name("aa")]);
    // In the end they go.
    let actions = g.tick(&listing, 300, 30, 60);
    assert_eq!(actions.to_remove, vec![name("aa"), name("cc"), name("dd")]);
    assert!(actions.to_pause.is_empty());
}

#[test]
fn a_removed_engine_loses_its_mark() {
    let mut g = GraceTask::new();
    let name = |h: &str| h.to_string();
    g.note_paused(name("aa"));
    g.tick(&vec![(name("aa"), state(0, 100, 0))], 500, 30, 60);
    let actions = g.tick(&vec![(name("aa"), state(0, 500, 0))], 531, 30, 60);
    assert_eq!(actions.to_pause, vec![name("aa")]);
}

#[test]
fn trackers_are_sorted_and_unique() {
    let defaults = default_trackers();
    assert_eq!(defaults.len(), 10);
    assert_eq!(defaults[0], "udp://tracker.opentrackr.org:1337/announce");
    assert_eq!(defaults[9], "udp://ipv4.tracker.harry.lu:80/announce");
    let cached = vec![
        "zzz".to_string(),
        "udp://9.rarbg.com:2810/announce".to_string(),
        "\u{e4}".to_string(),
        "zz".to_string(),
    ];
    let extra = Some(vec!["zzz".to_string(), "".to_string(), "Z".to_string()]);
    let merged = merge_trackers(&cached, &extra);
    let mut expected = defaults;
    expected.extend(cached);
    expected.extend(extra.expect("given"));
    expected.sort();
    expected.dedup();
    assert_eq!(merged, expected);
    assert_eq!(merge_trackers(&Vec::new(), &None).len(), 10);
}

#[test]
fn tables_keep_one_value_per_key() {
    let mut t: Table<String, u32> = Table::new();
    t.insert("a".to_string(), 1);
    t.insert("b".to_string(), 2);
    t.insert("a".to_string(), 3);
    assert_eq!(t.len(), 2);
    assert_eq!((t.key(0).as_str(), *t.value(0)), ("a", 3));
    assert_eq!((t.key(1).as_str(), *t.value(1)), ("b", 2));
    if let Some(v) = t.get_mut(&"b".to_string()) {
        *v = 9;
    }
    assert_eq!(t.get(&"b".to_string()), Some(&9));
    assert!(t.contains(&"a".to_string()));
    assert_eq!(t.remove(&"a".to_string()), Some(3));
    assert_eq!(t.remove(&"a".to_string()), None);
    assert!(!t.contains(&"a".to_string()));
    assert!(t.get_mut(&"a".to_string()).is_none());
}
