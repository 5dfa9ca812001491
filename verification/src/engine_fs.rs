//! The registry of engines and of the streams that are open on them.
//!
//! Only one file is downloaded for streaming at a time: when a stream starts on
//! another file, the caller is told which file to stop.

use crate::grace;
use crate::info_hash;
use crate::paths;
use crate::table;
use crate::table::Table;
use vstd::prelude::*;
use vstd::string::StringExecFns;

verus! {

/// Seconds of inactivity before downloads are paused, unless configured otherwise.
pub const DEFAULT_PAUSE_SECS: u64 = 30;

/// Seconds of inactivity before a torrent is removed, unless configured otherwise.
pub const DEFAULT_REMOVE_SECS: u64 = 60;

/// Seconds between the end of the last stream of a file and its cleanup.
pub const CLEANUP_DELAY_SECS: u64 = 5;

/// The value of a counter; one that is not there counts zero.
pub open spec fn count_in<K>(m: Map<K, usize>, k: K) -> usize {
    if m.contains_key(k) {
        m[k]
    } else {
        0
    }
}

/// The counters with one counted up.
pub open spec fn counted_up<K>(m: Map<K, usize>, k: K) -> Map<K, usize> {
    m.insert(k, (count_in(m, k) + 1) as usize)
}

/// The counters with one counted down; a counter at zero is dropped.
pub open spec fn counted_down<K>(m: Map<K, usize>, k: K) -> Map<K, usize> {
    if count_in(m, k) <= 1 {
        m.remove(k)
    } else {
        m.insert(k, (count_in(m, k) - 1) as usize)
    }
}

/// No counter stands at zero.
pub open spec fn all_positive<K>(m: Map<K, usize>) -> bool {
    forall|k: K| #[trigger] m.contains_key(k) ==> m[k] > 0
}

/// The entries that restored torrents make; of two with one hash the later stands.
pub open spec fn entries_of<E>(s: Seq<(String, E)>) -> Map<Seq<char>, E>
    decreases s.len(),
{
    if s.len() == 0 {
        Map::empty()
    } else {
        entries_of(s.drop_last()).insert(s.last().0@, s.last().1)
    }
}

/// The engines but for those on a list.
pub open spec fn without_listed<E>(m: Map<Seq<char>, E>, listed: Seq<Seq<char>>) -> Map<
    Seq<char>,
    E,
> {
    Map::new(|h: Seq<char>| m.contains_key(h) && !listed.contains(h), |h: Seq<char>| m[h])
}

/// Engines and streams.
#[verifier::ext_equal]
pub struct FsModel<E> {
    pub engines: Map<Seq<char>, E>,
    /// Open streams by torrent.
    pub streams: Map<Seq<char>, usize>,
    /// Open streams by file.
    pub file_streams: Map<(Seq<char>, usize), usize>,
    /// The file that is being downloaded for streaming.
    pub active_file: Option<(Seq<char>, usize)>,
}

impl<E> FsModel<E> {
    pub open spec fn valid(self) -> bool {
        all_positive(self.streams) && all_positive(self.file_streams)
    }

    /// After a stream started on a file.
    pub open spec fn started(self, hash: Seq<char>, file_idx: usize) -> FsModel<E> {
        FsModel {
            streams: counted_up(self.streams, hash),
            file_streams: counted_up(self.file_streams, (hash, file_idx)),
            active_file: Some((hash, file_idx)),
            ..self
        }
    }

    /// Another stream on the file can be counted.
    pub open spec fn can_start(self, hash: Seq<char>, file_idx: usize) -> bool {
        &&& count_in(self.streams, hash) < usize::MAX
        &&& count_in(self.file_streams, (hash, file_idx)) < usize::MAX
    }

    /// The file that has to make way for another one.
    pub open spec fn displaced(self, hash: Seq<char>, file_idx: usize) -> Option<
        (Seq<char>, usize),
    > {
        match self.active_file {
            Some(f) => if f != (hash, file_idx) {
                Some(f)
            } else {
                None
            },
            None => None,
        }
    }

    /// After a stream on a file ended.
    pub open spec fn ended(self, hash: Seq<char>, file_idx: usize) -> FsModel<E> {
        FsModel {
            streams: counted_down(self.streams, hash),
            file_streams: counted_down(self.file_streams, (hash, file_idx)),
            ..self
        }
    }

    /// After the cleanup of a file: a file without streams is no longer active.
    pub open spec fn cleaned(self, hash: Seq<char>, file_idx: usize) -> FsModel<E> {
        if count_in(self.file_streams, (hash, file_idx)) == 0 && self.active_file == Some(
            (hash, file_idx),
        ) {
            FsModel { active_file: None, ..self }
        } else {
            self
        }
    }
}

/// A file by torrent and index.
pub open spec fn file_id(f: Option<(String, usize)>) -> Option<(Seq<char>, usize)> {
    match f {
        Some(f) => Some((f.0@, f.1)),
        None => None,
    }
}

/// What to do for a torrent that is asked for.
pub enum EngineSource<'a, E> {
    /// The engine exists.
    Known(&'a E),
    /// The torrent is to be added with this magnet link.
    Magnet(String),
}

/// The directories under the root of a service.
pub struct Directories {
    pub download_dir: String,
    pub cache_dir: String,
    /// Where completed files are kept, for backends that keep them.
    pub disk_cache_dir: Option<String>,
}

impl Directories {
    /// Directories of a service that keeps pieces in memory.
    pub fn libtorrent(root_dir: &str) -> (d: Directories)
        ensures
            d.download_dir@ == paths::joined(root_dir@, "libtorrent-downloads"@),
            d.cache_dir@ == d.download_dir@,
            d.disk_cache_dir matches Some(c) && c@ == paths::joined(root_dir@, "disk-cache"@),
    {
        let download_dir = paths::join(root_dir, "libtorrent-downloads");
        let cache_dir = download_dir.clone();
        Directories {
            download_dir,
            cache_dir,
            disk_cache_dir: Some(paths::join(root_dir, "disk-cache")),
        }
    }

    /// Directories of a service that downloads to disk.
    pub fn librqbit(root_dir: &str) -> (d: Directories)
        ensures
            d.download_dir@ == paths::joined(root_dir@, "rqbit-downloads"@),
            d.cache_dir@ == paths::joined(root_dir@, "cache"@),
            d.disk_cache_dir is None,
    {
        Directories {
            download_dir: paths::join(root_dir, "rqbit-downloads"),
            cache_dir: paths::join(root_dir, "cache"),
            disk_cache_dir: None,
        }
    }
}

/// What a registry was set up with. `T` is how the caller stores trackers.
pub struct Setup<B, T> {
    pub backend: B,
    pub tracker_storage: Option<T>,
    pub cache_dir: String,
    pub download_dir: String,
    /// Seconds of inactivity before downloads are paused.
    pub grace_pause_secs: u64,
    /// Seconds of inactivity before a torrent is removed.
    pub grace_remove_secs: u64,
}

/// The registry. `E` is how the caller shares an engine.
pub struct BackendEngineFS<B, E, T> {
    pub setup: Setup<B, T>,
    engines: Table<String, E>,
    active_streams: Table<String, usize>,
    active_file_streams: Table<(String, usize), usize>,
    active_file: Option<(String, usize)>,
}

impl<B, E, T> View for BackendEngineFS<B, E, T> {
    type V = FsModel<E>;

    closed spec fn view(&self) -> FsModel<E> {
        FsModel {
            engines: self.engines@,
            streams: self.active_streams@,
            file_streams: self.active_file_streams@,
            active_file: file_id(self.active_file),
        }
    }
}

impl<B, E, T> BackendEngineFS<B, E, T> {
    pub closed spec fn wf(self) -> bool {
        &&& self.engines.wf()
        &&& self.active_streams.wf()
        &&& self.active_file_streams.wf()
        &&& self@.valid()
    }

    /// A well-formed registry has a valid model: no counter stands at zero.
    pub proof fn wf_is_valid(self)
        requires
            self.wf(),
        ensures
            self@.valid(),
    {
    }

    /// What the registry was set up with.
    pub closed spec fn config(self) -> Setup<B, T> {
        self.setup
    }

    /// A registry that starts out with restored engines.
    pub fn new_with_backend(
        backend: B,
        restored: Vec<(String, E)>,
        cache_dir: String,
        download_dir: String,
    ) -> (r: BackendEngineFS<B, E, T>)
        ensures
            r.wf(),
            r.config().backend == backend,
            r.config().tracker_storage is None,
            r.config().cache_dir == cache_dir,
            r.config().download_dir == download_dir,
            r.config().grace_pause_secs == DEFAULT_PAUSE_SECS,
            r.config().grace_remove_secs == DEFAULT_REMOVE_SECS,
            r@.engines == entries_of(restored@),
            r@.streams == Map::<Seq<char>, usize>::empty(),
            r@.file_streams == Map::<(Seq<char>, usize), usize>::empty(),
            r@.active_file is None,
    {
        Self::new_with_backend_and_storage(backend, restored, cache_dir, download_dir, None)
    }

    /// A registry that starts out with restored engines and stores its trackers.
    pub fn new_with_backend_and_storage(
        backend: B,
        restored: Vec<(String, E)>,
        cache_dir: String,
        download_dir: String,
        tracker_storage: Option<T>,
    ) -> (r: BackendEngineFS<B, E, T>)
        ensures
            r.wf(),
            r.config().backend == backend,
            r.config().tracker_storage == tracker_storage,
            r.config().cache_dir == cache_dir,
            r.config().download_dir == download_dir,
            r.config().grace_pause_secs == DEFAULT_PAUSE_SECS,
            r.config().grace_remove_secs == DEFAULT_REMOVE_SECS,
            r@.engines == entries_of(restored@),
            r@.streams == Map::<Seq<char>, usize>::empty(),
            r@.file_streams == Map::<(Seq<char>, usize), usize>::empty(),
            r@.active_file is None,
    {
        let ghost all = restored@;
        let mut engines: Table<String, E> = Table::new();
        let mut rest = restored;
        let ghost mut taken: int = 0;
        while rest.len() > 0
            invariant
                engines.wf(),
                0 <= taken <= all.len(),
                rest@ == all.skip(taken),
                engines@ == entries_of(all.take(taken)),
            decreases rest.len(),
        {
            proof {
                assert(all.take(taken + 1).drop_last() =~= all.take(taken));
                assert(all.take(taken + 1).last() == all[taken]);
            }
            let (hash, engine) = rest.remove(0);
            engines.insert(hash, engine);
            proof {
                taken = taken + 1;
            }
            assert(rest@ =~= all.skip(taken));
        }
        assert(all.take(taken) =~= all);
        BackendEngineFS {
            setup: Setup {
                backend,
                tracker_storage,
                cache_dir,
                download_dir,
                grace_pause_secs: DEFAULT_PAUSE_SECS,
                grace_remove_secs: DEFAULT_REMOVE_SECS,
            },
            engines,
            active_streams: Table::new(),
            active_file_streams: Table::new(),
            active_file: None,
        }
    }

    /// A registry without engines, with configured grace periods.
    pub fn new(backend: B, dirs: &Directories, pause_secs: u64, remove_secs: u64) -> (r:
        BackendEngineFS<B, E, T>)
        ensures
            r.wf(),
            r.config().backend == backend,
            r.config().tracker_storage is None,
            r.config().cache_dir@ == dirs.cache_dir@,
            r.config().download_dir@ == dirs.download_dir@,
            r.config().grace_pause_secs == pause_secs,
            r.config().grace_remove_secs == remove_secs,
            r@.engines == Map::<Seq<char>, E>::empty(),
            r@.streams == Map::<Seq<char>, usize>::empty(),
            r@.file_streams == Map::<(Seq<char>, usize), usize>::empty(),
            r@.active_file is None,
    {
        Self::new_with_storage(backend, dirs, pause_secs, remove_secs, None)
    }

    /// A registry without engines, with configured grace periods and a tracker
    /// storage.
    pub fn new_with_storage(
        backend: B,
        dirs: &Directories,
        pause_secs: u64,
        remove_secs: u64,
        tracker_storage: Option<T>,
    ) -> (r: BackendEngineFS<B, E, T>)
        ensures
            r.wf(),
            r.config().backend == backend,
            r.config().tracker_storage == tracker_storage,
            r.config().cache_dir@ == dirs.cache_dir@,
            r.config().download_dir@ == dirs.download_dir@,
            r.config().grace_pause_secs == pause_secs,
            r.config().grace_remove_secs == remove_secs,
            r@.engines == Map::<Seq<char>, E>::empty(),
            r@.streams == Map::<Seq<char>, usize>::empty(),
            r@.file_streams == Map::<(Seq<char>, usize), usize>::empty(),
            r@.active_file is None,
    {
        let mut efs = Self::new_with_backend_and_storage(
            backend,
            Vec::new(),
            dirs.cache_dir.clone(),
            dirs.download_dir.clone(),
            tracker_storage,
        );
        efs.setup.grace_pause_secs = pause_secs;
        efs.setup.grace_remove_secs = remove_secs;
        efs
    }

    /// Takes a torrent in that the backend has added. An engine that exists under
    /// its hash stays, and is returned so that its last access can be noted.
    pub fn add_torrent(&mut self, info_hash: String, fresh: E) -> (existing: Option<&E>)
        requires
            old(self).wf(),
        ensures
            final(self).wf(),
            final(self).config() == old(self).config(),
            match existing {
                Some(e) => {
                    &&& old(self)@.engines.contains_key(info_hash@)
                    &&& *e == old(self)@.engines[info_hash@]
                    &&& final(self)@ == old(self)@
                },
                None => {
                    &&& !old(self)@.engines.contains_key(info_hash@)
                    &&& final(self)@ == (FsModel {
                        engines: old(self)@.engines.insert(info_hash@, fresh),
                        ..old(self)@
                    })
                },
            },
    {
        if self.engines.contains(&info_hash) {
            return self.engines.get(&info_hash);
        }
        self.engines.insert(info_hash, fresh);
        None
    }

    /// The engine of a torrent.
    pub fn get_engine(&self, info_hash: &str) -> (r: Option<&E>)
        requires
            self.wf(),
        ensures
            match r {
                Some(e) => self@.engines.contains_key(info_hash::folded(info_hash@)) && *e
                    == self@.engines[info_hash::folded(info_hash@)],
                None => !self@.engines.contains_key(info_hash::folded(info_hash@)),
            },
    {
        let ih = info_hash::fold_hash(info_hash);
        self.engines.get(&ih)
    }

    /// The engine under exactly this key.
    pub fn engine(&self, key: &String) -> (r: Option<&E>)
        requires
            self.wf(),
        ensures
            match r {
                Some(e) => self@.engines.contains_key(key@) && *e == self@.engines[key@],
                None => !self@.engines.contains_key(key@),
            },
    {
        self.engines.get(key)
    }

    /// The engine of a torrent, or the magnet link to add the torrent with.
    pub fn get_or_add_engine(&self, info_hash: &str) -> (r: EngineSource<'_, E>)
        requires
            self.wf(),
        ensures
            match r {
                EngineSource::Known(e) => self@.engines.contains_key(info_hash::folded(info_hash@))
                    && *e == self@.engines[info_hash::folded(info_hash@)],
                EngineSource::Magnet(link) => !self@.engines.contains_key(
                    info_hash::folded(info_hash@),
                ) && link@ == "magnet:?xt=urn:btih:"@ + info_hash@,
            },
    {
        match self.get_engine(info_hash) {
            Some(e) => EngineSource::Known(e),
            None => {
                let mut link = "magnet:?xt=urn:btih:".to_owned();
                link.append(info_hash);
                EngineSource::Magnet(link)
            },
        }
    }

    /// Forgets the engine of a torrent.
    pub fn remove_engine(&mut self, info_hash: &str)
        requires
            old(self).wf(),
        ensures
            final(self).wf(),
            final(self).config() == old(self).config(),
            final(self)@ == (FsModel {
                engines: old(self)@.engines.remove(info_hash::folded(info_hash@)),
                ..old(self)@
            }),
    {
        let ih = info_hash::fold_hash(info_hash);
        self.engines.remove(&ih);
    }

    /// Forgets the engine of a torrent and returns the hash under which the backend
    /// is to delete the files. How the deletion ends does not bring the engine back.
    pub fn remove_engine_and_files(&mut self, info_hash: &str) -> (hash: String)
        requires
            old(self).wf(),
        ensures
            final(self).wf(),
            final(self).config() == old(self).config(),
            hash@ == info_hash::folded(info_hash@),
            final(self)@ == (FsModel { engines: old(self)@.engines.remove(hash@), ..old(self)@ }),
    {
        let ih = info_hash::fold_hash(info_hash);
        self.engines.remove(&ih);
        ih
    }

    /// Forgets the listed engines.
    pub fn remove_engines(&mut self, listed: &Vec<String>)
        requires
            old(self).wf(),
        ensures
            final(self).wf(),
            final(self).config() == old(self).config(),
            final(self)@ == (FsModel {
                engines: without_listed(old(self)@.engines, grace::hashes(listed@)),
                ..old(self)@
            }),
    {
        let ghost all = grace::hashes(listed@);
        let ghost before = self.engines@;
        let mut i: usize = 0;
        assert(self.engines@ =~= without_listed(before, all.take(0)));
        while i < listed.len()
            invariant
                i <= listed.len(),
                self.wf(),
                all == grace::hashes(listed@),
                self.engines@ == without_listed(before, all.take(i as int)),
                self.setup == old(self).setup,
                self.active_streams == old(self).active_streams,
                self.active_file_streams == old(self).active_file_streams,
                self.active_file == old(self).active_file,
            decreases listed.len() - i,
        {
            self.engines.remove(&listed[i]);
            proof {
                let shorter = all.take(i as int);
                let longer = all.take(i + 1);
                assert(longer =~= shorter.push(listed@[i as int]@));
                assert forall|h: Seq<char>| #[trigger] longer.contains(h) <==> shorter.contains(h)
                    || h == listed@[i as int]@ by {
                    if shorter.contains(h) {
                        let k = choose|k: int| 0 <= k < shorter.len() && shorter[k] == h;
                        assert(longer[k] == h);
                    }
                    assert(longer[i as int] == listed@[i as int]@);
                }
                assert(without_listed(before, longer) =~= without_listed(before, shorter).remove(
                    listed@[i as int]@,
                ));
            }
            i += 1;
        }
        assert(all.take(all.len() as int) =~= all);
    }

    /// The keys of all engines, each once.
    pub fn list_engines(&self) -> (r: Vec<String>)
        requires
            self.wf(),
        ensures
            grace::hashes(r@).no_duplicates(),
            forall|h: Seq<char>| #[trigger]
                grace::hashes(r@).contains(h) <==> self@.engines.contains_key(h),
    {
        let mut r: Vec<String> = Vec::new();
        let ghost pairs = self.engines.pairs();
        let mut i: usize = 0;
        while i < self.engines.len()
            invariant
                i <= pairs.len(),
                pairs == self.engines.pairs(),
                r@.len() == i,
                forall|j: int| 0 <= j < i ==> grace::hashes(r@)[j] == (#[trigger] pairs[j]).0,
            decreases pairs.len() - i,
        {
            r.push(self.engines.key(i).clone());
            i += 1;
        }
        proof {
            let keys = grace::hashes(r@);
            table::lemma_pairs_map(pairs);
            assert forall|h: Seq<char>| #[trigger] keys.contains(h) <==> self@.engines.contains_key(
                h,
            ) by {
                if keys.contains(h) {
                    let k = choose|k: int| 0 <= k < keys.len() && keys[k] == h;
                    assert(pairs[k].0 == h);
                }
                if self@.engines.contains_key(h) {
                    let k = choose|k: int| table::key_at(pairs, k, h);
                    assert(table::key_at(pairs, k, h));
                    assert(keys[k] == pairs[k].0);
                }
            }
            assert forall|j: int, k: int|
                0 <= j < keys.len() && 0 <= k < keys.len() && j != k implies keys[j] != keys[k] by {
                assert(keys[j] == pairs[j].0);
                assert(keys[k] == pairs[k].0);
            }
        }
        r
    }

    /// Counts a stream that starts on a file. The file becomes the active one; the
    /// one that was active before is returned when it is another, so that its
    /// download can be stopped.
    pub fn on_stream_start(&mut self, info_hash: &str, file_idx: usize) -> (displaced: Option<
        (String, usize),
    >)
        requires
            old(self).wf(),
            old(self)@.can_start(info_hash::folded(info_hash@), file_idx),
        ensures
            final(self).wf(),
            final(self).config() == old(self).config(),
            final(self)@ == old(self)@.started(info_hash::folded(info_hash@), file_idx),
            file_id(displaced) == old(self)@.displaced(info_hash::folded(info_hash@), file_idx),
    {
        let ih = info_hash::fold_hash(info_hash);
        let previous = self.active_file.take();
        let displaced = match previous {
            Some(f) => if f.0 != ih || f.1 != file_idx {
                Some(f)
            } else {
                None
            },
            None => None,
        };
        self.active_file = Some((ih.clone(), file_idx));
        let total: usize = counter(&self.active_streams, &ih);
        self.active_streams.insert(ih.clone(), total + 1);
        let key = (ih, file_idx);
        let on_file: usize = counter(&self.active_file_streams, &key);
        self.active_file_streams.insert(key, on_file + 1);
        assert(self@ =~= old(self)@.started(info_hash::folded(info_hash@), file_idx));
        displaced
    }

    /// Counts a stream that starts on a file, unless its counters are exhausted;
    /// then nothing changes and the result is none.
    pub fn try_on_stream_start(&mut self, info_hash: &str, file_idx: usize) -> (r: Option<
        Option<(String, usize)>,
    >)
        requires
            old(self).wf(),
        ensures
            final(self).wf(),
            final(self).config() == old(self).config(),
            match r {
                Some(displaced) => {
                    &&& old(self)@.can_start(info_hash::folded(info_hash@), file_idx)
                    &&& final(self)@ == old(self)@.started(info_hash::folded(info_hash@), file_idx)
                    &&& file_id(displaced) == old(self)@.displaced(
                        info_hash::folded(info_hash@),
                        file_idx,
                    )
                },
                None => {
                    &&& !old(self)@.can_start(info_hash::folded(info_hash@), file_idx)
                    &&& final(self)@ == old(self)@
                },
            },
    {
        let key = (info_hash::fold_hash(info_hash), file_idx);
        if counter(&self.active_streams, &key.0) == usize::MAX || counter(
            &self.active_file_streams,
            &key,
        ) == usize::MAX {
            return None;
        }
        Some(self.on_stream_start(info_hash, file_idx))
    }

    /// Counts a stream that ended on a file. When it was the last one on the file,
    /// the file is returned: it is to be cleaned up after `CLEANUP_DELAY_SECS`.
    pub fn on_stream_end(&mut self, info_hash: &str, file_idx: usize) -> (cleanup: Option<
        (String, usize),
    >)
        requires
            old(self).wf(),
        ensures
            final(self).wf(),
            final(self).config() == old(self).config(),
            final(self)@ == old(self)@.ended(info_hash::folded(info_hash@), file_idx),
            file_id(cleanup) == (if count_in(
                final(self)@.file_streams,
                (info_hash::folded(info_hash@), file_idx),
            ) == 0 {
                Some((info_hash::folded(info_hash@), file_idx))
            } else {
                None
            }),
    {
        let ih = info_hash::fold_hash(info_hash);
        let total: usize = counter(&self.active_streams, &ih);
        if total <= 1 {
            self.active_streams.remove(&ih);
        } else {
            self.active_streams.insert(ih.clone(), total - 1);
        }
        let key = (ih, file_idx);
        let on_file: usize = counter(&self.active_file_streams, &key);
        if on_file <= 1 {
            self.active_file_streams.remove(&key);
            assert(self@ =~= old(self)@.ended(info_hash::folded(info_hash@), file_idx));
            Some(key)
        } else {
            self.active_file_streams.insert(key, on_file - 1);
            assert(self@ =~= old(self)@.ended(info_hash::folded(info_hash@), file_idx));
            None
        }
    }

    /// Cleans a file up once its delay is over: if no stream was started on it in
    /// the meantime, it is no longer the active file.
    pub fn finish_file_cleanup(&mut self, file: &(String, usize))
        requires
            old(self).wf(),
        ensures
            final(self).wf(),
            final(self).config() == old(self).config(),
            final(self)@ == old(self)@.cleaned(file.0@, file.1),
    {
        if counter(&self.active_file_streams, file) > 0 {
            return ;
        }
        let is_active = match &self.active_file {
            Some(f) => f.0 == file.0 && f.1 == file.1,
            None => false,
        };
        if is_active {
            self.active_file = None;
        }
    }

    /// The backend, for direct access.
    pub fn get_backend(&self) -> (b: &B)
        ensures
            *b == self.config().backend,
    {
        &self.setup.backend
    }
}

/// The value of a counter.
fn counter<K: table::TableKey>(t: &Table<K, usize>, k: &K) -> (n: usize)
    requires
        t.wf(),
    ensures
        n == count_in(t@, k@),
{
    match t.get(k) {
        Some(n) => *n,
        None => 0,
    }
}

/// Ending a stream undoes what starting it did to the counters; the engines are
/// not touched by either.
pub proof fn ending_a_stream_undoes_starting_it<E>(
    m: FsModel<E>,
    hash: Seq<char>,
    file_idx: usize,
)
    requires
        m.valid(),
        m.can_start(hash, file_idx),
    ensures
        m.started(hash, file_idx).ended(hash, file_idx).streams == m.streams,
        m.started(hash, file_idx).ended(hash, file_idx).file_streams == m.file_streams,
        m.started(hash, file_idx).ended(hash, file_idx).engines == m.engines,
{
    let n = m.started(hash, file_idx).ended(hash, file_idx);
    assert(n.streams =~= m.streams);
    assert(n.file_streams =~= m.file_streams);
}

/// Streams of one file do not count for another.
pub proof fn files_are_counted_apart<E>(
    m: FsModel<E>,
    hash: Seq<char>,
    file_idx: usize,
    other: (Seq<char>, usize),
)
    requires
        other != (hash, file_idx),
    ensures
        count_in(m.started(hash, file_idx).file_streams, other) == count_in(m.file_streams, other),
        count_in(m.ended(hash, file_idx).file_streams, other) == count_in(m.file_streams, other),
{
}

/// There is one active file: the one on which a stream was started last. The file
/// that was active before makes way, unless it is the same.
pub proof fn the_last_started_file_is_active<E>(
    m: FsModel<E>,
    hash: Seq<char>,
    file_idx: usize,
    other_hash: Seq<char>,
    other_idx: usize,
)
    ensures
        m.started(hash, file_idx).active_file == Some((hash, file_idx)),
        m.started(hash, file_idx).displaced(hash, file_idx) is None,
        (other_hash, other_idx) != (hash, file_idx) ==> m.started(hash, file_idx).displaced(
            other_hash,
            other_idx,
        ) == Some((hash, file_idx)),
{
}

/// A stream that is started before the cleanup of its file keeps the file active.
pub proof fn a_reconnect_cancels_the_cleanup<E>(m: FsModel<E>, hash: Seq<char>, file_idx: usize)
    requires
        m.ended(hash, file_idx).can_start(hash, file_idx),
    ensures
        m.ended(hash, file_idx).started(hash, file_idx).cleaned(hash, file_idx) == m.ended(
            hash,
            file_idx,
        ).started(hash, file_idx),
{
}

/// Without a reconnect, the cleanup after the last stream leaves no active file.
/// The cleanup of a file that is not active changes nothing.
pub proof fn the_cleanup_ends_the_last_stream<E>(
    m: FsModel<E>,
    hash: Seq<char>,
    file_idx: usize,
)
    requires
        count_in(m.file_streams, (hash, file_idx)) <= 1,
    ensures
        m.active_file == Some((hash, file_idx)) ==> m.ended(hash, file_idx).cleaned(
            hash,
            file_idx,
        ).active_file is None,
        m.active_file != Some((hash, file_idx)) ==> m.ended(hash, file_idx).cleaned(hash, file_idx)
            == m.ended(hash, file_idx),
{
}

/// Every restored torrent has its engine, if no hash is restored twice.
pub proof fn restored_torrents_have_their_engines<E>(s: Seq<(String, E)>, i: int)
    requires
        forall|j: int, k: int| 0 <= j < k < s.len() ==> (#[trigger] s[j]).0@ != (#[trigger] s[k]).0@,
        0 <= i < s.len(),
    ensures
        entries_of(s).contains_key(s[i].0@),
        entries_of(s)[s[i].0@] == s[i].1,
    decreases s.len(),
{
    if i < s.len() - 1 {
        assert(s[i].0@ != s[s.len() - 1].0@);
        let rest = s.drop_last();
        assert forall|j: int, k: int| 0 <= j < k < rest.len() implies (#[trigger] rest[j]).0@ != (
        #[trigger] rest[k]).0@ by {
            assert(s[j].0@ != s[k].0@);
        }
        restored_torrents_have_their_engines(rest, i);
    }
}

/// A counter counts what its entry says, and zero without one. Counting up adds one,
/// counting down subtracts one and drops a counter that would stand at zero; other
/// counters stay.
pub proof fn counters_count_one_at_a_time<K>(m: Map<K, usize>, k: K, other: K)
    ensures
        m.contains_key(k) ==> count_in(m, k) == m[k],
        !m.contains_key(k) ==> count_in(m, k) == 0,
        counted_up(m, k).contains_key(k),
        !m.contains_key(k) ==> counted_up(m, k)[k] == 1,
        m.contains_key(k) && m[k] < usize::MAX ==> counted_up(m, k)[k] == m[k] + 1,
        !m.contains_key(k) ==> counted_down(m, k) == m,
        m.contains_key(k) && m[k] <= 1 ==> !counted_down(m, k).contains_key(k),
        m.contains_key(k) && m[k] > 1 ==> counted_down(m, k).contains_key(k) && counted_down(m, k)[k]
            == m[k] - 1,
        other != k ==> {
            &&& counted_up(m, k).contains_key(other) == m.contains_key(other)
            &&& counted_down(m, k).contains_key(other) == m.contains_key(other)
            &&& m.contains_key(other) ==> counted_up(m, k)[other] == m[other] && counted_down(
                m,
                k,
            )[other] == m[other]
        },
{
    if !m.contains_key(k) {
        assert(counted_down(m, k) =~= m);
    }
}

/// The value of a counter; one that is not there stands at zero.
pub open spec fn stands_at<K>(m: Map<K, usize>, k: K) -> int {
    if m.contains_key(k) {
        m[k] as int
    } else {
        0
    }
}

/// A stream that starts is counted once for its torrent and once for its file and makes
/// the file the active one; a stream that ends is counted off likewise and leaves the
/// active file alone. Neither touches engines, other torrents or other files.
pub proof fn what_a_stream_changes<E>(
    m: FsModel<E>,
    hash: Seq<char>,
    file_idx: usize,
    other: Seq<char>,
    other_file: (Seq<char>, usize),
)
    requires
        m.can_start(hash, file_idx),
    ensures
        ({
            let f = (hash, file_idx);
            let s = m.started(hash, file_idx);
            let e = m.ended(hash, file_idx);
            &&& s.engines == m.engines && e.engines == m.engines
            &&& s.active_file == Some(f)
            &&& e.active_file == m.active_file
            &&& stands_at(s.streams, hash) == stands_at(m.streams, hash) + 1
            &&& stands_at(s.file_streams, f) == stands_at(m.file_streams, f) + 1
            &&& stands_at(m.streams, hash) > 0 ==> stands_at(e.streams, hash) == stands_at(
                m.streams,
                hash,
            ) - 1
            &&& stands_at(m.file_streams, f) > 0 ==> stands_at(e.file_streams, f) == stands_at(
                m.file_streams,
                f,
            ) - 1
            &&& stands_at(m.streams, hash) <= 1 ==> !e.streams.contains_key(hash)
            &&& stands_at(m.file_streams, f) <= 1 ==> !e.file_streams.contains_key(f)
            &&& other != hash ==> stands_at(s.streams, other) == stands_at(m.streams, other)
                && stands_at(e.streams, other) == stands_at(m.streams, other)
                && e.streams.contains_key(other) == m.streams.contains_key(other)
            &&& other_file != f ==> stands_at(s.file_streams, other_file) == stands_at(
                m.file_streams,
                other_file,
            ) && stands_at(e.file_streams, other_file) == stands_at(m.file_streams, other_file)
                && e.file_streams.contains_key(other_file) == m.file_streams.contains_key(
                other_file,
            )
        }),
{
}

/// A stream can be counted as long as both counters have room, and ending one is the
/// same whether or not another could start.
pub proof fn when_a_stream_can_start<E>(m: FsModel<E>, hash: Seq<char>, file_idx: usize)
    ensures
        m.can_start(hash, file_idx) <==> stands_at(m.streams, hash) < usize::MAX && stands_at(
            m.file_streams,
            (hash, file_idx),
        ) < usize::MAX,
        m.ended(hash, file_idx).streams == counted_down(m.streams, hash),
        m.ended(hash, file_idx).file_streams == counted_down(m.file_streams, (hash, file_idx)),
        m.ended(hash, file_idx).engines == m.engines,
        m.ended(hash, file_idx).active_file == m.active_file,
{
}

/// The active file makes way for another one, and for no stream on itself.
pub proof fn which_file_makes_way<E>(m: FsModel<E>, hash: Seq<char>, file_idx: usize)
    ensures
        m.active_file is None ==> m.displaced(hash, file_idx) is None,
        m.active_file == Some((hash, file_idx)) ==> m.displaced(hash, file_idx) is None,
        m.active_file is Some && m.active_file != Some((hash, file_idx)) ==> m.displaced(
            hash,
            file_idx,
        ) == m.active_file,
{
}

/// The cleanup of a file clears the active file exactly where it is this one and has no
/// streams; it changes nothing else.
pub proof fn what_a_cleanup_changes<E>(m: FsModel<E>, hash: Seq<char>, file_idx: usize)
    ensures
        ({
            let c = m.cleaned(hash, file_idx);
            let f = (hash, file_idx);
            &&& c.engines == m.engines
            &&& c.streams == m.streams
            &&& c.file_streams == m.file_streams
            &&& m.active_file == Some(f) && stands_at(m.file_streams, f) == 0 ==> c.active_file
                is None
            &&& m.active_file != Some(f) || stands_at(m.file_streams, f) > 0 ==> c.active_file
                == m.active_file
        }),
{
}

/// Restored torrents make their entries one after the other; a later one with the same
/// hash takes the place of an earlier one.
pub proof fn restored_entries_come_one_by_one<E>(s: Seq<(String, E)>, hash: String, engine: E)
    ensures
        entries_of(Seq::<(String, E)>::empty()) == Map::<Seq<char>, E>::empty(),
        entries_of(s.push((hash, engine))) == entries_of(s).insert(hash@, engine),
{
    assert(s.push((hash, engine)).drop_last() =~= s);
}

/// The listed engines are gone, and every other one is as it was.
pub proof fn only_listed_engines_go<E>(
    m: Map<Seq<char>, E>,
    listed: Seq<Seq<char>>,
    i: int,
    h: Seq<char>,
)
    ensures
        0 <= i < listed.len() ==> !without_listed(m, listed).contains_key(listed[i]),
        !listed.contains(h) ==> without_listed(m, listed).contains_key(h) == m.contains_key(h),
        !listed.contains(h) && m.contains_key(h) ==> without_listed(m, listed)[h] == m[h],
{
}

/// A file is named by its hash and index.
pub proof fn files_are_seen_as_they_are(hash: String, file_idx: usize)
    ensures
        file_id(Some((hash, file_idx))) == Some((hash@, file_idx)),
        file_id(None) is None,
{
}

/// What the registry says of its setup is the setup itself.
proof fn lemma_the_configuration_is_the_setup<B, E, T>(fs: BackendEngineFS<B, E, T>)
    ensures
        fs.config() == fs.setup,
{
}

/// The default grace periods in seconds, and the time from the last stream of a file to
/// its cleanup.
pub proof fn the_times_of_a_registry()
    ensures
        DEFAULT_PAUSE_SECS == 30,
        DEFAULT_REMOVE_SECS == 60,
        CLEANUP_DELAY_SECS == 5,
{
}

} // verus!
