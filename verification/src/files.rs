//! An open file of a torrent: its stream together with the engine it keeps busy.

use vstd::prelude::*;

verus! {

/// A file that is being streamed. `E` is how the caller shares an engine.
pub struct FileHandle<S, E> {
    pub size: u64,
    pub name: String,
    pub stream: S,
    pub engine: E,
}

impl<S, E> FileHandle<S, E> {
    pub fn new(size: u64, name: String, stream: S, engine: E) -> (f: FileHandle<S, E>)
        ensures
            f.size == size,
            f.name == name,
            f.stream == stream,
            f.engine == engine,
    {
        FileHandle { size, name, stream, engine }
    }
}

} // verus!
