//! Server-side logic of a volume synchroniser.
//!
//! A client describes the files of a volume; the server gathers the
//! description keyed by path, then walks it in path order and answers, for
//! each file, whether the server side lacks it or how its bytes split into
//! content-defined chunks.

pub mod chunking;
pub mod error;
pub mod params;
pub mod paths;
pub mod proto;
pub mod sync;
pub mod table;

pub use chunking::{chunk_file, chunker_accepts, chunker_runs, chunks_from_cuts};
pub use error::SyncError;
pub use params::{determine_params, GIGABYTE, MEGABYTE};
pub use paths::{compare_bytes, compare_keys, path_key, PathOrder};
pub use proto::{
    Chunk, Create, Data, Delete, File, Info, InfoOneOfKind, Meta, Params, Update, UpdateOneOfKind,
};
pub use sync::{file_params, reply, Collector, Presence, Progress, Reply};
pub use table::FileTable;
