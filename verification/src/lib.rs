//! Bookkeeping for a searcher's local cache of split files: which splits are
//! on disk, which are being downloaded, which are merely known, what to fetch
//! next and what to evict for it.

pub mod clock;
pub mod fd_cache;
pub mod init;
pub mod language;
pub mod laws;
pub mod liveness;
pub mod load_shield;
pub mod model;
pub mod model_lemmas;
pub mod queue;
pub mod report_runs;
pub mod split_file;
pub mod split_table;
pub mod status;
