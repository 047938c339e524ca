//! Verified core of a broadcast server for a single append-only file.
//!
//! TCP clients connect, send a one-line header selecting a starting byte
//! offset, and are then streamed every byte appended to the file.  The
//! modules here hold the decision logic of that server: header parsing and
//! offset resolution, the per-client transfer bookkeeping, the client
//! registry, the completion and wake dispatching, and the file-watcher
//! decisions.  The surrounding process (sockets, io_uring, inotify) drives
//! these functions and performs the I/O they call for.

pub mod engine;
pub mod proto;
pub mod registry;
pub mod session;
pub mod token_box;
pub mod watcher;
