//! A bounded-concurrency download manager for beatmap archives.
//!
//! The library holds the verified core: the scheduler that caps how many
//! transfers run at once, the per-transfer state machine that tracks a
//! streamed body, the filename-resolution rules, the duplicate-elimination
//! step, and the progress registry. Network and file I/O live outside the
//! library and drive these pieces with plain values.

pub mod bytes_util;
pub mod dedup;
pub mod filename;
pub mod game_mode;
pub mod outcome;
pub mod progress;
pub mod scheduler;
pub mod transfer;
