//! Gate a command behind observed GPU availability.
//!
//! Everything that decides is here: parsing one telemetry report into
//! per-unit records, selecting and ranking the units that meet
//! the caller's thresholds, the debounce state machine that requires a
//! configurable number of consecutive sufficient sampling cycles before it
//! admits, and the construction of the environment plan for the launched
//! command. Process concerns (invoking the telemetry tool, sleeping between
//! cycles, spawning the command) live outside the library and feed it plain
//! values.

pub mod digits;
pub mod snapshot;
pub mod selector;
pub mod admission;
pub mod launcher;
pub mod config;
