//! A single-threaded reactive runtime: closures registered as watches are
//! re-run whenever a reactive value they read during their last run changes.
//!
//! A `WatchContext` owns the watches and a tracker (`WatchArg`). Running
//! watches receive the tracker; reading a reactive value through it
//! subscribes the running watch, and writing one queues its subscribers for
//! the next frame. `WatchContext::update` runs frames until none is pending.
pub mod context;
pub mod cycle_debug;
pub mod queue;
pub mod sync;
pub mod trigger;
pub mod watched;
pub mod watched_core;
pub mod watcher;

pub use context::{DefaultOwner, WatchContext};
pub use cycle_debug::{CycleDiagnostic, CycleReport};
pub use queue::WatchedQueue;
pub use sync::{watched_channel, SyncTrigger, SyncWatchedMeta, WatchedReceiver, WatchedSender};
pub use trigger::{TriggerReason, TriggeredWatch, WatchArg, WatchName, WatchRef, WatchSet};
pub use watched::{Watched, WatchedCell, WatchedValue};
pub use watched_core::{WatchedCellCore, WatchedCore, WatchedMeta};
pub use watcher::{Watcher, WatcherHolder, WatcherInit};
