//! A single-writer-at-a-time, crash-consistent document store.
//!
//! A versioned document is persisted to a file so that concurrent or
//! interrupted writers can never corrupt it, and a writer can detect
//! that its view of the document is stale before overwriting it. The
//! companion path-scope registry guards a different resource: directory
//! trees claimed by tasks, with overlap detection.

pub mod codec;
pub mod doc;
pub mod pathlock;
pub mod store;

pub use doc::Task;
pub use doc::TaskData;
pub use pathlock::LockPath;
pub use pathlock::PathLockError;
pub use pathlock::PathLockManager;
pub use store::AtomicWriteError;
pub use store::AtomicYamlWriter;
pub use store::WriteAttempt;
pub use store::WriteCommand;
pub use store::WriteEvent;
