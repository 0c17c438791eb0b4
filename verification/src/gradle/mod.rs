//! The Gradle side of a workspace: its build files, their fingerprint, the
//! classpath run, and the cache of its results per root.
pub mod fingerprint;
pub mod runner;
pub mod cache;

pub use cache::GradleCache;
pub use fingerprint::{compute_gradle_fingerprint, GradleCacheEntry, GradleFingerprint};
pub use runner::{GradleClasspath, GradleModule};
