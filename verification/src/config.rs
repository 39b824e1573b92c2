//! Options that control how a store is opened and maintained.
use vstd::prelude::*;

verus! {

/// What startup rebuild does when it finds a damaged record.
#[derive(Copy, Clone, Debug, PartialEq, Eq, Structural)]
pub enum CorruptionPolicy {
    /// Refuse to open the store.
    Fail,
    /// Ignore the damaged record and everything after it in that file.
    SkipCorruptedTail,
}

impl Default for CorruptionPolicy {
    fn default() -> (p: Self)
        ensures
            p == CorruptionPolicy::Fail,
    {
        CorruptionPolicy::Fail
    }
}

/// Controls how many threads may be used for parallel operations such as
/// startup rebuild and merge.  `Auto` lets the thread pool choose based on
/// the number of logical CPUs.  `Fixed(n)` caps the pool at exactly `n`
/// threads.  `Serial` forces the single-threaded path regardless of CPU
/// count.
#[derive(Copy, Clone, Debug, PartialEq, Eq, Structural)]
pub enum Parallelism {
    /// Use all available logical CPUs.
    Auto,
    /// Use exactly `n` worker threads.
    Fixed(usize),
    /// Disable all parallelism; execute every operation serially.
    Serial,
}

impl Default for Parallelism {
    fn default() -> (p: Self)
        ensures
            p == Parallelism::Auto,
    {
        Parallelism::Auto
    }
}

/// How a store is opened: whether to create its directory, when to start
/// a new data file, how to treat damaged records, and how much
/// parallelism to use.
#[derive(Copy, Clone, Debug, PartialEq, Eq, Structural)]
pub struct Options {
    pub create_if_missing: bool,
    pub max_data_file_size_bytes: u64,
    pub corruption_policy: CorruptionPolicy,
    /// Parallelism strategy used during startup rebuild and merge.
    pub parallelism: Parallelism,
}

impl Default for Options {
    /// Creates missing directories, rotates data files at 1 MiB, refuses
    /// damaged records, and uses all CPUs.
    fn default() -> (o: Self)
        ensures
            o.create_if_missing,
            o.max_data_file_size_bytes == 1024 * 1024,
            o.corruption_policy == CorruptionPolicy::Fail,
            o.parallelism == Parallelism::Auto,
    {
        Options {
            create_if_missing: true,
            max_data_file_size_bytes: 1024 * 1024,
            corruption_policy: CorruptionPolicy::default(),
            parallelism: Parallelism::default(),
        }
    }
}

} // verus!
