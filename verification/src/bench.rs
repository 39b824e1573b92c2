//! The pure parts of the benchmarks: the options they open a store with,
//! the keys and values they write, and the lines they report.
use crate::config::{CorruptionPolicy, Options, Parallelism};
use crate::text::{push_decimal, spec_decimal, string_from};
use vstd::prelude::*;

verus! {

/// How a benchmark runs the store's parallel operations.
#[derive(Clone, Copy, Debug, PartialEq, Eq, Structural)]
pub enum BenchMode {
    Serial,
    Parallel,
}

impl Default for BenchMode {
    fn default() -> (m: Self)
        ensures
            m == BenchMode::Serial,
    {
        BenchMode::Serial
    }
}

/// The store's parallelism for a benchmark mode.
pub open spec fn spec_parallelism_for(mode: BenchMode) -> Parallelism {
    match mode {
        BenchMode::Serial => Parallelism::Serial,
        BenchMode::Parallel => Parallelism::Auto,
    }
}

/// The store's parallelism for a benchmark mode: serial runs serially,
/// parallel uses every CPU.
pub fn parallelism_for(mode: BenchMode) -> (p: Parallelism)
    ensures
        p == spec_parallelism_for(mode),
{
    match mode {
        BenchMode::Serial => Parallelism::Serial,
        BenchMode::Parallel => Parallelism::Auto,
    }
}

/// The options a benchmark opens the store with: the defaults, with the
/// parallelism of `mode`.
pub fn bench_options(mode: BenchMode) -> (o: Options)
    ensures
        o.create_if_missing,
        o.max_data_file_size_bytes == 1024 * 1024,
        o.corruption_policy == CorruptionPolicy::Fail,
        o.parallelism == spec_parallelism_for(mode),
{
    let mut o = Options::default();
    o.parallelism = parallelism_for(mode);
    o
}

/// How many writes the merge benchmark makes before it merges.
pub const MERGE_WRITES: u64 = 200;

/// How many distinct keys those writes go to.
pub const MERGE_HOT_KEYS: u64 = 20;

/// `prefix` followed by the decimal digits of `n`.
pub open spec fn numbered(prefix: Seq<char>, n: nat) -> Seq<char> {
    prefix + spec_decimal(n)
}

/// The key of the `i`-th write of the merge benchmark: the writes cycle
/// over twenty hot keys, so most of them become dead data.
pub fn merge_key(i: u64) -> (k: String)
    ensures
        k@ == numbered("mkey-"@, (i % MERGE_HOT_KEYS) as nat),
{
    let mut k = string_from("mkey-");
    push_decimal(&mut k, i % MERGE_HOT_KEYS);
    k
}

/// The value of the `i`-th write of the merge benchmark.
pub fn merge_value(i: u64) -> (v: String)
    ensures
        v@ == numbered("mval-"@, i as nat),
{
    let mut v = string_from("mval-");
    push_decimal(&mut v, i);
    v
}

/// The key of the `i`-th operation of the workload benchmark.
pub fn workload_key(i: u64) -> (k: String)
    ensures
        k@ == numbered("wkey-"@, i as nat),
{
    let mut k = string_from("wkey-");
    push_decimal(&mut k, i);
    k
}

/// The report of the startup benchmark, such as `startup_ms=12`.
pub fn startup_report(ms: u64) -> (s: String)
    ensures
        s@ == numbered("startup_ms="@, ms as nat),
{
    let mut s = string_from("startup_ms=");
    push_decimal(&mut s, ms);
    s
}

/// The report of the merge benchmark, such as `merge_ms=3`.
pub fn merge_report(ms: u64) -> (s: String)
    ensures
        s@ == numbered("merge_ms="@, ms as nat),
{
    let mut s = string_from("merge_ms=");
    push_decimal(&mut s, ms);
    s
}

} // verus!
