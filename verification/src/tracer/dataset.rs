//! Parameters of a generated dataset and its keys.
use crate::storage::data_file::spec_padded_id;
use crate::text::{push_char, push_decimal, spec_decimal, string_from};
use vstd::prelude::*;

verus! {

/// The fixed seed of the value generator, so that every run on every
/// machine produces the same dataset.
pub const SEED: u64 = 42;

/// Parameters that fully describe a generated dataset.
#[derive(Clone, Copy, Debug, PartialEq, Eq, Structural)]
pub struct DatasetParams {
    pub keys: usize,
    pub value_size: usize,
    pub file_size_bytes: u64,
}

/// Live progress of a dataset generation.
#[derive(Clone, Copy, Debug, PartialEq, Eq, Structural)]
pub struct GenerateProgress {
    pub keys_written: usize,
    pub total_keys: usize,
    pub files_created: usize,
    pub elapsed_ms: u64,
}

impl Default for GenerateProgress {
    fn default() -> (p: Self)
        ensures
            p.keys_written == 0,
            p.total_keys == 0,
            p.files_created == 0,
            p.elapsed_ms == 0,
    {
        GenerateProgress { keys_written: 0, total_keys: 0, files_created: 0, elapsed_ms: 0 }
    }
}

impl GenerateProgress {
    /// Whether a generation has written every key it set out to write.
    pub fn is_complete(&self) -> (b: bool)
        ensures
            b == (self.total_keys > 0 && self.keys_written >= self.total_keys),
    {
        self.total_keys > 0 && self.keys_written >= self.total_keys
    }
}

/// Whether the parameters stored with a dataset (if any could be read)
/// are `params`.
pub fn params_match(stored: Option<DatasetParams>, params: &DatasetParams) -> (b: bool)
    ensures
        b == (stored == Some(*params)),
{
    match stored {
        Some(s) => s.keys == params.keys && s.value_size == params.value_size
            && s.file_size_bytes == params.file_size_bytes,
        None => false,
    }
}

/// The key of the `i`-th generated record: `key:` and `i` padded to eight
/// digits.
pub open spec fn spec_dataset_key(i: nat) -> Seq<char> {
    "key:"@ + spec_padded_id(i)
}

/// The key of the `i`-th generated record, such as `key:00000042`.
pub fn dataset_key(i: u64) -> (k: String)
    ensures
        k@ == spec_dataset_key(i as nat),
{
    let mut k = string_from("key:");
    let d = crate::storage::data_file::decimal_len(i);
    let ghost start = k@;
    if d < 8 {
        let mut z: usize = 0;
        while z < 8 - d
            invariant
                d < 8,
                z <= 8 - d,
                k@ == start + Seq::new(z as nat, |t: int| '0'),
            decreases 8 - d - z,
        {
            push_char(&mut k, '0');
            z = z + 1;
            proof {
                assert(k@ =~= start + Seq::new(z as nat, |t: int| '0'));
            }
        }
    }
    push_decimal(&mut k, i);
    proof {
        assert(k@ =~= spec_dataset_key(i as nat));
    }
    k
}

} // verus!
