/// Tests for the dataset parameters and keys: whether stored parameters
/// match, and how generated keys are spelled.
use bitdb::tracer::dataset::{dataset_key, params_match, DatasetParams, GenerateProgress};

fn default_params() -> DatasetParams {
    DatasetParams {
        keys: 500,
        value_size: 16,
        file_size_bytes: 32 * 1024,
    }
}

#[test]
fn params_match_returns_true_when_meta_matches() {
    let params = default_params();
    // What a generation of `params` stores with the data.
    let stored = Some(params);
    assert!(
        params_match(stored, &params),
        "params_match should return true when meta matches"
    );
}

#[test]
fn params_match_returns_false_when_key_count_differs() {
    let params = default_params();
    let stored = Some(params);
    let different = DatasetParams {
        keys: 999,
        ..params
    };
    assert!(
        !params_match(stored, &different),
        "params_match should return false when key count differs"
    );
}

#[test]
fn params_match_returns_false_when_no_meta_file() {
    let params = default_params();
    assert!(
        !params_match(None, &params),
        "params_match should return false when no meta file exists"
    );
}

#[test]
fn keys_are_formatted_correctly() {
    for i in 0..5u64 {
        let key = format!("key:{i:08}");
        assert_eq!(dataset_key(i), key, "key {key} should be spelled so");
    }
}

#[test]
fn dataset_key_keeps_all_digits_of_large_indices() {
    assert_eq!(dataset_key(123_456_789), "key:123456789");
    assert_eq!(dataset_key(99_999_999), "key:99999999");
    assert_eq!(dataset_key(42), "key:00000042");
}

#[test]
fn params_differing_in_value_or_file_size_do_not_match() {
    let params = default_params();
    let other_value = DatasetParams { value_size: 64, ..params };
    let other_file = DatasetParams { file_size_bytes: 64 * 1024, ..params };
    assert!(!params_match(Some(params), &other_value));
    assert!(!params_match(Some(params), &other_file));
}

#[test]
fn generate_progress_completes_when_all_keys_written() {
    let mut p = GenerateProgress::default();
    assert!(!p.is_complete(), "nothing to write is not a finished generation");
    p.total_keys = 200;
    p.keys_written = 199;
    assert!(!p.is_complete());
    p.keys_written = 200;
    assert!(p.is_complete());
}
