/// Tests for the tracer's screen state: the setup screen's fields and the
/// live screen's counters, driven without a terminal.
use bitdb::tracer::dataset::{params_match, DatasetParams};
use bitdb::tracer::live::{
    FocusedColumn, LiveState, SideSnapshot,
};
use bitdb::tracer::setup::{Field, RunMode, SetupState};
use std::collections::HashSet;
use tempfile::TempDir;

fn small_params() -> DatasetParams {
    DatasetParams {
        keys: 100,
        value_size: 8,
        file_size_bytes: 16 * 1024,
    }
}

fn dir_name(dir: &TempDir) -> String {
    dir.path().to_string_lossy().into_owned()
}

// ---- SetupState tests -------------------------------------------------------

#[test]
fn setup_default_mode_is_both() {
    let dir = TempDir::new().unwrap();
    let state = SetupState::new(dir_name(&dir));
    assert_eq!(state.mode, RunMode::Both);
}

#[test]
fn setup_increment_mode_cycles_serial_parallel_both() {
    let dir = TempDir::new().unwrap();
    let mut state = SetupState::new(dir_name(&dir));
    // Default is Both; cycle through.
    state.focused = Field::Mode;
    state.increment();
    assert_eq!(state.mode, RunMode::Serial);
    state.increment();
    assert_eq!(state.mode, RunMode::Parallel);
    state.increment();
    assert_eq!(state.mode, RunMode::Both);
}

#[test]
fn setup_decrement_mode_cycles_reverse() {
    let dir = TempDir::new().unwrap();
    let mut state = SetupState::new(dir_name(&dir));
    state.focused = Field::Mode;
    state.decrement();
    assert_eq!(state.mode, RunMode::Parallel);
    state.decrement();
    assert_eq!(state.mode, RunMode::Serial);
    state.decrement();
    assert_eq!(state.mode, RunMode::Both);
}

#[test]
fn setup_keys_increment_decrement_by_100k() {
    let dir = TempDir::new().unwrap();
    let mut state = SetupState::new(dir_name(&dir));
    state.focused = Field::Keys;
    let initial = state.keys;
    state.increment();
    assert_eq!(state.keys, initial + 100_000);
    state.decrement();
    assert_eq!(state.keys, initial);
}

#[test]
fn setup_keys_decrement_does_not_go_below_100k() {
    let dir = TempDir::new().unwrap();
    let mut state = SetupState::new(dir_name(&dir));
    state.focused = Field::Keys;
    state.keys = 100_000;
    state.decrement();
    assert_eq!(state.keys, 100_000, "keys must not go below 100k");
}

#[test]
fn setup_threads_increment_decrement() {
    let dir = TempDir::new().unwrap();
    let mut state = SetupState::new(dir_name(&dir));
    state.focused = Field::Threads;
    let initial = state.threads;
    state.increment();
    assert_eq!(state.threads, initial + 1);
    state.decrement();
    assert_eq!(state.threads, initial);
}

#[test]
fn setup_threads_min_is_1() {
    let dir = TempDir::new().unwrap();
    let mut state = SetupState::new(dir_name(&dir));
    state.focused = Field::Threads;
    state.threads = 1;
    state.decrement();
    assert_eq!(state.threads, 1, "threads must not go below 1");
}

#[test]
fn setup_needs_generation_false_after_generate() {
    // The parameters a generation of `small_params` stores with the data.
    let stored = Some(small_params());
    let dir = TempDir::new().unwrap();
    let mut state = SetupState::new(dir_name(&dir));
    state.keys = small_params().keys;
    state.value_size_idx = 0; // 8 bytes matches small_params
    // FILE_SIZES = [128KB, 256KB, 512KB, 1MB, 4MB] -> none is 16KB
    // So needs_generation = true because file size doesn't match.
    assert!(
        state.needs_generation(stored),
        "file size mismatch should require regeneration"
    );
}

#[test]
fn setup_params_match_meta_after_generate() {
    // Use a file size that matches one of the presets (128KB).
    let params = DatasetParams {
        keys: 50,
        value_size: 8,
        file_size_bytes: 128 * 1024,
    };
    // The parameters a generation of `params` stores with the data.
    let stored = Some(params);
    assert!(
        params_match(stored, &params),
        "params_match should be true after generation"
    );
}

// ---- LiveState tests --------------------------------------------------------

fn empty_side(label: &str) -> SideSnapshot {
    SideSnapshot {
        label: label.into(),
        thread_states: vec![],
        elapsed_us: 0,
        done: false,
        started: false,
    }
}

#[test]
fn live_state_keys_rebuilt_zero_when_all_queued() {
    let dir = TempDir::new().unwrap();
    let _setup = SetupState::new(dir_name(&dir));
    let live = LiveState {
        serial: empty_side("SERIAL"),
        parallel: empty_side("PARALLEL"),
        total_keys: 100,
        columns: 2,
        serial_scroll: 0,
        parallel_scroll: 0,
        focused: FocusedColumn::Serial,
        parallel_cursor: 0,
        collapsed_threads: HashSet::new(),
        finished: false,
    };
    assert_eq!(live.keys_rebuilt(), 0);
}

#[test]
fn live_state_columns_2_in_both_mode() {
    let dir = TempDir::new().unwrap();
    let mut setup = SetupState::new(dir_name(&dir));
    setup.focused = Field::Mode;
    // Default is Both so columns should be 2.
    assert_eq!(setup.mode, RunMode::Both);
}

#[test]
fn live_state_columns_1_in_serial_mode() {
    let dir = TempDir::new().unwrap();
    let mut setup = SetupState::new(dir_name(&dir));
    setup.mode = RunMode::Serial;
    // Single column when not both.
    assert_ne!(setup.mode, RunMode::Both);
}
