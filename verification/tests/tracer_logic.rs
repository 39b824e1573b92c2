/// Tests for the tracer's planning and screen logic: file sizes, record
/// counting, key totals, the live screen's keys and texts, the setup
/// screen's keys and labels.
use bitdb::record::{encode, Record, RecordFlags};
use bitdb::tracer::args::data_dir_from_args;
use bitdb::tracer::dataset::DatasetParams;
use bitdb::tracer::live::{
    both_done, build_live_state, estimated_total_bytes, keys_found, slot_suffix, thread_header,
    FocusedColumn, FooterHint, LiveAction, LiveKey,
};
use bitdb::tracer::screen::{next_screen, Screen, ScreenCommand, ScreenEvent};
use bitdb::tracer::setup::{approx_files, Field, RunMode, SetupAction, SetupKey, SetupState};
use bitdb::tracer::worker::{
    assign_files, count_records, total_keys, with_file_sizes, FileSlot, SlotState, ThreadState,
};

fn setup() -> SetupState {
    SetupState::new("/tmp/data".to_string())
}

fn slot(file_id: u32, state: SlotState) -> FileSlot {
    FileSlot {
        file_id,
        file_size_bytes: 0,
        state,
    }
}

// ---- worker -----------------------------------------------------------------

#[test]
fn file_sizes_are_filled_in_by_id() {
    let assignment = assign_files(&[1, 2, 3], 2);
    let sized = with_file_sizes(&assignment, &[(3, 300), (1, 100)]);
    assert_eq!(sized.len(), 2);
    assert_eq!(sized[0].slots[0].file_size_bytes, 100);
    assert_eq!(sized[0].slots[1].file_size_bytes, 300);
    assert_eq!(sized[1].slots[0].file_size_bytes, 0, "file 2 has no known size");
    assert_eq!(sized[1].thread_id, 1);
}

#[test]
fn records_are_counted_in_chunks_until_the_tail() {
    let mut bytes = Vec::new();
    for i in 0..5u64 {
        let r = Record::new(i, format!("k{i}").into_bytes(), b"v".to_vec(), RecordFlags::Normal);
        bytes.extend_from_slice(&encode(&r));
    }
    let one = encode(&Record::new(0, b"k0".to_vec(), b"v".to_vec(), RecordFlags::Normal)).len();
    bytes.extend_from_slice(&[1, 2, 3]); // a cut-short tail
    assert_eq!(count_records(&bytes, 0, 2), (2, 2 * one));
    assert_eq!(count_records(&bytes, 2 * one, 10), (3, 5 * one));
    assert_eq!(count_records(&bytes, 5 * one, 10), (0, 5 * one));
    assert_eq!(count_records(&bytes, 0, 0), (0, 0));
}

#[test]
fn run_total_counts_finished_slots_only() {
    let states = vec![
        ThreadState {
            thread_id: 0,
            slots: vec![
                slot(1, SlotState::Done { duration_us: 5, keys_found: 10, bytes_read: 100 }),
                slot(3, SlotState::Processing { bytes_done: 10, keys_found: 4 }),
            ],
        },
        ThreadState {
            thread_id: 1,
            slots: vec![slot(2, SlotState::Done { duration_us: 7, keys_found: 32, bytes_read: 50 })],
        },
    ];
    assert_eq!(total_keys(&states), 42);
    assert_eq!(keys_found(&states), 46, "live counts include running slots");
}

// ---- live screen ------------------------------------------------------------

#[test]
fn slot_suffix_texts() {
    assert_eq!(slot_suffix(&SlotState::Queued), "  queued");
    assert_eq!(
        slot_suffix(&SlotState::Processing { bytes_done: 1, keys_found: 12345 }),
        "  12,345 keys..."
    );
    assert_eq!(
        slot_suffix(&SlotState::Done { duration_us: 250, keys_found: 1000, bytes_read: 9 }),
        "  250us  1,000 keys"
    );
}

#[test]
fn thread_headers_show_progress_when_collapsed() {
    let t = ThreadState {
        thread_id: 3,
        slots: vec![
            slot(1, SlotState::Done { duration_us: 1, keys_found: 1, bytes_read: 1 }),
            slot(2, SlotState::Queued),
        ],
    };
    assert_eq!(thread_header(&t, false), "\u{25BC} Thread 3");
    assert_eq!(thread_header(&t, true), "\u{25B6} Thread 3  (1/2 files)");
}

#[test]
fn fresh_live_state_follows_the_mode() {
    let mut s = setup();
    s.threads = 3;
    let live = build_live_state(&s);
    assert_eq!(live.columns, 2);
    assert_eq!(live.parallel.label, "PARALLEL (3 threads)");
    assert_eq!(live.serial.label, "SERIAL (1 thread)");
    assert_eq!(live.parallel_thread_count(), 3);
    assert!(!live.serial.done && !live.parallel.done);

    s.mode = RunMode::Parallel;
    let live = build_live_state(&s);
    assert_eq!(live.columns, 1);
    assert!(live.serial.done, "a run that is not performed counts as done");
    assert!(!both_done(&live, &s));
}

#[test]
fn live_keys_move_focus_cursor_and_toggle_threads() {
    let mut s = setup();
    s.threads = 2;
    let mut live = build_live_state(&s);
    assert_eq!(live.footer_hint(), FooterHint::Scroll);
    assert_eq!(live.handle_key(LiveKey::Right), LiveAction::Stay);
    assert_eq!(live.focused, FocusedColumn::Parallel);
    assert_eq!(live.footer_hint(), FooterHint::Cursor);
    live.handle_key(LiveKey::Down);
    live.handle_key(LiveKey::Down);
    assert_eq!(live.parallel_cursor, 1, "the cursor stops on the last thread");
    live.handle_key(LiveKey::Enter);
    assert!(live.collapsed_threads.contains(&1));
    live.handle_key(LiveKey::Enter);
    assert!(!live.collapsed_threads.contains(&1));
    live.handle_key(LiveKey::Up);
    assert_eq!(live.parallel_cursor, 0);
    live.handle_key(LiveKey::Left);
    live.handle_key(LiveKey::Down);
    assert_eq!(live.serial_scroll, 1);
    assert_eq!(live.handle_key(LiveKey::Space), LiveAction::Stay);
    live.finished = true;
    assert_eq!(live.footer_hint(), FooterHint::Results);
    assert_eq!(live.handle_key(LiveKey::Enter), LiveAction::ShowResult);
    assert_eq!(live.handle_key(LiveKey::Quit), LiveAction::Quit);
}

#[test]
fn runs_finish_in_order() {
    let s = setup();
    let mut live = build_live_state(&s);
    assert_eq!(live.serial.placeholder(), Some("  (waiting for previous run to finish...)"));
    assert!(!live.start_first_run(s.mode), "both runs start with the serial one");
    assert_eq!(live.serial.placeholder(), Some("  (loading file list...)"));
    assert_eq!(live.serial.status(), "running...");
    assert_eq!(live.parallel.status(), "waiting");
    let done = assign_files(&[1, 2], 1);
    assert!(live.finish_serial(done, 1500, s.mode), "the parallel run follows");
    assert_eq!(live.serial.status(), "done");
    assert_eq!(live.serial.elapsed_us, 1500);
    assert!(live.parallel.started);
    assert_eq!(live.total_files(), 2);
    assert!(!both_done(&live, &s));
    live.parallel.complete(assign_files(&[1, 2], 2), 700);
    assert!(both_done(&live, &s));
}

#[test]
fn dataset_size_estimates() {
    let p = DatasetParams {
        keys: 1_000_000,
        value_size: 64,
        file_size_bytes: 512 * 1024,
    };
    assert_eq!(estimated_total_bytes(&p), 90_000_000);
    assert_eq!(approx_files(&p), 90_000_000 / (512 * 1024) + 1);
}

// ---- setup screen -----------------------------------------------------------

#[test]
fn setup_labels_and_params() {
    let mut s = setup();
    assert_eq!(s.file_size_label(), "512KB");
    assert_eq!(s.params(), DatasetParams { keys: 1_000_000, value_size: 64, file_size_bytes: 524_288 });
    s.file_size_idx = 4;
    assert_eq!(s.file_size_label(), "4MB");
    assert_eq!(RunMode::Both.label(), "both");
    assert_eq!(RunMode::Serial.label(), "serial");
    assert_eq!(RunMode::Parallel.label(), "parallel");
}

#[test]
fn setup_status_text() {
    let s = setup();
    assert_eq!(s.status_text(None), "needs generation");
    let stored = Some(s.params());
    assert_eq!(
        s.status_text(stored),
        "ready  (1,000,000 keys, 172 files, 512KB file size)"
    );
}

#[test]
fn setup_keys_drive_the_screen() {
    let mut s = setup();
    assert_eq!(s.handle_key(SetupKey::Down, None), SetupAction::Stay);
    assert_eq!(s.focused, Field::ValueSize);
    s.handle_key(SetupKey::Right, None);
    assert_eq!(s.value_size_idx, 2);
    s.handle_key(SetupKey::Up, None);
    s.handle_key(SetupKey::Up, None);
    assert_eq!(s.focused, Field::Mode, "focus wraps from the first field to the last");
    assert_eq!(s.handle_key(SetupKey::Enter, None), SetupAction::Generate);
    let stored = Some(s.params());
    assert_eq!(s.handle_key(SetupKey::Enter, stored), SetupAction::StartRuns);
    assert_eq!(s.handle_key(SetupKey::Regenerate, stored), SetupAction::Generate);
    assert_eq!(s.handle_key(SetupKey::Quit, stored), SetupAction::Quit);
}

#[test]
fn setup_keys_and_threads_stop_at_their_limits() {
    let mut s = setup();
    s.keys = 4_950_000;
    s.increment();
    assert_eq!(s.keys, 5_000_000);
    s.focused = Field::Threads;
    s.threads = 16;
    s.increment();
    assert_eq!(s.threads, 16);
    s.focused = Field::FileSize;
    s.file_size_idx = 0;
    s.decrement();
    assert_eq!(s.file_size_idx, 4, "presets wrap around");
}

// ---- command line -----------------------------------------------------------

fn args(list: &[&str]) -> Vec<String> {
    list.iter().map(|s| s.to_string()).collect()
}

#[test]
fn data_dir_comes_from_the_first_data_dir_flag() {
    assert_eq!(data_dir_from_args(&args(&["tracer"])), "./tracer-data");
    assert_eq!(data_dir_from_args(&args(&["tracer", "--data-dir", "/d1", "--data-dir", "/d2"])), "/d1");
    assert_eq!(data_dir_from_args(&args(&["tracer", "--data-dir"])), "./tracer-data");
    assert_eq!(data_dir_from_args(&args(&["--data-dir", "x"])), "./tracer-data", "the program name is not an option");
}

#[test]
fn focus_cycles_through_every_field() {
    let mut s = setup();
    let mut seen = vec![s.focused];
    for _ in 0..5 {
        s.focus_next();
        seen.push(s.focused);
    }
    assert_eq!(seen, vec![Field::Keys, Field::ValueSize, Field::FileSize, Field::Threads, Field::Mode, Field::Keys]);
    s.focus_next();
    s.focus_prev();
    assert_eq!(s.focused, Field::Keys);
    assert_eq!(Field::Keys.prev(), Field::Mode);
    assert_eq!(RunMode::Serial.next().next().next(), RunMode::Serial);
    assert_eq!(RunMode::Parallel.prev(), RunMode::Serial);
}

// ---- switching screens ------------------------------------------------------

#[test]
fn screens_follow_setup_generation_live_and_result() {
    let (s, c) = next_screen(Screen::Setup, ScreenEvent::Setup(SetupAction::Generate));
    assert_eq!((s, c), (Screen::Generating, ScreenCommand::StartGeneration));
    let (s, c) = next_screen(s, ScreenEvent::Tick { generation_done: false });
    assert_eq!((s, c), (Screen::Generating, ScreenCommand::Nothing));
    let (s, c) = next_screen(s, ScreenEvent::Tick { generation_done: true });
    assert_eq!((s, c), (Screen::Live, ScreenCommand::StartLive));
    let (s, c) = next_screen(s, ScreenEvent::Live(LiveAction::Stay));
    assert_eq!((s, c), (Screen::Live, ScreenCommand::Nothing));
    let (s, c) = next_screen(s, ScreenEvent::Live(LiveAction::ShowResult));
    assert_eq!((s, c), (Screen::Result, ScreenCommand::ShowResult));
    let (s, c) = next_screen(s, ScreenEvent::Restart);
    assert_eq!((s, c), (Screen::Setup, ScreenCommand::ResetRuns));
    let (s, c) = next_screen(s, ScreenEvent::Setup(SetupAction::StartRuns));
    assert_eq!((s, c), (Screen::Live, ScreenCommand::StartLive));
}

#[test]
fn quitting_and_ctrl_c_leave_from_the_right_screens() {
    for s in [Screen::Setup, Screen::Generating, Screen::Live, Screen::Result] {
        assert_eq!(next_screen(s, ScreenEvent::Interrupt), (s, ScreenCommand::Exit));
    }
    assert_eq!(next_screen(Screen::Generating, ScreenEvent::Quit).1, ScreenCommand::Exit);
    assert_eq!(next_screen(Screen::Result, ScreenEvent::Quit).1, ScreenCommand::Exit);
    assert_eq!(
        next_screen(Screen::Setup, ScreenEvent::Setup(SetupAction::Quit)).1,
        ScreenCommand::Exit
    );
    assert_eq!(
        next_screen(Screen::Live, ScreenEvent::Live(LiveAction::Quit)).1,
        ScreenCommand::Exit
    );
    // `r` means nothing outside the result screen.
    assert_eq!(next_screen(Screen::Live, ScreenEvent::Restart), (Screen::Live, ScreenCommand::Nothing));
}
