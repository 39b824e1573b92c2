/// Tests for what the command line and the interactive console show and
/// decide: benchmark options and reports, number formatting, console keys
/// and command parsing.
use bitdb::bench::{
    bench_options, merge_key, merge_report, merge_value, parallelism_for, startup_report,
    workload_key, BenchMode,
};
use bitdb::config::{CorruptionPolicy, Parallelism};
use bitdb::engine::EngineStats;
use bitdb::text::{decimal_string, format_thousands};
use bitdb::tui::app::{splitn3, stats_bar, trim_chars, Console, ConsoleKey, LineKind, StoreRequest};

fn chars(s: &str) -> Vec<char> {
    s.chars().collect()
}

// ---- benchmarks -------------------------------------------------------------

#[test]
fn bench_modes_select_parallelism() {
    assert_eq!(BenchMode::default(), BenchMode::Serial);
    assert_eq!(parallelism_for(BenchMode::Serial), Parallelism::Serial);
    assert_eq!(parallelism_for(BenchMode::Parallel), Parallelism::Auto);
    let o = bench_options(BenchMode::Serial);
    assert_eq!(o.parallelism, Parallelism::Serial);
    assert_eq!(o.max_data_file_size_bytes, 1024 * 1024);
    assert_eq!(o.corruption_policy, CorruptionPolicy::Fail);
    assert!(o.create_if_missing);
}

#[test]
fn bench_keys_values_and_reports() {
    assert_eq!(merge_key(0), "mkey-0");
    assert_eq!(merge_key(47), "mkey-7");
    assert_eq!(merge_value(199), "mval-199");
    assert_eq!(workload_key(12), "wkey-12");
    assert_eq!(startup_report(5), "startup_ms=5");
    assert_eq!(merge_report(0), "merge_ms=0");
}

// ---- number formatting ------------------------------------------------------

#[test]
fn numbers_are_grouped_by_thousands() {
    assert_eq!(format_thousands(0), "0");
    assert_eq!(format_thousands(999), "999");
    assert_eq!(format_thousands(1000), "1,000");
    assert_eq!(format_thousands(1_234_567), "1,234,567");
    assert_eq!(format_thousands(u64::MAX), "18,446,744,073,709,551,615");
    assert_eq!(decimal_string(907), "907");
}

// ---- console ----------------------------------------------------------------

#[test]
fn commands_are_trimmed_and_split_in_three() {
    assert_eq!(trim_chars(&chars("  put a b  ")), chars("put a b"));
    let parts = splitn3(&chars("put key some value"));
    assert_eq!(parts, vec![chars("put"), chars("key"), chars("some value")]);
    assert_eq!(splitn3(&chars("stats")), vec![chars("stats")]);
}

#[test]
fn console_keys_edit_submit_and_quit() {
    let mut c = Console::new();
    for ch in "get k".chars() {
        assert!(c.handle_key(ConsoleKey::Char(ch)).is_none());
    }
    c.handle_key(ConsoleKey::Char('x'));
    c.handle_key(ConsoleKey::Backspace);
    assert_eq!(c.current_input(), "get k");
    match c.handle_key(ConsoleKey::Enter) {
        Some(StoreRequest::Get { key }) => assert_eq!(key, "k"),
        other => panic!("expected a get request, got {other:?}"),
    }
    assert_eq!(c.output_lines()[0].text, "> get k");
    assert_eq!(c.output_lines()[0].kind, LineKind::Prompt);
    c.handle_key(ConsoleKey::Up);
    assert_eq!(c.current_input(), "get k");
    c.handle_key(ConsoleKey::Down);
    assert_eq!(c.current_input(), "");
    c.handle_key(ConsoleKey::Other);
    assert!(!c.should_quit);
    c.handle_key(ConsoleKey::Quit);
    assert!(c.should_quit);
}

#[test]
fn console_reports_usage_errors_and_outcomes() {
    let mut c = Console::new();
    c.set_input("put onlykey");
    assert!(c.submit().is_none());
    assert_eq!(c.output_lines()[1].text, "usage: put <key> <value>");
    assert_eq!(c.output_lines()[1].kind, LineKind::Error);
    c.finish_write(Err("disk full".to_string()));
    assert_eq!(c.output_lines()[2].text, "error: disk full");
    c.finish_get(Ok(None));
    assert_eq!(c.output_lines()[3].text, "NOT_FOUND");
    c.finish_stats(EngineStats { live_keys: 3, tombstones: 1 });
    assert_eq!(c.output_lines()[4].text, "live_keys=3  tombstones=1");
    c.set_input("quit");
    c.submit();
    assert!(c.should_quit);
}

#[test]
fn stats_bar_text() {
    let st = EngineStats { live_keys: 12, tombstones: 0 };
    assert_eq!(
        stats_bar(st, "/data"),
        "  live_keys: 12   tombstones: 0   data_dir: /data  "
    );
}
