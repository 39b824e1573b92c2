/// Tests for the console state machine: command dispatch, history
/// navigation, output growth, stats refresh, and clear behaviour.
///
/// The console hands store commands to its caller; these tests answer
/// them from an in-memory map, as the interactive front end answers them
/// from the store on disk.
use bitdb::engine::EngineStats;
use bitdb::tui::app::{stats_bar, Console, LineKind, OutputLine, StoreRequest};
use std::collections::HashMap;
use tempfile::TempDir;

/// The console together with a store kept in memory: each key maps to its
/// latest value, or to nothing once deleted.
struct App {
    console: Console,
    latest: HashMap<String, Option<String>>,
    data_dir: String,
}

impl App {
    fn set_input(&mut self, text: &str) {
        self.console.set_input(text);
    }

    fn submit(&mut self) {
        if let Some(req) = self.console.submit() {
            self.answer(req);
        }
    }

    fn answer(&mut self, req: StoreRequest) {
        match req {
            StoreRequest::Put { key, value } => {
                self.latest.insert(key, Some(value));
                self.console.finish_write(Ok(()));
            }
            StoreRequest::Get { key } => {
                let v = self.latest.get(&key).cloned().flatten();
                self.console.finish_get(Ok(v));
            }
            StoreRequest::Delete { key } => {
                self.latest.insert(key, None);
                self.console.finish_write(Ok(()));
            }
            StoreRequest::Stats => {
                let st = self.stats();
                self.console.finish_stats(st);
            }
            StoreRequest::Merge => {
                self.latest.retain(|_, v| v.is_some());
                self.console.finish_write(Ok(()));
            }
        }
    }

    fn stats(&self) -> EngineStats {
        let live_keys = self.latest.values().filter(|v| v.is_some()).count();
        EngineStats {
            live_keys,
            tombstones: self.latest.len() - live_keys,
        }
    }

    fn stats_bar(&self) -> String {
        stats_bar(self.stats(), &self.data_dir)
    }

    fn output_lines(&self) -> &[OutputLine] {
        self.console.output_lines()
    }

    fn current_input(&self) -> &str {
        self.console.current_input()
    }

    fn backspace(&mut self) {
        self.console.backspace();
    }

    fn history_prev(&mut self) {
        self.console.history_prev();
    }

    fn history_next(&mut self) {
        self.console.history_next();
    }
}

fn make_app(dir: &TempDir) -> App {
    App {
        console: Console::new(),
        latest: HashMap::new(),
        data_dir: dir.path().to_string_lossy().into_owned(),
    }
}

// ---- help -------------------------------------------------------------------

#[test]
fn help_command_appends_command_list_to_output() {
    let dir = TempDir::new().unwrap();
    let mut app = make_app(&dir);

    app.set_input("help");
    app.submit();

    let output = app.output_lines();
    // The submitted prompt must appear.
    assert!(
        output.iter().any(|l| l.text.contains("help")),
        "prompt line missing"
    );
    // At least put/get/delete/stats/merge/clear/quit must be described.
    let joined: String = output
        .iter()
        .map(|l| l.text.as_str())
        .collect::<Vec<_>>()
        .join("\n");
    for cmd in &["put", "get", "delete", "stats", "merge", "clear", "quit"] {
        assert!(
            joined.contains(cmd),
            "help output missing description for {cmd}"
        );
    }
}

// ---- put / get --------------------------------------------------------------

#[test]
fn put_then_get_returns_value() {
    let dir = TempDir::new().unwrap();
    let mut app = make_app(&dir);

    app.set_input("put hello world");
    app.submit();

    app.set_input("get hello");
    app.submit();

    let output = app.output_lines();
    let joined: String = output
        .iter()
        .map(|l| l.text.as_str())
        .collect::<Vec<_>>()
        .join("\n");
    assert!(joined.contains("OK"), "put should print OK");
    assert!(joined.contains("world"), "get should print value");
}

#[test]
fn get_missing_key_prints_not_found() {
    let dir = TempDir::new().unwrap();
    let mut app = make_app(&dir);

    app.set_input("get nosuchkey");
    app.submit();

    let joined: String = app
        .output_lines()
        .iter()
        .map(|l| l.text.as_str())
        .collect::<Vec<_>>()
        .join("\n");
    assert!(joined.contains("NOT_FOUND"));
}

// ---- delete -----------------------------------------------------------------

#[test]
fn delete_removes_key() {
    let dir = TempDir::new().unwrap();
    let mut app = make_app(&dir);

    app.set_input("put k v");
    app.submit();
    app.set_input("delete k");
    app.submit();
    app.set_input("get k");
    app.submit();

    let joined: String = app
        .output_lines()
        .iter()
        .map(|l| l.text.as_str())
        .collect::<Vec<_>>()
        .join("\n");
    assert!(
        joined.contains("NOT_FOUND"),
        "deleted key must return NOT_FOUND"
    );
}

// ---- stats ------------------------------------------------------------------

#[test]
fn stats_command_prints_live_keys_and_tombstones() {
    let dir = TempDir::new().unwrap();
    let mut app = make_app(&dir);

    app.set_input("put a 1");
    app.submit();
    app.set_input("put b 2");
    app.submit();
    app.set_input("stats");
    app.submit();

    let joined: String = app
        .output_lines()
        .iter()
        .map(|l| l.text.as_str())
        .collect::<Vec<_>>()
        .join("\n");
    assert!(
        joined.contains("live_keys"),
        "stats output missing live_keys"
    );
    assert!(
        joined.contains("tombstones"),
        "stats output missing tombstones"
    );
}

#[test]
fn stats_bar_refreshes_after_put() {
    let dir = TempDir::new().unwrap();
    let mut app = make_app(&dir);

    let before = app.stats_bar();
    app.set_input("put x 1");
    app.submit();
    let after = app.stats_bar();

    // live_keys count must have increased.
    assert_ne!(before, after, "stats bar should refresh after put");
}

// ---- merge ------------------------------------------------------------------

#[test]
fn merge_command_prints_ok() {
    let dir = TempDir::new().unwrap();
    let mut app = make_app(&dir);

    app.set_input("put m1 v1");
    app.submit();
    app.set_input("merge");
    app.submit();

    let joined: String = app
        .output_lines()
        .iter()
        .map(|l| l.text.as_str())
        .collect::<Vec<_>>()
        .join("\n");
    assert!(joined.contains("OK"), "merge should print OK");
}

// ---- clear ------------------------------------------------------------------

#[test]
fn clear_command_empties_output() {
    let dir = TempDir::new().unwrap();
    let mut app = make_app(&dir);

    app.set_input("put foo bar");
    app.submit();
    assert!(
        !app.output_lines().is_empty(),
        "output should be non-empty before clear"
    );

    app.set_input("clear");
    app.submit();
    assert!(
        app.output_lines().is_empty(),
        "output should be empty after clear"
    );
}

// ---- input editing ----------------------------------------------------------

#[test]
fn backspace_removes_last_character() {
    let dir = TempDir::new().unwrap();
    let mut app = make_app(&dir);

    app.set_input("helo");
    app.backspace();
    assert_eq!(app.current_input(), "hel");
}

#[test]
fn submit_clears_input_line() {
    let dir = TempDir::new().unwrap();
    let mut app = make_app(&dir);

    app.set_input("get foo");
    app.submit();
    assert!(
        app.current_input().is_empty(),
        "input must be cleared after submit"
    );
}

// ---- command history navigation ---------------------------------------------

#[test]
fn arrow_up_recalls_previous_command() {
    let dir = TempDir::new().unwrap();
    let mut app = make_app(&dir);

    app.set_input("put a 1");
    app.submit();
    app.set_input("get a");
    app.submit();

    app.history_prev();
    assert_eq!(app.current_input(), "get a");

    app.history_prev();
    assert_eq!(app.current_input(), "put a 1");
}

#[test]
fn arrow_down_moves_forward_in_history() {
    let dir = TempDir::new().unwrap();
    let mut app = make_app(&dir);

    app.set_input("put a 1");
    app.submit();
    app.set_input("get a");
    app.submit();

    app.history_prev();
    app.history_prev();
    app.history_next();
    assert_eq!(app.current_input(), "get a");
}

#[test]
fn arrow_down_past_end_clears_input() {
    let dir = TempDir::new().unwrap();
    let mut app = make_app(&dir);

    app.set_input("put a 1");
    app.submit();

    app.history_prev();
    app.history_next();
    assert!(
        app.current_input().is_empty(),
        "past end of history should give empty input"
    );
}

// ---- unknown command --------------------------------------------------------

#[test]
fn unknown_command_prints_error_line() {
    let dir = TempDir::new().unwrap();
    let mut app = make_app(&dir);

    app.set_input("frobnicate");
    app.submit();

    let joined: String = app
        .output_lines()
        .iter()
        .map(|l| l.text.as_str())
        .collect::<Vec<_>>()
        .join("\n");
    assert!(
        joined.to_lowercase().contains("unknown") || joined.to_lowercase().contains("error"),
        "unknown command should print an error"
    );
}

// ---- output line kinds ------------------------------------------------------

#[test]
fn prompt_lines_are_tagged_as_prompt_kind() {
    let dir = TempDir::new().unwrap();
    let mut app = make_app(&dir);

    app.set_input("get foo");
    app.submit();

    let has_prompt = app
        .output_lines()
        .iter()
        .any(|l| l.kind == LineKind::Prompt);
    assert!(has_prompt, "at least one line should be tagged Prompt");
}

#[test]
fn empty_input_submit_does_not_add_output_line() {
    let dir = TempDir::new().unwrap();
    let mut app = make_app(&dir);

    app.submit();
    assert!(
        app.output_lines().is_empty(),
        "empty submit should not add any output"
    );
}
