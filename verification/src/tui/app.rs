//! The interactive console: the input line, command history, output
//! history, and command parsing.  Commands that touch the store are handed
//! to the caller as a `StoreRequest`; the caller reports the outcome back
//! so it can be shown.
use crate::engine::EngineStats;
use crate::text::{
    chars_eq_str, chars_of, empty_string, push_char, push_chars, push_decimal, push_str,
    spec_decimal, string_from, string_from_chars,
};
use vstd::prelude::*;

verus! {

/// Classifies a line in the output history so the renderer can style it.
#[derive(Clone, Copy, Debug, PartialEq, Eq, Structural)]
pub enum LineKind {
    /// A `> cmd` echo of the submitted command.
    Prompt,
    /// A normal result or informational line.
    Output,
    /// An error or warning line.
    Error,
}

/// One line stored in the output history.
#[derive(Clone, Debug)]
pub struct OutputLine {
    pub text: String,
    pub kind: LineKind,
}

impl OutputLine {
    fn prompt(text: String) -> (l: Self)
        ensures
            l.text@ == text@,
            l.kind == LineKind::Prompt,
    {
        OutputLine { text, kind: LineKind::Prompt }
    }

    fn output(text: String) -> (l: Self)
        ensures
            l.text@ == text@,
            l.kind == LineKind::Output,
    {
        OutputLine { text, kind: LineKind::Output }
    }

    fn error(text: String) -> (l: Self)
        ensures
            l.text@ == text@,
            l.kind == LineKind::Error,
    {
        OutputLine { text, kind: LineKind::Error }
    }
}

/// What a submitted command asks of the store.
#[derive(Clone, Debug)]
pub enum StoreRequest {
    Put { key: String, value: String },
    Get { key: String },
    Delete { key: String },
    Stats,
    Merge,
}

/// A store request as a mathematical value.
pub enum StoreRequestView {
    Put { key: Seq<char>, value: Seq<char> },
    Get { key: Seq<char> },
    Delete { key: Seq<char> },
    Stats,
    Merge,
}

impl View for StoreRequest {
    type V = StoreRequestView;

    open spec fn view(&self) -> StoreRequestView {
        match self {
            StoreRequest::Put { key, value } => StoreRequestView::Put { key: key@, value: value@ },
            StoreRequest::Get { key } => StoreRequestView::Get { key: key@ },
            StoreRequest::Delete { key } => StoreRequestView::Delete { key: key@ },
            StoreRequest::Stats => StoreRequestView::Stats,
            StoreRequest::Merge => StoreRequestView::Merge,
        }
    }
}

// ---- text rules ---------------------------------------------------------------
/// The characters Unicode calls white space (what `char::is_whitespace`
/// accepts).
pub open spec fn is_unicode_whitespace(c: char) -> bool {
    ||| ('\u{9}' <= c && c <= '\u{d}')
    ||| c == ' '
    ||| c == '\u{85}'
    ||| c == '\u{a0}'
    ||| c == '\u{1680}'
    ||| ('\u{2000}' <= c && c <= '\u{200a}')
    ||| c == '\u{2028}'
    ||| c == '\u{2029}'
    ||| c == '\u{202f}'
    ||| c == '\u{205f}'
    ||| c == '\u{3000}'
}

fn is_whitespace(c: char) -> (b: bool)
    ensures
        b == is_unicode_whitespace(c),
{
    ('\u{9}' <= c && c <= '\u{d}') || c == ' ' || c == '\u{85}' || c == '\u{a0}' || c == '\u{1680}'
        || ('\u{2000}' <= c && c <= '\u{200a}') || c == '\u{2028}' || c == '\u{2029}' || c
        == '\u{202f}' || c == '\u{205f}' || c == '\u{3000}'
}

/// `s` without its leading white space.
pub open spec fn spec_trim_start(s: Seq<char>) -> Seq<char>
    decreases s.len(),
{
    if s.len() > 0 && is_unicode_whitespace(s[0]) {
        spec_trim_start(s.drop_first())
    } else {
        s
    }
}

/// `s` without its trailing white space.
pub open spec fn spec_trim_end(s: Seq<char>) -> Seq<char>
    decreases s.len(),
{
    if s.len() > 0 && is_unicode_whitespace(s.last()) {
        spec_trim_end(s.drop_last())
    } else {
        s
    }
}

/// `s` without leading and trailing white space (as `str::trim`).
pub open spec fn spec_trim(s: Seq<char>) -> Seq<char> {
    spec_trim_end(spec_trim_start(s))
}

/// The position of the first space in `s`, if any.
pub open spec fn space_index(s: Seq<char>) -> Option<int>
    decreases s.len(),
{
    if s.len() == 0 {
        None
    } else if s[0] == ' ' {
        Some(0)
    } else {
        match space_index(s.drop_first()) {
            Some(i) => Some(i + 1),
            None => None,
        }
    }
}

/// `s` split at its first two spaces into at most three pieces (as
/// `str::splitn(3, ' ')`).
pub open spec fn spec_splitn3(s: Seq<char>) -> Seq<Seq<char>> {
    match space_index(s) {
        None => seq![s],
        Some(i) => {
            let first = s.take(i);
            let rest = s.skip(i + 1);
            match space_index(rest) {
                None => seq![first, rest],
                Some(j) => seq![first, rest.take(j), rest.skip(j + 1)],
            }
        },
    }
}

proof fn lemma_trim_start_at(s: Seq<char>, a: int)
    requires
        0 <= a <= s.len(),
        forall|i: int| 0 <= i < a ==> is_unicode_whitespace(#[trigger] s[i]),
        a == s.len() || !is_unicode_whitespace(s[a]),
    ensures
        spec_trim_start(s) == s.skip(a),
    decreases a,
{
    if a == 0 {
        assert(s.skip(0) =~= s);
    } else {
        let t = s.drop_first();
        assert forall|i: int| 0 <= i < a - 1 implies is_unicode_whitespace(#[trigger] t[i]) by {
            assert(t[i] == s[i + 1]);
        }
        lemma_trim_start_at(t, a - 1);
        assert(t.skip(a - 1) =~= s.skip(a));
    }
}

proof fn lemma_trim_end_at(s: Seq<char>, b: int)
    requires
        0 <= b <= s.len(),
        forall|i: int| b <= i < s.len() ==> is_unicode_whitespace(#[trigger] s[i]),
        b == 0 || !is_unicode_whitespace(s[b - 1]),
    ensures
        spec_trim_end(s) == s.take(b),
    decreases s.len() - b,
{
    if b == s.len() {
        assert(s.take(b) =~= s);
    } else {
        let t = s.drop_last();
        assert(is_unicode_whitespace(s.last()));
        assert forall|i: int| b <= i < t.len() implies is_unicode_whitespace(#[trigger] t[i]) by {
            assert(t[i] == s[i]);
        }
        lemma_trim_end_at(t, b);
        assert(t.take(b) =~= s.take(b));
    }
}

/// `s` without leading and trailing white space.
pub fn trim_chars(s: &[char]) -> (t: Vec<char>)
    ensures
        t@ == spec_trim(s@),
{
    let n = s.len();
    let mut a: usize = 0;
    while a < n && is_whitespace(s[a])
        invariant
            a <= n,
            n == s@.len(),
            forall|i: int| 0 <= i < a ==> is_unicode_whitespace(#[trigger] s@[i]),
        decreases n - a,
    {
        a = a + 1;
    }
    proof {
        lemma_trim_start_at(s@, a as int);
    }
    let ghost u = s@.skip(a as int);
    let mut b: usize = n;
    while b > a && is_whitespace(s[b - 1])
        invariant
            a <= b <= n,
            n == s@.len(),
            forall|i: int| b <= i < n ==> is_unicode_whitespace(#[trigger] s@[i]),
        decreases b,
    {
        b = b - 1;
    }
    proof {
        assert forall|i: int| b - a <= i < u.len() implies is_unicode_whitespace(#[trigger] u[i]) by {
            assert(u[i] == s@[i + a]);
        }
        if b > a {
            assert(u[b - a - 1] == s@[b - 1]);
        }
        lemma_trim_end_at(u, b - a);
        assert(u.take(b - a) =~= s@.subrange(a as int, b as int));
    }
    let mut t: Vec<char> = Vec::new();
    let mut k: usize = a;
    while k < b
        invariant
            a <= k <= b,
            b <= n,
            n == s@.len(),
            t@ == s@.subrange(a as int, k as int),
        decreases b - k,
    {
        t.push(s[k]);
        k = k + 1;
        proof {
            assert(t@ =~= s@.subrange(a as int, k as int));
        }
    }
    t
}

proof fn lemma_space_index_at(s: Seq<char>, i: int)
    requires
        0 <= i <= s.len(),
        forall|t: int| 0 <= t < i ==> #[trigger] s[t] != ' ',
    ensures
        space_index(s) == if i < s.len() && s[i] == ' ' {
            Some(i)
        } else if i == s.len() {
            None::<int>
        } else {
            match space_index(s.skip(i)) {
                Some(j) => Some(j + i),
                None => None,
            }
        },
    decreases i,
{
    if i == 0 {
        assert(s.skip(0) =~= s);
    } else {
        let t = s.drop_first();
        assert forall|k: int| 0 <= k < i - 1 implies #[trigger] t[k] != ' ' by {
            assert(t[k] == s[k + 1]);
        }
        lemma_space_index_at(t, i - 1);
        assert(t.skip(i - 1) =~= s.skip(i));
        if i < s.len() {
            assert(t[i - 1] == s[i]);
        }
    }
}

/// The position of the first space in `s`, if any.
fn find_space(s: &[char]) -> (r: Option<usize>)
    ensures
        match r {
            Some(i) => space_index(s@) == Some(i as int) && i < s@.len(),
            None => space_index(s@) is None,
        },
{
    let mut i: usize = 0;
    while i < s.len()
        invariant
            i <= s@.len(),
            forall|t: int| 0 <= t < i ==> #[trigger] s@[t] != ' ',
        decreases s@.len() - i,
    {
        if s[i] == ' ' {
            proof {
                lemma_space_index_at(s@, i as int);
            }
            return Some(i);
        }
        i = i + 1;
    }
    proof {
        lemma_space_index_at(s@, i as int);
    }
    None
}

/// `s` split at its first two spaces into at most three pieces.
pub fn splitn3(s: &[char]) -> (parts: Vec<Vec<char>>)
    ensures
        parts@.len() == spec_splitn3(s@).len(),
        forall|i: int| 0 <= i < parts@.len() ==> (#[trigger] parts@[i])@ == spec_splitn3(s@)[i],
{
    let n = s.len();
    match find_space(s) {
        None => {
            let mut parts: Vec<Vec<char>> = Vec::new();
            parts.push(copy_chars(s, 0, n));
            proof {
                assert(s@.subrange(0, n as int) =~= s@);
            }
            parts
        },
        Some(i) => {
            let first = copy_chars(s, 0, i);
            let rest = copy_chars(s, i + 1, n);
            proof {
                assert(first@ =~= s@.take(i as int));
                assert(rest@ =~= s@.skip(i + 1));
            }
            let mut parts: Vec<Vec<char>> = Vec::new();
            parts.push(first);
            match find_space(rest.as_slice()) {
                None => {
                    parts.push(rest);
                },
                Some(j) => {
                    let second = copy_chars(rest.as_slice(), 0, j);
                    let third = copy_chars(rest.as_slice(), j + 1, rest.len());
                    proof {
                        assert(second@ =~= rest@.take(j as int));
                        assert(third@ =~= rest@.skip(j + 1));
                    }
                    parts.push(second);
                    parts.push(third);
                },
            }
            parts
        },
    }
}

fn copy_chars(s: &[char], start: usize, end: usize) -> (v: Vec<char>)
    requires
        start <= end <= s@.len(),
    ensures
        v@ == s@.subrange(start as int, end as int),
{
    let mut v: Vec<char> = Vec::new();
    let mut k: usize = start;
    while k < end
        invariant
            start <= k <= end,
            end <= s@.len(),
            v@ == s@.subrange(start as int, k as int),
        decreases end - k,
    {
        v.push(s[k]);
        k = k + 1;
        proof {
            assert(v@ =~= s@.subrange(start as int, k as int));
        }
    }
    v
}

// ---- the console ---------------------------------------------------------------
/// The console as a mathematical value.
pub struct ConsoleView {
    pub input: Seq<char>,
    pub history: Seq<Seq<char>>,
    pub cursor: Option<usize>,
    pub output: Seq<(Seq<char>, LineKind)>,
    pub should_quit: bool,
}

/// The lines `help` prints.
pub open spec fn help_lines() -> Seq<Seq<char>> {
    seq![
        "commands:"@,
        "  put <key> <value>   insert or overwrite a key"@,
        "  get <key>           retrieve a value (NOT_FOUND if absent)"@,
        "  delete <key>        delete a key (tombstone)"@,
        "  stats               show live_keys and tombstones"@,
        "  merge               run compaction (removes dead records)"@,
        "  clear               clear this output history"@,
        "  quit / exit         exit the TUI"@,
    ]
}

/// `lines` as output lines of kind `Output`.
pub open spec fn as_output(lines: Seq<Seq<char>>) -> Seq<(Seq<char>, LineKind)> {
    lines.map_values(|l: Seq<char>| (l, LineKind::Output))
}

/// The console after appending one line.
pub open spec fn with_line(c: ConsoleView, text: Seq<char>, kind: LineKind) -> ConsoleView {
    ConsoleView { output: c.output.push((text, kind)), ..c }
}

/// The console after typing `ch`: it is appended to the input line and
/// history browsing ends.
pub open spec fn spec_typed(c: ConsoleView, ch: char) -> ConsoleView {
    ConsoleView { input: c.input.push(ch), cursor: None, ..c }
}

/// The console after a backspace: the last character of the input line
/// (if any) is removed and history browsing ends.
pub open spec fn spec_backspace(c: ConsoleView) -> ConsoleView {
    ConsoleView {
        input: if c.input.len() > 0 {
            c.input.drop_last()
        } else {
            c.input
        },
        cursor: None,
        ..c
    }
}

/// The console after moving to the previous (older) history entry: from
/// outside the history to the newest entry, otherwise one entry back,
/// stopping at the oldest.  Without history nothing changes.
pub open spec fn spec_history_prev(c: ConsoleView) -> ConsoleView {
    if c.history.len() == 0 {
        c
    } else {
        let i: usize = match c.cursor {
            None => (c.history.len() - 1) as usize,
            Some(k) => if k == 0 {
                0usize
            } else {
                (k - 1) as usize
            },
        };
        ConsoleView { input: c.history[i as int], cursor: Some(i), ..c }
    }
}

/// The console after moving to the next (newer) history entry; moving
/// past the newest entry clears the input line and ends browsing.
pub open spec fn spec_history_next(c: ConsoleView) -> ConsoleView {
    match c.cursor {
        None => c,
        Some(i) => if i + 1 >= c.history.len() {
            ConsoleView { input: Seq::empty(), cursor: None, ..c }
        } else {
            ConsoleView { input: c.history[i + 1], cursor: Some((i + 1) as usize), ..c }
        },
    }
}

/// The console after submitting its input line, and what it asks of the
/// store.
///
/// Blank input (only white space) changes nothing.  Otherwise the trimmed
/// line is echoed as `> line`, added to the history, and the input is
/// cleared; then its first word selects the command.
pub open spec fn spec_submit(c: ConsoleView) -> (ConsoleView, Option<StoreRequestView>) {
    let raw = spec_trim(c.input);
    if raw.len() == 0 {
        (c, None)
    } else {
        let base = ConsoleView {
            input: Seq::empty(),
            history: c.history.push(raw),
            cursor: None,
            output: c.output.push(("> "@ + raw, LineKind::Prompt)),
            should_quit: c.should_quit,
        };
        let parts = spec_splitn3(raw);
        let cmd = parts[0];
        if cmd == "help"@ {
            (ConsoleView { output: base.output + as_output(help_lines()), ..base }, None)
        } else if cmd == "put"@ {
            if parts.len() < 3 {
                (with_line(base, "usage: put <key> <value>"@, LineKind::Error), None)
            } else {
                (base, Some(StoreRequestView::Put { key: parts[1], value: parts[2] }))
            }
        } else if cmd == "get"@ {
            if parts.len() < 2 {
                (with_line(base, "usage: get <key>"@, LineKind::Error), None)
            } else {
                (base, Some(StoreRequestView::Get { key: parts[1] }))
            }
        } else if cmd == "delete"@ {
            if parts.len() < 2 {
                (with_line(base, "usage: delete <key>"@, LineKind::Error), None)
            } else {
                (base, Some(StoreRequestView::Delete { key: parts[1] }))
            }
        } else if cmd == "stats"@ {
            (base, Some(StoreRequestView::Stats))
        } else if cmd == "merge"@ {
            (base, Some(StoreRequestView::Merge))
        } else if cmd == "clear"@ {
            (ConsoleView { output: Seq::empty(), ..base }, None)
        } else if cmd == "quit"@ || cmd == "exit"@ {
            (ConsoleView { should_quit: true, ..base }, None)
        } else {
            (
                with_line(
                    base,
                    "unknown command: "@ + cmd + "  (type 'help' for a list of commands)"@,
                    LineKind::Error,
                ),
                None,
            )
        }
    }
}

/// `quit` and `exit` both leave the console: submitting a line whose first
/// word is either sets `should_quit`, asks nothing of the store, echoes the
/// line and records it in the history, and adds no other line (in
/// particular no error).
pub proof fn law_quit_and_exit_leave(c: ConsoleView)
    requires
        spec_splitn3(spec_trim(c.input))[0] == "quit"@ || spec_splitn3(spec_trim(c.input))[0]
            == "exit"@,
    ensures
        ({
            let (c2, req) = spec_submit(c);
            &&& c2.should_quit
            &&& req is None
            &&& c2.output == c.output.push(("> "@ + spec_trim(c.input), LineKind::Prompt))
            &&& c2.history == c.history.push(spec_trim(c.input))
            &&& c2.input == Seq::<char>::empty()
            &&& c2.cursor is None
        }),
{
    reveal_strlit("quit");
    reveal_strlit("exit");
    reveal_strlit("help");
    reveal_strlit("put");
    reveal_strlit("get");
    reveal_strlit("delete");
    reveal_strlit("stats");
    reveal_strlit("merge");
    reveal_strlit("clear");
    let raw = spec_trim(c.input);
    if raw.len() == 0 {
        assert(space_index(raw) is None);
        assert(spec_splitn3(raw)[0] =~= raw);
    }
    let cmd = spec_splitn3(raw)[0];
    assert(cmd.len() == 4 && (cmd[0] == 'q' || cmd[0] == 'e'));
    assert(cmd != "help"@) by {
        assert("help"@[0] == 'h');
    }
    assert(cmd != "put"@);
    assert(cmd != "get"@);
    assert(cmd != "delete"@);
    assert(cmd != "stats"@);
    assert(cmd != "merge"@);
    assert(cmd != "clear"@);
}

/// Browsing back through the history moves to an older entry and shows it:
/// from outside the history to the newest entry, from any other entry to
/// the one before it, and from the oldest entry nowhere; it never moves to
/// a newer entry, and it changes nothing but the input line and the
/// position.
pub proof fn law_history_prev_moves_older(c: ConsoleView)
    requires
        c.history.len() > 0,
        c.cursor matches Some(k) ==> k < c.history.len(),
    ensures
        ({
            let c2 = spec_history_prev(c);
            &&& c2.cursor is Some
            &&& c2.cursor->0 < c.history.len()
            &&& c2.input == c.history[c2.cursor->0 as int]
            &&& c.cursor is None ==> c2.cursor == Some((c.history.len() - 1) as usize)
            &&& c.cursor is Some ==> c2.cursor->0 <= c.cursor->0
            &&& (c.cursor is Some && c.cursor->0 > 0) ==> c2.cursor == Some((c.cursor->0 - 1) as usize)
            &&& c.cursor == Some(0usize) ==> c2.cursor == Some(0usize) && c2.input == c.history[0]
            &&& c2.history == c.history
            &&& c2.output == c.output
            &&& c2.should_quit == c.should_quit
        }),
{
}

/// Browsing forward moves to the next newer entry and shows it; past the
/// newest entry it leaves the history with an empty input line; outside the
/// history it changes nothing.  It never moves to an older entry.
pub proof fn law_history_next_moves_newer(c: ConsoleView)
    requires
        c.cursor matches Some(k) ==> k < c.history.len(),
    ensures
        ({
            let c2 = spec_history_next(c);
            &&& c.cursor is None ==> c2 == c
            &&& (c.cursor is Some && c.cursor->0 + 1 < c.history.len()) ==> {
                &&& c2.cursor == Some((c.cursor->0 + 1) as usize)
                &&& c2.input == c.history[c.cursor->0 + 1]
            }
            &&& (c.cursor is Some && c.cursor->0 + 1 == c.history.len()) ==> {
                &&& c2.cursor is None
                &&& c2.input == Seq::<char>::empty()
            }
            &&& c2.history == c.history
            &&& c2.output == c.output
            &&& c2.should_quit == c.should_quit
        }),
{
}

/// At the oldest history entry, browsing back again changes nothing.
pub proof fn law_history_prev_stops_at_oldest(c: ConsoleView)
    requires
        c.history.len() > 0,
        c.cursor matches Some(k) ==> k < c.history.len(),
        spec_history_prev(c).cursor == Some(0usize),
    ensures
        spec_history_prev(spec_history_prev(c)) == spec_history_prev(c),
{
}

/// The text shown for a finished store write or merge.
pub open spec fn write_outcome_line(outcome: Result<(), Seq<char>>) -> (Seq<char>, LineKind) {
    match outcome {
        Ok(()) => ("OK"@, LineKind::Output),
        Err(m) => ("error: "@ + m, LineKind::Error),
    }
}

/// The text shown for a finished read.
pub open spec fn get_outcome_line(outcome: Result<Option<Seq<char>>, Seq<char>>) -> (
    Seq<char>,
    LineKind,
) {
    match outcome {
        Ok(Some(v)) => (v, LineKind::Output),
        Ok(None) => ("NOT_FOUND"@, LineKind::Output),
        Err(m) => ("error: "@ + m, LineKind::Error),
    }
}

/// The text shown for the `stats` command.
pub open spec fn stats_line(st: EngineStats) -> Seq<char> {
    "live_keys="@ + spec_decimal(st.live_keys as nat) + "  tombstones="@ + spec_decimal(
        st.tombstones as nat,
    )
}

/// The text of the stats bar.
pub open spec fn stats_bar_text(st: EngineStats, data_dir: Seq<char>) -> Seq<char> {
    "  live_keys: "@ + spec_decimal(st.live_keys as nat) + "   tombstones: "@ + spec_decimal(
        st.tombstones as nat,
    ) + "   data_dir: "@ + data_dir + "  "@
}

/// The stats bar: live keys, tombstones and the data directory.
pub fn stats_bar(st: EngineStats, data_dir: &str) -> (s: String)
    ensures
        s@ == stats_bar_text(st, data_dir@),
{
    let mut s = string_from("  live_keys: ");
    push_decimal(&mut s, st.live_keys as u64);
    push_str(&mut s, "   tombstones: ");
    push_decimal(&mut s, st.tombstones as u64);
    push_str(&mut s, "   data_dir: ");
    push_str(&mut s, data_dir);
    push_str(&mut s, "  ");
    proof {
        assert(s@ =~= stats_bar_text(st, data_dir@));
    }
    s
}

/// The keys the console reacts to.
#[derive(Clone, Copy, Debug, PartialEq, Eq, Structural)]
pub enum ConsoleKey {
    /// Submit the input line.
    Enter,
    /// Remove the last character of the input line.
    Backspace,
    /// Recall an older command.
    Up,
    /// Recall a newer command.
    Down,
    /// Ctrl-C or Ctrl-D: leave.
    Quit,
    /// A printable character.
    Char(char),
    /// Any other key, which is ignored.
    Other,
}

/// All mutable state of the console: the input line, the submitted
/// commands, the position while browsing them, and the output history.
pub struct Console {
    input: String,
    history: Vec<String>,
    history_cursor: Option<usize>,
    output: Vec<OutputLine>,
    /// Whether the console should exit on the next event loop tick.
    pub should_quit: bool,
}

impl View for Console {
    type V = ConsoleView;

    closed spec fn view(&self) -> ConsoleView {
        ConsoleView {
            input: self.spec_input(),
            history: self.spec_history(),
            cursor: self.spec_cursor(),
            output: self.spec_output(),
            should_quit: self.should_quit,
        }
    }
}

impl Console {
    pub closed spec fn spec_input(&self) -> Seq<char> {
        self.input@
    }

    pub closed spec fn spec_history(&self) -> Seq<Seq<char>> {
        self.history@.map_values(|h: String| h@)
    }

    pub closed spec fn spec_cursor(&self) -> Option<usize> {
        self.history_cursor
    }

    pub closed spec fn spec_output(&self) -> Seq<(Seq<char>, LineKind)> {
        self.output@.map_values(|l: OutputLine| (l.text@, l.kind))
    }

    /// While browsing the history, the cursor points at an entry.
    pub open spec fn wf(&self) -> bool {
        match self@.cursor {
            Some(i) => i < self@.history.len(),
            None => true,
        }
    }

    /// An empty console.
    pub fn new() -> (c: Self)
        ensures
            c.wf(),
            c@.input == Seq::<char>::empty(),
            c@.history == Seq::<Seq<char>>::empty(),
            c@.cursor is None,
            c@.output == Seq::<(Seq<char>, LineKind)>::empty(),
            !c@.should_quit,
    {
        let c = Console {
            input: empty_string(),
            history: Vec::new(),
            history_cursor: None,
            output: Vec::new(),
            should_quit: false,
        };
        proof {
            assert(c@.history =~= Seq::<Seq<char>>::empty());
            assert(c@.output =~= Seq::<(Seq<char>, LineKind)>::empty());
        }
        c
    }

    /// Current text in the input line.
    pub fn current_input(&self) -> (s: &str)
        ensures
            s@ == self@.input,
    {
        self.input.as_str()
    }

    /// All lines in the output history.
    pub fn output_lines(&self) -> (lines: &[OutputLine])
        ensures
            lines@.map_values(|l: OutputLine| (l.text@, l.kind)) == self@.output,
    {
        self.output.as_slice()
    }

    /// Replaces the input line.
    pub fn set_input(&mut self, text: &str)
        ensures
            final(self)@ == (ConsoleView { input: text@, cursor: None, ..old(self)@ }),
            final(self).wf(),
    {
        self.input = string_from(text);
        self.history_cursor = None;
    }

    /// Appends a character to the input line.
    pub fn push_char(&mut self, ch: char)
        ensures
            final(self)@ == spec_typed(old(self)@, ch),
            final(self).wf(),
    {
        push_char(&mut self.input, ch);
        self.history_cursor = None;
    }

    /// Removes the last character of the input line, if any.
    pub fn backspace(&mut self)
        ensures
            final(self)@ == spec_backspace(old(self)@),
            final(self).wf(),
    {
        let chars = chars_of(self.input.as_str());
        let n = chars.len();
        if n > 0 {
            let mut s = empty_string();
            push_chars(&mut s, &chars.as_slice()[0..n - 1]);
            self.input = s;
            proof {
                assert(self.input@ =~= old(self)@.input.drop_last());
            }
        }
        self.history_cursor = None;
    }

    /// Moves to the previous (older) history entry and shows it.
    pub fn history_prev(&mut self)
        requires
            old(self).wf(),
        ensures
            final(self).wf(),
            final(self)@ == spec_history_prev(old(self)@),
    {
        let n = self.history.len();
        if n == 0 {
            return;
        }
        let i: usize = match self.history_cursor {
            None => n - 1,
            Some(c) => if c == 0 {
                0
            } else {
                c - 1
            },
        };
        self.history_cursor = Some(i);
        self.input = self.history[i].clone();
    }

    /// Moves to the next (newer) history entry and shows it; moving past
    /// the newest entry clears the input line.
    pub fn history_next(&mut self)
        requires
            old(self).wf(),
        ensures
            final(self).wf(),
            final(self)@ == spec_history_next(old(self)@),
    {
        match self.history_cursor {
            None => {},
            Some(i) => {
                let n = self.history.len();
                proof {
                    assert(self@.history.len() == self.history@.len());
                }
                if i + 1 >= n {
                    self.history_cursor = None;
                    self.input = empty_string();
                } else {
                    self.history_cursor = Some(i + 1);
                    self.input = self.history[i + 1].clone();
                }
            },
        }
    }

    fn push_line(&mut self, line: OutputLine)
        ensures
            final(self)@ == with_line(old(self)@, line.text@, line.kind),
            final(self).history_cursor == old(self).history_cursor,
            final(self).history@ == old(self).history@,
    {
        self.output.push(line);
        proof {
            assert(self.spec_output() =~= old(self).spec_output().push((line.text@, line.kind)));
        }
    }

    /// Submits the input line: records and echoes it, then runs the command
    /// it names, or returns the request it makes of the store.
    pub fn submit(&mut self) -> (req: Option<StoreRequest>)
        requires
            old(self).wf(),
        ensures
            final(self).wf(),
            (final(self)@, match req {
                Some(r) => Some(r@),
                None => None,
            }) == spec_submit(old(self)@),
    {
        let chars = chars_of(self.input.as_str());
        let raw = trim_chars(chars.as_slice());
        if raw.len() == 0 {
            return None;
        }
        let mut prompt = string_from("> ");
        push_chars(&mut prompt, raw.as_slice());
        self.push_line(OutputLine::prompt(prompt));
        self.history.push(string_from_chars(raw.as_slice()));
        self.history_cursor = None;
        self.input = empty_string();
        proof {
            assert(self.spec_history() =~= old(self)@.history.push(raw@));
        }
        let ghost base = self@;
        let parts = splitn3(raw.as_slice());
        let ghost sparts = spec_splitn3(raw@);
        proof {
            assert(sparts.len() >= 1);
            assert(parts@[0]@ == sparts[0]);
        }
        let cmd = parts[0].as_slice();
        if chars_eq_str(cmd, "help") {
            self.push_line(OutputLine::output(string_from("commands:")));
            self.push_line(
                OutputLine::output(string_from("  put <key> <value>   insert or overwrite a key")),
            );
            self.push_line(
                OutputLine::output(
                    string_from("  get <key>           retrieve a value (NOT_FOUND if absent)"),
                ),
            );
            self.push_line(
                OutputLine::output(string_from("  delete <key>        delete a key (tombstone)")),
            );
            self.push_line(
                OutputLine::output(string_from("  stats               show live_keys and tombstones")),
            );
            self.push_line(
                OutputLine::output(
                    string_from("  merge               run compaction (removes dead records)"),
                ),
            );
            self.push_line(
                OutputLine::output(string_from("  clear               clear this output history")),
            );
            self.push_line(OutputLine::output(string_from("  quit / exit         exit the TUI")));
            proof {
                assert(self@.output =~= base.output + as_output(help_lines()));
            }
            None
        } else if chars_eq_str(cmd, "put") {
            if parts.len() < 3 {
                self.push_line(OutputLine::error(string_from("usage: put <key> <value>")));
                None
            } else {
                proof {
                    assert(parts@[1]@ == sparts[1]);
                    assert(parts@[2]@ == sparts[2]);
                }
                Some(
                    StoreRequest::Put {
                        key: string_from_chars(parts[1].as_slice()),
                        value: string_from_chars(parts[2].as_slice()),
                    },
                )
            }
        } else if chars_eq_str(cmd, "get") {
            if parts.len() < 2 {
                self.push_line(OutputLine::error(string_from("usage: get <key>")));
                None
            } else {
                proof {
                    assert(parts@[1]@ == sparts[1]);
                }
                Some(StoreRequest::Get { key: string_from_chars(parts[1].as_slice()) })
            }
        } else if chars_eq_str(cmd, "delete") {
            if parts.len() < 2 {
                self.push_line(OutputLine::error(string_from("usage: delete <key>")));
                None
            } else {
                proof {
                    assert(parts@[1]@ == sparts[1]);
                }
                Some(StoreRequest::Delete { key: string_from_chars(parts[1].as_slice()) })
            }
        } else if chars_eq_str(cmd, "stats") {
            Some(StoreRequest::Stats)
        } else if chars_eq_str(cmd, "merge") {
            Some(StoreRequest::Merge)
        } else if chars_eq_str(cmd, "clear") {
            self.output = Vec::new();
            proof {
                assert(self@.output =~= Seq::<(Seq<char>, LineKind)>::empty());
            }
            None
        } else if chars_eq_str(cmd, "quit") || chars_eq_str(cmd, "exit") {
            self.should_quit = true;
            None
        } else {
            let mut msg = string_from("unknown command: ");
            push_chars(&mut msg, cmd);
            push_str(&mut msg, "  (type 'help' for a list of commands)");
            self.push_line(OutputLine::error(msg));
            None
        }
    }

    /// Shows the outcome of a put, delete or merge.
    pub fn finish_write(&mut self, outcome: Result<(), String>)
        requires
            old(self).wf(),
        ensures
            final(self).wf(),
            final(self)@ == with_line(
                old(self)@,
                write_outcome_line(
                    match outcome {
                        Ok(()) => Ok(()),
                        Err(m) => Err(m@),
                    },
                ).0,
                write_outcome_line(
                    match outcome {
                        Ok(()) => Ok(()),
                        Err(m) => Err(m@),
                    },
                ).1,
            ),
    {
        match outcome {
            Ok(()) => self.push_line(OutputLine::output(string_from("OK"))),
            Err(m) => {
                let mut msg = string_from("error: ");
                push_str(&mut msg, m.as_str());
                self.push_line(OutputLine::error(msg));
            },
        }
    }

    /// Shows the outcome of a get: the value, `NOT_FOUND`, or the error.
    pub fn finish_get(&mut self, outcome: Result<Option<String>, String>)
        requires
            old(self).wf(),
        ensures
            final(self).wf(),
            final(self)@ == with_line(
                old(self)@,
                get_outcome_line(
                    match outcome {
                        Ok(Some(v)) => Ok(Some(v@)),
                        Ok(None) => Ok(None),
                        Err(m) => Err(m@),
                    },
                ).0,
                get_outcome_line(
                    match outcome {
                        Ok(Some(v)) => Ok(Some(v@)),
                        Ok(None) => Ok(None),
                        Err(m) => Err(m@),
                    },
                ).1,
            ),
    {
        match outcome {
            Ok(Some(v)) => self.push_line(OutputLine::output(v)),
            Ok(None) => self.push_line(OutputLine::output(string_from("NOT_FOUND"))),
            Err(m) => {
                let mut msg = string_from("error: ");
                push_str(&mut msg, m.as_str());
                self.push_line(OutputLine::error(msg));
            },
        }
    }

    /// Shows the live key and tombstone counts.
    pub fn finish_stats(&mut self, st: EngineStats)
        requires
            old(self).wf(),
        ensures
            final(self).wf(),
            final(self)@ == with_line(old(self)@, stats_line(st), LineKind::Output),
    {
        let mut msg = string_from("live_keys=");
        push_decimal(&mut msg, st.live_keys as u64);
        push_str(&mut msg, "  tombstones=");
        push_decimal(&mut msg, st.tombstones as u64);
        proof {
            assert(msg@ =~= stats_line(st));
        }
        self.push_line(OutputLine::output(msg));
    }
    /// Applies one key: enter submits (returning the request it makes of
    /// the store), backspace, up and down edit or browse, a character is
    /// typed, quit asks the console to exit, other keys do nothing.
    pub fn handle_key(&mut self, key: ConsoleKey) -> (req: Option<StoreRequest>)
        requires
            old(self).wf(),
        ensures
            final(self).wf(),
            key != ConsoleKey::Enter ==> req is None,
            match key {
                ConsoleKey::Enter => (final(self)@, match req {
                    Some(r) => Some(r@),
                    None => None,
                }) == spec_submit(old(self)@),
                ConsoleKey::Backspace => final(self)@ == spec_backspace(old(self)@),
                ConsoleKey::Up => final(self)@ == spec_history_prev(old(self)@),
                ConsoleKey::Down => final(self)@ == spec_history_next(old(self)@),
                ConsoleKey::Quit => final(self)@ == (ConsoleView { should_quit: true, ..old(self)@ }),
                ConsoleKey::Char(ch) => final(self)@ == spec_typed(old(self)@, ch),
                ConsoleKey::Other => final(self)@ == old(self)@,
            },
    {
        match key {
            ConsoleKey::Enter => self.submit(),
            ConsoleKey::Backspace => {
                self.backspace();
                None
            },
            ConsoleKey::Up => {
                self.history_prev();
                None
            },
            ConsoleKey::Down => {
                self.history_next();
                None
            },
            ConsoleKey::Quit => {
                self.should_quit = true;
                None
            },
            ConsoleKey::Char(ch) => {
                self.push_char(ch);
                None
            },
            ConsoleKey::Other => None,
        }
    }
}

} // verus!
