//! State of the tracer's live screen: the serial and parallel runs side by
//! side, their progress counters, the column focus, scrolling and the
//! collapsed threads of the parallel column.
use crate::text::{
    empty_string, format_thousands, push_decimal, push_str, spec_decimal, spec_group_thousands,
    string_from,
};
use crate::tracer::dataset::DatasetParams;
use crate::tracer::setup::{RunMode, SetupState};
use crate::tracer::worker::{
    assign_files, effective_threads, thread_gets_round_robin, FileSlot, SlotState, ThreadState,
};
use std::collections::HashSet;
use vstd::prelude::*;

verus! {

broadcast use vstd::std_specs::hash::group_hash_axioms;

/// Which column currently receives the up and down keys.
#[derive(Clone, Copy, Debug, PartialEq, Eq, Structural)]
pub enum FocusedColumn {
    Serial,
    Parallel,
}

/// Keys a slot has found so far: its live count while it is scanned, its
/// final count once done, none while queued.
pub open spec fn slot_keys(s: FileSlot) -> nat {
    match s.state {
        SlotState::Queued => 0,
        SlotState::Processing { keys_found, .. } => keys_found as nat,
        SlotState::Done { keys_found, .. } => keys_found as nat,
    }
}

/// Keys found by all of `slots`.
pub open spec fn slots_keys(slots: Seq<FileSlot>) -> nat
    decreases slots.len(),
{
    if slots.len() == 0 {
        0
    } else {
        slots_keys(slots.drop_last()) + slot_keys(slots.last())
    }
}

/// Keys found by all slots of all `threads`.
pub open spec fn side_keys(threads: Seq<ThreadState>) -> nat
    decreases threads.len(),
{
    if threads.len() == 0 {
        0
    } else {
        side_keys(threads.drop_last()) + slots_keys(threads.last().slots@)
    }
}

/// The number of slots of all `threads`.
pub open spec fn side_slots(threads: Seq<ThreadState>) -> nat
    decreases threads.len(),
{
    if threads.len() == 0 {
        0
    } else {
        side_slots(threads.drop_last()) + threads.last().slots@.len()
    }
}

/// The number of finished slots among `slots`.
pub open spec fn done_slots(slots: Seq<FileSlot>) -> nat
    decreases slots.len(),
{
    if slots.len() == 0 {
        0
    } else {
        done_slots(slots.drop_last()) + if slots.last().state is Done {
            1nat
        } else {
            0nat
        }
    }
}

proof fn lemma_slots_keys_prefix(slots: Seq<FileSlot>, i: int)
    requires
        0 <= i <= slots.len(),
    ensures
        slots_keys(slots.take(i)) <= slots_keys(slots),
    decreases slots.len() - i,
{
    if i < slots.len() {
        lemma_slots_keys_prefix(slots, i + 1);
        assert(slots.take(i + 1).drop_last() =~= slots.take(i));
    } else {
        assert(slots.take(i) =~= slots);
    }
}

proof fn lemma_side_keys_prefix(threads: Seq<ThreadState>, i: int)
    requires
        0 <= i <= threads.len(),
    ensures
        side_keys(threads.take(i)) <= side_keys(threads),
    decreases threads.len() - i,
{
    if i < threads.len() {
        lemma_side_keys_prefix(threads, i + 1);
        assert(threads.take(i + 1).drop_last() =~= threads.take(i));
    } else {
        assert(threads.take(i) =~= threads);
    }
}

proof fn lemma_side_slots_prefix(threads: Seq<ThreadState>, i: int)
    requires
        0 <= i <= threads.len(),
    ensures
        side_slots(threads.take(i)) <= side_slots(threads),
    decreases threads.len() - i,
{
    if i < threads.len() {
        lemma_side_slots_prefix(threads, i + 1);
        assert(threads.take(i + 1).drop_last() =~= threads.take(i));
    } else {
        assert(threads.take(i) =~= threads);
    }
}

/// The keys found so far by the slots of `threads`.
pub fn keys_found(threads: &[ThreadState]) -> (n: usize)
    requires
        side_keys(threads@) <= usize::MAX,
    ensures
        n == side_keys(threads@),
{
    let mut total: usize = 0;
    let mut t: usize = 0;
    while t < threads.len()
        invariant
            t <= threads@.len(),
            total == side_keys(threads@.take(t as int)),
            side_keys(threads@) <= usize::MAX,
        decreases threads@.len() - t,
    {
        let slots = &threads[t].slots;
        let ghost before = total;
        proof {
            lemma_side_keys_prefix(threads@, t + 1);
            assert(threads@.take(t + 1).drop_last() =~= threads@.take(t as int));
        }
        let mut j: usize = 0;
        while j < slots.len()
            invariant
                j <= slots@.len(),
                slots@ == threads@[t as int].slots@,
                total == before + slots_keys(slots@.take(j as int)),
                before + slots_keys(slots@) <= usize::MAX,
            decreases slots@.len() - j,
        {
            proof {
                lemma_slots_keys_prefix(slots@, j + 1);
                assert(slots@.take(j + 1).drop_last() =~= slots@.take(j as int));
            }
            let k: usize = match slots[j].state {
                SlotState::Queued => 0,
                SlotState::Processing { keys_found, .. } => keys_found,
                SlotState::Done { keys_found, .. } => keys_found,
            };
            total = total + k;
            j = j + 1;
        }
        proof {
            assert(slots@.take(slots@.len() as int) =~= slots@);
        }
        t = t + 1;
    }
    proof {
        assert(threads@.take(threads@.len() as int) =~= threads@);
    }
    total
}

/// The number of slots of all `threads`.
pub fn slot_total(threads: &[ThreadState]) -> (n: usize)
    requires
        side_slots(threads@) <= usize::MAX,
    ensures
        n == side_slots(threads@),
{
    let mut total: usize = 0;
    let mut t: usize = 0;
    while t < threads.len()
        invariant
            t <= threads@.len(),
            total == side_slots(threads@.take(t as int)),
            side_slots(threads@) <= usize::MAX,
        decreases threads@.len() - t,
    {
        proof {
            lemma_side_slots_prefix(threads@, t + 1);
            assert(threads@.take(t + 1).drop_last() =~= threads@.take(t as int));
        }
        total = total + threads[t].slots.len();
        t = t + 1;
    }
    proof {
        assert(threads@.take(threads@.len() as int) =~= threads@);
    }
    total
}

/// The number of finished slots of `thread`.
pub fn done_count(thread: &ThreadState) -> (n: usize)
    ensures
        n == done_slots(thread.slots@),
{
    let slots = &thread.slots;
    let mut n: usize = 0;
    let mut j: usize = 0;
    while j < slots.len()
        invariant
            j <= slots@.len(),
            n == done_slots(slots@.take(j as int)),
            n <= j,
        decreases slots@.len() - j,
    {
        proof {
            assert(slots@.take(j + 1).drop_last() =~= slots@.take(j as int));
        }
        if let SlotState::Done { .. } = slots[j].state {
            n = n + 1;
        }
        j = j + 1;
    }
    proof {
        assert(slots@.take(slots@.len() as int) =~= slots@);
    }
    n
}

/// The text after a slot's progress bar.
pub open spec fn spec_slot_suffix(s: SlotState) -> Seq<char> {
    match s {
        SlotState::Queued => "  queued"@,
        SlotState::Processing { keys_found, .. } => "  "@ + spec_group_thousands(
            spec_decimal(keys_found as nat),
        ) + " keys..."@,
        SlotState::Done { duration_us, keys_found, .. } => "  "@ + spec_decimal(duration_us as nat)
            + "us  "@ + spec_group_thousands(spec_decimal(keys_found as nat)) + " keys"@,
    }
}

/// The text after a slot's progress bar: `queued`, the live key count,
/// or the scan time and the final key count.
pub fn slot_suffix(state: &SlotState) -> (s: String)
    ensures
        s@ == spec_slot_suffix(*state),
{
    match state {
        SlotState::Queued => string_from("  queued"),
        SlotState::Processing { keys_found, .. } => {
            let mut s = string_from("  ");
            let n = format_thousands(*keys_found as u64);
            push_str(&mut s, n.as_str());
            push_str(&mut s, " keys...");
            s
        },
        SlotState::Done { duration_us, keys_found, .. } => {
            let mut s = string_from("  ");
            push_decimal(&mut s, *duration_us);
            push_str(&mut s, "us  ");
            let n = format_thousands(*keys_found as u64);
            push_str(&mut s, n.as_str());
            push_str(&mut s, " keys");
            s
        },
    }
}

/// The header line of a thread in a column: collapsed threads show how
/// many of their files are done.
pub open spec fn spec_thread_header(id: usize, collapsed: bool, done: nat, files: nat) -> Seq<
    char,
> {
    if collapsed {
        "\u{25B6} Thread "@ + spec_decimal(id as nat) + "  ("@ + spec_decimal(done) + "/"@
            + spec_decimal(files) + " files)"@
    } else {
        "\u{25BC} Thread "@ + spec_decimal(id as nat)
    }
}

/// The header line of `thread` in a column.
pub fn thread_header(thread: &ThreadState, collapsed: bool) -> (s: String)
    ensures
        s@ == spec_thread_header(
            thread.thread_id,
            collapsed,
            done_slots(thread.slots@),
            thread.slots@.len(),
        ),
{
    if collapsed {
        let done = done_count(thread);
        let mut s = string_from("\u{25B6} Thread ");
        push_decimal(&mut s, thread.thread_id as u64);
        push_str(&mut s, "  (");
        push_decimal(&mut s, done as u64);
        push_str(&mut s, "/");
        push_decimal(&mut s, thread.slots.len() as u64);
        push_str(&mut s, " files)");
        s
    } else {
        let mut s = string_from("\u{25BC} Thread ");
        push_decimal(&mut s, thread.thread_id as u64);
        s
    }
}

/// One run (serial or parallel) as the live screen shows it.
pub struct SideSnapshot {
    pub label: String,
    pub thread_states: Vec<ThreadState>,
    pub elapsed_us: u64,
    pub done: bool,
    /// Whether the run has been launched.
    pub started: bool,
}

/// The status shown in a column's title.
pub open spec fn spec_side_status(done: bool, started: bool) -> Seq<char> {
    if done {
        "done"@
    } else if started {
        "running..."@
    } else {
        "waiting"@
    }
}

impl SideSnapshot {
    /// The status shown in the column's title.
    pub fn status(&self) -> (s: &'static str)
        ensures
            s@ == spec_side_status(self.done, self.started),
    {
        if self.done {
            "done"
        } else if self.started {
            "running..."
        } else {
            "waiting"
        }
    }

    /// The message shown in place of the slots while no file has been
    /// assigned and the run is not done.
    pub fn placeholder(&self) -> (m: Option<&'static str>)
        ensures
            m is Some <==> (!self.done && forall|t: int|
                0 <= t < self.thread_states@.len() ==> (
                #[trigger] self.thread_states@[t]).slots@.len() == 0),
            m matches Some(text) ==> text@ == if self.started {
                "  (loading file list...)"@
            } else {
                "  (waiting for previous run to finish...)"@
            },
    {
        if self.done {
            return None;
        }
        let mut t: usize = 0;
        while t < self.thread_states.len()
            invariant
                t <= self.thread_states@.len(),
                forall|u: int|
                    0 <= u < t ==> (#[trigger] self.thread_states@[u]).slots@.len() == 0,
            decreases self.thread_states@.len() - t,
        {
            if self.thread_states[t].slots.len() > 0 {
                return None;
            }
            t = t + 1;
        }
        if self.started {
            Some("  (loading file list...)")
        } else {
            Some("  (waiting for previous run to finish...)")
        }
    }

    /// Takes the latest progress of a running scan: a non-empty snapshot
    /// of the thread states replaces the shown one, and the elapsed time,
    /// where there is one, replaces the shown time.
    pub fn refresh(&mut self, snapshot: Vec<ThreadState>, elapsed_us: Option<u64>)
        ensures
            final(self).thread_states@ == if snapshot@.len() > 0 {
                snapshot@
            } else {
                old(self).thread_states@
            },
            final(self).elapsed_us == match elapsed_us {
                Some(e) => e,
                None => old(self).elapsed_us,
            },
            final(self).label == old(self).label,
            final(self).done == old(self).done,
            final(self).started == old(self).started,
    {
        if snapshot.len() > 0 {
            self.thread_states = snapshot;
        }
        if let Some(e) = elapsed_us {
            self.elapsed_us = e;
        }
    }

    /// Records a finished run: its final thread states and wall time.
    pub fn complete(&mut self, thread_states: Vec<ThreadState>, wall_time_us: u64)
        ensures
            final(self).thread_states@ == thread_states@,
            final(self).elapsed_us == wall_time_us,
            final(self).done,
            final(self).label == old(self).label,
            final(self).started == old(self).started,
    {
        self.thread_states = thread_states;
        self.elapsed_us = wall_time_us;
        self.done = true;
    }
}

/// The hint line at the bottom of the live screen.
#[derive(Clone, Copy, Debug, PartialEq, Eq, Structural)]
pub enum FooterHint {
    /// Enter shows the results; arrows scroll and switch columns.
    Results,
    /// Arrows move the thread cursor; enter toggles the thread.
    Cursor,
    /// Arrows scroll and switch columns.
    Scroll,
}

/// What the event loop does after a key on the live screen.
#[derive(Clone, Copy, Debug, PartialEq, Eq, Structural)]
pub enum LiveAction {
    Stay,
    ShowResult,
    Quit,
}

/// The keys the live screen reacts to.
#[derive(Clone, Copy, Debug, PartialEq, Eq, Structural)]
pub enum LiveKey {
    Left,
    Right,
    Up,
    Down,
    Enter,
    Space,
    Quit,
}

/// All state of the live screen.
pub struct LiveState {
    pub serial: SideSnapshot,
    pub parallel: SideSnapshot,
    /// Total keys in the dataset, for the footer counter.
    pub total_keys: usize,
    /// How many columns are shown: two when both runs are performed.
    pub columns: usize,
    pub serial_scroll: u16,
    pub parallel_scroll: u16,
    pub focused: FocusedColumn,
    /// The thread header under the cursor in the parallel column.
    pub parallel_cursor: usize,
    /// Ids of the threads whose slots are collapsed in the parallel column.
    pub collapsed_threads: HashSet<usize>,
    /// Whether every required run is done.
    pub finished: bool,
}

/// The larger of two counts.
pub open spec fn larger(a: nat, b: nat) -> nat {
    if a >= b {
        a
    } else {
        b
    }
}

/// The collapsed set after toggling the thread under the cursor.
pub open spec fn toggled(collapsed: Set<usize>, threads: Seq<ThreadState>, cursor: usize) -> Set<
    usize,
> {
    if threads.len() == 0 {
        collapsed
    } else {
        let at = if cursor < threads.len() {
            cursor as int
        } else {
            threads.len() - 1
        };
        let tid = threads[at].thread_id;
        if collapsed.contains(tid) {
            collapsed.remove(tid)
        } else {
            collapsed.insert(tid)
        }
    }
}

/// A scroll offset one line up, stopping at the top.
pub open spec fn scroll_up(s: u16) -> u16 {
    if s > 0 {
        (s - 1) as u16
    } else {
        0
    }
}

/// A scroll offset one line down, stopping at the largest offset.
pub open spec fn scroll_down(s: u16) -> u16 {
    if s < u16::MAX {
        (s + 1) as u16
    } else {
        u16::MAX
    }
}

/// The parallel cursor one thread up, stopping at the first.
pub open spec fn cursor_up(c: usize) -> usize {
    if c > 0 {
        (c - 1) as usize
    } else {
        0
    }
}

/// The parallel cursor one thread down, stopping at the last of `n`.
pub open spec fn cursor_down(c: usize, n: nat) -> usize {
    let last = if n > 0 {
        n - 1
    } else {
        0
    };
    if c + 1 <= last {
        (c + 1) as usize
    } else {
        last as usize
    }
}

/// The parallel scroll offset after the cursor moved up to `cursor`: no
/// further down than the cursor's row (its low sixteen bits).
pub open spec fn scroll_within(scroll: u16, cursor: usize) -> u16 {
    if scroll <= cursor as u16 {
        scroll
    } else {
        cursor as u16
    }
}

/// Whether every run that `mode` asks for is done.
pub open spec fn spec_runs_done(mode: RunMode, serial_done: bool, parallel_done: bool) -> bool {
    match mode {
        RunMode::Serial => serial_done,
        RunMode::Parallel => parallel_done,
        RunMode::Both => serial_done && parallel_done,
    }
}

impl LiveState {
    /// Number of thread headers in the parallel column.
    pub fn parallel_thread_count(&self) -> (n: usize)
        ensures
            n == self.parallel.thread_states@.len(),
    {
        self.parallel.thread_states.len()
    }

    /// Collapses the thread under the parallel cursor, or expands it if it
    /// is collapsed; a cursor past the end stands on the last thread.
    pub fn toggle_parallel_cursor(&mut self)
        ensures
            final(self).collapsed_threads@ == toggled(
                old(self).collapsed_threads@,
                old(self).parallel.thread_states@,
                old(self).parallel_cursor,
            ),
            final(self).parallel == old(self).parallel,
            final(self).serial == old(self).serial,
            final(self).parallel_cursor == old(self).parallel_cursor,
            final(self).focused == old(self).focused,
            final(self).finished == old(self).finished,
            final(self).serial_scroll == old(self).serial_scroll,
            final(self).parallel_scroll == old(self).parallel_scroll,
            final(self).columns == old(self).columns,
            final(self).total_keys == old(self).total_keys,
    {
        let n = self.parallel_thread_count();
        if n == 0 {
            return ;
        }
        let cursor = if self.parallel_cursor < n - 1 {
            self.parallel_cursor
        } else {
            n - 1
        };
        let tid = self.parallel.thread_states[cursor].thread_id;
        if self.collapsed_threads.contains(&tid) {
            self.collapsed_threads.remove(&tid);
        } else {
            self.collapsed_threads.insert(tid);
        }
    }

    /// Which hint the footer shows: once every run is done (and the
    /// parallel column does not have the focus) how to see the results,
    /// with the parallel column focused how to use its cursor, otherwise
    /// how to scroll.
    pub fn footer_hint(&self) -> (h: FooterHint)
        ensures
            h == if self.finished && !(self.focused == FocusedColumn::Parallel && self.columns
                == 2) {
                FooterHint::Results
            } else if self.focused == FocusedColumn::Parallel && self.columns == 2 {
                FooterHint::Cursor
            } else {
                FooterHint::Scroll
            },
    {
        let parallel_focused = self.focused == FocusedColumn::Parallel && self.columns == 2;
        if self.finished && !parallel_focused {
            FooterHint::Results
        } else if parallel_focused {
            FooterHint::Cursor
        } else {
            FooterHint::Scroll
        }
    }

    /// Keys rebuilt so far: the larger of the two runs' counts.
    pub fn keys_rebuilt(&self) -> (n: usize)
        requires
            side_keys(self.serial.thread_states@) <= usize::MAX,
            side_keys(self.parallel.thread_states@) <= usize::MAX,
        ensures
            n == larger(
                side_keys(self.serial.thread_states@),
                side_keys(self.parallel.thread_states@),
            ),
    {
        let s = keys_found(self.serial.thread_states.as_slice());
        let p = keys_found(self.parallel.thread_states.as_slice());
        if s >= p {
            s
        } else {
            p
        }
    }

    /// The number of data files of the dataset: the larger slot count of
    /// the two runs.
    pub fn total_files(&self) -> (n: usize)
        requires
            side_slots(self.serial.thread_states@) <= usize::MAX,
            side_slots(self.parallel.thread_states@) <= usize::MAX,
        ensures
            n == larger(
                side_slots(self.serial.thread_states@),
                side_slots(self.parallel.thread_states@),
            ),
    {
        let s = slot_total(self.serial.thread_states.as_slice());
        let p = slot_total(self.parallel.thread_states.as_slice());
        if s >= p {
            s
        } else {
            p
        }
    }

    /// Marks the run that goes first as started: the parallel one when it
    /// is the only run, the serial one otherwise.  Returns whether the
    /// parallel run is the one to launch.
    pub fn start_first_run(&mut self, mode: RunMode) -> (parallel_first: bool)
        ensures
            parallel_first == (mode == RunMode::Parallel),
            final(self).parallel.started == (parallel_first || old(self).parallel.started),
            final(self).serial.started == (!parallel_first || old(self).serial.started),
            final(self).serial == (SideSnapshot { started: final(self).serial.started, ..old(self).serial }),
            final(self).parallel == (SideSnapshot {
                started: final(self).parallel.started,
                ..old(self).parallel
            }),
            final(self).total_keys == old(self).total_keys,
            final(self).columns == old(self).columns,
            final(self).serial_scroll == old(self).serial_scroll,
            final(self).parallel_scroll == old(self).parallel_scroll,
            final(self).focused == old(self).focused,
            final(self).parallel_cursor == old(self).parallel_cursor,
            final(self).collapsed_threads@ == old(self).collapsed_threads@,
            final(self).finished == old(self).finished,
    {
        if mode == RunMode::Parallel {
            self.parallel.started = true;
            true
        } else {
            self.serial.started = true;
            false
        }
    }

    /// Records the end of the serial run.  When both runs are performed
    /// the parallel run starts next; returns whether it does.
    pub fn finish_serial(
        &mut self,
        thread_states: Vec<ThreadState>,
        wall_time_us: u64,
        mode: RunMode,
    ) -> (start_parallel: bool)
        ensures
            start_parallel == (mode == RunMode::Both),
            final(self).serial.done,
            final(self).serial.thread_states@ == thread_states@,
            final(self).serial.elapsed_us == wall_time_us,
            final(self).serial.label == old(self).serial.label,
            final(self).serial.started == old(self).serial.started,
            final(self).parallel == (SideSnapshot {
                started: start_parallel || old(self).parallel.started,
                ..old(self).parallel
            }),
            final(self).total_keys == old(self).total_keys,
            final(self).columns == old(self).columns,
            final(self).serial_scroll == old(self).serial_scroll,
            final(self).parallel_scroll == old(self).parallel_scroll,
            final(self).focused == old(self).focused,
            final(self).parallel_cursor == old(self).parallel_cursor,
            final(self).collapsed_threads@ == old(self).collapsed_threads@,
            final(self).finished == old(self).finished,
    {
        self.serial.complete(thread_states, wall_time_us);
        if mode == RunMode::Both {
            self.parallel.started = true;
            true
        } else {
            false
        }
    }

    /// Handles a key: left and right pick a column when two are shown;
    /// up and down scroll the serial column or move the parallel cursor;
    /// enter toggles the thread under the parallel cursor, or, like space,
    /// moves on to the results once every run is done.
    pub fn handle_key(&mut self, key: LiveKey) -> (action: LiveAction)
        requires
            key == LiveKey::Down && old(self).focused == FocusedColumn::Parallel ==> old(
                self,
            ).parallel_cursor < usize::MAX,
        ensures
            action == match key {
                LiveKey::Quit => LiveAction::Quit,
                LiveKey::Enter => if !(old(self).focused == FocusedColumn::Parallel
                    && old(self).columns == 2) && old(self).finished {
                    LiveAction::ShowResult
                } else {
                    LiveAction::Stay
                },
                LiveKey::Space => if old(self).finished {
                    LiveAction::ShowResult
                } else {
                    LiveAction::Stay
                },
                _ => LiveAction::Stay,
            },
            final(self).focused == match key {
                LiveKey::Left => if old(self).columns == 2 {
                    FocusedColumn::Serial
                } else {
                    old(self).focused
                },
                LiveKey::Right => if old(self).columns == 2 {
                    FocusedColumn::Parallel
                } else {
                    old(self).focused
                },
                _ => old(self).focused,
            },
            final(self).serial_scroll == match key {
                LiveKey::Up => if old(self).focused == FocusedColumn::Serial {
                    scroll_up(old(self).serial_scroll)
                } else {
                    old(self).serial_scroll
                },
                LiveKey::Down => if old(self).focused == FocusedColumn::Serial {
                    scroll_down(old(self).serial_scroll)
                } else {
                    old(self).serial_scroll
                },
                _ => old(self).serial_scroll,
            },
            final(self).parallel_cursor == match key {
                LiveKey::Up => if old(self).focused == FocusedColumn::Parallel {
                    cursor_up(old(self).parallel_cursor)
                } else {
                    old(self).parallel_cursor
                },
                LiveKey::Down => if old(self).focused == FocusedColumn::Parallel {
                    cursor_down(old(self).parallel_cursor, old(self).parallel.thread_states@.len())
                } else {
                    old(self).parallel_cursor
                },
                _ => old(self).parallel_cursor,
            },
            final(self).parallel_scroll == match key {
                LiveKey::Up => if old(self).focused == FocusedColumn::Parallel {
                    scroll_within(old(self).parallel_scroll, cursor_up(old(self).parallel_cursor))
                } else {
                    old(self).parallel_scroll
                },
                _ => old(self).parallel_scroll,
            },
            final(self).collapsed_threads@ == if key == LiveKey::Enter && old(self).focused
                == FocusedColumn::Parallel && old(self).columns == 2 {
                toggled(
                    old(self).collapsed_threads@,
                    old(self).parallel.thread_states@,
                    old(self).parallel_cursor,
                )
            } else {
                old(self).collapsed_threads@
            },
            final(self).serial == old(self).serial,
            final(self).parallel == old(self).parallel,
            final(self).finished == old(self).finished,
            final(self).columns == old(self).columns,
            final(self).total_keys == old(self).total_keys,
    {
        match key {
            LiveKey::Quit => LiveAction::Quit,
            LiveKey::Left => {
                if self.columns == 2 {
                    self.focused = FocusedColumn::Serial;
                }
                LiveAction::Stay
            },
            LiveKey::Right => {
                if self.columns == 2 {
                    self.focused = FocusedColumn::Parallel;
                }
                LiveAction::Stay
            },
            LiveKey::Up => {
                match self.focused {
                    FocusedColumn::Serial => {
                        self.serial_scroll = if self.serial_scroll > 0 {
                            self.serial_scroll - 1
                        } else {
                            0
                        };
                    },
                    FocusedColumn::Parallel => {
                        self.parallel_cursor = if self.parallel_cursor > 0 {
                            self.parallel_cursor - 1
                        } else {
                            0
                        };
                        let c = self.parallel_cursor as u16;
                        if c < self.parallel_scroll {
                            self.parallel_scroll = c;
                        }
                    },
                }
                LiveAction::Stay
            },
            LiveKey::Down => {
                match self.focused {
                    FocusedColumn::Serial => {
                        self.serial_scroll = if self.serial_scroll < u16::MAX {
                            self.serial_scroll + 1
                        } else {
                            u16::MAX
                        };
                    },
                    FocusedColumn::Parallel => {
                        let n = self.parallel_thread_count();
                        let last = if n > 0 {
                            n - 1
                        } else {
                            0
                        };
                        let next = self.parallel_cursor + 1;
                        self.parallel_cursor = if next <= last {
                            next
                        } else {
                            last
                        };
                    },
                }
                LiveAction::Stay
            },
            LiveKey::Enter => {
                if self.focused == FocusedColumn::Parallel && self.columns == 2 {
                    self.toggle_parallel_cursor();
                    LiveAction::Stay
                } else if self.finished {
                    LiveAction::ShowResult
                } else {
                    LiveAction::Stay
                }
            },
            LiveKey::Space => {
                if self.finished {
                    LiveAction::ShowResult
                } else {
                    LiveAction::Stay
                }
            },
        }
    }
}

/// The live state for a new run of `setup`: no files assigned yet, a run
/// that is not performed already marked done, two columns when both runs
/// are performed.
pub open spec fn fresh_live_state(s: LiveState, setup: SetupState) -> bool {
    &&& s.serial.label@ == "SERIAL (1 thread)"@
    &&& s.parallel.label@ == "PARALLEL ("@ + spec_decimal(setup.threads as nat) + " threads)"@
    &&& s.serial.thread_states@.len() == 1
    &&& s.serial.thread_states@[0].thread_id == 0
    &&& s.serial.thread_states@[0].slots@.len() == 0
    &&& s.parallel.thread_states@.len() == effective_threads(setup.threads)
    &&& forall|t: int|
        0 <= t < s.parallel.thread_states@.len() ==> (#[trigger] s.parallel.thread_states@[t]).thread_id
            == t && s.parallel.thread_states@[t].slots@.len() == 0
    &&& s.serial.elapsed_us == 0 && s.parallel.elapsed_us == 0
    &&& s.serial.done == (setup.mode == RunMode::Parallel)
    &&& s.parallel.done == (setup.mode == RunMode::Serial)
    &&& !s.serial.started && !s.parallel.started
    &&& s.total_keys == setup.keys
    &&& s.columns == if setup.mode == RunMode::Both {
        2usize
    } else {
        1usize
    }
    &&& s.serial_scroll == 0 && s.parallel_scroll == 0
    &&& s.focused == FocusedColumn::Serial
    &&& s.parallel_cursor == 0
    &&& s.collapsed_threads@ == Set::<usize>::empty()
    &&& !s.finished
}

/// A fresh live state for a run of `setup`.
pub fn build_live_state(setup: &SetupState) -> (s: LiveState)
    ensures
        fresh_live_state(s, *setup),
{
    let mut parallel_label = string_from("PARALLEL (");
    push_decimal(&mut parallel_label, setup.threads as u64);
    push_str(&mut parallel_label, " threads)");
    let no_files: Vec<u32> = Vec::new();
    let serial_states = assign_files(no_files.as_slice(), 1);
    let parallel_states = assign_files(no_files.as_slice(), setup.threads);
    proof {
        assert(serial_states@[0].slots@.len() == 0) by {
            let ts = serial_states@[0];
            assert(thread_gets_round_robin(ts, no_files@, 1, 0));
            if ts.slots@.len() > 0 {
                let first = ts.slots@[0];
                assert(0 + 0 * 1 < no_files@.len());
            }
        }
        assert forall|t: int| 0 <= t < parallel_states@.len() implies (
        #[trigger] parallel_states@[t]).slots@.len() == 0 by {
            let c = effective_threads(setup.threads);
            let ts = parallel_states@[t];
            assert(thread_gets_round_robin(ts, no_files@, c, t));
            if ts.slots@.len() > 0 {
                let first = ts.slots@[0];
                assert(0 * c == 0) by (nonlinear_arith);
                assert(t + 0 * c < no_files@.len());
            }
        }
    }
    let columns: usize = if setup.mode == RunMode::Both {
        2
    } else {
        1
    };
    LiveState {
        serial: SideSnapshot {
            label: string_from("SERIAL (1 thread)"),
            thread_states: serial_states,
            elapsed_us: 0,
            done: setup.mode == RunMode::Parallel,
            started: false,
        },
        parallel: SideSnapshot {
            label: parallel_label,
            thread_states: parallel_states,
            elapsed_us: 0,
            done: setup.mode == RunMode::Serial,
            started: false,
        },
        total_keys: setup.keys,
        columns,
        serial_scroll: 0,
        parallel_scroll: 0,
        focused: FocusedColumn::Serial,
        parallel_cursor: 0,
        collapsed_threads: HashSet::new(),
        finished: false,
    }
}

/// Whether every run that the setup's mode asks for is done.
pub fn both_done(live: &LiveState, setup: &SetupState) -> (b: bool)
    ensures
        b == spec_runs_done(setup.mode, live.serial.done, live.parallel.done),
{
    match setup.mode {
        RunMode::Serial => live.serial.done,
        RunMode::Parallel => live.parallel.done,
        RunMode::Both => live.serial.done && live.parallel.done,
    }
}

/// The estimated size of a dataset on disk: each record carries about 26
/// bytes of header and key besides its value.
pub open spec fn spec_total_bytes(p: DatasetParams) -> int {
    p.keys * (26 + p.value_size)
}

/// The estimated size of a dataset on disk.
pub fn estimated_total_bytes(params: &DatasetParams) -> (b: u64)
    requires
        26 + params.value_size <= u64::MAX,
        spec_total_bytes(*params) <= u64::MAX,
    ensures
        b == spec_total_bytes(*params),
{
    let per_record: u64 = 26 + params.value_size as u64;
    proof {
        assert(params.keys * per_record == spec_total_bytes(*params));
    }
    (params.keys as u64) * per_record
}

/// Toggling the same thread twice leaves the collapsed set as it was.
pub proof fn law_toggle_twice_restores(
    collapsed: Set<usize>,
    threads: Seq<ThreadState>,
    cursor: usize,
)
    ensures
        toggled(toggled(collapsed, threads, cursor), threads, cursor) == collapsed,
{
    if threads.len() > 0 {
        let at = if cursor < threads.len() {
            cursor as int
        } else {
            threads.len() - 1
        };
        let tid = threads[at].thread_id;
        if collapsed.contains(tid) {
            assert(collapsed.remove(tid).insert(tid) =~= collapsed);
        } else {
            assert(collapsed.insert(tid).remove(tid) =~= collapsed);
        }
    }
}

/// A cursor on one of `n` threads stays on one of them when it moves.
pub proof fn law_cursor_stays_on_a_thread(c: usize, n: nat)
    requires
        c < n <= usize::MAX,
    ensures
        cursor_up(c) < n,
        cursor_down(c, n) < n,
        c + 1 < n ==> cursor_down(c, n) == c + 1,
        c > 0 ==> cursor_up(c) == c - 1,
{
}

} // verus!
