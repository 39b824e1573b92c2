//! State of the tracer's setup screen: the dataset parameters, the thread
//! count and the run mode, each edited in place with the arrow keys.
use crate::text::{
    empty_string, format_thousands, push_decimal, push_str, spec_decimal, spec_group_thousands,
    string_from,
};
use crate::tracer::dataset::{params_match, DatasetParams};
use vstd::prelude::*;

verus! {

/// Selectable fields on the setup screen.
#[derive(Clone, Copy, Debug, PartialEq, Eq, Structural)]
pub enum Field {
    Keys,
    ValueSize,
    FileSize,
    Threads,
    Mode,
}

impl Field {
    /// The field below this one; the last wraps to the first.
    pub open spec fn after(self) -> Field {
        match self {
            Field::Keys => Field::ValueSize,
            Field::ValueSize => Field::FileSize,
            Field::FileSize => Field::Threads,
            Field::Threads => Field::Mode,
            Field::Mode => Field::Keys,
        }
    }

    /// The field above this one; the first wraps to the last.
    pub open spec fn before(self) -> Field {
        match self {
            Field::Keys => Field::Mode,
            Field::ValueSize => Field::Keys,
            Field::FileSize => Field::ValueSize,
            Field::Threads => Field::FileSize,
            Field::Mode => Field::Threads,
        }
    }

    pub fn next(self) -> (f: Self)
        ensures
            f == self.after(),
    {
        match self {
            Field::Keys => Field::ValueSize,
            Field::ValueSize => Field::FileSize,
            Field::FileSize => Field::Threads,
            Field::Threads => Field::Mode,
            Field::Mode => Field::Keys,
        }
    }

    pub fn prev(self) -> (f: Self)
        ensures
            f == self.before(),
    {
        match self {
            Field::Keys => Field::Mode,
            Field::ValueSize => Field::Keys,
            Field::FileSize => Field::ValueSize,
            Field::Threads => Field::FileSize,
            Field::Mode => Field::Threads,
        }
    }
}

/// Which runs to perform.
#[derive(Clone, Copy, Debug, PartialEq, Eq, Structural)]
pub enum RunMode {
    Serial,
    Parallel,
    Both,
}

/// The label shown for a run mode.
pub open spec fn spec_mode_label(m: RunMode) -> Seq<char> {
    match m {
        RunMode::Serial => "serial"@,
        RunMode::Parallel => "parallel"@,
        RunMode::Both => "both"@,
    }
}

impl RunMode {
    /// Serial, then parallel, then both, then serial again.
    pub open spec fn after(self) -> RunMode {
        match self {
            RunMode::Serial => RunMode::Parallel,
            RunMode::Parallel => RunMode::Both,
            RunMode::Both => RunMode::Serial,
        }
    }

    /// The reverse of `after`.
    pub open spec fn before(self) -> RunMode {
        match self {
            RunMode::Serial => RunMode::Both,
            RunMode::Parallel => RunMode::Serial,
            RunMode::Both => RunMode::Parallel,
        }
    }

    pub fn next(self) -> (m: Self)
        ensures
            m == self.after(),
    {
        match self {
            RunMode::Serial => RunMode::Parallel,
            RunMode::Parallel => RunMode::Both,
            RunMode::Both => RunMode::Serial,
        }
    }

    pub fn prev(self) -> (m: Self)
        ensures
            m == self.before(),
    {
        match self {
            RunMode::Serial => RunMode::Both,
            RunMode::Parallel => RunMode::Serial,
            RunMode::Both => RunMode::Parallel,
        }
    }

    pub fn label(self) -> (s: &'static str)
        ensures
            s@ == spec_mode_label(self),
    {
        match self {
            RunMode::Serial => "serial",
            RunMode::Parallel => "parallel",
            RunMode::Both => "both",
        }
    }
}

/// How many value sizes the setup screen offers.
pub const VALUE_SIZE_COUNT: usize = 4;

/// How many data file sizes the setup screen offers.
pub const FILE_SIZE_COUNT: usize = 5;

/// The offered value sizes in bytes: 8, 64, 256 and 1024.
pub open spec fn value_size_at(i: int) -> usize {
    if i == 0 {
        8usize
    } else if i == 1 {
        64usize
    } else if i == 2 {
        256usize
    } else {
        1024usize
    }
}

/// The offered data file sizes in bytes: 128 KiB, 256 KiB, 512 KiB, 1 MiB
/// and 4 MiB.
pub open spec fn file_size_at(i: int) -> u64 {
    if i == 0 {
        131_072u64
    } else if i == 1 {
        262_144u64
    } else if i == 2 {
        524_288u64
    } else if i == 3 {
        1_048_576u64
    } else {
        4_194_304u64
    }
}

fn value_size_of(i: usize) -> (v: usize)
    requires
        i < VALUE_SIZE_COUNT,
    ensures
        v == value_size_at(i as int),
{
    if i == 0 {
        8
    } else if i == 1 {
        64
    } else if i == 2 {
        256
    } else {
        1024
    }
}

fn file_size_of(i: usize) -> (b: u64)
    requires
        i < FILE_SIZE_COUNT,
    ensures
        b == file_size_at(i as int),
{
    if i == 0 {
        128 * 1024
    } else if i == 1 {
        256 * 1024
    } else if i == 2 {
        512 * 1024
    } else if i == 3 {
        1024 * 1024
    } else {
        4 * 1024 * 1024
    }
}

/// The label of a file size: whole mebibytes as `4MB` from 1 MiB up,
/// whole kibibytes as `512KB` below.
pub open spec fn spec_size_label(b: u64) -> Seq<char> {
    if b >= 1_048_576u64 {
        spec_decimal((b / 1_048_576u64) as nat) + "MB"@
    } else {
        spec_decimal((b / 1024u64) as nat) + "KB"@
    }
}

/// The approximate number of data files a dataset takes: about 26 bytes
/// of header and key per record besides the value, in files of the
/// chosen size, rounded up by one.
pub open spec fn spec_approx_files(p: DatasetParams) -> int {
    (p.keys * (p.value_size + 26)) / (p.file_size_bytes as int) + 1
}

/// The approximate number of data files a dataset takes.
pub fn approx_files(p: &DatasetParams) -> (n: u64)
    requires
        p.file_size_bytes > 0,
        p.value_size + 26 <= u64::MAX,
        p.keys * (p.value_size + 26) <= u64::MAX,
        spec_approx_files(*p) <= u64::MAX,
    ensures
        n == spec_approx_files(*p),
{
    let per_record: u64 = p.value_size as u64 + 26;
    proof {
        assert(p.keys * per_record == p.keys * (p.value_size + 26));
        assert(p.keys * per_record / (p.file_size_bytes as int) <= p.keys * per_record) by (
        nonlinear_arith)
            requires
                p.file_size_bytes > 0,
                p.keys * per_record >= 0,
        ;
    }
    let total: u64 = (p.keys as u64) * per_record;
    total / p.file_size_bytes + 1
}

/// The fewest keys the setup screen lets one choose.
pub const MIN_KEYS: usize = 100_000;

/// The most keys the setup screen lets one choose.
pub const MAX_KEYS: usize = 5_000_000;

/// The step by which the key count changes.
pub const KEYS_STEP: usize = 100_000;

/// The most threads the setup screen lets one choose.
pub const MAX_THREADS: usize = 16;

/// The keys the setup screen reacts to.
#[derive(Clone, Copy, Debug, PartialEq, Eq, Structural)]
pub enum SetupKey {
    /// `q`: leave.
    Quit,
    /// `g`: generate the dataset again.
    Regenerate,
    /// Enter: run, generating the dataset first when it must be.
    Enter,
    Up,
    Down,
    /// Left or `-`.
    Left,
    /// Right, `+` or `=`.
    Right,
}

/// What the event loop does after a key on the setup screen.
#[derive(Clone, Copy, Debug, PartialEq, Eq, Structural)]
pub enum SetupAction {
    Stay,
    Quit,
    /// Generate the dataset, then run.
    Generate,
    /// Run on the existing dataset.
    StartRuns,
}

/// All mutable state of the setup screen.
pub struct SetupState {
    pub data_dir: String,
    pub keys: usize,
    pub value_size_idx: usize,
    pub file_size_idx: usize,
    pub threads: usize,
    pub mode: RunMode,
    pub focused: Field,
}

/// The key count after one step up: 100 000 more, at most five million.
pub open spec fn keys_up(k: usize) -> usize {
    if k + KEYS_STEP <= MAX_KEYS {
        (k + KEYS_STEP) as usize
    } else {
        MAX_KEYS
    }
}

/// The key count after one step down: 100 000 fewer (stopping at zero),
/// at least 100 000.
pub open spec fn keys_down(k: usize) -> usize {
    if k >= KEYS_STEP + MIN_KEYS {
        (k - KEYS_STEP) as usize
    } else {
        MIN_KEYS
    }
}

/// The thread count after one step up: one more, at most sixteen.
pub open spec fn threads_up(t: usize) -> usize {
    if t + 1 <= MAX_THREADS {
        (t + 1) as usize
    } else {
        MAX_THREADS
    }
}

/// The thread count after one step down: one fewer, at least one.
pub open spec fn threads_down(t: usize) -> usize {
    if t >= 2 {
        (t - 1) as usize
    } else {
        1
    }
}

impl SetupState {
    /// The parameters of the dataset this state describes.
    pub open spec fn spec_params(&self) -> DatasetParams {
        DatasetParams {
            keys: self.keys,
            value_size: value_size_at(self.value_size_idx as int),
            file_size_bytes: file_size_at(self.file_size_idx as int),
        }
    }

    /// Both preset indices point into their tables.
    pub open spec fn indices_valid(&self) -> bool {
        self.value_size_idx < VALUE_SIZE_COUNT && self.file_size_idx < FILE_SIZE_COUNT
    }

    /// A step up of the focused field stays within machine integers.
    pub open spec fn can_increment(&self) -> bool {
        match self.focused {
            Field::Keys => self.keys + KEYS_STEP <= usize::MAX,
            Field::ValueSize => self.value_size_idx < usize::MAX,
            Field::FileSize => self.file_size_idx < usize::MAX,
            Field::Threads => self.threads < usize::MAX,
            Field::Mode => true,
        }
    }

    /// A step down of the focused field stays within machine integers.
    pub open spec fn can_decrement(&self) -> bool {
        match self.focused {
            Field::ValueSize => self.value_size_idx + VALUE_SIZE_COUNT <= usize::MAX,
            Field::FileSize => self.file_size_idx + FILE_SIZE_COUNT <= usize::MAX,
            _ => true,
        }
    }

    /// The state after a step up of the focused field.
    pub open spec fn stepped_up(self) -> SetupState {
        match self.focused {
            Field::Keys => SetupState { keys: keys_up(self.keys), ..self },
            Field::ValueSize => SetupState {
                value_size_idx: ((self.value_size_idx + 1) % (VALUE_SIZE_COUNT as int)) as usize,
                ..self
            },
            Field::FileSize => SetupState {
                file_size_idx: ((self.file_size_idx + 1) % (FILE_SIZE_COUNT as int)) as usize,
                ..self
            },
            Field::Threads => SetupState { threads: threads_up(self.threads), ..self },
            Field::Mode => SetupState { mode: self.mode.after(), ..self },
        }
    }

    /// The state after a step down of the focused field.
    pub open spec fn stepped_down(self) -> SetupState {
        match self.focused {
            Field::Keys => SetupState { keys: keys_down(self.keys), ..self },
            Field::ValueSize => SetupState {
                value_size_idx: ((self.value_size_idx + VALUE_SIZE_COUNT - 1) % (
                VALUE_SIZE_COUNT as int)) as usize,
                ..self
            },
            Field::FileSize => SetupState {
                file_size_idx: ((self.file_size_idx + FILE_SIZE_COUNT - 1) % (
                FILE_SIZE_COUNT as int)) as usize,
                ..self
            },
            Field::Threads => SetupState { threads: threads_down(self.threads), ..self },
            Field::Mode => SetupState { mode: self.mode.before(), ..self },
        }
    }

    /// One million keys of 64 bytes in 512 KiB files, four threads, both
    /// runs, the key count focused.
    pub fn new(data_dir: String) -> (s: Self)
        ensures
            s.data_dir@ == data_dir@,
            s.keys == 1_000_000,
            s.value_size_idx == 1,
            s.file_size_idx == 2,
            s.threads == 4,
            s.mode == RunMode::Both,
            s.focused == Field::Keys,
    {
        SetupState {
            data_dir,
            keys: 1_000_000,
            value_size_idx: 1,
            file_size_idx: 2,
            threads: 4,
            mode: RunMode::Both,
            focused: Field::Keys,
        }
    }

    pub fn params(&self) -> (p: DatasetParams)
        requires
            self.indices_valid(),
        ensures
            p == self.spec_params(),
    {
        DatasetParams {
            keys: self.keys,
            value_size: value_size_of(self.value_size_idx),
            file_size_bytes: file_size_of(self.file_size_idx),
        }
    }

    /// Whether the dataset must be generated again, given the parameters
    /// stored with the dataset on disk (`None` when none could be read).
    pub fn needs_generation(&self, stored: Option<DatasetParams>) -> (b: bool)
        requires
            self.indices_valid(),
        ensures
            b == (stored != Some(self.spec_params())),
    {
        let p = self.params();
        !params_match(stored, &p)
    }

    pub fn file_size_label(&self) -> (s: String)
        requires
            self.file_size_idx < FILE_SIZE_COUNT,
        ensures
            s@ == spec_size_label(file_size_at(self.file_size_idx as int)),
    {
        let b = file_size_of(self.file_size_idx);
        if b >= 1024 * 1024 {
            let mut s = empty_string();
            push_decimal(&mut s, b / (1024 * 1024));
            push_str(&mut s, "MB");
            s
        } else {
            let mut s = empty_string();
            push_decimal(&mut s, b / 1024);
            push_str(&mut s, "KB");
            s
        }
    }

    /// The dataset status line: whether the dataset must be generated, or
    /// its key count, approximate file count and file size.
    pub fn status_text(&self, stored: Option<DatasetParams>) -> (s: String)
        requires
            self.indices_valid(),
            self.keys * (value_size_at(self.value_size_idx as int) + 26) <= u64::MAX,
        ensures
            s@ == if stored != Some(self.spec_params()) {
                "needs generation"@
            } else {
                "ready  ("@ + spec_group_thousands(spec_decimal(self.keys as nat)) + " keys, "@
                    + spec_decimal(spec_approx_files(self.spec_params()) as nat) + " files, "@
                    + spec_size_label(file_size_at(self.file_size_idx as int)) + " file size)"@
            },
    {
        if self.needs_generation(stored) {
            return string_from("needs generation");
        }
        let p = self.params();
        proof {
            let total = p.keys * (p.value_size + 26);
            assert(total / (p.file_size_bytes as int) < total + 1) by (nonlinear_arith)
                requires
                    p.file_size_bytes >= 1,
                    total >= 0,
            ;
            assert(total / (p.file_size_bytes as int) <= total / 2) by (nonlinear_arith)
                requires
                    p.file_size_bytes >= 2,
                    total >= 0,
            ;
        }
        let mut s = string_from("ready  (");
        let k = format_thousands(p.keys as u64);
        push_str(&mut s, k.as_str());
        push_str(&mut s, " keys, ");
        push_decimal(&mut s, approx_files(&p));
        push_str(&mut s, " files, ");
        let label = self.file_size_label();
        push_str(&mut s, label.as_str());
        push_str(&mut s, " file size)");
        s
    }

    pub fn focus_next(&mut self)
        ensures
            final(self).focused == old(self).focused.after(),
            final(self).data_dir == old(self).data_dir,
            final(self).keys == old(self).keys,
            final(self).value_size_idx == old(self).value_size_idx,
            final(self).file_size_idx == old(self).file_size_idx,
            final(self).threads == old(self).threads,
            final(self).mode == old(self).mode,
    {
        self.focused = self.focused.next();
    }

    pub fn focus_prev(&mut self)
        ensures
            final(self).focused == old(self).focused.before(),
            final(self).data_dir == old(self).data_dir,
            final(self).keys == old(self).keys,
            final(self).value_size_idx == old(self).value_size_idx,
            final(self).file_size_idx == old(self).file_size_idx,
            final(self).threads == old(self).threads,
            final(self).mode == old(self).mode,
    {
        self.focused = self.focused.prev();
    }

    /// Steps the focused field up: keys by 100 000 up to five million,
    /// the value and file sizes to the next preset (wrapping), threads by
    /// one up to sixteen, the mode to the next one.
    pub fn increment(&mut self)
        requires
            old(self).can_increment(),
        ensures
            *final(self) == old(self).stepped_up(),
    {
        match self.focused {
            Field::Keys => {
                let k = self.keys + KEYS_STEP;
                self.keys = if k <= MAX_KEYS {
                    k
                } else {
                    MAX_KEYS
                };
            },
            Field::ValueSize => {
                self.value_size_idx = (self.value_size_idx + 1) % VALUE_SIZE_COUNT;
            },
            Field::FileSize => {
                self.file_size_idx = (self.file_size_idx + 1) % FILE_SIZE_COUNT;
            },
            Field::Threads => {
                let t = self.threads + 1;
                self.threads = if t <= MAX_THREADS {
                    t
                } else {
                    MAX_THREADS
                };
            },
            Field::Mode => {
                self.mode = self.mode.next();
            },
        }
    }

    /// Steps the focused field down: keys by 100 000 down to 100 000, the
    /// value and file sizes to the previous preset (wrapping), threads by
    /// one down to one, the mode to the previous one.
    pub fn decrement(&mut self)
        requires
            old(self).can_decrement(),
        ensures
            *final(self) == old(self).stepped_down(),
    {
        match self.focused {
            Field::Keys => {
                let k = if self.keys >= KEYS_STEP {
                    self.keys - KEYS_STEP
                } else {
                    0
                };
                self.keys = if k >= MIN_KEYS {
                    k
                } else {
                    MIN_KEYS
                };
            },
            Field::ValueSize => {
                self.value_size_idx = (self.value_size_idx + VALUE_SIZE_COUNT - 1)
                    % VALUE_SIZE_COUNT;
            },
            Field::FileSize => {
                self.file_size_idx = (self.file_size_idx + FILE_SIZE_COUNT - 1) % FILE_SIZE_COUNT;
            },
            Field::Threads => {
                let t = if self.threads >= 1 {
                    self.threads - 1
                } else {
                    0
                };
                self.threads = if t >= 1 {
                    t
                } else {
                    1
                };
            },
            Field::Mode => {
                self.mode = self.mode.prev();
            },
        }
    }

    /// Handles a key: up and down move the focus, left and right step the
    /// focused field, `g` regenerates, enter runs (after generating the
    /// dataset when the stored parameters differ), `q` quits.
    pub fn handle_key(&mut self, key: SetupKey, stored: Option<DatasetParams>) -> (a: SetupAction)
        requires
            key == SetupKey::Enter ==> old(self).indices_valid(),
            key == SetupKey::Left ==> old(self).can_decrement(),
            key == SetupKey::Right ==> old(self).can_increment(),
        ensures
            a == match key {
                SetupKey::Quit => SetupAction::Quit,
                SetupKey::Regenerate => SetupAction::Generate,
                SetupKey::Enter => if stored != Some(old(self).spec_params()) {
                    SetupAction::Generate
                } else {
                    SetupAction::StartRuns
                },
                _ => SetupAction::Stay,
            },
            *final(self) == match key {
                SetupKey::Up => SetupState { focused: old(self).focused.before(), ..*old(self) },
                SetupKey::Down => SetupState { focused: old(self).focused.after(), ..*old(self) },
                SetupKey::Left => old(self).stepped_down(),
                SetupKey::Right => old(self).stepped_up(),
                _ => *old(self),
            },
    {
        match key {
            SetupKey::Quit => SetupAction::Quit,
            SetupKey::Regenerate => SetupAction::Generate,
            SetupKey::Enter => if self.needs_generation(stored) {
                SetupAction::Generate
            } else {
                SetupAction::StartRuns
            },
            SetupKey::Up => {
                self.focus_prev();
                SetupAction::Stay
            },
            SetupKey::Down => {
                self.focus_next();
                SetupAction::Stay
            },
            SetupKey::Left => {
                self.decrement();
                SetupAction::Stay
            },
            SetupKey::Right => {
                self.increment();
                SetupAction::Stay
            },
        }
    }
}

/// Moving the focus down and then up again (or up, then down) returns to
/// the field one started from.
pub proof fn law_focus_moves_are_inverse(f: Field)
    ensures
        f.after().before() == f,
        f.before().after() == f,
{
}

/// Moving the focus down five times visits every field once and comes
/// back to the start.
pub proof fn law_focus_cycles_through_all_fields(f: Field)
    ensures
        f.after().after().after().after().after() == f,
        f.after() != f,
        f.after().after() != f,
        f.after().after().after() != f,
        f.after().after().after().after() != f,
{
}

/// Stepping the run mode forward three times (serial, parallel, both)
/// comes back to the start, and a step back undoes a step forward.
pub proof fn law_mode_cycle(m: RunMode)
    ensures
        m.after().after().after() == m,
        m.after() != m,
        m.after().after() != m,
        m.after().before() == m,
        m.before().after() == m,
{
}

/// The key count, the thread count and the preset indices stay in their
/// ranges under every step up or down.
pub proof fn law_steps_keep_ranges(s: SetupState)
    requires
        MIN_KEYS <= s.keys <= MAX_KEYS,
        1 <= s.threads <= MAX_THREADS,
        s.indices_valid(),
    ensures
        MIN_KEYS <= s.stepped_up().keys <= MAX_KEYS,
        MIN_KEYS <= s.stepped_down().keys <= MAX_KEYS,
        1 <= s.stepped_up().threads <= MAX_THREADS,
        1 <= s.stepped_down().threads <= MAX_THREADS,
        s.stepped_up().indices_valid(),
        s.stepped_down().indices_valid(),
{
}

/// Away from the upper limits, a step down undoes a step up of whichever
/// field has the focus.
pub proof fn law_step_down_undoes_step_up(s: SetupState)
    requires
        MIN_KEYS <= s.keys,
        s.keys + KEYS_STEP <= MAX_KEYS,
        1 <= s.threads < MAX_THREADS,
        s.indices_valid(),
    ensures
        s.stepped_up().stepped_down() == s,
{
}

/// Away from the lower limits, a step up undoes a step down of whichever
/// field has the focus.
pub proof fn law_step_up_undoes_step_down(s: SetupState)
    requires
        MIN_KEYS + KEYS_STEP <= s.keys <= MAX_KEYS,
        1 < s.threads <= MAX_THREADS,
        s.indices_valid(),
    ensures
        s.stepped_down().stepped_up() == s,
{
}

} // verus!
