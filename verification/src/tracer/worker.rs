//! Work assignment for the instrumented scan: data files are dealt to
//! threads round-robin, and each file's progress is tracked in a slot.
use crate::record::{decode_one, spec_decode_one};
use crate::recovery::lemma_decoded_len_at_least_header;
use vstd::prelude::*;

verus! {

/// Progress state for a single file slot.
#[derive(Clone, Copy, Debug, PartialEq, Eq, Structural)]
pub enum SlotState {
    /// Assigned but not yet started.
    Queued,
    /// Currently being scanned; carries live counters.
    Processing { bytes_done: u64, keys_found: usize },
    /// Finished; carries final measurements.
    Done { duration_us: u64, keys_found: usize, bytes_read: u64 },
}

/// One file assigned to a thread.
#[derive(Clone, Copy, Debug, PartialEq, Eq, Structural)]
pub struct FileSlot {
    pub file_id: u32,
    /// Size on disk in bytes; used to compute bar fill percentage.
    pub file_size_bytes: u64,
    pub state: SlotState,
}

/// All slots assigned to one thread.
#[derive(Clone, Debug)]
pub struct ThreadState {
    pub thread_id: usize,
    pub slots: Vec<FileSlot>,
}

/// The number of threads files are dealt to: `thread_count`, but at
/// least one.
pub open spec fn effective_threads(thread_count: usize) -> int {
    if thread_count == 0 {
        1
    } else {
        thread_count as int
    }
}

/// Thread `t` of `count` receives exactly the positions `t`, `t + count`,
/// `t + 2 * count`, ... below `n`, in that order, each queued.
pub open spec fn thread_gets_round_robin(
    ts: ThreadState,
    file_ids: Seq<u32>,
    count: int,
    t: int,
) -> bool {
    let len = ts.slots@.len();
    &&& ts.thread_id == t
    &&& forall|j: int|
        0 <= j < len ==> {
            &&& t + j * count < file_ids.len()
            &&& (#[trigger] ts.slots@[j]).file_id == file_ids[t + j * count]
            &&& ts.slots@[j].file_size_bytes == 0
            &&& ts.slots@[j].state == SlotState::Queued
        }
    &&& t + len * count >= file_ids.len()
}

/// Deals `file_ids` to `thread_count` threads (at least one) round-robin:
/// thread `i` receives the ids at positions `i, i+N, i+2N, ...` where `N`
/// is the number of threads.  All slots start `Queued`.
pub fn assign_files(file_ids: &[u32], thread_count: usize) -> (states: Vec<ThreadState>)
    ensures
        states@.len() == effective_threads(thread_count),
        forall|t: int|
            0 <= t < states@.len() ==> thread_gets_round_robin(
                #[trigger] states@[t],
                file_ids@,
                effective_threads(thread_count),
                t,
            ),
{
    let count: usize = if thread_count == 0 {
        1
    } else {
        thread_count
    };
    let n = file_ids.len();
    let mut states: Vec<ThreadState> = Vec::new();
    let mut t: usize = 0;
    while t < count
        invariant
            count == effective_threads(thread_count),
            count >= 1,
            n == file_ids@.len(),
            t <= count,
            states@.len() == t,
            forall|u: int|
                0 <= u < t ==> thread_gets_round_robin(#[trigger] states@[u], file_ids@, count as int, u),
        decreases count - t,
    {
        let mut slots: Vec<FileSlot> = Vec::new();
        let mut p: usize = t;
        proof {
            assert(0 * count == 0) by (nonlinear_arith);
        }
        while p < n
            invariant_except_break
                p == t + slots@.len() * count,
            invariant
                count >= 1,
                n == file_ids@.len(),
                t < count,
                forall|j: int|
                    0 <= j < slots@.len() ==> {
                        &&& t + j * count < n
                        &&& (#[trigger] slots@[j]).file_id == file_ids@[t + j * count]
                        &&& slots@[j].file_size_bytes == 0
                        &&& slots@[j].state == SlotState::Queued
                    },
            ensures
                t + slots@.len() * count >= n,
            decreases n - p,
        {
            let ghost len = slots@.len();
            slots.push(FileSlot { file_id: file_ids[p], file_size_bytes: 0, state: SlotState::Queued });
            proof {
                assert((len + 1) * count == len * count + count) by (nonlinear_arith);
            }
            if n - p <= count {
                break;
            }
            p = p + count;
        }
        states.push(ThreadState { thread_id: t, slots });
        t = t + 1;
    }
    states
}

/// Every file is dealt to exactly one place: the file at position `p` is
/// slot `p / N` of thread `p % N`, where `N` is the number of threads, so
/// no file is skipped and none is scanned twice.
pub proof fn law_assignment_covers_every_file(
    states: Seq<ThreadState>,
    file_ids: Seq<u32>,
    thread_count: usize,
    p: int,
)
    requires
        states.len() == effective_threads(thread_count),
        forall|t: int|
            0 <= t < states.len() ==> thread_gets_round_robin(
                #[trigger] states[t],
                file_ids,
                effective_threads(thread_count),
                t,
            ),
        0 <= p < file_ids.len(),
    ensures
        ({
            let c = effective_threads(thread_count);
            &&& p / c < states[p % c].slots@.len()
            &&& states[p % c].slots@[p / c].file_id == file_ids[p]
        }),
{
    let c = effective_threads(thread_count);
    let t = p % c;
    let q = p / c;
    assert(0 <= t < c && t + q * c == p && q >= 0) by (nonlinear_arith)
        requires
            c >= 1,
            p >= 0,
            t == p % c,
            q == p / c,
    ;
    let ts = states[t];
    assert(thread_gets_round_robin(ts, file_ids, c, t));
    let len = ts.slots@.len();
    if q >= len {
        assert(len * c <= q * c) by (nonlinear_arith)
            requires
                q >= len,
                c >= 1,
        ;
    }
    let slot = ts.slots@[q];
}

/// No file is dealt twice: slot `j` of thread `t` holds the file at
/// position `t + j * N` (with `N` threads), and two different slots hold
/// files at two different positions.  With
/// `law_assignment_covers_every_file`, every file is dealt exactly once.
pub proof fn law_assignment_deals_each_file_once(
    states: Seq<ThreadState>,
    file_ids: Seq<u32>,
    thread_count: usize,
    t1: int,
    j1: int,
    t2: int,
    j2: int,
)
    requires
        states.len() == effective_threads(thread_count),
        forall|t: int|
            0 <= t < states.len() ==> thread_gets_round_robin(
                #[trigger] states[t],
                file_ids,
                effective_threads(thread_count),
                t,
            ),
        0 <= t1 < states.len(),
        0 <= t2 < states.len(),
        0 <= j1 < states[t1].slots@.len(),
        0 <= j2 < states[t2].slots@.len(),
        t1 != t2 || j1 != j2,
    ensures
        ({
            let c = effective_threads(thread_count);
            &&& t1 + j1 * c < file_ids.len()
            &&& states[t1].slots@[j1].file_id == file_ids[t1 + j1 * c]
            &&& t1 + j1 * c != t2 + j2 * c
        }),
{
    let c = effective_threads(thread_count);
    assert(thread_gets_round_robin(states[t1], file_ids, c, t1));
    let s1 = states[t1].slots@[j1];
    if t1 + j1 * c == t2 + j2 * c {
        assert(t1 == t2 && j1 == j2) by (nonlinear_arith)
            requires
                t1 + j1 * c == t2 + j2 * c,
                0 <= t1 < c,
                0 <= t2 < c,
                j1 >= 0,
                j2 >= 0,
        ;
    }
}

// ---- scanning one file ------------------------------------------------------
/// The records decodable one after another from `offset` on, at most
/// `limit` of them: how many, and where the scan stopped.  The scan stops
/// at the end of the bytes and at the first record that does not decode.
pub open spec fn spec_count_records(bytes: Seq<u8>, offset: int, limit: nat) -> (nat, int)
    decreases limit,
{
    if limit == 0 || offset < 0 || offset >= bytes.len() {
        (0, offset)
    } else {
        match spec_decode_one(bytes.subrange(offset, bytes.len() as int)) {
            Ok((_, n)) => if n == 0 {
                (0, offset)
            } else {
                let (c, e) = spec_count_records(bytes, offset + n, (limit - 1) as nat);
                (c + 1, e)
            },
            Err(_) => (0, offset),
        }
    }
}

/// Decodes up to `limit` records of `bytes` from `offset` on, stopping at
/// the end and at the first record that does not decode (a cut-short or
/// damaged tail).  Returns how many decoded and where the next begins.
pub fn count_records(bytes: &[u8], offset: usize, limit: usize) -> (r: (usize, usize))
    requires
        offset <= bytes@.len(),
    ensures
        r.0 == spec_count_records(bytes@, offset as int, limit as nat).0,
        r.1 == spec_count_records(bytes@, offset as int, limit as nat).1,
        r.0 <= limit,
        offset <= r.1 <= bytes@.len(),
{
    let n = bytes.len();
    let mut count: usize = 0;
    let mut pos: usize = offset;
    let mut stopped = false;
    while !stopped && count < limit && pos < n
        invariant
            n == bytes@.len(),
            offset <= pos <= n,
            count <= limit,
            stopped ==> spec_count_records(bytes@, pos as int, (limit - count) as nat) == (
            0nat, pos as int),
            spec_count_records(bytes@, offset as int, limit as nat) == ({
                let rest = spec_count_records(bytes@, pos as int, (limit - count) as nat);
                ((count + rest.0) as nat, rest.1)
            }),
        decreases (limit - count) * 2 + if stopped {
            0int
        } else {
            1int
        },
    {
        match decode_one(&bytes[pos..n]) {
            Ok(d) => {
                proof {
                    lemma_decoded_len_at_least_header(bytes@.subrange(pos as int, n as int));
                }
                pos = pos + d.bytes_read;
                count = count + 1;
            },
            Err(_) => {
                stopped = true;
            },
        }
    }
    (count, pos)
}

/// The size recorded for file `id`: the first entry of `sizes` for it.
pub open spec fn size_for(sizes: Seq<(u32, u64)>, id: u32) -> Option<u64>
    decreases sizes.len(),
{
    if sizes.len() == 0 {
        None
    } else if sizes[0].0 == id {
        Some(sizes[0].1)
    } else {
        size_for(sizes.drop_first(), id)
    }
}

/// A slot with the size recorded for its file, where there is one.
pub open spec fn sized_slot(slot: FileSlot, sizes: Seq<(u32, u64)>) -> FileSlot {
    match size_for(sizes, slot.file_id) {
        Some(b) => FileSlot { file_size_bytes: b, ..slot },
        None => slot,
    }
}

fn find_size(sizes: &[(u32, u64)], id: u32) -> (r: Option<u64>)
    ensures
        r == size_for(sizes@, id),
{
    let mut i: usize = 0;
    proof {
        assert(sizes@.skip(0) =~= sizes@);
    }
    while i < sizes.len()
        invariant
            i <= sizes@.len(),
            size_for(sizes@, id) == size_for(sizes@.skip(i as int), id),
        decreases sizes@.len() - i,
    {
        proof {
            assert(sizes@.skip(i as int)[0] == sizes@[i as int]);
            assert(sizes@.skip(i as int).drop_first() =~= sizes@.skip(i + 1));
        }
        if sizes[i].0 == id {
            return Some(sizes[i].1);
        }
        i = i + 1;
    }
    None
}

/// The assignment with each slot's file size filled in from `sizes`
/// (file id and size pairs); slots of files without a size keep theirs.
pub fn with_file_sizes(states: &[ThreadState], sizes: &[(u32, u64)]) -> (out: Vec<ThreadState>)
    ensures
        out@.len() == states@.len(),
        forall|t: int|
            0 <= t < out@.len() ==> (#[trigger] out@[t]).thread_id == states@[t].thread_id
                && out@[t].slots@ == states@[t].slots@.map_values(
                |s: FileSlot| sized_slot(s, sizes@),
            ),
{
    let mut out: Vec<ThreadState> = Vec::new();
    let mut t: usize = 0;
    while t < states.len()
        invariant
            t <= states@.len(),
            out@.len() == t,
            forall|u: int|
                0 <= u < t ==> (#[trigger] out@[u]).thread_id == states@[u].thread_id
                    && out@[u].slots@ == states@[u].slots@.map_values(
                    |s: FileSlot| sized_slot(s, sizes@),
                ),
        decreases states@.len() - t,
    {
        let src = &states[t].slots;
        let mut slots: Vec<FileSlot> = Vec::new();
        let mut j: usize = 0;
        while j < src.len()
            invariant
                j <= src@.len(),
                src@ == states@[t as int].slots@,
                slots@ == src@.take(j as int).map_values(|s: FileSlot| sized_slot(s, sizes@)),
            decreases src@.len() - j,
        {
            let slot = src[j];
            let sized = match find_size(sizes, slot.file_id) {
                Some(b) => FileSlot { file_id: slot.file_id, file_size_bytes: b, state: slot.state },
                None => slot,
            };
            slots.push(sized);
            proof {
                assert(src@.take(j + 1) =~= src@.take(j as int).push(slot));
                assert(slots@ =~= src@.take(j + 1).map_values(|s: FileSlot| sized_slot(s, sizes@)));
            }
            j = j + 1;
        }
        proof {
            assert(src@.take(src@.len() as int) =~= src@);
        }
        out.push(ThreadState { thread_id: states[t].thread_id, slots });
        t = t + 1;
    }
    out
}

/// Keys found by the finished slots of `slots`.
pub open spec fn done_keys_of(slots: Seq<FileSlot>) -> nat
    decreases slots.len(),
{
    if slots.len() == 0 {
        0
    } else {
        done_keys_of(slots.drop_last()) + match slots.last().state {
            SlotState::Done { keys_found, .. } => keys_found as nat,
            _ => 0nat,
        }
    }
}

/// Keys found by the finished slots of all `threads`: a run's total.
pub open spec fn run_total_keys(threads: Seq<ThreadState>) -> nat
    decreases threads.len(),
{
    if threads.len() == 0 {
        0
    } else {
        run_total_keys(threads.drop_last()) + done_keys_of(threads.last().slots@)
    }
}

proof fn lemma_done_keys_prefix(slots: Seq<FileSlot>, i: int)
    requires
        0 <= i <= slots.len(),
    ensures
        done_keys_of(slots.take(i)) <= done_keys_of(slots),
    decreases slots.len() - i,
{
    if i < slots.len() {
        lemma_done_keys_prefix(slots, i + 1);
        assert(slots.take(i + 1).drop_last() =~= slots.take(i));
    } else {
        assert(slots.take(i) =~= slots);
    }
}

proof fn lemma_run_total_prefix(threads: Seq<ThreadState>, i: int)
    requires
        0 <= i <= threads.len(),
    ensures
        run_total_keys(threads.take(i)) <= run_total_keys(threads),
    decreases threads.len() - i,
{
    if i < threads.len() {
        lemma_run_total_prefix(threads, i + 1);
        assert(threads.take(i + 1).drop_last() =~= threads.take(i));
    } else {
        assert(threads.take(i) =~= threads);
    }
}

/// The keys a finished run found: the sum over its finished slots.
pub fn total_keys(threads: &[ThreadState]) -> (n: usize)
    requires
        run_total_keys(threads@) <= usize::MAX,
    ensures
        n == run_total_keys(threads@),
{
    let mut total: usize = 0;
    let mut t: usize = 0;
    while t < threads.len()
        invariant
            t <= threads@.len(),
            total == run_total_keys(threads@.take(t as int)),
            run_total_keys(threads@) <= usize::MAX,
        decreases threads@.len() - t,
    {
        let slots = &threads[t].slots;
        let ghost before = total;
        proof {
            lemma_run_total_prefix(threads@, t + 1);
            assert(threads@.take(t + 1).drop_last() =~= threads@.take(t as int));
        }
        let mut j: usize = 0;
        while j < slots.len()
            invariant
                j <= slots@.len(),
                slots@ == threads@[t as int].slots@,
                total == before + done_keys_of(slots@.take(j as int)),
                before + done_keys_of(slots@) <= usize::MAX,
            decreases slots@.len() - j,
        {
            proof {
                lemma_done_keys_prefix(slots@, j + 1);
                assert(slots@.take(j + 1).drop_last() =~= slots@.take(j as int));
            }
            if let SlotState::Done { keys_found, .. } = slots[j].state {
                total = total + keys_found;
            }
            j = j + 1;
        }
        proof {
            assert(slots@.take(slots@.len() as int) =~= slots@);
        }
        t = t + 1;
    }
    proof {
        assert(threads@.take(threads@.len() as int) =~= threads@);
    }
    total
}

} // verus!
