//! Process registry: tracks running and completed processes by ID.
//!
//! The registry is the bookkeeping of the stateless path: it assigns entries
//! to string IDs, enforces the concurrency cap, caches results, windows
//! output for status checks and prunes completed entries after a TTL. The
//! asynchronous work around it — spawning the runner task, awaiting its
//! handle, reading the live buffer — happens outside the library; those
//! steps hand the registry the wall-clock time and buffer snapshots as plain
//! values.

use vstd::prelude::*;
use vstd::string::StringExecFns;
use crate::output::{spec_window_head, spec_window_tail, window};
use crate::process::ProcessResult;

verus! {

/// How long completed entries are retained before automatic cleanup
/// (30 minutes).
pub const COMPLETED_TTL_MS: u64 = 30 * 60 * 1000;

/// Maximum number of concurrently running processes.
pub const MAX_CONCURRENT_PROCESSES: usize = 20;

/// Lines of output returned per call at most.
pub const MAX_OUTPUT_SLICE: usize = 500;

/// Tail lines reported for a still-running process.
pub const RUNNING_TAIL_LINES: usize = 20;

/// The status of a tracked process.
#[derive(Clone, Copy, Debug, PartialEq, Eq, Structural)]
pub enum ProcessStatus {
    Running,
    Completed,
    Failed,
    TimedOut,
}

/// Status derived from the cached result: running without one; else timed
/// out, completed on exit code zero, failed otherwise.
pub open spec fn spec_status_of(result: Option<ProcessResult>) -> ProcessStatus {
    match result {
        None => ProcessStatus::Running,
        Some(r) => if r.timed_out {
            ProcessStatus::TimedOut
        } else if r.exit_code == 0 {
            ProcessStatus::Completed
        } else {
            ProcessStatus::Failed
        },
    }
}



/// One tracked process.
#[derive(Debug)]
pub struct ProcessEntry {
    /// The entry's identifier.
    pub id: String,
    /// The command the process runs.
    pub command: String,
    /// When the entry was created, in wall-clock milliseconds.
    pub started_at_ms: u64,
    /// When the process completed, for TTL cleanup.
    pub completed_at_ms: Option<u64>,
    /// Whether the background task's handle is still held (taken by the
    /// first wait).
    pub handle_present: bool,
    /// Cached result after the process completes.
    pub result: Option<ProcessResult>,
    /// Output-window budget for this entry.
    pub max_output_lines: usize,
}

/// The entry is still running: no result has been cached.
pub open spec fn entry_running(e: ProcessEntry) -> bool {
    e.result is None
}

/// The entry survives pruning at the given time: it is still running or
/// completed less than the TTL ago.
pub open spec fn spec_keep(e: ProcessEntry, now_ms: u64) -> bool {
    match e.completed_at_ms {
        None => true,
        Some(c) => (now_ms as int) - (c as int) < COMPLETED_TTL_MS as int,
    }
}

/// Number of running entries.
pub open spec fn spec_running_count(entries: Seq<ProcessEntry>) -> int {
    entries.filter(|e: ProcessEntry| entry_running(e)).len() as int
}

/// Index of the entry with the given ID, or -1.
pub open spec fn spec_find_entry(entries: Seq<ProcessEntry>, id: Seq<char>) -> int
    decreases entries.len(),
{
    if entries.len() == 0 {
        -1
    } else if entries[0].id@ == id {
        0
    } else {
        let r = spec_find_entry(entries.drop_first(), id);
        if r < 0 {
            -1
        } else {
            1 + r
        }
    }
}

/// Thread-safe registry of running and completed processes (the map logic;
/// callers share it behind their own lock).
pub struct ProcessRegistry {
    /// The tracked entries, in insertion order, with pairwise-distinct IDs.
    pub entries: Vec<ProcessEntry>,
}

impl ProcessRegistry {
    /// The registry's invariant: IDs are unique and no more than the cap
    /// of entries are running.
    pub open spec fn wf(&self) -> bool {
        &&& forall|a: int, b: int|
            0 <= a < b < self.entries@.len() ==> self.entries@[a].id@ != self.entries@[b].id@
        &&& spec_running_count(self.entries@) <= MAX_CONCURRENT_PROCESSES as int
    }

    /// Create a new empty registry.
    pub fn new() -> (r: ProcessRegistry)
        ensures
            r.entries@ == Seq::<ProcessEntry>::empty(),
            r.wf(),
    {
        let r = ProcessRegistry { entries: Vec::new() };
        proof {
            reveal(Seq::filter);
            assert(r.entries@ =~= Seq::<ProcessEntry>::empty());
        }
        r
    }
}

/// Replacing one entry by a non-running one never raises the running
/// count; replacing running by running, or completed by completed, keeps
/// it.
proof fn lemma_count_update(s: Seq<ProcessEntry>, k: int, e: ProcessEntry)
    requires
        0 <= k < s.len(),
    ensures
        !entry_running(e) ==> spec_running_count(s.update(k, e)) <= spec_running_count(s),
        entry_running(e) == entry_running(s[k]) ==> spec_running_count(s.update(k, e))
            == spec_running_count(s),
{
    broadcast use Seq::filter_distributes_over_add;

    reveal(Seq::filter);
    let pred = |x: ProcessEntry| entry_running(x);
    let pre = s.subrange(0, k);
    let post = s.subrange(k + 1, s.len() as int);
    assert(s =~= pre + seq![s[k]] + post);
    assert(s.update(k, e) =~= pre + seq![e] + post);
    assert(seq![s[k]].drop_last() =~= Seq::<ProcessEntry>::empty());
    assert(seq![e].drop_last() =~= Seq::<ProcessEntry>::empty());
    assert(Seq::<ProcessEntry>::empty().filter(pred).len() == 0);
    assert(seq![s[k]].filter(pred).len() == (if pred(s[k]) {
        1int
    } else {
        0int
    }));
    assert(seq![e].filter(pred).len() == (if pred(e) {
        1int
    } else {
        0int
    }));
    assert((pre + seq![s[k]]).filter(pred) =~= pre.filter(pred) + seq![s[k]].filter(pred));
    assert((pre + seq![s[k]] + post).filter(pred) =~= (pre + seq![s[k]]).filter(pred)
        + post.filter(pred));
    assert((pre + seq![e]).filter(pred) =~= pre.filter(pred) + seq![e].filter(pred));
    assert((pre + seq![e] + post).filter(pred) =~= (pre + seq![e]).filter(pred) + post.filter(
        pred,
    ));
}

/// Appending an entry raises the running count by one when it is running
/// and leaves it unchanged otherwise.
proof fn lemma_count_push(s: Seq<ProcessEntry>, e: ProcessEntry)
    ensures
        entry_running(e) ==> spec_running_count(s.push(e)) == spec_running_count(s) + 1,
        !entry_running(e) ==> spec_running_count(s.push(e)) == spec_running_count(s),
{
    reveal(Seq::filter);
    let pred = |x: ProcessEntry| entry_running(x);
    assert(s.push(e).drop_last() =~= s);
    assert(s.push(e).last() == e);
}

impl ProcessRegistry {
    /// Position of the entry with the given ID, if any.
    fn find_entry(&self, id: &str) -> (r: Option<usize>)
        ensures
            match r {
                Some(k) => spec_find_entry(self.entries@, id@) == k as int && k < self.entries@.len()
                    && self.entries@[k as int].id@ == id@,
                None => spec_find_entry(self.entries@, id@) == -1 && forall|k: int|
                    0 <= k < self.entries@.len() ==> self.entries@[k].id@ != id@,
            },
    {
        let id_string = id.to_owned();
        let mut k: usize = 0;
        while k < self.entries.len()
            invariant
                k <= self.entries@.len(),
                id_string@ == id@,
                forall|j: int| 0 <= j < k ==> self.entries@[j].id@ != id@,
            decreases self.entries@.len() - k,
        {
            if self.entries[k].id.eq(&id_string) {
                proof {
                    lemma_find_entry_index(self.entries@, id@, k as int);
                }
                return Some(k);
            }
            k += 1;
        }
        proof {
            lemma_find_entry_none(self.entries@, id@);
        }
        None
    }

    /// Prune completed entries older than the TTL.
    pub fn prune_expired(&mut self, now_ms: u64)
        requires
            old(self).wf(),
        ensures
            final(self).entries@ == old(self).entries@.filter(
                |e: ProcessEntry| spec_keep(e, now_ms),
            ),
            final(self).wf(),
    {
        let ghost orig = self.entries@;
        let ghost keep_pred = |e: ProcessEntry| spec_keep(e, now_ms);
        let mut kept: Vec<ProcessEntry> = Vec::new();
        let mut i: usize = 0;
        let n0: usize = self.entries.len();
        proof {
            reveal(Seq::filter);
            assert(orig.subrange(0, 0) =~= Seq::<ProcessEntry>::empty());
            assert(self.entries@ =~= orig.skip(0));
        }
        while self.entries.len() > 0
            invariant
                i <= orig.len() == n0,
                self.entries@ == orig.skip(i as int),
                kept@ == orig.subrange(0, i as int).filter(keep_pred),
                keep_pred == (|e: ProcessEntry| spec_keep(e, now_ms)),
            decreases self.entries@.len(),
        {
            let e = self.entries.remove(0);
            let keep = match e.completed_at_ms {
                None => true,
                Some(c) => now_ms < c || now_ms - c < COMPLETED_TTL_MS,
            };
            proof {
                assert(orig.skip(i as int)[0] == orig[i as int]);
                assert(keep == keep_pred(orig[i as int]));
                assert(orig.subrange(0, i + 1).drop_last() =~= orig.subrange(0, i as int));
                assert(orig.subrange(0, i + 1).last() == orig[i as int]);
                assert(orig.skip(i as int).remove(0) =~= orig.skip(i + 1));
                reveal(Seq::filter);
            }
            if keep {
                kept.push(e);
            }
            i += 1;
        }
        proof {
            assert(orig.subrange(0, orig.len() as int) =~= orig);
        }
        self.entries = kept;
        proof {
            lemma_filter_keeps_wf(orig, keep_pred, self.entries@);
        }
    }
}

/// A first match pins down `spec_find_entry`.
proof fn lemma_find_entry_index(entries: Seq<ProcessEntry>, id: Seq<char>, k: int)
    requires
        0 <= k < entries.len(),
        entries[k].id@ == id,
        forall|j: int| 0 <= j < k ==> entries[j].id@ != id,
    ensures
        spec_find_entry(entries, id) == k,
    decreases entries.len(),
{
    if k > 0 {
        lemma_find_entry_index(entries.drop_first(), id, k - 1);
    }
}

/// With the ID on no entry, `spec_find_entry` is -1.
proof fn lemma_find_entry_none(entries: Seq<ProcessEntry>, id: Seq<char>)
    requires
        forall|j: int| 0 <= j < entries.len() ==> entries[j].id@ != id,
    ensures
        spec_find_entry(entries, id) == -1,
    decreases entries.len(),
{
    if entries.len() > 0 {
        lemma_find_entry_none(entries.drop_first(), id);
    }
}

/// A filtered registry is still well-formed: the surviving entries keep
/// their distinct IDs and the running count cannot grow.
proof fn lemma_filter_keeps_wf(
    orig: Seq<ProcessEntry>,
    keep_pred: spec_fn(ProcessEntry) -> bool,
    kept: Seq<ProcessEntry>,
)
    requires
        kept == orig.filter(keep_pred),
        forall|a: int, b: int| 0 <= a < b < orig.len() ==> orig[a].id@ != orig[b].id@,
        spec_running_count(orig) <= MAX_CONCURRENT_PROCESSES as int,
    ensures
        forall|a: int, b: int| 0 <= a < b < kept.len() ==> kept[a].id@ != kept[b].id@,
        spec_running_count(kept) <= MAX_CONCURRENT_PROCESSES as int,
    decreases orig.len(),
{
    reveal(Seq::filter);
    if orig.len() == 0 {
    } else {
        let d = orig.drop_last();
        let sub = d.filter(keep_pred);
        lemma_filter_keeps_wf(d, keep_pred, sub);
        // Every filtered entry comes out of the shorter sequence.
        lemma_filter_elements(d, keep_pred);
        let run_pred = |x: ProcessEntry| entry_running(x);
        lemma_filter_of_filter_le(d, keep_pred);
        if keep_pred(orig.last()) {
            assert(kept == sub.push(orig.last()));
            assert forall|a: int, b: int|
                0 <= a < b < kept.len() implies kept[a].id@ != kept[b].id@ by {
                if b < kept.len() - 1 {
                } else {
                    let j = choose|j: int| 0 <= j < d.len() && #[trigger] d.filter(keep_pred)[a] == d[j];
                    assert(orig[j] == d[j]);
                    assert(orig[j].id@ != orig[orig.len() - 1].id@);
                }
            }
            lemma_count_push(sub, orig.last());
            lemma_count_push(d, orig.last());
            assert(orig =~= d.push(orig.last()));
        } else {
            assert(kept == sub);
            lemma_count_push(d, orig.last());
            assert(orig =~= d.push(orig.last()));
        }
    }
}

/// Every element of a filtered sequence stands somewhere in the original.
proof fn lemma_filter_elements(s: Seq<ProcessEntry>, pred: spec_fn(ProcessEntry) -> bool)
    ensures
        forall|a: int|
            0 <= a < s.filter(pred).len() ==> exists|j: int|
                0 <= j < s.len() && #[trigger] s.filter(pred)[a] == s[j],
    decreases s.len(),
{
    reveal(Seq::filter);
    if s.len() > 0 {
        let d = s.drop_last();
        lemma_filter_elements(d, pred);
        let sub = d.filter(pred);
        assert forall|a: int| 0 <= a < s.filter(pred).len() implies exists|j: int|
            0 <= j < s.len() && #[trigger] s.filter(pred)[a] == s[j] by {
            if a < sub.len() {
                let j = choose|j: int| 0 <= j < d.len() && #[trigger] d.filter(pred)[a] == d[j];
                assert(s[j] == d[j]);
                assert(s.filter(pred)[a] == s[j]);
            } else {
                assert(pred(s.last()));
                assert(s.filter(pred)[a] == s[s.len() - 1]);
            }
        }
    }
}

/// The running count of a filtered sequence never exceeds the original's.
proof fn lemma_filter_of_filter_le(s: Seq<ProcessEntry>, keep_pred: spec_fn(ProcessEntry) -> bool)
    ensures
        spec_running_count(s.filter(keep_pred)) <= spec_running_count(s),
    decreases s.len(),
{
    reveal(Seq::filter);
    let run_pred = |x: ProcessEntry| entry_running(x);
    if s.len() == 0 {
    } else {
        let d = s.drop_last();
        lemma_filter_of_filter_le(d, keep_pred);
        lemma_count_push(d, s.last());
        assert(s =~= d.push(s.last()));
        if keep_pred(s.last()) {
            assert(s.filter(keep_pred) == d.filter(keep_pred).push(s.last()));
            lemma_count_push(d.filter(keep_pred), s.last());
        } else {
            assert(s.filter(keep_pred) == d.filter(keep_pred));
        }
    }
}


/// What a wait finds when it begins: a cached result ready to return, or a
/// pending run whose handle the caller must now await (with the entry's
/// output-window budget either way).
#[derive(Debug)]
pub enum WaitOutcome {
    Ready(ProcessResult, usize),
    Pending(usize),
}

/// A slice of output lines from a tracked command.
#[derive(Debug)]
pub struct OutputSlice {
    pub id: String,
    pub start_line: usize,
    pub end_line: usize,
    pub total_lines: usize,
    pub lines: Vec<String>,
}

/// Response from a status check.
#[derive(Debug)]
pub struct StatusResponse {
    pub status: ProcessStatus,
    pub runtime_ms: u64,
    pub tail_lines: Vec<String>,
}

/// Summary information about a tracked process.
#[derive(Debug)]
pub struct ProcessSummary {
    pub id: String,
    pub command: String,
    pub status: ProcessStatus,
    pub runtime_ms: u64,
}

/// Law of a finished run: once an entry carries a cached result — as it
/// does after a wait completes, after a kill, or for a stored one-shot run
/// — its derived status is completed, failed or timed out, never running,
/// and the lines that `get_output` and `status` read are exactly the cached
/// result's lines, whatever the live buffer holds.
pub proof fn lemma_completed_entry_final(e: ProcessEntry, live: Seq<String>)
    requires
        e.result is Some,
    ensures
        spec_status_of(e.result) != ProcessStatus::Running,
        spec_status_of(e.result) == ProcessStatus::Completed || spec_status_of(e.result)
            == ProcessStatus::Failed || spec_status_of(e.result) == ProcessStatus::TimedOut,
        spec_entry_lines(e, live) == e.result->0.lines@,
{
}

/// The lines a reader of the entry sees: the cached result's lines once the
/// process completed, the live buffer before that.
pub open spec fn spec_entry_lines(e: ProcessEntry, live: Seq<String>) -> Seq<String> {
    match e.result {
        Some(r) => r.lines@,
        None => live,
    }
}

/// Runtime reported for an entry: the cached duration once complete, else
/// the wall-clock time since start (zero if the clock ran backwards).
pub open spec fn spec_runtime_ms(e: ProcessEntry, now_ms: u64) -> int {
    match e.result {
        Some(r) => r.duration_ms as int,
        None => if now_ms >= e.started_at_ms {
            now_ms - e.started_at_ms
        } else {
            0
        },
    }
}

/// Start of the returned output slice: the requested start, clamped to the
/// total number of lines.
pub open spec fn spec_slice_start(start_line: Option<usize>, total: int) -> int {
    let s = match start_line {
        Some(v) => v as int,
        None => 0,
    };
    if s <= total {
        s
    } else {
        total
    }
}

/// End of the returned output slice: the requested end clamped to lie
/// between the start and the total, then capped to at most the per-call
/// maximum past the start.
pub open spec fn spec_slice_end(start_line: Option<usize>, end_line: Option<usize>, total: int) -> int {
    let e = match end_line {
        Some(v) => v as int,
        None => total,
    };
    let e2 = if e <= total {
        e
    } else {
        total
    };
    let s = spec_slice_start(start_line, total);
    let e3 = if e2 >= s {
        e2
    } else {
        s
    };
    if e3 - s <= MAX_OUTPUT_SLICE as int {
        e3
    } else {
        s + MAX_OUTPUT_SLICE as int
    }
}

/// Status of the given cached result.
pub fn derive_status(result: &Option<ProcessResult>) -> (s: ProcessStatus)
    ensures
        s == spec_status_of(*result),
{
    match result {
        None => ProcessStatus::Running,
        Some(r) => if r.timed_out {
            ProcessStatus::TimedOut
        } else if r.exit_code == 0 {
            ProcessStatus::Completed
        } else {
            ProcessStatus::Failed
        },
    }
}

/// The "unknown process" diagnostic.
fn msg_no_process(id: &str) -> (m: String)
    ensures
        m@ == "no process with id '"@ + id@ + "'"@,
{
    let mut m = String::new();
    m.append("no process with id '");
    m.append(id);
    m.append("'");
    proof {
        assert(m@ =~= "no process with id '"@ + id@ + "'"@);
    }
    m
}

impl ProcessRegistry {
    /// Store a completed result directly, so that its output is
    /// retrievable later; an entry already bearing the ID is replaced.
    pub fn store_result(
        &mut self,
        id: String,
        command: String,
        result: ProcessResult,
        max_output_lines: usize,
        now_ms: u64,
    )
        requires
            old(self).wf(),
        ensures
            final(self).wf(),
            ({
                let pruned = old(self).entries@.filter(|e: ProcessEntry| spec_keep(e, now_ms));
                let k = spec_find_entry(pruned, id@);
                let without = if k >= 0 {
                    pruned.remove(k)
                } else {
                    pruned
                };
                &&& final(self).entries@.len() == without.len() + 1
                &&& final(self).entries@.subrange(0, without.len() as int) == without
                &&& ({
                    let e = final(self).entries@.last();
                    &&& e.id == id
                    &&& e.command == command
                    &&& e.started_at_ms == now_ms
                    &&& e.completed_at_ms == Some(now_ms)
                    &&& !e.handle_present
                    &&& e.result == Some(result)
                    &&& e.max_output_lines == max_output_lines
                })
            }),
    {
        self.prune_expired(now_ms);
        let ghost pruned = self.entries@;
        let found = self.find_entry(id.as_str());
        match found {
            Some(k) => {
                let _ = self.entries.remove(k);
                proof {
                    lemma_count_remove(pruned, k as int);
                    assert forall|j: int|
                        0 <= j < self.entries@.len() implies self.entries@[j].id@ != id@ by {
                        if j < k {
                            assert(self.entries@[j] == pruned[j]);
                        } else {
                            assert(self.entries@[j] == pruned[j + 1]);
                        }
                    }
                }
            },
            None => {},
        }
        let entry = ProcessEntry {
            id,
            command,
            started_at_ms: now_ms,
            completed_at_ms: Some(now_ms),
            handle_present: false,
            result: Some(result),
            max_output_lines,
        };
        let ghost before = self.entries@;
        proof {
            lemma_count_push(before, entry);
        }
        self.entries.push(entry);
        proof {
            assert(self.entries@.subrange(0, before.len() as int) =~= before);
        }
    }

    /// Number of running entries.
    fn running_count(&self) -> (c: usize)
        ensures
            c as int == spec_running_count(self.entries@),
    {
        let ghost run_pred = |e: ProcessEntry| entry_running(e);
        let mut c: usize = 0;
        let mut i: usize = 0;
        proof {
            reveal(Seq::filter);
            assert(self.entries@.subrange(0, 0) =~= Seq::<ProcessEntry>::empty());
        }
        while i < self.entries.len()
            invariant
                i <= self.entries@.len(),
                c <= i,
                c as int == self.entries@.subrange(0, i as int).filter(
                    |e: ProcessEntry| entry_running(e),
                ).len(),
            decreases self.entries@.len() - i,
        {
            proof {
                assert(self.entries@.subrange(0, i + 1).drop_last() =~= self.entries@.subrange(
                    0,
                    i as int,
                ));
                assert(self.entries@.subrange(0, i + 1).last() == self.entries@[i as int]);
                reveal(Seq::filter);
            }
            let running = match &self.entries[i].result {
                None => true,
                Some(_) => false,
            };
            if running {
                c += 1;
            }
            i += 1;
        }
        proof {
            assert(self.entries@.subrange(0, self.entries@.len() as int) =~= self.entries@);
        }
        c
    }

    /// Start tracking a command: after pruning, the ID must be fresh and
    /// fewer than the cap of entries may be running; the new entry is
    /// running, its task handle held.
    pub fn start(&mut self, id: String, command: String, max_output_lines: usize, now_ms: u64) -> (r:
        Result<(), String>)
        requires
            old(self).wf(),
        ensures
            final(self).wf(),
            ({
                let pruned = old(self).entries@.filter(|e: ProcessEntry| spec_keep(e, now_ms));
                let k = spec_find_entry(pruned, id@);
                &&& (k >= 0 ==> r is Err && final(self).entries@ == pruned && r->Err_0@
                    == "process with id '"@ + id@ + "' already exists"@)
                &&& (k < 0 && spec_running_count(pruned) >= MAX_CONCURRENT_PROCESSES as int ==> r
                    is Err && final(self).entries@ == pruned && r->Err_0@
                    == "too many concurrent processes (20/20). Wait for some to complete or kill running processes."@)
                &&& (k < 0 && spec_running_count(pruned) < MAX_CONCURRENT_PROCESSES as int ==> r
                    is Ok && final(self).entries@.len() == pruned.len() + 1
                    && final(self).entries@.subrange(0, pruned.len() as int) == pruned && ({
                    let e = final(self).entries@.last();
                    &&& e.id == id
                    &&& e.command == command
                    &&& e.started_at_ms == now_ms
                    &&& e.completed_at_ms is None
                    &&& e.handle_present
                    &&& e.result is None
                    &&& e.max_output_lines == max_output_lines
                }))
            }),
    {
        self.prune_expired(now_ms);
        let ghost pruned = self.entries@;
        if let Some(_) = self.find_entry(id.as_str()) {
            let mut m = String::new();
            m.append("process with id '");
            m.append(id.as_str());
            m.append("' already exists");
            proof {
                assert(m@ =~= "process with id '"@ + id@ + "' already exists"@);
            }
            return Err(m);
        }
        let running = self.running_count();
        if running >= MAX_CONCURRENT_PROCESSES {
            let mut m = String::new();
            m.append(
                "too many concurrent processes (20/20). Wait for some to complete or kill running processes.",
            );
            proof {
                assert(m@
                    =~= "too many concurrent processes (20/20). Wait for some to complete or kill running processes."@);
            }
            return Err(m);
        }
        let entry = ProcessEntry {
            id,
            command,
            started_at_ms: now_ms,
            completed_at_ms: None,
            handle_present: true,
            result: None,
            max_output_lines,
        };
        proof {
            lemma_count_push(pruned, entry);
        }
        self.entries.push(entry);
        proof {
            assert(self.entries@.subrange(0, pruned.len() as int) =~= pruned);
        }
        Ok(())
    }
}

/// Removing one entry never raises the running count.
proof fn lemma_count_remove(s: Seq<ProcessEntry>, k: int)
    requires
        0 <= k < s.len(),
    ensures
        spec_running_count(s.remove(k)) <= spec_running_count(s),
{
    broadcast use Seq::filter_distributes_over_add;

    reveal(Seq::filter);
    let pred = |x: ProcessEntry| entry_running(x);
    let pre = s.subrange(0, k);
    let post = s.subrange(k + 1, s.len() as int);
    assert(s =~= pre + seq![s[k]] + post);
    assert(s.remove(k) =~= pre + post);
    assert(seq![s[k]].drop_last() =~= Seq::<ProcessEntry>::empty());
    assert(Seq::<ProcessEntry>::empty().filter(pred).len() == 0);
    assert((pre + seq![s[k]]).filter(pred) =~= pre.filter(pred) + seq![s[k]].filter(pred));
    assert((pre + seq![s[k]] + post).filter(pred) =~= (pre + seq![s[k]]).filter(pred)
        + post.filter(pred));
    assert((pre + post).filter(pred) =~= pre.filter(pred) + post.filter(pred));
}


impl ProcessRegistry {
    /// Begin waiting for a process, after pruning expired entries: returns
    /// the cached result when one exists; otherwise takes the task handle
    /// (each run can be awaited by only one caller) and reports a pending
    /// wait.
    pub fn begin_wait(&mut self, id: &str, now_ms: u64) -> (r: Result<WaitOutcome, String>)
        requires
            old(self).wf(),
        ensures
            final(self).wf(),
            ({
                let pruned = old(self).entries@.filter(|e: ProcessEntry| spec_keep(e, now_ms));
                let k = spec_find_entry(pruned, id@);
                &&& (k < 0 ==> r is Err && final(self).entries@ == pruned && r->Err_0@
                    == "no process with id '"@ + id@ + "'"@)
                &&& (k >= 0 && pruned[k].result is Some ==> final(self).entries@ == pruned
                    && r is Ok && r->Ok_0 is Ready && ({
                    let res = pruned[k].result->0;
                    let cpy = r->Ok_0->Ready_0;
                    &&& cpy.exit_code == res.exit_code
                    &&& cpy.duration_ms == res.duration_ms
                    &&& cpy.lines@ == res.lines@
                    &&& cpy.timed_out == res.timed_out
                    &&& r->Ok_0->Ready_1 == pruned[k].max_output_lines
                }))
                &&& (k >= 0 && pruned[k].result is None && !pruned[k].handle_present ==> r is Err
                    && final(self).entries@ == pruned && r->Err_0@
                    == "process '"@ + id@ + "' is already being waited on"@)
                &&& (k >= 0 && pruned[k].result is None && pruned[k].handle_present ==> r is Ok
                    && r->Ok_0 == WaitOutcome::Pending(pruned[k].max_output_lines) && final(self).entries@ == pruned.update(
                    k,
                    (ProcessEntry { handle_present: false, ..pruned[k] }),
                ))
            }),
    {
        self.prune_expired(now_ms);
        let k = match self.find_entry(id) {
            None => {
                return Err(msg_no_process(id));
            },
            Some(k) => k,
        };
        let max_lines = self.entries[k].max_output_lines;
        match &self.entries[k].result {
            Some(res) => {
                return Ok(WaitOutcome::Ready(res.duplicate(), max_lines));
            },
            None => {},
        }
        if !self.entries[k].handle_present {
            let mut m = String::new();
            m.append("process '");
            m.append(id);
            m.append("' is already being waited on");
            proof {
                assert(m@ =~= "process '"@ + id@ + "' is already being waited on"@);
            }
            return Err(m);
        }
        let ghost orig = self.entries@;
        let mut e = self.entries.remove(k);
        e.handle_present = false;
        let ghost e_new = e;
        self.entries.insert(k, e);
        proof {
            assert(self.entries@ =~= orig.update(k as int, e_new));
            lemma_count_update(orig, k as int, e_new);
            assert forall|a: int, b: int|
                0 <= a < b < self.entries@.len() implies self.entries@[a].id@
                != self.entries@[b].id@ by {
                assert(self.entries@[a].id == orig[a].id);
                assert(self.entries@[b].id == orig[b].id);
            }
        }
        Ok(WaitOutcome::Pending(max_lines))
    }

    /// Cache the result of a finished wait on the entry, if it survived
    /// pruning, and stamp its completion time.
    pub fn finish_wait(&mut self, id: &str, result: ProcessResult, now_ms: u64)
        requires
            old(self).wf(),
        ensures
            final(self).wf(),
            ({
                let pruned = old(self).entries@.filter(|e: ProcessEntry| spec_keep(e, now_ms));
                let k = spec_find_entry(pruned, id@);
                &&& (k < 0 ==> final(self).entries@ == pruned)
                &&& (k >= 0 ==> final(self).entries@ == pruned.update(
                    k,
                    (ProcessEntry {
                        result: Some(result),
                        completed_at_ms: Some(now_ms),
                        ..pruned[k]
                    }),
                ))
            }),
    {
        self.prune_expired(now_ms);
        let k = match self.find_entry(id) {
            None => {
                return ;
            },
            Some(k) => k,
        };
        let ghost orig = self.entries@;
        let mut e = self.entries.remove(k);
        e.result = Some(result);
        e.completed_at_ms = Some(now_ms);
        let ghost e_new = e;
        self.entries.insert(k, e);
        proof {
            assert(self.entries@ =~= orig.update(k as int, e_new));
            lemma_count_update(orig, k as int, e_new);
            assert forall|a: int, b: int|
                0 <= a < b < self.entries@.len() implies self.entries@[a].id@
                != self.entries@[b].id@ by {
                assert(self.entries@[a].id == orig[a].id);
                assert(self.entries@[b].id == orig[b].id);
            }
        }
    }

    /// Retrieve a range of output lines from a completed (or running)
    /// command: the start is clamped to the total, the end to lie between
    /// them, and the slice is capped at the per-call maximum. For a running
    /// entry the given live-buffer snapshot stands in for the cached lines.
    pub fn get_output(
        &self,
        id: &str,
        start_line: Option<usize>,
        end_line: Option<usize>,
        live: &Vec<String>,
    ) -> (r: Result<OutputSlice, String>)
        ensures
            ({
                let k = spec_find_entry(self.entries@, id@);
                &&& (k < 0 <==> r is Err)
                &&& (k < 0 ==> r->Err_0@ == "no process with id '"@ + id@ + "'"@)
                &&& (k >= 0 ==> ({
                    let lines = spec_entry_lines(self.entries@[k], live@);
                    let total = lines.len() as int;
                    let s = spec_slice_start(start_line, total);
                    let e = spec_slice_end(start_line, end_line, total);
                    let sl = r->Ok_0;
                    &&& sl.id@ == id@
                    &&& sl.start_line == s
                    &&& sl.end_line == e
                    &&& sl.total_lines == total
                    &&& sl.lines@ == (if s < e {
                        lines.subrange(s, e)
                    } else {
                        Seq::<String>::empty()
                    })
                }))
            }),
    {
        let k = match self.find_entry(id) {
            None => {
                return Err(msg_no_process(id));
            },
            Some(k) => k,
        };
        let lines: &Vec<String> = match &self.entries[k].result {
            Some(res) => &res.lines,
            None => live,
        };
        let total = lines.len();
        let start = match start_line {
            Some(v) => if v <= total {
                v
            } else {
                total
            },
            None => 0,
        };
        let end0 = match end_line {
            Some(v) => if v <= total {
                v
            } else {
                total
            },
            None => total,
        };
        let end1 = if end0 >= start {
            end0
        } else {
            start
        };
        let effective_end = if end1 - start > MAX_OUTPUT_SLICE {
            start + MAX_OUTPUT_SLICE
        } else {
            end1
        };
        let slice = if start < effective_end {
            crate::output::clone_range(lines, start, effective_end)
        } else {
            Vec::new()
        };
        proof {
            if start >= effective_end {
                assert(slice@ =~= Seq::<String>::empty());
            }
        }
        Ok(OutputSlice {
            id: id.to_owned(),
            start_line: start,
            end_line: effective_end,
            total_lines: total,
            lines: slice,
        })
    }

    /// The current status of a tracked process, without blocking. A
    /// completed entry reports its derived status, cached duration and a
    /// window of its lines (tail, then head). A running entry reports the
    /// last lines of the given live-buffer snapshot and its runtime so far.
    pub fn status(&self, id: &str, live: &Vec<String>, now_ms: u64) -> (r: Result<
        StatusResponse,
        String,
    >)
        ensures
            ({
                let k = spec_find_entry(self.entries@, id@);
                &&& (k < 0 <==> r is Err)
                &&& (k < 0 ==> r->Err_0@ == "no process with id '"@ + id@ + "'"@)
                &&& (k >= 0 ==> ({
                    let e = self.entries@[k];
                    let st = r->Ok_0;
                    &&& st.status == spec_status_of(e.result)
                    &&& st.runtime_ms == spec_runtime_ms(e, now_ms)
                    &&& (e.result is Some ==> ({
                        let lines = e.result->0.lines@;
                        st.tail_lines@ == spec_window_tail(lines, e.max_output_lines as int)
                            + spec_window_head(lines, e.max_output_lines as int)
                    }))
                    &&& (e.result is None ==> ({
                        let tc = if live@.len() <= RUNNING_TAIL_LINES as int {
                            live@.len() as int
                        } else {
                            RUNNING_TAIL_LINES as int
                        };
                        st.tail_lines@ == live@.subrange(live@.len() - tc, live@.len() as int)
                    }))
                }))
            }),
    {
        let k = match self.find_entry(id) {
            None => {
                return Err(msg_no_process(id));
            },
            Some(k) => k,
        };
        let status = derive_status(&self.entries[k].result);
        match &self.entries[k].result {
            Some(res) => {
                let windowed = window(&res.lines, self.entries[k].max_output_lines);
                let mut tail_lines = windowed.tail;
                let mut head = windowed.head;
                tail_lines.append(&mut head);
                Ok(StatusResponse { status, runtime_ms: res.duration_ms, tail_lines })
            },
            None => {
                let started = self.entries[k].started_at_ms;
                let runtime_ms = if now_ms >= started {
                    now_ms - started
                } else {
                    0
                };
                let total = live.len();
                let tail_count = if total <= RUNNING_TAIL_LINES {
                    total
                } else {
                    RUNNING_TAIL_LINES
                };
                let tail_lines = crate::output::clone_range(live, total - tail_count, total);
                Ok(StatusResponse { status, runtime_ms, tail_lines })
            },
        }
    }

    /// Kill a running process: refuse when it has already completed; when
    /// its handle is still held, store a synthetic result holding the live
    /// buffer's lines and report that the caller must abort the task.
    pub fn kill(&mut self, id: &str, live: &Vec<String>, now_ms: u64) -> (r: Result<bool, String>)
        requires
            old(self).wf(),
        ensures
            final(self).wf(),
            ({
                let pruned = old(self).entries@.filter(|e: ProcessEntry| spec_keep(e, now_ms));
                let k = spec_find_entry(pruned, id@);
                &&& (k < 0 ==> r is Err && final(self).entries@ == pruned && r->Err_0@
                    == "no process with id '"@ + id@ + "'"@)
                &&& (k >= 0 && pruned[k].result is Some ==> r is Err && final(self).entries@
                    == pruned && r->Err_0@ == "process '"@ + id@ + "' has already completed"@)
                &&& (k >= 0 && pruned[k].result is None && !pruned[k].handle_present ==> r
                    == Ok::<bool, String>(false) && final(self).entries@ == pruned)
                &&& (k >= 0 && pruned[k].result is None && pruned[k].handle_present ==> r
                    == Ok::<bool, String>(true) && ({
                    let e = final(self).entries@[k];
                    &&& final(self).entries@.len() == pruned.len()
                    &&& forall|j: int|
                        0 <= j < final(self).entries@.len() && j != k ==> final(self).entries@[j]
                            == pruned[j]
                    &&& e.id == pruned[k].id
                    &&& e.command == pruned[k].command
                    &&& e.started_at_ms == pruned[k].started_at_ms
                    &&& e.completed_at_ms == Some(now_ms)
                    &&& !e.handle_present
                    &&& e.result is Some
                    &&& e.result->0.exit_code == -1
                    &&& !e.result->0.timed_out
                    &&& e.result->0.lines@ == live@
                    &&& e.result->0.duration_ms == spec_runtime_ms(pruned[k], now_ms)
                    &&& e.max_output_lines == pruned[k].max_output_lines
                }))
            }),
    {
        self.prune_expired(now_ms);
        let k = match self.find_entry(id) {
            None => {
                return Err(msg_no_process(id));
            },
            Some(k) => k,
        };
        let has_result = match &self.entries[k].result {
            Some(_) => true,
            None => false,
        };
        if has_result {
            let mut m = String::new();
            m.append("process '");
            m.append(id);
            m.append("' has already completed");
            proof {
                assert(m@ =~= "process '"@ + id@ + "' has already completed"@);
            }
            return Err(m);
        }
        if !self.entries[k].handle_present {
            return Ok(false);
        }
        let ghost orig = self.entries@;
        let mut e = self.entries.remove(k);
        let runtime_ms = if now_ms >= e.started_at_ms {
            now_ms - e.started_at_ms
        } else {
            0
        };
        e.handle_present = false;
        e.result = Some(
            ProcessResult {
                exit_code: -1,
                duration_ms: runtime_ms,
                lines: crate::process::clone_lines(live),
                timed_out: false,
            },
        );
        e.completed_at_ms = Some(now_ms);
        let ghost e_new = e;
        self.entries.insert(k, e);
        proof {
            assert(self.entries@ =~= orig.update(k as int, e_new));
            lemma_count_update(orig, k as int, e_new);
            assert forall|a: int, b: int|
                0 <= a < b < self.entries@.len() implies self.entries@[a].id@
                != self.entries@[b].id@ by {
                assert(self.entries@[a].id == orig[a].id);
                assert(self.entries@[b].id == orig[b].id);
            }
        }
        Ok(true)
    }

    /// List all tracked processes after pruning: one summary per entry, in
    /// order, with the derived status and runtime.
    pub fn list(&mut self, now_ms: u64) -> (r: Vec<ProcessSummary>)
        requires
            old(self).wf(),
        ensures
            final(self).wf(),
            final(self).entries@ == old(self).entries@.filter(
                |e: ProcessEntry| spec_keep(e, now_ms),
            ),
            r@.len() == final(self).entries@.len(),
            forall|k: int|
                0 <= k < r@.len() ==> ({
                    let e = final(self).entries@[k];
                    &&& (#[trigger] r@[k]).id@ == e.id@
                    &&& r@[k].command@ == e.command@
                    &&& r@[k].status == spec_status_of(e.result)
                    &&& r@[k].runtime_ms == spec_runtime_ms(e, now_ms)
                }),
    {
        self.prune_expired(now_ms);
        let mut r: Vec<ProcessSummary> = Vec::new();
        let mut i: usize = 0;
        while i < self.entries.len()
            invariant
                i <= self.entries@.len(),
                r@.len() == i,
                forall|k: int|
                    0 <= k < i ==> ({
                        let e = self.entries@[k];
                        &&& (#[trigger] r@[k]).id@ == e.id@
                        &&& r@[k].command@ == e.command@
                        &&& r@[k].status == spec_status_of(e.result)
                        &&& r@[k].runtime_ms == spec_runtime_ms(e, now_ms)
                    }),
            decreases self.entries@.len() - i,
        {
            let e = &self.entries[i];
            let status = derive_status(&e.result);
            let runtime_ms = match &e.result {
                Some(res) => res.duration_ms,
                None => if now_ms >= e.started_at_ms {
                    now_ms - e.started_at_ms
                } else {
                    0
                },
            };
            r.push(
                ProcessSummary {
                    id: e.id.clone(),
                    command: e.command.clone(),
                    status,
                    runtime_ms,
                },
            );
            i += 1;
        }
        r
    }
}

} // verus!
