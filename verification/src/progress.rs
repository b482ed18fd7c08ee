//! A running analysis: what it analyses, whether it was cancelled, and how
//! far it has come.
use vstd::prelude::*;

verus! {

/// How far a running analysis has come.
pub struct RunningProgress {
    /// The analyzer process that runs now, if any.
    pub pid: Option<u32>,
    pub phase: String,
    pub total_targets: usize,
    pub completed_targets: usize,
    pub current_target: Option<String>,
}

/// A copy of the progress that the status request reports.
pub struct RunningProgressSnapshot {
    pub phase: String,
    pub total_targets: usize,
    pub completed_targets: usize,
    pub current_target: Option<String>,
}

/// A running analysis. `id` tells one job from another.
pub struct RunningAnalysis {
    pub id: u64,
    pub mode: String,
    pub target_path: String,
    pub cancelled: bool,
    pub progress: RunningProgress,
}

/// The views of an optional string.
pub open spec fn opt_view(o: Option<String>) -> Option<Seq<char>> {
    match o {
        Some(s) => Some(s@),
        None => None,
    }
}

/// How a job describes itself: "<mode> analysis on <target>", where an
/// empty target reads ".".
pub open spec fn description(mode: Seq<char>, target: Seq<char>) -> Seq<char> {
    mode + " analysis on "@ + (if target.len() == 0 {
        "."@
    } else {
        target
    })
}

/// `n + 1`, or `n` where that would overflow.
pub open spec fn saturating_inc(n: usize) -> usize {
    if n < usize::MAX {
        (n + 1) as usize
    } else {
        n
    }
}

/// `a - b`, or 0 where `b > a`.
pub open spec fn saturating_diff(a: usize, b: usize) -> usize {
    if a >= b {
        (a - b) as usize
    } else {
        0
    }
}

/// Milliseconds as a `u64`, capped at `u64::MAX`.
pub open spec fn capped_millis(millis: u128) -> u64 {
    if millis <= u64::MAX as u128 {
        millis as u64
    } else {
        u64::MAX
    }
}

/// The message that cancelled work answers with.
pub open spec fn cancelled_message(mode: Seq<char>, target: Seq<char>) -> Seq<char> {
    "analysis cancelled: "@ + description(mode, target)
}

/// `b` is `a` with its phase set to `phase`, and nothing else changed.
pub open spec fn sets_phase(a: RunningAnalysis, b: RunningAnalysis, phase: Seq<char>) -> bool {
    &&& b.progress.phase@ == phase
    &&& b.progress.pid == a.progress.pid
    &&& b.progress.total_targets == a.progress.total_targets
    &&& b.progress.completed_targets == a.progress.completed_targets
    &&& b.progress.current_target == a.progress.current_target
    &&& b.id == a.id
    &&& b.mode == a.mode
    &&& b.target_path == a.target_path
    &&& b.cancelled == a.cancelled
}

/// `b` is `a` marked cancelled, and nothing else changed.
pub open spec fn cancels_job(a: RunningAnalysis, b: RunningAnalysis) -> bool {
    &&& b.cancelled
    &&& b.id == a.id
    &&& b.mode == a.mode
    &&& b.target_path == a.target_path
    &&& b.progress == a.progress
}

/// `b` is `a` after one of the job's operations: a read (which changes
/// nothing), setting the phase, starting or finishing a target, or
/// cancelling.
pub open spec fn job_step(a: RunningAnalysis, b: RunningAnalysis) -> bool {
    ||| a == b
    ||| (exists|phase: Seq<char>| sets_phase(a, b, phase))
    ||| (exists|pid: u32, target: Seq<char>| starts_target(a, b, pid, target))
    ||| finishes_target(a, b)
    ||| cancels_job(a, b)
}

/// `b` is `a` once the analyzer process `pid` runs on `target`.
pub open spec fn starts_target(a: RunningAnalysis, b: RunningAnalysis, pid: u32, target: Seq<
    char,
>) -> bool {
    &&& b.progress.pid == Some(pid)
    &&& b.progress.phase@ == "running"@
    &&& opt_view(b.progress.current_target) == Some(target)
    &&& b.progress.total_targets == a.progress.total_targets
    &&& b.progress.completed_targets == a.progress.completed_targets
    &&& b.id == a.id
    &&& b.mode == a.mode
    &&& b.target_path == a.target_path
    &&& b.cancelled == a.cancelled
}

/// `b` is `a` once its current target is done.
pub open spec fn finishes_target(a: RunningAnalysis, b: RunningAnalysis) -> bool {
    &&& b.progress.pid is None
    &&& b.progress.current_target is None
    &&& b.progress.completed_targets == saturating_inc(a.progress.completed_targets)
    &&& b.progress.phase@ == "finalizing"@
    &&& b.progress.total_targets == a.progress.total_targets
    &&& b.id == a.id
    &&& b.mode == a.mode
    &&& b.target_path == a.target_path
    &&& b.cancelled == a.cancelled
}

impl RunningAnalysis {
    /// A new job: not cancelled, preparing, with nothing completed and no
    /// process or target running.
    pub fn new(id: u64, mode: String, target_path: String, total_targets: usize) -> (res:
        RunningAnalysis)
        ensures
            res.id == id,
            res.mode@ == mode@,
            res.target_path@ == target_path@,
            !res.cancelled,
            res.progress.pid is None,
            res.progress.phase@ == "preparing"@,
            res.progress.total_targets == total_targets,
            res.progress.completed_targets == 0,
            res.progress.current_target is None,
    {
        RunningAnalysis {
            id,
            mode,
            target_path,
            cancelled: false,
            progress: RunningProgress {
                pid: None,
                phase: String::from_str("preparing"),
                total_targets,
                completed_targets: 0,
                current_target: None,
            },
        }
    }

    /// "<mode> analysis on <target>".
    pub fn describe(&self) -> (res: String)
        ensures
            res@ == description(self.mode@, self.target_path@),
    {
        let mut res = self.mode.clone();
        res.append(" analysis on ");
        if self.target_path.as_str().is_empty() {
            res.append(".");
        } else {
            res.append(self.target_path.as_str());
        }
        res
    }

    /// Marks the job cancelled, and hands back the analyzer process to stop,
    /// if one runs.
    pub fn cancel(&mut self) -> (pid: Option<u32>)
        ensures
            cancels_job(*old(self), *final(self)),
            pid == old(self).progress.pid,
    {
        self.cancelled = true;
        self.progress.pid
    }

    /// Whether the job was cancelled.
    pub fn was_cancelled(&self) -> (r: bool)
        ensures
            r == self.cancelled,
    {
        self.cancelled
    }

    /// The time the job has run, in milliseconds, capped at `u64::MAX`.
    pub fn elapsed_ms(&self, elapsed_millis: u128) -> (r: u64)
        ensures
            r == capped_millis(elapsed_millis),
    {
        if elapsed_millis <= u64::MAX as u128 {
            elapsed_millis as u64
        } else {
            u64::MAX
        }
    }

    /// Sets the phase; nothing else changes.
    pub fn set_phase(&mut self, phase: String)
        ensures
            sets_phase(*old(self), *final(self), phase@),
    {
        self.progress.phase = phase;
    }

    /// Records that the analyzer process `pid` runs on `current_target`.
    pub fn start_target(&mut self, pid: u32, current_target: String)
        ensures
            starts_target(*old(self), *final(self), pid, current_target@),
    {
        self.progress.pid = Some(pid);
        self.progress.phase = String::from_str("running");
        self.progress.current_target = Some(current_target);
    }

    /// Records that the current target is done: one more target completed
    /// (saturating), no process or target running, finalizing.
    pub fn finish_target(&mut self)
        ensures
            finishes_target(*old(self), *final(self)),
    {
        self.progress.pid = None;
        self.progress.completed_targets = self.progress.completed_targets.saturating_add(1);
        self.progress.current_target = None;
        self.progress.phase = String::from_str("finalizing");
    }

    /// A copy of the progress.
    pub fn snapshot(&self) -> (res: RunningProgressSnapshot)
        ensures
            res.phase@ == self.progress.phase@,
            res.total_targets == self.progress.total_targets,
            res.completed_targets == self.progress.completed_targets,
            opt_view(res.current_target) == opt_view(self.progress.current_target),
    {
        RunningProgressSnapshot {
            phase: self.progress.phase.clone(),
            total_targets: self.progress.total_targets,
            completed_targets: self.progress.completed_targets,
            current_target: match &self.progress.current_target {
                Some(t) => Some(t.clone()),
                None => None,
            },
        }
    }

    /// The message for work that stops because the job was cancelled:
    /// "analysis cancelled: <description>".
    pub fn cancelled_message(&self) -> (res: String)
        ensures
            res@ == cancelled_message(self.mode@, self.target_path@),
    {
        let mut res = String::from_str("analysis cancelled: ");
        let d = self.describe();
        res.append(d.as_str());
        res
    }
}

/// Running a target and finishing it counts one more target done, leaves
/// no process or target running, and one target fewer to go while any
/// remained.
pub proof fn lemma_run_one_target(
    a: RunningAnalysis,
    b: RunningAnalysis,
    c: RunningAnalysis,
    pid: u32,
    target: Seq<char>,
)
    requires
        a.progress.completed_targets < a.progress.total_targets,
        starts_target(a, b, pid, target),
        finishes_target(b, c),
    ensures
        c.progress.completed_targets == a.progress.completed_targets + 1,
        saturating_diff(c.progress.total_targets, c.progress.completed_targets) + 1
            == saturating_diff(a.progress.total_targets, a.progress.completed_targets),
        c.progress.pid is None,
        c.progress.current_target is None,
        c.cancelled == a.cancelled,
{
}

/// A job starts not cancelled, and after any sequence of its operations it
/// is cancelled exactly when one of them was a cancel: no other operation
/// sets the flag, and none clears it.
pub proof fn lemma_cancelled_exactly_after_cancel(s: Seq<RunningAnalysis>, j: int)
    requires
        s.len() > 0,
        !s[0].cancelled,
        forall|i: int| 0 <= i < s.len() - 1 ==> job_step(#[trigger] s[i], s[i + 1]),
        0 <= j < s.len(),
    ensures
        s[j].cancelled <==> exists|i: int| 0 <= i < j && cancels_job(#[trigger] s[i], s[i + 1]),
    decreases j,
{
    if j > 0 {
        lemma_cancelled_exactly_after_cancel(s, j - 1);
        assert(job_step(s[j - 1], s[j]));
        if s[j].cancelled && !s[j - 1].cancelled {
            assert(cancels_job(s[j - 1], s[j]));
        }
        if exists|i: int| 0 <= i < j && cancels_job(#[trigger] s[i], s[i + 1]) {
            let i = choose|i: int| 0 <= i < j && cancels_job(#[trigger] s[i], s[i + 1]);
            if i < j - 1 {
                assert(s[j - 1].cancelled);
            }
        }
    }
}

/// Once cancelled, a job stays cancelled through any of its operations.
pub proof fn lemma_cancel_sticks(a: RunningAnalysis, b: RunningAnalysis)
    requires
        a.cancelled,
        job_step(a, b),
    ensures
        b.cancelled,
{
}

} // verus!
