//! The one analysis job that may run at a time, and the status and cancel
//! requests that look at it.
use vstd::prelude::*;

use crate::error::{is_error, ApiError, ApiStatus};
use crate::mode::{mode_name, WebMode};
use crate::paths::{relative_display, shows_path};
use crate::progress::{
    capped_millis, description, opt_view, saturating_diff, RunningAnalysis,
};

verus! {

/// The server's state: the directory it serves, the analyzer it runs, the
/// running job, if any, and the id the next job gets.
pub struct AppState {
    pub root_dir: String,
    pub executable: String,
    pub active_job: Option<RunningAnalysis>,
    pub next_id: u64,
}

/// The id after `id`, wrapping round.
pub open spec fn following_id(id: u64) -> u64 {
    if id < u64::MAX {
        (id + 1) as u64
    } else {
        0
    }
}

/// The message a request gets while another job runs.
pub open spec fn busy_message(job: RunningAnalysis) -> Seq<char> {
    description(job.mode@, job.target_path@) + " is already running"@
}

/// What the status request answers.
pub struct AnalyzeStatusResponse {
    pub running: bool,
    pub mode: Option<String>,
    pub target_path: Option<String>,
    pub elapsed_ms: Option<u64>,
    pub cancel_requested: bool,
    pub phase: String,
    pub total_targets: Option<usize>,
    pub completed_targets: Option<usize>,
    pub remaining_targets: Option<usize>,
    pub current_target: Option<String>,
}

/// What the cancel request answers.
pub struct CancelResponse {
    pub cancelled: bool,
    pub message: String,
}

/// `r` is the status of an idle server.
pub open spec fn is_idle_status(r: AnalyzeStatusResponse) -> bool {
    &&& !r.running
    &&& r.mode is None
    &&& r.target_path is None
    &&& r.elapsed_ms is None
    &&& !r.cancel_requested
    &&& r.phase@ == "idle"@
    &&& r.total_targets is None
    &&& r.completed_targets is None
    &&& r.remaining_targets is None
    &&& r.current_target is None
}

/// `r` is the status of the running job `job`, which has run for
/// `elapsed_millis` ms: a cancelled job reads "cancelling", else its phase.
pub open spec fn is_job_status(
    r: AnalyzeStatusResponse,
    job: RunningAnalysis,
    elapsed_millis: u128,
) -> bool {
    let p = job.progress;
    &&& r.running
    &&& opt_view(r.mode) == Some(job.mode@)
    &&& opt_view(r.target_path) == Some(job.target_path@)
    &&& r.elapsed_ms == Some(capped_millis(elapsed_millis))
    &&& r.cancel_requested == job.cancelled
    &&& r.phase@ == (if job.cancelled {
        "cancelling"@
    } else {
        p.phase@
    })
    &&& r.total_targets == Some(p.total_targets)
    &&& r.completed_targets == Some(p.completed_targets)
    &&& r.remaining_targets == Some(saturating_diff(p.total_targets, p.completed_targets))
    &&& opt_view(r.current_target) == opt_view(p.current_target)
}

/// `after` and `res` are what beginning a job (in `mode`, on `target`, over
/// `total` files) makes of `before`.
pub open spec fn begins(
    before: AppState,
    after: AppState,
    mode: WebMode,
    target: Seq<char>,
    total: usize,
    res: Result<u64, ApiError>,
) -> bool {
    match before.active_job {
        Some(current) => {
            &&& res matches Err(e) && is_error(e, ApiStatus::Conflict, busy_message(current))
            &&& after == before
        },
        None => {
            &&& res == Ok::<u64, ApiError>(before.next_id)
            &&& after.next_id == following_id(before.next_id)
            &&& after.root_dir == before.root_dir
            &&& after.executable == before.executable
            &&& after.active_job matches Some(j) && {
                &&& j.id == before.next_id
                &&& j.mode@ == mode_name(mode)
                &&& shows_path(before.root_dir@, target, j.target_path@)
                &&& !j.cancelled
                &&& j.progress.pid is None
                &&& j.progress.phase@ == "preparing"@
                &&& j.progress.total_targets == total
                &&& j.progress.completed_targets == 0
                &&& j.progress.current_target is None
            }
        },
    }
}

/// `after` is what ending the job `id` makes of `before`.
pub open spec fn clears(before: AppState, after: AppState, id: u64) -> bool {
    &&& (before.active_job matches Some(j) && j.id == id) ==> after.active_job is None
    &&& !(before.active_job matches Some(j) && j.id == id) ==> after.active_job
        == before.active_job
    &&& after.next_id == before.next_id
    &&& after.root_dir == before.root_dir
    &&& after.executable == before.executable
}

/// `r` is the status report of `st` after `elapsed_millis` ms.
pub open spec fn status_of(st: AppState, elapsed_millis: u128, r: AnalyzeStatusResponse) -> bool {
    match st.active_job {
        None => is_idle_status(r),
        Some(job) => is_job_status(r, job, elapsed_millis),
    }
}

/// `after`, the answer and the process to stop are what a cancel request
/// makes of `before`.
pub open spec fn cancels(
    before: AppState,
    after: AppState,
    answer: CancelResponse,
    stop: Option<u32>,
) -> bool {
    match before.active_job {
        None => {
            &&& !answer.cancelled
            &&& answer.message@ == "No analysis job is currently running."@
            &&& stop is None
            &&& after == before
        },
        Some(job) => {
            &&& answer.cancelled
            &&& answer.message@ == "Cancellation requested for "@ + description(
                job.mode@,
                job.target_path@,
            ) + "."@
            &&& stop == job.progress.pid
            &&& after.next_id == before.next_id
            &&& after.root_dir == before.root_dir
            &&& after.executable == before.executable
            &&& after.active_job matches Some(j) && j.cancelled && j.id == job.id && j.mode
                == job.mode && j.target_path == job.target_path && j.progress == job.progress
        },
    }
}

impl AppState {
    /// A server for `root_dir` that runs `executable`, with no job.
    pub fn new(root_dir: String, executable: String) -> (res: AppState)
        ensures
            res.root_dir == root_dir,
            res.executable == executable,
            res.active_job is None,
            res.next_id == 0,
    {
        AppState { root_dir, executable, active_job: None, next_id: 0 }
    }

    /// Whether a job runs.
    pub fn has_active_job(&self) -> (r: bool)
        ensures
            r == self.active_job is Some,
    {
        self.active_job.is_some()
    }

    /// The running job, if any.
    pub fn active_job(&self) -> (res: Option<&RunningAnalysis>)
        ensures
            match res {
                Some(j) => self.active_job == Some(*j),
                None => self.active_job is None,
            },
    {
        match &self.active_job {
            Some(j) => Some(j),
            None => None,
        }
    }

    /// The running job, to update, if it is the job `id`.
    pub fn job_mut(&mut self, id: u64) -> (res: Option<&mut RunningAnalysis>)
        ensures
            match res {
                Some(j) => old(self).active_job == Some(*j) && j.id == id && final(self).active_job == Some(
                    *final(j),
                ) && final(self).next_id == old(self).next_id && final(self).root_dir == old(
                    self,
                ).root_dir && final(self).executable == old(self).executable,
                None => *final(self) == *old(self) && !(old(self).active_job matches Some(j) && j.id
                    == id),
            },
    {
        match &mut self.active_job {
            Some(j) => {
                if j.id == id {
                    Some(j)
                } else {
                    None
                }
            },
            None => None,
        }
    }

    /// Starts a job analysing `target` in `mode`, unless one already runs:
    /// then the request conflicts and nothing changes. The job shows its
    /// target relative to the root.
    pub fn begin_job(&mut self, mode: WebMode, target: &str, total_targets: usize) -> (res:
        Result<u64, ApiError>)
        ensures
            begins(*old(self), *final(self), mode, target@, total_targets, res),
    {
        if let Some(current) = &self.active_job {
            let mut message = current.describe();
            message.append(" is already running");
            return Err(ApiError::conflict(message));
        }
        let id = self.next_id;
        let target_path = relative_display(self.root_dir.as_str(), target);
        let job = RunningAnalysis::new(
            id,
            String::from_str(mode.as_str()),
            target_path,
            total_targets,
        );
        self.active_job = Some(job);
        self.next_id = if id < u64::MAX {
            id + 1
        } else {
            0
        };
        Ok(id)
    }

    /// Ends the job `id`: the slot empties if that job is the one running,
    /// and nothing changes otherwise.
    pub fn clear_job(&mut self, id: u64)
        ensures
            clears(*old(self), *final(self), id),
    {
        let matches = match &self.active_job {
            Some(j) => j.id == id,
            None => false,
        };
        if matches {
            self.active_job = None;
        }
    }

    /// The status report: idle, or the running job's progress; a cancelled
    /// job reads "cancelling".
    pub fn analysis_status(&self, elapsed_millis: u128) -> (res: AnalyzeStatusResponse)
        ensures
            status_of(*self, elapsed_millis, res),
    {
        match &self.active_job {
            None => AnalyzeStatusResponse {
                running: false,
                mode: None,
                target_path: None,
                elapsed_ms: None,
                cancel_requested: false,
                phase: String::from_str("idle"),
                total_targets: None,
                completed_targets: None,
                remaining_targets: None,
                current_target: None,
            },
            Some(job) => {
                let cancel_requested = job.was_cancelled();
                let snapshot = job.snapshot();
                AnalyzeStatusResponse {
                    running: true,
                    mode: Some(job.mode.clone()),
                    target_path: Some(job.target_path.clone()),
                    elapsed_ms: Some(job.elapsed_ms(elapsed_millis)),
                    cancel_requested,
                    phase: if cancel_requested {
                        String::from_str("cancelling")
                    } else {
                        snapshot.phase
                    },
                    total_targets: Some(snapshot.total_targets),
                    completed_targets: Some(snapshot.completed_targets),
                    remaining_targets: Some(
                        snapshot.total_targets.saturating_sub(snapshot.completed_targets),
                    ),
                    current_target: snapshot.current_target,
                }
            },
        }
    }

    /// Cancels the running job, if any, and answers; also hands back the
    /// analyzer process to stop, if one runs.
    pub fn cancel_analysis(&mut self) -> (res: (CancelResponse, Option<u32>))
        ensures
            cancels(*old(self), *final(self), res.0, res.1),
    {
        match &mut self.active_job {
            None => (
                CancelResponse {
                    cancelled: false,
                    message: String::from_str("No analysis job is currently running."),
                },
                None,
            ),
            Some(job) => {
                let pid = job.cancel();
                let mut message = String::from_str("Cancellation requested for ");
                let d = job.describe();
                message.append(d.as_str());
                message.append(".");
                (CancelResponse { cancelled: true, message }, pid)
            },
        }
    }
}

/// One job at a time: beginning a job while one runs is refused as a
/// conflict, and leaves the state as it was.
pub proof fn lemma_one_job_at_a_time(
    before: AppState,
    after: AppState,
    mode: WebMode,
    target: Seq<char>,
    total: usize,
    res: Result<u64, ApiError>,
)
    requires
        before.active_job is Some,
        begins(before, after, mode, target, total, res),
    ensures
        res matches Err(e) && e.status == ApiStatus::Conflict,
        after == before,
{
}

/// A job that begins and is then cleared by the id it was given leaves the
/// server idle, ready for the next job.
pub proof fn lemma_begin_then_clear(
    s0: AppState,
    s1: AppState,
    s2: AppState,
    mode: WebMode,
    target: Seq<char>,
    total: usize,
    res: Result<u64, ApiError>,
)
    requires
        s0.active_job is None,
        begins(s0, s1, mode, target, total, res),
        res matches Ok(id) && clears(s1, s2, id),
    ensures
        s2.active_job is None,
        s2.next_id == following_id(s0.next_id),
        s2.root_dir == s0.root_dir,
        s2.executable == s0.executable,
{
}

/// Clearing by the id of another job leaves the running job alone.
pub proof fn lemma_stale_clear_keeps_job(before: AppState, after: AppState, id: u64)
    requires
        before.active_job matches Some(j) && j.id != id,
        clears(before, after, id),
    ensures
        after.active_job == before.active_job,
{
}

/// Once a running job is cancelled, the status reports it running, with
/// the cancel requested and its phase "cancelling".
pub proof fn lemma_cancel_then_status(
    s0: AppState,
    s1: AppState,
    answer: CancelResponse,
    stop: Option<u32>,
    elapsed_millis: u128,
    status: AnalyzeStatusResponse,
)
    requires
        s0.active_job is Some,
        cancels(s0, s1, answer, stop),
        status_of(s1, elapsed_millis, status),
    ensures
        answer.cancelled,
        status.running,
        status.cancel_requested,
        status.phase@ == "cancelling"@,
{
}

/// The status of a job counts what remains: the total less what is done,
/// and never below zero.
pub proof fn lemma_status_remaining(st: AppState, elapsed_millis: u128, status: AnalyzeStatusResponse)
    requires
        st.active_job is Some,
        status_of(st, elapsed_millis, status),
    ensures
        status.remaining_targets matches Some(r) && status.completed_targets matches Some(c)
            && status.total_targets matches Some(t) && (c <= t ==> r + c == t) && (c > t ==> r
            == 0),
{
}

} // verus!
