//! Running an analysis: the decisions around each analyzer run, and the
//! report that sums up a directory analysed file by file.
use vstd::prelude::*;

use crate::error::{is_error, ApiError, ApiStatus};
use crate::findings::{
    extract_web_findings, finding_totals, report_finding_totals, web_findings, FindingView,
    WebFinding,
};
use crate::json::{json_usize, parse_json, parsed_json, JsonMember, JsonNumber, JsonValue};
use crate::mode::{mode_name, parse_mode, WebMode};
use crate::order::{
    chars_less, lemma_text_less_irreflexive, lemma_text_less_total,
    lemma_text_less_transitive, stable_sort, stable_sorted, text_less, views, Ranked,
};
use crate::progress::{cancelled_message, RunningAnalysis};
use crate::summary::{build_summary_cards, summary_texts, SummaryCard};
use crate::text::{chars_equal, chars_of, decimal, decimal_string, string_from_chars, trim, trim_chars};
use crate::warnings::{
    classify_warnings, extract_warning_blocks, shows_warning, warning_blocks, WebWarning,
};

verus! {

/// The mode a request names, once trimmed.
pub fn parse_request_mode(raw: &str) -> (res: Result<WebMode, ApiError>)
    ensures
        match parse_mode(trim(raw@)) {
            Some(m) => res == Ok::<WebMode, ApiError>(m),
            None => res matches Err(e) && is_error(
                e,
                ApiStatus::BadRequest,
                "unknown analysis mode"@,
            ),
        },
{
    let v = chars_of(raw);
    let t = trim_chars(v.as_slice());
    let s = string_from_chars(t.as_slice());
    match WebMode::parse(s.as_str()) {
        Some(m) => Ok(m),
        None => Err(ApiError::bad_request("unknown analysis mode")),
    }
}

/// Work on a job goes on only while the job is not cancelled.
pub fn check_not_cancelled(job: &RunningAnalysis) -> (res: Result<(), ApiError>)
    ensures
        !job.cancelled ==> res is Ok,
        job.cancelled ==> (res matches Err(e) && is_error(
            e,
            ApiStatus::Conflict,
            cancelled_message(job.mode@, job.target_path@),
        )),
{
    if job.was_cancelled() {
        Err(ApiError::cancelled(job.cancelled_message()))
    } else {
        Ok(())
    }
}

/// The error for an analyzer process that could not be waited for: a
/// cancellation where the job was cancelled, else the I/O error.
pub fn wait_failure(job: &RunningAnalysis, io_detail: &str) -> (res: ApiError)
    ensures
        job.cancelled ==> is_error(
            res,
            ApiStatus::Conflict,
            cancelled_message(job.mode@, job.target_path@),
        ),
        !job.cancelled ==> is_error(res, ApiStatus::InternalServerError, "io error: "@ + io_detail@),
{
    if job.was_cancelled() {
        ApiError::cancelled(job.cancelled_message())
    } else {
        ApiError::internal_from_io(io_detail)
    }
}

/// The message of a failed analyzer run: its error output, or its standard
/// output where the error output is empty (both trimmed).
pub open spec fn failure_message(stdout: Seq<char>, stderr: Seq<char>) -> Seq<char> {
    "analysis command failed: "@ + (if trim(stderr).len() == 0 {
        trim(stdout)
    } else {
        trim(stderr)
    })
}

/// What a finished analyzer run gives: a cancellation where the job was
/// cancelled meanwhile; a failure where the process failed; else its
/// trimmed standard output and error output.
pub fn command_outcome(job: &RunningAnalysis, success: bool, stdout: &str, stderr: &str) -> (res:
    Result<(String, String), ApiError>)
    ensures
        job.cancelled ==> (res matches Err(e) && is_error(
            e,
            ApiStatus::Conflict,
            cancelled_message(job.mode@, job.target_path@),
        )),
        !job.cancelled && !success ==> (res matches Err(e) && is_error(
            e,
            ApiStatus::InternalServerError,
            failure_message(stdout@, stderr@),
        )),
        !job.cancelled && success ==> (res matches Ok(p) && p.0@ == trim(stdout@) && p.1@ == trim(
            stderr@,
        )),
{
    let o = chars_of(stdout);
    let e = chars_of(stderr);
    let ot = trim_chars(o.as_slice());
    let et = trim_chars(e.as_slice());
    let out = string_from_chars(ot.as_slice());
    let err = string_from_chars(et.as_slice());
    if job.was_cancelled() {
        return Err(ApiError::cancelled(job.cancelled_message()));
    }
    if !success {
        let mut message = String::from_str("analysis command failed: ");
        if et.len() == 0 {
            message.append(out.as_str());
        } else {
            message.append(err.as_str());
        }
        return Err(ApiError::internal(message));
    }
    Ok((out, err))
}

/// The error for analyzer output that is not JSON, given the parser's
/// message.
pub fn invalid_json_error(detail: &str) -> (res: ApiError)
    ensures
        is_error(res, ApiStatus::InternalServerError, "analyzer produced invalid JSON: "@ + detail@),
{
    let mut message = String::from_str("analyzer produced invalid JSON: ");
    message.append(detail);
    ApiError::internal(message)
}

/// What a successful analyzer run gives: its trimmed standard output, the
/// report parsed from it, and the warning blocks of its trimmed error
/// output.
pub struct AnalyzerRun {
    pub raw_json: String,
    pub report: JsonValue,
    pub warnings: Vec<String>,
}

/// `run` holds the text `raw_json`, the report `report`, and the warning
/// blocks of `stderr`.
pub open spec fn is_run(run: AnalyzerRun, raw_json: Seq<char>, report: JsonValue, stderr: Seq<
    char,
>) -> bool {
    &&& run.raw_json@ == raw_json
    &&& run.report == report
    &&& run.warnings@.len() == warning_blocks(stderr).len()
    &&& forall|i: int|
        0 <= i < run.warnings@.len() ==> (#[trigger] run.warnings@[i])@ == warning_blocks(stderr)[i]
}

/// The run's outcome, given its trimmed outputs and what parsing the
/// standard output gave: the report with the warning blocks, or the
/// invalid-JSON error with the parser's message.
pub fn analyzer_report(stdout: String, stderr: &str, parsed: Result<JsonValue, String>) -> (res:
    Result<AnalyzerRun, ApiError>)
    ensures
        match parsed {
            Ok(v) => res matches Ok(run) && is_run(run, stdout@, v, stderr@),
            Err(m) => res matches Err(e) && is_error(
                e,
                ApiStatus::InternalServerError,
                "analyzer produced invalid JSON: "@ + m@,
            ),
        },
{
    match parsed {
        Ok(report) => {
            let warnings = extract_warning_blocks(stderr);
            Ok(AnalyzerRun { raw_json: stdout, report, warnings })
        },
        Err(m) => Err(invalid_json_error(m.as_str())),
    }
}

/// What a finished analyzer run gives: a cancellation where the job was
/// cancelled meanwhile; a failure where the process failed; an error where
/// its standard output is not JSON; else the trimmed output, the report
/// parsed from it, and the warning blocks of the trimmed error output.
pub fn analyzer_result(job: &RunningAnalysis, success: bool, stdout: &str, stderr: &str) -> (res:
    Result<AnalyzerRun, ApiError>)
    ensures
        job.cancelled ==> (res matches Err(e) && is_error(
            e,
            ApiStatus::Conflict,
            cancelled_message(job.mode@, job.target_path@),
        )),
        !job.cancelled && !success ==> (res matches Err(e) && is_error(
            e,
            ApiStatus::InternalServerError,
            failure_message(stdout@, stderr@),
        )),
        !job.cancelled && success ==> match parsed_json(trim(stdout@)) {
            Ok(v) => res matches Ok(run) && is_run(run, trim(stdout@), v, trim(stderr@)),
            Err(m) => res matches Err(e) && is_error(
                e,
                ApiStatus::InternalServerError,
                "analyzer produced invalid JSON: "@ + m,
            ),
        },
{
    let (out, err) = match command_outcome(job, success, stdout, stderr) {
        Ok(p) => p,
        Err(e) => return Err(e),
    };
    let parsed = parse_json(out.as_str());
    analyzer_report(out, err.as_str(), parsed)
}

/// The next step of a directory run.
#[derive(Clone, Copy, PartialEq, Eq, Structural, Debug)]
pub enum DirectoryStep {
    /// Run the analyzer on the target at this index.
    Analyze(usize),
    /// All targets are done: sum them up.
    Finish,
}

/// `res` is the next step of a directory run of `job` that has analysed
/// `done` of its `total` targets: before each target the run stops with the
/// cancellation if the job was cancelled; after the last it sums up.
pub open spec fn directory_step(
    job: RunningAnalysis,
    done: usize,
    total: usize,
    res: Result<DirectoryStep, ApiError>,
) -> bool {
    if done < total {
        if job.cancelled {
            res matches Err(e) && is_error(
                e,
                ApiStatus::Conflict,
                cancelled_message(job.mode@, job.target_path@),
            )
        } else {
            res == Ok::<DirectoryStep, ApiError>(DirectoryStep::Analyze(done))
        }
    } else {
        res == Ok::<DirectoryStep, ApiError>(DirectoryStep::Finish)
    }
}

/// Decides the next step of a directory run that has analysed `done` of its
/// `total` targets.
pub fn next_directory_step(job: &RunningAnalysis, done: usize, total: usize) -> (res: Result<
    DirectoryStep,
    ApiError,
>)
    requires
        done <= total,
    ensures
        directory_step(*job, done, total, res),
{
    if done < total {
        match check_not_cancelled(job) {
            Ok(()) => Ok(DirectoryStep::Analyze(done)),
            Err(e) => Err(e),
        }
    } else {
        Ok(DirectoryStep::Finish)
    }
}

/// A cancelled directory run analyses no further target: from the step at
/// which the job is found cancelled, the run ends with the cancellation, and
/// the job stays cancelled through whatever is done to it after.
pub proof fn lemma_cancelled_run_stops(
    job: RunningAnalysis,
    later: RunningAnalysis,
    done: usize,
    total: usize,
    res: Result<DirectoryStep, ApiError>,
)
    requires
        job.cancelled,
        done < total,
        crate::progress::job_step(job, later),
        directory_step(later, done, total, res),
    ensures
        res matches Err(e) && e.status == ApiStatus::Conflict,
        !(res matches Ok(DirectoryStep::Analyze(_))),
{
    crate::progress::lemma_cancel_sticks(job, later);
}

/// A file that an analyzer run left behind.
pub struct WebArtifact {
    pub name: String,
    pub relative_path: String,
}

/// The content of an artifact.
pub struct ArtifactView {
    pub name: Seq<char>,
    pub relative_path: Seq<char>,
}

impl View for WebArtifact {
    type V = ArtifactView;

    open spec fn view(&self) -> ArtifactView {
        ArtifactView { name: self.name@, relative_path: self.relative_path@ }
    }
}

/// Artifacts are ordered by path, then by name.
pub open spec fn artifact_precedes(a: ArtifactView, b: ArtifactView) -> bool {
    if a.relative_path != b.relative_path {
        text_less(a.relative_path, b.relative_path)
    } else {
        text_less(a.name, b.name)
    }
}

impl Ranked for WebArtifact {
    open spec fn precedes(a: ArtifactView, b: ArtifactView) -> bool {
        artifact_precedes(a, b)
    }

    proof fn lemma_precedes_irreflexive(a: ArtifactView) {
        lemma_text_less_irreflexive(a.name);
    }

    proof fn lemma_precedes_transitive(a: ArtifactView, b: ArtifactView, c: ArtifactView) {
        lemma_text_less_total(a.relative_path, c.relative_path);
        if a.relative_path != b.relative_path && b.relative_path != c.relative_path {
            lemma_text_less_transitive(a.relative_path, b.relative_path, c.relative_path);
            if a.relative_path == c.relative_path {
                lemma_text_less_irreflexive(a.relative_path);
            }
        } else if a.relative_path == b.relative_path && b.relative_path == c.relative_path {
            lemma_text_less_transitive(a.name, b.name, c.name);
        }
    }

    proof fn lemma_not_precedes_transitive(a: ArtifactView, b: ArtifactView, c: ArtifactView) {
        lemma_text_less_total(a.relative_path, b.relative_path);
        lemma_text_less_total(b.relative_path, c.relative_path);
        lemma_text_less_total(a.name, b.name);
        lemma_text_less_total(b.name, c.name);
        if artifact_precedes(a, c) {
            if a.relative_path != b.relative_path && b.relative_path != c.relative_path {
                lemma_text_less_transitive(b.relative_path, a.relative_path, c.relative_path);
                lemma_text_less_transitive(c.relative_path, b.relative_path, a.relative_path);
                lemma_text_less_transitive(a.relative_path, c.relative_path, b.relative_path);
            } else if a.relative_path == b.relative_path && b.relative_path == c.relative_path {
                if a.name != b.name && b.name != c.name {
                    lemma_text_less_transitive(b.name, a.name, c.name);
                    lemma_text_less_transitive(c.name, b.name, a.name);
                    lemma_text_less_transitive(a.name, c.name, b.name);
                }
            }
        }
    }

    fn precedes_exec(&self, other: &Self) -> (r: bool) {
        let pa = chars_of(self.relative_path.as_str());
        let pb = chars_of(other.relative_path.as_str());
        if !chars_equal(pa.as_slice(), pb.as_slice()) {
            return chars_less(pa.as_slice(), pb.as_slice());
        }
        let na = chars_of(self.name.as_str());
        let nb = chars_of(other.name.as_str());
        chars_less(na.as_slice(), nb.as_slice())
    }
}

/// An artifact ordered by its name alone.
pub struct NamedArtifact {
    pub artifact: WebArtifact,
}

impl View for NamedArtifact {
    type V = ArtifactView;

    open spec fn view(&self) -> ArtifactView {
        self.artifact@
    }
}

impl Ranked for NamedArtifact {
    open spec fn precedes(a: ArtifactView, b: ArtifactView) -> bool {
        text_less(a.name, b.name)
    }

    proof fn lemma_precedes_irreflexive(a: ArtifactView) {
        lemma_text_less_irreflexive(a.name);
    }

    proof fn lemma_precedes_transitive(a: ArtifactView, b: ArtifactView, c: ArtifactView) {
        lemma_text_less_transitive(a.name, b.name, c.name);
    }

    proof fn lemma_not_precedes_transitive(a: ArtifactView, b: ArtifactView, c: ArtifactView) {
        lemma_text_less_total(a.name, b.name);
        lemma_text_less_total(b.name, c.name);
        if text_less(a.name, c.name) && a.name != b.name && b.name != c.name {
            lemma_text_less_transitive(b.name, a.name, c.name);
            lemma_text_less_transitive(c.name, b.name, a.name);
            lemma_text_less_transitive(a.name, c.name, b.name);
        }
    }

    fn precedes_exec(&self, other: &Self) -> (r: bool) {
        let na = chars_of(self.artifact.name.as_str());
        let nb = chars_of(other.artifact.name.as_str());
        chars_less(na.as_slice(), nb.as_slice())
    }
}

/// Orders the files of a run directory by name (stably).
pub fn order_artifacts_by_name(artifacts: Vec<WebArtifact>) -> (res: Vec<WebArtifact>)
    ensures
        views(res@) == stable_sorted::<NamedArtifact>(views(artifacts@)),
{
    let ghost orig = views(artifacts@);
    let mut wrapped: Vec<NamedArtifact> = Vec::new();
    let mut rest = artifacts;
    let n = rest.len();
    let mut k: usize = 0;
    assert(orig.skip(0) == orig);
    while k < n
        invariant
            n == orig.len(),
            k <= n,
            views(rest@) == orig.skip(k as int),
            views(wrapped@) == orig.take(k as int),
        decreases n - k,
    {
        assert(views(rest@).len() == n - k);
        let ghost before = rest@;
        let a = rest.remove(0);
        proof {
            assert(before[0] == a);
            assert(views(before)[0] == a@);
            assert(views(rest@) == orig.skip(k + 1)) by {
                assert(views(before.drop_first()) == views(before).drop_first());
                assert(orig.skip(k as int).drop_first() == orig.skip(k + 1));
            }
        }
        let ghost wb = wrapped@;
        wrapped.push(NamedArtifact { artifact: a });
        assert(views(wrapped@) == views(wb).push(a@));
        assert(orig.take(k + 1) == orig.take(k as int).push(orig[k as int]));
        k = k + 1;
    }
    assert(orig.take(n as int) == orig);
    let sorted = stable_sort(wrapped);
    let ghost sv = views(sorted@);
    let mut out: Vec<WebArtifact> = Vec::new();
    let mut rest2 = sorted;
    let m = rest2.len();
    let mut j: usize = 0;
    assert(sv.skip(0) == sv);
    while j < m
        invariant
            m == sv.len(),
            j <= m,
            views(rest2@) == sv.skip(j as int),
            views(out@) == sv.take(j as int),
        decreases m - j,
    {
        assert(views(rest2@).len() == m - j);
        let ghost before = rest2@;
        let w = rest2.remove(0);
        proof {
            assert(before[0] == w);
            assert(views(before)[0] == w@);
            assert(views(rest2@) == sv.skip(j + 1)) by {
                assert(views(before.drop_first()) == views(before).drop_first());
                assert(sv.skip(j as int).drop_first() == sv.skip(j + 1));
            }
        }
        let ghost ob = out@;
        out.push(w.artifact);
        assert(views(out@) == views(ob).push(w@));
        assert(sv.take(j + 1) == sv.take(j as int).push(sv[j as int]));
        j = j + 1;
    }
    assert(sv.take(m as int) == sv);
    out
}

/// Drops each artifact whose path equals that of the artifact kept just
/// before it (`Vec::dedup_by` on the path).
pub open spec fn dedup_by_path(s: Seq<ArtifactView>) -> Seq<ArtifactView>
    decreases s.len(),
{
    if s.len() == 0 {
        s
    } else {
        let d = dedup_by_path(s.drop_last());
        if d.len() > 0 && d.last().relative_path == s.last().relative_path {
            d
        } else {
            d.push(s.last())
        }
    }
}

/// Removes repeated paths that follow one another.
pub fn dedup_artifacts(artifacts: Vec<WebArtifact>) -> (res: Vec<WebArtifact>)
    ensures
        views(res@) == dedup_by_path(views(artifacts@)),
{
    let ghost orig = views(artifacts@);
    let mut rest = artifacts;
    let mut out: Vec<WebArtifact> = Vec::new();
    let n = rest.len();
    let mut k: usize = 0;
    assert(orig.skip(0) == orig);
    assert(orig.take(0) == Seq::<ArtifactView>::empty());
    while k < n
        invariant
            n == orig.len(),
            k <= n,
            views(rest@) == orig.skip(k as int),
            views(out@) == dedup_by_path(orig.take(k as int)),
        decreases n - k,
    {
        assert(views(rest@).len() == n - k);
        let ghost before = rest@;
        let a = rest.remove(0);
        proof {
            assert(before[0] == a);
            assert(views(before)[0] == a@);
            assert(views(rest@) == orig.skip(k + 1)) by {
                assert(views(before.drop_first()) == views(before).drop_first());
                assert(orig.skip(k as int).drop_first() == orig.skip(k + 1));
            }
            assert(orig.take(k + 1).drop_last() == orig.take(k as int));
            assert(orig.take(k + 1).last() == a@);
        }
        let dup = if out.len() > 0 {
            let last = out.len() - 1;
            let pa = chars_of(out[last].relative_path.as_str());
            let pb = chars_of(a.relative_path.as_str());
            assert(views(out@)[last as int] == out@[last as int]@);
            chars_equal(pa.as_slice(), pb.as_slice())
        } else {
            false
        };
        if !dup {
            let ghost ob = out@;
            out.push(a);
            assert(views(out@) == views(ob).push(a@));
        }
        k = k + 1;
    }
    assert(orig.take(n as int) == orig);
    out
}

/// What one analyzer run over one file of a directory gave. Its artifacts
/// count only where it left a run directory.
pub struct TargetResult {
    /// The file, as shown.
    pub relative_target: String,
    pub report: JsonValue,
    pub warnings: Vec<String>,
    /// The run directory, as shown, if the run left one.
    pub run_dir: Option<String>,
    pub artifacts: Vec<WebArtifact>,
}

/// What a directory analysis gives, but for the report's serialized text.
pub struct AggregateAnalysis {
    pub findings: Vec<WebFinding>,
    pub warnings: Vec<WebWarning>,
    pub artifacts: Vec<WebArtifact>,
    pub raw_report: JsonValue,
    pub summary_cards: Vec<SummaryCard>,
}

/// The findings of all runs, run by run, each run's in display order.
pub open spec fn all_findings(mode: WebMode, rs: Seq<TargetResult>) -> Seq<FindingView>
    decreases rs.len(),
{
    if rs.len() == 0 {
        Seq::empty()
    } else {
        all_findings(mode, rs.drop_last()) + web_findings(mode, rs.last().report)
    }
}

/// The raw finding counts that the runs' reports declare, added up.
pub open spec fn raw_total(mode: WebMode, rs: Seq<TargetResult>) -> int
    decreases rs.len(),
{
    if rs.len() == 0 {
        0
    } else {
        raw_total(mode, rs.drop_last()) + finding_totals(mode, rs.last().report).0
    }
}

/// The suppressed finding counts that the runs' reports declare, added up.
pub open spec fn suppressed_total(mode: WebMode, rs: Seq<TargetResult>) -> int
    decreases rs.len(),
{
    if rs.len() == 0 {
        0
    } else {
        suppressed_total(mode, rs.drop_last()) + finding_totals(mode, rs.last().report).1
    }
}

/// A warning of a run, tagged with the file it came from: "[<file>] <w>".
pub open spec fn tagged(target: Seq<char>, w: Seq<char>) -> Seq<char> {
    "["@ + target + "] "@ + w
}

/// The warnings of all runs, run by run, each tagged with its file.
pub open spec fn tagged_warnings(rs: Seq<TargetResult>) -> Seq<Seq<char>>
    decreases rs.len(),
{
    if rs.len() == 0 {
        Seq::empty()
    } else {
        tagged_warnings(rs.drop_last()) + rs.last().warnings@.map_values(
            |w: String| tagged(rs.last().relative_target@, w@),
        )
    }
}

/// The artifacts of all runs that left a run directory, run by run.
pub open spec fn all_artifacts(rs: Seq<TargetResult>) -> Seq<ArtifactView>
    decreases rs.len(),
{
    if rs.len() == 0 {
        Seq::empty()
    } else {
        match rs.last().run_dir {
            Some(_) => all_artifacts(rs.drop_last()) + views(rs.last().artifacts@),
            None => all_artifacts(rs.drop_last()),
        }
    }
}

/// The run directories of the runs that left one, in order.
pub open spec fn run_dirs(rs: Seq<TargetResult>) -> Seq<Seq<char>>
    decreases rs.len(),
{
    if rs.len() == 0 {
        Seq::empty()
    } else {
        match rs.last().run_dir {
            Some(d) => run_dirs(rs.drop_last()).push(d@),
            None => run_dirs(rs.drop_last()),
        }
    }
}

/// `m` holds the text `text` under `key`.
pub open spec fn is_text_member(m: JsonMember, key: Seq<char>, text: Seq<char>) -> bool {
    m.key@ == key && (m.value matches JsonValue::String(s) && s@ == text)
}

/// `m` holds the count `n` under `key`.
pub open spec fn is_count_member(m: JsonMember, key: Seq<char>, n: int) -> bool {
    &&& m.key@ == key
    &&& m.value matches JsonValue::Number(num) && num.unsigned == Some(n as u64) && num.repr@
        == decimal(n as nat)
}

/// `m` holds an array of the given texts under `key`.
pub open spec fn is_texts_member(m: JsonMember, key: Seq<char>, texts: Seq<Seq<char>>) -> bool {
    &&& m.key@ == key
    &&& m.value matches JsonValue::Array(a) && a@.len() == texts.len() && forall|i: int|
        0 <= i < texts.len() ==> (#[trigger] a@[i] matches JsonValue::String(s) && s@ == texts[i])
}

/// `v` is the entry of the report list for the run `r`: its file and its
/// report.
pub open spec fn is_report_entry(v: JsonValue, r: TargetResult) -> bool {
    v matches JsonValue::Object(ms) && ms@.len() == 2 && is_text_member(
        ms@[0],
        "target_path"@,
        r.relative_target@,
    ) && ms@[1].key@ == "report"@ && ms@[1].value == r.report
}

/// The summary report of a directory analysis: the mode, the directory,
/// how many files and which, the run directories, the added-up counts, and
/// each file's report.
pub open spec fn is_aggregate_report(
    v: JsonValue,
    mode: WebMode,
    target: Seq<char>,
    rs: Seq<TargetResult>,
) -> bool {
    v matches JsonValue::Object(ms) && {
        &&& ms@.len() == 8
        &&& is_text_member(ms@[0], "mode"@, mode_name(mode))
        &&& is_text_member(ms@[1], "target_path"@, target)
        &&& is_count_member(ms@[2], "target_count"@, rs.len() as int)
        &&& is_texts_member(
            ms@[3],
            "targets"@,
            rs.map_values(|r: TargetResult| r.relative_target@),
        )
        &&& is_texts_member(ms@[4], "run_dirs"@, run_dirs(rs))
        &&& is_count_member(ms@[5], "finding_count_raw"@, raw_total(mode, rs))
        &&& is_count_member(ms@[6], "suppressed_findings"@, suppressed_total(mode, rs))
        &&& ms@[7].key@ == "reports"@
        &&& ms@[7].value matches JsonValue::Array(a) && a@.len() == rs.len() && forall|i: int|
            0 <= i < rs.len() ==> is_report_entry(#[trigger] a@[i], rs[i])
    }
}

/// The raw and suppressed finding counts that the runs' reports declare,
/// added up, where both fit in a `usize`; none where adding them overflows.
pub fn checked_finding_totals(mode: WebMode, results: &Vec<TargetResult>) -> (res: Option<
    (usize, usize),
>)
    ensures
        (raw_total(mode, results@) <= usize::MAX && suppressed_total(mode, results@)
            <= usize::MAX) <==> res is Some,
        res matches Some(t) ==> t.0 == raw_total(mode, results@) && t.1 == suppressed_total(
            mode,
            results@,
        ),
{
    let mut raw: usize = 0;
    let mut sup: usize = 0;
    let mut ok = true;
    let mut k: usize = 0;
    let ghost rs = results@;
    proof {
        assert(rs.take(0) == Seq::<TargetResult>::empty());
    }
    while k < results.len()
        invariant
            k <= rs.len(),
            rs == results@,
            ok ==> raw == raw_total(mode, rs.take(k as int)) && sup == suppressed_total(
                mode,
                rs.take(k as int),
            ),
            !ok ==> raw_total(mode, rs.take(k as int)) > usize::MAX || suppressed_total(
                mode,
                rs.take(k as int),
            ) > usize::MAX,
        decreases rs.len() - k,
    {
        proof {
            assert(rs.take(k + 1).drop_last() == rs.take(k as int));
            assert(rs.take(k + 1).last() == rs[k as int]);
            lemma_totals_nonneg(mode, rs.take(k as int));
        }
        let report = &results[k].report;
        let a = json_usize(report, "finding_count_raw");
        let b = json_usize(report, "suppressed_findings");
        let (r1, s1): (Option<usize>, Option<usize>) = match mode {
            WebMode::Static => (Some(a), Some(b)),
            WebMode::Fuzzing => (
                a.checked_add(json_usize(report, "meta_finding_count_raw")),
                b.checked_add(json_usize(report, "suppressed_meta_findings")),
            ),
        };
        if ok {
            match (r1, s1) {
                (Some(x), Some(y)) => {
                    match (raw.checked_add(x), sup.checked_add(y)) {
                        (Some(nr), Some(ns)) => {
                            raw = nr;
                            sup = ns;
                        },
                        _ => {
                            ok = false;
                        },
                    }
                },
                _ => {
                    ok = false;
                },
            }
        }
        k = k + 1;
    }
    proof {
        assert(rs.take(rs.len() as int) == rs);
    }
    if ok {
        Some((raw, sup))
    } else {
        None
    }
}

/// A JSON number for a count.
fn count_value(n: usize) -> (res: JsonValue)
    ensures
        res matches JsonValue::Number(num) && num.unsigned == Some(n as u64) && num.repr@
            == decimal(n as nat),
{
    JsonValue::Number(JsonNumber { repr: decimal_string(n), unsigned: Some(n as u64) })
}

/// A JSON object member.
fn member(key: &str, value: JsonValue) -> (res: JsonMember)
    ensures
        res.key@ == key@,
        res.value == value,
{
    JsonMember { key: String::from_str(key), value }
}

/// A JSON array of texts.
fn text_array(texts: Vec<String>) -> (res: JsonValue)
    ensures
        res matches JsonValue::Array(a) && a@.len() == texts@.len() && forall|i: int|
            0 <= i < texts@.len() ==> (#[trigger] a@[i] matches JsonValue::String(s) && s@
                == texts@[i]@),
{
    let ghost orig = texts@;
    let mut rest = texts;
    let mut items: Vec<JsonValue> = Vec::new();
    let n = rest.len();
    let mut k: usize = 0;
    assert(orig.skip(0) == orig);
    while k < n
        invariant
            n == orig.len(),
            k <= n,
            rest@ == orig.skip(k as int),
            items@.len() == k,
            forall|i: int|
                0 <= i < k ==> (#[trigger] items@[i] matches JsonValue::String(s) && s@
                    == orig[i]@),
        decreases n - k,
    {
        let t = rest.remove(0);
        assert(t == orig[k as int]);
        assert(rest@ == orig.skip(k + 1));
        items.push(JsonValue::String(t));
        k = k + 1;
    }
    JsonValue::Array(items)
}

proof fn lemma_total_prefix(mode: WebMode, rs: Seq<TargetResult>, k: int)
    requires
        0 <= k <= rs.len(),
    ensures
        raw_total(mode, rs.take(k)) <= raw_total(mode, rs),
        suppressed_total(mode, rs.take(k)) <= suppressed_total(mode, rs),
        0 <= raw_total(mode, rs.take(k)),
        0 <= suppressed_total(mode, rs.take(k)),
    decreases rs.len(),
{
    if k == rs.len() {
        assert(rs.take(k) == rs);
        lemma_totals_nonneg(mode, rs);
    } else {
        lemma_total_prefix(mode, rs.drop_last(), k);
        assert(rs.drop_last().take(k) == rs.take(k));
        lemma_totals_nonneg(mode, rs.drop_last());
    }
}

proof fn lemma_totals_nonneg(mode: WebMode, rs: Seq<TargetResult>)
    ensures
        raw_total(mode, rs) >= 0,
        suppressed_total(mode, rs) >= 0,
    decreases rs.len(),
{
    if rs.len() > 0 {
        lemma_totals_nonneg(mode, rs.drop_last());
    }
}

/// Sums up a directory analysed file by file: all findings in display
/// order, the warnings tagged with their file and classified, the artifacts
/// ordered by path and name without repeated paths, the summary report,
/// and the summary cards.
pub fn aggregate_directory_analysis(mode: WebMode, target_path: &str, results: Vec<TargetResult>) -> (res:
    Result<AggregateAnalysis, ApiError>)
    requires
        raw_total(mode, results@) <= usize::MAX,
        suppressed_total(mode, results@) <= usize::MAX,
    ensures
        res matches Ok(agg) && {
            let tw = tagged_warnings(results@);
            &&& views(agg.findings@) == stable_sorted::<WebFinding>(all_findings(mode, results@))
            &&& agg.warnings@.len() == tw.len()
            &&& forall|i: int|
                0 <= i < tw.len() ==> shows_warning(#[trigger] agg.warnings@[i], tw[i])
            &&& views(agg.artifacts@) == dedup_by_path(
                stable_sorted::<WebArtifact>(all_artifacts(results@)),
            )
            &&& is_aggregate_report(agg.raw_report, mode, target_path@, results@)
            &&& agg.summary_cards@.len() == 6
            &&& forall|i: int|
                0 <= i < 6 ==> ((#[trigger] agg.summary_cards@[i]).label@,
                agg.summary_cards@[i].value@) == summary_texts(
                    mode,
                    views(agg.findings@),
                    agg.warnings@,
                )[i]
        },
{
    let ghost rs = results@;
    let mut rest = results;
    let n = rest.len();
    let mut findings: Vec<WebFinding> = Vec::new();
    let mut warnings: Vec<String> = Vec::new();
    let mut artifacts: Vec<WebArtifact> = Vec::new();
    let mut targets: Vec<String> = Vec::new();
    let mut dirs: Vec<String> = Vec::new();
    let mut entries: Vec<JsonValue> = Vec::new();
    let mut raw_count: usize = 0;
    let mut suppressed: usize = 0;
    let mut k: usize = 0;
    assert(rs.skip(0) == rs);
    assert(rs.take(0) == Seq::<TargetResult>::empty());
    while k < n
        invariant
            n == rs.len(),
            k <= n,
            rest@ == rs.skip(k as int),
            raw_total(mode, rs) <= usize::MAX,
            suppressed_total(mode, rs) <= usize::MAX,
            views(findings@) == all_findings(mode, rs.take(k as int)),
            warnings@.len() == tagged_warnings(rs.take(k as int)).len(),
            forall|i: int|
                0 <= i < warnings@.len() ==> (#[trigger] warnings@[i])@ == tagged_warnings(
                    rs.take(k as int),
                )[i],
            views(artifacts@) == all_artifacts(rs.take(k as int)),
            targets@.len() == k,
            forall|i: int| 0 <= i < k ==> (#[trigger] targets@[i])@ == rs[i].relative_target@,
            dirs@.len() == run_dirs(rs.take(k as int)).len(),
            forall|i: int|
                0 <= i < dirs@.len() ==> (#[trigger] dirs@[i])@ == run_dirs(rs.take(k as int))[i],
            entries@.len() == k,
            forall|i: int| 0 <= i < k ==> is_report_entry(#[trigger] entries@[i], rs[i]),
            raw_count == raw_total(mode, rs.take(k as int)),
            suppressed == suppressed_total(mode, rs.take(k as int)),
        decreases n - k,
    {
        let r = rest.remove(0);
        let ghost pre = rs.take(k as int);
        proof {
            assert(r == rs[k as int]);
            assert(rest@ == rs.skip(k + 1));
            assert(rs.take(k + 1).drop_last() == pre);
            assert(rs.take(k + 1).last() == r);
            lemma_total_prefix(mode, rs, k + 1);
            lemma_total_prefix(mode, rs, k as int);
        }
        let TargetResult { relative_target, report, warnings: ws, run_dir, artifacts: arts } = r;
        let fs = match extract_web_findings(mode, &report) {
            Ok(v) => v,
            Err(e) => return Err(e),
        };
        let (raw, sup) = report_finding_totals(mode, &report);
        raw_count = raw_count + raw;
        suppressed = suppressed + sup;
        let ghost fb = findings@;
        let mut fs = fs;
        let ghost fsv = views(fs@);
        findings.append(&mut fs);
        assert(views(findings@) == views(fb) + fsv);
        let ghost wb = warnings@;
        let ghost wsv = ws@;
        let mut wrest = ws;
        let wn = wrest.len();
        let mut m: usize = 0;
        assert(wsv.skip(0) == wsv);
        while m < wn
            invariant
                wn == wsv.len(),
                m <= wn,
                wrest@ == wsv.skip(m as int),
                warnings@.len() == wb.len() + m,
                forall|i: int| 0 <= i < wb.len() ==> #[trigger] warnings@[i] == wb[i],
                forall|i: int|
                    0 <= i < m ==> (#[trigger] warnings@[wb.len() + i])@ == tagged(
                        relative_target@,
                        wsv[i]@,
                    ),
            decreases wn - m,
        {
            let w = wrest.remove(0);
            assert(w == wsv[m as int]);
            assert(wrest@ == wsv.skip(m + 1));
            let mut t = String::from_str("[");
            t.append(relative_target.as_str());
            t.append("] ");
            t.append(w.as_str());
            warnings.push(t);
            m = m + 1;
        }
        proof {
            let tw = tagged_warnings(rs.take(k + 1));
            let add = wsv.map_values(|w: String| tagged(relative_target@, w@));
            assert(tw == tagged_warnings(pre) + add);
            assert forall|i: int| 0 <= i < warnings@.len() implies (#[trigger] warnings@[i])@
                == tw[i] by {
                if i >= wb.len() {
                    assert(warnings@[wb.len() + (i - wb.len())] == warnings@[i]);
                }
            }
        }
        let ghost ab = artifacts@;
        if run_dir.is_some() {
            let mut arts = arts;
            let ghost av = views(arts@);
            artifacts.append(&mut arts);
            assert(views(artifacts@) == views(ab) + av);
        }
        let ghost db = dirs@;
        match run_dir {
            Some(d) => {
                dirs.push(d);
            },
            None => {},
        }
        proof {
            assert forall|i: int| 0 <= i < dirs@.len() implies (#[trigger] dirs@[i])@ == run_dirs(
                rs.take(k + 1),
            )[i] by {
                if i < db.len() {
                    assert(dirs@[i] == db[i]);
                }
            }
        }
        let shown = relative_target.clone();
        targets.push(shown);
        let mut entry: Vec<JsonMember> = Vec::new();
        entry.push(member("target_path", JsonValue::String(relative_target)));
        entry.push(member("report", report));
        let ghost eb = entries@;
        entries.push(JsonValue::Object(entry));
        proof {
            assert forall|i: int| 0 <= i < k + 1 implies is_report_entry(
                #[trigger] entries@[i],
                rs[i],
            ) by {
                if i < k {
                    assert(entries@[i] == eb[i]);
                }
            }
        }
        k = k + 1;
    }
    proof {
        assert(rs.take(n as int) == rs);
    }
    let sorted_findings = stable_sort(findings);
    let sorted_artifacts = stable_sort(artifacts);
    let unique_artifacts = dedup_artifacts(sorted_artifacts);
    let classified = classify_warnings(warnings);
    let cards = build_summary_cards(mode, sorted_findings.as_slice(), classified.as_slice());
    let mut members: Vec<JsonMember> = Vec::new();
    members.push(member("mode", JsonValue::String(String::from_str(mode.as_str()))));
    members.push(member("target_path", JsonValue::String(String::from_str(target_path))));
    members.push(member("target_count", count_value(n)));
    members.push(member("targets", text_array(targets)));
    members.push(member("run_dirs", text_array(dirs)));
    members.push(member("finding_count_raw", count_value(raw_count)));
    members.push(member("suppressed_findings", count_value(suppressed)));
    members.push(member("reports", JsonValue::Array(entries)));
    let raw_report = JsonValue::Object(members);
    Ok(
        AggregateAnalysis {
            findings: sorted_findings,
            warnings: classified,
            artifacts: unique_artifacts,
            raw_report,
            summary_cards: cards,
        },
    )
}

/// A directory's findings are every file's findings, each as often as it
/// occurs, put in display order; findings that the order does not tell
/// apart keep the order of the files they came from.
pub proof fn lemma_aggregate_findings(mode: WebMode, rs: Seq<TargetResult>, y: FindingView)
    ensures
        crate::order::is_ranked::<WebFinding>(stable_sorted::<WebFinding>(all_findings(mode, rs))),
        stable_sorted::<WebFinding>(all_findings(mode, rs)).to_multiset() == all_findings(
            mode,
            rs,
        ).to_multiset(),
        crate::order::equivalents::<WebFinding>(
            stable_sorted::<WebFinding>(all_findings(mode, rs)),
            y,
        ) == crate::order::equivalents::<WebFinding>(all_findings(mode, rs), y),
{
    crate::order::lemma_stable_sorted_ranked::<WebFinding>(all_findings(mode, rs));
    crate::order::lemma_stable_sorted_keeps_equivalents::<WebFinding>(all_findings(mode, rs), y);
}

/// Artifacts come only from run directories: where no run left one, a
/// directory analysis has no artifacts.
pub proof fn lemma_no_run_dir_no_artifacts(rs: Seq<TargetResult>)
    requires
        forall|i: int| 0 <= i < rs.len() ==> (#[trigger] rs[i]).run_dir is None,
    ensures
        all_artifacts(rs) == Seq::<ArtifactView>::empty(),
        dedup_by_path(stable_sorted::<WebArtifact>(all_artifacts(rs))) == Seq::<
            ArtifactView,
        >::empty(),
    decreases rs.len(),
{
    if rs.len() > 0 {
        assert(rs.last() == rs[rs.len() - 1]);
        lemma_no_run_dir_no_artifacts(rs.drop_last());
    }
}

} // verus!
