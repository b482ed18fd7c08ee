use chainvet_web::analysis::check_not_cancelled;
use chainvet_web::analysis::wait_failure;
use chainvet_web::error::ApiStatus;
use chainvet_web::files::{
    build_files_response, file_extension, is_solidity_file_name, list_entries,
    collect_analysis_targets, files_response_from_tree, select_analysis_targets, DirNode,
    FileEntry,
};
use chainvet_web::jobs::AppState;
use chainvet_web::mode::WebMode;
use chainvet_web::paths::{
    candidate_from, check_within_root, parent_display, parent_from, relative_display,
    render_relative_display, resolve_candidate, within_root_outcome,
};
use chainvet_web::progress::RunningAnalysis;

#[test]
fn new_job_describes_itself() {
    let j = RunningAnalysis::new(7, "fuzzing".to_string(), String::new(), 3);
    assert_eq!(j.id, 7);
    assert_eq!(j.describe(), "fuzzing analysis on .");
    assert!(!j.was_cancelled());
    assert_eq!(j.progress.pid, None);
    assert_eq!(j.progress.phase, "preparing");
    assert_eq!(j.progress.total_targets, 3);
    assert_eq!(j.progress.completed_targets, 0);
    assert_eq!(j.progress.current_target, None);
    let j = RunningAnalysis::new(1, "static".to_string(), "contracts/a.sol".to_string(), 1);
    assert_eq!(j.describe(), "static analysis on contracts/a.sol");
    assert_eq!(j.cancelled_message(), "analysis cancelled: static analysis on contracts/a.sol");
}

#[test]
fn progress_through_targets() {
    let mut j = RunningAnalysis::new(1, "static".to_string(), "d".to_string(), 2);
    j.set_phase("starting".to_string());
    assert_eq!(j.snapshot().phase, "starting");
    j.start_target(4242, "d/a.sol".to_string());
    let s = j.snapshot();
    assert_eq!(s.phase, "running");
    assert_eq!(s.current_target, Some("d/a.sol".to_string()));
    assert_eq!(j.progress.pid, Some(4242));
    j.finish_target();
    let s = j.snapshot();
    assert_eq!(s.phase, "finalizing");
    assert_eq!(s.completed_targets, 1);
    assert_eq!(s.total_targets, 2);
    assert_eq!(s.current_target, None);
    assert_eq!(j.progress.pid, None);
    j.progress.completed_targets = usize::MAX;
    j.finish_target();
    assert_eq!(j.progress.completed_targets, usize::MAX);
}

#[test]
fn cancel_hands_back_process() {
    let mut j = RunningAnalysis::new(1, "static".to_string(), "d".to_string(), 2);
    assert!(check_not_cancelled(&j).is_ok());
    assert_eq!(j.cancel(), None);
    assert!(j.was_cancelled());
    let e = check_not_cancelled(&j).err().unwrap();
    assert_eq!(e.status, ApiStatus::Conflict);
    assert_eq!(e.message, "analysis cancelled: static analysis on d");
    let mut j = RunningAnalysis::new(2, "static".to_string(), "d".to_string(), 2);
    j.start_target(99, "d/x.sol".to_string());
    assert_eq!(j.cancel(), Some(99));
    let e = wait_failure(&j, "broken pipe");
    assert_eq!(e.status, ApiStatus::Conflict);
    let j = RunningAnalysis::new(3, "static".to_string(), "d".to_string(), 2);
    let e = wait_failure(&j, "broken pipe");
    assert_eq!(e.status, ApiStatus::InternalServerError);
    assert_eq!(e.message, "io error: broken pipe");
}

#[test]
fn elapsed_time_is_capped() {
    let j = RunningAnalysis::new(1, "static".to_string(), "d".to_string(), 1);
    assert_eq!(j.elapsed_ms(1500), 1500);
    assert_eq!(j.elapsed_ms(u64::MAX as u128), u64::MAX);
    assert_eq!(j.elapsed_ms(u128::MAX), u64::MAX);
}

#[test]
fn one_job_at_a_time() {
    let mut st = AppState::new("/srv/root".to_string(), "/bin/chainvet".to_string());
    assert!(!st.has_active_job());
    let id = st.begin_job(WebMode::Static, "/srv/root/contracts", 4).ok().unwrap();
    assert_eq!(id, 0);
    assert_eq!(st.next_id, 1);
    let j = st.active_job().unwrap();
    assert_eq!(j.mode, "static");
    assert_eq!(j.target_path, "contracts");
    assert_eq!(j.progress.total_targets, 4);

    let e = st.begin_job(WebMode::Fuzzing, "/srv/root", 1).err().unwrap();
    assert_eq!(e.status, ApiStatus::Conflict);
    assert_eq!(e.message, "static analysis on contracts is already running");
    assert_eq!(st.next_id, 1);

    st.clear_job(id + 5);
    assert!(st.has_active_job());
    st.clear_job(id);
    assert!(!st.has_active_job());

    let id2 = st.begin_job(WebMode::Fuzzing, "/srv/root", 1).ok().unwrap();
    assert_eq!(id2, 1);
    assert_eq!(st.active_job().unwrap().target_path, "");
    assert_eq!(st.active_job().unwrap().describe(), "fuzzing analysis on .");
}

#[test]
fn job_updates_by_id() {
    let mut st = AppState::new("/r".to_string(), "exe".to_string());
    let id = st.begin_job(WebMode::Static, "/r/a.sol", 1).ok().unwrap();
    assert!(st.job_mut(id + 1).is_none());
    st.job_mut(id).unwrap().start_target(10, "a.sol".to_string());
    assert_eq!(st.active_job().unwrap().progress.pid, Some(10));
}

#[test]
fn status_and_cancel_requests() {
    let mut st = AppState::new("/r".to_string(), "exe".to_string());
    let idle = st.analysis_status(0);
    assert!(!idle.running);
    assert_eq!(idle.phase, "idle");
    assert_eq!(idle.mode, None);
    assert_eq!(idle.remaining_targets, None);

    let (answer, stop) = st.cancel_analysis();
    assert!(!answer.cancelled);
    assert_eq!(answer.message, "No analysis job is currently running.");
    assert_eq!(stop, None);

    let id = st.begin_job(WebMode::Static, "/r/d", 3).ok().unwrap();
    {
        let j = st.job_mut(id).unwrap();
        j.start_target(77, "d/a.sol".to_string());
        j.finish_target();
        j.start_target(78, "d/b.sol".to_string());
    }
    let s = st.analysis_status(2500);
    assert!(s.running);
    assert_eq!(s.mode, Some("static".to_string()));
    assert_eq!(s.target_path, Some("d".to_string()));
    assert_eq!(s.elapsed_ms, Some(2500));
    assert!(!s.cancel_requested);
    assert_eq!(s.phase, "running");
    assert_eq!(s.total_targets, Some(3));
    assert_eq!(s.completed_targets, Some(1));
    assert_eq!(s.remaining_targets, Some(2));
    assert_eq!(s.current_target, Some("d/b.sol".to_string()));

    let (answer, stop) = st.cancel_analysis();
    assert!(answer.cancelled);
    assert_eq!(answer.message, "Cancellation requested for static analysis on d.");
    assert_eq!(stop, Some(78));
    let s = st.analysis_status(2600);
    assert!(s.cancel_requested);
    assert_eq!(s.phase, "cancelling");
}

#[test]
fn remaining_never_below_zero() {
    let mut st = AppState::new("/r".to_string(), "exe".to_string());
    let id = st.begin_job(WebMode::Static, "/r/a.sol", 1).ok().unwrap();
    {
        let j = st.job_mut(id).unwrap();
        j.finish_target();
        j.finish_target();
    }
    let s = st.analysis_status(1);
    assert_eq!(s.completed_targets, Some(2));
    assert_eq!(s.remaining_targets, Some(0));
}

#[test]
fn paths_shown_relative_to_root() {
    assert_eq!(relative_display("/srv/root", "/srv/root/a/b.sol"), "a/b.sol");
    assert_eq!(relative_display("/srv/root", "/srv/root"), "");
    assert_eq!(relative_display("/srv/root", "/srv/root/"), "");
    assert_eq!(relative_display("/srv/root", "/elsewhere/x.sol"), "/elsewhere/x.sol");
    assert_eq!(relative_display("/srv/root", "/srv/rootx/y"), "/srv/rootx/y");
    assert_eq!(render_relative_display(Some("a\\b".to_string()), "/p"), "a/b");
    assert_eq!(render_relative_display(Some(".".to_string()), "/p"), "");
    assert_eq!(render_relative_display(None, "/p"), "/p");
}

#[test]
fn requested_paths_resolved() {
    assert_eq!(resolve_candidate("/srv/root", "").ok().unwrap(), "/srv/root");
    assert_eq!(resolve_candidate("/srv/root", "  .  ").ok().unwrap(), "/srv/root");
    assert_eq!(resolve_candidate("/srv/root", "a/b.sol").ok().unwrap(), "/srv/root/a/b.sol");
    let e = resolve_candidate("/srv/root", "/etc/passwd").err().unwrap();
    assert_eq!(e.status, ApiStatus::BadRequest);
    assert_eq!(e.message, "absolute paths are not allowed");

    assert_eq!(
        check_within_root("/srv/root", Some("/srv/root/a".to_string())).ok().unwrap(),
        "/srv/root/a"
    );
    let e = check_within_root("/srv/root", None).err().unwrap();
    assert_eq!(e.message, "requested path does not exist");
    let e = check_within_root("/srv/root", Some("/srv/other".to_string())).err().unwrap();
    assert_eq!(e.status, ApiStatus::BadRequest);
    assert_eq!(e.message, "requested path escapes the working directory root");

    assert_eq!(parent_display("/srv/root", "/srv/root"), None);
    assert_eq!(parent_display("/srv/root", "/srv/root/a/b"), Some("a".to_string()));
    assert_eq!(parent_display("/srv/root", "/srv/root/a"), Some(String::new()));
}

#[test]
fn file_extensions() {
    assert_eq!(file_extension("a.sol"), Some("sol".to_string()));
    assert_eq!(file_extension("a.b.SOL"), Some("SOL".to_string()));
    assert_eq!(file_extension("a."), Some(String::new()));
    assert_eq!(file_extension(".sol"), None);
    assert_eq!(file_extension(".."), None);
    assert_eq!(file_extension("noext"), None);
    assert_eq!(file_extension(""), None);
    assert!(is_solidity_file_name("Token.SOL"));
    assert!(is_solidity_file_name("x.y.sol"));
    assert!(!is_solidity_file_name(".sol"));
    assert!(!is_solidity_file_name("a.sol.bak"));
    assert!(!is_solidity_file_name("a.solx"));
}

fn entry(name: &str, is_dir: bool) -> FileEntry {
    FileEntry { name: name.to_string(), relative_path: format!("d/{}", name), is_dir }
}

#[test]
fn directory_listing_order_and_counts() {
    let (listed, dirs, sols) = list_entries(vec![
        entry("b.sol", false),
        entry("readme.md", false),
        entry("Zeta", true),
        entry("A.sol", false),
        entry("alpha", true),
        entry("dir.sol", true),
    ]);
    let names: Vec<&str> = listed.iter().map(|e| e.name.as_str()).collect();
    assert_eq!(names, vec!["alpha", "dir.sol", "Zeta", "A.sol", "b.sol"]);
    assert_eq!(dirs, 3);
    assert_eq!(sols, 2);

    let resp = build_files_response("/r", "/r", vec![entry("x.sol", false)], 5);
    assert_eq!(resp.root_dir, "/r");
    assert_eq!(resp.current_path, "");
    assert_eq!(resp.parent_path, None);
    assert_eq!(resp.direct_solidity_files, 1);
    assert_eq!(resp.direct_subdirectories, 0);
    assert_eq!(resp.recursive_solidity_files, 5);
    assert_eq!(resp.entries.len(), 1);
    let resp = build_files_response("/r", "/r/sub", vec![], 0);
    assert_eq!(resp.current_path, "sub");
    assert_eq!(resp.parent_path, Some(String::new()));
}

#[test]
fn analysis_targets_selected() {
    let t = select_analysis_targets("/r/a.sol".to_string(), true, false, vec![]).ok().unwrap();
    assert_eq!(t, vec!["/r/a.sol".to_string()]);
    let e = select_analysis_targets("/r/dev".to_string(), false, false, vec![]).err().unwrap();
    assert_eq!(e.message, "selected target must be a Solidity file or directory");
    let e = select_analysis_targets("/r/d".to_string(), false, true, vec![]).err().unwrap();
    assert_eq!(e.message, "selected directory does not contain Solidity files");
    let files = vec!["/r/d/a.sol".to_string(), "/r/d/b.sol".to_string()];
    let t = select_analysis_targets("/r/d".to_string(), false, true, files.clone()).ok().unwrap();
    assert_eq!(t, files);
}

#[test]
fn path_decisions_given_platform_answers() {
    assert_eq!(candidate_from("/r", " . ", true, "x".to_string()).ok().unwrap(), "/r");
    let e = candidate_from("/r", "/etc", true, "/etc".to_string()).err().unwrap();
    assert_eq!(e.message, "absolute paths are not allowed");
    assert_eq!(candidate_from("/r", "a", false, "/r/a".to_string()).ok().unwrap(), "/r/a");

    assert_eq!(within_root_outcome("/r/a".to_string(), true).ok().unwrap(), "/r/a");
    let e = within_root_outcome("/x".to_string(), false).err().unwrap();
    assert_eq!(e.status, ApiStatus::BadRequest);
    assert_eq!(e.message, "requested path escapes the working directory root");

    assert_eq!(parent_from("/r", true, Some("/r".to_string())), None);
    assert_eq!(parent_from("/r", false, None), None);
    assert_eq!(parent_from("/r", false, Some("/r/a".to_string())), Some("a".to_string()));
    assert_eq!(parent_from("/r", false, Some("/r".to_string())), Some(String::new()));
}

#[test]
fn plain_paths_under_root() {
    assert_eq!(relative_display("/", "/test/haha/foo.txt"), "test/haha/foo.txt");
    assert_eq!(relative_display("/test", "/test/haha/foo.txt"), "haha/foo.txt");
    assert_eq!(parent_display("/test", "/test/haha/foo.txt"), Some("haha".to_string()));
    assert_eq!(check_within_root("/test", Some("/test/haha".to_string())).ok().unwrap(), "/test/haha");
    assert!(check_within_root("/test", Some("/tes/haha".to_string())).is_err());
    assert!(check_within_root("/test/haha", Some("/test".to_string())).is_err());
    assert_eq!(resolve_candidate("/r", "a/b").ok().unwrap(), "/r/a/b");
}

fn file(name: &str, path: &str) -> DirNode {
    DirNode { name: name.to_string(), path: path.to_string(), is_dir: false, children: vec![] }
}

fn folder(name: &str, path: &str, children: Vec<DirNode>) -> DirNode {
    DirNode { name: name.to_string(), path: path.to_string(), is_dir: true, children }
}

#[test]
fn directory_targets_come_in_path_order() {
    let tree = vec![
        file("z.sol", "/r/d/z.sol"),
        folder("a", "/r/d/a", vec![file("b.sol", "/r/d/a/b.sol"), file("n.txt", "/r/d/a/n.txt")]),
        file("a.sol", "/r/d/a.sol"),
    ];
    let t = collect_analysis_targets("/r/d".to_string(), false, true, &tree).ok().unwrap();
    assert_eq!(
        t,
        vec!["/r/d/a/b.sol".to_string(), "/r/d/a.sol".to_string(), "/r/d/z.sol".to_string()]
    );
    let only_text = vec![file("n.txt", "/r/d/n.txt"), folder("e", "/r/d/e", vec![])];
    let e = collect_analysis_targets("/r/d".to_string(), false, true, &only_text).err().unwrap();
    assert_eq!(e.message, "selected directory does not contain Solidity files");
    let t = collect_analysis_targets("/r/a.sol".to_string(), true, false, &vec![]).ok().unwrap();
    assert_eq!(t, vec!["/r/a.sol".to_string()]);
}

#[test]
fn listing_counts_from_one_tree() {
    let tree = vec![
        file("Top.SOL", "/r/d/Top.SOL"),
        file("notes.md", "/r/d/notes.md"),
        folder(
            "lib",
            "/r/d/lib",
            vec![file("x.sol", "/r/d/lib/x.sol"), folder("deep", "/r/d/lib/deep", vec![file("y.sol", "/r/d/lib/deep/y.sol")])],
        ),
    ];
    let r = files_response_from_tree("/r", "/r/d", tree);
    assert_eq!(r.direct_subdirectories, 1);
    assert_eq!(r.direct_solidity_files, 1);
    assert_eq!(r.recursive_solidity_files, 3);
    assert_eq!(r.current_path, "d");
    assert_eq!(r.parent_path, Some(String::new()));
    let names: Vec<(String, String, bool)> =
        r.entries.into_iter().map(|e| (e.name, e.relative_path, e.is_dir)).collect();
    assert_eq!(
        names,
        vec![
            ("lib".to_string(), "d/lib".to_string(), true),
            ("Top.SOL".to_string(), "d/Top.SOL".to_string(), false),
        ]
    );
}

#[test]
fn shown_paths_resolve_back() {
    let root = "/srv/root";
    for path in ["/srv/root/a/b.sol", "/srv/root/x:y/z.sol", "/srv/root/c"] {
        let shown = relative_display(root, path);
        assert_eq!(resolve_candidate(root, &shown).ok().unwrap(), path);
    }
    assert_eq!(relative_display("/srv", "/srv/a:b"), "a:b");
    assert_eq!(check_within_root("/srv", Some("/srv/a:b".to_string())).ok().unwrap(), "/srv/a:b");
    assert!(check_within_root("/srv", Some("/srva:b".to_string())).is_err());
}
