use sweeprun::config::Permutation;
use sweeprun::outcome::{
    completion_marker, failure_marker, join_path, marker_file, remote_command, results_root,
    should_retrieve, staging_results, staging_root, staging_workdir, stderr_file, stdout_file,
};
use sweeprun::resume::filter_completed;

fn perm(id: &str) -> Permutation {
    Permutation {
        id: String::from(id),
        parameters: String::from("--a=1"),
    }
}

fn ids(perms: &[Permutation]) -> Vec<String> {
    perms.iter().map(|p| p.id.clone()).collect()
}

#[test]
fn filter_drops_only_completed() {
    let perms = vec![perm("a=1_0"), perm("a=2_0"), perm("a=3_0")];
    let completed = vec![String::from("a=2_0")];
    let pending = filter_completed(&perms, &completed);
    assert_eq!(ids(&pending), vec!["a=1_0".to_string(), "a=3_0".to_string()]);
}

#[test]
fn filter_ignores_unknown_completed_ids() {
    let perms = vec![perm("a=1_0")];
    let completed = vec![String::from("b=9_0"), String::from("stray")];
    let pending = filter_completed(&perms, &completed);
    assert_eq!(ids(&pending), vec!["a=1_0".to_string()]);
}

#[test]
fn filter_is_idempotent() {
    let perms = vec![perm("a=1_0"), perm("a=2_0"), perm("a=3_0")];
    let completed = vec![String::from("a=1_0"), String::from("a=3_0")];
    let once = filter_completed(&perms, &completed);
    let twice = filter_completed(&once, &completed);
    assert_eq!(ids(&once), ids(&twice));
    assert_eq!(ids(&once), vec!["a=2_0".to_string()]);
}

#[test]
fn filter_of_nothing_completed_keeps_all() {
    let perms = vec![perm("a=1_0"), perm("a=2_0")];
    let pending = filter_completed(&perms, &vec![]);
    assert_eq!(pending.len(), 2);
}

#[test]
fn markers_for_each_outcome() {
    let failed = marker_file(1, false);
    assert_eq!(failed.as_deref(), Some("failed"));
    let failed_too = marker_file(2, true);
    assert_eq!(failed_too.as_deref(), Some("failed"));
    let complete = marker_file(0, true);
    assert_eq!(complete.as_deref(), Some("complete"));
}

#[test]
fn clean_exit_with_failed_retrieval_leaves_no_marker() {
    assert_eq!(marker_file(0, false), None);
}

#[test]
fn retrieval_follows_clean_exit_only() {
    assert!(should_retrieve(0));
    assert!(!should_retrieve(1));
    assert!(!should_retrieve(137));
}

#[test]
fn marker_and_capture_file_names() {
    assert_eq!(completion_marker(), "complete");
    assert_eq!(failure_marker(), "failed");
    assert_eq!(stdout_file(), "stdout");
    assert_eq!(stderr_file(), "stderr");
}

#[test]
fn result_and_staging_paths() {
    assert_eq!(results_root("results", "exp"), "results/exp");
    assert_eq!(join_path("results/exp", "a=1_0"), "results/exp/a=1_0");
    assert_eq!(staging_root("exp"), "/tmp/MNER/exp");
    assert_eq!(staging_workdir("/tmp/MNER/exp"), "/tmp/MNER/exp/workdir");
    assert_eq!(staging_results("/tmp/MNER/exp"), "/tmp/MNER/exp/results");
}

#[test]
fn remote_command_shape() {
    let cmd = remote_command("/tmp/MNER/exp/results/a=1_0", "/tmp/MNER/exp/workdir/run.sh", "--a=1");
    assert_eq!(
        cmd,
        "mkdir -p /tmp/MNER/exp/results/a=1_0 && cd /tmp/MNER/exp/results/a=1_0 && /tmp/MNER/exp/workdir/run.sh --a=1"
    );
}
