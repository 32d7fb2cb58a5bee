//! The durable result record of one attempt: where it lives, the remote
//! command that produces it, and which marker it ends with.
//!
//! A result directory, named after the permutation identifier, ends with
//! exactly one of the completion marker or the failure marker once the
//! attempt's outcome is known — except when the run exited cleanly but
//! retrieving its files failed, in which case neither is written and the
//! permutation counts as unfinished, to be re-attempted by the next run.

use vstd::prelude::*;
use vstd::string::*;

verus! {

/// The marker file that ends a successful, fully retrieved attempt, and
/// that the resume filter recognizes as "done".
pub fn completion_marker() -> (r: String)
    ensures
        r@ == "complete"@,
{
    String::from_str("complete")
}

/// The marker file that ends an attempt whose remote command failed.
pub fn failure_marker() -> (r: String)
    ensures
        r@ == "failed"@,
{
    String::from_str("failed")
}

/// The file that captures the remote command's standard output.
pub fn stdout_file() -> (r: String)
    ensures
        r@ == "stdout"@,
{
    String::from_str("stdout")
}

/// The file that captures the remote command's standard error.
pub fn stderr_file() -> (r: String)
    ensures
        r@ == "stderr"@,
{
    String::from_str("stderr")
}

/// `base/name`.
pub open spec fn spec_join_path(base: Seq<char>, name: Seq<char>) -> Seq<char> {
    base + seq!['/'] + name
}

/// Joins one path component onto a base path.
pub fn join_path(base: &str, name: &str) -> (r: String)
    ensures
        r@ == spec_join_path(base@, name@),
{
    proof {
        reveal_strlit("/");
    }
    let mut r = String::from_str(base);
    r.append("/");
    r.append(name);
    proof {
        assert(r@ =~= spec_join_path(base@, name@));
    }
    r
}

/// The local directory holding one sweep's result records:
/// `output_root/sweep_name`.
pub fn results_root(output_root: &str, sweep_name: &str) -> (r: String)
    ensures
        r@ == spec_join_path(output_root@, sweep_name@),
{
    join_path(output_root, sweep_name)
}

/// The remote staging directory of one sweep: `/tmp/MNER/sweep_name`.
pub fn staging_root(sweep_name: &str) -> (r: String)
    ensures
        r@ == spec_join_path("/tmp/MNER"@, sweep_name@),
{
    proof {
        reveal_strlit("/tmp/MNER");
    }
    join_path("/tmp/MNER", sweep_name)
}

/// The remote copy of the working directory: `staging/workdir`.
pub fn staging_workdir(staging: &str) -> (r: String)
    ensures
        r@ == spec_join_path(staging@, "workdir"@),
{
    join_path(staging, "workdir")
}

/// The remote directory holding per-permutation run directories:
/// `staging/results`.
pub fn staging_results(staging: &str) -> (r: String)
    ensures
        r@ == spec_join_path(staging@, "results"@),
{
    join_path(staging, "results")
}

/// The shell command run remotely for one permutation: it creates the
/// permutation's remote result directory, steps into it, and invokes the
/// staged executable with the permutation's parameters.
pub open spec fn spec_remote_command(
    result_dir: Seq<char>,
    executable: Seq<char>,
    parameters: Seq<char>,
) -> Seq<char> {
    "mkdir -p "@ + result_dir + " && cd "@ + result_dir + " && "@ + executable + " "@ + parameters
}

/// Builds the remote shell command for one permutation.
pub fn remote_command(result_dir: &str, executable: &str, parameters: &str) -> (r: String)
    ensures
        r@ == spec_remote_command(result_dir@, executable@, parameters@),
{
    proof {
        reveal_strlit("mkdir -p ");
        reveal_strlit(" && cd ");
        reveal_strlit(" && ");
        reveal_strlit(" ");
    }
    let mut r = String::from_str("mkdir -p ");
    r.append(result_dir);
    r.append(" && cd ");
    r.append(result_dir);
    r.append(" && ");
    r.append(executable);
    r.append(" ");
    r.append(parameters);
    proof {
        assert(r@ =~= spec_remote_command(result_dir@, executable@, parameters@));
    }
    r
}

/// Whether the remote result directory is retrieved at all: only after a
/// clean exit; a failed run leaves its remote files behind and gets the
/// failure marker instead.
pub fn should_retrieve(exit_status: u32) -> (r: bool)
    ensures
        r == (exit_status == 0),
{
    exit_status == 0
}

/// Which marker file ends the attempt's result record.
///
/// `retrieval_ok` reports whether fetching the remote result directory
/// succeeded; it is only consulted after a clean exit.  Exactly one marker
/// is named — never both — and none exactly when a clean run's retrieval
/// failed, which leaves the permutation unfinished so a later run retries
/// it.
pub fn marker_file(exit_status: u32, retrieval_ok: bool) -> (r: Option<String>)
    ensures
        exit_status != 0 ==> (r matches Some(m) && m@ == "failed"@),
        exit_status == 0 && retrieval_ok ==> (r matches Some(m) && m@ == "complete"@),
        exit_status == 0 && !retrieval_ok ==> r is None,
{
    if exit_status != 0 {
        Some(failure_marker())
    } else if retrieval_ok {
        Some(completion_marker())
    } else {
        None
    }
}

/// One attempt ends with at most one marker, with none exactly when a
/// clean run's retrieval failed, and the completion and failure markers
/// are distinct files.
pub proof fn lemma_marker_states()
    ensures
        "complete"@ != "failed"@,
{
    reveal_strlit("complete");
    reveal_strlit("failed");
    assert("complete"@.len() == 8);
    assert("failed"@.len() == 6);
}

} // verus!
