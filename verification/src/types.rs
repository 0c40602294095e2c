//! Value types describing one invocation's configuration, one captured output
//! line, and one command's terminal outcome.

use vstd::prelude::*;

verus! {

/// Which stream of the child process a captured line arrived on.
#[derive(Clone, Copy, Debug, PartialEq, Eq, Structural)]
pub enum OutputType {
    Stdout,
    Stderr,
}

/// One captured line of a command's output: the originating command's literal
/// text, the stream it arrived on, the line content with surrounding
/// whitespace trimmed, and the arrival instant in milliseconds.
///
/// Created once per observed line and never mutated.
#[derive(Clone, Debug)]
pub struct CommandOutput {
    pub command: String,
    pub output_type: OutputType,
    pub data: String,
    pub timestamp: u64,
}

/// Configuration for one invocation of the runner.
#[derive(Clone, Debug)]
pub struct RunOptions {
    /// Run the commands concurrently instead of one at a time.
    pub parallel: bool,
    /// Upper bound on simultaneously running commands in parallel mode;
    /// `None` means unbounded.
    pub max_parallel: Option<usize>,
    pub print_output: bool,
    pub color: bool,
    pub show_timing: bool,
    pub prefix: bool,
    /// Sequential mode only: abort the remaining commands after the first
    /// command that ran and exited unsuccessfully.
    pub stop_on_error: bool,
    pub minimal_output: bool,
    pub group_output: bool,
    pub is_server_mode: bool,
}

/// A bound on simultaneous commands, when one is set, is at least one.
pub open spec fn valid_bound(max_parallel: Option<usize>) -> bool {
    max_parallel matches Some(m) ==> m >= 1
}

impl RunOptions {
    /// The configuration invariant: the parallelism bound, if present, is
    /// at least one.
    pub open spec fn valid(self) -> bool {
        valid_bound(self.max_parallel)
    }
}

/// Terminal outcome of one command: instants are milliseconds, `duration` is
/// derived from them, and `output` is the full ordered sequence of captured
/// lines.
#[derive(Clone, Debug)]
pub struct RunResult {
    pub command: String,
    /// Whether the command exited with status zero.
    pub success: bool,
    /// The exit code, absent if the process was killed by a signal.
    pub exit_code: Option<i32>,
    pub start_time: Option<u64>,
    pub end_time: Option<u64>,
    /// `end_time - start_time` whenever both instants are present and
    /// ordered; absent otherwise.
    pub duration: Option<u64>,
    /// A fixed diagnostic, present exactly when the command failed.
    pub error: Option<String>,
    pub output: Vec<CommandOutput>,
}

impl RunResult {
    /// Well-formedness of a result produced by the executor:
    /// success reflects a zero exit code, the duration is exactly the span
    /// between the two instants when both are present, and every captured
    /// line is attributed to this result's command.
    pub open spec fn wf(self) -> bool {
        &&& self.success <==> self.exit_code == Some(0i32)
        &&& match (self.start_time, self.end_time) {
            (Some(s), Some(e)) => if s <= e {
                self.duration == Some((e - s) as u64)
            } else {
                self.duration is None
            },
            _ => self.duration is None,
        }
        &&& self.error is Some <==> !self.success
        &&& forall|i: int|
            0 <= i < self.output@.len() ==> #[trigger] self.output@[i].command@ == self.command@
    }
}

/// Duration invariant: a well-formed result that carries a start instant, an
/// end instant and a duration has `duration == end_time - start_time`, and
/// that span is non-negative.
pub proof fn lemma_duration_invariant(r: RunResult)
    requires
        r.wf(),
        r.start_time is Some,
        r.end_time is Some,
        r.duration is Some,
    ensures
        r.start_time->0 <= r.end_time->0,
        r.duration->0 == r.end_time->0 - r.start_time->0,
{
}

} // verus!
