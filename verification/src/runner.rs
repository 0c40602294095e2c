//! The orchestration disciplines. A `SequentialRun` drives commands one at a
//! time in input order, stopping early on failure when configured; a
//! `ParallelRun` hands out commands up to an optional bound on simultaneous
//! executions and collects results in arrival order.
//!
//! The caller owns the actual spawning and waiting: it asks the machine what
//! to start next, runs it, and records the outcome. Every discipline
//! decision — what starts, what stops, what is returned — is made here.

use vstd::prelude::*;
use vstd::multiset::Multiset;
use crate::types::{valid_bound, RunResult};

verus! {

broadcast use
    vstd::seq_lib::group_to_multiset_ensures,
    vstd::multiset::group_multiset_axioms;

/// The views of a list of command strings.
pub open spec fn command_views(s: Seq<String>) -> Seq<Seq<char>> {
    s.map_values(|c: String| c@)
}

/// The views of the commands a list of results is attributed to.
pub open spec fn result_commands(s: Seq<RunResult>) -> Seq<Seq<char>> {
    s.map_values(|r: RunResult| r.command@)
}

/// A sequential run: commands start one at a time, in input order, and the
/// run stops early exactly when a command fails under `stop_on_error`.
pub struct SequentialRun {
    pub commands: Vec<String>,
    pub stop_on_error: bool,
    /// How many commands have been started (and, being sequential, finished).
    pub next_index: usize,
    /// Whether the run aborted after a failing command.
    pub stopped: bool,
    /// Whether the whole run failed hard: a command could not be started at
    /// all, or its streams broke. Distinct from `stopped`, which records a
    /// command that ran and exited unsuccessfully.
    pub aborted: bool,
    /// One result per finished command, in input order.
    pub results: Vec<RunResult>,
}

impl SequentialRun {
    /// Results are a prefix of the input, in input order; the run is stopped
    /// exactly when `stop_on_error` is set and the last recorded command
    /// failed, and never earlier.
    pub open spec fn wf(self) -> bool {
        &&& self.next_index <= self.commands@.len()
        &&& self.results@.len() == self.next_index
        &&& forall|i: int|
            0 <= i < self.results@.len() ==> #[trigger] self.results@[i].command@
                == self.commands@[i]@
        &&& self.stopped ==> self.stop_on_error && self.next_index >= 1
            && !self.results@.last().success
        &&& forall|i: int|
            0 <= i < self.results@.len() && !(#[trigger] self.results@[i].success)
                && self.stop_on_error ==> self.stopped && i == self.results@.len() - 1
    }

    /// A fresh sequential run over `commands`.
    pub fn new(commands: Vec<String>, stop_on_error: bool) -> (r: SequentialRun)
        ensures
            r.wf(),
            r.commands == commands,
            r.stop_on_error == stop_on_error,
            r.next_index == 0,
            !r.stopped,
            !r.aborted,
            r.results@ =~= Seq::<RunResult>::empty(),
    {
        SequentialRun {
            commands,
            stop_on_error,
            next_index: 0,
            stopped: false,
            aborted: false,
            results: Vec::new(),
        }
    }

    /// The next command to start: the first one not yet run, unless the run
    /// stopped early, aborted, or every command has been run — then nothing
    /// starts.
    pub fn next_command(&self) -> (c: Option<String>)
        ensures
            c is Some <==> (!self.aborted && !self.stopped && self.next_index
                < self.commands@.len()),
            c matches Some(cmd) ==> cmd@ == self.commands@[self.next_index as int]@,
    {
        if !self.aborted && !self.stopped && self.next_index < self.commands.len() {
            Some(self.commands[self.next_index].clone())
        } else {
            None
        }
    }

    /// Record the outcome of the command just run. The result is appended
    /// after all earlier ones, and the run stops exactly when the command
    /// failed under `stop_on_error`.
    pub fn record(&mut self, result: RunResult)
        requires
            old(self).wf(),
            !old(self).aborted,
            !old(self).stopped,
            old(self).next_index < old(self).commands@.len(),
            result.command@ == old(self).commands@[old(self).next_index as int]@,
        ensures
            final(self).wf(),
            final(self).commands == old(self).commands,
            final(self).stop_on_error == old(self).stop_on_error,
            final(self).aborted == old(self).aborted,
            final(self).next_index == old(self).next_index + 1,
            final(self).results@ =~= old(self).results@.push(result),
            final(self).stopped == (old(self).stop_on_error && !result.success),
    {
        proof {
            // next_index stays below the commands' length, which fits a usize
            vstd::std_specs::vec::axiom_spec_len(&self.commands);
        }
        let failed = !result.success;
        self.results.push(result);
        self.next_index += 1;
        if failed && self.stop_on_error {
            self.stopped = true;
        }
    }

    /// A command could not be started at all, or reading its streams
    /// failed: the whole run fails. No result stands for that command and
    /// nothing further starts; the outcomes recorded so far are abandoned
    /// by the caller together with the hard error.
    pub fn abort(&mut self)
        ensures
            *final(self) == (SequentialRun { aborted: true, ..*old(self) }),
    {
        self.aborted = true;
    }

    /// Whether the run is over: aborted, stopped early, or out of commands.
    pub fn is_finished(&self) -> (b: bool)
        ensures
            b == (self.aborted || self.stopped || self.next_index == self.commands@.len()),
    {
        self.aborted || self.stopped || self.next_index == self.commands.len()
    }

    /// The collected results, in input order.
    pub fn into_results(self) -> (r: Vec<RunResult>)
        ensures
            r == self.results,
    {
        self.results
    }
}

/// Fail-fast prefix: a sequential run that stopped early did so under
/// `stop_on_error`; its results are a non-empty prefix of the input, in
/// input order, every result but the last succeeded, the last one failed,
/// and no further command is ever started.
pub proof fn lemma_fail_fast_prefix(r: SequentialRun)
    requires
        r.wf(),
        r.stopped,
    ensures
        r.stop_on_error,
        1 <= r.results@.len() <= r.commands@.len(),
        forall|i: int|
            0 <= i < r.results@.len() ==> #[trigger] r.results@[i].command@ == r.commands@[i]@,
        forall|i: int| 0 <= i < r.results@.len() - 1 ==> #[trigger] r.results@[i].success,
        !r.results@.last().success,
{
}

/// Continue-on-error: without `stop_on_error` a sequential run never stops
/// early, so once every command has been recorded there is exactly one
/// result per input command, in input order, whatever each outcome was.
pub proof fn lemma_continue_on_error(r: SequentialRun)
    requires
        r.wf(),
        !r.stop_on_error,
    ensures
        !r.stopped,
        r.next_index == r.commands@.len() ==> r.results@.len() == r.commands@.len(),
        forall|i: int|
            0 <= i < r.results@.len() ==> #[trigger] r.results@[i].command@ == r.commands@[i]@,
{
}

/// A parallel run: commands are handed out in input order, at most
/// `max_parallel` of them outstanding at once when a bound is set, and each
/// outcome is collected as it arrives.
pub struct ParallelRun {
    pub commands: Vec<String>,
    pub max_parallel: Option<usize>,
    /// How many commands have been handed out so far.
    pub next_index: usize,
    /// The commands handed out whose outcome has not arrived yet.
    pub outstanding: Vec<String>,
    /// Whether the whole run failed hard: a command could not be started at
    /// all, or its streams broke. A failing exit code is not this — it is a
    /// normal result.
    pub aborted: bool,
    /// One result per finished command, in arrival order.
    pub results: Vec<RunResult>,
}

impl ParallelRun {
    /// Every handed-out command is either outstanding or finished — never
    /// lost, never duplicated — and the outstanding count respects the bound.
    pub open spec fn wf(self) -> bool {
        &&& self.next_index <= self.commands@.len()
        &&& self.results@.len() + self.outstanding@.len() == self.next_index
        &&& (self.max_parallel matches Some(m) ==> self.outstanding@.len() <= m)
        &&& result_commands(self.results@).to_multiset().add(
            command_views(self.outstanding@).to_multiset(),
        ) == command_views(self.commands@.take(self.next_index as int)).to_multiset()
    }

    /// A fresh parallel run over `commands`; a bound, when given, is at
    /// least one.
    pub fn new(commands: Vec<String>, max_parallel: Option<usize>) -> (r: ParallelRun)
        requires
            valid_bound(max_parallel),
        ensures
            r.wf(),
            r.commands == commands,
            r.max_parallel == max_parallel,
            r.next_index == 0,
            r.outstanding@ =~= Seq::<String>::empty(),
            !r.aborted,
            r.results@ =~= Seq::<RunResult>::empty(),
    {
        let r = ParallelRun {
            commands,
            max_parallel,
            next_index: 0,
            outstanding: Vec::new(),
            aborted: false,
            results: Vec::new(),
        };
        proof {
            assert(r.commands@.take(0) =~= Seq::<String>::empty());
            lemma_to_multiset_empty(result_commands(r.results@));
            lemma_to_multiset_empty(command_views(r.outstanding@));
            lemma_to_multiset_empty(command_views(r.commands@.take(0)));
            assert(result_commands(r.results@).to_multiset().add(
                command_views(r.outstanding@).to_multiset(),
            ) =~= Multiset::<Seq<char>>::empty());
        }
        r
    }

    /// Whether another command may start now: the run has not failed hard,
    /// some command has not been handed out yet, and the bound (if any)
    /// leaves a free slot.
    pub open spec fn spec_can_launch(self) -> bool {
        !self.aborted && self.next_index < self.commands@.len() && (self.max_parallel matches Some(
            m,
        ) ==> self.outstanding@.len() < m)
    }

    /// See `spec_can_launch`.
    pub fn can_launch(&self) -> (b: bool)
        ensures
            b == self.spec_can_launch(),
    {
        !self.aborted && self.next_index < self.commands.len() && (match self.max_parallel {
            Some(m) => self.outstanding.len() < m,
            None => true,
        })
    }

    /// Hand out the next command to start. It becomes outstanding; the
    /// number of simultaneously outstanding commands grows by one and still
    /// respects the bound.
    pub fn launch(&mut self) -> (c: String)
        requires
            old(self).wf(),
            old(self).spec_can_launch(),
        ensures
            final(self).wf(),
            final(self).commands == old(self).commands,
            final(self).max_parallel == old(self).max_parallel,
            final(self).aborted == old(self).aborted,
            final(self).results == old(self).results,
            final(self).next_index == old(self).next_index + 1,
            command_views(final(self).outstanding@) =~= command_views(
                old(self).outstanding@,
            ).push(c@),
            c@ == old(self).commands@[old(self).next_index as int]@,
    {
        proof {
            // next_index stays below the commands' length, which fits a usize
            vstd::std_specs::vec::axiom_spec_len(&self.commands);
        }
        let c = self.commands[self.next_index].clone();
        self.outstanding.push(c.clone());
        self.next_index += 1;
        proof {
            let prior = old(self).commands@.take(old(self).next_index as int);
            assert(self.commands@.take(self.next_index as int) =~= prior.push(
                old(self).commands@[old(self).next_index as int],
            ));
            assert(command_views(prior.push(old(self).commands@[old(self).next_index as int]))
                =~= command_views(prior).push(c@));
            assert(command_views(self.outstanding@) =~= command_views(old(self).outstanding@).push(
                c@,
            ));
            assert(result_commands(self.results@).to_multiset().add(
                command_views(self.outstanding@).to_multiset(),
            ) =~= command_views(self.commands@.take(self.next_index as int)).to_multiset());
        }
        c
    }

    /// Whether a command with this literal text is currently outstanding.
    pub fn is_outstanding(&self, command: &String) -> (b: bool)
        ensures
            b == exists|i: int|
                0 <= i < self.outstanding@.len() && #[trigger] self.outstanding@[i]@ == command@,
    {
        let n: usize = self.outstanding.len();
        let mut j: usize = 0;
        while j < n
            invariant
                j <= n,
                n == self.outstanding@.len(),
                forall|k: int| 0 <= k < j ==> #[trigger] self.outstanding@[k]@ != command@,
            decreases n - j,
        {
            if self.outstanding[j] == *command {
                return true;
            }
            j += 1;
        }
        false
    }

    /// Record an arrived outcome for one of the outstanding commands. The
    /// command stops being outstanding and its result is appended after all
    /// earlier arrivals.
    pub fn finish(&mut self, result: RunResult)
        requires
            old(self).wf(),
            !old(self).aborted,
            exists|i: int|
                0 <= i < old(self).outstanding@.len() && #[trigger] old(self).outstanding@[i]@
                    == result.command@,
        ensures
            final(self).wf(),
            final(self).commands == old(self).commands,
            final(self).max_parallel == old(self).max_parallel,
            final(self).aborted == old(self).aborted,
            final(self).next_index == old(self).next_index,
            final(self).outstanding@.len() == old(self).outstanding@.len() - 1,
            command_views(final(self).outstanding@).to_multiset() == command_views(
                old(self).outstanding@,
            ).to_multiset().remove(result.command@),
            final(self).results@ =~= old(self).results@.push(result),
    {
        let ghost o0 = self.outstanding@;
        let n: usize = self.outstanding.len();
        let mut j: usize = 0;
        while j < n
            invariant
                j <= n,
                n == self.outstanding@.len(),
                *self == *old(self),
                old(self).wf(),
                self.outstanding@ == o0,
                forall|k: int| 0 <= k < j ==> #[trigger] o0[k]@ != result.command@,
                exists|i: int| 0 <= i < o0.len() && #[trigger] o0[i]@ == result.command@,
            decreases n - j,
        {
            if self.outstanding[j] == result.command {
                proof {
                    o0.remove_ensures(j as int);
                    assert(command_views(o0.remove(j as int)) =~= command_views(o0).remove(
                        j as int,
                    ));
                    assert(command_views(o0)[j as int] == result.command@);
                }
                let _ = self.outstanding.remove(j);
                self.results.push(result);
                proof {
                    let rms = result_commands(old(self).results@).to_multiset();
                    let oms = command_views(o0).to_multiset();
                    assert(result_commands(self.results@) =~= result_commands(
                        old(self).results@,
                    ).push(result.command@));
                    assert(result_commands(self.results@).to_multiset() =~= rms.insert(
                        result.command@,
                    ));
                    assert(command_views(self.outstanding@).to_multiset() =~= oms.remove(
                        result.command@,
                    ));
                    assert(oms.count(result.command@) >= 1) by {
                        assert(command_views(o0).contains(result.command@));
                    }
                    assert(rms.insert(result.command@).add(oms.remove(result.command@)) =~= rms.add(
                        oms,
                    ));
                }
                return ;
            }
            j += 1;
        }
        proof {
            assert(false);
        }
    }

    /// A command could not be started at all, or reading its streams
    /// failed: the whole run fails immediately. Nothing further starts; the
    /// caller abandons the outcomes collected so far together with the hard
    /// error, whatever its sibling commands were doing.
    pub fn abort(&mut self)
        ensures
            *final(self) == (ParallelRun { aborted: true, ..*old(self) }),
    {
        self.aborted = true;
    }

    /// Whether the whole run is over: every command was handed out and every
    /// outcome has arrived.
    pub fn is_done(&self) -> (b: bool)
        ensures
            b == (self.next_index == self.commands@.len() && self.outstanding@.len() == 0),
    {
        self.next_index == self.commands.len() && self.outstanding.len() == 0
    }

    /// The collected results, in arrival order.
    pub fn into_results(self) -> (r: Vec<RunResult>)
        ensures
            r == self.results,
    {
        self.results
    }
}

/// Completeness in parallel mode: once a run is done, the results are
/// exactly one per input command — the multiset of commands the results are
/// attributed to equals the multiset of input commands, whatever order the
/// outcomes arrived in.
pub proof fn lemma_parallel_completeness(r: ParallelRun)
    requires
        r.wf(),
        r.next_index == r.commands@.len(),
        r.outstanding@.len() == 0,
    ensures
        r.results@.len() == r.commands@.len(),
        result_commands(r.results@).to_multiset() == command_views(r.commands@).to_multiset(),
{
    assert(r.commands@.take(r.next_index as int) =~= r.commands@);
    lemma_to_multiset_empty(command_views(r.outstanding@));
    assert(result_commands(r.results@).to_multiset().add(Multiset::<Seq<char>>::empty())
        =~= result_commands(r.results@).to_multiset());
}

/// Bounded parallelism: in every reachable state of a parallel run with a
/// bound set, at most that many commands are simultaneously outstanding.
pub proof fn lemma_bounded_parallelism(r: ParallelRun, m: usize)
    requires
        r.wf(),
        r.max_parallel == Some(m),
    ensures
        r.outstanding@.len() <= m,
{
}

/// A sequence with no elements stands for the empty multiset.
proof fn lemma_to_multiset_empty<A>(s: Seq<A>)
    requires
        s.len() == 0,
    ensures
        s.to_multiset() == Multiset::<A>::empty(),
{
    assert(s.to_multiset() =~= Multiset::<A>::empty()) by {
        assert forall|a: A| s.to_multiset().count(a) == 0 by {
            if s.to_multiset().count(a) > 0 {
                assert(s.contains(a));
            }
        }
    }
}

/// How many of these results report failure.
pub open spec fn spec_failure_count(s: Seq<RunResult>) -> int
    decreases s.len(),
{
    if s.len() == 0 {
        0
    } else {
        spec_failure_count(s.drop_last()) + if s.last().success {
            0int
        } else {
            1int
        }
    }
}

/// Count the commands that failed, for the aggregate exit decision.
pub fn count_failures(results: &Vec<RunResult>) -> (n: usize)
    ensures
        n == spec_failure_count(results@),
{
    let len: usize = results.len();
    let mut n: usize = 0;
    let mut i: usize = 0;
    while i < len
        invariant
            i <= len,
            len == results@.len(),
            n <= i,
            n == spec_failure_count(results@.take(i as int)),
        decreases len - i,
    {
        proof {
            assert(results@.take(i as int + 1).drop_last() =~= results@.take(i as int));
            assert(results@.take(i as int + 1).last() == results@[i as int]);
        }
        if !results[i].success {
            n += 1;
        }
        i += 1;
    }
    proof {
        assert(results@.take(len as int) =~= results@);
    }
    n
}

/// Whether at least one command failed: the hosting program exits non-zero
/// exactly then.
pub fn any_failed(results: &Vec<RunResult>) -> (b: bool)
    ensures
        b == exists|i: int| 0 <= i < results@.len() && !(#[trigger] results@[i].success),
{
    let len: usize = results.len();
    let mut i: usize = 0;
    while i < len
        invariant
            i <= len,
            len == results@.len(),
            forall|j: int| 0 <= j < i ==> #[trigger] results@[j].success,
        decreases len - i,
    {
        if !results[i].success {
            return true;
        }
        i += 1;
    }
    false
}

} // verus!
