use neexrs::cli::{options_for_command, Commands};
use neexrs::executor::CommandExecution;
use neexrs::registry::ProcessRegistry;
use neexrs::runner::{any_failed, count_failures, ParallelRun, SequentialRun};
use neexrs::types::{OutputType, RunResult};

fn commands(names: &[&str]) -> Vec<String> {
    names.iter().map(|n| n.to_string()).collect()
}

fn finished(command: &str, exit_code: Option<i32>) -> RunResult {
    let e = CommandExecution::begin(command.to_string(), 100);
    e.finish(exit_code, 150)
}

#[test]
fn options_for_run_subcommand() {
    let c = Commands::Run {
        commands: commands(&["a"]),
        no_color: true,
        quiet: false,
        continue_on_error: false,
    };
    let o = options_for_command(&c);
    assert!(!o.parallel);
    assert_eq!(o.max_parallel, None);
    assert!(o.print_output);
    assert!(!o.color);
    assert!(o.show_timing);
    assert!(o.prefix);
    assert!(o.stop_on_error);
    assert!(!o.minimal_output);
    assert!(!o.group_output);
    assert!(!o.is_server_mode);
}

#[test]
fn options_for_runx_subcommand() {
    let c = Commands::Runx {
        commands: commands(&["a", "b"]),
        sequential: false,
        max_parallel: Some(3),
        no_color: false,
        quiet: true,
        group: true,
    };
    let o = options_for_command(&c);
    assert!(o.parallel);
    assert_eq!(o.max_parallel, Some(3));
    assert!(!o.print_output);
    assert!(o.color);
    assert!(!o.stop_on_error);
    assert!(o.minimal_output);
    assert!(o.group_output);
    assert!(!o.is_server_mode);
}

#[test]
fn options_for_servers_subcommand() {
    let c = Commands::Servers {
        commands: commands(&["srv"]),
        port: Some(3000),
        restart: false,
        env_file: None,
    };
    let o = options_for_command(&c);
    assert!(o.parallel);
    assert_eq!(o.max_parallel, None);
    assert!(o.print_output);
    assert!(o.color);
    assert!(!o.show_timing);
    assert!(!o.stop_on_error);
    assert!(o.group_output);
    assert!(o.is_server_mode);
}

#[test]
fn captured_lines_keep_arrival_order() {
    let mut e = CommandExecution::begin("echo".to_string(), 0);
    e.observe_line(OutputType::Stdout, "1", 1);
    e.observe_line(OutputType::Stdout, "2", 2);
    e.observe_line(OutputType::Stdout, "3", 3);
    let r = e.finish(Some(0), 4);
    assert_eq!(r.output.len(), 3);
    assert_eq!(r.output[0].data, "1");
    assert_eq!(r.output[1].data, "2");
    assert_eq!(r.output[2].data, "3");
    for line in &r.output {
        assert_eq!(line.command, "echo");
        assert!(matches!(line.output_type, OutputType::Stdout));
    }
}

#[test]
fn captured_lines_lose_only_their_terminator() {
    let mut e = CommandExecution::begin("c".to_string(), 0);
    e.observe_line(OutputType::Stdout, "  hello world \n", 1);
    e.observe_line(OutputType::Stderr, "\tboom\r\n", 2);
    e.observe_line(OutputType::Stdout, "no newline", 3);
    e.observe_line(OutputType::Stdout, "\n", 4);
    let r = e.finish(Some(1), 5);
    assert_eq!(r.output[0].data, "  hello world ");
    assert_eq!(r.output[1].data, "\tboom");
    assert_eq!(r.output[2].data, "no newline");
    assert_eq!(r.output[3].data, "");
    assert!(matches!(r.output[1].output_type, OutputType::Stderr));
}

#[test]
fn terminator_stripping_handles_multibyte_text() {
    let mut e = CommandExecution::begin("c".to_string(), 0);
    e.observe_line(OutputType::Stdout, "héllo → ∎\n", 1);
    e.observe_line(OutputType::Stdout, "naïve\r", 2);
    e.observe_line(OutputType::Stdout, "", 3);
    let r = e.finish(Some(0), 4);
    assert_eq!(r.output[0].data, "héllo → ∎");
    assert_eq!(r.output[1].data, "naïve\r");
    assert_eq!(r.output[2].data, "");
}

#[test]
fn duration_spans_the_two_instants() {
    let e = CommandExecution::begin("sleep".to_string(), 100);
    let r = e.finish(Some(0), 350);
    assert_eq!(r.start_time, Some(100));
    assert_eq!(r.end_time, Some(350));
    assert_eq!(r.duration, Some(250));
}

#[test]
fn duration_is_absent_when_instants_are_unordered() {
    let e = CommandExecution::begin("clock".to_string(), 500);
    let r = e.finish(Some(0), 400);
    assert_eq!(r.duration, None);
}

#[test]
fn zero_exit_code_is_success() {
    let r = finished("ok", Some(0));
    assert!(r.success);
    assert_eq!(r.exit_code, Some(0));
    assert_eq!(r.error, None);
}

#[test]
fn nonzero_exit_code_is_failure_with_diagnostic() {
    let r = finished("bad", Some(2));
    assert!(!r.success);
    assert_eq!(r.exit_code, Some(2));
    assert_eq!(r.error.as_deref(), Some("Command failed"));
}

#[test]
fn killed_by_signal_is_failure_without_exit_code() {
    let r = finished("killed", None);
    assert!(!r.success);
    assert_eq!(r.exit_code, None);
    assert_eq!(r.error.as_deref(), Some("Command failed"));
}

#[test]
fn registry_register_and_unregister() {
    let mut reg = ProcessRegistry::new();
    reg.register("a".to_string(), 11);
    reg.register("b".to_string(), 22);
    assert_eq!(reg.len(), 2);
    assert_eq!(reg.unregister(&"a".to_string()), Some(11));
    assert_eq!(reg.unregister(&"a".to_string()), None);
    assert_eq!(reg.len(), 1);
}

#[test]
fn registry_overwrites_an_entry_under_the_same_key() {
    let mut reg = ProcessRegistry::new();
    reg.register("a".to_string(), 11);
    reg.register("a".to_string(), 33);
    assert_eq!(reg.len(), 1);
    assert_eq!(reg.unregister(&"a".to_string()), Some(33));
}

#[test]
fn drain_hands_back_every_handle() {
    let mut reg = ProcessRegistry::new();
    reg.register("a".to_string(), 1);
    reg.register("b".to_string(), 2);
    reg.register("c".to_string(), 3);
    let handles = reg.drain_all();
    assert_eq!(handles, vec![1, 2, 3]);
    assert_eq!(reg.len(), 0);
}

#[test]
fn cancelling_twice_terminates_nothing_the_second_time() {
    let mut reg = ProcessRegistry::new();
    reg.register("a".to_string(), 1);
    let first = reg.drain_all();
    assert_eq!(first.len(), 1);
    let second = reg.drain_all();
    assert_eq!(second.len(), 0);
    let mut empty = ProcessRegistry::new();
    let none = empty.drain_all();
    assert_eq!(none.len(), 0);
}

#[test]
fn sequential_stops_after_first_failure() {
    let mut run = SequentialRun::new(commands(&["a", "b", "c"]), true);
    let first = run.next_command();
    assert_eq!(first.as_deref(), Some("a"));
    run.record(finished("a", Some(0)));
    assert_eq!(run.next_command().as_deref(), Some("b"));
    run.record(finished("b", Some(2)));
    assert_eq!(run.next_command(), None);
    assert!(run.is_finished());
    let results = run.into_results();
    assert_eq!(results.len(), 2);
    assert!(results[0].success);
    assert!(!results[1].success);
}

#[test]
fn sequential_continues_past_failures_when_told_to() {
    let mut run = SequentialRun::new(commands(&["a", "b", "c"]), false);
    run.record(finished("a", Some(0)));
    run.record(finished("b", Some(2)));
    let third = run.next_command();
    assert_eq!(third.as_deref(), Some("c"));
    run.record(finished("c", Some(0)));
    assert!(run.is_finished());
    let results = run.into_results();
    assert_eq!(results.len(), 3);
    assert!(results[0].success);
    assert!(!results[1].success);
    assert!(results[2].success);
}

#[test]
fn parallel_returns_one_result_per_command() {
    let mut run = ParallelRun::new(commands(&["a", "b", "c"]), None);
    let a = run.launch();
    let b = run.launch();
    let c = run.launch();
    assert!(!run.can_launch());
    run.finish(finished(&c, Some(0)));
    run.finish(finished(&a, Some(1)));
    run.finish(finished(&b, Some(0)));
    assert!(run.is_done());
    let results = run.into_results();
    assert_eq!(results.len(), 3);
    let mut names: Vec<String> = results.iter().map(|r| r.command.clone()).collect();
    names.sort();
    assert_eq!(names, vec!["a".to_string(), "b".to_string(), "c".to_string()]);
}

#[test]
fn parallel_respects_the_bound_on_simultaneous_commands() {
    let mut run = ParallelRun::new(commands(&["a", "b", "c", "d", "e"]), Some(2));
    let a = run.launch();
    let _b = run.launch();
    assert!(!run.can_launch());
    run.finish(finished(&a, Some(0)));
    assert!(run.can_launch());
    let _c = run.launch();
    assert!(!run.can_launch());
}

#[test]
fn parallel_knows_which_commands_are_outstanding() {
    let mut run = ParallelRun::new(commands(&["a", "b"]), None);
    let a = run.launch();
    assert!(run.is_outstanding(&a));
    assert!(!run.is_outstanding(&"b".to_string()));
    run.finish(finished(&a, Some(0)));
    assert!(!run.is_outstanding(&a));
}

#[test]
fn sequential_aborts_on_a_hard_error() {
    let mut run = SequentialRun::new(commands(&["a", "b"]), false);
    run.record(finished("a", Some(0)));
    run.abort();
    assert_eq!(run.next_command(), None);
    assert!(run.is_finished());
}

#[test]
fn parallel_aborts_on_a_hard_error() {
    let mut run = ParallelRun::new(commands(&["a", "b", "c"]), None);
    let _a = run.launch();
    assert!(run.can_launch());
    run.abort();
    assert!(!run.can_launch());
}

#[test]
fn failure_counting_for_the_aggregate_exit() {
    let results = vec![
        finished("a", Some(0)),
        finished("b", Some(1)),
        finished("c", None),
        finished("d", Some(0)),
    ];
    assert_eq!(count_failures(&results), 2);
    assert!(any_failed(&results));
    let all_ok = vec![finished("a", Some(0))];
    assert_eq!(count_failures(&all_ok), 0);
    assert!(!any_failed(&all_ok));
    let none: Vec<RunResult> = Vec::new();
    assert_eq!(count_failures(&none), 0);
    assert!(!any_failed(&none));
}
