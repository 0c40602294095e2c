//! The invocation model: which subcommand was requested, with which flags,
//! and the `RunOptions` that each subcommand settles on.
//!
//! Argument parsing itself happens outside the library; it hands over a
//! plain `Cli` value.

use vstd::prelude::*;
use crate::types::RunOptions;

verus! {

/// One parsed command-line invocation.
pub struct Cli {
    pub command: Commands,
}

/// The subcommands: run sequentially, run in parallel (or sequentially with a
/// flag), or run long-lived servers.
pub enum Commands {
    /// Run commands one after another, stopping on the first error unless
    /// told to continue.
    Run { commands: Vec<String>, no_color: bool, quiet: bool, continue_on_error: bool },
    /// Run commands in parallel, or sequentially when `sequential` is set,
    /// optionally bounding the number of simultaneous jobs.
    Runx {
        commands: Vec<String>,
        sequential: bool,
        max_parallel: Option<usize>,
        no_color: bool,
        quiet: bool,
        group: bool,
    },
    /// Run long-lived server commands in parallel until cancelled.
    Servers { commands: Vec<String>, port: Option<u16>, restart: bool, env_file: Option<String> },
}

/// The execution configuration that each subcommand stands for.
pub fn options_for_command(c: &Commands) -> (r: RunOptions)
    ensures
        (*c matches Commands::Run { no_color, quiet, continue_on_error, .. } ==> r == (RunOptions {
            parallel: false,
            max_parallel: None,
            print_output: !quiet,
            color: !no_color,
            show_timing: true,
            prefix: true,
            stop_on_error: !continue_on_error,
            minimal_output: quiet,
            group_output: false,
            is_server_mode: false,
        })),
        (*c matches Commands::Runx { sequential, max_parallel, no_color, quiet, group, .. } ==> r
            == (RunOptions {
            parallel: !sequential,
            max_parallel: max_parallel,
            print_output: !quiet,
            color: !no_color,
            show_timing: true,
            prefix: true,
            stop_on_error: false,
            minimal_output: quiet,
            group_output: group,
            is_server_mode: false,
        })),
        (*c matches Commands::Servers { .. } ==> r == (RunOptions {
            parallel: true,
            max_parallel: None,
            print_output: true,
            color: true,
            show_timing: false,
            prefix: true,
            stop_on_error: false,
            minimal_output: false,
            group_output: true,
            is_server_mode: true,
        })),
{
    match c {
        Commands::Run { no_color, quiet, continue_on_error, .. } => RunOptions {
            parallel: false,
            max_parallel: None,
            print_output: !*quiet,
            color: !*no_color,
            show_timing: true,
            prefix: true,
            stop_on_error: !*continue_on_error,
            minimal_output: *quiet,
            group_output: false,
            is_server_mode: false,
        },
        Commands::Runx { sequential, max_parallel, no_color, quiet, group, .. } => RunOptions {
            parallel: !*sequential,
            max_parallel: *max_parallel,
            print_output: !*quiet,
            color: !*no_color,
            show_timing: true,
            prefix: true,
            stop_on_error: false,
            minimal_output: *quiet,
            group_output: *group,
            is_server_mode: false,
        },
        Commands::Servers { .. } => RunOptions {
            parallel: true,
            max_parallel: None,
            print_output: true,
            color: true,
            show_timing: false,
            prefix: true,
            stop_on_error: false,
            minimal_output: false,
            group_output: true,
            is_server_mode: true,
        },
    }
}

} // verus!
