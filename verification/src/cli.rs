//! The command-line surface of the demonstration binary, as plain data.
//!
//! The argument parser lives with the binary and hands over these values;
//! the library only needs to know which demonstration was chosen and with
//! which parameters.

use vstd::prelude::*;

verus! {

/// A parsed invocation: the one subcommand the caller chose.
#[derive(Clone, Copy, Debug, PartialEq, Eq, Structural)]
pub struct Cli {
    pub command: Commands,
}

/// The demonstrations the binary offers, with their parameters.
#[derive(Clone, Copy, Debug, PartialEq, Eq, Structural)]
pub enum Commands {
    /// The worker-pool demonstration: `threads` workers, `num_tasks` jobs.
    ThreadPool { threads: usize, num_tasks: usize },
    /// Channel-based message passing: `senders` producers, `messages` each.
    MessagePassing { senders: usize, messages: usize },
    /// The mutex-protected counter: `threads` threads, `increments` each.
    SharedState { threads: usize, increments: usize },
    /// Async task spawning: `tasks` tasks, `delay` milliseconds each.
    AsyncTasks { tasks: usize, delay: u64 },
    /// Data-parallel iteration over `size` elements, timed if `benchmark`.
    ParallelIteration { size: usize, benchmark: bool },
}

} // verus!
