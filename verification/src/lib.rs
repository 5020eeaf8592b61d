//! Building blocks for a set of small concurrency demonstrations.
//!
//! The heart of the crate is [`pool`], a verified model of a worker pool:
//! a fixed set of workers pulling jobs from a shared FIFO queue, with a
//! graceful-shutdown lifecycle.  [`counter`] holds the shared counter used
//! by the shared-state demonstration, [`par_iter`] the data-parallel
//! kernels, and [`cli`] the command-line surface as plain data.

pub mod cli;
pub mod counter;
pub mod par_iter;
pub mod pool;
