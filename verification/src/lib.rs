//! A concurrent judge for external commands.
//!
//! A run takes a set of jobs, each a command with its input and, if there is
//! one, its expected output. The jobs run with bounded parallelism and under
//! a timeout; each shows its status on a terminal row of its own, rewritten
//! in place; a summary by outcome ends the run.
//!
//! This library holds the decisions of such a run, proved: what a job comes
//! to ([`job`]), who may run ([`pool`]), what the terminal is sent
//! ([`cursor`]) and what it then shows ([`screen`]), how the three are kept
//! in step ([`judge`]), and what the summary says ([`summary`]). It launches
//! no process, reads no file and writes to no terminal: the program around
//! it does, as the library tells it.

pub mod cursor;
pub mod job;
pub mod judge;
pub mod pool;
pub mod screen;
pub mod settings;
pub mod status;
pub mod summary;
pub mod text;
