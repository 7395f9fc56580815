//! An engine that evaluates graphs of sandboxed processes linked by
//! files.
//!
//! A client sends a graph of executions to an executor, supplies the
//! files that the graph needs from outside, and is told what happens.
//! The executor hands the executions that can start to workers, each of
//! which runs one execution at a time in a sandbox; when an execution
//! fails, everything that depends on it is skipped.
//!
//! The crate holds the rules of the engine, and no more: each function
//! takes what came (a message, the outcome of a sandbox) and says what
//! is to be done (messages to send, files to write, a sandbox to run).
//! Channels, threads, files and processes are left to the caller.
//!
//! - `dag`, `check_dag`: the graph and its validation;
//! - `scheduler`, `schedule`, `finish`, `cascade`, `workers`, `queue`:
//!   the state of the scheduler and its operations;
//! - `executor`, `client`, `worker`, `proto`, `frame`: the three
//!   parties, their messages, and how records are framed;
//! - `store`, `cache`: contents kept under their digest, results kept
//!   under the fingerprint of their execution;
//! - `sandbox`: the command line and the files of a sandbox;
//! - `ui_state`: what a user interface keeps of the executions;
//! - `laws`: what holds of every evaluation.

pub mod cache;
pub mod cascade;
pub mod check_dag;
pub mod client;
pub mod dag;
pub mod executor;
pub mod finish;
pub mod frame;
pub mod laws;
pub mod proto;
pub mod queue;
pub mod sandbox;
pub mod schedule;
pub mod scheduler;
pub mod store;
pub mod text;
pub mod ui_state;
pub mod worker;
pub mod workers;
