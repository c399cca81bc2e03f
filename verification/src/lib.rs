//! A feedback-directed fuzzing engine and the command surface around it.
//!
//! The engine decides which inputs are kept, how they are mutated and in
//! what order they are retried: the feedback on coverage and crashes, the
//! corpus with its favored subset, the power schedule and the scheduler, the
//! mutation stages and calibration. These are the library's own rules; a
//! program puts them behind the traits of the fuzzing framework that runs the
//! target and the loop, and every decision of a session is then one of
//! theirs. Byte-level edits, operand replacement, the dictionary, hashing and
//! the random draws are libafl's, called here.
//!
//! Three parts state rules for work that this library does not do and that a
//! program may leave to its framework: `cache` says which test cases stay in
//! memory, and `coordinator` says where a broker sends each message, how it
//! sums the workers' counters and when a failed worker is started again.
//! They are a model of that work, proved of itself; a framework that does the
//! work in its own way is not bound by them.

pub mod adaptive;
pub mod cache;
pub mod calibrate;
pub mod common;
pub mod coordinator;
pub mod corpus;
pub mod coverage;
pub mod dictionary;
pub mod energy;
pub mod favored;
pub mod feedback;
pub mod mutation;
pub mod operands;
pub mod options;
pub mod persist;
pub mod power;
pub mod rng;
pub mod runtime;
pub mod schedule;
pub mod stages;
pub mod tokens;
pub mod tracing;
pub mod utils;
pub mod worker;
