//! Pipelines of shell steps: their data model, the rules by which they are
//! triggered, run and recorded, and the checks that keep a single live
//! instance per pipeline name.
//!
//! The data model is in `pipeline`, `status`, `trigger` and `config`. A
//! run is a machine: `outcome` says where a tree stands and what is due,
//! `engine` takes reports into it, `lanes` lets the steps of a group go
//! side by side, `run` drives it to its end, and `sound` and `laws` say
//! what holds of every run. `liveness` sets the logs against the
//! processes that are alive, `logs` and `journal` keep the history,
//! `watch` is the watcher, and `node`, `characters` and `cli` are what
//! the command line shows and reads.

pub mod characters;
pub mod cli;
pub mod config;
pub mod engine;
pub mod error;
pub mod glob;
pub mod journal;
pub mod lanes;
pub mod laws;
pub mod liveness;
pub mod logs;
pub mod names;
pub mod node;
pub mod outcome;
pub mod pipeline;
pub mod run;
pub mod shell;
pub mod sound;
pub mod status;
pub mod trigger;
pub mod watch;
