//! Core of a package-build orchestrator.
//!
//! A recipe — a script defining named hook functions and variables — drives a
//! fixed pipeline: fetch the source, build, test, stage into an install tree,
//! and pack the staged tree into a distributable archive with a metadata
//! manifest.  Each stage can also be reversed (unfetch, unprepare, unstage,
//! untar) for clean rebuilds.
//!
//! This crate holds the decision core of that pipeline: parsing the source
//! specification, judging hook outcomes, planning the external commands each
//! stage runs, assembling and serializing package metadata, and the error
//! taxonomy.  Everything that touches the outside world — the script
//! interpreter, the filesystem, subprocesses — lives in the driver around this
//! library, which hands events (hook outcomes, exit codes, removal outcomes)
//! in and takes plans and judgments back.

pub mod error;
pub mod hooks;
pub mod meta;
pub mod pipeline;
pub mod recipe;
pub mod source;
pub mod text;
