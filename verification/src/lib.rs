//! Verified core of a content-discovery engine.
//!
//! Given a target and a wordlist, the engine puts each word into a URL
//! template, makes one request for it, and reports the words whose requests
//! were answered with a status code that is not suppressed. This crate holds
//! what the engine decides and computes; making the requests and showing the
//! reports is left to its caller.
//!
//! - `mode`, `config`: the four modes, and the errors that stop a run.
//! - `template`: from target and mode to the URL template, from template
//!   and word to the request.
//! - `wordlist`, `headers`, `utils`: the words, the custom headers and the
//!   `User-Agent` of a run.
//! - `classify`: from the outcome of a request to the report for it.
//! - `budget`, `run`: the concurrency budget and the run that owns it.
//! - `run_model`, `run_laws`: the run as a state machine, and what holds of
//!   every run.
//! - `text`: the text primitives under all of it.

pub mod budget;
pub mod classify;
pub mod config;
pub mod headers;
pub mod mode;
pub mod run;
pub mod run_laws;
pub mod run_model;
pub mod template;
pub mod text;
pub mod utils;
pub mod wordlist;
