//! The decision logic of a coding-agent harness, with every rule stated as a
//! contract and proved.
use vstd::prelude::*;

pub mod agent;
pub mod check;
pub mod cli;
pub mod command;
pub mod config;
pub mod digest;
pub mod event;
pub mod fanout;
pub mod ids;
pub mod json;
pub mod knowledge;
pub mod list;
pub mod llm;
pub mod mcp;
pub mod memory;
pub mod metrics;
pub mod mining;
pub mod ordered;
pub mod paths;
pub mod patterns;
pub mod prompt;
pub mod ranking;
pub mod report;
pub mod rounds;
pub mod session;
pub mod skill;
pub mod sorting;
pub mod supervisor;
pub mod tally;
pub mod text;
pub mod toml_value;
pub mod tools;
pub mod trust;
pub mod turn;
pub mod wording;
pub mod worker;

verus! {

} // verus!
