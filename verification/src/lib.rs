//! The rules of a local tool server: what it answers, what it keeps and what it lets go.
use vstd::prelude::*;

pub mod activity;
pub mod answers;
pub mod cli;
pub mod command_answers;
pub mod command_logs;
pub mod command_output;
pub mod command_result;
pub mod config;
pub mod diff;
pub mod encoding;
pub mod files;
pub mod heartbeat;
pub mod image_viewer;
pub mod images;
pub mod job_id;
pub mod job_journal;
pub mod jobs;
pub mod journal_store;
pub mod json;
pub mod json_size;
pub mod kept_outcomes;
pub mod launch;
pub mod lines;
pub mod order;
pub mod paths;
pub mod permissions;
pub mod requests;
pub mod sandbox;
pub mod snapshots;
pub mod storage;
pub mod stored_records;
pub mod supervision;
pub mod text;
pub mod tool_args;
pub mod tools;
pub mod workflow;
pub mod workflow_journal;

verus! {

} // verus!
