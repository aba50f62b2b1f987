//! Writing rules for agent prose.
//!
//! The library enforces ASD-STE100 Simplified Technical English rules on
//! prose, on the comments of source code and on git commit messages. It
//! extracts the prose of a text, segments it into sentences and paragraphs,
//! runs the rules, and reports what they find. On top of that it decides
//! what a harness hook does with pending tool calls, prompts and replies.

pub mod blocks;
pub mod comments;
pub mod commit;
pub mod dictionaries;
pub mod diff;
pub mod edits;
pub mod engine;
pub mod feedback;
pub mod findings;
pub mod foreign;
pub mod groups;
pub mod hook;
pub mod invocations;
pub mod laws;
pub mod lines;
pub mod lists;
pub mod marks;
pub mod notices;
pub mod prose;
pub mod reply;
pub mod reports;
pub mod rules;
pub mod segments;
pub mod sentences;
pub mod status;
pub mod text;
pub mod types;
pub mod verdicts;
pub mod vocabulary;
pub mod words;

pub use crate::engine::lint;
