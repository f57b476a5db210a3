//! The commands of the command line, as plain values.
use vstd::prelude::*;

verus! {

/// A parsed command line.
#[derive(Debug, Clone)]
pub struct Cli {
    pub memory_dir: Option<String>,
    pub json: bool,
    pub command: Option<Commands>,
}

/// The commands.
#[allow(inconsistent_fields)]
#[derive(Debug, Clone)]
pub enum Commands {
    Init,
    Search { query: String, top_k: usize, lexical_only: bool, semantic_only: bool },
    Remember { query: Option<String> },
    List { path: Option<String>, kind: Option<String>, date: Option<String>, limit: Option<usize> },
    Today { date: Option<String> },
    Keep { text: String, kind: String, date: Option<String>, source: String },
    Which,
    Index { rebuild: bool },
    Watch,
    Capture { kind: String, text: String, date: Option<String>, source: String },
    Context { task: String, date: Option<String> },
    Get { target: GetTarget },
    Assign { target: SetTarget },
    Triage { target: TriageTarget },
    Owner { target: Option<String> },
    Agent { target: Option<String> },
    Codex { resume_only: bool, prompt: Option<String> },
    Gemini { resume_only: bool, prompt: Option<String> },
    Claude { resume_only: bool, prompt: Option<String> },
    Copilot { resume_only: bool, prompt: Option<String> },
    Opencode { resume_only: bool, prompt: Option<String> },
}

/// What `get` reads.
#[allow(inconsistent_fields)]
#[derive(Debug, Clone)]
pub enum GetTarget {
    Owner { target: Option<String> },
    Agent { target: Option<String> },
    Diary { period: Option<String>, limit: Option<usize>, detail: bool, all: bool },
    Acts { period: Option<String>, limit: Option<usize>, detail: bool, all: bool },
    Tasks { period: Option<String>, limit: Option<usize> },
}

/// What `set` writes.
#[allow(inconsistent_fields)]
#[derive(Debug, Clone)]
pub enum SetTarget {
    Diary { text: String, date: Option<String>, time: Option<String> },
    Owner { target: Option<String>, value: Vec<String> },
    Acts { text: Vec<String>, date: Option<String>, source: String },
    Tasks { args: Vec<String> },
    Memory { text: String, filename: String, priority: String },
}

/// What `triage` files.
#[derive(Debug, Clone)]
pub enum TriageTarget {
    Memory { filename: String, priority: String },
}

} // verus!
