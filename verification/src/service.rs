//! The document service: its query request, where it keeps each
//! document's index, how it counts a document's sections, and the agent
//! settings and actions.

use vstd::prelude::*;
use crate::markdown::count_nodes_recursive;
use crate::node::{PageNode, tree_size};
use crate::storage::{join_path, path_join};
use crate::text::{extend_str, str_chars, string_from};

verus! {

/// Query request of the service.
pub struct QueryRequest {
    /// Query text.
    pub query: String,
    /// Maximum number of results, if limited.
    pub max_results: Option<usize>,
}

/// Store of index files, one per document, in a base directory.
pub struct IndexStore {
    /// Directory of the index files.
    pub base_dir: String,
}

/// The index file of document `id` under `base`: `<base>/<id>.json`.
pub open spec fn index_file(base: Seq<char>, id: Seq<char>) -> Seq<char> {
    path_join(base, id + ".json"@)
}

impl IndexStore {
    /// A store in `base_dir`.
    pub fn new(base_dir: &str) -> (r: IndexStore)
        ensures
            r.base_dir@ == base_dir@,
    {
        IndexStore { base_dir: string_from(&str_chars(base_dir)) }
    }

    /// The index file of the document whose identifier is written `id` (see
    /// [`index_file`]).
    pub fn get_index_path(&self, id: &str) -> (r: String)
        ensures
            r@ == index_file(self.base_dir@, id@),
    {
        let mut name: Vec<char> = Vec::new();
        extend_str(&mut name, id);
        extend_str(&mut name, ".json");
        let n = string_from(&name);
        join_path(self.base_dir.as_str(), n.as_str())
    }
}

/// Number of sections of a document tree: its nodes, the root included.
pub fn count_sections(root: &PageNode) -> (r: usize)
    requires
        tree_size(*root) <= usize::MAX,
    ensures
        r == tree_size(*root),
{
    count_nodes_recursive(root)
}

/// Settings of an agent.
pub struct AgentConfig {
    /// Most reasoning steps (default 10).
    pub max_iterations: usize,
    /// Whether to report each step (default off).
    pub verbose: bool,
}

impl Default for AgentConfig {
    fn default() -> (r: AgentConfig)
        ensures
            r.max_iterations == 10,
            !r.verbose,
    {
        AgentConfig { max_iterations: 10, verbose: false }
    }
}

/// A step an agent took.
pub enum AgentAction {
    /// An observation.
    Thought(String),
    /// A tool call with its input and output.
    ToolUse { tool: String, input: String, output: String },
    /// The final answer.
    Answer(String),
}

/// Errors of an agent.
pub enum AgentError {
    /// The model call failed.
    Llm(String),
    /// The step limit was reached.
    MaxIterationsReached,
    /// A tool failed.
    Tool(String),
    /// The model's reply could not be used.
    InvalidResponse(String),
}

/// The message of an agent error.
pub open spec fn agent_error_message(e: AgentError) -> Seq<char> {
    match e {
        AgentError::Llm(m) => "LLM error: "@ + m@,
        AgentError::MaxIterationsReached => "Max iterations reached"@,
        AgentError::Tool(m) => "Tool error: "@ + m@,
        AgentError::InvalidResponse(m) => "Invalid response: "@ + m@,
    }
}

impl AgentError {
    /// The error message.
    pub fn message(&self) -> (r: String)
        ensures
            r@ == agent_error_message(*self),
    {
        let mut m: Vec<char> = Vec::new();
        match self {
            AgentError::Llm(x) => {
                extend_str(&mut m, "LLM error: ");
                extend_str(&mut m, x.as_str());
            },
            AgentError::MaxIterationsReached => extend_str(&mut m, "Max iterations reached"),
            AgentError::Tool(x) => {
                extend_str(&mut m, "Tool error: ");
                extend_str(&mut m, x.as_str());
            },
            AgentError::InvalidResponse(x) => {
                extend_str(&mut m, "Invalid response: ");
                extend_str(&mut m, x.as_str());
            },
        }
        assert(m@ =~= agent_error_message(*self));
        string_from(&m)
    }
}

} // verus!
