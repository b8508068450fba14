//! The command line: the arguments of each command, and the indexer
//! configuration that the indexing and serving commands build from theirs.

use vstd::prelude::*;
use crate::config::IndexerConfig;

verus! {

/// Arguments of the `agent` command.
pub struct AgentArgs {
    /// Task description.
    pub task: String,
    /// API key of the model.
    pub api_key: String,
    /// Model endpoint.
    pub endpoint: String,
    /// Model name.
    pub model: String,
    /// Most reasoning steps.
    pub max_iterations: usize,
    /// Whether to report each step.
    pub verbose: bool,
}

/// Subcommands of the `docs` command.
pub enum DocsCommands {
    /// List all documents.
    List,
    /// Show one document.
    Show { id: String },
    /// Delete one document.
    Delete { id: String },
}

/// Arguments of the `docs` command.
pub struct DocsArgs {
    /// The subcommand.
    pub command: DocsCommands,
}

/// Arguments of the `index` command.
pub struct IndexArgs {
    /// The document to index.
    pub file: String,
    /// Where the index is written.
    pub output: String,
    /// API key of the model.
    pub api_key: String,
    /// Model endpoint.
    pub endpoint: String,
    /// Model name.
    pub model: String,
    /// Word count above which a section is split again.
    pub subsection_threshold: usize,
    /// Maximum tokens of one segmentation request.
    pub max_segment_tokens: usize,
    /// Maximum tokens of a summary.
    pub max_summary_tokens: u32,
}

/// Arguments of the `query` command.
pub struct QueryArgs {
    /// The index file.
    pub index: String,
    /// The question.
    pub query: String,
    /// API key of the model.
    pub api_key: String,
    /// Model endpoint.
    pub endpoint: String,
    /// Model name.
    pub model: String,
}

/// Arguments of the `serve` command.
pub struct ServeArgs {
    /// Host to bind to.
    pub host: String,
    /// Port to bind to.
    pub port: u16,
    /// Data directory.
    pub data_dir: String,
    /// Index directory.
    pub index_dir: String,
    /// API key of the model.
    pub api_key: String,
    /// Model endpoint.
    pub endpoint: String,
    /// Model name.
    pub model: String,
    /// Word count above which a section is split again.
    pub subsection_threshold: usize,
    /// Maximum tokens of one segmentation request.
    pub max_segment_tokens: usize,
    /// Maximum tokens of a summary.
    pub max_summary_tokens: u32,
}

/// Whether `c` is the indexer configuration of the given settings: the
/// default one with the threshold, segment limit, model and summary limit
/// replaced.
pub open spec fn is_indexer_config_of(
    c: IndexerConfig,
    threshold: usize,
    segment: usize,
    model: Seq<char>,
    summary: u32,
) -> bool {
    &&& c.subsection_threshold == threshold
    &&& c.max_segment_tokens == segment
    &&& c.summary_model@ == model
    &&& c.max_summary_tokens == summary
    &&& c.max_content_tokens == 1500
}

/// The indexer configuration of the given settings.
fn indexer_config_of(threshold: usize, segment: usize, model: &str, summary: u32) -> (r: IndexerConfig)
    ensures
        is_indexer_config_of(r, threshold, segment, model@, summary),
{
    IndexerConfig::builder().subsection_threshold(threshold).max_segment_tokens(segment).summary_model(
        model,
    ).max_summary_tokens(summary).build()
}

impl IndexArgs {
    /// The indexer configuration of these arguments.
    pub fn indexer_config(&self) -> (r: IndexerConfig)
        ensures
            is_indexer_config_of(
                r,
                self.subsection_threshold,
                self.max_segment_tokens,
                self.model@,
                self.max_summary_tokens,
            ),
    {
        indexer_config_of(
            self.subsection_threshold,
            self.max_segment_tokens,
            self.model.as_str(),
            self.max_summary_tokens,
        )
    }
}

impl ServeArgs {
    /// The indexer configuration of these arguments.
    pub fn indexer_config(&self) -> (r: IndexerConfig)
        ensures
            is_indexer_config_of(
                r,
                self.subsection_threshold,
                self.max_segment_tokens,
                self.model@,
                self.max_summary_tokens,
            ),
    {
        indexer_config_of(
            self.subsection_threshold,
            self.max_segment_tokens,
            self.model.as_str(),
            self.max_summary_tokens,
        )
    }
}

} // verus!
