//! Indexer configuration.

use vstd::prelude::*;
use crate::text::{str_chars, string_from};

verus! {

/// Configuration of document indexing.
pub struct IndexerConfig {
    /// Word count above which a section is split into subsections
    /// (default 300).
    pub subsection_threshold: usize,
    /// Maximum tokens of one segmentation request (default 3000).
    pub max_segment_tokens: usize,
    /// Model used for summaries (default `"gpt-4-mini"`).
    pub summary_model: String,
    /// Maximum tokens of a summary (default 150).
    pub max_summary_tokens: u32,
    /// Maximum content tokens of a leaf (default 1500).
    pub max_content_tokens: u32,
}

/// Whether `c` is the default configuration.
pub open spec fn is_default_indexer_config(c: IndexerConfig) -> bool {
    &&& c.subsection_threshold == 300
    &&& c.max_segment_tokens == 3000
    &&& c.summary_model@ == "gpt-4-mini"@
    &&& c.max_summary_tokens == 150
    &&& c.max_content_tokens == 1500
}

impl Default for IndexerConfig {
    fn default() -> (r: IndexerConfig)
        ensures
            is_default_indexer_config(r),
    {
        IndexerConfig {
            subsection_threshold: 300,
            max_segment_tokens: 3000,
            summary_model: string_from(&str_chars("gpt-4-mini")),
            max_summary_tokens: 150,
            max_content_tokens: 1500,
        }
    }
}

impl IndexerConfig {
    /// A builder that starts from the default configuration.
    pub fn builder() -> (r: IndexerConfigBuilder)
        ensures
            is_default_indexer_config(r.config),
    {
        IndexerConfigBuilder { config: IndexerConfig::default() }
    }
}

/// Builder of [`IndexerConfig`].
pub struct IndexerConfigBuilder {
    /// The configuration built so far.
    pub config: IndexerConfig,
}

impl Default for IndexerConfigBuilder {
    fn default() -> (r: IndexerConfigBuilder)
        ensures
            is_default_indexer_config(r.config),
    {
        IndexerConfig::builder()
    }
}

impl IndexerConfigBuilder {
    /// Sets the subsection threshold.
    pub fn subsection_threshold(self, value: usize) -> (r: IndexerConfigBuilder)
        ensures
            r.config == (IndexerConfig { subsection_threshold: value, ..self.config }),
    {
        let mut b = self;
        b.config.subsection_threshold = value;
        b
    }

    /// Sets the maximum tokens of a segmentation request.
    pub fn max_segment_tokens(self, value: usize) -> (r: IndexerConfigBuilder)
        ensures
            r.config == (IndexerConfig { max_segment_tokens: value, ..self.config }),
    {
        let mut b = self;
        b.config.max_segment_tokens = value;
        b
    }

    /// Sets the summary model.
    pub fn summary_model(self, value: &str) -> (r: IndexerConfigBuilder)
        ensures
            r.config.summary_model@ == value@,
            r.config.subsection_threshold == self.config.subsection_threshold,
            r.config.max_segment_tokens == self.config.max_segment_tokens,
            r.config.max_summary_tokens == self.config.max_summary_tokens,
            r.config.max_content_tokens == self.config.max_content_tokens,
    {
        let mut b = self;
        b.config.summary_model = string_from(&str_chars(value));
        b
    }

    /// Sets the maximum tokens of a summary.
    pub fn max_summary_tokens(self, value: u32) -> (r: IndexerConfigBuilder)
        ensures
            r.config == (IndexerConfig { max_summary_tokens: value, ..self.config }),
    {
        let mut b = self;
        b.config.max_summary_tokens = value;
        b
    }

    /// Sets the maximum content tokens of a leaf.
    pub fn max_content_tokens(self, value: u32) -> (r: IndexerConfigBuilder)
        ensures
            r.config == (IndexerConfig { max_content_tokens: value, ..self.config }),
    {
        let mut b = self;
        b.config.max_content_tokens = value;
        b
    }

    /// The configuration.
    pub fn build(self) -> (r: IndexerConfig)
        ensures
            r == self.config,
    {
        self.config
    }
}

} // verus!
