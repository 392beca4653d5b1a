//! Search options: match semantics, output shape, and the full set of knobs
//! one search invocation carries.

use vstd::prelude::*;

verus! {

/// How the query is matched against records.
#[derive(Clone, Copy, PartialEq, Eq, Structural, Debug)]
pub enum MatchMode {
    /// Tokenized full-text search (default).
    Text,
    /// Exact value match. Known simplification: behaves as tokenized text
    /// match, not whole-value equality.
    Exact,
    /// Fuzzy match (edit distance 2).
    Fuzzy,
    /// Regular expression over the flattened text.
    Regex,
}

/// What one returned match looks like.
#[derive(Clone, Copy, PartialEq, Eq, Structural, Debug)]
pub enum OutputMode {
    /// Matched JSON objects (default).
    Match,
    /// Matched objects with file path, JSON pointer and score.
    Hit,
    /// Just the matched objects' scalar values.
    Value,
}

/// The options of one search invocation.
#[derive(Debug)]
pub struct SearchArgs {
    /// Search query string.
    pub query: String,
    /// Search in specific field(s); empty means all values.
    pub field: Vec<String>,
    /// Search across all values (default if no field is given).
    pub all: bool,
    /// Match mode.
    pub match_mode: MatchMode,
    /// Output mode.
    pub output: OutputMode,
    /// Max results to return.
    pub limit: usize,
    /// Skip the first N results.
    pub offset: usize,
    /// Only return the count, no results.
    pub count_only: bool,
    /// Project specific fields in the output (comma-separated).
    pub select: Option<String>,
    /// Output a bare JSON array instead of an envelope.
    pub bare: bool,
    /// Max output bytes (results truncated to fit).
    pub max_bytes: Option<usize>,
    /// Overflow threshold: beyond it a plan replaces the results.
    pub threshold: usize,
    /// Force plan mode.
    pub plan: bool,
    /// Bypass overflow protection: always return results.
    pub no_overflow: bool,
    /// JSON Schema file for structure awareness.
    pub schema: Option<String>,
    /// Input: file path, directory, glob, or `-` for standard input.
    pub input: String,
}

} // verus!
