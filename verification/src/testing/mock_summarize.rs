//! A summarizer whose summaries follow from what it is given.
use vstd::prelude::*;

use crate::summarize::{FileSummaryInput, FileSummaryInputView, SymbolSummaryInput,
    SymbolSummaryInputView};
use crate::text::{decimal, show_usize};

verus! {

/// A summarizer whose summaries follow from what it is given.
#[derive(Clone, Copy, Debug)]
pub struct MockSummarizer;

/// The summary of a file.
pub open spec fn file_summary_of(input: FileSummaryInputView) -> Seq<char> {
    "File summary of "@ + input.file_path + " ("@ + input.language + " file with "@ + decimal(
        input.imports.len(),
    ) + " imports)."@
}

/// The summary of a symbol.
pub open spec fn symbol_summary_of(input: SymbolSummaryInputView) -> Seq<char> {
    input.symbol_kind + " "@ + input.symbol_name + " in "@ + input.file_path + " — part of: "@
        + input.file_summary
}

impl Default for MockSummarizer {
    fn default() -> (r: MockSummarizer)
        ensures
            r == MockSummarizer,
    {
        MockSummarizer::new()
    }
}

impl MockSummarizer {
    /// The summarizer.
    pub fn new() -> (r: MockSummarizer)
        ensures
            r == MockSummarizer,
    {
        MockSummarizer
    }

    /// Summarizes a file.
    pub fn summarize_file(&self, input: &FileSummaryInput) -> (r: String)
        ensures
            r@ == file_summary_of(input.deep_view()),
    {
        assert(input.imports.deep_view().len() == input.imports@.len());
        let mut s = "File summary of ".to_string();
        s.append(input.file_path.as_str());
        s.append(" (");
        s.append(input.language.as_str());
        s.append(" file with ");
        s.append(show_usize(input.imports.len()).as_str());
        s.append(" imports).");
        s
    }

    /// Summarizes a symbol.
    pub fn summarize_symbol(&self, input: &SymbolSummaryInput) -> (r: String)
        ensures
            r@ == symbol_summary_of(input.deep_view()),
    {
        let mut s = input.symbol_kind.clone();
        s.append(" ");
        s.append(input.symbol_name.as_str());
        s.append(" in ");
        s.append(input.file_path.as_str());
        s.append(" — part of: ");
        s.append(input.file_summary.as_str());
        s
    }

    /// The name of the model.
    pub fn model_name(&self) -> (r: &'static str)
        ensures
            r@ == "mock-summarizer-v1"@,
    {
        "mock-summarizer-v1"
    }
}

} // verus!
