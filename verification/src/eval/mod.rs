//! Evaluation of search against expected results.
use vstd::prelude::*;

pub mod metrics;
pub mod output;
pub mod runner;

verus! {

/// How many results a case looks at where it does not say.
pub const DEFAULT_TOP_K: usize = 5;

/// A query and what it should find.
#[derive(Debug)]
pub struct EvalCase {
    pub query: String,
    pub expected_files: Vec<String>,
    /// Names that should be among the returned symbols; empty for no grading of
    /// symbols.
    pub expected_symbols: Vec<String>,
    pub top_k: usize,
    pub label: Option<String>,
    pub tags: Vec<String>,
}

/// What a [`EvalCase`] holds.
#[verifier::ext_equal]
pub struct EvalCaseView {
    pub query: Seq<char>,
    pub expected_files: Seq<Seq<char>>,
    pub expected_symbols: Seq<Seq<char>>,
    pub top_k: usize,
    pub label: Option<Seq<char>>,
    pub tags: Seq<Seq<char>>,
}

impl DeepView for EvalCase {
    type V = EvalCaseView;

    open spec fn deep_view(&self) -> EvalCaseView {
        EvalCaseView {
            query: self.query@,
            expected_files: self.expected_files.deep_view(),
            expected_symbols: self.expected_symbols.deep_view(),
            top_k: self.top_k,
            label: self.label.deep_view(),
            tags: self.tags.deep_view(),
        }
    }
}

impl Clone for EvalCase {
    fn clone(&self) -> (r: Self)
        ensures
            r.deep_view() == self.deep_view(),
    {
        EvalCase {
            query: self.query.clone(),
            expected_files: self.expected_files.clone(),
            expected_symbols: self.expected_symbols.clone(),
            top_k: self.top_k,
            label: self.label.clone(),
            tags: self.tags.clone(),
        }
    }
}

/// A named list of cases.
#[derive(Debug)]
pub struct EvalSuite {
    pub name: String,
    pub description: String,
    pub cases: Vec<EvalCase>,
}

/// What a [`EvalSuite`] holds.
#[verifier::ext_equal]
pub struct EvalSuiteView {
    pub name: Seq<char>,
    pub description: Seq<char>,
    pub cases: Seq<EvalCaseView>,
}

impl DeepView for EvalSuite {
    type V = EvalSuiteView;

    open spec fn deep_view(&self) -> EvalSuiteView {
        EvalSuiteView {
            name: self.name@,
            description: self.description@,
            cases: self.cases.deep_view(),
        }
    }
}

impl Clone for EvalSuite {
    fn clone(&self) -> (r: Self)
        ensures
            r.deep_view() == self.deep_view(),
    {
        EvalSuite {
            name: self.name.clone(),
            description: self.description.clone(),
            cases: self.cases.clone(),
        }
    }
}

/// How many results a case looks at where it does not say.
pub fn default_top_k() -> (r: usize)
    ensures
        r == 5,
{
    DEFAULT_TOP_K
}

} // verus!
