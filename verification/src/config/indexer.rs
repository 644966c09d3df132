//! Indexer configuration.
use vstd::prelude::*;

use crate::config::{
    chosen_count, chosen_number, chosen_text, count_source, number_source, resolve_count,
    resolve_number, resolve_text, text_source, Env, EnvView, FileConfig, FileConfigView,
    FileIndexerConfig, FileIndexerConfigView, Source, SourceView,
};
use crate::number::Real;

verus! {

/// The indexer settings, resolved.
#[derive(Debug)]
pub struct IndexerConfig {
    /// The namespace to use in place of the remote's; empty for the remote's.
    pub namespace: String,
    pub default_branch: String,
    /// The git remote whose URL gives the namespace.
    pub git_remote: String,
    pub concurrency: usize,
    pub max_cost: Real,
    pub hwm_success_threshold: Real,
}

/// What a [`IndexerConfig`] holds.
#[verifier::ext_equal]
pub struct IndexerConfigView {
    pub namespace: Seq<char>,
    pub default_branch: Seq<char>,
    pub git_remote: Seq<char>,
    pub concurrency: usize,
    pub max_cost: Real,
    pub hwm_success_threshold: Real,
}

impl DeepView for IndexerConfig {
    type V = IndexerConfigView;

    open spec fn deep_view(&self) -> IndexerConfigView {
        IndexerConfigView {
            namespace: self.namespace@,
            default_branch: self.default_branch@,
            git_remote: self.git_remote@,
            concurrency: self.concurrency,
            max_cost: self.max_cost,
            hwm_success_threshold: self.hwm_success_threshold,
        }
    }
}

impl Clone for IndexerConfig {
    fn clone(&self) -> (r: Self)
        ensures
            r.deep_view() == self.deep_view(),
    {
        IndexerConfig {
            namespace: self.namespace.clone(),
            default_branch: self.default_branch.clone(),
            git_remote: self.git_remote.clone(),
            concurrency: self.concurrency,
            max_cost: self.max_cost,
            hwm_success_threshold: self.hwm_success_threshold,
        }
    }
}

/// Where its values came from.
#[derive(Debug)]
pub struct IndexerSources {
    pub namespace: Source,
    pub default_branch: Source,
    pub git_remote: Source,
    pub concurrency: Source,
    pub max_cost: Source,
    pub hwm_success_threshold: Source,
}

/// What a [`IndexerSources`] holds.
#[verifier::ext_equal]
pub struct IndexerSourcesView {
    pub namespace: SourceView,
    pub default_branch: SourceView,
    pub git_remote: SourceView,
    pub concurrency: SourceView,
    pub max_cost: SourceView,
    pub hwm_success_threshold: SourceView,
}

impl DeepView for IndexerSources {
    type V = IndexerSourcesView;

    open spec fn deep_view(&self) -> IndexerSourcesView {
        IndexerSourcesView {
            namespace: self.namespace.deep_view(),
            default_branch: self.default_branch.deep_view(),
            git_remote: self.git_remote.deep_view(),
            concurrency: self.concurrency.deep_view(),
            max_cost: self.max_cost.deep_view(),
            hwm_success_threshold: self.hwm_success_threshold.deep_view(),
        }
    }
}

impl Clone for IndexerSources {
    fn clone(&self) -> (r: Self)
        ensures
            r.deep_view() == self.deep_view(),
    {
        IndexerSources {
            namespace: self.namespace.clone(),
            default_branch: self.default_branch.clone(),
            git_remote: self.git_remote.clone(),
            concurrency: self.concurrency.clone(),
            max_cost: self.max_cost.clone(),
            hwm_success_threshold: self.hwm_success_threshold.clone(),
        }
    }
}

/// The file's `indexer` block.
pub open spec fn file_indexer(file: Option<FileConfigView>) -> Option<FileIndexerConfigView> {
    match file {
        Some(f) => f.indexer,
        None => None,
    }
}

/// What the file says of `namespace`.
pub open spec fn file_namespace(file: Option<FileConfigView>) -> Option<Seq<char>> {
    match file_indexer(file) {
        Some(b) => b.namespace,
        None => None,
    }
}

/// What the file says of `default_branch`.
pub open spec fn file_default_branch(file: Option<FileConfigView>) -> Option<Seq<char>> {
    match file_indexer(file) {
        Some(b) => b.default_branch,
        None => None,
    }
}

/// What the file says of `git_remote`.
pub open spec fn file_git_remote(file: Option<FileConfigView>) -> Option<Seq<char>> {
    match file_indexer(file) {
        Some(b) => b.git_remote,
        None => None,
    }
}

/// What the file says of `concurrency`.
pub open spec fn file_concurrency(file: Option<FileConfigView>) -> Option<usize> {
    match file_indexer(file) {
        Some(b) => b.concurrency,
        None => None,
    }
}

/// What the file says of `max_cost`.
pub open spec fn file_max_cost(file: Option<FileConfigView>) -> Option<Real> {
    match file_indexer(file) {
        Some(b) => b.max_cost,
        None => None,
    }
}

/// What the file says of `hwm_success_threshold`.
pub open spec fn file_hwm_success_threshold(file: Option<FileConfigView>) -> Option<Real> {
    match file_indexer(file) {
        Some(b) => b.hwm_success_threshold,
        None => None,
    }
}

/// The bit pattern of 50.0.
pub const FIFTY: u64 = 0x4049_0000_0000_0000;

/// The bit pattern of 0.95.
pub const NINETEEN_TWENTIETHS: u64 = 0x3fee_6666_6666_6666;

/// The values of a file and an environment.
pub open spec fn indexer_of(file: Option<FileConfigView>, env: EnvView) -> IndexerConfigView {
    IndexerConfigView {
        namespace: chosen_text(env.vars, "WDPKR_NAMESPACE"@, file_namespace(file), ""@),
        default_branch: chosen_text(
            env.vars,
            "WDPKR_DEFAULT_BRANCH"@,
            file_default_branch(file),
            "main"@,
        ),
        git_remote: chosen_text(env.vars, "WDPKR_GIT_REMOTE"@, file_git_remote(file), "origin"@),
        concurrency: chosen_count(env.vars, "WDPKR_CONCURRENCY"@, file_concurrency(file), 8),
        max_cost: chosen_number(env.max_cost, file_max_cost(file), Real { bits: FIFTY }),
        hwm_success_threshold: chosen_number(
            env.hwm_success_threshold,
            file_hwm_success_threshold(file),
            Real { bits: NINETEEN_TWENTIETHS },
        ),
    }
}

/// Where they come from.
pub open spec fn indexer_sources_of(
    file: Option<FileConfigView>,
    env: EnvView,
) -> IndexerSourcesView {
    IndexerSourcesView {
        namespace: text_source(env.vars, "WDPKR_NAMESPACE"@, file_namespace(file)),
        default_branch: text_source(env.vars, "WDPKR_DEFAULT_BRANCH"@, file_default_branch(file)),
        git_remote: text_source(env.vars, "WDPKR_GIT_REMOTE"@, file_git_remote(file)),
        concurrency: count_source(env.vars, "WDPKR_CONCURRENCY"@, file_concurrency(file)),
        max_cost: number_source(env.max_cost, "WDPKR_MAX_COST"@, file_max_cost(file)),
        hwm_success_threshold: number_source(
            env.hwm_success_threshold,
            "WDPKR_HWM_SUCCESS_THRESHOLD"@,
            file_hwm_success_threshold(file),
        ),
    }
}

impl IndexerConfig {
    /// The values alone.
    pub fn from_env(file: &Option<FileConfig>, env: &Env) -> (r: IndexerConfig)
        ensures
            r.deep_view() == indexer_of(file.deep_view(), env.deep_view()),
    {
        IndexerConfig::resolve(file, env).0
    }

    /// Resolves every field and remembers its source.
    pub fn resolve(file: &Option<FileConfig>, env: &Env) -> (r: (IndexerConfig, IndexerSources))
        ensures
            r.0.deep_view() == indexer_of(file.deep_view(), env.deep_view()),
            r.1.deep_view() == indexer_sources_of(file.deep_view(), env.deep_view()),
    {
        let block: FileIndexerConfig = match file {
            Some(f) => match &f.indexer {
                Some(b) => b.clone(),
                None => FileIndexerConfig::default(),
            },
            None => FileIndexerConfig::default(),
        };
        assert(block.namespace.deep_view() == file_namespace(file.deep_view()));
        assert(block.default_branch.deep_view() == file_default_branch(file.deep_view()));
        assert(block.git_remote.deep_view() == file_git_remote(file.deep_view()));
        assert(block.concurrency.deep_view() == file_concurrency(file.deep_view()));
        assert(block.max_cost.deep_view() == file_max_cost(file.deep_view()));
        assert(
            block.hwm_success_threshold.deep_view() == file_hwm_success_threshold(file.deep_view())
        );
        let (namespace, namespace_source) = resolve_text(
            env,
            "WDPKR_NAMESPACE",
            &block.namespace,
            "",
        );
        let (default_branch, default_branch_source) = resolve_text(
            env,
            "WDPKR_DEFAULT_BRANCH",
            &block.default_branch,
            "main",
        );
        let (git_remote, git_remote_source) = resolve_text(
            env,
            "WDPKR_GIT_REMOTE",
            &block.git_remote,
            "origin",
        );
        let (concurrency, concurrency_source) = resolve_count(
            env,
            "WDPKR_CONCURRENCY",
            block.concurrency,
            8,
        );
        let (max_cost, max_cost_source) = resolve_number(
            env.max_cost,
            "WDPKR_MAX_COST",
            block.max_cost,
            Real { bits: FIFTY },
        );
        let (hwm_success_threshold, hwm_success_threshold_source) = resolve_number(
            env.hwm_success_threshold,
            "WDPKR_HWM_SUCCESS_THRESHOLD",
            block.hwm_success_threshold,
            Real { bits: NINETEEN_TWENTIETHS },
        );
        (
            IndexerConfig {
                namespace,
                default_branch,
                git_remote,
                concurrency,
                max_cost,
                hwm_success_threshold,
            },
            IndexerSources {
                namespace: namespace_source,
                default_branch: default_branch_source,
                git_remote: git_remote_source,
                concurrency: concurrency_source,
                max_cost: max_cost_source,
                hwm_success_threshold: hwm_success_threshold_source,
            },
        )
    }
}

} // verus!
