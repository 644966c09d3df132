//! Path patterns: compiling a list of globs and matching paths against it.
use vstd::prelude::*;

verus! {

/// A compiled set of globs.
#[verifier::external_type_specification]
#[verifier::external_body]
pub struct ExGlobSet(globset::GlobSet);

/// A set of globs being built.
#[verifier::external_type_specification]
#[verifier::external_body]
pub struct ExGlobSetBuilder(globset::GlobSetBuilder);

/// The patterns of a compiled set, in the order they were added, each with
/// whether it ignores case.
pub uninterp spec fn globs_of(set: globset::GlobSet) -> Seq<(Seq<char>, bool)>;

/// The patterns added so far to a set being built, each with whether it ignores
/// case.
pub uninterp spec fn builder_globs(builder: globset::GlobSetBuilder) -> Seq<(Seq<char>, bool)>;

/// What is wrong with a pattern, where something is, on systems where `/` alone
/// separates the parts of a path.
pub uninterp spec fn glob_error(pattern: Seq<char>, ignore_case: bool) -> Option<Seq<char>>;

/// Why a list of valid patterns cannot be compiled together, where it cannot.
pub uninterp spec fn glob_set_error(patterns: Seq<(Seq<char>, bool)>) -> Option<Seq<char>>;

/// Whether a path matches a pattern, on systems where `/` alone separates the
/// parts of a path.
pub uninterp spec fn glob_matches(pattern: Seq<char>, ignore_case: bool, path: Seq<char>) -> bool;

/// Whether a path matches one of the patterns.
pub open spec fn any_glob_matches(patterns: Seq<(Seq<char>, bool)>, path: Seq<char>) -> bool {
    exists|i: int|
        0 <= i < patterns.len() && #[trigger] glob_matches(patterns[i].0, patterns[i].1, path)
}

/// Patterns, all of them regardless of case.
pub open spec fn ignoring_case(patterns: Seq<Seq<char>>) -> Seq<(Seq<char>, bool)> {
    patterns.map_values(|p: Seq<char>| (p, true))
}

/// `GlobSetBuilder::new`: a builder without patterns.
#[verifier::external_body]
fn new_builder() -> (r: globset::GlobSetBuilder)
    ensures
        builder_globs(r) == Seq::<(Seq<char>, bool)>::empty(),
{
    globset::GlobSetBuilder::new()
}

/// `GlobBuilder::build` with `case_insensitive` as given (without it,
/// `Glob::new`), then `GlobSetBuilder::add`: a valid pattern is added behind
/// the others; of an invalid one the error is returned and the builder stays as
/// it is. Which patterns are valid, and the words of the error, are functions
/// of the pattern and the flag alone on systems whose path separator is `/`.
#[verifier::external_body]
fn add_glob(builder: &mut globset::GlobSetBuilder, pattern: &str, ignore_case: bool) -> (r: Result<
    (),
    String,
>)
    ensures
        match r {
            Ok(_) => glob_error(pattern@, ignore_case) is None && builder_globs(*final(builder))
                == builder_globs(*old(builder)).push((pattern@, ignore_case)),
            Err(e) => glob_error(pattern@, ignore_case) == Some(e@) && *final(builder) == *old(
                builder,
            ),
        },
{
    let glob = globset::GlobBuilder::new(pattern).case_insensitive(ignore_case).build();
    match glob {
        Ok(g) => {
            builder.add(g);
            Ok(())
        },
        Err(e) => Err(e.to_string()),
    }
}

/// `GlobSetBuilder::build`: the set of the patterns added, or the error.
#[verifier::external_body]
fn build_set(builder: &globset::GlobSetBuilder) -> (r: Result<globset::GlobSet, String>)
    ensures
        match r {
            Ok(set) => glob_set_error(builder_globs(*builder)) is None && globs_of(set)
                == builder_globs(*builder),
            Err(e) => glob_set_error(builder_globs(*builder)) == Some(e@),
        },
{
    builder.build().map_err(|e| e.to_string())
}

/// `GlobSet::is_match`: whether any glob of the set matches the path.
#[verifier::external_body]
pub(crate) fn set_matches(set: &globset::GlobSet, path: &str) -> (r: bool)
    ensures
        r == (exists|i: int|
            0 <= i < globs_of(*set).len() && #[trigger] glob_matches(
                globs_of(*set)[i].0,
                globs_of(*set)[i].1,
                path@,
            )),
{
    set.is_match(path)
}

/// Why a list of patterns does not compile.
#[derive(Debug)]
pub enum GlobFailure {
    /// The pattern at this position is invalid.
    Pattern { index: usize, cause: String },
    /// The patterns are valid, but not as one set.
    Together { cause: String },
}

/// What a [`GlobFailure`] holds.
#[verifier::ext_equal]
pub enum GlobFailureView {
    Pattern { index: int, cause: Seq<char> },
    Together { cause: Seq<char> },
}

impl DeepView for GlobFailure {
    type V = GlobFailureView;

    open spec fn deep_view(&self) -> GlobFailureView {
        match self {
            GlobFailure::Pattern { index, cause } => GlobFailureView::Pattern {
                index: *index as int,
                cause: cause@,
            },
            GlobFailure::Together { cause } => GlobFailureView::Together { cause: cause@ },
        }
    }
}

/// The first position from `i` on whose pattern is invalid.
pub open spec fn first_bad_glob(patterns: Seq<Seq<char>>, i: int) -> Option<int>
    decreases patterns.len() - i,
{
    if i < 0 || i >= patterns.len() {
        None
    } else if glob_error(patterns[i], true) is Some {
        Some(i)
    } else {
        first_bad_glob(patterns, i + 1)
    }
}

/// Why a list of patterns does not compile, if it does not: the first invalid
/// pattern, or else what is wrong with them together.
pub open spec fn globs_failure(patterns: Seq<Seq<char>>) -> Option<GlobFailureView> {
    match first_bad_glob(patterns, 0) {
        Some(i) => Some(
            GlobFailureView::Pattern { index: i, cause: glob_error(patterns[i], true)->0 },
        ),
        None => match glob_set_error(ignoring_case(patterns)) {
            Some(cause) => Some(GlobFailureView::Together { cause }),
            None => None,
        },
    }
}

/// Compiles a list of path patterns. Matching is case-insensitive: a pattern
/// on `src/**` also covers `Src/`.
pub fn compile_globs(patterns: &Vec<String>) -> (r: Result<globset::GlobSet, GlobFailure>)
    ensures
        match r {
            Ok(set) => globs_failure(patterns.deep_view()) is None && globs_of(set)
                == ignoring_case(patterns.deep_view()),
            Err(e) => globs_failure(patterns.deep_view()) == Some(e.deep_view()) && (
            e matches GlobFailure::Pattern { index, .. } ==> index < patterns@.len()),
        },
{
    let ghost ps = patterns.deep_view();
    let ghost want = ignoring_case(ps);
    let mut builder = new_builder();
    let mut i: usize = 0;
    while i < patterns.len()
        invariant
            i <= patterns@.len(),
            ps == patterns.deep_view(),
            builder_globs(builder) == want.take(i as int),
            want == ignoring_case(ps),
            first_bad_glob(ps, 0) == first_bad_glob(ps, i as int),
        decreases patterns@.len() - i,
    {
        assert(ps[i as int] == patterns@[i as int]@);
        match add_glob(&mut builder, patterns[i].as_str(), true) {
            Ok(_) => {},
            Err(cause) => {
                return Err(GlobFailure::Pattern { index: i, cause });
            },
        }
        assert(want.take(i + 1) =~= want.take(i as int).push(want[i as int]));
        i += 1;
    }
    assert(want.take(i as int) =~= want);
    match build_set(&builder) {
        Ok(set) => Ok(set),
        Err(cause) => Err(GlobFailure::Together { cause }),
    }
}

/// Compiles one path pattern, which minds case.
pub fn compile_glob(pattern: &str) -> (r: Result<globset::GlobSet, String>)
    ensures
        match r {
            Ok(set) => glob_failure(pattern@) is None && globs_of(set) == seq![(pattern@, false)],
            Err(e) => glob_failure(pattern@) == Some(e@),
        },
{
    let mut builder = new_builder();
    match add_glob(&mut builder, pattern, false) {
        Ok(_) => {},
        Err(e) => {
            return Err(e);
        },
    }
    assert(builder_globs(builder) =~= seq![(pattern@, false)]);
    build_set(&builder)
}

/// Why one pattern that minds case does not compile, if it does not.
pub open spec fn glob_failure(pattern: Seq<char>) -> Option<Seq<char>> {
    match glob_error(pattern, false) {
        Some(e) => Some(e),
        None => glob_set_error(seq![(pattern, false)]),
    }
}

/// The failure of a list of patterns is that of the first which does not compile;
/// only where each does may they fail together.
pub proof fn law_the_first_bad_pattern_is_told(patterns: Seq<Seq<char>>)
    ensures
        match globs_failure(patterns) {
            Some(GlobFailureView::Pattern { index, cause }) => {
                &&& 0 <= index < patterns.len()
                &&& glob_error(patterns[index], true) == Some(cause)
                &&& forall|j: int|
                    0 <= j < index ==> glob_error(#[trigger] patterns[j], true) is None
            },
            _ => forall|j: int|
                0 <= j < patterns.len() ==> glob_error(#[trigger] patterns[j], true) is None,
        },
{
    lemma_first_bad_glob(patterns, 0);
}

proof fn lemma_first_bad_glob(patterns: Seq<Seq<char>>, i: int)
    requires
        0 <= i <= patterns.len(),
    ensures
        match first_bad_glob(patterns, i) {
            Some(k) => i <= k < patterns.len() && glob_error(patterns[k], true) is Some && forall|
                j: int,
            |
                i <= j < k ==> glob_error(#[trigger] patterns[j], true) is None,
            None => forall|j: int|
                i <= j < patterns.len() ==> glob_error(#[trigger] patterns[j], true) is None,
        },
    decreases patterns.len() - i,
{
    if i < patterns.len() && glob_error(patterns[i], true) is None {
        lemma_first_bad_glob(patterns, i + 1);
    }
}

/// A list of patterns matches what any of them matches: more patterns match no less,
/// and none match nothing.
pub proof fn law_any_pattern_matches(
    a: Seq<(Seq<char>, bool)>,
    b: Seq<(Seq<char>, bool)>,
    path: Seq<char>,
)
    ensures
        any_glob_matches(a + b, path) <==> any_glob_matches(a, path) || any_glob_matches(b, path),
        !any_glob_matches(Seq::empty(), path),
        a.len() == 1 ==> any_glob_matches(a, path) == glob_matches(a[0].0, a[0].1, path),
{
    let all = a + b;
    if any_glob_matches(a, path) {
        let i = choose|i: int|
            0 <= i < a.len() && #[trigger] glob_matches(a[i].0, a[i].1, path);
        assert(all[i] == a[i]);
        assert(glob_matches(all[i].0, all[i].1, path));
    }
    if any_glob_matches(b, path) {
        let i = choose|i: int|
            0 <= i < b.len() && #[trigger] glob_matches(b[i].0, b[i].1, path);
        assert(all[a.len() + i] == b[i]);
        assert(glob_matches(all[a.len() + i].0, all[a.len() + i].1, path));
    }
    if any_glob_matches(all, path) {
        let i = choose|i: int|
            0 <= i < all.len() && #[trigger] glob_matches(all[i].0, all[i].1, path);
        if i < a.len() {
            assert(glob_matches(a[i].0, a[i].1, path));
        } else {
            assert(glob_matches(b[i - a.len()].0, b[i - a.len()].1, path));
        }
    }
    if a.len() == 1 && glob_matches(a[0].0, a[0].1, path) {
        assert(any_glob_matches(a, path));
    }
}

} // verus!
