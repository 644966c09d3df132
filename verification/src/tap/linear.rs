//! The Linear tap: issues with their comment threads as documents.
//!
//! Each run fetches the newest issues, the complete desired set, and the index
//! is reconciled to mirror exactly that set.
use vstd::prelude::*;

use crate::config::value::{
    bool_value, setting_value, text_value, unsigned_value, Settings, SettingView,
};
use crate::hash::{short_hash, short_hash_of};
use crate::tap::{
    changed_items, law_changed_items, is_unchanged, unchanged, FetchContext, FetchContextView,
    FetchResult, SourceChunk, SourceChunkView, SourceItem, SourceItemView,
};
use crate::text::{
    add_text, has_prefix, has_text, join, joined, lemma_joined_holds, lemma_nine_parts,
    lemma_part_at_end, lemma_part_between, lemma_part_of_part, lemma_part_stays,
    lemma_precedes_irreflexive, lemma_precedes_total, lemma_precedes_transitive, less, occurs,
    occurs_at, precedes, same, starts_with,
};
use crate::textmap::TextMap;

verus! {

/// How many issues are fetched where nothing else is said.
pub const DEFAULT_AMOUNT: usize = 50;

/// How many issues one request asks for at most.
pub const PAGE_SIZE: u32 = 50;

/// URI scheme of an issue's `source_path`.
pub const SOURCE_SCHEME: &'static str = "linear://";

/// The settings of the tap.
#[derive(Debug)]
pub struct LinearTapSettings {
    /// How many of the newest issues to fetch.
    pub amount: usize,
    /// `updatedAt` or `createdAt`; either way the most recent come first.
    pub order_by: String,
    /// Only issues of the team of this key.
    pub team: Option<String>,
    /// Whether comments become part of an issue's document.
    pub include_comments: bool,
    /// Name of the environment variable that holds the API key.
    pub api_key_env: String,
}

/// What a [`LinearTapSettings`] holds.
#[verifier::ext_equal]
pub struct LinearTapSettingsView {
    pub amount: usize,
    pub order_by: Seq<char>,
    pub team: Option<Seq<char>>,
    pub include_comments: bool,
    pub api_key_env: Seq<char>,
}

impl DeepView for LinearTapSettings {
    type V = LinearTapSettingsView;

    open spec fn deep_view(&self) -> LinearTapSettingsView {
        LinearTapSettingsView {
            amount: self.amount,
            order_by: self.order_by@,
            team: self.team.deep_view(),
            include_comments: self.include_comments,
            api_key_env: self.api_key_env@,
        }
    }
}

impl Clone for LinearTapSettings {
    fn clone(&self) -> (r: Self)
        ensures
            r.deep_view() == self.deep_view(),
    {
        LinearTapSettings {
            amount: self.amount,
            order_by: self.order_by.clone(),
            team: self.team.clone(),
            include_comments: self.include_comments,
            api_key_env: self.api_key_env.clone(),
        }
    }
}

/// Something with a name.
#[derive(Debug)]
pub struct Named {
    pub name: Option<String>,
}

/// What a [`Named`] holds.
#[verifier::ext_equal]
pub struct NamedView {
    pub name: Option<Seq<char>>,
}

impl DeepView for Named {
    type V = NamedView;

    open spec fn deep_view(&self) -> NamedView {
        NamedView {
            name: self.name.deep_view(),
        }
    }
}

impl Clone for Named {
    fn clone(&self) -> (r: Self)
        ensures
            r.deep_view() == self.deep_view(),
    {
        Named {
            name: self.name.clone(),
        }
    }
}

/// A user.
#[derive(Debug)]
pub struct Person {
    pub display_name: Option<String>,
    pub name: Option<String>,
}

/// What a [`Person`] holds.
#[verifier::ext_equal]
pub struct PersonView {
    pub display_name: Option<Seq<char>>,
    pub name: Option<Seq<char>>,
}

impl DeepView for Person {
    type V = PersonView;

    open spec fn deep_view(&self) -> PersonView {
        PersonView {
            display_name: self.display_name.deep_view(),
            name: self.name.deep_view(),
        }
    }
}

impl Clone for Person {
    fn clone(&self) -> (r: Self)
        ensures
            r.deep_view() == self.deep_view(),
    {
        Person {
            display_name: self.display_name.clone(),
            name: self.name.clone(),
        }
    }
}

/// A comment on an issue.
#[derive(Debug)]
pub struct Comment {
    pub body: Option<String>,
    pub user: Option<Person>,
}

/// What a [`Comment`] holds.
#[verifier::ext_equal]
pub struct CommentView {
    pub body: Option<Seq<char>>,
    pub user: Option<PersonView>,
}

impl DeepView for Comment {
    type V = CommentView;

    open spec fn deep_view(&self) -> CommentView {
        CommentView {
            body: self.body.deep_view(),
            user: self.user.deep_view(),
        }
    }
}

impl Clone for Comment {
    fn clone(&self) -> (r: Self)
        ensures
            r.deep_view() == self.deep_view(),
    {
        Comment {
            body: self.body.clone(),
            user: self.user.clone(),
        }
    }
}

/// An issue.
#[derive(Debug)]
pub struct Issue {
    pub identifier: String,
    pub title: String,
    pub description: Option<String>,
    pub url: Option<String>,
    pub priority_label: Option<String>,
    pub updated_at: Option<String>,
    pub archived_at: Option<String>,
    pub trashed: Option<bool>,
    pub state: Option<Named>,
    pub assignee: Option<Person>,
    pub team: Option<Named>,
    pub project: Option<Named>,
    pub labels: Option<Vec<Named>>,
    pub comments: Option<Vec<Comment>>,
}

/// What a [`Issue`] holds.
#[verifier::ext_equal]
pub struct IssueView {
    pub identifier: Seq<char>,
    pub title: Seq<char>,
    pub description: Option<Seq<char>>,
    pub url: Option<Seq<char>>,
    pub priority_label: Option<Seq<char>>,
    pub updated_at: Option<Seq<char>>,
    pub archived_at: Option<Seq<char>>,
    pub trashed: Option<bool>,
    pub state: Option<NamedView>,
    pub assignee: Option<PersonView>,
    pub team: Option<NamedView>,
    pub project: Option<NamedView>,
    pub labels: Option<Seq<NamedView>>,
    pub comments: Option<Seq<CommentView>>,
}

impl DeepView for Issue {
    type V = IssueView;

    open spec fn deep_view(&self) -> IssueView {
        IssueView {
            identifier: self.identifier@,
            title: self.title@,
            description: self.description.deep_view(),
            url: self.url.deep_view(),
            priority_label: self.priority_label.deep_view(),
            updated_at: self.updated_at.deep_view(),
            archived_at: self.archived_at.deep_view(),
            trashed: self.trashed.deep_view(),
            state: self.state.deep_view(),
            assignee: self.assignee.deep_view(),
            team: self.team.deep_view(),
            project: self.project.deep_view(),
            labels: self.labels.deep_view(),
            comments: self.comments.deep_view(),
        }
    }
}

impl Clone for Issue {
    fn clone(&self) -> (r: Self)
        ensures
            r.deep_view() == self.deep_view(),
    {
        Issue {
            identifier: self.identifier.clone(),
            title: self.title.clone(),
            description: self.description.clone(),
            url: self.url.clone(),
            priority_label: self.priority_label.clone(),
            updated_at: self.updated_at.clone(),
            archived_at: self.archived_at.clone(),
            trashed: self.trashed,
            state: self.state.clone(),
            assignee: self.assignee.clone(),
            team: self.team.clone(),
            project: self.project.clone(),
            labels: self.labels.clone(),
            comments: self.comments.clone(),
        }
    }
}

/// Whether and where a list goes on.
#[derive(Debug)]
pub struct PageInfo {
    pub has_next_page: bool,
    pub end_cursor: Option<String>,
}

/// What a [`PageInfo`] holds.
#[verifier::ext_equal]
pub struct PageInfoView {
    pub has_next_page: bool,
    pub end_cursor: Option<Seq<char>>,
}

impl DeepView for PageInfo {
    type V = PageInfoView;

    open spec fn deep_view(&self) -> PageInfoView {
        PageInfoView {
            has_next_page: self.has_next_page,
            end_cursor: self.end_cursor.deep_view(),
        }
    }
}

impl Clone for PageInfo {
    fn clone(&self) -> (r: Self)
        ensures
            r.deep_view() == self.deep_view(),
    {
        PageInfo {
            has_next_page: self.has_next_page,
            end_cursor: self.end_cursor.clone(),
        }
    }
}

/// One page of issues.
#[derive(Debug)]
pub struct IssueConnection {
    pub nodes: Vec<Issue>,
    pub page_info: PageInfo,
}

/// What a [`IssueConnection`] holds.
#[verifier::ext_equal]
pub struct IssueConnectionView {
    pub nodes: Seq<IssueView>,
    pub page_info: PageInfoView,
}

impl DeepView for IssueConnection {
    type V = IssueConnectionView;

    open spec fn deep_view(&self) -> IssueConnectionView {
        IssueConnectionView {
            nodes: self.nodes.deep_view(),
            page_info: self.page_info.deep_view(),
        }
    }
}

impl Clone for IssueConnection {
    fn clone(&self) -> (r: Self)
        ensures
            r.deep_view() == self.deep_view(),
    {
        IssueConnection {
            nodes: self.nodes.clone(),
            page_info: self.page_info.clone(),
        }
    }
}

/// What to ask for next.
#[derive(Debug)]
pub struct PageRequest {
    pub first: u32,
    pub after: Option<String>,
}

/// What a [`PageRequest`] holds.
#[verifier::ext_equal]
pub struct PageRequestView {
    pub first: u32,
    pub after: Option<Seq<char>>,
}

impl DeepView for PageRequest {
    type V = PageRequestView;

    open spec fn deep_view(&self) -> PageRequestView {
        PageRequestView {
            first: self.first,
            after: self.after.deep_view(),
        }
    }
}

impl Clone for PageRequest {
    fn clone(&self) -> (r: Self)
        ensures
            r.deep_view() == self.deep_view(),
    {
        PageRequest {
            first: self.first,
            after: self.after.clone(),
        }
    }
}

/// The issues fetched so far.
#[derive(Debug)]
pub struct IssuePages {
    pub collected: Vec<Issue>,
    pub after: Option<String>,
    /// Whether the list has ended.
    pub ended: bool,
}

/// What a [`IssuePages`] holds.
#[verifier::ext_equal]
pub struct IssuePagesView {
    pub collected: Seq<IssueView>,
    pub after: Option<Seq<char>>,
    pub ended: bool,
}

impl DeepView for IssuePages {
    type V = IssuePagesView;

    open spec fn deep_view(&self) -> IssuePagesView {
        IssuePagesView {
            collected: self.collected.deep_view(),
            after: self.after.deep_view(),
            ended: self.ended,
        }
    }
}

impl Clone for IssuePages {
    fn clone(&self) -> (r: Self)
        ensures
            r.deep_view() == self.deep_view(),
    {
        IssuePages {
            collected: self.collected.clone(),
            after: self.after.clone(),
            ended: self.ended,
        }
    }
}

/// What may be wrong with the settings.
#[derive(Debug)]
pub enum LinearError {
    AmountNotAnInteger,
    OrderByNotAString,
    OrderByUnknown { given: String },
    TeamNotAString,
    IncludeCommentsNotABoolean,
    ApiKeyEnvNotAString,
}

/// What a [`LinearError`] holds.
#[verifier::ext_equal]
pub enum LinearErrorView {
    AmountNotAnInteger,
    OrderByNotAString,
    OrderByUnknown { given: Seq<char> },
    TeamNotAString,
    IncludeCommentsNotABoolean,
    ApiKeyEnvNotAString,
}

impl DeepView for LinearError {
    type V = LinearErrorView;

    open spec fn deep_view(&self) -> LinearErrorView {
        match self {
            LinearError::AmountNotAnInteger => LinearErrorView::AmountNotAnInteger,
            LinearError::OrderByNotAString => LinearErrorView::OrderByNotAString,
            LinearError::OrderByUnknown { given } => LinearErrorView::OrderByUnknown {
                given: given@,
            },
            LinearError::TeamNotAString => LinearErrorView::TeamNotAString,
            LinearError::IncludeCommentsNotABoolean => LinearErrorView::IncludeCommentsNotABoolean,
            LinearError::ApiKeyEnvNotAString => LinearErrorView::ApiKeyEnvNotAString,
        }
    }
}

/// An error in words.
pub open spec fn linear_error_words(e: LinearErrorView) -> Seq<char> {
    match e {
        LinearErrorView::AmountNotAnInteger =>
            "linear tap: 'amount' must be a positive integer"@,
        LinearErrorView::OrderByNotAString => "linear tap: 'order_by' must be a string"@,
        LinearErrorView::OrderByUnknown { given } =>
            "linear tap: 'order_by' must be 'updatedAt' or 'createdAt', got '"@ + given + "'"@,
        LinearErrorView::TeamNotAString => "linear tap: 'team' must be a string"@,
        LinearErrorView::IncludeCommentsNotABoolean =>
            "linear tap: 'include_comments' must be a boolean"@,
        LinearErrorView::ApiKeyEnvNotAString => "linear tap: 'api_key_env' must be a string"@,
    }
}

impl LinearError {
    /// The error as text.
    pub fn message(&self) -> (r: String)
        ensures
            r@ == linear_error_words(self.deep_view()),
    {
        match self {
            LinearError::AmountNotAnInteger =>
                "linear tap: 'amount' must be a positive integer".to_string(),
            LinearError::OrderByNotAString => "linear tap: 'order_by' must be a string".to_string(),
            LinearError::OrderByUnknown { given } => {
                let mut r =
                    "linear tap: 'order_by' must be 'updatedAt' or 'createdAt', got '".to_string();
                r.append(given.as_str());
                r.append("'");
                r
            },
            LinearError::TeamNotAString => "linear tap: 'team' must be a string".to_string(),
            LinearError::IncludeCommentsNotABoolean =>
                "linear tap: 'include_comments' must be a boolean".to_string(),
            LinearError::ApiKeyEnvNotAString =>
                "linear tap: 'api_key_env' must be a string".to_string(),
        }
    }
}

/// The settings where nothing is said.
pub open spec fn default_settings() -> LinearTapSettingsView {
    LinearTapSettingsView {
        amount: DEFAULT_AMOUNT,
        order_by: "updatedAt"@,
        team: None,
        include_comments: true,
        api_key_env: "LINEAR_API_KEY"@,
    }
}

/// What the settings say of `amount`.
pub open spec fn amount_of(s: Seq<SettingView>) -> Result<usize, LinearErrorView> {
    match setting_value(s, "amount"@) {
        None => Ok(DEFAULT_AMOUNT),
        Some(v) => match unsigned_value(v) {
            Some(n) => Ok(n as usize),
            None => Err(LinearErrorView::AmountNotAnInteger),
        },
    }
}

/// What the settings say of `order_by`.
pub open spec fn order_of(s: Seq<SettingView>) -> Result<Seq<char>, LinearErrorView> {
    match setting_value(s, "order_by"@) {
        None => Ok("updatedAt"@),
        Some(v) => match text_value(v) {
            Some(t) => if t == "updatedAt"@ || t == "createdAt"@ {
                Ok(t)
            } else {
                Err(LinearErrorView::OrderByUnknown { given: t })
            },
            None => Err(LinearErrorView::OrderByNotAString),
        },
    }
}

/// What the settings say of `team`.
pub open spec fn team_of(s: Seq<SettingView>) -> Result<Option<Seq<char>>, LinearErrorView> {
    match setting_value(s, "team"@) {
        None => Ok(None),
        Some(v) => match text_value(v) {
            Some(t) => Ok(Some(t)),
            None => Err(LinearErrorView::TeamNotAString),
        },
    }
}

/// What the settings say of `include_comments`.
pub open spec fn comments_of(s: Seq<SettingView>) -> Result<bool, LinearErrorView> {
    match setting_value(s, "include_comments"@) {
        None => Ok(true),
        Some(v) => match bool_value(v) {
            Some(b) => Ok(b),
            None => Err(LinearErrorView::IncludeCommentsNotABoolean),
        },
    }
}

/// What the settings say of `api_key_env`.
pub open spec fn key_env_of(s: Seq<SettingView>) -> Result<Seq<char>, LinearErrorView> {
    match setting_value(s, "api_key_env"@) {
        None => Ok("LINEAR_API_KEY"@),
        Some(v) => match text_value(v) {
            Some(t) => Ok(t),
            None => Err(LinearErrorView::ApiKeyEnvNotAString),
        },
    }
}

/// The tap's settings, or the first thing wrong with them.
pub open spec fn settings_of(
    s: Seq<SettingView>,
) -> Result<LinearTapSettingsView, LinearErrorView> {
    match (amount_of(s), order_of(s), team_of(s), comments_of(s), key_env_of(s)) {
        (Err(e), _, _, _, _) => Err(e),
        (_, Err(e), _, _, _) => Err(e),
        (_, _, Err(e), _, _) => Err(e),
        (_, _, _, Err(e), _) => Err(e),
        (_, _, _, _, Err(e)) => Err(e),
        (Ok(amount), Ok(order_by), Ok(team), Ok(include_comments), Ok(api_key_env)) => Ok(
            LinearTapSettingsView { amount, order_by, team, include_comments, api_key_env },
        ),
    }
}

impl Default for LinearTapSettings {
    fn default() -> (r: LinearTapSettings)
        ensures
            r.deep_view() == default_settings(),
    {
        LinearTapSettings {
            amount: DEFAULT_AMOUNT,
            order_by: "updatedAt".to_string(),
            team: None,
            include_comments: true,
            api_key_env: "LINEAR_API_KEY".to_string(),
        }
    }
}

impl LinearTapSettings {
    /// Reads the tap's untyped settings.
    pub fn from_settings(settings: &Settings) -> (r: Result<LinearTapSettings, LinearError>)
        ensures
            match r {
                Ok(s) => settings_of(settings.deep_view().entries) == Ok::<
                    LinearTapSettingsView,
                    LinearErrorView,
                >(s.deep_view()),
                Err(e) => settings_of(settings.deep_view().entries) == Err::<
                    LinearTapSettingsView,
                    LinearErrorView,
                >(e.deep_view()),
            },
    {
        let mut out = LinearTapSettings::default();
        if let Some(v) = settings.get("amount") {
            match v.as_unsigned() {
                Some(n) => {
                    out.amount = n as usize;
                },
                None => {
                    return Err(LinearError::AmountNotAnInteger);
                },
            }
        }
        if let Some(v) = settings.get("order_by") {
            match v.as_text() {
                Some(t) => {
                    if !same(t, "updatedAt") && !same(t, "createdAt") {
                        return Err(LinearError::OrderByUnknown { given: t.to_string() });
                    }
                    out.order_by = t.to_string();
                },
                None => {
                    return Err(LinearError::OrderByNotAString);
                },
            }
        }
        if let Some(v) = settings.get("team") {
            match v.as_text() {
                Some(t) => {
                    out.team = Some(t.to_string());
                },
                None => {
                    return Err(LinearError::TeamNotAString);
                },
            }
        }
        if let Some(v) = settings.get("include_comments") {
            match v.as_bool() {
                Some(b) => {
                    out.include_comments = b;
                },
                None => {
                    return Err(LinearError::IncludeCommentsNotABoolean);
                },
            }
        }
        if let Some(v) = settings.get("api_key_env") {
            match v.as_text() {
                Some(t) => {
                    out.api_key_env = t.to_string();
                },
                None => {
                    return Err(LinearError::ApiKeyEnvNotAString);
                },
            }
        }
        Ok(out)
    }
}

// ---------------------------------------------------------------------------
// Fetching page by page
// ---------------------------------------------------------------------------

/// What to ask for next: as many issues as are missing, at most a page of them;
/// nothing once enough are there or the list has ended.
pub open spec fn request_of(p: IssuePagesView, amount: int) -> Option<PageRequestView> {
    if p.ended || p.collected.len() >= amount {
        None
    } else {
        let missing = amount - p.collected.len();
        Some(
            PageRequestView {
                first: if missing < PAGE_SIZE {
                    missing as u32
                } else {
                    PAGE_SIZE
                },
                after: p.after,
            },
        )
    }
}

/// The issues with a page more: the list has ended at an empty page, or where
/// it says so, or where it does not say how to go on.
pub open spec fn with_page(p: IssuePagesView, page: IssueConnectionView) -> IssuePagesView {
    let more = page.nodes.len() > 0 && page.page_info.has_next_page
        && page.page_info.end_cursor is Some;
    IssuePagesView {
        collected: p.collected + page.nodes,
        after: if more {
            page.page_info.end_cursor
        } else {
            p.after
        },
        ended: !more,
    }
}

/// The issues that were asked for: no more than the amount.
pub open spec fn finished(p: IssuePagesView, amount: int) -> Seq<IssueView> {
    if p.collected.len() <= amount {
        p.collected
    } else {
        p.collected.take(amount)
    }
}

impl IssuePages {
    /// Nothing fetched yet.
    pub fn new() -> (r: IssuePages)
        ensures
            r.collected@.len() == 0,
            r.after is None,
            !r.ended,
    {
        IssuePages { collected: Vec::new(), after: None, ended: false }
    }

    /// What to ask for next.
    pub fn next_request(&self, settings: &LinearTapSettings) -> (r: Option<PageRequest>)
        ensures
            r.deep_view() == request_of(self.deep_view(), settings.amount as int),
    {
        assert(self.collected.deep_view().len() == self.collected@.len());
        if self.ended || self.collected.len() >= settings.amount {
            return None;
        }
        let missing: usize = settings.amount - self.collected.len();
        let first: u32 = if missing < PAGE_SIZE as usize {
            missing as u32
        } else {
            PAGE_SIZE
        };
        Some(PageRequest { first, after: self.after.clone() })
    }

    /// Takes a page.
    pub fn absorb(&mut self, page: IssueConnection)
        ensures
            final(self).deep_view() == with_page(old(self).deep_view(), page.deep_view()),
    {
        let ghost before = self.collected.deep_view();
        let mut nodes = page.nodes;
        let ghost nv = nodes.deep_view();
        assert(nv.len() == nodes@.len());
        let more = nodes.len() > 0 && page.page_info.has_next_page
            && page.page_info.end_cursor.is_some();
        self.collected.append(&mut nodes);
        assert(self.collected.deep_view() =~= before + nv);
        if more {
            self.after = page.page_info.end_cursor;
        }
        self.ended = !more;
    }

    /// The issues that were asked for.
    pub fn finish(self, settings: &LinearTapSettings) -> (r: Vec<Issue>)
        ensures
            r.deep_view() == finished(self.deep_view(), settings.amount as int),
    {
        let ghost cv = self.collected.deep_view();
        let mut issues = self.collected;
        assert(cv.len() == issues@.len());
        if issues.len() > settings.amount {
            issues.truncate(settings.amount);
            assert(issues.deep_view() =~= cv.take(settings.amount as int));
        }
        issues
    }
}

// ---------------------------------------------------------------------------
// Rendering
// ---------------------------------------------------------------------------

/// Whether an issue is kept out of the index.
pub open spec fn gone(i: IssueView) -> bool {
    i.archived_at is Some || i.trashed == Some(true)
}

/// Whether an issue is kept out of the index: archived or trashed.
pub fn is_gone(issue: &Issue) -> (r: bool)
    ensures
        r == gone(issue.deep_view()),
{
    issue.archived_at.is_some() || match issue.trashed {
        Some(t) => t,
        None => false,
    }
}

/// How a user is called: the display name, or else the name.
pub open spec fn label_of(p: PersonView) -> Option<Seq<char>> {
    match p.display_name {
        Some(n) => Some(n),
        None => p.name,
    }
}

/// The name of something that may be there.
pub open spec fn name_in(n: Option<NamedView>) -> Option<Seq<char>> {
    match n {
        Some(x) => x.name,
        None => None,
    }
}

/// How a user who may be there is called.
pub open spec fn label_in(p: Option<PersonView>) -> Option<Seq<char>> {
    match p {
        Some(x) => label_of(x),
        None => None,
    }
}

/// A text that is not empty.
pub open spec fn filled(t: Option<Seq<char>>) -> Option<Seq<char>> {
    match t {
        Some(s) => if s.len() == 0 {
            None
        } else {
            Some(s)
        },
        None => None,
    }
}

/// A line of an issue's head, where there is something to say.
pub open spec fn head_line(name: Seq<char>, value: Option<Seq<char>>) -> Seq<char> {
    match value {
        Some(v) => name + v + "\n"@,
        None => Seq::<char>::empty(),
    }
}

/// The names in a list.
pub open spec fn names_in(list: Seq<NamedView>) -> Seq<Seq<char>>
    decreases list.len(),
{
    if list.len() == 0 {
        Seq::<Seq<char>>::empty()
    } else {
        match list.last().name {
            Some(n) => names_in(list.drop_last()).push(n),
            None => names_in(list.drop_last()),
        }
    }
}

/// The names of an issue's labels.
pub open spec fn label_names(i: IssueView) -> Seq<Seq<char>> {
    match i.labels {
        Some(l) => names_in(l),
        None => Seq::<Seq<char>>::empty(),
    }
}

/// An issue's labels as one text, where it has any.
pub open spec fn labels_text(i: IssueView) -> Option<Seq<char>> {
    if label_names(i).len() == 0 {
        None
    } else {
        Some(joined(label_names(i), ", "@))
    }
}

/// A comment as text, where it says something.
pub open spec fn comment_text(c: CommentView) -> Seq<char> {
    match filled(c.body) {
        Some(body) => "\n— "@ + match label_in(c.user) {
            Some(who) => who,
            None => "unknown"@,
        } + ":\n"@ + body + "\n"@,
        None => Seq::<char>::empty(),
    }
}

/// The comments as text, one after the other.
pub open spec fn comments_text(list: Seq<CommentView>) -> Seq<char>
    decreases list.len(),
{
    if list.len() == 0 {
        Seq::<char>::empty()
    } else {
        comments_text(list.drop_last()) + comment_text(list.last())
    }
}

/// The thread of an issue, where it is wanted and says something.
pub open spec fn thread_text(i: IssueView, include_comments: bool) -> Seq<char> {
    match i.comments {
        Some(list) => if include_comments && comments_text(list).len() > 0 {
            "\n## Comments\n"@ + comments_text(list)
        } else {
            Seq::<char>::empty()
        },
        None => Seq::<char>::empty(),
    }
}

/// An issue as text: a digest of its metadata, its description, and its thread.
pub open spec fn issue_text(i: IssueView, include_comments: bool) -> Seq<char> {
    i.identifier + " "@ + i.title + "\n"@ + head_line("State: "@, name_in(i.state)) + head_line(
        "Priority: "@,
        filled(i.priority_label),
    ) + head_line("Team: "@, name_in(i.team)) + head_line("Project: "@, name_in(i.project))
        + head_line("Assignee: "@, label_in(i.assignee)) + head_line("Labels: "@, labels_text(i))
        + head_line("URL: "@, filled(i.url)) + match filled(i.description) {
        Some(d) => "\n"@ + d + "\n"@,
        None => Seq::<char>::empty(),
    } + thread_text(i, include_comments)
}

impl Person {
    /// How the user is called.
    pub fn label(&self) -> (r: Option<&str>)
        ensures
            r.deep_view() == label_of(self.deep_view()),
    {
        match &self.display_name {
            Some(n) => Some(n.as_str()),
            None => match &self.name {
                Some(n) => Some(n.as_str()),
                None => None,
            },
        }
    }
}

fn get_name(n: &Option<Named>) -> (r: Option<&str>)
    ensures
        r.deep_view() == name_in(n.deep_view()),
{
    match n {
        Some(x) => match &x.name {
            Some(s) => Some(s.as_str()),
            None => None,
        },
        None => None,
    }
}

fn get_label(p: &Option<Person>) -> (r: Option<&str>)
    ensures
        r.deep_view() == label_in(p.deep_view()),
{
    match p {
        Some(x) => x.label(),
        None => None,
    }
}

fn get_filled(t: &Option<String>) -> (r: Option<&str>)
    ensures
        r.deep_view() == filled(t.deep_view()),
{
    match t {
        Some(s) => if s.as_str().unicode_len() == 0 {
            None
        } else {
            Some(s.as_str())
        },
        None => None,
    }
}

fn push_head_line(out: &mut String, name: &str, value: Option<&str>)
    ensures
        final(out)@ == old(out)@ + head_line(name@, value.deep_view()),
{
    let ghost start = out@;
    match value {
        Some(v) => {
            out.append(name);
            out.append(v);
            out.append("\n");
            assert(out@ =~= start + head_line(name@, Some(v@)));
        },
        None => {
            assert(start + Seq::<char>::empty() =~= start);
        },
    }
}

fn collect_labels(issue: &Issue) -> (r: Vec<String>)
    ensures
        r.deep_view() == label_names(issue.deep_view()),
{
    let mut out: Vec<String> = Vec::new();
    match &issue.labels {
        Some(list) => {
            let ghost lv = list.deep_view();
            let mut i: usize = 0;
            assert(out.deep_view() =~= names_in(lv.take(0)));
            while i < list.len()
                invariant
                    i <= list@.len(),
                    lv == list.deep_view(),
                    out.deep_view() == names_in(lv.take(i as int)),
                decreases list@.len() - i,
            {
                let ghost before = out.deep_view();
                proof {
                    assert(lv.take(i + 1).drop_last() =~= lv.take(i as int));
                    assert(lv.take(i + 1).last() == list@[i as int].deep_view());
                }
                if let Some(n) = &list[i].name {
                    out.push(n.clone());
                    assert(out.deep_view() =~= before.push(n@));
                }
                i += 1;
            }
            assert(lv.take(i as int) =~= lv);
        },
        None => {
            assert(out.deep_view() =~= Seq::<Seq<char>>::empty());
        },
    }
    out
}

fn render_comments(list: &Vec<Comment>) -> (r: String)
    ensures
        r@ == comments_text(list.deep_view()),
{
    let ghost lv = list.deep_view();
    let mut out = String::new();
    let mut i: usize = 0;
    assert(out@ =~= comments_text(lv.take(0)));
    while i < list.len()
        invariant
            i <= list@.len(),
            lv == list.deep_view(),
            out@ == comments_text(lv.take(i as int)),
        decreases list@.len() - i,
    {
        let c = &list[i];
        let ghost before = out@;
        proof {
            assert(lv.take(i + 1).drop_last() =~= lv.take(i as int));
            assert(lv.take(i + 1).last() == c.deep_view());
        }
        match get_filled(&c.body) {
            Some(body) => {
                out.append("\n— ");
                match get_label(&c.user) {
                    Some(who) => out.append(who),
                    None => out.append("unknown"),
                }
                out.append(":\n");
                out.append(body);
                out.append("\n");
                assert(out@ =~= before + comment_text(c.deep_view()));
            },
            None => {
                assert(before + Seq::<char>::empty() =~= before);
            },
        }
        i += 1;
    }
    assert(lv.take(i as int) =~= lv);
    out
}

/// Renders an issue into the text that is summarized and embedded.
pub fn render_issue_content(issue: &Issue, settings: &LinearTapSettings) -> (r: String)
    ensures
        r@ == issue_text(issue.deep_view(), settings.include_comments),
{
    let mut s = issue.identifier.clone();
    s.append(" ");
    s.append(issue.title.as_str());
    s.append("\n");
    push_head_line(&mut s, "State: ", get_name(&issue.state));
    push_head_line(&mut s, "Priority: ", get_filled(&issue.priority_label));
    push_head_line(&mut s, "Team: ", get_name(&issue.team));
    push_head_line(&mut s, "Project: ", get_name(&issue.project));
    push_head_line(&mut s, "Assignee: ", get_label(&issue.assignee));
    let labels = collect_labels(issue);
    assert(labels.deep_view().len() == labels@.len());
    if labels.len() > 0 {
        let text = join(&labels, ", ");
        push_head_line(&mut s, "Labels: ", Some(text.as_str()));
    } else {
        push_head_line(&mut s, "Labels: ", None);
    }
    push_head_line(&mut s, "URL: ", get_filled(&issue.url));
    let ghost head = s@;
    match get_filled(&issue.description) {
        Some(d) => {
            s.append("\n");
            s.append(d);
            s.append("\n");
            assert(s@ =~= head + ("\n"@ + d@ + "\n"@));
        },
        None => {
            assert(head + Seq::<char>::empty() =~= head);
        },
    }
    let ghost body = s@;
    assert(body + Seq::<char>::empty() =~= body);
    if settings.include_comments {
        if let Some(list) = &issue.comments {
            let thread = render_comments(list);
            if thread.as_str().unicode_len() > 0 {
                s.append("\n## Comments\n");
                s.append(thread.as_str());
                assert(s@ =~= body + ("\n## Comments\n"@ + thread@));
            }
        }
    }
    s
}

/// An issue as an item: one document without children.
pub open spec fn issue_item(i: IssueView, include_comments: bool) -> SourceItemView {
    let content = issue_text(i, include_comments);
    SourceItemView {
        source_path: SOURCE_SCHEME@ + i.identifier,
        content,
        content_hash: short_hash_of(content, 16),
        language: None,
        module_doc: None,
        children: Seq::<SourceChunkView>::empty(),
    }
}

/// Builds the item of an issue.
pub fn issue_to_source_item(issue: &Issue, settings: &LinearTapSettings) -> (r: SourceItem)
    ensures
        r.deep_view() == issue_item(issue.deep_view(), settings.include_comments),
{
    let content = render_issue_content(issue, settings);
    let content_hash = short_hash(content.as_str(), 16);
    let mut source_path = SOURCE_SCHEME.to_string();
    source_path.append(issue.identifier.as_str());
    let children: Vec<SourceChunk> = Vec::new();
    assert(children.deep_view() =~= Seq::<SourceChunkView>::empty());
    SourceItem { source_path, content, content_hash, language: None, module_doc: None, children }
}

// ---------------------------------------------------------------------------
// The run
// ---------------------------------------------------------------------------

/// The items of the issues that stay, in order.
pub open spec fn active_items(issues: Seq<IssueView>, include_comments: bool) -> Seq<SourceItemView>
    decreases issues.len(),
{
    if issues.len() == 0 {
        Seq::<SourceItemView>::empty()
    } else if gone(issues.last()) {
        active_items(issues.drop_last(), include_comments)
    } else {
        active_items(issues.drop_last(), include_comments).push(
            issue_item(issues.last(), include_comments),
        )
    }
}

/// Whether one of the items has that path.
pub open spec fn is_active(items: Seq<SourceItemView>, path: Seq<char>) -> bool {
    exists|i: int| 0 <= i < items.len() && (#[trigger] items[i]).source_path == path
}

/// Whether a stored path is to be deleted: one of this tap's that is no longer
/// active.
pub open spec fn is_stale(items: Seq<SourceItemView>, ctx: FetchContextView, path: Seq<char>) ->
    bool {
    ctx.stored_hashes.contains_key(path) && has_prefix(path, SOURCE_SCHEME@) && !is_active(
        items,
        path,
    )
}

/// The greatest of the texts.
pub open spec fn latest(issues: Seq<IssueView>) -> Option<Seq<char>>
    decreases issues.len(),
{
    if issues.len() == 0 {
        None
    } else {
        match (latest(issues.drop_last()), issues.last().updated_at) {
            (Some(a), Some(b)) => if precedes(b, a) {
                Some(a)
            } else {
                Some(b)
            },
            (Some(a), None) => Some(a),
            (None, b) => b,
        }
    }
}

/// The stored paths of this tap that are no longer active.
pub fn reconcile_deletions(stored: &TextMap, active: &Vec<String>) -> (r: Vec<String>)
    ensures
        forall|p: Seq<char>|
            #[trigger] r.deep_view().contains(p) <==> stored@.contains_key(p) && has_prefix(
                p,
                SOURCE_SCHEME@,
            ) && !active.deep_view().contains(p),
        forall|i: int, j: int|
            0 <= i < j < r@.len() ==> precedes(
                #[trigger] r.deep_view()[i],
                #[trigger] r.deep_view()[j],
            ),
{
    let n: usize = stored.len();
    let ghost ks = stored.keys();
    let ghost av = active.deep_view();
    let mut out: Vec<String> = Vec::new();
    let ghost mut from: Seq<int> = Seq::empty();
    let mut i: usize = 0;
    while i < n
        invariant
            i <= n,
            n == ks.len(),
            ks == stored.keys(),
            av == active.deep_view(),
            from.len() == out@.len(),
            forall|k: int| 0 <= k < from.len() ==> 0 <= #[trigger] from[k] < i,
            forall|k: int| 0 <= k < from.len() ==> out.deep_view()[k] == ks[#[trigger] from[k]],
            forall|a: int, b: int| 0 <= a < b < from.len() ==> #[trigger] from[a] < #[trigger] from[b],
            forall|k: int|
                0 <= k < from.len() ==> has_prefix(ks[#[trigger] from[k]], SOURCE_SCHEME@)
                    && !av.contains(ks[from[k]]),
            forall|m: int|
                0 <= m < i && has_prefix(#[trigger] ks[m], SOURCE_SCHEME@) && !av.contains(ks[m])
                    ==> out.deep_view().contains(ks[m]),
        decreases n - i,
    {
        let key = stored.key_at(i);
        let ghost before = out.deep_view();
        if starts_with(key, SOURCE_SCHEME) && !has_text(active, key) {
            out.push(key.to_string());
            proof {
                from = from.push(i as int);
                assert(out.deep_view() =~= before.push(key@));
                assert(out.deep_view()[before.len() as int] == key@);
                assert forall|m: int|
                    0 <= m < i + 1 && has_prefix(#[trigger] ks[m], SOURCE_SCHEME@) && !av.contains(
                        ks[m],
                    ) implies out.deep_view().contains(ks[m]) by {
                    if m < i {
                        let q = choose|q: int| 0 <= q < before.len() && before[q] == ks[m];
                        assert(out.deep_view()[q] == ks[m]);
                    }
                }
            }
        }
        i += 1;
    }
    proof {
        assert forall|p: Seq<char>|
            #[trigger] out.deep_view().contains(p) <==> stored@.contains_key(p) && has_prefix(
                p,
                SOURCE_SCHEME@,
            ) && !av.contains(p) by {
            if out.deep_view().contains(p) {
                let k = choose|k: int| 0 <= k < out.deep_view().len() && out.deep_view()[k] == p;
                assert(ks[from[k]] == p);
                assert(ks.contains(p));
            }
            if stored@.contains_key(p) && has_prefix(p, SOURCE_SCHEME@) && !av.contains(p) {
                assert(ks.contains(p));
                let m = choose|m: int| 0 <= m < ks.len() && ks[m] == p;
                assert(out.deep_view().contains(ks[m]));
            }
        }
        assert forall|a: int, b: int| 0 <= a < b < out@.len() implies precedes(
            #[trigger] out.deep_view()[a],
            #[trigger] out.deep_view()[b],
        ) by {
            assert(from[a] < from[b]);
            assert(precedes(ks[from[a]], ks[from[b]]));
        }
    }
    out
}

fn find_latest(issues: &Vec<Issue>) -> (r: Option<String>)
    ensures
        r.deep_view() == latest(issues.deep_view()),
{
    let ghost iv = issues.deep_view();
    let mut best: Option<String> = None;
    let mut i: usize = 0;
    while i < issues.len()
        invariant
            i <= issues@.len(),
            iv == issues.deep_view(),
            best.deep_view() == latest(iv.take(i as int)),
        decreases issues@.len() - i,
    {
        proof {
            assert(iv.take(i + 1).drop_last() =~= iv.take(i as int));
            assert(iv.take(i + 1).last() == issues@[i as int].deep_view());
        }
        if let Some(u) = &issues[i].updated_at {
            let newer = match &best {
                Some(b) => !less(u.as_str(), b.as_str()),
                None => true,
            };
            if newer {
                best = Some(u.clone());
            }
        }
        i += 1;
    }
    assert(iv.take(i as int) =~= iv);
    best
}

/// The outcome of a run: the items that are new or changed, the stored paths to
/// delete, and the latest update as the cursor. Issues that did not change stay
/// active, and so are not deleted.
pub fn fetch_result(issues: &Vec<Issue>, settings: &LinearTapSettings, ctx: &FetchContext) -> (r:
    FetchResult)
    ensures
        r.items.deep_view() == changed_items(
            active_items(issues.deep_view(), settings.include_comments),
            ctx.deep_view(),
        ),
        forall|p: Seq<char>|
            #[trigger] r.deletions.deep_view().contains(p) <==> is_stale(
                active_items(issues.deep_view(), settings.include_comments),
                ctx.deep_view(),
                p,
            ),
        forall|i: int, j: int|
            0 <= i < j < r.deletions@.len() ==> precedes(
                #[trigger] r.deletions.deep_view()[i],
                #[trigger] r.deletions.deep_view()[j],
            ),
        r.cursor.deep_view() == latest(issues.deep_view()),
{
    let ghost iv = issues.deep_view();
    let ghost cv = ctx.deep_view();
    let mut active: Vec<String> = Vec::new();
    let mut items: Vec<SourceItem> = Vec::new();
    let mut i: usize = 0;
    assert(items.deep_view() =~= Seq::<SourceItemView>::empty());
    while i < issues.len()
        invariant
            i <= issues@.len(),
            iv == issues.deep_view(),
            cv == ctx.deep_view(),
            items.deep_view() == changed_items(
                active_items(iv.take(i as int), settings.include_comments),
                cv,
            ),
            forall|p: Seq<char>|
                #[trigger] active.deep_view().contains(p) <==> is_active(
                    active_items(iv.take(i as int), settings.include_comments),
                    p,
                ),
        decreases issues@.len() - i,
    {
        proof {
            assert(iv.take(i + 1).drop_last() =~= iv.take(i as int));
            assert(iv.take(i + 1).last() == issues@[i as int].deep_view());
        }
        if !is_gone(&issues[i]) {
            let ghost old_active = active_items(iv.take(i as int), settings.include_comments);
            let ghost new_active = active_items(iv.take(i + 1), settings.include_comments);
            let ghost names = active.deep_view();
            let item = issue_to_source_item(&issues[i], settings);
            let ghost item_view = item.deep_view();
            add_text(&mut active, item.source_path.as_str());
            proof {
                assert(new_active.drop_last() =~= old_active);
                crate::text::lemma_with_text(names, item_view.source_path);
                assert forall|p: Seq<char>|
                    #[trigger] active.deep_view().contains(p) <==> is_active(new_active, p) by {
                    assert(names.contains(p) <==> is_active(old_active, p));
                    if is_active(old_active, p) {
                        let k = choose|k: int|
                            0 <= k < old_active.len() && (#[trigger] old_active[k]).source_path
                                == p;
                        assert(new_active[k].source_path == p);
                    }
                    if p == item_view.source_path {
                        assert(new_active[old_active.len() as int].source_path == p);
                    }
                    if is_active(new_active, p) && p != item_view.source_path {
                        let k = choose|k: int|
                            0 <= k < new_active.len() && (#[trigger] new_active[k]).source_path
                                == p;
                        assert(old_active[k].source_path == p);
                    }
                }
            }
            if !is_unchanged(ctx, item.source_path.as_str(), item.content_hash.as_str()) {
                let ghost before = items.deep_view();
                items.push(item);
                assert(items.deep_view() =~= before.push(item_view));
            }
        }
        i += 1;
    }
    assert(iv.take(i as int) =~= iv);
    let deletions = reconcile_deletions(&ctx.stored_hashes, &active);
    FetchResult { items, deletions, cursor: find_latest(issues) }
}

// ---------------------------------------------------------------------------
// Laws
// ---------------------------------------------------------------------------

/// Fetching ends: every page but the last brings at least one issue, and no
/// request is made once the amount is there.
pub proof fn law_fetching_ends(p: IssuePagesView, page: IssueConnectionView, amount: int)
    requires
        request_of(p, amount) is Some,
    ensures
        request_of(p, amount)->0.first <= PAGE_SIZE,
        0 < request_of(p, amount)->0.first <= amount - p.collected.len(),
        request_of(with_page(p, page), amount) is Some ==> with_page(p, page).collected.len()
            > p.collected.len(),
        finished(with_page(p, page), amount).len() <= amount,
{
}

/// After a run the index mirrors the fetched issues: an issue that stays is
/// never deleted, whether it changed or not; a stored issue that is gone or no
/// longer among the newest is deleted; paths of other taps are left alone.
pub proof fn law_index_mirrors_the_fetched_issues(
    issues: Seq<IssueView>,
    include_comments: bool,
    ctx: FetchContextView,
    path: Seq<char>,
)
    ensures
        ({
            let items = active_items(issues, include_comments);
            &&& is_active(items, path) ==> !is_stale(items, ctx, path)
            &&& ctx.stored_hashes.contains_key(path) && has_prefix(path, SOURCE_SCHEME@)
                && !is_active(items, path) ==> is_stale(items, ctx, path)
            &&& !has_prefix(path, SOURCE_SCHEME@) ==> !is_stale(items, ctx, path)
        }),
{
}

/// An item is handed over exactly when it stays and is new or changed; on a
/// full run every item that stays is.
pub proof fn law_unchanged_issues_are_skipped(
    issues: Seq<IssueView>,
    include_comments: bool,
    ctx: FetchContextView,
    x: SourceItemView,
)
    ensures
        changed_items(active_items(issues, include_comments), ctx).contains(x) <==> active_items(
            issues,
            include_comments,
        ).contains(x) && !unchanged(ctx, x.source_path, x.content_hash),
        ctx.full ==> !unchanged(ctx, x.source_path, x.content_hash),
{
    law_changed_items(active_items(issues, include_comments), ctx, x);
}

/// The text of an issue begins with its identifier and title and holds all that is
/// known of it: state, priority, team, project, assignee, every label, the link,
/// the whole description and, where comments are included, every comment's body
/// behind its author.
pub proof fn law_issue_text_holds_the_issue(i: IssueView, include_comments: bool)
    ensures
        ({
            let t = issue_text(i, include_comments);
            &&& has_prefix(t, i.identifier + " "@ + i.title + "\n"@)
            &&& i.state matches Some(n) ==> (n.name matches Some(s) ==> occurs(
                t,
                "State: "@ + s + "\n"@,
            ))
            &&& i.priority_label matches Some(s) ==> (s.len() > 0 ==> occurs(
                t,
                "Priority: "@ + s + "\n"@,
            ))
            &&& i.team matches Some(n) ==> (n.name matches Some(s) ==> occurs(
                t,
                "Team: "@ + s + "\n"@,
            ))
            &&& i.project matches Some(n) ==> (n.name matches Some(s) ==> occurs(
                t,
                "Project: "@ + s + "\n"@,
            ))
            &&& i.assignee matches Some(p) ==> (p.display_name matches Some(s) ==> occurs(
                t,
                "Assignee: "@ + s + "\n"@,
            ))
            &&& i.assignee matches Some(p) ==> (p.display_name is None && p.name is Some ==> occurs(
                t,
                "Assignee: "@ + p.name->0 + "\n"@,
            ))
            &&& i.labels matches Some(list) ==> forall|k: int|
                0 <= k < list.len() && (#[trigger] list[k]).name is Some ==> occurs(
                    t,
                    list[k].name->0,
                )
            &&& i.url matches Some(s) ==> (s.len() > 0 ==> occurs(t, "URL: "@ + s + "\n"@))
            &&& i.description matches Some(s) ==> occurs(t, s)
            &&& i.comments matches Some(list) ==> (include_comments ==> forall|k: int|
                0 <= k < list.len() && filled((#[trigger] list[k]).body) is Some ==> occurs(
                    t,
                    author_of(list[k]) + ":\n"@ + list[k].body->0,
                ))
        }),
{
    let t = issue_text(i, include_comments);
    let d = match filled(i.description) {
        Some(d) => "\n"@ + d + "\n"@,
        None => Seq::<char>::empty(),
    };
    let labels = head_line("Labels: "@, labels_text(i));
    let thread = thread_text(i, include_comments);
    lemma_nine_parts(
        i.identifier + " "@ + i.title + "\n"@,
        head_line("State: "@, name_in(i.state)),
        head_line("Priority: "@, filled(i.priority_label)),
        head_line("Team: "@, name_in(i.team)),
        head_line("Project: "@, name_in(i.project)),
        head_line("Assignee: "@, label_in(i.assignee)),
        labels,
        head_line("URL: "@, filled(i.url)),
        d,
        thread,
    );
    if let Some(list) = i.labels {
        assert forall|k: int| 0 <= k < list.len() && (#[trigger] list[k]).name is Some implies occurs(
            t,
            list[k].name->0,
        ) by {
            let name = list[k].name->0;
            lemma_names_in(list, k);
            let names = names_in(list);
            let m = choose|m: int| 0 <= m < names.len() && names[m] == name;
            lemma_joined_holds(names, ", "@, m);
            let all = joined(names, ", "@);
            lemma_part_between("Labels: "@, all, "\n"@);
            lemma_part_of_part(name, all, labels);
            lemma_part_of_part(name, labels, t);
        }
    }
    if let Some(s) = i.description {
        if s.len() > 0 {
            lemma_part_between("\n"@, s, "\n"@);
            lemma_part_of_part(s, d, t);
        } else {
            assert(t.subrange(0, 0) =~= s);
            assert(occurs_at(t, s, 0));
        }
    }
    if let Some(list) = i.comments {
        if include_comments {
            assert forall|k: int|
                0 <= k < list.len() && filled((#[trigger] list[k]).body) is Some implies occurs(
                t,
                author_of(list[k]) + ":\n"@ + list[k].body->0,
            ) by {
                let p = author_of(list[k]) + ":\n"@ + list[k].body->0;
                let c = comment_text(list[k]);
                reveal_strlit("\n— ");
                lemma_part_between("\n— "@, p, "\n"@);
                assert("\n— "@ + p + "\n"@ =~= c);
                lemma_comments_hold(list, k);
                lemma_part_of_part(p, c, comments_text(list));
                lemma_part_at_end("\n## Comments\n"@, comments_text(list));
                lemma_part_of_part(p, comments_text(list), thread);
                lemma_part_of_part(p, thread, t);
            }
        }
    }
}

/// Who wrote a comment: the name shown, else the name, else `unknown`.
pub open spec fn author_of(c: CommentView) -> Seq<char> {
    match c.user {
        Some(p) => if p.display_name is Some {
            p.display_name->0
        } else if p.name is Some {
            p.name->0
        } else {
            "unknown"@
        },
        None => "unknown"@,
    }
}

proof fn lemma_names_in(list: Seq<NamedView>, k: int)
    requires
        0 <= k < list.len(),
        list[k].name is Some,
    ensures
        names_in(list).contains(list[k].name->0),
    decreases list.len(),
{
    let head = names_in(list.drop_last());
    let all = names_in(list);
    if k < list.len() - 1 {
        lemma_names_in(list.drop_last(), k);
        let m = choose|m: int| 0 <= m < head.len() && head[m] == list[k].name->0;
        assert(all[m] == head[m]);
    } else {
        assert(all[head.len() as int] == list[k].name->0);
    }
}

proof fn lemma_comments_hold(list: Seq<CommentView>, k: int)
    requires
        0 <= k < list.len(),
        filled(list[k].body) is Some,
    ensures
        occurs(comments_text(list), comment_text(list[k])),
        comments_text(list).len() > 0,
    decreases list.len(),
{
    let head = comments_text(list.drop_last());
    reveal_strlit("\n— ");
    if k < list.len() - 1 {
        lemma_comments_hold(list.drop_last(), k);
        lemma_part_stays(head, comment_text(list[k]), comment_text(list.last()));
    } else {
        lemma_part_at_end(head, comment_text(list[k]));
    }
}

/// Where comments are not included, they leave no trace in the text.
pub proof fn law_comments_can_be_left_out(i: IssueView)
    ensures
        issue_text(i, false) == issue_text(IssueView { comments: None, ..i }, true),
{
}

/// What is handed over for an issue: its address, which tells issues apart, its
/// text and the hash of that very text. It is no code and has no children.
pub proof fn law_issue_items(i: IssueView, j: IssueView, include_comments: bool)
    ensures
        ({
            let item = issue_item(i, include_comments);
            &&& item.source_path == "linear://"@ + i.identifier
            &&& item.content == issue_text(i, include_comments)
            &&& item.content_hash == short_hash_of(item.content, 16)
            &&& item.language is None
            &&& item.module_doc is None
            &&& item.children.len() == 0
            &&& i.identifier != j.identifier ==> item.source_path != issue_item(
                j,
                include_comments,
            ).source_path
        }),
{
    let a = "linear://"@ + i.identifier;
    let b = "linear://"@ + j.identifier;
    let n = "linear://"@.len() as int;
    if a == b {
        assert(a.skip(n) =~= i.identifier);
        assert(b.skip(n) =~= j.identifier);
    }
}

/// An issue stays exactly if it is neither archived nor trashed, and those that
/// stay keep their order.
pub proof fn law_archived_and_trashed_issues_go(
    issues: Seq<IssueView>,
    include_comments: bool,
    x: SourceItemView,
)
    ensures
        active_items(issues, include_comments).contains(x) <==> exists|k: int|
            {
                &&& 0 <= k < issues.len()
                &&& (#[trigger] issues[k]).archived_at is None
                &&& issues[k].trashed != Some(true)
                &&& x == issue_item(issues[k], include_comments)
            },
    decreases issues.len(),
{
    if issues.len() > 0 {
        let head = issues.drop_last();
        let n = head.len() as int;
        law_archived_and_trashed_issues_go(head, include_comments, x);
        assert(forall|k: int| 0 <= k < n ==> #[trigger] issues[k] == head[k]);
        let before = active_items(head, include_comments);
        let all = active_items(issues, include_comments);
        if before.contains(x) {
            let m = choose|m: int| 0 <= m < before.len() && before[m] == x;
            assert(all[m] == x);
            let k = choose|k: int|
                {
                    &&& 0 <= k < head.len()
                    &&& (#[trigger] head[k]).archived_at is None
                    &&& head[k].trashed != Some(true)
                    &&& x == issue_item(head[k], include_comments)
                };
            assert(issues[k].archived_at is None);
        }
        if all.contains(x) && !before.contains(x) {
            let m = choose|m: int| 0 <= m < all.len() && all[m] == x;
            if m < before.len() {
                assert(before[m] == x);
            }
            assert(issues[n].archived_at is None);
        }
        if exists|k: int|
            {
                &&& 0 <= k < issues.len()
                &&& (#[trigger] issues[k]).archived_at is None
                &&& issues[k].trashed != Some(true)
                &&& x == issue_item(issues[k], include_comments)
            } {
            let k = choose|k: int|
                {
                    &&& 0 <= k < issues.len()
                    &&& (#[trigger] issues[k]).archived_at is None
                    &&& issues[k].trashed != Some(true)
                    &&& x == issue_item(issues[k], include_comments)
                };
            if k < n {
                assert(head[k].archived_at is None);
                assert(before.contains(x));
            } else {
                assert(all[before.len() as int] == x);
            }
        }
    }
}

/// A stored path is deleted exactly if it is that of an issue and no issue that
/// stays has it.
pub proof fn law_only_lost_issues_are_deleted(
    issues: Seq<IssueView>,
    include_comments: bool,
    ctx: FetchContextView,
    path: Seq<char>,
)
    ensures
        is_stale(active_items(issues, include_comments), ctx, path) <==> {
            &&& ctx.stored_hashes.contains_key(path)
            &&& has_prefix(path, "linear://"@)
            &&& forall|k: int|
                0 <= k < issues.len() && (#[trigger] issues[k]).archived_at is None
                    && issues[k].trashed != Some(true) ==> path != "linear://"@
                    + issues[k].identifier
        },
{
    let items = active_items(issues, include_comments);
    if is_active(items, path) {
        let m = choose|m: int| 0 <= m < items.len() && (#[trigger] items[m]).source_path == path;
        assert(items.contains(items[m]));
        law_archived_and_trashed_issues_go(issues, include_comments, items[m]);
    } else {
        assert forall|k: int|
            0 <= k < issues.len() && (#[trigger] issues[k]).archived_at is None
                && issues[k].trashed != Some(true) implies path != "linear://"@
            + issues[k].identifier by {
            let x = issue_item(issues[k], include_comments);
            law_archived_and_trashed_issues_go(issues, include_comments, x);
            assert(items.contains(x));
            let m = choose|m: int| 0 <= m < items.len() && items[m] == x;
            assert(items[m].source_path != path);
        }
    }
}

/// The cursor is the latest time at which any of the issues was updated.
pub proof fn law_cursor_is_the_latest_update(issues: Seq<IssueView>)
    ensures
        match latest(issues) {
            Some(t) => (exists|k: int|
                0 <= k < issues.len() && (#[trigger] issues[k]).updated_at == Some(t)) && forall|
                k: int,
            |
                0 <= k < issues.len() && (#[trigger] issues[k]).updated_at is Some ==> !precedes(
                    t,
                    issues[k].updated_at->0,
                ),
            None => forall|k: int|
                0 <= k < issues.len() ==> (#[trigger] issues[k]).updated_at is None,
        },
    decreases issues.len(),
{
    if issues.len() > 0 {
        let head = issues.drop_last();
        let n = head.len() as int;
        law_cursor_is_the_latest_update(head);
        assert(forall|k: int| 0 <= k < n ==> #[trigger] issues[k] == head[k]);
        assert(issues[n] == issues.last());
        if let Some(a) = latest(head) {
            let k0 = choose|k: int|
                0 <= k < head.len() && (#[trigger] head[k]).updated_at == Some(a);
            assert(issues[k0].updated_at == Some(a));
            if let Some(b) = issues.last().updated_at {
                lemma_precedes_irreflexive(a);
                lemma_precedes_irreflexive(b);
                if precedes(b, a) {
                    if precedes(a, b) {
                        lemma_precedes_transitive(a, b, a);
                    }
                } else {
                    assert forall|k: int|
                        0 <= k < issues.len() && (#[trigger] issues[k]).updated_at
                            is Some implies !precedes(b, issues[k].updated_at->0) by {
                        let u = issues[k].updated_at->0;
                        if k < n && precedes(b, u) {
                            assert(head[k].updated_at is Some);
                            lemma_precedes_total(a, b);
                            if precedes(a, b) {
                                lemma_precedes_transitive(a, b, u);
                            }
                        }
                    }
                }
            }
        }
        if let Some(b) = issues.last().updated_at {
            lemma_precedes_irreflexive(b);
        }
    }
}

/// What is asked for and what is kept of the pages: a request asks for what is
/// missing, up to a page, behind the last page's cursor; a page's issues go behind
/// the others; and fetching goes on exactly if the page had issues, says that more
/// follow, and says where. In the end the first of the issues are kept, as many as
/// asked for.
pub proof fn law_pages_are_collected(p: IssuePagesView, page: IssueConnectionView, amount: int)
    requires
        0 <= amount,
    ensures
        request_of(p, amount) is None <==> p.ended || p.collected.len() >= amount,
        request_of(p, amount) matches Some(r) ==> {
            &&& r.after == p.after
            &&& r.first <= PAGE_SIZE
            &&& r.first <= amount - p.collected.len()
            &&& r.first == PAGE_SIZE || r.first == amount - p.collected.len()
        },
        with_page(p, page).collected.len() == p.collected.len() + page.nodes.len(),
        with_page(p, page).collected.take(p.collected.len() as int) == p.collected,
        with_page(p, page).collected.skip(p.collected.len() as int) == page.nodes,
        !with_page(p, page).ended <==> page.nodes.len() > 0 && page.page_info.has_next_page
            && page.page_info.end_cursor is Some,
        !with_page(p, page).ended ==> with_page(p, page).after == page.page_info.end_cursor,
        finished(p, amount).len() == if p.collected.len() < amount {
            p.collected.len() as int
        } else {
            amount
        },
        forall|k: int|
            0 <= k < finished(p, amount).len() ==> #[trigger] finished(p, amount)[k]
                == p.collected[k],
{
    let q = with_page(p, page);
    assert(q.collected.take(p.collected.len() as int) =~= p.collected);
    assert(q.collected.skip(p.collected.len() as int) =~= page.nodes);
}

/// A setting that is given is the one that holds, and one that is not has its
/// default: fifty issues by the time of their update, of every team, with their
/// comments.
pub proof fn law_given_settings_hold(s: Seq<SettingView>)
    ensures
        settings_of(s) matches Ok(t) ==> {
            &&& match setting_value(s, "amount"@) {
                Some(v) => unsigned_value(v) matches Some(n) && t.amount == n as usize,
                None => t.amount == 50,
            }
            &&& match setting_value(s, "order_by"@) {
                Some(v) => text_value(v) == Some(t.order_by),
                None => t.order_by == "updatedAt"@,
            }
            &&& t.order_by == "updatedAt"@ || t.order_by == "createdAt"@
            &&& match setting_value(s, "team"@) {
                Some(v) => t.team is Some && text_value(v) == t.team,
                None => t.team is None,
            }
            &&& match setting_value(s, "include_comments"@) {
                Some(v) => bool_value(v) == Some(t.include_comments),
                None => t.include_comments,
            }
            &&& match setting_value(s, "api_key_env"@) {
                Some(v) => text_value(v) == Some(t.api_key_env),
                None => t.api_key_env == "LINEAR_API_KEY"@,
            }
        },
        settings_of(s) matches Err(e) ==> match e {
            LinearErrorView::AmountNotAnInteger => setting_value(s, "amount"@) matches Some(v)
                && unsigned_value(v) is None,
            LinearErrorView::OrderByNotAString => setting_value(s, "order_by"@) matches Some(v)
                && text_value(v) is None,
            LinearErrorView::OrderByUnknown { given } => setting_value(s, "order_by"@) matches Some(
                v,
            ) && text_value(v) == Some(given) && given != "updatedAt"@ && given != "createdAt"@,
            LinearErrorView::TeamNotAString => setting_value(s, "team"@) matches Some(v)
                && text_value(v) is None,
            LinearErrorView::IncludeCommentsNotABoolean => setting_value(
                s,
                "include_comments"@,
            ) matches Some(v) && bool_value(v) is None,
            LinearErrorView::ApiKeyEnvNotAString => setting_value(s, "api_key_env"@) matches Some(v)
                && text_value(v) is None,
        },
{
}

} // verus!
