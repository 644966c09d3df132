//! The Notion tap: pages as documents, with a section per heading. Indexing is
//! additive: nothing is ever deleted.
use vstd::prelude::*;
use vstd::utf8::encode_utf8;

use crate::bytes::{is_boundary, text_between, Source};
use crate::config::value::{bool_value, setting_value, text_value, Settings, SettingView};
use crate::hash::{short_hash, short_hash_of};
use crate::json::{bool_of, items_of, member, members_of, text_of, Json, Member};
use crate::tap::{changed_items, select_changed, FetchContext, FetchResult, FetchResultView,
    SourceChunk, SourceChunkView, SourceItem, SourceItemView};
use crate::text::{
    after_last, decimal, from_chars, has_prefix, has_suffix, is_blank,
    law_trimming_takes_only_whitespace, lemma_part_at_end, lemma_part_between, lemma_part_of_part,
    lemma_part_stays, lower, lowered, occurs, occurs_at, same, show_u64, tail_after,
    to_ascii_lowercase, to_chars, trim, trimmed, trimmed_start,
};

verus! {

/// How many blocks one request brings at most.
pub const PAGE_SIZE: u32 = 100;

/// How many times a request is retried.
pub const MAX_RETRIES: usize = 3;

/// URI scheme of a page's `source_path`.
pub const SOURCE_SCHEME: &'static str = "notion://";

/// The server.
pub const DEFAULT_BASE_URL: &'static str = "https://api.notion.com";

/// The settings of the tap.
#[derive(Debug)]
pub struct NotionTapSettings {
    /// The token itself; goes before `api_key_env`.
    pub api_key: Option<String>,
    /// Name of the environment variable that holds the token.
    pub api_key_env: String,
    /// The version of the API.
    pub notion_version: String,
    /// Whether headings become sections.
    pub include_sections: bool,
}

/// What a [`NotionTapSettings`] holds.
#[verifier::ext_equal]
pub struct NotionTapSettingsView {
    pub api_key: Option<Seq<char>>,
    pub api_key_env: Seq<char>,
    pub notion_version: Seq<char>,
    pub include_sections: bool,
}

impl DeepView for NotionTapSettings {
    type V = NotionTapSettingsView;

    open spec fn deep_view(&self) -> NotionTapSettingsView {
        NotionTapSettingsView {
            api_key: self.api_key.deep_view(),
            api_key_env: self.api_key_env@,
            notion_version: self.notion_version@,
            include_sections: self.include_sections,
        }
    }
}

impl Clone for NotionTapSettings {
    fn clone(&self) -> (r: Self)
        ensures
            r.deep_view() == self.deep_view(),
    {
        NotionTapSettings {
            api_key: self.api_key.clone(),
            api_key_env: self.api_key_env.clone(),
            notion_version: self.notion_version.clone(),
            include_sections: self.include_sections,
        }
    }
}

/// What a page says of itself.
#[derive(Debug)]
pub struct PageMeta {
    pub title: String,
    pub url: Option<String>,
}

/// What a [`PageMeta`] holds.
#[verifier::ext_equal]
pub struct PageMetaView {
    pub title: Seq<char>,
    pub url: Option<Seq<char>>,
}

impl DeepView for PageMeta {
    type V = PageMetaView;

    open spec fn deep_view(&self) -> PageMetaView {
        PageMetaView {
            title: self.title@,
            url: self.url.deep_view(),
        }
    }
}

impl Clone for PageMeta {
    fn clone(&self) -> (r: Self)
        ensures
            r.deep_view() == self.deep_view(),
    {
        PageMeta {
            title: self.title.clone(),
            url: self.url.clone(),
        }
    }
}

/// A block of a page, as far as it matters here.
#[derive(Debug)]
pub struct Block {
    pub id: String,
    /// `paragraph`, `heading_1`, `code`, `child_page` and so on.
    pub kind: String,
    /// Its plain text.
    pub text: String,
    /// The language of a `code` block.
    pub language: Option<String>,
    /// The title of a `child_page`.
    pub child_page_title: Option<String>,
    /// Whether it has children of its own.
    pub has_children: bool,
}

/// What a [`Block`] holds.
#[verifier::ext_equal]
pub struct BlockView {
    pub id: Seq<char>,
    pub kind: Seq<char>,
    pub text: Seq<char>,
    pub language: Option<Seq<char>>,
    pub child_page_title: Option<Seq<char>>,
    pub has_children: bool,
}

impl DeepView for Block {
    type V = BlockView;

    open spec fn deep_view(&self) -> BlockView {
        BlockView {
            id: self.id@,
            kind: self.kind@,
            text: self.text@,
            language: self.language.deep_view(),
            child_page_title: self.child_page_title.deep_view(),
            has_children: self.has_children,
        }
    }
}

impl Clone for Block {
    fn clone(&self) -> (r: Self)
        ensures
            r.deep_view() == self.deep_view(),
    {
        Block {
            id: self.id.clone(),
            kind: self.kind.clone(),
            text: self.text.clone(),
            language: self.language.clone(),
            child_page_title: self.child_page_title.clone(),
            has_children: self.has_children,
        }
    }
}

/// One page of a block's children.
#[derive(Debug)]
pub struct BlockPage {
    pub blocks: Vec<Block>,
    pub next_cursor: Option<String>,
}

/// What a [`BlockPage`] holds.
#[verifier::ext_equal]
pub struct BlockPageView {
    pub blocks: Seq<BlockView>,
    pub next_cursor: Option<Seq<char>>,
}

impl DeepView for BlockPage {
    type V = BlockPageView;

    open spec fn deep_view(&self) -> BlockPageView {
        BlockPageView {
            blocks: self.blocks.deep_view(),
            next_cursor: self.next_cursor.deep_view(),
        }
    }
}

impl Clone for BlockPage {
    fn clone(&self) -> (r: Self)
        ensures
            r.deep_view() == self.deep_view(),
    {
        BlockPage {
            blocks: self.blocks.clone(),
            next_cursor: self.next_cursor.clone(),
        }
    }
}

/// What stands under a heading.
#[derive(Debug)]
pub struct Section {
    pub name: String,
    pub body: String,
}

/// What a [`Section`] holds.
#[verifier::ext_equal]
pub struct SectionView {
    pub name: Seq<char>,
    pub body: Seq<char>,
}

impl DeepView for Section {
    type V = SectionView;

    open spec fn deep_view(&self) -> SectionView {
        SectionView {
            name: self.name@,
            body: self.body@,
        }
    }
}

impl Clone for Section {
    fn clone(&self) -> (r: Self)
        ensures
            r.deep_view() == self.deep_view(),
    {
        Section {
            name: self.name.clone(),
            body: self.body.clone(),
        }
    }
}

/// What may be wrong with the settings.
#[derive(Clone, Copy, PartialEq, Eq, Structural, Debug)]
pub enum NotionError {
    ApiKeyNotAString,
    ApiKeyEnvNotAString,
    VersionNotAString,
    IncludeSectionsNotABoolean,
}

impl NotionError {
    /// The error in words.
    pub open spec fn words(self) -> Seq<char> {
        match self {
            NotionError::ApiKeyNotAString => "notion tap: 'api_key' must be a string"@,
            NotionError::ApiKeyEnvNotAString => "notion tap: 'api_key_env' must be a string"@,
            NotionError::VersionNotAString => "notion tap: 'notion_version' must be a string"@,
            NotionError::IncludeSectionsNotABoolean =>
                "notion tap: 'include_sections' must be a boolean"@,
        }
    }

    /// The error as text.
    pub fn message(self) -> (r: String)
        ensures
            r@ == self.words(),
    {
        let s = match self {
            NotionError::ApiKeyNotAString => "notion tap: 'api_key' must be a string",
            NotionError::ApiKeyEnvNotAString => "notion tap: 'api_key_env' must be a string",
            NotionError::VersionNotAString => "notion tap: 'notion_version' must be a string",
            NotionError::IncludeSectionsNotABoolean =>
                "notion tap: 'include_sections' must be a boolean",
        };
        s.to_string()
    }
}

/// A setting that has to be a text.
pub open spec fn text_setting(
    s: Seq<SettingView>,
    key: Seq<char>,
    default: Seq<char>,
    e: NotionError,
) -> Result<Seq<char>, NotionError> {
    match setting_value(s, key) {
        None => Ok(default),
        Some(v) => match text_value(v) {
            Some(t) => Ok(t),
            None => Err(e),
        },
    }
}

/// What the settings say of `api_key`.
pub open spec fn api_key_of(s: Seq<SettingView>) -> Result<Option<Seq<char>>, NotionError> {
    match setting_value(s, "api_key"@) {
        None => Ok(None),
        Some(v) => match text_value(v) {
            Some(t) => Ok(Some(t)),
            None => Err(NotionError::ApiKeyNotAString),
        },
    }
}

/// What the settings say of `include_sections`.
pub open spec fn sections_of(s: Seq<SettingView>) -> Result<bool, NotionError> {
    match setting_value(s, "include_sections"@) {
        None => Ok(true),
        Some(v) => match bool_value(v) {
            Some(b) => Ok(b),
            None => Err(NotionError::IncludeSectionsNotABoolean),
        },
    }
}

/// The tap's settings, or the first thing wrong with them. Keys of others, such
/// as `decay`, are passed over.
pub open spec fn settings_of(s: Seq<SettingView>) -> Result<NotionTapSettingsView, NotionError> {
    match (
        api_key_of(s),
        text_setting(s, "api_key_env"@, "NOTION_API_KEY"@, NotionError::ApiKeyEnvNotAString),
        text_setting(s, "notion_version"@, "2026-03-11"@, NotionError::VersionNotAString),
        sections_of(s),
    ) {
        (Err(e), _, _, _) => Err(e),
        (_, Err(e), _, _) => Err(e),
        (_, _, Err(e), _) => Err(e),
        (_, _, _, Err(e)) => Err(e),
        (Ok(api_key), Ok(api_key_env), Ok(notion_version), Ok(include_sections)) => Ok(
            NotionTapSettingsView { api_key, api_key_env, notion_version, include_sections },
        ),
    }
}

impl Default for NotionTapSettings {
    fn default() -> (r: NotionTapSettings)
        ensures
            r.deep_view() == (NotionTapSettingsView {
                api_key: None,
                api_key_env: "NOTION_API_KEY"@,
                notion_version: "2026-03-11"@,
                include_sections: true,
            }),
    {
        NotionTapSettings {
            api_key: None,
            api_key_env: "NOTION_API_KEY".to_string(),
            notion_version: "2026-03-11".to_string(),
            include_sections: true,
        }
    }
}

impl NotionTapSettings {
    /// Reads the tap's untyped settings.
    pub fn from_settings(settings: &Settings) -> (r: Result<NotionTapSettings, NotionError>)
        ensures
            match r {
                Ok(s) => settings_of(settings.deep_view().entries) == Ok::<
                    NotionTapSettingsView,
                    NotionError,
                >(s.deep_view()),
                Err(e) => settings_of(settings.deep_view().entries) == Err::<
                    NotionTapSettingsView,
                    NotionError,
                >(e),
            },
    {
        let mut out = NotionTapSettings::default();
        if let Some(v) = settings.get("api_key") {
            match v.as_text() {
                Some(t) => {
                    out.api_key = Some(t.to_string());
                },
                None => {
                    return Err(NotionError::ApiKeyNotAString);
                },
            }
        }
        if let Some(v) = settings.get("api_key_env") {
            match v.as_text() {
                Some(t) => {
                    out.api_key_env = t.to_string();
                },
                None => {
                    return Err(NotionError::ApiKeyEnvNotAString);
                },
            }
        }
        if let Some(v) = settings.get("notion_version") {
            match v.as_text() {
                Some(t) => {
                    out.notion_version = t.to_string();
                },
                None => {
                    return Err(NotionError::VersionNotAString);
                },
            }
        }
        if let Some(v) = settings.get("include_sections") {
            match v.as_bool() {
                Some(b) => {
                    out.include_sections = b;
                },
                None => {
                    return Err(NotionError::IncludeSectionsNotABoolean);
                },
            }
        }
        Ok(out)
    }

    /// The token: the one in the settings unless it is empty, or else that of
    /// the environment.
    pub fn token(&self, from_env: &Option<String>) -> (r: Option<String>)
        ensures
            r.deep_view() == token_of(self.deep_view(), from_env.deep_view()),
    {
        if let Some(k) = &self.api_key {
            if k.as_str().unicode_len() > 0 {
                return Some(k.clone());
            }
        }
        from_env.clone()
    }
}

/// The token: the one in the settings unless it is empty, or else that of the
/// environment.
pub open spec fn token_of(s: NotionTapSettingsView, from_env: Option<Seq<char>>) -> Option<
    Seq<char>,
> {
    match s.api_key {
        Some(k) => if k.len() > 0 {
            Some(k)
        } else {
            from_env
        },
        None => from_env,
    }
}

// ---------------------------------------------------------------------------
// Page ids
// ---------------------------------------------------------------------------

/// `s` up to the first `?` or `#`.
pub open spec fn before_query(s: Seq<char>) -> Seq<char>
    decreases s.len(),
{
    if s.len() == 0 || s[0] == '?' || s[0] == '#' {
        Seq::<char>::empty()
    } else {
        seq![s[0]] + before_query(s.drop_first())
    }
}

/// `s` without its dashes.
pub open spec fn without_dashes(s: Seq<char>) -> Seq<char>
    decreases s.len(),
{
    if s.len() == 0 {
        s
    } else if s.last() == '-' {
        without_dashes(s.drop_last())
    } else {
        without_dashes(s.drop_last()).push(s.last())
    }
}

/// The last path segment of an input, without query, fragment and dashes.
pub open spec fn compact_of(input: Seq<char>) -> Seq<char> {
    without_dashes(after_last(before_query(trimmed(input)), '/'))
}

/// The number of bytes of the compact form.
pub open spec fn compact_size(input: Seq<char>) -> int {
    encode_utf8(compact_of(input)).len() as int
}

/// The last 32 bytes of the compact form, in lower case.
pub open spec fn raw_id(input: Seq<char>) -> Seq<char> {
    lowered(
        text_between(compact_of(input), compact_size(input) - 32, compact_size(input))->0,
    )
}

/// Whether a character is a lower-case or upper-case hexadecimal digit.
pub open spec fn is_hex(c: char) -> bool {
    '0' <= c <= '9' || 'a' <= c <= 'f' || 'A' <= c <= 'F'
}

/// Whether every character is a hexadecimal digit.
pub open spec fn all_hex(s: Seq<char>) -> bool {
    forall|i: int| 0 <= i < s.len() ==> is_hex(#[trigger] s[i])
}

/// An id in groups of 8, 4, 4, 4 and 12.
pub open spec fn dashed(id: Seq<char>) -> Seq<char> {
    id.subrange(0, 8) + "-"@ + id.subrange(8, 12) + "-"@ + id.subrange(12, 16) + "-"@
        + id.subrange(16, 20) + "-"@ + id.subrange(20, 32)
}

/// Why an input holds no page id.
#[derive(Debug)]
pub enum PageIdError {
    /// There are not enough characters.
    TooShort { input: String },
    /// The last 32 are not hexadecimal.
    NotHex { input: String },
}

impl PageIdError {
    /// The error as text.
    pub fn message(&self) -> (r: String)
        ensures
            r@ == match self {
                PageIdError::TooShort { input } => "could not extract a Notion page id from '"@
                    + input@ + "'"@,
                PageIdError::NotHex { input } => "could not extract a Notion page id from '"@
                    + input@ + "' (not a 32-hex id)"@,
            },
    {
        match self {
            PageIdError::TooShort { input } => {
                let mut r = "could not extract a Notion page id from '".to_string();
                r.append(input.as_str());
                r.append("'");
                r
            },
            PageIdError::NotHex { input } => {
                let mut r = "could not extract a Notion page id from '".to_string();
                r.append(input.as_str());
                r.append("' (not a 32-hex id)");
                r
            },
        }
    }
}

fn cut_query(s: &str) -> (r: String)
    ensures
        r@ == before_query(s@),
{
    let v = to_chars(s);
    let mut out = String::new();
    let mut i: usize = 0;
    proof {
        assert(s@.skip(0) =~= s@);
        assert(out@ + before_query(s@) =~= before_query(s@));
    }
    while i < v.len() && v[i] != '?' && v[i] != '#'
        invariant
            i <= v@.len(),
            v@ == s@,
            out@ + before_query(s@.skip(i as int)) == before_query(s@),
        decreases v@.len() - i,
    {
        let ghost before = out@;
        out.push(v[i]);
        proof {
            assert(s@.skip(i as int).drop_first() =~= s@.skip(i + 1));
            assert(before + (seq![s@[i as int]] + before_query(s@.skip(i + 1))) =~= out@
                + before_query(s@.skip(i + 1)));
        }
        i += 1;
    }
    assert(before_query(s@.skip(i as int)) =~= Seq::<char>::empty());
    assert(out@ + Seq::<char>::empty() =~= out@);
    out
}

fn drop_dashes(s: &str) -> (r: String)
    ensures
        r@ == without_dashes(s@),
{
    let v = to_chars(s);
    let mut out = String::new();
    let mut i: usize = 0;
    assert(out@ =~= without_dashes(s@.take(0)));
    while i < v.len()
        invariant
            i <= v@.len(),
            v@ == s@,
            out@ == without_dashes(s@.take(i as int)),
        decreases v@.len() - i,
    {
        assert(s@.take(i + 1).drop_last() =~= s@.take(i as int));
        if v[i] != '-' {
            out.push(v[i]);
        }
        i += 1;
    }
    assert(s@.take(i as int) =~= s@);
    out
}

fn every_hex(v: &Vec<char>) -> (r: bool)
    ensures
        r == all_hex(v@),
{
    let mut i: usize = 0;
    while i < v.len()
        invariant
            i <= v@.len(),
            forall|j: int| 0 <= j < i ==> is_hex(#[trigger] v@[j]),
        decreases v@.len() - i,
    {
        let c = v[i];
        assert(is_hex(v@[i as int]) == (('0' <= c && c <= '9') || ('a' <= c && c <= 'f') || ('A'
            <= c && c <= 'F')));
        if !(('0' <= c && c <= '9') || ('a' <= c && c <= 'f') || ('A' <= c && c <= 'F')) {
            return false;
        }
        i += 1;
    }
    true
}

/// Finds the page id in a URL or an id, with or without dashes, and writes it
/// as a dashed lower-case UUID.
pub fn parse_page_id(input: &str) -> (r: Result<String, PageIdError>)
    requires
        compact_size(input@) >= 32 ==> is_boundary(compact_of(input@), compact_size(input@) - 32),
    ensures
        match r {
            Ok(id) => compact_size(input@) >= 32 && all_hex(raw_id(input@)) && id@ == dashed(
                raw_id(input@),
            ),
            Err(PageIdError::TooShort { input: i }) => i@ == input@ && compact_size(input@) < 32,
            Err(PageIdError::NotHex { input: i }) => i@ == input@ && compact_size(input@) >= 32
                && !all_hex(raw_id(input@)),
        },
{
    let t = trim(input);
    let path = cut_query(t.as_str());
    let segment = tail_after(path.as_str(), '/');
    let compact = drop_dashes(segment.as_str());
    let size: usize = compact.as_str().as_bytes().len();
    if size < 32 {
        return Err(PageIdError::TooShort { input: input.to_string() });
    }
    let src = Source::new(compact.as_str());
    proof {
        crate::bytes::lemma_suffix_text(compact@, size - 32);
    }
    let tail = match src.slice(size - 32, size) {
        Some(s) => s,
        None => String::new(),
    };
    let id = to_ascii_lowercase(tail.as_str());
    let v = to_chars(id.as_str());
    if !every_hex(&v) {
        return Err(PageIdError::NotHex { input: input.to_string() });
    }
    proof {
        assert forall|i: int| 0 <= i < tail@.len() implies (#[trigger] tail@[i] as u32) < 0x80 by {
            assert(id@[i] == lower(tail@[i]));
            assert(is_hex(id@[i]));
        }
        crate::bytes::lemma_ascii_size(tail@);
    }
    let mut r = from_chars(v.as_slice(), 0, 8);
    r.append("-");
    r.append(from_chars(v.as_slice(), 8, 12).as_str());
    r.append("-");
    r.append(from_chars(v.as_slice(), 12, 16).as_str());
    r.append("-");
    r.append(from_chars(v.as_slice(), 16, 20).as_str());
    r.append("-");
    r.append(from_chars(v.as_slice(), 20, 32).as_str());
    Ok(r)
}

// ---------------------------------------------------------------------------
// Reading replies
// ---------------------------------------------------------------------------

/// The text under a key, where there is one.
pub open spec fn text_at(v: Json, key: Seq<char>) -> Option<Seq<char>> {
    match member(v, key) {
        Some(x) => text_of(x),
        None => None,
    }
}

/// The plain texts of a list of rich texts, one after the other.
pub open spec fn plain_of(items: Seq<Json>) -> Seq<char>
    decreases items.len(),
{
    if items.len() == 0 {
        Seq::<char>::empty()
    } else {
        match text_at(items.last(), "plain_text"@) {
            Some(t) => plain_of(items.drop_last()) + t,
            None => plain_of(items.drop_last()),
        }
    }
}

/// The plain text of a `rich_text` array.
pub open spec fn rich_text_of(v: Json) -> Seq<char> {
    match items_of(v) {
        Some(items) => plain_of(items),
        None => Seq::<char>::empty(),
    }
}

/// The plain text of a `rich_text` array.
pub fn rich_text_plain(v: &Json) -> (r: String)
    ensures
        r@ == rich_text_of(*v),
{
    let mut out = String::new();
    if let Some(items) = v.as_items() {
        let mut i: usize = 0;
        assert(out@ =~= plain_of(items@.take(0)));
        while i < items.len()
            invariant
                i <= items@.len(),
                out@ == plain_of(items@.take(i as int)),
            decreases items@.len() - i,
        {
            proof {
                assert(items@.take(i + 1).drop_last() =~= items@.take(i as int));
                assert(items@.take(i + 1).last() == items@[i as int]);
            }
            if let Some(t) = get_text(&items[i], "plain_text") {
                out.append(t);
            }
            i += 1;
        }
        assert(items@.take(i as int) =~= items@);
    } else {
        assert(out@ =~= Seq::<char>::empty());
    }
    out
}

fn get_text<'a>(v: &'a Json, key: &str) -> (r: Option<&'a str>)
    ensures
        r.deep_view() == text_at(*v, key@),
{
    match v.get(key) {
        Some(x) => x.as_text(),
        None => None,
    }
}

/// The title a property holds, where it is the title property.
pub open spec fn title_in(prop: Json) -> Option<Seq<char>> {
    if text_at(prop, "type"@) == Some("title"@) {
        match member(prop, "title"@) {
            Some(t) => Some(rich_text_of(t)),
            None => None,
        }
    } else {
        None
    }
}

/// The title of the first property from `i` on that holds one.
pub open spec fn first_title(props: Seq<Member>, i: int) -> Option<Seq<char>>
    decreases props.len() - i,
{
    if i < 0 || i >= props.len() {
        None
    } else {
        match title_in(props[i].value) {
            Some(t) => Some(t),
            None => first_title(props, i + 1),
        }
    }
}

/// A page's title: that of its title property, or `Untitled`.
pub open spec fn page_title(v: Json) -> Seq<char> {
    let found = match member(v, "properties"@) {
        Some(p) => match members_of(p) {
            Some(props) => first_title(props, 0),
            None => None,
        },
        None => None,
    };
    match found {
        Some(t) => if t.len() > 0 {
            t
        } else {
            "Untitled"@
        },
        None => "Untitled"@,
    }
}

fn find_title(v: &Json) -> (r: Option<String>)
    ensures
        r.deep_view() == match member(*v, "properties"@) {
            Some(p) => match members_of(p) {
                Some(props) => first_title(props, 0),
                None => None,
            },
            None => None,
        },
{
    let props = match v.get("properties") {
        Some(p) => match p.as_members() {
            Some(m) => m,
            None => {
                return None;
            },
        },
        None => {
            return None;
        },
    };
    let mut i: usize = 0;
    while i < props.len()
        invariant
            i <= props@.len(),
            match member(*v, "properties"@) {
                Some(p) => members_of(p) == Some(props@),
                None => false,
            },
            first_title(props@, 0) == first_title(props@, i as int),
        decreases props@.len() - i,
    {
        let prop = &props[i].value;
        if let Some(kind) = get_text(prop, "type") {
            if same(kind, "title") {
                if let Some(t) = prop.get("title") {
                    return Some(rich_text_plain(t));
                }
            }
        }
        i += 1;
    }
    None
}

/// Reads a page object.
pub fn parse_page_meta(v: &Json) -> (r: PageMeta)
    ensures
        r.deep_view() == (PageMetaView { title: page_title(*v), url: text_at(*v, "url"@) }),
{
    let title = match find_title(v) {
        Some(t) => if t.as_str().unicode_len() > 0 {
            t
        } else {
            "Untitled".to_string()
        },
        None => "Untitled".to_string(),
    };
    let url = match get_text(v, "url") {
        Some(u) => Some(u.to_string()),
        None => None,
    };
    PageMeta { title, url }
}

/// A block object, where it has a type and an id.
pub open spec fn block_of(v: Json) -> Option<BlockView> {
    match (text_at(v, "type"@), text_at(v, "id"@)) {
        (Some(kind), Some(id)) => {
            let inner = member(v, kind);
            Some(
                BlockView {
                    id,
                    kind,
                    text: match inner {
                        Some(o) => match member(o, "rich_text"@) {
                            Some(r) => rich_text_of(r),
                            None => Seq::<char>::empty(),
                        },
                        None => Seq::<char>::empty(),
                    },
                    language: match inner {
                        Some(o) => text_at(o, "language"@),
                        None => None,
                    },
                    child_page_title: if kind == "child_page"@ {
                        match inner {
                            Some(o) => text_at(o, "title"@),
                            None => None,
                        }
                    } else {
                        None
                    },
                    has_children: match member(v, "has_children"@) {
                        Some(b) => bool_of(b) == Some(true),
                        None => false,
                    },
                },
            )
        },
        _ => None,
    }
}

fn owned(t: Option<&str>) -> (r: Option<String>)
    ensures
        r.deep_view() == t.deep_view(),
{
    match t {
        Some(s) => Some(s.to_string()),
        None => None,
    }
}

fn is_true(v: Option<&Json>) -> (r: bool)
    ensures
        r == (v matches Some(b) && bool_of(*b) == Some(true)),
{
    match v {
        Some(b) => match b.as_bool() {
            Some(x) => x,
            None => false,
        },
        None => false,
    }
}

/// Reads a block object.
pub fn parse_block(v: &Json) -> (r: Option<Block>)
    ensures
        r.deep_view() == block_of(*v),
{
    let kind = match get_text(v, "type") {
        Some(k) => k,
        None => {
            return None;
        },
    };
    let id = match get_text(v, "id") {
        Some(i) => i,
        None => {
            return None;
        },
    };
    let inner = v.get(kind);
    let text = match inner {
        Some(o) => match o.get("rich_text") {
            Some(t) => rich_text_plain(t),
            None => String::new(),
        },
        None => String::new(),
    };
    let language = match inner {
        Some(o) => owned(get_text(o, "language")),
        None => None,
    };
    let child_page_title = if same(kind, "child_page") {
        match inner {
            Some(o) => owned(get_text(o, "title")),
            None => None,
        }
    } else {
        None
    };
    let has_children = is_true(v.get("has_children"));
    let b = Block {
        id: id.to_string(),
        kind: kind.to_string(),
        text,
        language,
        child_page_title,
        has_children,
    };
    assert(b.text@ =~= block_of(*v)->0.text);
    Some(b)
}

/// The blocks of a list of objects; those without a type or an id are left out.
pub open spec fn blocks_of(items: Seq<Json>) -> Seq<BlockView>
    decreases items.len(),
{
    if items.len() == 0 {
        Seq::<BlockView>::empty()
    } else {
        match block_of(items.last()) {
            Some(b) => blocks_of(items.drop_last()).push(b),
            None => blocks_of(items.drop_last()),
        }
    }
}

/// A page of children: the blocks, and where to go on, if there is more.
pub open spec fn block_page_of(v: Json) -> BlockPageView {
    BlockPageView {
        blocks: match member(v, "results"@) {
            Some(r) => match items_of(r) {
                Some(items) => blocks_of(items),
                None => Seq::<BlockView>::empty(),
            },
            None => Seq::<BlockView>::empty(),
        },
        next_cursor: if member(v, "has_more"@) matches Some(b) && bool_of(b) == Some(true) {
            text_at(v, "next_cursor"@)
        } else {
            None
        },
    }
}

fn parse_blocks(items: &Vec<Json>) -> (r: Vec<Block>)
    ensures
        r.deep_view() == blocks_of(items@),
{
    let mut out: Vec<Block> = Vec::new();
    let mut i: usize = 0;
    assert(out.deep_view() =~= blocks_of(items@.take(0)));
    while i < items.len()
        invariant
            i <= items@.len(),
            out.deep_view() == blocks_of(items@.take(i as int)),
        decreases items@.len() - i,
    {
        let ghost before = out.deep_view();
        proof {
            assert(items@.take(i + 1).drop_last() =~= items@.take(i as int));
            assert(items@.take(i + 1).last() == items@[i as int]);
        }
        if let Some(b) = parse_block(&items[i]) {
            let ghost bv = b.deep_view();
            out.push(b);
            assert(out.deep_view() =~= before.push(bv));
        }
        i += 1;
    }
    assert(items@.take(i as int) =~= items@);
    out
}

/// Reads a page of children.
pub fn parse_block_page(v: &Json) -> (r: BlockPage)
    ensures
        r.deep_view() == block_page_of(*v),
{
    let blocks: Vec<Block> = match v.get("results") {
        Some(r) => match r.as_items() {
            Some(items) => parse_blocks(items),
            None => Vec::new(),
        },
        None => Vec::new(),
    };
    assert(blocks.deep_view() =~= block_page_of(*v).blocks);
    let next_cursor = if is_true(v.get("has_more")) {
        owned(get_text(v, "next_cursor"))
    } else {
        None
    };
    BlockPage { blocks, next_cursor }
}

// ---------------------------------------------------------------------------
// Walking a page's blocks
// ---------------------------------------------------------------------------

/// A block whose children are being read: the page at hand, how far it has been
/// read, and where the next page begins.
#[derive(Debug)]
pub struct Frame {
    pub block_id: String,
    pub blocks: Vec<Block>,
    pub at: usize,
    pub next_cursor: Option<String>,
}

/// What a [`Frame`] holds.
#[verifier::ext_equal]
pub struct FrameView {
    pub block_id: Seq<char>,
    pub blocks: Seq<BlockView>,
    pub at: nat,
    pub next_cursor: Option<Seq<char>>,
}

impl DeepView for Frame {
    type V = FrameView;

    open spec fn deep_view(&self) -> FrameView {
        FrameView {
            block_id: self.block_id@,
            blocks: self.blocks.deep_view(),
            at: self.at as nat,
            next_cursor: self.next_cursor.deep_view(),
        }
    }
}

impl Clone for Frame {
    fn clone(&self) -> (r: Self)
        ensures
            r.deep_view() == self.deep_view(),
    {
        Frame {
            block_id: self.block_id.clone(),
            blocks: self.blocks.clone(),
            at: self.at,
            next_cursor: self.next_cursor.clone(),
        }
    }
}

/// The blocks of a page read so far, and the blocks whose children are being
/// read, outermost first.
#[derive(Debug)]
pub struct BlockWalk {
    pub out: Vec<Block>,
    pub frames: Vec<Frame>,
}

/// What a [`BlockWalk`] holds.
#[verifier::ext_equal]
pub struct BlockWalkView {
    pub out: Seq<BlockView>,
    pub frames: Seq<FrameView>,
}

impl DeepView for BlockWalk {
    type V = BlockWalkView;

    open spec fn deep_view(&self) -> BlockWalkView {
        BlockWalkView {
            out: self.out.deep_view(),
            frames: self.frames.deep_view(),
        }
    }
}

impl Clone for BlockWalk {
    fn clone(&self) -> (r: Self)
        ensures
            r.deep_view() == self.deep_view(),
    {
        BlockWalk {
            out: self.out.clone(),
            frames: self.frames.clone(),
        }
    }
}

/// A request for a page of a block's children.
#[derive(Debug)]
pub struct Fetch {
    pub block_id: String,
    pub cursor: Option<String>,
}

/// What a [`Fetch`] holds.
#[verifier::ext_equal]
pub struct FetchView {
    pub block_id: Seq<char>,
    pub cursor: Option<Seq<char>>,
}

impl DeepView for Fetch {
    type V = FetchView;

    open spec fn deep_view(&self) -> FetchView {
        FetchView {
            block_id: self.block_id@,
            cursor: self.cursor.deep_view(),
        }
    }
}

impl Clone for Fetch {
    fn clone(&self) -> (r: Self)
        ensures
            r.deep_view() == self.deep_view(),
    {
        Fetch {
            block_id: self.block_id.clone(),
            cursor: self.cursor.clone(),
        }
    }
}

/// Whether a block's children are read: sub-pages are only referred to.
pub open spec fn is_crawled(b: BlockView) -> bool {
    b.has_children && b.kind != "child_page"@
}

/// How many blocks are still to be read in the pages at hand.
pub open spec fn unread(frames: Seq<FrameView>) -> int
    decreases frames.len(),
{
    if frames.len() == 0 {
        0
    } else {
        unread(frames.drop_last()) + if frames.last().at < frames.last().blocks.len() {
            frames.last().blocks.len() - frames.last().at
        } else {
            0
        }
    }
}

/// What a walk comes to before it needs another page, and which one it needs:
/// blocks are read in order, a block's children right after it, and the next
/// page of a block once the one at hand is read.
pub open spec fn walked(w: BlockWalkView) -> (BlockWalkView, Option<FetchView>)
    decreases unread(w.frames), w.frames.len(),
{
    if w.frames.len() == 0 {
        (w, None)
    } else {
        let f = w.frames.last();
        let rest = w.frames.drop_last();
        if f.at < f.blocks.len() {
            let b = f.blocks[f.at as int];
            let read = FrameView { at: f.at + 1, ..f };
            let out = w.out.push(b);
            if is_crawled(b) {
                (
                    BlockWalkView { out, frames: rest.push(read).push(new_frame(b.id)) },
                    Some(FetchView { block_id: b.id, cursor: None }),
                )
            } else {
                proof {
                    lemma_unread_push(rest, f);
                    lemma_unread_push(rest, read);
                    lemma_unread_nonneg(rest);
                    assert(rest.push(f) =~= w.frames);
                }
                walked(BlockWalkView { out, frames: rest.push(read) })
            }
        } else {
            match f.next_cursor {
                Some(c) => (
                    BlockWalkView {
                        out: w.out,
                        frames: rest.push(FrameView { next_cursor: None, ..f }),
                    },
                    Some(FetchView { block_id: f.block_id, cursor: Some(c) }),
                ),
                None => {
                    proof {
                        lemma_unread_push(rest, f);
                        lemma_unread_nonneg(rest);
                        assert(rest.push(f) =~= w.frames);
                    }
                    walked(BlockWalkView { out: w.out, frames: rest })
                },
            }
        }
    }
}

/// A block none of whose children has been read.
pub open spec fn new_frame(block_id: Seq<char>) -> FrameView {
    FrameView { block_id, blocks: Seq::<BlockView>::empty(), at: 0, next_cursor: None }
}

/// A walk with the page it asked for.
pub open spec fn with_page(w: BlockWalkView, page: BlockPageView) -> BlockWalkView {
    if w.frames.len() == 0 {
        w
    } else {
        BlockWalkView {
            out: w.out,
            frames: w.frames.drop_last().push(
                FrameView {
                    block_id: w.frames.last().block_id,
                    blocks: page.blocks,
                    at: 0,
                    next_cursor: page.next_cursor,
                },
            ),
        }
    }
}

pub proof fn lemma_unread_push(rest: Seq<FrameView>, f: FrameView)
    ensures
        unread(rest.push(f)) == unread(rest) + if f.at < f.blocks.len() {
            f.blocks.len() - f.at
        } else {
            0
        },
{
    assert(rest.push(f).drop_last() =~= rest);
}

pub proof fn lemma_unread_nonneg(frames: Seq<FrameView>)
    ensures
        0 <= unread(frames),
    decreases frames.len(),
{
    if frames.len() > 0 {
        lemma_unread_nonneg(frames.drop_last());
    }
}

fn crawls(b: &Block) -> (r: bool)
    ensures
        r == is_crawled(b.deep_view()),
{
    b.has_children && !same(b.kind.as_str(), "child_page")
}

impl BlockWalk {
    /// A walk of a page, and the first request.
    pub fn new(page_id: &str) -> (r: (BlockWalk, Fetch))
        ensures
            r.0.deep_view() == (BlockWalkView {
                out: Seq::<BlockView>::empty(),
                frames: seq![new_frame(page_id@)],
            }),
            r.1.deep_view() == (FetchView { block_id: page_id@, cursor: None }),
    {
        let mut frames: Vec<Frame> = Vec::new();
        let f = Frame {
            block_id: page_id.to_string(),
            blocks: Vec::new(),
            at: 0,
            next_cursor: None,
        };
        assert(f.deep_view() =~= new_frame(page_id@));
        frames.push(f);
        let w = BlockWalk { out: Vec::new(), frames };
        assert(w.frames.deep_view() =~= seq![new_frame(page_id@)]);
        assert(w.out.deep_view() =~= Seq::<BlockView>::empty());
        (w, Fetch { block_id: page_id.to_string(), cursor: None })
    }

    /// Takes the page that was asked for.
    pub fn absorb(&mut self, page: BlockPage)
        ensures
            final(self).deep_view() == with_page(old(self).deep_view(), page.deep_view()),
    {
        let ghost fv = self.frames.deep_view();
        assert(fv.len() == self.frames@.len());
        if let Some(f) = self.frames.pop() {
            assert(self.frames.deep_view() =~= fv.drop_last());
            let g = Frame {
                block_id: f.block_id,
                blocks: page.blocks,
                at: 0,
                next_cursor: page.next_cursor,
            };
            let ghost gv = g.deep_view();
            self.frames.push(g);
            assert(self.frames.deep_view() =~= fv.drop_last().push(gv));
        }
    }

    /// Reads on until another page is needed, and says which.
    pub fn advance(&mut self) -> (r: Option<Fetch>)
        ensures
            walked(old(self).deep_view()) == (final(self).deep_view(), r.deep_view()),
    {
        let ghost start = self.deep_view();
        loop
            invariant
                start == old(self).deep_view(),
                walked(start) == walked(self.deep_view()),
            decreases unread(self.frames.deep_view()), self.frames@.len(),
        {
            let ghost w = self.deep_view();
            let ghost fv = self.frames.deep_view();
            let ghost ov = self.out.deep_view();
            assert(fv.len() == self.frames@.len());
            let mut f = match self.frames.pop() {
                Some(f) => f,
                None => {
                    assert(self.frames.deep_view() =~= fv);
                    return None;
                },
            };
            let ghost rest = fv.drop_last();
            let ghost f0 = f.deep_view();
            proof {
                assert(self.frames.deep_view() =~= rest);
                assert(f0 == fv.last());
                assert(f0.blocks.len() == f.blocks@.len());
                lemma_unread_push(rest, f0);
                lemma_unread_nonneg(rest);
                assert(rest.push(f0) =~= fv);
            }
            if f.at < f.blocks.len() {
                let b = f.blocks[f.at].clone();
                let ghost bv = b.deep_view();
                assert(bv == f0.blocks[f0.at as int]);
                f.at = f.at + 1;
                let ghost read = f.deep_view();
                proof {
                    assert(read == FrameView { at: f0.at + 1, ..f0 });
                    lemma_unread_push(rest, read);
                }
                let crawled = crawls(&b);
                let id = b.id.clone();
                self.out.push(b);
                assert(self.out.deep_view() =~= ov.push(bv));
                self.frames.push(f);
                assert(self.frames.deep_view() =~= rest.push(read));
                if crawled {
                    let g = Frame {
                        block_id: id.clone(),
                        blocks: Vec::new(),
                        at: 0,
                        next_cursor: None,
                    };
                    let ghost gv = g.deep_view();
                    assert(gv =~= new_frame(id@));
                    self.frames.push(g);
                    assert(self.frames.deep_view() =~= rest.push(read).push(gv));
                    return Some(Fetch { block_id: id, cursor: None });
                }
            } else {
                match f.next_cursor {
                    Some(c) => {
                        let block_id = f.block_id.clone();
                        let g = Frame {
                            block_id: f.block_id,
                            blocks: f.blocks,
                            at: f.at,
                            next_cursor: None,
                        };
                        let ghost gv = g.deep_view();
                        assert(gv == FrameView { next_cursor: None, ..f0 });
                        self.frames.push(g);
                        assert(self.frames.deep_view() =~= rest.push(gv));
                        return Some(Fetch { block_id, cursor: Some(c) });
                    },
                    None => {},
                }
            }
        }
    }
}

// ---------------------------------------------------------------------------
// Rendering
// ---------------------------------------------------------------------------

/// Whether a block is a heading.
pub open spec fn is_heading(kind: Seq<char>) -> bool {
    kind == "heading_1"@ || kind == "heading_2"@ || kind == "heading_3"@
}

/// A block as markdown, where it is no heading and says something.
pub open spec fn block_text(b: BlockView) -> Option<Seq<char>> {
    if is_heading(b.kind) {
        None
    } else if b.kind == "child_page"@ {
        Some(
            "[sub-page: "@ + match b.child_page_title {
                Some(t) => t,
                None => "untitled"@,
            } + "]"@,
        )
    } else if b.kind == "code"@ {
        Some(
            "```"@ + match b.language {
                Some(l) => l,
                None => ""@,
            } + "\n"@ + b.text + "\n```"@,
        )
    } else if b.kind == "bulleted_list_item"@ || b.kind == "to_do"@ || b.kind == "toggle"@ {
        Some("- "@ + b.text)
    } else if b.kind == "numbered_list_item"@ {
        Some("1. "@ + b.text)
    } else if b.kind == "quote"@ || b.kind == "callout"@ {
        Some("> "@ + b.text)
    } else if b.text.len() == 0 {
        None
    } else {
        Some(b.text)
    }
}

fn heading(kind: &str) -> (r: bool)
    ensures
        r == is_heading(kind@),
{
    same(kind, "heading_1") || same(kind, "heading_2") || same(kind, "heading_3")
}

/// Renders a block as markdown.
pub fn render_block(block: &Block) -> (r: Option<String>)
    ensures
        r.deep_view() == block_text(block.deep_view()),
{
    let kind = block.kind.as_str();
    if heading(kind) {
        None
    } else if same(kind, "child_page") {
        let mut r = "[sub-page: ".to_string();
        match &block.child_page_title {
            Some(t) => r.append(t.as_str()),
            None => r.append("untitled"),
        }
        r.append("]");
        Some(r)
    } else if same(kind, "code") {
        let mut r = "```".to_string();
        match &block.language {
            Some(l) => r.append(l.as_str()),
            None => r.append(""),
        }
        r.append("\n");
        r.append(block.text.as_str());
        r.append("\n```");
        Some(r)
    } else if same(kind, "bulleted_list_item") || same(kind, "to_do") || same(kind, "toggle") {
        let mut r = "- ".to_string();
        r.append(block.text.as_str());
        Some(r)
    } else if same(kind, "numbered_list_item") {
        let mut r = "1. ".to_string();
        r.append(block.text.as_str());
        Some(r)
    } else if same(kind, "quote") || same(kind, "callout") {
        let mut r = "> ".to_string();
        r.append(block.text.as_str());
        Some(r)
    } else if block.text.as_str().unicode_len() == 0 {
        None
    } else {
        Some(block.text.clone())
    }
}

/// How far a page has been split: the sections done, and the one at hand.
#[verifier::ext_equal]
pub struct SplitView {
    pub done: Seq<SectionView>,
    pub current: SectionView,
}

/// The sections done with the one at hand, unless it is blank.
pub open spec fn closed(s: SplitView) -> Seq<SectionView> {
    if trimmed(s.current.body).len() == 0 {
        s.done
    } else {
        s.done.push(s.current)
    }
}

/// A page split at its headings; what stands before the first one is its
/// overview.
pub open spec fn split_of(title: Seq<char>, blocks: Seq<BlockView>) -> SplitView
    decreases blocks.len(),
{
    if blocks.len() == 0 {
        SplitView {
            done: Seq::<SectionView>::empty(),
            current: SectionView { name: title + " — Overview"@, body: Seq::<char>::empty() },
        }
    } else {
        let s = split_of(title, blocks.drop_last());
        let b = blocks.last();
        if is_heading(b.kind) {
            SplitView {
                done: closed(s),
                current: SectionView { name: trimmed(b.text), body: Seq::<char>::empty() },
            }
        } else {
            match block_text(b) {
                Some(line) => SplitView {
                    done: s.done,
                    current: SectionView {
                        name: s.current.name,
                        body: s.current.body + line + "\n"@,
                    },
                },
                None => s,
            }
        }
    }
}

/// Whether a page has headings.
pub open spec fn has_heading(blocks: Seq<BlockView>) -> bool {
    exists|i: int| 0 <= i < blocks.len() && is_heading((#[trigger] blocks[i]).kind)
}

/// The sections of a page.
pub open spec fn sections_in(title: Seq<char>, blocks: Seq<BlockView>) -> Seq<SectionView> {
    closed(split_of(title, blocks))
}

/// Splits a page at its headings, and says whether it has any.
pub fn split_sections(title: &str, blocks: &Vec<Block>) -> (r: (Vec<Section>, bool))
    ensures
        r.0.deep_view() == sections_in(title@, blocks.deep_view()),
        r.1 == has_heading(blocks.deep_view()),
{
    let ghost bv = blocks.deep_view();
    let mut done: Vec<Section> = Vec::new();
    let mut has_headings = false;
    let mut name = title.to_string();
    name.append(" — Overview");
    let mut body = String::new();
    let mut i: usize = 0;
    proof {
        assert(done.deep_view() =~= Seq::<SectionView>::empty());
        assert(body@ =~= Seq::<char>::empty());
        assert(bv.take(0) =~= Seq::<BlockView>::empty());
    }
    while i < blocks.len()
        invariant
            i <= blocks@.len(),
            bv == blocks.deep_view(),
            split_of(title@, bv.take(i as int)) == (SplitView {
                done: done.deep_view(),
                current: SectionView { name: name@, body: body@ },
            }),
            has_headings == exists|k: int| 0 <= k < i && is_heading((#[trigger] bv[k]).kind),
        decreases blocks@.len() - i,
    {
        let b = &blocks[i];
        proof {
            assert(bv.take(i + 1).drop_last() =~= bv.take(i as int));
            assert(bv.take(i + 1).last() == b.deep_view());
            assert(bv[i as int] == b.deep_view());
        }
        if heading(b.kind.as_str()) {
            has_headings = true;
            let ghost before = done.deep_view();
            let ghost cur = SectionView { name: name@, body: body@ };
            if !is_blank(body.as_str()) {
                done.push(Section { name, body });
                assert(done.deep_view() =~= before.push(cur));
            }
            name = trim(b.text.as_str());
            body = String::new();
            assert(body@ =~= Seq::<char>::empty());
        } else {
            if let Some(line) = render_block(b) {
                body.append(line.as_str());
                body.append("\n");
            }
        }
        i += 1;
    }
    assert(bv.take(i as int) =~= bv);
    if !is_blank(body.as_str()) {
        let ghost before = done.deep_view();
        let ghost cur = SectionView { name: name@, body: body@ };
        done.push(Section { name, body });
        assert(done.deep_view() =~= before.push(cur));
    }
    (done, has_headings)
}

/// The blocks as markdown, headings among them.
pub open spec fn body_text(blocks: Seq<BlockView>) -> Seq<char>
    decreases blocks.len(),
{
    if blocks.len() == 0 {
        Seq::<char>::empty()
    } else {
        let head = body_text(blocks.drop_last());
        let b = blocks.last();
        if is_heading(b.kind) {
            head + "\n## "@ + trimmed(b.text) + "\n\n"@
        } else {
            match block_text(b) {
                Some(line) => head + line + "\n"@,
                None => head,
            }
        }
    }
}

/// A page as markdown: its title, its link, and its blocks.
pub open spec fn document_text(meta: PageMetaView, blocks: Seq<BlockView>) -> Seq<char> {
    let head = "# "@ + meta.title + "\n"@;
    let linked = match meta.url {
        Some(u) => if u.len() > 0 {
            head + "URL: "@ + u + "\n"@
        } else {
            head
        },
        None => head,
    };
    linked + "\n"@ + body_text(blocks)
}

/// Renders a page as markdown.
pub fn render_document(meta: &PageMeta, blocks: &Vec<Block>) -> (r: String)
    ensures
        r@ == document_text(meta.deep_view(), blocks.deep_view()),
{
    let mut s = "# ".to_string();
    s.append(meta.title.as_str());
    s.append("\n");
    if let Some(u) = &meta.url {
        if u.as_str().unicode_len() > 0 {
            s.append("URL: ");
            s.append(u.as_str());
            s.append("\n");
        }
    }
    s.append("\n");
    let ghost head = s@;
    let ghost bv = blocks.deep_view();
    let mut i: usize = 0;
    assert(head + body_text(bv.take(0)) =~= head);
    while i < blocks.len()
        invariant
            i <= blocks@.len(),
            bv == blocks.deep_view(),
            s@ == head + body_text(bv.take(i as int)),
        decreases blocks@.len() - i,
    {
        let b = &blocks[i];
        let ghost before = s@;
        proof {
            assert(bv.take(i + 1).drop_last() =~= bv.take(i as int));
            assert(bv.take(i + 1).last() == b.deep_view());
        }
        if heading(b.kind.as_str()) {
            let t = trim(b.text.as_str());
            s.append("\n## ");
            s.append(t.as_str());
            s.append("\n\n");
        } else {
            if let Some(line) = render_block(b) {
                s.append(line.as_str());
                s.append("\n");
            }
        }
        assert(s@ =~= head + body_text(bv.take(i + 1)));
        i += 1;
    }
    assert(bv.take(i as int) =~= bv);
    s
}

/// A section as a child of its page's item.
pub open spec fn section_chunk(s: SectionView) -> SourceChunkView {
    SourceChunkView {
        name: s.name,
        kind: "section"@,
        content: trimmed(s.body),
        signature: None,
        doc_comment: None,
        start_line: None,
        end_line: None,
        references: Seq::<Seq<char>>::empty(),
    }
}

/// A page as an item. It has sections only where it has headings; without them
/// the one section would repeat the page.
pub open spec fn page_item(
    page_id: Seq<char>,
    meta: PageMetaView,
    blocks: Seq<BlockView>,
    include_sections: bool,
) -> SourceItemView {
    let content = document_text(meta, blocks);
    SourceItemView {
        source_path: SOURCE_SCHEME@ + page_id,
        content,
        content_hash: short_hash_of(content, 16),
        language: None,
        module_doc: None,
        children: if include_sections && has_heading(blocks) {
            sections_in(meta.title, blocks).map_values(|s: SectionView| section_chunk(s))
        } else {
            Seq::<SourceChunkView>::empty()
        },
    }
}

fn section_chunks(sections: &Vec<Section>) -> (r: Vec<SourceChunk>)
    ensures
        r.deep_view() == sections.deep_view().map_values(|s: SectionView| section_chunk(s)),
{
    let ghost want = sections.deep_view().map_values(|s: SectionView| section_chunk(s));
    let mut out: Vec<SourceChunk> = Vec::new();
    let mut i: usize = 0;
    assert(out.deep_view() =~= want.take(0));
    while i < sections.len()
        invariant
            i <= sections@.len(),
            want == sections.deep_view().map_values(|s: SectionView| section_chunk(s)),
            out.deep_view() == want.take(i as int),
        decreases sections@.len() - i,
    {
        let ghost before = out.deep_view();
        let none: Vec<String> = Vec::new();
        assert(none.deep_view() =~= Seq::<Seq<char>>::empty());
        let c = SourceChunk {
            name: sections[i].name.clone(),
            kind: "section".to_string(),
            content: trim(sections[i].body.as_str()),
            signature: None,
            doc_comment: None,
            start_line: None,
            end_line: None,
            references: none,
        };
        let ghost cv = c.deep_view();
        out.push(c);
        proof {
            assert(want[i as int] == cv);
            assert(out.deep_view() =~= before.push(cv));
            assert(want.take(i + 1) =~= want.take(i as int).push(want[i as int]));
        }
        i += 1;
    }
    assert(want.take(i as int) =~= want);
    out
}

/// Builds the item of a page.
pub fn build_source_item(
    page_id: &str,
    meta: &PageMeta,
    blocks: &Vec<Block>,
    include_sections: bool,
) -> (r: SourceItem)
    ensures
        r.deep_view() == page_item(
            page_id@,
            meta.deep_view(),
            blocks.deep_view(),
            include_sections,
        ),
{
    let content = render_document(meta, blocks);
    let content_hash = short_hash(content.as_str(), 16);
    let mut children: Vec<SourceChunk> = Vec::new();
    assert(children.deep_view() =~= Seq::<SourceChunkView>::empty());
    if include_sections {
        let (sections, has_headings) = split_sections(meta.title.as_str(), blocks);
        if has_headings {
            children = section_chunks(&sections);
        }
    }
    let mut source_path = SOURCE_SCHEME.to_string();
    source_path.append(page_id);
    SourceItem { source_path, content, content_hash, language: None, module_doc: None, children }
}

/// The outcome of a run: the pages that are new or changed. Nothing is deleted
/// and there is no cursor.
pub fn fetch_result(pages: &Vec<SourceItem>, ctx: &FetchContext) -> (r: FetchResult)
    ensures
        r.deep_view() == (FetchResultView {
            items: changed_items(pages.deep_view(), ctx.deep_view()),
            deletions: Seq::<Seq<char>>::empty(),
            cursor: None,
        }),
{
    let r = FetchResult {
        items: select_changed(pages, ctx),
        deletions: Vec::new(),
        cursor: None,
    };
    assert(r.deletions.deep_view() =~= Seq::<Seq<char>>::empty());
    r
}

/// The address of a page.
pub open spec fn page_address(base: Seq<char>, page_id: Seq<char>) -> Seq<char> {
    base + "/v1/pages/"@ + page_id
}

/// The address of a page of a block's children.
pub open spec fn children_address(base: Seq<char>, f: FetchView) -> Seq<char> {
    let first = base + "/v1/blocks/"@ + f.block_id + "/children?page_size="@ + decimal(
        PAGE_SIZE as nat,
    );
    match f.cursor {
        Some(c) => first + "&start_cursor="@ + c,
        None => first,
    }
}

/// The address of a page.
pub fn page_url(base: &str, page_id: &str) -> (r: String)
    ensures
        r@ == page_address(base@, page_id@),
{
    let mut s = base.to_string();
    s.append("/v1/pages/");
    s.append(page_id);
    s
}

impl Fetch {
    /// The address to ask.
    pub fn url(&self, base: &str) -> (r: String)
        ensures
            r@ == children_address(base@, self.deep_view()),
    {
        let mut s = base.to_string();
        s.append("/v1/blocks/");
        s.append(self.block_id.as_str());
        s.append("/children?page_size=");
        s.append(show_u64(PAGE_SIZE as u64).as_str());
        if let Some(c) = &self.cursor {
            s.append("&start_cursor=");
            s.append(c.as_str());
        }
        s
    }
}

// ---------------------------------------------------------------------------
// Laws
// ---------------------------------------------------------------------------

/// A walk asks only for the page's own blocks and for the children of blocks it
/// has read, never for those of a sub-page; nothing it has read is lost.
pub proof fn law_sub_pages_are_not_crawled(w: BlockWalkView)
    ensures
        ({
            let (v, fetch) = walked(w);
            &&& w.out.len() <= v.out.len()
            &&& v.out.take(w.out.len() as int) == w.out
            &&& match fetch {
                Some(f) => ({
                    ||| exists|k: int|
                        0 <= k < w.frames.len() && (#[trigger] w.frames[k]).block_id == f.block_id
                    ||| exists|j: int|
                        0 <= j < v.out.len() && is_crawled(#[trigger] v.out[j]) && v.out[j].id
                            == f.block_id
                }),
                None => v.frames.len() == 0,
            }
        }),
    decreases unread(w.frames), w.frames.len(),
{
    if w.frames.len() > 0 {
        let f = w.frames.last();
        let rest = w.frames.drop_last();
        lemma_unread_push(rest, f);
        lemma_unread_nonneg(rest);
        assert(rest.push(f) =~= w.frames);
        if f.at < f.blocks.len() {
            let b = f.blocks[f.at as int];
            let read = FrameView { at: f.at + 1, ..f };
            let next = BlockWalkView { out: w.out.push(b), frames: rest.push(read) };
            lemma_unread_push(rest, read);
            if is_crawled(b) {
                let v = walked(w).0;
                assert(v.out[w.out.len() as int] == b);
                assert(v.out.take(w.out.len() as int) =~= w.out);
            } else {
                law_sub_pages_are_not_crawled(next);
                let (v, fetch) = walked(next);
                assert(v.out.take(w.out.len() as int) =~= next.out.take(w.out.len() as int)) by {
                    assert(v.out.take(next.out.len() as int).take(w.out.len() as int) =~= v.out.take(
                        w.out.len() as int,
                    ));
                }
                assert(next.out.take(w.out.len() as int) =~= w.out);
                if let Some(g) = fetch {
                    if exists|k: int|
                        0 <= k < next.frames.len() && (#[trigger] next.frames[k]).block_id
                            == g.block_id {
                        let k = choose|k: int|
                            0 <= k < next.frames.len() && (#[trigger] next.frames[k]).block_id
                                == g.block_id;
                        assert(w.frames[k].block_id == g.block_id);
                    }
                }
            }
        } else if f.next_cursor is Some {
            assert(w.frames[w.frames.len() - 1].block_id == f.block_id);
            assert(w.out.take(w.out.len() as int) =~= w.out);
        } else {
            let next = BlockWalkView { out: w.out, frames: rest };
            law_sub_pages_are_not_crawled(next);
            let (v, fetch) = walked(next);
            if let Some(g) = fetch {
                if exists|k: int|
                    0 <= k < next.frames.len() && (#[trigger] next.frames[k]).block_id
                        == g.block_id {
                    let k = choose|k: int|
                        0 <= k < next.frames.len() && (#[trigger] next.frames[k]).block_id
                            == g.block_id;
                    assert(w.frames[k].block_id == g.block_id);
                }
            }
        }
    } else {
        assert(w.out.take(w.out.len() as int) =~= w.out);
    }
}

/// No section of a page is blank, and a page without headings has no sections
/// of its own.
pub proof fn law_sections_are_not_blank(
    page_id: Seq<char>,
    meta: PageMetaView,
    blocks: Seq<BlockView>,
    include_sections: bool,
    k: int,
)
    requires
        0 <= k < page_item(page_id, meta, blocks, include_sections).children.len(),
    ensures
        has_heading(blocks),
        include_sections,
        page_item(page_id, meta, blocks, include_sections).children[k].content.len() > 0,
{
    lemma_sections(meta.title, blocks, k);
}

proof fn lemma_sections(title: Seq<char>, blocks: Seq<BlockView>, k: int)
    requires
        0 <= k < sections_in(title, blocks).len(),
    ensures
        trimmed(sections_in(title, blocks)[k].body).len() > 0,
{
    let s = split_of(title, blocks);
    if k < s.done.len() {
        lemma_done_sections(title, blocks, k);
    }
}

proof fn lemma_done_sections(title: Seq<char>, blocks: Seq<BlockView>, k: int)
    requires
        0 <= k < split_of(title, blocks).done.len(),
    ensures
        trimmed(split_of(title, blocks).done[k].body).len() > 0,
    decreases blocks.len(),
{
    if blocks.len() > 0 {
        let s = split_of(title, blocks.drop_last());
        if k < s.done.len() {
            lemma_done_sections(title, blocks.drop_last(), k);
        }
    }
}

/// Whether a text is a page id: 32 lower-case hexadecimal digits in groups of
/// 8, 4, 4, 4 and 12.
pub open spec fn is_page_id(s: Seq<char>) -> bool {
    &&& s.len() == 36
    &&& forall|i: int|
        0 <= i < 36 ==> if i == 8 || i == 13 || i == 18 || i == 23 {
            #[trigger] s[i] == '-'
        } else {
            is_hex(s[i]) && lower(s[i]) == s[i]
        }
}

proof fn lemma_dashed(id: Seq<char>)
    requires
        id.len() == 32,
        all_hex(id),
        lowered(id) == id,
    ensures
        is_page_id(dashed(id)),
        without_dashes(dashed(id)) == id,
{
    reveal_strlit("-");
    let d = dashed(id);
    assert(d.len() == 36);
    assert forall|i: int| 0 <= i < 36 implies if i == 8 || i == 13 || i == 18 || i == 23 {
        #[trigger] d[i] == '-'
    } else {
        is_hex(d[i]) && lower(d[i]) == d[i]
    } by {
        let j = if i < 8 {
            i
        } else if i < 13 {
            i - 1
        } else if i < 18 {
            i - 2
        } else if i < 23 {
            i - 3
        } else {
            i - 4
        };
        if !(i == 8 || i == 13 || i == 18 || i == 23) {
            assert(d[i] == id[j]);
            assert(lowered(id)[j] == lower(id[j]));
        }
    }
    lemma_group(id.subrange(0, 8), "-"@);
    assert("-"@.drop_last() =~= Seq::<char>::empty());
    assert("-"@.last() == '-');
    assert(without_dashes("-"@) =~= Seq::<char>::empty()) by {
        reveal_with_fuel(without_dashes, 2);
    }
    lemma_plain(id.subrange(0, 8));
    lemma_plain(id.subrange(8, 12));
    lemma_plain(id.subrange(12, 16));
    lemma_plain(id.subrange(16, 20));
    lemma_plain(id.subrange(20, 32));
    let a = id.subrange(0, 8) + "-"@;
    let b = a + id.subrange(8, 12);
    let c = b + "-"@;
    let e = c + id.subrange(12, 16);
    let f = e + "-"@;
    let g = f + id.subrange(16, 20);
    let h = g + "-"@;
    lemma_group(a, id.subrange(8, 12));
    lemma_group(b, "-"@);
    lemma_group(c, id.subrange(12, 16));
    lemma_group(e, "-"@);
    lemma_group(f, id.subrange(16, 20));
    lemma_group(g, "-"@);
    lemma_group(h, id.subrange(20, 32));
    assert(without_dashes(d) =~= id);
}

proof fn lemma_group(a: Seq<char>, b: Seq<char>)
    ensures
        without_dashes(a + b) == without_dashes(a) + without_dashes(b),
    decreases b.len(),
{
    if b.len() == 0 {
        assert(a + b =~= a);
        assert(without_dashes(a) + b =~= without_dashes(a));
    } else {
        assert((a + b).drop_last() =~= a + b.drop_last());
        lemma_group(a, b.drop_last());
        assert(without_dashes(a + b) =~= without_dashes(a) + without_dashes(b));
    }
}

proof fn lemma_plain(s: Seq<char>)
    requires
        all_hex(s),
    ensures
        without_dashes(s) == s,
    decreases s.len(),
{
    if s.len() > 0 {
        assert(is_hex(s[s.len() - 1]));
        assert forall|i: int| 0 <= i < s.drop_last().len() implies is_hex(
            #[trigger] s.drop_last()[i],
        ) by {
            assert(is_hex(s[i]));
        }
        lemma_plain(s.drop_last());
        assert(s.drop_last().push(s.last()) =~= s);
    }
}

proof fn lemma_no_query(s: Seq<char>)
    requires
        forall|i: int| 0 <= i < s.len() ==> #[trigger] s[i] != '?' && s[i] != '#',
    ensures
        before_query(s) == s,
    decreases s.len(),
{
    if s.len() > 0 {
        assert(s[0] != '?');
        assert forall|i: int| 0 <= i < s.drop_first().len() implies #[trigger] s.drop_first()[i]
            != '?' && s.drop_first()[i] != '#' by {
            assert(s[i + 1] != '?');
        }
        lemma_no_query(s.drop_first());
        assert(seq![s[0]] + s.drop_first() =~= s);
    }
}

/// The page id found in an input has the one form there is, and is found again
/// in itself: reading it a second time changes nothing.
pub proof fn law_page_ids_are_normal(input: Seq<char>)
    requires
        compact_size(input) >= 32,
        is_boundary(compact_of(input), compact_size(input) - 32),
        all_hex(raw_id(input)),
    ensures
        is_page_id(dashed(raw_id(input))),
        compact_size(dashed(raw_id(input))) == 32,
        raw_id(dashed(raw_id(input))) == raw_id(input),
{
    let compact = compact_of(input);
    let size = compact_size(input);
    crate::bytes::lemma_suffix_text(compact, size - 32);
    let tail = text_between(compact, size - 32, size)->0;
    let id = raw_id(input);
    assert forall|i: int| 0 <= i < tail.len() implies (#[trigger] tail[i] as u32) < 0x80 by {
        assert(id[i] == lower(tail[i]));
        assert(is_hex(id[i]));
    }
    crate::bytes::lemma_ascii_size(tail);
    assert(id.len() == 32);
    assert(lowered(id) =~= id) by {
        assert forall|i: int| 0 <= i < id.len() implies #[trigger] lowered(id)[i] == id[i] by {
            assert(id[i] == lower(tail[i]));
        }
    }
    lemma_dashed(id);
    let d = dashed(id);
    assert(trimmed(d) == d) by {
        assert(d[0] == id[0] && is_hex(id[0]));
        assert(d[35] == id[31] && is_hex(id[31]));
    }
    assert forall|i: int| 0 <= i < d.len() implies #[trigger] d[i] != '?' && d[i] != '#' by {}
    lemma_no_query(d);
    assert(after_last(d, '/') == d) by {
        crate::text::lemma_last_position(d, '/');
    }
    assert(compact_of(d) == id);
    assert forall|i: int| 0 <= i < id.len() implies (#[trigger] id[i] as u32) < 0x80 by {
        assert(is_hex(id[i]));
    }
    crate::bytes::lemma_ascii_size(id);
    crate::bytes::lemma_whole_text(id);
}

/// A setting that is given is the one that holds, and one that is not has its
/// default; a setting of the wrong type is told by its name.
pub proof fn law_given_settings_hold(s: Seq<SettingView>)
    ensures
        settings_of(s) matches Ok(t) ==> {
            &&& match setting_value(s, "api_key"@) {
                Some(v) => t.api_key is Some && text_value(v) == t.api_key,
                None => t.api_key is None,
            }
            &&& match setting_value(s, "api_key_env"@) {
                Some(v) => text_value(v) == Some(t.api_key_env),
                None => t.api_key_env == "NOTION_API_KEY"@,
            }
            &&& match setting_value(s, "notion_version"@) {
                Some(v) => text_value(v) == Some(t.notion_version),
                None => t.notion_version == "2026-03-11"@,
            }
            &&& match setting_value(s, "include_sections"@) {
                Some(v) => bool_value(v) == Some(t.include_sections),
                None => t.include_sections,
            }
        },
        settings_of(s) matches Err(e) ==> match e {
            NotionError::ApiKeyNotAString => setting_value(s, "api_key"@) matches Some(v)
                && text_value(v) is None,
            NotionError::ApiKeyEnvNotAString => setting_value(s, "api_key_env"@) matches Some(v)
                && text_value(v) is None,
            NotionError::VersionNotAString => setting_value(s, "notion_version"@) matches Some(v)
                && text_value(v) is None,
            NotionError::IncludeSectionsNotABoolean => setting_value(
                s,
                "include_sections"@,
            ) matches Some(v) && bool_value(v) is None,
        },
{
}

/// A token in the settings goes before the one in the environment, unless it is
/// empty.
pub proof fn law_configured_tokens_go_first(s: NotionTapSettingsView, from_env: Option<Seq<char>>)
    ensures
        s.api_key is Some && s.api_key->0.len() > 0 ==> token_of(s, from_env) == s.api_key,
        s.api_key is None || s.api_key->0.len() == 0 ==> token_of(s, from_env) == from_env,
{
}

/// Every block but a heading shows its text, a sub-page its title, and code its
/// language before its text; only a block without text shows nothing.
pub proof fn law_blocks_show_their_text(b: BlockView)
    ensures
        is_heading(b.kind) ==> block_text(b) is None,
        !is_heading(b.kind) && b.kind != "child_page"@ && b.text.len() > 0 ==> (block_text(
            b,
        ) matches Some(t) && occurs(t, b.text)),
        b.kind == "child_page"@ && b.child_page_title is Some && !is_heading(b.kind)
            ==> (block_text(b) matches Some(t) && occurs(t, b.child_page_title->0)),
        b.kind == "code"@ && b.language is Some && !is_heading(b.kind) && b.kind != "child_page"@
            ==> (block_text(b) matches Some(t) && has_prefix(t, "```"@ + b.language->0 + "\n"@)),
{
    if !is_heading(b.kind) {
        if b.kind == "child_page"@ {
            if let Some(t) = b.child_page_title {
                lemma_part_between("[sub-page: "@, t, "]"@);
            }
        } else if b.kind == "code"@ {
            let l = match b.language {
                Some(l) => l,
                None => ""@,
            };
            lemma_part_between("```"@ + l + "\n"@, b.text, "\n```"@);
            let t = block_text(b)->0;
            let head = "```"@ + l + "\n"@;
            assert(t.take(head.len() as int) =~= head);
        } else {
            lemma_part_at_end("- "@, b.text);
            lemma_part_at_end("1. "@, b.text);
            lemma_part_at_end("> "@, b.text);
            lemma_part_at_end(Seq::empty(), b.text);
            assert(Seq::empty() + b.text =~= b.text);
        }
    }
}

proof fn lemma_body_holds(blocks: Seq<BlockView>, k: int)
    requires
        0 <= k < blocks.len(),
    ensures
        is_heading(blocks[k].kind) ==> occurs(
            body_text(blocks),
            "\n## "@ + trimmed(blocks[k].text) + "\n\n"@,
        ),
        block_text(blocks[k]) matches Some(line) ==> occurs(body_text(blocks), line + "\n"@),
    decreases blocks.len(),
{
    let head = body_text(blocks.drop_last());
    let b = blocks.last();
    let more = if is_heading(b.kind) {
        "\n## "@ + trimmed(b.text) + "\n\n"@
    } else {
        match block_text(b) {
            Some(line) => line + "\n"@,
            None => Seq::<char>::empty(),
        }
    };
    assert(body_text(blocks) =~= head + more);
    lemma_part_at_end(head, more);
    if k < blocks.len() - 1 {
        lemma_body_holds(blocks.drop_last(), k);
        if is_heading(blocks[k].kind) {
            lemma_part_stays(head, "\n## "@ + trimmed(blocks[k].text) + "\n\n"@, more);
        }
        if let Some(line) = block_text(blocks[k]) {
            lemma_part_stays(head, line + "\n"@, more);
        }
    }
}

/// The text of a page begins with its title, holds its link where it has one, and
/// holds every block: each heading marked as one, and what every other shows, on
/// lines of its own.
pub proof fn law_document_text_holds_the_page(meta: PageMetaView, blocks: Seq<BlockView>)
    ensures
        has_prefix(document_text(meta, blocks), "# "@ + meta.title + "\n"@),
        meta.url matches Some(u) ==> (u.len() > 0 ==> occurs(
            document_text(meta, blocks),
            "URL: "@ + u + "\n"@,
        )),
        forall|k: int|
            0 <= k < blocks.len() && is_heading((#[trigger] blocks[k]).kind) ==> occurs(
                document_text(meta, blocks),
                "\n## "@ + trimmed(blocks[k].text) + "\n\n"@,
            ),
        forall|k: int|
            0 <= k < blocks.len() && block_text(#[trigger] blocks[k]) is Some ==> occurs(
                document_text(meta, blocks),
                block_text(blocks[k])->0 + "\n"@,
            ),
{
    let t = document_text(meta, blocks);
    let head = "# "@ + meta.title + "\n"@;
    let linked = match meta.url {
        Some(u) => if u.len() > 0 {
            head + "URL: "@ + u + "\n"@
        } else {
            head
        },
        None => head,
    };
    let body = body_text(blocks);
    assert(t == linked + "\n"@ + body);
    assert(t.take(head.len() as int) =~= head);
    if let Some(u) = meta.url {
        if u.len() > 0 {
            let p = "URL: "@ + u + "\n"@;
            assert(linked =~= head + p);
            lemma_part_at_end(head, p);
            lemma_part_stays(linked, p, "\n"@);
            lemma_part_stays(linked + "\n"@, p, body);
        }
    }
    lemma_part_at_end(linked + "\n"@, body);
    assert forall|k: int| 0 <= k < blocks.len() && is_heading(
        (#[trigger] blocks[k]).kind,
    ) implies occurs(t, "\n## "@ + trimmed(blocks[k].text) + "\n\n"@) by {
        lemma_body_holds(blocks, k);
        lemma_part_of_part("\n## "@ + trimmed(blocks[k].text) + "\n\n"@, body, t);
    }
    assert forall|k: int|
        0 <= k < blocks.len() && block_text(#[trigger] blocks[k]) is Some implies occurs(
        t,
        block_text(blocks[k])->0 + "\n"@,
    ) by {
        lemma_body_holds(blocks, k);
        lemma_part_of_part(block_text(blocks[k])->0 + "\n"@, body, t);
    }
}

/// The name of the section that a block before `k` blocks belongs to: the text of
/// the nearest heading above, or the page's overview.
pub open spec fn heading_above(title: Seq<char>, blocks: Seq<BlockView>, k: int) -> Seq<char>
    decreases k,
{
    if k <= 0 {
        title + " — Overview"@
    } else if is_heading(blocks[k - 1].kind) {
        trimmed(blocks[k - 1].text)
    } else {
        heading_above(title, blocks, k - 1)
    }
}

proof fn lemma_heading_above_take(title: Seq<char>, blocks: Seq<BlockView>, n: int, k: int)
    requires
        0 <= k <= n <= blocks.len(),
    ensures
        heading_above(title, blocks.take(n), k) == heading_above(title, blocks, k),
    decreases k,
{
    if k > 0 {
        lemma_heading_above_take(title, blocks, n, k - 1);
    }
}

/// Whether one of the sections has that name and holds that text.
pub open spec fn is_in_section(
    sections: Seq<SectionView>,
    name: Seq<char>,
    text: Seq<char>,
) -> bool {
    exists|j: int|
        0 <= j < sections.len() && (#[trigger] sections[j]).name == name && occurs(
            sections[j].body,
            text,
        )
}

/// Whether a text stands in a section of that name, be it done or current.
spec fn is_kept(s: SplitView, name: Seq<char>, text: Seq<char>) -> bool {
    ||| is_in_section(s.done, name, text)
    ||| s.current.name == name && occurs(s.current.body, text)
}

proof fn lemma_kept_on(
    title: Seq<char>,
    blocks: Seq<BlockView>,
    name: Seq<char>,
    line: Seq<char>,
)
    requires
        blocks.len() > 0,
        is_kept(split_of(title, blocks.drop_last()), name, line),
        trimmed(line).len() > 0,
    ensures
        is_kept(split_of(title, blocks), name, line),
{
    let s = split_of(title, blocks.drop_last());
    let t = split_of(title, blocks);
    let b = blocks.last();
    if is_in_section(s.done, name, line) {
        let j = choose|j: int|
            0 <= j < s.done.len() && (#[trigger] s.done[j]).name == name && occurs(
                s.done[j].body,
                line,
            );
        assert(t.done[j] == s.done[j]);
    } else if is_heading(b.kind) {
        lemma_not_blank(s.current.body, line);
        assert(t.done[s.done.len() as int] == s.current);
    } else if block_text(b) is Some {
        let more = block_text(b)->0;
        lemma_part_stays(s.current.body, line, more);
        lemma_part_stays(s.current.body + more, line, "\n"@);
    }
}

proof fn lemma_split_holds(title: Seq<char>, blocks: Seq<BlockView>, k: int)
    requires
        0 <= k < blocks.len(),
        block_text(blocks[k]) is Some,
        trimmed(block_text(blocks[k])->0).len() > 0,
    ensures
        is_kept(
            split_of(title, blocks),
            heading_above(title, blocks, k),
            block_text(blocks[k])->0,
        ),
    decreases blocks.len(),
{
    let before = blocks.drop_last();
    let n = before.len() as int;
    let line = block_text(blocks[k])->0;
    assert(before =~= blocks.take(n));
    lemma_heading_above_take(title, blocks, n, k);
    if k < n {
        lemma_split_holds(title, before, k);
        lemma_kept_on(title, blocks, heading_above(title, blocks, k), line);
    } else {
        lemma_current_name(title, before);
        assert(heading_above(title, before, n) == heading_above(title, blocks, n));
        lemma_kept_last(title, blocks);
    }
}

proof fn lemma_kept_last(title: Seq<char>, blocks: Seq<BlockView>)
    requires
        blocks.len() > 0,
        block_text(blocks.last()) is Some,
    ensures
        is_kept(
            split_of(title, blocks),
            split_of(title, blocks.drop_last()).current.name,
            block_text(blocks.last())->0,
        ),
{
    let s = split_of(title, blocks.drop_last());
    let line = block_text(blocks.last())->0;
    lemma_part_at_end(s.current.body, line);
    lemma_part_stays(s.current.body + line, line, "\n"@);
}

proof fn lemma_current_name(title: Seq<char>, blocks: Seq<BlockView>)
    ensures
        split_of(title, blocks).current.name == heading_above(title, blocks, blocks.len() as int),
    decreases blocks.len(),
{
    if blocks.len() > 0 {
        let before = blocks.drop_last();
        let n = before.len() as int;
        lemma_current_name(title, before);
        assert(before =~= blocks.take(n));
        lemma_heading_above_take(title, blocks, n, n);
    }
}

proof fn lemma_not_blank(s: Seq<char>, p: Seq<char>)
    requires
        occurs(s, p),
        trimmed(p).len() > 0,
    ensures
        trimmed(s).len() > 0,
{
    law_trimming_takes_only_whitespace(p);
    law_trimming_takes_only_whitespace(s);
    let at = choose|at: int| occurs_at(s, p, at);
    let i = p.len() - trimmed_start(p).len();
    let c = trimmed(p)[0];
    assert(p[i] == c);
    assert(s.subrange(at, at + p.len())[i] == p[i]);
    assert(s[at + i] == c);
}

/// Nothing of a page is lost when it is taken apart into sections: what a block
/// shows stands in a section named after the nearest heading above it, or in the
/// overview where there is none.
pub proof fn law_sections_hold_every_block(title: Seq<char>, blocks: Seq<BlockView>, k: int)
    requires
        0 <= k < blocks.len(),
        block_text(blocks[k]) is Some,
        trimmed(block_text(blocks[k])->0).len() > 0,
    ensures
        is_in_section(
            sections_in(title, blocks),
            heading_above(title, blocks, k),
            block_text(blocks[k])->0,
        ),
{
    let s = split_of(title, blocks);
    let name = heading_above(title, blocks, k);
    let line = block_text(blocks[k])->0;
    let all = sections_in(title, blocks);
    lemma_split_holds(title, blocks, k);
    if is_in_section(s.done, name, line) {
        let j = choose|j: int|
            0 <= j < s.done.len() && (#[trigger] s.done[j]).name == name && occurs(
                s.done[j].body,
                line,
            );
        assert(all[j] == s.done[j]);
    } else {
        lemma_not_blank(s.current.body, line);
        assert(all[s.done.len() as int] == s.current);
    }
}

/// What is handed over for a page: its address, its text, the hash of that very
/// text, and where sections are asked for and the page has headings, its sections,
/// each under its name and without the whitespace around it.
pub proof fn law_page_items(
    page_id: Seq<char>,
    meta: PageMetaView,
    blocks: Seq<BlockView>,
    include_sections: bool,
)
    ensures
        ({
            let item = page_item(page_id, meta, blocks, include_sections);
            let sections = sections_in(meta.title, blocks);
            let headed = exists|k: int|
                0 <= k < blocks.len() && is_heading((#[trigger] blocks[k]).kind);
            &&& item.source_path == "notion://"@ + page_id
            &&& item.content == document_text(meta, blocks)
            &&& item.content_hash == short_hash_of(item.content, 16)
            &&& item.language is None
            &&& item.module_doc is None
            &&& !include_sections || !headed ==> item.children.len() == 0
            &&& include_sections && headed ==> item.children.len() == sections.len() && forall|
                k: int,
            |
                0 <= k < sections.len() ==> {
                    let c = #[trigger] item.children[k];
                    &&& c.name == sections[k].name
                    &&& c.kind == "section"@
                    &&& c.content == trimmed(sections[k].body)
                    &&& c.signature is None
                    &&& c.doc_comment is None
                    &&& c.start_line is None
                    &&& c.end_line is None
                    &&& c.references.len() == 0
                }
        }),
{
}

/// The addresses that are asked begin with the server and name the page, or the
/// block, and where a listing goes on.
pub proof fn law_addresses(base: Seq<char>, page_id: Seq<char>, f: FetchView)
    ensures
        page_address(base, page_id) == base + ("/v1/pages/"@ + page_id),
        has_prefix(children_address(base, f), base),
        occurs(children_address(base, f), "/v1/blocks/"@ + f.block_id + "/children?page_size="@),
        f.cursor matches Some(c) ==> has_suffix(children_address(base, f), "&start_cursor="@ + c),
        f.cursor is None ==> has_suffix(children_address(base, f), decimal(100)),
{
    let own = "/v1/blocks/"@ + f.block_id + "/children?page_size="@;
    let size = decimal(PAGE_SIZE as nat);
    assert(page_address(base, page_id) =~= base + ("/v1/pages/"@ + page_id));
    assert(base + "/v1/blocks/"@ + f.block_id + "/children?page_size="@ =~= base + own);
    lemma_address(base, own, size);
    if let Some(c) = f.cursor {
        lemma_address_goes_on(base, own, size, "&start_cursor="@, c);
    }
}

proof fn lemma_address(base: Seq<char>, own: Seq<char>, size: Seq<char>)
    ensures
        has_prefix(base + own + size, base),
        occurs(base + own + size, own),
        has_suffix(base + own + size, size),
{
    let a = base + own + size;
    lemma_part_between(base, own, size);
    assert(a.take(base.len() as int) =~= base);
    assert(a.skip(a.len() - size.len()) =~= size);
}

proof fn lemma_address_goes_on(
    base: Seq<char>,
    own: Seq<char>,
    size: Seq<char>,
    mark: Seq<char>,
    c: Seq<char>,
)
    ensures
        has_prefix(base + own + size + mark + c, base),
        occurs(base + own + size + mark + c, own),
        has_suffix(base + own + size + mark + c, mark + c),
{
    let first = base + own + size;
    let a = first + mark + c;
    lemma_part_between(base, own, size);
    lemma_part_stays(first, own, mark);
    lemma_part_stays(first + mark, own, c);
    assert(a.take(base.len() as int) =~= base);
    assert(a.skip(a.len() - (mark + c).len()) =~= mark + c);
}

/// Reading goes block by block: of the blocks at hand those up to the first that
/// has children of its own to read are put out in order, and then its children are
/// asked for; where none has, all are put out, and the rest of the listing is
/// asked for where there is more.
pub proof fn law_blocks_are_read_in_order(w: BlockWalkView, n: nat)
    requires
        w.frames.len() > 0,
        w.frames.last().at + n <= w.frames.last().blocks.len(),
        forall|j: int|
            w.frames.last().at <= j < w.frames.last().at + n ==> !is_crawled(
                #[trigger] w.frames.last().blocks[j],
            ),
    ensures
        ({
            let f = w.frames.last();
            let end = (f.at + n) as int;
            let (v, fetch) = walked(w);
            &&& end < f.blocks.len() && f.blocks[end].has_children && f.blocks[end].kind
                != "child_page"@ ==> {
                &&& v.out == w.out + f.blocks.subrange(f.at as int, end + 1)
                &&& fetch == Some(FetchView { block_id: f.blocks[end].id, cursor: None })
            }
            &&& end == f.blocks.len() && f.next_cursor is Some ==> {
                &&& v.out == w.out + f.blocks.skip(f.at as int)
                &&& fetch == Some(FetchView { block_id: f.block_id, cursor: f.next_cursor })
            }
        }),
    decreases n,
{
    let f = w.frames.last();
    let rest = w.frames.drop_last();
    let end = (f.at + n) as int;
    if n == 0 {
        assert(rest.push(f) =~= w.frames);
        if end < f.blocks.len() {
            assert(w.out.push(f.blocks[end]) =~= w.out + f.blocks.subrange(f.at as int, end + 1));
        } else {
            assert(f.blocks.skip(f.at as int) =~= Seq::<BlockView>::empty());
            assert(w.out + Seq::<BlockView>::empty() =~= w.out);
        }
    } else {
        let b = f.blocks[f.at as int];
        let read = FrameView { at: f.at + 1, ..f };
        let next = BlockWalkView { out: w.out.push(b), frames: rest.push(read) };
        assert(next.frames.last() == read);
        law_blocks_are_read_in_order(next, (n - 1) as nat);
        assert(walked(w) == walked(next));
        if end < f.blocks.len() {
            assert(w.out.push(b) + f.blocks.subrange((f.at + 1) as int, end + 1) =~= w.out
                + f.blocks.subrange(f.at as int, end + 1));
        } else {
            assert(w.out.push(b) + f.blocks.skip((f.at + 1) as int) =~= w.out + f.blocks.skip(
                f.at as int,
            ));
        }
    }
}

/// A page of a listing is read next, from its first block, and what was put out
/// before stays.
pub proof fn law_listings_are_taken_up(w: BlockWalkView, page: BlockPageView)
    requires
        w.frames.len() > 0,
    ensures
        ({
            let v = with_page(w, page);
            &&& v.out == w.out
            &&& v.frames.len() == w.frames.len()
            &&& v.frames.drop_last() == w.frames.drop_last()
            &&& v.frames.last().block_id == w.frames.last().block_id
            &&& v.frames.last().blocks == page.blocks
            &&& v.frames.last().at == 0
            &&& v.frames.last().next_cursor == page.next_cursor
        }),
{
    let v = with_page(w, page);
    assert(v.frames.drop_last() =~= w.frames.drop_last());
}

/// Every piece of a rich text is in the plain text, and every block that has a type
/// and an id is read, with the type, the id and the text that it has.
pub proof fn law_nothing_is_lost_in_reading(items: Seq<Json>, k: int)
    requires
        0 <= k < items.len(),
    ensures
        text_at(items[k], "plain_text"@) matches Some(t) ==> occurs(plain_of(items), t),
        text_at(items[k], "type"@) is Some && text_at(items[k], "id"@) is Some ==> exists|m: int|
            {
                &&& 0 <= m < blocks_of(items).len()
                &&& Some((#[trigger] blocks_of(items)[m]).kind) == text_at(items[k], "type"@)
                &&& Some(blocks_of(items)[m].id) == text_at(items[k], "id"@)
                &&& block_of(items[k]) == Some(blocks_of(items)[m])
            },
    decreases items.len(),
{
    let head = items.drop_last();
    let plain = plain_of(head);
    let read = blocks_of(head);
    let all = blocks_of(items);
    if k < items.len() - 1 {
        law_nothing_is_lost_in_reading(head, k);
        if let Some(t) = text_at(items[k], "plain_text"@) {
            if let Some(u) = text_at(items.last(), "plain_text"@) {
                lemma_part_stays(plain, t, u);
            }
        }
        if text_at(items[k], "type"@) is Some && text_at(items[k], "id"@) is Some {
            let m = choose|m: int|
                {
                    &&& 0 <= m < read.len()
                    &&& Some((#[trigger] read[m]).kind) == text_at(items[k], "type"@)
                    &&& Some(read[m].id) == text_at(items[k], "id"@)
                    &&& block_of(items[k]) == Some(read[m])
                };
            assert(all[m] == read[m]);
        }
    } else {
        if let Some(t) = text_at(items[k], "plain_text"@) {
            lemma_part_at_end(plain, t);
        }
        if text_at(items[k], "type"@) is Some && text_at(items[k], "id"@) is Some {
            assert(Some(all[read.len() as int].kind) == text_at(items[k], "type"@));
        }
    }
}

/// What is read of a block is what it says of itself: its type and its id, the text
/// and the language under its type, whether it has children, and where it is a
/// sub-page its title. A block without a type or an id is not read.
pub proof fn law_blocks_are_read_as_they_are(v: Json)
    ensures
        block_of(v) is Some <==> text_at(v, "type"@) is Some && text_at(v, "id"@) is Some,
        block_of(v) matches Some(b) ==> {
            &&& Some(b.id) == text_at(v, "id"@)
            &&& Some(b.kind) == text_at(v, "type"@)
            &&& member(v, b.kind) matches Some(inner) ==> {
                &&& member(inner, "rich_text"@) matches Some(r) ==> b.text == rich_text_of(r)
                &&& b.language == text_at(inner, "language"@)
                &&& b.kind == "child_page"@ ==> b.child_page_title == text_at(inner, "title"@)
            }
            &&& member(v, b.kind) is None ==> b.text.len() == 0 && b.language is None
            &&& b.kind != "child_page"@ ==> b.child_page_title is None
            &&& b.has_children <==> (member(v, "has_children"@) matches Some(x) && bool_of(x)
                == Some(true))
        },
{
}

/// A listing goes on behind its cursor exactly if it says that there is more.
pub proof fn law_listings_say_whether_there_is_more(v: Json)
    ensures
        block_page_of(v).next_cursor == if member(v, "has_more"@) is Some && bool_of(
            member(v, "has_more"@)->0,
        ) == Some(true) {
            text_at(v, "next_cursor"@)
        } else {
            None
        },
        member(v, "results"@) matches Some(r) ==> (items_of(r) matches Some(items)
            ==> block_page_of(v).blocks == blocks_of(items)),
{
}

/// The title of a page is that of its first property that is a title, and a page
/// without one, or with an empty one, is untitled.
pub proof fn law_page_titles(props: Seq<Member>, i: int, k: int)
    requires
        0 <= i <= k <= props.len(),
        forall|j: int| i <= j < k ==> title_in((#[trigger] props[j]).value) is None,
    ensures
        k < props.len() && title_in(props[k].value) is Some ==> first_title(props, i) == title_in(
            props[k].value,
        ),
        k == props.len() ==> first_title(props, i) is None,
    decreases k - i,
{
    if i < k {
        assert(title_in(props[i].value) is None);
        law_page_titles(props, i + 1, k);
    }
}

} // verus!
