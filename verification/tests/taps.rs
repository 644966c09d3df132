//! Taps: what they are told, what they hand over, and how they are built.
use wdpkr_core::config::tap::TapConfig;
use wdpkr_core::config::value::{Number, Scalar, Setting, Settings, Value};
use wdpkr_core::eval::metrics::Content;
use wdpkr_core::json::{Json, Member};
use wdpkr_core::number::Real;
use wdpkr_core::tap::files::{build_item, fetch_result as files_result, files_to_process, FileScope};
use wdpkr_core::tap::linear::{
    fetch_result as linear_result, is_gone, issue_to_source_item, reconcile_deletions,
    render_issue_content, Comment, Issue, IssueConnection, IssuePages, LinearTapSettings, Named,
    PageInfo, Person, DEFAULT_AMOUNT,
};
use wdpkr_core::tap::notion::{
    build_source_item, fetch_result as notion_result, page_url, parse_block, parse_block_page,
    parse_page_id, parse_page_meta, render_document, split_sections, Block, BlockPage, BlockWalk,
    Fetch, NotionTapSettings, PageIdError, PageMeta, DEFAULT_BASE_URL,
};
use wdpkr_core::tap::{
    build_tap, build_taps, namespace_suffix, BuiltTap, FetchContext, FetchResult, FilesTap, LinearTap,
    NotionTap, SourceChunk, SourceItem, TapError,
};
use wdpkr_core::testing::mock_tap::MockTap;
use wdpkr_core::textmap::TextMap;

fn put(settings: &mut Settings, key: &str, value: Scalar) {
    settings.entries.push(Setting { key: key.to_string(), value: Value::One(value) });
}

fn whole(n: u64) -> Scalar {
    Scalar::Number(Number { unsigned: Some(n), negative: None, value: Real { bits: (n as f64).to_bits() } })
}

fn ctx(full: bool, stored_hashes: TextMap) -> FetchContext {
    FetchContext { full, cursor: None, stored_hashes }
}

fn to_json(v: &serde_json::Value) -> Json {
    match v {
        serde_json::Value::Null => Json::Null,
        serde_json::Value::Bool(b) => Json::Bool(*b),
        serde_json::Value::Number(_) => Json::Number,
        serde_json::Value::String(s) => Json::Text(s.clone()),
        serde_json::Value::Array(a) => Json::List(a.iter().map(to_json).collect()),
        serde_json::Value::Object(o) => Json::Object(
            o.iter().map(|(k, v)| Member { key: k.clone(), value: to_json(v) }).collect(),
        ),
    }
}

fn json(text: &str) -> Json {
    to_json(&serde_json::from_str(text).unwrap())
}

/// Hands the pages over one after the other.
fn fetch_linear(
    settings: &LinearTapSettings,
    pages: Vec<IssueConnection>,
    ctx: &FetchContext,
) -> FetchResult {
    let mut collected = IssuePages::new();
    let mut pages = pages.into_iter();
    while let Some(request) = collected.next_request(settings) {
        assert!(request.first > 0);
        let empty = IssueConnection {
            nodes: vec![],
            page_info: PageInfo { has_next_page: false, end_cursor: None },
        };
        collected.absorb(pages.next().unwrap_or(empty));
    }
    linear_result(&collected.finish(settings), settings, ctx)
}

/// Looks each block's children up.
fn fetch_notion(target: &str, pages: &[(String, BlockPage)], ctx: &FetchContext) -> FetchResult {
    let page_id = parse_page_id(target).unwrap();
    let find = |f: &Fetch| {
        pages.iter().find(|p| p.0 == f.block_id).map(|p| p.1.clone()).unwrap_or(BlockPage {
            blocks: vec![],
            next_cursor: None,
        })
    };
    let (mut walk, mut fetch) = BlockWalk::new(&page_id);
    loop {
        walk.absorb(find(&fetch));
        match walk.advance() {
            Some(f) => fetch = f,
            None => break,
        }
    }
    let item = build_source_item(&page_id, &page_meta(), &walk.out, true);
    notion_result(&vec![item], ctx)
}

fn issue(identifier: &str, title: &str) -> Issue {
    Issue {
        identifier: identifier.into(),
        title: title.into(),
        description: None,
        url: None,
        priority_label: None,
        updated_at: None,
        archived_at: None,
        trashed: None,
        state: None,
        assignee: None,
        team: None,
        project: None,
        labels: None,
        comments: None,
    }
}

#[test]
fn linear_settings_defaults() {
    let s = LinearTapSettings::from_settings(&Settings::default()).unwrap();
    assert_eq!(s.amount, DEFAULT_AMOUNT);
    assert_eq!(s.order_by, "updatedAt");
    assert!(s.team.is_none());
    assert!(s.include_comments);
    assert_eq!(s.api_key_env, "LINEAR_API_KEY");
}

#[test]
fn settings_overrides() {
    let mut m = Settings::default();
    put(&mut m, "amount", whole(100));
    put(&mut m, "order_by", Scalar::Text("createdAt".into()));
    put(&mut m, "team", Scalar::Text("ENG".into()));
    put(&mut m, "include_comments", Scalar::Bool(false));
    put(&mut m, "api_key_env", Scalar::Text("MY_KEY".into()));
    let s = LinearTapSettings::from_settings(&m).unwrap();
    assert_eq!(s.amount, 100);
    assert_eq!(s.order_by, "createdAt");
    assert_eq!(s.team.as_deref(), Some("ENG"));
    assert!(!s.include_comments);
    assert_eq!(s.api_key_env, "MY_KEY");
}

#[test]
fn settings_rejects_bad_order_by() {
    let mut m = Settings::default();
    put(&mut m, "order_by", Scalar::Text("priority".into()));
    let err = LinearTapSettings::from_settings(&m).unwrap_err();
    assert!(err.message().contains("order_by"), "got: {}", err.message());
}

#[test]
fn linear_settings_rejects_wrong_type() {
    let mut m = Settings::default();
    put(&mut m, "amount", Scalar::Text("lots".into()));
    let err = LinearTapSettings::from_settings(&m).unwrap_err();
    assert!(err.message().contains("amount"), "got: {}", err.message());
}

#[test]
fn render_includes_metadata_and_description() {
    let mut i = issue("ENG-1", "Fix login");
    i.description = Some("Users cannot log in after token refresh.".into());
    i.state = Some(Named {
        name: Some("In Progress".into()),
    });
    i.priority_label = Some("Urgent".into());
    i.labels = Some(vec![Named {
            name: Some("bug".into()),
        }]);
    let s = render_issue_content(&i, &LinearTapSettings::default());
    assert!(s.contains("ENG-1 Fix login"));
    assert!(s.contains("State: In Progress"));
    assert!(s.contains("Priority: Urgent"));
    assert!(s.contains("Labels: bug"));
    assert!(s.contains("Users cannot log in"));
}

#[test]
fn render_includes_comments_when_enabled() {
    let mut i = issue("ENG-2", "Rate table change");
    i.comments = Some(vec![Comment {
            body: Some("We chose monthly buckets for cost reasons.".into()),
            user: Some(Person {
                display_name: Some("Ada".into()),
                name: None,
            }),
        }]);
    let s = render_issue_content(&i, &LinearTapSettings::default());
    assert!(s.contains("## Comments"));
    assert!(s.contains("Ada"));
    assert!(s.contains("monthly buckets"));
}

#[test]
fn render_omits_comments_when_disabled() {
    let mut i = issue("ENG-3", "No comments wanted");
    i.comments = Some(vec![Comment {
            body: Some("secret discussion".into()),
            user: None,
        }]);
    let settings = LinearTapSettings {
        include_comments: false,
        ..LinearTapSettings::default()
    };
    let s = render_issue_content(&i, &settings);
    assert!(!s.contains("secret discussion"));
    assert!(!s.contains("## Comments"));
}

#[test]
fn source_item_keys_on_identifier_and_is_childless() {
    let item = issue_to_source_item(&issue("ENG-9", "X"), &LinearTapSettings::default());
    assert_eq!(item.source_path, "linear://ENG-9");
    assert!(item.children.is_empty());
    assert!(item.language.is_none());
    assert!(!item.content_hash.is_empty());
}

#[test]
fn content_hash_is_deterministic_and_content_sensitive() {
    let a = issue_to_source_item(&issue("ENG-1", "Same"), &LinearTapSettings::default());
    let b = issue_to_source_item(&issue("ENG-1", "Same"), &LinearTapSettings::default());
    let c = issue_to_source_item(&issue("ENG-1", "Different"), &LinearTapSettings::default());
    assert_eq!(a.content_hash, b.content_hash);
    assert_ne!(a.content_hash, c.content_hash);
}

#[test]
fn is_gone_detects_archived_and_trashed() {
    let mut archived = issue("ENG-1", "x");
    archived.archived_at = Some("2026-01-01".into());
    assert!(is_gone(&archived));

    let mut trashed = issue("ENG-2", "x");
    trashed.trashed = Some(true);
    assert!(is_gone(&trashed));

    assert!(!is_gone(&issue("ENG-3", "x")));
}

#[test]
fn reconcile_prunes_everything_not_active() {
    let mut stored = TextMap::new();
    stored.insert("linear://ENG-1", "h1"); // active
    stored.insert("linear://ENG-2", "h2"); // aged out / gone
    stored.insert("linear://ENG-3", "h3"); // gone
    let mut active: Vec<String> = Vec::new();
    active.push("linear://ENG-1".to_string());

    let mut deletions = reconcile_deletions(&stored, &active);
    deletions.sort();
    assert_eq!(deletions, vec!["linear://ENG-2", "linear://ENG-3"]);
}

#[test]
fn reconcile_keeps_active_even_when_hash_unchanged() {
    // Active issues are retained regardless of hash-skip.
    let mut stored = TextMap::new();
    stored.insert("linear://ENG-1", "h1");
    let mut active: Vec<String> = Vec::new();
    active.push("linear://ENG-1".to_string());
    assert!(reconcile_deletions(&stored, &active).is_empty());
}

fn page(issues: Vec<Issue>, has_next: bool, cursor: Option<&str>) -> IssueConnection {
    IssueConnection {
        nodes: issues,
        page_info: PageInfo {
            has_next_page: has_next,
            end_cursor: cursor.map(String::from),
        },
    }
}

#[test]
fn fetch_paginates_until_amount() {
    let settings = LinearTapSettings {
        amount: 3,
        ..LinearTapSettings::default()
    };
    let pages = vec![
        page(
            vec![issue("ENG-1", "a"), issue("ENG-2", "b")],
            true,
            Some("c1"),
        ),
        page(
            vec![issue("ENG-3", "c"), issue("ENG-4", "d")],
            true,
            Some("c2"),
        ),
    ];
    let result = fetch_linear(&settings, pages, &ctx(true, TextMap::new()));
    // amount = 3 → truncated across two pages.
    assert_eq!(result.items.len(), 3);
    let paths: Vec<&str> = result
        .items
        .iter()
        .map(|i| i.source_path.as_str())
        .collect();
    assert!(paths.contains(&"linear://ENG-1"));
    assert!(paths.contains(&"linear://ENG-3"));
}

#[test]
fn fetch_stops_when_no_next_page() {
    let settings = LinearTapSettings {
        amount: 100,
        ..LinearTapSettings::default()
    };
    let pages = vec![page(vec![issue("ENG-1", "a")], false, None)];
    let result = fetch_linear(&settings, pages, &ctx(true, TextMap::new()));
    assert_eq!(result.items.len(), 1);
}

#[test]
fn fetch_skips_unchanged_but_does_not_delete_them() {
    let settings = LinearTapSettings {
        amount: 10,
        ..LinearTapSettings::default()
    };
    // Pre-compute ENG-1's hash so we can mark it unchanged.
    let unchanged = issue_to_source_item(&issue("ENG-1", "a"), &settings);
    let mut stored = TextMap::new();
    stored.insert(&unchanged.source_path, &unchanged.content_hash);

    let pages = vec![page(
        vec![issue("ENG-1", "a"), issue("ENG-2", "b")],
        false,
        None,
    )];
    let result = fetch_linear(&settings, pages, &ctx(false, stored));

    // ENG-1 skipped (unchanged), ENG-2 processed.
    let paths: Vec<&str> = result
        .items
        .iter()
        .map(|i| i.source_path.as_str())
        .collect();
    assert!(!paths.contains(&"linear://ENG-1"));
    assert!(paths.contains(&"linear://ENG-2"));
    // ENG-1 still active → not deleted.
    assert!(result.deletions.is_empty());
}

#[test]
fn fetch_prunes_archived_and_aged_out() {
    let settings = LinearTapSettings {
        amount: 10,
        ..LinearTapSettings::default()
    };
    let mut archived = issue("ENG-2", "old");
    archived.archived_at = Some("2026-01-01".into());

    let mut stored = TextMap::new();
    stored.insert("linear://ENG-1", "stale"); // will stay (active, changed)
    stored.insert("linear://ENG-2", "h2"); // archived → delete
    stored.insert("linear://ENG-9", "h9"); // aged out → delete

    let pages = vec![page(vec![issue("ENG-1", "a"), archived], false, None)];
    let result = fetch_linear(&settings, pages, &ctx(false, stored));

    let mut deletions = result.deletions.clone();
    deletions.sort();
    assert_eq!(deletions, vec!["linear://ENG-2", "linear://ENG-9"]);
    // Archived issue is never indexed.
    let paths: Vec<&str> = result
        .items
        .iter()
        .map(|i| i.source_path.as_str())
        .collect();
    assert!(!paths.contains(&"linear://ENG-2"));
    assert!(paths.contains(&"linear://ENG-1"));
}

#[test]
fn fetch_cursor_is_max_updated_at() {
    let mut a = issue("ENG-1", "a");
    a.updated_at = Some("2026-01-01T00:00:00Z".into());
    let mut b = issue("ENG-2", "b");
    b.updated_at = Some("2026-03-01T00:00:00Z".into());
    let pages = vec![page(vec![a, b], false, None)];
    let result = fetch_linear(&LinearTapSettings::default(), pages, &ctx(true, TextMap::new()));
    assert_eq!(result.cursor.as_deref(), Some("2026-03-01T00:00:00Z"));
}

#[test]
fn notion_settings_defaults() {
    let s = NotionTapSettings::from_settings(&Settings::default()).unwrap();
    assert!(s.api_key.is_none());
    assert_eq!(s.api_key_env, "NOTION_API_KEY");
    assert_eq!(s.notion_version, "2026-03-11");
    assert!(s.include_sections);
}

#[test]
fn settings_parses_inline_api_key() {
    let mut m = Settings::default();
    put(&mut m, "api_key", Scalar::Text("secret_abc".into()));
    let s = NotionTapSettings::from_settings(&m).unwrap();
    assert_eq!(s.api_key.as_deref(), Some("secret_abc"));
}

#[test]
fn settings_overrides_and_ignores_unknown() {
    let mut m = Settings::default();
    put(&mut m, "api_key_env", Scalar::Text("MY_NOTION".into()));
    put(&mut m, "include_sections", Scalar::Bool(false));
    // A `decay` block (consumed elsewhere) must be ignored, not rejected.
    put(&mut m, "decay", Scalar::Text("whatever".into()));
    let s = NotionTapSettings::from_settings(&m).unwrap();
    assert_eq!(s.api_key_env, "MY_NOTION");
    assert!(!s.include_sections);
}

#[test]
fn notion_settings_rejects_wrong_type() {
    let mut m = Settings::default();
    put(&mut m, "include_sections", Scalar::Text("yes".into()));
    let err = NotionTapSettings::from_settings(&m).unwrap_err();
    assert!(err.message().contains("include_sections"), "got: {}", err.message());
}

#[test]
fn parse_id_from_app_url_with_slug() {
    let id = parse_page_id(
        "https://app.notion.com/p/Implementation-Specs-399cb3cadc9580a1a77fd58e1248ded6?source=copy_link",
    )
    .unwrap();
    assert_eq!(id, "399cb3ca-dc95-80a1-a77f-d58e1248ded6");
}

#[test]
fn parse_id_from_notion_so_url() {
    let id = parse_page_id("https://www.notion.so/My-Page-399cb3cadc9580a1a77fd58e1248ded6")
        .unwrap();
    assert_eq!(id, "399cb3ca-dc95-80a1-a77f-d58e1248ded6");
}

#[test]
fn parse_id_from_bare_hex() {
    let id = parse_page_id("399cb3cadc9580a1a77fd58e1248ded6").unwrap();
    assert_eq!(id, "399cb3ca-dc95-80a1-a77f-d58e1248ded6");
}

#[test]
fn parse_id_from_dashed_uuid() {
    let id = parse_page_id("399cb3ca-dc95-80a1-a77f-d58e1248ded6").unwrap();
    assert_eq!(id, "399cb3ca-dc95-80a1-a77f-d58e1248ded6");
}

#[test]
fn parse_id_rejects_garbage() {
    assert!(parse_page_id("not-a-notion-link").is_err());
    assert!(parse_page_id("https://app.notion.com/p/short").is_err());
}

#[test]
fn parse_page_meta_extracts_title_and_url() {
    let v = json(r#"{
        "object": "page",
        "id": "399cb3ca-dc95-80a1-a77f-d58e1248ded6",
        "url": "https://notion.so/Implementation-Specs-399cb3ca",
        "properties": {
            "Name": {
                "id": "title",
                "type": "title",
                "title": [{ "plain_text": "Implementation Specs" }]
            }
        }
    }"#);
    let meta = parse_page_meta(&v);
    assert_eq!(meta.title, "Implementation Specs");
    assert_eq!(
        meta.url.as_deref(),
        Some("https://notion.so/Implementation-Specs-399cb3ca")
    );
}

#[test]
fn parse_page_meta_untitled_fallback() {
    let v = json(r#"{ "object": "page", "properties": {} }"#);
    assert_eq!(parse_page_meta(&v).title, "Untitled");
}

#[test]
fn parse_block_page_reads_blocks_and_cursor() {
    let v = json(r#"{
        "results": [
            {
                "object": "block",
                "id": "b1",
                "type": "heading_1",
                "heading_1": { "rich_text": [{ "plain_text": "Overview" }] },
                "has_children": false
            },
            {
                "object": "block",
                "id": "b2",
                "type": "paragraph",
                "paragraph": { "rich_text": [{ "plain_text": "Hello " }, { "plain_text": "world" }] },
                "has_children": false
            }
        ],
        "has_more": true,
        "next_cursor": "cursor-2"
    }"#);
    let page = parse_block_page(&v);
    assert_eq!(page.blocks.len(), 2);
    assert_eq!(page.blocks[0].kind, "heading_1");
    assert_eq!(page.blocks[0].text, "Overview");
    assert_eq!(page.blocks[1].text, "Hello world");
    assert_eq!(page.next_cursor.as_deref(), Some("cursor-2"));
}

#[test]
fn parse_block_page_no_more_has_no_cursor() {
    let v = json(r#"{ "results": [], "has_more": false, "next_cursor": null }"#);
    assert!(parse_block_page(&v).next_cursor.is_none());
}

#[test]
fn parse_block_reads_child_page_title() {
    let v = json(r#"{
        "id": "cp1",
        "type": "child_page",
        "child_page": { "title": "API Design" },
        "has_children": true
    }"#);
    let b = parse_block(&v).unwrap();
    assert_eq!(b.kind, "child_page");
    assert_eq!(b.child_page_title.as_deref(), Some("API Design"));
}

fn block(kind: &str, text: &str) -> Block {
    Block {
        id: format!("id-{kind}-{text}"),
        kind: kind.into(),
        text: text.into(),
        language: None,
        child_page_title: None,
        has_children: false,
    }
}

fn page_meta() -> PageMeta {
    PageMeta {
        title: "Commission Spec".into(),
        url: Some("https://notion.so/x".into()),
    }
}

#[test]
fn document_includes_title_and_headings() {
    let blocks = vec![
        block("paragraph", "Intro text."),
        block("heading_2", "Rounding rules"),
        block("paragraph", "Round half up."),
    ];
    let doc = render_document(&page_meta(), &blocks);
    assert!(doc.contains("# Commission Spec"));
    assert!(doc.contains("## Rounding rules"));
    assert!(doc.contains("Round half up."));
    assert!(doc.contains("Intro text."));
}

#[test]
fn sections_split_on_headings_with_overview() {
    let blocks = vec![
        block("paragraph", "Intro text."),
        block("heading_2", "Rounding rules"),
        block("paragraph", "Round half up."),
        block("heading_2", "Edge cases"),
        block("paragraph", "Zero payout."),
    ];
    let (sections, has_headings) = split_sections("Commission Spec", &blocks);
    assert!(has_headings);
    assert_eq!(sections.len(), 3); // overview + 2 headings
    assert!(sections[0].name.contains("Overview"));
    assert_eq!(sections[1].name, "Rounding rules");
    assert!(sections[1].body.contains("Round half up."));
    assert_eq!(sections[2].name, "Edge cases");
}

#[test]
fn build_item_keys_on_page_id_with_section_children() {
    let blocks = vec![
        block("paragraph", "Intro."),
        block("heading_1", "Design"),
        block("paragraph", "Details."),
    ];
    let item = build_source_item(
        "399cb3ca-dc95-80a1-a77f-d58e1248ded6",
        &page_meta(),
        &blocks,
        true,
    );
    assert_eq!(
        item.source_path,
        "notion://399cb3ca-dc95-80a1-a77f-d58e1248ded6"
    );
    assert!(item.language.is_none());
    assert!(!item.content_hash.is_empty());
    assert!(!item.children.is_empty());
    assert!(item.children.iter().all(|c| c.kind == "section"));
}

#[test]
fn build_item_no_headings_has_no_children() {
    let blocks = vec![
        block("paragraph", "Just a flat note."),
        block("paragraph", "More."),
    ];
    let item = build_source_item(
        "399cb3ca-dc95-80a1-a77f-d58e1248ded6",
        &page_meta(),
        &blocks,
        true,
    );
    assert!(
        item.children.is_empty(),
        "no headings → no section children (avoids duplicate vector)"
    );
}

#[test]
fn build_item_include_sections_false_has_no_children() {
    let blocks = vec![block("heading_1", "H"), block("paragraph", "text")];
    let item = build_source_item(
        "399cb3ca-dc95-80a1-a77f-d58e1248ded6",
        &page_meta(),
        &blocks,
        false,
    );
    assert!(item.children.is_empty());
}

#[test]
fn child_page_rendered_as_link_not_crawled() {
    let mut cp = block("child_page", "");
    cp.child_page_title = Some("API Design".into());
    let doc = render_document(&page_meta(), &vec![cp]);
    assert!(doc.contains("[sub-page: API Design]"));
}

#[test]
fn notion_content_hash_is_content_sensitive() {
    let a = build_source_item(
        "id0000000000000000000000000000aa",
        &page_meta(),
        &vec![block("paragraph", "x")],
        true,
    );
    let b = build_source_item(
        "id0000000000000000000000000000aa",
        &page_meta(),
        &vec![block("paragraph", "y")],
        true,
    );
    assert_ne!(a.content_hash, b.content_hash);
}

#[test]
fn fetch_builds_item_for_target() {
    let page_id = "399cb3ca-dc95-80a1-a77f-d58e1248ded6";
    let mut pages: Vec<(String, BlockPage)> = Vec::new();
    pages.push((page_id.to_string(), BlockPage {
            blocks: vec![block("heading_1", "Design"), block("paragraph", "Details.")],
            next_cursor: None }));
    let target = format!(
            "https://app.notion.com/p/Spec-{}",
            page_id.replace('-', "")
        );
    let result = fetch_notion(&target, &pages, &ctx(true, TextMap::new()));
    assert_eq!(result.items.len(), 1);
    assert_eq!(result.items[0].source_path, format!("notion://{page_id}"));
    assert!(result.deletions.is_empty(), "notion indexing is additive");
}

#[test]
fn fetch_recurses_nested_non_child_page_blocks() {
    let page_id = "399cb3ca-dc95-80a1-a77f-d58e1248ded6";
    let mut toggle = block("toggle", "Toggle header");
    toggle.has_children = true;
    toggle.id = "toggle-1".into();
    let mut pages: Vec<(String, BlockPage)> = Vec::new();
    pages.push((page_id.to_string(), BlockPage {
            blocks: vec![toggle],
            next_cursor: None }));
    pages.push(("toggle-1".to_string(), BlockPage {
            blocks: vec![block("paragraph", "Nested detail.")],
            next_cursor: None }));
    let target = page_id.to_string();
    let result = fetch_notion(&target, &pages, &ctx(true, TextMap::new()));
    assert!(result.items[0].content.contains("Nested detail."));
}

#[test]
fn fetch_does_not_crawl_child_pages() {
    let page_id = "399cb3ca-dc95-80a1-a77f-d58e1248ded6";
    let mut cp = block("child_page", "");
    cp.child_page_title = Some("Sub Spec".into());
    cp.has_children = true;
    cp.id = "child-1".into();
    let mut pages: Vec<(String, BlockPage)> = Vec::new();
    pages.push((page_id.to_string(), BlockPage {
            blocks: vec![cp],
            next_cursor: None }));
    // If crawling happened, this would be pulled in — assert it is NOT.
    pages.push(("child-1".to_string(), BlockPage {
            blocks: vec![block("paragraph", "SHOULD NOT APPEAR")],
            next_cursor: None }));
    let target = page_id.to_string();
    let result = fetch_notion(&target, &pages, &ctx(true, TextMap::new()));
    assert!(!result.items[0].content.contains("SHOULD NOT APPEAR"));
    assert!(result.items[0].content.contains("[sub-page: Sub Spec]"));
}

#[test]
fn fetch_skips_unchanged_on_incremental() {
    let page_id = "399cb3ca-dc95-80a1-a77f-d58e1248ded6";
    let mut pages: Vec<(String, BlockPage)> = Vec::new();
    pages.push((page_id.to_string(), BlockPage {
            blocks: vec![block("paragraph", "stable")],
            next_cursor: None }));
    let target = page_id.to_string();
    // First compute the hash the tap would produce.
    let first = fetch_notion(&target, &pages, &ctx(true, TextMap::new()));
    let hash = first.items[0].content_hash.clone();
    let mut stored = TextMap::new();
    stored.insert(&format!("notion://{page_id}"), &hash);
    let second = fetch_notion(&target, &pages, &ctx(false, stored));
    assert!(second.items.is_empty(), "unchanged doc should be skipped");
}

fn _assert_send<T: Send>() {}
fn _assert_sync<T: Sync>() {}

#[test]
fn types_are_send_and_sync() {
    _assert_send::<FetchContext>();
    _assert_sync::<FetchContext>();
    _assert_send::<FetchResult>();
    _assert_sync::<FetchResult>();
    _assert_send::<SourceItem>();
    _assert_sync::<SourceItem>();
    _assert_send::<SourceChunk>();
    _assert_sync::<SourceChunk>();
}

#[test]
fn namespace_suffix_files_is_none() {
    assert_eq!(namespace_suffix("files"), None);
}

#[test]
fn namespace_suffix_other_taps() {
    assert_eq!(namespace_suffix("linear"), Some("--linear".into()));
    assert_eq!(namespace_suffix("notion"), Some("--notion".into()));
}

#[test]
fn mock_tap_returns_configured_items() {
    let items = vec![SourceItem {
        source_path: "test.rs".into(),
        content: "fn test() {}".into(),
        content_hash: "hash1".into(),
        language: Some("rust".into()),
        module_doc: None,
        children: vec![],
    }];
    let tap = MockTap::new("test", items);
    let ctx = FetchContext {
        full: true,
        cursor: None,
        stored_hashes: TextMap::new(),
    };
    let result = tap.fetch(&ctx);
    assert_eq!(result.items.len(), 1);
    assert_eq!(result.items[0].source_path, "test.rs");
}

#[test]
fn mock_tap_skips_matching_hashes() {
    let items = vec![
        SourceItem {
            source_path: "a.rs".into(),
            content: "fn a() {}".into(),
            content_hash: "hash_a".into(),
            language: Some("rust".into()),
            module_doc: None,
            children: vec![],
        },
        SourceItem {
            source_path: "b.rs".into(),
            content: "fn b() {}".into(),
            content_hash: "hash_b".into(),
            language: Some("rust".into()),
            module_doc: None,
            children: vec![],
        },
    ];
    let tap = MockTap::new("test", items);
    let mut stored = TextMap::new();
    stored.insert("a.rs", "hash_a");
    let ctx = FetchContext {
        full: false,
        cursor: None,
        stored_hashes: stored,
    };
    let result = tap.fetch(&ctx);
    assert_eq!(result.items.len(), 1);
    assert_eq!(result.items[0].source_path, "b.rs");
}

#[test]
fn mock_tap_full_ignores_hashes() {
    let items = vec![SourceItem {
        source_path: "a.rs".into(),
        content: "fn a() {}".into(),
        content_hash: "hash_a".into(),
        language: Some("rust".into()),
        module_doc: None,
        children: vec![],
    }];
    let tap = MockTap::new("test", items);
    let mut stored = TextMap::new();
    stored.insert("a.rs", "hash_a");
    let ctx = FetchContext {
        full: true,
        cursor: None,
        stored_hashes: stored,
    };
    let result = tap.fetch(&ctx);
    assert_eq!(result.items.len(), 1, "full=true should skip hash check");
}

#[test]
fn mock_tap_returns_deletions() {
    let tap = MockTap::with_deletions("test", vec![], vec!["deleted.rs".into()]);
    let ctx = FetchContext {
        full: false,
        cursor: None,
        stored_hashes: TextMap::new(),
    };
    let result = tap.fetch(&ctx);
    assert!(result.items.is_empty());
    assert_eq!(result.deletions, vec!["deleted.rs"]);
}

#[test]
fn mock_tap_name() {
    let tap = MockTap::new("my-source", vec![]);
    assert_eq!(tap.name(), "my-source");
}

fn files_config() -> TapConfig {
    TapConfig {
        name: "files".into(),
        command: None,
        args: vec![],
        settings: Settings::default(),
    }
}

#[test]
fn build_tap_files() {
    let cfg = files_config();
    let tap = build_tap(&cfg, ".", &vec![], &TextMap::new()).unwrap();
    assert_eq!(tap.name(), "files");
}

#[test]
fn build_tap_unknown_errors() {
    let cfg = TapConfig {
        name: "nope".into(),
        command: None,
        args: vec![],
        settings: Settings::default(),
    };
    let result = build_tap(&cfg, ".", &vec![], &TextMap::new());
    let err = result.err().expect("should error");
    assert!(
        err.message().contains("unknown built-in tap"),
        "got: {}", err.message()
    );
}

#[test]
fn build_tap_subprocess_creates_process_tap() {
    let cfg = TapConfig {
        name: "custom".into(),
        command: Some("/usr/bin/custom".into()),
        args: vec!["--flag".into()],
        settings: Settings::default(),
    };
    let tap = build_tap(&cfg, ".", &vec![], &TextMap::new()).unwrap();
    assert_eq!(tap.name(), "custom");
}

#[test]
fn build_taps_all() {
    let configs = vec![files_config()];
    let taps = build_taps(&configs, ".", None, &vec![], &TextMap::new()).unwrap();
    assert_eq!(taps.len(), 1);
    assert_eq!(taps[0].name(), "files");
}

#[test]
fn build_taps_filter_by_name() {
    let configs = vec![files_config()];
    let taps = build_taps(&configs, ".", Some("files"), &vec![], &TextMap::new()).unwrap();
    assert_eq!(taps.len(), 1);
}

#[test]
fn build_taps_filter_missing_errors() {
    let configs = vec![files_config()];
    let result = build_taps(&configs, ".", Some("linear"), &vec![], &TextMap::new());
    let err = result.err().expect("should error");
    assert!(err.message().contains("not configured"), "got: {}", err.message());
}

#[test]
fn settings_of_every_wrong_type_are_refused() {
    for (key, words) in [
        ("api_key", "notion tap: 'api_key' must be a string"),
        ("api_key_env", "notion tap: 'api_key_env' must be a string"),
        ("notion_version", "notion tap: 'notion_version' must be a string"),
        ("include_sections", "notion tap: 'include_sections' must be a boolean"),
    ] {
        let mut m = Settings::default();
        put(&mut m, key, whole(3));
        assert_eq!(NotionTapSettings::from_settings(&m).unwrap_err().message(), words);
    }
    for (key, words) in [
        ("order_by", "linear tap: 'order_by' must be a string"),
        ("team", "linear tap: 'team' must be a string"),
        ("include_comments", "linear tap: 'include_comments' must be a boolean"),
        ("api_key_env", "linear tap: 'api_key_env' must be a string"),
    ] {
        let mut m = Settings::default();
        put(&mut m, key, whole(3));
        assert_eq!(LinearTapSettings::from_settings(&m).unwrap_err().message(), words);
    }
}

#[test]
fn page_ids_that_are_too_short_or_not_hexadecimal() {
    assert!(matches!(parse_page_id("short"), Err(PageIdError::TooShort { .. })));
    let e = parse_page_id("zzzzzzzzzzzzzzzzzzzzzzzzzzzzzzzz").unwrap_err();
    assert_eq!(
        e.message(),
        "could not extract a Notion page id from 'zzzzzzzzzzzzzzzzzzzzzzzzzzzzzzzz' (not a 32-hex id)"
    );
}

#[test]
fn page_ids_are_read_back_unchanged() {
    let id = parse_page_id("https://notion.so/X-399CB3CADC9580A1A77FD58E1248DED6#frag").unwrap();
    assert_eq!(id, "399cb3ca-dc95-80a1-a77f-d58e1248ded6");
    assert_eq!(parse_page_id(&id).unwrap(), id);
}

#[test]
fn addresses_of_pages_and_children() {
    assert_eq!(page_url(DEFAULT_BASE_URL, "p1"), "https://api.notion.com/v1/pages/p1");
    let first = Fetch { block_id: "b1".into(), cursor: None };
    assert_eq!(first.url("http://x"), "http://x/v1/blocks/b1/children?page_size=100");
    let next = Fetch { block_id: "b1".into(), cursor: Some("c2".into()) };
    assert_eq!(next.url("http://x"), "http://x/v1/blocks/b1/children?page_size=100&start_cursor=c2");
}

#[test]
fn later_pages_of_a_block_follow_its_children() {
    let mut toggle = block("toggle", "t");
    toggle.has_children = true;
    toggle.id = "t1".into();
    let (mut walk, fetch) = BlockWalk::new("p");
    assert_eq!(fetch.block_id, "p");
    walk.absorb(BlockPage { blocks: vec![toggle], next_cursor: Some("more".into()) });
    let f = walk.advance().unwrap();
    assert_eq!((f.block_id.as_str(), f.cursor.as_deref()), ("t1", None));
    walk.absorb(BlockPage { blocks: vec![block("paragraph", "inner")], next_cursor: None });
    let f = walk.advance().unwrap();
    assert_eq!((f.block_id.as_str(), f.cursor.as_deref()), ("p", Some("more")));
    walk.absorb(BlockPage { blocks: vec![block("paragraph", "last")], next_cursor: None });
    assert!(walk.advance().is_none());
    let texts: Vec<&str> = walk.out.iter().map(|b| b.text.as_str()).collect();
    assert_eq!(texts, vec!["t", "inner", "last"]);
}

#[test]
fn taps_of_services_need_their_keys() {
    let none = TextMap::new();
    let e = LinearTap::from_settings(&Settings::default(), &none).unwrap_err();
    assert_eq!(
        e.message(),
        "Linear API key not set: export LINEAR_API_KEY (or set the linear tap's settings.api_key_env)"
    );
    let e = NotionTap::from_settings(&Settings::default(), &vec![], &none).unwrap_err();
    assert_eq!(
        e.message(),
        "Notion API key not set: put it in the notion tap's settings.api_key, or export NOTION_API_KEY"
    );
    let mut env = TextMap::new();
    env.insert("LINEAR_API_KEY", "lin");
    env.insert("NOTION_API_KEY", "not");
    assert_eq!(LinearTap::from_settings(&Settings::default(), &env).unwrap().api_key, "lin");
    let mut m = Settings::default();
    put(&mut m, "api_key", Scalar::Text("inline".into()));
    assert_eq!(NotionTap::from_settings(&m, &vec![], &env).unwrap().api_key, "inline");
    let mut m = Settings::default();
    put(&mut m, "api_key", Scalar::Text(String::new()));
    assert_eq!(NotionTap::from_settings(&m, &vec![], &env).unwrap().api_key, "not");
}

#[test]
fn wrong_settings_stop_a_tap_from_being_built() {
    let mut cfg = files_config();
    cfg.name = "linear".into();
    put(&mut cfg.settings, "amount", Scalar::Text("lots".into()));
    let e = build_tap(&cfg, ".", &vec![], &TextMap::new()).unwrap_err();
    assert!(matches!(e, TapError::Linear(_)));
    cfg.name = "notion".into();
    put(&mut cfg.settings, "include_sections", whole(1));
    let e = build_tap(&cfg, ".", &vec![], &TextMap::new()).unwrap_err();
    assert!(matches!(e, TapError::Notion(_)));
}

#[test]
fn missing_taps_are_listed() {
    let configs = vec![files_config()];
    let e = build_taps(&configs, ".", Some("linear"), &vec![], &TextMap::new()).unwrap_err();
    assert_eq!(e.message(), "tap 'linear' is not configured; configured taps: files");
}

#[test]
fn a_command_goes_before_a_built_in_tap() {
    let mut cfg = files_config();
    cfg.command = Some("/bin/x".into());
    let tap = build_tap(&cfg, ".", &vec![], &TextMap::new()).unwrap();
    assert!(matches!(tap, BuiltTap::Process(_)));
}

#[test]
fn suffixes_tell_taps_apart() {
    assert_ne!(namespace_suffix("a"), namespace_suffix("b"));
    assert_ne!(namespace_suffix("files"), namespace_suffix("a"));
}

#[test]
fn tap_name() {
    assert_eq!(FilesTap::new(".").name(), "files");
}

fn content(path: &str, text: &str) -> Content {
    Content { path: path.into(), content: text.into() }
}

fn hash_of(text: &str) -> String {
    blake3::hash(text.as_bytes()).to_hex()[..16].to_string()
}

#[test]
fn full_fetch_returns_all_files() {
    let files = vec![
        content("src/main.rs", "pub fn main() {}\npub fn helper() {}"),
        content("src/lib.rs", "pub fn lib_fn() {}"),
        content("README.md", "# Hello"),
    ];
    let result = files_result(&files, vec![], "head", &ctx(true, TextMap::new()));
    assert_eq!(result.items.len(), 3);
    assert!(result.cursor.is_some());
    assert!(result.deletions.is_empty());
    let paths: Vec<&str> = result.items.iter().map(|i| i.source_path.as_str()).collect();
    assert!(paths.contains(&"src/main.rs"), "paths: {paths:?}");
    assert!(paths.contains(&"src/lib.rs"), "paths: {paths:?}");
    assert!(paths.contains(&"README.md"), "paths: {paths:?}");
}

#[test]
fn rust_files_have_symbol_children() {
    let item = build_item(
        "src/main.rs",
        "pub fn hello() {\n    println!(\"hi\");\n}\n\npub fn goodbye() {\n    println!(\"bye\");\n}",
    );
    assert_eq!(item.language.as_deref(), Some("rust"));
    assert!(item.children.len() >= 2, "expected at least 2 symbols, got {}", item.children.len());
    let names: Vec<&str> = item.children.iter().map(|c| c.name.as_str()).collect();
    assert!(names.contains(&"hello"), "names: {names:?}");
    assert!(names.contains(&"goodbye"), "names: {names:?}");
}

#[test]
fn unknown_language_has_no_children() {
    let item = build_item("config.yaml", "key: value");
    assert!(item.language.is_none());
    assert!(item.children.is_empty());
}

#[test]
fn content_hash_skip_detection() {
    let files = vec![content("a.rs", "pub fn a() {}"), content("b.rs", "pub fn b() {}")];
    let mut stored = TextMap::new();
    stored.insert("a.rs", &hash_of("pub fn a() {}"));
    let result = files_result(&files, vec![], "head", &ctx(false, stored));
    let paths: Vec<&str> = result.items.iter().map(|i| i.source_path.as_str()).collect();
    assert!(!paths.contains(&"a.rs"), "a.rs should be skipped");
    assert!(paths.contains(&"b.rs"), "b.rs should be included");
}

#[test]
fn full_fetch_ignores_stored_hashes() {
    let files = vec![content("a.rs", "pub fn a() {}")];
    let mut stored = TextMap::new();
    stored.insert("a.rs", &hash_of("pub fn a() {}"));
    let result = files_result(&files, vec![], "head", &ctx(true, stored));
    assert_eq!(result.items.len(), 1);
    assert_eq!(result.items[0].source_path, "a.rs");
}

#[test]
fn incremental_fetch_reports_deletions() {
    let result = files_result(&vec![], vec!["b.rs".to_string()], "head", &ctx(false, TextMap::new()));
    assert!(result.deletions.contains(&"b.rs".to_string()));
    assert_eq!(result.cursor.as_deref(), Some("head"));
}

#[test]
fn content_hash_is_deterministic() {
    let a = build_item("a.rs", "pub fn a() {}");
    let b = build_item("a.rs", "pub fn a() {}");
    assert_eq!(a.content_hash, b.content_hash);
    assert_eq!(a.content_hash, hash_of("pub fn a() {}"));
}

#[test]
fn symbol_chunks_have_line_numbers() {
    let item = build_item("src/main.rs", "pub fn hello() {\n    println!(\"hi\");\n}");
    let sym = &item.children[0];
    assert_eq!(sym.name, "hello");
    assert!(sym.start_line.is_some());
    assert!(sym.end_line.is_some());
    assert!(sym.start_line.unwrap() <= sym.end_line.unwrap());
}

#[test]
fn only_an_incremental_run_asks_for_a_diff() {
    let mut c = ctx(false, TextMap::new());
    assert!(matches!(files_to_process(&c), FileScope::All));
    c.cursor = Some("abc".into());
    assert!(matches!(files_to_process(&c), FileScope::Since(s) if s == "abc"));
    c.full = true;
    assert!(matches!(files_to_process(&c), FileScope::All));
}
