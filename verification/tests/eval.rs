//! Evaluation: metrics, medians and the table.
use wdpkr_core::eval::default_top_k;
use wdpkr_core::eval::metrics::{
    approx_token_count, compression, relevance, symbol_relevance, Content, Ratio,
};
use wdpkr_core::eval::output::{
    render_case_row, render_table, truncate_label, truncate_query, CaseFigures, Figure,
    RelevanceFigures, Share, SuiteFigures, SummaryFigures, TagFigures,
};
use wdpkr_core::eval::runner::median_pair;
use wdpkr_core::number::Real;
use wdpkr_core::store::Score;

fn ratio(r: Ratio) -> f64 {
    if r.den == 0 {
        0.0
    } else {
        r.num as f64 / r.den as f64
    }
}

fn figure(x: f32) -> Figure {
    Figure { text: format!("{x:.2}"), value: Score { bits: x.to_bits() } }
}

fn share(x: f64) -> Share {
    Share { text: format!("{x:.2}"), value: Real { bits: x.to_bits() } }
}

fn sample_figures() -> SuiteFigures {
    SuiteFigures {
        suite_name: "test-suite".into(),
        cases: vec![
            CaseFigures {
                query: "search pipeline".into(),
                label: Some("search-pipeline".into()),
                relevance: Some(RelevanceFigures {
                    precision_at_k: figure(0.60),
                    recall_at_k: figure(1.0),
                    reciprocal_rank: figure(1.0),
                }),
                symbol_recall: Some(figure(1.0)),
                compression: share(0.08),
                files_returned: 5,
                elapsed_ms: 120,
            },
            CaseFigures {
                query: "broad overview".into(),
                label: Some("compression-only".into()),
                relevance: None,
                symbol_recall: None,
                compression: share(0.06),
                files_returned: 10,
                elapsed_ms: 150,
            },
        ],
        summary: SummaryFigures {
            total_cases: 2,
            mean_precision_at_k: Some(figure(0.60)),
            mean_recall_at_k: Some(figure(1.0)),
            mean_reciprocal_rank: Some(figure(1.0)),
            mean_symbol_recall: Some(figure(1.0)),
            mean_symbol_reciprocal_rank: Some(figure(0.5)),
            mean_compression_ratio: share(0.07),
            median_compression_ratio: share(0.07),
        },
        by_tag: vec![TagFigures {
            tag: "search".into(),
            cases: 1,
            mean_precision_at_k: Some(figure(0.60)),
            mean_recall_at_k: Some(figure(1.0)),
            mean_reciprocal_rank: Some(figure(1.0)),
        }],
        elapsed_ms: 270,
    }
}

fn median(values: &[f64]) -> f64 {
    let list = values.iter().map(|x| Real { bits: x.to_bits() }).collect();
    match median_pair(&list) {
        None => 0.0,
        Some((a, b)) => (f64::from_bits(a.bits) + f64::from_bits(b.bits)) / 2.0,
    }
}

#[test]
fn median_odd() {
    assert_eq!(median(&[1.0, 3.0, 2.0]), 2.0);
}

#[test]
fn median_even() {
    assert_eq!(median(&[1.0, 2.0, 3.0, 4.0]), 2.5);
}

#[test]
fn median_empty() {
    assert_eq!(median(&[]), 0.0);
}

#[test]
fn median_single() {
    assert_eq!(median(&[5.0]), 5.0);
}

#[test]
fn table_contains_case_labels() {
    let out = render_table(&sample_figures(), false);
    assert!(out.contains("search-pipeline"));
    assert!(out.contains("compression-only"));
}

#[test]
fn table_contains_summary() {
    let out = render_table(&sample_figures(), false);
    assert!(out.contains("Summary"));
    assert!(out.contains("Cases:"));
    assert!(out.contains("Mean Comp.:"));
}

#[test]
fn table_contains_dash_for_no_relevance() {
    let out = render_table(&sample_figures(), false);
    assert!(out.contains("—"));
}

#[test]
fn table_contains_by_tag_section() {
    let out = render_table(&sample_figures(), false);
    assert!(out.contains("By tag"));
    assert!(out.contains("search"));
}

#[test]
fn table_contains_symbol_summary() {
    let out = render_table(&sample_figures(), false);
    assert!(out.contains("Mean Sym R"));
    assert!(out.contains("SymR"));
    assert!(out.contains("  Mean Sym MRR: 0.50\n"));
    assert!(out.contains("search-pipeline                0.60   1.00   1.00   1.00    0.08     5    120ms\n"));
}

#[test]
fn color_is_all_that_color_adds() {
    let plain = render_table(&sample_figures(), false);
    let colored = render_table(&sample_figures(), true);
    assert!(!plain.contains('\u{1b}'));
    assert!(colored.contains("\u{1b}[32m"));
    let mut stripped = String::new();
    let mut rest = colored.as_str();
    while let Some(i) = rest.find('\u{1b}') {
        stripped.push_str(&rest[..i]);
        let end = rest[i..].find('m').unwrap();
        rest = &rest[i + end + 1..];
    }
    stripped.push_str(rest);
    assert_eq!(stripped.replace(' ', ""), plain.replace(' ', ""));
}

#[test]
fn rows_are_added_behind_what_is_there() {
    let mut out = String::from("before\n");
    render_case_row(&mut out, &sample_figures().cases[0], false);
    assert!(out.starts_with("before\n"));
    assert!(out.contains("search-pipeline"));
}

#[test]
fn long_queries_are_cut() {
    assert_eq!(truncate_query("short"), "short");
    assert_eq!(truncate_query(&"q".repeat(40)).len(), 27);
}

#[test]
fn cases_ask_for_five_files_unless_they_say_otherwise() {
    assert_eq!(default_top_k(), 5);
}

#[test]
fn compression_ratio_basic() {
    let json = r#"{"query":"test","namespace":"ns","indexed_at":null,"results":[{"path":"a.rs","score":0.9,"summary":"A file summary","symbols":[]}]}"#;
    let source = vec![Content { path: "a.rs".into(), content: "x".repeat(4000) }];
    let m = compression(json, &source);
    assert!(ratio(m.ratio) < 1.0);
    assert!(m.source_tokens > m.output_tokens);
    assert_eq!(m.source_tokens, 1000);
}

#[test]
fn compression_no_source_files() {
    let m = compression(r#"{"query":"test","namespace":"ns","indexed_at":null,"results":[]}"#, &vec![]);
    assert_eq!(ratio(m.ratio), 0.0);
}

#[test]
fn compression_with_symbols() {
    let json = r#"{"query":"test","namespace":"ns","indexed_at":null,"results":[{"path":"a.rs","score":0.9,"summary":"Module summary","symbols":[{"name":"foo","kind":"function","lines":[1,20],"summary":"Does foo things","score":0.85}]}]}"#;
    let source = vec![Content { path: "a.rs".into(), content: "fn foo() {}\n".repeat(100) }];
    assert!(ratio(compression(json, &source).ratio) < 1.0);
}

#[test]
fn token_count_empty() {
    assert_eq!(approx_token_count(""), 0);
}

#[test]
fn token_count_short() {
    assert_eq!(approx_token_count("hi"), 1);
}

#[test]
fn token_count_longer() {
    let text = "a".repeat(400);
    assert_eq!(approx_token_count(&text), 100);
}

#[test]
fn relevance_perfect_recall() {
    let returned = vec!["a.rs".into(), "b.rs".into(), "c.rs".into()];
    let expected = vec!["a.rs".into(), "b.rs".into()];
    let m = relevance(&returned, &expected, 3);
    assert_eq!(ratio(m.recall_at_k), 1.0);
    assert!((ratio(m.precision_at_k) - 2.0 / 3.0).abs() < 0.01);
    assert!(m.missed.is_empty());
}

#[test]
fn relevance_partial_recall() {
    let returned = vec!["a.rs".into(), "c.rs".into()];
    let expected = vec!["a.rs".into(), "b.rs".into()];
    let m = relevance(&returned, &expected, 2);
    assert_eq!(ratio(m.recall_at_k), 0.5);
    assert_eq!(ratio(m.precision_at_k), 0.5);
    assert_eq!(m.missed, vec!["b.rs"]);
}

#[test]
fn reciprocal_rank_first_position() {
    let returned = vec!["a.rs".into(), "b.rs".into()];
    let expected = vec!["a.rs".into()];
    let m = relevance(&returned, &expected, 5);
    assert_eq!(m.first_hit_rank, Some(1));
    assert_eq!(ratio(m.reciprocal_rank), 1.0);
}

#[test]
fn reciprocal_rank_third_position() {
    let returned = vec!["x.rs".into(), "y.rs".into(), "a.rs".into()];
    let expected = vec!["a.rs".into()];
    let m = relevance(&returned, &expected, 5);
    assert_eq!(m.first_hit_rank, Some(3));
    assert!((ratio(m.reciprocal_rank) - 1.0 / 3.0).abs() < 1e-9);
}

#[test]
fn reciprocal_rank_zero_when_missed() {
    let returned = vec!["x.rs".into(), "y.rs".into()];
    let expected = vec!["a.rs".into()];
    let m = relevance(&returned, &expected, 5);
    assert_eq!(m.first_hit_rank, None);
    assert_eq!(ratio(m.reciprocal_rank), 0.0);
}

#[test]
fn reciprocal_rank_respects_k_window() {
    // The expected file is at rank 3 but k=2 excludes it.
    let returned = vec!["x.rs".into(), "y.rs".into(), "a.rs".into()];
    let expected = vec!["a.rs".into()];
    let m = relevance(&returned, &expected, 2);
    assert_eq!(m.first_hit_rank, None);
    assert_eq!(ratio(m.reciprocal_rank), 0.0);
}

#[test]
fn relevance_no_results() {
    let m = relevance(&vec![], &vec!["a.rs".into()], 5);
    assert_eq!(ratio(m.precision_at_k), 0.0);
    assert_eq!(ratio(m.recall_at_k), 0.0);
}

#[test]
fn relevance_no_expected() {
    let returned = vec!["a.rs".into()];
    let m = relevance(&returned, &vec![], 5);
    assert_eq!(ratio(m.recall_at_k), 0.0);
}

#[test]
fn relevance_k_limits_returned() {
    let returned = vec!["a.rs".into(), "b.rs".into(), "c.rs".into()];
    let expected = vec!["c.rs".into()];
    let m = relevance(&returned, &expected, 2);
    assert_eq!(ratio(m.recall_at_k), 0.0);
    assert_eq!(m.missed, vec!["c.rs"]);
}

#[test]
fn symbol_relevance_found_at_top() {
    let returned = vec!["process_item".into(), "document_id".into()];
    let expected = vec!["process_item".into()];
    let m = symbol_relevance(&returned, &expected);
    assert_eq!(ratio(m.recall), 1.0);
    assert_eq!(m.first_hit_rank, Some(1));
    assert_eq!(ratio(m.reciprocal_rank), 1.0);
}

#[test]
fn symbol_relevance_partial() {
    let returned = vec!["a".into(), "b".into()];
    let expected = vec!["b".into(), "c".into()];
    let m = symbol_relevance(&returned, &expected);
    assert_eq!(ratio(m.recall), 0.5);
    assert_eq!(m.first_hit_rank, Some(2));
    assert_eq!(m.missed, vec!["c"]);
}

#[test]
fn symbol_relevance_none_found() {
    let returned = vec!["x".into()];
    let expected = vec!["y".into()];
    let m = symbol_relevance(&returned, &expected);
    assert_eq!(ratio(m.recall), 0.0);
    assert_eq!(ratio(m.reciprocal_rank), 0.0);
    assert_eq!(m.first_hit_rank, None);
}

#[test]
fn truncate_label_short() {
    assert_eq!(truncate_label("short", 27), "short");
}

#[test]
fn truncate_label_long() {
    let long = "a".repeat(30);
    let truncated = truncate_label(&long, 27);
    assert_eq!(truncated.chars().count(), 27);
    assert!(truncated.ends_with('…'));
}

#[test]
fn metrics_are_at_most_one() {
    let texts = |list: &[&str]| -> Vec<String> { list.iter().map(|s| s.to_string()).collect() };
    let returned = texts(&["a", "b", "c"]);
    let m = relevance(&returned, &texts(&["b", "x"]), 2);
    assert_eq!(m.precision_at_k, Ratio { num: 1, den: 2 });
    assert_eq!(m.recall_at_k, Ratio { num: 1, den: 2 });
    assert_eq!(m.reciprocal_rank, Ratio { num: 1, den: 2 });
    let all = relevance(&returned, &returned, 3);
    assert_eq!(all.precision_at_k, Ratio { num: 3, den: 3 });
    assert_eq!(all.recall_at_k, Ratio { num: 3, den: 3 });
    assert_eq!(all.reciprocal_rank, Ratio { num: 1, den: 1 });
}

#[test]
fn a_file_expected_twice_counts_twice() {
    let returned = vec!["a".to_string()];
    let expected = vec!["a".to_string(), "a".to_string()];
    assert_eq!(relevance(&returned, &expected, 1).precision_at_k, Ratio { num: 2, den: 1 });
}
