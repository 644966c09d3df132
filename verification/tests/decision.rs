//! Decisions: identifiers, status, the registry, and their text.
use wdpkr_core::decision::{
    decision_uri, DecisionEntry, DecisionRegistry, DecisionStatus, SourceRef, SOURCE_SCHEME, TAP_NAME,
};

fn entry(id: u32) -> DecisionEntry {
    DecisionEntry {
        id,
        title: format!("Decision {id}"),
        status: DecisionStatus::Accepted,
        author: "Ada".into(),
        date: 1000,
        updated_at: None,
        context: Some("why".into()),
        decision: Some("what".into()),
        consequences: Some("so".into()),
        sources: vec![],
        areas: vec!["src/**".into()],
        supersedes: vec![],
        overrides: vec![],
        relates_to: vec![],
        superseded_by: None,
    }
}

#[test]
fn uri_is_zero_padded() {
    assert_eq!(decision_uri(7), "decision://0007");
    assert_eq!(entry(42).uri(), "decision://0042");
}

#[test]
fn scheme_equals_tap_name() {
    assert_eq!(SOURCE_SCHEME, format!("{TAP_NAME}://"));
}

#[test]
fn status_round_trips_and_parses() {
    for s in [
        DecisionStatus::Proposed,
        DecisionStatus::Accepted,
        DecisionStatus::Superseded,
        DecisionStatus::Deprecated,
    ] {
        assert_eq!(DecisionStatus::from_str(s.as_str()).unwrap(), s);
    }
    assert!(DecisionStatus::from_str("Accepted").is_ok());
    assert!(DecisionStatus::from_str("bogus").is_err());
}

#[test]
fn status_active_flags() {
    assert!(DecisionStatus::Proposed.is_active());
    assert!(DecisionStatus::Accepted.is_active());
    assert!(!DecisionStatus::Superseded.is_active());
    assert!(!DecisionStatus::Deprecated.is_active());
}

#[test]
fn next_id_increments_from_max() {
    let mut reg = DecisionRegistry::default();
    assert_eq!(reg.next_id(), 1);
    reg.upsert(entry(1));
    reg.upsert(entry(5));
    assert_eq!(reg.next_id(), 6);
}

#[test]
fn upsert_replaces_and_sorts() {
    let mut reg = DecisionRegistry::default();
    reg.upsert(entry(3));
    reg.upsert(entry(1));
    let mut two = entry(1);
    two.title = "updated".into();
    reg.upsert(two);
    assert_eq!(reg.decisions.len(), 2);
    assert_eq!(reg.decisions[0].id, 1);
    assert_eq!(reg.decisions[0].title, "updated");
    assert_eq!(reg.decisions[1].id, 3);
}

#[test]
fn remove_scrubs_links() {
    let mut reg = DecisionRegistry::default();
    let mut a = entry(1);
    a.supersedes = vec![2];
    a.overrides = vec![2, 3];
    a.relates_to = vec![2];
    let mut b = entry(2);
    b.superseded_by = Some(1);
    reg.upsert(a);
    reg.upsert(b);
    reg.upsert(entry(3));

    let removed = reg.remove(2).unwrap();
    assert_eq!(removed.id, 2);
    let one = reg.get(1).unwrap();
    assert!(one.supersedes.is_empty());
    assert_eq!(one.overrides, vec![3]);
    assert!(one.relates_to.is_empty());
}

#[test]
fn mark_superseded_sets_status_and_backlink() {
    let mut reg = DecisionRegistry::default();
    reg.upsert(entry(1));
    reg.mark_superseded(1, 2);
    let e = reg.get(1).unwrap();
    assert_eq!(e.status, DecisionStatus::Superseded);
    assert_eq!(e.superseded_by, Some(2));
    assert_eq!(reg.active().len(), 0);
}

#[test]
fn to_source_item_builds_sections() {
    let mut e = entry(7);
    e.sources = vec![SourceRef {
        uri: "notion://abc".into(),
        snapshot: "Half-up at 2 decimals".into(),
    }];
    let item = e.to_source_item();
    assert_eq!(item.source_path, "decision://0007");
    assert!(item.language.is_none());
    assert!(!item.content_hash.is_empty());
    // title + Context + Decision + Consequences + one Source section
    assert_eq!(item.children.len(), 4);
    assert!(item.content.contains("# Decision 7"));
    assert!(item.content.contains("## Context"));
    assert!(item.content.contains("## Source: notion://abc"));
    assert!(item.content.contains("Half-up at 2 decimals"));
}

#[test]
fn to_source_item_omits_empty_sections() {
    let mut e = entry(1);
    e.context = None;
    e.consequences = Some("   ".into());
    let item = e.to_source_item();
    // only Decision remains a section
    assert_eq!(item.children.len(), 1);
    assert_eq!(item.children[0].name, "Decision");
}

#[test]
fn mod_content_hash_is_content_sensitive() {
    let mut a = entry(1);
    let mut b = entry(1);
    a.decision = Some("x".into());
    b.decision = Some("y".into());
    assert_ne!(
        a.to_source_item().content_hash,
        b.to_source_item().content_hash
    );
}

#[test]
fn unknown_status_is_named() {
    let e = DecisionStatus::from_str(" Bogus ").unwrap_err();
    assert_eq!(e.given, "bogus");
    assert_eq!(
        e.message(),
        "unknown decision status 'bogus' (expected proposed|accepted|superseded|deprecated)"
    );
}

#[test]
fn large_ids_are_not_cut() {
    assert_eq!(decision_uri(12345), "decision://12345");
    assert_eq!(decision_uri(0), "decision://0000");
}

#[test]
fn removing_what_is_not_there_changes_nothing() {
    let mut reg = DecisionRegistry::default();
    reg.upsert(entry(1));
    assert!(reg.remove(9).is_none());
    assert_eq!(reg.decisions.len(), 1);
}

#[test]
fn entries_can_be_changed_in_place() {
    let mut reg = DecisionRegistry::default();
    reg.upsert(entry(1));
    reg.get_mut(1).unwrap().title = "changed".into();
    assert!(reg.get_mut(2).is_none());
    assert_eq!(reg.get(1).unwrap().title, "changed");
}

#[test]
fn links_to_a_decision_are_scrubbed() {
    let mut reg = DecisionRegistry::default();
    let mut a = entry(1);
    a.relates_to = vec![2, 4];
    reg.upsert(a);
    reg.scrub_links(2);
    assert_eq!(reg.get(1).unwrap().relates_to, vec![4]);
}

#[test]
fn sources_are_listed_by_uri() {
    let mut e = entry(1);
    e.sources = vec![SourceRef { uri: "notion://abc".into(), snapshot: "s".into() }];
    assert_eq!(e.source_uris(), vec!["notion://abc"]);
}

#[test]
fn different_ids_have_different_uris() {
    let ids = [0, 1, 7, 10, 70, 700, 7000, 70000, 10007, u32::MAX];
    for a in ids {
        for b in ids {
            assert_eq!(a == b, decision_uri(a) == decision_uri(b));
        }
    }
    assert_eq!(decision_uri(70000), "decision://70000");
}

#[test]
fn every_status_is_read_back_from_its_name() {
    for status in [
        DecisionStatus::Proposed,
        DecisionStatus::Accepted,
        DecisionStatus::Superseded,
        DecisionStatus::Deprecated,
    ] {
        assert_eq!(DecisionStatus::from_str(status.as_str()).unwrap(), status);
        let shouted = format!("  {}\n", status.as_str().to_uppercase());
        assert_eq!(DecisionStatus::from_str(&shouted).unwrap(), status);
    }
}

#[test]
fn an_unsorted_registry_is_sorted_by_an_upsert() {
    let mut reg = DecisionRegistry { decisions: vec![entry(5), entry(2), entry(9)] };
    let mut e = entry(2);
    e.title = "new".into();
    reg.upsert(e);
    let ids: Vec<u32> = reg.decisions.iter().map(|d| d.id).collect();
    assert_eq!(ids, vec![2, 5, 9]);
    assert_eq!(reg.get(2).unwrap().title, "new");
    assert_eq!(reg.get(9).unwrap().title, "Decision 9");
}

#[test]
fn a_removal_works_in_any_order() {
    let mut linked = entry(9);
    linked.relates_to = vec![2, 5];
    let mut reg = DecisionRegistry { decisions: vec![linked, entry(2), entry(5)] };
    assert_eq!(reg.remove(2).unwrap().id, 2);
    assert!(reg.get(2).is_none());
    assert_eq!(reg.get(9).unwrap().relates_to, vec![5]);
    assert!(reg.get(5).is_some());
}

#[test]
fn writing_or_scrubbing_twice_changes_nothing() {
    let mut linked = entry(9);
    linked.relates_to = vec![2, 5];
    let mut reg = DecisionRegistry { decisions: vec![linked, entry(2)] };
    reg.upsert(entry(5));
    let ids = |r: &DecisionRegistry| r.decisions.iter().map(|d| d.id).collect::<Vec<u32>>();
    assert_eq!(ids(&reg), vec![2, 5, 9]);
    reg.upsert(entry(5));
    assert_eq!(ids(&reg), vec![2, 5, 9]);
    reg.scrub_links(2);
    assert_eq!(reg.get(9).unwrap().relates_to, vec![5]);
    reg.scrub_links(2);
    assert_eq!(reg.get(9).unwrap().relates_to, vec![5]);
}
