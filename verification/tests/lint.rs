use cairnkit::clock::Date;
use cairnkit::knowledge::lint::{group_by_key, lint};
use cairnkit::knowledge::model::{Entry, Evidence};

fn now() -> Date {
    Date { year: 2026, month: 6, day: 1 }
}

/// Schema-valid entry with the given knobs; defaults keep it lint-clean.
fn entry(
    id: &str,
    title: &str,
    kind: &str,
    polarity: Option<&str>,
    maturity: &str,
    tags: &[&str],
    ev: Evidence,
) -> Entry {
    Entry {
        id: id.to_string(),
        title: title.to_string(),
        category: "tech".to_string(),
        domain: None,
        kind: kind.to_string(),
        guideline_polarity: polarity.map(String::from),
        maturity: maturity.to_string(),
        knowledge_class: "point".to_string(),
        layer: "L1".to_string(),
        tags: tags.iter().map(|t| t.to_string()).collect(),
        applicable_phases: vec!["IMPLEMENT".to_string()],
        evidence: ev,
        history: vec![],
        body: "body".to_string(),
        path: Some(format!("/kb/tech-wiki/{id}.md")),
    }
}

#[test]
fn detects_orphan_non_draft_zero_refs() {
    let es = vec![entry("TK-ORPH", "orphan title", "decision", None, "verified", &[], Evidence::empty())];
    let report = lint(&es, now());
    assert!(report.orphans.contains(&"TK-ORPH".to_string()));
    assert!(!report.clean());
}

#[test]
fn detects_duplicate_same_lowercased_title() {
    let es = vec![
        entry("TK-D1", "Same Title", "decision", None, "draft", &[], Evidence::empty()),
        entry("TK-D2", "same title", "decision", None, "draft", &[], Evidence::empty()),
    ];
    let report = lint(&es, now());
    let group = report
        .duplicates
        .iter()
        .find(|g| g.len() == 2)
        .expect("a duplicate group of two");
    assert!(group.contains(&"TK-D1".to_string()));
    assert!(group.contains(&"TK-D2".to_string()));
}

#[test]
fn detects_contradiction_recommend_vs_avoid_same_tags() {
    let es = vec![
        entry("TK-REC", "rec title", "guideline", Some("recommend"), "draft", &["x", "y"], Evidence::empty()),
        entry("TK-AVO", "avo title", "guideline", Some("avoid"), "draft", &["x", "y"], Evidence::empty()),
    ];
    let report = lint(&es, now());
    assert!(report
        .conflicts
        .contains(&vec!["TK-REC".to_string(), "TK-AVO".to_string()]));
}

#[test]
fn detects_stale_last_referenced_over_12_months() {
    let es = vec![entry(
        "TK-STALE",
        "stale title",
        "decision",
        None,
        "draft",
        &[],
        Evidence { last_referenced: Some("2025-01-01".to_string()), ref_count: 1, ..Evidence::empty() },
    )];
    let report = lint(&es, now());
    assert!(report.stale.contains(&"TK-STALE".to_string()));
}

#[test]
fn clean_kb_reports_clean() {
    let es = vec![entry(
        "TK-OK",
        "ok title",
        "decision",
        None,
        "draft",
        &[],
        Evidence { last_referenced: Some("2026-05-01".to_string()), ref_count: 1, ..Evidence::empty() },
    )];
    let report = lint(&es, now());
    assert!(
        report.clean(),
        "expected clean, got: orphans={:?} stale={:?} dup={:?} invalid={:?} conflicts={:?}",
        report.orphans,
        report.stale,
        report.duplicates,
        report.invalid,
        report.conflicts
    );
    assert!(report.fixed.is_empty());
}

#[test]
fn duplicate_groups_follow_title_order_and_trim() {
    let es = vec![
        entry("TK-B2", "  beta ", "decision", None, "draft", &[], Evidence::empty()),
        entry("TK-A1", "Alpha", "decision", None, "draft", &[], Evidence::empty()),
        entry("TK-B1", "BETA", "decision", None, "draft", &[], Evidence::empty()),
        entry("TK-A2", "alpha", "decision", None, "draft", &[], Evidence::empty()),
        entry("TK-C", "gamma", "decision", None, "draft", &[], Evidence::empty()),
    ];
    let report = lint(&es, now());
    assert_eq!(
        report.duplicates,
        vec![
            vec!["TK-A1".to_string(), "TK-A2".to_string()],
            vec!["TK-B2".to_string(), "TK-B1".to_string()],
        ]
    );
}

#[test]
fn contradictions_need_equal_nonempty_tag_sets() {
    let es = vec![
        entry("TK-R1", "r1", "guideline", Some("recommend"), "draft", &["x", "y", "x"], Evidence::empty()),
        entry("TK-R2", "r2", "guideline", Some("recommend"), "draft", &[], Evidence::empty()),
        entry("TK-A1", "a1", "guideline", Some("avoid"), "draft", &["y", "x"], Evidence::empty()),
        entry("TK-A2", "a2", "guideline", Some("avoid"), "draft", &["x"], Evidence::empty()),
        entry("TK-A3", "a3", "guideline", Some("avoid"), "draft", &[], Evidence::empty()),
    ];
    let report = lint(&es, now());
    assert_eq!(report.conflicts, vec![vec!["TK-R1".to_string(), "TK-A1".to_string()]]);
}

#[test]
fn invalid_entries_are_reported_with_their_reasons() {
    let mut bad = entry("TK-BAD", "bad", "decision", None, "draft", &[], Evidence::empty());
    bad.maturity = "ripe".to_string();
    bad.domain = Some("ads".to_string());
    let report = lint(&vec![bad], now());
    assert_eq!(
        report.invalid,
        vec![
            "TK-BAD: maturity must be one of [\"draft\", \"verified\", \"proven\"], got \"ripe\"; tech knowledge must not set a domain"
                .to_string()
        ]
    );
}

#[test]
fn values_are_grouped_by_shared_key() {
    let p = |k: &str, v: &str| (k.to_string(), v.to_string());
    let groups = group_by_key(vec![p("b", "1"), p("a", "2"), p("b", "3"), p("c", "4"), p("a", "5")]);
    assert_eq!(
        groups,
        vec![vec!["2".to_string(), "5".to_string()], vec!["1".to_string(), "3".to_string()]]
    );
    assert!(group_by_key(vec![p("x", "1"), p("X", "2")]).is_empty());
}
