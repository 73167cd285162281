use cairnkit::clock::Date;
use cairnkit::knowledge::lifecycle::{decay, decay_repo, judge_layer, promote, promote_repo, reference_age};
use cairnkit::knowledge::model::{Entry, Evidence, HistoryItem};

fn entry(maturity: &str, ev: Evidence) -> Entry {
    Entry {
        id: "TK-1".into(),
        title: "t".into(),
        category: "tech".into(),
        domain: None,
        kind: "decision".into(),
        guideline_polarity: None,
        maturity: maturity.into(),
        knowledge_class: "point".into(),
        layer: "L3".into(),
        tags: vec![],
        applicable_phases: vec![],
        evidence: ev,
        history: vec![],
        body: "b".into(),
        path: None,
    }
}

fn ev() -> Evidence {
    Evidence::empty()
}

fn now() -> Date {
    Date { year: 2026, month: 6, day: 1 }
}

#[test]
fn promote_rules() {
    let e = entry("draft", Evidence { ref_count: 1, ..ev() });
    assert_eq!(promote(&e, now()).maturity, "verified");
    let e = entry("verified", Evidence { projects: vec!["a".into(), "b".into()], ..ev() });
    assert_eq!(promote(&e, now()).maturity, "proven");
    let e = entry("draft", ev());
    assert_eq!(promote(&e, now()).maturity, "draft");
}

#[test]
fn decay_rules() {
    let e = entry(
        "proven",
        Evidence { last_referenced: Some("2025-01-01".into()), ref_count: 5, ..ev() },
    );
    assert_eq!(decay(&e, now()).maturity, "verified");
    let e = entry("proven", Evidence { last_referenced: None, ..ev() });
    assert_eq!(decay(&e, now()).maturity, "proven");
}

#[test]
fn judge() {
    assert_eq!(
        judge_layer(&entry("draft", Evidence { projects: vec!["only".into()], ..ev() })),
        "L3"
    );
    let mut e = entry("verified", Evidence { projects: vec!["a".into(), "b".into()], ..ev() });
    assert_eq!(judge_layer(&e), "L1");
    e.category = "biz".into();
    e.domain = Some("ads".into());
    assert_eq!(judge_layer(&e), "L2");
}

#[test]
fn promotion_records_history() {
    let e = entry("draft", Evidence { ref_count: 2, ..ev() });
    let p = promote(&e, now());
    assert_eq!(p.maturity, "verified");
    assert_eq!(p.history.len(), 1);
    match &p.history[0] {
        HistoryItem::Update { date, update_type, by } => {
            assert_eq!(date, "2026-06-01");
            assert_eq!(update_type, "promote");
            assert_eq!(by, "system");
        }
        other => panic!("unexpected history item {other:?}"),
    }
    assert_eq!(p.evidence.ref_count, 2);
    // a proven entry is never promoted further
    let top = entry("proven", Evidence { ref_count: 9, projects: vec!["a".into(), "b".into()], ..ev() });
    let q = promote(&top, now());
    assert_eq!(q.maturity, "proven");
    assert!(q.history.is_empty());
}

#[test]
fn reference_age_in_thirtieths() {
    assert_eq!(reference_age("2025-01-01", now()), 30 * 17);
    assert_eq!(reference_age("2026-06-01", now()), 0);
    assert_eq!(reference_age("2026-05-02", now()), 29);
    assert_eq!(reference_age("+2026-06-01", now()), 0);
    assert_eq!(reference_age("2026-06", now()), 0);
    assert_eq!(reference_age("x-06-01", now()), 0);
    assert_eq!(reference_age("", now()), 0);
    assert_eq!(reference_age("2026-06-01-extra", now()), 0);
    assert_eq!(reference_age("99999999999-01-01", now()), 0);
}

#[test]
fn decay_thresholds() {
    // verified decays at six months, not before
    let e = entry("verified", Evidence { last_referenced: Some("2025-12-01".into()), ..ev() });
    assert_eq!(decay(&e, now()).maturity, "draft");
    let e = entry("verified", Evidence { last_referenced: Some("2025-12-02".into()), ..ev() });
    assert_eq!(decay(&e, now()).maturity, "verified");
    // proven decays at twelve months, not before
    let e = entry("proven", Evidence { last_referenced: Some("2025-06-01".into()), ..ev() });
    let d = decay(&e, now());
    assert_eq!(d.maturity, "verified");
    match &d.history[0] {
        HistoryItem::Update { update_type, .. } => assert_eq!(update_type, "decay"),
        other => panic!("unexpected history item {other:?}"),
    }
    let e = entry("proven", Evidence { last_referenced: Some("2025-06-02".into()), ..ev() });
    assert_eq!(decay(&e, now()).maturity, "proven");
    // drafts never decay; an empty date never decays
    let e = entry("draft", Evidence { last_referenced: Some("2000-01-01".into()), ..ev() });
    assert_eq!(decay(&e, now()).maturity, "draft");
    let e = entry("proven", Evidence { last_referenced: Some(String::new()), ..ev() });
    assert_eq!(decay(&e, now()).maturity, "proven");
}

#[test]
fn repository_passes_rewrite_only_changed_file_entries() {
    let mut a = entry("draft", Evidence { ref_count: 1, ..ev() });
    a.path = Some("/kb/tech-wiki/TK-1.md".into());
    let mut b = entry("draft", Evidence { ref_count: 1, ..ev() });
    b.id = "TK-2".into();
    let mut c = entry("draft", ev());
    c.id = "TK-3".into();
    c.path = Some("/kb/tech-wiki/TK-3.md".into());
    let es = vec![a, b, c];
    let p = promote_repo(&es, now());
    assert_eq!(p.date, now());
    assert_eq!(p.changed.len(), 1);
    assert_eq!(p.changed[0].0, 0);
    assert_eq!(p.changed[0].1.maturity, "verified");

    let mut old = entry("proven", Evidence { last_referenced: Some("2020-01-01".into()), ..ev() });
    old.path = Some("/kb/tech-wiki/TK-1.md".into());
    let d = decay_repo(&vec![old], now());
    assert_eq!(d.changed.len(), 1);
    assert_eq!(d.changed[0].1.maturity, "verified");
}
