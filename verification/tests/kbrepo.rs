use cairnkit::knowledge::kbrepo::{
    classify_contribution, log_text, promote_entry, promote_log_line, promotion_refused, pull_step,
    push_step, safe_id, stage_conflict, stats, PullAction, PullEvent, PushAction, PushEvent,
};
use cairnkit::knowledge::model::{Entry, Evidence};

fn entry(id: &str, layer: &str, path: Option<&str>) -> Entry {
    Entry {
        id: id.to_string(),
        title: "t".to_string(),
        category: "tech".to_string(),
        domain: None,
        kind: "decision".to_string(),
        guideline_polarity: None,
        maturity: "draft".to_string(),
        knowledge_class: "point".to_string(),
        layer: layer.to_string(),
        tags: vec![],
        applicable_phases: vec![],
        evidence: Evidence::empty(),
        history: vec![],
        body: "b".to_string(),
        path: path.map(String::from),
    }
}

#[test]
fn classify() {
    assert_eq!(classify_contribution("add").unwrap(), "auto");
    assert_eq!(classify_contribution("promote_verified").unwrap(), "auto");
    assert_eq!(classify_contribution("conflict").unwrap(), "review");
    assert_eq!(classify_contribution("promote_proven").unwrap(), "review");
    assert!(classify_contribution("bogus").is_err());
}

#[test]
fn unknown_contribution_kind_message() {
    let e = classify_contribution("bogus").unwrap_err();
    assert_eq!(e.code(), 2);
    assert_eq!(e.message(), "unknown contribution kind \"bogus\"");
    assert_eq!(classify_contribution("team_convention").unwrap(), "review");
    assert_eq!(classify_contribution("evidence").unwrap(), "auto");
}

#[test]
fn safe_id_blocks_traversal() {
    assert!(safe_id("../evil").is_err());
    assert!(safe_id("TK-1").is_ok());
}

#[test]
fn safe_id_rules() {
    assert_eq!(safe_id("TK_1.v2").unwrap(), "TK_1.v2");
    assert!(safe_id("").is_err());
    assert!(safe_id("a/b").is_err());
    assert!(safe_id("a..b").is_err());
    assert!(safe_id("été").is_err());
    assert_eq!(
        safe_id("a b").unwrap_err().message(),
        "invalid id \"a b\" (allowed: letters, digits, . _ -)"
    );
}

#[test]
fn log_lines_are_single_lines_without_trailing_space() {
    assert_eq!(log_text("a\nb  \n"), "a b");
    assert_eq!(log_text("plain"), "plain");
}

#[test]
fn conflict_staging_picks_first_free_name() {
    let none: Vec<String> = vec![];
    let s = stage_conflict("TK-1", "2026-06-28", &none).unwrap();
    assert_eq!(s.file_name, "TK-1-2026-06-28.md");
    assert_eq!(s.log_line, "- 2026-06-28 CONFLICT staged for TK-1 -> TK-1-2026-06-28.md");

    let taken = vec![
        "TK-1-2026-06-28.md".to_string(),
        "TK-1-2026-06-28-1.md".to_string(),
        "other.md".to_string(),
    ];
    let s = stage_conflict("TK-1", "2026-06-28", &taken).unwrap();
    assert_eq!(s.file_name, "TK-1-2026-06-28-2.md");
}

#[test]
fn conflict_staging_refuses_unsafe_id() {
    let none: Vec<String> = vec![];
    let e = stage_conflict("../x", "2026-06-28", &none).unwrap_err();
    assert_eq!(e.code(), 2);
}

#[test]
fn conflict_staging_uses_the_given_date() {
    let none: Vec<String> = vec![];
    let s = stage_conflict("TK-1", "2031-01-02", &none).unwrap();
    assert_eq!(s.file_name, "TK-1-2031-01-02.md");
    assert_eq!(s.log_line, "- 2031-01-02 CONFLICT staged for TK-1 -> TK-1-2031-01-02.md");
}

#[test]
fn promotion_moves_an_l3_entry() {
    let es = vec![
        entry("TK-1", "L1", Some("/kb/tech-wiki/TK-1.md")),
        entry("TK-2", "L3", Some("/kb/tech-wiki/TK-2.md")),
    ];
    let p = promote_entry("/kb", &es, "TK-2", "L1").unwrap();
    assert_eq!(p.pos, 1);
    assert_eq!(p.source, "/kb/tech-wiki/TK-2.md");
    assert_eq!(p.file_name, "TK-2.md");
    assert_eq!(p.dest, "/kb/tech-wiki/TK-2.md");
    assert_eq!(p.entry.layer, "L1");
    assert!(promotion_refused(&p, true).is_none());

    let mut biz = entry("BK-3", "L3", Some("/kb/x/BK-3.md"));
    biz.category = "biz".to_string();
    biz.domain = Some("ads".to_string());
    let es = vec![biz];
    let p = promote_entry("/kb", &es, "BK-3", "L2").unwrap();
    assert_eq!(p.dest, "/kb/biz-wiki/ads/BK-3.md");
    let refused = promotion_refused(&p, true).unwrap();
    assert_eq!(
        refused.message(),
        "destination BK-3.md already exists — refusing to overwrite"
    );
    assert!(promotion_refused(&p, false).is_none());
}

#[test]
fn promotion_errors() {
    let es = vec![entry("TK-1", "L1", Some("/kb/tech-wiki/TK-1.md")), entry("TK-4", "L3", None)];
    assert_eq!(
        promote_entry("/kb", &es, "TK-1", "L1").unwrap_err().message(),
        "no L3 entry with id TK-1 found in /kb"
    );
    assert_eq!(
        promote_entry("/kb", &es, "TK-4", "L1").unwrap_err().message(),
        "no L3 entry with id TK-4 found in /kb"
    );
    assert_eq!(
        promote_entry("/kb", &es, "TK-1", "L3").unwrap_err().message(),
        "promotion target must be L1 or L2"
    );
    assert_eq!(promote_entry("/kb", &es, "../x", "L1").unwrap_err().code(), 2);
    assert_eq!(promote_log_line("2026-06-28", "TK-2", "L1"), "- 2026-06-28 PROMOTE TK-2 -> L1");
}

#[test]
fn stats_count_by_maturity_and_category() {
    let mut a = entry("TK-1", "L1", None);
    a.maturity = "verified".to_string();
    let mut b = entry("BK-1", "L2", None);
    b.category = "biz".to_string();
    b.evidence.ref_count = 3;
    let c = entry("TK-2", "L1", None);
    let s = stats(&vec![a, b, c]);
    assert_eq!(s.total, 3);
    assert_eq!(
        s.by_maturity,
        vec![("draft".to_string(), 2), ("verified".to_string(), 1)]
    );
    assert_eq!(s.by_category, vec![("biz".to_string(), 1), ("tech".to_string(), 2)]);
    assert_eq!(s.referenced, 1);
    assert_eq!(s.orphans, vec!["TK-1".to_string()]);
}

#[test]
fn pull_steps() {
    match pull_step(PullEvent::Remote(false)) {
        PullAction::Report(r) => {
            assert!(!r.pulled);
            assert_eq!(r.detail, None);
            assert_eq!(r.reason.as_deref(), Some("no remote configured (local-only mode)"));
        }
        other => panic!("expected a report, got {other:?}"),
    }
    assert!(matches!(pull_step(PullEvent::Remote(true)), PullAction::Pull));
    match pull_step(PullEvent::Pulled(Ok("Already up to date.".to_string()))) {
        PullAction::Report(r) => {
            assert!(r.pulled);
            assert_eq!(r.detail.as_deref(), Some("Already up to date."));
            assert_eq!(r.reason, None);
        }
        other => panic!("expected a report, got {other:?}"),
    }
    match pull_step(PullEvent::Pulled(Err("git pull --ff-only failed: boom".to_string()))) {
        PullAction::Report(r) => {
            assert!(!r.pulled);
            assert_eq!(r.reason.as_deref(), Some("git pull --ff-only failed: boom"));
        }
        other => panic!("expected a report, got {other:?}"),
    }
}

#[test]
fn push_steps() {
    match push_step(PushEvent::Status(String::new())) {
        PushAction::Report(r) => {
            assert!(!r.committed);
            assert_eq!(r.pushed, None);
            assert_eq!(r.reason.as_deref(), Some("nothing to commit"));
        }
        other => panic!("expected a report, got {other:?}"),
    }
    assert!(matches!(push_step(PushEvent::Status(" M log.md".to_string())), PushAction::Commit));
    match push_step(PushEvent::Committed(false)) {
        PushAction::Report(r) => {
            assert!(r.committed);
            assert_eq!(r.pushed, Some(false));
            assert_eq!(r.reason.as_deref(), Some("no remote (committed locally)"));
        }
        other => panic!("expected a report, got {other:?}"),
    }
    assert!(matches!(push_step(PushEvent::Committed(true)), PushAction::Push));
    match push_step(PushEvent::Pushed(Ok(()))) {
        PushAction::Report(r) => {
            assert!(r.committed);
            assert_eq!(r.pushed, Some(true));
            assert_eq!(r.reason, None);
        }
        other => panic!("expected a report, got {other:?}"),
    }
    match push_step(PushEvent::Pushed(Err("rejected".to_string()))) {
        PushAction::Report(r) => {
            assert_eq!(r.pushed, Some(false));
            assert_eq!(r.reason.as_deref(), Some("rejected"));
        }
        other => panic!("expected a report, got {other:?}"),
    }
}
