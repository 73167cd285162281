use cairnkit::json::Json;
use cairnkit::knowledge::extract_gate::{evaluate, extract_from_run, Verdict};
use cairnkit::knowledge::model::HistoryItem;

fn s(x: &str) -> Json {
    Json::Str(x.to_string())
}

fn arr(xs: &[&str]) -> Json {
    Json::Array(xs.iter().map(|x| s(x)).collect())
}

fn obj(members: Vec<(&str, Json)>) -> Json {
    Json::Object(members.into_iter().map(|(k, v)| (k.to_string(), v)).collect())
}

fn candidate_pass() -> Json {
    obj(vec![
        ("id", s("TK-100")),
        ("title", s("Cache stampede guard")),
        ("category", s("tech")),
        ("type", s("pitfall")),
        ("knowledge_class", s("causal")),
        ("layer", s("L1")),
        ("applicable_phases", arr(&["IMPLEMENT"])),
        ("tags", arr(&["cache"])),
        (
            "body",
            s("Use a single-flight lock or request coalescing so a cache miss does not let every concurrent caller hit the database at once."),
        ),
    ])
}

fn candidates_fail() -> Vec<Json> {
    vec![
        obj(vec![
            ("id", s("TK-101")),
            ("title", s("Too shallow")),
            ("category", s("tech")),
            ("type", s("pitfall")),
            ("knowledge_class", s("causal")),
            ("layer", s("L1")),
            ("applicable_phases", arr(&["IMPLEMENT"])),
            ("tags", arr(&[])),
            ("body", s("too short")),
        ]),
        obj(vec![
            ("id", s("TK-102")),
            ("title", s("Bad type")),
            ("category", s("tech")),
            ("type", s("not-a-real-type")),
            ("knowledge_class", s("causal")),
            ("layer", s("L1")),
            ("applicable_phases", arr(&[])),
            ("tags", arr(&[])),
            (
                "body",
                s("This body is comfortably longer than the eighty character minimum so only the type and phases fail."),
            ),
        ]),
    ]
}

#[test]
fn extract_gate_rejects_with_reasons() {
    let mut cands = vec![candidate_pass()];
    cands.extend(candidates_fail());
    let x = extract_from_run(&Json::Array(cands), "/p/kb", "2026-06-28").unwrap();
    assert_eq!(x.verdicts.len(), 3);
    assert_eq!(x.date, "2026-06-28");
    match &x.verdicts[0] {
        Verdict::Write { path, entry } => {
            assert_eq!(path, "/p/kb/tech-wiki/TK-100.md");
            assert_eq!(entry.id, "TK-100");
            assert_eq!(entry.maturity, "draft");
        }
        other => panic!("TK-100 must be written, got {other:?}"),
    }
    match &x.verdicts[1] {
        Verdict::Rejected { title, reasons } => {
            assert_eq!(title, "Too shallow");
            assert!(!reasons.is_empty());
            assert!(reasons.iter().any(|r| r.contains("insufficient depth")));
        }
        other => panic!("'Too shallow' must be rejected, got {other:?}"),
    }
    match &x.verdicts[2] {
        Verdict::Rejected { title, reasons } => {
            assert_eq!(title, "Bad type");
            assert!(reasons.iter().any(|r| r.contains("missing/invalid type")));
            assert!(reasons.iter().any(|r| r.contains("no applicable_phases")));
        }
        other => panic!("'Bad type' must be rejected, got {other:?}"),
    }
}

#[test]
fn every_reason_in_order() {
    let r = evaluate(&obj(vec![("knowledge_class", s("vague")), ("applicable_phases", s("IMPLEMENT"))]));
    assert_eq!(
        r,
        vec![
            "missing id",
            "insufficient depth (body too short)",
            "not transferable (no applicable_phases)",
            "missing/invalid type",
            "invalid knowledge_class",
            "missing title",
        ]
    );
    assert!(evaluate(&candidate_pass()).is_empty());
}

#[test]
fn extracted_draft_fields_and_defaults() {
    let mut c = candidate_pass();
    if let Json::Object(m) = &mut c {
        m.retain(|(k, _)| k != "knowledge_class" && k != "layer");
        m.push(("contributors".to_string(), Json::Array(vec![s("ann"), Json::Null, s("bo")])));
    }
    let x = extract_from_run(&Json::Array(vec![c]), "/p/kb", "2026-06-28").unwrap();
    match &x.verdicts[0] {
        Verdict::Write { entry, .. } => {
            assert_eq!(entry.knowledge_class, "point");
            assert_eq!(entry.layer, "L3");
            assert_eq!(entry.evidence.contributors, vec!["ann".to_string(), "bo".to_string()]);
            assert_eq!(entry.evidence.ref_count, 0);
            assert_eq!(entry.history.len(), 1);
            match &entry.history[0] {
                HistoryItem::Update { date, update_type, by } => {
                    assert_eq!(date, &x.date);
                    assert_eq!(update_type, "extract");
                    assert_eq!(by, "archiver");
                }
                other => panic!("unexpected history {other:?}"),
            }
        }
        other => panic!("expected a write, got {other:?}"),
    }
}

#[test]
fn schema_violations_are_reported_not_written() {
    let mut c = candidate_pass();
    if let Json::Object(m) = &mut c {
        for (k, v) in m.iter_mut() {
            if k == "id" {
                *v = s("XK-100");
            }
        }
    }
    let x = extract_from_run(&Json::Array(vec![c]), "/p/kb", "2026-06-28").unwrap();
    match &x.verdicts[0] {
        Verdict::Invalid { entry, reasons } => {
            assert_eq!(entry.title, "Cache stampede guard");
            assert_eq!(reasons, &vec!["schema: tech entry id should start with 'TK-'".to_string()]);
        }
        other => panic!("expected a schema rejection, got {other:?}"),
    }
}

#[test]
fn biz_candidates_land_under_their_domain_and_lists_are_required() {
    let c = obj(vec![
        ("id", s("BK-7")),
        ("title", s("Refund rule")),
        ("category", s("biz")),
        ("domain", s("payments")),
        ("type", s("model")),
        ("layer", s("L2")),
        ("applicable_phases", arr(&["ANALYSE_PRODUCT"])),
        ("body", s("Refunds above the threshold always need a second approver; the ledger is reconciled nightly.")),
    ]);
    let x = extract_from_run(&Json::Array(vec![c]), "/p/kb", "2026-06-28").unwrap();
    match &x.verdicts[0] {
        Verdict::Write { path, .. } => assert_eq!(path, "/p/kb/biz-wiki/payments/BK-7.md"),
        other => panic!("expected a write, got {other:?}"),
    }
    assert_eq!(
        extract_from_run(&obj(vec![]), "/p/kb", "2026-06-28").unwrap_err(),
        "knowledge-candidates.json must be a JSON list"
    );
    let r = evaluate(&obj(vec![("title", s("x"))]));
    assert_eq!(r.last().map(String::as_str), Some("missing/invalid type"));
}
