use cairnkit::knowledge::index::{catalog, build_index, panorama};
use cairnkit::knowledge::model::{Entry, Evidence};

fn entry(id: &str, category: &str, domain: Option<&str>, maturity: &str, class: &str, phases: &[&str]) -> Entry {
    Entry {
        id: id.to_string(),
        title: format!("title {id}"),
        category: category.to_string(),
        domain: domain.map(String::from),
        kind: "decision".to_string(),
        guideline_polarity: None,
        maturity: maturity.to_string(),
        knowledge_class: class.to_string(),
        layer: "L1".to_string(),
        tags: vec!["a".to_string(), "b".to_string()],
        applicable_phases: phases.iter().map(|p| p.to_string()).collect(),
        evidence: Evidence::empty(),
        history: vec![],
        body: "b".to_string(),
        path: None,
    }
}

#[test]
fn catalog_lists_entries_by_id() {
    let es = vec![
        entry("TK-2", "tech", None, "draft", "point", &[]),
        entry("TK-1", "tech", None, "proven", "causal", &[]),
    ];
    let text = catalog("Tech knowledge (L1)", &es, &vec![0, 1]);
    assert_eq!(
        text,
        "# Tech knowledge (L1)\n\nID | title | maturity | class | tags\n--- | --- | --- | --- | ---\nTK-1 | title TK-1 | proven | causal | a,b\nTK-2 | title TK-2 | draft | point | a,b\n"
    );
}

#[test]
fn index_plan_writes_catalogs_and_panorama() {
    let es = vec![
        entry("TK-1", "tech", None, "draft", "point", &["IMPLEMENT"]),
        entry("BK-2", "biz", Some("pay"), "verified", "causal", &["IMPLEMENT", "TEST"]),
        entry("BK-1", "biz", Some("ads"), "proven", "spatiotemporal", &[]),
        entry("BK-3", "biz", None, "draft", "point", &[]),
    ];
    let plan = build_index("/kb", &es);
    let paths: Vec<&str> = plan.files.iter().map(|f| f.path.as_str()).collect();
    assert_eq!(
        paths,
        vec![
            "/kb/tech-wiki/catalog.md",
            "/kb/biz-wiki/_/catalog.md",
            "/kb/biz-wiki/ads/catalog.md",
            "/kb/biz-wiki/pay/catalog.md",
            "/kb/knowledge-catalog.md",
        ]
    );
    assert!(plan.files[2].text.starts_with("# Business knowledge — ads (L2)\n"));
    assert!(plan.files[2].text.contains("BK-1 | title BK-1 | proven | spatiotemporal | a,b\n"));
    assert_eq!(
        plan.stats,
        vec![
            ("biz".to_string(), 3),
            ("domains".to_string(), 3),
            ("tech".to_string(), 1),
            ("total".to_string(), 4),
        ]
    );
    assert_eq!(
        plan.files[4].text,
        "# Knowledge catalog (panorama)\n\n- total: 4  ·  tech: 1  ·  biz: 3\n- maturity: draft=2, verified=1, proven=1\n- class: point=2, causal=1, spatiotemporal=1\n\n## Entries applicable per stage\n\nstage | count\n--- | ---\nIMPLEMENT | 2\nTEST | 1\n\n> Drill down: read a wiki `catalog.md` (B) for one-line entries, then the entry `.md` (C).\n"
    );
}

#[test]
fn empty_knowledge_base_has_only_a_panorama() {
    let plan = build_index("/kb", &vec![]);
    assert_eq!(plan.files.len(), 1);
    assert_eq!(plan.files[0].text, panorama(&vec![]));
    assert!(plan.files[0].text.contains("- total: 0  ·  tech: 0  ·  biz: 0\n"));
}
