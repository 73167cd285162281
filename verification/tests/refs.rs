use cairnkit::json::Json;
use cairnkit::knowledge::model::{Entry, Evidence};
use cairnkit::knowledge::refs::{
    block_id_from_line, collect_references, ids_from_reference_blocks, md_files_sorted,
    reference_counts, settle_touch, top_level_json_objects, touch, RunFile,
};

fn to_json(v: &serde_json::Value) -> Json {
    match v {
        serde_json::Value::Null => Json::Null,
        serde_json::Value::Bool(b) => Json::Bool(*b),
        serde_json::Value::Number(n) => Json::Number(n.to_string()),
        serde_json::Value::String(s) => Json::Str(s.clone()),
        serde_json::Value::Array(a) => Json::Array(a.iter().map(to_json).collect()),
        serde_json::Value::Object(m) => {
            Json::Object(m.iter().map(|(k, x)| (k.clone(), to_json(x))).collect())
        }
    }
}

fn run_file(text: &str) -> RunFile {
    let blobs = top_level_json_objects(text)
        .iter()
        .map(|b| serde_json::from_str::<serde_json::Value>(b).ok().map(|v| to_json(&v)))
        .collect();
    RunFile { text: text.to_string(), blobs }
}

/// A draft read from its file (touch only updates entries that have one).
fn seed_entry(id: &str) -> Entry {
    Entry {
        id: id.to_string(),
        title: format!("title for {id}"),
        category: "tech".to_string(),
        domain: None,
        kind: "decision".to_string(),
        guideline_polarity: None,
        maturity: "draft".to_string(),
        knowledge_class: "point".to_string(),
        layer: "L1".to_string(),
        tags: vec![],
        applicable_phases: vec![],
        evidence: Evidence::empty(),
        history: vec![],
        body: "body".to_string(),
        path: Some(format!("/kb/tech-wiki/{id}.md")),
    }
}

fn ref_blob(ids: &[&str]) -> String {
    let items: Vec<String> = ids.iter().map(|id| format!("{{\"id\":\"{id}\"}}")).collect();
    format!("# run\n\n{{\"knowledgeReferences\":[{}]}}\n", items.join(","))
}

struct Outcome {
    referenced: Vec<String>,
    updated: Vec<String>,
    unknown: Vec<String>,
    written: Vec<(usize, Entry)>,
}

fn run_touch(entries: &[Entry], files: &[&str]) -> Outcome {
    let files: Vec<RunFile> = files.iter().map(|t| run_file(t)).collect();
    let plan = touch(&files, &entries.to_vec(), "proj", "2026-06-28");
    assert_eq!(plan.date, "2026-06-28");
    let saved = vec![true; plan.updates.len()];
    let (updated, unknown) = settle_touch(&plan, &saved);
    Outcome { referenced: plan.referenced.clone(), updated, unknown, written: plan.updates }
}

#[test]
fn collects_ids_from_fenced_yaml_list() {
    let es = vec![seed_entry("TK-DOG-1")];
    let res = run_touch(
        &es,
        &["## knowledgeReferences\n\n```yaml\nknowledgeReferences:\n  - id: TK-DOG-1\n    title: \"a: b\"\n    usedIn: \"x: y\"\nnotes: trailing note with a colon: here\n```\n"],
    );
    assert!(res.updated.iter().any(|v| v == "TK-DOG-1"));
    assert_eq!(res.referenced.len(), 1);
}

#[test]
fn collects_unquoted_and_quoted_ids() {
    let es = vec![seed_entry("TK-DOG-1"), seed_entry("BK-DOG-2")];
    let res = run_touch(
        &es,
        &["```yaml\nknowledgeReferences:\n  - id: TK-DOG-1\n  - id: \"BK-DOG-2\"\n```\n"],
    );
    assert!(res.updated.iter().any(|v| v == "TK-DOG-1"));
    assert!(res.updated.iter().any(|v| v == "BK-DOG-2"));
}

#[test]
fn collects_bullet_form() {
    let es = vec![seed_entry("TK-DOG-1")];
    let res = run_touch(&es, &["## knowledgeReferences\n\n- TK-DOG-1 (note text with a colon: here)\n"]);
    assert!(res.updated.iter().any(|v| v == "TK-DOG-1"));
}

#[test]
fn ignores_inline_flow_and_prose() {
    let es = vec![seed_entry("TK-DOG-1")];
    let text = "## knowledgeReferences\n\
                ```yaml\n\
                knowledgeReferences:\n\
                \x20 stage: ARCHIVE\n\
                \x20 injected_ids: [TK-DOG-9]\n\
                \x20 applied:\n\
                \x20   - id: TK-DOG-1\n\
                \x20     title: \"t\"\n\
                \x20 wroteBack: [TK-DOG-1]\n\
                \x20 created: [TK-DOG-9]\n\
                \x20 note: >\n\
                \x20   prose mentioning TK-DOG-9 inline\n\
                ```\n\
                \n\
                ## notes\n\
                \n\
                - **TK-DOG-9** — a sibling prose bullet under a separate heading\n";
    let res = run_touch(&es, &[text]);
    assert_eq!(res.referenced, vec!["TK-DOG-1".to_string()]);
    assert!(!res.referenced.contains(&"TK-DOG-9".to_string()));
}

#[test]
fn touch_marks_known_id_updated_and_bumps_evidence() {
    let es = vec![seed_entry("TK-X")];
    let res = run_touch(&es, &[&ref_blob(&["TK-X"])]);
    assert!(res.updated.iter().any(|v| v == "TK-X"));
    assert!(res.unknown.is_empty());
    let (pos, reloaded) = &res.written[0];
    assert_eq!(*pos, 0);
    assert_eq!(reloaded.evidence.ref_count, 1);
    assert_eq!(reloaded.evidence.last_referenced.as_deref(), Some("2026-06-28"));
    assert!(reloaded.evidence.projects.contains(&"proj".to_string()));
}

#[test]
fn touch_reports_unknown_id_not_in_kb() {
    let res = run_touch(&[], &[&ref_blob(&["TK-NOPE"])]);
    assert!(res.unknown.iter().any(|v| v == "TK-NOPE"));
    assert!(!res.updated.iter().any(|v| v == "TK-NOPE"));
}

#[test]
fn touch_sums_duplicate_references_into_ref_count() {
    let es = vec![seed_entry("TK-X")];
    let res = run_touch(&es, &[&ref_blob(&["TK-X"]), &ref_blob(&["TK-X"])]);
    assert_eq!(res.written.len(), 1);
    assert_eq!(res.written[0].1.evidence.ref_count, 2);
}

#[test]
fn kb_touch_parses_yaml_reference_blocks() {
    let es: Vec<Entry> = ["TK-DOG-003", "TK-DOG-004", "TK-DOG-005", "TK-DOG-006"]
        .iter()
        .map(|id| seed_entry(id))
        .collect();
    let a = "## knowledgeReferences\n\n```yaml\nknowledgeReferences:\n  - id: TK-DOG-003\n  - id: TK-DOG-005\n  created: [TK-DOG-007, TK-DOG-008]\n  wroteBack: [TK-DOG-009, TK-DOG-010]\n```\n";
    let b = "## knowledgeReferences\n\n- TK-DOG-004 applied this run\n- TK-DOG-006 applied this run\n";
    let res = run_touch(&es, &[a, b]);
    for id in ["TK-DOG-003", "TK-DOG-004", "TK-DOG-005", "TK-DOG-006"] {
        assert!(res.updated.iter().any(|u| u == id), "{id} must be collected from YAML blocks");
    }
    for id in ["TK-DOG-007", "TK-DOG-008", "TK-DOG-009", "TK-DOG-010"] {
        assert!(!res.referenced.iter().any(|r| r == id), "{id} must not be scraped");
    }
}

#[test]
fn touch_keeps_projects_once_and_skips_fileless_entries() {
    let mut a = seed_entry("TK-A");
    a.evidence.projects = vec!["proj".to_string()];
    a.evidence.ref_count = 4;
    let mut b = seed_entry("TK-B");
    b.path = None;
    let res = run_touch(&[a, b], &[&ref_blob(&["TK-B", "TK-A", "TK-A"])]);
    assert_eq!(res.referenced, vec!["TK-B", "TK-A", "TK-A"]);
    assert_eq!(res.updated, vec!["TK-A".to_string()]);
    assert_eq!(res.unknown, vec!["TK-B".to_string()]);
    let t = &res.written[0].1;
    assert_eq!(t.evidence.projects, vec!["proj".to_string()]);
    assert_eq!(t.evidence.ref_count, 6);
}

#[test]
fn unsaved_updates_are_reported_unknown() {
    let es = vec![seed_entry("TK-A"), seed_entry("TK-B")];
    let files = vec![run_file(&ref_blob(&["TK-B", "TK-A"]))];
    let plan = touch(&files, &es, "proj", "2026-06-28");
    assert_eq!(plan.counts, vec![("TK-A".to_string(), 1), ("TK-B".to_string(), 1)]);
    let (updated, unknown) = settle_touch(&plan, &vec![true, false]);
    assert_eq!(updated, vec!["TK-A".to_string()]);
    assert_eq!(unknown, vec!["TK-B".to_string()]);
}

#[test]
fn json_objects_are_found_balanced() {
    assert_eq!(
        top_level_json_objects("a {\"x\": {\"y\": 1}} b {} c } {"),
        vec!["{\"x\": {\"y\": 1}}".to_string(), "{}".to_string()]
    );
}

#[test]
fn block_lines_yield_ids() {
    let c = |s: &str| -> Vec<char> { s.chars().collect() };
    let s = |v: Option<Vec<char>>| v.map(|x| x.into_iter().collect::<String>());
    assert_eq!(s(block_id_from_line(&c("- id: TK-1"))), Some("TK-1".to_string()));
    assert_eq!(s(block_id_from_line(&c("id: 'BK-2'"))), Some("BK-2".to_string()));
    assert_eq!(s(block_id_from_line(&c("id: 'BK-2',"))), None);
    assert_eq!(s(block_id_from_line(&c("* \"TK-5\",  x"))), Some("TK-5\"".to_string()));
    assert_eq!(s(block_id_from_line(&c("- TK-3 — used here"))), Some("TK-3".to_string()));
    assert_eq!(s(block_id_from_line(&c("- note TK-3"))), None);
    assert_eq!(s(block_id_from_line(&c("title: TK-4"))), None);
}

#[test]
fn references_are_collected_file_by_file() {
    let files = vec![
        run_file("{\"knowledgeReferences\":[{\"id\":\"TK-1\"},{\"x\":1}]} {\"nested\":{\"knowledgeReferences\":[{\"id\":\"TK-2\"}]}}"),
        run_file("## knowledgeReferences\n- TK-3\n"),
    ];
    let scan = collect_references(&files);
    assert_eq!(scan.ids, vec!["TK-1", "TK-2", "TK-3"]);
    assert_eq!(scan.dropped_blocks, vec![0, 0]);
}

#[test]
fn counts_and_markdown_listing() {
    let refs: Vec<String> = ["b", "a", "b"].iter().map(|s| s.to_string()).collect();
    assert_eq!(reference_counts(&refs), vec![("a".to_string(), 1), ("b".to_string(), 2)]);
    let names: Vec<String> = ["z.md", "notes.txt", ".md", "a.md", "b.MD"].iter().map(|s| s.to_string()).collect();
    assert_eq!(md_files_sorted(names), vec!["a.md".to_string(), "z.md".to_string()]);
}

#[test]
fn saturated_counts_of_unreferenced_entries_are_left_alone() {
    let mut full = seed_entry("TK-1");
    full.evidence.ref_count = u64::MAX;
    let entries = vec![full, seed_entry("TK-2")];
    let out = run_touch(&entries, &[&ref_blob(&["TK-2", "TK-2"])]);
    assert_eq!(out.updated, vec!["TK-2".to_string()]);
    assert_eq!(out.written.len(), 1);
    assert_eq!(out.written[0].0, 1);
    assert_eq!(out.written[0].1.evidence.ref_count, 2);
}

#[test]
fn touch_reports_updated_and_unknown_ids_in_order() {
    let entries = vec![seed_entry("TK-3"), seed_entry("TK-1"), seed_entry("TK-2")];
    let out = run_touch(&entries, &[&ref_blob(&["TK-3", "TK-9", "TK-1"]), &ref_blob(&["TK-0", "TK-2"])]);
    assert_eq!(out.referenced, vec!["TK-3", "TK-9", "TK-1", "TK-0", "TK-2"]);
    assert_eq!(out.updated, vec!["TK-1", "TK-2", "TK-3"]);
    assert_eq!(out.unknown, vec!["TK-0", "TK-9"]);
}
