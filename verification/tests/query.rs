use cairnkit::clock::Date;
use cairnkit::errors::CairnError;
use cairnkit::knowledge::index::build_index;
use cairnkit::knowledge::model::{
    default_point, parse_entry, split_frontmatter, Entry, Evidence, HistoryItem,
};
use cairnkit::json::Json;
use cairnkit::knowledge::extract_gate::{extract_from_run, Verdict};
use cairnkit::knowledge::lifecycle::promote_repo;
use cairnkit::knowledge::query::{query, QueryResult};
use cairnkit::knowledge::refs::{settle_touch, top_level_json_objects, touch, RunFile};
use cairnkit::knowledge::schema::validate;
use serde_yaml::{Mapping, Value};

fn text_of(v: Option<&Value>) -> Result<String, String> {
    match v {
        None => Ok(String::new()),
        Some(Value::String(s)) => Ok(s.clone()),
        Some(other) => Err(format!("expected a string, got {other:?}")),
    }
}

fn opt_text(v: Option<&Value>) -> Result<Option<String>, String> {
    match v {
        None | Some(Value::Null) => Ok(None),
        Some(Value::String(s)) => Ok(Some(s.clone())),
        Some(other) => Err(format!("expected a string, got {other:?}")),
    }
}

fn texts(v: Option<&Value>) -> Result<Vec<String>, String> {
    match v {
        None => Ok(vec![]),
        Some(Value::Sequence(items)) => items.iter().map(|x| text_of(Some(x))).collect(),
        Some(other) => Err(format!("expected a sequence, got {other:?}")),
    }
}

/// Decodes a frontmatter into an entry, with the defaults of the entry file format.
fn decode(fm: &str) -> Result<Entry, String> {
    let v: Value = serde_yaml::from_str(fm).map_err(|e| e.to_string())?;
    let m = match v {
        Value::Mapping(m) => m,
        other => return Err(format!("expected a mapping, got {other:?}")),
    };
    let g = |k: &str| m.get(Value::String(k.to_string()));
    let ev = match g("evidence") {
        None => Evidence::empty(),
        Some(Value::Mapping(e)) => {
            let h = |k: &str| e.get(Value::String(k.to_string()));
            Evidence {
                contributors: texts(h("contributors"))?,
                sources: texts(h("sources"))?,
                projects: texts(h("projects"))?,
                last_referenced: opt_text(h("last_referenced"))?,
                ref_count: match h("ref_count") {
                    None => 0,
                    Some(n) => n.as_u64().ok_or("ref_count must be a number")?,
                },
            }
        }
        Some(other) => return Err(format!("expected a mapping, got {other:?}")),
    };
    let history = match g("history") {
        None => vec![],
        Some(Value::Sequence(items)) => items
            .iter()
            .map(|h| HistoryItem::Kept {
                yaml: serde_yaml::to_string(h).unwrap(),
                mapping: h.is_mapping(),
            })
            .collect(),
        Some(other) => return Err(format!("expected a sequence, got {other:?}")),
    };
    Ok(Entry {
        id: text_of(g("id"))?,
        title: text_of(g("title"))?,
        category: text_of(g("category"))?,
        domain: opt_text(g("domain"))?,
        kind: text_of(g("type"))?,
        guideline_polarity: opt_text(g("guideline_polarity"))?,
        maturity: text_of(g("maturity"))?,
        knowledge_class: match g("knowledge_class") {
            None => default_point(),
            v => text_of(v)?,
        },
        layer: text_of(g("layer"))?,
        tags: texts(g("tags"))?,
        applicable_phases: texts(g("applicable_phases"))?,
        evidence: ev,
        history,
        body: String::new(),
        path: None,
    })
}

fn opt_value(o: &Option<String>) -> Value {
    match o {
        Some(s) => Value::String(s.clone()),
        None => Value::Null,
    }
}

fn seq_value(v: &[String]) -> Value {
    Value::Sequence(v.iter().map(|s| Value::String(s.clone())).collect())
}

/// Encodes an entry's fields as its frontmatter.
fn encode(e: &Entry) -> String {
    let mut m = Mapping::new();
    let mut put = |k: &str, v: Value| {
        m.insert(Value::String(k.to_string()), v);
    };
    put("id", Value::String(e.id.clone()));
    put("title", Value::String(e.title.clone()));
    put("category", Value::String(e.category.clone()));
    put("domain", opt_value(&e.domain));
    put("type", Value::String(e.kind.clone()));
    put("guideline_polarity", opt_value(&e.guideline_polarity));
    put("maturity", Value::String(e.maturity.clone()));
    put("knowledge_class", Value::String(e.knowledge_class.clone()));
    put("layer", Value::String(e.layer.clone()));
    put("tags", seq_value(&e.tags));
    put("applicable_phases", seq_value(&e.applicable_phases));
    let mut ev = Mapping::new();
    ev.insert(Value::String("contributors".into()), seq_value(&e.evidence.contributors));
    ev.insert(Value::String("sources".into()), seq_value(&e.evidence.sources));
    ev.insert(Value::String("projects".into()), seq_value(&e.evidence.projects));
    ev.insert(Value::String("last_referenced".into()), opt_value(&e.evidence.last_referenced));
    ev.insert(Value::String("ref_count".into()), Value::Number(e.evidence.ref_count.into()));
    put("evidence", Value::Mapping(ev));
    let hist = e
        .history
        .iter()
        .map(|h| match h {
            HistoryItem::Update { date, update_type, by } => {
                let mut hm = Mapping::new();
                hm.insert(Value::String("date".into()), Value::String(date.clone()));
                hm.insert(Value::String("update_type".into()), Value::String(update_type.clone()));
                hm.insert(Value::String("by".into()), Value::String(by.clone()));
                Value::Mapping(hm)
            }
            HistoryItem::Kept { yaml, .. } => serde_yaml::from_str(yaml).unwrap(),
        })
        .collect();
    put("history", Value::Sequence(hist));
    serde_yaml::to_string(&Value::Mapping(m)).unwrap()
}


fn run_query(es: &[Entry], stage: &str, budget: i64, domain: Option<&str>) -> QueryResult {
    let entries: Vec<Entry> = es.to_vec();
    let fms: Vec<String> = entries.iter().map(encode).collect();
    query(&entries, &fms, stage, budget, domain)
}

fn make(id: &str, category: &str, domain: Option<&str>, maturity: &str, phases: &[&str], body: &str) -> Entry {
    Entry {
        id: id.to_string(),
        title: format!("title for {id}"),
        category: category.to_string(),
        domain: domain.map(String::from),
        kind: "decision".to_string(),
        guideline_polarity: None,
        maturity: maturity.to_string(),
        knowledge_class: "point".to_string(),
        layer: "L1".to_string(),
        tags: vec!["t".to_string()],
        applicable_phases: phases.iter().map(|p| p.to_string()).collect(),
        evidence: Evidence::empty(),
        history: vec![],
        body: body.to_string(),
        path: None,
    }
}

const BIG_BODY: &str = "This body is comfortably over eighty characters long so the \
    serialized entry block is a realistic number of lines for budget sizing in tests.";

#[test]
fn dropped_names_followon_entry_cut_for_budget() {
    let es = vec![
        make("TK-A", "tech", None, "proven", &["IMPLEMENT"], BIG_BODY),
        make("TK-B", "tech", None, "draft", &["IMPLEMENT"], BIG_BODY),
    ];
    let r = run_query(&es, "IMPLEMENT", 35, None);
    assert!(!r.dropped.is_empty(), "second entry should be cut to dropped");
    assert_eq!(r.dropped[0].id, "TK-B");
    assert_eq!(r.injected_ids, vec!["TK-A".to_string()]);
}

#[test]
fn over_budget_flags_single_oversized_top_entry() {
    let es = vec![make("TK-A", "tech", None, "draft", &["IMPLEMENT"], BIG_BODY)];
    let r = run_query(&es, "IMPLEMENT", 1, None);
    assert!(r.over_budget, "single oversized top entry must flag over_budget");
    assert_eq!(r.injected_ids, vec!["TK-A".to_string()]);
    assert!(r.dropped.is_empty(), "nothing follows the top entry, so dropped is empty");
}

#[test]
fn tech_visible_globally_biz_gated_by_domain() {
    let es = vec![
        make("TK-A", "tech", None, "draft", &["IMPLEMENT"], BIG_BODY),
        make("BK-A", "biz", Some("ecommerce"), "draft", &["IMPLEMENT"], BIG_BODY),
    ];
    let no_domain = run_query(&es, "IMPLEMENT", 1000, None);
    assert!(no_domain.injected_ids.contains(&"TK-A".to_string()));
    assert!(
        !no_domain.injected_ids.contains(&"BK-A".to_string()),
        "biz entry must not surface without a matching domain"
    );
    let with_domain = run_query(&es, "IMPLEMENT", 1000, Some("ecommerce"));
    assert!(with_domain.injected_ids.contains(&"TK-A".to_string()));
    assert!(with_domain.injected_ids.contains(&"BK-A".to_string()));
}

#[test]
fn empty_kb_returns_empty_result() {
    let r = run_query(&[], "IMPLEMENT", 300, None);
    assert!(r.injected_ids.is_empty());
    assert!(r.dropped.is_empty());
    assert!(r.text.is_empty());
    assert_eq!(r.lines, 0);
    assert!(!r.over_budget);
    assert_eq!(r.stage, "IMPLEMENT");
    assert_eq!(r.budget_lines, 300);
}

fn seed_text(id: &str, class: &str) -> String {
    format!(
        "---\nid: {id}\ntitle: Pagination\ncategory: tech\ndomain: null\ntype: decision\nguideline_polarity: null\nmaturity: draft\nknowledge_class: {class}\nlayer: L1\ntags: [mysql]\napplicable_phases: [ARCHITECT_BACKEND]\nevidence: {{contributors: [you], sources: [], projects: [], last_referenced: null, ref_count: 0}}\nhistory: []\n---\nKeyset beats OFFSET under deep paging because it avoids scanning and discarding rows here.\n"
    )
}

fn read_entry(text: &str, path: &str) -> Result<Entry, CairnError> {
    let decoded = match split_frontmatter(text) {
        Ok((fm, _)) => decode(&fm),
        Err(_) => Err(String::new()),
    };
    parse_entry(text, Some(path.to_string()), decoded)
}

#[test]
fn kb_validate_build_query() {
    let e = read_entry(&seed_text("TK-001", "causal"), "/p/kb/tech-wiki/TK-001.md").unwrap();
    assert!(validate(&e).is_ok());
    let plan = build_index("/p/kb", &vec![e.clone()]);
    assert!(plan.stats.contains(&("total".to_string(), 1)));
    let r = run_query(&[e], "ARCHITECT_BACKEND", 2, Some("ads"));
    assert_eq!(r.injected_ids[0], "TK-001");
    assert!(r.over_budget);
}

#[test]
fn budget_never_truncates_silently() {
    let a = read_entry(&seed_text("TK-001", "causal"), "/p/kb/tech-wiki/TK-001.md").unwrap();
    let b = read_entry(&seed_text("TK-002", "point"), "/p/kb/tech-wiki/TK-002.md").unwrap();
    let es = vec![a, b];
    assert!(build_index("/p/kb", &es).stats.contains(&("total".to_string(), 2)));
    let tight = run_query(&es, "ARCHITECT_BACKEND", 2, Some("ads"));
    assert!(!tight.dropped.is_empty(), "truncation must never be silent");
    assert!(tight.dropped.iter().any(|d| d.id == "TK-002"), "dropped must name the cut entry");
    assert_eq!(tight.injected_ids.len(), 1);
    let wide = run_query(&es, "ARCHITECT_BACKEND", 100, Some("ads"));
    assert!(!wide.over_budget);
    assert!(wide.dropped.is_empty());
    assert_eq!(wide.injected_ids.len(), 2);
}

#[test]
fn over_budget_flags_oversized_top_entry() {
    let a = read_entry(&seed_text("TK-001", "causal"), "/p/kb/tech-wiki/TK-001.md").unwrap();
    let es = vec![a];
    let res = run_query(&es, "ARCHITECT_BACKEND", 1, Some("ads"));
    assert!(res.over_budget, "an oversized sole entry must be flagged over_budget");
    assert!(res.injected_ids.iter().any(|x| x == "TK-001"));
    assert!(res.dropped.is_empty());
}

#[test]
fn ranking_is_maturity_then_class_then_id() {
    let mut a = make("TK-C", "tech", None, "draft", &["X"], "b");
    a.knowledge_class = "causal".into();
    let b = make("TK-B", "tech", None, "verified", &["X"], "b");
    let c = make("TK-A", "tech", None, "draft", &["X"], "b");
    let mut d = make("TK-D", "tech", None, "draft", &["X"], "b");
    d.knowledge_class = "spatiotemporal".into();
    let r = run_query(&[a, b, c, d], "X", 1000, None);
    assert_eq!(r.injected_ids, vec!["TK-B", "TK-D", "TK-C", "TK-A"]);
}

#[test]
fn text_and_lines_of_injected_blocks() {
    let a = make("TK-A", "tech", None, "proven", &["X"], "alpha");
    let b = make("TK-B", "tech", None, "draft", &["X"], "beta");
    let fa = encode(&a);
    let fb = encode(&b);
    let ba = format!("---\n{fa}---\n\nalpha\n");
    let bb = format!("---\n{fb}---\n\nbeta\n");
    let r = query(&vec![a, b], &vec![fa, fb], "X", 10_000, None);
    assert_eq!(r.text, format!("{ba}\n{bb}"));
    assert_eq!(r.lines as usize, ba.matches('\n').count() + bb.matches('\n').count());
    let first = ba.matches('\n').count() as i64;
    let cut = query(&r_entries(), &r_fms(), "X", first, None);
    assert_eq!(cut.injected_ids, vec!["TK-A"]);
    assert_eq!(cut.dropped.len(), 1);
    assert_eq!(cut.dropped[0].title, "title for TK-B");
    assert_eq!(cut.dropped[0].reason, "budget");
    assert!(!cut.over_budget);
    assert_eq!(cut.lines, first);
}

fn r_entries() -> Vec<Entry> {
    vec![
        make("TK-A", "tech", None, "proven", &["X"], "alpha"),
        make("TK-B", "tech", None, "draft", &["X"], "beta"),
    ]
}

fn r_fms() -> Vec<String> {
    r_entries().iter().map(encode).collect()
}

#[test]
fn negative_budget_keeps_only_the_top_entry() {
    let r = query(&r_entries(), &r_fms(), "X", -5, None);
    assert_eq!(r.injected_ids, vec!["TK-A"]);
    assert!(r.over_budget);
    assert_eq!(r.dropped.len(), 1);
}

fn to_json(v: &serde_json::Value) -> Json {
    match v {
        serde_json::Value::Null => Json::Null,
        serde_json::Value::Bool(b) => Json::Bool(*b),
        serde_json::Value::Number(n) => Json::Number(n.to_string()),
        serde_json::Value::String(s) => Json::Str(s.clone()),
        serde_json::Value::Array(a) => Json::Array(a.iter().map(to_json).collect()),
        serde_json::Value::Object(m) => {
            Json::Object(m.iter().map(|(k, x)| (k.clone(), to_json(x))).collect())
        }
    }
}

fn run_file(text: &str) -> RunFile {
    let blobs = top_level_json_objects(text)
        .iter()
        .map(|b| serde_json::from_str::<serde_json::Value>(b).ok().map(|v| to_json(&v)))
        .collect();
    RunFile { text: text.to_string(), blobs }
}

/// Applies a run's reference bookkeeping to the entries, as if every file were written.
fn touch_run(entries: &mut Vec<Entry>, file_text: &str) -> Vec<String> {
    let plan = touch(&vec![run_file(file_text)], entries, "proj", "2026-06-28");
    let saved = vec![true; plan.updates.len()];
    let (updated, _) = settle_touch(&plan, &saved);
    for (pos, e) in plan.updates {
        entries[pos] = e;
    }
    updated
}

fn promoted_ids(entries: &Vec<Entry>) -> Vec<String> {
    promote_repo(entries, Date { year: 2026, month: 6, day: 28 }).changed.iter().map(|(_, e)| e.id.clone()).collect()
}

#[test]
fn kb_validate_rejects_bad_entry() {
    let text = "---\nid: TK-9\ntitle: t\ncategory: tech\ndomain: oops\ntype: decision\nmaturity: draft\nlayer: L1\napplicable_phases: [IMPLEMENT]\n---\nbody here long enough.\n";
    let e = read_entry(text, "/p/kb/tech-wiki/TK-9.md").unwrap();
    assert_eq!(validate(&e).unwrap_err().code(), 2);
}

#[test]
fn reference_loop_drives_promotion() {
    let seed = read_entry(&seed_text("TK-001", "causal"), "/p/kb/tech-wiki/TK-001.md").unwrap();
    let mut entries = vec![seed];
    let updated = touch_run(&mut entries, r#"{"knowledgeReferences":[{"id":"TK-001"}]}"#);
    assert_eq!(updated, vec!["TK-001".to_string()]);
    assert!(promoted_ids(&entries).contains(&"TK-001".to_string()));
}

fn candidates() -> Json {
    let v: serde_json::Value = serde_json::from_str(
        r#"[
        {"id": "TK-100", "title": "Cache stampede guard", "category": "tech", "type": "pitfall",
         "knowledge_class": "causal", "layer": "L1", "applicable_phases": ["IMPLEMENT"],
         "tags": ["cache"],
         "body": "Use a single-flight lock or request coalescing so a cache miss does not let every concurrent caller hit the database at once."},
        {"id": "TK-101", "title": "Too shallow", "category": "tech", "type": "pitfall",
         "knowledge_class": "causal", "layer": "L1", "applicable_phases": ["IMPLEMENT"],
         "tags": [], "body": "too short"},
        {"id": "TK-102", "title": "Bad type", "category": "tech", "type": "not-a-real-type",
         "knowledge_class": "causal", "layer": "L1", "applicable_phases": [], "tags": [],
         "body": "This body is comfortably longer than the eighty character minimum so only the type and phases fail."}
        ]"#,
    )
    .unwrap();
    to_json(&v)
}

#[test]
fn knowledge_loop_closes() {
    let kb = "/p/kb";
    let seed = read_entry(&seed_text("TK-001", "causal"), "/p/kb/tech-wiki/TK-001.md").unwrap();
    assert!(validate(&seed).is_ok());
    let mut entries = vec![seed];
    assert!(build_index(kb, &entries).stats.contains(&("total".to_string(), 1)));

    let first = run_query(&entries, "IMPLEMENT", 300, None);
    assert!(
        !first.injected_ids.iter().any(|x| x == "TK-100"),
        "TK-100 must not pre-exist for the loop-closure delta"
    );
    let arch = run_query(&entries, "ARCHITECT_BACKEND", 300, None);
    assert!(arch.injected_ids.iter().any(|x| x == "TK-001"));

    let ex = extract_from_run(&candidates(), kb, "2026-06-28").unwrap();
    let mut written = Vec::new();
    let mut rejected = Vec::new();
    for v in ex.verdicts {
        match v {
            Verdict::Write { path, mut entry } => {
                assert_eq!(path, "/p/kb/tech-wiki/TK-100.md");
                assert!(encode(&entry).contains("maturity: draft"));
                entry.path = Some(path);
                written.push(entry);
            }
            Verdict::Rejected { title, reasons } => rejected.push((title, reasons)),
            Verdict::Invalid { .. } => panic!("no candidate breaks the schema"),
        }
    }
    assert_eq!(written.iter().map(|e| e.id.as_str()).collect::<Vec<_>>(), vec!["TK-100"]);
    assert_eq!(rejected.len(), 2);
    entries.extend(written);

    assert!(build_index(kb, &entries).stats.contains(&("total".to_string(), 2)));
    let second = run_query(&entries, "IMPLEMENT", 300, None);
    assert!(
        second.injected_ids.iter().any(|x| x == "TK-100"),
        "extracted id must surface on its phase after re-index"
    );
    assert!(
        !first.injected_ids.iter().any(|x| x == "TK-100")
            && second.injected_ids.iter().any(|x| x == "TK-100"),
        "loop closes only if TK-100 was newly visible (delta), not pre-existing"
    );

    let updated = touch_run(&mut entries, r#"{"knowledgeReferences":[{"id":"TK-001"}]}"#);
    assert!(updated.iter().any(|x| x == "TK-001"));
    assert!(promoted_ids(&entries).contains(&"TK-001".to_string()));
}
