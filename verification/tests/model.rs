use cairnkit::errors::CairnError;
use cairnkit::knowledge::model::{
    default_point, parse_entry, serialize_entry, split_frontmatter, Entry, Evidence, HistoryItem,
};
use serde_yaml::{Mapping, Value};

fn text_of(v: Option<&Value>) -> Result<String, String> {
    match v {
        None => Ok(String::new()),
        Some(Value::String(s)) => Ok(s.clone()),
        Some(other) => Err(format!("expected a string, got {other:?}")),
    }
}

fn opt_text(v: Option<&Value>) -> Result<Option<String>, String> {
    match v {
        None | Some(Value::Null) => Ok(None),
        Some(Value::String(s)) => Ok(Some(s.clone())),
        Some(other) => Err(format!("expected a string, got {other:?}")),
    }
}

fn texts(v: Option<&Value>) -> Result<Vec<String>, String> {
    match v {
        None => Ok(vec![]),
        Some(Value::Sequence(items)) => items.iter().map(|x| text_of(Some(x))).collect(),
        Some(other) => Err(format!("expected a sequence, got {other:?}")),
    }
}

/// Decodes a frontmatter into an entry, with the defaults of the entry file format.
fn decode(fm: &str) -> Result<Entry, String> {
    let v: Value = serde_yaml::from_str(fm).map_err(|e| e.to_string())?;
    let m = match v {
        Value::Mapping(m) => m,
        other => return Err(format!("expected a mapping, got {other:?}")),
    };
    let g = |k: &str| m.get(Value::String(k.to_string()));
    let ev = match g("evidence") {
        None => Evidence::empty(),
        Some(Value::Mapping(e)) => {
            let h = |k: &str| e.get(Value::String(k.to_string()));
            Evidence {
                contributors: texts(h("contributors"))?,
                sources: texts(h("sources"))?,
                projects: texts(h("projects"))?,
                last_referenced: opt_text(h("last_referenced"))?,
                ref_count: match h("ref_count") {
                    None => 0,
                    Some(n) => n.as_u64().ok_or("ref_count must be a number")?,
                },
            }
        }
        Some(other) => return Err(format!("expected a mapping, got {other:?}")),
    };
    let history = match g("history") {
        None => vec![],
        Some(Value::Sequence(items)) => items
            .iter()
            .map(|h| HistoryItem::Kept {
                yaml: serde_yaml::to_string(h).unwrap(),
                mapping: h.is_mapping(),
            })
            .collect(),
        Some(other) => return Err(format!("expected a sequence, got {other:?}")),
    };
    Ok(Entry {
        id: text_of(g("id"))?,
        title: text_of(g("title"))?,
        category: text_of(g("category"))?,
        domain: opt_text(g("domain"))?,
        kind: text_of(g("type"))?,
        guideline_polarity: opt_text(g("guideline_polarity"))?,
        maturity: text_of(g("maturity"))?,
        knowledge_class: match g("knowledge_class") {
            None => default_point(),
            v => text_of(v)?,
        },
        layer: text_of(g("layer"))?,
        tags: texts(g("tags"))?,
        applicable_phases: texts(g("applicable_phases"))?,
        evidence: ev,
        history,
        body: String::new(),
        path: None,
    })
}

fn opt_value(o: &Option<String>) -> Value {
    match o {
        Some(s) => Value::String(s.clone()),
        None => Value::Null,
    }
}

fn seq_value(v: &[String]) -> Value {
    Value::Sequence(v.iter().map(|s| Value::String(s.clone())).collect())
}

/// Encodes an entry's fields as its frontmatter.
fn encode(e: &Entry) -> String {
    let mut m = Mapping::new();
    let mut put = |k: &str, v: Value| {
        m.insert(Value::String(k.to_string()), v);
    };
    put("id", Value::String(e.id.clone()));
    put("title", Value::String(e.title.clone()));
    put("category", Value::String(e.category.clone()));
    put("domain", opt_value(&e.domain));
    put("type", Value::String(e.kind.clone()));
    put("guideline_polarity", opt_value(&e.guideline_polarity));
    put("maturity", Value::String(e.maturity.clone()));
    put("knowledge_class", Value::String(e.knowledge_class.clone()));
    put("layer", Value::String(e.layer.clone()));
    put("tags", seq_value(&e.tags));
    put("applicable_phases", seq_value(&e.applicable_phases));
    let mut ev = Mapping::new();
    ev.insert(Value::String("contributors".into()), seq_value(&e.evidence.contributors));
    ev.insert(Value::String("sources".into()), seq_value(&e.evidence.sources));
    ev.insert(Value::String("projects".into()), seq_value(&e.evidence.projects));
    ev.insert(Value::String("last_referenced".into()), opt_value(&e.evidence.last_referenced));
    ev.insert(Value::String("ref_count".into()), Value::Number(e.evidence.ref_count.into()));
    put("evidence", Value::Mapping(ev));
    let hist = e
        .history
        .iter()
        .map(|h| match h {
            HistoryItem::Update { date, update_type, by } => {
                let mut hm = Mapping::new();
                hm.insert(Value::String("date".into()), Value::String(date.clone()));
                hm.insert(Value::String("update_type".into()), Value::String(update_type.clone()));
                hm.insert(Value::String("by".into()), Value::String(by.clone()));
                Value::Mapping(hm)
            }
            HistoryItem::Kept { yaml, .. } => serde_yaml::from_str(yaml).unwrap(),
        })
        .collect();
    put("history", Value::Sequence(hist));
    serde_yaml::to_string(&Value::Mapping(m)).unwrap()
}

fn read_entry(text: &str) -> Result<Entry, CairnError> {
    let decoded = match split_frontmatter(text) {
        Ok((fm, _)) => decode(&fm),
        Err(_) => Err(String::new()),
    };
    parse_entry(text, None, decoded)
}

fn sample() -> &'static str {
    "---\nid: TK-001\ntitle: Pagination\ncategory: tech\ndomain: null\ntype: decision\n\
     guideline_polarity: null\nmaturity: draft\nknowledge_class: causal\nlayer: L1\n\
     tags: [mysql]\napplicable_phases: [ARCHITECT_BACKEND]\n\
     evidence:\n  contributors: [you]\n  sources: []\n  projects: []\n  last_referenced: null\n  ref_count: 0\n\
     history: []\n---\nBody line.\n- bullet"
}

#[test]
fn roundtrip_preserves_body_with_dash() {
    let e = read_entry(sample()).unwrap();
    assert_eq!(e.id, "TK-001");
    assert_eq!(e.kind, "decision");
    assert!(e.body.contains("- bullet"));
    let again = read_entry(&serialize_entry(&e, &encode(&e))).unwrap();
    assert_eq!(again.body, e.body);
    assert_eq!(again.id, "TK-001");
}

#[test]
fn missing_frontmatter_errs() {
    assert!(read_entry("no frontmatter").is_err());
}

#[test]
fn knowledge_class_defaults_point() {
    let t = "---\nid: TK-9\ntitle: t\ncategory: tech\ntype: decision\nmaturity: draft\nlayer: L1\n---\nbody";
    assert_eq!(read_entry(t).unwrap().knowledge_class, "point");
}

#[test]
fn framing_errors_are_exact() {
    assert_eq!(
        split_frontmatter("no frontmatter").unwrap_err().message(),
        "entry missing leading '---' frontmatter block"
    );
    assert_eq!(
        split_frontmatter("---\nid: x\n").unwrap_err().message(),
        "entry frontmatter is not terminated by '---'"
    );
    let (fm, body) = split_frontmatter("---\nid: x\n---\n\n\nbody\n\n").unwrap();
    assert_eq!(fm, "\nid: x");
    assert_eq!(body, "body");
    let (_, body) = split_frontmatter("---\nid: x\n---").unwrap();
    assert_eq!(body, "");
}

#[test]
fn decoding_and_history_errors() {
    let e = parse_entry(sample(), None, Err("bad".to_string())).unwrap_err();
    assert_eq!(e.message(), "entry frontmatter is not valid YAML: bad");
    let t = "---\nid: TK-9\nhistory: [1]\n---\nbody";
    assert_eq!(read_entry(t).unwrap_err().message(), "each history item must be a mapping");
    let t = "---\nid: TK-9\nknowledge_class: ''\n---\nbody";
    assert_eq!(read_entry(t).unwrap().knowledge_class, "point");
}

#[test]
fn serialized_entry_frames_the_body() {
    let mut e = read_entry(sample()).unwrap();
    e.body = "\n\nhello\n".to_string();
    assert_eq!(serialize_entry(&e, "id: x\n"), "---\nid: x\n---\n\nhello\n");
    let p = parse_entry(sample(), Some("/kb/a.md".to_string()), decode("id: z")).unwrap();
    assert_eq!(p.path.as_deref(), Some("/kb/a.md"));
    assert_eq!(p.id, "z");
    assert_eq!(p.body, "Body line.\n- bullet");
}

#[test]
fn written_entry_files_split_back() {
    let mut e = Entry {
        id: "TK-1".to_string(),
        title: "t".to_string(),
        category: "tech".to_string(),
        domain: None,
        kind: "decision".to_string(),
        guideline_polarity: None,
        maturity: "draft".to_string(),
        knowledge_class: "point".to_string(),
        layer: "L1".to_string(),
        tags: vec![],
        applicable_phases: vec![],
        evidence: Evidence::empty(),
        history: vec![],
        body: "\n- bullet\n---\nmore\n\n".to_string(),
        path: None,
    };
    let (fm, body) = split_frontmatter(&serialize_entry(&e, "id: TK-1\ntitle: t\n")).unwrap();
    assert_eq!(fm, "\nid: TK-1\ntitle: t");
    assert_eq!(body, "- bullet\n---\nmore");
    e.body = body.clone();
    let (_, again) = split_frontmatter(&serialize_entry(&e, "id: TK-1\n")).unwrap();
    assert_eq!(again, body);
}
