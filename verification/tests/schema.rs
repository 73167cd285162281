use cairnkit::knowledge::model::{Entry, Evidence};
use cairnkit::knowledge::schema::{iter_errors, validate};

fn valid_tech() -> Entry {
    Entry {
        id: "TK-1".to_string(),
        title: "tech title".to_string(),
        category: "tech".to_string(),
        domain: None,
        kind: "decision".to_string(),
        guideline_polarity: None,
        maturity: "draft".to_string(),
        knowledge_class: "point".to_string(),
        layer: "L1".to_string(),
        tags: vec![],
        applicable_phases: vec![],
        evidence: Evidence::empty(),
        history: vec![],
        body: "b".to_string(),
        path: None,
    }
}

fn valid_biz() -> Entry {
    Entry {
        id: "BK-1".to_string(),
        category: "biz".to_string(),
        domain: Some("ecommerce".to_string()),
        ..valid_tech()
    }
}

#[test]
fn accepts_valid_tech_and_biz_entries() {
    for e in [valid_tech(), valid_biz()] {
        assert!(iter_errors(&e).is_empty(), "unexpected errors: {:?}", iter_errors(&e));
        assert!(validate(&e).is_ok());
    }
}

#[test]
fn rejects_cross_field_and_enum_violations() {
    let has = |e: &Entry, frag: &str| iter_errors(e).iter().any(|m| m.contains(frag));

    let mut e = valid_tech();
    e.domain = Some("ecommerce".to_string());
    assert!(has(&e, "tech knowledge must not set a domain"));

    let mut e = valid_biz();
    e.domain = None;
    assert!(has(&e, "biz knowledge requires a domain"));

    let mut e = valid_tech();
    e.category = "bogus".to_string();
    e.layer = "L3".to_string();
    assert!(has(&e, "must be one of"));

    let mut e = valid_tech();
    e.kind = "bogus".to_string();
    assert!(has(&e, "must be one of"));

    let mut e = valid_tech();
    e.maturity = "bogus".to_string();
    assert!(has(&e, "must be one of"));

    let mut e = valid_tech();
    e.knowledge_class = "bogus".to_string();
    assert!(has(&e, "must be one of"));

    let mut e = valid_tech();
    e.layer = "bogus".to_string();
    assert!(has(&e, "must be one of"));

    let mut e = valid_tech();
    e.id = String::new();
    assert!(has(&e, "missing id"));

    let mut e = valid_tech();
    e.title = String::new();
    assert!(has(&e, "missing title"));

    let mut e = valid_tech();
    e.guideline_polarity = Some("recommend".to_string());
    assert!(has(&e, "guideline_polarity is only valid for type=guideline"));
}

#[test]
fn schema_messages_are_exact() {
    let mut e = valid_tech();
    e.category = "bogus".to_string();
    e.layer = "L3".to_string();
    assert_eq!(
        iter_errors(&e),
        vec!["category must be one of [\"tech\", \"biz\"], got \"bogus\"".to_string()]
    );

    let mut e = valid_tech();
    e.kind = "guideline".to_string();
    assert_eq!(
        iter_errors(&e),
        vec!["guideline requires guideline_polarity in [\"recommend\", \"avoid\"]".to_string()]
    );

    let mut e = valid_tech();
    e.id = "XK-1".to_string();
    assert_eq!(iter_errors(&e), vec!["tech entry id should start with 'TK-'".to_string()]);
    e.layer = "L3".to_string();
    assert!(iter_errors(&e).is_empty());

    let mut e = valid_biz();
    e.id = "TK-9".to_string();
    assert_eq!(iter_errors(&e), vec!["biz entry id should start with 'BK-'".to_string()]);
}

#[test]
fn validate_reports_id_and_all_errors() {
    let mut e = valid_tech();
    e.maturity = "x".to_string();
    e.title = String::new();
    let err = validate(&e).unwrap_err();
    assert_eq!(err.code(), 2);
    assert_eq!(
        err.message(),
        "TK-1: missing title; maturity must be one of [\"draft\", \"verified\", \"proven\"], got \"x\""
    );
    let mut e = valid_tech();
    e.id = String::new();
    assert_eq!(validate(&e).unwrap_err().message(), "<no id>: missing id");
}
