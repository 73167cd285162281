use cairnkit::stages::{is_clarify, is_valid_path_mode, is_valid_stage, next_stage, stage_artifact, stages_for};

#[test]
fn full_chain() {
    assert_eq!(next_stage("INIT", "full"), Some("INTENT_GATE"));
    assert_eq!(next_stage("ARCHIVE", "full"), Some("DONE"));
    assert_eq!(next_stage("DONE", "full"), None);
}

#[test]
fn lite_skips_frontend() {
    assert_eq!(next_stage("CLARIFY_ARCH_BACKEND", "lite"), Some("IMPLEMENT"));
}

#[test]
fn foreign_current_falls_back() {
    assert_eq!(next_stage("ARCHITECT_FRONTEND", "lite"), Some("IMPLEMENT"));
    assert_eq!(next_stage("CLARIFY_TECH", "single"), Some("IMPLEMENT"));
}

#[test]
fn single_is_minimal() {
    let s = stages_for("single").unwrap();
    assert!(!s.contains(&"ANALYSE_PRODUCT"));
    assert!(s.contains(&"IMPLEMENT") && s.contains(&"DONE"));
}

#[test]
fn unknown_mode_none() {
    assert!(stages_for("turbo").is_none());
}

#[test]
fn tooling_route_skips_frontend_and_e2e() {
    let s = stages_for("tooling").unwrap();
    for gone in ["ARCHITECT_FRONTEND", "CLARIFY_ARCH_FRONTEND", "VISUAL_REVIEW", "E2E_VERIFY"] {
        assert!(!s.contains(&gone), "{gone} must not be on the tooling route");
    }
    assert!(s.contains(&"BUILD_VERIFY") && s.contains(&"TEST"));
    assert_eq!(next_stage("BUILD_VERIFY", "tooling"), Some("TEST"));
    assert_eq!(next_stage("BUILD_VERIFY", "full"), Some("VISUAL_REVIEW"));
}

#[test]
fn full_route_lists_every_stage_in_order() {
    let s = stages_for("full").unwrap();
    assert_eq!(s.len(), 17);
    assert_eq!(s[0], "INIT");
    assert_eq!(s[16], "DONE");
    let mut cur = "INIT";
    let mut walked = vec![cur];
    while let Some(n) = next_stage(cur, "full") {
        walked.push(n);
        cur = n;
    }
    assert_eq!(walked, s);
}

#[test]
fn unknown_stage_or_mode_has_no_next() {
    assert_eq!(next_stage("NOPE", "full"), None);
    assert_eq!(next_stage("INIT", "turbo"), None);
}

#[test]
fn stage_vocabulary() {
    assert!(is_valid_stage("E2E_VERIFY"));
    assert!(!is_valid_stage("e2e_verify"));
    assert!(is_valid_path_mode("tooling"));
    assert!(!is_valid_path_mode("toling"));
    assert!(is_clarify("CLARIFY_TECH"));
    assert!(!is_clarify("ANALYSE_TECH"));
    assert_eq!(stage_artifact("ANALYSE_PRODUCT"), Some("01-product.md"));
    assert_eq!(stage_artifact("E2E_VERIFY"), Some("08-e2e.md"));
    assert_eq!(stage_artifact("CLARIFY_TECH"), None);
}
