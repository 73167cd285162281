use cairnkit::intent::{classify, classify_lowered};

#[test]
fn routes() {
    // Short single-point change → single.
    assert_eq!(classify("fix a typo in the README").path_mode, "single");
    // Backend and frontend work both default to full.
    assert_eq!(
        classify("add a coupon endpoint to the order service with rate limiting").path_mode,
        "full"
    );
    assert_eq!(
        classify("build a new checkout page UI component with a styled button").path_mode,
        "full"
    );
}

#[test]
fn intent_classify() {
    assert_eq!(classify("fix a typo").path_mode, "single");
}

#[test]
fn hint_in_a_long_request_still_routes_full() {
    let long = "please rename the variable in the parser and then also refactor the whole module tree";
    assert!(long.split_whitespace().count() > 12);
    let r = classify(long);
    assert_eq!(r.path_mode, "full");
    assert_eq!(
        r.reason,
        "default to full pipeline; the orchestrator refines to lite/single by judgment"
    );
}

#[test]
fn hints_match_after_lowercasing() {
    let r = classify("Bump VERSION to 2.1");
    assert_eq!(r.path_mode, "single");
    assert_eq!(r.reason, "short single-point change (keyword + brevity)");
}

#[test]
fn twelve_words_is_still_short() {
    let twelve = "tweak a b c d e f g h i j k";
    assert_eq!(twelve.split_whitespace().count(), 12);
    assert_eq!(classify(twelve).path_mode, "single");
    let thirteen = "tweak a b c d e f g h i j k l";
    assert_eq!(classify(thirteen).path_mode, "full");
}

#[test]
fn empty_request_is_full() {
    assert_eq!(classify("").path_mode, "full");
}

#[test]
fn lowercased_requests_route_by_words_and_hints() {
    assert_eq!(classify_lowered("fix a typo").path_mode, "single");
    assert_eq!(classify_lowered("fix a TYPO").path_mode, "full");
    assert_eq!(classify_lowered("bump the version").path_mode, "single");
    assert_eq!(classify_lowered("add a new endpoint").path_mode, "full");
    assert_eq!(classify("Fix A TYPO").path_mode, "single");
}
