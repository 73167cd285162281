use cairnkit::evolve::{evolve_dir, list_proposals, log_path, propose, root_dir, safe_id, transition};

fn names(xs: &[&str]) -> Vec<String> {
    xs.iter().map(|s| s.to_string()).collect()
}

#[test]
fn evolve_rejects_traversal_id() {
    assert_eq!(propose("/p", "../../evil", &vec![]).unwrap_err().code(), 2);
    assert!(safe_id("../x").is_err());
    assert_eq!(safe_id("fix-1").unwrap(), "fix-1");
    assert_eq!(
        safe_id("a b").unwrap_err().message(),
        "invalid proposal id \"a b\" (allowed: letters, digits, . _ -)"
    );
}

#[test]
fn evolve_lifecycle_and_never_touches_harness() {
    let mv = propose("/p", "fix-1", &vec![]).unwrap();
    assert!(mv.from.is_none());
    assert_eq!(mv.to, "/p/docs/workflows/evolve-log/pending/fix-1.md");
    assert_eq!(mv.log_entry, "PROPOSE fix-1");
    assert_eq!(
        propose("/p", "fix-1", &names(&["fix-1.md"])).unwrap_err().message(),
        "proposal fix-1 already exists"
    );
    let listed = list_proposals("pending", &names(&["fix-1.md", "notes.txt"])).unwrap();
    assert_eq!(listed, vec!["fix-1".to_string()]);
    let t = transition("/p", "fix-1", "applied", &names(&["fix-1.md"])).unwrap();
    assert_eq!(t.from.as_deref(), Some("/p/docs/workflows/evolve-log/pending/fix-1.md"));
    assert_eq!(t.to, "/p/docs/workflows/evolve-log/applied/fix-1.md");
    assert_eq!(t.log_entry, "APPLIED fix-1");
    for p in [&mv.to, &t.to, t.from.as_ref().unwrap()] {
        assert!(p.starts_with(&root_dir("/p")));
        assert!(!p.contains("/agents/") && !p.contains("/rules/"));
    }
    assert_eq!(
        transition("/p", "nope", "applied", &names(&["fix-1.md"])).unwrap_err().message(),
        "no pending proposal nope"
    );
}

#[test]
fn transitions_and_listing_errors() {
    assert_eq!(
        transition("/p", "x", "pending", &names(&["x.md"])).unwrap_err().message(),
        "cannot transition to \"pending\""
    );
    assert_eq!(transition("/p", "x", "deferred", &names(&["x.md"])).unwrap().log_entry, "DEFERRED x");
    assert_eq!(transition("/p", "x", "rejected", &names(&["x.md"])).unwrap().log_entry, "REJECTED x");
    assert_eq!(
        list_proposals("done", &vec![]).unwrap_err().message(),
        "unknown state \"done\"; valid: [\"pending\", \"applied\", \"rejected\", \"deferred\"]"
    );
    assert_eq!(
        list_proposals("applied", &names(&["b.md", "a.md", ".md", "c.md.bak"])).unwrap(),
        vec!["a".to_string(), "b".to_string()]
    );
    assert_eq!(evolve_dir("/p", "rejected"), "/p/docs/workflows/evolve-log/rejected");
    assert_eq!(log_path("/p"), "/p/docs/workflows/evolve-log/log.md");
}
