use cairnkit::clock::{format_date, Date};
use cairnkit::config::{strip_prefix_path, dot, kbrepo_path, load_config, Loaded, RawConfig, RawRepoCfg, Repo};
use cairnkit::errors::{corrupt, usage, CairnError};
use cairnkit::import_state::{
    advance_import, import_path, init_import, is_import_step, load_import, step_of,
};
use cairnkit::json::Json;
use cairnkit::knowledge::vocab::{class_rank, maturity_rank};
use cairnkit::notify::{build_message, fallback_reason, Fallback, LOCAL_FILE};

fn raw(project: &str) -> RawConfig {
    RawConfig {
        project: project.to_string(),
        domain: Some("ads".to_string()),
        repos: vec![],
        knowledge_root: Some("kb".to_string()),
        knowledge_repo: None,
        notify: None,
    }
}

#[test]
fn config_defaults_and_errors() {
    let c = load_config("/p", Loaded::Parsed(raw("demo")), None).unwrap();
    assert_eq!(c.repos.len(), 1);
    assert_eq!(c.repos[0].name, "demo");
    assert_eq!(c.repos[0].path, dot());
    assert_eq!(c.knowledge_root, "/p/kb");
    assert_eq!(c.state_path(), "/p/.cairnkit/STATE.yaml");
    assert_eq!(c.run_dir("r1"), "/p/docs/workflows/r1");
    assert_eq!(
        kbrepo_path(&c).unwrap_err().message(),
        "no knowledge_repo.local configured in cairnkit.yaml — set it to a local clone of the shared knowledge repo."
    );
    let mut r = raw("demo");
    r.knowledge_root = None;
    r.repos = vec![Repo { name: "api".to_string(), path: "svc".to_string() }];
    r.knowledge_repo = Some(RawRepoCfg { url: None, local: Some("~/team-kb".to_string()) });
    let c = load_config("/p", Loaded::Parsed(r), Some("/home/u".to_string())).unwrap();
    assert_eq!(c.knowledge_root, "/p/docs/knowledge");
    assert_eq!(c.repos[0].name, "api");
    assert_eq!(kbrepo_path(&c).unwrap(), "/home/u/team-kb");
    let e = load_config("/p", Loaded::Missing, None).unwrap_err();
    assert_eq!(e.message(), "cairnkit.yaml not found in /p. Run /team-init to initialise the project.");
    let e = load_config("/p", Loaded::Malformed("bad".to_string()), None).unwrap_err();
    assert_eq!(e.message(), "cairnkit.yaml is invalid: bad");
}

#[test]
fn error_codes() {
    assert_eq!(usage("x".to_string()).code(), 2);
    assert_eq!(corrupt("y".to_string()).code(), 4);
    let g = CairnError::Gate { message: "no".to_string(), missing: vec![] };
    assert_eq!(g.code(), 3);
    assert_eq!(g.message(), "no");
    assert_eq!(corrupt("y".to_string()).message(), "y");
}

#[test]
fn ranks() {
    assert_eq!(maturity_rank("proven"), 2);
    assert_eq!(maturity_rank("verified"), 1);
    assert_eq!(maturity_rank("draft"), 0);
    assert_eq!(maturity_rank("other"), 0);
    assert_eq!(class_rank("spatiotemporal"), 2);
    assert_eq!(class_rank("causal"), 1);
    assert_eq!(class_rank("point"), 0);
}

#[test]
fn notification_text() {
    assert_eq!(build_message("DONE", "demo", ""), "[cairnkit:demo] DONE");
    assert_eq!(build_message("DONE", "demo", "all green"), "[cairnkit:demo] DONE — all green");
}

#[test]
fn notifications_kept_locally_say_why() {
    assert_eq!(fallback_reason(&Fallback::NoWebhook), "no webhook configured");
    assert_eq!(
        fallback_reason(&Fallback::SendFailed("timeout".to_string())),
        "send failed: timeout"
    );
    assert_eq!(LOCAL_FILE, ".cairnkit/notifications.log");
}

#[test]
fn dates_as_text() {
    assert_eq!(format_date(Date { year: 2026, month: 6, day: 1 }), "2026-06-01");
    assert_eq!(format_date(Date { year: 12, month: 12, day: 31 }), "0012-12-31");
    assert_eq!(format_date(Date { year: -3, month: 1, day: 2 }), "-0003-01-02");
    assert_eq!(format_date(Date { year: 10000, month: 1, day: 2 }), "+10000-01-02");
}

fn state(step: Option<&str>, done: &[&str]) -> Json {
    let mut m = vec![];
    if let Some(s) = step {
        m.push(("step".to_string(), Json::Str(s.to_string())));
    }
    m.push((
        "done".to_string(),
        Json::Array(done.iter().map(|d| Json::Str(d.to_string())).collect()),
    ));
    Json::Object(m)
}

#[test]
fn import_step_of_a_state() {
    assert_eq!(step_of(&state(Some("knowledge-build"), &[])), "knowledge-build");
    assert_eq!(step_of(&state(None, &[])), "done");
    assert!(is_import_step("codebase-profile"));
    assert!(is_import_step("done"));
    assert!(!is_import_step("finished"));
}

#[test]
fn import_pipeline_steps() {
    assert_eq!(import_path("/p"), "/p/docs/knowledge-import/import-state.json");
    let r = init_import(false).unwrap();
    assert_eq!(r.step, "doc-collect");
    assert!(r.done.is_empty());
    assert_eq!(
        init_import(true).unwrap_err().message(),
        "an import is already in progress; use `import show`/`import advance`."
    );
    let a = advance_import(&state(Some("doc-collect"), &[])).unwrap();
    assert_eq!(a.step, "codebase-profile");
    assert_eq!(a.done, vec!["doc-collect".to_string()]);
    let b = advance_import(&state(Some("knowledge-build"), &["doc-collect", "codebase-profile"])).unwrap();
    assert_eq!(b.step, "done");
    assert_eq!(b.done.len(), 3);
    assert_eq!(
        advance_import(&state(Some("done"), &[])).unwrap_err().message(),
        "import already complete."
    );
    assert_eq!(advance_import(&state(None, &[])).unwrap_err().message(), "import already complete.");
    assert_eq!(
        load_import(Loaded::Missing).unwrap_err().message(),
        "no import in progress; start one with `import init`."
    );
    assert_eq!(
        load_import(Loaded::Malformed("eof".to_string())).unwrap_err().message(),
        "import-state.json corrupt: eof"
    );
}

#[test]
fn paths_lose_the_components_of_their_base() {
    assert_eq!(strip_prefix_path("/p/x/f.md", "/p"), Some("x/f.md".to_string()));
    assert_eq!(strip_prefix_path("/p/x/f.md", "/p/"), Some("x/f.md".to_string()));
    assert_eq!(strip_prefix_path("/p//./x/f.md", "/p"), Some("x/f.md".to_string()));
    assert_eq!(strip_prefix_path("/pq/x/f.md", "/p"), None);
    assert_eq!(strip_prefix_path("/q/x/f.md", "/p"), None);
    assert_eq!(strip_prefix_path("./docs/f.md", "."), Some("docs/f.md".to_string()));
    assert_eq!(strip_prefix_path("docs/f.md", ""), Some("docs/f.md".to_string()));
    assert_eq!(strip_prefix_path("docs/f.md", "./"), None);
    assert_eq!(strip_prefix_path("/p/x/f.md", "/"), Some("p/x/f.md".to_string()));
    assert_eq!(strip_prefix_path("a/b/f.md", "a/b"), Some("f.md".to_string()));
}
