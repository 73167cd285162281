use cairnkit::config::{init_state, Loaded, State};
use cairnkit::errors::{usage, CairnError};
use cairnkit::gate::{check, GateFacts};
use cairnkit::stages::stage_artifact;
use cairnkit::state::{
    advance, approve_clarify, archive_collision_message, archive_path, is_paused, new_run,
    record_failure, resume, set_path_mode, set_stage, show, unblock,
};

const SP: &str = "/p/.cairnkit/STATE.yaml";
const ROOT: &str = "/p";

/// A project on which runs are driven the way the CLI drives them: STATE is read, an
/// operation makes the next STATE, and it is written back only when the operation succeeds.
struct Project {
    state: Option<State>,
    written: Vec<String>,
}

impl Project {
    fn new() -> Project {
        Project { state: None, written: vec![] }
    }

    fn loaded(&self) -> Loaded<State> {
        match &self.state {
            Some(s) => Loaded::Parsed(s.clone()),
            None => Loaded::Missing,
        }
    }

    fn apply(&mut self, r: Result<State, CairnError>) -> i32 {
        match r {
            Ok(s) => {
                self.state = Some(s);
                0
            }
            Err(e) => e.code(),
        }
    }

    fn init(&mut self, run_id: &str) -> i32 {
        if self.state.is_some() {
            return 2;
        }
        self.state = Some(init_state(run_id, "2026-06-28T10:00:00"));
        0
    }

    fn facts(&self) -> GateFacts {
        let s = self.state.as_ref().unwrap();
        let written = match stage_artifact(&s.stage) {
            Some(a) => self.written.iter().any(|w| w == a),
            None => false,
        };
        GateFacts { config_present: true, artifact_nonempty: written }
    }

    fn advance(&mut self) -> i32 {
        let f = self.facts();
        let r = advance(SP, self.loaded(), ROOT, &f);
        self.apply(r)
    }

    fn stage(&self) -> String {
        self.state.as_ref().unwrap().stage.clone()
    }

    fn paused(&self) -> bool {
        is_paused(&resume(SP, self.loaded()).unwrap())
    }
}

#[test]
fn config_show_then_init() {
    let mut p = Project::new();
    assert!(p.state.is_none());
    assert_eq!(p.init("r1"), 0);
    assert!(p.state.is_some());
    assert_eq!(p.init("r1"), 2);
}

#[test]
fn first_advance_is_intent_gate() {
    let mut p = Project::new();
    p.init("r1");
    assert_eq!(p.advance(), 0);
    assert_eq!(p.stage(), "INTENT_GATE");
}

#[test]
fn gate_refuses_missing_artifact_code_3() {
    let mut p = Project::new();
    p.init("r1");
    let r = set_stage(SP, p.loaded(), "ANALYSE_PRODUCT");
    p.apply(r);
    let f = p.facts();
    match advance(SP, p.loaded(), ROOT, &f) {
        Err(e) => {
            assert_eq!(e.code(), 3);
            assert!(e.message().contains("missing"));
            match e {
                CairnError::Gate { missing, .. } => {
                    assert_eq!(missing, vec!["docs/workflows/r1/01-product.md".to_string()])
                }
                other => panic!("unexpected error {other:?}"),
            }
        }
        Ok(_) => panic!("the missing artifact must refuse the advance"),
    }
}

#[test]
fn clarify_pause_and_approval() {
    let mut p = Project::new();
    p.init("r1");
    let r = set_stage(SP, p.loaded(), "ANALYSE_PRODUCT");
    p.apply(r);
    p.written.push("01-product.md".to_string());
    assert_eq!(p.advance(), 0);
    assert_eq!(p.stage(), "CLARIFY_PRODUCT");
    assert!(p.paused());
    assert_eq!(p.advance(), 3);
    let r = approve_clarify(SP, p.loaded());
    p.apply(r);
    assert!(!p.paused());
    assert_eq!(p.advance(), 0);
    assert_eq!(p.stage(), "ANALYSE_TECH");
}

#[test]
fn advance_past_terminal_code_2() {
    let mut p = Project::new();
    p.init("r1");
    let r = set_stage(SP, p.loaded(), "DONE");
    p.apply(r);
    assert_eq!(p.advance(), 2);
}

#[test]
fn retry_then_block_then_unblock() {
    let mut p = Project::new();
    p.init("r1");
    for _ in 0..5 {
        let r = record_failure(SP, p.loaded(), "BUILD_VERIFY");
        assert_eq!(p.apply(r), 0);
    }
    assert!(p.state.as_ref().unwrap().blocked_reason.is_some());
    let r = record_failure(SP, p.loaded(), "IMPLEMENT");
    assert_eq!(p.apply(r), 2);
    let r = unblock(SP, p.loaded());
    assert_eq!(p.apply(r), 0);
    let s = p.state.as_ref().unwrap();
    assert!(s.blocked_reason.is_none());
    assert!(s.retries.get("BUILD_VERIFY").is_none());
}

#[test]
fn set_path_mode_validation() {
    let mut p = Project::new();
    p.init("r1");
    let r = set_path_mode(SP, p.loaded(), "lite");
    assert_eq!(p.apply(r), 0);
    let r = set_path_mode(SP, p.loaded(), "tooling");
    assert_eq!(p.apply(r), 0);
    let r = set_path_mode(SP, p.loaded(), "turbo");
    assert_eq!(p.apply(r), 2);
    let r = set_path_mode(SP, p.loaded(), "toling");
    assert_eq!(p.apply(r), 2);
    assert_eq!(p.state.as_ref().unwrap().path_mode, "tooling");
}

#[test]
fn tooling_walk_skips_e2e() {
    let mut p = Project::new();
    p.init("r1");
    let artifact_for = |stage: &str| -> Option<&'static str> {
        match stage {
            "ANALYSE_PRODUCT" => Some("01-product.md"),
            "ANALYSE_TECH" => Some("02-tech.md"),
            "ARCHITECT_BACKEND" => Some("03-arch.md"),
            "IMPLEMENT" => Some("05-implement.md"),
            "BUILD_VERIFY" => Some("06-build.md"),
            "TEST" => Some("09-test.md"),
            "ARCHIVE" => Some("10-archive.md"),
            _ => None,
        }
    };
    let mut guard = 0;
    loop {
        let s = p.stage();
        if s == "DONE" {
            break;
        }
        assert_ne!(s, "E2E_VERIFY", "tooling must never enter E2E_VERIFY");
        if s == "INTENT_GATE" {
            let r = set_path_mode(SP, p.loaded(), "tooling");
            assert_eq!(p.apply(r), 0);
            assert_eq!(p.state.as_ref().unwrap().path_mode, "tooling");
        }
        if let Some(f) = artifact_for(&s) {
            p.written.push(f.to_string());
        }
        if p.paused() {
            let r = approve_clarify(SP, p.loaded());
            p.apply(r);
        }
        assert_eq!(p.advance(), 0, "advance from {s} failed");
        guard += 1;
        assert!(guard < 30, "tooling walk did not terminate");
    }
    let s = show(SP, p.loaded()).unwrap();
    assert_eq!(s.stage, "DONE");
    assert!(!s.history.contains(&"E2E_VERIFY".to_string()));
    assert!(!s.history.contains(&"VISUAL_REVIEW".to_string()));
    assert!(s.history.contains(&"BUILD_VERIFY".to_string()));
    assert!(s.history.contains(&"TEST".to_string()));
    assert_eq!(s.artifacts.get("TEST"), Some(&"docs/workflows/r1/09-test.md".to_string()));
}

#[test]
fn corrupt_state_code_4() {
    let e = show(SP, Loaded::Malformed("missing field `run_id`".to_string())).unwrap_err();
    assert_eq!(e.code(), 4);
    assert_eq!(
        e.message(),
        "STATE.yaml is corrupt: missing field `run_id`. Expected fields: run_id, stage, path_mode, history, artifacts, retries, pending_clarify, blocked_reason, updated_at."
    );
    let mut s = init_state("r1", "2026-06-28T10:00:00");
    s.stage = "NOWHERE".to_string();
    let e = show(SP, Loaded::Parsed(s)).unwrap_err();
    assert_eq!(e.code(), 4);
    assert_eq!(e.message(), "STATE.yaml has an unknown stage \"NOWHERE\".");
    let e = show(SP, Loaded::Missing).unwrap_err();
    assert_eq!(e.message(), "STATE.yaml not found at /p/.cairnkit/STATE.yaml. Start a run with /flow-run.");
}

#[test]
fn new_run_fresh_when_no_state() {
    let (s, archived) = new_run(SP, Loaded::Missing, "r1", false, "2026-06-28T10:00:00").unwrap();
    assert!(archived.is_none());
    assert_eq!(s.updated_at, "2026-06-28T10:00:00");
    assert_eq!(s.stage, "INIT");
    assert_eq!(s.run_id, "r1");
}

#[test]
fn new_run_archives_on_done() {
    let mut old = init_state("old", "2026-06-28T10:00:00");
    old.stage = "DONE".to_string();
    let (s, archived) = new_run(SP, Loaded::Parsed(old), "r2", false, "2026-06-28T10:00:00").unwrap();
    assert_eq!(archived.as_deref(), Some("old"));
    assert_eq!(s.stage, "INIT");
    assert_eq!(s.run_id, "r2");
}

#[test]
fn new_run_refuses_in_progress_without_force() {
    let mut old = init_state("old", "2026-06-28T10:00:00");
    old.stage = "IMPLEMENT".to_string();
    let err = new_run(SP, Loaded::Parsed(old), "r2", false, "2026-06-28T10:00:00").unwrap_err();
    assert_eq!(err.code(), 2);
    assert_eq!(err.message(), "run \"old\" is in progress at IMPLEMENT; pass --force to reset.");
}

#[test]
fn new_run_force_resets_in_progress() {
    let mut old = init_state("old", "2026-06-28T10:00:00");
    old.stage = "IMPLEMENT".to_string();
    let (s, archived) = new_run(SP, Loaded::Parsed(old), "r2", true, "2026-06-28T10:00:00").unwrap();
    assert_eq!(archived.as_deref(), Some("old"));
    assert_eq!(s.stage, "INIT");
    assert_eq!(s.run_id, "r2");
}

#[test]
fn new_run_corrupt_state_archives_and_proceeds() {
    let (s, archived) =
        new_run(SP, Loaded::Malformed("not valid".to_string()), "r2", false, "2026-06-28T10:00:00").unwrap();
    assert_eq!(archived.as_deref(), Some("unknown"));
    assert_eq!(s.stage, "INIT");
    assert_eq!(s.run_id, "r2");
}

#[test]
fn state_new_refuses_in_progress_without_force() {
    let mut p = Project::new();
    p.init("r1");
    let r = set_stage(SP, p.loaded(), "ANALYSE_PRODUCT");
    p.apply(r);
    assert_eq!(new_run(SP, p.loaded(), "r2", false, "2026-06-28T10:00:00").unwrap_err().code(), 2);
    assert_eq!(show(SP, p.loaded()).unwrap().run_id, "r1");
    let (s, _) = new_run(SP, p.loaded(), "r2", true, "2026-06-28T10:00:00").unwrap();
    assert_eq!(s.stage, "INIT");
    assert_eq!(s.run_id, "r2");
}

#[test]
fn state_new_archives_after_done() {
    let mut p = Project::new();
    p.init("r1");
    let r = set_stage(SP, p.loaded(), "DONE");
    assert_eq!(p.apply(r), 0);
    let (s, archived) = new_run(SP, p.loaded(), "r2", false, "2026-06-28T10:00:00").unwrap();
    assert_eq!(s.stage, "INIT");
    assert_eq!(s.run_id, "r2");
    assert_eq!(archived.as_deref(), Some("r1"));
}

#[test]
fn new_run_archive_collision_errors() {
    let c = cairnkit::config::load_config(
        "/p",
        Loaded::Parsed(cairnkit::config::RawConfig {
            project: "demo".to_string(),
            domain: None,
            repos: vec![],
            knowledge_root: None,
            knowledge_repo: None,
            notify: None,
        }),
        None,
    )
    .unwrap();
    let mut old = init_state("old", "2026-06-28T10:00:00");
    old.stage = "DONE".to_string();
    let (_, archived) = new_run(SP, Loaded::Parsed(old), "r2", false, "2026-06-28T10:00:00").unwrap();
    let target = archive_path(&c, &archived.unwrap(), "20260628T101010");
    assert_eq!(target, "/p/.cairnkit/STATE.old.20260628T101010.yaml");
    let err = usage(archive_collision_message(&target));
    assert_eq!(err.code(), 2);
    assert_eq!(
        err.message(),
        "archive target /p/.cairnkit/STATE.old.20260628T101010.yaml already exists; not clobbering."
    );
}

#[test]
fn archive_names() {
    let c = cairnkit::config::load_config(
        "/p",
        Loaded::Parsed(cairnkit::config::RawConfig {
            project: "demo".to_string(),
            domain: None,
            repos: vec![],
            knowledge_root: None,
            knowledge_repo: None,
            notify: None,
        }),
        None,
    )
    .unwrap();
    assert_eq!(
        archive_path(&c, "old", "20260628T101010"),
        "/p/.cairnkit/STATE.old.20260628T101010.yaml"
    );
    assert_eq!(
        archive_collision_message("/p/x"),
        "archive target /p/x already exists; not clobbering."
    );
}

#[test]
fn gate_answers_directly() {
    let s = init_state("r1", "2026-06-28T10:00:00");
    let r = check("INTENT_GATE", &s, ROOT, &GateFacts { config_present: false, artifact_nonempty: false });
    assert!(!r.ok);
    assert_eq!(r.missing, vec!["cairnkit.yaml".to_string()]);
    assert_eq!(r.message, "cairnkit.yaml missing — run /team-init first.");
    let r = check("INTENT_GATE", &s, ROOT, &GateFacts { config_present: true, artifact_nonempty: false });
    assert!(r.ok);
    assert_eq!(r.message, "ok");
    assert_eq!(r.stage, "INTENT_GATE");
}

#[test]
fn failures_only_on_verify_stages_and_blocked_runs_stay_blocked() {
    let mut p = Project::new();
    p.init("r1");
    for _ in 0..4 {
        let r = record_failure(SP, p.loaded(), "E2E_VERIFY");
        p.apply(r);
    }
    assert!(p.state.as_ref().unwrap().blocked_reason.is_none());
    assert_eq!(p.state.as_ref().unwrap().retries.get("E2E_VERIFY"), Some(&4));
    let r = record_failure(SP, p.loaded(), "E2E_VERIFY");
    p.apply(r);
    assert!(p.state.as_ref().unwrap().blocked_reason.is_some());
    assert_eq!(p.advance(), 3);
}

#[test]
fn absolute_run_ids_are_recorded_relative_to_the_root() {
    let mut s = init_state("/p/x", "2026-06-28T10:00:00");
    s.stage = "ANALYSE_PRODUCT".to_string();
    let done = GateFacts { config_present: true, artifact_nonempty: true };
    let t = advance(SP, Loaded::Parsed(s.clone()), ROOT, &done).unwrap();
    assert_eq!(t.artifacts.get("ANALYSE_PRODUCT"), Some(&"x/01-product.md".to_string()));
    let missing = GateFacts { config_present: true, artifact_nonempty: false };
    let r = check("CLARIFY_PRODUCT", &s, ROOT, &missing);
    assert_eq!(r.missing, vec!["x/01-product.md".to_string()]);

    let mut elsewhere = init_state("/q/x", "2026-06-28T10:00:00");
    elsewhere.stage = "ANALYSE_PRODUCT".to_string();
    let t = advance(SP, Loaded::Parsed(elsewhere.clone()), ROOT, &done).unwrap();
    assert_eq!(t.artifacts.get("ANALYSE_PRODUCT"), Some(&String::new()));
    let r = check("CLARIFY_PRODUCT", &elsewhere, ROOT, &missing);
    assert_eq!(r.missing, vec!["/q/x/01-product.md".to_string()]);

    let mut rel = init_state("r1", "2026-06-28T10:00:00");
    rel.stage = "ANALYSE_PRODUCT".to_string();
    let t = advance(SP, Loaded::Parsed(rel), ".", &done).unwrap();
    assert_eq!(
        t.artifacts.get("ANALYSE_PRODUCT"),
        Some(&"docs/workflows/r1/01-product.md".to_string())
    );
}

#[test]
fn failing_a_stage_that_is_not_retried_is_a_usage_error_whatever_its_count() {
    let mut s = init_state("r1", "2026-06-28T10:00:00");
    s.retries.insert("IMPLEMENT".to_string(), u32::MAX);
    let e = record_failure(SP, Loaded::Parsed(s), "IMPLEMENT").unwrap_err();
    assert_eq!(e.code(), 2);
    assert_eq!(
        e.message(),
        "IMPLEMENT is not a retryable verify stage [\"BUILD_VERIFY\", \"E2E_VERIFY\"]."
    );
}
