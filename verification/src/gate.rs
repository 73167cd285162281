//! Stage admission gate.
//!
//! `check(next_stage, state, root, facts)` answers: may the run move current -> next_stage?
//! Path-mode agnostic: allowed only when not blocked, any CLARIFY pause is approved, and the
//! current stage's produced artifact exists and is non-empty.
use crate::config::{artifact_path, artifact_path_exec, strip_prefix_path, strip_prefix_spec, State};
use crate::stages::{artifact_for, is_clarify, is_clarify_name, stage_artifact};
use crate::text::{concat, concat3, str_eq, string_of};
use vstd::prelude::*;

verus! {

/// The answer of the admission check.
#[derive(Debug)]
pub struct GateResult {
    pub ok: bool,
    pub stage: String,
    pub missing: Vec<String>,
    pub message: String,
}

/// What the disk says when the admission check is made: whether `cairnkit.yaml` exists in the project
/// root, and whether the artifact of the current stage exists with a non-zero length.
#[derive(Debug, Clone, Copy)]
pub struct GateFacts {
    pub config_present: bool,
    pub artifact_nonempty: bool,
}

/// The path of a run artifact as it is reported: relative to the project root `root` when it
/// lies under it, else the path itself (as when an absolute run id points elsewhere).
pub open spec fn artifact_rel(root: Seq<char>, run_id: Seq<char>, artifact: Seq<char>) -> Seq<char> {
    match strip_prefix_spec(artifact_path(root, run_id, artifact), root) {
        Some(x) => x,
        None => artifact_path(root, run_id, artifact),
    }
}

pub fn artifact_rel_path(root: &str, run_id: &str, artifact: &str) -> (r: String)
    ensures
        r@ == artifact_rel(root@, run_id@, artifact@),
{
    let p = artifact_path_exec(root, run_id, artifact);
    match strip_prefix_path(p.as_str(), root) {
        Some(x) => x,
        None => p,
    }
}

/// The views of a sequence of strings.
pub open spec fn string_views(v: Seq<String>) -> Seq<Seq<char>> {
    v.map_values(|x: String| x@)
}

/// The answer of the admission check as a triple: allowed, message, missing paths.
pub open spec fn gate_spec(next: Seq<char>, s: State, root: Seq<char>, facts: GateFacts) -> (bool, Seq<char>, Seq<
    Seq<char>,
>) {
    let current = s.stage@;
    if s.blocked_reason is Some {
        (false, "run is blocked: "@ + s.blocked_reason->0@, seq![])
    } else if current == "INIT"@ && next == "INTENT_GATE"@ {
        if facts.config_present {
            (true, "ok"@, seq![])
        } else {
            (false, "cairnkit.yaml missing — run /team-init first."@, seq!["cairnkit.yaml"@])
        }
    } else if is_clarify_name(current) && s.pending_clarify is Some {
        (
            false,
            "CLARIFY not yet approved (pending: "@ + s.pending_clarify->0@
                + "). Approve with `cairn state approve-clarify`."@,
            seq![],
        )
    } else if artifact_for(current) is Some && !facts.artifact_nonempty {
        let rel = artifact_rel(root, s.run_id@, artifact_for(current)->0);
        (
            false,
            "Cannot leave "@ + current + ": its artifact is missing/empty: "@ + rel,
            seq![rel],
        )
    } else {
        (true, "ok"@, seq![])
    }
}

/// May the run move from its current stage to `next_stage`? `root` is the project root.
pub fn check(next_stage: &str, state: &State, root: &str, facts: &GateFacts) -> (r: GateResult)
    ensures
        r.stage@ == next_stage@,
        r.ok == gate_spec(next_stage@, *state, root@, *facts).0,
        r.message@ == gate_spec(next_stage@, *state, root@, *facts).1,
        string_views(r.missing@) == gate_spec(next_stage@, *state, root@, *facts).2,
{
    let current = state.stage.as_str();
    if let Some(reason) = &state.blocked_reason {
        return GateResult {
            ok: false,
            stage: string_of(next_stage),
            missing: Vec::new(),
            message: concat("run is blocked: ", reason.as_str()),
        };
    }
    if str_eq(current, "INIT") && str_eq(next_stage, "INTENT_GATE") {
        if facts.config_present {
            return GateResult {
                ok: true,
                stage: string_of(next_stage),
                missing: Vec::new(),
                message: string_of("ok"),
            };
        }
        let mut missing = Vec::new();
        missing.push(string_of("cairnkit.yaml"));
        assert(string_views(missing@) =~= seq!["cairnkit.yaml"@]);
        return GateResult {
            ok: false,
            stage: string_of(next_stage),
            missing,
            message: string_of("cairnkit.yaml missing — run /team-init first."),
        };
    }
    if is_clarify(current) {
        if let Some(p) = &state.pending_clarify {
            return GateResult {
                ok: false,
                stage: string_of(next_stage),
                missing: Vec::new(),
                message: concat3(
                    "CLARIFY not yet approved (pending: ",
                    p.as_str(),
                    "). Approve with `cairn state approve-clarify`.",
                ),
            };
        }
    }
    if let Some(produced) = stage_artifact(current) {
        if !facts.artifact_nonempty {
            let rel = artifact_rel_path(root, state.run_id.as_str(), produced);
            let m1 = concat3("Cannot leave ", current, ": its artifact is missing/empty: ");
            let message = concat(m1.as_str(), rel.as_str());
            let mut missing = Vec::new();
            missing.push(rel);
            assert(string_views(missing@) =~= seq![artifact_rel(root@, state.run_id@, produced@)]);
            return GateResult { ok: false, stage: string_of(next_stage), missing, message };
        }
    }
    GateResult { ok: true, stage: string_of(next_stage), missing: Vec::new(), message: string_of("ok") }
}

} // verus!
