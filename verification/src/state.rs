//! The state machine of a run.
//!
//! Each operation takes what reading STATE.yaml gave and returns the state to save (or the
//! error to report); the caller reads and writes the file.
use crate::config::{
    artifact_path, artifact_path_exec, strip_prefix_path, strip_prefix_spec, init_state, is_fresh, load_error, load_state, opt_string_view, path_join, Config, Loaded,
    State,
};
use crate::errors::{usage, CairnError};
use crate::gate::{check, gate_spec, string_views, GateFacts};
use crate::stages::{
    artifact_for, is_clarify, is_clarify_name, is_retry_stage, is_retry_stage_name,
    is_valid_path_mode, is_valid_stage, lemma_clarify_stages, lemma_names_parse, next_stage,
    next_stage_spec, parse_mode, parse_stage, stage_artifact, stage_name, Stage,
    PathMode, RETRY_CAP,
};
use crate::text::{
    append, concat, concat3, debug_str, debug_text, dec, dec_string, str_eq, string_of, to_chars,
};
use vstd::prelude::*;

verus! {

/// The text views of a map whose values are strings.
pub open spec fn map_views(m: Map<Seq<char>, String>) -> Map<Seq<char>, Seq<char>> {
    m.map_values(|v: String| v@)
}

/// The artifact path an advance records: relative to the project root `root`, or empty when
/// the artifact does not lie under it.
pub open spec fn recorded_rel(root: Seq<char>, run_id: Seq<char>, artifact: Seq<char>) -> Seq<char> {
    match strip_prefix_spec(artifact_path(root, run_id, artifact), root) {
        Some(x) => x,
        None => Seq::empty(),
    }
}

/// The pause message of a CLARIFY stage entered on route `mode`.
pub open spec fn pause_message(clarify: Seq<char>, mode: Seq<char>) -> Seq<char> {
    "Awaiting approval before "@ + match next_stage_spec(clarify, mode) {
        Some(a) => stage_name(a),
        None => "DONE"@,
    }
}

/// `t` is what advancing `s` to stage `n` records: the current stage is appended to the
/// history, its artifact path recorded, the pause set exactly when `n` is a CLARIFY stage,
/// and the stage moved on; nothing else changes.
pub open spec fn advanced(root: Seq<char>, s: State, n: Stage, t: State) -> bool {
    &&& t.stage@ == stage_name(n)
    &&& t.history@ == s.history@.push(s.stage)
    &&& map_views(t.artifacts@) == match artifact_for(s.stage@) {
        Some(p) => map_views(s.artifacts@).insert(s.stage@, recorded_rel(root, s.run_id@, p)),
        None => map_views(s.artifacts@),
    }
    &&& opt_string_view(t.pending_clarify) == if is_clarify_name(stage_name(n)) {
        Some(pause_message(stage_name(n), s.path_mode@))
    } else {
        None::<Seq<char>>
    }
    &&& t.run_id == s.run_id
    &&& t.path_mode == s.path_mode
    &&& t.retries@ == s.retries@
    &&& t.blocked_reason == s.blocked_reason
    &&& t.updated_at == s.updated_at
}

/// Moves the run to the next stage of its route, if its admission check allows it.
///
/// `root` is the project root and `facts` what the disk says for the admission check (see
/// `GateFacts`).
pub fn advance(state_path: &str, loaded: Loaded<State>, root: &str, facts: &GateFacts) -> (r: Result<
    State,
    CairnError,
>)
    ensures
        match load_error(state_path@, loaded) {
            Some(m) => r matches Err(CairnError::StateCorrupt(e)) && e@ == m,
            None => {
                let s = loaded->Parsed_0;
                match next_stage_spec(s.stage@, s.path_mode@) {
                    None => r matches Err(CairnError::Usage(e)) && e@ == s.stage@
                        + " is the terminal stage; nothing to advance to."@,
                    Some(n) => {
                        let g = gate_spec(stage_name(n), s, root@, *facts);
                        if g.0 {
                            r matches Ok(t) && advanced(root@, s, n, t)
                        } else {
                            r matches Err(CairnError::Gate { message, missing }) && message@ == g.1
                                && string_views(missing@) == g.2
                        }
                    },
                }
            },
        },
{
    let ghost s0 = loaded->Parsed_0;
    let state = load_state(state_path, loaded)?;
    let nxt = match next_stage(state.stage.as_str(), state.path_mode.as_str()) {
        Some(s) => s,
        None => {
            return Err(
                usage(concat(state.stage.as_str(), " is the terminal stage; nothing to advance to.")),
            );
        },
    };
    let ghost n = next_stage_spec(s0.stage@, s0.path_mode@)->0;
    let result = check(nxt, &state, root, facts);
    if !result.ok {
        return Err(CairnError::Gate { message: result.message, missing: result.missing });
    }
    let mut new = state;
    let current = new.stage.clone();
    new.history.push(current.clone());
    if let Some(produced) = stage_artifact(current.as_str()) {
        let path = artifact_path_exec(root, new.run_id.as_str(), produced);
        let rel = match strip_prefix_path(path.as_str(), root) {
            Some(x) => x,
            None => String::new(),
        };
        new.artifacts.insert(current.clone(), rel);
    }
    if is_clarify(nxt) {
        let after = match next_stage(nxt, new.path_mode.as_str()) {
            Some(a) => a,
            None => "DONE",
        };
        new.pending_clarify = Some(concat("Awaiting approval before ", after));
    } else {
        new.pending_clarify = None;
    }
    new.stage = string_of(nxt);
    proof {
        assert(map_views(new.artifacts@) =~= match artifact_for(s0.stage@) {
            Some(p) => map_views(s0.artifacts@).insert(s0.stage@, recorded_rel(root@, s0.run_id@, p)),
            None => map_views(s0.artifacts@),
        });
    }
    Ok(new)
}

/// The failure count and the blocked state after one more failure of a verify stage.
pub open spec fn failure_outcome(count: nat) -> (nat, bool) {
    (count + 1, count + 1 >= RETRY_CAP)
}

/// The number of recorded failures of a stage.
pub open spec fn retry_count(s: State, stage: Seq<char>) -> nat {
    if s.retries@.contains_key(stage) {
        s.retries@[stage] as nat
    } else {
        0
    }
}

/// Records one failure of a retryable verify stage; at the retry cap the run is blocked.
pub fn record_failure(state_path: &str, loaded: Loaded<State>, stage: &str) -> (r: Result<
    State,
    CairnError,
>)
    requires
        is_retry_stage(stage@) ==> (loaded matches Loaded::Parsed(s) ==> retry_count(s, stage@)
            < u32::MAX),
    ensures
        !is_retry_stage(stage@) ==> (r matches Err(CairnError::Usage(e)) && e@ == stage@
            + " is not a retryable verify stage [\"BUILD_VERIFY\", \"E2E_VERIFY\"]."@),
        is_retry_stage(stage@) ==> match load_error(state_path@, loaded) {
            Some(m) => r matches Err(CairnError::StateCorrupt(e)) && e@ == m,
            None => {
                let s = loaded->Parsed_0;
                let (n, blocked) = failure_outcome(retry_count(s, stage@));
                r matches Ok(t) && {
                    &&& t.retries@ == s.retries@.insert(stage@, n as u32)
                    &&& opt_string_view(t.blocked_reason) == if blocked {
                        Some(stage@ + " failed "@ + dec(n) + " times (cap 5)"@)
                    } else {
                        None::<Seq<char>>
                    }
                    &&& t.run_id == s.run_id
                    &&& t.stage == s.stage
                    &&& t.path_mode == s.path_mode
                    &&& t.history == s.history
                    &&& t.artifacts@ == s.artifacts@
                    &&& t.pending_clarify == s.pending_clarify
                    &&& t.updated_at == s.updated_at
                }
            },
        },
{
    if !is_retry_stage_name(stage) {
        return Err(
            usage(concat(stage, " is not a retryable verify stage [\"BUILD_VERIFY\", \"E2E_VERIFY\"].")),
        );
    }
    let mut new = load_state(state_path, loaded)?;
    let prev: u32 = match new.retries.get(stage) {
        Some(n) => *n,
        None => 0,
    };
    let count = prev + 1;
    new.retries.insert(string_of(stage), count);
    if count >= RETRY_CAP {
        let c = dec_string(count as u64);
        let mut m = concat3(stage, " failed ", c.as_str());
        append(&mut m, " times (cap 5)");
        new.blocked_reason = Some(m);
    } else {
        new.blocked_reason = None;
    }
    Ok(new)
}

/// Chooses the route of the run.
pub fn set_path_mode(state_path: &str, loaded: Loaded<State>, path_mode: &str) -> (r: Result<
    State,
    CairnError,
>)
    ensures
        parse_mode(path_mode@) is None ==> (r matches Err(CairnError::Usage(e)) && e@
            == "Unknown path mode "@ + debug_text(path_mode@)
            + ". Valid: [\"full\", \"lite\", \"single\", \"tooling\"]."@),
        parse_mode(path_mode@) is Some ==> match load_error(state_path@, loaded) {
            Some(m) => r matches Err(CairnError::StateCorrupt(e)) && e@ == m,
            None => {
                let s = loaded->Parsed_0;
                r matches Ok(t) && {
                    &&& t.path_mode@ == path_mode@
                    &&& t.run_id == s.run_id
                    &&& t.stage == s.stage
                    &&& t.history == s.history
                    &&& t.artifacts@ == s.artifacts@
                    &&& t.retries@ == s.retries@
                    &&& t.pending_clarify == s.pending_clarify
                    &&& t.blocked_reason == s.blocked_reason
                    &&& t.updated_at == s.updated_at
                }
            },
        },
{
    if !is_valid_path_mode(path_mode) {
        let d = debug_str(path_mode);
        return Err(
            usage(concat3("Unknown path mode ", d.as_str(), ". Valid: [\"full\", \"lite\", \"single\", \"tooling\"].")),
        );
    }
    let mut new = load_state(state_path, loaded)?;
    new.path_mode = string_of(path_mode);
    Ok(new)
}

/// Clears a CLARIFY pause; nothing else changes.
pub fn approve_clarify(state_path: &str, loaded: Loaded<State>) -> (r: Result<State, CairnError>)
    ensures
        match load_error(state_path@, loaded) {
            Some(m) => r matches Err(CairnError::StateCorrupt(e)) && e@ == m,
            None => {
                let s = loaded->Parsed_0;
                r matches Ok(t) && {
                    &&& t.pending_clarify is None
                    &&& t.run_id == s.run_id
                    &&& t.stage == s.stage
                    &&& t.path_mode == s.path_mode
                    &&& t.history == s.history
                    &&& t.artifacts@ == s.artifacts@
                    &&& t.retries@ == s.retries@
                    &&& t.blocked_reason == s.blocked_reason
                    &&& t.updated_at == s.updated_at
                }
            },
        },
{
    let mut new = load_state(state_path, loaded)?;
    new.pending_clarify = None;
    Ok(new)
}

/// Moves the run to any known stage, recording the stage it leaves in the history.
pub fn set_stage(state_path: &str, loaded: Loaded<State>, stage: &str) -> (r: Result<
    State,
    CairnError,
>)
    ensures
        parse_stage(stage@) is None ==> (r matches Err(CairnError::Usage(e)) && e@
            == "Unknown stage "@ + debug_text(stage@)
            + ". Valid stages: INIT, INTENT_GATE, ANALYSE_PRODUCT, CLARIFY_PRODUCT, ANALYSE_TECH, CLARIFY_TECH, ARCHITECT_BACKEND, CLARIFY_ARCH_BACKEND, ARCHITECT_FRONTEND, CLARIFY_ARCH_FRONTEND, IMPLEMENT, BUILD_VERIFY, VISUAL_REVIEW, E2E_VERIFY, TEST, ARCHIVE, DONE."@),
        parse_stage(stage@) is Some ==> match load_error(state_path@, loaded) {
            Some(m) => r matches Err(CairnError::StateCorrupt(e)) && e@ == m,
            None => {
                let s = loaded->Parsed_0;
                r matches Ok(t) && {
                    &&& t.stage@ == stage@
                    &&& t.history@ == s.history@.push(s.stage)
                    &&& t.run_id == s.run_id
                    &&& t.path_mode == s.path_mode
                    &&& t.artifacts@ == s.artifacts@
                    &&& t.retries@ == s.retries@
                    &&& t.pending_clarify == s.pending_clarify
                    &&& t.blocked_reason == s.blocked_reason
                    &&& t.updated_at == s.updated_at
                }
            },
        },
{
    if !is_valid_stage(stage) {
        let d = debug_str(stage);
        return Err(
            usage(
                concat3(
                    "Unknown stage ",
                    d.as_str(),
                    ". Valid stages: INIT, INTENT_GATE, ANALYSE_PRODUCT, CLARIFY_PRODUCT, ANALYSE_TECH, CLARIFY_TECH, ARCHITECT_BACKEND, CLARIFY_ARCH_BACKEND, ARCHITECT_FRONTEND, CLARIFY_ARCH_FRONTEND, IMPLEMENT, BUILD_VERIFY, VISUAL_REVIEW, E2E_VERIFY, TEST, ARCHIVE, DONE.",
                ),
            ),
        );
    }
    let mut new = load_state(state_path, loaded)?;
    let prev = new.stage.clone();
    new.history.push(prev);
    new.stage = string_of(stage);
    Ok(new)
}

/// Clears a block and resets every retry counter.
pub fn unblock(state_path: &str, loaded: Loaded<State>) -> (r: Result<State, CairnError>)
    ensures
        match load_error(state_path@, loaded) {
            Some(m) => r matches Err(CairnError::StateCorrupt(e)) && e@ == m,
            None => {
                let s = loaded->Parsed_0;
                r matches Ok(t) && {
                    &&& t.blocked_reason is None
                    &&& t.retries@ == Map::<Seq<char>, u32>::empty()
                    &&& t.run_id == s.run_id
                    &&& t.stage == s.stage
                    &&& t.path_mode == s.path_mode
                    &&& t.history == s.history
                    &&& t.artifacts@ == s.artifacts@
                    &&& t.pending_clarify == s.pending_clarify
                    &&& t.updated_at == s.updated_at
                }
            },
        },
{
    let mut new = load_state(state_path, loaded)?;
    new.blocked_reason = None;
    new.retries.clear();
    Ok(new)
}

/// The state to resume from: the checked STATE as read.
pub fn resume(state_path: &str, loaded: Loaded<State>) -> (r: Result<State, CairnError>)
    ensures
        match load_error(state_path@, loaded) {
            Some(m) => r matches Err(CairnError::StateCorrupt(e)) && e@ == m,
            None => r == Ok::<State, CairnError>(loaded->Parsed_0),
        },
{
    load_state(state_path, loaded)
}

/// The state to show: the checked STATE as read.
pub fn show(state_path: &str, loaded: Loaded<State>) -> (r: Result<State, CairnError>)
    ensures
        match load_error(state_path@, loaded) {
            Some(m) => r matches Err(CairnError::StateCorrupt(e)) && e@ == m,
            None => r == Ok::<State, CairnError>(loaded->Parsed_0),
        },
{
    load_state(state_path, loaded)
}

/// Whether the run waits for a CLARIFY approval.
pub fn is_paused(state: &State) -> (r: bool)
    ensures
        r == state.pending_clarify is Some,
{
    state.pending_clarify.is_some()
}

/// Starts a fresh run `run_id`, archiving the existing STATE if there is one.
///
/// Returns the fresh state and, when the existing STATE must first be archived, the label
/// of the archive (`STATE.<label>.<timestamp>.yaml`): the old run id, or `unknown` for a
/// corrupt STATE. An in-progress run (stage other than DONE) is refused unless `force`. The
/// fresh state is stamped `updated_at`.
pub fn new_run(
    state_path: &str,
    loaded: Loaded<State>,
    run_id: &str,
    force: bool,
    updated_at: &str,
) -> (r: Result<
    (State, Option<String>),
    CairnError,
>)
    ensures
        match loaded {
            Loaded::Missing => r matches Ok((t, a)) && is_fresh(t, run_id@) && t.updated_at@ == updated_at@ && a is None,
            _ => match load_error(state_path@, loaded) {
                Some(_) => r matches Ok((t, a)) && is_fresh(t, run_id@) && t.updated_at@ == updated_at@ && opt_string_view(a)
                    == Some("unknown"@),
                None => {
                    let old = loaded->Parsed_0;
                    if old.stage@ == "DONE"@ || force {
                        r matches Ok((t, a)) && is_fresh(t, run_id@) && t.updated_at@ == updated_at@ && a == Some(old.run_id)
                    } else {
                        r matches Err(CairnError::Usage(e)) && e@ == "run "@ + debug_text(
                            old.run_id@,
                        ) + " is in progress at "@ + old.stage@ + "; pass --force to reset."@
                    }
                },
            },
        },
{
    if let Loaded::Missing = loaded {
        return Ok((init_state(run_id, updated_at), None));
    }
    match load_state(state_path, loaded) {
        Ok(old) => {
            if str_eq(old.stage.as_str(), "DONE") {
                Ok((init_state(run_id, updated_at), Some(old.run_id)))
            } else if !force {
                let d = debug_str(old.run_id.as_str());
                let mut m = concat3("run ", d.as_str(), " is in progress at ");
                append(&mut m, old.stage.as_str());
                append(&mut m, "; pass --force to reset.");
                Err(usage(m))
            } else {
                Ok((init_state(run_id, updated_at), Some(old.run_id)))
            }
        },
        Err(_) => Ok((init_state(run_id, updated_at), Some(string_of("unknown")))),
    }
}

/// The file an existing STATE is archived to: `STATE.<label>.<timestamp>.yaml` beside it.
pub fn archive_path(config: &Config, label: &str, timestamp: &str) -> (r: String)
    ensures
        r@ == path_join(
            path_join(config.root@, ".cairnkit"@),
            "STATE."@ + label@ + "."@ + timestamp@ + ".yaml"@,
        ),
{
    let dir = crate::config::join_path(config.root.as_str(), ".cairnkit");
    let mut name = concat3("STATE.", label, ".");
    append(&mut name, timestamp);
    append(&mut name, ".yaml");
    crate::config::join_path(dir.as_str(), name.as_str())
}

/// The message when an archive target is already taken.
pub fn archive_collision_message(target: &str) -> (r: String)
    ensures
        r@ == "archive target "@ + target@ + " already exists; not clobbering."@,
{
    concat3("archive target ", target, " already exists; not clobbering.")
}

/// Leaving a blocked run is always refused by the admission check.
pub proof fn law_blocked_run_cannot_advance(n: Seq<char>, s: State, root: Seq<char>, f: GateFacts)
    requires
        s.blocked_reason is Some,
    ensures
        !gate_spec(n, s, root, f).0,
{
}

/// Gates are hard: a producing stage cannot be left while its artifact is missing or empty.
pub proof fn law_missing_artifact_blocks_leaving(n: Seq<char>, s: State, root: Seq<char>, f: GateFacts)
    requires
        artifact_for(s.stage@) is Some,
        !f.artifact_nonempty,
    ensures
        !gate_spec(n, s, root, f).0,
{
    if s.stage@ == "INIT"@ {
        lemma_names_parse(Stage::Init, PathMode::Full);
        assert(parse_stage(s.stage@) == Some(Stage::Init));
    }
}

/// A CLARIFY stage waiting for approval cannot be left; once approved (and not blocked) it can.
pub proof fn law_clarify_pause(n: Seq<char>, s: State, root: Seq<char>, f: GateFacts)
    requires
        is_clarify_name(s.stage@),
        s.blocked_reason is None,
    ensures
        s.pending_clarify is Some ==> !gate_spec(n, s, root, f).0,
        s.pending_clarify is None && parse_stage(s.stage@) is Some ==> gate_spec(n, s, root, f).0,
{
    crate::stages::reveal_stage_names();
    if s.stage@ == "INIT"@ {
        assert(s.stage@[0] == 'I');
        assert(!"CLARIFY"@.is_prefix_of(s.stage@));
    }
    if let Some(st) = parse_stage(s.stage@) {
        crate::stages::lemma_parse_sound(s.stage@);
        lemma_clarify_stages(st);
    }
}

/// Entering a CLARIFY stage pauses the run; entering any other stage leaves it unpaused.
pub proof fn law_advance_pauses_exactly_at_clarify(root: Seq<char>, s: State, n: Stage, t: State)
    requires
        advanced(root, s, n, t),
    ensures
        t.pending_clarify is Some <==> (n == Stage::ClarifyProduct || n == Stage::ClarifyTech || n
            == Stage::ClarifyArchBackend || n == Stage::ClarifyArchFrontend),
{
    lemma_clarify_stages(n);
}

/// The retry cap: counting from no failures, the fifth failure blocks the run and the
/// fourth does not.
pub proof fn law_retry_cap()
    ensures
        !failure_outcome(3).1,
        failure_outcome(4).1,
        forall|c: nat| c + 1 < RETRY_CAP ==> !(#[trigger] failure_outcome(c)).1,
        forall|c: nat| c + 1 >= RETRY_CAP ==> (#[trigger] failure_outcome(c)).1,
{
}

} // verus!
