//! The lifecycle of self-evolution proposals: pending, then applied, rejected or deferred,
//! with an audit log. Nothing here writes anywhere but the proposal directories; moving files
//! and writing the log is the caller's part.
use crate::config::{join_path, path_join};
use crate::errors::{usage, CairnError};
use crate::knowledge::refs::{is_md_file, is_md_name};
use crate::sort::{sort_strings, sorted_spec, texts};
use crate::text::{
    append, concat, debug_str, debug_text, is_safe_name, safe_name, slice_chars, str_eq,
    string_of, to_chars, from_chars,
};
use vstd::prelude::*;

verus! {

/// The states a proposal can be in.
pub open spec fn is_state(s: Seq<char>) -> bool {
    s == "pending"@ || s == "applied"@ || s == "rejected"@ || s == "deferred"@
}

/// The states a pending proposal can move to.
pub open spec fn is_final_state(s: Seq<char>) -> bool {
    s == "applied"@ || s == "rejected"@ || s == "deferred"@
}

/// The directory of the proposal log under the project `root`.
pub open spec fn root_dir_spec(root: Seq<char>) -> Seq<char> {
    path_join(path_join(path_join(root, "docs"@), "workflows"@), "evolve-log"@)
}

/// The directory of the proposal log: `docs/workflows/evolve-log` under `root`.
pub fn root_dir(root: &str) -> (r: String)
    ensures
        r@ == root_dir_spec(root@),
{
    let d = join_path(root, "docs");
    let w = join_path(d.as_str(), "workflows");
    join_path(w.as_str(), "evolve-log")
}

/// The directory of the proposals in `state`.
pub fn evolve_dir(root: &str, state: &str) -> (r: String)
    ensures
        r@ == path_join(root_dir_spec(root@), state@),
{
    let d = root_dir(root);
    join_path(d.as_str(), state)
}

/// The path of the log file.
pub fn log_path(root: &str) -> (r: String)
    ensures
        r@ == path_join(root_dir_spec(root@), "log.md"@),
{
    let d = root_dir(root);
    join_path(d.as_str(), "log.md")
}

/// Accepts a proposal id that is safe as a file name (see `is_safe_name`).
pub fn safe_id(id: &str) -> (r: Result<&str, CairnError>)
    ensures
        is_safe_name(id@) ==> r == Ok::<&str, CairnError>(id),
        !is_safe_name(id@) ==> (r matches Err(CairnError::Usage(m)) && m@ == "invalid proposal id "@
            + debug_text(id@) + " (allowed: letters, digits, . _ -)"@),
{
    if safe_name(id) {
        Ok(id)
    } else {
        let mut m = concat("invalid proposal id ", debug_str(id).as_str());
        append(&mut m, " (allowed: letters, digits, . _ -)");
        Err(usage(m))
    }
}

/// Some name in the list has the view `x`.
pub open spec fn listed(names: Seq<String>, x: Seq<char>) -> bool {
    exists|i: int| 0 <= i < names.len() && names[i]@ == x
}

fn listed_exec(names: &Vec<String>, x: &str) -> (r: bool)
    ensures
        r == listed(names@, x@),
{
    let mut i: usize = 0;
    while i < names.len()
        invariant
            i <= names@.len(),
            forall|k: int| 0 <= k < i ==> names@[k]@ != x@,
        decreases names.len() - i,
    {
        if str_eq(names[i].as_str(), x) {
            return true;
        }
        i = i + 1;
    }
    false
}

/// A move in the proposal lifecycle: the file to write or move to, the file it comes from
/// (none for a new proposal), and the line for the log.
#[derive(Debug)]
pub struct Move {
    pub from: Option<String>,
    pub to: String,
    pub log_entry: String,
}

/// Files a new proposal: `pending/<id>.md`, unless `pending` (the names in the pending
/// directory) already holds that file. The log records `PROPOSE <id>`.
pub fn propose(root: &str, proposal_id: &str, pending: &Vec<String>) -> (r: Result<Move, CairnError>)
    ensures
        !is_safe_name(proposal_id@) ==> (r matches Err(CairnError::Usage(m)) && m@
            == "invalid proposal id "@ + debug_text(proposal_id@) + " (allowed: letters, digits, . _ -)"@),
        is_safe_name(proposal_id@) && listed(pending@, proposal_id@ + ".md"@) ==> (r matches Err(
            CairnError::Usage(m),
        ) && m@ == "proposal "@ + proposal_id@ + " already exists"@),
        is_safe_name(proposal_id@) && !listed(pending@, proposal_id@ + ".md"@) ==> (r matches Ok(mv)
            && mv.from is None && mv.to@ == path_join(
            path_join(root_dir_spec(root@), "pending"@),
            proposal_id@ + ".md"@,
        ) && mv.log_entry@ == "PROPOSE "@ + proposal_id@),
{
    match safe_id(proposal_id) {
        Err(e) => {
            return Err(e);
        },
        Ok(_) => {},
    }
    let name = concat(proposal_id, ".md");
    if listed_exec(pending, name.as_str()) {
        let mut m = concat("proposal ", proposal_id);
        append(&mut m, " already exists");
        return Err(usage(m));
    }
    let dir = evolve_dir(root, "pending");
    let to = join_path(dir.as_str(), name.as_str());
    Ok(Move { from: None, to, log_entry: concat("PROPOSE ", proposal_id) })
}

/// The names of Markdown files, without their `.md`.
pub open spec fn stems(s: Seq<String>) -> Seq<Seq<char>>
    decreases s.len(),
{
    if s.len() == 0 {
        seq![]
    } else if is_md_name(s.last()@) {
        stems(s.drop_last()).push(s.last()@.take(s.last()@.len() - 3))
    } else {
        stems(s.drop_last())
    }
}

/// Lists the proposals in a state, given the names of the entries of its directory (none
/// when it does not exist): the ids of the Markdown files, sorted.
pub fn list_proposals(state: &str, names: &Vec<String>) -> (r: Result<Vec<String>, CairnError>)
    ensures
        is_state(state@) ==> (r matches Ok(ids) && exists|raw: Seq<String>|
            crate::text::string_seq_views(raw) == stems(names@) && texts(ids@) == sorted_spec(
                texts(raw),
            )),
        !is_state(state@) ==> (r matches Err(CairnError::Usage(m)) && m@ == "unknown state "@
            + debug_text(state@) + "; valid: [\"pending\", \"applied\", \"rejected\", \"deferred\"]"@),
{
    if !(str_eq(state, "pending") || str_eq(state, "applied") || str_eq(state, "rejected")
        || str_eq(state, "deferred")) {
        let mut m = concat("unknown state ", debug_str(state).as_str());
        append(&mut m, "; valid: [\"pending\", \"applied\", \"rejected\", \"deferred\"]");
        return Err(usage(m));
    }
    let mut ids: Vec<String> = Vec::new();
    let mut i: usize = 0;
    while i < names.len()
        invariant
            i <= names@.len(),
            crate::text::string_seq_views(ids@) == stems(names@.take(i as int)),
        decreases names.len() - i,
    {
        assert(names@.take(i + 1).drop_last() =~= names@.take(i as int));
        assert(names@.take(i + 1).last() == names@[i as int]);
        let n = &names[i];
        if is_md_file(n.as_str()) {
            let c = to_chars(n.as_str());
            let stem = from_chars(&slice_chars(&c, 0, c.len() - 3));
            let ghost before = crate::text::string_seq_views(ids@);
            ids.push(stem);
            assert(crate::text::string_seq_views(ids@) =~= before.push(n@.take(n@.len() - 3)));
        }
        i = i + 1;
    }
    assert(names@.take(names@.len() as int) =~= names@);
    let ghost raw = ids@;
    Ok(sort_strings(ids))
}

/// Moves a pending proposal to `to_state` (`applied`, `rejected` or `deferred`), given the
/// names in the pending directory. The log records the state in capitals and the id.
pub fn transition(root: &str, proposal_id: &str, to_state: &str, pending: &Vec<String>) -> (r: Result<
    Move,
    CairnError,
>)
    ensures
        !is_safe_name(proposal_id@) ==> (r matches Err(CairnError::Usage(m)) && m@
            == "invalid proposal id "@ + debug_text(proposal_id@) + " (allowed: letters, digits, . _ -)"@),
        is_safe_name(proposal_id@) && !is_final_state(to_state@) ==> (r matches Err(
            CairnError::Usage(m),
        ) && m@ == "cannot transition to "@ + debug_text(to_state@)),
        is_safe_name(proposal_id@) && is_final_state(to_state@) && !listed(
            pending@,
            proposal_id@ + ".md"@,
        ) ==> (r matches Err(CairnError::Usage(m)) && m@ == "no pending proposal "@ + proposal_id@),
        is_safe_name(proposal_id@) && is_final_state(to_state@) && listed(
            pending@,
            proposal_id@ + ".md"@,
        ) ==> (r matches Ok(mv) && mv.from matches Some(f) && f@ == path_join(
            path_join(root_dir_spec(root@), "pending"@),
            proposal_id@ + ".md"@,
        ) && mv.to@ == path_join(
            path_join(root_dir_spec(root@), to_state@),
            proposal_id@ + ".md"@,
        ) && mv.log_entry@ == upper_state(to_state@) + " "@ + proposal_id@),
{
    match safe_id(proposal_id) {
        Err(e) => {
            return Err(e);
        },
        Ok(_) => {},
    }
    let upper = if str_eq(to_state, "applied") {
        "APPLIED"
    } else if str_eq(to_state, "rejected") {
        "REJECTED"
    } else if str_eq(to_state, "deferred") {
        "DEFERRED"
    } else {
        return Err(usage(concat("cannot transition to ", debug_str(to_state).as_str())));
    };
    let name = concat(proposal_id, ".md");
    if !listed_exec(pending, name.as_str()) {
        return Err(usage(concat("no pending proposal ", proposal_id)));
    }
    let pdir = evolve_dir(root, "pending");
    let from = join_path(pdir.as_str(), name.as_str());
    let ddir = evolve_dir(root, to_state);
    let to = join_path(ddir.as_str(), name.as_str());
    let mut log_entry = string_of(upper);
    append(&mut log_entry, " ");
    append(&mut log_entry, proposal_id);
    Ok(Move { from: Some(from), to, log_entry })
}

/// A final state in capitals, as the log writes it.
pub open spec fn upper_state(s: Seq<char>) -> Seq<char> {
    if s == "applied"@ {
        "APPLIED"@
    } else if s == "rejected"@ {
        "REJECTED"@
    } else {
        "DEFERRED"@
    }
}

/// Joining a relative name onto a directory stays inside that directory.
pub proof fn lemma_join_within(base: Seq<char>, rel: Seq<char>)
    requires
        rel.len() == 0 || rel[0] != '/',
    ensures
        base.is_prefix_of(path_join(base, rel)),
{
    if base.len() == 0 || base.last() == '/' {
        assert(path_join(base, rel).take(base.len() as int) =~= base);
    } else {
        assert(path_join(base, rel).take(base.len() as int) =~= base);
    }
}

/// Proposals never leave the proposal log: every file the lifecycle writes or moves lies in
/// `docs/workflows/evolve-log` under the project, whatever the (safe) id and target state.
pub proof fn law_moves_stay_in_evolve_log(root: Seq<char>, state: Seq<char>, id: Seq<char>)
    requires
        is_state(state),
        is_safe_name(id),
    ensures
        root_dir_spec(root).is_prefix_of(path_join(path_join(root_dir_spec(root), state), id + ".md"@)),
{
    reveal_strlit("pending");
    reveal_strlit("applied");
    reveal_strlit("rejected");
    reveal_strlit("deferred");
    let d = root_dir_spec(root);
    lemma_join_within(d, state);
    let s = path_join(d, state);
    assert(id[0] != '/');
    assert((id + ".md"@)[0] == id[0]);
    lemma_join_within(s, id + ".md"@);
    assert(path_join(s, id + ".md"@).take(d.len() as int) =~= s.take(d.len() as int));
}

} // verus!
