//! Progress of a cold-start knowledge import: a resumable pipeline of steps. Reading and
//! writing its state file is the caller's part.
use crate::config::{join_path, path_join, Loaded};
use crate::errors::{usage, CairnError};
use crate::json::{json_get, json_str, Json};
use crate::knowledge::extract_gate::strings_of;
use crate::text::{concat, str_eq, string_of, string_seq_views};
use vstd::prelude::*;

verus! {

/// The import steps, in order; `done` ends the import.
pub open spec fn import_steps() -> Seq<Seq<char>> {
    seq!["doc-collect"@, "codebase-profile"@, "knowledge-build"@, "done"@]
}

/// The import's state file under the project `root`.
pub fn import_path(root: &str) -> (r: String)
    ensures
        r@ == path_join(path_join(path_join(root@, "docs"@), "knowledge-import"@), "import-state.json"@),
{
    let d = join_path(root, "docs");
    let k = join_path(d.as_str(), "knowledge-import");
    join_path(k.as_str(), "import-state.json")
}

/// The state to write: the current step and the steps done, in order.
#[derive(Debug)]
pub struct ImportRecord {
    pub step: String,
    pub done: Vec<String>,
}

/// Starts an import, unless one is in progress (its state file exists).
pub fn init_import(in_progress: bool) -> (r: Result<ImportRecord, CairnError>)
    ensures
        in_progress ==> (r matches Err(CairnError::Usage(m)) && m@
            == "an import is already in progress; use `import show`/`import advance`."@),
        !in_progress ==> (r matches Ok(x) && x.step@ == "doc-collect"@ && x.done@.len() == 0),
{
    if in_progress {
        return Err(
            usage(string_of("an import is already in progress; use `import show`/`import advance`.")),
        );
    }
    Ok(ImportRecord { step: string_of("doc-collect"), done: Vec::new() })
}

/// The import's state as read from its file: missing, unreadable (the reader's message), not
/// JSON (the decoder's message), or the decoded value.
pub fn load_import(loaded: Loaded<Json>) -> (r: Result<Json, CairnError>)
    ensures
        match loaded {
            Loaded::Missing => r matches Err(CairnError::Usage(m)) && m@
                == "no import in progress; start one with `import init`."@,
            Loaded::Unreadable(e) => r matches Err(CairnError::Usage(m)) && m@ == e@,
            Loaded::Malformed(e) => r matches Err(CairnError::Usage(m)) && m@
                == "import-state.json corrupt: "@ + e@,
            Loaded::Parsed(v) => r == Ok::<Json, CairnError>(v),
        },
{
    match loaded {
        Loaded::Missing => Err(usage(string_of("no import in progress; start one with `import init`."))),
        Loaded::Unreadable(e) => Err(usage(e)),
        Loaded::Malformed(e) => Err(usage(concat("import-state.json corrupt: ", e.as_str()))),
        Loaded::Parsed(v) => Ok(v),
    }
}

/// The step an import state is at: its `step` text, or `done` when it has none.
pub open spec fn current_step(cur: Json) -> Seq<char> {
    match json_str(json_get(cur, "step"@)) {
        Some(s) => s,
        None => "done"@,
    }
}

/// The step an import state is at (see `current_step`).
pub fn step_of(cur: &Json) -> (r: String)
    ensures
        r@ == current_step(*cur),
{
    match cur.get("step") {
        Some(v) => match v.as_str() {
            Some(s) => string_of(s),
            None => string_of("done"),
        },
        None => string_of("done"),
    }
}

/// Whether `s` is one of the import's steps.
pub fn is_import_step(s: &str) -> (r: bool)
    ensures
        r == import_steps().contains(s@),
{
    proof {
        reveal_strlit("doc-collect");
        reveal_strlit("codebase-profile");
        reveal_strlit("knowledge-build");
        reveal_strlit("done");
    }
    let r = str_eq(s, "doc-collect") || str_eq(s, "codebase-profile") || str_eq(s, "knowledge-build")
        || str_eq(s, "done");
    proof {
        if r {
            if s@ == "doc-collect"@ {
                assert(import_steps()[0] == s@);
            } else if s@ == "codebase-profile"@ {
                assert(import_steps()[1] == s@);
            } else if s@ == "knowledge-build"@ {
                assert(import_steps()[2] == s@);
            } else {
                assert(import_steps()[3] == s@);
            }
        }
    }
    r
}

/// Advances an import by one step: the current step joins the steps done (the string items of
/// `done`) and the next step becomes current. A complete import cannot advance; the current
/// step must be one of the steps.
pub fn advance_import(cur: &Json) -> (r: Result<ImportRecord, CairnError>)
    requires
        import_steps().contains(current_step(*cur)),
    ensures
        current_step(*cur) == "done"@ ==> (r matches Err(CairnError::Usage(m)) && m@
            == "import already complete."@),
        current_step(*cur) != "done"@ ==> (r matches Ok(x) && {
            let i = import_steps().index_of(current_step(*cur));
            &&& x.step@ == import_steps()[i + 1]
            &&& string_seq_views(x.done@) == strings_of(json_get(*cur, "done"@)).push(
                current_step(*cur),
            )
        }),
{
    let step = step_of(cur);
    proof {
        reveal_strlit("doc-collect");
        reveal_strlit("codebase-profile");
        reveal_strlit("knowledge-build");
        reveal_strlit("done");
        assert(import_steps()[0] == "doc-collect"@);
    }
    if str_eq(step.as_str(), "done") {
        return Err(usage(string_of("import already complete.")));
    }
    let next = if str_eq(step.as_str(), "doc-collect") {
        "codebase-profile"
    } else if str_eq(step.as_str(), "codebase-profile") {
        "knowledge-build"
    } else {
        "done"
    };
    let mut done = crate::knowledge::extract_gate::vec_field(cur, "done");
    let ghost before = string_seq_views(done@);
    done.push(step);
    assert(string_seq_views(done@) =~= before.push(current_step(*cur)));
    proof {
        let s = current_step(*cur);
        let i = import_steps().index_of(s);
        if s == "doc-collect"@ {
            assert(import_steps()[0] == s);
        } else if s == "codebase-profile"@ {
            assert(import_steps()[1] == s);
            assert(import_steps()[0] != s);
        } else {
            assert(import_steps()[2] == s);
            assert(import_steps()[0] != s);
            assert(import_steps()[1] != s);
        }
    }
    Ok(ImportRecord { step: string_of(next), done })
}

} // verus!
