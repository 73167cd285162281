//! The strict extraction gate: candidate knowledge from a run is kept only when it is deep,
//! transferable and well-formed, and always lands as a draft.
use crate::config::{join_path, path_join};
use crate::json::{json_get, json_str, Json};
use crate::knowledge::index::domain_key;
use crate::knowledge::model::{Entry, Evidence, HistoryItem};
use crate::knowledge::schema::{entry_errors, iter_errors, push_if};
use crate::knowledge::vocab::{class_known, is_knowledge_class, is_type, type_known};
use crate::text::{
    append, concat, join_seq, join_strings, str_eq, string_of, string_seq_views, to_chars, trim,
    trim_chars,
};
use vstd::prelude::*;

verus! {

/// The file of a run that lists its knowledge candidates.
pub const CANDIDATES_FILE: &'static str = "knowledge-candidates.json";

/// The least number of characters a candidate's trimmed body must have.
pub const MIN_BODY_CHARS: usize = 80;

/// The text of member `k` of a candidate, or `default` when it is absent or not a string.
pub open spec fn str_or(c: Json, k: Seq<char>, default: Seq<char>) -> Seq<char> {
    match json_str(json_get(c, k)) {
        Some(s) => s,
        None => default,
    }
}

/// The candidate lists at least one applicable phase.
pub open spec fn has_phases(c: Json) -> bool {
    json_get(c, "applicable_phases"@) matches Some(Json::Array(a)) && a@.len() > 0
}

/// Why the extraction filter rejects a candidate, in this order: no id, a body under 80 characters, no
/// applicable phases, an unknown type, an unknown knowledge class, no title. A candidate with
/// no reason passes.
pub open spec fn rejection_reasons(c: Json) -> Seq<Seq<char>> {
    let r0 = push_if(seq![], trim(str_or(c, "id"@, seq![])).len() == 0, "missing id"@);
    let r1 = push_if(
        r0,
        trim(str_or(c, "body"@, seq![])).len() < MIN_BODY_CHARS,
        "insufficient depth (body too short)"@,
    );
    let r2 = push_if(r1, !has_phases(c), "not transferable (no applicable_phases)"@);
    let r3 = push_if(r2, !is_type(str_or(c, "type"@, seq![])), "missing/invalid type"@);
    let r4 = push_if(
        r3,
        !is_knowledge_class(str_or(c, "knowledge_class"@, "point"@)),
        "invalid knowledge_class"@,
    );
    push_if(r4, trim(str_or(c, "title"@, seq![])).len() == 0, "missing title"@)
}

fn str_field(c: &Json, k: &str, default: &str) -> (r: String)
    ensures
        r@ == str_or(*c, k@, default@),
{
    match c.get(k) {
        Some(v) => match v.as_str() {
            Some(s) => string_of(s),
            None => string_of(default),
        },
        None => string_of(default),
    }
}

fn trimmed_len(s: &String) -> (r: usize)
    ensures
        r == trim(s@).len(),
{
    let c = to_chars(s.as_str());
    trim_chars(&c).len()
}

/// The reasons the extraction filter rejects a candidate (see `rejection_reasons`); none when it passes.
pub fn evaluate(c: &Json) -> (r: Vec<String>)
    ensures
        string_seq_views(r@) == rejection_reasons(*c),
{
    let mut out: Vec<String> = Vec::new();
    let ghost r0 = push_if(seq![], trim(str_or(*c, "id"@, seq![])).len() == 0, "missing id"@);
    if trimmed_len(&str_field(c, "id", "")) == 0 {
        out.push(string_of("missing id"));
    }
    assert(string_seq_views(out@) =~= push_if(
        seq![],
        trim(str_or(*c, "id"@, seq![])).len() == 0,
        "missing id"@,
    )) by {
        reveal_strlit("");
        assert(""@ =~= Seq::<char>::empty());
    }
    let ghost s0 = string_seq_views(out@);
    if trimmed_len(&str_field(c, "body", "")) < MIN_BODY_CHARS {
        out.push(string_of("insufficient depth (body too short)"));
    }
    assert(string_seq_views(out@) =~= push_if(
        s0,
        trim(str_or(*c, "body"@, seq![])).len() < MIN_BODY_CHARS,
        "insufficient depth (body too short)"@,
    )) by {
        reveal_strlit("");
        assert(""@ =~= Seq::<char>::empty());
    }
    let ghost s1 = string_seq_views(out@);
    let phases_ok = match c.get("applicable_phases") {
        Some(v) => match v.as_array() {
            Some(a) => a.len() > 0,
            None => false,
        },
        None => false,
    };
    if !phases_ok {
        out.push(string_of("not transferable (no applicable_phases)"));
    }
    assert(string_seq_views(out@) =~= push_if(
        s1,
        !has_phases(*c),
        "not transferable (no applicable_phases)"@,
    ));
    let ghost s2 = string_seq_views(out@);
    let ty = str_field(c, "type", "");
    if !type_known(ty.as_str()) {
        out.push(string_of("missing/invalid type"));
    }
    assert(string_seq_views(out@) =~= push_if(
        s2,
        !is_type(str_or(*c, "type"@, seq![])),
        "missing/invalid type"@,
    )) by {
        reveal_strlit("");
        assert(""@ =~= Seq::<char>::empty());
    }
    let ghost s3 = string_seq_views(out@);
    let kc = str_field(c, "knowledge_class", "point");
    if !class_known(kc.as_str()) {
        out.push(string_of("invalid knowledge_class"));
    }
    assert(string_seq_views(out@) =~= push_if(
        s3,
        !is_knowledge_class(str_or(*c, "knowledge_class"@, "point"@)),
        "invalid knowledge_class"@,
    ));
    let ghost s4 = string_seq_views(out@);
    if trimmed_len(&str_field(c, "title", "")) == 0 {
        out.push(string_of("missing title"));
    }
    assert(string_seq_views(out@) =~= push_if(
        s4,
        trim(str_or(*c, "title"@, seq![])).len() == 0,
        "missing title"@,
    )) by {
        reveal_strlit("");
        assert(""@ =~= Seq::<char>::empty());
    }
    out
}

/// The string items of an array member (other items are skipped); none when the member is
/// absent or not an array.
pub open spec fn strings_of(v: Option<Json>) -> Seq<Seq<char>> {
    match v {
        Some(Json::Array(a)) => array_strings(a@),
        _ => seq![],
    }
}

pub open spec fn array_strings(a: Seq<Json>) -> Seq<Seq<char>>
    decreases a.len(),
{
    if a.len() == 0 {
        seq![]
    } else {
        match a.last() {
            Json::Str(s) => array_strings(a.drop_last()).push(s@),
            _ => array_strings(a.drop_last()),
        }
    }
}

/// The string items of member `k` (see `strings_of`).
pub fn vec_field(c: &Json, k: &str) -> (r: Vec<String>)
    ensures
        string_seq_views(r@) == strings_of(json_get(*c, k@)),
{
    let mut out: Vec<String> = Vec::new();
    match c.get(k) {
        Some(v) => match v.as_array() {
            Some(a) => {
                let mut i: usize = 0;
                while i < a.len()
                    invariant
                        i <= a@.len(),
                        string_seq_views(out@) == array_strings(a@.take(i as int)),
                    decreases a.len() - i,
                {
                    assert(a@.take(i + 1).drop_last() =~= a@.take(i as int));
                    assert(a@.take(i + 1).last() == a@[i as int]);
                    if let Json::Str(s) = &a[i] {
                        let ghost before = string_seq_views(out@);
                        out.push(s.clone());
                        assert(string_seq_views(out@) =~= before.push(s@));
                    }
                    i = i + 1;
                }
                assert(a@.take(a@.len() as int) =~= a@);
            },
            None => {},
        },
        None => {},
    }
    assert(out@.len() == 0 ==> string_seq_views(out@) =~= Seq::<Seq<char>>::empty());
    out
}

fn opt_str_field(c: &Json, k: &str) -> (r: Option<String>)
    ensures
        match r {
            Some(s) => json_str(json_get(*c, k@)) == Some(s@),
            None => json_str(json_get(*c, k@)) is None,
        },
{
    match c.get(k) {
        Some(v) => match v.as_str() {
            Some(s) => Some(string_of(s)),
            None => None,
        },
        None => None,
    }
}

/// The view of an optional string.
pub open spec fn opt_view(o: Option<String>) -> Option<Seq<char>> {
    match o {
        Some(s) => Some(s@),
        None => None,
    }
}

/// `e` is the draft made of candidate `c` on `date`: its fields are the candidate's members
/// (the knowledge class defaulting to `point`, the layer to `L3`), its contributors are the
/// candidate's, and its history records the extraction.
pub open spec fn extracted(c: Json, date: Seq<char>, e: Entry) -> bool {
    &&& e.id@ == str_or(c, "id"@, seq![])
    &&& e.title@ == str_or(c, "title"@, seq![])
    &&& e.category@ == str_or(c, "category"@, seq![])
    &&& opt_view(e.domain) == json_str(json_get(c, "domain"@))
    &&& e.kind@ == str_or(c, "type"@, seq![])
    &&& opt_view(e.guideline_polarity) == json_str(json_get(c, "guideline_polarity"@))
    &&& e.maturity@ == "draft"@
    &&& e.knowledge_class@ == (if str_or(c, "knowledge_class"@, "point"@).len() == 0 {
        "point"@
    } else {
        str_or(c, "knowledge_class"@, "point"@)
    })
    &&& e.layer@ == str_or(c, "layer"@, "L3"@)
    &&& string_seq_views(e.tags@) == strings_of(json_get(c, "tags"@))
    &&& string_seq_views(e.applicable_phases@) == strings_of(json_get(c, "applicable_phases"@))
    &&& string_seq_views(e.evidence.contributors@) == strings_of(json_get(c, "contributors"@))
    &&& e.evidence.sources@.len() == 0
    &&& e.evidence.projects@.len() == 0
    &&& e.evidence.last_referenced is None
    &&& e.evidence.ref_count == 0
    &&& e.history@.len() == 1
    &&& e.history@[0] matches HistoryItem::Update { date: d, update_type: u, by: b } && d@ == date
        && u@ == "extract"@ && b@ == "archiver"@
    &&& e.body@ == str_or(c, "body"@, seq![])
    &&& e.path is None
}

/// The draft entry a candidate becomes (see `extracted`).
pub fn candidate_to_entry(c: &Json, now: &str) -> (r: Entry)
    ensures
        extracted(*c, now@, r),
{
    let kc0 = str_field(c, "knowledge_class", "point");
    let kc = if kc0.as_str().unicode_len() == 0 {
        string_of("point")
    } else {
        kc0
    };
    let mut history: Vec<HistoryItem> = Vec::new();
    history.push(
        HistoryItem::Update {
            date: string_of(now),
            update_type: string_of("extract"),
            by: string_of("archiver"),
        },
    );
    let e = Entry {
        id: str_field(c, "id", ""),
        title: str_field(c, "title", ""),
        category: str_field(c, "category", ""),
        domain: opt_str_field(c, "domain"),
        kind: str_field(c, "type", ""),
        guideline_polarity: opt_str_field(c, "guideline_polarity"),
        maturity: string_of("draft"),
        knowledge_class: kc,
        layer: str_field(c, "layer", "L3"),
        tags: vec_field(c, "tags"),
        applicable_phases: vec_field(c, "applicable_phases"),
        evidence: Evidence {
            contributors: vec_field(c, "contributors"),
            sources: Vec::new(),
            projects: Vec::new(),
            last_referenced: None,
            ref_count: 0,
        },
        history,
        body: str_field(c, "body", ""),
        path: None,
    };
    proof {
        reveal_strlit("");
        assert(""@ =~= Seq::<char>::empty());
    }
    assert(e.id@ == str_or(*c, "id"@, seq![]));
    assert(e.knowledge_class@ == (if str_or(*c, "knowledge_class"@, "point"@).len() == 0 {
        "point"@
    } else {
        str_or(*c, "knowledge_class"@, "point"@)
    }));
    assert(string_seq_views(e.tags@) == strings_of(json_get(*c, "tags"@)));
    assert(e.history@[0] matches HistoryItem::Update { date: d, update_type: u, by: b } && d@ == now@
        && u@ == "extract"@ && b@ == "archiver"@);
    e
}

/// Where an entry's file lives under the knowledge base `root`: business knowledge under
/// `biz-wiki/<domain or _>/`, the rest under `tech-wiki/`, named `<id>.md`.
pub open spec fn entry_path_spec(root: Seq<char>, e: Entry) -> Seq<char> {
    if e.category@ == "biz"@ {
        path_join(path_join(path_join(root, "biz-wiki"@), domain_key(e)), e.id@ + ".md"@)
    } else {
        path_join(path_join(root, "tech-wiki"@), e.id@ + ".md"@)
    }
}

/// The path of an entry's file (see `entry_path_spec`).
pub fn entry_path(kb_root: &str, e: &Entry) -> (r: String)
    ensures
        r@ == entry_path_spec(kb_root@, *e),
{
    let name = concat(e.id.as_str(), ".md");
    if str_eq(e.category.as_str(), "biz") {
        let d = match &e.domain {
            Some(d) => d.clone(),
            None => string_of("_"),
        };
        let b = join_path(kb_root, "biz-wiki");
        let bd = join_path(b.as_str(), d.as_str());
        join_path(bd.as_str(), name.as_str())
    } else {
        let t = join_path(kb_root, "tech-wiki");
        join_path(t.as_str(), name.as_str())
    }
}

/// What the extraction filter makes of one candidate.
#[derive(Debug)]
pub enum Verdict {
    /// Rejected by the filter: the candidate's title (or `<no title>`) and the reasons.
    Rejected { title: String, reasons: Vec<String> },
    /// Passed the filter but breaks the schema: the entry and the one reason, `schema: ...`.
    Invalid { entry: Entry, reasons: Vec<String> },
    /// To be written at `path`.
    Write { path: String, entry: Entry },
}

/// `v` is what the extraction filter makes of candidate `c` on `date`, for a knowledge base at `root`.
pub open spec fn verdict_of(c: Json, v: Verdict, root: Seq<char>, date: Seq<char>) -> bool {
    if rejection_reasons(c).len() > 0 {
        v matches Verdict::Rejected { title, reasons } && title@ == str_or(
            c,
            "title"@,
            "<no title>"@,
        ) && string_seq_views(reasons@) == rejection_reasons(c)
    } else {
        match v {
            Verdict::Invalid { entry, reasons } => {
                &&& extracted(c, date, entry)
                &&& entry_errors(entry).len() > 0
                &&& string_seq_views(reasons@) == seq![
                    "schema: "@ + join_seq(entry_errors(entry), "; "@),
                ]
            },
            Verdict::Write { path, entry } => {
                &&& extracted(c, date, entry)
                &&& entry_errors(entry).len() == 0
                &&& path@ == entry_path_spec(root, entry)
            },
            _ => false,
        }
    }
}

/// The extraction filter's verdicts on a run's candidates, and the date their history records.
#[derive(Debug)]
pub struct Extraction {
    pub date: String,
    pub verdicts: Vec<Verdict>,
}

/// Runs the extraction filter over a run's candidates (the decoded `knowledge-candidates.json`) for a
/// knowledge base at `kb_root`, on `date` (`YYYY-MM-DD`). The candidates must form a JSON list.
pub fn extract_from_run(candidates: &Json, kb_root: &str, date: &str) -> (r: Result<Extraction, String>)
    ensures
        match candidates {
            Json::Array(a) => r matches Ok(x) && {
                &&& x.date@ == date@
                &&& x.verdicts@.len() == a@.len()
                &&& forall|i: int|
                    0 <= i < a@.len() ==> verdict_of(
                        a@[i],
                        #[trigger] x.verdicts@[i],
                        kb_root@,
                        x.date@,
                    )
            },
            _ => r matches Err(m) && m@ == "knowledge-candidates.json must be a JSON list"@,
        },
{
    let a = match candidates {
        Json::Array(a) => a,
        _ => {
            return Err(string_of("knowledge-candidates.json must be a JSON list"));
        },
    };
    let date = string_of(date);
    let mut verdicts: Vec<Verdict> = Vec::new();
    let mut i: usize = 0;
    while i < a.len()
        invariant
            i <= a@.len(),
            verdicts@.len() == i,
            forall|j: int|
                0 <= j < i ==> verdict_of(a@[j], #[trigger] verdicts@[j], kb_root@, date@),
        decreases a.len() - i,
    {
        let c = &a[i];
        let reasons = evaluate(c);
        assert(string_seq_views(reasons@).len() == reasons@.len());
        if reasons.len() > 0 {
            let title = str_field(c, "title", "<no title>");
            verdicts.push(Verdict::Rejected { title, reasons });
        } else {
            let entry = candidate_to_entry(c, date.as_str());
            let errs = iter_errors(&entry);
            assert(string_seq_views(errs@).len() == errs@.len());
            if errs.len() > 0 {
                let mut why = string_of("schema: ");
                let joined = join_strings(&errs, "; ");
                append(&mut why, joined.as_str());
                let mut rs: Vec<String> = Vec::new();
                rs.push(why);
                assert(string_seq_views(rs@) =~= seq![
                    "schema: "@ + join_seq(entry_errors(entry), "; "@),
                ]);
                verdicts.push(Verdict::Invalid { entry, reasons: rs });
            } else {
                let path = entry_path(kb_root, &entry);
                verdicts.push(Verdict::Write { path, entry });
            }
        }
        i = i + 1;
    }
    Ok(Extraction { date, verdicts })
}

/// Only filter-passing, schema-valid drafts are ever written: a candidate the filter rejects is
/// never written, and every written entry is a draft without schema violations.
pub proof fn law_written_entries_are_valid_drafts(c: Json, v: Verdict, root: Seq<char>, date: Seq<char>)
    requires
        verdict_of(c, v, root, date),
    ensures
        v matches Verdict::Write { entry, .. } ==> {
            &&& rejection_reasons(c).len() == 0
            &&& entry.maturity@ == "draft"@
            &&& entry_errors(entry).len() == 0
        },
        rejection_reasons(c).len() > 0 ==> v is Rejected,
{
}

} // verus!
