//! The shared knowledge repository: how contributions are classified, where conflicts and
//! promotions land, and what its log and counts say. Running git and touching files is the
//! caller's part.
use crate::config::{join_path, path_join};
use crate::errors::{usage, CairnError};
use crate::knowledge::index::domain_key;
use crate::knowledge::lint::{ids_where, is_orphan};
use crate::knowledge::model::{copy_entry, Entry};
use crate::knowledge::refs::{count_views, reference_counts, reference_counts_spec};
use crate::text::{
    append, concat, debug_str, debug_text, dec, dec_string, is_safe_name, safe_name,
    str_eq, string_of, string_seq_views, to_chars, trim_end, trim_end_chars, from_chars,
};
use vstd::prelude::*;

verus! {

/// The repository's append-only contribution log.
pub const LOG_FILE: &'static str = "log.md";

/// Where conflicting contributions wait for review.
pub const CONFLICTS_DIR: &'static str = "contributions/conflicts";

// ---------------------------------------------------------------- contributions

/// How a contribution kind is handled: `add`, `evidence` and `promote_verified` merge
/// automatically; `conflict`, `promote_proven` and `team_convention` need review.
pub open spec fn contribution_class(kind: Seq<char>) -> Option<Seq<char>> {
    if kind == "add"@ || kind == "evidence"@ || kind == "promote_verified"@ {
        Some("auto"@)
    } else if kind == "conflict"@ || kind == "promote_proven"@ || kind == "team_convention"@ {
        Some("review"@)
    } else {
        None
    }
}

/// Classifies a contribution kind (see `contribution_class`); an unknown kind is a usage
/// error.
pub fn classify_contribution(kind: &str) -> (r: Result<&'static str, CairnError>)
    ensures
        match contribution_class(kind@) {
            Some(c) => r matches Ok(x) && x@ == c,
            None => r matches Err(CairnError::Usage(m)) && m@ == "unknown contribution kind "@
                + debug_text(kind@),
        },
{
    if str_eq(kind, "add") || str_eq(kind, "evidence") || str_eq(kind, "promote_verified") {
        Ok("auto")
    } else if str_eq(kind, "conflict") || str_eq(kind, "promote_proven") || str_eq(
        kind,
        "team_convention",
    ) {
        Ok("review")
    } else {
        Err(usage(concat("unknown contribution kind ", debug_str(kind).as_str())))
    }
}

/// Accepts an entry id that is safe as a file name (see `is_safe_name`).
pub fn safe_id(id: &str) -> (r: Result<&str, CairnError>)
    ensures
        is_safe_name(id@) ==> r == Ok::<&str, CairnError>(id),
        !is_safe_name(id@) ==> (r matches Err(CairnError::Usage(m)) && m@ == "invalid id "@
            + debug_text(id@) + " (allowed: letters, digits, . _ -)"@),
{
    if safe_name(id) {
        Ok(id)
    } else {
        let mut m = concat("invalid id ", debug_str(id).as_str());
        append(&mut m, " (allowed: letters, digits, . _ -)");
        Err(usage(m))
    }
}

// ---------------------------------------------------------------- the log

/// `s` with every line break replaced by a space.
pub open spec fn one_line(s: Seq<char>) -> Seq<char> {
    Seq::new(s.len(), |i: int| if s[i] == '\n' { ' ' } else { s[i] })
}

/// The text a log line is stored as: on one line, without trailing whitespace.
pub fn log_text(line: &str) -> (r: String)
    ensures
        r@ == trim_end(one_line(line@)),
{
    let c = to_chars(line);
    let mut v: Vec<char> = Vec::new();
    let mut i: usize = 0;
    while i < c.len()
        invariant
            i <= c@.len(),
            c@ == line@,
            v@ == one_line(c@.take(i as int)),
        decreases c.len() - i,
    {
        if c[i] == '\n' {
            v.push(' ');
        } else {
            v.push(c[i]);
        }
        assert(v@ =~= one_line(c@.take(i + 1)));
        i = i + 1;
    }
    assert(c@.take(c@.len() as int) =~= c@);
    from_chars(&trim_end_chars(&v))
}

// ---------------------------------------------------------------- conflicts

/// The file name of the `n`-th try to stage a conflict: `<id>-<date>.md`, then
/// `<id>-<date>-<n>.md`.
pub open spec fn conflict_name(id: Seq<char>, date: Seq<char>, n: nat) -> Seq<char> {
    if n == 0 {
        id + "-"@ + date + ".md"@
    } else {
        id + "-"@ + date + "-"@ + dec(n) + ".md"@
    }
}

/// Some name in the list has the view `x`.
pub open spec fn name_taken(names: Seq<String>, x: Seq<char>) -> bool {
    exists|i: int| 0 <= i < names.len() && names[i]@ == x
}

/// If `n` different names are all taken, the list holds at least `n` names.
pub proof fn lemma_pigeonhole(names: Seq<String>, f: spec_fn(nat) -> Seq<char>, n: nat)
    requires
        forall|k: nat| k < n ==> name_taken(names, #[trigger] f(k)),
        forall|a: nat, b: nat| a < b < n ==> #[trigger] f(a) != #[trigger] f(b),
    ensures
        n <= names.len(),
    decreases names.len(),
{
    if n > 0 {
        if names.len() == 0 {
            assert(name_taken(names, f(0)));
        } else {
            let rest = names.drop_last();
            let x = names.last()@;
            if exists|k: nat| k < n && #[trigger] f(k) == x {
                let k0 = choose|k: nat| k < n && #[trigger] f(k) == x;
                let g = |j: nat| if j < k0 { f(j) } else { f(j + 1) };
                assert forall|j: nat| j < n - 1 implies name_taken(rest, #[trigger] g(j)) by {
                    let jj: nat = if j < k0 { j } else { (j + 1) as nat };
                    assert(g(j) == f(jj));
                    assert(name_taken(names, f(jj)));
                    let w = choose|w: int| 0 <= w < names.len() && names[w]@ == f(jj);
                    if w == names.len() - 1 {
                        if jj < k0 {
                            assert(f(jj) != f(k0));
                        } else {
                            assert(f(k0) != f(jj));
                        }
                    }
                    assert(rest[w]@ == g(j));
                }
                assert forall|a: nat, b: nat| a < b < n - 1 implies #[trigger] g(a) != #[trigger] g(b) by {
                    let aa: nat = if a < k0 { a } else { (a + 1) as nat };
                    let bb: nat = if b < k0 { b } else { (b + 1) as nat };
                    assert(aa < bb);
                    assert(f(aa) != f(bb));
                }
                lemma_pigeonhole(rest, g, (n - 1) as nat);
            } else {
                assert forall|j: nat| j < n implies name_taken(rest, #[trigger] f(j)) by {
                    assert(name_taken(names, f(j)));
                    let w = choose|w: int| 0 <= w < names.len() && names[w]@ == f(j);
                    assert(w != names.len() - 1);
                    assert(rest[w]@ == f(j));
                }
                lemma_pigeonhole(rest, f, n);
            }
        }
    }
}

/// Where to stage a conflict, and the log line that records it.
#[derive(Debug)]
pub struct StagedConflict {
    pub file_name: String,
    pub log_line: String,
}

fn conflict_name_of(id: &str, date: &str, n: u64) -> (r: String)
    ensures
        r@ == conflict_name(id@, date@, n as nat),
{
    let mut s = concat(id, "-");
    append(&mut s, date);
    if n > 0 {
        append(&mut s, "-");
        append(&mut s, dec_string(n).as_str());
    }
    append(&mut s, ".md");
    s
}

fn name_in(names: &Vec<String>, x: &str) -> (r: bool)
    ensures
        r == name_taken(names@, x@),
{
    let mut i: usize = 0;
    while i < names.len()
        invariant
            i <= names@.len(),
            forall|k: int| 0 <= k < i ==> names@[k]@ != x@,
        decreases names.len() - i,
    {
        if str_eq(names[i].as_str(), x) {
            return true;
        }
        i = i + 1;
    }
    false
}

proof fn lemma_conflict_names_distinct(id: Seq<char>, date: Seq<char>, a: nat, b: nat)
    requires
        a != b,
    ensures
        conflict_name(id, date, a) != conflict_name(id, date, b),
{
    crate::text::lemma_dec_injective(a, b);
    if a == 0 || b == 0 {
        let n = if a == 0 { b } else { a };
        crate::text::lemma_dec_nonempty(n);
        assert(conflict_name(id, date, n).len() > conflict_name(id, date, 0).len()) by {
            reveal_strlit("-");
            reveal_strlit(".md");
        }
    } else {
        reveal_strlit("-");
        reveal_strlit(".md");
        let p = id + "-"@ + date + "-"@;
        let x = conflict_name(id, date, a);
        let y = conflict_name(id, date, b);
        if x == y {
            assert(x.subrange(p.len() as int, x.len() - 3) =~= dec(a));
            assert(y.subrange(p.len() as int, y.len() - 3) =~= dec(b));
        }
    }
}

/// Stages a conflicting contribution for entry `entry_id` on the date `today_text`:
/// the first of the names `<id>-<date>.md`, `<id>-<date>-1.md`, ... that is not among the
/// names already in the conflicts directory, and the log line
/// `- <date> CONFLICT staged for <id> -> <name>`. An id that is not safe as a file name is a
/// usage error.
pub fn stage_conflict(entry_id: &str, today_text: &str, existing: &Vec<String>) -> (r: Result<
    StagedConflict,
    CairnError,
>)
    ensures
        !is_safe_name(entry_id@) ==> (r matches Err(CairnError::Usage(m)) && m@ == "invalid id "@
            + debug_text(entry_id@) + " (allowed: letters, digits, . _ -)"@),
        is_safe_name(entry_id@) ==> (r matches Ok(s) && exists|n: nat|
            {
                &&& s.file_name@ == #[trigger] conflict_name(entry_id@, today_text@, n)
                &&& !name_taken(existing@, s.file_name@)
                &&& forall|k: nat| k < n ==> name_taken(existing@, #[trigger] conflict_name(entry_id@, today_text@, k))
                &&& s.log_line@ == "- "@ + today_text@ + " CONFLICT staged for "@ + entry_id@ + " -> "@
                    + s.file_name@
            }),
{
    match safe_id(entry_id) {
        Err(e) => {
            return Err(e);
        },
        Ok(_) => {},
    }
    let date = string_of(today_text);
    let mut n: u64 = 0;
    let total = existing.len();
    let mut name = conflict_name_of(entry_id, date.as_str(), 0);
    while name_in(existing, name.as_str())
        invariant
            n <= existing@.len(),
            existing@.len() == total,
            name@ == conflict_name(entry_id@, date@, n as nat),
            forall|k: nat| k < n ==> name_taken(existing@, #[trigger] conflict_name(entry_id@, date@, k)),
        decreases existing@.len() - n,
    {
        proof {
            let ghost f = |k: nat| conflict_name(entry_id@, date@, k);
            assert forall|k: nat| k < n + 1 implies name_taken(existing@, #[trigger] f(k)) by {}
            assert forall|a: nat, b: nat| a < b < n + 1 implies #[trigger] f(a) != #[trigger] f(b) by {
                lemma_conflict_names_distinct(entry_id@, date@, a, b);
            }
            lemma_pigeonhole(existing@, f, (n + 1) as nat);
            assert(n + 1 <= existing@.len());
        }
        n = n + 1;
        name = conflict_name_of(entry_id, date.as_str(), n);
    }
    let mut line = concat("- ", date.as_str());
    append(&mut line, " CONFLICT staged for ");
    append(&mut line, entry_id);
    append(&mut line, " -> ");
    append(&mut line, name.as_str());
    Ok(StagedConflict { file_name: name, log_line: line })
}

// ---------------------------------------------------------------- promotion between layers

/// The last component of a path: what follows its last `/`.
pub open spec fn file_name_of(p: Seq<char>) -> Seq<char>
    decreases p.len(),
{
    if p.len() == 0 {
        seq![]
    } else if p.last() == '/' {
        seq![]
    } else {
        file_name_of(p.drop_last()).push(p.last())
    }
}

fn file_name_exec(p: &str) -> (r: String)
    ensures
        r@ == file_name_of(p@),
{
    let c = to_chars(p);
    let mut v: Vec<char> = Vec::new();
    let mut i: usize = 0;
    while i < c.len()
        invariant
            i <= c@.len(),
            c@ == p@,
            v@ == file_name_of(c@.take(i as int)),
        decreases c.len() - i,
    {
        assert(c@.take(i + 1).drop_last() =~= c@.take(i as int));
        if c[i] == '/' {
            v = Vec::new();
        } else {
            v.push(c[i]);
        }
        assert(v@ =~= file_name_of(c@.take(i + 1)));
        i = i + 1;
    }
    assert(c@.take(c@.len() as int) =~= c@);
    from_chars(&v)
}

/// A promotion to make: the entry's position, its file, the file it moves to (and that
/// file's name), and the entry at its new layer.
#[derive(Debug)]
pub struct Promotion {
    pub pos: usize,
    pub source: String,
    pub dest: String,
    pub file_name: String,
    pub entry: Entry,
}

/// The position of the first layer-`L3` entry with the id, if there is one.
pub open spec fn l3_index(es: Seq<Entry>, id: Seq<char>) -> Option<int>
    decreases es.len(),
{
    if es.len() == 0 {
        None
    } else {
        match l3_index(es.drop_last(), id) {
            Some(j) => Some(j),
            None => if es.last().id@ == id && es.last().layer@ == "L3"@ {
                Some(es.len() - 1)
            } else {
                None
            },
        }
    }
}

proof fn lemma_l3_index(es: Seq<Entry>, id: Seq<char>)
    ensures
        match l3_index(es, id) {
            Some(j) => 0 <= j < es.len() && es[j].id@ == id && es[j].layer@ == "L3"@ && forall|k: int|
                0 <= k < j ==> !(es[k].id@ == id && es[k].layer@ == "L3"@),
            None => forall|k: int| 0 <= k < es.len() ==> !(es[k].id@ == id && es[k].layer@ == "L3"@),
        },
    decreases es.len(),
{
    if es.len() > 0 {
        lemma_l3_index(es.drop_last(), id);
        assert(forall|k: int| 0 <= k < es.len() - 1 ==> es.drop_last()[k] == es[k]);
    }
}

/// Where a promoted entry's file goes: `tech-wiki/` for `L1`, `biz-wiki/<domain or _>/` for
/// `L2`, under the repository `repo`, keeping its file name.
pub open spec fn promotion_dest(repo: Seq<char>, e: Entry, layer: Seq<char>, name: Seq<char>) -> Seq<
    char,
> {
    if layer == "L1"@ {
        path_join(path_join(repo, "tech-wiki"@), name)
    } else {
        path_join(path_join(path_join(repo, "biz-wiki"@), domain_key(e)), name)
    }
}

/// Plans promoting the L3 entry `entry_id` of the repository `repo` to layer `target_layer`
/// (`L1` or `L2`): the first L3 entry with the id is taken, and it must have been read from
/// a file.
pub fn promote_entry(repo: &str, entries: &Vec<Entry>, entry_id: &str, target_layer: &str) -> (r:
    Result<Promotion, CairnError>)
    ensures
        !is_safe_name(entry_id@) ==> (r matches Err(CairnError::Usage(m)) && m@ == "invalid id "@
            + debug_text(entry_id@) + " (allowed: letters, digits, . _ -)"@),
        is_safe_name(entry_id@) && target_layer@ != "L1"@ && target_layer@ != "L2"@ ==> (r matches Err(
            CairnError::Usage(m),
        ) && m@ == "promotion target must be L1 or L2"@),
        is_safe_name(entry_id@) && (target_layer@ == "L1"@ || target_layer@ == "L2"@) ==> match l3_index(
            entries@,
            entry_id@,
        ) {
            Some(j) if entries@[j].path is Some => r matches Ok(p) && {
                let e = entries@[j];
                let src = e.path->0@;
                &&& p.pos == j
                &&& p.source@ == src
                &&& p.file_name@ == file_name_of(src)
                &&& p.dest@ == promotion_dest(repo@, e, target_layer@, file_name_of(src))
                &&& p.entry.layer@ == target_layer@
                &&& p.entry.id == e.id && p.entry.title == e.title && p.entry.category == e.category
                &&& p.entry.domain == e.domain && p.entry.kind == e.kind
                &&& p.entry.guideline_polarity == e.guideline_polarity
                &&& p.entry.maturity == e.maturity && p.entry.knowledge_class == e.knowledge_class
                &&& p.entry.tags@ == e.tags@ && p.entry.applicable_phases@ == e.applicable_phases@
                &&& crate::knowledge::model::same_evidence(p.entry.evidence, e.evidence)
                &&& p.entry.history@ == e.history@ && p.entry.body == e.body
                &&& p.entry.path == e.path
            },
            _ => r matches Err(CairnError::Usage(m)) && m@ == "no L3 entry with id "@ + entry_id@
                + " found in "@ + repo@,
        },
{
    match safe_id(entry_id) {
        Err(e) => {
            return Err(e);
        },
        Ok(_) => {},
    }
    let is_l1 = str_eq(target_layer, "L1");
    if !is_l1 && !str_eq(target_layer, "L2") {
        return Err(usage(string_of("promotion target must be L1 or L2")));
    }
    proof {
        lemma_l3_index(entries@, entry_id@);
    }
    let mut j: usize = 0;
    while j < entries.len() && !(str_eq(entries[j].id.as_str(), entry_id) && str_eq(
        entries[j].layer.as_str(),
        "L3",
    ))
        invariant
            j <= entries@.len(),
            forall|k: int| 0 <= k < j ==> !(entries@[k].id@ == entry_id@ && entries@[k].layer@ == "L3"@),
        decreases entries.len() - j,
    {
        j = j + 1;
    }
    if j >= entries.len() || entries[j].path.is_none() {
        let mut m = concat("no L3 entry with id ", entry_id);
        append(&mut m, " found in ");
        append(&mut m, repo);
        proof {
            if j < entries@.len() {
                assert(l3_index(entries@, entry_id@) == Some(j as int));
            }
        }
        return Err(usage(m));
    }
    assert(l3_index(entries@, entry_id@) == Some(j as int));
    let e = &entries[j];
    let source = match &e.path {
        Some(p) => p.clone(),
        None => String::new(),
    };
    let name = file_name_exec(source.as_str());
    let dest = if is_l1 {
        let t = join_path(repo, "tech-wiki");
        join_path(t.as_str(), name.as_str())
    } else {
        let d = match &e.domain {
            Some(d) => d.clone(),
            None => string_of("_"),
        };
        let b = join_path(repo, "biz-wiki");
        let bd = join_path(b.as_str(), d.as_str());
        join_path(bd.as_str(), name.as_str())
    };
    let mut promoted = copy_entry(e);
    promoted.layer = string_of(target_layer);
    proof {
        reveal_strlit("L1");
        reveal_strlit("L2");
    }
    Ok(Promotion { pos: j, source, dest, file_name: name, entry: promoted })
}

/// Whether a planned promotion would overwrite another file: the destination exists and is
/// not the entry's own file.
pub fn promotion_refused(p: &Promotion, dest_exists: bool) -> (r: Option<CairnError>)
    ensures
        dest_exists && p.dest@ != p.source@ ==> (r matches Some(CairnError::Usage(m)) && m@
            == "destination "@ + p.file_name@ + " already exists — refusing to overwrite"@),
        !(dest_exists && p.dest@ != p.source@) ==> r is None,
{
    if dest_exists && !str_eq(p.dest.as_str(), p.source.as_str()) {
        let mut m = concat("destination ", p.file_name.as_str());
        append(&mut m, " already exists — refusing to overwrite");
        Some(usage(m))
    } else {
        None
    }
}

/// The log line of a promotion: `- <date> PROMOTE <id> -> <layer>`.
pub fn promote_log_line(date: &str, entry_id: &str, target_layer: &str) -> (r: String)
    ensures
        r@ == "- "@ + date@ + " PROMOTE "@ + entry_id@ + " -> "@ + target_layer@,
{
    let mut s = concat("- ", date);
    append(&mut s, " PROMOTE ");
    append(&mut s, entry_id);
    append(&mut s, " -> ");
    append(&mut s, target_layer);
    s
}

// ---------------------------------------------------------------- counts

/// A repository's counts: entries in all, per maturity and per category (in string order),
/// how many are referenced at all, and the orphans.
#[derive(Debug)]
pub struct KbStats {
    pub total: u64,
    pub by_maturity: Vec<(String, u64)>,
    pub by_category: Vec<(String, u64)>,
    pub referenced: u64,
    pub orphans: Vec<String>,
}

pub open spec fn maturities(es: Seq<Entry>) -> Seq<String> {
    Seq::new(es.len(), |i: int| es[i].maturity)
}

pub open spec fn categories(es: Seq<Entry>) -> Seq<String> {
    Seq::new(es.len(), |i: int| es[i].category)
}

/// The number of entries referenced at least once.
pub open spec fn referenced_count(es: Seq<Entry>) -> nat
    decreases es.len(),
{
    if es.len() == 0 {
        0
    } else {
        referenced_count(es.drop_last()) + if es.last().evidence.ref_count > 0 {
            1nat
        } else {
            0nat
        }
    }
}

/// Counts a repository's entries.
pub fn stats(entries: &Vec<Entry>) -> (r: KbStats)
    requires
        entries@.len() <= u64::MAX,
    ensures
        r.total == entries@.len(),
        count_views(r.by_maturity@) == reference_counts_spec(maturities(entries@)),
        count_views(r.by_category@) == reference_counts_spec(categories(entries@)),
        r.referenced == referenced_count(entries@),
        string_seq_views(r.orphans@) == ids_where(entries@, |e: Entry| is_orphan(e)),
{
    let mut ms: Vec<String> = Vec::new();
    let mut cs: Vec<String> = Vec::new();
    let mut referenced: u64 = 0;
    let mut i: usize = 0;
    while i < entries.len()
        invariant
            i <= entries@.len(),
            ms@ == maturities(entries@.take(i as int)),
            cs@ == categories(entries@.take(i as int)),
            referenced == referenced_count(entries@.take(i as int)),
            referenced <= i,
        decreases entries.len() - i,
    {
        assert(entries@.take(i + 1).drop_last() =~= entries@.take(i as int));
        ms.push(entries[i].maturity.clone());
        cs.push(entries[i].category.clone());
        if entries[i].evidence.ref_count > 0 {
            referenced = referenced + 1;
        }
        assert(ms@ =~= maturities(entries@.take(i + 1)));
        assert(cs@ =~= categories(entries@.take(i + 1)));
        i = i + 1;
    }
    assert(entries@.take(entries@.len() as int) =~= entries@);
    let by_maturity = reference_counts(&ms);
    let by_category = reference_counts(&cs);
    let orphans = crate::knowledge::lint::orphans_of(entries);
    KbStats { total: entries.len() as u64, by_maturity, by_category, referenced, orphans }
}

// ---------------------------------------------------------------- syncing with the remote

/// What a pull of the shared repository reports: whether it pulled, git's output when it
/// did, and the reason when it did not.
#[derive(Debug)]
pub struct PullReport {
    pub pulled: bool,
    pub detail: Option<String>,
    pub reason: Option<String>,
}

/// What a pull has learnt from git.
#[derive(Debug)]
pub enum PullEvent {
    /// Whether the repository has a remote.
    Remote(bool),
    /// What `git pull --ff-only` printed, or how it failed.
    Pulled(Result<String, String>),
}

/// What a pull does next: run `git pull --ff-only`, or report.
#[derive(Debug)]
pub enum PullAction {
    Pull,
    Report(PullReport),
}

/// The next step of a pull: without a remote there is nothing to pull; with one, git pulls
/// and its output or failure is the report.
pub fn pull_step(e: PullEvent) -> (a: PullAction)
    ensures
        match e {
            PullEvent::Remote(has) => if has {
                a is Pull
            } else {
                a matches PullAction::Report(r) && !r.pulled && r.detail is None && (r.reason matches Some(
                    m,
                ) && m@ == "no remote configured (local-only mode)"@)
            },
            PullEvent::Pulled(Ok(out)) => a matches PullAction::Report(r) && r.pulled && r.detail
                == Some(out) && r.reason is None,
            PullEvent::Pulled(Err(m)) => a matches PullAction::Report(r) && !r.pulled && r.detail
                is None && r.reason == Some(m),
        },
{
    match e {
        PullEvent::Remote(has) => if has {
            PullAction::Pull
        } else {
            PullAction::Report(
                PullReport {
                    pulled: false,
                    detail: None,
                    reason: Some(string_of("no remote configured (local-only mode)")),
                },
            )
        },
        PullEvent::Pulled(Ok(out)) => PullAction::Report(
            PullReport { pulled: true, detail: Some(out), reason: None },
        ),
        PullEvent::Pulled(Err(m)) => PullAction::Report(
            PullReport { pulled: false, detail: None, reason: Some(m) },
        ),
    }
}

/// What a push of the shared repository reports: whether it committed, whether it pushed
/// (not said when nothing was committed), and the reason when it stopped short.
#[derive(Debug)]
pub struct PushReport {
    pub committed: bool,
    pub pushed: Option<bool>,
    pub reason: Option<String>,
}

/// What a push has learnt from git, after staging everything.
#[derive(Debug)]
pub enum PushEvent {
    /// What `git status --porcelain` printed.
    Status(String),
    /// The commit was made; whether the repository has a remote.
    Committed(bool),
    /// `git push` succeeded, or how it failed.
    Pushed(Result<(), String>),
}

/// What a push does next: commit, push, or report.
#[derive(Debug)]
pub enum PushAction {
    Commit,
    Push,
    Report(PushReport),
}

/// The next step of a push: with nothing staged there is nothing to commit; after the
/// commit, without a remote the push stops there; otherwise git pushes.
pub fn push_step(e: PushEvent) -> (a: PushAction)
    ensures
        match e {
            PushEvent::Status(st) => if st@.len() == 0 {
                a matches PushAction::Report(r) && !r.committed && r.pushed is None
                    && (r.reason matches Some(m) && m@ == "nothing to commit"@)
            } else {
                a is Commit
            },
            PushEvent::Committed(remote) => if remote {
                a is Push
            } else {
                a matches PushAction::Report(r) && r.committed && r.pushed == Some(false)
                    && (r.reason matches Some(m) && m@ == "no remote (committed locally)"@)
            },
            PushEvent::Pushed(Ok(_)) => a matches PushAction::Report(r) && r.committed && r.pushed
                == Some(true) && r.reason is None,
            PushEvent::Pushed(Err(m)) => a matches PushAction::Report(r) && r.committed
                && r.pushed == Some(false) && r.reason == Some(m),
        },
{
    match e {
        PushEvent::Status(st) => if st.as_str().unicode_len() == 0 {
            PushAction::Report(
                PushReport {
                    committed: false,
                    pushed: None,
                    reason: Some(string_of("nothing to commit")),
                },
            )
        } else {
            PushAction::Commit
        },
        PushEvent::Committed(remote) => if remote {
            PushAction::Push
        } else {
            PushAction::Report(
                PushReport {
                    committed: true,
                    pushed: Some(false),
                    reason: Some(string_of("no remote (committed locally)")),
                },
            )
        },
        PushEvent::Pushed(Ok(_)) => PushAction::Report(
            PushReport { committed: true, pushed: Some(true), reason: None },
        ),
        PushEvent::Pushed(Err(m)) => PushAction::Report(
            PushReport { committed: true, pushed: Some(false), reason: Some(m) },
        ),
    }
}

} // verus!
