//! Budget-bounded knowledge injection: the entries that apply to a stage, best first, as many
//! as fit a budget of lines, and never a silent cut.
use crate::knowledge::model::{entry_text, serialize_entry, Entry};
use crate::knowledge::refs::{has_text, holds_text};
use crate::knowledge::vocab::{class_rank, class_rank_spec, maturity_rank, maturity_rank_spec};
use crate::sort::{lemma_sorted_perm, sort_stable, sorted_spec, Ordered};
use crate::text::{join_seq, seq_lt, str_eq, str_lt, string_of, to_chars};
use vstd::prelude::*;

verus! {

/// An entry that applies, with what it is ranked by: its maturity and class ranks, and its id.
#[derive(Debug)]
pub struct Candidate {
    pub idx: usize,
    pub mr: i32,
    pub cr: i32,
    pub id: String,
}

impl Ordered for Candidate {
    /// Higher maturity first, then higher class, then the smaller id.
    open spec fn before(&self, other: &Self) -> bool {
        ||| self.mr > other.mr
        ||| self.mr == other.mr && self.cr > other.cr
        ||| self.mr == other.mr && self.cr == other.cr && seq_lt(self.id@, other.id@)
    }

    fn is_before(&self, other: &Self) -> (r: bool) {
        if self.mr != other.mr {
            self.mr > other.mr
        } else if self.cr != other.cr {
            self.cr > other.cr
        } else {
            str_lt(self.id.as_str(), other.id.as_str())
        }
    }
}

/// An entry cut for the budget.
#[derive(Debug)]
pub struct DroppedEntry {
    pub id: String,
    pub title: String,
    pub reason: String,
}

/// What a query injects.
#[derive(Debug)]
pub struct QueryResult {
    pub stage: String,
    pub budget_lines: i64,
    pub injected_ids: Vec<String>,
    pub dropped: Vec<DroppedEntry>,
    pub text: String,
    pub lines: i64,
    pub over_budget: bool,
}

/// An entry applies to a stage when the stage is one of its phases, and it is tech knowledge
/// (visible everywhere) or business knowledge of the requested domain.
pub open spec fn applies_spec(e: Entry, stage: Seq<char>, domain: Option<Seq<char>>) -> bool {
    &&& has_text(e.applicable_phases@, stage)
    &&& (e.category@ == "tech"@ || (domain matches Some(d) && e.domain matches Some(x) && x@ == d))
}

/// Whether an entry applies to a stage (see `applies_spec`).
pub fn applies(e: &Entry, stage: &str, domain: Option<&str>) -> (r: bool)
    ensures
        r == applies_spec(
            *e,
            stage@,
            match domain {
                Some(d) => Some(d@),
                None => None,
            },
        ),
{
    if !holds_text(&e.applicable_phases, stage) {
        return false;
    }
    if str_eq(e.category.as_str(), "tech") {
        return true;
    }
    match (domain, &e.domain) {
        (Some(d), Some(x)) => str_eq(x.as_str(), d),
        _ => false,
    }
}

/// The candidate for entry `i`.
pub open spec fn candidate_of(es: Seq<Entry>, i: int) -> Candidate {
    Candidate {
        idx: i as usize,
        mr: maturity_rank_spec(es[i].maturity@),
        cr: class_rank_spec(es[i].knowledge_class@),
        id: es[i].id,
    }
}

/// The entries that apply, as candidates, in order.
pub open spec fn candidates(es: Seq<Entry>, stage: Seq<char>, domain: Option<Seq<char>>) -> Seq<
    Candidate,
>
    decreases es.len(),
{
    if es.len() == 0 {
        seq![]
    } else if applies_spec(es.last(), stage, domain) {
        candidates(es.drop_last(), stage, domain).push(candidate_of(es, es.len() - 1))
    } else {
        candidates(es.drop_last(), stage, domain)
    }
}

proof fn lemma_candidates(es: Seq<Entry>, stage: Seq<char>, domain: Option<Seq<char>>)
    requires
        es.len() <= usize::MAX,
    ensures
        forall|k: int|
            0 <= k < candidates(es, stage, domain).len() ==> {
                let c = #[trigger] candidates(es, stage, domain)[k];
                &&& 0 <= c.idx < es.len()
                &&& c == candidate_of(es, c.idx as int)
            },
    decreases es.len(),
{
    if es.len() > 0 {
        lemma_candidates(es.drop_last(), stage, domain);
        let p = candidates(es.drop_last(), stage, domain);
        assert forall|k: int| 0 <= k < p.len() implies candidate_of(es.drop_last(), #[trigger] p[k].idx as int)
            == candidate_of(es, p[k].idx as int) by {
            assert(es.drop_last()[p[k].idx as int] == es[p[k].idx as int]);
        }
    }
}

/// The number of line breaks in `s`.
pub open spec fn newlines(s: Seq<char>) -> nat
    decreases s.len(),
{
    if s.len() == 0 {
        0
    } else {
        newlines(s.drop_last()) + if s.last() == '\n' {
            1nat
        } else {
            0nat
        }
    }
}

/// The block a candidate injects: its entry file's text.
pub open spec fn block_of(c: Candidate, es: Seq<Entry>, fms: Seq<String>) -> Seq<char> {
    entry_text(fms[c.idx as int]@, es[c.idx as int].body@)
}

/// The greedy pass over the ranked candidates: the positions injected, the positions
/// dropped, the lines used, and whether the first block alone is over the budget. The first
/// candidate is always injected; each later one is injected if it still fits, else dropped.
pub open spec fn plan(c: Seq<Candidate>, es: Seq<Entry>, fms: Seq<String>, budget: int) -> (
    Seq<int>,
    Seq<int>,
    int,
    bool,
)
    decreases c.len(),
{
    if c.len() == 0 {
        (seq![], seq![], 0, false)
    } else {
        let (inj, drp, used, over) = plan(c.drop_last(), es, fms, budget);
        let n = c.len() - 1;
        let bl = newlines(block_of(c.last(), es, fms)) as int;
        if inj.len() == 0 {
            (seq![n], drp, used + bl, bl > budget)
        } else if used + bl > budget {
            (inj, drp.push(n), used, over)
        } else {
            (inj.push(n), drp, used + bl, over)
        }
    }
}

/// The candidates ranked best first.
pub open spec fn ranked(es: Seq<Entry>, stage: Seq<char>, domain: Option<Seq<char>>) -> Seq<
    Candidate,
> {
    sorted_spec(candidates(es, stage, domain))
}

fn count_newlines(s: &str) -> (r: usize)
    ensures
        r == newlines(s@),
        r <= s@.len(),
{
    let c = to_chars(s);
    let mut n: usize = 0;
    let mut i: usize = 0;
    while i < c.len()
        invariant
            i <= c@.len(),
            c@ == s@,
            n == newlines(c@.take(i as int)),
            n <= i,
        decreases c.len() - i,
    {
        assert(c@.take(i + 1).drop_last() =~= c@.take(i as int));
        if c[i] == '\n' {
            n = n + 1;
        }
        i = i + 1;
    }
    assert(c@.take(c@.len() as int) =~= c@);
    n
}

pub open spec fn index_view(v: Seq<usize>) -> Seq<int> {
    Seq::new(v.len(), |i: int| v[i] as int)
}

proof fn lemma_plan_bounds(c: Seq<Candidate>, es: Seq<Entry>, fms: Seq<String>, budget: int)
    ensures
        ({
            let (inj, drp, u, o) = plan(c, es, fms, budget);
            &&& forall|x: int| 0 <= x < inj.len() ==> 0 <= #[trigger] inj[x] < c.len()
            &&& forall|x: int| 0 <= x < drp.len() ==> 0 <= #[trigger] drp[x] < c.len()
        }),
    decreases c.len(),
{
    if c.len() > 0 {
        lemma_plan_bounds(c.drop_last(), es, fms, budget);
        let (inj, drp, u, o) = plan(c.drop_last(), es, fms, budget);
        let (inj2, drp2, u2, o2) = plan(c, es, fms, budget);
        assert forall|x: int| 0 <= x < inj2.len() implies 0 <= #[trigger] inj2[x] < c.len() by {
            if x < inj.len() && inj.len() > 0 {
                assert(inj2[x] == inj[x]);
            }
        }
        assert forall|x: int| 0 <= x < drp2.len() implies 0 <= #[trigger] drp2[x] < c.len() by {
            if x < drp.len() {
                assert(drp2[x] == drp[x]);
            }
        }
    }
}

/// The block and its line count for a candidate.
fn block_for(c: &Candidate, entries: &Vec<Entry>, frontmatters: &Vec<String>) -> (r: (String, i64))
    requires
        c.idx < entries@.len(),
        frontmatters@.len() == entries@.len(),
        forall|i: int|
            0 <= i < entries@.len() ==> #[trigger] frontmatters@[i]@.len() + entries@[i].body@.len()
                + 16 <= i64::MAX,
    ensures
        r.0@ == block_of(*c, entries@, frontmatters@),
        r.1 == newlines(block_of(*c, entries@, frontmatters@)),
        0 <= r.1,
{
    let e = &entries[c.idx];
    let block = serialize_entry(e, frontmatters[c.idx].as_str());
    let bl = count_newlines(block.as_str());
    assert(block@.len() <= frontmatters@[c.idx as int]@.len() + entries@[c.idx as int].body@.len()
        + 16) by {
        crate::text::lemma_trim_char_len(entries@[c.idx as int].body@, '\n');
        reveal_strlit("---\n");
        reveal_strlit("---\n\n");
        reveal_strlit("\n");
    }
    (block, bl as i64)
}

/// The greedy pass (`plan`) over ranked candidates: the positions injected and dropped, the
/// lines used and whether the first block is over the budget.
fn choose_blocks(rk: &Vec<Candidate>, entries: &Vec<Entry>, frontmatters: &Vec<String>, budget_lines: i64)
    -> (r: (Vec<usize>, Vec<usize>, i64, bool))
    requires
        frontmatters@.len() == entries@.len(),
        forall|i: int|
            0 <= i < entries@.len() ==> #[trigger] frontmatters@[i]@.len() + entries@[i].body@.len()
                + 16 <= i64::MAX,
        forall|j: int| 0 <= j < rk@.len() ==> (#[trigger] rk@[j]).idx < entries@.len(),
    ensures
        (index_view(r.0@), index_view(r.1@), r.2 as int, r.3) == plan(
            rk@,
            entries@,
            frontmatters@,
            budget_lines as int,
        ),
{
    let ghost rs = rk@;
    let ghost budget = budget_lines as int;
    let mut inj: Vec<usize> = Vec::new();
    let mut drp: Vec<usize> = Vec::new();
    let mut used: i64 = 0;
    let mut over = false;
    let mut k: usize = 0;
    assert(rs.take(0) =~= Seq::<Candidate>::empty());
    assert(index_view(inj@) =~= Seq::<int>::empty());
    assert(index_view(drp@) =~= Seq::<int>::empty());
    while k < rk.len()
        invariant
            k <= rs.len(),
            rs == rk@,
            budget == budget_lines as int,
            frontmatters@.len() == entries@.len(),
            forall|i: int|
                0 <= i < entries@.len() ==> #[trigger] frontmatters@[i]@.len()
                    + entries@[i].body@.len() + 16 <= i64::MAX,
            forall|j: int| 0 <= j < rs.len() ==> (#[trigger] rs[j]).idx < entries@.len(),
            (index_view(inj@), index_view(drp@), used as int, over) == plan(
                rs.take(k as int),
                entries@,
                frontmatters@,
                budget,
            ),
            0 <= used,
            inj@.len() == 0 ==> used == 0,
            inj@.len() <= 1 || used <= budget,
        decreases rk.len() - k,
    {
        assert(rs.take(k + 1).drop_last() =~= rs.take(k as int));
        assert(rs.take(k + 1).last() == rs[k as int]);
        let (_block, bl) = block_for(&rk[k], entries, frontmatters);
        let ghost iv = index_view(inj@);
        let ghost dv = index_view(drp@);
        if inj.len() == 0 {
            inj.push(k);
            used = used + bl;
            over = bl > budget_lines;
            assert(index_view(inj@) =~= seq![k as int]);
        } else if budget_lines < 0 || bl > budget_lines - used {
            drp.push(k);
            assert(index_view(drp@) =~= dv.push(k as int));
        } else {
            inj.push(k);
            used = used + bl;
            assert(index_view(inj@) =~= iv.push(k as int));
        }
        k = k + 1;
    }
    assert(rs.take(rs.len() as int) =~= rs);
    (inj, drp, used, over)
}

/// Injects the knowledge that applies to `stage` within `budget_lines` lines. `frontmatters[i]`
/// is the YAML encoding of `entries[i]`'s fields; each injected block is the entry's file text.
pub fn query(
    entries: &Vec<Entry>,
    frontmatters: &Vec<String>,
    stage: &str,
    budget_lines: i64,
    domain: Option<&str>,
) -> (r: QueryResult)
    requires
        frontmatters@.len() == entries@.len(),
        forall|i: int|
            0 <= i < entries@.len() ==> #[trigger] frontmatters@[i]@.len() + entries@[i].body@.len()
                + 16 <= i64::MAX,
    ensures
        ({
            let rk = ranked(
                entries@,
                stage@,
                match domain {
                    Some(d) => Some(d@),
                    None => None,
                },
            );
            let (inj, drp, used, over) = plan(rk, entries@, frontmatters@, budget_lines as int);
            &&& r.stage@ == stage@
            &&& r.budget_lines == budget_lines
            &&& r.injected_ids@.len() == inj.len()
            &&& forall|k: int| 0 <= k < inj.len() ==> #[trigger] r.injected_ids@[k] == rk[inj[k]].id
            &&& r.dropped@.len() == drp.len()
            &&& forall|k: int|
                0 <= k < drp.len() ==> {
                    let c = rk[drp[k]];
                    &&& (#[trigger] r.dropped@[k]).id == c.id
                    &&& r.dropped@[k].title == entries@[c.idx as int].title
                    &&& r.dropped@[k].reason@ == "budget"@
                }
            &&& r.text@ == join_seq(
                Seq::new(inj.len(), |k: int| block_of(rk[inj[k]], entries@, frontmatters@)),
                "\n"@,
            )
            &&& r.lines == used
            &&& r.over_budget == over
        }),
{
    let ghost dom = match domain {
        Some(d) => Some(d@),
        None => None,
    };
    let mut cands: Vec<Candidate> = Vec::new();
    let mut i: usize = 0;
    while i < entries.len()
        invariant
            i <= entries@.len(),
            cands@ == candidates(entries@.take(i as int), stage@, dom),
            dom == match domain {
                Some(d) => Some(d@),
                None => None,
            },
        decreases entries.len() - i,
    {
        let ghost es = entries@.take(i + 1);
        assert(es.drop_last() =~= entries@.take(i as int));
        assert(es.last() == entries@[i as int]);
        let e = &entries[i];
        if applies(e, stage, domain) {
            let c = Candidate {
                idx: i,
                mr: maturity_rank(e.maturity.as_str()),
                cr: class_rank(e.knowledge_class.as_str()),
                id: e.id.clone(),
            };
            assert(c == candidate_of(es, es.len() - 1));
            cands.push(c);
        }
        i = i + 1;
    }
    assert(entries@.take(entries@.len() as int) =~= entries@);
    proof {
        lemma_candidates(entries@, stage@, dom);
        crate::sort::lemma_sorted_perm(cands@);
    }
    let rk = sort_stable(cands);
    let ghost rs = rk@;
    proof {
        broadcast use vstd::seq_lib::group_to_multiset_ensures;

        assert forall|k: int| 0 <= k < rs.len() implies {
            let c = #[trigger] rs[k];
            &&& 0 <= c.idx < entries@.len()
            &&& c == candidate_of(entries@, c.idx as int)
        } by {
            assert(rs.to_multiset().count(rs[k]) > 0);
            assert(candidates(entries@, stage@, dom).contains(rs[k]));
        }
    }
    let (inj, drp, used, over) = choose_blocks(&rk, entries, frontmatters, budget_lines);
    proof {
        lemma_plan_bounds(rs, entries@, frontmatters@, budget_lines as int);
    }
    let ghost pl = plan(rs, entries@, frontmatters@, budget_lines as int);
    assert forall|y: int| 0 <= y < inj@.len() implies (#[trigger] inj@[y]) < rs.len() by {
        assert(index_view(inj@)[y] == inj@[y] as int);
    }
    assert forall|z: int| 0 <= z < drp@.len() implies (#[trigger] drp@[z]) < rs.len() by {
        assert(index_view(drp@)[z] == drp@[z] as int);
    }
    let mut ids: Vec<String> = Vec::new();
    let mut blocks: Vec<String> = Vec::new();
    let mut x: usize = 0;
    while x < inj.len()
        invariant
            x <= inj@.len(),
            rs == rk@,
            index_view(inj@) == pl.0,
            forall|y: int| 0 <= y < inj@.len() ==> (#[trigger] inj@[y]) < rs.len(),
            frontmatters@.len() == entries@.len(),
            forall|i: int|
                0 <= i < entries@.len() ==> #[trigger] frontmatters@[i]@.len()
                    + entries@[i].body@.len() + 16 <= i64::MAX,
            forall|j: int|
                0 <= j < rs.len() ==> {
                    let c = #[trigger] rs[j];
                    &&& 0 <= c.idx < entries@.len()
                    &&& c == candidate_of(entries@, c.idx as int)
                },
            ids@.len() == x,
            blocks@.len() == x,
            forall|y: int| 0 <= y < x ==> #[trigger] ids@[y] == rs[pl.0[y]].id,
            forall|y: int|
                0 <= y < x ==> (#[trigger] blocks@[y])@ == block_of(
                    rs[pl.0[y]],
                    entries@,
                    frontmatters@,
                ),
        decreases inj.len() - x,
    {
        assert(pl.0[x as int] == inj@[x as int]);
        assert(0 <= pl.0[x as int] < rs.len());
        let c = &rk[inj[x]];
        let (block, _bl) = block_for(c, entries, frontmatters);
        ids.push(c.id.clone());
        blocks.push(block);
        x = x + 1;
    }
    let mut dropped: Vec<DroppedEntry> = Vec::new();
    let mut y: usize = 0;
    while y < drp.len()
        invariant
            y <= drp@.len(),
            rs == rk@,
            index_view(drp@) == pl.1,
            forall|z: int| 0 <= z < drp@.len() ==> (#[trigger] drp@[z]) < rs.len(),
            forall|j: int|
                0 <= j < rs.len() ==> {
                    let c = #[trigger] rs[j];
                    &&& 0 <= c.idx < entries@.len()
                    &&& c == candidate_of(entries@, c.idx as int)
                },
            dropped@.len() == y,
            forall|z: int|
                0 <= z < y ==> {
                    let c = rs[pl.1[z]];
                    &&& (#[trigger] dropped@[z]).id == c.id
                    &&& dropped@[z].title == entries@[c.idx as int].title
                    &&& dropped@[z].reason@ == "budget"@
                },
        decreases drp.len() - y,
    {
        assert(pl.1[y as int] == drp@[y as int]);
        let c = &rk[drp[y]];
        proof {
            reveal_strlit("budget");
        }
        dropped.push(
            DroppedEntry { id: c.id.clone(), title: entries[c.idx].title.clone(), reason: string_of("budget") },
        );
        y = y + 1;
    }
    let text = crate::text::join_strings(&blocks, "\n");
    proof {
        assert(crate::text::string_seq_views(blocks@) =~= Seq::new(
            pl.0.len(),
            |x: int| block_of(rs[pl.0[x]], entries@, frontmatters@),
        ));
    }
    QueryResult {
        stage: string_of(stage),
        budget_lines,
        injected_ids: ids,
        dropped,
        text,
        lines: used,
        over_budget: over,
    }
}

// ---------------------------------------------------------------- laws

/// Truncation is never silent: every ranked candidate is either injected or reported
/// dropped, never both.
pub proof fn law_every_candidate_accounted_for(
    c: Seq<Candidate>,
    es: Seq<Entry>,
    fms: Seq<String>,
    budget: int,
)
    ensures
        ({
            let (inj, drp, u, o) = plan(c, es, fms, budget);
            &&& inj.len() + drp.len() == c.len()
            &&& forall|i: int| 0 <= i < c.len() ==> inj.contains(i) != drp.contains(i)
        }),
    decreases c.len(),
{
    if c.len() > 0 {
        law_every_candidate_accounted_for(c.drop_last(), es, fms, budget);
        lemma_plan_bounds(c.drop_last(), es, fms, budget);
        let (inj, drp, u, o) = plan(c.drop_last(), es, fms, budget);
        let (inj2, drp2, u2, o2) = plan(c, es, fms, budget);
        let n = c.len() - 1;
        assert(!inj.contains(n));
        assert(!drp.contains(n));
        assert forall|i: int| 0 <= i < c.len() implies inj2.contains(i) != drp2.contains(i) by {
            if i < n {
                if inj.contains(i) {
                    let w = choose|w: int| 0 <= w < inj.len() && inj[w] == i;
                    if inj.len() > 0 {
                        assert(inj2[w] == i);
                    }
                }
                if drp.contains(i) {
                    let w = choose|w: int| 0 <= w < drp.len() && drp[w] == i;
                    assert(drp2[w] == i);
                }
                if inj2.contains(i) {
                    let w = choose|w: int| 0 <= w < inj2.len() && inj2[w] == i;
                    if inj.len() > 0 && w < inj.len() {
                        assert(inj[w] == i);
                    }
                }
                if drp2.contains(i) {
                    let w = choose|w: int| 0 <= w < drp2.len() && drp2[w] == i;
                    if w < drp.len() {
                        assert(drp[w] == i);
                    }
                }
            } else {
                if inj2.len() > inj.len() {
                    assert(inj2[inj2.len() - 1] == n);
                } else {
                    assert(drp2[drp2.len() - 1] == n);
                }
            }
        }
    }
}

/// The best candidate is always injected, even alone over the budget; the budget flag is
/// raised only then, with nothing else injected, and otherwise the injected lines fit.
pub proof fn law_budget_is_kept_or_flagged(
    c: Seq<Candidate>,
    es: Seq<Entry>,
    fms: Seq<String>,
    budget: int,
)
    ensures
        ({
            let (inj, drp, u, o) = plan(c, es, fms, budget);
            &&& c.len() > 0 ==> inj.len() > 0 && inj[0] == 0
            &&& o ==> inj.len() == 1 && u > budget
            &&& !o && inj.len() > 0 ==> u <= budget
            &&& u >= 0
        }),
    decreases c.len(),
{
    if c.len() > 0 {
        law_budget_is_kept_or_flagged(c.drop_last(), es, fms, budget);
    }
}

proof fn lemma_candidates_members(es: Seq<Entry>, stage: Seq<char>, domain: Option<Seq<char>>)
    requires
        es.len() <= usize::MAX,
    ensures
        forall|k: int|
            0 <= k < candidates(es, stage, domain).len() ==> {
                let c = #[trigger] candidates(es, stage, domain)[k];
                &&& 0 <= c.idx < es.len()
                &&& c == candidate_of(es, c.idx as int)
                &&& applies_spec(es[c.idx as int], stage, domain)
            },
        forall|i: int|
            0 <= i < es.len() && applies_spec(#[trigger] es[i], stage, domain) ==> candidates(
                es,
                stage,
                domain,
            ).contains(candidate_of(es, i)),
    decreases es.len(),
{
    if es.len() > 0 {
        let q = es.drop_last();
        lemma_candidates_members(q, stage, domain);
        let p = candidates(q, stage, domain);
        assert forall|i: int| 0 <= i < q.len() implies candidate_of(q, i) == candidate_of(es, i) by {
            assert(q[i] == es[i]);
        }
        let c = candidates(es, stage, domain);
        assert forall|k: int| 0 <= k < c.len() implies {
            let x = #[trigger] c[k];
            &&& 0 <= x.idx < es.len()
            &&& x == candidate_of(es, x.idx as int)
            &&& applies_spec(es[x.idx as int], stage, domain)
        } by {
            if k < p.len() {
                assert(c[k] == p[k]);
                assert(q[p[k].idx as int] == es[p[k].idx as int]);
            }
        }
        assert forall|i: int|
            0 <= i < es.len() && applies_spec(#[trigger] es[i], stage, domain) implies c.contains(
            candidate_of(es, i),
        ) by {
            if i < es.len() - 1 {
                assert(q[i] == es[i]);
                assert(p.contains(candidate_of(q, i)));
                let k = choose|k: int| 0 <= k < p.len() && p[k] == candidate_of(q, i);
                assert(c[k] == p[k]);
            } else {
                assert(c[c.len() - 1] == candidate_of(es, i));
            }
        }
    }
}

/// Entries reach a query by stage and domain alone: every ranked candidate is an entry for
/// the stage that is tech or belongs to the query's domain, and every such entry is ranked,
/// once for each time it is listed.
pub proof fn law_ranked_entries_are_the_applicable_ones(
    es: Seq<Entry>,
    stage: Seq<char>,
    domain: Option<Seq<char>>,
)
    requires
        es.len() <= usize::MAX,
    ensures
        forall|k: int|
            0 <= k < ranked(es, stage, domain).len() ==> {
                let c = #[trigger] ranked(es, stage, domain)[k];
                &&& 0 <= c.idx < es.len()
                &&& applies_spec(es[c.idx as int], stage, domain)
            },
        forall|i: int|
            0 <= i < es.len() && applies_spec(#[trigger] es[i], stage, domain) ==> exists|k: int|
                0 <= k < ranked(es, stage, domain).len() && ranked(es, stage, domain)[k].idx == i,
{
    broadcast use vstd::seq_lib::group_to_multiset_ensures;

    let c = candidates(es, stage, domain);
    let r = ranked(es, stage, domain);
    lemma_candidates_members(es, stage, domain);
    lemma_sorted_perm(c);
    assert forall|k: int| 0 <= k < r.len() implies {
        let x = #[trigger] r[k];
        &&& 0 <= x.idx < es.len()
        &&& applies_spec(es[x.idx as int], stage, domain)
    } by {
        assert(r.contains(r[k]));
        assert(r.to_multiset().count(r[k]) > 0);
        assert(c.contains(r[k]));
        let j = choose|j: int| 0 <= j < c.len() && c[j] == r[k];
        assert(c[j] == r[k]);
    }
    assert forall|i: int| 0 <= i < es.len() && applies_spec(#[trigger] es[i], stage, domain) implies exists|k: int|
        0 <= k < r.len() && r[k].idx == i by {
        assert(c.contains(candidate_of(es, i)));
        assert(c.to_multiset().count(candidate_of(es, i)) > 0);
        assert(r.contains(candidate_of(es, i)));
        let k = choose|k: int| 0 <= k < r.len() && r[k] == candidate_of(es, i);
        assert(r[k].idx == i);
    }
}

/// Business knowledge stays in its domain: an entry that is not tech knowledge is ranked for a
/// query only when the query names a domain and the entry belongs to exactly that domain; tech
/// knowledge for the stage is ranked whatever the domain.
pub proof fn law_business_knowledge_stays_in_its_domain(
    es: Seq<Entry>,
    stage: Seq<char>,
    domain: Option<Seq<char>>,
)
    requires
        es.len() <= usize::MAX,
    ensures
        forall|k: int|
            0 <= k < ranked(es, stage, domain).len() ==> {
                let e = es[(#[trigger] ranked(es, stage, domain)[k]).idx as int];
                e.category@ != "tech"@ ==> (domain is Some && e.domain is Some
                    && e.domain->0@ == domain->0)
            },
        forall|i: int|
            0 <= i < es.len() && (#[trigger] es[i]).category@ == "tech"@ && has_text(
                es[i].applicable_phases@,
                stage,
            ) ==> exists|k: int|
                0 <= k < ranked(es, stage, domain).len() && ranked(es, stage, domain)[k].idx == i,
{
    law_ranked_entries_are_the_applicable_ones(es, stage, domain);
    let r = ranked(es, stage, domain);
    assert forall|k: int| 0 <= k < r.len() implies {
        let e = es[(#[trigger] r[k]).idx as int];
        e.category@ != "tech"@ ==> (domain is Some && e.domain is Some && e.domain->0@ == domain->0)
    } by {
        assert(applies_spec(es[r[k].idx as int], stage, domain));
    }
    assert forall|i: int|
        0 <= i < es.len() && (#[trigger] es[i]).category@ == "tech"@ && has_text(
            es[i].applicable_phases@,
            stage,
        ) implies exists|k: int| 0 <= k < r.len() && r[k].idx == i by {
        assert(applies_spec(es[i], stage, domain));
    }
}

} // verus!
