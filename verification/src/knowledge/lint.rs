//! Lint of a knowledge base: orphans, stale entries, duplicate titles, schema violations and
//! contradicting guidelines.
use crate::clock::Date;
use crate::knowledge::lifecycle::{age_thirtieths, reference_age};
use crate::knowledge::model::Entry;
use crate::knowledge::refs::{has_text, holds_text};
use crate::knowledge::schema::{entry_errors, iter_errors};
use crate::sort::{insert_sorted, sort_stable, sorted_spec, Keyed};
use crate::text::{
    append, from_chars, join_seq, join_strings, lowercase_text, seq_lt, str_eq,
    string_seq_views, to_chars, to_lowercase, trim, trim_chars,
};
use vstd::prelude::*;

verus! {

/// Age, in thirtieths of a month, from which a reference is stale: twelve months.
pub const STALE_AGE: i64 = 360;

/// What a lint found.
#[derive(Debug)]
pub struct LintReport {
    pub orphans: Vec<String>,
    pub stale: Vec<String>,
    pub duplicates: Vec<Vec<String>>,
    pub invalid: Vec<String>,
    pub conflicts: Vec<Vec<String>>,
    pub fixed: Vec<String>,
}

impl LintReport {
    /// Nothing was found (what was fixed does not count).
    pub open spec fn is_clean(&self) -> bool {
        &&& self.orphans@.len() == 0
        &&& self.stale@.len() == 0
        &&& self.duplicates@.len() == 0
        &&& self.invalid@.len() == 0
        &&& self.conflicts@.len() == 0
    }

    /// Whether nothing was found.
    pub fn clean(&self) -> (r: bool)
        ensures
            r == self.is_clean(),
    {
        self.orphans.len() == 0 && self.stale.len() == 0 && self.duplicates.len() == 0
            && self.invalid.len() == 0 && self.conflicts.len() == 0
    }
}

/// The views of a list of lists of strings.
pub open spec fn nested_views(v: Seq<Vec<String>>) -> Seq<Seq<Seq<char>>> {
    Seq::new(v.len(), |i: int| string_seq_views(v[i]@))
}

/// The ids of the entries that satisfy `p`, in order.
pub open spec fn ids_where(es: Seq<Entry>, p: spec_fn(Entry) -> bool) -> Seq<Seq<char>>
    decreases es.len(),
{
    if es.len() == 0 {
        seq![]
    } else if p(es.last()) {
        ids_where(es.drop_last(), p).push(es.last().id@)
    } else {
        ids_where(es.drop_last(), p)
    }
}

/// The entries that satisfy `p`, in order.
pub open spec fn entries_where(es: Seq<Entry>, p: spec_fn(Entry) -> bool) -> Seq<Entry>
    decreases es.len(),
{
    if es.len() == 0 {
        seq![]
    } else if p(es.last()) {
        entries_where(es.drop_last(), p).push(es.last())
    } else {
        entries_where(es.drop_last(), p)
    }
}

// ---------------------------------------------------------------- orphans and stale entries

/// A non-draft entry that nothing references.
pub open spec fn is_orphan(e: Entry) -> bool {
    e.evidence.ref_count == 0 && e.maturity@ != "draft"@
}

/// An entry last referenced twelve or more months before `now`.
pub open spec fn is_stale(e: Entry, now: Date) -> bool {
    e.evidence.last_referenced matches Some(d) && age_thirtieths(d@, now) >= STALE_AGE
}

pub fn orphans_of(es: &Vec<Entry>) -> (r: Vec<String>)
    ensures
        string_seq_views(r@) == ids_where(es@, |e: Entry| is_orphan(e)),
{
    let ghost p = |e: Entry| is_orphan(e);
    let mut out: Vec<String> = Vec::new();
    let mut i: usize = 0;
    while i < es.len()
        invariant
            i <= es@.len(),
            p == (|e: Entry| is_orphan(e)),
            string_seq_views(out@) == ids_where(es@.take(i as int), p),
        decreases es.len() - i,
    {
        assert(es@.take(i + 1).drop_last() =~= es@.take(i as int));
        assert(es@.take(i + 1).last() == es@[i as int]);
        let e = &es[i];
        assert(p(*e) == is_orphan(*e));
        if e.evidence.ref_count == 0 && !str_eq(e.maturity.as_str(), "draft") {
            let ghost before = out@;
            out.push(e.id.clone());
            assert(string_seq_views(out@) =~= string_seq_views(before).push(e.id@));
        }
        i = i + 1;
    }
    assert(es@.take(es@.len() as int) =~= es@);
    out
}

fn stale_of(es: &Vec<Entry>, now: Date) -> (r: Vec<String>)
    ensures
        string_seq_views(r@) == ids_where(es@, |e: Entry| is_stale(e, now)),
{
    let ghost p = |e: Entry| is_stale(e, now);
    let mut out: Vec<String> = Vec::new();
    let mut i: usize = 0;
    while i < es.len()
        invariant
            i <= es@.len(),
            p == (|e: Entry| is_stale(e, now)),
            string_seq_views(out@) == ids_where(es@.take(i as int), p),
        decreases es.len() - i,
    {
        assert(es@.take(i + 1).drop_last() =~= es@.take(i as int));
        assert(es@.take(i + 1).last() == es@[i as int]);
        let e = &es[i];
        assert(p(*e) == is_stale(*e, now));
        let stale = match &e.evidence.last_referenced {
            Some(d) => reference_age(d.as_str(), now) >= STALE_AGE,
            None => false,
        };
        if stale {
            let ghost before = out@;
            out.push(e.id.clone());
            assert(string_seq_views(out@) =~= string_seq_views(before).push(e.id@));
        }
        i = i + 1;
    }
    assert(es@.take(es@.len() as int) =~= es@);
    out
}

// ---------------------------------------------------------------- schema violations

/// How an entry's schema violations are reported: `<id>: <message>; <message>...`.
pub open spec fn invalid_line(e: Entry) -> Seq<char> {
    e.id@ + ": "@ + join_seq(entry_errors(e), "; "@)
}

/// The report lines of the entries that break the schema, in order.
pub open spec fn invalid_lines(es: Seq<Entry>) -> Seq<Seq<char>>
    decreases es.len(),
{
    if es.len() == 0 {
        seq![]
    } else if entry_errors(es.last()).len() > 0 {
        invalid_lines(es.drop_last()).push(invalid_line(es.last()))
    } else {
        invalid_lines(es.drop_last())
    }
}

fn invalid_of(es: &Vec<Entry>) -> (r: Vec<String>)
    ensures
        string_seq_views(r@) == invalid_lines(es@),
{
    let mut out: Vec<String> = Vec::new();
    let mut i: usize = 0;
    while i < es.len()
        invariant
            i <= es@.len(),
            string_seq_views(out@) == invalid_lines(es@.take(i as int)),
        decreases es.len() - i,
    {
        assert(es@.take(i + 1).drop_last() =~= es@.take(i as int));
        assert(es@.take(i + 1).last() == es@[i as int]);
        let e = &es[i];
        let errs = iter_errors(e);
        assert(string_seq_views(errs@).len() == errs@.len());
        if errs.len() > 0 {
            let mut line = e.id.clone();
            append(&mut line, ": ");
            let joined = join_strings(&errs, "; ");
            append(&mut line, joined.as_str());
            let ghost before = out@;
            out.push(line);
            assert(string_seq_views(out@) =~= string_seq_views(before).push(invalid_line(*e)));
        }
        i = i + 1;
    }
    assert(es@.take(es@.len() as int) =~= es@);
    out
}

// ---------------------------------------------------------------- duplicate titles

/// The key two titles are compared by: trimmed and lowercased.
pub open spec fn title_key(e: Entry) -> Seq<char> {
    lowercase_text(trim(e.title@))
}

/// `x` placed into `s` in front of the first pair whose key it comes before.
pub open spec fn insert_pair(s: Seq<(Seq<char>, Seq<char>)>, x: (Seq<char>, Seq<char>)) -> Seq<
    (Seq<char>, Seq<char>),
>
    decreases s.len(),
{
    if s.len() == 0 {
        seq![x]
    } else if seq_lt(x.0, s[0].0) {
        seq![x] + s
    } else {
        seq![s[0]] + insert_pair(s.drop_first(), x)
    }
}

/// The stable sort of key/value pairs by key.
pub open spec fn sort_pairs(s: Seq<(Seq<char>, Seq<char>)>) -> Seq<(Seq<char>, Seq<char>)>
    decreases s.len(),
{
    if s.len() == 0 {
        seq![]
    } else {
        insert_pair(sort_pairs(s.drop_last()), s.last())
    }
}

/// The keys and values of keyed strings.
pub open spec fn kv(s: Seq<Keyed<String>>) -> Seq<(Seq<char>, Seq<char>)> {
    Seq::new(s.len(), |i: int| (s[i].key@, s[i].val@))
}

proof fn lemma_kv_insert(s: Seq<Keyed<String>>, x: Keyed<String>)
    ensures
        kv(insert_sorted(s, x)) == insert_pair(kv(s), (x.key@, x.val@)),
    decreases s.len(),
{
    if s.len() == 0 {
        assert(kv(seq![x]) =~= seq![(x.key@, x.val@)]);
    } else if seq_lt(x.key@, s[0].key@) {
        assert(kv(seq![x] + s) =~= seq![(x.key@, x.val@)] + kv(s));
    } else {
        lemma_kv_insert(s.drop_first(), x);
        assert(kv(s).drop_first() =~= kv(s.drop_first()));
        assert(kv(seq![s[0]] + insert_sorted(s.drop_first(), x)) =~= seq![kv(s)[0]] + kv(
            insert_sorted(s.drop_first(), x),
        ));
    }
}

proof fn lemma_kv_sorted(s: Seq<Keyed<String>>)
    ensures
        kv(sorted_spec(s)) == sort_pairs(kv(s)),
    decreases s.len(),
{
    if s.len() > 0 {
        lemma_kv_sorted(s.drop_last());
        lemma_kv_insert(sorted_spec(s.drop_last()), s.last());
        assert(kv(s).drop_last() =~= kv(s.drop_last()));
    }
}

/// Each entry's title key with its id.
pub open spec fn title_pairs(es: Seq<Entry>) -> Seq<(Seq<char>, Seq<char>)> {
    Seq::new(es.len(), |i: int| (title_key(es[i]), es[i].id@))
}

/// The values of each run of neighbours with equal keys.
pub open spec fn runs(s: Seq<(Seq<char>, Seq<char>)>) -> Seq<Seq<Seq<char>>>
    decreases s.len(),
{
    if s.len() == 0 {
        seq![]
    } else {
        let g = runs(s.drop_last());
        if s.len() > 1 && s[s.len() - 2].0 == s.last().0 {
            g.update(g.len() - 1, g.last().push(s.last().1))
        } else {
            g.push(seq![s.last().1])
        }
    }
}

proof fn lemma_runs_nonempty(s: Seq<(Seq<char>, Seq<char>)>)
    ensures
        s.len() > 0 ==> runs(s).len() > 0,
    decreases s.len(),
{
    if s.len() > 0 {
        lemma_runs_nonempty(s.drop_last());
    }
}

/// The groups with two or more members.
pub open spec fn plural(g: Seq<Seq<Seq<char>>>) -> Seq<Seq<Seq<char>>>
    decreases g.len(),
{
    if g.len() == 0 {
        seq![]
    } else if g.last().len() > 1 {
        plural(g.drop_last()).push(g.last())
    } else {
        plural(g.drop_last())
    }
}

/// The ids of entries sharing a title key, one group per key in key order, each in entry
/// order; keys held by a single entry are left out.
pub open spec fn duplicate_groups(es: Seq<Entry>) -> Seq<Seq<Seq<char>>> {
    plural(runs(sort_pairs(title_pairs(es))))
}

fn duplicates_of(es: &Vec<Entry>) -> (r: Vec<Vec<String>>)
    ensures
        nested_views(r@) == duplicate_groups(es@),
{
    let mut pairs: Vec<(String, String)> = Vec::new();
    let mut i: usize = 0;
    while i < es.len()
        invariant
            i <= es@.len(),
            pair_views(pairs@) == title_pairs(es@.take(i as int)),
        decreases es.len() - i,
    {
        let t = to_chars(es[i].title.as_str());
        let tt = from_chars(&trim_chars(&t));
        let key = to_lowercase(tt.as_str());
        assert(key@ == title_key(es@[i as int]));
        let ghost before = pair_views(pairs@);
        pairs.push((key, es[i].id.clone()));
        assert(pair_views(pairs@) =~= before.push((title_key(es@[i as int]), es@[i as int].id@)));
        assert(pair_views(pairs@) =~= title_pairs(es@.take(i + 1)));
        i = i + 1;
    }
    assert(es@.take(es@.len() as int) =~= es@);
    group_by_key(pairs)
}

/// The text views of a list of (key, value) pairs.
pub open spec fn pair_views(v: Seq<(String, String)>) -> Seq<(Seq<char>, Seq<char>)> {
    Seq::new(v.len(), |i: int| (v[i].0@, v[i].1@))
}

/// Groups the values of `(key, value)` pairs by key: one group per key held by two or more
/// pairs, in key order, each group in the pairs' order.
pub fn group_by_key(pairs: Vec<(String, String)>) -> (r: Vec<Vec<String>>)
    ensures
        nested_views(r@) == plural(runs(sort_pairs(pair_views(pairs@)))),
{
    let mut keyed: Vec<Keyed<String>> = Vec::new();
    let mut pairs = pairs;
    let ghost orig = pair_views(pairs@);
    let n0 = pairs.len();
    let mut i: usize = 0;
    while pairs.len() > 0
        invariant
            i + pairs@.len() == orig.len(),
            orig.len() == n0,
            pair_views(pairs@) == orig.skip(i as int),
            kv(keyed@) == orig.take(i as int),
        decreases pairs.len(),
    {
        let ghost pre = pairs@;
        let (key, val) = pairs.remove(0);
        let ghost before = kv(keyed@);
        assert(pair_views(pre)[0] == orig.skip(i as int)[0]);
        assert(orig[i as int] == (key@, val@));
        keyed.push(Keyed { key, val });
        assert(kv(keyed@) =~= before.push(orig[i as int]));
        assert(orig.take(i + 1) =~= orig.take(i as int).push(orig[i as int]));
        i = i + 1;
        assert forall|k: int| 0 <= k < pairs@.len() implies pair_views(pairs@)[k] == orig.skip(
            i as int,
        )[k] by {
            assert(pairs@[k] == pre[k + 1]);
            assert(pair_views(pre)[k + 1] == orig.skip(i - 1)[k + 1]);
        }
        assert(pair_views(pairs@) =~= orig.skip(i as int));
    }
    assert(orig.take(i as int) =~= orig);
    let sorted = sort_stable(keyed);
    let ghost sp = kv(sorted@);
    proof {
        lemma_kv_sorted(keyed@);
    }
    let mut groups: Vec<Vec<String>> = Vec::new();
    let mut k: usize = 0;
    while k < sorted.len()
        invariant
            k <= sorted@.len(),
            sp == kv(sorted@),
            nested_views(groups@) == runs(sp.take(k as int)),
        decreases sorted.len() - k,
    {
        let ghost pre = sp.take(k as int);
        assert(sp.take(k + 1).drop_last() =~= pre);
        assert(sp.take(k + 1).last() == sp[k as int]);
        proof {
            lemma_runs_nonempty(pre);
        }
        let joins = k > 0 && str_eq(sorted[k - 1].key.as_str(), sorted[k].key.as_str());
        if joins {
            assert(sp.take(k + 1)[k - 1] == sp[k - 1]);
            let ghost g = nested_views(groups@);
            let mut last = groups.pop().unwrap();
            let ghost lv = last@;
            last.push(sorted[k].val.clone());
            assert(string_seq_views(last@) =~= string_seq_views(lv).push(sorted@[k as int].val@));
            groups.push(last);
            assert(nested_views(groups@) =~= g.update(
                g.len() - 1,
                g.last().push(sorted@[k as int].val@),
            ));
        } else {
            proof {
                if k > 0 {
                    assert(sp.take(k + 1)[k - 1] == sp[k - 1]);
                }
            }
            let ghost g = nested_views(groups@);
            let mut one: Vec<String> = Vec::new();
            one.push(sorted[k].val.clone());
            assert(string_seq_views(one@) =~= seq![sorted@[k as int].val@]);
            groups.push(one);
            assert(nested_views(groups@) =~= g.push(seq![sorted@[k as int].val@]));
        }
        k = k + 1;
    }
    assert(sp.take(sorted@.len() as int) =~= sp);
    let ghost all = nested_views(groups@);
    let mut out: Vec<Vec<String>> = Vec::new();
    let mut groups = groups;
    let ghost orig = groups@;
    let n0 = groups.len();
    let mut j: usize = 0;
    while groups.len() > 0
        invariant
            j + groups@.len() == orig.len(),
            orig.len() == n0,
            groups@ == orig.skip(j as int),
            all == nested_views(orig),
            nested_views(out@) == plural(all.take(j as int)),
        decreases groups.len(),
    {
        let g = groups.remove(0);
        assert(all.take(j + 1).drop_last() =~= all.take(j as int));
        assert(all.take(j + 1).last() == string_seq_views(g@));
        if g.len() > 1 {
            let ghost before = nested_views(out@);
            out.push(g);
            assert(nested_views(out@) =~= before.push(all[j as int]));
        }
        j = j + 1;
        assert(groups@ =~= orig.skip(j as int));
    }
    assert(all.take(j as int) =~= all);
    out
}

// ---------------------------------------------------------------- contradicting guidelines

/// A guideline that recommends.
pub open spec fn is_recommend(e: Entry) -> bool {
    &&& e.kind@ == "guideline"@
    &&& e.guideline_polarity matches Some(p) && p@ == "recommend"@
}

/// A guideline that warns against.
pub open spec fn is_avoid(e: Entry) -> bool {
    &&& e.kind@ == "guideline"@
    &&& e.guideline_polarity matches Some(p) && p@ == "avoid"@
}

/// Two entries carry the same set of tags.
pub open spec fn same_tags(a: Entry, b: Entry) -> bool {
    &&& forall|i: int| 0 <= i < a.tags@.len() ==> has_text(b.tags@, #[trigger] a.tags@[i]@)
    &&& forall|j: int| 0 <= j < b.tags@.len() ==> has_text(a.tags@, #[trigger] b.tags@[j]@)
}

/// A recommendation and a warning about the same non-empty set of tags contradict.
pub open spec fn contradicts(r: Entry, a: Entry) -> bool {
    r.tags@.len() > 0 && same_tags(r, a)
}

/// The pairs `[r, a]` of ids for the warnings `a` that `r` contradicts, in order.
pub open spec fn conflicts_for(r: Entry, avoids: Seq<Entry>) -> Seq<Seq<Seq<char>>>
    decreases avoids.len(),
{
    if avoids.len() == 0 {
        seq![]
    } else if contradicts(r, avoids.last()) {
        conflicts_for(r, avoids.drop_last()).push(seq![r.id@, avoids.last().id@])
    } else {
        conflicts_for(r, avoids.drop_last())
    }
}

/// The contradicting pairs, recommendation by recommendation.
pub open spec fn conflicts_all(recs: Seq<Entry>, avoids: Seq<Entry>) -> Seq<Seq<Seq<char>>>
    decreases recs.len(),
{
    if recs.len() == 0 {
        seq![]
    } else {
        conflicts_all(recs.drop_last(), avoids) + conflicts_for(recs.last(), avoids)
    }
}

/// The contradictions among a knowledge base's guidelines.
pub open spec fn conflicts_spec(es: Seq<Entry>) -> Seq<Seq<Seq<char>>> {
    conflicts_all(
        entries_where(es, |e: Entry| is_recommend(e)),
        entries_where(es, |e: Entry| is_avoid(e)),
    )
}

fn all_held(a: &Vec<String>, b: &Vec<String>) -> (r: bool)
    ensures
        r == forall|i: int| 0 <= i < a@.len() ==> has_text(b@, #[trigger] a@[i]@),
{
    let mut i: usize = 0;
    while i < a.len()
        invariant
            i <= a@.len(),
            forall|k: int| 0 <= k < i ==> has_text(b@, #[trigger] a@[k]@),
        decreases a.len() - i,
    {
        if !holds_text(b, a[i].as_str()) {
            return false;
        }
        i = i + 1;
    }
    true
}

fn matching(es: &Vec<Entry>, recommend: bool) -> (r: Vec<usize>)
    ensures
        forall|k: int| 0 <= k < r@.len() ==> r@[k] < es@.len(),
        Seq::new(r@.len(), |k: int| es@[r@[k] as int]) == entries_where(
            es@,
            if recommend {
                |e: Entry| is_recommend(e)
            } else {
                |e: Entry| is_avoid(e)
            },
        ),
{
    let ghost p = if recommend {
        |e: Entry| is_recommend(e)
    } else {
        |e: Entry| is_avoid(e)
    };
    let mut out: Vec<usize> = Vec::new();
    let mut i: usize = 0;
    while i < es.len()
        invariant
            i <= es@.len(),
            p == if recommend {
                |e: Entry| is_recommend(e)
            } else {
                |e: Entry| is_avoid(e)
            },
            forall|k: int| 0 <= k < out@.len() ==> out@[k] < i,
            Seq::new(out@.len(), |k: int| es@[out@[k] as int]) == entries_where(
                es@.take(i as int),
                p,
            ),
        decreases es.len() - i,
    {
        assert(es@.take(i + 1).drop_last() =~= es@.take(i as int));
        assert(es@.take(i + 1).last() == es@[i as int]);
        let e = &es[i];
        let want = if recommend {
            "recommend"
        } else {
            "avoid"
        };
        let pol = match &e.guideline_polarity {
            Some(p) => str_eq(p.as_str(), want),
            None => false,
        };
        let hit = str_eq(e.kind.as_str(), "guideline") && pol;
        assert(hit == p(*e));
        let ghost before = Seq::new(out@.len(), |k: int| es@[out@[k] as int]);
        if hit {
            out.push(i);
            assert(Seq::new(out@.len(), |k: int| es@[out@[k] as int]) =~= before.push(*e));
        }
        i = i + 1;
    }
    assert(es@.take(es@.len() as int) =~= es@);
    out
}

fn conflicts_of(es: &Vec<Entry>) -> (r: Vec<Vec<String>>)
    ensures
        nested_views(r@) == conflicts_spec(es@),
{
    let recs = matching(es, true);
    let avos = matching(es, false);
    let ghost rs = Seq::new(recs@.len(), |k: int| es@[recs@[k] as int]);
    let ghost avs = Seq::new(avos@.len(), |k: int| es@[avos@[k] as int]);
    let mut out: Vec<Vec<String>> = Vec::new();
    let mut x: usize = 0;
    while x < recs.len()
        invariant
            x <= recs@.len(),
            forall|k: int| 0 <= k < recs@.len() ==> recs@[k] < es@.len(),
            forall|k: int| 0 <= k < avos@.len() ==> avos@[k] < es@.len(),
            rs == Seq::new(recs@.len(), |k: int| es@[recs@[k] as int]),
            avs == Seq::new(avos@.len(), |k: int| es@[avos@[k] as int]),
            nested_views(out@) == conflicts_all(rs.take(x as int), avs),
        decreases recs.len() - x,
    {
        let r = &es[recs[x]];
        assert(rs.take(x + 1).drop_last() =~= rs.take(x as int));
        assert(rs.take(x + 1).last() == *r);
        let ghost start = nested_views(out@);
        let mut y: usize = 0;
        while y < avos.len()
            invariant
                y <= avos@.len(),
                x < recs@.len(),
                forall|k: int| 0 <= k < avos@.len() ==> avos@[k] < es@.len(),
                avs == Seq::new(avos@.len(), |k: int| es@[avos@[k] as int]),
                *r == rs[x as int],
                nested_views(out@) == start + conflicts_for(*r, avs.take(y as int)),
            decreases avos.len() - y,
        {
            let a = &es[avos[y]];
            assert(avs.take(y + 1).drop_last() =~= avs.take(y as int));
            assert(avs.take(y + 1).last() == *a);
            let hit = r.tags.len() > 0 && all_held(&r.tags, &a.tags) && all_held(&a.tags, &r.tags);
            if hit {
                let ghost before = nested_views(out@);
                let mut pair: Vec<String> = Vec::new();
                pair.push(r.id.clone());
                pair.push(a.id.clone());
                assert(string_seq_views(pair@) =~= seq![r.id@, a.id@]);
                out.push(pair);
                assert(nested_views(out@) =~= before.push(seq![r.id@, a.id@]));
            }
            assert(nested_views(out@) =~= start + conflicts_for(*r, avs.take(y + 1)));
            y = y + 1;
        }
        assert(avs.take(avos@.len() as int) =~= avs);
        assert(nested_views(out@) =~= conflicts_all(rs.take(x + 1), avs));
        x = x + 1;
    }
    assert(rs.take(recs@.len() as int) =~= rs);
    out
}

// ---------------------------------------------------------------- the lint

/// Lints a knowledge base's entries on `now`. Rebuilding the index is the caller's part, so
/// nothing is reported fixed.
pub fn lint(entries: &Vec<Entry>, now: Date) -> (r: LintReport)
    ensures
        string_seq_views(r.orphans@) == ids_where(entries@, |e: Entry| is_orphan(e)),
        string_seq_views(r.stale@) == ids_where(entries@, |e: Entry| is_stale(e, now)),
        nested_views(r.duplicates@) == duplicate_groups(entries@),
        string_seq_views(r.invalid@) == invalid_lines(entries@),
        nested_views(r.conflicts@) == conflicts_spec(entries@),
        r.fixed@.len() == 0,
{
    let d = now;
    let orphans = orphans_of(entries);
    let stale = stale_of(entries, d);
    let invalid = invalid_of(entries);
    let duplicates = duplicates_of(entries);
    let conflicts = conflicts_of(entries);
    LintReport { orphans, stale, duplicates, invalid, conflicts, fixed: Vec::new() }
}

/// The set of tags an entry carries.
pub open spec fn tag_set(e: Entry) -> Set<Seq<char>> {
    Set::new(|x: Seq<char>| exists|i: int| 0 <= i < e.tags@.len() && e.tags@[i]@ == x)
}

/// A recommendation and a warning contradict exactly when they carry the same non-empty set of
/// tags: a warning whose tags merely include the recommendation's, or are included in them, is
/// no contradiction, and the relation does not depend on which of the two is named first.
pub proof fn law_contradiction_needs_equal_tag_sets(r: Entry, a: Entry)
    ensures
        contradicts(r, a) <==> (r.tags@.len() > 0 && tag_set(r) == tag_set(a)),
        (r.tags@.len() > 0 && a.tags@.len() > 0) ==> (contradicts(r, a) <==> contradicts(a, r)),
{
    if same_tags(r, a) {
        assert forall|x: Seq<char>| tag_set(r).contains(x) <==> tag_set(a).contains(x) by {
            if tag_set(r).contains(x) {
                let i = choose|i: int| 0 <= i < r.tags@.len() && r.tags@[i]@ == x;
                assert(has_text(a.tags@, r.tags@[i]@));
            }
            if tag_set(a).contains(x) {
                let j = choose|j: int| 0 <= j < a.tags@.len() && a.tags@[j]@ == x;
                assert(has_text(r.tags@, a.tags@[j]@));
            }
        }
        assert(tag_set(r) =~= tag_set(a));
    }
    if tag_set(r) == tag_set(a) {
        assert forall|i: int| 0 <= i < r.tags@.len() implies has_text(a.tags@, #[trigger] r.tags@[i]@) by {
            assert(tag_set(r).contains(r.tags@[i]@));
        }
        assert forall|j: int| 0 <= j < a.tags@.len() implies has_text(r.tags@, #[trigger] a.tags@[j]@) by {
            assert(tag_set(a).contains(a.tags@[j]@));
        }
    }
    if same_tags(a, r) {
        assert forall|x: Seq<char>| tag_set(r).contains(x) <==> tag_set(a).contains(x) by {
            if tag_set(r).contains(x) {
                let i = choose|i: int| 0 <= i < r.tags@.len() && r.tags@[i]@ == x;
                assert(has_text(a.tags@, r.tags@[i]@));
            }
            if tag_set(a).contains(x) {
                let j = choose|j: int| 0 <= j < a.tags@.len() && a.tags@[j]@ == x;
                assert(has_text(r.tags@, a.tags@[j]@));
            }
        }
        assert(tag_set(r) =~= tag_set(a));
    }
    if tag_set(r) == tag_set(a) {
        assert forall|i: int| 0 <= i < a.tags@.len() implies has_text(r.tags@, #[trigger] a.tags@[i]@) by {
            assert(tag_set(a).contains(a.tags@[i]@));
        }
        assert forall|j: int| 0 <= j < r.tags@.len() implies has_text(a.tags@, #[trigger] r.tags@[j]@) by {
            assert(tag_set(r).contains(r.tags@[j]@));
        }
    }
}

} // verus!
