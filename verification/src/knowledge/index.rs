//! The progressive index of a knowledge base: one catalog per wiki (one line per entry,
//! sorted by id) and a panorama of counts.
use crate::config::{join_path, path_join};
use crate::knowledge::lint::entries_where;
use crate::knowledge::model::Entry;
use crate::knowledge::refs::{count_views, reference_counts, reference_counts_spec};
use crate::sort::{lemma_sorted_perm, sort_stable, sorted_spec, Keyed};
use crate::text::{
    append, dec, dec_string, join_seq, join_strings, seq_lt, str_eq, str_lt, string_of,
    string_seq_views,
};
use vstd::prelude::*;

verus! {

/// The panorama's file name, at the root of the knowledge base.
pub const CATALOG_A: &'static str = "knowledge-catalog.md";

/// A wiki catalog's file name.
pub const CATALOG_B: &'static str = "catalog.md";

// ---------------------------------------------------------------- catalogs

/// An entry's catalog line: `id | title | maturity | class | tags`.
pub open spec fn catalog_line(e: Entry) -> Seq<char> {
    e.id@ + " | "@ + e.title@ + " | "@ + e.maturity@ + " | "@ + e.knowledge_class@ + " | "@
        + join_seq(string_seq_views(e.tags@), ","@)
}

/// Lines as a file's text: joined by newlines, with a final newline.
pub open spec fn lines_text(ls: Seq<Seq<char>>) -> Seq<char> {
    join_seq(ls, "\n"@) + "\n"@
}

/// Entries keyed by their ids, with their positions.
pub open spec fn id_keys(es: Seq<Entry>) -> Seq<Keyed<usize>> {
    Seq::new(es.len(), |i: int| Keyed { key: es[i].id, val: i as usize })
}

/// Entries in id order (a stable sort: entries with equal ids keep their order).
pub open spec fn by_id(es: Seq<Entry>) -> Seq<Entry> {
    let s = sorted_spec(id_keys(es));
    Seq::new(s.len(), |k: int| es[s[k].val as int])
}

/// A catalog: a title, the column header, and one line per entry in id order.
pub open spec fn catalog_text(title: Seq<char>, es: Seq<Entry>) -> Seq<char> {
    let sorted = by_id(es);
    lines_text(
        seq![
            "# "@ + title,
            Seq::<char>::empty(),
            "ID | title | maturity | class | tags"@,
            "--- | --- | --- | --- | ---"@,
        ] + Seq::new(sorted.len(), |k: int| catalog_line(sorted[k])),
    )
}

/// The entries at the given positions.
pub open spec fn picked(es: Seq<Entry>, picks: Seq<usize>) -> Seq<Entry> {
    Seq::new(picks.len(), |k: int| es[picks[k] as int])
}

fn catalog_line_of(e: &Entry) -> (r: String)
    ensures
        r@ == catalog_line(*e),
{
    let mut s = e.id.clone();
    append(&mut s, " | ");
    append(&mut s, e.title.as_str());
    append(&mut s, " | ");
    append(&mut s, e.maturity.as_str());
    append(&mut s, " | ");
    append(&mut s, e.knowledge_class.as_str());
    append(&mut s, " | ");
    let tags = join_strings(&e.tags, ",");
    append(&mut s, tags.as_str());
    s
}

/// Writes a catalog of the entries at `picks`.
pub fn catalog(title: &str, entries: &Vec<Entry>, picks: &Vec<usize>) -> (r: String)
    requires
        forall|k: int| 0 <= k < picks@.len() ==> (#[trigger] picks@[k]) < entries@.len(),
    ensures
        r@ == catalog_text(title@, picked(entries@, picks@)),
{
    let ghost es = picked(entries@, picks@);
    let mut keyed: Vec<Keyed<usize>> = Vec::new();
    let mut k: usize = 0;
    while k < picks.len()
        invariant
            k <= picks@.len(),
            es == picked(entries@, picks@),
            forall|j: int| 0 <= j < picks@.len() ==> (#[trigger] picks@[j]) < entries@.len(),
            keyed@ == id_keys(es.take(k as int)),
        decreases picks.len() - k,
    {
        keyed.push(Keyed { key: entries[picks[k]].id.clone(), val: k });
        assert(keyed@ =~= id_keys(es.take(k + 1)));
        k = k + 1;
    }
    assert(es.take(es.len() as int) =~= es);
    proof {
        lemma_sorted_perm(id_keys(es));
    }
    let sorted = sort_stable(keyed);
    let ghost sv = sorted@;
    proof {
        broadcast use vstd::seq_lib::group_to_multiset_ensures;

        assert forall|j: int| 0 <= j < sv.len() implies (#[trigger] sv[j]).val < es.len() by {
            assert(sv.to_multiset().count(sv[j]) > 0);
            assert(id_keys(es).contains(sv[j]));
        }
    }
    let mut ls: Vec<String> = Vec::new();
    let mut head = string_of("# ");
    append(&mut head, title);
    ls.push(head);
    ls.push(String::new());
    ls.push(string_of("ID | title | maturity | class | tags"));
    ls.push(string_of("--- | --- | --- | --- | ---"));
    let ghost top = string_seq_views(ls@);
    assert(top =~= seq![
        "# "@ + title@,
        Seq::<char>::empty(),
        "ID | title | maturity | class | tags"@,
        "--- | --- | --- | --- | ---"@,
    ]);
    let ghost bid = by_id(es);
    let mut j: usize = 0;
    while j < sorted.len()
        invariant
            j <= sv.len(),
            sv == sorted@,
            sv == sorted_spec(id_keys(es)),
            bid == by_id(es),
            es == picked(entries@, picks@),
            forall|i: int| 0 <= i < picks@.len() ==> (#[trigger] picks@[i]) < entries@.len(),
            forall|i: int| 0 <= i < sv.len() ==> (#[trigger] sv[i]).val < es.len(),
            string_seq_views(ls@) == top + Seq::new(j as nat, |x: int| catalog_line(bid[x])),
        decreases sorted.len() - j,
    {
        let pos = sorted[j].val;
        let line = catalog_line_of(&entries[picks[pos]]);
        assert(bid[j as int] == es[sv[j as int].val as int]);
        assert(es[pos as int] == entries@[picks@[pos as int] as int]);
        let ghost before = string_seq_views(ls@);
        ls.push(line);
        assert(string_seq_views(ls@) =~= before.push(catalog_line(bid[j as int])));
        assert(string_seq_views(ls@) =~= top + Seq::new((j + 1) as nat, |x: int| catalog_line(bid[x])));
        j = j + 1;
    }
    let mut out = join_strings(&ls, "\n");
    append(&mut out, "\n");
    assert(Seq::new(sv.len(), |x: int| catalog_line(bid[x])) =~= Seq::new(
        bid.len(),
        |x: int| catalog_line(bid[x]),
    ));
    out
}

// ---------------------------------------------------------------- business domains

/// The catalog key of a business entry: its domain, or `_`.
pub open spec fn domain_key(e: Entry) -> Seq<char> {
    match e.domain {
        Some(d) => d@,
        None => "_"@,
    }
}

pub open spec fn is_tech(e: Entry) -> bool {
    e.category@ == "tech"@
}

pub open spec fn is_biz(e: Entry) -> bool {
    e.category@ == "biz"@
}

/// `k` added to a strictly ordered list of keys, unless it is there already.
pub open spec fn insert_key(l: Seq<Seq<char>>, k: Seq<char>) -> Seq<Seq<char>>
    decreases l.len(),
{
    if l.len() == 0 {
        seq![k]
    } else if l[0] == k {
        l
    } else if seq_lt(k, l[0]) {
        seq![k] + l
    } else {
        seq![l[0]] + insert_key(l.drop_first(), k)
    }
}

/// The distinct domains of the business entries, in string order.
pub open spec fn biz_domains(es: Seq<Entry>) -> Seq<Seq<char>>
    decreases es.len(),
{
    if es.len() == 0 {
        seq![]
    } else if is_biz(es.last()) {
        insert_key(biz_domains(es.drop_last()), domain_key(es.last()))
    } else {
        biz_domains(es.drop_last())
    }
}

proof fn lemma_insert_key_len(l: Seq<Seq<char>>, k: Seq<char>)
    ensures
        insert_key(l, k).len() <= l.len() + 1,
    decreases l.len(),
{
    if l.len() > 0 && l[0] != k && !seq_lt(k, l[0]) {
        lemma_insert_key_len(l.drop_first(), k);
    }
}

proof fn lemma_biz_domains_len(es: Seq<Entry>)
    ensures
        biz_domains(es).len() <= es.len(),
    decreases es.len(),
{
    if es.len() > 0 {
        lemma_biz_domains_len(es.drop_last());
        lemma_insert_key_len(biz_domains(es.drop_last()), domain_key(es.last()));
    }
}

proof fn lemma_entries_where_len(es: Seq<Entry>, p: spec_fn(Entry) -> bool)
    ensures
        entries_where(es, p).len() <= es.len(),
    decreases es.len(),
{
    if es.len() > 0 {
        lemma_entries_where_len(es.drop_last(), p);
    }
}

fn insert_key_exec(l: Vec<String>, k: String) -> (r: Vec<String>)
    ensures
        string_seq_views(r@) == insert_key(string_seq_views(l@), k@),
    decreases l@.len(),
{
    let ghost lv = string_seq_views(l@);
    if l.len() == 0 {
        let mut v: Vec<String> = Vec::new();
        v.push(k);
        assert(string_seq_views(v@) =~= seq![k@]);
        v
    } else if str_eq(l[0].as_str(), k.as_str()) {
        l
    } else if str_lt(k.as_str(), l[0].as_str()) {
        let mut l = l;
        l.insert(0, k);
        assert(string_seq_views(l@) =~= seq![k@] + lv);
        l
    } else {
        let mut l = l;
        let first = l.remove(0);
        assert(string_seq_views(l@) =~= lv.drop_first());
        let mut rest = insert_key_exec(l, k);
        let ghost rv = string_seq_views(rest@);
        rest.insert(0, first);
        assert(string_seq_views(rest@) =~= seq![lv[0]] + rv);
        rest
    }
}

fn domain_of(e: &Entry) -> (r: String)
    ensures
        r@ == domain_key(*e),
{
    match &e.domain {
        Some(d) => d.clone(),
        None => string_of("_"),
    }
}

fn domains_of(es: &Vec<Entry>) -> (r: Vec<String>)
    ensures
        string_seq_views(r@) == biz_domains(es@),
{
    let mut out: Vec<String> = Vec::new();
    let mut i: usize = 0;
    while i < es.len()
        invariant
            i <= es@.len(),
            string_seq_views(out@) == biz_domains(es@.take(i as int)),
        decreases es.len() - i,
    {
        assert(es@.take(i + 1).drop_last() =~= es@.take(i as int));
        assert(es@.take(i + 1).last() == es@[i as int]);
        if str_eq(es[i].category.as_str(), "biz") {
            let d = domain_of(&es[i]);
            out = insert_key_exec(out, d);
        }
        i = i + 1;
    }
    assert(es@.take(es@.len() as int) =~= es@);
    out
}

/// The positions of the entries that satisfy `p`, in order.
pub open spec fn positions(es: Seq<Entry>, p: spec_fn(Entry) -> bool) -> Seq<int>
    decreases es.len(),
{
    if es.len() == 0 {
        seq![]
    } else if p(es.last()) {
        positions(es.drop_last(), p).push(es.len() - 1)
    } else {
        positions(es.drop_last(), p)
    }
}

proof fn lemma_positions(es: Seq<Entry>, p: spec_fn(Entry) -> bool)
    ensures
        forall|k: int| 0 <= k < positions(es, p).len() ==> 0 <= #[trigger] positions(es, p)[k] < es.len(),
        Seq::new(positions(es, p).len(), |k: int| es[positions(es, p)[k]]) == entries_where(es, p),
    decreases es.len(),
{
    if es.len() > 0 {
        lemma_positions(es.drop_last(), p);
        let q = positions(es.drop_last(), p);
        assert forall|k: int| 0 <= k < positions(es, p).len() implies 0 <= #[trigger] positions(
            es,
            p,
        )[k] < es.len() by {
            if k < q.len() {
                assert(positions(es, p)[k] == q[k]);
            }
        }
        assert forall|k: int| 0 <= k < q.len() implies es.drop_last()[#[trigger] q[k]] == es[q[k]] by {}
        assert(Seq::new(positions(es, p).len(), |k: int| es[positions(es, p)[k]]) =~= entries_where(
            es,
            p,
        ));
    }
}

/// The positions of the entries that satisfy `p`.
fn positions_where(es: &Vec<Entry>, category: &str, domain: Option<&str>) -> (r: Vec<usize>)
    ensures
        r@.len() == positions(es@, |e: Entry| category_in(e, category@, opt_str_view(domain))).len(),
        forall|k: int|
            0 <= k < r@.len() ==> (#[trigger] r@[k]) as int == positions(
                es@,
                |e: Entry| category_in(e, category@, opt_str_view(domain)),
            )[k],
{
    let ghost p = |e: Entry| category_in(e, category@, opt_str_view(domain));
    let mut out: Vec<usize> = Vec::new();
    let mut i: usize = 0;
    while i < es.len()
        invariant
            i <= es@.len(),
            p == (|e: Entry| category_in(e, category@, opt_str_view(domain))),
            out@.len() == positions(es@.take(i as int), p).len(),
            forall|k: int| 0 <= k < out@.len() ==> (#[trigger] out@[k]) as int == positions(es@.take(i as int), p)[k],
        decreases es.len() - i,
    {
        assert(es@.take(i + 1).drop_last() =~= es@.take(i as int));
        assert(es@.take(i + 1).last() == es@[i as int]);
        let e = &es[i];
        let hit = str_eq(e.category.as_str(), category) && match domain {
            Some(d) => {
                let k = domain_of(e);
                str_eq(k.as_str(), d)
            },
            None => true,
        };
        assert(hit == p(*e));
        if hit {
            out.push(i);
        }
        i = i + 1;
    }
    assert(es@.take(es@.len() as int) =~= es@);
    out
}

/// An entry of the category, and, when a domain is given, of that catalog key.
pub open spec fn category_in(e: Entry, category: Seq<char>, domain: Option<Seq<char>>) -> bool {
    e.category@ == category && match domain {
        Some(d) => domain_key(e) == d,
        None => true,
    }
}

/// The view of an optional string slice.
pub open spec fn opt_str_view(o: Option<&str>) -> Option<Seq<char>> {
    match o {
        Some(s) => Some(s@),
        None => None,
    }
}

// ---------------------------------------------------------------- panorama

/// Every applicable phase of every entry, entry after entry.
pub open spec fn all_phases(es: Seq<Entry>) -> Seq<String>
    decreases es.len(),
{
    if es.len() == 0 {
        seq![]
    } else {
        all_phases(es.drop_last()) + es.last().applicable_phases@
    }
}

/// How many entries satisfy `p`.
pub open spec fn count_where(es: Seq<Entry>, p: spec_fn(Entry) -> bool) -> nat {
    entries_where(es, p).len()
}

/// The fields an entry is counted by.
#[derive(Debug, Clone, Copy, PartialEq, Eq, Structural)]
pub enum Field {
    Category,
    Maturity,
    Class,
}

pub open spec fn field_of(e: Entry, f: Field) -> Seq<char> {
    match f {
        Field::Category => e.category@,
        Field::Maturity => e.maturity@,
        Field::Class => e.knowledge_class@,
    }
}

/// The number of entries whose field `f` is `v`, in decimal.
pub open spec fn tally(es: Seq<Entry>, f: Field, v: Seq<char>) -> Seq<char> {
    dec(count_where(es, |e: Entry| field_of(e, f) == v))
}

/// The panorama of a knowledge base: the totals, the maturity and class counts, and the
/// number of entries applicable per stage in stage order.
pub open spec fn panorama_text(es: Seq<Entry>) -> Seq<char> {
    let stages = reference_counts_spec(all_phases(es));
    lines_text(
        seq![
            "# Knowledge catalog (panorama)"@,
            Seq::<char>::empty(),
            "- total: "@ + dec(es.len()) + "  ·  tech: "@ + tally(es, Field::Category, "tech"@)
                + "  ·  biz: "@ + tally(es, Field::Category, "biz"@),
            "- maturity: draft="@ + tally(es, Field::Maturity, "draft"@) + ", verified="@ + tally(
                es,
                Field::Maturity,
                "verified"@,
            ) + ", proven="@ + tally(es, Field::Maturity, "proven"@),
            "- class: point="@ + tally(es, Field::Class, "point"@) + ", causal="@ + tally(
                es,
                Field::Class,
                "causal"@,
            ) + ", spatiotemporal="@ + tally(es, Field::Class, "spatiotemporal"@),
            Seq::<char>::empty(),
            "## Entries applicable per stage"@,
            Seq::<char>::empty(),
            "stage | count"@,
            "--- | ---"@,
        ] + Seq::new(stages.len(), |k: int| stages[k].0 + " | "@ + dec(stages[k].1)) + seq![
            Seq::<char>::empty(),
            "> Drill down: read a wiki `catalog.md` (B) for one-line entries, then the entry `.md` (C)."@,
        ],
    )
}

fn count_field(es: &Vec<Entry>, f: Field, v: &str) -> (r: u64)
    ensures
        r == count_where(es@, |e: Entry| field_of(e, f) == v@),
{
    let ghost p = |e: Entry| field_of(e, f) == v@;
    let mut n: u64 = 0;
    let mut i: usize = 0;
    while i < es.len()
        invariant
            i <= es@.len(),
            p == (|e: Entry| field_of(e, f) == v@),
            n == count_where(es@.take(i as int), p),
            n <= i,
        decreases es.len() - i,
    {
        assert(es@.take(i + 1).drop_last() =~= es@.take(i as int));
        assert(es@.take(i + 1).last() == es@[i as int]);
        let e = &es[i];
        let x = match f {
            Field::Category => e.category.as_str(),
            Field::Maturity => e.maturity.as_str(),
            Field::Class => e.knowledge_class.as_str(),
        };
        if str_eq(x, v) {
            n = n + 1;
        }
        i = i + 1;
    }
    assert(es@.take(es@.len() as int) =~= es@);
    n
}

fn phases_of(es: &Vec<Entry>) -> (r: Vec<String>)
    ensures
        r@ == all_phases(es@),
{
    let mut out: Vec<String> = Vec::new();
    let mut i: usize = 0;
    while i < es.len()
        invariant
            i <= es@.len(),
            out@ == all_phases(es@.take(i as int)),
        decreases es.len() - i,
    {
        assert(es@.take(i + 1).drop_last() =~= es@.take(i as int));
        assert(es@.take(i + 1).last() == es@[i as int]);
        let mut j: usize = 0;
        let ghost start = out@;
        while j < es[i].applicable_phases.len()
            invariant
                i < es@.len(),
                j <= es@[i as int].applicable_phases@.len(),
                out@ == start + es@[i as int].applicable_phases@.take(j as int),
            decreases es[i as int].applicable_phases@.len() - j,
        {
            out.push(es[i].applicable_phases[j].clone());
            assert(out@ =~= start + es@[i as int].applicable_phases@.take(j + 1));
            j = j + 1;
        }
        assert(es@[i as int].applicable_phases@.take(j as int) =~= es@[i as int].applicable_phases@);
        i = i + 1;
    }
    assert(es@.take(es@.len() as int) =~= es@);
    out
}

/// Writes the panorama (see `panorama_text`).
pub fn panorama(entries: &Vec<Entry>) -> (r: String)
    requires
        entries@.len() <= u64::MAX,
    ensures
        r@ == panorama_text(entries@),
{
    let total = entries.len() as u64;
    let tech = count_field(entries, Field::Category, "tech");
    let biz = count_field(entries, Field::Category, "biz");
    let draft = count_field(entries, Field::Maturity, "draft");
    let verified = count_field(entries, Field::Maturity, "verified");
    let proven = count_field(entries, Field::Maturity, "proven");
    let point = count_field(entries, Field::Class, "point");
    let causal = count_field(entries, Field::Class, "causal");
    let spatio = count_field(entries, Field::Class, "spatiotemporal");
    let phases = phases_of(entries);
    let stages = reference_counts(&phases);
    let mut ls: Vec<String> = Vec::new();
    ls.push(string_of("# Knowledge catalog (panorama)"));
    ls.push(String::new());
    let mut l1 = string_of("- total: ");
    append(&mut l1, dec_string(total).as_str());
    append(&mut l1, "  ·  tech: ");
    append(&mut l1, dec_string(tech).as_str());
    append(&mut l1, "  ·  biz: ");
    append(&mut l1, dec_string(biz).as_str());
    ls.push(l1);
    let mut l2 = string_of("- maturity: draft=");
    append(&mut l2, dec_string(draft).as_str());
    append(&mut l2, ", verified=");
    append(&mut l2, dec_string(verified).as_str());
    append(&mut l2, ", proven=");
    append(&mut l2, dec_string(proven).as_str());
    ls.push(l2);
    let mut l3 = string_of("- class: point=");
    append(&mut l3, dec_string(point).as_str());
    append(&mut l3, ", causal=");
    append(&mut l3, dec_string(causal).as_str());
    append(&mut l3, ", spatiotemporal=");
    append(&mut l3, dec_string(spatio).as_str());
    ls.push(l3);
    ls.push(String::new());
    ls.push(string_of("## Entries applicable per stage"));
    ls.push(String::new());
    ls.push(string_of("stage | count"));
    ls.push(string_of("--- | ---"));
    let ghost top = string_seq_views(ls@);
    assert(top =~= seq![
        "# Knowledge catalog (panorama)"@,
        Seq::<char>::empty(),
        "- total: "@ + dec(entries@.len()) + "  ·  tech: "@ + tally(entries@, Field::Category, "tech"@)
            + "  ·  biz: "@ + tally(entries@, Field::Category, "biz"@),
        "- maturity: draft="@ + tally(entries@, Field::Maturity, "draft"@) + ", verified="@ + tally(
            entries@,
            Field::Maturity,
            "verified"@,
        ) + ", proven="@ + tally(entries@, Field::Maturity, "proven"@),
        "- class: point="@ + tally(entries@, Field::Class, "point"@) + ", causal="@ + tally(
            entries@,
            Field::Class,
            "causal"@,
        ) + ", spatiotemporal="@ + tally(entries@, Field::Class, "spatiotemporal"@),
        Seq::<char>::empty(),
        "## Entries applicable per stage"@,
        Seq::<char>::empty(),
        "stage | count"@,
        "--- | ---"@,
    ]);
    let ghost sc = reference_counts_spec(all_phases(entries@));
    let mut k: usize = 0;
    while k < stages.len()
        invariant
            k <= stages@.len(),
            count_views(stages@) == sc,
            string_seq_views(ls@) == top + Seq::new(k as nat, |x: int| sc[x].0 + " | "@ + dec(sc[x].1)),
        decreases stages.len() - k,
    {
        let mut line = stages[k].0.clone();
        append(&mut line, " | ");
        let d = dec_string(stages[k].1);
        append(&mut line, d.as_str());
        assert(count_views(stages@)[k as int] == (stages@[k as int].0@, stages@[k as int].1 as nat));
        assert(line@ == sc[k as int].0 + " | "@ + dec(sc[k as int].1));
        let ghost before = string_seq_views(ls@);
        ls.push(line);
        assert(string_seq_views(ls@) =~= before.push(line@));
        assert(string_seq_views(ls@) =~= top + Seq::new(
            (k + 1) as nat,
            |x: int| sc[x].0 + " | "@ + dec(sc[x].1),
        ));
        k = k + 1;
    }
    ls.push(String::new());
    ls.push(
        string_of(
            "> Drill down: read a wiki `catalog.md` (B) for one-line entries, then the entry `.md` (C).",
        ),
    );
    let ghost tail = string_seq_views(ls@);
    let mut out = join_strings(&ls, "\n");
    append(&mut out, "\n");
    assert(string_seq_views(ls@) =~= top + Seq::new(sc.len(), |x: int| sc[x].0 + " | "@ + dec(sc[x].1)) + seq![
        Seq::<char>::empty(),
        "> Drill down: read a wiki `catalog.md` (B) for one-line entries, then the entry `.md` (C)."@,
    ]);
    out
}

// ---------------------------------------------------------------- the whole index

/// An index file to write: its path and its text.
#[derive(Debug)]
pub struct IndexFile {
    pub path: String,
    pub text: String,
}

/// What building an index writes, and its counts (`biz`, `domains`, `tech`, `total`).
#[derive(Debug)]
pub struct IndexPlan {
    pub files: Vec<IndexFile>,
    pub stats: Vec<(String, i64)>,
}

/// The tech catalog's path under the knowledge base `root`.
pub open spec fn tech_catalog_path(root: Seq<char>) -> Seq<char> {
    path_join(path_join(root, "tech-wiki"@), "catalog.md"@)
}

/// A business domain's catalog path under `root`.
pub open spec fn biz_catalog_path(root: Seq<char>, domain: Seq<char>) -> Seq<char> {
    path_join(path_join(path_join(root, "biz-wiki"@), domain), "catalog.md"@)
}

/// The entries of a category (and, when given, of a business domain), in order.
pub open spec fn of_category(es: Seq<Entry>, category: Seq<char>, domain: Option<Seq<char>>) -> Seq<
    Entry,
> {
    entries_where(es, |e: Entry| category_in(e, category, domain))
}

/// Plans the index of a knowledge base at `root`: the tech catalog when there is tech
/// knowledge, one catalog per business domain in domain order, then the panorama.
pub fn build_index(root: &str, entries: &Vec<Entry>) -> (r: IndexPlan)
    requires
        entries@.len() <= i64::MAX,
    ensures
        ({
            let es = entries@;
            let tech = of_category(es, "tech"@, None);
            let doms = biz_domains(es);
            let off: int = if tech.len() > 0 {
                1
            } else {
                0
            };
            &&& r.files@.len() == off + doms.len() + 1
            &&& tech.len() > 0 ==> r.files@[0].path@ == tech_catalog_path(root@)
                && r.files@[0].text@ == catalog_text("Tech knowledge (L1)"@, tech)
            &&& forall|d: int|
                0 <= d < doms.len() ==> {
                    &&& (#[trigger] r.files@[off + d]).path@ == biz_catalog_path(root@, doms[d])
                    &&& r.files@[off + d].text@ == catalog_text(
                        "Business knowledge — "@ + doms[d] + " (L2)"@,
                        of_category(es, "biz"@, Some(doms[d])),
                    )
                }
            &&& r.files@[off + doms.len()].path@ == path_join(root@, "knowledge-catalog.md"@)
            &&& r.files@[off + doms.len()].text@ == panorama_text(es)
            &&& r.stats@.len() == 4
            &&& r.stats@[0].0@ == "biz"@ && r.stats@[0].1 == of_category(es, "biz"@, None).len()
            &&& r.stats@[1].0@ == "domains"@ && r.stats@[1].1 == doms.len()
            &&& r.stats@[2].0@ == "tech"@ && r.stats@[2].1 == tech.len()
            &&& r.stats@[3].0@ == "total"@ && r.stats@[3].1 == es.len()
        }),
{
    let ghost es = entries@;
    let mut files: Vec<IndexFile> = Vec::new();
    let tech = positions_where(entries, "tech", None);
    proof {
        lemma_positions(es, |e: Entry| category_in(e, "tech"@, None));
    }
    assert(picked(es, tech@) =~= of_category(es, "tech"@, None));
    if tech.len() > 0 {
        let text = catalog("Tech knowledge (L1)", entries, &tech);
        let tp = join_path(root, "tech-wiki");
        let path = join_path(tp.as_str(), "catalog.md");
        files.push(IndexFile { path, text });
    }
    let ghost off: int = if tech@.len() > 0 {
        1
    } else {
        0
    };
    let doms = domains_of(entries);
    let ghost dv = string_seq_views(doms@);
    let mut d: usize = 0;
    while d < doms.len()
        invariant
            d <= doms@.len(),
            es == entries@,
            dv == string_seq_views(doms@),
            dv == biz_domains(es),
            files@.len() == off + d,
            off == (if of_category(es, "tech"@, None).len() > 0 {
                1int
            } else {
                0int
            }),
            of_category(es, "tech"@, None).len() > 0 ==> files@[0].path@ == tech_catalog_path(root@)
                && files@[0].text@ == catalog_text("Tech knowledge (L1)"@, of_category(es, "tech"@, None)),
            forall|x: int|
                0 <= x < d ==> {
                    &&& (#[trigger] files@[off + x]).path@ == biz_catalog_path(root@, dv[x])
                    &&& files@[off + x].text@ == catalog_text(
                        "Business knowledge — "@ + dv[x] + " (L2)"@,
                        of_category(es, "biz"@, Some(dv[x])),
                    )
                },
        decreases doms.len() - d,
    {
        let dom = doms[d].as_str();
        let picks = positions_where(entries, "biz", Some(dom));
        proof {
            lemma_positions(es, |e: Entry| category_in(e, "biz"@, Some(dom@)));
        }
        assert(picked(es, picks@) =~= of_category(es, "biz"@, Some(dv[d as int])));
        let mut title = string_of("Business knowledge — ");
        append(&mut title, dom);
        append(&mut title, " (L2)");
        let text = catalog(title.as_str(), entries, &picks);
        let bp = join_path(root, "biz-wiki");
        let dp = join_path(bp.as_str(), dom);
        let path = join_path(dp.as_str(), "catalog.md");
        let ghost before = files@;
        files.push(IndexFile { path, text });
        assert(files@[off + d] == files@.last());
        assert forall|x: int| 0 <= x < d implies #[trigger] files@[off + x] == before[off + x] by {}
        d = d + 1;
    }
    let ptext = panorama(entries);
    let ppath = join_path(root, "knowledge-catalog.md");
    let ghost before = files@;
    files.push(IndexFile { path: ppath, text: ptext });
    assert forall|x: int| 0 <= x < d implies #[trigger] files@[off + x] == before[off + x] by {}
    assert(of_category(es, "tech"@, None).len() > 0 ==> files@[0] == before[0]);
    let biz = positions_where(entries, "biz", None);
    proof {
        lemma_positions(es, |e: Entry| category_in(e, "biz"@, None));
        assert(tech@.len() == of_category(es, "tech"@, None).len());
        assert(biz@.len() == of_category(es, "biz"@, None).len());
        assert(dv.len() == doms@.len());
        lemma_biz_domains_len(es);
        lemma_entries_where_len(es, |e: Entry| category_in(e, "biz"@, None));
        lemma_entries_where_len(es, |e: Entry| category_in(e, "tech"@, None));
    }
    let mut stats: Vec<(String, i64)> = Vec::new();
    stats.push((string_of("biz"), biz.len() as i64));
    stats.push((string_of("domains"), doms.len() as i64));
    stats.push((string_of("tech"), tech.len() as i64));
    stats.push((string_of("total"), entries.len() as i64));
    IndexPlan { files, stats }
}

} // verus!
