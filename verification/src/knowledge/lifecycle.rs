//! Maturity lifecycle: promotion by use, decay by age, and the layer an entry belongs in.
use crate::clock::{date_text, format_date, Date};
use crate::knowledge::model::{copy_entry, same_but_standing, same_entry, Entry, HistoryItem};
use crate::knowledge::vocab::maturity_rank_spec;
use crate::text::{str_eq, string_of, to_chars};
use vstd::prelude::*;

verus! {

// ---------------------------------------------------------------- the age of a reference

/// `s` cut at every `sep`, as `str::split` cuts it.
pub open spec fn split_on(s: Seq<char>, sep: char) -> Seq<Seq<char>>
    decreases s.len(),
{
    if s.len() == 0 {
        seq![seq![]]
    } else {
        let p = split_on(s.drop_last(), sep);
        if s.last() == sep {
            p.push(seq![])
        } else {
            p.update(p.len() - 1, p.last().push(s.last()))
        }
    }
}

pub proof fn lemma_split_nonempty(s: Seq<char>, sep: char)
    ensures
        split_on(s, sep).len() >= 1,
    decreases s.len(),
{
    if s.len() > 0 {
        lemma_split_nonempty(s.drop_last(), sep);
    }
}

pub open spec fn is_digit(c: char) -> bool {
    '0' <= c <= '9'
}

/// The number that a string of decimal digits writes.
pub open spec fn digits_value(d: Seq<char>) -> int
    decreases d.len(),
{
    if d.len() == 0 {
        0
    } else {
        digits_value(d.drop_last()) * 10 + (d.last() as int - '0' as int)
    }
}

pub proof fn lemma_value_prefix(d: Seq<char>, k: int)
    requires
        0 <= k <= d.len(),
        forall|i: int| 0 <= i < d.len() ==> is_digit(#[trigger] d[i]),
    ensures
        0 <= digits_value(d.take(k)) <= digits_value(d),
    decreases d.len(),
{
    if k == d.len() {
        assert(d.take(k) =~= d);
        if d.len() > 0 {
            lemma_value_prefix(d.drop_last(), d.len() - 1);
            assert(d.drop_last().take(d.len() - 1) =~= d.drop_last());
        }
    } else {
        lemma_value_prefix(d.drop_last(), k);
        assert(d.drop_last().take(k) =~= d.take(k));
        lemma_value_prefix(d.drop_last(), d.len() - 1);
        assert(d.drop_last().take(d.len() - 1) =~= d.drop_last());
    }
}

/// A piece without its leading `+`, if it has one.
pub open spec fn piece_digits(p: Seq<char>) -> Seq<char> {
    if p.len() > 0 && p[0] == '+' {
        p.skip(1)
    } else {
        p
    }
}

/// What `str::parse::<i32>` gives for a piece that holds no `-`: an optional `+`, then one
/// or more ASCII digits whose value fits in an `i32`.
pub open spec fn piece_value(p: Seq<char>) -> Option<int> {
    let digits = piece_digits(p);
    if digits.len() > 0 && (forall|i: int| 0 <= i < digits.len() ==> is_digit(#[trigger] digits[i]))
        && digits_value(digits) <= 0x7fff_ffff {
        Some(digits_value(digits))
    } else {
        None
    }
}

/// The age of a `YYYY-MM-DD` reference date at `now`, in thirtieths of a month: twelve months
/// a year, a month per calendar month and a thirtieth of one per day. A text whose first
/// three `-`-separated pieces are not all numbers has age 0.
pub open spec fn age_thirtieths(s: Seq<char>, now: Date) -> int {
    let ps = split_on(s, '-');
    if ps.len() >= 3 && piece_value(ps[0]) is Some && piece_value(ps[1]) is Some && piece_value(
        ps[2],
    ) is Some {
        let y = piece_value(ps[0])->0;
        let m = piece_value(ps[1])->0;
        let d = piece_value(ps[2])->0;
        30 * (12 * (now.year - y) + (now.month - m)) + (now.day - d)
    } else {
        0
    }
}

fn piece_number(p: &Vec<char>) -> (r: Option<i64>)
    ensures
        match piece_value(p@) {
            Some(v) => r matches Some(x) && x == v,
            None => r is None,
        },
        r matches Some(v) ==> 0 <= v <= 0x7fff_ffff,
{
    let start: usize = if p.len() > 0 && p[0] == '+' {
        1
    } else {
        0
    };
    let ghost digits = p@.skip(start as int);
    assert(digits =~= piece_digits(p@));
    if start >= p.len() {
        return None;
    }
    let mut acc: i64 = 0;
    let mut i: usize = start;
    while i < p.len()
        invariant
            start <= i <= p@.len(),
            digits == p@.skip(start as int),
            digits == piece_digits(p@),
            forall|k: int| 0 <= k < i - start ==> is_digit(#[trigger] digits[k]),
            acc == digits_value(digits.take(i - start)),
            0 <= acc <= 0x7fff_ffff,
        decreases p.len() - i,
    {
        let c = p[i];
        if !('0' <= c && c <= '9') {
            assert(!is_digit(digits[i - start]));
            return None;
        }
        let ghost pre = digits.take(i - start);
        assert(digits.take(i - start + 1).drop_last() =~= pre);
        assert(digits.take(i - start + 1).last() == c);
        acc = acc * 10 + ((c as u32) - ('0' as u32)) as i64;
        i = i + 1;
        if acc > 0x7fff_ffff {
            proof {
                if forall|k: int| 0 <= k < digits.len() ==> is_digit(#[trigger] digits[k]) {
                    lemma_value_prefix(digits, i - start);
                }
            }
            return None;
        }
    }
    assert(digits.take(i - start) =~= digits);
    Some(acc)
}

fn split_dashes(s: &Vec<char>) -> (r: Vec<Vec<char>>)
    ensures
        r@.len() == split_on(s@, '-').len(),
        forall|i: int| 0 <= i < r@.len() ==> #[trigger] r@[i]@ == split_on(s@, '-')[i],
{
    let mut out: Vec<Vec<char>> = Vec::new();
    out.push(Vec::new());
    let mut i: usize = 0;
    while i < s.len()
        invariant
            i <= s@.len(),
            out@.len() == split_on(s@.take(i as int), '-').len(),
            forall|k: int| 0 <= k < out@.len() ==> #[trigger] out@[k]@ == split_on(s@.take(i as int), '-')[k],
        decreases s.len() - i,
    {
        assert(s@.take(i + 1).drop_last() =~= s@.take(i as int));
        proof {
            lemma_split_nonempty(s@.take(i as int), '-');
        }
        let c = s[i];
        if c == '-' {
            out.push(Vec::new());
        } else {
            let n = out.len();
            let mut last = out.pop().unwrap();
            last.push(c);
            out.push(last);
            assert(out@.len() == n);
        }
        i = i + 1;
    }
    assert(s@.take(s@.len() as int) =~= s@);
    out
}

/// The age of a reference date `last` at `now`, in thirtieths of a month (see
/// `age_thirtieths`).
pub fn reference_age(last: &str, now: Date) -> (r: i64)
    ensures
        r == age_thirtieths(last@, now),
{
    let c = to_chars(last);
    let ps = split_dashes(&c);
    if ps.len() < 3 {
        return 0;
    }
    let y = match piece_number(&ps[0]) {
        Some(v) => v,
        None => return 0,
    };
    let m = match piece_number(&ps[1]) {
        Some(v) => v,
        None => return 0,
    };
    let d = match piece_number(&ps[2]) {
        Some(v) => v,
        None => return 0,
    };
    30 * (12 * (now.year as i64 - y) + (now.month as i64 - m)) + (now.day as i64 - d)
}

// ---------------------------------------------------------------- promotion and decay

/// Decay thresholds, in thirtieths of a month: twelve months for `proven`, six for
/// `verified`.
pub const PROVEN_DECAY: i64 = 360;

pub const VERIFIED_DECAY: i64 = 180;

/// `r` is `e` moved to maturity `m` on `date` for reason `why`: a history record
/// `{date, update_type: why, by: system}` is appended and nothing else changes.
pub open spec fn remade(e: Entry, r: Entry, m: Seq<char>, date: Seq<char>, why: Seq<char>) -> bool {
    &&& r.maturity@ == m
    &&& r.history@.len() == e.history@.len() + 1
    &&& r.history@.drop_last() == e.history@
    &&& r.history@.last() matches HistoryItem::Update { date: d, update_type: u, by: b } && d@
        == date && u@ == why && b@ == "system"@
    &&& same_but_standing(r, e)
}

/// The maturity promotion moves an entry to: a referenced draft becomes `verified`, a
/// verified entry used by two or more projects becomes `proven`.
pub open spec fn promote_target(e: Entry) -> Option<Seq<char>> {
    if e.maturity@ == "draft"@ && e.evidence.ref_count >= 1 {
        Some("verified"@)
    } else if e.maturity@ == "verified"@ && e.evidence.projects@.len() >= 2 {
        Some("proven"@)
    } else {
        None
    }
}

/// The maturity decay moves an entry to at `now`: a proven entry last referenced twelve or
/// more months ago becomes `verified`, a verified one six or more months ago `draft`. An entry
/// never referenced (or with an empty date) does not decay.
pub open spec fn decay_target(e: Entry, now: Date) -> Option<Seq<char>> {
    match e.evidence.last_referenced {
        Some(s) => if s@.len() == 0 {
            None
        } else if e.maturity@ == "proven"@ && age_thirtieths(s@, now) >= PROVEN_DECAY {
            Some("verified"@)
        } else if e.maturity@ == "verified"@ && age_thirtieths(s@, now) >= VERIFIED_DECAY {
            Some("draft"@)
        } else {
            None
        },
        None => None,
    }
}

/// `entry` at maturity `maturity`, with the change recorded in its history.
pub fn with_maturity(entry: &Entry, maturity: &str, now: Date, why: &str) -> (r: Entry)
    ensures
        remade(*entry, r, maturity@, date_text(now), why@),
{
    let mut e = copy_entry(entry);
    e.maturity = string_of(maturity);
    let item = HistoryItem::Update {
        date: format_date(now),
        update_type: string_of(why),
        by: string_of("system"),
    };
    let ghost before = e.history@;
    e.history.push(item);
    assert(e.history@.drop_last() =~= before);
    e
}

/// Promotes an entry by its evidence (see `promote_target`) on `now`.
pub fn promote(entry: &Entry, now: Date) -> (r: Entry)
    ensures
        match promote_target(*entry) {
            Some(m) => remade(*entry, r, m, date_text(now), "promote"@),
            None => same_entry(r, *entry),
        },
{
    let d = now;
    proof {
        reveal_strlit("draft");
        reveal_strlit("verified");
        reveal_strlit("proven");
    }
    let r = if str_eq(entry.maturity.as_str(), "draft") && entry.evidence.ref_count >= 1 {
        with_maturity(entry, "verified", d, "promote")
    } else if str_eq(entry.maturity.as_str(), "verified") && entry.evidence.projects.len() >= 2 {
        with_maturity(entry, "proven", d, "promote")
    } else {
        copy_entry(entry)
    };
    r
}

/// Decays an entry by the age of its last reference (see `decay_target`) on `now`.
pub fn decay(entry: &Entry, now: Date) -> (r: Entry)
    ensures
        match decay_target(*entry, now) {
            Some(m) => remade(*entry, r, m, date_text(now), "decay"@),
            None => same_entry(r, *entry),
        },
{
    let d = now;
    proof {
        reveal_strlit("draft");
        reveal_strlit("verified");
        reveal_strlit("proven");
    }
    let r = match &entry.evidence.last_referenced {
        Some(s) if s.as_str().unicode_len() > 0 => {
            let age = reference_age(s.as_str(), d);
            if str_eq(entry.maturity.as_str(), "proven") && age >= PROVEN_DECAY {
                with_maturity(entry, "verified", d, "decay")
            } else if str_eq(entry.maturity.as_str(), "verified") && age >= VERIFIED_DECAY {
                with_maturity(entry, "draft", d, "decay")
            } else {
                copy_entry(entry)
            }
        },
        _ => copy_entry(entry),
    };
    r
}

/// The layer an entry's evidence suggests: used by at most one project, `L3`; otherwise
/// `L1` for tech knowledge and `L2` for the rest.
pub open spec fn layer_for(e: Entry) -> Seq<char> {
    if e.evidence.projects@.len() <= 1 {
        "L3"@
    } else if e.category@ == "tech"@ {
        "L1"@
    } else {
        "L2"@
    }
}

/// Suggests the layer for an entry (see `layer_for`).
pub fn judge_layer(entry: &Entry) -> (r: &'static str)
    ensures
        r@ == layer_for(*entry),
{
    if entry.evidence.projects.len() <= 1 {
        "L3"
    } else if str_eq(entry.category.as_str(), "tech") {
        "L1"
    } else {
        "L2"
    }
}

// ---------------------------------------------------------------- over a whole repository

/// The positions of the entries with a file that `step` moves to another maturity, in order.
pub open spec fn moved(es: Seq<Entry>, step: spec_fn(Entry) -> Option<Seq<char>>) -> Seq<int>
    decreases es.len(),
{
    if es.len() == 0 {
        seq![]
    } else if es.last().path is Some && step(es.last()) is Some {
        moved(es.drop_last(), step).push(es.len() - 1)
    } else {
        moved(es.drop_last(), step)
    }
}

/// What a repository-wide promotion or decay rewrites: the date it ran on, and each changed
/// entry with its position among the scanned entries.
#[derive(Debug)]
pub struct Changes {
    pub date: Date,
    pub changed: Vec<(usize, Entry)>,
}

/// `c` lists, in order, every entry with a file that `step` moves, remade for `why`.
pub open spec fn changes_of(
    es: Seq<Entry>,
    c: Changes,
    step: spec_fn(Entry) -> Option<Seq<char>>,
    why: Seq<char>,
) -> bool {
    &&& c.changed@.len() == moved(es, step).len()
    &&& forall|k: int|
        0 <= k < c.changed@.len() ==> {
            let j = #[trigger] moved(es, step)[k];
            &&& c.changed@[k].0 == j
            &&& remade(es[j], c.changed@[k].1, step(es[j])->0, date_text(c.date), why)
        }
}

pub proof fn lemma_moved_bounds(es: Seq<Entry>, step: spec_fn(Entry) -> Option<Seq<char>>)
    ensures
        forall|k: int| 0 <= k < moved(es, step).len() ==> 0 <= #[trigger] moved(es, step)[k] < es.len(),
    decreases es.len(),
{
    if es.len() > 0 {
        let p = moved(es.drop_last(), step);
        lemma_moved_bounds(es.drop_last(), step);
        assert forall|k: int| 0 <= k < moved(es, step).len() implies 0 <= #[trigger] moved(
            es,
            step,
        )[k] < es.len() by {
            if k < p.len() {
                assert(moved(es, step)[k] == p[k]);
            }
        }
    }
}

/// Promotes every entry of a repository that its evidence allows (`promote_target`); only
/// entries read from a file are rewritten.
pub fn promote_repo(entries: &Vec<Entry>, now: Date) -> (r: Changes)
    ensures
        r.date == now,
        changes_of(entries@, r, |e: Entry| promote_target(e), "promote"@),
{
    let d = now;
    let ghost step = |e: Entry| promote_target(e);
    let mut out: Vec<(usize, Entry)> = Vec::new();
    let mut i: usize = 0;
    while i < entries.len()
        invariant
            i <= entries@.len(),
            step == (|e: Entry| promote_target(e)),
            changes_of(entries@.take(i as int), Changes { date: d, changed: out }, step, "promote"@),
        decreases entries.len() - i,
    {
        let ghost es = entries@.take(i + 1);
        assert(es.drop_last() =~= entries@.take(i as int));
        assert(es.last() == entries@[i as int]);
        proof {
            lemma_moved_bounds(entries@.take(i as int), step);
        }
        let e = &entries[i];
        assert(step(*e) == promote_target(*e));
        let new = promote(e, d);
        let changes = !str_eq(new.maturity.as_str(), e.maturity.as_str());
        if changes && e.path.is_some() {
            proof {
                reveal_strlit("draft");
                reveal_strlit("verified");
                reveal_strlit("proven");
            }
            assert(promote_target(*e) is Some);
            out.push((i, new));
            assert forall|k: int| 0 <= k < out@.len() implies {
                let j = #[trigger] moved(es, step)[k];
                &&& out@[k].0 == j
                &&& remade(es[j], out@[k].1, step(es[j])->0, date_text(d), "promote"@)
            } by {
                if k < out@.len() - 1 {
                    assert(es[moved(es, step)[k]] == entries@.take(i as int)[moved(es, step)[k]]);
                }
            }
        } else {
            proof {
                if e.path is Some && promote_target(*e) is Some {
                    reveal_strlit("draft");
                    reveal_strlit("verified");
                    reveal_strlit("proven");
                    let m = promote_target(*e)->0;
                    assert(new.maturity@ == m);
                    assert(m.len() != e.maturity@.len());
                }
            }
            assert(!(es.last().path is Some && step(es.last()) is Some));
            assert forall|k: int| 0 <= k < out@.len() implies {
                let j = #[trigger] moved(es, step)[k];
                &&& out@[k].0 == j
                &&& remade(es[j], out@[k].1, step(es[j])->0, date_text(d), "promote"@)
            } by {
                assert(es[moved(es, step)[k]] == entries@.take(i as int)[moved(es, step)[k]]);
            }
        }
        i = i + 1;
    }
    assert(entries@.take(entries@.len() as int) =~= entries@);
    Changes { date: d, changed: out }
}

/// Decays every entry of a repository whose last reference is old enough (`decay_target`);
/// only entries read from a file are rewritten.
pub fn decay_repo(entries: &Vec<Entry>, now: Date) -> (r: Changes)
    ensures
        r.date == now,
        changes_of(entries@, r, |e: Entry| decay_target(e, r.date), "decay"@),
{
    let d = now;
    let ghost step = |e: Entry| decay_target(e, d);
    let mut out: Vec<(usize, Entry)> = Vec::new();
    let mut i: usize = 0;
    while i < entries.len()
        invariant
            i <= entries@.len(),
            step == (|e: Entry| decay_target(e, d)),
            changes_of(entries@.take(i as int), Changes { date: d, changed: out }, step, "decay"@),
        decreases entries.len() - i,
    {
        let ghost es = entries@.take(i + 1);
        assert(es.drop_last() =~= entries@.take(i as int));
        assert(es.last() == entries@[i as int]);
        proof {
            lemma_moved_bounds(entries@.take(i as int), step);
        }
        let e = &entries[i];
        assert(step(*e) == decay_target(*e, d));
        let new = decay(e, d);
        let changes = !str_eq(new.maturity.as_str(), e.maturity.as_str());
        if changes && e.path.is_some() {
            proof {
                reveal_strlit("draft");
                reveal_strlit("verified");
                reveal_strlit("proven");
            }
            assert(decay_target(*e, d) is Some);
            out.push((i, new));
            assert forall|k: int| 0 <= k < out@.len() implies {
                let j = #[trigger] moved(es, step)[k];
                &&& out@[k].0 == j
                &&& remade(es[j], out@[k].1, step(es[j])->0, date_text(d), "decay"@)
            } by {
                if k < out@.len() - 1 {
                    assert(es[moved(es, step)[k]] == entries@.take(i as int)[moved(es, step)[k]]);
                }
            }
        } else {
            proof {
                if e.path is Some && decay_target(*e, d) is Some {
                    reveal_strlit("draft");
                    reveal_strlit("verified");
                    reveal_strlit("proven");
                    let m = decay_target(*e, d)->0;
                    assert(new.maturity@ == m);
                    assert(m.len() != e.maturity@.len());
                }
            }
            assert(!(es.last().path is Some && step(es.last()) is Some));
            assert forall|k: int| 0 <= k < out@.len() implies {
                let j = #[trigger] moved(es, step)[k];
                &&& out@[k].0 == j
                &&& remade(es[j], out@[k].1, step(es[j])->0, date_text(d), "decay"@)
            } by {
                assert(es[moved(es, step)[k]] == entries@.take(i as int)[moved(es, step)[k]]);
            }
        }
        i = i + 1;
    }
    assert(entries@.take(entries@.len() as int) =~= entries@);
    Changes { date: d, changed: out }
}

// ---------------------------------------------------------------- laws

/// Promotion only ever raises an entry's maturity, by exactly one level; a proven entry is
/// never promoted.
pub proof fn law_promotion_raises_one_level(e: Entry)
    ensures
        promote_target(e) matches Some(m) ==> maturity_rank_spec(m) == maturity_rank_spec(
            e.maturity@,
        ) + 1,
        e.maturity@ == "proven"@ ==> promote_target(e) is None,
{
    reveal_strlit("draft");
    reveal_strlit("verified");
    reveal_strlit("proven");
    assert("draft"@.len() == 5 && "verified"@.len() == 8 && "proven"@.len() == 6);
}

/// Decay only ever lowers an entry's maturity, by exactly one level; a draft never decays.
pub proof fn law_decay_lowers_one_level(e: Entry, now: Date)
    ensures
        decay_target(e, now) matches Some(m) ==> maturity_rank_spec(m) + 1 == maturity_rank_spec(
            e.maturity@,
        ),
        e.maturity@ == "draft"@ ==> decay_target(e, now) is None,
{
    reveal_strlit("draft");
    reveal_strlit("verified");
    reveal_strlit("proven");
    assert("draft"@.len() == 5 && "verified"@.len() == 8 && "proven"@.len() == 6);
}

/// An entry that was never referenced does not decay, however old it is.
pub proof fn law_unreferenced_never_decays(e: Entry, now: Date)
    requires
        e.evidence.last_referenced is None,
    ensures
        decay_target(e, now) is None,
{
}

proof fn lemma_moved_members(es: Seq<Entry>, step: spec_fn(Entry) -> Option<Seq<char>>)
    ensures
        forall|k: int|
            0 <= k < moved(es, step).len() ==> {
                let j = #[trigger] moved(es, step)[k];
                &&& 0 <= j < es.len()
                &&& es[j].path is Some
                &&& step(es[j]) is Some
            },
        forall|a: int, b: int|
            0 <= a < b < moved(es, step).len() ==> #[trigger] moved(es, step)[a] < #[trigger] moved(
                es,
                step,
            )[b],
        forall|j: int|
            0 <= j < es.len() && (#[trigger] es[j]).path is Some && step(es[j]) is Some ==> exists|
                k: int,
            |
                0 <= k < moved(es, step).len() && moved(es, step)[k] == j,
    decreases es.len(),
{
    if es.len() > 0 {
        let q = es.drop_last();
        lemma_moved_members(q, step);
        let p = moved(q, step);
        let m = moved(es, step);
        assert forall|k: int| 0 <= k < p.len() implies q[#[trigger] p[k]] == es[p[k]] by {}
        assert forall|k: int| 0 <= k < m.len() implies {
            let j = #[trigger] m[k];
            &&& 0 <= j < es.len()
            &&& es[j].path is Some
            &&& step(es[j]) is Some
        } by {
            if k < p.len() {
                assert(m[k] == p[k]);
                assert(q[p[k]] == es[p[k]]);
            }
        }
        assert forall|j: int| 0 <= j < es.len() && (#[trigger] es[j]).path is Some && step(es[j]) is Some implies exists|
            k: int,
        | 0 <= k < m.len() && m[k] == j by {
            if j < es.len() - 1 {
                assert(q[j] == es[j]);
                let k = choose|k: int| 0 <= k < p.len() && p[k] == j;
                assert(m[k] == p[k]);
            } else {
                assert(m[m.len() - 1] == j);
            }
        }
    }
}

/// Over a scanned repository, where every entry was read from a file, a promotion pass rewrites
/// exactly the entries whose maturity promotion changes, each once, in scan order, each to its
/// promoted maturity with the pass's date recorded.
pub proof fn law_promotion_pass_covers_the_scan(es: Seq<Entry>, c: Changes)
    requires
        forall|j: int| 0 <= j < es.len() ==> (#[trigger] es[j]).path is Some,
        changes_of(es, c, |e: Entry| promote_target(e), "promote"@),
    ensures
        forall|k: int|
            0 <= k < c.changed@.len() ==> {
                let j = (#[trigger] c.changed@[k]).0 as int;
                &&& 0 <= j < es.len()
                &&& promote_target(es[j]) is Some && promote_target(es[j])->0 != es[j].maturity@
                &&& remade(es[j], c.changed@[k].1, promote_target(es[j])->0, date_text(c.date), "promote"@)
            },
        forall|a: int, b: int|
            0 <= a < b < c.changed@.len() ==> (#[trigger] c.changed@[a]).0 < (
            #[trigger] c.changed@[b]).0,
        forall|j: int|
            0 <= j < es.len() && promote_target(#[trigger] es[j]) is Some ==> exists|k: int|
                0 <= k < c.changed@.len() && c.changed@[k].0 == j,
{
    let step = |e: Entry| promote_target(e);
    lemma_moved_members(es, step);
    let m = moved(es, step);
    assert forall|k: int| 0 <= k < c.changed@.len() implies {
        let j = (#[trigger] c.changed@[k]).0 as int;
        &&& 0 <= j < es.len()
        &&& promote_target(es[j]) is Some && promote_target(es[j])->0 != es[j].maturity@
        &&& remade(es[j], c.changed@[k].1, promote_target(es[j])->0, date_text(c.date), "promote"@)
    } by {
        let j = m[k];
        assert(c.changed@[k].0 == j);
        assert(0 <= j < es.len() && step(es[j]) is Some);
        assert(remade(es[j], c.changed@[k].1, step(es[j])->0, date_text(c.date), "promote"@));
        reveal_strlit("draft");
        reveal_strlit("verified");
        reveal_strlit("proven");
        if es[j].maturity@ == "draft"@ {
            assert("draft"@[0] != "verified"@[0]);
        } else {
            assert(es[j].maturity@ == "verified"@);
            assert("verified"@[0] != "proven"@[0]);
        }
    }
    assert forall|a: int, b: int| 0 <= a < b < c.changed@.len() implies (#[trigger] c.changed@[a]).0 < (
    #[trigger] c.changed@[b]).0 by {
        assert(c.changed@[a].0 == m[a]);
        assert(c.changed@[b].0 == m[b]);
    }
    assert forall|j: int| 0 <= j < es.len() && promote_target(#[trigger] es[j]) is Some implies exists|k: int|
        0 <= k < c.changed@.len() && c.changed@[k].0 == j by {
        assert(es[j].path is Some);
        assert(step(es[j]) is Some);
        let k = choose|k: int| 0 <= k < m.len() && m[k] == j;
        assert(c.changed@[k].0 == m[k]);
    }
}

} // verus!
