//! Reference-tracking closed loop: finding the knowledge ids a run's artifacts reference.
//!
//! Two shapes are read: JSON objects whose `knowledgeReferences` member lists `{"id": ..}`
//! records, and `knowledgeReferences` blocks of YAML/markdown, from which only `id:` lines and
//! bullets that lead with a `TK-`/`BK-` id are taken.
use crate::json::{json_get, json_str, Json};
use crate::knowledge::model::{copy_entry, same_but_evidence, Entry};
use crate::sort::{
    in_order, lemma_sorted_perm, lemma_sorted_texts, sort_strings, sorted_spec, text_views, texts, Ordered,
    Text,
};
use crate::text::{
    seq_lt, lemma_occurrences_contains, lemma_occurrences_single, occurrences, string_of, string_seq_views,
    str_eq,
};
use crate::text::{
    contains, contains_seq, from_chars, is_ws, is_ws_char, lines, lines_of, slice_chars,
    starts_with, to_chars, trim, trim_chars, trim_start, trim_start_chars, views,
};
use vstd::prelude::*;

verus! {

// ---------------------------------------------------------------- JSON objects in text

/// The balanced top-level `{...}` substrings of `t` from position `i` on, given the nesting
/// depth and the start of the open object when the scan reaches `i`.
pub open spec fn blobs_from(t: Seq<char>, i: int, depth: nat, start: Option<int>) -> Seq<
    Seq<char>,
>
    decreases t.len() - i,
{
    if i < 0 || i >= t.len() {
        seq![]
    } else if t[i] == '{' {
        blobs_from(t, i + 1, depth + 1, if depth == 0 { Some(i) } else { start })
    } else if t[i] == '}' && depth > 0 {
        if depth == 1 {
            match start {
                Some(s) => seq![t.subrange(s, i + 1)] + blobs_from(t, i + 1, 0, None),
                None => blobs_from(t, i + 1, 0, None),
            }
        } else {
            blobs_from(t, i + 1, (depth - 1) as nat, start)
        }
    } else {
        blobs_from(t, i + 1, depth, start)
    }
}

/// The balanced top-level `{...}` substrings of `t`, in order (robust to nested objects).
pub open spec fn json_blobs(t: Seq<char>) -> Seq<Seq<char>> {
    blobs_from(t, 0, 0, None)
}

/// Yields each balanced top-level {...} substring of `text`.
pub fn top_level_json_objects(text: &str) -> (r: Vec<String>)
    ensures
        crate::text::string_seq_views(r@) == json_blobs(text@),
{
    let t = to_chars(text);
    let mut out: Vec<String> = Vec::new();
    let mut depth: usize = 0;
    let mut start: Option<usize> = None;
    let mut i: usize = 0;
    while i < t.len()
        invariant
            i <= t@.len(),
            depth <= i,
            start matches Some(s) ==> s < i,
            json_blobs(t@) == crate::text::string_seq_views(out@) + blobs_from(
                t@,
                i as int,
                depth as nat,
                match start {
                    Some(s) => Some(s as int),
                    None => None,
                },
            ),
        decreases t.len() - i,
    {
        let ghost before = crate::text::string_seq_views(out@);
        let ghost st = match start {
            Some(s) => Some(s as int),
            None => None::<int>,
        };
        let ch = t[i];
        if ch == '{' {
            if depth == 0 {
                start = Some(i);
            }
            depth = depth + 1;
        } else if ch == '}' && depth > 0 {
            depth = depth - 1;
            if depth == 0 {
                if let Some(s) = start {
                    let blob = slice_chars(&t, s, i + 1);
                    out.push(from_chars(&blob));
                    assert(crate::text::string_seq_views(out@) =~= before.push(
                        t@.subrange(s as int, i + 1),
                    ));
                    assert(before + (seq![t@.subrange(s as int, i + 1)] + blobs_from(
                        t@,
                        i + 1,
                        0,
                        None,
                    )) =~= before.push(t@.subrange(s as int, i + 1)) + blobs_from(
                        t@,
                        i + 1,
                        0,
                        None,
                    ));
                }
                start = None;
            }
        }
        i = i + 1;
    }
    assert(blobs_from(t@, i as int, depth as nat, match start {
        Some(s) => Some(s as int),
        None => None,
    }) =~= Seq::<Seq<char>>::empty());
    assert(crate::text::string_seq_views(out@) + Seq::<Seq<char>>::empty()
        =~= crate::text::string_seq_views(out@));
    out
}

// ---------------------------------------------------------------- ids in decoded JSON

/// The ids listed in a `knowledgeReferences` array: the `id` string of each record.
pub open spec fn listed_ids(a: Seq<Json>) -> Seq<Seq<char>>
    decreases a.len(),
{
    if a.len() == 0 {
        seq![]
    } else {
        listed_ids(a.drop_last()) + match json_str(json_get(a.last(), "id"@)) {
            Some(id) => seq![id],
            None => seq![],
        }
    }
}

/// The referenced ids in a JSON value: each `knowledgeReferences` member of an object lists
/// them; every other member and every array item is searched in turn.
pub open spec fn ref_ids(v: Json) -> Seq<Seq<char>>
    decreases v,
{
    match v {
        Json::Object(m) => members_ids(m@),
        Json::Array(a) => items_ids(a@),
        _ => seq![],
    }
}

pub open spec fn members_ids(m: Seq<(String, Json)>) -> Seq<Seq<char>>
    decreases m,
{
    if m.len() == 0 {
        seq![]
    } else {
        let last = m.last();
        members_ids(m.drop_last()) + if last.0@ == "knowledgeReferences"@ {
            match last.1 {
                Json::Array(a) => listed_ids(a@),
                _ => seq![],
            }
        } else {
            ref_ids(last.1)
        }
    }
}

pub open spec fn items_ids(a: Seq<Json>) -> Seq<Seq<char>>
    decreases a,
{
    if a.len() == 0 {
        seq![]
    } else {
        items_ids(a.drop_last()) + ref_ids(a.last())
    }
}

fn listed_ids_exec(a: &Vec<Json>) -> (r: Vec<String>)
    ensures
        crate::text::string_seq_views(r@) == listed_ids(a@),
{
    let mut out: Vec<String> = Vec::new();
    let mut i: usize = 0;
    while i < a.len()
        invariant
            i <= a@.len(),
            crate::text::string_seq_views(out@) == listed_ids(a@.take(i as int)),
        decreases a.len() - i,
    {
        let ghost before = crate::text::string_seq_views(out@);
        assert(a@.take(i + 1).drop_last() =~= a@.take(i as int));
        match a[i].get("id") {
            Some(x) => match x.as_str() {
                Some(id) => {
                    out.push(id.to_owned());
                    assert(crate::text::string_seq_views(out@) =~= before.push(id@));
                },
                None => {},
            },
            None => {},
        }
        i = i + 1;
    }
    assert(a@.take(a@.len() as int) =~= a@);
    out
}

/// The referenced ids in a decoded JSON value, in document order.
pub fn ids_in(v: &Json) -> (r: Vec<String>)
    ensures
        crate::text::string_seq_views(r@) == ref_ids(*v),
    decreases v,
{
    let mut out: Vec<String> = Vec::new();
    match v {
        Json::Object(m) => {
            let mut i: usize = 0;
            while i < m.len()
                invariant
                    i <= m@.len(),
                    *v == Json::Object(*m),
                    crate::text::string_seq_views(out@) == members_ids(m@.take(i as int)),
                decreases m.len() - i,
            {
                let ghost before = crate::text::string_seq_views(out@);
                assert(m@.take(i + 1).drop_last() =~= m@.take(i as int));
                assert(m@.take(i + 1).last() == m@[i as int]);
                let (k, val) = &m[i];
                if crate::text::str_eq(k.as_str(), "knowledgeReferences") {
                    match val.as_array() {
                        Some(a) => {
                            let mut more = listed_ids_exec(a);
                            out.append(&mut more);
                        },
                        None => {},
                    }
                } else {
                    proof {
                        assert(decreases_to!(*v => (*v)->Object_0));
                        assert(decreases_to!(*m => m@));
                        assert(decreases_to!(m@ => m@[i as int]));
                        assert(decreases_to!(m@[i as int] => m@[i as int].1));
                    }
                    let mut more = ids_in(val);
                    out.append(&mut more);
                }
                assert(crate::text::string_seq_views(out@) =~= members_ids(m@.take(i + 1)));
                i = i + 1;
            }
            assert(m@.take(m@.len() as int) =~= m@);
        },
        Json::Array(a) => {
            let mut i: usize = 0;
            while i < a.len()
                invariant
                    i <= a@.len(),
                    *v == Json::Array(*a),
                    crate::text::string_seq_views(out@) == items_ids(a@.take(i as int)),
                decreases a.len() - i,
            {
                assert(a@.take(i + 1).drop_last() =~= a@.take(i as int));
                assert(a@.take(i + 1).last() == a@[i as int]);
                proof {
                    assert(decreases_to!(*v => (*v)->Array_0));
                    assert(decreases_to!(*a => a@));
                    assert(decreases_to!(a@ => a@[i as int]));
                }
                let mut more = ids_in(&a[i]);
                out.append(&mut more);
                assert(crate::text::string_seq_views(out@) =~= items_ids(a@.take(i + 1)));
                i = i + 1;
            }
            assert(a@.take(a@.len() as int) =~= a@);
        },
        _ => {},
    }
    out
}

// ---------------------------------------------------------------- YAML/markdown blocks

/// The rest of a line after a `- ` or `* ` bullet marker, if it has one.
pub open spec fn strip_bullet(t: Seq<char>) -> Option<Seq<char>> {
    if "- "@.is_prefix_of(t) || "* "@.is_prefix_of(t) {
        Some(t.skip(2))
    } else {
        None
    }
}

/// A value without one pair of enclosing double quotes, or else single quotes.
pub open spec fn unquote(v: Seq<char>) -> Seq<char> {
    if v.len() >= 2 && v[0] == '"' && v.last() == '"' {
        v.subrange(1, v.len() - 1)
    } else if v.len() >= 2 && v[0] == '\'' && v.last() == '\'' {
        v.subrange(1, v.len() - 1)
    } else {
        v
    }
}

/// Index of the first whitespace character of `s`, or its length.
pub open spec fn ws_index(s: Seq<char>) -> int
    decreases s.len(),
{
    if s.len() == 0 || is_ws(s[0]) {
        0
    } else {
        1 + ws_index(s.drop_first())
    }
}

/// The first whitespace-separated word of `s` (`split_whitespace().next()`), or nothing.
pub open spec fn first_word(s: Seq<char>) -> Seq<char> {
    let u = trim_start(s);
    u.take(ws_index(u))
}

pub open spec fn is_quote(c: char) -> bool {
    c == '"' || c == '\''
}

pub open spec fn is_stop(c: char) -> bool {
    c == ',' || c == '.'
}

pub open spec fn drop_quotes_start(s: Seq<char>) -> Seq<char>
    decreases s.len(),
{
    if s.len() > 0 && is_quote(s[0]) {
        drop_quotes_start(s.drop_first())
    } else {
        s
    }
}

pub open spec fn drop_quotes_end(s: Seq<char>) -> Seq<char>
    decreases s.len(),
{
    if s.len() > 0 && is_quote(s.last()) {
        drop_quotes_end(s.drop_last())
    } else {
        s
    }
}

pub open spec fn drop_stops_end(s: Seq<char>) -> Seq<char>
    decreases s.len(),
{
    if s.len() > 0 && is_stop(s.last()) {
        drop_stops_end(s.drop_last())
    } else {
        s
    }
}

/// A token that names a knowledge entry.
pub open spec fn is_entry_id(v: Seq<char>) -> bool {
    "TK-"@.is_prefix_of(v) || "BK-"@.is_prefix_of(v)
}

/// The id an in-block line yields: from an `id:` line (quotes removed) or from a bullet whose
/// leading word (quotes and trailing `,`/`.` removed) is an id.
pub open spec fn block_id_spec(t: Seq<char>) -> Option<Seq<char>> {
    let rest = match strip_bullet(t) {
        Some(r) => trim_start(r),
        None => t,
    };
    if "id:"@.is_prefix_of(rest) {
        let v = unquote(trim(rest.skip(3)));
        if is_entry_id(v) {
            Some(v)
        } else {
            None
        }
    } else if strip_bullet(t) is Some {
        let tok = drop_stops_end(drop_quotes_end(drop_quotes_start(first_word(rest))));
        if is_entry_id(tok) {
            Some(tok)
        } else {
            None
        }
    } else {
        None
    }
}

/// Character literals used by the scanner.
pub proof fn reveal_markers()
    ensures
        "- "@ == seq!['-', ' '],
        "* "@ == seq!['*', ' '],
        "id:"@ == seq!['i', 'd', ':'],
        "#"@ == seq!['#'],
{
    reveal_strlit("- ");
    reveal_strlit("* ");
    reveal_strlit("id:");
    reveal_strlit("#");
}

fn strip_bullet_exec(t: &Vec<char>) -> (r: Option<Vec<char>>)
    ensures
        match r {
            Some(x) => strip_bullet(t@) == Some(x@),
            None => strip_bullet(t@) is None,
        },
{
    let d = to_chars("- ");
    let a = to_chars("* ");
    if starts_with(t, &d) || starts_with(t, &a) {
        proof {
            reveal_markers();
        }
        Some(slice_chars(t, 2, t.len()))
    } else {
        None
    }
}

fn unquote_exec(v: &Vec<char>) -> (r: Vec<char>)
    ensures
        r@ == unquote(v@),
{
    let n = v.len();
    if n >= 2 && v[0] == '"' && v[n - 1] == '"' {
        slice_chars(v, 1, n - 1)
    } else if n >= 2 && v[0] == '\'' && v[n - 1] == '\'' {
        slice_chars(v, 1, n - 1)
    } else {
        slice_chars(v, 0, n)
    }
}

fn first_word_exec(s: &Vec<char>) -> (r: Vec<char>)
    ensures
        r@ == first_word(s@),
{
    let u = trim_start_chars(s);
    let mut k: usize = 0;
    assert(u@.skip(0) =~= u@);
    while k < u.len() && !is_ws_char(u[k])
        invariant
            k <= u@.len(),
            ws_index(u@) == k + ws_index(u@.skip(k as int)),
        decreases u.len() - k,
    {
        assert(u@.skip(k as int).drop_first() =~= u@.skip(k + 1));
        k = k + 1;
    }
    slice_chars(&u, 0, k)
}

fn drop_quotes_exec(s: &Vec<char>) -> (r: Vec<char>)
    ensures
        r@ == drop_quotes_end(drop_quotes_start(s@)),
{
    let mut i: usize = 0;
    assert(s@.skip(0) =~= s@);
    while i < s.len() && (s[i] == '"' || s[i] == '\'')
        invariant
            i <= s.len(),
            drop_quotes_start(s@) == drop_quotes_start(s@.skip(i as int)),
        decreases s.len() - i,
    {
        assert(s@.skip(i as int).drop_first() =~= s@.skip(i + 1));
        i = i + 1;
    }
    let a = slice_chars(s, i, s.len());
    assert(a@ =~= s@.skip(i as int));
    let mut n: usize = a.len();
    assert(a@.take(n as int) =~= a@);
    while n > 0 && (a[n - 1] == '"' || a[n - 1] == '\'')
        invariant
            n <= a.len(),
            drop_quotes_end(a@) == drop_quotes_end(a@.take(n as int)),
        decreases n,
    {
        assert(a@.take(n as int).drop_last() =~= a@.take(n - 1));
        n = n - 1;
    }
    let r = slice_chars(&a, 0, n);
    assert(r@ =~= a@.take(n as int));
    r
}

fn drop_stops_exec(s: &Vec<char>) -> (r: Vec<char>)
    ensures
        r@ == drop_stops_end(s@),
{
    let mut n: usize = s.len();
    assert(s@.take(n as int) =~= s@);
    while n > 0 && (s[n - 1] == ',' || s[n - 1] == '.')
        invariant
            n <= s.len(),
            drop_stops_end(s@) == drop_stops_end(s@.take(n as int)),
        decreases n,
    {
        assert(s@.take(n as int).drop_last() =~= s@.take(n - 1));
        n = n - 1;
    }
    let r = slice_chars(s, 0, n);
    assert(r@ =~= s@.take(n as int));
    r
}

fn is_entry_id_exec(v: &Vec<char>) -> (r: bool)
    ensures
        r == is_entry_id(v@),
{
    let tk = to_chars("TK-");
    let bk = to_chars("BK-");
    starts_with(v, &tk) || starts_with(v, &bk)
}

/// Tries to pull a TK-/BK- id out of one trimmed in-block line: from an `id:` line, or from a
/// bullet that leads with the id. Any other line yields nothing.
pub fn block_id_from_line(trimmed: &Vec<char>) -> (r: Option<Vec<char>>)
    ensures
        match r {
            Some(x) => block_id_spec(trimmed@) == Some(x@),
            None => block_id_spec(trimmed@) is None,
        },
{
    let stripped = strip_bullet_exec(trimmed);
    let rest = match &stripped {
        Some(r) => trim_start_chars(r),
        None => slice_chars(trimmed, 0, trimmed.len()),
    };
    assert(trimmed@.subrange(0, trimmed@.len() as int) =~= trimmed@);
    let idc = to_chars("id:");
    if starts_with(&rest, &idc) {
        proof {
            reveal_markers();
        }
        let after = slice_chars(&rest, 3, rest.len());
        assert(after@ =~= rest@.skip(3));
        let v = unquote_exec(&trim_chars(&after));
        if is_entry_id_exec(&v) {
            return Some(v);
        }
        return None;
    }
    if stripped.is_some() {
        let w = first_word_exec(&rest);
        let q = drop_quotes_exec(&w);
        let tok = drop_stops_exec(&q);
        if is_entry_id_exec(&tok) {
            return Some(tok);
        }
    }
    None
}

/// A line that opens a `knowledgeReferences` block: the YAML key, or a heading naming it.
pub open spec fn opens_block(t: Seq<char>) -> bool {
    t == "knowledgeReferences:"@ || ("#"@.is_prefix_of(t) && contains_seq(
        t,
        "knowledgeReferences"@,
    ))
}

/// After a blank line, a block goes on when the next line is blank, a bullet, or indented.
pub open spec fn continues_after_blank(next: Seq<char>) -> bool {
    let nt = trim(next);
    ||| nt.len() == 0
    ||| "- "@.is_prefix_of(nt)
    ||| "* "@.is_prefix_of(nt)
    ||| (next.len() > 0 && (next[0] == ' ' || next[0] == '\t'))
}

/// One dropped-block warning when a closing block had an `id:` line but yielded nothing.
pub open spec fn warning(saw_id: bool, yielded: bool) -> nat {
    if saw_id && !yielded {
        1
    } else {
        0
    }
}

/// The ids collected from `lines` from position `i` on, and the number of blocks that had
/// `id:` lines but yielded nothing, given whether the scan is in a block, whether that block
/// had an `id:` line, and whether it has yielded an id.
pub open spec fn scan_blocks(lines: Seq<Seq<char>>, i: int, in_block: bool, saw_id: bool, yielded: bool) -> (
    Seq<Seq<char>>,
    nat,
)
    decreases lines.len() - i,
{
    if i < 0 || i >= lines.len() {
        (seq![], 0)
    } else {
        let t = trim(lines[i]);
        if !in_block {
            if opens_block(t) {
                scan_blocks(lines, i + 1, true, false, false)
            } else {
                scan_blocks(lines, i + 1, false, saw_id, yielded)
            }
        } else if t == "```"@ {
            let r = scan_blocks(lines, i + 1, false, saw_id, yielded);
            (r.0, r.1 + warning(saw_id, yielded))
        } else if "#"@.is_prefix_of(t) {
            let r = if contains_seq(t, "knowledgeReferences"@) {
                scan_blocks(lines, i + 1, true, false, false)
            } else {
                scan_blocks(lines, i + 1, false, saw_id, yielded)
            };
            (r.0, r.1 + warning(saw_id, yielded))
        } else if t.len() == 0 {
            let next = if i + 1 < lines.len() {
                lines[i + 1]
            } else {
                Seq::empty()
            };
            if continues_after_blank(next) {
                scan_blocks(lines, i + 1, true, saw_id, yielded)
            } else {
                let r = scan_blocks(lines, i + 1, false, saw_id, yielded);
                (r.0, r.1 + warning(saw_id, yielded))
            }
        } else {
            let key = trim_start(
                match strip_bullet(t) {
                    Some(x) => x,
                    None => t,
                },
            );
            let saw = saw_id || "id:"@.is_prefix_of(key);
            match block_id_spec(t) {
                Some(id) => {
                    let r = scan_blocks(lines, i + 1, true, saw, true);
                    (seq![id] + r.0, r.1)
                },
                None => scan_blocks(lines, i + 1, true, saw, yielded),
            }
        }
    }
}

/// Where an id of the scan comes from: a line at or after `i` that yields it, behind a line
/// that opens a block unless the scan is already in one.
pub open spec fn yielded_at(lines: Seq<Seq<char>>, i: int, in_block: bool, id: Seq<char>) -> bool {
    exists|j: int|
        #![trigger lines[j]]
        i <= j < lines.len() && block_id_spec(trim(lines[j])) == Some(id) && (in_block || exists|
            o: int,
        |
            #![trigger lines[o]]
            i <= o < j && opens_block(trim(lines[o])))
}

proof fn lemma_scan_sources(
    lines: Seq<Seq<char>>,
    i: int,
    in_block: bool,
    saw_id: bool,
    yielded: bool,
)
    requires
        0 <= i,
    ensures
        forall|k: int|
            0 <= k < scan_blocks(lines, i, in_block, saw_id, yielded).0.len() ==> {
                let id = #[trigger] scan_blocks(lines, i, in_block, saw_id, yielded).0[k];
                &&& is_entry_id(id)
                &&& yielded_at(lines, i, in_block, id)
            },
    decreases lines.len() - i,
{
    if i < lines.len() {
        let t = trim(lines[i]);
        let key = trim_start(
            match strip_bullet(t) {
                Some(x) => x,
                None => t,
            },
        );
        let saw = saw_id || "id:"@.is_prefix_of(key);
        let r = scan_blocks(lines, i, in_block, saw_id, yielded);
        if !in_block {
            let ib = opens_block(t);
            lemma_scan_sources(lines, i + 1, true, false, false);
            lemma_scan_sources(lines, i + 1, false, saw_id, yielded);
            assert forall|k: int| 0 <= k < r.0.len() implies {
                let id = #[trigger] r.0[k];
                &&& is_entry_id(id)
                &&& yielded_at(lines, i, in_block, id)
            } by {
                let id = r.0[k];
                if ib {
                    let p = scan_blocks(lines, i + 1, true, false, false);
                    assert(r.0 == p.0);
                    assert(yielded_at(lines, i + 1, true, id));
                    let j = choose|j: int|
                        #![trigger lines[j]]
                        i + 1 <= j < lines.len() && block_id_spec(trim(lines[j])) == Some(id);
                    assert(i <= i && i < j && opens_block(trim(lines[i])));
                    assert(yielded_at(lines, i, in_block, id));
                } else {
                    let p = scan_blocks(lines, i + 1, false, saw_id, yielded);
                    assert(r.0 == p.0);
                    assert(yielded_at(lines, i + 1, false, id));
                    let j = choose|j: int|
                        #![trigger lines[j]]
                        i + 1 <= j < lines.len() && block_id_spec(trim(lines[j])) == Some(id) && (
                        exists|o: int| #![trigger lines[o]] i + 1 <= o < j && opens_block(trim(lines[o])));
                    let o = choose|o: int| #![trigger lines[o]] i + 1 <= o < j && opens_block(trim(lines[o]));
                    assert(i <= o < j && opens_block(trim(lines[o])));
                }
            }
        } else if t == "```"@ {
            lemma_scan_sources(lines, i + 1, false, saw_id, yielded);
            assert forall|k: int| 0 <= k < r.0.len() implies {
                let id = #[trigger] r.0[k];
                &&& is_entry_id(id)
                &&& yielded_at(lines, i, in_block, id)
            } by {
                let id = r.0[k];
                let p = scan_blocks(lines, i + 1, false, saw_id, yielded);
                assert(r.0 == p.0);
                assert(yielded_at(lines, i + 1, false, id));
                let j = choose|j: int|
                    #![trigger lines[j]]
                    i + 1 <= j < lines.len() && block_id_spec(trim(lines[j])) == Some(id);
                assert(i <= j);
            }
        } else if "#"@.is_prefix_of(t) {
            let ib = contains_seq(t, "knowledgeReferences"@);
            lemma_scan_sources(lines, i + 1, true, false, false);
            lemma_scan_sources(lines, i + 1, false, saw_id, yielded);
            assert forall|k: int| 0 <= k < r.0.len() implies {
                let id = #[trigger] r.0[k];
                &&& is_entry_id(id)
                &&& yielded_at(lines, i, in_block, id)
            } by {
                let id = r.0[k];
                let p = if ib {
                    scan_blocks(lines, i + 1, true, false, false)
                } else {
                    scan_blocks(lines, i + 1, false, saw_id, yielded)
                };
                assert(r.0 == p.0);
                let j = choose|j: int|
                    #![trigger lines[j]]
                    i + 1 <= j < lines.len() && block_id_spec(trim(lines[j])) == Some(id);
                assert(i <= j);
            }
        } else if t.len() == 0 {
            let next = if i + 1 < lines.len() {
                lines[i + 1]
            } else {
                Seq::empty()
            };
            let c = continues_after_blank(next);
            lemma_scan_sources(lines, i + 1, c, saw_id, yielded);
            assert forall|k: int| 0 <= k < r.0.len() implies {
                let id = #[trigger] r.0[k];
                &&& is_entry_id(id)
                &&& yielded_at(lines, i, in_block, id)
            } by {
                let id = r.0[k];
                let p = scan_blocks(lines, i + 1, c, saw_id, yielded);
                assert(r.0 == p.0);
                let j = choose|j: int|
                    #![trigger lines[j]]
                    i + 1 <= j < lines.len() && block_id_spec(trim(lines[j])) == Some(id);
                assert(i <= j);
            }
        } else {
            lemma_scan_sources(lines, i + 1, true, saw, true);
            lemma_scan_sources(lines, i + 1, true, saw, yielded);
            assert forall|k: int| 0 <= k < r.0.len() implies {
                let id = #[trigger] r.0[k];
                &&& is_entry_id(id)
                &&& yielded_at(lines, i, in_block, id)
            } by {
                let id = r.0[k];
                match block_id_spec(t) {
                    Some(x) => {
                        let p = scan_blocks(lines, i + 1, true, saw, true);
                        assert(r.0 == seq![x] + p.0);
                        if k == 0 {
                            assert(id == x);
                            assert(lines[i] == lines[i]);
                            assert(is_entry_id(x));
                        } else {
                            assert(id == p.0[k - 1]);
                            let j = choose|j: int|
                                #![trigger lines[j]]
                                i + 1 <= j < lines.len() && block_id_spec(trim(lines[j])) == Some(id);
                            assert(i <= j);
                        }
                    },
                    None => {
                        let p = scan_blocks(lines, i + 1, true, saw, yielded);
                        assert(r.0 == p.0);
                        let j = choose|j: int|
                            #![trigger lines[j]]
                            i + 1 <= j < lines.len() && block_id_spec(trim(lines[j])) == Some(id);
                        assert(i <= j);
                    },
                }
            }
        }
    }
}

/// The block scanner yields only entry ids (`TK-`/`BK-`), each the id of a line of the text
/// (an `id:` line or a leading bullet token) that comes after a line opening a
/// `knowledgeReferences` block.
pub proof fn law_block_ids_come_from_reference_blocks(text: Seq<char>)
    ensures
        forall|k: int|
            0 <= k < block_refs(text).0.len() ==> {
                let id = #[trigger] block_refs(text).0[k];
                &&& is_entry_id(id)
                &&& yielded_at(lines_of(text), 0, false, id)
            },
{
    lemma_scan_sources(lines_of(text), 0, false, false, false);
}

/// A blank line inside a `knowledgeReferences` block keeps the block open when the next line
/// is blank, a bullet (`- ` or `* `) or indented: scanning from the blank line gives exactly
/// what scanning from the next line inside the block gives, so no id after it is lost.
pub proof fn law_blank_line_keeps_block_open(
    lines: Seq<Seq<char>>,
    i: int,
    saw_id: bool,
    yielded: bool,
)
    requires
        0 <= i,
        i + 1 < lines.len(),
        trim(lines[i]).len() == 0,
        ({
            let next = lines[i + 1];
            let nt = trim(next);
            ||| nt.len() == 0
            ||| (nt.len() >= 2 && nt[0] == '-' && nt[1] == ' ')
            ||| (nt.len() >= 2 && nt[0] == '*' && nt[1] == ' ')
            ||| (next.len() > 0 && (next[0] == ' ' || next[0] == '\t'))
        }),
    ensures
        scan_blocks(lines, i, true, saw_id, yielded) == scan_blocks(
            lines,
            i + 1,
            true,
            saw_id,
            yielded,
        ),
{
    reveal_markers();
    reveal_strlit("```");
    let nt = trim(lines[i + 1]);
    if nt.len() >= 2 && nt[0] == '-' && nt[1] == ' ' {
        assert("- "@.is_prefix_of(nt));
    }
    if nt.len() >= 2 && nt[0] == '*' && nt[1] == ' ' {
        assert("* "@.is_prefix_of(nt));
    }
    assert(trim(lines[i]) != "```"@);
    assert(!"#"@.is_prefix_of(trim(lines[i])));
    assert(continues_after_blank(lines[i + 1]));
}

/// The ids in the `knowledgeReferences` blocks of a text, and the number of blocks that had
/// `id:` lines yet yielded no id.
pub open spec fn block_refs(text: Seq<char>) -> (Seq<Seq<char>>, nat) {
    scan_blocks(lines_of(text), 0, false, false, false)
}

/// Extracts knowledgeReferences ids from the agent-emitted YAML/markdown shapes.
///
/// Scoped and structural: ids are collected only inside a recognized block, and only from
/// `- id:`/`id:` lines and bare `- TK-…`/`- BK-…` leading-token bullets; inline flow lists and
/// prose are not scraped. The second result counts the blocks with `id:` lines that yielded
/// nothing, each of which the caller reports as a warning.
pub fn ids_from_reference_blocks(text: &str) -> (r: (Vec<String>, usize))
    ensures
        crate::text::string_seq_views(r.0@) == block_refs(text@).0,
        r.1 == block_refs(text@).1,
{
    let t = to_chars(text);
    let ls = lines(&t);
    let ghost lv = views(ls@);
    let key_line = to_chars("knowledgeReferences:");
    let kr = to_chars("knowledgeReferences");
    let hash = to_chars("#");
    let fence = to_chars("```");
    let dash = to_chars("- ");
    let star = to_chars("* ");
    let idc = to_chars("id:");
    proof {
        reveal_markers();
    }
    let mut ids: Vec<String> = Vec::new();
    let mut warnings: usize = 0;
    let mut in_block = false;
    let mut saw = false;
    let mut yielded = false;
    let mut i: usize = 0;
    while i < ls.len()
        invariant
            i <= ls@.len(),
            lv == views(ls@),
            lv == lines_of(t@),
            t@ == text@,
            warnings <= i,
            key_line@ == "knowledgeReferences:"@,
            kr@ == "knowledgeReferences"@,
            hash@ == "#"@,
            fence@ == "```"@,
            dash@ == "- "@,
            star@ == "* "@,
            idc@ == "id:"@,
            block_refs(text@).0 == crate::text::string_seq_views(ids@) + scan_blocks(
                lv,
                i as int,
                in_block,
                saw,
                yielded,
            ).0,
            block_refs(text@).1 == warnings + scan_blocks(lv, i as int, in_block, saw, yielded).1,
        decreases ls.len() - i,
    {
        let ghost before = crate::text::string_seq_views(ids@);
        let tl = trim_chars(&ls[i]);
        assert(lv[i as int] == ls@[i as int]@);
        if !in_block {
            let is_key = crate::text::chars_eq(&tl, &key_line);
            let is_heading = starts_with(&tl, &hash) && contains(&tl, &kr);
            if is_key || is_heading {
                in_block = true;
                saw = false;
                yielded = false;
            }
        } else if crate::text::chars_eq(&tl, &fence) {
            if saw && !yielded {
                warnings = warnings + 1;
            }
            in_block = false;
        } else if starts_with(&tl, &hash) {
            if saw && !yielded {
                warnings = warnings + 1;
            }
            in_block = false;
            if contains(&tl, &kr) {
                in_block = true;
                saw = false;
                yielded = false;
            }
        } else if tl.len() == 0 {
            let next: Vec<char> = if i + 1 < ls.len() {
                slice_chars(&ls[i + 1], 0, ls[i + 1].len())
            } else {
                Vec::new()
            };
            assert(i + 1 < ls.len() ==> next@ =~= lv[i + 1]);
            let nt = trim_chars(&next);
            let cont = nt.len() == 0 || starts_with(&nt, &dash) || starts_with(&nt, &star) || (
            next.len() > 0 && (next[0] == ' ' || next[0] == '\t'));
            if !cont {
                if saw && !yielded {
                    warnings = warnings + 1;
                }
                in_block = false;
            }
        } else {
            let stripped = strip_bullet_exec(&tl);
            let key = match &stripped {
                Some(x) => trim_start_chars(x),
                None => trim_start_chars(&tl),
            };
            proof {
                if stripped is None {
                    assert(trim_start(tl@) == trim_start(trim(lv[i as int])));
                }
            }
            if starts_with(&key, &idc) {
                saw = true;
            }
            match block_id_from_line(&tl) {
                Some(id) => {
                    ids.push(from_chars(&id));
                    yielded = true;
                    assert(crate::text::string_seq_views(ids@) =~= before.push(id@));
                },
                None => {},
            }
        }
        i = i + 1;
    }
    (ids, warnings)
}

// ---------------------------------------------------------------- run files

/// A run artifact: its text, and what decoding each of its top-level `{...}` substrings
/// (`top_level_json_objects`) as JSON gave, in order (`None` where it is no JSON).
#[derive(Debug)]
pub struct RunFile {
    pub text: String,
    pub blobs: Vec<Option<Json>>,
}

/// The ids referenced by the decoded JSON objects, in order.
pub open spec fn blobs_ids(b: Seq<Option<Json>>) -> Seq<Seq<char>>
    decreases b.len(),
{
    if b.len() == 0 {
        seq![]
    } else {
        blobs_ids(b.drop_last()) + match b.last() {
            Some(j) => ref_ids(j),
            None => seq![],
        }
    }
}

/// The ids a run file references: first those of its JSON objects, then those of its
/// `knowledgeReferences` blocks.
pub open spec fn file_refs(f: RunFile) -> Seq<Seq<char>> {
    blobs_ids(f.blobs@) + block_refs(f.text@).0
}

/// The ids referenced by the files, file after file.
pub open spec fn files_refs(fs: Seq<RunFile>) -> Seq<Seq<char>>
    decreases fs.len(),
{
    if fs.len() == 0 {
        seq![]
    } else {
        files_refs(fs.drop_last()) + file_refs(fs.last())
    }
}

/// The references of a run: the ids, and for each file the number of blocks with `id:` lines
/// that yielded nothing.
#[derive(Debug)]
pub struct RefScan {
    pub ids: Vec<String>,
    pub dropped_blocks: Vec<usize>,
}

/// Collects the referenced ids of a run's artifacts, given in file-name order.
pub fn collect_references(files: &Vec<RunFile>) -> (r: RefScan)
    ensures
        string_seq_views(r.ids@) == files_refs(files@),
        r.dropped_blocks@.len() == files@.len(),
        forall|i: int|
            0 <= i < files@.len() ==> r.dropped_blocks@[i] == block_refs(
                #[trigger] files@[i].text@,
            ).1,
{
    let mut ids: Vec<String> = Vec::new();
    let mut dropped: Vec<usize> = Vec::new();
    let mut k: usize = 0;
    while k < files.len()
        invariant
            k <= files@.len(),
            string_seq_views(ids@) == files_refs(files@.take(k as int)),
            dropped@.len() == k,
            forall|i: int| 0 <= i < k ==> dropped@[i] == block_refs(#[trigger] files@[i].text@).1,
        decreases files.len() - k,
    {
        let f = &files[k];
        assert(files@.take(k + 1).drop_last() =~= files@.take(k as int));
        let ghost start = string_seq_views(ids@);
        let mut j: usize = 0;
        while j < f.blobs.len()
            invariant
                j <= f.blobs@.len(),
                string_seq_views(ids@) == start + blobs_ids(f.blobs@.take(j as int)),
            decreases f.blobs.len() - j,
        {
            assert(f.blobs@.take(j + 1).drop_last() =~= f.blobs@.take(j as int));
            let ghost before = ids@;
            assert(f.blobs@.take(j + 1).last() == f.blobs@[j as int]);
            match &f.blobs[j] {
                Some(v) => {
                    let mut more = ids_in(v);
                    let ghost mv = more@;
                    ids.append(&mut more);
                    assert(ids@ == before + mv);
                    assert(string_seq_views(ids@) =~= string_seq_views(before) + string_seq_views(
                        mv,
                    ));
                },
                None => {},
            }
            assert(string_seq_views(ids@) =~= start + blobs_ids(f.blobs@.take(j + 1)));
            j = j + 1;
        }
        assert(f.blobs@.take(f.blobs@.len() as int) =~= f.blobs@);
        let (mut more, w) = ids_from_reference_blocks(f.text.as_str());
        let ghost before = ids@;
        let ghost mv = more@;
        ids.append(&mut more);
        assert(string_seq_views(ids@) =~= string_seq_views(before) + string_seq_views(mv));
        assert(files@.take(k + 1).last() == files@[k as int]);
        dropped.push(w);
        assert(string_seq_views(ids@) =~= files_refs(files@.take(k + 1)));
        k = k + 1;
    }
    assert(files@.take(files@.len() as int) =~= files@);
    RefScan { ids, dropped_blocks: dropped }
}

/// A file name with the extension `md` (`Path::extension`): it ends in `.md` and has
/// something before the dot.
pub open spec fn is_md_name(n: Seq<char>) -> bool {
    n.len() > 3 && crate::text::is_suffix(".md"@, n)
}

/// The names with the extension `md`, in order.
pub open spec fn md_only(s: Seq<String>) -> Seq<String>
    decreases s.len(),
{
    if s.len() == 0 {
        seq![]
    } else if is_md_name(s.last()@) {
        md_only(s.drop_last()).push(s.last())
    } else {
        md_only(s.drop_last())
    }
}

/// Whether a file name has the extension `md`.
pub fn is_md_file(n: &str) -> (r: bool)
    ensures
        r == is_md_name(n@),
{
    let c = to_chars(n);
    let ext = to_chars(".md");
    proof {
        reveal_strlit(".md");
    }
    c.len() > 3 && crate::text::ends_with(&c, &ext)
}

/// The Markdown files among the names of a directory's entries, sorted by name.
pub fn md_files_sorted(names: Vec<String>) -> (r: Vec<String>)
    ensures
        texts(r@) == sorted_spec(texts(md_only(names@))),
{
    let mut keep: Vec<String> = Vec::new();
    let mut names = names;
    let ghost orig = names@;
    let n0 = names.len();
    assert(orig.len() == n0);
    let mut k: usize = 0;
    while names.len() > 0
        invariant
            k + names@.len() == orig.len(),
            orig.len() <= usize::MAX,
            names@ == orig.skip(k as int),
            keep@ == md_only(orig.take(k as int)),
        decreases names.len(),
    {
        let x = names.remove(0);
        assert(orig.take(k + 1).drop_last() =~= orig.take(k as int));
        assert(x == orig[k as int]);
        if is_md_file(x.as_str()) {
            keep.push(x);
        }
        k = k + 1;
        assert(names@ =~= orig.skip(k as int));
    }
    assert(orig.take(k as int) =~= orig);
    sort_strings(keep)
}

// ---------------------------------------------------------------- touch

/// Runs of equal neighbours of a sorted sequence, each with its length.
pub open spec fn group_counts(s: Seq<Text>) -> Seq<(Seq<char>, nat)>
    decreases s.len(),
{
    if s.len() == 0 {
        seq![]
    } else {
        let g = group_counts(s.drop_last());
        let x = s.last().0@;
        if g.len() > 0 && g.last().0 == x {
            g.update(g.len() - 1, (x, g.last().1 + 1))
        } else {
            g.push((x, 1))
        }
    }
}

/// The referenced ids, each once in string order, with the number of times it is referenced.
pub open spec fn reference_counts_spec(refs: Seq<String>) -> Seq<(Seq<char>, nat)> {
    group_counts(sorted_spec(texts(refs)))
}

pub open spec fn count_views(c: Seq<(String, u64)>) -> Seq<(Seq<char>, nat)> {
    Seq::new(c.len(), |i: int| (c[i].0@, c[i].1 as nat))
}

pub proof fn lemma_group_counts_bound(s: Seq<Text>)
    ensures
        group_counts(s).len() <= s.len(),
        forall|i: int| 0 <= i < group_counts(s).len() ==> #[trigger] group_counts(s)[i].1 <= s.len(),
    decreases s.len(),
{
    if s.len() > 0 {
        lemma_group_counts_bound(s.drop_last());
    }
}

/// Each text comes strictly before the next, in `String`'s order.
pub open spec fn ascending(s: Seq<Seq<char>>) -> bool {
    forall|a: int, b: int| 0 <= a < b < s.len() ==> seq_lt(#[trigger] s[a], #[trigger] s[b])
}

/// The ids of a list of counts.
pub open spec fn count_keys(c: Seq<(Seq<char>, nat)>) -> Seq<Seq<char>> {
    Seq::new(c.len(), |i: int| c[i].0)
}

/// The ids of the entries of a list of updates.
pub open spec fn update_ids(u: Seq<(usize, Entry)>) -> Seq<Seq<char>> {
    Seq::new(u.len(), |k: int| u[k].1.id@)
}

/// In ordered text, each run of equal neighbours holds every occurrence of its text: the
/// groups have distinct texts, and each group's length is how often its text occurs.
proof fn lemma_group_counts_occurrences(s: Seq<Text>)
    requires
        in_order(s),
    ensures
        (group_counts(s).len() > 0) == (s.len() > 0),
        s.len() > 0 ==> group_counts(s).last().0 == s.last().0@,
        forall|i: int|
            0 <= i < group_counts(s).len() ==> #[trigger] group_counts(s)[i].1 == occurrences(
                text_views(s),
                group_counts(s)[i].0,
            ) && group_counts(s)[i].1 > 0,
        forall|i: int, j: int|
            0 <= i < j < group_counts(s).len() ==> #[trigger] group_counts(s)[i].0
                != #[trigger] group_counts(s)[j].0,
        forall|k: Seq<char>|
            #[trigger] occurrences(text_views(s), k) > 0 ==> exists|i: int|
                0 <= i < group_counts(s).len() && group_counts(s)[i].0 == k,
        forall|i: int, j: int|
            0 <= i < j < group_counts(s).len() ==> seq_lt(
                #[trigger] group_counts(s)[i].0,
                #[trigger] group_counts(s)[j].0,
            ),
    decreases s.len(),
{
    if s.len() > 0 {
        let p = s.drop_last();
        let n = s.len();
        assert forall|a: int, b: int| 0 <= a < b < p.len() implies !#[trigger] p[b].before(&p[a]) by {
            assert(p[a] == s[a] && p[b] == s[b]);
        }
        lemma_group_counts_occurrences(p);
        let g = group_counts(p);
        let x = s.last().0@;
        assert(text_views(s) =~= text_views(p) + seq![x]);
        assert forall|k: Seq<char>|
            #[trigger] occurrences(text_views(s), k) == occurrences(text_views(p), k) + occurrences(
                seq![x],
                k,
            ) by {
            crate::text::lemma_occurrences_concat(text_views(p), seq![x], k);
        }
        assert forall|k: Seq<char>| #[trigger]
            occurrences(seq![x], k) == if x == k {
                1nat
            } else {
                0nat
            } by {
            lemma_occurrences_single(x, k);
        }
        if g.len() > 0 && g.last().0 == x {
            let h = group_counts(s);
            assert(h == g.update(g.len() - 1, (x, g.last().1 + 1)));
            assert forall|i: int| 0 <= i < h.len() implies #[trigger] h[i].1 == occurrences(
                text_views(s),
                h[i].0,
            ) && h[i].1 > 0 by {
                assert(occurrences(text_views(s), h[i].0) == occurrences(text_views(p), h[i].0)
                    + occurrences(seq![x], h[i].0));
                if i < g.len() - 1 {
                    assert(g[i].0 != g[g.len() - 1].0);
                    assert(g[i].1 == occurrences(text_views(p), g[i].0));
                } else {
                    assert(g[i].1 == occurrences(text_views(p), g[i].0));
                }
            }
            assert forall|k: Seq<char>| #[trigger] occurrences(text_views(s), k) > 0 implies exists|i: int|
                0 <= i < h.len() && h[i].0 == k by {
                assert(occurrences(text_views(s), k) == occurrences(text_views(p), k) + occurrences(
                    seq![x],
                    k,
                ));
                if x == k {
                    assert(h[h.len() - 1].0 == k);
                } else {
                    assert(occurrences(text_views(p), k) > 0);
                    let i = choose|i: int| 0 <= i < g.len() && g[i].0 == k;
                    assert(h[i].0 == k);
                }
            }
            assert forall|i: int, j: int| 0 <= i < j < h.len() implies seq_lt(
                #[trigger] h[i].0,
                #[trigger] h[j].0,
            ) by {
                assert(h[i].0 == g[i].0 && h[j].0 == g[j].0);
            }
        } else {
            let h = group_counts(s);
            assert(h == g.push((x, 1)));
            assert(occurrences(text_views(p), x) == 0) by {
                if occurrences(text_views(p), x) > 0 {
                    lemma_occurrences_contains(text_views(p), x);
                    let k = choose|k: int| 0 <= k < text_views(p).len() && text_views(p)[k] == x;
                    let y = p.last().0@;
                    assert(g.last().0 == y);
                    assert(s[k].0@ == x);
                    assert(s[n - 2].0@ == y);
                    if k < n - 2 {
                        assert(!s[n - 2].before(&s[k]));
                    }
                    assert(!s[n - 1].before(&s[n - 2]));
                    crate::text::lemma_seq_lt_total(x, y);
                }
            }
            assert forall|i: int| 0 <= i < h.len() implies #[trigger] h[i].1 == occurrences(
                text_views(s),
                h[i].0,
            ) && h[i].1 > 0 by {
                assert(occurrences(text_views(s), h[i].0) == occurrences(text_views(p), h[i].0)
                    + occurrences(seq![x], h[i].0));
                if i < g.len() {
                    assert(g[i].1 == occurrences(text_views(p), g[i].0));
                    assert(g[i].0 != x);
                }
            }
            assert forall|i: int, j: int| 0 <= i < j < h.len() implies #[trigger] h[i].0
                != #[trigger] h[j].0 by {
                if j == h.len() - 1 {
                    assert(g[i].1 == occurrences(text_views(p), g[i].0) && g[i].1 > 0);
                }
            }
            assert forall|i: int, j: int| 0 <= i < j < h.len() implies seq_lt(
                #[trigger] h[i].0,
                #[trigger] h[j].0,
            ) by {
                if j == h.len() - 1 {
                    let key = g[i].0;
                    assert(g[i].1 == occurrences(text_views(p), key) && g[i].1 > 0);
                    lemma_occurrences_contains(text_views(p), key);
                    let k = choose|k: int| 0 <= k < text_views(p).len() && text_views(p)[k] == key;
                    assert(s[k].0@ == key);
                    assert(!s[n - 1].before(&s[k]));
                    assert(key != x);
                    crate::text::lemma_seq_lt_total(key, x);
                } else {
                    assert(h[i] == g[i] && h[j] == g[j]);
                }
            }
            assert forall|k: Seq<char>| #[trigger] occurrences(text_views(s), k) > 0 implies exists|i: int|
                0 <= i < h.len() && h[i].0 == k by {
                assert(occurrences(text_views(s), k) == occurrences(text_views(p), k) + occurrences(
                    seq![x],
                    k,
                ));
                if x == k {
                    assert(h[h.len() - 1].0 == k);
                } else {
                    assert(occurrences(text_views(p), k) > 0);
                    let i = choose|i: int| 0 <= i < g.len() && g[i].0 == k;
                    assert(h[i].0 == k);
                }
            }
        }
    }
}

/// The per-id counts of a run's references list each referenced id exactly once, with the
/// number of times it is referenced, so repeated references sum into one count.
pub proof fn law_each_id_counted_by_its_references(refs: Seq<String>)
    ensures
        forall|i: int|
            0 <= i < reference_counts_spec(refs).len() ==> #[trigger] reference_counts_spec(refs)[i].1
                == occurrences(string_seq_views(refs), reference_counts_spec(refs)[i].0),
        forall|i: int, j: int|
            0 <= i < j < reference_counts_spec(refs).len() ==> #[trigger] reference_counts_spec(
                refs,
            )[i].0 != #[trigger] reference_counts_spec(refs)[j].0,
        forall|k: Seq<char>|
            #[trigger] occurrences(string_seq_views(refs), k) > 0 ==> exists|i: int|
                0 <= i < reference_counts_spec(refs).len() && reference_counts_spec(refs)[i].0 == k,
        ascending(count_keys(reference_counts_spec(refs))),
{
    let s = texts(refs);
    assert(text_views(s) =~= string_seq_views(refs));
    lemma_sorted_texts(s);
    lemma_group_counts_occurrences(sorted_spec(s));
    let rc = reference_counts_spec(refs);
    assert forall|a: int, b: int| 0 <= a < b < count_keys(rc).len() implies seq_lt(
        #[trigger] count_keys(rc)[a],
        #[trigger] count_keys(rc)[b],
    ) by {
        assert(count_keys(rc)[a] == rc[a].0 && count_keys(rc)[b] == rc[b].0);
    }
    assert forall|k: Seq<char>| #[trigger] occurrences(string_seq_views(refs), k) > 0 implies exists|i: int|
        0 <= i < reference_counts_spec(refs).len() && reference_counts_spec(refs)[i].0 == k by {
        let g = group_counts(sorted_spec(s));
        assert(occurrences(text_views(sorted_spec(s)), k) == occurrences(text_views(s), k));
        assert(occurrences(text_views(sorted_spec(s)), k) > 0);
        let i = choose|i: int| 0 <= i < g.len() && g[i].0 == k;
        assert(reference_counts_spec(refs)[i].0 == k);
    }
    assert forall|i: int|
        0 <= i < reference_counts_spec(refs).len() implies #[trigger] reference_counts_spec(refs)[i].1
        == occurrences(string_seq_views(refs), reference_counts_spec(refs)[i].0) by {
        let k = reference_counts_spec(refs)[i].0;
        assert(occurrences(text_views(sorted_spec(s)), k) == occurrences(text_views(s), k));
    }
}

/// Counts the references per id: each id once, in string order.
pub fn reference_counts(refs: &Vec<String>) -> (r: Vec<(String, u64)>)
    ensures
        count_views(r@) == reference_counts_spec(refs@),
{
    let mut copy: Vec<String> = Vec::new();
    let mut i: usize = 0;
    while i < refs.len()
        invariant
            i <= refs@.len(),
            copy@ == refs@.take(i as int),
        decreases refs.len() - i,
    {
        copy.push(refs[i].clone());
        assert(copy@ =~= refs@.take(i + 1));
        i = i + 1;
    }
    assert(refs@.take(refs@.len() as int) =~= refs@);
    let sorted = sort_strings(copy);
    let ghost st = texts(sorted@);
    let mut out: Vec<(String, u64)> = Vec::new();
    let mut k: usize = 0;
    while k < sorted.len()
        invariant
            k <= sorted@.len(),
            st == texts(sorted@),
            count_views(out@) == group_counts(st.take(k as int)),
        decreases sorted.len() - k,
    {
        assert(st.take(k + 1).drop_last() =~= st.take(k as int));
        assert(st.take(k + 1).last() == Text(sorted@[k as int]));
        proof {
            lemma_group_counts_bound(st.take(k as int));
        }
        let ghost g = count_views(out@);
        let n = out.len();
        if n > 0 && str_eq(out[n - 1].0.as_str(), sorted[k].as_str()) {
            let last = out.pop().unwrap();
            assert(last.1 as nat == g.last().1);
            assert(g.last().1 <= k);
            out.push((last.0, last.1 + 1));
            assert(count_views(out@) =~= g.update(g.len() - 1, (sorted@[k as int]@, g.last().1 + 1)));
        } else {
            out.push((sorted[k].clone(), 1));
            assert(count_views(out@) =~= g.push((sorted@[k as int]@, 1)));
        }
        k = k + 1;
    }
    assert(st.take(sorted@.len() as int) =~= st);
    out
}

/// The views of a list of strings contain `x`.
pub open spec fn has_text(v: Seq<String>, x: Seq<char>) -> bool {
    exists|i: int| 0 <= i < v.len() && v[i]@ == x
}

/// Whether a list of strings holds `x`.
pub fn holds_text(v: &Vec<String>, x: &str) -> (r: bool)
    ensures
        r == has_text(v@, x@),
{
    let mut i: usize = 0;
    while i < v.len()
        invariant
            i <= v@.len(),
            forall|k: int| 0 <= k < i ==> v@[k]@ != x@,
        decreases v.len() - i,
    {
        if str_eq(v[i].as_str(), x) {
            return true;
        }
        i = i + 1;
    }
    false
}

/// `t` is `e` after `n` references from `project` on `today`: the project is recorded once,
/// the date becomes the last reference, and the count grows by `n`; nothing else changes.
pub open spec fn touched(e: Entry, t: Entry, project: Seq<char>, today: Seq<char>, n: nat) -> bool {
    &&& string_seq_views(t.evidence.projects@) == if has_text(e.evidence.projects@, project) {
        string_seq_views(e.evidence.projects@)
    } else {
        string_seq_views(e.evidence.projects@).push(project)
    }
    &&& t.evidence.last_referenced matches Some(d) && d@ == today
    &&& t.evidence.ref_count == e.evidence.ref_count + n
    &&& t.evidence.contributors@ == e.evidence.contributors@
    &&& t.evidence.sources@ == e.evidence.sources@
    &&& same_but_evidence(t, e)
}

/// The position of the first entry with the id, if there is one.
pub open spec fn entry_index(es: Seq<Entry>, id: Seq<char>) -> Option<int>
    decreases es.len(),
{
    if es.len() == 0 {
        None
    } else {
        match entry_index(es.drop_last(), id) {
            Some(j) => Some(j),
            None => if es.last().id@ == id {
                Some(es.len() - 1)
            } else {
                None
            },
        }
    }
}

pub proof fn lemma_entry_index(es: Seq<Entry>, id: Seq<char>)
    ensures
        match entry_index(es, id) {
            Some(j) => 0 <= j < es.len() && es[j].id@ == id && forall|k: int|
                0 <= k < j ==> es[k].id@ != id,
            None => forall|k: int| 0 <= k < es.len() ==> es[k].id@ != id,
        },
    decreases es.len(),
{
    if es.len() > 0 {
        lemma_entry_index(es.drop_last(), id);
        assert(forall|k: int| 0 <= k < es.len() - 1 ==> es.drop_last()[k] == es[k]);
    }
}

/// For each counted id in order whose first entry has a file: the count's position and the
/// entry's.
pub open spec fn touch_targets(counts: Seq<(String, u64)>, es: Seq<Entry>) -> Seq<(int, int)>
    decreases counts.len(),
{
    if counts.len() == 0 {
        seq![]
    } else {
        let t = touch_targets(counts.drop_last(), es);
        match entry_index(es, counts.last().0@) {
            Some(j) => if es[j].path is Some {
                t.push((counts.len() - 1, j))
            } else {
                t
            },
            None => t,
        }
    }
}

proof fn lemma_touch_targets(counts: Seq<(String, u64)>, es: Seq<Entry>)
    ensures
        forall|k: int|
            0 <= k < touch_targets(counts, es).len() ==> {
                let (ci, ej) = #[trigger] touch_targets(counts, es)[k];
                &&& 0 <= ci < counts.len()
                &&& entry_index(es, counts[ci].0@) == Some(ej)
            },
        forall|a: int, b: int|
            0 <= a < b < touch_targets(counts, es).len() ==> (#[trigger] touch_targets(counts, es)[a]).0
                < (#[trigger] touch_targets(counts, es)[b]).0,
    decreases counts.len(),
{
    if counts.len() > 0 {
        let q = counts.drop_last();
        lemma_touch_targets(q, es);
        let p = touch_targets(q, es);
        let t = touch_targets(counts, es);
        assert forall|k: int| 0 <= k < t.len() implies {
            let (ci, ej) = #[trigger] t[k];
            &&& 0 <= ci < counts.len()
            &&& entry_index(es, counts[ci].0@) == Some(ej)
        } by {
            if k < p.len() {
                assert(t[k] == p[k]);
                assert(q[p[k].0] == counts[p[k].0]);
            }
        }
        assert forall|a: int, b: int| 0 <= a < b < t.len() implies (#[trigger] t[a]).0 < (
        #[trigger] t[b]).0 by {
            assert(t[a] == p[a]);
            if b < p.len() {
                assert(t[b] == p[b]);
            }
        }
    }
}

/// The entry that a count of `n` references to `id` updates, the first with the id if it has a
/// file, can take them without its reference count overflowing.
pub open spec fn room_for(es: Seq<Entry>, id: Seq<char>, n: nat) -> bool {
    match entry_index(es, id) {
        Some(j) => es[j].path is Some ==> es[j].evidence.ref_count + n <= u64::MAX,
        None => true,
    }
}

/// The entries to rewrite after a run: for each counted id in order whose first entry has a
/// file, that entry's position and the entry with its evidence bumped by the count.
pub fn touch_updates(counts: &Vec<(String, u64)>, entries: &Vec<Entry>, project: &str, today: &str)
    -> (r: Vec<(usize, Entry)>)
    requires
        forall|i: int|
            0 <= i < counts@.len() ==> #[trigger] room_for(entries@, counts@[i].0@, counts@[i].1 as nat),
    ensures
        r@.len() == touch_targets(counts@, entries@).len(),
        forall|k: int|
            0 <= k < r@.len() ==> {
                let (ci, ej) = #[trigger] touch_targets(counts@, entries@)[k];
                &&& r@[k].0 == ej
                &&& touched(entries@[ej], r@[k].1, project@, today@, counts@[ci].1 as nat)
            },
{
    let mut out: Vec<(usize, Entry)> = Vec::new();
    let mut i: usize = 0;
    while i < counts.len()
        invariant
            i <= counts@.len(),
            forall|a: int|
                0 <= a < counts@.len() ==> #[trigger] room_for(entries@, counts@[a].0@, counts@[a].1 as nat),
            out@.len() == touch_targets(counts@.take(i as int), entries@).len(),
            forall|k: int|
                0 <= k < out@.len() ==> {
                    let (ci, ej) = #[trigger] touch_targets(counts@.take(i as int), entries@)[k];
                    &&& out@[k].0 == ej
                    &&& touched(entries@[ej], out@[k].1, project@, today@, counts@[ci].1 as nat)
                },
        decreases counts.len() - i,
    {
        let ghost prev = touch_targets(counts@.take(i as int), entries@);
        assert(counts@.take(i + 1).drop_last() =~= counts@.take(i as int));
        let ghost id = counts@[i as int].0@;
        proof {
            lemma_entry_index(entries@, id);
        }
        let mut j: usize = 0;
        while j < entries.len() && !str_eq(entries[j].id.as_str(), counts[i].0.as_str())
            invariant
                j <= entries@.len(),
                i < counts@.len(),
                id == counts@[i as int].0@,
                forall|k: int| 0 <= k < j ==> entries@[k].id@ != id,
            decreases entries.len() - j,
        {
            j = j + 1;
        }
        if j < entries.len() && entries[j].path.is_some() {
            assert(entry_index(entries@, id) == Some(j as int));
            assert(room_for(entries@, id, counts@[i as int].1 as nat));
            let e = &entries[j];
            let mut t = copy_entry(e);
            if !holds_text(&e.evidence.projects, project) {
                t.evidence.projects.push(string_of(project));
            }
            t.evidence.last_referenced = Some(string_of(today));
            t.evidence.ref_count = e.evidence.ref_count + counts[i].1;
            assert(string_seq_views(t.evidence.projects@) =~= if has_text(e.evidence.projects@, project@) {
                string_seq_views(e.evidence.projects@)
            } else {
                string_seq_views(e.evidence.projects@).push(project@)
            });
            out.push((j, t));
            assert(touch_targets(counts@.take(i + 1), entries@) == prev.push((i as int, j as int)));
        } else {
            proof {
                if j < entries@.len() {
                    assert(entry_index(entries@, id) == Some(j as int));
                } else {
                    assert(entry_index(entries@, id) is None);
                }
            }
            assert(touch_targets(counts@.take(i + 1), entries@) == prev);
        }
        i = i + 1;
    }
    assert(counts@.take(counts@.len() as int) =~= counts@);
    out
}

/// What a run's references do to the knowledge base: the referenced ids, the count per id,
/// the date recorded as the last reference, and the entries to rewrite with their positions.
#[derive(Debug)]
pub struct TouchPlan {
    pub referenced: Vec<String>,
    pub counts: Vec<(String, u64)>,
    pub date: String,
    pub updates: Vec<(usize, Entry)>,
}

/// Plans the reference bookkeeping of a run: every entry referenced by the run's files (given
/// in file-name order) records `project`, the date `today` and
/// how often it was referenced. Only the first entry with an id, and only one read from a
/// file, is updated.
pub fn touch(files: &Vec<RunFile>, entries: &Vec<Entry>, project: &str, today: &str) -> (r:
    TouchPlan)
    requires
        forall|j: int|
            0 <= j < entries@.len() && entries@[j].path is Some && entry_index(
                entries@,
                entries@[j].id@,
            ) == Some(j) ==> #[trigger] entries@[j].evidence.ref_count + occurrences(
                files_refs(files@),
                entries@[j].id@,
            ) <= u64::MAX,
    ensures
        string_seq_views(r.referenced@) == files_refs(files@),
        count_views(r.counts@) == reference_counts_spec(r.referenced@),
        r.date@ == today@,
        ascending(count_keys(count_views(r.counts@))),
        ascending(update_ids(r.updates@)),
        forall|k: int|
            0 <= k < r.updates@.len() ==> count_keys(count_views(r.counts@)).contains(
                #[trigger] update_ids(r.updates@)[k],
            ),
        r.updates@.len() == touch_targets(r.counts@, entries@).len(),
        forall|k: int|
            0 <= k < r.updates@.len() ==> {
                let (ci, ej) = #[trigger] touch_targets(r.counts@, entries@)[k];
                &&& r.updates@[k].0 == ej
                &&& touched(
                    entries@[ej],
                    r.updates@[k].1,
                    project@,
                    r.date@,
                    r.counts@[ci].1 as nat,
                )
            },
{
    let date = string_of(today);
    let scan = collect_references(files);
    let referenced = scan.ids;
    let counts = reference_counts(&referenced);
    proof {
        law_each_id_counted_by_its_references(referenced@);
        assert forall|i: int| 0 <= i < counts@.len() implies #[trigger] room_for(
            entries@,
            counts@[i].0@,
            counts@[i].1 as nat,
        ) by {
            let rc = reference_counts_spec(referenced@);
            assert(count_views(counts@)[i] == (counts@[i].0@, counts@[i].1 as nat));
            assert(rc[i] == count_views(counts@)[i]);
            let id = counts@[i].0@;
            assert(rc[i].1 == occurrences(string_seq_views(referenced@), rc[i].0));
            assert(counts@[i].1 == occurrences(files_refs(files@), id));
            lemma_entry_index(entries@, id);
            match entry_index(entries@, id) {
                Some(j) => {
                    assert(entries@[j].id@ == id);
                    if entries@[j].path is Some {
                        assert(entries@[j].evidence.ref_count + occurrences(files_refs(files@), id)
                            <= u64::MAX);
                    }
                },
                None => {},
            }
        }
    }
    let updates = touch_updates(&counts, entries, project, date.as_str());
    proof {
        lemma_touch_targets(counts@, entries@);
        let tt = touch_targets(counts@, entries@);
        let keys = count_keys(count_views(counts@));
        assert forall|a: int, b: int| 0 <= a < b < update_ids(updates@).len() implies seq_lt(
            #[trigger] update_ids(updates@)[a],
            #[trigger] update_ids(updates@)[b],
        ) by {
            let (ca, ea) = tt[a];
            let (cb, eb) = tt[b];
            lemma_entry_index(entries@, counts@[ca].0@);
            lemma_entry_index(entries@, counts@[cb].0@);
            assert(update_ids(updates@)[a] == updates@[a].1.id@);
            assert(updates@[a].1.id == entries@[ea].id);
            assert(updates@[b].1.id == entries@[eb].id);
            assert(keys[ca] == counts@[ca].0@);
            assert(keys[cb] == counts@[cb].0@);
        }
        assert forall|k: int| 0 <= k < updates@.len() implies keys.contains(
            #[trigger] update_ids(updates@)[k],
        ) by {
            let (ck, ek) = tt[k];
            lemma_entry_index(entries@, counts@[ck].0@);
            assert(updates@[k].1.id == entries@[ek].id);
            assert(keys[ck] == counts@[ck].0@);
        }
    }
    TouchPlan { referenced, counts, date, updates }
}

/// The ids of the planned updates whose file was written.
pub open spec fn saved_ids(u: Seq<(usize, Entry)>, saved: Seq<bool>) -> Seq<Seq<char>>
    decreases u.len(),
{
    if u.len() == 0 || saved.len() != u.len() {
        seq![]
    } else if saved.last() {
        saved_ids(u.drop_last(), saved.drop_last()).push(u.last().1.id@)
    } else {
        saved_ids(u.drop_last(), saved.drop_last())
    }
}

/// The counted ids that are not among `updated`, in order.
pub open spec fn unknown_ids(c: Seq<(String, u64)>, updated: Seq<Seq<char>>) -> Seq<Seq<char>>
    decreases c.len(),
{
    if c.len() == 0 {
        seq![]
    } else if updated.contains(c.last().0@) {
        unknown_ids(c.drop_last(), updated)
    } else {
        unknown_ids(c.drop_last(), updated).push(c.last().0@)
    }
}

/// The outcome of a touch once its files are written (`saved[k]` tells whether update `k`
/// was): the ids updated, and the counted ids that were not.
pub fn settle_touch(plan: &TouchPlan, saved: &Vec<bool>) -> (r: (Vec<String>, Vec<String>))
    requires
        saved@.len() == plan.updates@.len(),
    ensures
        string_seq_views(r.0@) == saved_ids(plan.updates@, saved@),
        string_seq_views(r.1@) == unknown_ids(plan.counts@, saved_ids(plan.updates@, saved@)),
{
    let mut updated: Vec<String> = Vec::new();
    let mut k: usize = 0;
    while k < plan.updates.len()
        invariant
            k <= plan.updates@.len(),
            saved@.len() == plan.updates@.len(),
            string_seq_views(updated@) == saved_ids(
                plan.updates@.take(k as int),
                saved@.take(k as int),
            ),
        decreases plan.updates.len() - k,
    {
        assert(plan.updates@.take(k + 1).drop_last() =~= plan.updates@.take(k as int));
        assert(saved@.take(k + 1).drop_last() =~= saved@.take(k as int));
        if saved[k] {
            let ghost before = updated@;
            updated.push(plan.updates[k].1.id.clone());
            assert(string_seq_views(updated@) =~= string_seq_views(before).push(
                plan.updates@[k as int].1.id@,
            ));
        }
        k = k + 1;
    }
    assert(plan.updates@.take(k as int) =~= plan.updates@);
    assert(saved@.take(k as int) =~= saved@);
    let ghost up = string_seq_views(updated@);
    let mut unknown: Vec<String> = Vec::new();
    let mut i: usize = 0;
    while i < plan.counts.len()
        invariant
            i <= plan.counts@.len(),
            up == string_seq_views(updated@),
            string_seq_views(unknown@) == unknown_ids(plan.counts@.take(i as int), up),
        decreases plan.counts.len() - i,
    {
        assert(plan.counts@.take(i + 1).drop_last() =~= plan.counts@.take(i as int));
        let id = plan.counts[i].0.as_str();
        let found = holds_text(&updated, id);
        assert(found == up.contains(id@)) by {
            if found {
                let w = choose|x: int| 0 <= x < updated@.len() && updated@[x]@ == id@;
                assert(up[w] == id@);
            }
            if up.contains(id@) {
                let w = choose|x: int| 0 <= x < up.len() && up[x] == id@;
                assert(updated@[w]@ == id@);
            }
        }
        if !found {
            let ghost before = unknown@;
            unknown.push(plan.counts[i].0.clone());
            assert(string_seq_views(unknown@) =~= string_seq_views(before).push(id@));
        }
        i = i + 1;
    }
    assert(plan.counts@.take(i as int) =~= plan.counts@);
    (updated, unknown)
}

/// An id reported unknown was never updated, and every counted id is either updated or
/// reported unknown.
pub proof fn law_unknown_ids_were_not_updated(c: Seq<(String, u64)>, updated: Seq<Seq<char>>)
    ensures
        forall|i: int|
            0 <= i < unknown_ids(c, updated).len() ==> !updated.contains(
                #[trigger] unknown_ids(c, updated)[i],
            ),
        forall|i: int|
            0 <= i < c.len() ==> updated.contains(#[trigger] c[i].0@) || unknown_ids(
                c,
                updated,
            ).contains(c[i].0@),
    decreases c.len(),
{
    if c.len() > 0 {
        law_unknown_ids_were_not_updated(c.drop_last(), updated);
        let p = unknown_ids(c.drop_last(), updated);
        let q = unknown_ids(c, updated);
        assert forall|i: int| 0 <= i < q.len() implies !updated.contains(#[trigger] q[i]) by {
            if i < p.len() {
                assert(q[i] == p[i]);
            }
        }
        assert forall|i: int| 0 <= i < c.len() implies updated.contains(#[trigger] c[i].0@)
            || q.contains(c[i].0@) by {
            if i < c.len() - 1 {
                assert(c.drop_last()[i] == c[i]);
                if p.contains(c[i].0@) {
                    let w = choose|w: int| 0 <= w < p.len() && p[w] == c[i].0@;
                    assert(q[w] == p[w]);
                }
            } else if !updated.contains(c[i].0@) {
                assert(q[q.len() - 1] == c[i].0@);
            }
        }
    }
}

proof fn lemma_saved_ids_order(u: Seq<(usize, Entry)>, sv: Seq<bool>)
    requires
        ascending(update_ids(u)),
        sv.len() == u.len(),
    ensures
        ascending(saved_ids(u, sv)),
        forall|i: int|
            0 <= i < saved_ids(u, sv).len() ==> exists|k: int|
                0 <= k < u.len() && #[trigger] saved_ids(u, sv)[i] == u[k].1.id@,
    decreases u.len(),
{
    if u.len() > 0 {
        let q = u.drop_last();
        assert forall|a: int, b: int| 0 <= a < b < update_ids(q).len() implies seq_lt(
            #[trigger] update_ids(q)[a],
            #[trigger] update_ids(q)[b],
        ) by {
            assert(update_ids(q)[a] == update_ids(u)[a] && update_ids(q)[b] == update_ids(u)[b]);
        }
        lemma_saved_ids_order(q, sv.drop_last());
        let p = saved_ids(q, sv.drop_last());
        let r = saved_ids(u, sv);
        assert forall|i: int| 0 <= i < r.len() implies exists|k: int|
            0 <= k < u.len() && #[trigger] r[i] == u[k].1.id@ by {
            if i < p.len() {
                let k = choose|k: int| 0 <= k < q.len() && p[i] == q[k].1.id@;
                assert(r[i] == p[i]);
                assert(q[k] == u[k]);
            } else {
                assert(r[i] == u[u.len() - 1].1.id@);
            }
        }
        assert forall|a: int, b: int| 0 <= a < b < r.len() implies seq_lt(
            #[trigger] r[a],
            #[trigger] r[b],
        ) by {
            assert(r[a] == p[a]);
            if b < p.len() {
                assert(r[b] == p[b]);
            } else {
                let k = choose|k: int| 0 <= k < q.len() && p[a] == q[k].1.id@;
                assert(q[k] == u[k]);
                assert(update_ids(u)[k] == u[k].1.id@);
                assert(update_ids(u)[u.len() - 1] == u[u.len() - 1].1.id@);
            }
        }
    }
}

proof fn lemma_unknown_ids_order(c: Seq<(String, u64)>, updated: Seq<Seq<char>>)
    requires
        ascending(count_keys(count_views(c))),
    ensures
        ascending(unknown_ids(c, updated)),
        forall|i: int|
            0 <= i < unknown_ids(c, updated).len() ==> exists|k: int|
                0 <= k < c.len() && #[trigger] unknown_ids(c, updated)[i] == c[k].0@,
    decreases c.len(),
{
    if c.len() > 0 {
        let q = c.drop_last();
        assert forall|a: int, b: int| 0 <= a < b < count_keys(count_views(q)).len() implies seq_lt(
            #[trigger] count_keys(count_views(q))[a],
            #[trigger] count_keys(count_views(q))[b],
        ) by {
            assert(count_keys(count_views(q))[a] == count_keys(count_views(c))[a]);
            assert(count_keys(count_views(q))[b] == count_keys(count_views(c))[b]);
        }
        lemma_unknown_ids_order(q, updated);
        let p = unknown_ids(q, updated);
        let r = unknown_ids(c, updated);
        assert forall|i: int| 0 <= i < r.len() implies exists|k: int|
            0 <= k < c.len() && #[trigger] r[i] == c[k].0@ by {
            if i < p.len() {
                let k = choose|k: int| 0 <= k < q.len() && p[i] == q[k].0@;
                assert(r[i] == p[i]);
                assert(q[k] == c[k]);
            } else {
                assert(r[i] == c[c.len() - 1].0@);
            }
        }
        assert forall|a: int, b: int| 0 <= a < b < r.len() implies seq_lt(
            #[trigger] r[a],
            #[trigger] r[b],
        ) by {
            assert(r[a] == p[a]);
            if b < p.len() {
                assert(r[b] == p[b]);
            } else {
                let k = choose|k: int| 0 <= k < q.len() && p[a] == q[k].0@;
                assert(q[k] == c[k]);
                assert(count_keys(count_views(c))[k] == c[k].0@);
                assert(count_keys(count_views(c))[c.len() - 1] == c[c.len() - 1].0@);
            }
        }
    }
}

/// The report of a touch: for a plan as `touch` makes it (counted ids and updated entries in
/// ascending id order, every updated entry's id a counted one), the ids reported updated and
/// the ids reported unknown each come in strictly ascending order, no id is in both, and
/// together they are exactly the counted ids.
pub proof fn law_touch_report(
    counts: Seq<(String, u64)>,
    updates: Seq<(usize, Entry)>,
    saved: Seq<bool>,
)
    requires
        ascending(count_keys(count_views(counts))),
        ascending(update_ids(updates)),
        forall|k: int|
            0 <= k < updates.len() ==> count_keys(count_views(counts)).contains(
                #[trigger] update_ids(updates)[k],
            ),
        saved.len() == updates.len(),
    ensures
        ascending(saved_ids(updates, saved)),
        ascending(unknown_ids(counts, saved_ids(updates, saved))),
        forall|x: Seq<char>|
            !(saved_ids(updates, saved).contains(x) && unknown_ids(
                counts,
                saved_ids(updates, saved),
            ).contains(x)),
        forall|x: Seq<char>|
            #[trigger] count_keys(count_views(counts)).contains(x) <==> (saved_ids(
                updates,
                saved,
            ).contains(x) || unknown_ids(counts, saved_ids(updates, saved)).contains(x)),
{
    let u = saved_ids(updates, saved);
    let n = unknown_ids(counts, u);
    let keys = count_keys(count_views(counts));
    lemma_saved_ids_order(updates, saved);
    lemma_unknown_ids_order(counts, u);
    law_unknown_ids_were_not_updated(counts, u);
    assert forall|x: Seq<char>| !(u.contains(x) && n.contains(x)) by {
        if n.contains(x) {
            let i = choose|i: int| 0 <= i < n.len() && n[i] == x;
            assert(!u.contains(n[i]));
        }
    }
    assert forall|x: Seq<char>| #[trigger] keys.contains(x) <==> (u.contains(x) || n.contains(x)) by {
        if keys.contains(x) {
            let i = choose|i: int| 0 <= i < keys.len() && keys[i] == x;
            assert(keys[i] == counts[i].0@);
            assert(u.contains(counts[i].0@) || n.contains(counts[i].0@));
        }
        if u.contains(x) {
            let i = choose|i: int| 0 <= i < u.len() && u[i] == x;
            let k = choose|k: int| 0 <= k < updates.len() && #[trigger] u[i] == updates[k].1.id@;
            assert(update_ids(updates)[k] == updates[k].1.id@);
            assert(keys.contains(update_ids(updates)[k]));
        }
        if n.contains(x) {
            let i = choose|i: int| 0 <= i < n.len() && n[i] == x;
            let k = choose|k: int| 0 <= k < counts.len() && #[trigger] n[i] == counts[k].0@;
            assert(keys[k] == counts[k].0@);
        }
    }
}

/// The total of a list of counts.
pub open spec fn count_total(c: Seq<(Seq<char>, nat)>) -> nat
    decreases c.len(),
{
    if c.len() == 0 {
        0
    } else {
        count_total(c.drop_last()) + c.last().1
    }
}

proof fn lemma_group_counts_total(s: Seq<Text>)
    ensures
        count_total(group_counts(s)) == s.len(),
    decreases s.len(),
{
    if s.len() > 0 {
        let g = group_counts(s.drop_last());
        lemma_group_counts_total(s.drop_last());
        let x = s.last().0@;
        if g.len() > 0 && g.last().0 == x {
            let h = g.update(g.len() - 1, (x, g.last().1 + 1));
            assert(h.drop_last() =~= g.drop_last());
        } else {
            assert(g.push((x, 1)).drop_last() =~= g);
        }
    }
}

/// Every reference is counted exactly once: the per-id counts add up to the number of
/// references, so references repeated across files sum into one id's count.
pub proof fn law_counts_add_up_to_references(refs: Seq<String>)
    ensures
        count_total(reference_counts_spec(refs)) == refs.len(),
{
    crate::sort::lemma_sorted_perm(texts(refs));
    lemma_group_counts_total(sorted_spec(texts(refs)));
}

} // verus!
