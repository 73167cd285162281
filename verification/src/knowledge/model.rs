//! Knowledge entry model and the Markdown-with-frontmatter framing of an entry file.
//!
//! An entry file is `---\n<YAML frontmatter>\n---\n<body>`. Decoding and encoding the YAML
//! itself is left to the caller; this module frames and checks the text around it.
use crate::errors::{usage, CairnError};
use crate::text::{
    append, concat, contains_seq, find, first_occurrence, from_chars, lemma_trim_char_wrapped,
    occurs_at, slice_chars, starts_with, string_of, to_chars, trim_char, trim_char_chars,
};
use vstd::prelude::*;

verus! {

/// Who used an entry, where it came from, and how often it was referenced.
#[derive(Debug, Clone)]
pub struct Evidence {
    pub contributors: Vec<String>,
    pub sources: Vec<String>,
    pub projects: Vec<String>,
    pub last_referenced: Option<String>,
    pub ref_count: u64,
}

impl Evidence {
    /// No evidence yet.
    pub fn empty() -> (r: Evidence)
        ensures
            r.contributors@.len() == 0,
            r.sources@.len() == 0,
            r.projects@.len() == 0,
            r.last_referenced is None,
            r.ref_count == 0,
    {
        Evidence {
            contributors: Vec::new(),
            sources: Vec::new(),
            projects: Vec::new(),
            last_referenced: None,
            ref_count: 0,
        }
    }
}

/// One item of an entry's history.
#[derive(Debug, Clone)]
pub enum HistoryItem {
    /// A record this library appends: the date, the kind of update, and who made it.
    Update { date: String, update_type: String, by: String },
    /// An item as it was read from the file, kept as its YAML text; `mapping` tells whether
    /// it is a YAML mapping.
    Kept { yaml: String, mapping: bool },
}

/// The knowledge class an entry has when its frontmatter gives none.
pub fn default_point() -> (r: String)
    ensures
        r@ == "point"@,
{
    string_of("point")
}

/// A knowledge entry.
#[derive(Debug, Clone)]
pub struct Entry {
    pub id: String,
    pub title: String,
    pub category: String,
    pub domain: Option<String>,
    pub kind: String,
    pub guideline_polarity: Option<String>,
    pub maturity: String,
    pub knowledge_class: String,
    pub layer: String,
    pub tags: Vec<String>,
    pub applicable_phases: Vec<String>,
    pub evidence: Evidence,
    pub history: Vec<HistoryItem>,
    pub body: String,
    pub path: Option<String>,
}

/// An item that is not a YAML mapping.
pub open spec fn not_mapping(h: HistoryItem) -> bool {
    h matches HistoryItem::Kept { mapping, .. } && !mapping
}

/// How an entry file splits into frontmatter and body, or the error message.
///
/// The file must start with `---`; the frontmatter runs up to the first `\n---` after it;
/// the body starts after the end of that closing line and loses its leading and trailing
/// newlines.
pub open spec fn split_spec(t: Seq<char>) -> Result<(Seq<char>, Seq<char>), Seq<char>> {
    if !"---"@.is_prefix_of(t) {
        Err("entry missing leading '---' frontmatter block"@)
    } else {
        let rest = t.skip(3);
        if !contains_seq(rest, "\n---"@) {
            Err("entry frontmatter is not terminated by '---'"@)
        } else {
            let end = choose|i: int| first_occurrence(rest, "\n---"@, i);
            let after = rest.skip(end + 4);
            let body = if contains_seq(after, "\n"@) {
                let nl = choose|i: int| first_occurrence(after, "\n"@, i);
                after.skip(nl + 1)
            } else {
                Seq::empty()
            };
            Ok((rest.take(end), trim_char(body, '\n')))
        }
    }
}

pub proof fn lemma_first_occurrence_unique(s: Seq<char>, p: Seq<char>, i: int, j: int)
    requires
        first_occurrence(s, p, i),
        first_occurrence(s, p, j),
    ensures
        i == j,
{
}

/// Splits `"---\n<frontmatter>\n---\n<body>"` into frontmatter and body.
pub fn split_frontmatter(text: &str) -> (r: Result<(String, String), CairnError>)
    ensures
        match split_spec(text@) {
            Ok((fm, body)) => r matches Ok((f, b)) && f@ == fm && b@ == body,
            Err(m) => r matches Err(CairnError::Usage(e)) && e@ == m,
        },
{
    let t = to_chars(text);
    let dashes = to_chars("---");
    if !starts_with(&t, &dashes) {
        return Err(usage(string_of("entry missing leading '---' frontmatter block")));
    }
    proof {
        reveal_strlit("---");
    }
    let rest = slice_chars(&t, 3, t.len());
    assert(rest@ =~= text@.skip(3));
    let close = to_chars("\n---");
    let end = match find(&rest, &close) {
        Some(i) => i,
        None => {
            return Err(usage(string_of("entry frontmatter is not terminated by '---'")));
        },
    };
    proof {
        reveal_strlit("\n---");
        let c = choose|i: int| first_occurrence(rest@, "\n---"@, i);
        lemma_first_occurrence_unique(rest@, "\n---"@, c, end as int);
    }
    let fm = slice_chars(&rest, 0, end);
    let after = slice_chars(&rest, end + 4, rest.len());
    let nlv = to_chars("\n");
    let body = match find(&after, &nlv) {
        Some(nl) => {
            proof {
                reveal_strlit("\n");
                let c = choose|i: int| first_occurrence(after@, "\n"@, i);
                lemma_first_occurrence_unique(after@, "\n"@, c, nl as int);
            }
            slice_chars(&after, nl + 1, after.len())
        },
        None => Vec::new(),
    };
    let trimmed = trim_char_chars(&body, '\n');
    assert(fm@ =~= rest@.take(end as int));
    assert(after@ =~= rest@.skip(end + 4));
    proof {
        if contains_seq(after@, "\n"@) {
            let nl = choose|i: int| first_occurrence(after@, "\n"@, i);
            assert(body@ =~= after@.skip(nl + 1));
        } else {
            assert(body@ =~= Seq::<char>::empty());
        }
    }
    Ok((from_chars(&fm), from_chars(&trimmed)))
}

/// Reads an entry from its file text.
///
/// `decoded` is what decoding the YAML frontmatter of `text` gave: the entry, or the decoder's
/// message. Framing errors come first, then a decoding error, then a history item that is not
/// a mapping; an empty `knowledge_class` becomes `point`; the body and path are set.
pub fn parse_entry(text: &str, path: Option<String>, decoded: Result<Entry, String>) -> (r:
    Result<Entry, CairnError>)
    ensures
        match split_spec(text@) {
            Err(m) => r matches Err(CairnError::Usage(e)) && e@ == m,
            Ok((_, body)) => match decoded {
                Err(d) => r matches Err(CairnError::Usage(e)) && e@
                    == "entry frontmatter is not valid YAML: "@ + d@,
                Ok(d) => if exists|i: int| 0 <= i < d.history@.len() && not_mapping(d.history@[i]) {
                    r matches Err(CairnError::Usage(e)) && e@
                        == "each history item must be a mapping"@
                } else {
                    r matches Ok(x) && {
                        &&& x.body@ == body
                        &&& x.path == path
                        &&& x.knowledge_class@ == if d.knowledge_class@.len() == 0 {
                            "point"@
                        } else {
                            d.knowledge_class@
                        }
                        &&& x.id == d.id
                        &&& x.title == d.title
                        &&& x.category == d.category
                        &&& x.domain == d.domain
                        &&& x.kind == d.kind
                        &&& x.guideline_polarity == d.guideline_polarity
                        &&& x.maturity == d.maturity
                        &&& x.layer == d.layer
                        &&& x.tags == d.tags
                        &&& x.applicable_phases == d.applicable_phases
                        &&& x.evidence == d.evidence
                        &&& x.history == d.history
                    }
                },
            },
        },
{
    let (_fm, body) = split_frontmatter(text)?;
    let ghost dh = decoded->Ok_0.history;
    let mut entry = match decoded {
        Ok(e) => e,
        Err(d) => {
            return Err(usage(concat("entry frontmatter is not valid YAML: ", d.as_str())));
        },
    };
    let mut i: usize = 0;
    while i < entry.history.len()
        invariant
            i <= entry.history@.len(),
            entry.history == dh,
            split_spec(text@) is Ok,
            decoded is Ok,
            dh == decoded->Ok_0.history,
            forall|j: int| 0 <= j < i ==> !not_mapping(entry.history@[j]),
        decreases entry.history.len() - i,
    {
        if let HistoryItem::Kept { mapping, .. } = &entry.history[i] {
            if !*mapping {
                assert(not_mapping(entry.history@[i as int]));
                return Err(usage(string_of("each history item must be a mapping")));
            }
        }
        i = i + 1;
    }
    if entry.knowledge_class.as_str().unicode_len() == 0 {
        entry.knowledge_class = string_of("point");
    }
    entry.body = body;
    entry.path = path;
    Ok(entry)
}

/// An entry file's text: the frontmatter between `---` lines, a blank line, and the body
/// without leading and trailing newlines, ending in a newline.
pub open spec fn entry_text(frontmatter: Seq<char>, body: Seq<char>) -> Seq<char> {
    "---\n"@ + frontmatter + "---\n\n"@ + trim_char(body, '\n') + "\n"@
}

/// Frames an entry for its file: `frontmatter` is the YAML encoding of the entry's fields
/// (ending in a newline).
pub fn serialize_entry(entry: &Entry, frontmatter: &str) -> (r: String)
    ensures
        r@ == entry_text(frontmatter@, entry.body@),
{
    let b = to_chars(entry.body.as_str());
    let tb = trim_char_chars(&b, '\n');
    let tbs = from_chars(&tb);
    let mut out = concat("---\n", frontmatter);
    append(&mut out, "---\n\n");
    append(&mut out, tbs.as_str());
    append(&mut out, "\n");
    out
}

/// An entry file reads back as it was written: for a frontmatter that ends in a newline and has
/// no line starting with `---`, the text `serialize_entry` writes splits into that frontmatter
/// (behind the opening line's newline, without its final newline) and the body without its
/// leading and trailing newlines, so a body without them reads back unchanged.
pub proof fn law_entry_text_splits_back(fm: Seq<char>, body: Seq<char>)
    requires
        fm.len() > 0,
        fm.last() == '\n',
        !contains_seq(seq!['\n'] + fm, "\n---"@),
    ensures
        split_spec(entry_text(fm, body)) == Ok::<(Seq<char>, Seq<char>), Seq<char>>(
            (seq!['\n'] + fm.drop_last(), trim_char(body, '\n')),
        ),
{
    reveal_strlit("---");
    reveal_strlit("---\n");
    reveal_strlit("---\n\n");
    reveal_strlit("\n---");
    reveal_strlit("\n");
    let tb = trim_char(body, '\n');
    let t = entry_text(fm, body);
    let p = "\n---"@;
    let l = fm.len() as int;
    assert(t =~= "---\n"@ + fm + "---\n\n"@ + tb + "\n"@);
    assert("---"@.is_prefix_of(t));
    let rest = t.skip(3);
    let head = seq!['\n'] + fm;
    assert(rest =~= head + "---\n\n"@ + tb + "\n"@);
    assert(rest.subrange(l, l + 4) =~= p);
    assert(occurs_at(rest, p, l));
    assert forall|j: int| 0 <= j < l implies !occurs_at(rest, p, j) by {
        if occurs_at(rest, p, j) {
            if j + 4 <= l + 1 {
                assert(head.subrange(j, j + 4) =~= rest.subrange(j, j + 4));
                assert(occurs_at(head, p, j));
            } else {
                assert(rest[l] == '\n');
                assert(rest.subrange(j, j + 4)[l - j] == rest[l]);
                assert(p[l - j] == '-');
            }
        }
    }
    assert(first_occurrence(rest, p, l));
    assert(contains_seq(rest, p));
    let end = choose|i: int| first_occurrence(rest, p, i);
    lemma_first_occurrence_unique(rest, p, end, l);
    assert(rest.take(l) =~= seq!['\n'] + fm.drop_last());
    let after = rest.skip(l + 4);
    assert(after =~= seq!['\n'] + (seq!['\n'] + tb + seq!['\n']));
    assert("\n"@ =~= seq!['\n']);
    assert(after.subrange(0, 1) =~= "\n"@);
    assert(occurs_at(after, "\n"@, 0));
    assert(first_occurrence(after, "\n"@, 0));
    assert(contains_seq(after, "\n"@));
    let nl = choose|i: int| first_occurrence(after, "\n"@, i);
    lemma_first_occurrence_unique(after, "\n"@, nl, 0);
    assert(after.skip(1) =~= seq!['\n'] + tb + seq!['\n']);
    lemma_trim_char_wrapped(tb, '\n');
    lemma_trim_char_wrapped(body, '\n');
}

/// A copy of a list of strings.
pub fn copy_strings(v: &Vec<String>) -> (r: Vec<String>)
    ensures
        r@ == v@,
{
    let mut out: Vec<String> = Vec::new();
    let mut i: usize = 0;
    while i < v.len()
        invariant
            i <= v@.len(),
            out@ == v@.take(i as int),
        decreases v.len() - i,
    {
        out.push(v[i].clone());
        assert(out@ =~= v@.take(i + 1));
        i = i + 1;
    }
    assert(v@.take(v@.len() as int) =~= v@);
    out
}

/// A copy of an optional string.
pub fn copy_opt(o: &Option<String>) -> (r: Option<String>)
    ensures
        r == *o,
{
    match o {
        Some(s) => Some(s.clone()),
        None => None,
    }
}

/// A copy of an entry's history.
pub fn copy_history(v: &Vec<HistoryItem>) -> (r: Vec<HistoryItem>)
    ensures
        r@ == v@,
{
    let mut out: Vec<HistoryItem> = Vec::new();
    let mut i: usize = 0;
    while i < v.len()
        invariant
            i <= v@.len(),
            out@ == v@.take(i as int),
        decreases v.len() - i,
    {
        let item = match &v[i] {
            HistoryItem::Update { date, update_type, by } => HistoryItem::Update {
                date: date.clone(),
                update_type: update_type.clone(),
                by: by.clone(),
            },
            HistoryItem::Kept { yaml, mapping } => HistoryItem::Kept {
                yaml: yaml.clone(),
                mapping: *mapping,
            },
        };
        out.push(item);
        assert(out@ =~= v@.take(i + 1));
        i = i + 1;
    }
    assert(v@.take(v@.len() as int) =~= v@);
    out
}

/// Two evidence records hold the same values.
pub open spec fn same_evidence(a: Evidence, b: Evidence) -> bool {
    &&& a.contributors@ == b.contributors@
    &&& a.sources@ == b.sources@
    &&& a.projects@ == b.projects@
    &&& a.last_referenced == b.last_referenced
    &&& a.ref_count == b.ref_count
}

/// Two entries agree on everything but their evidence.
pub open spec fn same_but_evidence(a: Entry, b: Entry) -> bool {
    &&& a.id == b.id
    &&& a.title == b.title
    &&& a.category == b.category
    &&& a.domain == b.domain
    &&& a.kind == b.kind
    &&& a.guideline_polarity == b.guideline_polarity
    &&& a.maturity == b.maturity
    &&& a.knowledge_class == b.knowledge_class
    &&& a.layer == b.layer
    &&& a.tags@ == b.tags@
    &&& a.applicable_phases@ == b.applicable_phases@
    &&& a.history@ == b.history@
    &&& a.body == b.body
    &&& a.path == b.path
}

/// Two entries hold the same values.
pub open spec fn same_entry(a: Entry, b: Entry) -> bool {
    same_but_evidence(a, b) && same_evidence(a.evidence, b.evidence)
}

/// A copy of an entry.
pub fn copy_entry(e: &Entry) -> (r: Entry)
    ensures
        same_entry(r, *e),
{
    Entry {
        id: e.id.clone(),
        title: e.title.clone(),
        category: e.category.clone(),
        domain: copy_opt(&e.domain),
        kind: e.kind.clone(),
        guideline_polarity: copy_opt(&e.guideline_polarity),
        maturity: e.maturity.clone(),
        knowledge_class: e.knowledge_class.clone(),
        layer: e.layer.clone(),
        tags: copy_strings(&e.tags),
        applicable_phases: copy_strings(&e.applicable_phases),
        evidence: Evidence {
            contributors: copy_strings(&e.evidence.contributors),
            sources: copy_strings(&e.evidence.sources),
            projects: copy_strings(&e.evidence.projects),
            last_referenced: copy_opt(&e.evidence.last_referenced),
            ref_count: e.evidence.ref_count,
        },
        history: copy_history(&e.history),
        body: e.body.clone(),
        path: copy_opt(&e.path),
    }
}

/// Two entries agree on everything but their maturity and history.
pub open spec fn same_but_standing(a: Entry, b: Entry) -> bool {
    &&& a.id == b.id
    &&& a.title == b.title
    &&& a.category == b.category
    &&& a.domain == b.domain
    &&& a.kind == b.kind
    &&& a.guideline_polarity == b.guideline_polarity
    &&& a.knowledge_class == b.knowledge_class
    &&& a.layer == b.layer
    &&& a.tags@ == b.tags@
    &&& a.applicable_phases@ == b.applicable_phases@
    &&& same_evidence(a.evidence, b.evidence)
    &&& a.body == b.body
    &&& a.path == b.path
}

} // verus!
