//! Frontmatter schema validation: invalid entries are rejected, not stored.
use crate::errors::{usage, CairnError};
use crate::knowledge::model::Entry;
use crate::knowledge::vocab::{
    category_known, class_known, is_category, is_knowledge_class, is_layer, is_maturity,
    is_polarity, is_type, layer_known, maturity_known, polarity_known, type_known,
};
use crate::text::{
    concat, concat3, debug_str, debug_text, join_seq, join_strings, starts_with, str_eq,
    string_of, string_seq_views, to_chars,
};
use vstd::prelude::*;

verus! {

/// The text of an optional string, empty when absent.
pub open spec fn or_empty(o: Option<String>) -> Seq<char> {
    match o {
        Some(s) => s@,
        None => Seq::empty(),
    }
}

/// Appends `m` to `acc` when `cond` holds.
pub open spec fn push_if(acc: Seq<Seq<char>>, cond: bool, m: Seq<char>) -> Seq<Seq<char>> {
    if cond {
        acc.push(m)
    } else {
        acc
    }
}

/// The missing-field and unknown-value violations of an entry.
pub open spec fn basic_errors(e: Entry) -> Seq<Seq<char>> {
    let s1 = push_if(seq![], e.id@.len() == 0, "missing id"@);
    let s2 = push_if(s1, e.title@.len() == 0, "missing title"@);
    let s3 = push_if(
        s2,
        !is_category(e.category@),
        "category must be one of [\"tech\", \"biz\"], got "@ + debug_text(e.category@),
    );
    let s4 = push_if(
        s3,
        !is_type(e.kind@),
        "type must be one of [\"model\", \"decision\", \"guideline\", \"pitfall\", \"process\"], got "@
            + debug_text(e.kind@),
    );
    let s5 = push_if(
        s4,
        !is_maturity(e.maturity@),
        "maturity must be one of [\"draft\", \"verified\", \"proven\"], got "@ + debug_text(
            e.maturity@,
        ),
    );
    let s6 = push_if(
        s5,
        !is_knowledge_class(e.knowledge_class@),
        "knowledge_class must be one of [\"point\", \"causal\", \"spatiotemporal\"], got "@
            + debug_text(e.knowledge_class@),
    );
    push_if(
        s6,
        !is_layer(e.layer@),
        "layer must be one of [\"L0-P\", \"L0-T\", \"L1\", \"L2\", \"L3\"], got "@ + debug_text(
            e.layer@,
        ),
    )
}

/// The cross-field violations: the domain rule of the category and the polarity rule of the
/// type.
pub open spec fn cross_errors(e: Entry, acc: Seq<Seq<char>>) -> Seq<Seq<char>> {
    let s8 = push_if(
        acc,
        e.category@ == "biz"@ && or_empty(e.domain).len() == 0,
        "biz knowledge requires a domain"@,
    );
    let s9 = push_if(
        s8,
        e.category@ == "tech"@ && or_empty(e.domain).len() != 0,
        "tech knowledge must not set a domain"@,
    );
    if e.kind@ == "guideline"@ {
        push_if(
            s9,
            !is_polarity(or_empty(e.guideline_polarity)),
            "guideline requires guideline_polarity in [\"recommend\", \"avoid\"]"@,
        )
    } else {
        push_if(
            s9,
            e.guideline_polarity is Some,
            "guideline_polarity is only valid for type=guideline"@,
        )
    }
}

/// The id-prefix violations (L3 project-local entries are exempt).
pub open spec fn prefix_errors(e: Entry, acc: Seq<Seq<char>>) -> Seq<Seq<char>> {
    let prefixed = e.id@.len() != 0 && e.layer@ != "L3"@;
    let s11 = push_if(
        acc,
        prefixed && e.category@ == "tech"@ && !"TK-"@.is_prefix_of(e.id@),
        "tech entry id should start with 'TK-'"@,
    );
    push_if(
        s11,
        prefixed && e.category@ == "biz"@ && !"BK-"@.is_prefix_of(e.id@),
        "biz entry id should start with 'BK-'"@,
    )
}

/// The schema violations of an entry, in the order they are checked.
pub open spec fn entry_errors(e: Entry) -> Seq<Seq<char>> {
    prefix_errors(e, cross_errors(e, basic_errors(e)))
}

fn push_when(v: &mut Vec<String>, cond: bool, m: String)
    ensures
        string_seq_views(final(v)@) == push_if(string_seq_views(old(v)@), cond, m@),
{
    if cond {
        let ghost before = v@;
        v.push(m);
        assert(string_seq_views(v@) =~= string_seq_views(before).push(m@));
    }
}

fn opt_is_empty(o: &Option<String>) -> (r: bool)
    ensures
        r == (or_empty(*o).len() == 0),
{
    match o {
        Some(s) => s.as_str().unicode_len() == 0,
        None => true,
    }
}

/// The schema violations of an entry, one message each.
pub fn iter_errors(entry: &Entry) -> (r: Vec<String>)
    ensures
        string_seq_views(r@) == entry_errors(*entry),
{
    let mut e: Vec<String> = Vec::new();
    assert(string_seq_views(e@) =~= Seq::<Seq<char>>::empty());
    push_when(&mut e, entry.id.as_str().unicode_len() == 0, string_of("missing id"));
    push_when(&mut e, entry.title.as_str().unicode_len() == 0, string_of("missing title"));
    let bad = !category_known(entry.category.as_str());
    let m = if bad {
        let d = debug_str(entry.category.as_str());
        concat("category must be one of [\"tech\", \"biz\"], got ", d.as_str())
    } else {
        String::new()
    };
    push_when(&mut e, bad, m);
    let bad = !type_known(entry.kind.as_str());
    let m = if bad {
        let d = debug_str(entry.kind.as_str());
        concat(
            "type must be one of [\"model\", \"decision\", \"guideline\", \"pitfall\", \"process\"], got ",
            d.as_str(),
        )
    } else {
        String::new()
    };
    push_when(&mut e, bad, m);
    let bad = !maturity_known(entry.maturity.as_str());
    let m = if bad {
        let d = debug_str(entry.maturity.as_str());
        concat("maturity must be one of [\"draft\", \"verified\", \"proven\"], got ", d.as_str())
    } else {
        String::new()
    };
    push_when(&mut e, bad, m);
    let bad = !class_known(entry.knowledge_class.as_str());
    let m = if bad {
        let d = debug_str(entry.knowledge_class.as_str());
        concat(
            "knowledge_class must be one of [\"point\", \"causal\", \"spatiotemporal\"], got ",
            d.as_str(),
        )
    } else {
        String::new()
    };
    push_when(&mut e, bad, m);
    let bad = !layer_known(entry.layer.as_str());
    let m = if bad {
        let d = debug_str(entry.layer.as_str());
        concat("layer must be one of [\"L0-P\", \"L0-T\", \"L1\", \"L2\", \"L3\"], got ", d.as_str())
    } else {
        String::new()
    };
    push_when(&mut e, bad, m);
    assert(string_seq_views(e@) == basic_errors(*entry));
    let ghost base = string_seq_views(e@);
    let is_biz = str_eq(entry.category.as_str(), "biz");
    let is_tech = str_eq(entry.category.as_str(), "tech");
    let no_domain = opt_is_empty(&entry.domain);
    push_when(&mut e, is_biz && no_domain, string_of("biz knowledge requires a domain"));
    push_when(&mut e, is_tech && !no_domain, string_of("tech knowledge must not set a domain"));
    assert(string_seq_views(e@) == push_if(push_if(base, entry.category@ == "biz"@ && or_empty(entry.domain).len() == 0,
        "biz knowledge requires a domain"@), entry.category@ == "tech"@ && or_empty(entry.domain).len() != 0,
        "tech knowledge must not set a domain"@));
    let ghost s9 = string_seq_views(e@);
    if str_eq(entry.kind.as_str(), "guideline") {
        let known = match &entry.guideline_polarity {
            Some(p) => {
                let k = polarity_known(p.as_str());
                assert(k == is_polarity(or_empty(entry.guideline_polarity)));
                k
            },
            None => {
                proof {
                    reveal_strlit("recommend");
                    reveal_strlit("avoid");
                    assert(or_empty(entry.guideline_polarity) =~= Seq::<char>::empty());
                    assert(!is_polarity(Seq::<char>::empty()));
                }
                false
            },
        };
        push_when(
            &mut e,
            !known,
            string_of("guideline requires guideline_polarity in [\"recommend\", \"avoid\"]"),
        );
        assert(known == is_polarity(or_empty(entry.guideline_polarity)));
        assert(string_seq_views(e@) == push_if(s9, !is_polarity(or_empty(entry.guideline_polarity)),
            "guideline requires guideline_polarity in [\"recommend\", \"avoid\"]"@));
    } else {
        push_when(
            &mut e,
            entry.guideline_polarity.is_some(),
            string_of("guideline_polarity is only valid for type=guideline"),
        );
    }
    assert(string_seq_views(e@) == cross_errors(*entry, base));
    let ghost mid = string_seq_views(e@);
    let prefixed = entry.id.as_str().unicode_len() != 0 && !str_eq(entry.layer.as_str(), "L3");
    let id = to_chars(entry.id.as_str());
    let tk = to_chars("TK-");
    let bk = to_chars("BK-");
    push_when(
        &mut e,
        prefixed && is_tech && !starts_with(&id, &tk),
        string_of("tech entry id should start with 'TK-'"),
    );
    push_when(
        &mut e,
        prefixed && is_biz && !starts_with(&id, &bk),
        string_of("biz entry id should start with 'BK-'"),
    );
    e
}

/// The message of a rejected entry: its id (or `<no id>`) and its violations joined by `; `.
pub open spec fn invalid_message(e: Entry) -> Seq<char> {
    (if e.id@.len() == 0 {
        "<no id>"@
    } else {
        e.id@
    }) + ": "@ + join_seq(entry_errors(e), "; "@)
}

/// Accepts an entry with no schema violation; otherwise a usage error listing them.
pub fn validate(entry: &Entry) -> (r: Result<(), CairnError>)
    ensures
        entry_errors(*entry).len() == 0 ==> r is Ok,
        entry_errors(*entry).len() != 0 ==> (r matches Err(CairnError::Usage(m)) && m@
            == invalid_message(*entry)),
{
    let errs = iter_errors(entry);
    if errs.len() == 0 {
        Ok(())
    } else {
        let id = if entry.id.as_str().unicode_len() == 0 {
            "<no id>"
        } else {
            entry.id.as_str()
        };
        let joined = join_strings(&errs, "; ");
        Err(usage(concat3(id, ": ", joined.as_str())))
    }
}

/// An entry passes the schema exactly when every enumerated field holds a known value, it has
/// an id and a title, the domain rule of its category holds, the polarity rule of its type
/// holds, and (outside L3) its id carries its category's prefix.
pub proof fn law_valid_entry(e: Entry)
    ensures
        entry_errors(e).len() == 0 <==> {
            &&& e.id@.len() != 0
            &&& e.title@.len() != 0
            &&& is_category(e.category@)
            &&& is_type(e.kind@)
            &&& is_maturity(e.maturity@)
            &&& is_knowledge_class(e.knowledge_class@)
            &&& is_layer(e.layer@)
            &&& (e.category@ == "biz"@ ==> or_empty(e.domain).len() != 0)
            &&& (e.category@ == "tech"@ ==> or_empty(e.domain).len() == 0)
            &&& (e.kind@ == "guideline"@ ==> is_polarity(or_empty(e.guideline_polarity)))
            &&& (e.kind@ != "guideline"@ ==> e.guideline_polarity is None)
            &&& (e.layer@ != "L3"@ && e.category@ == "tech"@ ==> "TK-"@.is_prefix_of(e.id@))
            &&& (e.layer@ != "L3"@ && e.category@ == "biz"@ ==> "BK-"@.is_prefix_of(e.id@))
        },
{
}

} // verus!
