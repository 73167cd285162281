//! The closed vocabularies of knowledge entries and the ranks used to order them.
use crate::text::str_eq;
use vstd::prelude::*;

verus! {

pub open spec fn is_category(s: Seq<char>) -> bool {
    s == "tech"@ || s == "biz"@
}

pub open spec fn is_type(s: Seq<char>) -> bool {
    s == "model"@ || s == "decision"@ || s == "guideline"@ || s == "pitfall"@ || s == "process"@
}

pub open spec fn is_polarity(s: Seq<char>) -> bool {
    s == "recommend"@ || s == "avoid"@
}

pub open spec fn is_maturity(s: Seq<char>) -> bool {
    s == "draft"@ || s == "verified"@ || s == "proven"@
}

pub open spec fn is_knowledge_class(s: Seq<char>) -> bool {
    s == "point"@ || s == "causal"@ || s == "spatiotemporal"@
}

pub open spec fn is_layer(s: Seq<char>) -> bool {
    s == "L0-P"@ || s == "L0-T"@ || s == "L1"@ || s == "L2"@ || s == "L3"@
}

pub fn category_known(s: &str) -> (r: bool)
    ensures
        r == is_category(s@),
{
    str_eq(s, "tech") || str_eq(s, "biz")
}

pub fn type_known(s: &str) -> (r: bool)
    ensures
        r == is_type(s@),
{
    str_eq(s, "model") || str_eq(s, "decision") || str_eq(s, "guideline") || str_eq(s, "pitfall")
        || str_eq(s, "process")
}

pub fn polarity_known(s: &str) -> (r: bool)
    ensures
        r == is_polarity(s@),
{
    str_eq(s, "recommend") || str_eq(s, "avoid")
}

pub fn maturity_known(s: &str) -> (r: bool)
    ensures
        r == is_maturity(s@),
{
    str_eq(s, "draft") || str_eq(s, "verified") || str_eq(s, "proven")
}

pub fn class_known(s: &str) -> (r: bool)
    ensures
        r == is_knowledge_class(s@),
{
    str_eq(s, "point") || str_eq(s, "causal") || str_eq(s, "spatiotemporal")
}

pub fn layer_known(s: &str) -> (r: bool)
    ensures
        r == is_layer(s@),
{
    str_eq(s, "L0-P") || str_eq(s, "L0-T") || str_eq(s, "L1") || str_eq(s, "L2") || str_eq(s, "L3")
}

/// proven > verified > anything else.
pub open spec fn maturity_rank_spec(m: Seq<char>) -> i32 {
    if m == "proven"@ {
        2
    } else if m == "verified"@ {
        1
    } else {
        0
    }
}

/// spatiotemporal > causal > anything else.
pub open spec fn class_rank_spec(c: Seq<char>) -> i32 {
    if c == "spatiotemporal"@ {
        2
    } else if c == "causal"@ {
        1
    } else {
        0
    }
}

pub fn maturity_rank(m: &str) -> (r: i32)
    ensures
        r == maturity_rank_spec(m@),
{
    if str_eq(m, "proven") {
        2
    } else if str_eq(m, "verified") {
        1
    } else {
        0
    }
}

pub fn class_rank(c: &str) -> (r: i32)
    ensures
        r == class_rank_spec(c@),
{
    if str_eq(c, "spatiotemporal") {
        2
    } else if str_eq(c, "causal") {
        1
    } else {
        0
    }
}

} // verus!
