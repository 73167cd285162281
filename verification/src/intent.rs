//! A deterministic fallback for routing a request when no model is in the loop: a short
//! request that names a single-point change takes the `single` path, everything else the
//! `full` one, so a request is never under-processed.
use crate::text::{contains, contains_seq, is_ws, is_ws_char, lowercase_text, to_chars, to_lowercase};
use vstd::prelude::*;

verus! {

/// The path chosen and why.
#[derive(Debug)]
pub struct IntentResult {
    pub path_mode: &'static str,
    pub reason: &'static str,
}

/// Words that mark a single-point change.
pub open spec fn single_hints() -> Seq<Seq<char>> {
    seq![
        "typo"@,
        "rename"@,
        "bump"@,
        "comment"@,
        "log message"@,
        "one line"@,
        "one-line"@,
        "tweak"@,
        "constant"@,
        "config value"@,
        "version"@,
    ]
}

/// The number of words in `s`: maximal runs of non-whitespace characters.
pub open spec fn word_count(s: Seq<char>) -> nat
    decreases s.len(),
{
    if s.len() == 0 {
        0
    } else if !is_ws(s.last()) && (s.len() == 1 || is_ws(s[s.len() - 2])) {
        word_count(s.drop_last()) + 1
    } else {
        word_count(s.drop_last())
    }
}

/// A lowercased request names a single-point change: it has at most twelve words and holds
/// one of the hints.
pub open spec fn is_single_lowered(low: Seq<char>) -> bool {
    word_count(low) <= 12 && exists|i: int| 0 <= i < single_hints().len() && contains_seq(
        low,
        #[trigger] single_hints()[i],
    )
}

/// A request is routed to `single` when, lowercased, it names a single-point change.
pub open spec fn is_single_request(text: Seq<char>) -> bool {
    is_single_lowered(lowercase_text(text))
}

fn words(s: &Vec<char>) -> (r: usize)
    ensures
        r == word_count(s@),
{
    let mut n: usize = 0;
    let mut i: usize = 0;
    while i < s.len()
        invariant
            i <= s@.len(),
            n == word_count(s@.take(i as int)),
            n <= i,
        decreases s.len() - i,
    {
        assert(s@.take(i + 1).drop_last() =~= s@.take(i as int));
        let starts = !is_ws_char(s[i]) && (i == 0 || is_ws_char(s[i - 1]));
        assert(i > 0 ==> s@.take(i + 1)[i - 1] == s@[i - 1]);
        if starts {
            n = n + 1;
        }
        i = i + 1;
    }
    assert(s@.take(s@.len() as int) =~= s@);
    n
}

/// Routes an already lowercased request (see `is_single_lowered`).
pub fn classify_lowered(low: &str) -> (r: IntentResult)
    ensures
        is_single_lowered(low@) ==> r.path_mode@ == "single"@ && r.reason@
            == "short single-point change (keyword + brevity)"@,
        !is_single_lowered(low@) ==> r.path_mode@ == "full"@ && r.reason@
            == "default to full pipeline; the orchestrator refines to lite/single by judgment"@,
{
    let c = to_chars(low);
    let n = words(&c);
    let hints: [&str; 11] = [
        "typo",
        "rename",
        "bump",
        "comment",
        "log message",
        "one line",
        "one-line",
        "tweak",
        "constant",
        "config value",
        "version",
    ];
    let mut hit = false;
    let mut k: usize = 0;
    while k < 11
        invariant
            k <= 11,
            c@ == low@,
            hints@ == seq![
                "typo",
                "rename",
                "bump",
                "comment",
                "log message",
                "one line",
                "one-line",
                "tweak",
                "constant",
                "config value",
                "version",
            ],
            hit == exists|i: int| 0 <= i < k && contains_seq(c@, #[trigger] single_hints()[i]),
        decreases 11 - k,
    {
        let h = to_chars(hints[k]);
        assert(h@ == single_hints()[k as int]);
        if contains(&c, &h) {
            hit = true;
        }
        k = k + 1;
    }
    if n <= 12 && hit {
        IntentResult {
            path_mode: "single",
            reason: "short single-point change (keyword + brevity)",
        }
    } else {
        IntentResult {
            path_mode: "full",
            reason: "default to full pipeline; the orchestrator refines to lite/single by judgment",
        }
    }
}

/// Routes a request (see `is_single_request`).
pub fn classify(text: &str) -> (r: IntentResult)
    ensures
        is_single_request(text@) ==> r.path_mode@ == "single"@ && r.reason@
            == "short single-point change (keyword + brevity)"@,
        !is_single_request(text@) ==> r.path_mode@ == "full"@ && r.reason@
            == "default to full pipeline; the orchestrator refines to lite/single by judgment"@,
{
    let low = to_lowercase(text);
    classify_lowered(low.as_str())
}

/// A lowercased request is a single-point change exactly when it has at most twelve words and
/// holds one of `typo`, `rename`, `bump`, `comment`, `log message`, `one line`, `one-line`,
/// `tweak`, `constant`, `config value` or `version`.
pub proof fn law_single_point_hints(low: Seq<char>)
    ensures
        is_single_lowered(low) <==> (word_count(low) <= 12 && (contains_seq(low, "typo"@)
            || contains_seq(low, "rename"@) || contains_seq(low, "bump"@) || contains_seq(
            low,
            "comment"@,
        ) || contains_seq(low, "log message"@) || contains_seq(low, "one line"@) || contains_seq(
            low,
            "one-line"@,
        ) || contains_seq(low, "tweak"@) || contains_seq(low, "constant"@) || contains_seq(
            low,
            "config value"@,
        ) || contains_seq(low, "version"@))),
{
    let h = single_hints();
    assert(h[0] == "typo"@);
    assert(h[1] == "rename"@);
    assert(h[2] == "bump"@);
    assert(h[3] == "comment"@);
    assert(h[4] == "log message"@);
    assert(h[5] == "one line"@);
    assert(h[6] == "one-line"@);
    assert(h[7] == "tweak"@);
    assert(h[8] == "constant"@);
    assert(h[9] == "config value"@);
    assert(h[10] == "version"@);
    assert(h.len() == 11);
}

} // verus!
