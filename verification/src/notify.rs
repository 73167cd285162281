//! The text of a notification. Sending it (a webhook, or a local file when none is set) is
//! the caller's part.
use crate::text::{append, concat, string_of};
use vstd::prelude::*;

verus! {

/// A notification's text: `[cairnkit:<project>] <event>`, then ` — <detail>` when there is
/// a detail.
pub open spec fn message_text(event: Seq<char>, project: Seq<char>, detail: Seq<char>) -> Seq<char> {
    let head = "[cairnkit:"@ + project + "] "@ + event;
    if detail.len() == 0 {
        head
    } else {
        head + " — "@ + detail
    }
}

/// Builds a notification's text (see `message_text`).
pub fn build_message(event: &str, project: &str, detail: &str) -> (r: String)
    ensures
        r@ == message_text(event@, project@, detail@),
{
    let mut s = concat("[cairnkit:", project);
    append(&mut s, "] ");
    append(&mut s, event);
    if detail.unicode_len() > 0 {
        append(&mut s, " — ");
        append(&mut s, detail);
    }
    s
}

/// Where a notification that is not sent is written, relative to the project root.
pub const LOCAL_FILE: &'static str = ".cairnkit/notifications.log";

/// Why a notification was written to the local file instead of being sent.
#[derive(Debug)]
pub enum Fallback {
    /// No webhook is configured.
    NoWebhook,
    /// The webhook call failed, with its error.
    SendFailed(String),
}

/// The reason recorded with a notification kept locally.
pub open spec fn fallback_text(f: Fallback) -> Seq<char> {
    match f {
        Fallback::NoWebhook => "no webhook configured"@,
        Fallback::SendFailed(e) => "send failed: "@ + e@,
    }
}

/// The reason recorded with a notification kept locally (see `fallback_text`).
pub fn fallback_reason(f: &Fallback) -> (r: String)
    ensures
        r@ == fallback_text(*f),
{
    match f {
        Fallback::NoWebhook => string_of("no webhook configured"),
        Fallback::SendFailed(e) => concat("send failed: ", e.as_str()),
    }
}

} // verus!
