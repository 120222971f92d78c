use vstd::prelude::*;
use crate::spam_detection::{json_verdict_of, parse_json_verdict};

verus! {

/// Reads the roadmap-detection reply: whether a roadmap was asked for, or
/// nothing when the reply is missing or unreadable (an upstream error).
pub fn roadmap_requested(reply: Option<String>) -> (r: Option<bool>)
    ensures
        reply is None ==> r is None,
        reply matches Some(s) ==> match json_verdict_of(s@, "is_roadmap"@, "reason"@) {
            None => r is None,
            Some(v) => r == Some(v.0),
        },
{
    match reply {
        None => None,
        Some(s) => match parse_json_verdict(s.as_str(), "is_roadmap", "reason") {
            None => None,
            Some((is_roadmap, _reason)) => Some(is_roadmap),
        },
    }
}

} // verus!
