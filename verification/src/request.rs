use vstd::prelude::*;
use crate::text::{spec_trim, spec_remove_first, contains_seq, lower_of, chars_vec, trim_chars,
    remove_first_chars, string_from_chars, str_contains, to_lowercase};
use crate::spam_detection::{json_verdict_of, parse_json_verdict};
use vstd::string::StringExecFns;

verus! {

/// How a request command finds its query: the bare command defers to the
/// message it replies to; anything else takes the command's own text with
/// the first command word removed and surrounding whitespace trimmed.
pub fn request_query(content: &str) -> (r: Option<String>)
    ensures
        lower_of(content@) == "!request"@ ==> r is None,
        lower_of(content@) != "!request"@ ==> (r matches Some(q) && q@ == spec_trim(
            spec_remove_first(content@, "!request"@),
        )),
{
    let lowered = to_lowercase(content);
    let command = String::from_str("!request");
    if lowered.eq(&command) {
        None
    } else {
        let cv = chars_vec(content);
        let pv = chars_vec("!request");
        let stripped = remove_first_chars(&cv, &pv);
        let trimmed = trim_chars(&stripped);
        Some(string_from_chars(&trimmed))
    }
}

/// A blank request carries no query at all once trimmed.
pub fn is_blank(s: &str) -> (r: bool)
    ensures
        r == (spec_trim(s@).len() == 0),
{
    let cv = chars_vec(s);
    let trimmed = trim_chars(&cv);
    trimmed.len() == 0
}

/// A question that embeds the verifier prompt's placeholder likely tries to
/// break out of the prompt and is refused.
pub fn question_attempts_bypass(question: &str) -> (r: bool)
    ensures
        r == contains_seq(question@, "{USER_QUESTION}"@),
{
    str_contains(question, "{USER_QUESTION}")
}

/// What the verifier said about a generated reply.
pub enum AnswerDecision {
    /// The verifier approved: send the reply.
    Send(String),
    /// The verifier rejected the reply, for its recorded reason.
    Withhold(String),
    /// The verifier's reply could not be read.
    Unreadable,
}

/// Decides whether a generated reply may be sent: only a verification whose
/// `answers_correctly` flag is true lets it through; an unreadable
/// verification is an error, never a silent approval.
pub fn decide_answer(reply: String, verification: &str) -> (r: AnswerDecision)
    ensures
        match json_verdict_of(verification@, "answers_correctly"@, "reason"@) {
            None => r is Unreadable,
            Some(v) => if v.0 {
                (r matches AnswerDecision::Send(t) && t@ == reply@)
            } else {
                (r matches AnswerDecision::Withhold(t) && t@ == v.1)
            },
        },
{
    match parse_json_verdict(verification, "answers_correctly", "reason") {
        None => AnswerDecision::Unreadable,
        Some((answers_correctly, reason)) => if answers_correctly {
            AnswerDecision::Send(reply)
        } else {
            AnswerDecision::Withhold(reason)
        },
    }
}

} // verus!
