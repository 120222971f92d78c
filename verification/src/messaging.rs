use vstd::prelude::*;
use crate::text::{contains_seq, starts_with_seq, lower_of, str_contains, str_starts_with,
    to_lowercase};
use vstd::string::StringExecFns;

verus! {

/// Accounts younger than this many seconds count as new.
pub const NEW_USER_THRESHOLD_SECS: i64 = 3600;

/// An account is treated as new when its join time is unknown (fail closed)
/// or lies within the threshold before `now`.
pub open spec fn spec_is_new_user(join_date: Option<i64>, now: i64) -> bool {
    match join_date {
        None => true,
        Some(t) => now - t <= NEW_USER_THRESHOLD_SECS,
    }
}

/// Was the author's account created within the last hour before `now`,
/// or is its creation time unknown?
pub fn is_new_user(join_date: Option<i64>, now: i64) -> (r: bool)
    ensures
        r == spec_is_new_user(join_date, now),
{
    match join_date {
        None => true,
        Some(t) => (now as i128) - (t as i128) <= (NEW_USER_THRESHOLD_SECS as i128),
    }
}

/// Relies on chrono::Utc::now for the current wall-clock time, as seconds
/// since the Unix epoch; nothing is assumed about the value returned.
#[verifier::external_body]
fn now_unix() -> i64 {
    chrono::Utc::now().timestamp()
}

/// Decides account newness against the current clock. An unknown join time
/// always counts as new; otherwise the answer depends on the present moment.
pub fn is_new_user_now(join_date: Option<i64>) -> (r: bool)
    ensures
        join_date is None ==> r,
{
    let now = now_unix();
    is_new_user(join_date, now)
}

/// The text mentions a trusted domain.
pub open spec fn spec_trusted_site(s: Seq<char>) -> bool {
    ||| contains_seq(s, "github.com"@)
    ||| contains_seq(s, "bitbucket.com"@)
    ||| contains_seq(s, "stackoverflow.com"@)
    ||| contains_seq(s, "pastebin.com"@)
    ||| contains_seq(s, "kaggle.com"@)
    ||| contains_seq(s, "mit.edu"@)
    ||| contains_seq(s, "usc.edu"@)
}

/// The text carries a link marker and no trusted domain.
pub open spec fn spec_suspicious_url(s: Seq<char>) -> bool {
    contains_seq(s, "http"@) && !spec_trusted_site(s)
}

/// Does the text contain a link to anywhere outside the allow-list of
/// trusted domains?
pub fn is_suspicious_url(path: &str) -> (r: bool)
    ensures
        r == spec_suspicious_url(path@),
{
    str_contains(path, "http") && !(str_contains(path, "github.com") || str_contains(
        path,
        "bitbucket.com",
    ) || str_contains(path, "stackoverflow.com") || str_contains(path, "pastebin.com")
        || str_contains(path, "kaggle.com") || str_contains(path, "mit.edu") || str_contains(
        path,
        "usc.edu",
    ))
}

/// The message talks about roadmaps, in either spelling, ignoring case.
pub fn message_discusses_roadmaps(content: &str) -> (r: bool)
    ensures
        r == (contains_seq(lower_of(content@), "roadmap"@) || contains_seq(
            lower_of(content@),
            "road map"@,
        )),
{
    let lowered = to_lowercase(content);
    str_contains(lowered.as_str(), "roadmap") || str_contains(lowered.as_str(), "road map")
}

/// The message invokes the request command, ignoring case.
pub fn is_message_request(content: &str) -> (r: bool)
    ensures
        r == starts_with_seq(lower_of(content@), "!request"@),
{
    let lowered = to_lowercase(content);
    str_starts_with(lowered.as_str(), "!request")
}

/// The message invokes the ask command, ignoring case.
pub fn is_message_ask(content: &str) -> (r: bool)
    ensures
        r == starts_with_seq(lower_of(content@), "!ask"@),
{
    let lowered = to_lowercase(content);
    str_starts_with(lowered.as_str(), "!ask")
}

/// The warning sent to an author when a message is removed on suspicion
/// alone, without a confirmed reason.
pub open spec fn spec_warn_generic_text(mention: Seq<char>) -> Seq<char> {
    "Hi "@ + mention
        + ", please wait a while after joining before sharing links or mentioning people."@
}

/// Builds the generic warning for the given author mention.
pub fn warn_user_generic_text(mention: &str) -> (r: String)
    ensures
        r@ == spec_warn_generic_text(mention@),
{
    let mut s = String::from_str("Hi ");
    s.append(mention);
    s.append(", please wait a while after joining before sharing links or mentioning people.");
    s
}

/// The warning sent to an author when a message is removed for a confirmed
/// reason.
pub open spec fn spec_warn_reason_text(mention: Seq<char>, reason: Seq<char>) -> Seq<char> {
    "Hi "@ + mention + ",  - this was removed because the message is considered to be `"@ + reason
        + "`"@
}

/// Builds the reason-annotated warning for the given author mention.
pub fn warn_user_reason_text(mention: &str, reason: &str) -> (r: String)
    ensures
        r@ == spec_warn_reason_text(mention@, reason@),
{
    let mut s = String::from_str("Hi ");
    s.append(mention);
    s.append(",  - this was removed because the message is considered to be `");
    s.append(reason);
    s.append("`");
    s
}

/// The audit-log entry for a removed message: what was found, whose it was,
/// why it was removed, and whether the author was timed out.
pub open spec fn spec_log_actions_text(
    cleaned_content: Seq<char>,
    author_name: Seq<char>,
    reason: Option<Seq<char>>,
    timeout: bool,
) -> Seq<char> {
    let reason_part = match reason {
        None => Seq::<char>::empty(),
        Some(r) => " because `"@ + r + "`"@,
    };
    let timeout_part = if timeout {
        " and timed them out until tomorrow"@
    } else {
        Seq::<char>::empty()
    };
    "Hey bot team! I found '"@ + cleaned_content + "' from "@ + author_name + " suspicious"@
        + reason_part + ", so I deleted it"@ + timeout_part + ". :)"@
}

/// Builds the audit-log entry for a removed message.
pub fn log_actions_text(
    cleaned_content: &str,
    author_name: &str,
    reason: Option<&str>,
    timeout: bool,
) -> (r: String)
    ensures
        r@ == spec_log_actions_text(
            cleaned_content@,
            author_name@,
            match reason {
                None => None::<Seq<char>>,
                Some(re) => Some(re@),
            },
            timeout,
        ),
{
    let mut s = String::from_str("Hey bot team! I found '");
    s.append(cleaned_content);
    s.append("' from ");
    s.append(author_name);
    s.append(" suspicious");
    match reason {
        None => {},
        Some(re) => {
            s.append(" because `");
            s.append(re);
            s.append("`");
        },
    }
    s.append(", so I deleted it");
    if timeout {
        s.append(" and timed them out until tomorrow");
    }
    s.append(". :)");
    proof {
        assert(s@ =~= spec_log_actions_text(
            cleaned_content@,
            author_name@,
            match reason {
                None => None::<Seq<char>>,
                Some(re) => Some(re@),
            },
            timeout,
        ));
    }
    s
}

/// The audit-log entry for a honeypot ban.
pub open spec fn spec_log_ban_text(author_name: Seq<char>) -> Seq<char> {
    "Hey bot team! '"@ + author_name + "' posted in THE CHANNEL, so I deleted them :)"@
}

/// Builds the audit-log entry for a honeypot ban.
pub fn log_ban_text(author_name: &str) -> (r: String)
    ensures
        r@ == spec_log_ban_text(author_name@),
{
    let mut s = String::from_str("Hey bot team! '");
    s.append(author_name);
    s.append("' posted in THE CHANNEL, so I deleted them :)");
    s
}

} // verus!
