use vstd::prelude::*;
use crate::messaging::{spec_log_actions_text, spec_log_ban_text, spec_warn_generic_text,
    spec_warn_reason_text, log_actions_text, log_ban_text, warn_user_generic_text,
    warn_user_reason_text};
use crate::spam_detection::MessageClassification;

verus! {

/// Seconds a confirmed spammer is kept from communicating.
pub const SPAM_TIMEOUT_SECS: i64 = 86400;

/// Days of message deletion applied with a honeypot ban.
pub const HONEYPOT_BAN_DAYS: u8 = 7;

/// Distinct flag reactions needed before a community report acts.
pub const REPORT_THRESHOLD: usize = 4;

/// Seconds after a message's creation during which a report still times the
/// author out, and the moment that timeout ends.
pub const REPORT_TIMEOUT_SECS: i64 = 900;

/// One remediation step, to be carried out by the transport layer.
pub enum ModAction {
    /// Post the given warning in the message's channel.
    Warn { text: String },
    /// Delete the offending message.
    DeleteMessage,
    /// Keep the author from communicating until the given time.
    Timeout { until: i64 },
    /// Ban the author for the given number of days of message deletion,
    /// with the given reason.
    Ban { days: u8, reason: String },
    /// Record what was done in the moderation log channel.
    AuditLog { text: String },
}

/// Where an inbound message is routed.
pub enum Route {
    /// The bot's own channel, or the exempt account: left alone.
    Ignore,
    /// The decoy channel: posting there is itself the verdict.
    Honeypot,
    /// Everything else flows through the moderation pipeline.
    Moderate,
}

/// The routing rule for an inbound message.
pub open spec fn spec_route(
    channel_id: u64,
    author_id: u64,
    bot_channel: u64,
    honeypot_channel: u64,
    exempt_user: u64,
) -> Route {
    if channel_id == bot_channel || author_id == exempt_user {
        Route::Ignore
    } else if channel_id == honeypot_channel {
        Route::Honeypot
    } else {
        Route::Moderate
    }
}

/// Routes an inbound message: the bot's channel and the exempt account are
/// ignored, the honeypot channel is its own path, everything else is
/// moderated.
pub fn route_message(
    channel_id: u64,
    author_id: u64,
    bot_channel: u64,
    honeypot_channel: u64,
    exempt_user: u64,
) -> (r: Route)
    ensures
        r == spec_route(channel_id, author_id, bot_channel, honeypot_channel, exempt_user),
{
    if channel_id == bot_channel || author_id == exempt_user {
        Route::Ignore
    } else if channel_id == honeypot_channel {
        Route::Honeypot
    } else {
        Route::Moderate
    }
}

/// The honeypot response, the same for every message posted there: delete
/// it, log the ban, and ban the author for a week.
pub fn honeypot_plan(author_name: &str) -> (r: Vec<ModAction>)
    ensures
        r@.len() == 3,
        r@[0] is DeleteMessage,
        (r@[1] matches ModAction::AuditLog { text } && text@ == spec_log_ban_text(author_name@)),
        (r@[2] matches ModAction::Ban { days, reason } && days == HONEYPOT_BAN_DAYS && reason@
            == "Spam Channel honeypot"@),
{
    let mut v: Vec<ModAction> = Vec::new();
    v.push(ModAction::DeleteMessage);
    v.push(ModAction::AuditLog { text: log_ban_text(author_name) });
    v.push(
        ModAction::Ban { days: HONEYPOT_BAN_DAYS, reason: String::from_str("Spam Channel honeypot") },
    );
    v
}

/// Maps a verdict to its ordered clean-up steps: none when the message is
/// fine; a generic warning, deletion and a log entry when the oracle was
/// unreachable; a reasoned warning, deletion, a day-long mute and an
/// annotated log entry when spam was confirmed.
pub fn plan_for_classification(
    verdict: &MessageClassification,
    mention: &str,
    author_name: &str,
    cleaned_content: &str,
    now: i64,
) -> (r: Vec<ModAction>)
    requires
        now <= i64::MAX - SPAM_TIMEOUT_SECS,
    ensures
        verdict is Normal ==> r@.len() == 0,
        verdict is MaybeSpam ==> {
            &&& r@.len() == 3
            &&& (r@[0] matches ModAction::Warn { text } && text@ == spec_warn_generic_text(
                mention@,
            ))
            &&& r@[1] is DeleteMessage
            &&& (r@[2] matches ModAction::AuditLog { text } && text@ == spec_log_actions_text(
                cleaned_content@,
                author_name@,
                None,
                false,
            ))
        },
        verdict matches MessageClassification::DefinitelySpam(reason) ==> {
            &&& r@.len() == 4
            &&& (r@[0] matches ModAction::Warn { text } && text@ == spec_warn_reason_text(
                mention@,
                reason@,
            ))
            &&& r@[1] is DeleteMessage
            &&& (r@[2] matches ModAction::Timeout { until } && until == now + SPAM_TIMEOUT_SECS)
            &&& (r@[3] matches ModAction::AuditLog { text } && text@ == spec_log_actions_text(
                cleaned_content@,
                author_name@,
                Some(reason@),
                true,
            ))
        },
{
    match verdict {
        MessageClassification::Normal => Vec::new(),
        MessageClassification::MaybeSpam => {
            let mut v: Vec<ModAction> = Vec::new();
            v.push(ModAction::Warn { text: warn_user_generic_text(mention) });
            v.push(ModAction::DeleteMessage);
            v.push(
                ModAction::AuditLog {
                    text: log_actions_text(cleaned_content, author_name, None, false),
                },
            );
            v
        },
        MessageClassification::DefinitelySpam(reason) => {
            let mut v: Vec<ModAction> = Vec::new();
            v.push(ModAction::Warn { text: warn_user_reason_text(mention, reason.as_str()) });
            v.push(ModAction::DeleteMessage);
            v.push(ModAction::Timeout { until: now + SPAM_TIMEOUT_SECS });
            v.push(
                ModAction::AuditLog {
                    text: log_actions_text(
                        cleaned_content,
                        author_name,
                        Some(reason.as_str()),
                        true,
                    ),
                },
            );
            v
        },
    }
}

/// A community report: exactly when the flag emoji is the designated one,
/// enough distinct reactors have flagged the message, and the report window
/// since the message's creation has not yet elapsed, the author is timed
/// out until that window's end.
pub fn report_action(
    emoji_id: u64,
    flag_emoji_id: u64,
    reactor_count: usize,
    message_created_at: i64,
    now: i64,
) -> (r: Option<i64>)
    requires
        message_created_at <= i64::MAX - REPORT_TIMEOUT_SECS,
    ensures
        r == if emoji_id == flag_emoji_id && reactor_count >= REPORT_THRESHOLD
            && message_created_at + REPORT_TIMEOUT_SECS > now {
            Some((message_created_at + REPORT_TIMEOUT_SECS) as i64)
        } else {
            None::<i64>
        },
{
    if emoji_id == flag_emoji_id && reactor_count >= REPORT_THRESHOLD {
        let until = message_created_at + REPORT_TIMEOUT_SECS;
        if until > now {
            Some(until)
        } else {
            None
        }
    } else {
        None
    }
}

} // verus!
