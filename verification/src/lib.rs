pub mod ask;
pub mod chunking;
pub mod dispatch;
pub mod messaging;
pub mod request;
pub mod roadmaps;
pub mod spam_detection;
pub mod text;
pub mod user_info;

pub use ask::respond_ask;
pub use chunking::{chunk_string, chunk_ok, chunks_ok, spec_chunks, spec_words, spec_lines,
    join_spaces, all_words, lemma_chunks_preserve_words};
pub use dispatch::{ModAction, Route, route_message, honeypot_plan, plan_for_classification,
    report_action, SPAM_TIMEOUT_SECS, HONEYPOT_BAN_DAYS, REPORT_THRESHOLD, REPORT_TIMEOUT_SECS};
pub use messaging::{is_new_user, is_new_user_now, is_suspicious_url, message_discusses_roadmaps,
    is_message_request, is_message_ask, warn_user_generic_text, warn_user_reason_text,
    log_actions_text, log_ban_text, NEW_USER_THRESHOLD_SECS};
pub use spam_detection::{MessageClassification, should_classify, classify_from_reply,
    build_message, build_classifier_input, SPAM_CONTEXT_LENGTH, SPAM_MESSAGE_LIMIT_CHARS};
pub use request::{AnswerDecision, request_query, is_blank, question_attempts_bypass,
    decide_answer};
pub use roadmaps::roadmap_requested;
pub use text::{str_contains, str_starts_with};
pub use user_info::{HistoryEntry, UserHistory, UserJoinDate, UserContext, update_user_join_date,
    get_user_join_date, update_user_context, retrieve_user_context, DEFAULT_HISTORY_SIZE,
    CONTEXT_WINDOW_SECS};
