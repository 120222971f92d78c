use modbot::{MessageClassification, ModAction, Route, classify_from_reply, should_classify,
    route_message, honeypot_plan, plan_for_classification, report_action, is_suspicious_url,
    warn_user_generic_text, warn_user_reason_text, log_actions_text, log_ban_text,
    SPAM_TIMEOUT_SECS, REPORT_TIMEOUT_SECS};

const BOT_CHANNEL: u64 = 1091681853603324047;
const HONEY_POT_CHANNEL: u64 = 889466095810011137;
const SPAM_EATER_ID: u64 = 1091478027264868422;
const BLUNDER_EMOJI_ID: u64 = 1134914979078864926;

#[test]
fn suspicious_url_rules() {
    assert!(is_suspicious_url("check out http://totally-fake-prize.ru now!!"));
    assert!(!is_suspicious_url("see https://github.com/some/repo"));
    assert!(!is_suspicious_url("https://stackoverflow.com/q/1"));
    assert!(!is_suspicious_url("no links at all"));
    // a trusted domain mentioned without any link marker is not suspicious
    assert!(!is_suspicious_url("github.com"));
}

#[test]
fn parse_json() {
    let verdict = classify_from_reply(Some(
        "{\"reason\": \"Unlikely to be spam\", \"is_spam\": false}".to_string(),
    ));
    assert!(matches!(verdict, MessageClassification::Normal));
}

#[test]
fn classifier_failure_is_maybe_spam() {
    assert!(matches!(classify_from_reply(None), MessageClassification::MaybeSpam));
    assert!(matches!(
        classify_from_reply(Some("this is not json".to_string())),
        MessageClassification::MaybeSpam
    ));
    assert!(matches!(
        classify_from_reply(Some("{\"reason\": \"missing flag\"}".to_string())),
        MessageClassification::MaybeSpam
    ));
}

#[test]
fn definite_spam_flow() {
    // a suspicious link from an account that joined five minutes ago
    let now = 1_700_000_000;
    let content = "check out http://totally-fake-prize.ru now!!";
    assert!(should_classify(content, false, Some(now - 300), now));
    let verdict = classify_from_reply(Some(
        "{\"is_spam\": true, \"reason\": \"phishing link\"}".to_string(),
    ));
    match &verdict {
        MessageClassification::DefinitelySpam(reason) => assert_eq!(reason, "phishing link"),
        _ => panic!("expected a confirmed verdict"),
    }
    let plan = plan_for_classification(&verdict, "<@42>", "scammer", content, now);
    assert_eq!(plan.len(), 4);
    match &plan[0] {
        ModAction::Warn { text } => {
            assert_eq!(text, &warn_user_reason_text("<@42>", "phishing link"));
        },
        _ => panic!("expected a warning first"),
    }
    assert!(matches!(plan[1], ModAction::DeleteMessage));
    match &plan[2] {
        ModAction::Timeout { until } => assert_eq!(*until, now + SPAM_TIMEOUT_SECS),
        _ => panic!("expected a timeout third"),
    }
    match &plan[3] {
        ModAction::AuditLog { text } => {
            assert_eq!(text, &log_actions_text(content, "scammer", Some("phishing link"), true));
        },
        _ => panic!("expected an audit-log entry last"),
    }
}

#[test]
fn established_account_is_not_classified() {
    // the same message from a user who joined three days ago never reaches
    // the classifier, and a normal verdict plans no actions
    let now = 1_700_000_000;
    let content = "check out http://totally-fake-prize.ru now!!";
    assert!(!should_classify(content, false, Some(now - 3 * 86400), now));
    let plan = plan_for_classification(&MessageClassification::Normal, "<@42>", "ok", content, now);
    assert!(plan.is_empty());
}

#[test]
fn maybe_spam_plan() {
    let now = 1_700_000_000;
    let plan = plan_for_classification(
        &MessageClassification::MaybeSpam,
        "<@42>",
        "someone",
        "a message",
        now,
    );
    assert_eq!(plan.len(), 3);
    match &plan[0] {
        ModAction::Warn { text } => assert_eq!(text, &warn_user_generic_text("<@42>")),
        _ => panic!("expected a warning first"),
    }
    assert!(matches!(plan[1], ModAction::DeleteMessage));
    match &plan[2] {
        ModAction::AuditLog { text } => {
            assert_eq!(text, &log_actions_text("a message", "someone", None, false));
        },
        _ => panic!("expected an audit-log entry last"),
    }
}

#[test]
fn mass_mention_gates_too() {
    let now = 1_700_000_000;
    assert!(should_classify("hello all", true, Some(now - 60), now));
    assert!(!should_classify("hello all", false, Some(now - 60), now));
}

#[test]
fn routing_rules() {
    assert!(matches!(
        route_message(BOT_CHANNEL, 1, BOT_CHANNEL, HONEY_POT_CHANNEL, SPAM_EATER_ID),
        Route::Ignore
    ));
    assert!(matches!(
        route_message(42, SPAM_EATER_ID, BOT_CHANNEL, HONEY_POT_CHANNEL, SPAM_EATER_ID),
        Route::Ignore
    ));
    assert!(matches!(
        route_message(HONEY_POT_CHANNEL, 1, BOT_CHANNEL, HONEY_POT_CHANNEL, SPAM_EATER_ID),
        Route::Honeypot
    ));
    assert!(matches!(
        route_message(42, 1, BOT_CHANNEL, HONEY_POT_CHANNEL, SPAM_EATER_ID),
        Route::Moderate
    ));
}

#[test]
fn honeypot_always_bans() {
    let plan = honeypot_plan("intruder");
    assert_eq!(plan.len(), 3);
    assert!(matches!(plan[0], ModAction::DeleteMessage));
    match &plan[1] {
        ModAction::AuditLog { text } => assert_eq!(text, &log_ban_text("intruder")),
        _ => panic!("expected the ban to be logged"),
    }
    match &plan[2] {
        ModAction::Ban { days, reason } => {
            assert_eq!(*days, 7);
            assert_eq!(reason, "Spam Channel honeypot");
        },
        _ => panic!("expected a ban last"),
    }
}

#[test]
fn report_threshold_and_window() {
    let created = 1_700_000_000;
    // four distinct reactors inside the window: timeout until window's end
    assert_eq!(
        report_action(BLUNDER_EMOJI_ID, BLUNDER_EMOJI_ID, 4, created, created + 100),
        Some(created + REPORT_TIMEOUT_SECS)
    );
    // three reactors are not enough
    assert_eq!(report_action(BLUNDER_EMOJI_ID, BLUNDER_EMOJI_ID, 3, created, created + 100), None);
    // a fifth reaction after the window has elapsed does not re-trigger
    assert_eq!(
        report_action(BLUNDER_EMOJI_ID, BLUNDER_EMOJI_ID, 5, created, created + 900),
        None
    );
    // a different emoji is not a report
    assert_eq!(report_action(7, BLUNDER_EMOJI_ID, 9, created, created + 100), None);
}

#[test]
fn warning_and_log_texts() {
    assert_eq!(
        warn_user_generic_text("<@1>"),
        "Hi <@1>, please wait a while after joining before sharing links or mentioning people."
    );
    assert_eq!(
        warn_user_reason_text("<@1>", "a scam"),
        "Hi <@1>,  - this was removed because the message is considered to be `a scam`"
    );
    assert_eq!(
        log_actions_text("msg", "bob", Some("scam"), true),
        "Hey bot team! I found 'msg' from bob suspicious because `scam`, so I deleted it and timed them out until tomorrow. :)"
    );
    assert_eq!(
        log_actions_text("msg", "bob", None, false),
        "Hey bot team! I found 'msg' from bob suspicious, so I deleted it. :)"
    );
    assert_eq!(
        log_ban_text("bob"),
        "Hey bot team! 'bob' posted in THE CHANNEL, so I deleted them :)"
    );
}
