use modbot::{AnswerDecision, respond_ask, request_query, is_blank, question_attempts_bypass,
    decide_answer, roadmap_requested, message_discusses_roadmaps, is_message_request,
    is_message_ask, build_message, build_classifier_input};

#[test]
fn test_respond_ask() {
    let response = respond_ask();
    assert_eq!(response, "Don't ask to ask, just ask! \nhttps://dontasktoask.com/");
}

#[test]
fn emit_prompt() {
    let built = build_classifier_input("I'd like a roadmap", &Vec::new());
    assert_eq!(built, "I'd like a roadmap");
}

#[test]
fn command_detection_ignores_case() {
    assert!(is_message_request("!Request help me"));
    assert!(!is_message_request("hey !request"));
    assert!(is_message_ask("!ASK something"));
    assert!(!is_message_ask("ask!"));
    assert!(message_discusses_roadmaps("Where is the ROADMAP?"));
    assert!(message_discusses_roadmaps("need a road map please"));
    assert!(!message_discusses_roadmaps("nothing relevant"));
}

#[test]
fn request_query_extraction() {
    // the bare command defers to the referenced message
    assert_eq!(request_query("!request"), None);
    assert_eq!(request_query("!REQUEST"), None);
    assert_eq!(request_query("!request  help me  "), Some("help me".to_string()));
    // removal is case-sensitive, as the transport delivers the raw text
    assert_eq!(request_query("!REQUEST stuff"), Some("!REQUEST stuff".to_string()));
}

#[test]
fn blank_requests() {
    assert!(is_blank("   "));
    assert!(is_blank(""));
    assert!(!is_blank(" q "));
}

#[test]
fn bypass_guard() {
    assert!(question_attempts_bypass("echo {USER_QUESTION} back"));
    assert!(!question_attempts_bypass("an honest question"));
}

#[test]
fn answer_verification() {
    let approved = decide_answer(
        "the reply".to_string(),
        "{\"answers_correctly\": true, \"reason\": \"accurate\"}",
    );
    match approved {
        AnswerDecision::Send(text) => assert_eq!(text, "the reply"),
        _ => panic!("expected the reply to be sent"),
    }
    let rejected = decide_answer(
        "the reply".to_string(),
        "{\"answers_correctly\": false, \"reason\": \"made up\"}",
    );
    match rejected {
        AnswerDecision::Withhold(reason) => assert_eq!(reason, "made up"),
        _ => panic!("expected the reply to be withheld"),
    }
    assert!(matches!(
        decide_answer("the reply".to_string(), "not json"),
        AnswerDecision::Unreadable
    ));
}

#[test]
fn roadmap_detection_reply() {
    assert_eq!(
        roadmap_requested(Some("{\"is_roadmap\": true, \"reason\": \"asked\"}".to_string())),
        Some(true)
    );
    assert_eq!(
        roadmap_requested(Some("{\"is_roadmap\": false, \"reason\": \"small talk\"}".to_string())),
        Some(false)
    );
    assert_eq!(roadmap_requested(Some("broken".to_string())), None);
    assert_eq!(roadmap_requested(None), None);
}

#[test]
fn context_budget_rules() {
    // the budget counts the candidate message first; an entry that would
    // exceed it stops inclusion outright
    let out = build_message(
        "12345".to_string(),
        vec!["abc".to_string(), "de".to_string()],
        3,
        10,
    );
    assert_eq!(out, vec!["abc", "de", "12345"]);
    let stopped = build_message(
        "12345678".to_string(),
        vec!["abc".to_string(), "de".to_string()],
        3,
        10,
    );
    assert_eq!(stopped, vec!["12345678"]);
    // the count cap limits entries even when the budget would admit them
    let capped = build_message(
        "12345".to_string(),
        vec!["a".to_string(), "b".to_string()],
        1,
        100,
    );
    assert_eq!(capped, vec!["a", "12345"]);
}

#[test]
fn classifier_input_prepends_context() {
    let built = build_classifier_input("msg", &vec!["a".to_string(), "b".to_string()]);
    assert_eq!(built, "bamsg");
}
