use modbot::{UserHistory, UserJoinDate, UserContext, update_user_join_date, get_user_join_date,
    update_user_context, retrieve_user_context, is_new_user};

#[test]
fn history_sorts_and_evicts() {
    let mut h = UserHistory::default();
    h.push(10, "a".to_string());
    h.push(12, "c".to_string());
    h.push(11, "x".to_string());
    assert_eq!(h.context(13, 1000), vec!["a", "x", "c"]);
    // a fourth entry evicts the chronologically oldest
    h.push(13, "d".to_string());
    assert_eq!(h.context(13, 1000), vec!["x", "c", "d"]);
}

#[test]
fn history_drops_stale_and_duplicate_pushes() {
    let mut h = UserHistory::default();
    h.push(10, "a".to_string());
    h.push(12, "c".to_string());
    // older than the retained minimum: a no-op
    h.push(5, "old".to_string());
    assert_eq!(h.context(12, 1000), vec!["a", "c"]);
    // equal to the retained minimum: a no-op
    h.push(10, "dup-min".to_string());
    assert_eq!(h.context(12, 1000), vec!["a", "c"]);
    // equal to a retained timestamp in the middle: a no-op
    h.push(12, "dup-max".to_string());
    assert_eq!(h.context(12, 1000), vec!["a", "c"]);
}

#[test]
fn context_filters_by_age() {
    let mut h = UserHistory::default();
    h.push(11, "x".to_string());
    h.push(12, "c".to_string());
    h.push(13, "d".to_string());
    // only entries with age strictly below the window remain
    assert_eq!(h.context(13, 2), vec!["c", "d"]);
    assert_eq!(h.context(13, 1), vec!["d"]);
    assert_eq!(h.context(20, 2), Vec::<String>::new());
}

#[test]
fn join_registry_first_write_wins() {
    let mut reg = UserJoinDate::new();
    update_user_join_date(&mut reg, 1, 100);
    update_user_join_date(&mut reg, 1, 999);
    assert_eq!(get_user_join_date(&reg, 1), Some(100));
    update_user_join_date(&mut reg, 2, 5);
    assert_eq!(get_user_join_date(&reg, 2), Some(5));
    assert_eq!(get_user_join_date(&reg, 3), None);
}

#[test]
fn user_context_store_tracks_users_separately() {
    let mut ctx = UserContext::new();
    update_user_context(&mut ctx, 7, 1000, "hello".to_string());
    update_user_context(&mut ctx, 7, 1100, "again".to_string());
    update_user_context(&mut ctx, 8, 1100, "other".to_string());
    assert_eq!(retrieve_user_context(&ctx, 7, 1100), vec!["hello", "again"]);
    assert_eq!(retrieve_user_context(&ctx, 8, 1100), vec!["other"]);
    assert_eq!(retrieve_user_context(&ctx, 9, 1100), Vec::<String>::new());
}

#[test]
fn user_context_window_is_five_minutes() {
    let mut ctx = UserContext::new();
    update_user_context(&mut ctx, 7, 1000, "hello".to_string());
    assert_eq!(retrieve_user_context(&ctx, 7, 1299), vec!["hello"]);
    assert_eq!(retrieve_user_context(&ctx, 7, 1300), Vec::<String>::new());
}

#[test]
fn new_user_thresholds() {
    let now = 1_700_000_000;
    assert!(is_new_user(None, now));
    assert!(is_new_user(Some(now - 1800), now));
    assert!(is_new_user(Some(now - 3600), now));
    assert!(!is_new_user(Some(now - 3601), now));
    assert!(!is_new_user(Some(now - 7200), now));
}
