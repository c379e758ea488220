use llama_pack::session::{PromptLog, SessionManager};

#[test]
fn test_new_session_starts_empty() {
    let manager = SessionManager::new_session("1f2e3d".to_string());
    assert_eq!(manager.session.id, "1f2e3d");
    assert!(manager.session.logs.is_empty());
}

#[test]
fn test_load_session_keeps_logs() {
    let logs = vec![PromptLog {
        timestamp: "2024-01-01T00:00:00Z".to_string(),
        prompt: "hello".to_string(),
        response: "hi".to_string(),
    }];
    let manager = SessionManager::load_session("abc".to_string(), logs.clone());
    assert_eq!(manager.session.id, "abc");
    assert_eq!(manager.session.logs, logs);
}

#[test]
fn test_save_log_appends_in_order() {
    let mut manager = SessionManager::new_session("abc".to_string());
    manager.save_log("first?", "one.", "t1".to_string());
    manager.save_log("second?", "two.", "t2".to_string());
    assert_eq!(manager.session.logs.len(), 2);
    assert_eq!(manager.session.logs[0].prompt, "first?");
    assert_eq!(manager.session.logs[0].response, "one.");
    assert_eq!(manager.session.logs[0].timestamp, "t1");
    assert_eq!(manager.session.logs[1].prompt, "second?");
    assert_eq!(manager.session.logs[1].response, "two.");
    assert_eq!(manager.session.logs[1].timestamp, "t2");
}

#[test]
fn test_list_sessions_strips_suffix() {
    let entries = vec![
        "a1b2.json".to_string(),
        "notes.txt".to_string(),
        "c3d4.json".to_string(),
        ".json".to_string(),
        "json".to_string(),
    ];
    let ids = SessionManager::list_sessions(entries);
    assert_eq!(ids, vec!["a1b2".to_string(), "c3d4".to_string(), "".to_string()]);
}

#[test]
fn test_list_sessions_empty_dir() {
    let ids = SessionManager::list_sessions(Vec::new());
    assert!(ids.is_empty());
}
