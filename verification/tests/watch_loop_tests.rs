use wecom_cli::desktop::{recent_chat_read_limit, DesktopRecentChatTarget};
use wecom_cli::helpers::resolve_from_contacts;
use wecom_cli::json::JsonValue;
use wecom_cli::media::{determine_file_name, sanitize_filename};
use wecom_cli::watch_all::{
    baseline_all_desktop_targets, idle_expired, poll_budget, record_emit, WatchAllRuntime,
};
use wecom_cli::watch_friend::{
    acknowledge, needs_desktop_fallback, state_file_path, unseen_sorted_messages, ContactUser,
    WatchState,
};

fn obj(pairs: Vec<(&str, JsonValue)>) -> JsonValue {
    let mut entries: Vec<(String, JsonValue)> =
        pairs.into_iter().map(|(k, v)| (k.to_string(), v)).collect();
    entries.sort_by(|a, b| a.0.cmp(&b.0));
    JsonValue::Object(entries)
}

fn text_message(time: &str, content: &str) -> JsonValue {
    obj(vec![
        ("userid", JsonValue::Str("lisi".to_string())),
        ("send_time", JsonValue::Str(time.to_string())),
        ("msgtype", JsonValue::Str("text".to_string())),
        ("text", obj(vec![("content", JsonValue::Str(content.to_string()))])),
    ])
}

#[test]
fn desktop_fallback_only_without_server_messages() {
    assert!(needs_desktop_fallback(0, true));
    assert!(!needs_desktop_fallback(0, false));
    assert!(!needs_desktop_fallback(3, true));
}

#[test]
fn unseen_messages_are_sorted_and_skip_seen_keys() {
    let messages = vec![
        text_message("2026-03-17 09:36:00", "second"),
        text_message("2026-03-17 09:35:00", "first"),
        text_message("2026-03-17 09:37:00", "third"),
    ];
    let mut state = WatchState::default();
    state
        .seen
        .insert("c1|2026-03-17 09:37:00|lisi|text|third".to_string());
    let out = unseen_sorted_messages(&state, "c1", &messages);
    let keys: Vec<&str> = out.iter().map(|(k, _)| k.as_str()).collect();
    assert_eq!(
        keys,
        vec![
            "c1|2026-03-17 09:35:00|lisi|text|first",
            "c1|2026-03-17 09:36:00|lisi|text|second",
        ]
    );
    assert_eq!(out[0].1.to_json_string(), messages[1].to_json_string());
}

#[test]
fn acknowledged_key_is_recorded_and_refusal_stops() {
    let mut state = WatchState::default();
    assert!(!acknowledge(&mut state, "k1".to_string(), Some(true)));
    assert!(state.seen.contains("k1"));
    assert!(acknowledge(&mut state, "k2".to_string(), Some(false)));
    assert!(acknowledge(&mut state, "k3".to_string(), None));
    assert_eq!(state.seen.to_vec(), vec!["k1".to_string()]);

    let messages = vec![text_message("t", "x")];
    let key = unseen_sorted_messages(&WatchState::default(), "c", &messages)[0].0.clone();
    let mut state = WatchState::default();
    acknowledge(&mut state, key, Some(true));
    assert!(unseen_sorted_messages(&state, "c", &messages).is_empty());
}

#[test]
fn event_budget_counts_and_stops_at_max_events() {
    assert_eq!(poll_budget(0, 0), usize::MAX);
    assert_eq!(poll_budget(3, 10), 7);
    assert_eq!(record_emit(0, 0), (1, false));
    assert_eq!(record_emit(8, 10), (9, false));
    assert_eq!(record_emit(9, 10), (10, true));
}

#[test]
fn idle_timeout_expires_only_when_set() {
    assert!(!idle_expired(1_000, 0));
    assert!(!idle_expired(29, 30));
    assert!(idle_expired(30, 30));
}

#[test]
fn first_poll_baseline_records_signature_and_preview() {
    let mut runtime = WatchAllRuntime::new(WatchState::default(), None);
    let targets = vec![DesktopRecentChatTarget {
        name: "邹友".to_string(),
        signature: "邹友|新消息".to_string(),
        preview: Some("新消息".to_string()),
    }];
    baseline_all_desktop_targets(&mut runtime, &targets);
    assert_eq!(
        runtime.desktop_signatures.get("desktop:邹友"),
        Some(&"邹友|新消息".to_string())
    );
    assert_eq!(
        runtime.desktop_initial_previews.get("desktop:邹友"),
        Some(&Some("新消息".to_string()))
    );
    assert!(runtime.state.seen.is_empty());
    assert!(runtime.desktop_snapshots.get("desktop:邹友").is_none());
}

#[test]
fn contact_resolution_names_the_conversation() {
    let users = vec![ContactUser {
        userid: "u1".to_string(),
        name: "邹友".to_string(),
        alias: String::new(),
    }];
    let chat = resolve_from_contacts("邹友", &users).unwrap();
    assert_eq!(chat.chat_id, "u1");
    assert_eq!(chat.chat_name, "邹友");
    assert_eq!(chat.last_msg_time, None);
    assert_eq!(chat.msg_count, None);
}

#[test]
fn file_names_are_made_safe() {
    assert_eq!(sanitize_filename(" ../a/b\\c.txt. ").as_deref(), Some("abc.txt"));
    assert_eq!(sanitize_filename("x\u{7}y").as_deref(), Some("xy"));
    assert_eq!(sanitize_filename(" .. "), None);
    assert_eq!(
        determine_file_name(Some("report.pdf"), Some("m1"), "image/png"),
        ("report".to_string(), "pdf".to_string())
    );
    assert_eq!(
        determine_file_name(Some("README"), None, "image/png"),
        ("README".to_string(), String::new())
    );
    assert_eq!(
        determine_file_name(Some("//"), Some("MEDIA_1"), "image/png"),
        ("MEDIA_1".to_string(), "png".to_string())
    );
    assert_eq!(
        determine_file_name(None, None, "application/x-unknown-type"),
        ("media".to_string(), "bin".to_string())
    );
}

#[test]
fn state_file_is_named_after_the_conversation() {
    assert_eq!(
        state_file_path("/tmp/media", "wm/abc"),
        "/tmp/media/.watch_friend_wmabc.json"
    );
    assert_eq!(state_file_path("/tmp/media/", "..."), "/tmp/media/.watch_friend_chat.json");
}

#[test]
fn recent_chat_read_asks_for_at_least_one() {
    assert_eq!(recent_chat_read_limit(0), 1);
    assert_eq!(recent_chat_read_limit(12), 12);
}
