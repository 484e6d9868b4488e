use std::path::Path;

use wecom_cli::collections::{StringMap, StringSet};
use wecom_cli::desktop::{DesktopError, DesktopRecentChatTarget};
use wecom_cli::json::JsonValue;
use wecom_cli::watch_all::{
    baseline_pending_desktop_targets, begin_desktop_target_poll, chat_needs_fetch, desktop_chat_id, desktop_full_sweep_interval,
    desktop_message_was_emitted_from_preview, desktop_new_message_start, desktop_preview_dedup_key,
    desktop_preview_to_value, desktop_recent_chat_limit, filter_chats_by_queue,
    filter_desktop_targets_by_queue,
    merge_queue_targets, next_missing_cursor, parse_queue_targets, parse_watch_queue_content,
    queue_file_content, remove_desktop_target_state, select_missing_queue_targets,
    should_force_desktop_sweep, take_unseen_message_key, update_chat_signature,
    validate_watch_all_args, watch_all_queue_file, watch_all_state_file,
    watch_all_window_seconds, watch_target_meta_from_chat, ChatPollSignature, PollOutputBuffer,
    WatchAllArgs, WatchAllRuntime, DESKTOP_RECENT_CHAT_LIMIT,
};
use wecom_cli::watch_friend::{message_dedup_key, ChatSummary, WatchError, WatchState};

fn make_chat(
    id: &str,
    name: &str,
    last_msg_time: Option<&str>,
    msg_count: Option<u64>,
) -> ChatSummary {
    ChatSummary {
        chat_id: id.to_string(),
        chat_name: name.to_string(),
        last_msg_time: last_msg_time.map(ToString::to_string),
        msg_count,
    }
}

fn set(names: &[&str]) -> StringSet {
    let mut s = StringSet::new();
    for n in names {
        s.insert(n.to_string());
    }
    s
}

fn names(s: &StringSet) -> Vec<String> {
    s.to_vec()
}

fn obj(pairs: Vec<(&str, JsonValue)>) -> JsonValue {
    let mut entries: Vec<(String, JsonValue)> =
        pairs.into_iter().map(|(k, v)| (k.to_string(), v)).collect();
    entries.sort_by(|a, b| a.0.cmp(&b.0));
    JsonValue::Object(entries)
}

fn text_message(time: &str, content: &str) -> JsonValue {
    obj(vec![
        ("userid", JsonValue::Str("lisi".to_string())),
        ("send_time", JsonValue::Str(time.to_string())),
        ("msgtype", JsonValue::Str("text".to_string())),
        ("text", obj(vec![("content", JsonValue::Str(content.to_string()))])),
    ])
}

#[test]
fn watch_all_args_uses_ten_second_default_interval() {
    let args = WatchAllArgs::default();

    assert_eq!(args.interval_sec, 10);
}

#[test]
fn watch_all_args_rejects_zero_interval() {
    let mut args = WatchAllArgs::default();
    args.interval_sec = 0;

    let err = validate_watch_all_args(&args).unwrap_err().message();
    assert!(err.contains("--interval-sec"));
    assert!(validate_watch_all_args(&WatchAllArgs::default()).is_ok());
}

#[test]
fn parse_watch_queue_content_accepts_lines_and_comments() {
    let targets = parse_watch_queue_content("邹友\n# 注释\n友友 # 行内注释\n\n").unwrap();

    assert_eq!(names(&targets), vec!["友友".to_string(), "邹友".to_string()]);
}

#[test]
fn parse_watch_queue_content_accepts_json_array() {
    let targets = parse_watch_queue_content(r#"["邹友", "友友", "邹友"]"#).unwrap();

    assert_eq!(names(&targets), vec!["友友".to_string(), "邹友".to_string()]);
}

#[test]
fn parse_watch_queue_content_reports_bad_json_and_bad_names() {
    assert!(names(&parse_watch_queue_content("  \n ").unwrap()).is_empty());
    assert!(matches!(
        parse_watch_queue_content("[1, 2]"),
        Err(WatchError::QueueJson(_))
    ));
    assert_eq!(
        parse_watch_queue_content(r#"["  "]"#).unwrap_err(),
        WatchError::InvalidTarget(DesktopError::EmptyTarget)
    );
}

#[test]
fn queue_file_content_reads_back() {
    let targets = set(&["邹友", "友友", "ZGBin"]);
    let text = queue_file_content(&targets);
    assert_eq!(text, "ZGBin\n友友\n邹友\n");
    assert_eq!(names(&parse_watch_queue_content(&text).unwrap()), names(&targets));
    assert_eq!(queue_file_content(&set(&[])), "");
}

#[test]
fn merge_queue_targets_reports_growth() {
    let (merged, grew) = merge_queue_targets(set(&["a"]), &set(&["a", "b"]));
    assert!(grew);
    assert_eq!(names(&merged), vec!["a".to_string(), "b".to_string()]);
    let (_, grew) = merge_queue_targets(set(&["a", "b"]), &set(&["b"]));
    assert!(!grew);
}

#[test]
fn parse_queue_targets_trims_and_rejects_empty() {
    let s = parse_queue_targets(vec![" 甲 ".to_string(), "乙".to_string()]).unwrap();
    assert_eq!(names(&s), vec!["乙".to_string(), "甲".to_string()]);
    assert_eq!(
        parse_queue_targets(vec!["ok".to_string(), " ".to_string()]).unwrap_err(),
        DesktopError::EmptyTarget
    );
}

#[test]
fn watch_all_window_uses_minimum_overlap() {
    assert_eq!(watch_all_window_seconds(10), 60);
    assert_eq!(watch_all_window_seconds(30), 90);
}

#[test]
fn watch_all_window_saturates() {
    assert_eq!(watch_all_window_seconds(u64::MAX), u64::MAX);
    assert_eq!(watch_all_window_seconds(0), 60);
}

#[test]
fn desktop_new_message_start_uses_sequence_overlap() {
    let previous = vec!["1".to_string(), "2".to_string(), "3".to_string()];
    let current = vec!["2".to_string(), "3".to_string(), "3".to_string()];

    assert_eq!(
        desktop_new_message_start(Some(&previous), &current, None),
        2
    );
}

#[test]
fn desktop_new_message_start_without_overlap_keeps_latest_only() {
    let previous = vec!["1".to_string(), "2".to_string()];
    let current = vec!["3".to_string(), "4".to_string()];

    assert_eq!(
        desktop_new_message_start(Some(&previous), &current, None),
        1
    );
    assert_eq!(desktop_new_message_start(None, &current, None), 1);
}

#[test]
fn desktop_new_message_start_uses_initial_preview_before_snapshot() {
    let current = vec![
        "旧消息".to_string(),
        "启动时预览".to_string(),
        "你在监控吗".to_string(),
        "你好".to_string(),
    ];

    assert_eq!(
        desktop_new_message_start(None, &current, Some("启动时预览")),
        2
    );
}

#[test]
fn desktop_new_message_start_edge_cases() {
    let empty: Vec<String> = vec![];
    assert_eq!(desktop_new_message_start(None, &empty, Some("x")), 0);
    let current = vec!["a".to_string(), "b".to_string()];
    assert_eq!(desktop_new_message_start(Some(&vec![]), &current, Some("a")), 1);
    assert_eq!(desktop_new_message_start(None, &current, Some("zzz")), 1);
}

#[test]
fn desktop_full_sweep_runs_about_once_per_minute() {
    assert_eq!(desktop_full_sweep_interval(5), 12);
    assert_eq!(desktop_full_sweep_interval(60), 1);
    assert!(!should_force_desktop_sweep(0, 5));
    assert!(!should_force_desktop_sweep(11, 5));
    assert!(should_force_desktop_sweep(12, 5));
}

#[test]
fn desktop_full_sweep_rounds_up() {
    assert_eq!(desktop_full_sweep_interval(7), 9);
    assert_eq!(desktop_full_sweep_interval(0), 60);
    assert_eq!(desktop_full_sweep_interval(1000), 1);
}

#[test]
fn desktop_recent_limit_scales_with_queue_size() {
    let owned: Vec<String> = (0..16).map(|index| format!("用户{index}")).collect();
    let refs: Vec<&str> = owned.iter().map(|x| x.as_str()).collect();
    let targets = set(&refs);

    assert_eq!(desktop_recent_chat_limit(Some(&targets)), 16);
    assert_eq!(desktop_recent_chat_limit(None), DESKTOP_RECENT_CHAT_LIMIT);
}

#[test]
fn select_missing_queue_targets_rotates_from_cursor() {
    let queue = set(&["ZGBin", "友友", "邹友"]);
    let visible = set(&["友友"]);

    let missing = select_missing_queue_targets(Some(&queue), &visible, 1);

    assert_eq!(missing, vec!["邹友".to_string(), "ZGBin".to_string()]);
}

#[test]
fn missing_cursor_wraps_without_overflow() {
    assert_eq!(next_missing_cursor(1, 1, 2), 0);
    assert_eq!(next_missing_cursor(usize::MAX, usize::MAX, 7), ((usize::MAX as u128 * 2) % 7) as usize);
    let queue = set(&["a"]);
    assert!(select_missing_queue_targets(Some(&queue), &set(&["a"]), 3).is_empty());
    assert!(select_missing_queue_targets(None, &set(&[]), 3).is_empty());
}

#[test]
fn filter_chats_by_queue_matches_id_or_name() {
    let chats = vec![
        make_chat("chat1", "张三", None, None),
        make_chat("chat2", "李四", None, None),
    ];
    let queue = set(&["chat1", "李四"]);

    let filtered = filter_chats_by_queue(chats, Some(&queue));

    assert_eq!(filtered.len(), 2);
}

#[test]
fn filter_chats_by_queue_drops_unwatched() {
    let chats = vec![make_chat("chat1", "张三", None, None), make_chat("chat3", "王五", None, None)];
    let filtered = filter_chats_by_queue(chats, Some(&set(&["张三"])));
    assert_eq!(filtered.len(), 1);
    assert_eq!(filtered[0].chat_id, "chat1");
}

#[test]
fn baseline_marks_existing_messages_without_emitting() {
    let mut state = WatchState::default();
    let mut pending_output_keys = StringSet::new();
    let message = text_message("2026-03-17 09:40:00", "历史消息");

    let key = take_unseen_message_key(
        &mut state,
        "chat1",
        &message,
        true,
        &mut pending_output_keys,
    );

    assert!(key.is_none());
    assert!(state.seen.contains("chat1|2026-03-17 09:40:00|lisi|text|历史消息"));
    assert!(pending_output_keys.is_empty());
}

#[test]
fn new_message_emits_once_after_state_ack() {
    let mut state = WatchState::default();
    let mut pending_output_keys = StringSet::new();
    let message = text_message("2026-03-17 09:41:00", "新消息");

    let key = take_unseen_message_key(
        &mut state,
        "chat1",
        &message,
        false,
        &mut pending_output_keys,
    )
    .unwrap();
    assert_eq!(key, "chat1|2026-03-17 09:41:00|lisi|text|新消息");
    assert!(take_unseen_message_key(
        &mut state,
        "chat1",
        &message,
        false,
        &mut pending_output_keys,
    )
    .is_none());

    state.seen.insert(key);
    pending_output_keys = StringSet::new();
    assert!(take_unseen_message_key(
        &mut state,
        "chat1",
        &message,
        false,
        &mut pending_output_keys,
    )
    .is_none());
}

#[test]
fn chat_signature_skips_unchanged_chat_when_available() {
    let chat = make_chat("chat1", "张三", Some("2026-03-17 09:41:00"), Some(2));
    let mut signatures = StringMap::new();

    assert!(chat_needs_fetch(&chat, &signatures));
    update_chat_signature(&mut signatures, &chat);
    assert!(!chat_needs_fetch(&chat, &signatures));

    let changed = make_chat("chat1", "张三", Some("2026-03-17 09:42:00"), Some(3));
    assert!(chat_needs_fetch(&changed, &signatures));
}

#[test]
fn chat_without_signature_fields_is_always_fetched() {
    let chat = make_chat("chat1", "张三", None, None);
    let signatures = StringMap::new();

    assert!(chat_needs_fetch(&chat, &signatures));
}

#[test]
fn chat_losing_its_signature_is_forgotten() {
    let mut signatures: StringMap<ChatPollSignature> = StringMap::new();
    update_chat_signature(&mut signatures, &make_chat("c", "n", None, Some(1)));
    assert!(signatures.contains_key("c"));
    update_chat_signature(&mut signatures, &make_chat("c", "n", None, None));
    assert!(!signatures.contains_key("c"));
}

#[test]
fn watch_all_target_uses_chat_name() {
    let meta = watch_target_meta_from_chat(&make_chat("chat1", "张三", None, None));

    assert_eq!(meta.target, "张三");
    assert_eq!(meta.chat_id, "chat1");
    assert_eq!(meta.chat_name, "张三");
}

#[test]
fn watch_all_target_falls_back_to_chat_id() {
    let meta = watch_target_meta_from_chat(&make_chat("chat1", "", None, None));
    assert_eq!(meta.target, "chat1");
}

#[test]
fn watch_all_state_file_defaults_under_save_dir() {
    let dir = Path::new("/tmp/wecom/media");

    assert_eq!(
        Path::new(&watch_all_state_file("/tmp/wecom/media")),
        dir.join(".watch_all.json")
    );
}

#[test]
fn watch_all_files_join_like_paths() {
    for dir in ["/tmp/x/", "", "rel", "/"] {
        assert_eq!(
            Path::new(&watch_all_queue_file(dir)),
            Path::new(dir).join(".watch_all_queue.txt")
        );
    }
}

#[test]
fn preview_keys_match_message_keys() {
    let chat_id = desktop_chat_id("邹友");
    assert_eq!(chat_id, "desktop:邹友");
    let preview = desktop_preview_to_value("你好");
    assert_eq!(
        message_dedup_key(&chat_id, &preview),
        desktop_preview_dedup_key(&chat_id, "你好")
    );
    assert_eq!(desktop_preview_dedup_key("c", "t"), "c|desktop|preview|t");

    let mut state = WatchState::default();
    let read = obj(vec![("text", obj(vec![("content", JsonValue::Str("你好".to_string()))]))]);
    assert!(!desktop_message_was_emitted_from_preview(&chat_id, &read, &state));
    state.seen.insert(desktop_preview_dedup_key(&chat_id, "你好"));
    assert!(desktop_message_was_emitted_from_preview(&chat_id, &read, &state));
}

#[test]
fn queue_refresh_forgets_removed_targets() {
    let mut runtime = WatchAllRuntime::new(WatchState::default(), Some(set(&["甲", "乙"])));
    runtime.desktop_signatures.insert(desktop_chat_id("甲"), "sig".to_string());
    runtime.desktop_snapshots.insert(desktop_chat_id("甲"), vec!["x".to_string()]);
    runtime.desktop_initial_previews.insert(desktop_chat_id("乙"), None);

    assert!(!runtime.apply_queue_targets(set(&["甲", "乙"]), 1));
    assert!(runtime.apply_queue_targets(set(&["乙", "丙"]), 1));
    assert!(!runtime.desktop_signatures.contains_key(&desktop_chat_id("甲")));
    assert!(!runtime.desktop_snapshots.contains_key(&desktop_chat_id("甲")));
    assert!(runtime.desktop_initial_previews.contains_key(&desktop_chat_id("乙")));
    assert_eq!(names(&runtime.desktop_pending_baseline_targets), vec!["丙".to_string()]);
    assert_eq!(names(runtime.queue_targets.as_ref().unwrap()), vec!["丙".to_string(), "乙".to_string()]);

    remove_desktop_target_state("乙", &mut runtime);
    assert!(!runtime.desktop_initial_previews.contains_key(&desktop_chat_id("乙")));
}

#[test]
fn baseline_of_pending_targets_records_signature_and_preview() {
    let mut pending = set(&["甲"]);
    let mut sigs: StringMap<String> = StringMap::new();
    let mut previews: StringMap<Option<String>> = StringMap::new();
    let targets = vec![
        DesktopRecentChatTarget { name: "乙".to_string(), signature: "s2".to_string(), preview: None },
        DesktopRecentChatTarget {
            name: "甲".to_string(),
            signature: "s1".to_string(),
            preview: Some("hi".to_string()),
        },
    ];
    baseline_pending_desktop_targets(&targets, &mut pending, &mut sigs, &mut previews);
    assert!(pending.is_empty());
    assert_eq!(sigs.get(&desktop_chat_id("甲")).map(|s| s.as_str()), Some("s1"));
    assert!(!sigs.contains_key(&desktop_chat_id("乙")));
    assert_eq!(previews.get(&desktop_chat_id("甲")).cloned(), Some(Some("hi".to_string())));
}

#[test]
fn output_buffer_fills_up() {
    let mut b = PollOutputBuffer::new(1);
    assert!(!b.is_full());
    b.outputs.push(wecom_cli::watch_all::PendingOutput { key: "k".to_string(), output: JsonValue::Null });
    assert!(b.is_full());
    assert!(PollOutputBuffer::new(0).is_full());
}

fn recent(name: &str) -> DesktopRecentChatTarget {
    DesktopRecentChatTarget {
        name: name.to_string(),
        signature: format!("sig-{name}"),
        preview: None,
    }
}

#[test]
fn filter_desktop_targets_by_queue_keeps_watched_names_in_order() {
    let targets = vec![recent("Carol"), recent("Alice"), recent("Bob")];
    let queue = set(&["Alice", "Carol"]);
    let kept = filter_desktop_targets_by_queue(targets.clone(), Some(&queue));
    assert_eq!(kept, vec![recent("Carol"), recent("Alice")]);
    assert_eq!(filter_desktop_targets_by_queue(targets.clone(), None), targets);
}

#[test]
fn queue_name_beginning_with_bracket_does_not_read_back() {
    let targets = set(&["[team]"]);
    let content = queue_file_content(&targets);
    assert_eq!(content, "[team]\n");
    assert!(matches!(parse_watch_queue_content(&content), Err(WatchError::QueueJson(_))));
}

#[test]
fn changed_conversation_is_printed_from_its_preview() {
    let mut runtime = WatchAllRuntime::new(WatchState::default(), None);
    let mut buffer = PollOutputBuffer::new(10);
    let target = DesktopRecentChatTarget {
        name: "Alice".to_string(),
        signature: "s1".to_string(),
        preview: Some("hi".to_string()),
    };
    assert!(begin_desktop_target_poll(&mut runtime, &mut buffer, &target, true));
    assert!(buffer.outputs.is_empty());

    assert!(!begin_desktop_target_poll(&mut runtime, &mut buffer, &target, false));
    assert_eq!(buffer.outputs.len(), 1);
    assert_eq!(buffer.outputs[0].key, "desktop:Alice|desktop|preview|hi");
    assert_eq!(runtime.desktop_signatures.get("desktop:Alice"), Some(&"s1".to_string()));

    assert!(begin_desktop_target_poll(&mut runtime, &mut buffer, &target, false));
    assert_eq!(buffer.outputs.len(), 1);
}
