use wecom_cli::desktop::{
    add_external_friend_result, applescript_string_literal, check_file_usage,
    looks_like_recent_chat_time, make_recent_chat_target, parse_desktop_chat_messages,
    parse_recent_chat_target_summaries, parse_recent_chat_targets, read_recent_chats_script,
    recent_chat_preview_from_row, send_friend_message_result, send_payload_script,
    split_script_status, validate_phone, validate_target, validate_text_message,
    AddExternalFriendRequest, DesktopChatMessage, DesktopError, ExternalFriendStatus, FileUsage,
    FriendMessagePayload, FriendMessageType, SendFriendMessageRequest, SendFriendStatus,
};

#[test]
fn validate_phone_accepts_digits_and_country_code() {
    assert_eq!(validate_phone("13800000000").unwrap(), "13800000000");
    assert_eq!(
        validate_phone("+86 138-0000-0000").unwrap(),
        "+8613800000000"
    );
}

#[test]
fn validate_phone_rejects_invalid_input() {
    assert!(validate_phone("").is_err());
    assert!(validate_phone("abc").is_err());
    assert!(validate_phone("++8613800000000").is_err());
    assert!(validate_phone("1234").is_err());
}

#[test]
fn validate_phone_reports_each_rule() {
    assert_eq!(validate_phone(" ( ) ").unwrap_err(), DesktopError::EmptyPhone);
    assert_eq!(validate_phone("86+138000").unwrap_err(), DesktopError::InvalidPhoneCharacters);
    assert_eq!(validate_phone("+").unwrap_err(), DesktopError::InvalidPhoneCharacters);
    assert_eq!(validate_phone("1".repeat(21).as_str()).unwrap_err(), DesktopError::InvalidPhoneLength);
    assert_eq!(validate_phone("(010) 12345").unwrap(), "01012345");
    assert_eq!(validate_phone("+12345").unwrap(), "+12345");
}

#[test]
fn validate_text_message_checks_empty_and_length() {
    assert!(validate_text_message("hello").is_ok());
    assert!(validate_text_message("   ").is_err());
    assert!(validate_text_message(&"a".repeat(2049)).is_err());
}

#[test]
fn validate_text_message_counts_utf8_bytes_and_keeps_text() {
    assert_eq!(validate_text_message(" hi ").unwrap(), " hi ");
    // 683 three-byte characters are 2049 bytes.
    assert_eq!(
        validate_text_message(&"你".repeat(683)).unwrap_err(),
        DesktopError::TextTooLong
    );
    assert!(validate_text_message(&"你".repeat(682)).is_ok());
    assert_eq!(validate_text_message("\t\n").unwrap_err(), DesktopError::EmptyText);
}

#[test]
fn validate_target_trims_and_limits_bytes() {
    assert_eq!(validate_target("  张三-客户 ").unwrap(), "张三-客户");
    assert_eq!(validate_target("   ").unwrap_err(), DesktopError::EmptyTarget);
    assert_eq!(validate_target(&"a".repeat(257)).unwrap_err(), DesktopError::TargetTooLong);
    assert!(validate_target(&"a".repeat(256)).is_ok());
}

#[test]
fn parse_desktop_chat_messages_reads_tab_delimited_rows() {
    let parsed = parse_desktop_chat_messages("1\t341, 42\t20, 22\t你好\\n呀\n").unwrap();
    assert_eq!(
        parsed,
        vec![DesktopChatMessage {
            key: "1|你好\n呀".to_string(),
            text: "你好\n呀".to_string(),
        }]
    );
}

#[test]
fn parse_desktop_chat_messages_rejects_short_rows() {
    let err = parse_desktop_chat_messages("1\ta\tb\tc\n\n2\tonly\n").unwrap_err();
    assert_eq!(err, DesktopError::MalformedMessageLine("2\tonly".to_string()));
    assert!(err.message().contains("2\tonly"));
    let parsed = parse_desktop_chat_messages("  \n3\tp\ts\tx\ty\r\n").unwrap();
    assert_eq!(parsed[0].text, "x\ty");
    assert_eq!(parsed[0].key, "3|x\ty");
}

#[test]
fn parse_recent_chat_targets_skips_empty_and_duplicate_lines() {
    let parsed = parse_recent_chat_targets(
        "159\t143\t邹友\n191\t144\t@微信\n159\t164\t消息预览\n159\t207\t友友\n191\t208\t@微信\n159\t271\t行业资讯\n",
        12,
    )
    .unwrap();

    assert_eq!(parsed, vec!["邹友".to_string(), "友友".to_string()]);
}

#[test]
fn parse_recent_chat_target_summaries_includes_preview_signature() {
    let parsed = parse_recent_chat_target_summaries(
        "159\t143\t邹友\n191\t144\t@微信\n159\t164\t新消息\n159\t207\t友友\n191\t208\t@微信\n159\t228\t旧消息\n",
        12,
    )
    .unwrap();

    assert_eq!(parsed.len(), 2);
    assert_eq!(parsed[0].name, "邹友");
    assert_eq!(parsed[0].preview.as_deref(), Some("新消息"));
    assert!(parsed[0].signature.contains("新消息"));
    assert!(!parsed[0].signature.contains("rank:"));
    assert_eq!(parsed[1].name, "友友");
    assert_eq!(parsed[1].preview.as_deref(), Some("旧消息"));
    assert!(parsed[1].signature.contains("旧消息"));
}

#[test]
fn parse_recent_chat_target_summaries_reads_fast_text_sequence() {
    let parsed = parse_recent_chat_target_summaries(
        "1\t邹友\n2\t可以快点吗\n3\t12分钟前\n4\t@微信\n5\t友友\n6\t哈哈哈\n7\t13分钟前\n8\t@微信\n",
        12,
    )
    .unwrap();

    assert_eq!(parsed.len(), 2);
    assert_eq!(parsed[0].name, "邹友");
    assert_eq!(parsed[0].preview.as_deref(), Some("可以快点吗"));
    assert_eq!(parsed[1].name, "友友");
    assert_eq!(parsed[1].preview.as_deref(), Some("哈哈哈"));
}

#[test]
fn parse_recent_chat_target_summaries_keeps_time_like_preview() {
    let parsed = parse_recent_chat_target_summaries(
        "1\t邹友\n2\t14:08:03\n3\t刚刚\n4\t@微信\n5\t友友\n6\t5/7\n7\t@微信\n",
        12,
    )
    .unwrap();

    assert_eq!(parsed.len(), 2);
    assert_eq!(parsed[0].name, "邹友");
    assert_eq!(parsed[0].preview.as_deref(), Some("14:08:03"));
    assert_eq!(parsed[1].name, "友友");
    assert_eq!(parsed[1].preview, None);
}

#[test]
fn parse_recent_chat_target_signature_ignores_row_order() {
    let first = parse_recent_chat_target_summaries(
        "159\t143\t邹友\n191\t144\t@微信\n159\t164\t新消息\n159\t207\t友友\n191\t208\t@微信\n159\t228\t旧消息\n",
        12,
    )
    .unwrap();
    let second = parse_recent_chat_target_summaries(
        "159\t143\t友友\n191\t144\t@微信\n159\t164\t旧消息\n159\t207\t邹友\n191\t208\t@微信\n159\t228\t新消息\n",
        12,
    )
    .unwrap();

    let first_zou = first.iter().find(|target| target.name == "邹友").unwrap();
    let second_zou = second.iter().find(|target| target.name == "邹友").unwrap();

    assert_eq!(first_zou.signature, second_zou.signature);
}

#[test]
fn parse_recent_chat_targets_respects_limit_and_duplicates() {
    let raw = "1\tA\n2\t@微信\n3\tA\n4\tx\n5\t@微信\n6\tB\n7\t@微信\n8\tC\n9\t@微信\n";
    assert_eq!(
        parse_recent_chat_targets(raw, 2).unwrap(),
        vec!["A".to_string(), "B".to_string()]
    );
    assert_eq!(parse_recent_chat_targets(raw, 0).unwrap(), Vec::<String>::new());
    assert_eq!(parse_recent_chat_targets("", 5).unwrap(), Vec::<String>::new());
}

#[test]
fn parse_recent_chat_positional_picks_leftmost_name_and_topmost_preview() {
    // The name is the leftmost text near the tag; far-right texts are ignored.
    let raw = "300\t100\t右侧\n120\t98\t张三\n191\t100\t@微信\n150\t120\t第二行\n140\t115\t预览\n191\t200\t@微信\n100\t195\t李四\n";
    let parsed = parse_recent_chat_target_summaries(raw, 12).unwrap();
    assert_eq!(parsed.len(), 2);
    assert_eq!(parsed[0].name, "张三");
    assert_eq!(parsed[0].preview.as_deref(), Some("预览"));
    assert_eq!(parsed[0].signature, "张三|预览");
    assert_eq!(parsed[1].name, "李四");
    assert_eq!(parsed[1].preview, None);
    assert_eq!(parsed[1].signature, "李四|");
}

#[test]
fn split_script_status_parses_detail() {
    assert_eq!(
        split_script_status("pending|等待确认"),
        ("pending".to_string(), Some("等待确认".to_string()))
    );
    assert_eq!(split_script_status("sent"), ("sent".to_string(), None));
    assert_eq!(split_script_status(" failed |  "), ("failed".to_string(), None));
    assert_eq!(
        split_script_status("a|b|c"),
        ("a".to_string(), Some("b|c".to_string()))
    );
}

#[test]
fn recent_chat_time_words_are_recognized() {
    assert!(looks_like_recent_chat_time("12分钟前"));
    assert!(looks_like_recent_chat_time("昨天"));
    assert!(looks_like_recent_chat_time("14:08"));
    assert!(looks_like_recent_chat_time("5/7"));
    assert!(!looks_like_recent_chat_time("刚刚"));
    assert!(!looks_like_recent_chat_time("你好"));
}

#[test]
fn preview_from_row_rules() {
    let row = |v: &[&str]| v.iter().map(|s| s.to_string()).collect::<Vec<_>>();
    assert_eq!(recent_chat_preview_from_row(&row(&["a", "12:00", "x"])), Some("12:00".to_string()));
    assert_eq!(recent_chat_preview_from_row(&row(&["a", "12:00"])), None);
    assert_eq!(recent_chat_preview_from_row(&row(&["a", "hello"])), Some("hello".to_string()));
    assert_eq!(recent_chat_preview_from_row(&row(&["a"])), None);
}

#[test]
fn recent_chat_target_signature_joins_name_and_preview() {
    let t = make_recent_chat_target("邹友".to_string(), Some("新消息".to_string()));
    assert_eq!(t.signature, "邹友|新消息");
    let t = make_recent_chat_target("邹友".to_string(), None);
    assert_eq!(t.signature, "邹友|");
}

#[test]
fn applescript_literal_escapes_quotes_and_backslashes() {
    assert_eq!(applescript_string_literal("a\"b\\c"), "\"a\\\"b\\\\c\"");
    assert_eq!(applescript_string_literal(""), "\"\"");
}

#[test]
fn payload_scripts_paste_and_send() {
    let text = send_payload_script(&FriendMessagePayload::Text("hi".to_string()));
    assert_eq!(
        text,
        "pasteText(\"hi\")\ndelay 0.4\ntell application \"System Events\" to key code 36"
    );
    let file = send_payload_script(&FriendMessagePayload::File("/tmp/a.pdf".to_string()));
    assert_eq!(file, "pasteFile(\"/tmp/a.pdf\")\ndelay 1.2\nsendActiveMessage(processName)");
}

#[test]
fn recent_chats_script_asks_for_at_least_one_row() {
    let script = read_recent_chats_script("企业微信", 0);
    assert!(script.contains("set maxTargets to 1\n"));
    let script = read_recent_chats_script("企业微信", 120);
    assert!(script.contains("set maxTargets to 120\n"));
    assert!(script.contains("set processName to \"企业微信\"\n"));
}

#[test]
fn add_friend_result_maps_known_and_unknown_status() {
    let request = AddExternalFriendRequest {
        phone: "13800000000".to_string(),
        remark: Some("张三".to_string()),
        greeting: None,
    };
    let r = add_external_friend_result(&request, "pending|等待确认\n");
    assert_eq!(r.status, ExternalFriendStatus::Pending);
    assert_eq!(r.detail.as_deref(), Some("等待确认"));
    assert_eq!(r.remark.as_deref(), Some("张三"));
    let r = add_external_friend_result(&request, "weird");
    assert_eq!(r.status, ExternalFriendStatus::Failed);
    assert_eq!(r.detail.as_deref(), Some("无法识别桌面自动化结果: weird"));
}

#[test]
fn send_result_keeps_payload_metadata() {
    let request = SendFriendMessageRequest {
        to: "张三".to_string(),
        payload: FriendMessagePayload::Image("/tmp/a.png".to_string()),
    };
    let r = send_friend_message_result(&request, "sent|ok");
    assert_eq!(r.status, SendFriendStatus::Sent);
    assert_eq!(r.message_type, FriendMessageType::Image);
    assert_eq!(r.file_path.as_deref(), Some("/tmp/a.png"));
    let r = send_friend_message_result(&request, "");
    assert_eq!(r.status, SendFriendStatus::Failed);
    assert_eq!(r.detail.as_deref(), Some("无法识别桌面自动化结果: "));
}

#[test]
fn file_usage_rejects_non_image_extension_for_images() {
    assert!(matches!(
        check_file_usage("/tmp/report.pdf", true, FileUsage::Image),
        Err(DesktopError::NotAnImage { .. })
    ));
    assert_eq!(
        check_file_usage("/tmp/report.pdf", true, FileUsage::File).unwrap(),
        "/tmp/report.pdf"
    );
    assert_eq!(check_file_usage("/tmp/a.png", true, FileUsage::Image).unwrap(), "/tmp/a.png");
    assert_eq!(
        check_file_usage("/tmp", false, FileUsage::File).unwrap_err(),
        DesktopError::NotAFile("/tmp".to_string())
    );
}

#[test]
fn validate_existing_image_rejects_non_image_extension() {
    let path = "/tmp/wecom-cli-test/report.pdf";
    assert!(check_file_usage(path, true, FileUsage::Image).is_err());
    assert!(check_file_usage(path, true, FileUsage::File).is_ok());
}
