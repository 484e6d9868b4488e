use wecom_cli::collections::StringSet;
use wecom_cli::desktop::{
    AddExternalFriendResult, DesktopError, ExternalFriendStatus, FriendMessagePayload,
    FriendMessageType, SendFriendMessageResult, SendFriendStatus,
};
use wecom_cli::doc_upload::DocError;
use wecom_cli::helpers::{
    add_external_friend_request, add_external_friend_result_json, handle_auth_show,
    normalize_optional_text, raw_params_text, register_chat_id, resolve_from_contacts,
    send_friend_message_request, send_friend_message_result_json, text_payload,
    validate_watch_friend_targets, AddExternalFriendArgs, AddExternalFriendHelper, BotInfo,
    HelperKind, HelperRegistry, ShowArgs, SmartsheetAddRecordsAutoFileArgs, WatchAllHelper,
    WatchFriendArgs,
};
use wecom_cli::json::{JsonNumber, JsonValue};
use wecom_cli::watch_friend::{ContactUser, WatchError};

#[test]
fn registry_finds_helpers_by_category_and_name() {
    let r = HelperRegistry::new();
    assert_eq!(r.get("msg", "+watch_all"), Some(HelperKind::WatchAll));
    assert_eq!(r.get("contact", "+watch_all"), None);
    assert_eq!(
        r.list_in_category("msg"),
        vec![HelperKind::SendFriendMessage, HelperKind::WatchAll, HelperKind::WatchFriend]
    );
    assert_eq!(AddExternalFriendHelper.kind().category(), "contact");
    assert_eq!(WatchAllHelper.kind().name(), "+watch_all");
}

#[test]
fn add_external_friend_request_normalizes_fields() {
    let args = AddExternalFriendArgs {
        phone: "+86 138-0000-0000".to_string(),
        remark: Some("  客户  ".to_string()),
        greeting: Some("   ".to_string()),
    };
    let req = add_external_friend_request(&args).unwrap();
    assert_eq!(req.phone, "+8613800000000");
    assert_eq!(req.remark.as_deref(), Some("客户"));
    assert!(req.greeting.is_none());
    assert_eq!(normalize_optional_text(None), None);
    let bad = AddExternalFriendArgs { phone: "abc".to_string(), remark: None, greeting: None };
    assert_eq!(
        add_external_friend_request(&bad).unwrap_err(),
        DesktopError::InvalidPhoneCharacters
    );
}

#[test]
fn results_print_as_json_lines() {
    let r = AddExternalFriendResult {
        phone: "138".to_string(),
        remark: None,
        greeting: Some("hi".to_string()),
        status: ExternalFriendStatus::AlreadyExists,
        detail: None,
    };
    assert_eq!(
        add_external_friend_result_json(&r),
        r#"{"phone":"138","greeting":"hi","status":"already_exists"}"#
    );
    let s = SendFriendMessageResult {
        to: "张三".to_string(),
        message_type: FriendMessageType::File,
        file_path: Some("/a.pdf".to_string()),
        status: SendFriendStatus::Sent,
        detail: Some("ok".to_string()),
    };
    assert_eq!(
        send_friend_message_result_json(&s),
        r#"{"to":"张三","message_type":"file","file_path":"/a.pdf","status":"sent","detail":"ok"}"#
    );
}

#[test]
fn send_request_checks_payload_then_target() {
    assert_eq!(text_payload("   ").unwrap_err(), DesktopError::EmptyText);
    let p = text_payload("hi").unwrap();
    let req = send_friend_message_request("  张三 ", p).unwrap();
    assert_eq!(req.to, "张三");
    assert_eq!(req.payload, FriendMessagePayload::Text("hi".to_string()));
    assert_eq!(
        send_friend_message_request(" ", FriendMessagePayload::Text("x".to_string())).unwrap_err(),
        DesktopError::EmptyTarget
    );
}

#[test]
fn smartsheet_params_come_from_json_then_argument() {
    let a = SmartsheetAddRecordsAutoFileArgs {
        args: Some("{}".to_string()),
        json: Some("[]".to_string()),
        schema: false,
    };
    assert_eq!(raw_params_text(&a).unwrap(), "[]");
    let b = SmartsheetAddRecordsAutoFileArgs { args: Some("{}".to_string()), json: None, schema: false };
    assert_eq!(raw_params_text(&b).unwrap(), "{}");
    let c = SmartsheetAddRecordsAutoFileArgs { args: None, json: None, schema: true };
    assert_eq!(raw_params_text(&c).unwrap_err(), DocError::MissingJsonArgs);
}

#[test]
fn watch_friend_targets_are_checked() {
    assert_eq!(WatchFriendArgs::default().interval_sec, 5);
    let one = vec![" 张三 ".to_string()];
    assert_eq!(validate_watch_friend_targets(&one, true).unwrap(), vec!["张三".to_string()]);
    assert_eq!(
        validate_watch_friend_targets(&vec![], false).unwrap_err(),
        WatchError::NoTarget
    );
    let two = vec!["a".to_string(), "b".to_string()];
    assert_eq!(
        validate_watch_friend_targets(&two, true).unwrap_err(),
        WatchError::StateFileWithManyTargets
    );
    let dup = vec!["a".to_string(), " a".to_string()];
    assert_eq!(
        validate_watch_friend_targets(&dup, false).unwrap_err().message(),
        "--to 重复: a"
    );
}

#[test]
fn contacts_resolve_or_report_not_found() {
    let users = vec![ContactUser {
        userid: "u1".to_string(),
        name: "邹友".to_string(),
        alias: "".to_string(),
    }];
    assert_eq!(resolve_from_contacts("邹友", &users).unwrap().chat_id, "u1");
    assert_eq!(
        resolve_from_contacts("张三", &users).unwrap_err().message(),
        "未在最近 7 天会话列表或通讯录中找到好友: 张三"
    );
    let mut seen = StringSet::new();
    assert!(register_chat_id(&mut seen, "c1", "a").is_ok());
    assert_eq!(
        register_chat_id(&mut seen, "c1", "b").unwrap_err().message(),
        "多个 --to 解析到同一 chat_id: c1 target=\"b\""
    );
}

#[test]
fn auth_show_prints_state_or_bot() {
    let bot = BotInfo {
        id: JsonValue::Str("bot1".to_string()),
        create_time: JsonValue::Number(JsonNumber::PosInt(1700000000)),
    };
    assert_eq!(handle_auth_show(&ShowArgs { auth_status: true }, Some(&bot)), "authorized");
    assert_eq!(handle_auth_show(&ShowArgs { auth_status: true }, None), "unauthorized");
    assert_eq!(handle_auth_show(&ShowArgs { auth_status: false }, None), "unauthorized");
    assert_eq!(
        handle_auth_show(&ShowArgs { auth_status: false }, Some(&bot)),
        "{\n  \"id\": \"bot1\",\n  \"create_time\": 1700000000\n}"
    );
}
