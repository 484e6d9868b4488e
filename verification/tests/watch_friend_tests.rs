use wecom_cli::desktop::DesktopChatMessage;
use wecom_cli::json::{JsonNumber, JsonValue};
use wecom_cli::watch_friend::{
    build_output_message, civil_from_days, contact_user_to_chat_summary, desktop_messages_to_values,
    format_wecom_time, message_dedup_key, message_sort_key, output_media_request,
    parse_chat_list_page, parse_message_page, parse_userlist, recent_seven_day_window,
    seconds_window_at, select_chat_from_recent, select_contact_user, sort_messages_by_send_time,
    ChatSummary, ContactUser, WatchError, WatchTargetMeta,
};

fn s(v: &str) -> JsonValue {
    JsonValue::Str(v.to_string())
}

fn obj(pairs: Vec<(&str, JsonValue)>) -> JsonValue {
    let mut entries: Vec<(String, JsonValue)> =
        pairs.into_iter().map(|(k, v)| (k.to_string(), v)).collect();
    entries.sort_by(|a, b| a.0.cmp(&b.0));
    JsonValue::Object(entries)
}

fn to_serde(v: &JsonValue) -> serde_json::Value {
    match v {
        JsonValue::Null => serde_json::Value::Null,
        JsonValue::Bool(b) => serde_json::Value::Bool(*b),
        JsonValue::Number(JsonNumber::PosInt(n)) => serde_json::Value::from(*n),
        JsonValue::Number(JsonNumber::NegInt(n)) => serde_json::Value::from(*n),
        JsonValue::Number(JsonNumber::Float(t)) => serde_json::from_str(t).unwrap(),
        JsonValue::Str(t) => serde_json::Value::String(t.clone()),
        JsonValue::Array(items) => serde_json::Value::Array(items.iter().map(to_serde).collect()),
        JsonValue::Object(entries) => {
            let mut m = serde_json::Map::new();
            for (k, v) in entries {
                m.insert(k.clone(), to_serde(v));
            }
            serde_json::Value::Object(m)
        }
    }
}

fn chat(id: &str, name: &str) -> ChatSummary {
    ChatSummary {
        chat_id: id.to_string(),
        chat_name: name.to_string(),
        last_msg_time: None,
        msg_count: None,
    }
}

fn user(userid: &str, name: &str, alias: &str) -> ContactUser {
    ContactUser {
        userid: userid.to_string(),
        name: name.to_string(),
        alias: alias.to_string(),
    }
}

#[test]
fn select_chat_prefers_unique_exact_match() {
    let chats = vec![chat("u1", "张三"), chat("u2", "张三丰")];
    let selected = select_chat_from_recent("张三", &chats).unwrap().unwrap();
    assert_eq!(selected.chat_id, "u1");
}

#[test]
fn select_chat_rejects_ambiguous_fuzzy_matches() {
    let chats = vec![chat("u1", "张三"), chat("u2", "张三丰")];
    let err = select_chat_from_recent("张", &chats).unwrap_err().message();
    assert!(err.contains("candidates"));
}

#[test]
fn select_chat_from_recent_returns_none_for_missing_chat() {
    let chats = vec![chat("u1", "张三")];
    let selected = select_chat_from_recent("邹友", &chats).unwrap();
    assert!(selected.is_none());
}

#[test]
fn select_contact_user_matches_name_and_alias() {
    let users = vec![user("u1", "张三", ""), user("u2", "邹友", "客户-邹友")];

    let by_name = select_contact_user("邹友", &users).unwrap().unwrap();
    assert_eq!(by_name.userid, "u2");

    let by_alias = select_contact_user("客户-邹友", &users).unwrap().unwrap();
    assert_eq!(by_alias.userid, "u2");
}

#[test]
fn select_contact_user_rejects_ambiguous_fuzzy_matches() {
    let users = vec![user("u1", "邹友", ""), user("u2", "邹友明", "")];
    let err = select_contact_user("邹", &users).unwrap_err().message();
    assert!(err.contains("candidates"));
}

#[test]
fn contact_user_to_chat_summary_uses_userid_as_chat_id() {
    let chat = contact_user_to_chat_summary(user("u2", "邹友", ""));
    assert_eq!(chat.chat_id, "u2");
    assert_eq!(chat.chat_name, "邹友");
}

#[test]
fn contact_user_to_chat_summary_prefers_alias_then_userid() {
    let c = contact_user_to_chat_summary(user("u3", "名字", "别名"));
    assert_eq!(c.chat_name, "别名");
    let c = contact_user_to_chat_summary(user("u4", "", ""));
    assert_eq!(c.chat_name, "u4");
    assert!(c.last_msg_time.is_none() && c.msg_count.is_none());
}

#[test]
fn ambiguous_exact_matches_list_candidates_as_json() {
    let chats = vec![
        ChatSummary {
            chat_id: "u1".to_string(),
            chat_name: "同名".to_string(),
            last_msg_time: Some("2026-03-17 09:40:00".to_string()),
            msg_count: Some(3),
        },
        chat("u2", "同名"),
    ];
    let err = select_chat_from_recent("同名", &chats).unwrap_err();
    let expected: serde_json::Value = serde_json::from_str(
        r#"{
        "error": "找到多个精确匹配会话",
        "candidates": [
            {"chat_id": "u1", "chat_name": "同名", "last_msg_time": "2026-03-17 09:40:00", "msg_count": 3},
            {"chat_id": "u2", "chat_name": "同名", "last_msg_time": null, "msg_count": null}
        ]
    }"#,
    )
    .unwrap();
    assert_eq!(err.message(), serde_json::to_string(&expected).unwrap());
}

#[test]
fn ambiguous_members_list_candidates_as_json() {
    let users = vec![user("u1", "邹友", ""), user("u2", "邹友明", "")];
    let err = select_contact_user("邹", &users).unwrap_err();
    let expected: serde_json::Value = serde_json::from_str(
        r#"{
        "error": "找到多个模糊匹配成员",
        "candidates": [
            {"userid": "u1", "name": "邹友", "alias": ""},
            {"userid": "u2", "name": "邹友明", "alias": ""}
        ]
    }"#,
    )
    .unwrap();
    assert_eq!(err.message(), serde_json::to_string(&expected).unwrap());
}

#[test]
fn exact_match_wins_over_fuzzy_matches() {
    let users = vec![user("张", "甲", ""), user("u2", "张三", ""), user("u3", "张四", "")];
    let u = select_contact_user("张", &users).unwrap().unwrap();
    assert_eq!(u.userid, "张");
}

#[test]
fn message_dedup_key_uses_media_id_for_file_messages() {
    let message = obj(vec![
        ("userid", s("lisi")),
        ("send_time", s("2026-03-17 09:40:00")),
        ("msgtype", s("file")),
        (
            "file",
            obj(vec![("media_id", s("MEDIAID_yyyyyy")), ("name", s("report.pdf"))]),
        ),
    ]);

    assert_eq!(
        message_dedup_key("chat1", &message),
        "chat1|2026-03-17 09:40:00|lisi|file|MEDIAID_yyyyyy"
    );
}

#[test]
fn message_dedup_key_uses_desktop_key_when_available() {
    let message = obj(vec![
        ("userid", s("desktop")),
        ("msgtype", s("text")),
        ("text", obj(vec![("content", s("你好"))])),
        ("desktop", obj(vec![("key", s("1|341, 42|20, 22"))])),
    ]);

    assert_eq!(
        message_dedup_key("chat1", &message),
        "chat1|desktop|1|341, 42|20, 22"
    );
}

#[test]
fn message_dedup_key_writes_other_types_as_compact_json() {
    let message = obj(vec![
        ("userid", s("lisi")),
        ("send_time", s("t")),
        ("msgtype", s("link")),
        ("link", obj(vec![("title", s("a\"b\\c\n\u{1}")), ("n", JsonValue::Number(JsonNumber::NegInt(-5)))])),
    ]);
    let json = serde_json::to_string(&to_serde(&message)).unwrap();
    assert_eq!(message.to_json_string(), json);
    assert_eq!(message_dedup_key("c", &message), format!("c|t|lisi|link|{json}"));
}

#[test]
fn message_dedup_key_defaults_missing_fields() {
    let message = obj(vec![("text", obj(vec![("content", s("x"))]))]);
    let json = serde_json::to_string(&to_serde(&message)).unwrap();
    assert_eq!(message_dedup_key("c", &message), format!("c|||unknown|{json}"));
}

#[test]
fn desktop_messages_to_values_preserves_text_and_key() {
    let values = desktop_messages_to_values(vec![DesktopChatMessage {
        key: "1|341, 42|20, 22".to_string(),
        text: "你好".to_string(),
    }]);

    assert_eq!(
        values[0].get2("text", "content").and_then(|v| v.as_str()).map(|x| x.as_str()),
        Some("你好")
    );
    assert_eq!(
        values[0].get2("desktop", "key").and_then(|v| v.as_str()).map(|x| x.as_str()),
        Some("1|341, 42|20, 22")
    );
    assert_eq!(
        values[0].to_json_string(),
        r#"{"userid":"desktop","msgtype":"text","text":{"content":"你好"},"desktop":{"key":"1|341, 42|20, 22","source":"macos_accessibility"}}"#
    );
}

#[test]
fn build_output_message_adds_target_metadata() {
    let meta = WatchTargetMeta {
        target: "张三-客户".to_string(),
        chat_id: "zhangsan".to_string(),
        chat_name: "张三".to_string(),
    };
    let message = obj(vec![
        ("userid", s("lisi")),
        ("send_time", s("2026-03-17 09:40:00")),
        ("msgtype", s("text")),
        ("text", obj(vec![("content", s("你好"))])),
    ]);
    assert!(output_media_request(&message).is_none());
    let output = build_output_message(&meta, message, None);

    let get = |k: &str| output.get(k).and_then(|v| v.as_str()).map(|x| x.clone());
    assert_eq!(get("target").as_deref(), Some("张三-客户"));
    assert_eq!(get("chat_id").as_deref(), Some("zhangsan"));
    assert_eq!(get("chat_name").as_deref(), Some("张三"));
    assert_eq!(get("text").as_deref(), Some("你好"));
}

#[test]
fn build_output_message_copies_saved_media_fields() {
    let meta = WatchTargetMeta {
        target: "t".to_string(),
        chat_id: "c".to_string(),
        chat_name: "n".to_string(),
    };
    let message = obj(vec![
        ("msgtype", s("image")),
        ("image", obj(vec![("media_id", s("M1")), ("name", s("a.png"))])),
    ]);
    assert_eq!(output_media_request(&message).as_deref(), Some("M1"));
    let item = obj(vec![
        ("local_path", s("/tmp/a.png")),
        ("size", JsonValue::Number(JsonNumber::PosInt(5))),
        ("content_type", s("image/png")),
        ("name", s("saved.png")),
    ]);
    let output = build_output_message(&meta, message, Some(&item));
    assert_eq!(
        output.to_json_string(),
        r#"{"chat_id":"c","target":"t","chat_name":"n","msgtype":"image","media_id":"M1","name":"saved.png","local_path":"/tmp/a.png","size":5,"content_type":"image/png"}"#
    );
}

#[test]
fn build_output_message_marks_voice_unsaved_and_keeps_raw_of_other_types() {
    let meta = WatchTargetMeta {
        target: "t".to_string(),
        chat_id: "c".to_string(),
        chat_name: "n".to_string(),
    };
    let voice = obj(vec![("msgtype", s("voice")), ("voice", obj(vec![("media_id", s("V"))]))]);
    assert!(output_media_request(&voice).is_none());
    let out = build_output_message(&meta, voice, None);
    assert_eq!(
        out.to_json_string(),
        r#"{"chat_id":"c","target":"t","chat_name":"n","msgtype":"voice","media_id":"V","saved":false}"#
    );
    let other = obj(vec![("userid", s("u"))]);
    let out = build_output_message(&meta, other, None);
    assert_eq!(
        out.to_json_string(),
        r#"{"chat_id":"c","target":"t","chat_name":"n","userid":"u","msgtype":"unknown","raw":{"userid":"u"}}"#
    );
}

#[test]
fn recent_window_stays_within_seven_days() {
    let (begin, end) = recent_seven_day_window();
    assert!(begin < end);
    assert_eq!(begin.len(), "2026-03-17 09:40:00".len());
    assert_eq!(end.len(), "2026-03-17 09:40:00".len());
}

#[test]
fn seven_day_window_at_a_known_instant() {
    let (begin, end) = seconds_window_at(0, 7 * 24 * 60 * 60 - 1);
    assert_eq!(end, "1970-01-01 08:00:00");
    assert_eq!(begin, "1969-12-25 08:00:01");
}

#[test]
fn format_wecom_time_uses_beijing_offset_seconds() {
    assert_eq!(format_wecom_time(8 * 60 * 60), "1970-01-01 08:00:00");
    assert_eq!(format_wecom_time(0), "1970-01-01 00:00:00");
}

#[test]
fn format_wecom_time_handles_leap_days_and_negative_seconds() {
    assert_eq!(format_wecom_time(951_782_400), "2000-02-29 00:00:00");
    assert_eq!(format_wecom_time(1_773_740_400), "2026-03-17 09:40:00");
    assert_eq!(format_wecom_time(-1), "1969-12-31 23:59:59");
    assert_eq!(civil_from_days(0), (1970, 1, 1));
    assert_eq!(civil_from_days(-719_468), (0, 3, 1));
    assert_eq!(format_wecom_time(-62_167_219_200), "0000-01-02 00:00:00");
}

#[test]
fn message_sort_orders_by_send_time_and_keeps_ties() {
    let m = |t: &str, id: &str| obj(vec![("send_time", s(t)), ("userid", s(id))]);
    let messages = vec![m("2", "a"), m("1", "b"), m("2", "c"), obj(vec![("userid", s("d"))])];
    let sorted = sort_messages_by_send_time(&messages);
    let ids: Vec<String> = sorted
        .iter()
        .map(|v| v.get("userid").unwrap().as_str().unwrap().clone())
        .collect();
    assert_eq!(ids, vec!["d", "b", "a", "c"]);
    assert_eq!(message_sort_key(&sorted[0]), "");
}

#[test]
fn chat_list_page_keeps_chats_with_ids_and_reads_cursor() {
    let res = obj(vec![
        (
            "chats",
            JsonValue::Array(vec![
                obj(vec![("chat_id", s("c1")), ("chat_name", s("甲")), ("msg_count", JsonValue::Number(JsonNumber::PosInt(2)))]),
                obj(vec![("chat_name", s("无id"))]),
                obj(vec![("chat_id", s("c2")), ("last_msg_time", JsonValue::Null)]),
            ]),
        ),
        ("next_cursor", s("CUR")),
        ("has_more", JsonValue::Bool(true)),
    ]);
    let page = parse_chat_list_page(&res).unwrap();
    assert_eq!(page.chats.len(), 2);
    assert_eq!(page.chats[0].msg_count, Some(2));
    assert_eq!(page.chats[1].chat_name, "");
    assert_eq!(page.next_request().as_deref(), Some("CUR"));

    let last = obj(vec![("chats", JsonValue::Array(vec![])), ("next_cursor", s(""))]);
    assert!(parse_chat_list_page(&last).unwrap().next_request().is_none());
}

#[test]
fn chat_list_page_errors() {
    let missing = obj(vec![]);
    assert_eq!(
        parse_chat_list_page(&missing).unwrap_err(),
        WatchError::MissingArray("get_msg_chat_list 响应缺少 chats 数组".to_string())
    );
    let bad = obj(vec![("chats", JsonValue::Array(vec![obj(vec![("chat_id", JsonValue::Number(JsonNumber::PosInt(1)))])]))]);
    assert_eq!(
        parse_chat_list_page(&bad).unwrap_err().message(),
        "解析会话列表失败"
    );
    let negative = obj(vec![("chats", JsonValue::Array(vec![obj(vec![("msg_count", JsonValue::Number(JsonNumber::NegInt(-1)))])]))]);
    assert!(parse_chat_list_page(&negative).is_err());
}

#[test]
fn userlist_and_message_pages() {
    let res = obj(vec![(
        "userlist",
        JsonValue::Array(vec![
            obj(vec![("userid", s("u1")), ("name", s("张三"))]),
            obj(vec![("userid", s(""))]),
        ]),
    )]);
    let users = parse_userlist(&res).unwrap();
    assert_eq!(users.len(), 1);
    assert_eq!(users[0].alias, "");
    assert!(parse_userlist(&obj(vec![])).is_err());

    let page = obj(vec![
        ("messages", JsonValue::Array(vec![obj(vec![("msgtype", s("text"))])])),
        ("next_cursor", s("N")),
    ]);
    let p = parse_message_page(&page).unwrap();
    assert_eq!(p.messages.len(), 1);
    assert_eq!(p.next_cursor.as_deref(), Some("N"));
    assert_eq!(
        parse_message_page(&obj(vec![])).unwrap_err().message(),
        "get_message 响应缺少 messages 数组"
    );
}

#[test]
fn civil_from_days_steps_through_leap_days_and_year_ends() {
    assert_eq!(civil_from_days(19_782), (2024, 2, 29));
    assert_eq!(civil_from_days(19_783), (2024, 3, 1));
    assert_eq!(civil_from_days(11_016), (2000, 2, 29));
    assert_eq!(civil_from_days(11_017), (2000, 3, 1));
    assert_eq!(civil_from_days(-25_509), (1900, 2, 28));
    assert_eq!(civil_from_days(-25_508), (1900, 3, 1));
    assert_eq!(civil_from_days(10_956), (1999, 12, 31));
    assert_eq!(civil_from_days(10_957), (2000, 1, 1));
    assert_eq!(civil_from_days(-719_469), (0, 2, 29));
}

#[test]
fn civil_from_days_misdates_days_before_february_29_of_year_zero() {
    // The era arithmetic steps outside its era below this point: the day
    // before 0000-02-29 comes out as 0000-02-29 again, not 0000-02-28.
    assert_eq!(civil_from_days(-719_470), (0, 2, 29));
    assert_eq!(civil_from_days(-719_469), (0, 2, 29));
}

#[test]
fn build_output_message_follows_the_documented_field_order() {
    let meta = WatchTargetMeta {
        target: "张三-客户".to_string(),
        chat_id: "zhangsan".to_string(),
        chat_name: "张三".to_string(),
    };
    let message = obj(vec![
        ("send_time", s("2026-03-17 09:35:00")),
        ("userid", s("lisi")),
        ("msgtype", s("image")),
        ("image", obj(vec![("media_id", s("MEDIAID_xxxxxx")), ("name", s("screenshot.png"))])),
    ]);
    let item = obj(vec![
        ("media_id", s("MEDIAID_xxxxxx")),
        ("name", s("screenshot.png")),
        ("type", s("image")),
        ("local_path", s("/tmp/wecom/media/screenshot.png")),
        ("size", JsonValue::Number(JsonNumber::PosInt(102400))),
        ("content_type", s("image/png")),
    ]);
    let out = build_output_message(&meta, message, Some(&item));
    assert_eq!(
        out.to_json_string(),
        r#"{"chat_id":"zhangsan","target":"张三-客户","chat_name":"张三","send_time":"2026-03-17 09:35:00","userid":"lisi","msgtype":"image","media_id":"MEDIAID_xxxxxx","name":"screenshot.png","local_path":"/tmp/wecom/media/screenshot.png","size":102400,"content_type":"image/png"}"#
    );

    // A saved name for a message without one comes after the saved file's
    // fields.
    let nameless = obj(vec![("msgtype", s("file")), ("file", obj(vec![("media_id", s("F"))]))]);
    let item = obj(vec![("name", s("f.bin")), ("local_path", s("/tmp/f.bin"))]);
    let out = build_output_message(&meta, nameless, Some(&item));
    assert_eq!(
        out.to_json_string(),
        r#"{"chat_id":"zhangsan","target":"张三-客户","chat_name":"张三","msgtype":"file","media_id":"F","local_path":"/tmp/f.bin","name":"f.bin"}"#
    );
}
