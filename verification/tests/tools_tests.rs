use wecom_cli::collections::{StringMap, StringSet};
use wecom_cli::doc_upload::{
    collect_record_upload_paths, encode_upload, extract_doc_identifier, file_upload_args,
    file_upload_result, image_upload_args, image_upload_result,
    replace_attachment_value_schema, replace_image_value_schema, replace_record_upload_results,
    take_records, with_records, DocError, DocIdentifier, FileUploadResult, ImageUploadResult,
    MAX_FILE_SIZE, MAX_IMAGE_SIZE,
};
use wecom_cli::json::{JsonNumber, JsonValue};
use wecom_cli::json_rpc::{
    check_api_response, check_business_response, check_tool_response, request_body_text,
    request_timeout_ms, tool_call_params, tool_call_timeout_ms, tool_response_text, JsonRpcError,
};
use wecom_cli::media::{
    decode_media, detect_mime, extension_for_mime, extract_mcp_text, make_file_name,
    media_payload, saved_media_item, saved_media_response, MediaError, INBOUND_MAX_BYTES,
};

fn from_serde(v: &serde_json::Value) -> JsonValue {
    match v {
        serde_json::Value::Null => JsonValue::Null,
        serde_json::Value::Bool(b) => JsonValue::Bool(*b),
        serde_json::Value::Number(n) => {
            if let Some(u) = n.as_u64() {
                JsonValue::Number(JsonNumber::PosInt(u))
            } else if let Some(i) = n.as_i64() {
                JsonValue::Number(JsonNumber::NegInt(i))
            } else {
                JsonValue::Number(JsonNumber::Float(n.to_string()))
            }
        }
        serde_json::Value::String(s) => JsonValue::Str(s.clone()),
        serde_json::Value::Array(items) => JsonValue::Array(items.iter().map(from_serde).collect()),
        serde_json::Value::Object(m) => {
            JsonValue::Object(m.iter().map(|(k, v)| (k.clone(), from_serde(v))).collect())
        }
    }
}

fn parse(text: &str) -> JsonValue {
    from_serde(&serde_json::from_str::<serde_json::Value>(text).unwrap())
}

fn reserialize(text: &str) -> String {
    serde_json::to_string(&serde_json::from_str::<serde_json::Value>(text).unwrap()).unwrap()
}

#[test]
fn compact_json_matches_serde_json() {
    for text in [
        r#"{"b":[1,-2,3.5,true,null],"a":{"x":"\u0001\"\\\n\t\r\b\f é"},"c":[],"d":{}}"#,
        r#"[]"#,
        r#""plain""#,
        r#"-9223372036854775808"#,
        r#"18446744073709551615"#,
    ] {
        assert_eq!(parse(text).to_json_string(), reserialize(text));
    }
}

#[test]
fn pretty_json_matches_serde_json() {
    for text in [
        r#"{"b":[1,{"z":[]},{}],"a":{"x":"y"}}"#,
        r#"[]"#,
        r#"{}"#,
        r#"[[1,2],[3]]"#,
    ] {
        let v: serde_json::Value = serde_json::from_str(text).unwrap();
        assert_eq!(parse(text).to_json_pretty(), serde_json::to_string_pretty(&v).unwrap());
    }
}

#[test]
fn extract_doc_identifier_prefers_docid_then_url() {
    assert_eq!(
        extract_doc_identifier(&parse(r#"{"docid":"D","url":"U"}"#)).unwrap(),
        DocIdentifier::DocId("D".to_string())
    );
    assert_eq!(
        extract_doc_identifier(&parse(r#"{"docid":"","url":"U"}"#)).unwrap(),
        DocIdentifier::Url("U".to_string())
    );
    let err = extract_doc_identifier(&parse(r#"{"docid":1}"#)).unwrap_err();
    assert_eq!(err, DocError::MissingDocIdentifier);
    assert!(err.message().contains("docid"));
}

#[test]
fn record_upload_paths_are_collected_once() {
    let records = vec![
        parse(r#"{"values":{"f1":[{"image_path":"/a.png"},{"file_path":"/b.pdf"}],"f2":"text"}}"#),
        parse(r#"{"values":{"f3":[{"image_path":"/a.png"},{"image_path":"/c.png"}]}}"#),
        parse(r#"{"values":[1]}"#),
    ];
    let (images, files) = collect_record_upload_paths(&records);
    assert_eq!(images.to_vec(), vec!["/a.png".to_string(), "/c.png".to_string()]);
    assert_eq!(files.to_vec(), vec!["/b.pdf".to_string()]);
}

#[test]
fn upload_results_replace_local_paths() {
    let mut images: StringMap<ImageUploadResult> = StringMap::new();
    images.insert(
        "/a.png".to_string(),
        ImageUploadResult { url: "https://u/a".to_string(), title: Some("a.png".to_string()) },
    );
    let mut files: StringMap<FileUploadResult> = StringMap::new();
    files.insert("/b.pdf".to_string(), FileUploadResult { fileid: "F1".to_string() });
    let records = vec![parse(
        r#"{"values":{"f1":[{"image_path":"/a.png","x":1},{"file_path":"/b.pdf"},{"image_path":"/missing"}],"f2":3}}"#,
    )];
    let out = replace_record_upload_results(records, &images, &files);
    assert_eq!(
        out[0].to_json_string(),
        reserialize(
            r#"{"values":{"f1":[{"x":1,"image_url":"https://u/a","title":"a.png"},{"file_id":"F1"},{"image_path":"/missing"}],"f2":3}}"#
        )
    );
}

#[test]
fn records_are_taken_and_put_back() {
    let params = parse(r#"{"docid":"D","records":[{"values":{}}]}"#);
    let records = take_records(&params).unwrap();
    assert_eq!(records.len(), 1);
    let back = with_records(params, vec![parse(r#"{"values":{"a":1}}"#)]);
    assert_eq!(back.to_json_string(), r#"{"docid":"D","records":[{"values":{"a":1}}]}"#);
    assert_eq!(take_records(&parse(r#"{"records":{}}"#)).unwrap_err(), DocError::MissingRecords);
}

#[test]
fn upload_requests_and_answers() {
    assert_eq!(encode_upload("/p", &b"hello".to_vec(), MAX_FILE_SIZE).unwrap(), "aGVsbG8=");
    assert_eq!(
        encode_upload("/p", &vec![0u8; 11], 10).unwrap_err(),
        DocError::FileTooLarge { path: "/p".to_string(), size: 11, max: 10 }
    );
    assert!(MAX_IMAGE_SIZE > MAX_FILE_SIZE);
    assert_eq!(
        image_upload_args("QQ==".to_string(), &DocIdentifier::Url("U".to_string())).to_json_string(),
        r#"{"base64_content":"QQ==","url":"U"}"#
    );
    assert_eq!(
        file_upload_args("/dir/report.pdf", "QQ==".to_string()).to_json_string(),
        r#"{"file_name":"report.pdf","file_base64_content":"QQ=="}"#
    );
    let ok = image_upload_result("/x/a.png", &parse(r#"{"url":"https://u"}"#)).unwrap();
    assert_eq!(ok.title.as_deref(), Some("a.png"));
    let err = image_upload_result("/x/a.png", &parse(r#"{"url":""}"#)).unwrap_err();
    assert_eq!(err.message(), "图片 /x/a.png 上传失败：返回结果中缺少 url");
    assert_eq!(file_upload_result("/f", &parse(r#"{"fileid":"F"}"#)).unwrap().fileid, "F");
    assert_eq!(
        file_upload_result("/f", &parse(r#"{}"#)).unwrap_err().message(),
        "文件 /f 上传失败：返回结果中缺少 fileid"
    );
    assert_eq!(DocError::MissingJsonArgs.message(), "请提供 JSON 格式的参数");
}

#[test]
fn schema_definitions_admit_local_paths() {
    let schema = parse(r#"{"name":"t","inputSchema":{"$defs":{"CellImageValue":{"old":1},"Other":{}},"type":"object"}}"#);
    let schema = replace_image_value_schema(schema);
    let schema = replace_attachment_value_schema(schema);
    let v: serde_json::Value = serde_json::from_str(&schema.to_json_string()).unwrap();
    assert_eq!(v["inputSchema"]["$defs"]["CellImageValue"]["required"][0], "image_path");
    assert_eq!(v["inputSchema"]["$defs"]["CellAttachmentValue"]["title"], "CellAttachmentValue");
    assert_eq!(v["inputSchema"]["$defs"]["Other"], serde_json::Value::Object(serde_json::Map::new()));
    let unchanged = parse(r#"{"inputSchema":{}}"#);
    assert_eq!(replace_image_value_schema(unchanged).to_json_string(), r#"{"inputSchema":{}}"#);
}

#[test]
fn extract_media_item_saves_to_custom_dir() {
    let business = r#"{"errcode":0,"errmsg":"ok","media_item":{"media_id":"MEDIAID_1","name":"hello.txt","type":"file","base64_data":"aGVsbG8="}}"#;
    let response = from_serde(&serde_json::Value::Object({
        let mut content = serde_json::Map::new();
        content.insert("type".to_string(), serde_json::Value::String("text".to_string()));
        content.insert("text".to_string(), serde_json::Value::String(business.to_string()));
        let mut result = serde_json::Map::new();
        result.insert(
            "content".to_string(),
            serde_json::Value::Array(vec![serde_json::Value::Object(content)]),
        );
        let mut top = serde_json::Map::new();
        top.insert("result".to_string(), serde_json::Value::Object(result));
        top
    }));

    let text = extract_mcp_text(&response).unwrap();
    let payload = media_payload(&parse(&text)).unwrap();
    let bytes = decode_media(&payload).unwrap();
    assert_eq!(bytes, b"hello");
    assert_eq!(detect_mime(payload.name.as_deref(), &bytes), "text/plain");

    let item = saved_media_item(&payload, None, "/tmp/dir/hello.txt", bytes.len(), "text/plain");
    assert_eq!(
        item.to_json_string(),
        r#"{"media_id":"MEDIAID_1","name":"hello.txt","type":"file","local_path":"/tmp/dir/hello.txt","size":5,"content_type":"text/plain"}"#
    );
    let replaced = saved_media_response(&item);
    let text = extract_mcp_text(&replaced).unwrap();
    assert_eq!(
        text,
        format!(r#"{{"errcode":0,"errmsg":"ok","media_item":{}}}"#, item.to_json_string())
    );
}

#[test]
fn media_payload_requires_success_and_data() {
    assert!(media_payload(&parse(r#"{"errcode":1,"media_item":{"base64_data":"QQ=="}}"#)).is_none());
    assert!(media_payload(&parse(r#"{"media_item":{"base64_data":"QQ=="}}"#)).is_none());
    assert!(media_payload(&parse(r#"{"errcode":0,"media_item":{}}"#)).is_none());
    let p = media_payload(&parse(r#"{"errcode":0,"media_item":{"base64_data":"!!"}}"#)).unwrap();
    assert_eq!(decode_media(&p).unwrap_err(), MediaError::Base64);
    assert_eq!(MediaError::Base64.message(), "base64解码失败");
    assert_eq!(
        MediaError::TooLarge(INBOUND_MAX_BYTES + 1).message(),
        "媒体文件过大: 20971521 字节 (最大 20971520 字节)"
    );
}

#[test]
fn mime_detection_falls_back_to_magic_bytes() {
    let png = vec![0x89, b'P', b'N', b'G', 0x0D, 0x0A, 0x1A, 0x0A, 0, 0, 0, 0];
    assert_eq!(detect_mime(Some("noext"), &png), "image/png");
    assert_eq!(detect_mime(None, &png), "image/png");
    assert_eq!(detect_mime(Some("a.unknownext"), &vec![1, 2, 3]), "application/octet-stream");
    assert_eq!(detect_mime(Some("a.jpg"), &vec![]), "image/jpeg");
    assert_eq!(extension_for_mime("image/png"), "png");
    assert_eq!(extension_for_mime("no/such-type"), "bin");
}

#[test]
fn make_file_name_adds_index_and_extension() {
    assert_eq!(make_file_name("a", None, ""), "a");
    assert_eq!(make_file_name("a", None, "txt"), "a.txt");
    assert_eq!(make_file_name("a", Some(3), ""), "a.3");
    assert_eq!(make_file_name("a", Some(42), "txt"), "a.42.txt");
}

#[test]
fn mcp_text_takes_first_text_item() {
    let res = parse(r#"{"result":{"content":[{"type":"image","text":"x"},{"type":"text","text":1},{"type":"text","text":"ok"}]}}"#);
    assert_eq!(extract_mcp_text(&res).as_deref(), Some("ok"));
    assert!(extract_mcp_text(&parse(r#"{"result":{}}"#)).is_none());
}

#[test]
fn tool_calls_check_answers() {
    assert_eq!(tool_call_timeout_ms("get_msg_media"), Some(120000));
    assert_eq!(tool_call_timeout_ms("get_message"), None);
    assert_eq!(request_timeout_ms(None), 30000);
    assert_eq!(request_timeout_ms(Some(120000)), 120000);
    assert_eq!(request_timeout_ms(Some(-1)), u64::MAX);
    assert_eq!(
        tool_call_params("m", parse(r#"{"a":1}"#)).to_json_string(),
        r#"{"name":"m","arguments":{"a":1}}"#
    );
    assert_eq!(
        request_body_text("id1", "tools/call", None),
        r#"{"jsonrpc":"2.0","id":"id1","method":"tools/call","params":null}"#
    );

    let err = check_api_response(parse(r#"{"error":{"code":-32600}}"#)).unwrap_err();
    assert_eq!(err.message(), r#"接口错误 (code=-32600)：{"error":{"code":-32600}}"#);
    assert!(check_api_response(parse(r#"{"error":{"code":0}}"#)).is_ok());

    assert!(matches!(
        check_tool_response(parse(r#"{"x":1}"#)),
        Err(JsonRpcError::MalformedResponse(_))
    ));
    let err = check_tool_response(parse(r#"{"result":{"isError":true}}"#)).unwrap_err();
    assert_eq!(err.message(), r#"请求失败：{"result":{"isError":true}}"#);
    assert!(check_tool_response(parse(r#"{"result":{"isError":false}}"#)).is_ok());

    let ok = parse(r#"{"result":{"content":[{"type":"text","text":"{\"errcode\":0}"}]}}"#);
    assert_eq!(tool_response_text(&ok).unwrap(), r#"{"errcode":0}"#);
    let two = parse(r#"{"result":{"content":[{"type":"text","text":"a"},{"type":"text","text":"b"}]}}"#);
    assert!(tool_response_text(&two).unwrap_err().message().starts_with("响应格式异常："));

    let err = check_business_response(parse(r#"{"errcode":40001,"errmsg":"bad"}"#)).unwrap_err();
    assert_eq!(err.message(), r#"业务错误 (errcode=40001)：{"errcode":40001,"errmsg":"bad"}"#);
    assert!(check_business_response(parse(r#"{"errcode":0}"#)).is_ok());
    assert!(check_business_response(parse(r#"{"errcode":"x"}"#)).is_ok());
}

#[test]
fn string_set_helpers_behave() {
    let mut s = StringSet::new();
    assert!(s.insert("b".to_string()));
    assert!(!s.insert("b".to_string()));
    assert!(s.insert("a".to_string()));
    assert_eq!(s.to_vec(), vec!["a".to_string(), "b".to_string()]);
    assert!(s.remove("a"));
    assert!(!s.contains("a"));
}
