//! The JSON-RPC calls to the WeCom tool endpoint: the request body, the
//! parameters of a tool call, and the checks of the answers that turn
//! them into values or errors.
use vstd::prelude::*;

use crate::json::{
    entries_view, jview, json_text, lemma_entries_view, view_get, view_i64, view_path, JsonValue,
    JsonView,
};
use crate::text::{append_str, copy_string, decimal, push_decimal, str_eq, string_from};
use crate::watch_friend::str_get;

verus! {

/// Why a tool call failed.
#[derive(Debug)]
pub enum JsonRpcError {
    /// The call failed (no result, or a result flagged as an error).
    RpcError(JsonValue),
    /// The endpoint answered with a non-zero `error.code`.
    ApiError { code: i64, payload: JsonValue },
    /// The tool answered with a non-zero `errcode`.
    BusinessError { errcode: i64, payload: JsonValue },
    /// The answer does not have the expected shape.
    MalformedResponse(JsonValue),
}

/// `n` in decimal, with a minus sign when negative.
pub open spec fn signed_decimal(n: int) -> Seq<char> {
    if n < 0 {
        seq!['-'] + decimal((-n) as nat)
    } else {
        decimal(n as nat)
    }
}

/// The message of an error, the JSON written compactly.
pub open spec fn rpc_error_text(e: JsonRpcError) -> Seq<char> {
    match e {
        JsonRpcError::RpcError(r) => "请求失败："@ + json_text(jview(r)),
        JsonRpcError::ApiError { code, payload } => "接口错误 (code="@ + signed_decimal(code as int)
            + ")："@ + json_text(jview(payload)),
        JsonRpcError::BusinessError { errcode, payload } => "业务错误 (errcode="@ + signed_decimal(
            errcode as int,
        ) + ")："@ + json_text(jview(payload)),
        JsonRpcError::MalformedResponse(r) => "响应格式异常："@ + json_text(jview(r)),
    }
}

fn push_signed(v: &mut Vec<char>, n: i64)
    ensures
        final(v)@ == old(v)@ + signed_decimal(n as int),
{
    if n < 0 {
        v.push('-');
        let a: u64 = (-(n as i128)) as u64;
        push_decimal(v, a);
        assert(v@ =~= old(v)@ + signed_decimal(n as int));
    } else {
        push_decimal(v, n as u64);
    }
}

impl JsonRpcError {
    /// The message shown to the user.
    pub fn message(&self) -> (m: String)
        ensures
            m@ == rpc_error_text(*self),
    {
        let mut v: Vec<char> = Vec::new();
        match self {
            JsonRpcError::RpcError(r) => {
                append_str(&mut v, "请求失败：");
                crate::json::push_json(&mut v, r);
            },
            JsonRpcError::ApiError { code, payload } => {
                append_str(&mut v, "接口错误 (code=");
                push_signed(&mut v, *code);
                append_str(&mut v, ")：");
                crate::json::push_json(&mut v, payload);
            },
            JsonRpcError::BusinessError { errcode, payload } => {
                append_str(&mut v, "业务错误 (errcode=");
                push_signed(&mut v, *errcode);
                append_str(&mut v, ")：");
                crate::json::push_json(&mut v, payload);
            },
            JsonRpcError::MalformedResponse(r) => {
                append_str(&mut v, "响应格式异常：");
                crate::json::push_json(&mut v, r);
            },
        }
        assert(v@ =~= rpc_error_text(*self));
        string_from(&v)
    }
}

/// How long a call may take, in milliseconds, when the caller names no
/// limit: thirty seconds.
pub const DEFAULT_TIMEOUT_MS: i32 = 30_000;

/// The limit of a call to a tool: two minutes to fetch a media file, the
/// default otherwise.
pub fn tool_call_timeout_ms(method: &str) -> (t: Option<i32>)
    ensures
        t == if method@ == "get_msg_media"@ {
            Some(120_000i32)
        } else {
            None::<i32>
        },
{
    if str_eq(method, "get_msg_media") {
        Some(120_000)
    } else {
        None
    }
}

/// The limit of a request in milliseconds: the given one, else the
/// default (a negative limit read as an unsigned count, as a cast does).
pub fn request_timeout_ms(timeout_ms: Option<i32>) -> (ms: u64)
    ensures
        ms as int == match timeout_ms {
            Some(t) => if t >= 0 {
                t as int
            } else {
                t + 0x1_0000_0000_0000_0000
            },
            None => DEFAULT_TIMEOUT_MS as int,
        },
{
    let t: i32 = match timeout_ms {
        Some(t) => t,
        None => DEFAULT_TIMEOUT_MS,
    };
    if t >= 0 {
        t as u64
    } else {
        let m: u64 = (-(t as i64)) as u64;
        u64::MAX - m + 1
    }
}

/// The parameters of a `tools/call` request: the tool and its arguments.
pub fn tool_call_params(method: &str, args: JsonValue) -> (v: JsonValue)
    ensures
        jview(v) == JsonView::Object(
            seq![("name"@, JsonView::Str(method@)), ("arguments"@, jview(args))],
        ),
{
    let ghost av = jview(args);
    let mut es: Vec<(String, JsonValue)> = Vec::new();
    es.push(("name".to_owned(), JsonValue::Str(method.to_owned())));
    es.push(("arguments".to_owned(), args));
    proof {
        lemma_entries_view(es@, 2);
        assert(entries_view(es@, 2) =~= seq![
            ("name"@, JsonView::Str(method@)),
            ("arguments"@, av),
        ]);
    }
    JsonValue::Object(es)
}

/// The body of a JSON-RPC 2.0 request, its fields in the order the
/// request declares them.
pub open spec fn request_json(id: Seq<char>, method: Seq<char>, params: Option<JsonView>) -> JsonView {
    JsonView::Object(
        seq![
            ("jsonrpc"@, JsonView::Str("2.0"@)),
            ("id"@, JsonView::Str(id)),
            ("method"@, JsonView::Str(method)),
            ("params"@, match params {
                Some(p) => p,
                None => JsonView::Null,
            }),
        ],
    )
}

/// The text of a JSON-RPC 2.0 request body.
pub fn request_body_text(id: &str, method: &str, params: Option<JsonValue>) -> (s: String)
    ensures
        s@ == json_text(request_json(id@, method@, crate::watch_friend::opt_jview(params))),
{
    let ghost pv = crate::watch_friend::opt_jview(params);
    let p = match params {
        Some(p) => p,
        None => JsonValue::Null,
    };
    let mut es: Vec<(String, JsonValue)> = Vec::new();
    es.push(("jsonrpc".to_owned(), JsonValue::Str("2.0".to_owned())));
    es.push(("id".to_owned(), JsonValue::Str(id.to_owned())));
    es.push(("method".to_owned(), JsonValue::Str(method.to_owned())));
    es.push(("params".to_owned(), p));
    proof {
        lemma_entries_view(es@, 4);
        assert(entries_view(es@, 4) =~= request_json(id@, method@, pv)->Object_0);
    }
    JsonValue::Object(es).to_json_string()
}

/// Checks the answer of the endpoint: a non-zero integer `error.code`
/// is an API error.
pub fn check_api_response(res: JsonValue) -> (r: Result<JsonValue, JsonRpcError>)
    ensures
        match view_i64(view_path(jview(res), seq!["error"@, "code"@])) {
            Some(c) if c != 0 => r is Err && r->Err_0 is ApiError && r->Err_0->code == c && jview(
                r->Err_0->ApiError_payload,
            ) == jview(res),
            _ => r is Ok && jview(r->Ok_0) == jview(res),
        },
{
    let code = match res.get2("error", "code") {
        Some(c) => c.as_i64(),
        None => None,
    };
    match code {
        Some(c) => {
            if c != 0 {
                return Err(JsonRpcError::ApiError { code: c, payload: res });
            }
        },
        None => {},
    }
    Ok(res)
}

/// Checks the answer of a `tools/call`: without a `result` it is
/// malformed; a result whose `isError` is `true` is a failed call.
pub fn check_tool_response(response: JsonValue) -> (r: Result<JsonValue, JsonRpcError>)
    ensures
        match view_get(jview(response), "result"@) {
            None => r is Err && r->Err_0 is MalformedResponse && jview(r->Err_0->MalformedResponse_0)
                == jview(response),
            Some(result) => if view_get(result, "isError"@) == Some(JsonView::Bool(true)) {
                r is Err && r->Err_0 is RpcError && jview(r->Err_0->RpcError_0) == jview(response)
            } else {
                r is Ok && jview(r->Ok_0) == jview(response)
            },
        },
{
    let failed = match response.get("result") {
        None => {
            return Err(JsonRpcError::MalformedResponse(response));
        },
        Some(result) => match result.get("isError") {
            Some(JsonValue::Bool(b)) => *b,
            _ => false,
        },
    };
    if failed {
        return Err(JsonRpcError::RpcError(response));
    }
    Ok(response)
}

/// The text that a tool's answer carries: `result.content` must be an
/// array of exactly one item, of type `text`, whose text is a string.
pub open spec fn tool_text(res: JsonView) -> Option<Seq<char>> {
    match view_path(res, seq!["result"@, "content"@]) {
        Some(JsonView::Array(items)) => if items.len() == 1 && str_get(items[0], "type"@) == Some(
            "text"@,
        ) {
            str_get(items[0], "text"@)
        } else {
            None
        },
        _ => None,
    }
}

/// The text of a tool's answer; an answer of another shape is malformed.
pub fn tool_response_text(res: &JsonValue) -> (r: Result<String, JsonRpcError>)
    ensures
        match tool_text(jview(*res)) {
            Some(t) => r is Ok && r->Ok_0@ == t,
            None => r is Err && r->Err_0 is MalformedResponse && jview(
                r->Err_0->MalformedResponse_0,
            ) == jview(*res),
        },
{
    match res.get2("result", "content") {
        Some(JsonValue::Array(items)) => {
            proof {
                crate::json::lemma_items_view(items@, items@.len() as int);
            }
            if items.len() == 1 {
                let item = &items[0];
                let is_text = match item.get("type") {
                    Some(JsonValue::Str(t)) => str_eq(t.as_str(), "text"),
                    _ => false,
                };
                if is_text {
                    match item.get("text") {
                        Some(JsonValue::Str(t)) => {
                            return Ok(copy_string(t));
                        },
                        _ => {},
                    }
                }
            }
        },
        _ => {},
    }
    Err(JsonRpcError::MalformedResponse(res.deep_copy()))
}

/// Checks a tool's business answer: a non-zero integer `errcode` is a
/// business error.
pub fn check_business_response(parsed: JsonValue) -> (r: Result<JsonValue, JsonRpcError>)
    ensures
        match view_i64(view_get(jview(parsed), "errcode"@)) {
            Some(c) if c != 0 => r is Err && r->Err_0 is BusinessError && r->Err_0->errcode == c
                && jview(r->Err_0->BusinessError_payload) == jview(parsed),
            _ => r is Ok && jview(r->Ok_0) == jview(parsed),
        },
{
    let code = match parsed.get("errcode") {
        Some(c) => c.as_i64(),
        None => None,
    };
    match code {
        Some(c) => {
            if c != 0 {
                return Err(JsonRpcError::BusinessError { errcode: c, payload: parsed });
            }
        },
        None => {},
    }
    Ok(parsed)
}

} // verus!
