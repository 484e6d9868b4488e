//! The WeCom desktop client helpers: validation of what is sent to the
//! client, the AppleScript programs that drive it, and the parsers for
//! what those programs print back.
use vstd::prelude::*;

use crate::text::{
    all_digits, append_chars, append_str, chars_contain, chars_eq, chars_is_blank, chars_of,
    contains_seq, copy_string, count_char, count_char_in, find_char, find_char_from, is_blank,
    is_digit, lemma_find_char, lemma_views_push, lines, parse_i64, parse_i64_chars, split_lines,
    splitn, splitn_chars, str_eq, string_from, subvec, trim, trim_chars, unescape_newlines,
    unescape_newlines_chars, utf8_len, utf8_len_of, views, decimal, push_decimal,
};

verus! {

/// Outcome of an "add external contact" run.
#[derive(Debug, Clone, Copy, PartialEq, Eq, Structural)]
pub enum ExternalFriendStatus {
    Added,
    Pending,
    AlreadyExists,
    Failed,
}

/// Outcome of a "send message to friend" run.
#[derive(Debug, Clone, Copy, PartialEq, Eq, Structural)]
pub enum SendFriendStatus {
    Sent,
    Failed,
}

/// Kind of message sent to a friend.
#[derive(Debug, Clone, Copy, PartialEq, Eq, Structural)]
pub enum FriendMessageType {
    Text,
    Image,
    File,
}

/// What a local file is sent as.
#[derive(Debug, Clone, Copy, PartialEq, Eq, Structural)]
pub enum FileUsage {
    Image,
    File,
}

/// Request to add an external contact by phone number.
#[derive(Debug, Clone, PartialEq, Eq)]
pub struct AddExternalFriendRequest {
    pub phone: String,
    pub remark: Option<String>,
    pub greeting: Option<String>,
}

/// Result of adding an external contact.
#[derive(Debug, Clone, PartialEq, Eq)]
pub struct AddExternalFriendResult {
    pub phone: String,
    pub remark: Option<String>,
    pub greeting: Option<String>,
    pub status: ExternalFriendStatus,
    pub detail: Option<String>,
}

/// What is sent to a friend: a text, or the path of an image or a file.
#[derive(Debug, Clone, PartialEq, Eq)]
pub enum FriendMessagePayload {
    Text(String),
    Image(String),
    File(String),
}

/// Request to send a message to a friend.
#[derive(Debug, Clone, PartialEq, Eq)]
pub struct SendFriendMessageRequest {
    pub to: String,
    pub payload: FriendMessagePayload,
}

/// Result of sending a message to a friend.
#[derive(Debug, Clone, PartialEq, Eq)]
pub struct SendFriendMessageResult {
    pub to: String,
    pub message_type: FriendMessageType,
    pub file_path: Option<String>,
    pub status: SendFriendStatus,
    pub detail: Option<String>,
}

/// One text message read from the open conversation of the desktop client.
#[derive(Debug, Clone, PartialEq, Eq)]
pub struct DesktopChatMessage {
    pub key: String,
    pub text: String,
}

/// One conversation of the desktop client's recent-chat list.
#[derive(Debug, Clone, PartialEq, Eq)]
pub struct DesktopRecentChatTarget {
    pub name: String,
    pub signature: String,
    pub preview: Option<String>,
}

/// Why a desktop request was refused or its output could not be read.
#[derive(Debug, Clone, PartialEq, Eq)]
pub enum DesktopError {
    EmptyPhone,
    InvalidPhoneCharacters,
    InvalidPhoneLength,
    EmptyTarget,
    TargetTooLong,
    EmptyText,
    TextTooLong,
    NotAFile(String),
    NotAnImage { path: String, mime: String },
    MalformedMessageLine(String),
    UnsupportedPlatform,
    AutomationFailed(String),
}

/// The option's string content, if any.
pub open spec fn opt_view(o: Option<String>) -> Option<Seq<char>> {
    match o {
        Some(s) => Some(s@),
        None => None,
    }
}

/// A string made of `a` followed by `b`.
pub fn concat_str(a: &str, b: &str) -> (out: String)
    ensures
        out@ == a@ + b@,
{
    let mut v: Vec<char> = Vec::new();
    append_str(&mut v, a);
    append_str(&mut v, b);
    string_from(&v)
}

/// The message of a desktop error.
pub open spec fn desktop_error_text(e: DesktopError) -> Seq<char> {
    match e {
        DesktopError::EmptyPhone => "手机号不能为空"@,
        DesktopError::InvalidPhoneCharacters => "手机号只能包含数字，或以 + 开头表示国际区号"@,
        DesktopError::InvalidPhoneLength => "手机号长度必须为 5 到 20 位数字"@,
        DesktopError::EmptyTarget => "发送对象不能为空"@,
        DesktopError::TargetTooLong => "发送对象过长，最大 256 字节"@,
        DesktopError::EmptyText => "消息文本不能为空"@,
        DesktopError::TextTooLong => "消息文本过长，最大 2048 字节"@,
        DesktopError::NotAFile(path) => "路径不是文件: "@ + path@,
        DesktopError::NotAnImage { path, mime } => "图片路径的文件类型不是 image/*: "@ + path@
            + " ("@ + mime@ + ")"@,
        DesktopError::MalformedMessageLine(line) => "解析桌面消息失败: "@ + line@,
        DesktopError::UnsupportedPlatform => "当前平台不支持 macOS 企业微信桌面自动化，请在 macOS 上运行该命令"@,
        DesktopError::AutomationFailed(detail) => "企业微信桌面自动化失败: "@ + detail@,
    }
}

impl DesktopError {
    /// The message shown to the user.
    pub fn message(&self) -> (m: String)
        ensures
            m@ == desktop_error_text(*self),
    {
        match self {
            DesktopError::EmptyPhone => "手机号不能为空".to_owned(),
            DesktopError::InvalidPhoneCharacters => "手机号只能包含数字，或以 + 开头表示国际区号".to_owned(),
            DesktopError::InvalidPhoneLength => "手机号长度必须为 5 到 20 位数字".to_owned(),
            DesktopError::EmptyTarget => "发送对象不能为空".to_owned(),
            DesktopError::TargetTooLong => "发送对象过长，最大 256 字节".to_owned(),
            DesktopError::EmptyText => "消息文本不能为空".to_owned(),
            DesktopError::TextTooLong => "消息文本过长，最大 2048 字节".to_owned(),
            DesktopError::NotAFile(path) => concat_str("路径不是文件: ", path.as_str()),
            DesktopError::NotAnImage { path, mime } => {
                let head = concat_str("图片路径的文件类型不是 image/*: ", path.as_str());
                let mid = concat_str(head.as_str(), " (");
                let tail = concat_str(mime.as_str(), ")");
                let m = concat_str(mid.as_str(), tail.as_str());
                assert(m@ =~= desktop_error_text(*self));
                m
            },
            DesktopError::MalformedMessageLine(line) => concat_str("解析桌面消息失败: ", line.as_str()),
            DesktopError::UnsupportedPlatform => "当前平台不支持 macOS 企业微信桌面自动化，请在 macOS 上运行该命令".to_owned(),
            DesktopError::AutomationFailed(detail) => concat_str(
                "企业微信桌面自动化失败: ",
                detail.as_str(),
            ),
        }
    }
}

// ---------------------------------------------------------------------
// Payloads
// ---------------------------------------------------------------------

impl FriendMessagePayload {
    /// The kind of message this payload sends.
    pub fn message_type(&self) -> (t: FriendMessageType)
        ensures
            t == match self {
                FriendMessagePayload::Text(_) => FriendMessageType::Text,
                FriendMessagePayload::Image(_) => FriendMessageType::Image,
                FriendMessagePayload::File(_) => FriendMessageType::File,
            },
    {
        match self {
            FriendMessagePayload::Text(_) => FriendMessageType::Text,
            FriendMessagePayload::Image(_) => FriendMessageType::Image,
            FriendMessagePayload::File(_) => FriendMessageType::File,
        }
    }

    /// The path of the image or file sent, `None` for a text.
    pub fn file_path(&self) -> (p: Option<String>)
        ensures
            opt_view(p) == match self {
                FriendMessagePayload::Text(_) => None,
                FriendMessagePayload::Image(path) => Some(path@),
                FriendMessagePayload::File(path) => Some(path@),
            },
    {
        match self {
            FriendMessagePayload::Text(_) => None,
            FriendMessagePayload::Image(path) => Some(copy_string(path)),
            FriendMessagePayload::File(path) => Some(copy_string(path)),
        }
    }
}

// ---------------------------------------------------------------------
// Validation
// ---------------------------------------------------------------------

/// Characters that a phone number may hold for readability only.
pub open spec fn is_phone_separator(c: char) -> bool {
    c == ' ' || c == '-' || c == '(' || c == ')'
}

/// `s` without phone separators.
pub open spec fn drop_phone_separators(s: Seq<char>) -> Seq<char>
    decreases s.len(),
{
    if s.len() == 0 {
        s
    } else if is_phone_separator(s.last()) {
        drop_phone_separators(s.drop_last())
    } else {
        drop_phone_separators(s.drop_last()).push(s.last())
    }
}

/// The digits of a normalized phone number: without its leading `+`.
pub open spec fn phone_digits(n: Seq<char>) -> Seq<char> {
    if n.len() > 0 && n[0] == '+' {
        n.skip(1)
    } else {
        n
    }
}

/// Whether a normalized phone number has at most one `+`, and only in front.
pub open spec fn phone_plus_ok(n: Seq<char>) -> bool {
    count_char(n, '+') == 0 || (count_char(n, '+') == 1 && n.len() > 0 && n[0] == '+')
}

/// What `validate_phone` gives for `s`: the normalized number (trimmed,
/// separators removed), or the first rule it breaks.
pub open spec fn phone_check(s: Seq<char>) -> Result<Seq<char>, DesktopError> {
    let n = drop_phone_separators(trim(s));
    let digits = phone_digits(n);
    if n.len() == 0 {
        Err(DesktopError::EmptyPhone)
    } else if !phone_plus_ok(n) || !all_digits(digits) {
        Err(DesktopError::InvalidPhoneCharacters)
    } else if !(5 <= digits.len() && digits.len() <= 20) {
        Err(DesktopError::InvalidPhoneLength)
    } else {
        Ok(n)
    }
}

/// Spec view of a result holding a string.
pub open spec fn result_view(r: Result<String, DesktopError>) -> Result<Seq<char>, DesktopError> {
    match r {
        Ok(s) => Ok(s@),
        Err(e) => Err(e),
    }
}

/// Normalizes and checks a phone number: surrounding whitespace and the
/// separators ` `, `-`, `(`, `)` are removed; what is left must be 5 to 20
/// ASCII digits, optionally after one leading `+`.
pub fn validate_phone(phone: &str) -> (r: Result<String, DesktopError>)
    ensures
        result_view(r) == phone_check(phone@),
{
    let cs = chars_of(phone);
    let t = trim_chars(&cs);
    let mut n: Vec<char> = Vec::new();
    let mut i: usize = 0;
    while i < t.len()
        invariant
            i <= t.len(),
            n@ == drop_phone_separators(t@.take(i as int)),
        decreases t.len() - i,
    {
        assert(t@.take(i + 1).drop_last() == t@.take(i as int));
        let c = t[i];
        if !(c == ' ' || c == '-' || c == '(' || c == ')') {
            n.push(c);
        }
        i += 1;
    }
    assert(t@.take(t.len() as int) == t@);
    if n.len() == 0 {
        return Err(DesktopError::EmptyPhone);
    }
    let plus = count_char_in(&n, '+');
    let start: usize = if n[0] == '+' {
        1
    } else {
        0
    };
    let ghost digits = phone_digits(n@);
    assert(start == 0 ==> digits == n@);
    let plus_ok = plus == 0 || (plus == 1 && n[0] == '+');
    let mut all = start < n.len();
    let mut j: usize = start;
    while j < n.len()
        invariant
            start <= j <= n.len(),
            digits == n@.skip(start as int),
            all == (start < n.len() && forall|k: int| start <= k < j ==> is_digit(n@[k])),
        decreases n.len() - j,
    {
        if !('0' <= n[j] && n[j] <= '9') {
            all = false;
        }
        j += 1;
    }
    proof {
        if all {
            assert forall|k: int| 0 <= k < digits.len() implies is_digit(digits[k]) by {
                assert(digits[k] == n@[k + start]);
            }
        } else if start < n.len() {
            let k = choose|k: int| start <= k < n.len() && !is_digit(n@[k]);
            assert(digits[k - start] == n@[k]);
        }
    }
    if !plus_ok || !all {
        return Err(DesktopError::InvalidPhoneCharacters);
    }
    let len = n.len() - start;
    if !(5 <= len && len <= 20) {
        return Err(DesktopError::InvalidPhoneLength);
    }
    Ok(string_from(&n))
}

/// What `validate_target` gives for `s`.
pub open spec fn target_check(s: Seq<char>) -> Result<Seq<char>, DesktopError> {
    let t = trim(s);
    if t.len() == 0 {
        Err(DesktopError::EmptyTarget)
    } else if utf8_len(t) > 256 {
        Err(DesktopError::TargetTooLong)
    } else {
        Ok(t)
    }
}

/// Checks the name of a friend or conversation: trimmed, not empty, at
/// most 256 bytes in UTF-8.
pub fn validate_target(target: &str) -> (r: Result<String, DesktopError>)
    ensures
        result_view(r) == target_check(target@),
{
    let cs = chars_of(target);
    let t = trim_chars(&cs);
    if t.len() == 0 {
        return Err(DesktopError::EmptyTarget);
    }
    if utf8_len_of(&t) > 256 {
        return Err(DesktopError::TargetTooLong);
    }
    Ok(string_from(&t))
}

/// What `validate_text_message` gives for `s`.
pub open spec fn text_check(s: Seq<char>) -> Result<Seq<char>, DesktopError> {
    if is_blank(s) {
        Err(DesktopError::EmptyText)
    } else if utf8_len(s) > 2048 {
        Err(DesktopError::TextTooLong)
    } else {
        Ok(s)
    }
}

/// Checks a text message: not blank, at most 2048 bytes in UTF-8; the text
/// is kept as given.
pub fn validate_text_message(text: &str) -> (r: Result<String, DesktopError>)
    ensures
        result_view(r) == text_check(text@),
{
    let cs = chars_of(text);
    if chars_is_blank(&cs) {
        return Err(DesktopError::EmptyText);
    }
    if utf8_len_of(&cs) > 2048 {
        return Err(DesktopError::TextTooLong);
    }
    Ok(string_from(&cs))
}


// ---------------------------------------------------------------------
// Script status lines
// ---------------------------------------------------------------------

/// What `split_script_status` gives for `raw`: the trimmed text before the
/// first `|` and the trimmed non-empty text after it, if any.
pub open spec fn script_status(raw: Seq<char>) -> (Seq<char>, Option<Seq<char>>) {
    let t = trim(raw);
    let i = find_char(t, '|');
    if i < t.len() {
        let d = trim(t.skip(i + 1));
        (trim(t.take(i)), if d.len() == 0 {
            None
        } else {
            Some(d)
        })
    } else {
        (t, None)
    }
}

/// Splits the `status|detail` line printed by a desktop script.
pub fn split_script_status(raw: &str) -> (r: (String, Option<String>))
    ensures
        (r.0@, opt_view(r.1)) == script_status(raw@),
{
    let cs = chars_of(raw);
    let t = trim_chars(&cs);
    let i = find_char_from(&t, '|', 0);
    assert(t@.skip(0) == t@);
    if i < t.len() {
        let head = subvec(&t, 0, i);
        let tail = subvec(&t, i + 1, t.len());
        assert(head@ == t@.take(i as int));
        assert(tail@ == t@.skip(i + 1));
        let status = trim_chars(&head);
        let detail = trim_chars(&tail);
        let d = if detail.len() == 0 {
            None
        } else {
            Some(string_from(&detail))
        };
        (string_from(&status), d)
    } else {
        (string_from(&t), None)
    }
}

// ---------------------------------------------------------------------
// Messages of the open conversation
// ---------------------------------------------------------------------

/// What one line `index \t position \t size \t text` of the conversation
/// dump gives: the key `index|text` and the text, with `\n` escapes undone.
pub open spec fn chat_message_of(line: Seq<char>) -> (Seq<char>, Seq<char>) {
    let p = splitn(line, 4, '\t');
    let text = unescape_newlines(p[3]);
    (p[0] + seq!['|'] + text, text)
}

/// What `parse_desktop_chat_messages` gives for the lines `ls`: one message
/// per non-blank line, or the first non-blank line without four fields.
pub open spec fn chat_messages_of(ls: Seq<Seq<char>>) -> Result<
    Seq<(Seq<char>, Seq<char>)>,
    Seq<char>,
>
    decreases ls.len(),
{
    if ls.len() == 0 {
        Ok(seq![])
    } else {
        match chat_messages_of(ls.drop_last()) {
            Err(l) => Err(l),
            Ok(ms) => {
                let l = ls.last();
                if is_blank(l) {
                    Ok(ms)
                } else if splitn(l, 4, '\t').len() != 4 {
                    Err(l)
                } else {
                    Ok(ms.push(chat_message_of(l)))
                }
            },
        }
    }
}

/// The key and text of each message.
pub open spec fn chat_message_views(v: Seq<DesktopChatMessage>) -> Seq<(Seq<char>, Seq<char>)> {
    v.map_values(|m: DesktopChatMessage| (m.key@, m.text@))
}

/// Parses the text messages that the conversation-reading script prints.
pub fn parse_desktop_chat_messages(raw: &str) -> (r: Result<Vec<DesktopChatMessage>, DesktopError>)
    ensures
        match r {
            Ok(v) => chat_messages_of(lines(raw@)) == Ok::<
                Seq<(Seq<char>, Seq<char>)>,
                Seq<char>,
            >(chat_message_views(v@)),
            Err(DesktopError::MalformedMessageLine(l)) => chat_messages_of(lines(raw@)) == Err::<
                Seq<(Seq<char>, Seq<char>)>,
                Seq<char>,
            >(l@),
            Err(_) => false,
        },
{
    let cs = chars_of(raw);
    let ls = split_lines(&cs);
    let ghost lv = lines(raw@);
    let mut out: Vec<DesktopChatMessage> = Vec::new();
    let mut i: usize = 0;
    assert(lv.take(0) =~= Seq::<Seq<char>>::empty());
    assert(chat_message_views(out@) =~= Seq::<(Seq<char>, Seq<char>)>::empty());
    while i < ls.len()
        invariant
            i <= ls.len(),
            views(ls@) == lv,
            lv == lines(raw@),
            chat_messages_of(lv.take(i as int)) == Ok::<
                Seq<(Seq<char>, Seq<char>)>,
                Seq<char>,
            >(chat_message_views(out@)),
        decreases ls.len() - i,
    {
        assert(lv.take(i + 1).drop_last() == lv.take(i as int));
        assert(lv[i as int] == ls@[i as int]@);
        let line = &ls[i];
        assert(lv.take(i + 1).last() == line@);
        if !chars_is_blank(line) {
            let parts = splitn_chars(line, 4, '\t');
            assert(views(parts@).len() == parts@.len());
            if parts.len() != 4 {
                proof {
                    assert(!is_blank(line@));
                    assert(splitn(line@, 4, '\t').len() != 4);
                    let pre = lv.take(i as int);
                    assert(chat_messages_of(pre) is Ok);
                    assert(chat_messages_of(lv.take(i + 1)) == Err::<
                        Seq<(Seq<char>, Seq<char>)>,
                        Seq<char>,
                    >(line@));
                    lemma_prefix_error_stays(lv, i as int + 1);
                    assert(chat_messages_of(lines(raw@)) == Err::<
                        Seq<(Seq<char>, Seq<char>)>,
                        Seq<char>,
                    >(line@));
                }
                return Err(DesktopError::MalformedMessageLine(string_from(line)));
            }
            let text = unescape_newlines_chars(&parts[3]);
            let mut key = parts[0].clone();
            assert(key@ == parts@[0]@);
            key.push('|');
            append_chars(&mut key, &text);
            proof {
                assert(views(parts@)[0] == parts@[0]@);
                assert(views(parts@)[3] == parts@[3]@);
                assert(lv.take(i + 1).last() == line@);
            }
            let ghost before = chat_message_views(out@);
            let m = DesktopChatMessage { key: string_from(&key), text: string_from(&text) };
            assert(m.key@ =~= chat_message_of(line@).0);
            assert(m.text@ == chat_message_of(line@).1);
            out.push(m);
            assert(chat_message_views(out@) =~= before.push((m.key@, m.text@)));
        }
        i += 1;
    }
    assert(lv.take(ls.len() as int) == lv);
    Ok(out)
}

/// Lemma: once a prefix of the lines is refused, so is every longer prefix.
proof fn lemma_prefix_error_stays(ls: Seq<Seq<char>>, n: int)
    requires
        0 <= n <= ls.len(),
        chat_messages_of(ls.take(n)) is Err,
    ensures
        chat_messages_of(ls) == chat_messages_of(ls.take(n)),
    decreases ls.len() - n,
{
    if n < ls.len() {
        assert(ls.take(n + 1).drop_last() == ls.take(n));
        lemma_prefix_error_stays(ls, n + 1);
    } else {
        assert(ls.take(n) == ls);
    }
}


// ---------------------------------------------------------------------
// The recent-chat list
// ---------------------------------------------------------------------

/// The tag that closes each row of the recent-chat list.
pub open spec fn marker() -> Seq<char> {
    "@微信"@
}

/// Name and preview of a recent-chat row, as read from the client.
pub type RowView = (Seq<char>, Option<Seq<char>>);

/// The signature of a row: `name|preview` (empty preview when there is none).
pub open spec fn signature_of(name: Seq<char>, preview: Option<Seq<char>>) -> Seq<char> {
    name + seq!['|'] + match preview {
        Some(p) => p,
        None => Seq::<char>::empty(),
    }
}

/// Builds a recent-chat entry; its signature is `name|preview`.
pub fn make_recent_chat_target(name: String, preview: Option<String>) -> (t: DesktopRecentChatTarget)
    ensures
        t.name@ == name@,
        opt_view(t.preview) == opt_view(preview),
        t.signature@ == signature_of(name@, opt_view(preview)),
{
    let mut sig = chars_of(name.as_str());
    sig.push('|');
    match &preview {
        Some(p) => append_str(&mut sig, p.as_str()),
        None => {},
    }
    assert(sig@ =~= signature_of(name@, opt_view(preview)));
    DesktopRecentChatTarget { name, signature: string_from(&sig), preview }
}

/// Whether `rows` already holds a row named `name`.
pub open spec fn has_name(rows: Seq<RowView>, name: Seq<char>) -> bool {
    exists|i: int| 0 <= i < rows.len() && rows[i].0 == name
}

/// Whether `text` reads like the time column of the recent-chat list.
pub open spec fn time_like(text: Seq<char>) -> bool {
    ||| contains_seq(text, "分钟前"@)
    ||| contains_seq(text, "小时前"@)
    ||| text == "昨天"@
    ||| text == "星期一"@
    ||| text == "星期二"@
    ||| text == "星期三"@
    ||| text == "星期四"@
    ||| text == "星期五"@
    ||| text == "星期六"@
    ||| text == "星期日"@
    ||| forall|j: int| 0 <= j < text.len() ==> is_digit(text[j]) || text[j] == ':' || text[j] == '/'
}

/// Whether `text` reads like a relative time ("3分钟前", "昨天", "14:08", ...).
pub fn looks_like_recent_chat_time(text: &str) -> (r: bool)
    ensures
        r == time_like(text@),
{
    let t = chars_of(text);
    let relative = chars_contain(&t, &chars_of("分钟前")) || chars_contain(&t, &chars_of("小时前"));
    let named = chars_eq(&t, &chars_of("昨天")) || chars_eq(&t, &chars_of("星期一")) || chars_eq(
        &t,
        &chars_of("星期二"),
    ) || chars_eq(&t, &chars_of("星期三")) || chars_eq(&t, &chars_of("星期四")) || chars_eq(
        &t,
        &chars_of("星期五"),
    ) || chars_eq(&t, &chars_of("星期六")) || chars_eq(&t, &chars_of("星期日"));
    let mut clock = true;
    let mut i: usize = 0;
    while i < t.len()
        invariant
            i <= t.len(),
            clock == forall|j: int| 0 <= j < i ==> is_digit(t@[j]) || t@[j] == ':' || t@[j] == '/',
        decreases t.len() - i,
    {
        let c = t[i];
        if !(('0' <= c && c <= '9') || c == ':' || c == '/') {
            clock = false;
        }
        i += 1;
    }
    relative || named || clock
}

/// The preview of a row of texts (name first, closing tag removed): the
/// second text of a row of three or more when it is not empty; of a
/// shorter row, the second text unless it reads like a time.
pub open spec fn preview_from_row(row: Seq<Seq<char>>) -> Option<Seq<char>> {
    if row.len() >= 3 {
        if row[1].len() > 0 {
            Some(row[1])
        } else {
            None
        }
    } else if row.len() == 2 && !time_like(row[1]) {
        Some(row[1])
    } else {
        None
    }
}

/// Picks the preview text of a recent-chat row.
pub fn recent_chat_preview_from_row(row_texts: &Vec<String>) -> (r: Option<String>)
    ensures
        opt_view(r) == preview_from_row(row_texts@.map_values(|t: String| t@)),
{
    let ghost row = row_texts@.map_values(|t: String| t@);
    if row_texts.len() >= 3 {
        assert(row[1] == row_texts@[1]@);
        if chars_of(row_texts[1].as_str()).len() > 0 {
            return Some(copy_string(&row_texts[1]));
        }
        return None;
    }
    if row_texts.len() == 2 {
        assert(row[1] == row_texts@[1]@);
        if !looks_like_recent_chat_time(row_texts[1].as_str()) {
            return Some(copy_string(&row_texts[1]));
        }
    }
    None
}


/// A positioned text of the recent-chat list: `x`, `y` and the text.
pub type ItemView = (i64, i64, Seq<char>);

/// The positioned texts of the non-blank lines `x \t y \t text`; lines
/// whose coordinates are not integers are skipped, texts are trimmed.
pub open spec fn positional_items(ls: Seq<Seq<char>>) -> Seq<ItemView>
    decreases ls.len(),
{
    if ls.len() == 0 {
        seq![]
    } else {
        let prev = positional_items(ls.drop_last());
        let l = ls.last();
        let p = splitn(l, 3, '\t');
        if is_blank(l) || p.len() != 3 {
            prev
        } else {
            match (parse_i64(p[0]), parse_i64(p[1])) {
                (Some(x), Some(y)) => prev.push((x, y, trim(p[2]))),
                _ => prev,
            }
        }
    }
}

/// Whether `s` is in strictly increasing order.
pub open spec fn strictly_increasing(s: Seq<i64>) -> bool {
    forall|a: int, b: int| 0 <= a < b < s.len() ==> s[a] < s[b]
}

/// Whether some closing tag of the list stands at height `y`.
pub open spec fn is_marker_y(items: Seq<ItemView>, y: i64) -> bool {
    exists|k: int| 0 <= k < items.len() && items[k].2 == marker() && items[k].1 == y
}

/// Whether `m` lists the heights of the closing tags, each once, ascending.
pub open spec fn is_marker_rows(items: Seq<ItemView>, m: Seq<i64>) -> bool {
    strictly_increasing(m) && forall|y: i64| m.contains(y) <==> is_marker_y(items, y)
}

/// The heights of the closing tags, each once, in ascending order.
pub open spec fn marker_rows(items: Seq<ItemView>) -> Seq<i64> {
    choose|m: Seq<i64>| is_marker_rows(items, m)
}

/// Lemma: two ascending sequences with the same elements are equal.
proof fn lemma_increasing_unique(a: Seq<i64>, b: Seq<i64>)
    requires
        strictly_increasing(a),
        strictly_increasing(b),
        forall|y: i64| a.contains(y) <==> b.contains(y),
    ensures
        a == b,
    decreases a.len(),
{
    if a.len() == 0 {
        if b.len() > 0 {
            assert(b.contains(b[0]));
        }
        assert(a =~= b);
    } else {
        assert(a.contains(a[0]));
        assert(b.len() > 0);
        assert(b.contains(b[0]));
        let ia = choose|i: int| 0 <= i < a.len() && a[i] == b[0];
        let ib = choose|i: int| 0 <= i < b.len() && b[i] == a[0];
        assert(a[0] <= b[0]) by {
            if ia > 0 {
            }
        }
        assert(b[0] <= a[0]) by {
            if ib > 0 {
            }
        }
        let a2 = a.drop_first();
        let b2 = b.drop_first();
        assert forall|y: i64| a2.contains(y) <==> b2.contains(y) by {
            if a2.contains(y) {
                let i = choose|i: int| 0 <= i < a2.len() && a2[i] == y;
                assert(a[i + 1] == y);
                assert(a.contains(y));
                let j = choose|j: int| 0 <= j < b.len() && b[j] == y;
                assert(j != 0);
                assert(b2[j - 1] == y);
            }
            if b2.contains(y) {
                let i = choose|i: int| 0 <= i < b2.len() && b2[i] == y;
                assert(b[i + 1] == y);
                assert(b.contains(y));
                let j = choose|j: int| 0 <= j < a.len() && a[j] == y;
                assert(j != 0);
                assert(a2[j - 1] == y);
            }
        }
        assert(strictly_increasing(a2)) by {
            assert forall|p: int, q: int| 0 <= p < q < a2.len() implies a2[p] < a2[q] by {
                assert(a2[p] == a[p + 1] && a2[q] == a[q + 1]);
            }
        }
        assert(strictly_increasing(b2)) by {
            assert forall|p: int, q: int| 0 <= p < q < b2.len() implies b2[p] < b2[q] by {
                assert(b2[p] == b[p + 1] && b2[q] == b[q + 1]);
            }
        }
        lemma_increasing_unique(a2, b2);
        assert(a =~= b) by {
            assert forall|i: int| 0 <= i < a.len() implies a[i] == b[i] by {
                if i > 0 {
                    assert(a[i] == a2[i - 1] && b[i] == b2[i - 1]);
                }
            }
        }
    }
}

/// Whether an item can name the row closed at height `my`.
pub open spec fn name_candidate(it: ItemView, my: i64) -> bool {
    it.2.len() > 0 && it.2 != marker() && it.0 <= 260 && -8 <= it.1 - my <= 8
}

/// Whether `a` comes before `b` by `(x, y)`.
pub open spec fn before_xy(a: ItemView, b: ItemView) -> bool {
    a.0 < b.0 || (a.0 == b.0 && a.1 < b.1)
}

/// Whether `a` comes before `b` by `(y, x)`.
pub open spec fn before_yx(a: ItemView, b: ItemView) -> bool {
    a.1 < b.1 || (a.1 == b.1 && a.0 < b.0)
}

/// Index of the first of the leftmost-then-topmost name candidates among the
/// first `n` items (`-1` when there is none).
pub open spec fn first_min_name(items: Seq<ItemView>, my: i64, n: int) -> int
    decreases n,
{
    if n <= 0 {
        -1
    } else {
        let b = first_min_name(items, my, n - 1);
        if name_candidate(items[n - 1], my) && (b < 0 || before_xy(items[n - 1], items[b])) {
            n - 1
        } else {
            b
        }
    }
}

/// Whether an item can be the preview of the row closed at `my`, which
/// ends above `row_end` and is named `name`.
pub open spec fn preview_candidate(it: ItemView, my: i64, row_end: int, name: Seq<char>) -> bool {
    it.1 > my + 8 && it.1 < row_end && it.0 <= 260 && it.2 != marker() && it.2 != name
}

/// Index of the first of the topmost-then-leftmost preview candidates among
/// the first `n` items (`-1` when there is none).
pub open spec fn first_min_preview(
    items: Seq<ItemView>,
    my: i64,
    row_end: int,
    name: Seq<char>,
    n: int,
) -> int
    decreases n,
{
    if n <= 0 {
        -1
    } else {
        let b = first_min_preview(items, my, row_end, name, n - 1);
        if preview_candidate(items[n - 1], my, row_end, name) && (b < 0 || before_yx(
            items[n - 1],
            items[b],
        )) {
            n - 1
        } else {
            b
        }
    }
}

/// Where the row closed at `ms[k]` ends: 8 above the next closing tag, or
/// 52 below its own tag for the last row.
pub open spec fn row_end(ms: Seq<i64>, k: int) -> int {
    if k + 1 < ms.len() {
        ms[k + 1] - 8
    } else {
        ms[k] + 52
    }
}

/// The rows read from the first `k` closing tags of the positioned dump,
/// at most `limit` of them, each name once.
pub open spec fn positional_rows(items: Seq<ItemView>, ms: Seq<i64>, limit: nat, k: int) -> Seq<
    RowView,
>
    decreases k,
{
    if k <= 0 {
        seq![]
    } else {
        let prev = positional_rows(items, ms, limit, k - 1);
        let my = ms[k - 1];
        let ni = first_min_name(items, my, items.len() as int);
        if prev.len() >= limit || ni < 0 {
            prev
        } else {
            let name = items[ni].2;
            if has_name(prev, name) {
                prev
            } else {
                let pi = first_min_preview(items, my, row_end(ms, k - 1), name, items.len() as int);
                prev.push((name, if pi < 0 {
                    None
                } else {
                    Some(items[pi].2)
                }))
            }
        }
    }
}

/// `row` without the closing tags.
pub open spec fn drop_markers(row: Seq<Seq<char>>) -> Seq<Seq<char>>
    decreases row.len(),
{
    if row.len() == 0 {
        row
    } else if row.last() == marker() {
        drop_markers(row.drop_last())
    } else {
        drop_markers(row.drop_last()).push(row.last())
    }
}

/// The groups of texts of the sequential dump (`index \t text` lines): the
/// texts up to and including each closing tag, and the texts after the last
/// tag. Blank texts are skipped.
pub open spec fn text_groups(ls: Seq<Seq<char>>) -> (Seq<Seq<Seq<char>>>, Seq<Seq<char>>)
    decreases ls.len(),
{
    if ls.len() == 0 {
        (seq![], seq![])
    } else {
        let (gs, cur) = text_groups(ls.drop_last());
        let l = ls.last();
        let p = splitn(l, 2, '\t');
        if is_blank(l) || p.len() != 2 || trim(p[1]).len() == 0 {
            (gs, cur)
        } else {
            let text = trim(p[1]);
            if text == marker() {
                (gs.push(cur.push(text)), seq![])
            } else {
                (gs, cur.push(text))
            }
        }
    }
}

/// The rows read from the first `k` groups, at most `limit`, each name once.
pub open spec fn sequence_rows(gs: Seq<Seq<Seq<char>>>, limit: nat, k: int) -> Seq<RowView>
    decreases k,
{
    if k <= 0 {
        seq![]
    } else {
        let prev = sequence_rows(gs, limit, k - 1);
        let row = drop_markers(gs[k - 1]);
        if prev.len() >= limit || row.len() == 0 || row[0].len() == 0 || has_name(prev, row[0]) {
            prev
        } else {
            prev.push((row[0], preview_from_row(row)))
        }
    }
}

/// Whether every non-blank line has exactly one tab (the sequential dump).
pub open spec fn is_sequence_dump(ls: Seq<Seq<char>>) -> bool {
    forall|i: int| 0 <= i < ls.len() && !is_blank(ls[i]) ==> count_char(ls[i], '\t') == 1
}

/// The rows (name, preview) that the recent-chat dump `raw` describes.
pub open spec fn recent_rows(raw: Seq<char>, limit: nat) -> Seq<RowView> {
    let ls = lines(raw);
    if is_sequence_dump(ls) {
        let gs = text_groups(ls).0;
        sequence_rows(gs, limit, gs.len() as int)
    } else {
        let items = positional_items(ls);
        let ms = marker_rows(items);
        positional_rows(items, ms, limit, ms.len() as int)
    }
}

/// Whether `targets` are exactly the entries built from `rows`.
pub open spec fn targets_match(targets: Seq<DesktopRecentChatTarget>, rows: Seq<RowView>) -> bool {
    &&& targets.len() == rows.len()
    &&& forall|i: int|
        0 <= i < rows.len() ==> {
            &&& (#[trigger] targets[i]).name@ == rows[i].0
            &&& opt_view(targets[i].preview) == rows[i].1
            &&& targets[i].signature@ == signature_of(rows[i].0, rows[i].1)
        }
}

/// A positioned text of the recent-chat list.
struct TextItem {
    x: i64,
    y: i64,
    text: Vec<char>,
}

spec fn item_views(v: Seq<TextItem>) -> Seq<ItemView> {
    v.map_values(|it: TextItem| (it.x, it.y, it.text@))
}

/// Name and preview of each row.
pub open spec fn row_views(v: Seq<(Vec<char>, Option<Vec<char>>)>) -> Seq<RowView> {
    v.map_values(
        |r: (Vec<char>, Option<Vec<char>>)|
            (
                r.0@,
                match r.1 {
                    Some(p) => Some(p@),
                    None => None,
                },
            ),
    )
}

fn positional_items_of(ls: &Vec<Vec<char>>) -> (out: Vec<TextItem>)
    ensures
        item_views(out@) == positional_items(views(ls@)),
{
    let ghost lv = views(ls@);
    let mut out: Vec<TextItem> = Vec::new();
    let mut i: usize = 0;
    assert(lv.take(0) =~= Seq::<Seq<char>>::empty());
    assert(item_views(out@) =~= Seq::<ItemView>::empty());
    while i < ls.len()
        invariant
            i <= ls.len(),
            lv == views(ls@),
            item_views(out@) == positional_items(lv.take(i as int)),
        decreases ls.len() - i,
    {
        assert(lv.take(i + 1).drop_last() == lv.take(i as int));
        assert(lv.take(i + 1).last() == ls@[i as int]@);
        let line = &ls[i];
        if !chars_is_blank(line) {
            let parts = splitn_chars(line, 3, '\t');
            assert(views(parts@).len() == parts@.len());
            if parts.len() == 3 {
                assert(views(parts@)[0] == parts@[0]@);
                assert(views(parts@)[1] == parts@[1]@);
                assert(views(parts@)[2] == parts@[2]@);
                let x = parse_i64_chars(&parts[0]);
                let y = parse_i64_chars(&parts[1]);
                match (x, y) {
                    (Some(x), Some(y)) => {
                        let text = trim_chars(&parts[2]);
                        let ghost before = item_views(out@);
                        let it = TextItem { x, y, text };
                        out.push(it);
                        assert(item_views(out@) =~= before.push((it.x, it.y, it.text@)));
                    },
                    _ => {},
                }
            }
        }
        i += 1;
    }
    assert(lv.take(ls.len() as int) == lv);
    out
}

proof fn lemma_insert_keeps_order(before: Seq<i64>, p: int, y: i64)
    requires
        strictly_increasing(before),
        0 <= p <= before.len(),
        forall|q: int| 0 <= q < p ==> before[q] < y,
        p < before.len() ==> y < before[p],
    ensures
        strictly_increasing(before.insert(p, y)),
        forall|z: i64| before.insert(p, y).contains(z) <==> (before.contains(z) || z == y),
{
    let after = before.insert(p, y);
    assert forall|a: int, b: int| 0 <= a < b < after.len() implies after[a] < after[b] by {
        if b < p {
        } else if b == p {
        } else if a < p {
            assert(after[b] == before[b - 1]);
            assert(before[b - 1] >= before[p]);
        } else if a == p {
            assert(after[b] == before[b - 1]);
            assert(before[b - 1] >= before[p]);
        } else {
            assert(after[a] == before[a - 1] && after[b] == before[b - 1]);
        }
    }
    assert forall|z: i64| after.contains(z) <==> (before.contains(z) || z == y) by {
        if after.contains(z) {
            let i = choose|i: int| 0 <= i < after.len() && after[i] == z;
            if i < p {
                assert(before[i] == z);
            } else if i > p {
                assert(before[i - 1] == z);
            }
        }
        if before.contains(z) {
            let i = choose|i: int| 0 <= i < before.len() && before[i] == z;
            if i < p {
                assert(after[i] == z);
            } else {
                assert(after[i + 1] == z);
            }
        }
        if z == y {
            assert(after[p] == z);
        }
    }
}

fn insert_sorted(v: Vec<i64>, y: i64) -> (r: Vec<i64>)
    requires
        strictly_increasing(v@),
    ensures
        strictly_increasing(r@),
        forall|z: i64| r@.contains(z) <==> (v@.contains(z) || z == y),
{
    let mut out = v;
    let ghost before = out@;
    let mut p: usize = 0;
    while p < out.len() && out[p] < y
        invariant
            p <= out.len(),
            out@ == before,
            before == v@,
            forall|q: int| 0 <= q < p ==> out@[q] < y,
        decreases out.len() - p,
    {
        p += 1;
    }
    if p < out.len() && out[p] == y {
        assert(before.contains(y)) by {
            assert(before[p as int] == y);
        }
        assert forall|z: i64| out@.contains(z) <==> (v@.contains(z) || z == y) by {
            if z == y {
                assert(before.contains(y));
            }
        }
    } else {
        proof {
            lemma_insert_keeps_order(before, p as int, y);
        }
        assert(before == v@);
        out.insert(p, y);
        assert(out@ == before.insert(p as int, y));
        assert forall|z: i64| out@.contains(z) <==> (v@.contains(z) || z == y) by {
            assert(out@.contains(z) <==> (before.contains(z) || z == y));
        }
    }
    assert(forall|z: i64| out@.contains(z) <==> (v@.contains(z) || z == y));
    out
}

fn marker_rows_of(items: &Vec<TextItem>, mk: &Vec<char>) -> (out: Vec<i64>)
    requires
        mk@ == marker(),
    ensures
        is_marker_rows(item_views(items@), out@),
{
    let ghost iv = item_views(items@);
    let mut out: Vec<i64> = Vec::new();
    let mut j: usize = 0;
    while j < items.len()
        invariant
            j <= items.len(),
            mk@ == marker(),
            iv == item_views(items@),
            strictly_increasing(out@),
            forall|y: i64|
                out@.contains(y) <==> exists|k: int|
                    0 <= k < j && iv[k].2 == marker() && iv[k].1 == y,
        decreases items.len() - j,
    {
        assert(iv[j as int] == (items@[j as int].x, items@[j as int].y, items@[j as int].text@));
        let ghost before = out@;
        if chars_eq(&items[j].text, mk) {
            out = insert_sorted(out, items[j].y);
        }
        assert forall|y: i64|
            out@.contains(y) <==> exists|k: int|
                0 <= k < j + 1 && iv[k].2 == marker() && iv[k].1 == y by {
            if exists|k: int| 0 <= k < j + 1 && iv[k].2 == marker() && iv[k].1 == y {
                let k = choose|k: int| 0 <= k < j + 1 && iv[k].2 == marker() && iv[k].1 == y;
                if k < j {
                    assert(before.contains(y));
                }
            }
        }
        j += 1;
    }
    out
}

fn is_name_candidate(it: &TextItem, my: i64, mk: &Vec<char>) -> (r: bool)
    requires
        mk@ == marker(),
    ensures
        r == name_candidate((it.x, it.y, it.text@), my),
{
    let d = it.y as i128 - my as i128;
    it.text.len() > 0 && !chars_eq(&it.text, mk) && it.x <= 260 && -8 <= d && d <= 8
}

fn first_min_name_index(items: &Vec<TextItem>, my: i64, mk: &Vec<char>) -> (r: Option<usize>)
    requires
        mk@ == marker(),
    ensures
        match r {
            Some(i) => i < items.len() && first_min_name(item_views(items@), my, items.len() as int)
                == i,
            None => first_min_name(item_views(items@), my, items.len() as int) == -1,
        },
{
    let ghost iv = item_views(items@);
    let mut best: Option<usize> = None;
    let mut n: usize = 0;
    while n < items.len()
        invariant
            n <= items.len(),
            mk@ == marker(),
            iv == item_views(items@),
            match best {
                Some(i) => i < n && first_min_name(iv, my, n as int) == i,
                None => first_min_name(iv, my, n as int) == -1,
            },
        decreases items.len() - n,
    {
        let it = &items[n];
        assert(iv[n as int] == (it.x, it.y, it.text@));
        if is_name_candidate(it, my, mk) {
            match best {
                None => {
                    best = Some(n);
                },
                Some(b) => {
                    assert(iv[b as int] == (items@[b as int].x, items@[b as int].y, items@[b as int].text@));
                    if it.x < items[b].x || (it.x == items[b].x && it.y < items[b].y) {
                        best = Some(n);
                    }
                },
            }
        }
        n += 1;
    }
    best
}

fn is_preview_candidate(it: &TextItem, my: i64, row_end: i128, name: &Vec<char>, mk: &Vec<char>) -> (r: bool)
    requires
        mk@ == marker(),
    ensures
        r == preview_candidate((it.x, it.y, it.text@), my, row_end as int, name@),
{
    (it.y as i128) > (my as i128) + 8 && (it.y as i128) < row_end && it.x <= 260 && !chars_eq(
        &it.text,
        mk,
    ) && !chars_eq(&it.text, name)
}

fn first_min_preview_index(
    items: &Vec<TextItem>,
    my: i64,
    row_end: i128,
    name: &Vec<char>,
    mk: &Vec<char>,
) -> (r: Option<usize>)
    requires
        mk@ == marker(),
    ensures
        match r {
            Some(i) => i < items.len() && first_min_preview(
                item_views(items@),
                my,
                row_end as int,
                name@,
                items.len() as int,
            ) == i,
            None => first_min_preview(
                item_views(items@),
                my,
                row_end as int,
                name@,
                items.len() as int,
            ) == -1,
        },
{
    let ghost iv = item_views(items@);
    let mut best: Option<usize> = None;
    let mut n: usize = 0;
    while n < items.len()
        invariant
            n <= items.len(),
            mk@ == marker(),
            iv == item_views(items@),
            match best {
                Some(i) => i < n && first_min_preview(iv, my, row_end as int, name@, n as int) == i,
                None => first_min_preview(iv, my, row_end as int, name@, n as int) == -1,
            },
        decreases items.len() - n,
    {
        let it = &items[n];
        assert(iv[n as int] == (it.x, it.y, it.text@));
        if is_preview_candidate(it, my, row_end, name, mk) {
            match best {
                None => {
                    best = Some(n);
                },
                Some(b) => {
                    assert(iv[b as int] == (items@[b as int].x, items@[b as int].y, items@[b as int].text@));
                    if it.y < items[b].y || (it.y == items[b].y && it.x < items[b].x) {
                        best = Some(n);
                    }
                },
            }
        }
        n += 1;
    }
    best
}

fn rows_have_name(rows: &Vec<(Vec<char>, Option<Vec<char>>)>, name: &Vec<char>) -> (r: bool)
    ensures
        r == has_name(row_views(rows@), name@),
{
    let ghost rv = row_views(rows@);
    let mut i: usize = 0;
    while i < rows.len()
        invariant
            i <= rows.len(),
            rv == row_views(rows@),
            forall|k: int| 0 <= k < i ==> rv[k].0 != name@,
        decreases rows.len() - i,
    {
        assert(rv[i as int].0 == rows@[i as int].0@);
        if chars_eq(&rows[i].0, name) {
            return true;
        }
        i += 1;
    }
    false
}

proof fn lemma_row_views_push(v: Seq<(Vec<char>, Option<Vec<char>>)>, r: (Vec<char>, Option<Vec<char>>))
    ensures
        row_views(v.push(r)) == row_views(v).push(
            (
                r.0@,
                match r.1 {
                    Some(p) => Some(p@),
                    None => None,
                },
            ),
        ),
{
    assert(row_views(v.push(r)) =~= row_views(v).push(
        (
            r.0@,
            match r.1 {
                Some(p) => Some(p@),
                None => None,
            },
        ),
    ));
}

fn positional_rows_of(items: &Vec<TextItem>, ms: &Vec<i64>, limit: usize, mk: &Vec<char>) -> (out: Vec<
    (Vec<char>, Option<Vec<char>>),
>)
    requires
        mk@ == marker(),
    ensures
        row_views(out@) == positional_rows(item_views(items@), ms@, limit as nat, ms.len() as int),
{
    let ghost iv = item_views(items@);
    let mut out: Vec<(Vec<char>, Option<Vec<char>>)> = Vec::new();
    let mut k: usize = 0;
    assert(row_views(out@) =~= Seq::<RowView>::empty());
    while k < ms.len()
        invariant
            k <= ms.len(),
            mk@ == marker(),
            iv == item_views(items@),
            row_views(out@) == positional_rows(iv, ms@, limit as nat, k as int),
        decreases ms.len() - k,
    {
        let my = ms[k];
        let ni = first_min_name_index(items, my, mk);
        if out.len() < limit {
            match ni {
                None => {},
                Some(ni) => {
                    let name = &items[ni].text;
                    assert(iv[ni as int].2 == name@);
                    if !rows_have_name(&out, name) {
                        let end: i128 = if k + 1 < ms.len() {
                            ms[k + 1] as i128 - 8
                        } else {
                            ms[k] as i128 + 52
                        };
                        assert(end == row_end(ms@, k as int));
                        let pi = first_min_preview_index(items, my, end, name, mk);
                        let preview = match pi {
                            None => None,
                            Some(p) => {
                                assert(iv[p as int].2 == items@[p as int].text@);
                                Some(items[p].text.clone())
                            },
                        };
                        let row = (name.clone(), preview);
                        proof {
                            lemma_row_views_push(out@, row);
                        }
                        out.push(row);
                    }
                },
            }
        }
        k += 1;
    }
    out
}

/// The texts of each group.
pub open spec fn group_views(v: Seq<Vec<Vec<char>>>) -> Seq<Seq<Seq<char>>> {
    v.map_values(|g: Vec<Vec<char>>| views(g@))
}

fn text_groups_of(ls: &Vec<Vec<char>>, mk: &Vec<char>) -> (gs: Vec<Vec<Vec<char>>>)
    requires
        mk@ == marker(),
    ensures
        group_views(gs@) == text_groups(views(ls@)).0,
{
    let ghost lv = views(ls@);
    let mut gs: Vec<Vec<Vec<char>>> = Vec::new();
    let mut cur: Vec<Vec<char>> = Vec::new();
    let mut i: usize = 0;
    assert(lv.take(0) =~= Seq::<Seq<char>>::empty());
    assert(group_views(gs@) =~= Seq::<Seq<Seq<char>>>::empty());
    assert(views(cur@) =~= Seq::<Seq<char>>::empty());
    while i < ls.len()
        invariant
            i <= ls.len(),
            mk@ == marker(),
            lv == views(ls@),
            (group_views(gs@), views(cur@)) == text_groups(lv.take(i as int)),
        decreases ls.len() - i,
    {
        assert(lv.take(i + 1).drop_last() == lv.take(i as int));
        assert(lv.take(i + 1).last() == ls@[i as int]@);
        let line = &ls[i];
        if !chars_is_blank(line) {
            let parts = splitn_chars(line, 2, '\t');
            assert(views(parts@).len() == parts@.len());
            if parts.len() == 2 {
                assert(views(parts@)[1] == parts@[1]@);
                let text = trim_chars(&parts[1]);
                if text.len() > 0 {
                    let is_marker = chars_eq(&text, mk);
                    proof {
                        lemma_views_push(cur@, text);
                    }
                    cur.push(text);
                    if is_marker {
                        let done = cur;
                        cur = Vec::new();
                        let ghost before = group_views(gs@);
                        gs.push(done);
                        assert(group_views(gs@) =~= before.push(views(done@)));
                        assert(views(cur@) =~= Seq::<Seq<char>>::empty());
                    }
                }
            }
        }
        i += 1;
    }
    assert(lv.take(ls.len() as int) == lv);
    gs
}

fn drop_markers_of(row: &Vec<Vec<char>>, mk: &Vec<char>) -> (out: Vec<Vec<char>>)
    requires
        mk@ == marker(),
    ensures
        views(out@) == drop_markers(views(row@)),
{
    let ghost rv = views(row@);
    let mut out: Vec<Vec<char>> = Vec::new();
    let mut i: usize = 0;
    assert(rv.take(0) =~= Seq::<Seq<char>>::empty());
    assert(views(out@) =~= Seq::<Seq<char>>::empty());
    while i < row.len()
        invariant
            i <= row.len(),
            mk@ == marker(),
            rv == views(row@),
            views(out@) == drop_markers(rv.take(i as int)),
        decreases row.len() - i,
    {
        assert(rv.take(i + 1).drop_last() == rv.take(i as int));
        assert(rv.take(i + 1).last() == row@[i as int]@);
        if !chars_eq(&row[i], mk) {
            let t = row[i].clone();
            proof {
                lemma_views_push(out@, t);
            }
            out.push(t);
        }
        i += 1;
    }
    assert(rv.take(row.len() as int) == rv);
    out
}

fn time_like_chars(t: &Vec<char>) -> (r: bool)
    ensures
        r == time_like(t@),
{
    let s = string_from(t);
    looks_like_recent_chat_time(s.as_str())
}

fn preview_of_row(row: &Vec<Vec<char>>) -> (r: Option<Vec<char>>)
    ensures
        match r {
            Some(p) => preview_from_row(views(row@)) == Some(p@),
            None => preview_from_row(views(row@)) is None,
        },
{
    let ghost rv = views(row@);
    if row.len() >= 3 {
        assert(rv[1] == row@[1]@);
        if row[1].len() > 0 {
            return Some(row[1].clone());
        }
        return None;
    }
    if row.len() == 2 {
        assert(rv[1] == row@[1]@);
        if !time_like_chars(&row[1]) {
            return Some(row[1].clone());
        }
    }
    None
}

fn sequence_rows_of(gs: &Vec<Vec<Vec<char>>>, limit: usize, mk: &Vec<char>) -> (out: Vec<
    (Vec<char>, Option<Vec<char>>),
>)
    requires
        mk@ == marker(),
    ensures
        row_views(out@) == sequence_rows(group_views(gs@), limit as nat, gs.len() as int),
{
    let ghost gv = group_views(gs@);
    let mut out: Vec<(Vec<char>, Option<Vec<char>>)> = Vec::new();
    let mut k: usize = 0;
    assert(row_views(out@) =~= Seq::<RowView>::empty());
    while k < gs.len()
        invariant
            k <= gs.len(),
            mk@ == marker(),
            gv == group_views(gs@),
            row_views(out@) == sequence_rows(gv, limit as nat, k as int),
        decreases gs.len() - k,
    {
        assert(gv[k as int] == views(gs@[k as int]@));
        let row = drop_markers_of(&gs[k], mk);
        let ghost rv = views(row@);
        if out.len() < limit && row.len() > 0 {
            assert(rv[0] == row@[0]@);
            if row[0].len() > 0 && !rows_have_name(&out, &row[0]) {
                let preview = preview_of_row(&row);
                let r = (row[0].clone(), preview);
                proof {
                    lemma_row_views_push(out@, r);
                }
                out.push(r);
            }
        }
        k += 1;
    }
    out
}

fn is_sequence_dump_of(ls: &Vec<Vec<char>>) -> (r: bool)
    ensures
        r == is_sequence_dump(views(ls@)),
{
    let ghost lv = views(ls@);
    let mut i: usize = 0;
    while i < ls.len()
        invariant
            i <= ls.len(),
            lv == views(ls@),
            forall|k: int| 0 <= k < i && !is_blank(lv[k]) ==> count_char(lv[k], '\t') == 1,
        decreases ls.len() - i,
    {
        assert(lv[i as int] == ls@[i as int]@);
        if !chars_is_blank(&ls[i]) && count_char_in(&ls[i], '\t') != 1 {
            return false;
        }
        i += 1;
    }
    true
}

/// Turns rows into recent-chat entries.
fn targets_from_rows(rows: Vec<(Vec<char>, Option<Vec<char>>)>) -> (out: Vec<DesktopRecentChatTarget>)
    ensures
        targets_match(out@, row_views(rows@)),
{
    let ghost rv = row_views(rows@);
    let mut out: Vec<DesktopRecentChatTarget> = Vec::new();
    let mut i: usize = 0;
    while i < rows.len()
        invariant
            i <= rows.len(),
            rv == row_views(rows@),
            out.len() == i,
            forall|k: int|
                0 <= k < i ==> {
                    &&& (#[trigger] out@[k]).name@ == rv[k].0
                    &&& opt_view(out@[k].preview) == rv[k].1
                    &&& out@[k].signature@ == signature_of(rv[k].0, rv[k].1)
                },
        decreases rows.len() - i,
    {
        let name = string_from(&rows[i].0);
        let preview = match &rows[i].1 {
            Some(p) => Some(string_from(p)),
            None => None,
        };
        let t = make_recent_chat_target(name, preview);
        out.push(t);
        i += 1;
    }
    out
}

/// Reads the recent-chat list that the list-reading script prints: at most
/// `limit` conversations, each name once, with the preview line of each.
/// The script prints either `index \t text` lines, grouped by the closing
/// tag of each row, or `x \t y \t text` lines that are grouped by position.
pub fn parse_recent_chat_target_summaries(raw: &str, limit: usize) -> (r: Result<
    Vec<DesktopRecentChatTarget>,
    DesktopError,
>)
    ensures
        match r {
            Ok(v) => targets_match(v@, recent_rows(raw@, limit as nat)),
            Err(_) => false,
        },
{
    let cs = chars_of(raw);
    let ls = split_lines(&cs);
    let mk = chars_of("@微信");
    let rows = if is_sequence_dump_of(&ls) {
        let gs = text_groups_of(&ls, &mk);
        sequence_rows_of(&gs, limit, &mk)
    } else {
        let items = positional_items_of(&ls);
        let ms = marker_rows_of(&items, &mk);
        proof {
            let iv = item_views(items@);
            assert(is_marker_rows(iv, ms@));
            assert(is_marker_rows(iv, marker_rows(iv)));
            lemma_increasing_unique(ms@, marker_rows(iv));
        }
        positional_rows_of(&items, &ms, limit, &mk)
    };
    Ok(targets_from_rows(rows))
}

/// The names of the recent conversations (see
/// `parse_recent_chat_target_summaries`).
pub fn parse_recent_chat_targets(raw: &str, limit: usize) -> (r: Result<Vec<String>, DesktopError>)
    ensures
        match r {
            Ok(v) => v.len() == recent_rows(raw@, limit as nat).len() && forall|i: int|
                0 <= i < v.len() ==> (#[trigger] v@[i])@ == recent_rows(raw@, limit as nat)[i].0,
            Err(_) => false,
        },
{
    let targets = match parse_recent_chat_target_summaries(raw, limit) {
        Ok(t) => t,
        Err(e) => return Err(e),
    };
    let mut names: Vec<String> = Vec::new();
    let mut i: usize = 0;
    while i < targets.len()
        invariant
            i <= targets.len(),
            names.len() == i,
            targets_match(targets@, recent_rows(raw@, limit as nat)),
            forall|k: int|
                0 <= k < i ==> (#[trigger] names@[k])@ == recent_rows(raw@, limit as nat)[k].0,
        decreases targets.len() - i,
    {
        names.push(copy_string(&targets[i].name));
        i += 1;
    }
    Ok(names)
}



// ---------------------------------------------------------------------
// AppleScript programs
// ---------------------------------------------------------------------

/// AppleScript handlers shared by the scripts that act on the client.
pub const COMMON_HANDLERS: &'static str = r#"
use framework "AppKit"
use scripting additions

on pasteText(valueText)
    set the clipboard to valueText
    delay 0.2
    tell application "System Events"
        keystroke "v" using {command down}
    end tell
end pasteText

on pasteFile(posixPath)
    set fileUrl to current application's NSURL's fileURLWithPath:posixPath
    set pasteboard to current application's NSPasteboard's generalPasteboard()
    pasteboard's clearContents()
    set didWrite to pasteboard's writeObjects:{fileUrl}
    if (didWrite as boolean) is false then error "写入文件剪贴板失败"
    delay 0.2
    tell application "System Events"
        keystroke "v" using {command down}
    end tell
end pasteFile

on countExactStaticTexts(processName, expectedText)
    tell application "System Events"
        tell process processName
            set hitCount to 0
            try
                set mainWindow to my mainWeComWindow(processName)
                set uiElements to entire contents of mainWindow
                set uiTexts to {}
                repeat with itemElement in uiElements
                    try
                        if (role of itemElement as text) is "AXStaticText" then set end of uiTexts to itemElement
                    end try
                end repeat
                repeat with itemText in uiTexts
                    try
                        set actualText to value of itemText as text
                        if actualText is expectedText then set hitCount to hitCount + 1
                    end try
                end repeat
            end try
            return hitCount
        end tell
    end tell
end countExactStaticTexts

on clickFirstButton(processName, candidates)
    tell application "System Events"
        tell process processName
            set mainWindow to my mainWeComWindow(processName)
            repeat with buttonName in candidates
                try
                    click (first button of mainWindow whose name is (buttonName as text))
                    return buttonName as text
                end try
            end repeat
        end tell
    end tell
    return ""
end clickFirstButton

on sendActiveMessage(processName)
    set clickedButton to clickFirstButton(processName, {"发送"})
    if clickedButton is "" then
        tell application "System Events" to key code 36
    end if
end sendActiveMessage

on replaceText(sourceText, searchText, replacementText)
    set oldDelimiters to AppleScript's text item delimiters
    set AppleScript's text item delimiters to searchText
    set textParts to text items of sourceText
    set AppleScript's text item delimiters to replacementText
    set replacedText to textParts as text
    set AppleScript's text item delimiters to oldDelimiters
    return replacedText
end replaceText

on trimText(sourceText)
    set trimmedText to sourceText as text
    repeat while trimmedText begins with space or trimmedText begins with tab or trimmedText begins with linefeed or trimmedText begins with return
        if length of trimmedText is 1 then return ""
        set trimmedText to text 2 thru -1 of trimmedText
    end repeat
    repeat while trimmedText ends with space or trimmedText ends with tab or trimmedText ends with linefeed or trimmedText ends with return
        if length of trimmedText is 1 then return ""
        set trimmedText to text 1 thru -2 of trimmedText
    end repeat
    return trimmedText
end trimText

on sanitizeLine(sourceText)
    set sanitizedText to sourceText as text
    set sanitizedText to replaceText(sanitizedText, tab, " ")
    set sanitizedText to replaceText(sanitizedText, linefeed, "\\n")
    set sanitizedText to replaceText(sanitizedText, return, "\\n")
    return sanitizedText
end sanitizeLine

on absNumber(sourceNumber)
    if sourceNumber < 0 then return -sourceNumber
    return sourceNumber
end absNumber

on clickRecentConversation(processName, targetName)
    tell application "System Events"
        tell process processName
            try
                set mainWindow to my mainWeComWindow(processName)
                set listElements to entire contents of scroll area 1 of splitter group 1 of splitter group 1 of mainWindow
                repeat with itemElement in listElements
                    try
                        if (role of itemElement as text) is "AXStaticText" then
                            set rawText to value of itemElement as text
                            if rawText is targetName then
                                click itemElement
                                return true
                            end if
                        end if
                    end try
                end repeat
            end try
        end tell
    end tell
    return false
end clickRecentConversation

on isTargetConversationOpen(processName, targetName)
    tell application "System Events"
        tell process processName
            try
                set mainWindow to my mainWeComWindow(processName)
                set uiElements to entire contents of mainWindow
                repeat with itemElement in uiElements
                    try
                        if (role of itemElement as text) is "AXStaticText" then
                            set rawText to value of itemElement as text
                            if rawText is targetName then
                                set itemPosition to position of itemElement
                                set xPos to item 1 of itemPosition
                                set yPos to item 2 of itemPosition
                                if xPos > 300 and yPos > 40 and yPos < 140 then return true
                            end if
                        end if
                    end try
                end repeat
            end try
        end tell
    end tell
    return false
end isTargetConversationOpen

on mainWeComWindow(processName)
    tell application "System Events"
        tell process processName
            set bestWindow to missing value
            set bestArea to 0
            repeat with itemWindow in windows
                try
                    set itemSize to size of itemWindow
                    set itemWidth to item 1 of itemSize
                    set itemHeight to item 2 of itemSize
                    set itemArea to itemWidth * itemHeight
                    if itemArea > bestArea then
                        set bestArea to itemArea
                        set bestWindow to itemWindow
                    end if
                end try
            end repeat
            if bestWindow is missing value then error "未找到企业微信主窗口"
            return bestWindow
        end tell
    end tell
end mainWeComWindow
"#;

/// AppleScript handlers shared by the scripts that read the client.
pub const READ_HANDLERS: &'static str = r#"
on pasteText(valueText)
    set the clipboard to valueText
    delay 0.2
    tell application "System Events"
        keystroke "v" using {command down}
    end tell
end pasteText

on replaceText(sourceText, searchText, replacementText)
    set oldDelimiters to AppleScript's text item delimiters
    set AppleScript's text item delimiters to searchText
    set textParts to text items of sourceText
    set AppleScript's text item delimiters to replacementText
    set replacedText to textParts as text
    set AppleScript's text item delimiters to oldDelimiters
    return replacedText
end replaceText

on trimText(sourceText)
    set trimmedText to sourceText as text
    repeat while trimmedText begins with space or trimmedText begins with tab or trimmedText begins with linefeed or trimmedText begins with return
        if length of trimmedText is 1 then return ""
        set trimmedText to text 2 thru -1 of trimmedText
    end repeat
    repeat while trimmedText ends with space or trimmedText ends with tab or trimmedText ends with linefeed or trimmedText ends with return
        if length of trimmedText is 1 then return ""
        set trimmedText to text 1 thru -2 of trimmedText
    end repeat
    return trimmedText
end trimText

on sanitizeLine(sourceText)
    set sanitizedText to sourceText as text
    set sanitizedText to replaceText(sanitizedText, tab, " ")
    set sanitizedText to replaceText(sanitizedText, linefeed, "\\n")
    set sanitizedText to replaceText(sanitizedText, return, "\\n")
    return sanitizedText
end sanitizeLine

on absNumber(sourceNumber)
    if sourceNumber < 0 then return -sourceNumber
    return sourceNumber
end absNumber

on clickRecentConversation(processName, targetName)
    tell application "System Events"
        tell process processName
            try
                set mainWindow to my mainWeComWindow(processName)
                set listElements to entire contents of scroll area 1 of splitter group 1 of splitter group 1 of mainWindow
                repeat with itemElement in listElements
                    try
                        if (role of itemElement as text) is "AXStaticText" then
                            set rawText to value of itemElement as text
                            if rawText is targetName then
                                click itemElement
                                return true
                            end if
                        end if
                    end try
                end repeat
            end try
        end tell
    end tell
    return false
end clickRecentConversation

on isTargetConversationOpen(processName, targetName)
    tell application "System Events"
        tell process processName
            try
                set mainWindow to my mainWeComWindow(processName)
                set uiElements to entire contents of mainWindow
                repeat with itemElement in uiElements
                    try
                        if (role of itemElement as text) is "AXStaticText" then
                            set rawText to value of itemElement as text
                            if rawText is targetName then
                                set itemPosition to position of itemElement
                                set xPos to item 1 of itemPosition
                                set yPos to item 2 of itemPosition
                                if xPos > 300 and yPos > 40 and yPos < 140 then return true
                            end if
                        end if
                    end try
                end repeat
            end try
        end tell
    end tell
    return false
end isTargetConversationOpen

on mainWeComWindow(processName)
    tell application "System Events"
        tell process processName
            set bestWindow to missing value
            set bestArea to 0
            repeat with itemWindow in windows
                try
                    set itemSize to size of itemWindow
                    set itemWidth to item 1 of itemSize
                    set itemHeight to item 2 of itemSize
                    set itemArea to itemWidth * itemHeight
                    if itemArea > bestArea then
                        set bestArea to itemArea
                        set bestWindow to itemWindow
                    end if
                end try
            end repeat
            if bestWindow is missing value then error "未找到企业微信主窗口"
            return bestWindow
        end tell
    end tell
end mainWeComWindow
"#;

/// The handlers of the scripts that act on the client.
pub fn common_applescript_handlers() -> (s: &'static str)
    ensures
        s@ == COMMON_HANDLERS@,
{
    COMMON_HANDLERS
}

/// The handlers of the scripts that read the client.
pub fn desktop_read_applescript_handlers() -> (s: &'static str)
    ensures
        s@ == READ_HANDLERS@,
{
    READ_HANDLERS
}

/// `s` with `\` and `"` escaped by a backslash.
pub open spec fn applescript_escape(s: Seq<char>) -> Seq<char>
    decreases s.len(),
{
    if s.len() == 0 {
        s
    } else {
        let r = applescript_escape(s.drop_last());
        let c = s.last();
        if c == '\\' {
            r + seq!['\\', '\\']
        } else if c == '"' {
            r + seq!['\\', '"']
        } else {
            r.push(c)
        }
    }
}

/// `s` as an AppleScript string literal.
pub open spec fn applescript_literal(s: Seq<char>) -> Seq<char> {
    seq!['"'] + applescript_escape(s) + seq!['"']
}

fn applescript_literal_chars(s: &Vec<char>) -> (out: Vec<char>)
    ensures
        out@ == applescript_literal(s@),
{
    let mut out: Vec<char> = Vec::new();
    out.push('"');
    let mut i: usize = 0;
    while i < s.len()
        invariant
            i <= s.len(),
            out@ == seq!['"'] + applescript_escape(s@.take(i as int)),
        decreases s.len() - i,
    {
        assert(s@.take(i + 1).drop_last() == s@.take(i as int));
        let c = s[i];
        let ghost before = out@;
        if c == '\\' {
            out.push('\\');
            out.push('\\');
            assert(out@ =~= before + seq!['\\', '\\']);
        } else if c == '"' {
            out.push('\\');
            out.push('"');
            assert(out@ =~= before + seq!['\\', '"']);
        } else {
            out.push(c);
        }
        i += 1;
    }
    assert(s@.take(s.len() as int) == s@);
    out.push('"');
    out
}

/// Quotes `value` as an AppleScript string literal.
pub fn applescript_string_literal(value: &str) -> (out: String)
    ensures
        out@ == applescript_literal(value@),
{
    let v = chars_of(value);
    string_from(&applescript_literal_chars(&v))
}

fn literal_of(value: &str) -> (out: Vec<char>)
    ensures
        out@ == applescript_literal(value@),
{
    let v = chars_of(value);
    applescript_literal_chars(&v)
}


/// The script that adds an external contact.
pub open spec fn add_friend_script_text(process: Seq<char>, phone: Seq<char>, remark: Seq<char>, greeting: Seq<char>, bundle_id: Seq<char>) -> Seq<char> {
    r#"
"#@
        + COMMON_HANDLERS@
        + r#"
set processName to "#@
        + applescript_literal(process)
        + r#"
set phoneNumber to "#@
        + applescript_literal(phone)
        + r#"
set remarkText to "#@
        + applescript_literal(remark)
        + r#"
set greetingText to "#@
        + applescript_literal(greeting)
        + r#"

tell application id "#@
        + applescript_literal(bundle_id)
        + r#" to activate
delay 1
tell application "System Events"
    if not (exists process processName) then error "企业微信进程未启动"
    tell process processName to set frontmost to true
    keystroke "f" using {command down}
end tell
delay 0.4
pasteText(phoneNumber)
delay 1

set duplicateCount to countExactStaticTexts(processName, phoneNumber)
if duplicateCount > 1 then return "failed|搜索结果存在多个同手机号候选，请在企业微信中确认唯一联系人后重试"

tell application "System Events" to key code 36
delay 1

set existingButton to clickFirstButton(processName, {"发消息", "发送消息"})
if existingButton is not "" then return "already_exists|联系人已存在，可直接发消息"

set addButton to clickFirstButton(processName, {"添加", "添加联系人", "添加到通讯录", "添加为联系人", "添加客户", "添加外部联系人"})
if addButton is "" then return "failed|未找到添加外部联系人入口；可能无搜索结果、无权限、联系人已存在或客户端 UI 已变化"
delay 0.8

if greetingText is not "" then
    pasteText(greetingText)
    delay 0.2
end if

if remarkText is not "" then
    tell application "System Events" to key code 48
    delay 0.2
    pasteText(remarkText)
    delay 0.2
end if

set submitButton to clickFirstButton(processName, {"发送", "确定", "完成", "申请添加"})
if submitButton is "" then return "pending|已打开添加外部联系人流程，请在企业微信窗口手动确认"

return "pending|已提交或打开添加验证流程；对方确认前不会视为已添加"
"#@
}

/// The text of an optional string, empty when absent.
pub open spec fn or_empty(o: Option<Seq<char>>) -> Seq<char> {
    match o {
        Some(s) => s,
        None => Seq::<char>::empty(),
    }
}

/// The script that searches the phone number of `request` in the client
/// named `process_name` (bundle `bundle_id`) and asks to add the contact.
pub fn add_friend_script(request: &AddExternalFriendRequest, process_name: &str, bundle_id: &str) -> (s: String)
    ensures
        s@ == add_friend_script_text(
            process_name@,
            request.phone@,
            or_empty(opt_view(request.remark)),
            or_empty(opt_view(request.greeting)),
            bundle_id@,
        ),
{
    let process = literal_of(process_name);
    let bundle = literal_of(bundle_id);
    let phone = literal_of(request.phone.as_str());
    let remark = match &request.remark {
        Some(r) => literal_of(r.as_str()),
        None => literal_of(""),
    };
    let greeting = match &request.greeting {
        Some(g) => literal_of(g.as_str()),
        None => literal_of(""),
    };
    proof {
        reveal_strlit("");
    }
    let mut v: Vec<char> = Vec::new();
    append_str(&mut v, r#"
"#);
    append_str(&mut v, COMMON_HANDLERS);
    append_str(&mut v, r#"
set processName to "#);
    append_chars(&mut v, &process);
    append_str(&mut v, r#"
set phoneNumber to "#);
    append_chars(&mut v, &phone);
    append_str(&mut v, r#"
set remarkText to "#);
    append_chars(&mut v, &remark);
    append_str(&mut v, r#"
set greetingText to "#);
    append_chars(&mut v, &greeting);
    append_str(&mut v, r#"

tell application id "#);
    append_chars(&mut v, &bundle);
    append_str(&mut v, r#" to activate
delay 1
tell application "System Events"
    if not (exists process processName) then error "企业微信进程未启动"
    tell process processName to set frontmost to true
    keystroke "f" using {command down}
end tell
delay 0.4
pasteText(phoneNumber)
delay 1

set duplicateCount to countExactStaticTexts(processName, phoneNumber)
if duplicateCount > 1 then return "failed|搜索结果存在多个同手机号候选，请在企业微信中确认唯一联系人后重试"

tell application "System Events" to key code 36
delay 1

set existingButton to clickFirstButton(processName, {"发消息", "发送消息"})
if existingButton is not "" then return "already_exists|联系人已存在，可直接发消息"

set addButton to clickFirstButton(processName, {"添加", "添加联系人", "添加到通讯录", "添加为联系人", "添加客户", "添加外部联系人"})
if addButton is "" then return "failed|未找到添加外部联系人入口；可能无搜索结果、无权限、联系人已存在或客户端 UI 已变化"
delay 0.8

if greetingText is not "" then
    pasteText(greetingText)
    delay 0.2
end if

if remarkText is not "" then
    tell application "System Events" to key code 48
    delay 0.2
    pasteText(remarkText)
    delay 0.2
end if

set submitButton to clickFirstButton(processName, {"发送", "确定", "完成", "申请添加"})
if submitButton is "" then return "pending|已打开添加外部联系人流程，请在企业微信窗口手动确认"

return "pending|已提交或打开添加验证流程；对方确认前不会视为已添加"
"#);
    string_from(&v)
}

/// The part of the send script that pastes and sends the payload.
pub open spec fn payload_script_text(payload: FriendMessagePayload) -> Seq<char> {
    match payload {
        FriendMessagePayload::Text(text) => r#"pasteText("#@ + applescript_literal(text@) + r#")
delay 0.4
tell application "System Events" to key code 36"#@,
        FriendMessagePayload::Image(path) => r#"pasteFile("#@ + applescript_literal(path@) + r#")
delay 1.2
sendActiveMessage(processName)"#@,
        FriendMessagePayload::File(path) => r#"pasteFile("#@ + applescript_literal(path@) + r#")
delay 1.2
sendActiveMessage(processName)"#@,
    }
}

/// The AppleScript lines that paste `payload` into the open conversation
/// and send it.
pub fn send_payload_script(payload: &FriendMessagePayload) -> (s: String)
    ensures
        s@ == payload_script_text(*payload),
{
    let mut v: Vec<char> = Vec::new();
    match payload {
        FriendMessagePayload::Text(text) => {
            append_str(&mut v, r#"pasteText("#);
            append_chars(&mut v, &literal_of(text.as_str()));
            append_str(&mut v, r#")
delay 0.4
tell application "System Events" to key code 36"#);
        },
        FriendMessagePayload::Image(path) => {
            append_str(&mut v, r#"pasteFile("#);
            append_chars(&mut v, &literal_of(path.as_str()));
            append_str(&mut v, r#")
delay 1.2
sendActiveMessage(processName)"#);
        },
        FriendMessagePayload::File(path) => {
            append_str(&mut v, r#"pasteFile("#);
            append_chars(&mut v, &literal_of(path.as_str()));
            append_str(&mut v, r#")
delay 1.2
sendActiveMessage(processName)"#);
        },
    }
    string_from(&v)
}

/// The script that sends a message to a friend.
pub open spec fn send_message_script_text(process: Seq<char>, target: Seq<char>, bundle_id: Seq<char>, payload: FriendMessagePayload) -> Seq<char> {
    r#"
"#@
        + COMMON_HANDLERS@
        + r#"
set processName to "#@
        + applescript_literal(process)
        + r#"
set targetName to "#@
        + applescript_literal(target)
        + r#"

tell application id "#@
        + applescript_literal(bundle_id)
        + r#" to activate
delay 1
tell application "System Events"
    if not (exists process processName) then error "企业微信进程未启动"
    tell process processName to set frontmost to true
    keystroke "f" using {command down}
end tell
delay 0.4
pasteText(targetName)
delay 1

set duplicateCount to countExactStaticTexts(processName, targetName)
if duplicateCount > 1 then return "failed|搜索结果存在多个同名候选，请使用唯一备注名后重试"

tell application "System Events" to key code 36
delay 0.8
"#@
        + payload_script_text(payload)
        + r#"

return "sent|已触发企业微信桌面发送，并完成发送前校验"
"#@
}

/// The script that opens the conversation with `request.to` in the client
/// named `process_name` (bundle `bundle_id`) and sends the payload.
pub fn send_message_script(request: &SendFriendMessageRequest, process_name: &str, bundle_id: &str) -> (s: String)
    ensures
        s@ == send_message_script_text(process_name@, request.to@, bundle_id@, request.payload),
{
    let process = literal_of(process_name);
    let bundle = literal_of(bundle_id);
    let target = literal_of(request.to.as_str());
    let payload = chars_of(send_payload_script(&request.payload).as_str());
    let mut v: Vec<char> = Vec::new();
    append_str(&mut v, r#"
"#);
    append_str(&mut v, COMMON_HANDLERS);
    append_str(&mut v, r#"
set processName to "#);
    append_chars(&mut v, &process);
    append_str(&mut v, r#"
set targetName to "#);
    append_chars(&mut v, &target);
    append_str(&mut v, r#"

tell application id "#);
    append_chars(&mut v, &bundle);
    append_str(&mut v, r#" to activate
delay 1
tell application "System Events"
    if not (exists process processName) then error "企业微信进程未启动"
    tell process processName to set frontmost to true
    keystroke "f" using {command down}
end tell
delay 0.4
pasteText(targetName)
delay 1

set duplicateCount to countExactStaticTexts(processName, targetName)
if duplicateCount > 1 then return "failed|搜索结果存在多个同名候选，请使用唯一备注名后重试"

tell application "System Events" to key code 36
delay 0.8
"#);
    append_chars(&mut v, &payload);
    append_str(&mut v, r#"

return "sent|已触发企业微信桌面发送，并完成发送前校验"
"#);
    string_from(&v)
}

/// The script that reads the text messages of a conversation.
pub open spec fn read_messages_script_text(process: Seq<char>, target: Seq<char>) -> Seq<char> {
    r#"
"#@
        + READ_HANDLERS@
        + r#"
set processName to "#@
        + applescript_literal(process)
        + r#"
set targetName to "#@
        + applescript_literal(target)
        + r#"

tell application "#@
        + applescript_literal(process)
        + r#" to activate
delay 0.15
tell application "System Events"
    if not (exists process processName) then error "企业微信进程未启动"
    tell process processName to set frontmost to true
end tell

if my clickRecentConversation(processName, targetName) then
    delay 0.15
else
    tell application "System Events"
        tell process processName to set frontmost to true
        keystroke "f" using {command down}
    end tell
    delay 0.2
    pasteText(targetName)
    delay 0.4
    tell application "System Events" to key code 36
    delay 0.8
end if

set outputLines to {}
tell application "System Events"
    tell process processName
        set mainWindow to my mainWeComWindow(processName)
        set textIndex to 0
        try
            set uiElements to entire contents of scroll area 1 of splitter group 1 of splitter group 1 of splitter group 1 of splitter group 1 of mainWindow
        on error
            set uiElements to entire contents of mainWindow
        end try
        repeat with itemElement in uiElements
            try
                if (role of itemElement as text) is "AXTextArea" then
                    set rawText to value of itemElement as text
                    set cleanText to my trimText(rawText)
                    if cleanText is not "" then
                        set itemPosition to position of itemElement as text
                        set itemSize to size of itemElement as text
                        set textIndex to textIndex + 1
                        set end of outputLines to (textIndex as text) & tab & my sanitizeLine(itemPosition) & tab & my sanitizeLine(itemSize) & tab & my sanitizeLine(cleanText)
                    end if
                end if
            end try
        end repeat
    end tell
end tell

set AppleScript's text item delimiters to linefeed
set joinedOutput to outputLines as text
set AppleScript's text item delimiters to ""
return joinedOutput
"#@
}

/// The script that opens the conversation with `target` in the client named
/// `process_name` and prints its text messages, one per line.
pub fn read_friend_messages_script(process_name: &str, target: &str) -> (s: String)
    ensures
        s@ == read_messages_script_text(process_name@, target@),
{
    let process = literal_of(process_name);
    let tgt = literal_of(target);
    let mut v: Vec<char> = Vec::new();
    append_str(&mut v, r#"
"#);
    append_str(&mut v, READ_HANDLERS);
    append_str(&mut v, r#"
set processName to "#);
    append_chars(&mut v, &process);
    append_str(&mut v, r#"
set targetName to "#);
    append_chars(&mut v, &tgt);
    append_str(&mut v, r#"

tell application "#);
    append_chars(&mut v, &process);
    append_str(&mut v, r#" to activate
delay 0.15
tell application "System Events"
    if not (exists process processName) then error "企业微信进程未启动"
    tell process processName to set frontmost to true
end tell

if my clickRecentConversation(processName, targetName) then
    delay 0.15
else
    tell application "System Events"
        tell process processName to set frontmost to true
        keystroke "f" using {command down}
    end tell
    delay 0.2
    pasteText(targetName)
    delay 0.4
    tell application "System Events" to key code 36
    delay 0.8
end if

set outputLines to {}
tell application "System Events"
    tell process processName
        set mainWindow to my mainWeComWindow(processName)
        set textIndex to 0
        try
            set uiElements to entire contents of scroll area 1 of splitter group 1 of splitter group 1 of splitter group 1 of splitter group 1 of mainWindow
        on error
            set uiElements to entire contents of mainWindow
        end try
        repeat with itemElement in uiElements
            try
                if (role of itemElement as text) is "AXTextArea" then
                    set rawText to value of itemElement as text
                    set cleanText to my trimText(rawText)
                    if cleanText is not "" then
                        set itemPosition to position of itemElement as text
                        set itemSize to size of itemElement as text
                        set textIndex to textIndex + 1
                        set end of outputLines to (textIndex as text) & tab & my sanitizeLine(itemPosition) & tab & my sanitizeLine(itemSize) & tab & my sanitizeLine(cleanText)
                    end if
                end if
            end try
        end repeat
    end tell
end tell

set AppleScript's text item delimiters to linefeed
set joinedOutput to outputLines as text
set AppleScript's text item delimiters to ""
return joinedOutput
"#);
    string_from(&v)
}

/// The script that reads the recent-chat list.
pub open spec fn read_recent_script_text(process: Seq<char>, limit: nat) -> Seq<char> {
    r#"
"#@
        + READ_HANDLERS@
        + r#"
set processName to "#@
        + applescript_literal(process)
        + r#"
set maxTargets to "#@
        + decimal(if limit < 1 { 1 } else { limit })
        + r#"

tell application "#@
        + applescript_literal(process)
        + r#" to activate
delay 0.15
tell application "System Events"
    if not (exists process processName) then error "企业微信进程未启动"
    tell process processName
        set frontmost to true
        key code 53
        delay 0.05
        key code 53
    end tell
end tell
delay 0.1

set outputLines to {}
tell application "System Events"
    tell process processName
        set mainWindow to my mainWeComWindow(processName)
        set textIndex to 0
        try
            set uiElements to entire contents of scroll area 1 of splitter group 1 of splitter group 1 of mainWindow
        on error
            set uiElements to entire contents of mainWindow
        end try
        repeat with itemElement in uiElements
            try
                if (role of itemElement as text) is "AXStaticText" then
                    set rawText to value of itemElement as text
                    set cleanText to my trimText(rawText)
                    if cleanText is not "" then
                        set textIndex to textIndex + 1
                        set end of outputLines to (textIndex as text) & tab & my sanitizeLine(cleanText)
                    end if
                end if
            end try
        end repeat
    end tell
end tell

set AppleScript's text item delimiters to linefeed
set joinedOutput to outputLines as text
set AppleScript's text item delimiters to ""
return joinedOutput
"#@
}

/// The script that prints the recent-chat list of the client named
/// `process_name`; at least 1 row is asked for.
pub fn read_recent_chats_script(process_name: &str, limit: usize) -> (s: String)
    ensures
        s@ == read_recent_script_text(process_name@, limit as nat),
{
    let process = literal_of(process_name);
    let wanted: u64 = if limit < 1 {
        1
    } else {
        limit as u64
    };
    let mut v: Vec<char> = Vec::new();
    append_str(&mut v, r#"
"#);
    append_str(&mut v, READ_HANDLERS);
    append_str(&mut v, r#"
set processName to "#);
    append_chars(&mut v, &process);
    append_str(&mut v, r#"
set maxTargets to "#);
    push_decimal(&mut v, wanted);
    append_str(&mut v, r#"

tell application "#);
    append_chars(&mut v, &process);
    append_str(&mut v, r#" to activate
delay 0.15
tell application "System Events"
    if not (exists process processName) then error "企业微信进程未启动"
    tell process processName
        set frontmost to true
        key code 53
        delay 0.05
        key code 53
    end tell
end tell
delay 0.1

set outputLines to {}
tell application "System Events"
    tell process processName
        set mainWindow to my mainWeComWindow(processName)
        set textIndex to 0
        try
            set uiElements to entire contents of scroll area 1 of splitter group 1 of splitter group 1 of mainWindow
        on error
            set uiElements to entire contents of mainWindow
        end try
        repeat with itemElement in uiElements
            try
                if (role of itemElement as text) is "AXStaticText" then
                    set rawText to value of itemElement as text
                    set cleanText to my trimText(rawText)
                    if cleanText is not "" then
                        set textIndex to textIndex + 1
                        set end of outputLines to (textIndex as text) & tab & my sanitizeLine(cleanText)
                    end if
                end if
            end try
        end repeat
    end tell
end tell

set AppleScript's text item delimiters to linefeed
set joinedOutput to outputLines as text
set AppleScript's text item delimiters to ""
return joinedOutput
"#);
    string_from(&v)
}


// ---------------------------------------------------------------------
// Results of the desktop scripts
// ---------------------------------------------------------------------

/// The status that an add-contact script line names, if it is known.
pub open spec fn friend_status_named(s: Seq<char>) -> Option<ExternalFriendStatus> {
    if s == "added"@ {
        Some(ExternalFriendStatus::Added)
    } else if s == "pending"@ {
        Some(ExternalFriendStatus::Pending)
    } else if s == "already_exists"@ {
        Some(ExternalFriendStatus::AlreadyExists)
    } else if s == "failed"@ {
        Some(ExternalFriendStatus::Failed)
    } else {
        None
    }
}

/// Law: each status word of the add-contact script gives its own status,
/// and only that word gives it: `added`, `pending`, `already_exists` and
/// `failed`; any other word is not a known status.
pub proof fn lemma_friend_status_words(w: Seq<char>)
    ensures
        friend_status_named(w) == Some(ExternalFriendStatus::Added) <==> w == "added"@,
        friend_status_named(w) == Some(ExternalFriendStatus::Pending) <==> w == "pending"@,
        friend_status_named(w) == Some(ExternalFriendStatus::AlreadyExists) <==> w
            == "already_exists"@,
        friend_status_named(w) == Some(ExternalFriendStatus::Failed) <==> w == "failed"@,
        friend_status_named(w) is None <==> (w != "added"@ && w != "pending"@ && w
            != "already_exists"@ && w != "failed"@),
{
    reveal_strlit("added");
    reveal_strlit("pending");
    reveal_strlit("already_exists");
    reveal_strlit("failed");
    assert("added"@.len() == 5 && "pending"@.len() == 7 && "already_exists"@.len() == 14
        && "failed"@.len() == 6);
}

/// The detail given when a script prints a status that is not known.
pub open spec fn unknown_status_detail(s: Seq<char>) -> Seq<char> {
    "无法识别桌面自动化结果: "@ + s
}

/// Reads the result of the add-contact script from the line `raw` it
/// printed: a known status and its detail, or `Failed` with a detail naming
/// the status that was not recognized.
pub fn add_external_friend_result(request: &AddExternalFriendRequest, raw: &str) -> (r:
    AddExternalFriendResult)
    ensures
        r.phone@ == request.phone@,
        opt_view(r.remark) == opt_view(request.remark),
        opt_view(r.greeting) == opt_view(request.greeting),
        ({
            let (status, detail) = script_status(raw@);
            match friend_status_named(status) {
                Some(s) => r.status == s && opt_view(r.detail) == detail,
                None => r.status == ExternalFriendStatus::Failed && opt_view(r.detail) == Some(
                    unknown_status_detail(status),
                ),
            }
        }),
{
    let (status, detail) = split_script_status(raw);
    let st = chars_of(status.as_str());
    let known = if chars_eq(&st, &chars_of("added")) {
        Some(ExternalFriendStatus::Added)
    } else if chars_eq(&st, &chars_of("pending")) {
        Some(ExternalFriendStatus::Pending)
    } else if chars_eq(&st, &chars_of("already_exists")) {
        Some(ExternalFriendStatus::AlreadyExists)
    } else if chars_eq(&st, &chars_of("failed")) {
        Some(ExternalFriendStatus::Failed)
    } else {
        None
    };
    let (status, detail) = match known {
        Some(s) => (s, detail),
        None => (
            ExternalFriendStatus::Failed,
            Some(concat_str("无法识别桌面自动化结果: ", status.as_str())),
        ),
    };
    AddExternalFriendResult {
        phone: copy_string(&request.phone),
        remark: copy_opt(&request.remark),
        greeting: copy_opt(&request.greeting),
        status,
        detail,
    }
}

/// A copy of an optional string.
pub fn copy_opt(o: &Option<String>) -> (r: Option<String>)
    ensures
        opt_view(r) == opt_view(*o),
{
    match o {
        Some(s) => Some(copy_string(s)),
        None => None,
    }
}

/// The status that a send-message script line names, if it is known.
pub open spec fn send_status_named(s: Seq<char>) -> Option<SendFriendStatus> {
    if s == "sent"@ {
        Some(SendFriendStatus::Sent)
    } else if s == "failed"@ {
        Some(SendFriendStatus::Failed)
    } else {
        None
    }
}

/// Law: a send is reported `Sent` exactly when the script's status word
/// is `sent`, and `Failed` as a known status exactly when it is `failed`;
/// the result of `send_friend_message_result` carries that status, and
/// `Failed` for any other word.
pub proof fn lemma_send_status_words(w: Seq<char>)
    ensures
        send_status_named(w) == Some(SendFriendStatus::Sent) <==> w == "sent"@,
        send_status_named(w) == Some(SendFriendStatus::Failed) <==> w == "failed"@,
        send_status_named(w) is None <==> (w != "sent"@ && w != "failed"@),
{
    reveal_strlit("sent");
    reveal_strlit("failed");
    assert("sent"@.len() == 4 && "failed"@.len() == 6);
}

/// The path that a payload sends, if any.
pub open spec fn payload_path(p: FriendMessagePayload) -> Option<Seq<char>> {
    match p {
        FriendMessagePayload::Text(_) => None,
        FriendMessagePayload::Image(path) => Some(path@),
        FriendMessagePayload::File(path) => Some(path@),
    }
}

/// The kind of message a payload sends.
pub open spec fn payload_type(p: FriendMessagePayload) -> FriendMessageType {
    match p {
        FriendMessagePayload::Text(_) => FriendMessageType::Text,
        FriendMessagePayload::Image(_) => FriendMessageType::Image,
        FriendMessagePayload::File(_) => FriendMessageType::File,
    }
}

/// Reads the result of the send-message script from the line `raw` it
/// printed, the same way as `add_external_friend_result`.
pub fn send_friend_message_result(request: &SendFriendMessageRequest, raw: &str) -> (r:
    SendFriendMessageResult)
    ensures
        r.to@ == request.to@,
        r.message_type == payload_type(request.payload),
        opt_view(r.file_path) == payload_path(request.payload),
        ({
            let (status, detail) = script_status(raw@);
            match send_status_named(status) {
                Some(s) => r.status == s && opt_view(r.detail) == detail,
                None => r.status == SendFriendStatus::Failed && opt_view(r.detail) == Some(
                    unknown_status_detail(status),
                ),
            }
        }),
{
    let (status, detail) = split_script_status(raw);
    let st = chars_of(status.as_str());
    let known = if chars_eq(&st, &chars_of("sent")) {
        Some(SendFriendStatus::Sent)
    } else if chars_eq(&st, &chars_of("failed")) {
        Some(SendFriendStatus::Failed)
    } else {
        None
    };
    let (status, detail) = match known {
        Some(s) => (s, detail),
        None => (
            SendFriendStatus::Failed,
            Some(concat_str("无法识别桌面自动化结果: ", status.as_str())),
        ),
    };
    SendFriendMessageResult {
        to: copy_string(&request.to),
        message_type: request.payload.message_type(),
        file_path: request.payload.file_path(),
        status,
        detail,
    }
}

/// The number of recent conversations that a read of the desktop client
/// asks for: at least one.
pub fn recent_chat_read_limit(limit: usize) -> (n: usize)
    ensures
        n == if limit == 0 {
            1
        } else {
            limit
        },
{
    if limit == 0 {
        1
    } else {
        limit
    }
}

/// A way to drive the WeCom desktop client.
pub trait WeComDesktopDriver {
    /// Adds an external contact by phone number.
    fn add_external_friend(&self, request: &AddExternalFriendRequest) -> Result<
        AddExternalFriendResult,
        DesktopError,
    >;

    /// Sends a text, an image or a file to a friend.
    fn send_friend_message(&self, request: &SendFriendMessageRequest) -> Result<
        SendFriendMessageResult,
        DesktopError,
    >;
}

/// The driver for platforms without the desktop client: every request is
/// refused.
pub struct UnsupportedWeComDesktopDriver;

impl WeComDesktopDriver for UnsupportedWeComDesktopDriver {
    fn add_external_friend(&self, request: &AddExternalFriendRequest) -> (r: Result<
        AddExternalFriendResult,
        DesktopError,
    >)
        ensures
            r == Err::<AddExternalFriendResult, DesktopError>(DesktopError::UnsupportedPlatform),
    {
        Err(DesktopError::UnsupportedPlatform)
    }

    fn send_friend_message(&self, request: &SendFriendMessageRequest) -> (r: Result<
        SendFriendMessageResult,
        DesktopError,
    >)
        ensures
            r == Err::<SendFriendMessageResult, DesktopError>(DesktopError::UnsupportedPlatform),
    {
        Err(DesktopError::UnsupportedPlatform)
    }
}

// ---------------------------------------------------------------------
// Local files
// ---------------------------------------------------------------------

/// What `mime_guess` guesses from the extension of `path`
/// (`from_path(path).first_or_octet_stream()`): its top-level type and the
/// whole media type.
pub uninterp spec fn path_mime_guess(path: Seq<char>) -> (Seq<char>, Seq<char>);

/// The media type that `mime_guess` guesses from the extension of `path`
/// (`application/octet-stream` when it knows none), as its top-level type
/// and its whole text. The result depends on `path` only.
#[verifier::external_body]
fn guess_path_mime(path: &str) -> (r: (String, String))
    ensures
        (r.0@, r.1@) == path_mime_guess(path@),
{
    let m = mime_guess::from_path(path).first_or_octet_stream();
    (m.type_().as_str().to_string(), m.to_string())
}

/// Outcome of checking a resolved path.
pub enum FileCheck {
    Accepted,
    NotAFile,
    NotAnImage,
}

/// How `check_file_usage` judges a resolved path: refused when it is not a
/// regular file, or, for an image, when the guessed top-level media type is
/// not `image`.
pub open spec fn file_usage_check(path: Seq<char>, is_file: bool, usage: FileUsage) -> FileCheck {
    if !is_file {
        FileCheck::NotAFile
    } else if usage == FileUsage::Image && path_mime_guess(path).0 != "image"@ {
        FileCheck::NotAnImage
    } else {
        FileCheck::Accepted
    }
}

/// Checks a resolved local path before it is sent: it must be a regular file
/// (`is_file`, from the file system), and an image must have an extension
/// that `mime_guess` maps to `image/*`.
pub fn check_file_usage(canonical_path: &str, is_file: bool, usage: FileUsage) -> (r: Result<
    String,
    DesktopError,
>)
    ensures
        match r {
            Ok(p) => file_usage_check(canonical_path@, is_file, usage) is Accepted && p@
                == canonical_path@,
            Err(DesktopError::NotAFile(p)) => file_usage_check(canonical_path@, is_file, usage) is NotAFile
                && p@ == canonical_path@,
            Err(DesktopError::NotAnImage { path, mime }) => file_usage_check(
                canonical_path@,
                is_file,
                usage,
            ) is NotAnImage && path@ == canonical_path@ && mime@ == path_mime_guess(
                canonical_path@,
            ).1,
            _ => false,
        },
{
    proof {
        reveal_strlit("");
    }
    if !is_file {
        return Err(DesktopError::NotAFile(concat_str(canonical_path, "")));
    }
    if usage == FileUsage::Image {
        let (top, full) = guess_path_mime(canonical_path);
        if !str_eq(top.as_str(), "image") {
            return Err(DesktopError::NotAnImage { path: concat_str(canonical_path, ""), mime: full });
        }
    }
    Ok(concat_str(canonical_path, ""))
}

} // verus!
