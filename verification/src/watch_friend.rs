//! Watching a friend's conversation: resolving a target name to a chat,
//! the key that identifies a message across polls, the time window of a
//! poll in Beijing time, and the record printed for each new message.
use vstd::prelude::*;

use crate::collections::{compare_str, seq_lt, StringSet};
use crate::desktop::{copy_opt, opt_view, DesktopChatMessage, DesktopError};
use crate::json::{
    entries_view, jview, json_text, lemma_entries_view, lemma_items_view, lemma_items_view_prefix, items_view,
    view_get, view_path, view_str, JsonNumber, JsonValue, JsonView, NumView,
};
use crate::text::{
    append_str, contains_seq, copy_string, decimal, push_decimal, str_contains, str_eq,
    string_from,
};

verus! {

/// A conversation of the chat list that the server returns.
#[derive(Debug, Clone, PartialEq, Eq)]
pub struct ChatSummary {
    pub chat_id: String,
    pub chat_name: String,
    pub last_msg_time: Option<String>,
    pub msg_count: Option<u64>,
}

/// The mathematical form of a [`ChatSummary`].
pub struct ChatView {
    pub chat_id: Seq<char>,
    pub chat_name: Seq<char>,
    pub last_msg_time: Option<Seq<char>>,
    pub msg_count: Option<u64>,
}

impl View for ChatSummary {
    type V = ChatView;

    open spec fn view(&self) -> ChatView {
        ChatView {
            chat_id: self.chat_id@,
            chat_name: self.chat_name@,
            last_msg_time: opt_view(self.last_msg_time),
            msg_count: self.msg_count,
        }
    }
}

/// A member of the address book.
#[derive(Debug, Clone, PartialEq, Eq)]
pub struct ContactUser {
    pub userid: String,
    pub name: String,
    pub alias: String,
}

/// The mathematical form of a [`ContactUser`].
pub struct ContactView {
    pub userid: Seq<char>,
    pub name: Seq<char>,
    pub alias: Seq<char>,
}

impl View for ContactUser {
    type V = ContactView;

    open spec fn view(&self) -> ContactView {
        ContactView { userid: self.userid@, name: self.name@, alias: self.alias@ }
    }
}

/// The keys of the messages already printed.
#[derive(Debug, Clone, PartialEq, Eq, Default)]
pub struct WatchState {
    pub seen: StringSet,
}

/// What a printed message says of the conversation it came from.
#[derive(Debug, Clone, PartialEq, Eq)]
pub struct WatchTargetMeta {
    pub target: String,
    pub chat_id: String,
    pub chat_name: String,
}

/// Why resolving or watching a target failed.
#[derive(Debug, Clone, PartialEq, Eq)]
pub enum WatchError {
    /// More than one conversation or member matches; the text lists them.
    Ambiguous(String),
    /// The polling interval is zero.
    ZeroInterval,
    /// A target name was refused.
    InvalidTarget(DesktopError),
    /// A server response lacks the named array.
    MissingArray(String),
    /// An item of a server response has a field of the wrong type.
    MalformedItem(String),
    /// The queue file looks like a JSON array but is not an array of
    /// strings; the text is the parser's.
    QueueJson(String),
    /// No friend to watch was named.
    NoTarget,
    /// A state file was named for several friends.
    StateFileWithManyTargets,
    /// A friend was named twice.
    DuplicateTarget(String),
    /// A friend is neither a recent conversation nor a member.
    TargetNotFound(String),
    /// Two names lead to the same conversation: its id, and the second name.
    DuplicateChat(String, String),
}

impl WatchError {
    /// The message shown to the user.
    pub fn message(&self) -> (m: String)
        ensures
            m@ == watch_error_text(*self),
    {
        match self {
            WatchError::Ambiguous(t) => copy_string(t),
            WatchError::ZeroInterval => "--interval-sec 必须大于 0".to_owned(),
            WatchError::InvalidTarget(e) => e.message(),
            WatchError::MissingArray(t) => copy_string(t),
            WatchError::MalformedItem(t) => copy_string(t),
            WatchError::QueueJson(t) => copy_string(t),
            WatchError::NoTarget => "至少需要一个 --to".to_owned(),
            WatchError::StateFileWithManyTargets => "--state-file 仅支持单个 --to，多目标模式会按 chat_id 自动保存独立状态文件".to_owned(),
            WatchError::DuplicateTarget(t) => crate::desktop::concat_str("--to 重复: ", t.as_str()),
            WatchError::TargetNotFound(t) => crate::desktop::concat_str(
                "未在最近 7 天会话列表或通讯录中找到好友: ",
                t.as_str(),
            ),
            WatchError::DuplicateChat(id, t) => {
                let mut v: Vec<char> = Vec::new();
                append_str(&mut v, "多个 --to 解析到同一 chat_id: ");
                append_str(&mut v, id.as_str());
                append_str(&mut v, " target=\"");
                append_str(&mut v, t.as_str());
                append_str(&mut v, "\"");
                string_from(&v)
            },
        }
    }
}

/// The text of an error.
pub open spec fn watch_error_text(e: WatchError) -> Seq<char> {
    match e {
        WatchError::Ambiguous(t) => t@,
        WatchError::ZeroInterval => "--interval-sec 必须大于 0"@,
        WatchError::InvalidTarget(d) => crate::desktop::desktop_error_text(d),
        WatchError::MissingArray(t) => t@,
        WatchError::MalformedItem(t) => t@,
        WatchError::QueueJson(t) => t@,
        WatchError::NoTarget => "至少需要一个 --to"@,
        WatchError::StateFileWithManyTargets => "--state-file 仅支持单个 --to，多目标模式会按 chat_id 自动保存独立状态文件"@,
        WatchError::DuplicateTarget(t) => "--to 重复: "@ + t@,
        WatchError::TargetNotFound(t) => "未在最近 7 天会话列表或通讯录中找到好友: "@ + t@,
        WatchError::DuplicateChat(id, t) => "多个 --to 解析到同一 chat_id: "@ + id@ + " target=\""@ + t@
            + "\""@,
    }
}

impl ChatSummary {
    /// A copy of this summary.
    pub fn copy(&self) -> (r: ChatSummary)
        ensures
            r@ == self@,
    {
        ChatSummary {
            chat_id: copy_string(&self.chat_id),
            chat_name: copy_string(&self.chat_name),
            last_msg_time: copy_opt(&self.last_msg_time),
            msg_count: self.msg_count,
        }
    }
}

impl ContactUser {
    /// A copy of this member.
    pub fn copy(&self) -> (r: ContactUser)
        ensures
            r@ == self@,
    {
        ContactUser {
            userid: copy_string(&self.userid),
            name: copy_string(&self.name),
            alias: copy_string(&self.alias),
        }
    }
}

/// The forms of a sequence of summaries.
pub open spec fn chat_views(s: Seq<ChatSummary>) -> Seq<ChatView> {
    s.map_values(|c: ChatSummary| c@)
}

/// The forms of a sequence of members.
pub open spec fn contact_views(s: Seq<ContactUser>) -> Seq<ContactView> {
    s.map_values(|u: ContactUser| u@)
}

// ---------------------------------------------------------------------
// Resolving a target to a conversation or a member
// ---------------------------------------------------------------------

/// A conversation whose id or name is exactly `t`.
pub open spec fn chat_exact(c: ChatView, t: Seq<char>) -> bool {
    c.chat_id == t || c.chat_name == t
}

/// A conversation whose name contains `t`.
pub open spec fn chat_fuzzy(c: ChatView, t: Seq<char>) -> bool {
    contains_seq(c.chat_name, t)
}

/// A member whose id, name or (non-empty) alias is exactly `t`.
pub open spec fn contact_exact(u: ContactView, t: Seq<char>) -> bool {
    u.userid == t || u.name == t || (u.alias.len() > 0 && u.alias == t)
}

/// A member whose name or (non-empty) alias contains `t`.
pub open spec fn contact_fuzzy(u: ContactView, t: Seq<char>) -> bool {
    contains_seq(u.name, t) || (u.alias.len() > 0 && contains_seq(u.alias, t))
}

/// The JSON of an optional string: the string, or `null`.
pub open spec fn opt_str_json(o: Option<Seq<char>>) -> JsonView {
    match o {
        Some(s) => JsonView::Str(s),
        None => JsonView::Null,
    }
}

/// A conversation as JSON, its fields in declaration order.
pub open spec fn chat_json(c: ChatView) -> JsonView {
    JsonView::Object(
        seq![
            ("chat_id"@, JsonView::Str(c.chat_id)),
            ("chat_name"@, JsonView::Str(c.chat_name)),
            ("last_msg_time"@, opt_str_json(c.last_msg_time)),
            ("msg_count"@, match c.msg_count {
                Some(n) => JsonView::Number(NumView::PosInt(n)),
                None => JsonView::Null,
            }),
        ],
    )
}

/// A member as JSON, its fields in declaration order.
pub open spec fn contact_json(u: ContactView) -> JsonView {
    JsonView::Object(
        seq![
            ("userid"@, JsonView::Str(u.userid)),
            ("name"@, JsonView::Str(u.name)),
            ("alias"@, JsonView::Str(u.alias)),
        ],
    )
}

/// The text of an ambiguity error: the reason and the candidates, as
/// compact JSON, the reason first.
pub open spec fn ambiguity_text(reason: Seq<char>, candidates: Seq<JsonView>) -> Seq<char> {
    json_text(
        JsonView::Object(
            seq![("error"@, JsonView::Str(reason)), ("candidates"@, JsonView::Array(candidates))],
        ),
    )
}

/// What resolving `t` among the recent conversations `cs` gives: the one
/// exact match, else the one fuzzy match, else nothing; or the text of
/// the error when several match at the first level that matches at all.
pub open spec fn select_chat_spec(t: Seq<char>, cs: Seq<ChatView>) -> Result<
    Option<ChatView>,
    Seq<char>,
> {
    let exact = cs.filter(|c: ChatView| chat_exact(c, t));
    let fuzzy = cs.filter(|c: ChatView| chat_fuzzy(c, t));
    if exact.len() == 1 {
        Ok(Some(exact[0]))
    } else if exact.len() > 1 {
        Err(ambiguity_text("找到多个精确匹配会话"@, exact.map_values(|c: ChatView| chat_json(c))))
    } else if fuzzy.len() == 1 {
        Ok(Some(fuzzy[0]))
    } else if fuzzy.len() > 1 {
        Err(ambiguity_text("找到多个模糊匹配会话"@, fuzzy.map_values(|c: ChatView| chat_json(c))))
    } else {
        Ok(None)
    }
}

/// What resolving `t` among the members `us` gives, as for conversations.
pub open spec fn select_contact_spec(t: Seq<char>, us: Seq<ContactView>) -> Result<
    Option<ContactView>,
    Seq<char>,
> {
    let exact = us.filter(|u: ContactView| contact_exact(u, t));
    let fuzzy = us.filter(|u: ContactView| contact_fuzzy(u, t));
    if exact.len() == 1 {
        Ok(Some(exact[0]))
    } else if exact.len() > 1 {
        Err(
            ambiguity_text(
                "找到多个精确匹配成员"@,
                exact.map_values(|u: ContactView| contact_json(u)),
            ),
        )
    } else if fuzzy.len() == 1 {
        Ok(Some(fuzzy[0]))
    } else if fuzzy.len() > 1 {
        Err(
            ambiguity_text(
                "找到多个模糊匹配成员"@,
                fuzzy.map_values(|u: ContactView| contact_json(u)),
            ),
        )
    } else {
        Ok(None)
    }
}

/// The form of a resolution result.
pub open spec fn chat_result_view(r: Result<Option<ChatSummary>, WatchError>) -> Result<
    Option<ChatView>,
    Seq<char>,
> {
    match r {
        Ok(Some(c)) => Ok(Some(c@)),
        Ok(None) => Ok(None),
        Err(e) => Err(watch_error_text(e)),
    }
}

/// The form of a member resolution result.
pub open spec fn contact_result_view(r: Result<Option<ContactUser>, WatchError>) -> Result<
    Option<ContactView>,
    Seq<char>,
> {
    match r {
        Ok(Some(u)) => Ok(Some(u@)),
        Ok(None) => Ok(None),
        Err(e) => Err(watch_error_text(e)),
    }
}

fn chat_to_json(c: &ChatSummary) -> (v: JsonValue)
    ensures
        jview(v) == chat_json(c@),
{
    let mut es: Vec<(String, JsonValue)> = Vec::new();
    es.push(("chat_id".to_owned(), JsonValue::Str(copy_string(&c.chat_id))));
    es.push(("chat_name".to_owned(), JsonValue::Str(copy_string(&c.chat_name))));
    let t = match &c.last_msg_time {
        Some(s) => JsonValue::Str(copy_string(s)),
        None => JsonValue::Null,
    };
    es.push(("last_msg_time".to_owned(), t));
    let n = match c.msg_count {
        Some(n) => JsonValue::Number(JsonNumber::PosInt(n)),
        None => JsonValue::Null,
    };
    es.push(("msg_count".to_owned(), n));
    proof {
        lemma_entries_view(es@, 4);
        assert(entries_view(es@, 4) =~= chat_json(c@)->Object_0);
    }
    JsonValue::Object(es)
}

fn contact_to_json(u: &ContactUser) -> (v: JsonValue)
    ensures
        jview(v) == contact_json(u@),
{
    let mut es: Vec<(String, JsonValue)> = Vec::new();
    es.push(("userid".to_owned(), JsonValue::Str(copy_string(&u.userid))));
    es.push(("name".to_owned(), JsonValue::Str(copy_string(&u.name))));
    es.push(("alias".to_owned(), JsonValue::Str(copy_string(&u.alias))));
    proof {
        lemma_entries_view(es@, 3);
        assert(entries_view(es@, 3) =~= contact_json(u@)->Object_0);
    }
    JsonValue::Object(es)
}

fn ambiguity_error(reason: &str, candidates: Vec<JsonValue>) -> (e: WatchError)
    ensures
        e == WatchError::Ambiguous(e->Ambiguous_0),
        watch_error_text(e) == ambiguity_text(
            reason@,
            items_view(candidates@, candidates@.len() as int),
        ),
{
    let mut es: Vec<(String, JsonValue)> = Vec::new();
    let ghost cv = items_view(candidates@, candidates@.len() as int);
    es.push(("error".to_owned(), JsonValue::Str(reason.to_owned())));
    es.push(("candidates".to_owned(), JsonValue::Array(candidates)));
    proof {
        lemma_entries_view(es@, 2);
        assert(entries_view(es@, 2) =~= seq![
            ("error"@, JsonView::Str(reason@)),
            ("candidates"@, JsonView::Array(cv)),
        ]);
    }
    let payload = JsonValue::Object(es);
    WatchError::Ambiguous(payload.to_json_string())
}

/// Resolves `target` among the recent conversations: the one conversation
/// whose id or name is `target`, else the one whose name contains it;
/// several at the first level that matches is an error listing them.
pub fn select_chat_from_recent(target: &str, chats: &Vec<ChatSummary>) -> (r: Result<
    Option<ChatSummary>,
    WatchError,
>)
    ensures
        chat_result_view(r) == select_chat_spec(target@, chat_views(chats@)),
{
    let ghost cs = chat_views(chats@);
    let ghost pe = |c: ChatView| chat_exact(c, target@);
    let ghost pf = |c: ChatView| chat_fuzzy(c, target@);
    let mut exact: Vec<ChatSummary> = Vec::new();
    let mut exact_json: Vec<JsonValue> = Vec::new();
    let mut fuzzy: Vec<ChatSummary> = Vec::new();
    let mut fuzzy_json: Vec<JsonValue> = Vec::new();
    let mut i: usize = 0;
    while i < chats.len()
        invariant
            i <= chats.len(),
            cs == chat_views(chats@),
            pe == (|c: ChatView| chat_exact(c, target@)),
            pf == (|c: ChatView| chat_fuzzy(c, target@)),
            chat_views(exact@) == cs.take(i as int).filter(pe),
            chat_views(fuzzy@) == cs.take(i as int).filter(pf),
            items_view(exact_json@, exact_json@.len() as int) == cs.take(i as int).filter(
                pe,
            ).map_values(|c: ChatView| chat_json(c)),
            items_view(fuzzy_json@, fuzzy_json@.len() as int) == cs.take(i as int).filter(
                pf,
            ).map_values(|c: ChatView| chat_json(c)),
        decreases chats.len() - i,
    {
        let c = &chats[i];
        let is_exact = str_eq(c.chat_id.as_str(), target) || str_eq(c.chat_name.as_str(), target);
        let is_fuzzy = str_contains(c.chat_name.as_str(), target);
        proof {
            reveal_with_fuel(Seq::filter, 1);
            assert(cs.take(i + 1).drop_last() =~= cs.take(i as int));
            assert(cs.take(i + 1).last() == c@);
        }
        let ghost e0 = exact@;
        let ghost ej0 = exact_json@;
        let ghost f0 = fuzzy@;
        let ghost fj0 = fuzzy_json@;
        if is_exact {
            exact.push(c.copy());
            let j = chat_to_json(c);
            exact_json.push(j);
            proof {
                assert(chat_views(exact@) =~= chat_views(e0).push(c@));
                assert(exact_json@.drop_last() =~= ej0);
                lemma_items_view_prefix(exact_json@, ej0);
            }
        }
        if is_fuzzy {
            fuzzy.push(c.copy());
            let j = chat_to_json(c);
            fuzzy_json.push(j);
            proof {
                assert(chat_views(fuzzy@) =~= chat_views(f0).push(c@));
                assert(fuzzy_json@.drop_last() =~= fj0);
                lemma_items_view_prefix(fuzzy_json@, fj0);
            }
        }
        proof {
            let ta = cs.take(i as int);
            let tb = cs.take(i + 1);
            if pe(c@) {
                assert(tb.filter(pe) == ta.filter(pe).push(c@));
                assert(tb.filter(pe).map_values(|c: ChatView| chat_json(c)) =~= ta.filter(
                    pe,
                ).map_values(|c: ChatView| chat_json(c)).push(chat_json(c@)));
            } else {
                assert(tb.filter(pe) == ta.filter(pe));
            }
            if pf(c@) {
                assert(tb.filter(pf) == ta.filter(pf).push(c@));
                assert(tb.filter(pf).map_values(|c: ChatView| chat_json(c)) =~= ta.filter(
                    pf,
                ).map_values(|c: ChatView| chat_json(c)).push(chat_json(c@)));
            } else {
                assert(tb.filter(pf) == ta.filter(pf));
            }
        }
        i += 1;
    }
    proof {
        assert(cs.take(chats.len() as int) =~= cs);
        assert(exact@.len() == chat_views(exact@).len());
        assert(fuzzy@.len() == chat_views(fuzzy@).len());
        lemma_items_view(exact_json@, exact_json@.len() as int);
        lemma_items_view(fuzzy_json@, fuzzy_json@.len() as int);
    }
    if exact.len() == 1 {
        let c = exact[0].copy();
        assert(chat_views(exact@)[0] == exact@[0]@);
        return Ok(Some(c));
    }
    if exact.len() > 1 {
        return Err(ambiguity_error("找到多个精确匹配会话", exact_json));
    }
    if fuzzy.len() == 1 {
        let c = fuzzy[0].copy();
        assert(chat_views(fuzzy@)[0] == fuzzy@[0]@);
        return Ok(Some(c));
    }
    if fuzzy.len() > 1 {
        return Err(ambiguity_error("找到多个模糊匹配会话", fuzzy_json));
    }
    Ok(None)
}

/// Resolves `target` among the address-book members: the one member whose
/// id, name or alias is `target`, else the one whose name or alias
/// contains it; several at the first level that matches is an error
/// listing them.
pub fn select_contact_user(target: &str, users: &Vec<ContactUser>) -> (r: Result<
    Option<ContactUser>,
    WatchError,
>)
    ensures
        contact_result_view(r) == select_contact_spec(target@, contact_views(users@)),
{
    let ghost cs = contact_views(users@);
    let ghost pe = |u: ContactView| contact_exact(u, target@);
    let ghost pf = |u: ContactView| contact_fuzzy(u, target@);
    let mut exact: Vec<ContactUser> = Vec::new();
    let mut exact_json: Vec<JsonValue> = Vec::new();
    let mut fuzzy: Vec<ContactUser> = Vec::new();
    let mut fuzzy_json: Vec<JsonValue> = Vec::new();
    let mut i: usize = 0;
    while i < users.len()
        invariant
            i <= users.len(),
            cs == contact_views(users@),
            pe == (|u: ContactView| contact_exact(u, target@)),
            pf == (|u: ContactView| contact_fuzzy(u, target@)),
            contact_views(exact@) == cs.take(i as int).filter(pe),
            contact_views(fuzzy@) == cs.take(i as int).filter(pf),
            items_view(exact_json@, exact_json@.len() as int) == cs.take(i as int).filter(
                pe,
            ).map_values(|u: ContactView| contact_json(u)),
            items_view(fuzzy_json@, fuzzy_json@.len() as int) == cs.take(i as int).filter(
                pf,
            ).map_values(|u: ContactView| contact_json(u)),
        decreases users.len() - i,
    {
        let c = &users[i];
        let has_alias = !c.alias.as_str().is_empty();
        let is_exact = str_eq(c.userid.as_str(), target) || str_eq(c.name.as_str(), target) || (
        has_alias && str_eq(c.alias.as_str(), target));
        let is_fuzzy = str_contains(c.name.as_str(), target) || (has_alias && str_contains(
            c.alias.as_str(),
            target,
        ));
        proof {
            reveal_with_fuel(Seq::filter, 1);
            assert(cs.take(i + 1).drop_last() =~= cs.take(i as int));
            assert(cs.take(i + 1).last() == c@);
        }
        let ghost e0 = exact@;
        let ghost ej0 = exact_json@;
        let ghost f0 = fuzzy@;
        let ghost fj0 = fuzzy_json@;
        if is_exact {
            exact.push(c.copy());
            let j = contact_to_json(c);
            exact_json.push(j);
            proof {
                assert(contact_views(exact@) =~= contact_views(e0).push(c@));
                assert(exact_json@.drop_last() =~= ej0);
                lemma_items_view_prefix(exact_json@, ej0);
            }
        }
        if is_fuzzy {
            fuzzy.push(c.copy());
            let j = contact_to_json(c);
            fuzzy_json.push(j);
            proof {
                assert(contact_views(fuzzy@) =~= contact_views(f0).push(c@));
                assert(fuzzy_json@.drop_last() =~= fj0);
                lemma_items_view_prefix(fuzzy_json@, fj0);
            }
        }
        proof {
            let ta = cs.take(i as int);
            let tb = cs.take(i + 1);
            if pe(c@) {
                assert(tb.filter(pe) == ta.filter(pe).push(c@));
                assert(tb.filter(pe).map_values(|u: ContactView| contact_json(u)) =~= ta.filter(
                    pe,
                ).map_values(|u: ContactView| contact_json(u)).push(contact_json(c@)));
            } else {
                assert(tb.filter(pe) == ta.filter(pe));
            }
            if pf(c@) {
                assert(tb.filter(pf) == ta.filter(pf).push(c@));
                assert(tb.filter(pf).map_values(|u: ContactView| contact_json(u)) =~= ta.filter(
                    pf,
                ).map_values(|u: ContactView| contact_json(u)).push(contact_json(c@)));
            } else {
                assert(tb.filter(pf) == ta.filter(pf));
            }
        }
        i += 1;
    }
    proof {
        assert(cs.take(users.len() as int) =~= cs);
        assert(exact@.len() == contact_views(exact@).len());
        assert(fuzzy@.len() == contact_views(fuzzy@).len());
        lemma_items_view(exact_json@, exact_json@.len() as int);
        lemma_items_view(fuzzy_json@, fuzzy_json@.len() as int);
    }
    if exact.len() == 1 {
        let c = exact[0].copy();
        assert(contact_views(exact@)[0] == exact@[0]@);
        return Ok(Some(c));
    }
    if exact.len() > 1 {
        return Err(ambiguity_error("找到多个精确匹配成员", exact_json));
    }
    if fuzzy.len() == 1 {
        let c = fuzzy[0].copy();
        assert(contact_views(fuzzy@)[0] == fuzzy@[0]@);
        return Ok(Some(c));
    }
    if fuzzy.len() > 1 {
        return Err(ambiguity_error("找到多个模糊匹配成员", fuzzy_json));
    }
    Ok(None)
}

/// The conversation of an address-book member: the member's id, and the
/// alias, else the name, else the id, as its name; no time or count.
pub open spec fn contact_chat_view(u: ContactView) -> ChatView {
    ChatView {
        chat_id: u.userid,
        chat_name: if u.alias.len() > 0 {
            u.alias
        } else if u.name.len() > 0 {
            u.name
        } else {
            u.userid
        },
        last_msg_time: None,
        msg_count: None,
    }
}

/// The conversation of an address-book member (see [`contact_chat_view`]).
pub fn contact_user_to_chat_summary(user: ContactUser) -> (c: ChatSummary)
    ensures
        c@ == contact_chat_view(user@),
{
    let chat_name = if !user.alias.as_str().is_empty() {
        user.alias
    } else if !user.name.as_str().is_empty() {
        user.name
    } else {
        copy_string(&user.userid)
    };
    ChatSummary { chat_id: user.userid, chat_name, last_msg_time: None, msg_count: None }
}

// ---------------------------------------------------------------------
// Beijing time
// ---------------------------------------------------------------------

/// Seconds in a day.
pub const SECONDS_PER_DAY: i64 = 86_400;

/// Offset of Beijing time from UTC, in seconds.
pub const BEIJING_OFFSET_SECONDS: i64 = 28_800;

/// Length of the window that resolving a target and polling a friend
/// look back over: seven days, both ends included.
pub const SEVEN_DAY_WINDOW_SECONDS: i64 = 604_799;

fn floor_div_mod(a: i64, b: i64) -> (qr: (i64, i64))
    requires
        b > 0,
    ensures
        qr.0 == a / b,
        qr.1 == a % b,
{
    if a >= 0 {
        let ua: u64 = a as u64;
        let ub: u64 = b as u64;
        let q: u64 = ua / ub;
        let r: u64 = ua % ub;
        proof {
            vstd::arithmetic::div_mod::lemma_div_nonincreasing(ua as int, ub as int);
        }
        (q as i64, r as i64)
    } else {
        let u: u64 = (-(a as i128) - 1) as u64;
        let ub: u64 = b as u64;
        let q0: u64 = u / ub;
        let r0: u64 = u % ub;
        proof {
            vstd::arithmetic::div_mod::lemma_fundamental_div_mod(u as int, ub as int);
            vstd::arithmetic::div_mod::lemma_div_nonincreasing(u as int, ub as int);
            let qi = -(q0 as int) - 1;
            let ri = b - 1 - r0;
            assert(a == qi * b + ri) by (nonlinear_arith)
                requires
                    u == ub * q0 + r0,
                    u == -(a as int) - 1,
                    ub == b,
                    qi == -(q0 as int) - 1,
                    ri == b - 1 - r0,
            ;
            vstd::arithmetic::div_mod::lemma_fundamental_div_mod_converse(
                a as int,
                b as int,
                qi,
                ri,
            );
        }
        let q: i64 = -(q0 as i64) - 1;
        let r: i64 = b - 1 - (r0 as i64);
        (q, r)
    }
}

/// The date `(year, month, day)` of a count of days since 1970-01-01, by
/// era arithmetic: the proleptic Gregorian date from 0000-02-29 on (see
/// [`crate::calendar`]); earlier counts step outside their era.
pub open spec fn civil_date(days: int) -> (int, int, int) {
    let z = days + 719_468;
    let adjusted = if z >= 0 {
        z
    } else {
        z - 146_096
    };
    let era = adjusted / 146_097;
    let doe = z - era * 146_097;
    let yoe = (doe - doe / 1_460 + doe / 36_524 - doe / 146_096) / 365;
    let y = yoe + era * 400;
    let doy = doe - (365 * yoe + yoe / 4 - yoe / 100);
    let mp = (5 * doy + 2) / 153;
    let day = doy - (153 * mp + 2) / 5 + 1;
    let month = mp + if mp < 10 {
        3int
    } else {
        -9int
    };
    let year = y + if month <= 2 {
        1int
    } else {
        0int
    };
    (year, month, day)
}

/// Lemma: the day of the era lies in `[0, 2 * 146097)`, so every later
/// quotient is of a non-negative number.
proof fn lemma_doe_range(z: int)
    ensures
        ({
            let adjusted = if z >= 0 {
                z
            } else {
                z - 146_096
            };
            let era = adjusted / 146_097;
            let doe = z - era * 146_097;
            0 <= doe < 2 * 146_097
        }),
{
    let adjusted = if z >= 0 {
        z
    } else {
        z - 146_096
    };
    vstd::arithmetic::div_mod::lemma_fundamental_div_mod(adjusted, 146_097);
}

fn civil_from_era(era: i64, doe: i64) -> (ymd: (i64, i64, i64))
    requires
        0 <= doe < 2 * 146_097,
        -100_000_000_000_000 <= era <= 100_000_000_000_000,
    ensures
        ({
            let yoe = (doe - doe / 1_460 + doe / 36_524 - doe / 146_096) / 365;
            let y = yoe + era * 400;
            let doy = doe - (365 * yoe + yoe / 4 - yoe / 100);
            let mp = (5 * doy + 2) / 153;
            let day = doy - (153 * mp + 2) / 5 + 1;
            let month = mp + if mp < 10 {
                3int
            } else {
                -9int
            };
            let year = y + if month <= 2 {
                1int
            } else {
                0int
            };
            ymd.0 == year && ymd.1 == month && ymd.2 == day
        }),
{
    let yoe: i64 = (doe - doe / 1_460 + doe / 36_524 - doe / 146_096) / 365;
    let y: i64 = yoe + era * 400;
    let doy: i64 = doe - (365 * yoe + yoe / 4 - yoe / 100);
    let mp: i64 = (5 * doy + 2) / 153;
    let day: i64 = doy - (153 * mp + 2) / 5 + 1;
    let month: i64 = mp + if mp < 10 {
        3
    } else {
        -9
    };
    let year: i64 = y + if month <= 2 {
        1
    } else {
        0
    };
    (year, month, day)
}

/// The date of a count of days since 1970-01-01 (days before the year 0
/// follow the same arithmetic).
pub fn civil_from_days(days_since_unix_epoch: i64) -> (ymd: (i64, i64, i64))
    requires
        -4_000_000_000_000_000 <= days_since_unix_epoch <= 4_000_000_000_000_000,
    ensures
        (ymd.0 as int, ymd.1 as int, ymd.2 as int) == civil_date(days_since_unix_epoch as int),
{
    let z: i64 = days_since_unix_epoch + 719_468;
    let adjusted: i64 = if z >= 0 {
        z
    } else {
        z - 146_096
    };
    let (era, _) = floor_div_mod(adjusted, 146_097);
    proof {
        lemma_doe_range(z as int);
        vstd::arithmetic::div_mod::lemma_fundamental_div_mod(adjusted as int, 146_097);
    }
    let doe: i64 = z - era * 146_097;
    civil_from_era(era, doe)
}

/// `d` padded on the left with zeros to `w` characters.
pub open spec fn zero_pad(d: Seq<char>, w: nat) -> Seq<char> {
    if d.len() >= w {
        d
    } else {
        Seq::new((w - d.len()) as nat, |i: int| '0') + d
    }
}

/// `n` in decimal, zero-padded to `w` characters sign included, as the
/// format `{n:0w}` writes it.
pub open spec fn padded(n: int, w: nat) -> Seq<char> {
    if n < 0 {
        seq!['-'] + zero_pad(decimal((-n) as nat), (w - 1) as nat)
    } else {
        zero_pad(decimal(n as nat), w)
    }
}

/// `YYYY-MM-DD hh:mm:ss` of a count of seconds since 1970-01-01 00:00:00
/// in Beijing time.
pub open spec fn wecom_time_text(secs: int) -> Seq<char> {
    let (y, mo, d) = civil_date(secs / 86_400);
    let sod = secs % 86_400;
    padded(y, 4) + seq!['-'] + padded(mo, 2) + seq!['-'] + padded(d, 2) + seq![' '] + padded(
        sod / 3_600,
        2,
    ) + seq![':'] + padded((sod % 3_600) / 60, 2) + seq![':'] + padded(sod % 60, 2)
}

fn push_padded(out: &mut Vec<char>, n: i64, w: usize)
    requires
        1 <= w <= 8,
    ensures
        final(out)@ == old(out)@ + padded(n as int, w as nat),
{
    let neg = n < 0;
    let mag: u64 = if neg {
        (-(n as i128)) as u64
    } else {
        n as u64
    };
    let mut digits: Vec<char> = Vec::new();
    push_decimal(&mut digits, mag);
    assert(digits@ =~= decimal(mag as nat));
    let width: usize = if neg {
        w - 1
    } else {
        w
    };
    if neg {
        out.push('-');
    }
    let ghost head = out@;
    let mut k: usize = digits.len();
    while k < width
        invariant
            digits.len() <= k,
            k <= width || width <= digits.len(),
            k == digits.len() || k <= width,
            out@ == head + Seq::new((k - digits.len()) as nat, |i: int| '0'),
        decreases width - k,
    {
        out.push('0');
        k += 1;
        assert(out@ =~= head + Seq::new((k - digits.len()) as nat, |i: int| '0'));
    }
    let ghost zeros = out@;
    crate::text::append_chars(out, &digits);
    proof {
        let z = zero_pad(decimal(mag as nat), width as nat);
        if digits.len() >= width {
            assert(k == digits.len());
            assert(out@ =~= head + z);
        } else {
            assert(k == width);
            assert(out@ =~= head + z);
        }
        if neg {
            assert(out@ =~= old(out)@ + padded(n as int, w as nat));
        } else {
            assert(out@ =~= old(out)@ + padded(n as int, w as nat));
        }
    }
}

/// The Beijing time `beijing_unix_seconds` seconds after 1970-01-01
/// 00:00:00, as `YYYY-MM-DD hh:mm:ss`.
pub fn format_wecom_time(beijing_unix_seconds: i64) -> (s: String)
    ensures
        s@ == wecom_time_text(beijing_unix_seconds as int),
{
    let (days, sod) = floor_div_mod(beijing_unix_seconds, SECONDS_PER_DAY);
    proof {
        vstd::arithmetic::div_mod::lemma_fundamental_div_mod(beijing_unix_seconds as int, 86_400);
    }
    let (year, month, day) = civil_from_days(days);
    let hour: i64 = sod / 3_600;
    let minute: i64 = (sod % 3_600) / 60;
    let second: i64 = sod % 60;
    let mut out: Vec<char> = Vec::new();
    push_padded(&mut out, year, 4);
    out.push('-');
    push_padded(&mut out, month, 2);
    out.push('-');
    push_padded(&mut out, day, 2);
    out.push(' ');
    push_padded(&mut out, hour, 2);
    out.push(':');
    push_padded(&mut out, minute, 2);
    out.push(':');
    push_padded(&mut out, second, 2);
    assert(out@ =~= wecom_time_text(beijing_unix_seconds as int));
    string_from(&out)
}

/// The largest clock reading that the windows are computed for; later
/// readings are taken as this one.
pub const CLOCK_LIMIT_SECONDS: u64 = 9_000_000_000_000_000_000;

/// Seconds since 1970-01-01 00:00:00 UTC (`SystemTime::now`, measured
/// from `UNIX_EPOCH`; zero when the clock reads earlier). Nothing is
/// stated of the reading.
#[verifier::external_body]
fn unix_now_secs() -> u64 {
    std::time::SystemTime::now().duration_since(std::time::UNIX_EPOCH).unwrap_or_default().as_secs()
}

/// The texts of the Beijing-time window of `seconds` seconds that ends at
/// the clock reading `now_unix_secs` (UTC), the beginning saturated at
/// the earliest representable instant.
pub open spec fn window_texts(now_unix_secs: int, seconds: int) -> (Seq<char>, Seq<char>) {
    let end = now_unix_secs + 28_800;
    let begin = if end - seconds < i64::MIN {
        i64::MIN as int
    } else {
        end - seconds
    };
    (wecom_time_text(begin), wecom_time_text(end))
}

/// The window of `seconds` seconds that ends at the clock reading
/// `now_unix_secs`, as the begin and end times in Beijing time.
pub fn seconds_window_at(now_unix_secs: u64, seconds: u64) -> (w: (String, String))
    requires
        now_unix_secs <= CLOCK_LIMIT_SECONDS,
    ensures
        (w.0@, w.1@) == window_texts(now_unix_secs as int, seconds as int),
{
    let end: i64 = (now_unix_secs as i64) + BEIJING_OFFSET_SECONDS;
    let b: i128 = (end as i128) - (seconds as i128);
    let begin: i64 = if b < (i64::MIN as i128) {
        i64::MIN
    } else {
        b as i64
    };
    (format_wecom_time(begin), format_wecom_time(end))
}

/// The window of `seconds` seconds that ends now, in Beijing time.
pub fn recent_seconds_window(seconds: u64) -> (w: (String, String))
    ensures
        exists|now: int|
            0 <= now <= CLOCK_LIMIT_SECONDS && (w.0@, w.1@) == window_texts(now, seconds as int),
{
    let raw = unix_now_secs();
    let now = if raw > CLOCK_LIMIT_SECONDS {
        CLOCK_LIMIT_SECONDS
    } else {
        raw
    };
    seconds_window_at(now, seconds)
}

/// The window of the last seven days, both ends included, that ends now.
pub fn recent_seven_day_window() -> (w: (String, String))
    ensures
        exists|now: int|
            0 <= now <= CLOCK_LIMIT_SECONDS && (w.0@, w.1@) == window_texts(
                now,
                SEVEN_DAY_WINDOW_SECONDS as int,
            ),
{
    recent_seconds_window(SEVEN_DAY_WINDOW_SECONDS as u64)
}

// ---------------------------------------------------------------------
// Messages
// ---------------------------------------------------------------------

/// The string under `key` of an object, if it is a string.
pub open spec fn str_get(m: JsonView, key: Seq<char>) -> Option<Seq<char>> {
    view_str(view_get(m, key))
}

/// The string under `k1`, then `k2`, if it is a string.
pub open spec fn str_get2(m: JsonView, k1: Seq<char>, k2: Seq<char>) -> Option<Seq<char>> {
    view_str(view_path(m, seq![k1, k2]))
}

/// The content of an optional borrowed string.
pub open spec fn ref_view(o: Option<&String>) -> Option<Seq<char>> {
    match o {
        Some(s) => Some(s@),
        None => None,
    }
}

/// The string, or the empty string.
pub open spec fn or_empty(o: Option<Seq<char>>) -> Seq<char> {
    match o {
        Some(s) => s,
        None => seq![],
    }
}

/// The type of a message: its `msgtype` string, else `unknown`.
pub open spec fn msgtype_of(m: JsonView) -> Seq<char> {
    match str_get(m, "msgtype"@) {
        Some(t) => t,
        None => "unknown"@,
    }
}

/// Whether messages of type `t` carry a media file.
pub open spec fn is_media_type(t: Seq<char>) -> bool {
    t == "image"@ || t == "file"@ || t == "voice"@ || t == "video"@
}

/// The key by which a message is sorted: its send time, else empty.
pub open spec fn sort_key(m: JsonView) -> Seq<char> {
    or_empty(str_get(m, "send_time"@))
}

/// The key that identifies a message of conversation `chat_id` across
/// polls: the desktop key when the message has one; else its send time,
/// sender, type and body (the text, the media id, or for other types the
/// whole message as compact JSON), joined by `|`.
pub open spec fn dedup_key(chat_id: Seq<char>, m: JsonView) -> Seq<char> {
    match str_get2(m, "desktop"@, "key"@) {
        Some(k) => chat_id + "|desktop|"@ + k,
        None => {
            let t = msgtype_of(m);
            let body = if t == "text"@ {
                or_empty(str_get2(m, "text"@, "content"@))
            } else if is_media_type(t) {
                or_empty(str_get2(m, t, "media_id"@))
            } else {
                json_text(m)
            };
            chat_id + "|"@ + sort_key(m) + "|"@ + or_empty(str_get(m, "userid"@)) + "|"@ + t
                + "|"@ + body
        },
    }
}

fn get_str<'a>(v: &'a JsonValue, key: &str) -> (r: Option<&'a String>)
    ensures
        ref_view(r) == str_get(jview(*v), key@),
{
    match v.get(key) {
        Some(x) => x.as_str(),
        None => None,
    }
}

fn get_str2<'a>(v: &'a JsonValue, k1: &str, k2: &str) -> (r: Option<&'a String>)
    ensures
        ref_view(r) == str_get2(jview(*v), k1@, k2@),
{
    match v.get2(k1, k2) {
        Some(x) => x.as_str(),
        None => None,
    }
}

fn append_opt(out: &mut Vec<char>, o: Option<&String>)
    ensures
        final(out)@ == old(out)@ + or_empty(ref_view(o)),
{
    match o {
        Some(s) => append_str(out, s.as_str()),
        None => {
            assert(out@ =~= old(out)@ + or_empty(ref_view(o)));
        },
    }
}

/// The key by which messages are sorted: the send time, else empty.
pub fn message_sort_key(message: &JsonValue) -> (k: String)
    ensures
        k@ == sort_key(jview(*message)),
{
    match get_str(message, "send_time") {
        Some(s) => copy_string(s),
        None => String::new(),
    }
}

/// The type of a message: its `msgtype` string, else `unknown`.
pub fn message_type_of(message: &JsonValue) -> (t: String)
    ensures
        t@ == msgtype_of(jview(*message)),
{
    match get_str(message, "msgtype") {
        Some(s) => copy_string(s),
        None => "unknown".to_owned(),
    }
}

fn is_media_type_exec(t: &str) -> (b: bool)
    ensures
        b == is_media_type(t@),
{
    str_eq(t, "image") || str_eq(t, "file") || str_eq(t, "voice") || str_eq(t, "video")
}

/// The media id of a message of type `msgtype`, if it names one.
pub fn media_id_for(message: &JsonValue, msgtype: &str) -> (r: Option<String>)
    ensures
        opt_view(r) == str_get2(jview(*message), msgtype@, "media_id"@),
{
    match get_str2(message, msgtype, "media_id") {
        Some(s) => Some(copy_string(s)),
        None => None,
    }
}

/// The key that identifies a message of conversation `chat_id` across
/// polls.
pub fn message_dedup_key(chat_id: &str, message: &JsonValue) -> (k: String)
    ensures
        k@ == dedup_key(chat_id@, jview(*message)),
{
    let mut out: Vec<char> = Vec::new();
    append_str(&mut out, chat_id);
    match get_str2(message, "desktop", "key") {
        Some(key) => {
            append_str(&mut out, "|desktop|");
            append_str(&mut out, key.as_str());
            assert(out@ =~= dedup_key(chat_id@, jview(*message)));
            return string_from(&out);
        },
        None => {},
    }
    let t = message_type_of(message);
    let ghost m = jview(*message);
    let mut body: Vec<char> = Vec::new();
    if str_eq(t.as_str(), "text") {
        append_opt(&mut body, get_str2(message, "text", "content"));
    } else if is_media_type_exec(t.as_str()) {
        append_opt(&mut body, get_str2(message, t.as_str(), "media_id"));
    } else {
        crate::json::push_json(&mut body, message);
    }
    append_str(&mut out, "|");
    append_opt(&mut out, get_str(message, "send_time"));
    append_str(&mut out, "|");
    append_opt(&mut out, get_str(message, "userid"));
    append_str(&mut out, "|");
    append_str(&mut out, t.as_str());
    append_str(&mut out, "|");
    crate::text::append_chars(&mut out, &body);
    assert(out@ =~= dedup_key(chat_id@, m));
    string_from(&out)
}

/// A text message read from the desktop client, as the server would
/// describe it, with its desktop key and the name of its source.
pub open spec fn desktop_message_json(key: Seq<char>, text: Seq<char>, source: Seq<char>) -> JsonView {
    JsonView::Object(
        seq![
            ("userid"@, JsonView::Str("desktop"@)),
            ("msgtype"@, JsonView::Str("text"@)),
            ("text"@, JsonView::Object(seq![("content"@, JsonView::Str(text))])),
            (
                "desktop"@,
                JsonView::Object(
                    seq![("key"@, JsonView::Str(key)), ("source"@, JsonView::Str(source))],
                ),
            ),
        ],
    )
}

/// Builds the JSON of a desktop text message.
pub fn desktop_message_value(key: String, text: String, source: &str) -> (v: JsonValue)
    ensures
        jview(v) == desktop_message_json(key@, text@, source@),
{
    let ghost kv = key@;
    let ghost tv = text@;
    let mut d: Vec<(String, JsonValue)> = Vec::new();
    d.push(("key".to_owned(), JsonValue::Str(key)));
    d.push(("source".to_owned(), JsonValue::Str(source.to_owned())));
    proof {
        lemma_entries_view(d@, 2);
        assert(entries_view(d@, 2) =~= seq![
            ("key"@, JsonView::Str(kv)),
            ("source"@, JsonView::Str(source@)),
        ]);
    }
    let mut t: Vec<(String, JsonValue)> = Vec::new();
    t.push(("content".to_owned(), JsonValue::Str(text)));
    proof {
        lemma_entries_view(t@, 1);
        assert(entries_view(t@, 1) =~= seq![("content"@, JsonView::Str(tv))]);
    }
    let dv = JsonValue::Object(d);
    let tv2 = JsonValue::Object(t);
    let mut es: Vec<(String, JsonValue)> = Vec::new();
    es.push(("userid".to_owned(), JsonValue::Str("desktop".to_owned())));
    es.push(("msgtype".to_owned(), JsonValue::Str("text".to_owned())));
    es.push(("text".to_owned(), tv2));
    es.push(("desktop".to_owned(), dv));
    proof {
        lemma_entries_view(es@, 4);
        assert(entries_view(es@, 4) =~= desktop_message_json(kv, tv, source@)->Object_0);
    }
    JsonValue::Object(es)
}

/// The messages read from the desktop client, as JSON messages that the
/// watchers handle like the server's.
pub fn desktop_messages_to_values(messages: Vec<DesktopChatMessage>) -> (out: Vec<JsonValue>)
    ensures
        out@.len() == messages@.len(),
        forall|i: int|
            0 <= i < out@.len() ==> jview(#[trigger] out@[i]) == desktop_message_json(
                messages@[i].key@,
                messages@[i].text@,
                "macos_accessibility"@,
            ),
{
    let mut out: Vec<JsonValue> = Vec::new();
    let mut i: usize = 0;
    while i < messages.len()
        invariant
            i <= messages.len(),
            out@.len() == i,
            forall|j: int|
                0 <= j < i ==> jview(#[trigger] out@[j]) == desktop_message_json(
                    messages@[j].key@,
                    messages@[j].text@,
                    "macos_accessibility"@,
                ),
        decreases messages.len() - i,
    {
        let m = &messages[i];
        let v = desktop_message_value(copy_string(&m.key), copy_string(&m.text), "macos_accessibility");
        out.push(v);
        i += 1;
    }
    out
}

// ---------------------------------------------------------------------
// The record printed for a message
// ---------------------------------------------------------------------

/// The form of an optional value.
pub open spec fn opt_jview(v: Option<JsonValue>) -> Option<JsonView> {
    match v {
        Some(x) => Some(jview(x)),
        None => None,
    }
}

/// An entry `(k, v)` when there is a value, else nothing.
pub open spec fn field(k: Seq<char>, v: Option<JsonView>) -> Seq<(Seq<char>, JsonView)> {
    match v {
        Some(x) => seq![(k, x)],
        None => seq![],
    }
}

/// The string value of an optional string.
pub open spec fn str_value(o: Option<Seq<char>>) -> Option<JsonView> {
    match o {
        Some(s) => Some(JsonView::Str(s)),
        None => None,
    }
}

/// Whether the file of a message of type `t` is fetched and saved.
pub open spec fn saves_media(t: Seq<char>) -> bool {
    t == "image"@ || t == "file"@
}

/// The media id whose file is fetched before printing the message, if any.
pub open spec fn media_request(m: JsonView) -> Option<Seq<char>> {
    if saves_media(msgtype_of(m)) {
        str_get2(m, msgtype_of(m), "media_id"@)
    } else {
        None
    }
}

/// The value under `key` of the saved-media item, when the message's
/// file was fetched.
pub open spec fn item_value(m: JsonView, item: Option<JsonView>, key: Seq<char>) -> Option<JsonView> {
    if media_request(m) is Some {
        match item {
            Some(it) => view_get(it, key),
            None => None,
        }
    } else {
        None
    }
}

/// The record printed for message `m` of the conversation `meta` names:
/// the conversation, the sender, the time and the type; the text of a
/// text message; the media id, name and, once saved, the local file of
/// an image or file; `saved: false` for voice and video; the whole
/// message for other types. Its keys are in the order in which the
/// record is built: the conversation and the message's own fields first,
/// then those of the type; a saved file's fields follow the media id and
/// name (the saved file's name takes the place of the message's).
pub open spec fn output_entries(
    target: Seq<char>,
    chat_id: Seq<char>,
    chat_name: Seq<char>,
    m: JsonView,
    item: Option<JsonView>,
) -> Seq<(Seq<char>, JsonView)> {
    let t = msgtype_of(m);
    let msg_name = if is_media_type(t) {
        str_value(str_get2(m, t, "name"@))
    } else {
        None
    };
    let item_name = item_value(m, item, "name"@);
    field("chat_id"@, Some(JsonView::Str(chat_id))) + field("target"@, Some(JsonView::Str(target)))
        + field("chat_name"@, Some(JsonView::Str(chat_name))) + field(
        "send_time"@,
        str_value(str_get(m, "send_time"@)),
    ) + field("userid"@, str_value(str_get(m, "userid"@))) + field(
        "source"@,
        str_value(str_get2(m, "desktop"@, "source"@)),
    ) + field("msgtype"@, Some(JsonView::Str(t))) + field(
        "text"@,
        if t == "text"@ {
            str_value(str_get2(m, "text"@, "content"@))
        } else {
            None
        },
    ) + field(
        "media_id"@,
        if is_media_type(t) {
            str_value(str_get2(m, t, "media_id"@))
        } else {
            None
        },
    ) + field(
        "name"@,
        if msg_name is Some {
            if item_name is Some {
                item_name
            } else {
                msg_name
            }
        } else {
            None
        },
    ) + field("local_path"@, item_value(m, item, "local_path"@)) + field(
        "size"@,
        item_value(m, item, "size"@),
    ) + field("content_type"@, item_value(m, item, "content_type"@)) + field(
        "name"@,
        if msg_name is None {
            item_name
        } else {
            None
        },
    ) + field(
        "saved"@,
        if t == "voice"@ || t == "video"@ {
            Some(JsonView::Bool(false))
        } else {
            None
        },
    ) + field(
        "raw"@,
        if t == "text"@ || is_media_type(t) {
            None
        } else {
            Some(m)
        },
    )
}

fn push_entry(es: &mut Vec<(String, JsonValue)>, key: &str, v: Option<JsonValue>)
    ensures
        entries_view(final(es)@, final(es)@.len() as int) == entries_view(
            old(es)@,
            old(es)@.len() as int,
        ) + field(key@, opt_jview(v)),
{
    match v {
        Some(x) => {
            let ghost xv = jview(x);
            es.push((key.to_owned(), x));
            proof {
                assert(es@.drop_last() =~= old(es)@);
                crate::json::lemma_entries_view_prefix(es@, old(es)@);
                assert(entries_view(es@, es@.len() as int) =~= entries_view(
                    old(es)@,
                    old(es)@.len() as int,
                ) + field(key@, opt_jview(v)));
            }
        },
        None => {
            assert(entries_view(es@, es@.len() as int) =~= entries_view(
                old(es)@,
                old(es)@.len() as int,
            ) + field(key@, opt_jview(v)));
        },
    }
}

fn str_json(o: Option<&String>) -> (v: Option<JsonValue>)
    ensures
        opt_jview(v) == str_value(ref_view(o)),
{
    match o {
        Some(s) => Some(JsonValue::Str(copy_string(s))),
        None => None,
    }
}

/// The media id whose file is fetched and saved before the message is
/// printed: that of an image or a file message, if it names one.
pub fn output_media_request(message: &JsonValue) -> (r: Option<String>)
    ensures
        opt_view(r) == media_request(jview(*message)),
{
    let t = message_type_of(message);
    if str_eq(t.as_str(), "image") || str_eq(t.as_str(), "file") {
        media_id_for(message, t.as_str())
    } else {
        None
    }
}

/// The record printed for `message` of the conversation that `meta`
/// describes; `media_item` is what saving the file named by
/// [`output_media_request`] gave back, if it was asked for.
pub fn build_output_message(
    meta: &WatchTargetMeta,
    message: JsonValue,
    media_item: Option<&JsonValue>,
) -> (out: JsonValue)
    ensures
        jview(out) == JsonView::Object(
            output_entries(
                meta.target@,
                meta.chat_id@,
                meta.chat_name@,
                jview(message),
                match media_item {
                    Some(it) => Some(jview(*it)),
                    None => None,
                },
            ),
        ),
{
    let ghost m = jview(message);
    let ghost iv = match media_item {
        Some(it) => Some(jview(*it)),
        None => None,
    };
    let t = message_type_of(&message);
    let requested = output_media_request(&message).is_some();
    let media = is_media_type_exec(t.as_str());
    let is_text = str_eq(t.as_str(), "text");
    let item = if requested {
        media_item
    } else {
        None
    };
    let content_type = match item {
        Some(it) => match it.get("content_type") {
            Some(x) => Some(x.deep_copy()),
            None => None,
        },
        None => None,
    };
    let local_path = match item {
        Some(it) => match it.get("local_path") {
            Some(x) => Some(x.deep_copy()),
            None => None,
        },
        None => None,
    };
    let size = match item {
        Some(it) => match it.get("size") {
            Some(x) => Some(x.deep_copy()),
            None => None,
        },
        None => None,
    };
    let item_name = match item {
        Some(it) => match it.get("name") {
            Some(x) => Some(x.deep_copy()),
            None => None,
        },
        None => None,
    };
    let msg_name = if media {
        str_json(get_str2(&message, t.as_str(), "name"))
    } else {
        None
    };
    let (name_early, name_late) = match msg_name {
        Some(mn) => (
            Some(
                match item_name {
                    Some(x) => x,
                    None => mn,
                },
            ),
            None,
        ),
        None => (None, item_name),
    };
    let media_id = if media {
        str_json(get_str2(&message, t.as_str(), "media_id"))
    } else {
        None
    };
    let saved = if str_eq(t.as_str(), "voice") || str_eq(t.as_str(), "video") {
        Some(JsonValue::Bool(false))
    } else {
        None
    };
    let send_time = str_json(get_str(&message, "send_time"));
    let source = str_json(get_str2(&message, "desktop", "source"));
    let text = if is_text {
        str_json(get_str2(&message, "text", "content"))
    } else {
        None
    };
    let userid = str_json(get_str(&message, "userid"));
    let msgtype = JsonValue::Str(copy_string(&t));
    let raw = if is_text || media {
        None
    } else {
        Some(message)
    };
    let mut es: Vec<(String, JsonValue)> = Vec::new();
    push_entry(&mut es, "chat_id", Some(JsonValue::Str(copy_string(&meta.chat_id))));
    push_entry(&mut es, "target", Some(JsonValue::Str(copy_string(&meta.target))));
    push_entry(&mut es, "chat_name", Some(JsonValue::Str(copy_string(&meta.chat_name))));
    push_entry(&mut es, "send_time", send_time);
    push_entry(&mut es, "userid", userid);
    push_entry(&mut es, "source", source);
    push_entry(&mut es, "msgtype", Some(msgtype));
    push_entry(&mut es, "text", text);
    push_entry(&mut es, "media_id", media_id);
    push_entry(&mut es, "name", name_early);
    push_entry(&mut es, "local_path", local_path);
    push_entry(&mut es, "size", size);
    push_entry(&mut es, "content_type", content_type);
    push_entry(&mut es, "name", name_late);
    push_entry(&mut es, "saved", saved);
    push_entry(&mut es, "raw", raw);
    proof {
        assert(entries_view(Seq::<(String, JsonValue)>::empty(), 0) =~= Seq::<
            (Seq<char>, JsonView),
        >::empty());
        assert(entries_view(es@, es@.len() as int) =~= output_entries(
            meta.target@,
            meta.chat_id@,
            meta.chat_name@,
            m,
            iv,
        ));
    }
    JsonValue::Object(es)
}

// ---------------------------------------------------------------------
// Server responses
// ---------------------------------------------------------------------

/// Most pages of a listing that are fetched before giving up.
pub const MAX_PAGES: usize = 100;

/// A string field with a default: absent is empty; `None` when it holds
/// anything but a string.
pub open spec fn decode_str_field(o: Option<JsonView>) -> Option<Seq<char>> {
    match o {
        None => Some(seq![]),
        Some(JsonView::Str(s)) => Some(s),
        _ => None,
    }
}

/// An optional string field: absent or `null` is none; `None` when it
/// holds anything but a string.
pub open spec fn decode_opt_str_field(o: Option<JsonView>) -> Option<Option<Seq<char>>> {
    match o {
        None => Some(None),
        Some(JsonView::Null) => Some(None),
        Some(JsonView::Str(s)) => Some(Some(s)),
        _ => None,
    }
}

/// An optional count field: absent or `null` is none; `None` when it
/// holds anything but a non-negative integer.
pub open spec fn decode_opt_count_field(o: Option<JsonView>) -> Option<Option<u64>> {
    match o {
        None => Some(None),
        Some(JsonView::Null) => Some(None),
        Some(JsonView::Number(NumView::PosInt(n))) => Some(Some(n)),
        _ => None,
    }
}

/// A conversation read from a JSON object, each field defaulted when
/// absent; `None` when the item is not an object or a field has the
/// wrong type.
pub open spec fn decode_chat(v: JsonView) -> Option<ChatView> {
    if v is Object {
        let id = decode_str_field(view_get(v, "chat_id"@));
        let name = decode_str_field(view_get(v, "chat_name"@));
        let time = decode_opt_str_field(view_get(v, "last_msg_time"@));
        let count = decode_opt_count_field(view_get(v, "msg_count"@));
        if id is Some && name is Some && time is Some && count is Some {
            Some(
                ChatView {
                    chat_id: id.unwrap(),
                    chat_name: name.unwrap(),
                    last_msg_time: time.unwrap(),
                    msg_count: count.unwrap(),
                },
            )
        } else {
            None
        }
    } else {
        None
    }
}

/// A member read from a JSON object, as for conversations.
pub open spec fn decode_contact(v: JsonView) -> Option<ContactView> {
    if v is Object {
        let id = decode_str_field(view_get(v, "userid"@));
        let name = decode_str_field(view_get(v, "name"@));
        let alias = decode_str_field(view_get(v, "alias"@));
        if id is Some && name is Some && alias is Some {
            Some(ContactView { userid: id.unwrap(), name: name.unwrap(), alias: alias.unwrap() })
        } else {
            None
        }
    } else {
        None
    }
}

/// The conversations of a page's items, those without an id left out;
/// `None` when an item cannot be read.
pub open spec fn decode_chats(items: Seq<JsonView>) -> Option<Seq<ChatView>>
    decreases items.len(),
{
    if items.len() == 0 {
        Some(seq![])
    } else {
        match (decode_chats(items.drop_last()), decode_chat(items.last())) {
            (Some(cs), Some(c)) => Some(
                if c.chat_id.len() > 0 {
                    cs.push(c)
                } else {
                    cs
                },
            ),
            _ => None,
        }
    }
}

/// The members of a listing's items, those without an id left out;
/// `None` when an item cannot be read.
pub open spec fn decode_contacts(items: Seq<JsonView>) -> Option<Seq<ContactView>>
    decreases items.len(),
{
    if items.len() == 0 {
        Some(seq![])
    } else {
        match (decode_contacts(items.drop_last()), decode_contact(items.last())) {
            (Some(us), Some(u)) => Some(
                if u.userid.len() > 0 {
                    us.push(u)
                } else {
                    us
                },
            ),
            _ => None,
        }
    }
}

/// The items of the array under `key`, if there is one.
pub open spec fn array_at(v: JsonView, key: Seq<char>) -> Option<Seq<JsonView>> {
    match view_get(v, key) {
        Some(JsonView::Array(items)) => Some(items),
        _ => None,
    }
}

/// The cursor of the next page: a non-empty `next_cursor` string.
pub open spec fn next_cursor_of(v: JsonView) -> Option<Seq<char>> {
    match str_get(v, "next_cursor"@) {
        Some(c) => if c.len() > 0 {
            Some(c)
        } else {
            None
        },
        None => None,
    }
}

fn decode_str(v: &JsonValue, key: &str) -> (r: Option<String>)
    ensures
        opt_view(r) == decode_str_field(match view_get(jview(*v), key@) {
            Some(x) => Some(x),
            None => None,
        }),
{
    match v.get(key) {
        None => Some(String::new()),
        Some(JsonValue::Str(s)) => Some(copy_string(s)),
        Some(_) => None,
    }
}

fn decode_opt_str(v: &JsonValue, key: &str) -> (r: Option<Option<String>>)
    ensures
        match r {
            Some(o) => decode_opt_str_field(view_get(jview(*v), key@)) == Some(opt_view(o)),
            None => decode_opt_str_field(view_get(jview(*v), key@)) is None,
        },
{
    match v.get(key) {
        None => Some(None),
        Some(JsonValue::Null) => Some(None),
        Some(JsonValue::Str(s)) => Some(Some(copy_string(s))),
        Some(_) => None,
    }
}

fn decode_opt_count(v: &JsonValue, key: &str) -> (r: Option<Option<u64>>)
    ensures
        r == decode_opt_count_field(view_get(jview(*v), key@)),
{
    match v.get(key) {
        None => Some(None),
        Some(JsonValue::Null) => Some(None),
        Some(JsonValue::Number(JsonNumber::PosInt(n))) => Some(Some(*n)),
        Some(_) => None,
    }
}

/// Reads a conversation from a JSON item.
pub fn chat_from_json(v: &JsonValue) -> (r: Option<ChatSummary>)
    ensures
        match r {
            Some(c) => decode_chat(jview(*v)) == Some(c@),
            None => decode_chat(jview(*v)) is None,
        },
{
    match v {
        JsonValue::Object(_) => {},
        _ => {
            return None;
        },
    }
    let id = decode_str(v, "chat_id");
    let name = decode_str(v, "chat_name");
    let time = decode_opt_str(v, "last_msg_time");
    let count = decode_opt_count(v, "msg_count");
    match (id, name, time, count) {
        (Some(chat_id), Some(chat_name), Some(last_msg_time), Some(msg_count)) => Some(
            ChatSummary { chat_id, chat_name, last_msg_time, msg_count },
        ),
        _ => None,
    }
}

/// Reads a member from a JSON item.
pub fn contact_from_json(v: &JsonValue) -> (r: Option<ContactUser>)
    ensures
        match r {
            Some(u) => decode_contact(jview(*v)) == Some(u@),
            None => decode_contact(jview(*v)) is None,
        },
{
    match v {
        JsonValue::Object(_) => {},
        _ => {
            return None;
        },
    }
    let id = decode_str(v, "userid");
    let name = decode_str(v, "name");
    let alias = decode_str(v, "alias");
    match (id, name, alias) {
        (Some(userid), Some(name), Some(alias)) => Some(ContactUser { userid, name, alias }),
        _ => None,
    }
}

/// One page of the recent-conversation listing.
#[derive(Debug)]
pub struct ChatListPage {
    pub chats: Vec<ChatSummary>,
    pub next_cursor: Option<String>,
    pub has_more: bool,
}

/// Reads a page of the recent-conversation listing (`get_msg_chat_list`):
/// its conversations with an id, the cursor of the next page and whether
/// there are more.
pub fn parse_chat_list_page(res: &JsonValue) -> (r: Result<ChatListPage, WatchError>)
    ensures
        match array_at(jview(*res), "chats"@) {
            None => r is Err && watch_error_text(r->Err_0) == "get_msg_chat_list 响应缺少 chats 数组"@,
            Some(items) => match decode_chats(items) {
                None => r is Err && watch_error_text(r->Err_0) == "解析会话列表失败"@,
                Some(cs) => r is Ok && chat_views(r->Ok_0.chats@) == cs && opt_view(
                    r->Ok_0.next_cursor,
                ) == next_cursor_of(jview(*res)) && r->Ok_0.has_more == (view_get(
                    jview(*res),
                    "has_more"@,
                ) == Some(JsonView::Bool(true))),
            },
        },
{
    let items = match res.get("chats") {
        Some(JsonValue::Array(items)) => items,
        _ => {
            return Err(WatchError::MissingArray("get_msg_chat_list 响应缺少 chats 数组".to_owned()));
        },
    };
    let ghost iv = items_view(items@, items@.len() as int);
    proof {
        lemma_items_view(items@, items@.len() as int);
    }
    let mut chats: Vec<ChatSummary> = Vec::new();
    let mut i: usize = 0;
    while i < items.len()
        invariant
            i <= items.len(),
            iv == items_view(items@, items@.len() as int),
            iv.len() == items.len(),
            forall|j: int| 0 <= j < items.len() ==> #[trigger] iv[j] == jview(items@[j]),
            decode_chats(iv.take(i as int)) == Some(chat_views(chats@)),
            array_at(jview(*res), "chats"@) == Some(iv),
        decreases items.len() - i,
    {
        let ghost c0 = chats@;
        assert(iv.take(i + 1).drop_last() =~= iv.take(i as int));
        assert(iv.take(i + 1).last() == jview(items@[i as int]));
        match chat_from_json(&items[i]) {
            None => {
                proof {
                    lemma_decode_chats_fails(iv, i as int);
                }
                return Err(WatchError::MalformedItem("解析会话列表失败".to_owned()));
            },
            Some(c) => {
                if !c.chat_id.as_str().is_empty() {
                    chats.push(c);
                    assert(chat_views(chats@) =~= chat_views(c0).push(chats@.last()@));
                }
            },
        }
        i += 1;
    }
    assert(iv.take(items.len() as int) =~= iv);
    let next_cursor = match get_str(res, "next_cursor") {
        Some(c) => if c.as_str().is_empty() {
            None
        } else {
            Some(copy_string(c))
        },
        None => None,
    };
    let has_more = match res.get("has_more") {
        Some(JsonValue::Bool(b)) => *b,
        _ => false,
    };
    Ok(ChatListPage { chats, next_cursor, has_more })
}

/// Lemma: once an item cannot be read, the listing cannot be either.
proof fn lemma_decode_chats_fails(iv: Seq<JsonView>, i: int)
    requires
        0 <= i < iv.len(),
        decode_chat(iv[i]) is None,
    ensures
        decode_chats(iv) is None,
    decreases iv.len(),
{
    if i < iv.len() - 1 {
        lemma_decode_chats_fails(iv.drop_last(), i);
    }
}

/// Lemma: once an item cannot be read, the listing cannot be either.
proof fn lemma_decode_contacts_fails(iv: Seq<JsonView>, i: int)
    requires
        0 <= i < iv.len(),
        decode_contact(iv[i]) is None,
    ensures
        decode_contacts(iv) is None,
    decreases iv.len(),
{
    if i < iv.len() - 1 {
        lemma_decode_contacts_fails(iv.drop_last(), i);
    }
}

impl ChatListPage {
    /// The cursor with which the next page is asked for, or none when
    /// this is the last page (no more pages, or no cursor).
    pub fn next_request(&self) -> (r: Option<String>)
        ensures
            opt_view(r) == if self.has_more {
                opt_view(self.next_cursor)
            } else {
                None
            },
    {
        if self.has_more {
            copy_opt(&self.next_cursor)
        } else {
            None
        }
    }
}

/// Reads the address-book listing (`get_userlist`): its members with an id.
pub fn parse_userlist(res: &JsonValue) -> (r: Result<Vec<ContactUser>, WatchError>)
    ensures
        match array_at(jview(*res), "userlist"@) {
            None => r is Err && watch_error_text(r->Err_0) == "get_userlist 响应缺少 userlist 数组"@,
            Some(items) => match decode_contacts(items) {
                None => r is Err && watch_error_text(r->Err_0) == "解析通讯录成员列表失败"@,
                Some(us) => r is Ok && contact_views(r->Ok_0@) == us,
            },
        },
{
    let items = match res.get("userlist") {
        Some(JsonValue::Array(items)) => items,
        _ => {
            return Err(WatchError::MissingArray("get_userlist 响应缺少 userlist 数组".to_owned()));
        },
    };
    let ghost iv = items_view(items@, items@.len() as int);
    proof {
        lemma_items_view(items@, items@.len() as int);
    }
    let mut users: Vec<ContactUser> = Vec::new();
    let mut i: usize = 0;
    while i < items.len()
        invariant
            i <= items.len(),
            iv == items_view(items@, items@.len() as int),
            iv.len() == items.len(),
            forall|j: int| 0 <= j < items.len() ==> #[trigger] iv[j] == jview(items@[j]),
            decode_contacts(iv.take(i as int)) == Some(contact_views(users@)),
            array_at(jview(*res), "userlist"@) == Some(iv),
        decreases items.len() - i,
    {
        let ghost u0 = users@;
        assert(iv.take(i + 1).drop_last() =~= iv.take(i as int));
        assert(iv.take(i + 1).last() == jview(items@[i as int]));
        match contact_from_json(&items[i]) {
            None => {
                proof {
                    lemma_decode_contacts_fails(iv, i as int);
                }
                return Err(WatchError::MalformedItem("解析通讯录成员列表失败".to_owned()));
            },
            Some(u) => {
                if !u.userid.as_str().is_empty() {
                    users.push(u);
                    assert(contact_views(users@) =~= contact_views(u0).push(users@.last()@));
                }
            },
        }
        i += 1;
    }
    assert(iv.take(items.len() as int) =~= iv);
    Ok(users)
}

/// One page of a conversation's messages.
#[derive(Debug)]
pub struct MessagePage {
    pub messages: Vec<JsonValue>,
    pub next_cursor: Option<String>,
}

/// Reads a page of a conversation's messages (`get_message`): all its
/// messages, and the cursor of the next page if there is one.
pub fn parse_message_page(res: &JsonValue) -> (r: Result<MessagePage, WatchError>)
    ensures
        match array_at(jview(*res), "messages"@) {
            None => r is Err && watch_error_text(r->Err_0) == "get_message 响应缺少 messages 数组"@,
            Some(items) => r is Ok && items_view(r->Ok_0.messages@, r->Ok_0.messages@.len() as int)
                == items && opt_view(r->Ok_0.next_cursor) == next_cursor_of(jview(*res)),
        },
{
    let items = match res.get("messages") {
        Some(JsonValue::Array(items)) => items,
        _ => {
            return Err(WatchError::MissingArray("get_message 响应缺少 messages 数组".to_owned()));
        },
    };
    let mut messages: Vec<JsonValue> = Vec::new();
    let mut i: usize = 0;
    while i < items.len()
        invariant
            i <= items.len(),
            messages@.len() == i,
            items_view(messages@, i as int) == items_view(items@, i as int),
        decreases items.len() - i,
    {
        let ghost m0 = messages@;
        messages.push(items[i].deep_copy());
        proof {
            assert(messages@.drop_last() =~= m0);
            crate::json::lemma_items_view_prefix(messages@, m0);
        }
        i += 1;
    }
    let next_cursor = match get_str(res, "next_cursor") {
        Some(c) => if c.as_str().is_empty() {
            None
        } else {
            Some(copy_string(c))
        },
        None => None,
    };
    Ok(MessagePage { messages, next_cursor })
}

// ---------------------------------------------------------------------
// Ordering messages by send time
// ---------------------------------------------------------------------

/// Where `x` goes in `s` so that it follows every message of `s` whose
/// send time is not later than its own (scanning back from the end).
pub open spec fn upper_bound(s: Seq<JsonView>, x: JsonView) -> int
    decreases s.len(),
{
    if s.len() == 0 || !seq_lt(sort_key(x), sort_key(s.last())) {
        s.len() as int
    } else {
        upper_bound(s.drop_last(), x)
    }
}

/// The messages of `s` ordered by send time, those with equal send times
/// in their order in `s` (a stable sort by key).
pub open spec fn sorted_by_send_time(s: Seq<JsonView>) -> Seq<JsonView>
    decreases s.len(),
{
    if s.len() == 0 {
        seq![]
    } else {
        let r = sorted_by_send_time(s.drop_last());
        r.insert(upper_bound(r, s.last()), s.last())
    }
}

/// Lemma: the insertion point lies within the sequence.
pub proof fn lemma_upper_bound_range(s: Seq<JsonView>, x: JsonView)
    ensures
        0 <= upper_bound(s, x) <= s.len(),
    decreases s.len(),
{
    if s.len() > 0 && seq_lt(sort_key(x), sort_key(s.last())) {
        lemma_upper_bound_range(s.drop_last(), x);
    }
}

/// Orders messages by send time, keeping the order of messages with
/// equal send times (`sort_by_key` with [`message_sort_key`]).
pub fn sort_messages_by_send_time(messages: &Vec<JsonValue>) -> (out: Vec<JsonValue>)
    ensures
        items_view(out@, out@.len() as int) == sorted_by_send_time(
            items_view(messages@, messages@.len() as int),
        ),
{
    let ghost mv = items_view(messages@, messages@.len() as int);
    proof {
        lemma_items_view(messages@, messages@.len() as int);
    }
    let mut out: Vec<JsonValue> = Vec::new();
    let mut keys: Vec<String> = Vec::new();
    let mut i: usize = 0;
    while i < messages.len()
        invariant
            i <= messages.len(),
            mv == items_view(messages@, messages@.len() as int),
            mv.len() == messages.len(),
            forall|j: int| 0 <= j < messages.len() ==> #[trigger] mv[j] == jview(messages@[j]),
            items_view(out@, out@.len() as int) == sorted_by_send_time(mv.take(i as int)),
            keys@.len() == out@.len(),
            forall|j: int|
                0 <= j < out@.len() ==> (#[trigger] keys@[j])@ == sort_key(jview(out@[j])),
        decreases messages.len() - i,
    {
        let ghost ov = items_view(out@, out@.len() as int);
        proof {
            lemma_items_view(out@, out@.len() as int);
        }
        let x = messages[i].deep_copy();
        let kx = message_sort_key(&x);
        let ghost xv = jview(x);
        let mut p: usize = out.len();
        assert(ov.take(p as int) =~= ov);
        while p > 0 && compare_str(kx.as_str(), keys[p - 1].as_str()) < 0
            invariant
                p <= out@.len(),
                keys@.len() == out@.len(),
                ov == items_view(out@, out@.len() as int),
                ov.len() == out@.len(),
                forall|j: int| 0 <= j < out@.len() ==> #[trigger] ov[j] == jview(out@[j]),
                forall|j: int|
                    0 <= j < out@.len() ==> (#[trigger] keys@[j])@ == sort_key(jview(out@[j])),
                kx@ == sort_key(xv),
                upper_bound(ov, xv) == upper_bound(ov.take(p as int), xv),
            decreases p,
        {
            proof {
                let t = ov.take(p as int);
                assert(t.last() == ov[p - 1]);
                assert(t.drop_last() =~= ov.take(p - 1));
            }
            p -= 1;
        }
        proof {
            let t = ov.take(p as int);
            if p > 0 {
                assert(t.last() == ov[p - 1]);
            }
            assert(upper_bound(t, xv) == p);
            assert(mv.take(i + 1).drop_last() =~= mv.take(i as int));
            assert(mv.take(i + 1).last() == xv);
            lemma_upper_bound_range(ov, xv);
        }
        let ghost out0 = out@;
        out.insert(p, x);
        keys.insert(p, kx);
        proof {
            lemma_items_view(out@, out@.len() as int);
            assert(items_view(out@, out@.len() as int) =~= ov.insert(p as int, xv)) by {
                assert forall|j: int| 0 <= j < out@.len() implies #[trigger] items_view(
                    out@,
                    out@.len() as int,
                )[j] == ov.insert(p as int, xv)[j] by {
                    if j < p {
                        assert(out@[j] == out0[j]);
                    } else if j > p {
                        assert(out@[j] == out0[j - 1]);
                    }
                }
            }
            assert forall|j: int| 0 <= j < out@.len() implies (#[trigger] keys@[j])@ == sort_key(
                jview(out@[j]),
            ) by {
                if j < p {
                    assert(out@[j] == out0[j]);
                } else if j > p {
                    assert(out@[j] == out0[j - 1]);
                }
            }
        }
        i += 1;
    }
    assert(mv.take(messages.len() as int) =~= mv);
    out
}

/// Whether message `a` may come before message `b`: its send time is not
/// later.
pub open spec fn send_time_le(a: JsonView, b: JsonView) -> bool {
    !seq_lt(sort_key(b), sort_key(a))
}

proof fn lemma_le_trans(a: Seq<char>, b: Seq<char>, c: Seq<char>)
    requires
        !seq_lt(b, a),
        !seq_lt(c, b),
    ensures
        !seq_lt(c, a),
{
    if seq_lt(c, a) {
        crate::collections::lemma_seq_lt_total(a, b);
        if a != b {
            crate::collections::lemma_seq_lt_transitive(c, a, b);
        }
    }
}

proof fn lemma_upper_bound_facts(s: Seq<JsonView>, x: JsonView)
    ensures
        forall|j: int|
            upper_bound(s, x) <= j < s.len() ==> seq_lt(sort_key(x), sort_key(#[trigger] s[j])),
        upper_bound(s, x) > 0 ==> !seq_lt(sort_key(x), sort_key(s[upper_bound(s, x) - 1])),
    decreases s.len(),
{
    if s.len() > 0 && seq_lt(sort_key(x), sort_key(s.last())) {
        let t = s.drop_last();
        lemma_upper_bound_facts(t, x);
        lemma_upper_bound_range(t, x);
        assert forall|j: int| upper_bound(s, x) <= j < s.len() implies seq_lt(
            sort_key(x),
            sort_key(#[trigger] s[j]),
        ) by {
            if j < s.len() - 1 {
                assert(s[j] == t[j]);
            }
        }
        if upper_bound(s, x) > 0 {
            assert(s[upper_bound(s, x) - 1] == t[upper_bound(t, x) - 1]);
        }
    }
}

/// Ordering by send time puts every message before those sent later, and
/// keeps each message exactly once.
pub proof fn lemma_sorted_by_send_time(s: Seq<JsonView>)
    ensures
        sorted_by_send_time(s).to_multiset() == s.to_multiset(),
        sorted_by_send_time(s).len() == s.len(),
        forall|a: int, b: int|
            0 <= a < b < s.len() ==> send_time_le(
                #[trigger] sorted_by_send_time(s)[a],
                #[trigger] sorted_by_send_time(s)[b],
            ),
    decreases s.len(),
{
    broadcast use vstd::seq_lib::to_multiset_insert, vstd::seq_lib::to_multiset_build,
        vstd::seq_lib::to_multiset_len;

    if s.len() > 0 {
        let t = s.drop_last();
        let x = s.last();
        lemma_sorted_by_send_time(t);
        let r = sorted_by_send_time(t);
        let p = upper_bound(r, x);
        lemma_upper_bound_range(r, x);
        lemma_upper_bound_facts(r, x);
        let q = r.insert(p, x);
        assert(sorted_by_send_time(s) == q);
        assert(s =~= t.push(x));
        assert(q.to_multiset() == r.to_multiset().insert(x));
        assert(t.push(x).to_multiset() == t.to_multiset().insert(x));
        assert forall|a: int, b: int| 0 <= a < b < s.len() implies send_time_le(
            #[trigger] q[a],
            #[trigger] q[b],
        ) by {
            if b < p {
                assert(q[a] == r[a] && q[b] == r[b]);
            } else if a > p {
                assert(q[a] == r[a - 1] && q[b] == r[b - 1]);
            } else if a == p {
                assert(q[b] == r[b - 1]);
                assert(seq_lt(sort_key(x), sort_key(r[b - 1])));
                crate::collections::lemma_seq_lt_asymmetric(sort_key(x), sort_key(r[b - 1]));
            } else if b == p {
                assert(q[a] == r[a]);
                if a < p - 1 {
                    assert(send_time_le(r[a], r[p - 1]));
                    lemma_le_trans(sort_key(r[a]), sort_key(r[p - 1]), sort_key(x));
                }
            } else {
                assert(q[a] == r[a] && q[b] == r[b - 1]);
                assert(a < b - 1);
            }
        }
    } else {
        assert(s =~= Seq::<JsonView>::empty());
        assert(sorted_by_send_time(s) =~= Seq::<JsonView>::empty());
    }
}

// ---------------------------------------------------------------------
// One friend's poll
// ---------------------------------------------------------------------

/// Whether a friend's poll reads the desktop client: the server gave no
/// message and the fallback is on (it is on for a single friend only).
pub fn needs_desktop_fallback(n_server_messages: usize, desktop_fallback: bool) -> (b: bool)
    ensures
        b == (n_server_messages == 0 && desktop_fallback),
{
    n_server_messages == 0 && desktop_fallback
}

/// The messages `ms`, in order, whose key in conversation `chat_id` is not
/// in `seen`, each with its key.
pub open spec fn keyed_unseen(ms: Seq<JsonView>, chat_id: Seq<char>, seen: Set<Seq<char>>) -> Seq<
    (Seq<char>, JsonView),
>
    decreases ms.len(),
{
    if ms.len() == 0 {
        seq![]
    } else {
        let rest = keyed_unseen(ms.drop_last(), chat_id, seen);
        let k = dedup_key(chat_id, ms.last());
        if seen.contains(k) {
            rest
        } else {
            rest.push((k, ms.last()))
        }
    }
}

/// The messages of a poll that are new: sorted by send time (ties keep
/// their order), each with its key, those whose key the state holds left
/// out (see [`keyed_unseen`]).
pub fn unseen_sorted_messages(state: &WatchState, chat_id: &str, messages: &Vec<JsonValue>) -> (out:
    Vec<(String, JsonValue)>)
    ensures
        entries_view(out@, out@.len() as int) == keyed_unseen(
            sorted_by_send_time(items_view(messages@, messages@.len() as int)),
            chat_id@,
            state.seen@,
        ),
{
    let sorted = sort_messages_by_send_time(messages);
    let ghost sv = items_view(sorted@, sorted@.len() as int);
    proof {
        lemma_items_view(sorted@, sorted@.len() as int);
    }
    let mut out: Vec<(String, JsonValue)> = Vec::new();
    let mut i: usize = 0;
    while i < sorted.len()
        invariant
            i <= sorted@.len(),
            sv == items_view(sorted@, sorted@.len() as int),
            sv.len() == sorted@.len(),
            forall|j: int| 0 <= j < sorted@.len() ==> #[trigger] sv[j] == jview(sorted@[j]),
            entries_view(out@, out@.len() as int) == keyed_unseen(
                sv.take(i as int),
                chat_id@,
                state.seen@,
            ),
        decreases sorted@.len() - i,
    {
        assert(sv.take(i + 1).drop_last() =~= sv.take(i as int));
        assert(sv.take(i + 1).last() == jview(sorted@[i as int]));
        let key = message_dedup_key(chat_id, &sorted[i]);
        if !state.seen.contains(key.as_str()) {
            let ghost o0 = out@;
            out.push((key, sorted[i].deep_copy()));
            proof {
                assert(out@.drop_last() =~= o0);
                crate::json::lemma_entries_view_prefix(out@, o0);
            }
        }
        i += 1;
    }
    assert(sv.take(sorted@.len() as int) =~= sv);
    out
}

/// The state file of a conversation under the save directory:
/// `.watch_friend_<id>.json`, the id made safe as a file name (`chat` when
/// nothing of it is left).
pub fn state_file_path(save_dir: &str, chat_id: &str) -> (p: String)
    ensures
        p@ == crate::watch_all::path_join(
            save_dir@,
            ".watch_friend_"@ + match crate::media::sanitized_name(chat_id@) {
                Some(n) => n,
                None => "chat"@,
            } + ".json"@,
        ),
{
    let name = match crate::media::sanitize_filename(chat_id) {
        Some(n) => n,
        None => "chat".to_owned(),
    };
    let mut v: Vec<char> = Vec::new();
    append_str(&mut v, ".watch_friend_");
    append_str(&mut v, name.as_str());
    append_str(&mut v, ".json");
    let file = string_from(&v);
    crate::watch_all::join_path(save_dir, file.as_str())
}

/// Takes the answer to a printed message: when it was acknowledged, its
/// key joins the seen set and watching goes on; when it was refused or no
/// answer came, nothing changes and watching stops. Returns whether to
/// stop.
pub fn acknowledge(state: &mut WatchState, key: String, ack: Option<bool>) -> (stop: bool)
    requires
        old(state).seen.wf(),
    ensures
        final(state).seen.wf(),
        ack == Some(true) ==> final(state).seen@ == old(state).seen@.insert(key@) && !stop,
        ack != Some(true) ==> *final(state) == *old(state) && stop,
{
    match ack {
        Some(true) => {
            state.seen.insert(key);
            false
        },
        _ => true,
    }
}

/// Lemma: once a message is acknowledged, no later poll outputs its key
/// again, and no poll outputs a key that the state holds.
pub proof fn lemma_acknowledged_not_repeated(
    ms: Seq<JsonView>,
    chat_id: Seq<char>,
    seen: Set<Seq<char>>,
    key: Seq<char>,
)
    ensures
        forall|i: int|
            0 <= i < keyed_unseen(ms, chat_id, seen.insert(key)).len() ==> #[trigger] keyed_unseen(
                ms,
                chat_id,
                seen.insert(key),
            )[i].0 != key,
        forall|i: int|
            0 <= i < keyed_unseen(ms, chat_id, seen).len() ==> !seen.contains(
                #[trigger] keyed_unseen(ms, chat_id, seen)[i].0,
            ),
{
    lemma_keyed_unseen_fresh(ms, chat_id, seen);
    lemma_keyed_unseen_fresh(ms, chat_id, seen.insert(key));
    assert forall|i: int|
        0 <= i < keyed_unseen(ms, chat_id, seen.insert(key)).len() implies #[trigger] keyed_unseen(
        ms,
        chat_id,
        seen.insert(key),
    )[i].0 != key by {
        assert(seen.insert(key).contains(key));
    }
}

proof fn lemma_keyed_unseen_fresh(ms: Seq<JsonView>, chat_id: Seq<char>, seen: Set<Seq<char>>)
    ensures
        forall|i: int|
            0 <= i < keyed_unseen(ms, chat_id, seen).len() ==> !seen.contains(
                #[trigger] keyed_unseen(ms, chat_id, seen)[i].0,
            ),
    decreases ms.len(),
{
    if ms.len() > 0 {
        lemma_keyed_unseen_fresh(ms.drop_last(), chat_id, seen);
        let rest = keyed_unseen(ms.drop_last(), chat_id, seen);
        let all = keyed_unseen(ms, chat_id, seen);
        assert forall|i: int| 0 <= i < all.len() implies !seen.contains(#[trigger] all[i].0) by {
            if i < rest.len() {
                assert(all[i] == rest[i]);
            }
        }
    }
}

/// What one friend's poll does with its new messages `entries` (from
/// position `i` on) and the answers `acks` to the messages it sends: a
/// message whose key was acknowledged earlier in the poll is skipped;
/// any other is sent; an acknowledged one has its key recorded, while a
/// refused or unanswered one ends the poll. Gives the seen set at the
/// end, the positions of the messages sent, and whether the worker
/// stopped.
pub open spec fn worker_poll(
    seen: Set<Seq<char>>,
    entries: Seq<(Seq<char>, JsonView)>,
    acks: Seq<Option<bool>>,
    i: int,
) -> (Set<Seq<char>>, Seq<int>, bool)
    decreases entries.len() - i,
{
    if i < 0 || i >= entries.len() {
        (seen, seq![], false)
    } else {
        let k = entries[i].0;
        if seen.contains(k) {
            worker_poll(seen, entries, acks, i + 1)
        } else if acks.len() == 0 || acks[0] != Some(true) {
            (seen, seq![i], true)
        } else {
            let (s, sent, stop) = worker_poll(seen.insert(k), entries, acks.drop_first(), i + 1);
            (s, seq![i] + sent, stop)
        }
    }
}

proof fn lemma_keyed_unseen_from(ms: Seq<JsonView>, chat_id: Seq<char>, seen: Set<Seq<char>>)
    ensures
        forall|i: int|
            0 <= i < keyed_unseen(ms, chat_id, seen).len() ==> exists|x: int|
                0 <= x < ms.len() && #[trigger] keyed_unseen(ms, chat_id, seen)[i].1 == ms[x],
    decreases ms.len(),
{
    if ms.len() > 0 {
        let dl = ms.drop_last();
        lemma_keyed_unseen_from(dl, chat_id, seen);
        let rest = keyed_unseen(dl, chat_id, seen);
        let all = keyed_unseen(ms, chat_id, seen);
        assert forall|i: int| 0 <= i < all.len() implies exists|x: int|
            0 <= x < ms.len() && #[trigger] all[i].1 == ms[x] by {
            if i < rest.len() {
                assert(all[i] == rest[i]);
                let x = choose|x: int| 0 <= x < dl.len() && rest[i].1 == dl[x];
                assert(dl[x] == ms[x]);
            } else {
                assert(all[i].1 == ms[ms.len() - 1]);
            }
        }
    }
}

proof fn lemma_keyed_unseen_ordered(ms: Seq<JsonView>, chat_id: Seq<char>, seen: Set<Seq<char>>)
    requires
        forall|a: int, b: int| 0 <= a < b < ms.len() ==> send_time_le(#[trigger] ms[a], #[trigger] ms[b]),
    ensures
        forall|a: int, b: int|
            0 <= a < b < keyed_unseen(ms, chat_id, seen).len() ==> send_time_le(
                #[trigger] keyed_unseen(ms, chat_id, seen)[a].1,
                #[trigger] keyed_unseen(ms, chat_id, seen)[b].1,
            ),
    decreases ms.len(),
{
    if ms.len() > 0 {
        let dl = ms.drop_last();
        assert forall|a: int, b: int| 0 <= a < b < dl.len() implies send_time_le(
            #[trigger] dl[a],
            #[trigger] dl[b],
        ) by {
            assert(dl[a] == ms[a] && dl[b] == ms[b]);
        }
        lemma_keyed_unseen_ordered(dl, chat_id, seen);
        lemma_keyed_unseen_from(dl, chat_id, seen);
        let rest = keyed_unseen(dl, chat_id, seen);
        let all = keyed_unseen(ms, chat_id, seen);
        assert forall|a: int, b: int| 0 <= a < b < all.len() implies send_time_le(
            #[trigger] all[a].1,
            #[trigger] all[b].1,
        ) by {
            assert(all[a] == rest[a]);
            if b < rest.len() {
                assert(all[b] == rest[b]);
            } else {
                assert(all[b].1 == ms[ms.len() - 1]);
                let x = choose|x: int| 0 <= x < dl.len() && rest[a].1 == dl[x];
                assert(dl[x] == ms[x]);
            }
        }
    }
}

proof fn lemma_worker_poll_steps(
    seen: Set<Seq<char>>,
    entries: Seq<(Seq<char>, JsonView)>,
    acks: Seq<Option<bool>>,
    i: int,
)
    requires
        0 <= i <= entries.len(),
    ensures
        ({
            let (s, sent, stop) = worker_poll(seen, entries, acks, i);
            let acked = sent.len() - (if stop {
                1int
            } else {
                0int
            });
            &&& forall|a: int| 0 <= a < sent.len() ==> i <= #[trigger] sent[a] < entries.len()
            &&& forall|a: int, b: int| 0 <= a < b < sent.len() ==> #[trigger] sent[a] < #[trigger] sent[b]
            &&& forall|a: int| 0 <= a < sent.len() ==> !seen.contains(entries[#[trigger] sent[a]].0)
            &&& forall|a: int, b: int|
                0 <= a < b < sent.len() ==> entries[#[trigger] sent[a]].0 != entries[#[trigger] sent[b]].0
            &&& forall|k: Seq<char>| seen.contains(k) ==> s.contains(k)
            &&& 0 <= acked
            &&& forall|a: int| 0 <= a < acked ==> s.contains(entries[#[trigger] sent[a]].0)
            &&& stop ==> sent.len() > 0 && !s.contains(entries[sent[sent.len() - 1]].0)
            &&& forall|k: Seq<char>|
                s.contains(k) && !seen.contains(k) ==> exists|a: int|
                    0 <= a < acked && entries[#[trigger] sent[a]].0 == k
        }),
    decreases entries.len() - i,
{
    if i < entries.len() {
        let k = entries[i].0;
        if seen.contains(k) {
            lemma_worker_poll_steps(seen, entries, acks, i + 1);
        } else if acks.len() == 0 || acks[0] != Some(true) {
        } else {
            let seen2 = seen.insert(k);
            lemma_worker_poll_steps(seen2, entries, acks.drop_first(), i + 1);
            let (s2, sent2, stop2) = worker_poll(seen2, entries, acks.drop_first(), i + 1);
            let sent = seq![i] + sent2;
            let acked2 = sent2.len() - (if stop2 {
                1int
            } else {
                0int
            });
            assert forall|a: int| 0 <= a < sent.len() implies i <= #[trigger] sent[a] < entries.len() by {
                if a > 0 {
                    assert(sent[a] == sent2[a - 1]);
                }
            }
            assert forall|a: int, b: int| 0 <= a < b < sent.len() implies #[trigger] sent[a]
                < #[trigger] sent[b] by {
                assert(sent[b] == sent2[b - 1]);
                if a > 0 {
                    assert(sent[a] == sent2[a - 1]);
                }
            }
            assert forall|a: int| 0 <= a < sent.len() implies !seen.contains(
                entries[#[trigger] sent[a]].0,
            ) by {
                if a > 0 {
                    assert(sent[a] == sent2[a - 1]);
                    assert(!seen2.contains(entries[sent2[a - 1]].0));
                }
            }
            assert forall|a: int, b: int| 0 <= a < b < sent.len() implies entries[#[trigger] sent[a]].0
                != entries[#[trigger] sent[b]].0 by {
                assert(sent[b] == sent2[b - 1]);
                assert(!seen2.contains(entries[sent2[b - 1]].0));
                if a > 0 {
                    assert(sent[a] == sent2[a - 1]);
                }
            }
            assert forall|a: int| 0 <= a < acked2 + 1 implies s2.contains(
                entries[#[trigger] sent[a]].0,
            ) by {
                if a > 0 {
                    assert(sent[a] == sent2[a - 1]);
                } else {
                    assert(seen2.contains(k));
                }
            }
            if stop2 {
                assert(sent[sent.len() - 1] == sent2[sent2.len() - 1]);
            }
            assert forall|kk: Seq<char>| s2.contains(kk) && !seen.contains(kk) implies exists|a: int|
                0 <= a < acked2 + 1 && entries[#[trigger] sent[a]].0 == kk by {
                if kk == k {
                    assert(entries[sent[0]].0 == kk);
                } else {
                    assert(!seen2.contains(kk));
                    let a2 = choose|a: int| 0 <= a < acked2 && entries[#[trigger] sent2[a]].0 == kk;
                    assert(sent[a2 + 1] == sent2[a2]);
                }
            }
        }
    }
}

/// Law of one friend's poll: the messages sent are new ones (their key
/// not in the state), in order of send time, no key twice; a key joins
/// the seen set only once its message was acknowledged, and a refused or
/// unanswered message stops the worker without its key being recorded.
pub proof fn lemma_worker_poll(
    ms: Seq<JsonView>,
    chat_id: Seq<char>,
    seen: Set<Seq<char>>,
    acks: Seq<Option<bool>>,
)
    ensures
        ({
            let entries = keyed_unseen(sorted_by_send_time(ms), chat_id, seen);
            let (s, sent, stop) = worker_poll(seen, entries, acks, 0);
            let acked = sent.len() - (if stop {
                1int
            } else {
                0int
            });
            &&& forall|a: int| 0 <= a < sent.len() ==> 0 <= #[trigger] sent[a] < entries.len()
            &&& forall|a: int, b: int|
                0 <= a < b < sent.len() ==> send_time_le(
                    entries[#[trigger] sent[a]].1,
                    entries[#[trigger] sent[b]].1,
                )
            &&& forall|a: int| 0 <= a < sent.len() ==> !seen.contains(entries[#[trigger] sent[a]].0)
            &&& forall|a: int, b: int|
                0 <= a < b < sent.len() ==> entries[#[trigger] sent[a]].0 != entries[#[trigger] sent[b]].0
            &&& forall|k: Seq<char>| seen.contains(k) ==> s.contains(k)
            &&& forall|a: int| 0 <= a < acked ==> s.contains(entries[#[trigger] sent[a]].0)
            &&& stop ==> sent.len() > 0 && !s.contains(entries[sent[sent.len() - 1]].0)
            &&& forall|k: Seq<char>|
                s.contains(k) && !seen.contains(k) ==> exists|a: int|
                    0 <= a < acked && entries[#[trigger] sent[a]].0 == k
        }),
{
    let entries = keyed_unseen(sorted_by_send_time(ms), chat_id, seen);
    lemma_sorted_by_send_time(ms);
    lemma_keyed_unseen_ordered(sorted_by_send_time(ms), chat_id, seen);
    lemma_worker_poll_steps(seen, entries, acks, 0);
    let (s, sent, stop) = worker_poll(seen, entries, acks, 0);
    assert forall|a: int, b: int| 0 <= a < b < sent.len() implies send_time_le(
        entries[#[trigger] sent[a]].1,
        entries[#[trigger] sent[b]].1,
    ) by {
        assert(sent[a] < sent[b]);
    }
}

// ---------------------------------------------------------------------
// Laws of resolving a target
// ---------------------------------------------------------------------

proof fn lemma_filter_none<A>(s: Seq<A>, pred: spec_fn(A) -> bool)
    requires
        forall|i: int| 0 <= i < s.len() ==> !pred(#[trigger] s[i]),
    ensures
        s.filter(pred).len() == 0,
    decreases s.len(),
{
    reveal_with_fuel(Seq::filter, 1);
    if s.len() > 0 {
        let dl = s.drop_last();
        assert forall|i: int| 0 <= i < dl.len() implies !pred(#[trigger] dl[i]) by {
            assert(dl[i] == s[i]);
        }
        lemma_filter_none(dl, pred);
        assert(!pred(s[s.len() - 1]));
    }
}

proof fn lemma_filter_one<A>(s: Seq<A>, pred: spec_fn(A) -> bool, j: int)
    requires
        0 <= j < s.len(),
        pred(s[j]),
        forall|i: int| 0 <= i < s.len() && i != j ==> !pred(#[trigger] s[i]),
    ensures
        s.filter(pred) =~= seq![s[j]],
    decreases s.len(),
{
    reveal_with_fuel(Seq::filter, 1);
    let dl = s.drop_last();
    if j < s.len() - 1 {
        assert forall|i: int| 0 <= i < dl.len() && i != j implies !pred(#[trigger] dl[i]) by {
            assert(dl[i] == s[i]);
        }
        assert(dl[j] == s[j]);
        lemma_filter_one(dl, pred, j);
        assert(!pred(s[s.len() - 1]));
    } else {
        assert forall|i: int| 0 <= i < dl.len() implies !pred(#[trigger] dl[i]) by {
            assert(dl[i] == s[i]);
        }
        lemma_filter_none(dl, pred);
        assert(dl.filter(pred) =~= Seq::<A>::empty());
    }
}

proof fn lemma_filter_some<A>(s: Seq<A>, pred: spec_fn(A) -> bool, a: int)
    requires
        0 <= a < s.len(),
        pred(s[a]),
    ensures
        s.filter(pred).len() >= 1,
    decreases s.len(),
{
    reveal_with_fuel(Seq::filter, 1);
    let dl = s.drop_last();
    if a < s.len() - 1 {
        assert(dl[a] == s[a]);
        lemma_filter_some(dl, pred, a);
    }
}

proof fn lemma_filter_two<A>(s: Seq<A>, pred: spec_fn(A) -> bool, a: int, b: int)
    requires
        0 <= a < b < s.len(),
        pred(s[a]),
        pred(s[b]),
    ensures
        s.filter(pred).len() >= 2,
    decreases s.len(),
{
    reveal_with_fuel(Seq::filter, 1);
    let dl = s.drop_last();
    assert(dl[a] == s[a]);
    if b < s.len() - 1 {
        assert(dl[b] == s[b]);
        lemma_filter_two(dl, pred, a, b);
    } else {
        lemma_filter_some(dl, pred, a);
    }
}

/// Law: when exactly one recent conversation has the target as its id or
/// its name, resolving the target gives that conversation.
pub proof fn lemma_select_chat_unique_exact(t: Seq<char>, cs: Seq<ChatView>, j: int)
    requires
        0 <= j < cs.len(),
        cs[j].chat_id == t || cs[j].chat_name == t,
        forall|i: int|
            0 <= i < cs.len() && i != j ==> (#[trigger] cs[i]).chat_id != t && cs[i].chat_name != t,
    ensures
        select_chat_spec(t, cs) == Ok::<Option<ChatView>, Seq<char>>(Some(cs[j])),
{
    lemma_filter_one(cs, |c: ChatView| chat_exact(c, t), j);
}

/// Law: when no recent conversation has the target as its id or name and
/// exactly one conversation's name contains the target, resolving the
/// target gives that conversation.
pub proof fn lemma_select_chat_unique_fuzzy(t: Seq<char>, cs: Seq<ChatView>, j: int)
    requires
        0 <= j < cs.len(),
        forall|i: int| 0 <= i < cs.len() ==> (#[trigger] cs[i]).chat_id != t && cs[i].chat_name != t,
        contains_seq(cs[j].chat_name, t),
        forall|i: int| 0 <= i < cs.len() && i != j ==> !contains_seq((#[trigger] cs[i]).chat_name, t),
    ensures
        select_chat_spec(t, cs) == Ok::<Option<ChatView>, Seq<char>>(Some(cs[j])),
{
    lemma_filter_none(cs, |c: ChatView| chat_exact(c, t));
    lemma_filter_one(cs, |c: ChatView| chat_fuzzy(c, t), j);
}

/// Law: when no recent conversation has the target as its id or name and
/// none's name contains it, the target is not found among them.
pub proof fn lemma_select_chat_not_found(t: Seq<char>, cs: Seq<ChatView>)
    requires
        forall|i: int|
            0 <= i < cs.len() ==> (#[trigger] cs[i]).chat_id != t && cs[i].chat_name != t
                && !contains_seq(cs[i].chat_name, t),
    ensures
        select_chat_spec(t, cs) == Ok::<Option<ChatView>, Seq<char>>(None),
{
    lemma_filter_none(cs, |c: ChatView| chat_exact(c, t));
    lemma_filter_none(cs, |c: ChatView| chat_fuzzy(c, t));
}

/// Law: when two recent conversations have the target as id or name, or
/// none does and two names contain it, resolving fails and chooses none.
pub proof fn lemma_select_chat_ambiguous(t: Seq<char>, cs: Seq<ChatView>, a: int, b: int)
    requires
        0 <= a < b < cs.len(),
        ((cs[a].chat_id == t || cs[a].chat_name == t) && (cs[b].chat_id == t || cs[b].chat_name
            == t)) || ((forall|i: int|
            0 <= i < cs.len() ==> (#[trigger] cs[i]).chat_id != t && cs[i].chat_name != t)
            && contains_seq(cs[a].chat_name, t) && contains_seq(cs[b].chat_name, t)),
    ensures
        select_chat_spec(t, cs) is Err,
{
    if (cs[a].chat_id == t || cs[a].chat_name == t) && (cs[b].chat_id == t || cs[b].chat_name == t) {
        lemma_filter_two(cs, |c: ChatView| chat_exact(c, t), a, b);
    } else {
        lemma_filter_none(cs, |c: ChatView| chat_exact(c, t));
        lemma_filter_two(cs, |c: ChatView| chat_fuzzy(c, t), a, b);
    }
}

/// Law: when exactly one member has the target as id, name or non-empty
/// alias, resolving the target among the members gives that member.
pub proof fn lemma_select_contact_unique_exact(t: Seq<char>, us: Seq<ContactView>, j: int)
    requires
        0 <= j < us.len(),
        us[j].userid == t || us[j].name == t || (us[j].alias.len() > 0 && us[j].alias == t),
        forall|i: int|
            0 <= i < us.len() && i != j ==> (#[trigger] us[i]).userid != t && us[i].name != t && (
            us[i].alias.len() == 0 || us[i].alias != t),
    ensures
        select_contact_spec(t, us) == Ok::<Option<ContactView>, Seq<char>>(Some(us[j])),
{
    lemma_filter_one(us, |u: ContactView| contact_exact(u, t), j);
}

/// Law: when no member matches the target exactly and exactly one
/// member's name or non-empty alias contains it, resolving gives that
/// member.
pub proof fn lemma_select_contact_unique_fuzzy(t: Seq<char>, us: Seq<ContactView>, j: int)
    requires
        0 <= j < us.len(),
        forall|i: int|
            0 <= i < us.len() ==> (#[trigger] us[i]).userid != t && us[i].name != t && (
            us[i].alias.len() == 0 || us[i].alias != t),
        contains_seq(us[j].name, t) || (us[j].alias.len() > 0 && contains_seq(us[j].alias, t)),
        forall|i: int|
            0 <= i < us.len() && i != j ==> !contains_seq((#[trigger] us[i]).name, t) && (
            us[i].alias.len() == 0 || !contains_seq(us[i].alias, t)),
    ensures
        select_contact_spec(t, us) == Ok::<Option<ContactView>, Seq<char>>(Some(us[j])),
{
    lemma_filter_none(us, |u: ContactView| contact_exact(u, t));
    lemma_filter_one(us, |u: ContactView| contact_fuzzy(u, t), j);
}

/// Law: when no member matches the target exactly and no member's name
/// or non-empty alias contains it, the target is not found among them.
pub proof fn lemma_select_contact_not_found(t: Seq<char>, us: Seq<ContactView>)
    requires
        forall|i: int|
            0 <= i < us.len() ==> (#[trigger] us[i]).userid != t && us[i].name != t && (
            us[i].alias.len() == 0 || us[i].alias != t) && !contains_seq(us[i].name, t) && (
            us[i].alias.len() == 0 || !contains_seq(us[i].alias, t)),
    ensures
        select_contact_spec(t, us) == Ok::<Option<ContactView>, Seq<char>>(None),
{
    lemma_filter_none(us, |u: ContactView| contact_exact(u, t));
    lemma_filter_none(us, |u: ContactView| contact_fuzzy(u, t));
}

/// Law: when two members match the target exactly, resolving among the
/// members fails and chooses none.
pub proof fn lemma_select_contact_ambiguous(t: Seq<char>, us: Seq<ContactView>, a: int, b: int)
    requires
        0 <= a < b < us.len(),
        us[a].userid == t || us[a].name == t || (us[a].alias.len() > 0 && us[a].alias == t),
        us[b].userid == t || us[b].name == t || (us[b].alias.len() > 0 && us[b].alias == t),
    ensures
        select_contact_spec(t, us) is Err,
{
    lemma_filter_two(us, |u: ContactView| contact_exact(u, t), a, b);
}

} // verus!
