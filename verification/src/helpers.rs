//! The helper commands: which helper a category and a name select, the
//! options of each helper, and what each helper checks and prints before
//! and after the work that it hands to the desktop client or the server.
use vstd::prelude::*;

use crate::collections::{string_views, StringSet};
use crate::desktop::{
    opt_view, result_view, target_check, text_check, validate_phone, validate_target,
    validate_text_message, AddExternalFriendRequest, AddExternalFriendResult, DesktopError,
    ExternalFriendStatus, FriendMessagePayload, FriendMessageType, SendFriendMessageRequest,
    SendFriendMessageResult, SendFriendStatus,
};
use crate::doc_upload::DocError;
use crate::json::{entries_view, jview, json_text, lemma_entries_view, JsonValue, JsonView};
use crate::text::{copy_string, str_eq, trim, trim_chars, chars_of, string_from};
use crate::watch_friend::{
    chat_views, contact_views, select_contact_spec, ChatSummary, ContactUser, ContactView,
    WatchError,
};

verus! {

// ---------------------------------------------------------------------
// The registry of helpers
// ---------------------------------------------------------------------

/// Adds an external contact by phone number through the desktop client.
pub struct AddExternalFriendHelper;

/// Adds smart-sheet records, uploading the local files they name.
pub struct SmartsheetAddRecordsAutoFileHelper;

/// Sends a text, an image or a file to a friend through the desktop client.
pub struct SendFriendMessageHelper;

/// Watches all recent one-to-one conversations.
pub struct WatchAllHelper;

/// Watches the conversations of named friends.
pub struct WatchFriendHelper;

/// The helpers that the registry offers.
#[derive(Debug, Clone, Copy, PartialEq, Eq, Structural)]
pub enum HelperKind {
    AddExternalFriend,
    SmartsheetAddRecordsAutoFile,
    SendFriendMessage,
    WatchAll,
    WatchFriend,
}

/// The category of a helper.
pub open spec fn category_of(k: HelperKind) -> Seq<char> {
    match k {
        HelperKind::AddExternalFriend => "contact"@,
        HelperKind::SmartsheetAddRecordsAutoFile => "doc"@,
        HelperKind::SendFriendMessage => "msg"@,
        HelperKind::WatchAll => "msg"@,
        HelperKind::WatchFriend => "msg"@,
    }
}

/// The command name of a helper.
pub open spec fn name_of(k: HelperKind) -> Seq<char> {
    match k {
        HelperKind::AddExternalFriend => "+add_external_friend"@,
        HelperKind::SmartsheetAddRecordsAutoFile => "+smartsheet_add_records_auto_file"@,
        HelperKind::SendFriendMessage => "+send_friend_message"@,
        HelperKind::WatchAll => "+watch_all"@,
        HelperKind::WatchFriend => "+watch_friend"@,
    }
}

impl HelperKind {
    /// The category that the helper belongs to.
    pub fn category(&self) -> (c: &'static str)
        ensures
            c@ == category_of(*self),
    {
        match self {
            HelperKind::AddExternalFriend => "contact",
            HelperKind::SmartsheetAddRecordsAutoFile => "doc",
            HelperKind::SendFriendMessage => "msg",
            HelperKind::WatchAll => "msg",
            HelperKind::WatchFriend => "msg",
        }
    }

    /// The name of the helper's command.
    pub fn name(&self) -> (n: &'static str)
        ensures
            n@ == name_of(*self),
    {
        match self {
            HelperKind::AddExternalFriend => "+add_external_friend",
            HelperKind::SmartsheetAddRecordsAutoFile => "+smartsheet_add_records_auto_file",
            HelperKind::SendFriendMessage => "+send_friend_message",
            HelperKind::WatchAll => "+watch_all",
            HelperKind::WatchFriend => "+watch_friend",
        }
    }
}

/// The helpers, in the order the registry lists them.
pub open spec fn all_helpers() -> Seq<HelperKind> {
    seq![
        HelperKind::AddExternalFriend,
        HelperKind::SmartsheetAddRecordsAutoFile,
        HelperKind::SendFriendMessage,
        HelperKind::WatchAll,
        HelperKind::WatchFriend,
    ]
}

/// The registry of helper commands.
pub struct HelperRegistry {
    helpers: Vec<HelperKind>,
}

impl HelperRegistry {
    /// The helpers of the registry, in order.
    pub closed spec fn kinds(&self) -> Seq<HelperKind> {
        self.helpers@
    }

    /// The registry with every helper.
    pub fn new() -> (r: HelperRegistry)
        ensures
            r.kinds() == all_helpers(),
    {
        let helpers = vec![
            HelperKind::AddExternalFriend,
            HelperKind::SmartsheetAddRecordsAutoFile,
            HelperKind::SendFriendMessage,
            HelperKind::WatchAll,
            HelperKind::WatchFriend,
        ];
        let r = HelperRegistry { helpers };
        assert(r.kinds() =~= all_helpers());
        r
    }

    /// The first helper of `category` named `name`.
    pub fn get(&self, category: &str, name: &str) -> (r: Option<HelperKind>)
        ensures
            match r {
                Some(k) => exists|i: int|
                    0 <= i < self.kinds().len() && self.kinds()[i] == k && category_of(k)
                        == category@ && name_of(k) == name@ && forall|j: int|
                        0 <= j < i ==> !(category_of(#[trigger] self.kinds()[j]) == category@
                            && name_of(self.kinds()[j]) == name@),
                None => forall|j: int|
                    0 <= j < self.kinds().len() ==> !(category_of(#[trigger] self.kinds()[j])
                        == category@ && name_of(self.kinds()[j]) == name@),
            },
    {
        let mut i: usize = 0;
        while i < self.helpers.len()
            invariant
                i <= self.helpers@.len(),
                forall|j: int|
                    0 <= j < i ==> !(category_of(#[trigger] self.kinds()[j]) == category@ && name_of(
                        self.kinds()[j],
                    ) == name@),
            decreases self.helpers@.len() - i,
        {
            let k = self.helpers[i];
            if str_eq(k.category(), category) && str_eq(k.name(), name) {
                return Some(k);
            }
            i += 1;
        }
        None
    }

    /// The helpers of `category`, in order.
    pub fn list_in_category(&self, category: &str) -> (r: Vec<HelperKind>)
        ensures
            r@ == self.kinds().filter(|k: HelperKind| category_of(k) == category@),
    {
        let ghost pred = |k: HelperKind| category_of(k) == category@;
        let mut out: Vec<HelperKind> = Vec::new();
        let mut i: usize = 0;
        while i < self.helpers.len()
            invariant
                i <= self.helpers@.len(),
                pred == (|k: HelperKind| category_of(k) == category@),
                out@ == self.kinds().take(i as int).filter(pred),
            decreases self.helpers@.len() - i,
        {
            proof {
                reveal_with_fuel(Seq::filter, 1);
                assert(self.kinds().take(i + 1).drop_last() =~= self.kinds().take(i as int));
            }
            let k = self.helpers[i];
            if str_eq(k.category(), category) {
                out.push(k);
            }
            i += 1;
        }
        assert(self.kinds().take(self.helpers@.len() as int) =~= self.kinds());
        out
    }
}

impl AddExternalFriendHelper {
    /// The helper's kind in the registry.
    pub fn kind(&self) -> (k: HelperKind)
        ensures
            k == HelperKind::AddExternalFriend,
    {
        HelperKind::AddExternalFriend
    }
}

impl SmartsheetAddRecordsAutoFileHelper {
    /// The helper's kind in the registry.
    pub fn kind(&self) -> (k: HelperKind)
        ensures
            k == HelperKind::SmartsheetAddRecordsAutoFile,
    {
        HelperKind::SmartsheetAddRecordsAutoFile
    }
}

impl SendFriendMessageHelper {
    /// The helper's kind in the registry.
    pub fn kind(&self) -> (k: HelperKind)
        ensures
            k == HelperKind::SendFriendMessage,
    {
        HelperKind::SendFriendMessage
    }
}

impl WatchAllHelper {
    /// The helper's kind in the registry.
    pub fn kind(&self) -> (k: HelperKind)
        ensures
            k == HelperKind::WatchAll,
    {
        HelperKind::WatchAll
    }
}

impl WatchFriendHelper {
    /// The helper's kind in the registry.
    pub fn kind(&self) -> (k: HelperKind)
        ensures
            k == HelperKind::WatchFriend,
    {
        HelperKind::WatchFriend
    }
}

// ---------------------------------------------------------------------
// Adding an external contact
// ---------------------------------------------------------------------

/// The options of the add-external-contact command.
#[derive(Debug, Clone, PartialEq, Eq)]
pub struct AddExternalFriendArgs {
    pub phone: String,
    pub remark: Option<String>,
    pub greeting: Option<String>,
}

/// An optional text trimmed, none when nothing is left.
pub open spec fn normalized_text(o: Option<Seq<char>>) -> Option<Seq<char>> {
    match o {
        Some(t) => if trim(t).len() > 0 {
            Some(trim(t))
        } else {
            None
        },
        None => None,
    }
}

/// Trims an optional text; nothing is left of a blank one.
pub fn normalize_optional_text(value: Option<String>) -> (r: Option<String>)
    ensures
        opt_view(r) == normalized_text(opt_view(value)),
{
    match value {
        Some(text) => {
            let cs = chars_of(text.as_str());
            let t = trim_chars(&cs);
            if t.len() == 0 {
                None
            } else {
                Some(string_from(&t))
            }
        },
        None => None,
    }
}

/// The request of the add-external-contact command: the normalized phone
/// number, and the trimmed remark and greeting.
pub fn add_external_friend_request(args: &AddExternalFriendArgs) -> (r: Result<
    AddExternalFriendRequest,
    DesktopError,
>)
    ensures
        match crate::desktop::phone_check(args.phone@) {
            Ok(p) => r is Ok && r->Ok_0.phone@ == p && opt_view(r->Ok_0.remark) == normalized_text(
                opt_view(args.remark),
            ) && opt_view(r->Ok_0.greeting) == normalized_text(opt_view(args.greeting)),
            Err(e) => r == Err::<AddExternalFriendRequest, DesktopError>(e),
        },
{
    let phone = validate_phone(args.phone.as_str())?;
    Ok(
        AddExternalFriendRequest {
            phone,
            remark: normalize_optional_text(crate::desktop::copy_opt(&args.remark)),
            greeting: normalize_optional_text(crate::desktop::copy_opt(&args.greeting)),
        },
    )
}

/// The name of a contact status in printed results.
pub open spec fn external_status_name(s: ExternalFriendStatus) -> Seq<char> {
    match s {
        ExternalFriendStatus::Added => "added"@,
        ExternalFriendStatus::Pending => "pending"@,
        ExternalFriendStatus::AlreadyExists => "already_exists"@,
        ExternalFriendStatus::Failed => "failed"@,
    }
}

/// The name of a send status in printed results.
pub open spec fn send_status_name(s: SendFriendStatus) -> Seq<char> {
    match s {
        SendFriendStatus::Sent => "sent"@,
        SendFriendStatus::Failed => "failed"@,
    }
}

/// The name of a message type in printed results.
pub open spec fn message_type_name(t: FriendMessageType) -> Seq<char> {
    match t {
        FriendMessageType::Text => "text"@,
        FriendMessageType::Image => "image"@,
        FriendMessageType::File => "file"@,
    }
}

/// An entry `(k, v)` for a present optional string, else nothing.
pub open spec fn opt_entry(k: Seq<char>, o: Option<Seq<char>>) -> Seq<(Seq<char>, JsonView)> {
    match o {
        Some(s) => seq![(k, JsonView::Str(s))],
        None => seq![],
    }
}

/// The printed form of an add-external-contact result: its fields in
/// declaration order, absent options left out.
pub open spec fn add_result_json(r: AddExternalFriendResult) -> JsonView {
    JsonView::Object(
        seq![("phone"@, JsonView::Str(r.phone@))] + opt_entry("remark"@, opt_view(r.remark))
            + opt_entry("greeting"@, opt_view(r.greeting)) + seq![
            ("status"@, JsonView::Str(external_status_name(r.status))),
        ] + opt_entry("detail"@, opt_view(r.detail)),
    )
}

/// The printed form of a send-message result.
pub open spec fn send_result_json(r: SendFriendMessageResult) -> JsonView {
    JsonView::Object(
        seq![
            ("to"@, JsonView::Str(r.to@)),
            ("message_type"@, JsonView::Str(message_type_name(r.message_type))),
        ] + opt_entry("file_path"@, opt_view(r.file_path)) + seq![
            ("status"@, JsonView::Str(send_status_name(r.status))),
        ] + opt_entry("detail"@, opt_view(r.detail)),
    )
}

fn push_opt_entry(es: &mut Vec<(String, JsonValue)>, key: &str, o: &Option<String>)
    ensures
        entries_view(final(es)@, final(es)@.len() as int) == entries_view(
            old(es)@,
            old(es)@.len() as int,
        ) + opt_entry(key@, opt_view(*o)),
{
    match o {
        Some(s) => {
            es.push((key.to_owned(), JsonValue::Str(copy_string(s))));
            proof {
                assert(es@.drop_last() =~= old(es)@);
                crate::json::lemma_entries_view_prefix(es@, old(es)@);
            }
            assert(entries_view(es@, es@.len() as int) =~= entries_view(
                old(es)@,
                old(es)@.len() as int,
            ) + opt_entry(key@, opt_view(*o)));
        },
        None => {
            assert(entries_view(es@, es@.len() as int) =~= entries_view(
                old(es)@,
                old(es)@.len() as int,
            ) + opt_entry(key@, opt_view(*o)));
        },
    }
}

fn push_str_entry(es: &mut Vec<(String, JsonValue)>, key: &str, v: &str)
    ensures
        entries_view(final(es)@, final(es)@.len() as int) == entries_view(
            old(es)@,
            old(es)@.len() as int,
        ) + seq![(key@, JsonView::Str(v@))],
{
    es.push((key.to_owned(), JsonValue::Str(v.to_owned())));
    proof {
        assert(es@.drop_last() =~= old(es)@);
        crate::json::lemma_entries_view_prefix(es@, old(es)@);
    }
    assert(entries_view(es@, es@.len() as int) =~= entries_view(old(es)@, old(es)@.len() as int)
        + seq![(key@, JsonView::Str(v@))]);
}

fn external_status_text(s: ExternalFriendStatus) -> (t: &'static str)
    ensures
        t@ == external_status_name(s),
{
    match s {
        ExternalFriendStatus::Added => "added",
        ExternalFriendStatus::Pending => "pending",
        ExternalFriendStatus::AlreadyExists => "already_exists",
        ExternalFriendStatus::Failed => "failed",
    }
}

/// The JSON line printed for an add-external-contact result.
pub fn add_external_friend_result_json(r: &AddExternalFriendResult) -> (s: String)
    ensures
        s@ == json_text(add_result_json(*r)),
{
    let mut es: Vec<(String, JsonValue)> = Vec::new();
    assert(entries_view(es@, 0) =~= Seq::<(Seq<char>, JsonView)>::empty());
    push_str_entry(&mut es, "phone", r.phone.as_str());
    push_opt_entry(&mut es, "remark", &r.remark);
    push_opt_entry(&mut es, "greeting", &r.greeting);
    push_str_entry(&mut es, "status", external_status_text(r.status));
    push_opt_entry(&mut es, "detail", &r.detail);
    assert(entries_view(es@, es@.len() as int) =~= add_result_json(*r)->Object_0);
    JsonValue::Object(es).to_json_string()
}

/// The JSON line printed for a send-message result.
pub fn send_friend_message_result_json(r: &SendFriendMessageResult) -> (s: String)
    ensures
        s@ == json_text(send_result_json(*r)),
{
    let mut es: Vec<(String, JsonValue)> = Vec::new();
    assert(entries_view(es@, 0) =~= Seq::<(Seq<char>, JsonView)>::empty());
    push_str_entry(&mut es, "to", r.to.as_str());
    let t = match r.message_type {
        FriendMessageType::Text => "text",
        FriendMessageType::Image => "image",
        FriendMessageType::File => "file",
    };
    push_str_entry(&mut es, "message_type", t);
    push_opt_entry(&mut es, "file_path", &r.file_path);
    let st = match r.status {
        SendFriendStatus::Sent => "sent",
        SendFriendStatus::Failed => "failed",
    };
    push_str_entry(&mut es, "status", st);
    push_opt_entry(&mut es, "detail", &r.detail);
    assert(entries_view(es@, es@.len() as int) =~= send_result_json(*r)->Object_0);
    JsonValue::Object(es).to_json_string()
}

// ---------------------------------------------------------------------
// Sending a message to a friend
// ---------------------------------------------------------------------

/// The options of the send-message command: the friend, and one of a
/// text, an image path or a file path.
#[derive(Debug, Clone, PartialEq, Eq)]
pub struct SendFriendMessageArgs {
    pub to: String,
    pub text: Option<String>,
    pub image: Option<String>,
    pub file: Option<String>,
}

/// The payload of a text message, checked.
pub fn text_payload(text: &str) -> (r: Result<FriendMessagePayload, DesktopError>)
    ensures
        match text_check(text@) {
            Ok(t) => r is Ok && r->Ok_0 is Text && r->Ok_0->Text_0@ == t,
            Err(e) => r == Err::<FriendMessagePayload, DesktopError>(e),
        },
{
    let t = validate_text_message(text)?;
    Ok(FriendMessagePayload::Text(t))
}

/// The request of the send-message command: the payload, checked before,
/// sent to the checked friend name.
pub fn send_friend_message_request(to: &str, payload: FriendMessagePayload) -> (r: Result<
    SendFriendMessageRequest,
    DesktopError,
>)
    ensures
        match target_check(to@) {
            Ok(t) => r is Ok && r->Ok_0.to@ == t && r->Ok_0.payload == payload,
            Err(e) => r == Err::<SendFriendMessageRequest, DesktopError>(e),
        },
{
    let to = validate_target(to)?;
    Ok(SendFriendMessageRequest { to, payload })
}

// ---------------------------------------------------------------------
// Adding smart-sheet records
// ---------------------------------------------------------------------

/// The options of the add-records command: the JSON parameters, as
/// `--json` or as the bare argument, or the request for the schema.
#[derive(Debug, Clone, PartialEq, Eq)]
pub struct SmartsheetAddRecordsAutoFileArgs {
    pub args: Option<String>,
    pub json: Option<String>,
    pub schema: bool,
}

/// The JSON parameters text: `--json`, else the bare argument.
pub fn raw_params_text(args: &SmartsheetAddRecordsAutoFileArgs) -> (r: Result<String, DocError>)
    ensures
        match (opt_view(args.json), opt_view(args.args)) {
            (Some(j), _) => r is Ok && r->Ok_0@ == j,
            (None, Some(a)) => r is Ok && r->Ok_0@ == a,
            (None, None) => r == Err::<String, DocError>(DocError::MissingJsonArgs),
        },
{
    match &args.json {
        Some(j) => Ok(copy_string(j)),
        None => match &args.args {
            Some(a) => Ok(copy_string(a)),
            None => Err(DocError::MissingJsonArgs),
        },
    }
}

// ---------------------------------------------------------------------
// Watching friends
// ---------------------------------------------------------------------

/// The options of the watch-friend command.
#[derive(Debug, Clone, PartialEq, Eq)]
pub struct WatchFriendArgs {
    pub to: Vec<String>,
    pub interval_sec: u64,
    pub save_dir: Option<String>,
    pub once: bool,
    pub max_events: usize,
    pub idle_timeout_sec: u64,
    pub verbose: bool,
    pub state_file: Option<String>,
}

impl Default for WatchFriendArgs {
    /// The options when none is given: no friend, a poll every five
    /// seconds, no limit on events or idle time.
    fn default() -> (a: WatchFriendArgs)
        ensures
            a.to@.len() == 0,
            a.interval_sec == 5,
            a.save_dir is None,
            !a.once,
            a.max_events == 0,
            a.idle_timeout_sec == 0,
            !a.verbose,
            a.state_file is None,
    {
        WatchFriendArgs {
            to: Vec::new(),
            interval_sec: 5,
            save_dir: None,
            once: false,
            max_events: 0,
            idle_timeout_sec: 0,
            verbose: false,
            state_file: None,
        }
    }
}

/// Whether some name occurs twice among the first `n`.
pub open spec fn has_repeat(ts: Seq<Seq<char>>, n: int) -> bool {
    exists|i: int, j: int| 0 <= i < j < n && ts[i] == ts[j]
}

/// What checking the friends to watch gives, an error by its message: at
/// least one, no state file for several, each name checked as a target,
/// none twice (the first failing name, in order, decides the error).
pub open spec fn watch_targets_check(raw: Seq<Seq<char>>, has_state_file: bool) -> Result<
    Seq<Seq<char>>,
    Seq<char>,
> {
    if raw.len() == 0 {
        Err("至少需要一个 --to"@)
    } else if raw.len() > 1 && has_state_file {
        Err("--state-file 仅支持单个 --to，多目标模式会按 chat_id 自动保存独立状态文件"@)
    } else {
        checked_targets(raw, raw.len() as int)
    }
}

/// The first `n` names checked and free of repeats, or the message of
/// the first error.
pub open spec fn checked_targets(raw: Seq<Seq<char>>, n: int) -> Result<Seq<Seq<char>>, Seq<char>>
    decreases n,
{
    if n <= 0 {
        Ok(seq![])
    } else {
        match checked_targets(raw, n - 1) {
            Err(e) => Err(e),
            Ok(ts) => match target_check(raw[n - 1]) {
                Err(e) => Err(crate::desktop::desktop_error_text(e)),
                Ok(t) => if ts.contains(t) {
                    Err("--to 重复: "@ + t)
                } else {
                    Ok(ts.push(t))
                },
            },
        }
    }
}

/// The form of a checking result, an error by its message.
pub open spec fn targets_result_view(r: Result<Vec<String>, WatchError>) -> Result<
    Seq<Seq<char>>,
    Seq<char>,
> {
    match r {
        Ok(v) => Ok(string_views(v@)),
        Err(e) => Err(crate::watch_friend::watch_error_text(e)),
    }
}

/// Checks the friends to watch (see [`watch_targets_check`]).
pub fn validate_watch_friend_targets(raw_targets: &Vec<String>, has_state_file: bool) -> (r: Result<
    Vec<String>,
    WatchError,
>)
    ensures
        targets_result_view(r) == watch_targets_check(string_views(raw_targets@), has_state_file),
{
    let ghost rv = string_views(raw_targets@);
    if raw_targets.len() == 0 {
        return Err(WatchError::NoTarget);
    }
    if raw_targets.len() > 1 && has_state_file {
        return Err(WatchError::StateFileWithManyTargets);
    }
    let mut targets: Vec<String> = Vec::new();
    let mut seen = StringSet::new();
    assert(string_views(targets@) =~= Seq::<Seq<char>>::empty());
    assert(seen@ =~= Seq::<Seq<char>>::empty().to_set());
    let mut i: usize = 0;
    while i < raw_targets.len()
        invariant
            i <= raw_targets@.len(),
            raw_targets@.len() > 0,
            !(raw_targets@.len() > 1 && has_state_file),
            rv == string_views(raw_targets@),
            rv.len() == raw_targets@.len(),
            seen.wf(),
            checked_targets(rv, i as int) == Ok::<Seq<Seq<char>>, Seq<char>>(
                string_views(targets@),
            ),
            seen@ == string_views(targets@).to_set(),
        decreases raw_targets@.len() - i,
    {
        assert(rv[i as int] == raw_targets@[i as int]@);
        let t = match validate_target(raw_targets[i].as_str()) {
            Ok(t) => t,
            Err(e) => {
                proof {
                    lemma_checked_targets_stop(rv, i as int, raw_targets@.len() as int);
                }
                return Err(WatchError::InvalidTarget(e));
            },
        };
        if seen.contains(t.as_str()) {
            proof {
                assert(string_views(targets@).to_set().contains(t@));
                assert(string_views(targets@).contains(t@));
                lemma_checked_targets_stop(rv, i as int, raw_targets@.len() as int);
            }
            let e = WatchError::DuplicateTarget(t);
            return Err(e);
        }
        let ghost t0 = string_views(targets@);
        proof {
            assert(!seen@.contains(t@));
            assert(!t0.contains(t@));
            assert(target_check(rv[i as int]) == Ok::<Seq<char>, DesktopError>(t@));
            assert(checked_targets(rv, i + 1) == Ok::<Seq<Seq<char>>, Seq<char>>(t0.push(t@)));
        }
        seen.insert(copy_string(&t));
        targets.push(t);
        proof {
            assert(string_views(targets@) =~= t0.push(targets@.last()@));
            Seq::lemma_to_set_insert_commutes(t0, targets@.last()@);
            assert(t0.push(targets@.last()@) =~= t0 + seq![targets@.last()@]);
        }
        i += 1;
    }
    Ok(targets)
}

/// Lemma: the first failing name decides the checking result.
proof fn lemma_checked_targets_stop(rv: Seq<Seq<char>>, i: int, n: int)
    requires
        0 <= i < n <= rv.len(),
        checked_targets(rv, i) is Ok,
        checked_targets(rv, i + 1) is Err,
    ensures
        checked_targets(rv, n) == checked_targets(rv, i + 1),
    decreases n - i,
{
    if n > i + 1 {
        lemma_checked_targets_stop(rv, i, n - 1);
    }
}

/// Resolves a friend among the address-book members when the recent
/// conversations do not name it: the member's conversation, or an error
/// when no member matches.
pub fn resolve_from_contacts(target: &str, users: &Vec<ContactUser>) -> (r: Result<
    ChatSummary,
    WatchError,
>)
    ensures
        match select_contact_spec(target@, contact_views(users@)) {
            Ok(Some(u)) => r is Ok && r->Ok_0@ == crate::watch_friend::contact_chat_view(u),
            Ok(None) => r is Err && crate::watch_friend::watch_error_text(r->Err_0)
                == "未在最近 7 天会话列表或通讯录中找到好友: "@ + target@,
            Err(t) => r is Err && crate::watch_friend::watch_error_text(r->Err_0) == t,
        },
{
    match crate::watch_friend::select_contact_user(target, users)? {
        Some(u) => Ok(crate::watch_friend::contact_user_to_chat_summary(u)),
        None => Err(WatchError::TargetNotFound(target.to_owned())),
    }
}

/// Records the conversation a friend resolved to; a conversation that an
/// earlier friend resolved to is an error.
pub fn register_chat_id(seen_chat_ids: &mut StringSet, chat_id: &str, target: &str) -> (r: Result<
    (),
    WatchError,
>)
    requires
        old(seen_chat_ids).wf(),
    ensures
        final(seen_chat_ids).wf(),
        final(seen_chat_ids)@ == old(seen_chat_ids)@.insert(chat_id@),
        r is Err <==> old(seen_chat_ids)@.contains(chat_id@),
        r is Err ==> crate::watch_friend::watch_error_text(r->Err_0) == "多个 --to 解析到同一 chat_id: "@
            + chat_id@ + " target=\""@ + target@ + "\""@,
{
    if !seen_chat_ids.insert(chat_id.to_owned()) {
        return Err(WatchError::DuplicateChat(chat_id.to_owned(), target.to_owned()));
    }
    Ok(())
}

// ---------------------------------------------------------------------
// Showing the authentication state
// ---------------------------------------------------------------------

/// The subcommands of `auth`.
#[derive(Debug, Clone, PartialEq, Eq)]
pub enum AuthSubcmds {
    /// Show the current authentication state.
    Show(ShowArgs),
}

/// The options of `auth show`.
#[derive(Debug, Clone, PartialEq, Eq)]
pub struct ShowArgs {
    pub auth_status: bool,
}

/// The robot the tool is authorized as: its id and creation time, as the
/// values they are written as.
#[derive(Debug)]
pub struct BotInfo {
    pub id: JsonValue,
    pub create_time: JsonValue,
}

/// What `auth show` prints: with `--auth-status` whether a robot is
/// authorized; else the robot's id and creation time as pretty JSON, or
/// `unauthorized`.
pub open spec fn auth_show_text(auth_status: bool, bot: Option<(JsonView, JsonView)>) -> Seq<char> {
    if auth_status {
        if bot is Some {
            "authorized"@
        } else {
            "unauthorized"@
        }
    } else {
        match bot {
            Some((id, ct)) => crate::json::pretty_text(
                JsonView::Object(seq![("id"@, id), ("create_time"@, ct)]),
                seq![],
            ),
            None => "unauthorized"@,
        }
    }
}

/// The text that `auth show` prints.
pub fn handle_auth_show(args: &ShowArgs, bot: Option<&BotInfo>) -> (s: String)
    ensures
        s@ == auth_show_text(
            args.auth_status,
            match bot {
                Some(b) => Some((jview(b.id), jview(b.create_time))),
                None => None,
            },
        ),
{
    if args.auth_status {
        return match bot {
            Some(_) => "authorized".to_owned(),
            None => "unauthorized".to_owned(),
        };
    }
    match bot {
        Some(b) => {
            let mut es: Vec<(String, JsonValue)> = Vec::new();
            es.push(("id".to_owned(), b.id.deep_copy()));
            es.push(("create_time".to_owned(), b.create_time.deep_copy()));
            proof {
                lemma_entries_view(es@, 2);
                assert(entries_view(es@, 2) =~= seq![
                    ("id"@, jview(b.id)),
                    ("create_time"@, jview(b.create_time)),
                ]);
            }
            JsonValue::Object(es).to_json_pretty()
        },
        None => "unauthorized".to_owned(),
    }
}

} // verus!
