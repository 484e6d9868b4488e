//! Watching all recent one-to-one conversations: the queue of watched
//! names, which conversations a poll fetches, which messages of the
//! desktop client are new since the last poll, and the state kept between
//! polls.
use vstd::prelude::*;

use crate::collections::{ascending, seq_lt, string_views, StringMap, StringSet};
use crate::desktop::{
    opt_view, result_view, target_check, validate_target, DesktopChatMessage,
    DesktopError, DesktopRecentChatTarget,
};
use crate::json::{jview, JsonValue, JsonView};
use crate::text::{append_str, copy_string, str_eq, string_from};
use crate::watch_friend::{
    desktop_message_json, desktop_message_value, dedup_key, message_dedup_key, ChatSummary,
    ChatView, WatchError, WatchState, WatchTargetMeta, chat_views,
};

verus! {

/// How many recent conversations of the desktop client are read at least.
pub const DESKTOP_RECENT_CHAT_LIMIT: usize = 12;

/// About how often, in seconds, every known desktop conversation is read
/// again although its preview did not change.
pub const DESKTOP_FULL_SWEEP_SECONDS: u64 = 60;

/// How many watched names that the recent list does not show are opened
/// directly in one poll.
pub const DESKTOP_MISSING_QUEUE_SCAN_PER_POLL: usize = 1;

/// The options of the watch-all command.
#[derive(Debug, Clone, PartialEq, Eq)]
pub struct WatchAllArgs {
    pub interval_sec: u64,
    pub save_dir: Option<String>,
    pub once: bool,
    pub max_events: usize,
    pub idle_timeout_sec: u64,
    pub to: Vec<String>,
    pub queue_file: Option<String>,
    pub include_server: bool,
    pub verbose: bool,
    pub state_file: Option<String>,
}

impl Default for WatchAllArgs {
    /// The options when none is given: a poll every ten seconds, no limit
    /// on events or idle time, no queue.
    fn default() -> (a: WatchAllArgs)
        ensures
            a.interval_sec == 10,
            a.save_dir is None,
            !a.once,
            a.max_events == 0,
            a.idle_timeout_sec == 0,
            a.to@.len() == 0,
            a.queue_file is None,
            !a.include_server,
            !a.verbose,
            a.state_file is None,
    {
        WatchAllArgs {
            interval_sec: 10,
            save_dir: None,
            once: false,
            max_events: 0,
            idle_timeout_sec: 0,
            to: Vec::new(),
            queue_file: None,
            include_server: false,
            verbose: false,
            state_file: None,
        }
    }
}

/// Checks the options: the interval must be positive.
pub fn validate_watch_all_args(args: &WatchAllArgs) -> (r: Result<(), WatchError>)
    ensures
        r is Err <==> args.interval_sec == 0,
        r is Err ==> r == Err::<(), WatchError>(WatchError::ZeroInterval),
{
    if args.interval_sec == 0 {
        return Err(WatchError::ZeroInterval);
    }
    Ok(())
}

/// The set of watched names that `raw` gives, each checked and trimmed by
/// `validate_target`; the error of the first name refused.
pub open spec fn queue_targets_check(raw: Seq<Seq<char>>) -> Result<Set<Seq<char>>, DesktopError>
    decreases raw.len(),
{
    if raw.len() == 0 {
        Ok(Set::empty())
    } else {
        match queue_targets_check(raw.drop_last()) {
            Err(e) => Err(e),
            Ok(s) => match target_check(raw.last()) {
                Err(e) => Err(e),
                Ok(t) => Ok(s.insert(t)),
            },
        }
    }
}

/// Checks each name of the queue and collects them into a set.
pub fn parse_queue_targets(raw_targets: Vec<String>) -> (r: Result<StringSet, DesktopError>)
    ensures
        match r {
            Ok(s) => s.wf() && queue_targets_check(string_views(raw_targets@)) == Ok::<
                Set<Seq<char>>,
                DesktopError,
            >(s@),
            Err(e) => queue_targets_check(string_views(raw_targets@)) == Err::<
                Set<Seq<char>>,
                DesktopError,
            >(e),
        },
{
    let ghost rv = string_views(raw_targets@);
    let mut targets = StringSet::new();
    let mut i: usize = 0;
    assert(rv.take(0) =~= Seq::<Seq<char>>::empty());
    assert(targets@ =~= Set::<Seq<char>>::empty());
    while i < raw_targets.len()
        invariant
            i <= raw_targets.len(),
            rv == string_views(raw_targets@),
            targets.wf(),
            queue_targets_check(rv.take(i as int)) == Ok::<Set<Seq<char>>, DesktopError>(
                targets@,
            ),
        decreases raw_targets.len() - i,
    {
        assert(rv.take(i + 1).drop_last() =~= rv.take(i as int));
        assert(rv.take(i + 1).last() == raw_targets@[i as int]@);
        match validate_target(raw_targets[i].as_str()) {
            Ok(t) => {
                targets.insert(t);
            },
            Err(e) => {
                proof {
                    lemma_queue_check_fails(rv, i as int);
                }
                return Err(e);
            },
        }
        i += 1;
    }
    assert(rv.take(raw_targets.len() as int) =~= rv);
    Ok(targets)
}

/// Lemma: once a name is refused, so is the queue, with the same error
/// when the names before it were accepted.
proof fn lemma_queue_check_fails(rv: Seq<Seq<char>>, i: int)
    requires
        0 <= i < rv.len(),
        queue_targets_check(rv.take(i)) is Ok,
        target_check(rv[i]) is Err,
    ensures
        queue_targets_check(rv) == Err::<Set<Seq<char>>, DesktopError>(
            target_check(rv[i])->Err_0,
        ),
    decreases rv.len(),
{
    if i < rv.len() - 1 {
        assert(rv.drop_last().take(i) =~= rv.take(i));
        lemma_queue_check_fails(rv.drop_last(), i);
    } else {
        assert(rv.drop_last() =~= rv.take(i));
    }
}

// ---------------------------------------------------------------------
// Names and keys of desktop conversations
// ---------------------------------------------------------------------

/// The conversation id under which a desktop conversation is tracked.
pub open spec fn desktop_chat_id_of(target: Seq<char>) -> Seq<char> {
    "desktop:"@ + target
}

/// The desktop key of a message seen only as a conversation's preview.
pub open spec fn preview_key_of(text: Seq<char>) -> Seq<char> {
    "preview|"@ + text
}

/// The key of a preview message of conversation `chat_id`.
pub open spec fn preview_dedup_key_of(chat_id: Seq<char>, text: Seq<char>) -> Seq<char> {
    chat_id + "|desktop|"@ + preview_key_of(text)
}

/// The conversation id of the desktop conversation named `target`.
pub fn desktop_chat_id(target: &str) -> (id: String)
    ensures
        id@ == desktop_chat_id_of(target@),
{
    let mut v: Vec<char> = Vec::new();
    append_str(&mut v, "desktop:");
    append_str(&mut v, target);
    string_from(&v)
}

/// The desktop key of a preview text.
pub fn desktop_preview_key(text: &str) -> (k: String)
    ensures
        k@ == preview_key_of(text@),
{
    let mut v: Vec<char> = Vec::new();
    append_str(&mut v, "preview|");
    append_str(&mut v, text);
    string_from(&v)
}

/// The key of a preview message of conversation `chat_id`.
pub fn desktop_preview_dedup_key(chat_id: &str, text: &str) -> (k: String)
    ensures
        k@ == preview_dedup_key_of(chat_id@, text@),
{
    let mut v: Vec<char> = Vec::new();
    append_str(&mut v, chat_id);
    append_str(&mut v, "|desktop|");
    let p = desktop_preview_key(text);
    append_str(&mut v, p.as_str());
    assert(v@ =~= preview_dedup_key_of(chat_id@, text@));
    string_from(&v)
}

/// The JSON message of a conversation's preview text.
pub open spec fn preview_message_json(text: Seq<char>) -> JsonView {
    desktop_message_json(preview_key_of(text), text, "macos_accessibility_preview"@)
}

/// The message that a conversation's preview text stands for.
pub fn desktop_preview_to_value(text: &str) -> (v: JsonValue)
    ensures
        jview(v) == preview_message_json(text@),
{
    desktop_message_value(desktop_preview_key(text), text.to_owned(), "macos_accessibility_preview")
}

/// The key of the message that a preview stands for is the preview key of
/// its text: a preview emitted once is recognised when the full message
/// is read later.
pub proof fn lemma_preview_key_is_dedup_key(chat_id: Seq<char>, text: Seq<char>)
    ensures
        dedup_key(chat_id, preview_message_json(text)) == preview_dedup_key_of(chat_id, text),
{
    let m = preview_message_json(text);
    let es = m->Object_0;
    let d = es[3].1;
    reveal_strlit("userid");
    reveal_strlit("msgtype");
    reveal_strlit("text");
    reveal_strlit("desktop");
    assert(es[0].0 == "userid"@ && es[1].0 == "msgtype"@ && es[2].0 == "text"@);
    assert("userid"@.len() == 6 && "msgtype"@.len() == 7 && "text"@.len() == 4);
    assert("desktop"@.len() == 7);
    assert("msgtype"@[0] != "desktop"@[0]);
    assert(es[0].0 != "desktop"@ && es[1].0 != "desktop"@ && es[2].0 != "desktop"@);
    crate::json::lemma_find_key_at(es, "desktop"@, 3);
    assert(crate::json::view_get(m, "desktop"@) == Some(d));
    assert(crate::json::find_key(d->Object_0, "key"@) == 0);
    assert(crate::json::view_get(d, "key"@) == Some(JsonView::Str(preview_key_of(text))));
    let p = seq!["desktop"@, "key"@];
    reveal_with_fuel(crate::json::view_path, 3);
    assert(p[0] == "desktop"@);
    assert(seq!["key"@][0] == "key"@);
    assert(p.drop_first() =~= seq!["key"@]);
    assert(seq!["key"@].drop_first() =~= Seq::<Seq<char>>::empty());
    assert(crate::json::view_path(d, seq!["key"@]) == Some(JsonView::Str(preview_key_of(text))));
    assert(crate::json::view_path(m, p) == Some(JsonView::Str(preview_key_of(text))));
    assert(dedup_key(chat_id, m) =~= preview_dedup_key_of(chat_id, text));
}

/// The texts of the messages read from a desktop conversation.
pub fn desktop_message_texts(messages: &Vec<DesktopChatMessage>) -> (out: Vec<String>)
    ensures
        out@.len() == messages@.len(),
        forall|i: int| 0 <= i < out@.len() ==> (#[trigger] out@[i])@ == messages@[i].text@,
{
    let mut out: Vec<String> = Vec::new();
    let mut i: usize = 0;
    while i < messages.len()
        invariant
            i <= messages.len(),
            out@.len() == i,
            forall|j: int| 0 <= j < i ==> (#[trigger] out@[j])@ == messages@[j].text@,
        decreases messages.len() - i,
    {
        out.push(copy_string(&messages[i].text));
        i += 1;
    }
    out
}

// ---------------------------------------------------------------------
// Poll timing
// ---------------------------------------------------------------------

/// How many seconds back a poll looks: three intervals (saturated), at
/// least a minute.
pub open spec fn window_seconds_of(interval_sec: u64) -> int {
    if interval_sec * 3 > u64::MAX {
        u64::MAX as int
    } else if interval_sec * 3 < 60 {
        60
    } else {
        interval_sec * 3
    }
}

/// How many seconds back a poll looks.
pub fn watch_all_window_seconds(interval_sec: u64) -> (w: u64)
    ensures
        w as int == window_seconds_of(interval_sec),
{
    let m: u64 = if interval_sec > u64::MAX / 3 {
        u64::MAX
    } else {
        interval_sec * 3
    };
    if m < 60 {
        60
    } else {
        m
    }
}

/// Every how many polls all known desktop conversations are read again:
/// one minute rounded up to whole intervals, at least one poll.
pub fn desktop_full_sweep_interval(interval_sec: u64) -> (n: u64)
    ensures
        ({
            let i = if interval_sec < 1 {
                1
            } else {
                interval_sec as int
            };
            let c = (60 + i - 1) / i;
            n == if c < 1 {
                1
            } else {
                c
            }
        }),
        n >= 1,
{
    let i: u64 = if interval_sec < 1 {
        1
    } else {
        interval_sec
    };
    let c: u64 = if i >= 60 {
        1
    } else {
        (DESKTOP_FULL_SWEEP_SECONDS + i - 1) / i
    };
    proof {
        if i >= 60 {
            assert((60 + i - 1) / (i as int) == 1) by (nonlinear_arith)
                requires
                    i >= 60,
                    i as int + 59 < 2 * i,
            ;
        }
    }
    if c < 1 {
        1
    } else {
        c
    }
}

/// Whether poll number `poll_index` reads every known desktop
/// conversation again: every full-sweep interval, never the first poll.
pub fn should_force_desktop_sweep(poll_index: u64, interval_sec: u64) -> (b: bool)
    ensures
        b == (poll_index != 0 && (poll_index as int) % desktop_sweep_every(interval_sec) == 0),
{
    if poll_index == 0 {
        return false;
    }
    poll_index % desktop_full_sweep_interval(interval_sec) == 0
}

/// The full-sweep interval, in polls.
pub open spec fn desktop_sweep_every(interval_sec: u64) -> int {
    let i = if interval_sec < 1 {
        1
    } else {
        interval_sec as int
    };
    let c = (60 + i - 1) / i;
    if c < 1 {
        1
    } else {
        c
    }
}

/// The begin and end of the window that a poll looks at, ending now.
pub fn watch_all_poll_window(interval_sec: u64) -> (w: (String, String))
    ensures
        exists|now: int|
            0 <= now <= crate::watch_friend::CLOCK_LIMIT_SECONDS && (w.0@, w.1@)
                == #[trigger] crate::watch_friend::window_texts(now, window_seconds_of(interval_sec)),
{
    crate::watch_friend::recent_seconds_window(watch_all_window_seconds(interval_sec))
}

/// The time now, in Beijing time.
pub fn watch_all_now_time() -> (t: String)
    ensures
        exists|now: int|
            0 <= now <= crate::watch_friend::CLOCK_LIMIT_SECONDS && t@
                == #[trigger] crate::watch_friend::wecom_time_text(now + 28_800),
{
    let w = crate::watch_friend::recent_seconds_window(0);
    w.1
}

// ---------------------------------------------------------------------
// Server conversations
// ---------------------------------------------------------------------

/// How many recent desktop conversations to read: as many as there are
/// watched names, at least the default.
pub fn desktop_recent_chat_limit(queue_targets: Option<&StringSet>) -> (n: usize)
    ensures
        n == match queue_targets {
            Some(q) => if q.elems().len() > DESKTOP_RECENT_CHAT_LIMIT {
                q.elems().len() as usize
            } else {
                DESKTOP_RECENT_CHAT_LIMIT
            },
            None => DESKTOP_RECENT_CHAT_LIMIT,
        },
{
    match queue_targets {
        Some(q) => {
            let n = q.len();
            if n > DESKTOP_RECENT_CHAT_LIMIT {
                n
            } else {
                DESKTOP_RECENT_CHAT_LIMIT
            }
        },
        None => DESKTOP_RECENT_CHAT_LIMIT,
    }
}

/// Whether a watched-name set keeps conversation `c`: its id or name is
/// watched.
pub open spec fn queue_keeps(q: Seq<Seq<char>>, c: ChatView) -> bool {
    q.contains(c.chat_id) || q.contains(c.chat_name)
}

/// The conversations that the watched names keep, in order; all of them
/// when there is no queue.
pub fn filter_chats_by_queue(chats: Vec<ChatSummary>, queue_targets: Option<&StringSet>) -> (out:
    Vec<ChatSummary>)
    ensures
        chat_views(out@) == match queue_targets {
            Some(q) => chat_views(chats@).filter(|c: ChatView| queue_keeps(q.elems(), c)),
            None => chat_views(chats@),
        },
{
    let q = match queue_targets {
        Some(q) => q,
        None => {
            return chats;
        },
    };
    let ghost cs = chat_views(chats@);
    let ghost pred = |c: ChatView| queue_keeps(q.elems(), c);
    let mut out: Vec<ChatSummary> = Vec::new();
    let mut i: usize = 0;
    while i < chats.len()
        invariant
            i <= chats.len(),
            cs == chat_views(chats@),
            pred == (|c: ChatView| queue_keeps(q.elems(), c)),
            chat_views(out@) == cs.take(i as int).filter(pred),
        decreases chats.len() - i,
    {
        proof {
            reveal_with_fuel(Seq::filter, 1);
            assert(cs.take(i + 1).drop_last() =~= cs.take(i as int));
            assert(cs.take(i + 1).last() == chats@[i as int]@);
        }
        let c = &chats[i];
        if q.contains(c.chat_id.as_str()) || q.contains(c.chat_name.as_str()) {
            let ghost o0 = out@;
            out.push(c.copy());
            assert(chat_views(out@) =~= chat_views(o0).push(c@));
        }
        i += 1;
    }
    assert(cs.take(chats.len() as int) =~= cs);
    out
}

/// The recent desktop conversations whose name is watched, in order; all
/// of them when there is no queue.
pub fn filter_desktop_targets_by_queue(
    targets: Vec<DesktopRecentChatTarget>,
    queue_targets: Option<&StringSet>,
) -> (out: Vec<DesktopRecentChatTarget>)
    ensures
        out@ == match queue_targets {
            Some(q) => targets@.filter(|t: DesktopRecentChatTarget| q.elems().contains(t.name@)),
            None => targets@,
        },
{
    let q = match queue_targets {
        Some(q) => q,
        None => {
            return targets;
        },
    };
    let ghost ts = targets@;
    let ghost pred = |t: DesktopRecentChatTarget| q.elems().contains(t.name@);
    let mut rest = targets;
    let mut out: Vec<DesktopRecentChatTarget> = Vec::new();
    let ghost mut i: int = 0;
    while rest.len() > 0
        invariant
            0 <= i <= ts.len(),
            rest@ == ts.skip(i),
            pred == (|t: DesktopRecentChatTarget| q.elems().contains(t.name@)),
            out@ == ts.take(i).filter(pred),
        decreases rest.len(),
    {
        proof {
            reveal_with_fuel(Seq::filter, 1);
            assert(ts.take(i + 1).drop_last() =~= ts.take(i));
            assert(ts.take(i + 1).last() == ts[i]);
        }
        let t = rest.remove(0);
        if q.contains(t.name.as_str()) {
            out.push(t);
        }
        proof {
            assert(rest@ =~= ts.skip(i + 1));
            i = i + 1;
        }
    }
    assert(ts.take(i) =~= ts);
    out
}

/// What a printed message of server conversation `chat` says of it: the
/// name as target, or the id when the name is empty.
pub fn watch_target_meta_from_chat(chat: &ChatSummary) -> (m: WatchTargetMeta)
    ensures
        m.target@ == if chat.chat_name@.len() == 0 {
            chat.chat_id@
        } else {
            chat.chat_name@
        },
        m.chat_id@ == chat.chat_id@,
        m.chat_name@ == chat.chat_name@,
{
    let target = if chat.chat_name.as_str().is_empty() {
        copy_string(&chat.chat_id)
    } else {
        copy_string(&chat.chat_name)
    };
    WatchTargetMeta {
        target,
        chat_id: copy_string(&chat.chat_id),
        chat_name: copy_string(&chat.chat_name),
    }
}

/// What tells whether a server conversation changed since the last poll.
#[derive(Debug, Clone, PartialEq, Eq)]
pub struct ChatPollSignature {
    pub last_msg_time: Option<String>,
    pub msg_count: Option<u64>,
}

/// The mathematical form of a signature.
pub open spec fn sig_view(s: ChatPollSignature) -> (Option<Seq<char>>, Option<u64>) {
    (opt_view(s.last_msg_time), s.msg_count)
}

/// The signature of a conversation, when the listing gives its last
/// message time or its message count.
pub open spec fn chat_sig(c: ChatView) -> Option<(Option<Seq<char>>, Option<u64>)> {
    if c.last_msg_time is None && c.msg_count is None {
        None
    } else {
        Some((c.last_msg_time, c.msg_count))
    }
}

impl ChatPollSignature {
    /// The signature of a conversation, when the listing gives its last
    /// message time or its message count.
    pub fn from_chat(chat: &ChatSummary) -> (r: Option<ChatPollSignature>)
        ensures
            match r {
                Some(s) => chat_sig(chat@) == Some(sig_view(s)),
                None => chat_sig(chat@) is None,
            },
    {
        if chat.last_msg_time.is_none() && chat.msg_count.is_none() {
            return None;
        }
        Some(
            ChatPollSignature {
                last_msg_time: crate::desktop::copy_opt(&chat.last_msg_time),
                msg_count: chat.msg_count,
            },
        )
    }

    /// Whether both signatures are the same.
    pub fn same_as(&self, other: &ChatPollSignature) -> (b: bool)
        ensures
            b == (sig_view(*self) == sig_view(*other)),
    {
        let t = match (&self.last_msg_time, &other.last_msg_time) {
            (Some(a), Some(b)) => str_eq(a.as_str(), b.as_str()),
            (None, None) => true,
            _ => false,
        };
        t && self.msg_count == other.msg_count
    }
}

/// The signatures recorded per conversation id, as a map.
pub open spec fn sigs_view(m: Map<Seq<char>, ChatPollSignature>) -> Map<
    Seq<char>,
    (Option<Seq<char>>, Option<u64>),
> {
    m.map_values(|s: ChatPollSignature| sig_view(s))
}

/// Whether a conversation is fetched: it has no signature, or one other
/// than the one recorded.
pub open spec fn needs_fetch(c: ChatView, sigs: Map<Seq<char>, (Option<Seq<char>>, Option<u64>)>) -> bool {
    match chat_sig(c) {
        None => true,
        Some(s) => !(sigs.contains_key(c.chat_id) && sigs[c.chat_id] == s),
    }
}

/// Whether a server conversation must be fetched again.
pub fn chat_needs_fetch(chat: &ChatSummary, chat_signatures: &StringMap<ChatPollSignature>) -> (b:
    bool)
    requires
        chat_signatures.wf(),
    ensures
        b == needs_fetch(chat@, sigs_view(chat_signatures@)),
{
    let sig = match ChatPollSignature::from_chat(chat) {
        Some(s) => s,
        None => {
            return true;
        },
    };
    match chat_signatures.get(chat.chat_id.as_str()) {
        Some(old) => !old.same_as(&sig),
        None => true,
    }
}

/// Records the signature of a conversation after it was fetched, or
/// forgets the conversation's signature when it has none.
pub fn update_chat_signature(chat_signatures: &mut StringMap<ChatPollSignature>, chat: &ChatSummary)
    requires
        old(chat_signatures).wf(),
    ensures
        final(chat_signatures).wf(),
        sigs_view(final(chat_signatures)@) == match chat_sig(chat@) {
            Some(s) => sigs_view(old(chat_signatures)@).insert(chat@.chat_id, s),
            None => sigs_view(old(chat_signatures)@).remove(chat@.chat_id),
        },
{
    match ChatPollSignature::from_chat(chat) {
        Some(sig) => {
            let ghost sv = sig_view(sig);
            chat_signatures.insert(copy_string(&chat.chat_id), sig);
            assert(sigs_view(chat_signatures@) =~= sigs_view(old(chat_signatures)@).insert(
                chat@.chat_id,
                sv,
            ));
        },
        None => {
            chat_signatures.remove(chat.chat_id.as_str());
            assert(sigs_view(chat_signatures@) =~= sigs_view(old(chat_signatures)@).remove(
                chat@.chat_id,
            ));
        },
    }
}

/// After a conversation is fetched and its signature recorded, it is not
/// fetched again until its signature changes.
pub proof fn lemma_recorded_chat_is_skipped(
    c: ChatView,
    sigs: Map<Seq<char>, (Option<Seq<char>>, Option<u64>)>,
)
    requires
        chat_sig(c) is Some,
    ensures
        !needs_fetch(c, sigs.insert(c.chat_id, chat_sig(c).unwrap())),
{
}

// ---------------------------------------------------------------------
// Files under the save directory
// ---------------------------------------------------------------------

/// `name` joined to the directory `dir` as `Path::join` joins a relative
/// name: directly after a trailing `/` or an empty directory, after a `/`
/// otherwise.
pub open spec fn path_join(dir: Seq<char>, name: Seq<char>) -> Seq<char> {
    if dir.len() == 0 || dir.last() == '/' {
        dir + name
    } else {
        dir + seq!['/'] + name
    }
}

/// Joins a relative file name to a directory.
pub fn join_path(dir: &str, name: &str) -> (p: String)
    ensures
        p@ == path_join(dir@, name@),
{
    let d = crate::text::chars_of(dir);
    let mut v: Vec<char> = Vec::new();
    crate::text::append_chars(&mut v, &d);
    if d.len() > 0 && d[d.len() - 1] != '/' {
        v.push('/');
    }
    append_str(&mut v, name);
    assert(v@ =~= path_join(dir@, name@));
    string_from(&v)
}

/// The default state file of watch-all, under the save directory.
pub fn watch_all_state_file(save_dir: &str) -> (p: String)
    ensures
        p@ == path_join(save_dir@, ".watch_all.json"@),
{
    join_path(save_dir, ".watch_all.json")
}

/// The default queue file of watch-all, under the save directory.
pub fn watch_all_queue_file(save_dir: &str) -> (p: String)
    ensures
        p@ == path_join(save_dir@, ".watch_all_queue.txt"@),
{
    join_path(save_dir, ".watch_all_queue.txt")
}

// ---------------------------------------------------------------------
// New messages of a desktop conversation
// ---------------------------------------------------------------------

/// Whether the last `k` texts of `prev` are the first `k` of `cur`.
pub open spec fn overlaps(prev: Seq<Seq<char>>, cur: Seq<Seq<char>>, k: int) -> bool {
    1 <= k <= prev.len() && k <= cur.len() && prev.subrange(prev.len() - k, prev.len() as int)
        == cur.take(k)
}

/// The longest overlap of at most `k` texts, or zero.
pub open spec fn best_overlap(prev: Seq<Seq<char>>, cur: Seq<Seq<char>>, k: int) -> int
    decreases k,
{
    if k <= 0 {
        0
    } else if overlaps(prev, cur, k) {
        k
    } else {
        best_overlap(prev, cur, k - 1)
    }
}

/// The last index at which `x` occurs among the first `n` texts, or -1.
pub open spec fn last_index_before(cur: Seq<Seq<char>>, x: Seq<char>, n: int) -> int
    decreases n,
{
    if n <= 0 {
        -1
    } else if cur[n - 1] == x {
        n - 1
    } else {
        last_index_before(cur, x, n - 1)
    }
}

/// Where the new messages of a desktop conversation begin: after the
/// longest run that the previous read ended with and the current one
/// begins with; else after the last occurrence of the preview shown when
/// watching began; else only the latest message is new.
pub open spec fn new_message_start(
    prev: Option<Seq<Seq<char>>>,
    cur: Seq<Seq<char>>,
    preview: Option<Seq<char>>,
) -> int {
    let fallback = match preview {
        Some(t) => if last_index_before(cur, t, cur.len() as int) >= 0 {
            last_index_before(cur, t, cur.len() as int) + 1
        } else {
            cur.len() - 1
        },
        None => cur.len() - 1,
    };
    if cur.len() == 0 {
        0
    } else {
        match prev {
            Some(p) => if p.len() == 0 {
                cur.len() - 1
            } else {
                let m = if p.len() < cur.len() {
                    p.len() as int
                } else {
                    cur.len() as int
                };
                if best_overlap(p, cur, m) > 0 {
                    best_overlap(p, cur, m)
                } else {
                    fallback
                }
            },
            None => fallback,
        }
    }
}

fn overlap_at(prev: &Vec<String>, cur: &Vec<String>, k: usize) -> (b: bool)
    requires
        1 <= k <= prev@.len(),
        k <= cur@.len(),
    ensures
        b == overlaps(string_views(prev@), string_views(cur@), k as int),
{
    let ghost pv = string_views(prev@);
    let ghost cv = string_views(cur@);
    let start = prev.len() - k;
    let mut p: usize = start;
    while p < prev.len()
        invariant
            start <= p <= prev@.len(),
            1 <= k <= prev@.len(),
            start == prev@.len() - k,
            k <= cur@.len(),
            pv == string_views(prev@),
            cv == string_views(cur@),
            forall|q: int| 0 <= q < p - start ==> pv[start + q] == cv[q],
        decreases prev@.len() - p,
    {
        let j = p - start;
        if !str_eq(prev[p].as_str(), cur[j].as_str()) {
            assert(pv.subrange(start as int, pv.len() as int)[j as int] != cv.take(k as int)[j as int]);
            return false;
        }
        p += 1;
    }
    assert(pv.subrange(start as int, pv.len() as int) =~= cv.take(k as int));
    true
}

/// Lemma: the new messages begin within the current read.
pub proof fn lemma_new_message_start_bound(
    prev: Option<Seq<Seq<char>>>,
    cur: Seq<Seq<char>>,
    preview: Option<Seq<char>>,
)
    ensures
        0 <= new_message_start(prev, cur, preview) <= cur.len(),
{
    if let Some(p) = prev {
        let m = if p.len() < cur.len() {
            p.len() as int
        } else {
            cur.len() as int
        };
        lemma_best_overlap_bound(p, cur, m);
    }
    if let Some(t) = preview {
        lemma_last_index_bound(cur, t, cur.len() as int);
    }
}

proof fn lemma_best_overlap_is(prev: Seq<Seq<char>>, cur: Seq<Seq<char>>, k: int, n: int)
    requires
        1 <= k <= n,
        overlaps(prev, cur, k),
        forall|j: int| k < j <= n ==> !overlaps(prev, cur, j),
    ensures
        best_overlap(prev, cur, n) == k,
    decreases n,
{
    if n > k {
        lemma_best_overlap_is(prev, cur, k, n - 1);
    }
}

proof fn lemma_best_overlap_none(prev: Seq<Seq<char>>, cur: Seq<Seq<char>>, n: int)
    requires
        forall|j: int| 1 <= j <= n ==> !overlaps(prev, cur, j),
    ensures
        best_overlap(prev, cur, n) == 0,
    decreases n,
{
    if n > 0 {
        lemma_best_overlap_none(prev, cur, n - 1);
    }
}

proof fn lemma_last_index_is(cur: Seq<Seq<char>>, x: Seq<char>, i: int, n: int)
    requires
        0 <= i < n <= cur.len(),
        cur[i] == x,
        forall|j: int| i < j < n ==> cur[j] != x,
    ensures
        last_index_before(cur, x, n) == i,
    decreases n,
{
    if n - 1 > i {
        lemma_last_index_is(cur, x, i, n - 1);
    }
}

proof fn lemma_last_index_none(cur: Seq<Seq<char>>, x: Seq<char>, n: int)
    requires
        n <= cur.len(),
        forall|j: int| 0 <= j < n ==> cur[j] != x,
    ensures
        last_index_before(cur, x, n) == -1,
    decreases n,
{
    if n > 0 {
        lemma_last_index_none(cur, x, n - 1);
    }
}

/// Law: when the previous read's last `k` texts are the current read's
/// first `k` texts and no longer run matches, the new messages begin at
/// index `k`, whichever read is longer and whatever the preview.
pub proof fn lemma_new_message_start_longest_overlap(
    prev: Seq<Seq<char>>,
    cur: Seq<Seq<char>>,
    preview: Option<Seq<char>>,
    k: int,
)
    requires
        1 <= k <= prev.len(),
        k <= cur.len(),
        prev.subrange(prev.len() - k, prev.len() as int) == cur.take(k),
        forall|j: int|
            k < j <= prev.len() && j <= cur.len() ==> prev.subrange(prev.len() - j, prev.len() as int)
                != #[trigger] cur.take(j),
    ensures
        new_message_start(Some(prev), cur, preview) == k,
{
    let m = if prev.len() < cur.len() {
        prev.len() as int
    } else {
        cur.len() as int
    };
    assert forall|j: int| k < j <= m implies !overlaps(prev, cur, j) by {
        assert(prev.subrange(prev.len() - j, prev.len() as int) != cur.take(j));
    }
    lemma_best_overlap_is(prev, cur, k, m);
}

/// Law: when no run at the end of a non-empty previous read begins the
/// current read, the new messages begin after the last occurrence of the
/// initial preview in the current read, or with the latest message when
/// the preview does not occur (or there is none).
pub proof fn lemma_new_message_start_without_overlap(
    prev: Seq<Seq<char>>,
    cur: Seq<Seq<char>>,
    preview: Option<Seq<char>>,
)
    requires
        prev.len() > 0,
        cur.len() > 0,
        forall|j: int|
            1 <= j <= prev.len() && j <= cur.len() ==> prev.subrange(prev.len() - j, prev.len() as int)
                != #[trigger] cur.take(j),
    ensures
        match preview {
            Some(t) => (forall|i: int| 0 <= i < cur.len() ==> cur[i] != t) ==> new_message_start(
                Some(prev),
                cur,
                preview,
            ) == cur.len() - 1,
            None => new_message_start(Some(prev), cur, preview) == cur.len() - 1,
        },
        forall|i: int|
            0 <= i < cur.len() && preview == Some(cur[i]) && (forall|j: int|
                i < j < cur.len() ==> cur[j] != cur[i]) ==> new_message_start(Some(prev), cur, preview)
                == i + 1,
{
    let m = if prev.len() < cur.len() {
        prev.len() as int
    } else {
        cur.len() as int
    };
    assert forall|j: int| 1 <= j <= m implies !overlaps(prev, cur, j) by {
        assert(prev.subrange(prev.len() - j, prev.len() as int) != cur.take(j));
    }
    lemma_best_overlap_none(prev, cur, m);
    if let Some(t) = preview {
        if forall|i: int| 0 <= i < cur.len() ==> cur[i] != t {
            lemma_last_index_none(cur, t, cur.len() as int);
        }
        assert forall|i: int|
            0 <= i < cur.len() && preview == Some(cur[i]) && (forall|j: int|
                i < j < cur.len() ==> cur[j] != cur[i]) implies new_message_start(
            Some(prev),
            cur,
            preview,
        ) == i + 1 by {
            lemma_last_index_is(cur, t, i, cur.len() as int);
        }
    }
}

/// Law: with nothing read before (an empty previous read, or no previous
/// read and no preview), only the latest message is new; an empty current
/// read has no new messages.
pub proof fn lemma_new_message_start_edges(
    prev: Option<Seq<Seq<char>>>,
    cur: Seq<Seq<char>>,
    preview: Option<Seq<char>>,
)
    ensures
        cur.len() == 0 ==> new_message_start(prev, cur, preview) == 0,
        cur.len() > 0 && prev == Some(Seq::<Seq<char>>::empty()) ==> new_message_start(
            prev,
            cur,
            preview,
        ) == cur.len() - 1,
        cur.len() > 0 && prev is None && preview is None ==> new_message_start(prev, cur, preview)
            == cur.len() - 1,
{
}

proof fn lemma_best_overlap_bound(prev: Seq<Seq<char>>, cur: Seq<Seq<char>>, k: int)
    ensures
        0 <= best_overlap(prev, cur, k),
        k >= 0 ==> best_overlap(prev, cur, k) <= k,
    decreases k,
{
    if k > 0 && !overlaps(prev, cur, k) {
        lemma_best_overlap_bound(prev, cur, k - 1);
    }
}

proof fn lemma_last_index_bound(cur: Seq<Seq<char>>, x: Seq<char>, n: int)
    ensures
        -1 <= last_index_before(cur, x, n),
        n >= 0 ==> last_index_before(cur, x, n) < n,
    decreases n,
{
    if n > 0 && cur[n - 1] != x {
        lemma_last_index_bound(cur, x, n - 1);
    }
}

/// Where the new messages of a desktop conversation begin, given the
/// texts of the previous read, the current read and the preview shown
/// when watching began.
#[verifier::loop_isolation(false)]
pub fn desktop_new_message_start(
    previous: Option<&Vec<String>>,
    current: &Vec<String>,
    initial_preview: Option<&str>,
) -> (n: usize)
    ensures
        n as int == new_message_start(
            match previous {
                Some(p) => Some(string_views(p@)),
                None => None,
            },
            string_views(current@),
            match initial_preview {
                Some(t) => Some(t@),
                None => None,
            },
        ),
{
    let ghost cv = string_views(current@);
    if current.len() == 0 {
        return 0;
    }
    match previous {
        Some(prev) => {
            if prev.len() == 0 {
                return current.len() - 1;
            }
            let ghost pv = string_views(prev@);
            let m: usize = if prev.len() < current.len() {
                prev.len()
            } else {
                current.len()
            };
            let mut k: usize = m;
            while k > 0
                invariant
                    k <= m,
                    m <= prev@.len(),
                    m <= current@.len(),
                    pv == string_views(prev@),
                    cv == string_views(current@),
                    best_overlap(pv, cv, m as int) == best_overlap(pv, cv, k as int),
                decreases k,
            {
                if overlap_at(prev, current, k) {
                    return k;
                }
                k -= 1;
            }
        },
        None => {},
    }
    match initial_preview {
        Some(t) => {
            let mut i: usize = current.len();
            while i > 0
                invariant
                    i <= current@.len(),
                    cv == string_views(current@),
                    last_index_before(cv, t@, cv.len() as int) == last_index_before(
                        cv,
                        t@,
                        i as int,
                    ),
                decreases i,
            {
                if str_eq(current[i - 1].as_str(), t) {
                    return i;
                }
                i -= 1;
            }
        },
        None => {},
    }
    current.len() - 1
}

// ---------------------------------------------------------------------
// Watched names that the recent list does not show
// ---------------------------------------------------------------------

/// The watched names that are not visible, in ascending order.
pub open spec fn missing_targets(q: Seq<Seq<char>>, visible: Seq<Seq<char>>) -> Seq<Seq<char>> {
    q.filter(|x: Seq<char>| !visible.contains(x))
}

/// The missing names rotated left by `cursor` (modulo their number), so
/// that successive polls probe each in turn.
pub open spec fn rotated_missing(q: Seq<Seq<char>>, visible: Seq<Seq<char>>, cursor: int) -> Seq<
    Seq<char>,
> {
    let d = missing_targets(q, visible);
    if d.len() == 0 {
        d
    } else {
        d.skip(cursor % (d.len() as int)) + d.take(cursor % (d.len() as int))
    }
}

/// The watched names that the recent list does not show, starting at the
/// `cursor`-th of them and wrapping around.
pub fn select_missing_queue_targets(
    queue_targets: Option<&StringSet>,
    visible_targets: &StringSet,
    cursor: usize,
) -> (out: Vec<String>)
    requires
        queue_targets matches Some(q) ==> q.wf(),
    ensures
        string_views(out@) == match queue_targets {
            Some(q) => rotated_missing(q.elems(), visible_targets.elems(), cursor as int),
            None => Seq::<Seq<char>>::empty(),
        },
{
    let q = match queue_targets {
        Some(q) => q,
        None => {
            let out: Vec<String> = Vec::new();
            assert(string_views(out@) =~= Seq::<Seq<char>>::empty());
            return out;
        },
    };
    let d = q.difference(visible_targets);
    let ghost dv = string_views(d@);
    assert(dv =~= missing_targets(q.elems(), visible_targets.elems()));
    let n = d.len();
    if n == 0 {
        return d;
    }
    let k = cursor % n;
    let mut out: Vec<String> = Vec::new();
    let mut j: usize = 0;
    while j < n
        invariant
            j <= n,
            n == d@.len(),
            k < n,
            dv == string_views(d@),
            string_views(out@) == (dv.skip(k as int) + dv.take(k as int)).take(j as int),
        decreases n - j,
    {
        let idx = if j < n - k {
            k + j
        } else {
            j - (n - k)
        };
        let ghost o0 = string_views(out@);
        out.push(copy_string(&d[idx]));
        proof {
            let r = dv.skip(k as int) + dv.take(k as int);
            assert(r[j as int] == dv[idx as int]);
            assert(r.take(j + 1) =~= r.take(j as int).push(r[j as int]));
            assert(string_views(out@) =~= o0.push(dv[idx as int]));
        }
        j += 1;
    }
    assert((dv.skip(k as int) + dv.take(k as int)).take(n as int) =~= dv.skip(k as int) + dv.take(
        k as int,
    ));
    out
}

/// The cursor of the next probe of missing names: `scanned` further,
/// modulo their number.
pub fn next_missing_cursor(cursor: usize, scanned: usize, missing: usize) -> (c: usize)
    requires
        missing > 0,
    ensures
        c as int == (cursor + scanned) % (missing as int),
{
    let a = cursor % missing;
    let b = scanned % missing;
    proof {
        vstd::arithmetic::div_mod::lemma_add_mod_noop(cursor as int, scanned as int, missing as int);
    }
    proof {
        vstd::arithmetic::div_mod::lemma_mod_bound(cursor as int, missing as int);
        vstd::arithmetic::div_mod::lemma_mod_bound(scanned as int, missing as int);
    }
    if a >= missing - b {
        let c = a - (missing - b);
        proof {
            vstd::arithmetic::div_mod::lemma_fundamental_div_mod_converse(
                a + b,
                missing as int,
                1,
                c as int,
            );
        }
        c
    } else {
        proof {
            vstd::arithmetic::div_mod::lemma_fundamental_div_mod_converse(
                a + b,
                missing as int,
                0,
                (a + b) as int,
            );
        }
        a + b
    }
}

// ---------------------------------------------------------------------
// Message keys across polls
// ---------------------------------------------------------------------

/// What taking the key of a message does: a key already seen or already
/// pending gives nothing; during a baseline the key is marked seen without
/// being emitted; otherwise it becomes pending and is emitted.
pub open spec fn take_outcome(
    seen: Set<Seq<char>>,
    pending: Set<Seq<char>>,
    key: Seq<char>,
    baseline: bool,
) -> (Option<Seq<char>>, Set<Seq<char>>, Set<Seq<char>>) {
    if seen.contains(key) || pending.contains(key) {
        (None, seen, pending)
    } else if baseline {
        (None, seen.insert(key), pending)
    } else {
        (Some(key), seen, pending.insert(key))
    }
}

/// Takes the key of a message of conversation `chat_id` if the message is
/// new (see [`take_outcome`]).
pub fn take_unseen_message_key(
    state: &mut WatchState,
    chat_id: &str,
    message: &JsonValue,
    baseline_chat: bool,
    pending_output_keys: &mut StringSet,
) -> (r: Option<String>)
    requires
        old(state).seen.wf(),
        old(pending_output_keys).wf(),
    ensures
        final(state).seen.wf(),
        final(pending_output_keys).wf(),
        (opt_view(r), final(state).seen@, final(pending_output_keys)@) == take_outcome(
            old(state).seen@,
            old(pending_output_keys)@,
            dedup_key(chat_id@, jview(*message)),
            baseline_chat,
        ),
{
    let key = message_dedup_key(chat_id, message);
    if state.seen.contains(key.as_str()) || pending_output_keys.contains(key.as_str()) {
        return None;
    }
    if baseline_chat {
        state.seen.insert(key);
        return None;
    }
    pending_output_keys.insert(copy_string(&key));
    Some(key)
}

/// A message is emitted at most once: taking the same key again, before
/// or after it is acknowledged into the seen set, gives nothing.
pub proof fn lemma_take_emits_once(
    seen: Set<Seq<char>>,
    pending: Set<Seq<char>>,
    key: Seq<char>,
    baseline: bool,
    acknowledge: bool,
)
    ensures
        ({
            let (r1, s1, p1) = take_outcome(seen, pending, key, baseline);
            let s2 = if acknowledge && r1 is Some {
                s1.insert(key)
            } else {
                s1
            };
            take_outcome(s2, p1, key, false).0 is None
        }),
{
}

/// A baseline poll emits nothing and marks each message it takes as
/// seen.
pub proof fn lemma_baseline_marks_seen(
    seen: Set<Seq<char>>,
    pending: Set<Seq<char>>,
    key: Seq<char>,
)
    ensures
        take_outcome(seen, pending, key, true).0 is None,
        take_outcome(seen, pending, key, true).1.contains(key) || pending.contains(key),
{
}

// ---------------------------------------------------------------------
// The state kept between polls
// ---------------------------------------------------------------------

/// What watch-all keeps between polls.
#[derive(Debug)]
pub struct WatchAllRuntime {
    pub state: WatchState,
    pub chat_signatures: StringMap<ChatPollSignature>,
    pub desktop_signatures: StringMap<String>,
    pub desktop_snapshots: StringMap<Vec<String>>,
    pub desktop_initial_previews: StringMap<Option<String>>,
    pub desktop_pending_baseline_targets: StringSet,
    pub desktop_missing_scan_cursor: usize,
    pub pending_baseline_chat_ids: Option<StringSet>,
    pub queue_targets: Option<StringSet>,
}

/// The watched names, none when there is no queue.
pub open spec fn queue_elems(q: Option<StringSet>) -> Seq<Seq<char>> {
    match q {
        Some(s) => s.elems(),
        None => Seq::empty(),
    }
}

/// The conversation ids of the desktop conversations named in `ts`.
pub open spec fn desktop_ids(ts: Set<Seq<char>>) -> Set<Seq<char>> {
    ts.map(|t: Seq<char>| desktop_chat_id_of(t))
}

impl WatchAllRuntime {
    /// Whether every set and map of the runtime is well formed.
    pub open spec fn wf(&self) -> bool {
        &&& self.state.seen.wf()
        &&& self.chat_signatures.wf()
        &&& self.desktop_signatures.wf()
        &&& self.desktop_snapshots.wf()
        &&& self.desktop_initial_previews.wf()
        &&& self.desktop_pending_baseline_targets.wf()
        &&& (self.pending_baseline_chat_ids matches Some(s) ==> s.wf())
        &&& (self.queue_targets matches Some(q) ==> q.wf())
    }

    /// The runtime at the start: the loaded state and the watched names,
    /// nothing else known.
    pub fn new(state: WatchState, queue_targets: Option<StringSet>) -> (r: WatchAllRuntime)
        requires
            state.seen.wf(),
            queue_targets matches Some(q) ==> q.wf(),
        ensures
            r.wf(),
            r.state == state,
            r.queue_targets == queue_targets,
            r.chat_signatures@ == Map::<Seq<char>, ChatPollSignature>::empty(),
            r.desktop_signatures@ == Map::<Seq<char>, String>::empty(),
            r.desktop_snapshots@ == Map::<Seq<char>, Vec<String>>::empty(),
            r.desktop_initial_previews@ == Map::<Seq<char>, Option<String>>::empty(),
            r.desktop_pending_baseline_targets@ == Set::<Seq<char>>::empty(),
            r.desktop_missing_scan_cursor == 0,
            r.pending_baseline_chat_ids is None,
    {
        let pending = StringSet::new();
        assert(pending@ =~= Set::<Seq<char>>::empty());
        WatchAllRuntime {
            state,
            chat_signatures: StringMap::new(),
            desktop_signatures: StringMap::new(),
            desktop_snapshots: StringMap::new(),
            desktop_initial_previews: StringMap::new(),
            desktop_pending_baseline_targets: pending,
            desktop_missing_scan_cursor: 0,
            pending_baseline_chat_ids: None,
            queue_targets,
        }
    }
}

/// Forgets what is known of the desktop conversation named `target`: its
/// pending baseline, signature, last read and initial preview.
pub fn remove_desktop_target_state(target: &str, runtime: &mut WatchAllRuntime)
    requires
        old(runtime).wf(),
    ensures
        final(runtime).wf(),
        final(runtime).desktop_pending_baseline_targets@ == old(
            runtime,
        ).desktop_pending_baseline_targets@.remove(target@),
        final(runtime).desktop_signatures@ == old(runtime).desktop_signatures@.remove(
            desktop_chat_id_of(target@),
        ),
        final(runtime).desktop_snapshots@ == old(runtime).desktop_snapshots@.remove(
            desktop_chat_id_of(target@),
        ),
        final(runtime).desktop_initial_previews@ == old(runtime).desktop_initial_previews@.remove(
            desktop_chat_id_of(target@),
        ),
        final(runtime).state == old(runtime).state,
        final(runtime).chat_signatures == old(runtime).chat_signatures,
        final(runtime).desktop_missing_scan_cursor == old(runtime).desktop_missing_scan_cursor,
        final(runtime).pending_baseline_chat_ids == old(runtime).pending_baseline_chat_ids,
        final(runtime).queue_targets == old(runtime).queue_targets,
{
    let chat_id = desktop_chat_id(target);
    runtime.desktop_pending_baseline_targets.remove(target);
    runtime.desktop_signatures.remove(chat_id.as_str());
    runtime.desktop_snapshots.remove(chat_id.as_str());
    runtime.desktop_initial_previews.remove(chat_id.as_str());
}

proof fn lemma_filter_membership(s: Seq<Seq<char>>, p: spec_fn(Seq<char>) -> bool)
    ensures
        forall|x: Seq<char>| #[trigger] s.filter(p).contains(x) <==> (s.contains(x) && p(x)),
{
    assert forall|x: Seq<char>| #[trigger] s.filter(p).contains(x) <==> (s.contains(x) && p(x)) by {
        if s.filter(p).contains(x) {
            s.lemma_filter_contains_rev(p, x);
            let k = choose|k: int| 0 <= k < s.filter(p).len() && s.filter(p)[k] == x;
            s.lemma_filter_pred(p, k);
        }
        if s.contains(x) && p(x) {
            let k = choose|k: int| 0 <= k < s.len() && s[k] == x;
            s.lemma_filter_contains(p, k);
        }
    }
}

proof fn lemma_remove_keys_step<V>(m: Map<Seq<char>, V>, s: Set<Seq<char>>, t: Seq<char>)
    ensures
        m.remove_keys(desktop_ids(s)).remove(desktop_chat_id_of(t)) == m.remove_keys(
            desktop_ids(s.insert(t)),
        ),
{
    let a = m.remove_keys(desktop_ids(s)).remove(desktop_chat_id_of(t));
    let b = m.remove_keys(desktop_ids(s.insert(t)));
    assert forall|k: Seq<char>| a.dom().contains(k) <==> b.dom().contains(k) by {
        if desktop_ids(s.insert(t)).contains(k) {
            let x = choose|x: Seq<char>| s.insert(t).contains(x) && k == desktop_chat_id_of(x);
            if x != t {
                assert(s.contains(x));
                assert(desktop_ids(s).contains(k));
            }
        }
        if desktop_ids(s).contains(k) {
            let x = choose|x: Seq<char>| s.contains(x) && k == desktop_chat_id_of(x);
            assert(s.insert(t).contains(x));
            assert(desktop_ids(s.insert(t)).contains(k));
        }
        if k == desktop_chat_id_of(t) {
            assert(s.insert(t).contains(t));
            assert(desktop_ids(s.insert(t)).contains(k));
        }
    }
    assert(a =~= b);
}

impl WatchAllRuntime {
    /// Takes `next_targets` as the watched names: the state of each name
    /// no longer watched is forgotten, and after the first poll each newly
    /// watched name waits for a baseline read. Nothing changes when the
    /// names are the same; returns whether they differed.
    pub fn apply_queue_targets(&mut self, next_targets: StringSet, poll_index: u64) -> (changed:
        bool)
        requires
            old(self).wf(),
            next_targets.wf(),
        ensures
            final(self).wf(),
            changed == (queue_elems(old(self).queue_targets) != next_targets.elems()),
            !changed ==> *final(self) == *old(self),
            changed ==> {
                let old_set = queue_elems(old(self).queue_targets).to_set();
                let removed = old_set.difference(next_targets@);
                let added = next_targets@.difference(old_set);
                &&& final(self).queue_targets == Some(next_targets)
                &&& final(self).desktop_signatures@ == old(self).desktop_signatures@.remove_keys(
                    desktop_ids(removed),
                )
                &&& final(self).desktop_snapshots@ == old(self).desktop_snapshots@.remove_keys(
                    desktop_ids(removed),
                )
                &&& final(self).desktop_initial_previews@
                    == old(self).desktop_initial_previews@.remove_keys(desktop_ids(removed))
                &&& final(self).desktop_pending_baseline_targets@ == if poll_index > 0 {
                    old(self).desktop_pending_baseline_targets@.difference(removed).union(added)
                } else {
                    old(self).desktop_pending_baseline_targets@.difference(removed)
                }
                &&& final(self).state == old(self).state
                &&& final(self).chat_signatures == old(self).chat_signatures
                &&& final(self).desktop_missing_scan_cursor == old(
                    self,
                ).desktop_missing_scan_cursor
                &&& final(self).pending_baseline_chat_ids == old(self).pending_baseline_chat_ids
            },
    {
        let old_targets = match &self.queue_targets {
            Some(q) => q.copy(),
            None => StringSet::new(),
        };
        assert(old_targets.elems() == queue_elems(self.queue_targets));
        if old_targets.same_as(&next_targets) {
            return false;
        }
        let ghost old_set = old_targets@;
        let ghost removed = old_set.difference(next_targets@);
        let ghost added = next_targets@.difference(old_set);
        let removed_names = old_targets.difference(&next_targets);
        let ghost rv = string_views(removed_names@);
        proof {
            lemma_filter_membership(old_targets.elems(), |y: Seq<char>| !next_targets.elems().contains(y));
            assert(rv.to_set() =~= removed);
        }
        let ghost s0 = *self;
        let mut i: usize = 0;
        while i < removed_names.len()
            invariant
                i <= removed_names@.len(),
                rv == string_views(removed_names@),
                self.wf(),
                self.desktop_signatures@ == s0.desktop_signatures@.remove_keys(
                    desktop_ids(rv.take(i as int).to_set()),
                ),
                self.desktop_snapshots@ == s0.desktop_snapshots@.remove_keys(
                    desktop_ids(rv.take(i as int).to_set()),
                ),
                self.desktop_initial_previews@ == s0.desktop_initial_previews@.remove_keys(
                    desktop_ids(rv.take(i as int).to_set()),
                ),
                self.desktop_pending_baseline_targets@
                    == s0.desktop_pending_baseline_targets@.difference(rv.take(i as int).to_set()),
                self.state == s0.state,
                self.chat_signatures == s0.chat_signatures,
                self.desktop_missing_scan_cursor == s0.desktop_missing_scan_cursor,
                self.pending_baseline_chat_ids == s0.pending_baseline_chat_ids,
                self.queue_targets == s0.queue_targets,
            decreases removed_names@.len() - i,
        {
            let ghost before = *self;
            let ghost t = rv[i as int];
            remove_desktop_target_state(removed_names[i].as_str(), self);
            proof {
                let s_prev = rv.take(i as int).to_set();
                assert(rv.take(i + 1).to_set() =~= s_prev.insert(t)) by {
                    assert(rv.take(i + 1) =~= rv.take(i as int) + seq![t]);
                    Seq::lemma_to_set_insert_commutes(rv.take(i as int), t);
                }
                lemma_remove_keys_step(s0.desktop_signatures@, s_prev, t);
                lemma_remove_keys_step(s0.desktop_snapshots@, s_prev, t);
                lemma_remove_keys_step(s0.desktop_initial_previews@, s_prev, t);
                assert(self.desktop_pending_baseline_targets@ =~= s0.desktop_pending_baseline_targets@.difference(
                    rv.take(i + 1).to_set(),
                ));
            }
            i += 1;
        }
        assert(rv.take(removed_names@.len() as int) =~= rv);
        if poll_index > 0 {
            let added_names = next_targets.difference(&old_targets);
            let ghost av = string_views(added_names@);
            let ghost p0 = self.desktop_pending_baseline_targets@;
            let ghost s1 = *self;
            proof {
                lemma_filter_membership(next_targets.elems(), |y: Seq<char>| !old_targets.elems().contains(y));
                assert(av.to_set() =~= added);
            }
            let mut j: usize = 0;
            while j < added_names.len()
                invariant
                    j <= added_names@.len(),
                    av == string_views(added_names@),
                    self.wf(),
                    self.desktop_pending_baseline_targets@ == p0.union(av.take(j as int).to_set()),
                    self.desktop_signatures == s1.desktop_signatures,
                    self.desktop_snapshots == s1.desktop_snapshots,
                    self.desktop_initial_previews == s1.desktop_initial_previews,
                    self.state == s1.state,
                    self.chat_signatures == s1.chat_signatures,
                    self.desktop_missing_scan_cursor == s1.desktop_missing_scan_cursor,
                    self.pending_baseline_chat_ids == s1.pending_baseline_chat_ids,
                    self.queue_targets == s1.queue_targets,
                decreases added_names@.len() - j,
            {
                let ghost t = av[j as int];
                self.desktop_pending_baseline_targets.insert(copy_string(&added_names[j]));
                proof {
                    assert(av.take(j + 1) =~= av.take(j as int) + seq![t]);
                    Seq::lemma_to_set_insert_commutes(av.take(j as int), t);
                    assert(self.desktop_pending_baseline_targets@ =~= p0.union(
                        av.take(j + 1).to_set(),
                    ));
                }
                j += 1;
            }
            assert(av.take(added_names@.len() as int) =~= av);
        }
        self.queue_targets = Some(next_targets);
        proof {
            assert(old_targets.elems() != next_targets.elems());
        }
        true
    }
}

/// A conversation that is no longer watched has nothing left in the
/// per-conversation maps after the watched names are refreshed.
pub proof fn lemma_removed_target_forgotten<V>(
    m: Map<Seq<char>, V>,
    removed: Set<Seq<char>>,
    t: Seq<char>,
)
    requires
        removed.contains(t),
    ensures
        !m.remove_keys(desktop_ids(removed)).contains_key(desktop_chat_id_of(t)),
{
    assert(desktop_ids(removed).contains(desktop_chat_id_of(t)));
}

/// The contents of a map of strings.
pub open spec fn str_values(m: Map<Seq<char>, String>) -> Map<Seq<char>, Seq<char>> {
    m.map_values(|s: String| s@)
}

/// The contents of a map of optional strings.
pub open spec fn opt_values(m: Map<Seq<char>, Option<String>>) -> Map<Seq<char>, Option<Seq<char>>> {
    m.map_values(|o: Option<String>| opt_view(o))
}

/// What taking a baseline of the recent conversations `ts` that wait for
/// one does: each such conversation, in order, stops waiting and has its
/// signature and preview recorded.
pub open spec fn baseline_fold(
    ts: Seq<DesktopRecentChatTarget>,
    pending: Set<Seq<char>>,
    sigs: Map<Seq<char>, Seq<char>>,
    previews: Map<Seq<char>, Option<Seq<char>>>,
) -> (Set<Seq<char>>, Map<Seq<char>, Seq<char>>, Map<Seq<char>, Option<Seq<char>>>)
    decreases ts.len(),
{
    if ts.len() == 0 {
        (pending, sigs, previews)
    } else {
        let (p, s, v) = baseline_fold(ts.drop_last(), pending, sigs, previews);
        let t = ts.last();
        if p.contains(t.name@) {
            (
                p.remove(t.name@),
                s.insert(desktop_chat_id_of(t.name@), t.signature@),
                v.insert(desktop_chat_id_of(t.name@), opt_view(t.preview)),
            )
        } else {
            (p, s, v)
        }
    }
}

/// Takes the baseline of the recent conversations that wait for one.
pub fn baseline_pending_desktop_targets(
    targets: &Vec<DesktopRecentChatTarget>,
    desktop_pending_baseline_targets: &mut StringSet,
    desktop_signatures: &mut StringMap<String>,
    desktop_initial_previews: &mut StringMap<Option<String>>,
)
    requires
        old(desktop_pending_baseline_targets).wf(),
        old(desktop_signatures).wf(),
        old(desktop_initial_previews).wf(),
    ensures
        final(desktop_pending_baseline_targets).wf(),
        final(desktop_signatures).wf(),
        final(desktop_initial_previews).wf(),
        (
            final(desktop_pending_baseline_targets)@,
            str_values(final(desktop_signatures)@),
            opt_values(final(desktop_initial_previews)@),
        ) == baseline_fold(
            targets@,
            old(desktop_pending_baseline_targets)@,
            str_values(old(desktop_signatures)@),
            opt_values(old(desktop_initial_previews)@),
        ),
{
    let ghost p0 = desktop_pending_baseline_targets@;
    let ghost s0 = str_values(desktop_signatures@);
    let ghost v0 = opt_values(desktop_initial_previews@);
    let mut i: usize = 0;
    while i < targets.len()
        invariant
            i <= targets@.len(),
            desktop_pending_baseline_targets.wf(),
            desktop_signatures.wf(),
            desktop_initial_previews.wf(),
            (
                desktop_pending_baseline_targets@,
                str_values(desktop_signatures@),
                opt_values(desktop_initial_previews@),
            ) == baseline_fold(targets@.take(i as int), p0, s0, v0),
        decreases targets@.len() - i,
    {
        let t = &targets[i];
        assert(targets@.take(i + 1).drop_last() =~= targets@.take(i as int));
        assert(targets@.take(i + 1).last() == *t);
        let ghost sb = desktop_signatures@;
        let ghost vb = desktop_initial_previews@;
        if desktop_pending_baseline_targets.remove(t.name.as_str()) {
            let chat_id = desktop_chat_id(t.name.as_str());
            desktop_signatures.insert(copy_string(&chat_id), copy_string(&t.signature));
            desktop_initial_previews.insert(chat_id, crate::desktop::copy_opt(&t.preview));
            assert(str_values(desktop_signatures@) =~= str_values(sb).insert(
                desktop_chat_id_of(t.name@),
                t.signature@,
            ));
            assert(opt_values(desktop_initial_previews@) =~= opt_values(vb).insert(
                desktop_chat_id_of(t.name@),
                opt_view(t.preview),
            ));
        }
        i += 1;
    }
    assert(targets@.take(targets@.len() as int) =~= targets@);
}

// ---------------------------------------------------------------------
// The outputs of one poll
// ---------------------------------------------------------------------

/// How many messages a poll may still print: no limit when `max_events`
/// is zero, else what is left of it.
pub open spec fn budget_of(emitted: int, max_events: int) -> int {
    if max_events == 0 {
        usize::MAX as int
    } else {
        max_events - emitted
    }
}

/// The number of messages that a poll may still print (see
/// [`budget_of`]).
pub fn poll_budget(emitted: usize, max_events: usize) -> (b: usize)
    requires
        max_events == 0 || emitted <= max_events,
    ensures
        b == budget_of(emitted as int, max_events as int),
{
    if max_events == 0 {
        usize::MAX
    } else {
        max_events - emitted
    }
}

/// Counts one more printed message; returns the new count and whether
/// `--max-events` is reached with it.
pub fn record_emit(emitted: usize, max_events: usize) -> (r: (usize, bool))
    requires
        emitted < usize::MAX,
    ensures
        r.0 == emitted + 1,
        r.1 == (max_events > 0 && r.0 >= max_events),
{
    let n = emitted + 1;
    (n, max_events > 0 && n >= max_events)
}

/// Whether watching stops for want of new messages: an idle limit is set
/// and as many seconds have passed since the last printed message (or the
/// start).
pub fn idle_expired(secs_since_emit: u64, idle_timeout_sec: u64) -> (b: bool)
    ensures
        b == (idle_timeout_sec > 0 && secs_since_emit >= idle_timeout_sec),
{
    idle_timeout_sec > 0 && secs_since_emit >= idle_timeout_sec
}

/// Law: the count of printed messages never exceeds `--max-events` (when
/// it is set). From a count below the limit, a poll prints at most its
/// budget, which ends exactly at the limit, and counting one more message
/// reports the stop exactly when the count reaches the limit.
pub proof fn lemma_emits_within_max_events(emitted: int, max_events: int, printed: int)
    requires
        0 < max_events,
        0 <= emitted < max_events,
        0 <= printed <= budget_of(emitted, max_events),
    ensures
        emitted + printed <= max_events,
        emitted + budget_of(emitted, max_events) == max_events,
        emitted + 1 <= max_events,
        (emitted + 1 >= max_events) == (emitted + 1 == max_events),
{
}

/// What watch-all prints over successive polls that collected `polls[j]`
/// outputs each, from `emitted` printed messages on: a poll prints at
/// most its budget ([`budget_of`]), each message is counted as
/// [`record_emit`] counts it, and the run stops at the first message
/// that reaches `--max-events`; with `--once` only the first poll runs.
/// Gives the number printed and whether the limit stopped the run.
pub open spec fn run_printed(emitted: int, max_events: int, polls: Seq<int>, once: bool) -> (int, bool)
    decreases polls.len(),
{
    if polls.len() == 0 {
        (emitted, false)
    } else {
        let b = budget_of(emitted, max_events);
        let n = if polls[0] < 0 {
            0
        } else if polls[0] > b {
            b
        } else {
            polls[0]
        };
        if max_events > 0 && n > 0 && emitted + n >= max_events {
            (emitted + n, true)
        } else if once {
            (emitted + n, false)
        } else {
            run_printed(emitted + n, max_events, polls.drop_first(), once)
        }
    }
}

/// Law of a watch-all run: with `--max-events` set, the run never prints
/// more than `max_events` messages, and the limit stops it exactly when
/// the `max_events`-th message is printed.
pub proof fn lemma_run_stops_at_max_events(
    emitted: int,
    max_events: int,
    polls: Seq<int>,
    once: bool,
)
    requires
        0 < max_events,
        0 <= emitted < max_events,
    ensures
        emitted <= run_printed(emitted, max_events, polls, once).0 <= max_events,
        run_printed(emitted, max_events, polls, once).1 <==> run_printed(
            emitted,
            max_events,
            polls,
            once,
        ).0 == max_events,
    decreases polls.len(),
{
    if polls.len() > 0 {
        let b = budget_of(emitted, max_events);
        let n = if polls[0] < 0 {
            0
        } else if polls[0] > b {
            b
        } else {
            polls[0]
        };
        if !(n > 0 && emitted + n >= max_events) && !once {
            lemma_run_stops_at_max_events(emitted + n, max_events, polls.drop_first(), once);
        }
    }
}

/// An event that the friend watcher's writer waits for: a message to
/// print, a line of log, or a quiet spell of some seconds since the last
/// printed message.
pub enum WriterEvent {
    Message,
    Log,
    Quiet(u64),
}

/// What the writer does with `events`, from `emitted` printed messages
/// on: each message is printed and counted as [`record_emit`] counts
/// it, stopping at the one that reaches `--max-events`; a log line is
/// only passed on; a quiet spell stops it when [`idle_expired`] says so.
/// Gives the number printed and whether the writer stopped.
pub open spec fn writer_run(emitted: int, max_events: int, idle_timeout_sec: int, events: Seq<
    WriterEvent,
>) -> (int, bool)
    decreases events.len(),
{
    if events.len() == 0 {
        (emitted, false)
    } else {
        match events[0] {
            WriterEvent::Message => if max_events > 0 && emitted + 1 >= max_events {
                (emitted + 1, true)
            } else {
                writer_run(emitted + 1, max_events, idle_timeout_sec, events.drop_first())
            },
            WriterEvent::Log => writer_run(emitted, max_events, idle_timeout_sec, events.drop_first()),
            WriterEvent::Quiet(secs) => if idle_timeout_sec > 0 && secs >= idle_timeout_sec {
                (emitted, true)
            } else {
                writer_run(emitted, max_events, idle_timeout_sec, events.drop_first())
            },
        }
    }
}

/// Law of the writer: with `--max-events` set it prints at most
/// `max_events` messages and stops right after the `max_events`-th; a
/// quiet spell of `--idle-timeout-sec` seconds stops it; log lines
/// never count.
pub proof fn lemma_writer_stops(
    emitted: int,
    max_events: int,
    idle_timeout_sec: int,
    events: Seq<WriterEvent>,
)
    requires
        0 <= emitted,
        max_events > 0 ==> emitted < max_events,
    ensures
        ({
            let (n, stop) = writer_run(emitted, max_events, idle_timeout_sec, events);
            &&& emitted <= n
            &&& max_events > 0 ==> n <= max_events
            &&& max_events > 0 && n == max_events ==> stop
            &&& n <= emitted + events.len()
            &&& (events.len() > 0 && events[0] is Quiet && idle_timeout_sec > 0
                && events[0]->Quiet_0 >= idle_timeout_sec) ==> stop && n == emitted
            &&& (events.len() > 0 && events[0] is Log) ==> (n, stop) == writer_run(
                emitted,
                max_events,
                idle_timeout_sec,
                events.drop_first(),
            )
        }),
    decreases events.len(),
{
    if events.len() > 0 {
        match events[0] {
            WriterEvent::Message => {
                if !(max_events > 0 && emitted + 1 >= max_events) {
                    lemma_writer_stops(emitted + 1, max_events, idle_timeout_sec, events.drop_first());
                }
            },
            WriterEvent::Log => {
                lemma_writer_stops(emitted, max_events, idle_timeout_sec, events.drop_first());
            },
            WriterEvent::Quiet(secs) => {
                if !(idle_timeout_sec > 0 && secs >= idle_timeout_sec) {
                    lemma_writer_stops(emitted, max_events, idle_timeout_sec, events.drop_first());
                }
            },
        }
    }
}

/// A message ready to be printed, with its key.
#[derive(Debug)]
pub struct PendingOutput {
    pub key: String,
    pub output: JsonValue,
}

/// The outputs that a poll collects, at most `max_outputs` of them, and
/// the keys of those not yet acknowledged.
#[derive(Debug)]
pub struct PollOutputBuffer {
    pub max_outputs: usize,
    pub outputs: Vec<PendingOutput>,
    pub pending_keys: StringSet,
}

impl PollOutputBuffer {
    /// An empty buffer for at most `max_outputs` outputs.
    pub fn new(max_outputs: usize) -> (b: PollOutputBuffer)
        ensures
            b.max_outputs == max_outputs,
            b.outputs@.len() == 0,
            b.pending_keys.wf(),
            b.pending_keys@ == Set::<Seq<char>>::empty(),
    {
        let pending_keys = StringSet::new();
        assert(pending_keys@ =~= Set::<Seq<char>>::empty());
        PollOutputBuffer { max_outputs, outputs: Vec::new(), pending_keys }
    }

    /// Whether the buffer holds as many outputs as allowed.
    pub fn is_full(&self) -> (b: bool)
        ensures
            b == (self.outputs@.len() >= self.max_outputs),
    {
        self.outputs.len() >= self.max_outputs
    }
}

/// Whether a message read from the desktop client was already printed
/// from the conversation's preview.
pub fn desktop_message_was_emitted_from_preview(
    chat_id: &str,
    message: &JsonValue,
    state: &WatchState,
) -> (b: bool)
    ensures
        b == match crate::watch_friend::str_get2(jview(*message), "text"@, "content"@) {
            Some(t) => state.seen.elems().contains(preview_dedup_key_of(chat_id@, t)),
            None => false,
        },
{
    match message.get2("text", "content") {
        Some(JsonValue::Str(text)) => {
            let k = desktop_preview_dedup_key(chat_id, text.as_str());
            state.seen.contains(k.as_str())
        },
        _ => false,
    }
}

// ---------------------------------------------------------------------
// The queue file
// ---------------------------------------------------------------------

/// The strings of a JSON array of strings (`serde_json::from_str` into
/// `Vec<String>`); `None` when the text is not one.
pub uninterp spec fn json_string_list(text: Seq<char>) -> Option<Seq<Seq<char>>>;

/// Reads JSON text as an array of strings (`serde_json::from_str::<Vec<String>>`):
/// the contract says only that the result is the one named
/// [`json_string_list`] of the text; the error's message is the parser's.
#[verifier::external_body]
fn parse_json_string_list(text: &str) -> (r: Result<Vec<String>, String>)
    ensures
        match r {
            Ok(v) => json_string_list(text@) == Some(string_views(v@)),
            Err(_) => json_string_list(text@) is None,
        },
{
    match serde_json::from_str::<Vec<String>>(text) {
        Ok(v) => Ok(v),
        Err(e) => Err(format!("{e}")),
    }
}

/// The part of a queue line before a `#` comment.
pub open spec fn before_hash(line: Seq<char>) -> Seq<char> {
    line.take(crate::text::find_char(line, '#'))
}

/// The names that the lines of a queue file give: each line without its
/// comment, trimmed, the empty ones left out.
pub open spec fn queue_line_names(ls: Seq<Seq<char>>) -> Seq<Seq<char>>
    decreases ls.len(),
{
    if ls.len() == 0 {
        seq![]
    } else {
        let rest = queue_line_names(ls.drop_last());
        let t = crate::text::trim(before_hash(ls.last()));
        if t.len() > 0 {
            rest.push(t)
        } else {
            rest
        }
    }
}

/// What reading a queue file gives: no names for a blank file; the names
/// of a JSON array of strings when the trimmed text begins with `[`
/// (`Err(None)` when it is not one); else the names of its lines. Each
/// name is then checked as a target (`Err(Some(e))` for the first one
/// refused).
pub open spec fn queue_content_check(content: Seq<char>) -> Result<
    Set<Seq<char>>,
    Option<DesktopError>,
> {
    let t = crate::text::trim(content);
    let names = if t.len() > 0 && t[0] == '[' {
        json_string_list(t)
    } else {
        Some(queue_line_names(crate::text::lines(content)))
    };
    if t.len() == 0 {
        Ok(Set::empty())
    } else {
        match names {
            None => Err(None),
            Some(ns) => match queue_targets_check(ns) {
                Ok(s) => Ok(s),
                Err(e) => Err(Some(e)),
            },
        }
    }
}

/// Reads the watched names of a queue file: one per line (`#` starts a
/// comment), or a JSON array of strings.
pub fn parse_watch_queue_content(content: &str) -> (r: Result<StringSet, WatchError>)
    ensures
        match queue_content_check(content@) {
            Ok(set) => r is Ok && r->Ok_0.wf() && r->Ok_0@ == set,
            Err(None) => r is Err && r->Err_0 is QueueJson,
            Err(Some(e)) => r == Err::<StringSet, WatchError>(WatchError::InvalidTarget(e)),
        },
{
    let cs = crate::text::chars_of(content);
    let t = crate::text::trim_chars(&cs);
    if t.len() == 0 {
        let s = StringSet::new();
        assert(s@ =~= Set::<Seq<char>>::empty());
        return Ok(s);
    }
    let names: Vec<String> = if t[0] == '[' {
        let ts = string_from(&t);
        match parse_json_string_list(ts.as_str()) {
            Ok(v) => v,
            Err(msg) => {
                return Err(WatchError::QueueJson(msg));
            },
        }
    } else {
        let ls = crate::text::split_lines(&cs);
        let ghost lv = crate::text::lines(content@);
        let mut out: Vec<String> = Vec::new();
        let mut i: usize = 0;
        while i < ls.len()
            invariant
                i <= ls@.len(),
                lv == crate::text::lines(content@),
                crate::text::views(ls@) == lv,
                string_views(out@) == queue_line_names(lv.take(i as int)),
            decreases ls@.len() - i,
        {
            let line = &ls[i];
            assert(lv[i as int] == line@);
            let h = crate::text::find_char_from(line, '#', 0);
            assert(line@.skip(0) =~= line@);
            let head = crate::text::subvec(line, 0, h);
            let name = crate::text::trim_chars(&head);
            assert(lv.take(i + 1).drop_last() =~= lv.take(i as int));
            assert(lv.take(i + 1).last() == line@);
            assert(head@ =~= before_hash(line@));
            if name.len() > 0 {
                let ghost o0 = string_views(out@);
                out.push(string_from(&name));
                assert(string_views(out@) =~= o0.push(name@));
            }
            i += 1;
        }
        assert(lv.take(ls@.len() as int) =~= lv);
        out
    };
    match parse_queue_targets(names) {
        Ok(s) => Ok(s),
        Err(e) => Err(WatchError::InvalidTarget(e)),
    }
}

/// The text of a queue file that holds `names`: each on a line of its own.
pub open spec fn queue_file_text(names: Seq<Seq<char>>) -> Seq<char>
    decreases names.len(),
{
    if names.len() == 0 {
        seq![]
    } else {
        queue_file_text(names.drop_last()) + names.last() + seq!['\n']
    }
}

/// The text of the queue file written for a set of watched names, in
/// ascending order, one per line.
pub fn queue_file_content(targets: &StringSet) -> (s: String)
    ensures
        s@ == queue_file_text(targets.elems()),
{
    let names = targets.to_vec();
    let ghost nv = string_views(names@);
    let mut out: Vec<char> = Vec::new();
    let mut i: usize = 0;
    while i < names.len()
        invariant
            i <= names@.len(),
            nv == string_views(names@),
            out@ == queue_file_text(nv.take(i as int)),
        decreases names@.len() - i,
    {
        assert(nv.take(i + 1).drop_last() =~= nv.take(i as int));
        append_str(&mut out, names[i].as_str());
        out.push('\n');
        i += 1;
        assert(out@ =~= queue_file_text(nv.take(i as int)));
    }
    assert(nv.take(names@.len() as int) =~= nv);
    string_from(&out)
}

/// Whether a watched name comes back unchanged from the queue file: one
/// that checking leaves as it is, on one line, without a `#`.
pub open spec fn queue_name_stable(n: Seq<char>) -> bool {
    &&& target_check(n) == Ok::<Seq<char>, DesktopError>(n)
    &&& forall|j: int| 0 <= j < n.len() ==> n[j] != '\n' && n[j] != '#'
}

proof fn lemma_queue_file_text_front(names: Seq<Seq<char>>)
    requires
        names.len() > 0,
    ensures
        queue_file_text(names) == names[0] + seq!['\n'] + queue_file_text(names.drop_first()),
    decreases names.len(),
{
    if names.len() == 1 {
        assert(queue_file_text(names.drop_last()) =~= Seq::<char>::empty());
        assert(queue_file_text(names.drop_first()) =~= Seq::<char>::empty());
        assert(names.last() == names[0]);
        assert(queue_file_text(names) =~= names[0] + seq!['\n'] + queue_file_text(
            names.drop_first(),
        ));
    } else {
        let dl = names.drop_last();
        lemma_queue_file_text_front(dl);
        assert(dl.drop_first() =~= names.drop_first().drop_last());
        assert(names.drop_first().last() == names.last());
        assert(dl[0] == names[0]);
        assert(queue_file_text(names) == queue_file_text(dl) + names.last() + seq!['\n']);
        assert(queue_file_text(names.drop_first()) == queue_file_text(dl.drop_first())
            + names.last() + seq!['\n']);
        assert(queue_file_text(names) =~= names[0] + seq!['\n'] + queue_file_text(
            names.drop_first(),
        ));
    }
}

proof fn lemma_queue_file_lines(names: Seq<Seq<char>>)
    requires
        forall|i: int| 0 <= i < names.len() ==> queue_name_stable(#[trigger] names[i]),
    ensures
        crate::text::lines(queue_file_text(names)) == names,
    decreases names.len(),
{
    if names.len() > 0 {
        let n0 = names[0];
        let tail = names.drop_first();
        let rest = queue_file_text(tail);
        lemma_queue_file_text_front(names);
        let content = queue_file_text(names);
        assert(queue_name_stable(names[0]));
        crate::text::lemma_trimmed_edges(n0);
        assert forall|j: int| 0 <= j < n0.len() implies content[j] != '\n' by {
            assert(content[j] == n0[j]);
        }
        assert(content[n0.len() as int] == '\n');
        crate::text::lemma_find_char_at(content, '\n', n0.len() as int);
        assert(content.take(n0.len() as int) =~= n0);
        assert(content.skip(n0.len() as int + 1) =~= rest);
        assert(('\r' as u32) == 13);
        assert(crate::text::strip_cr(n0) == n0);
        assert forall|i: int| 0 <= i < tail.len() implies queue_name_stable(#[trigger] tail[i]) by {
            assert(tail[i] == names[i + 1]);
        }
        lemma_queue_file_lines(tail);
        assert(crate::text::lines(content) =~= seq![n0] + tail);
        assert(names =~= seq![n0] + tail);
    } else {
        assert(queue_file_text(names) =~= Seq::<char>::empty());
    }
}

proof fn lemma_queue_line_names_stable(names: Seq<Seq<char>>)
    requires
        forall|i: int| 0 <= i < names.len() ==> queue_name_stable(#[trigger] names[i]),
    ensures
        queue_line_names(names) == names,
    decreases names.len(),
{
    if names.len() > 0 {
        let l = names.last();
        let dl = names.drop_last();
        assert(queue_name_stable(names[names.len() - 1]));
        crate::text::lemma_find_char_at(l, '#', l.len() as int);
        assert(before_hash(l) =~= l);
        assert forall|i: int| 0 <= i < dl.len() implies queue_name_stable(#[trigger] dl[i]) by {
            assert(dl[i] == names[i]);
        }
        lemma_queue_line_names_stable(dl);
        assert(dl.push(l) =~= names);
    }
}

proof fn lemma_queue_targets_check_stable(names: Seq<Seq<char>>)
    requires
        forall|i: int| 0 <= i < names.len() ==> queue_name_stable(#[trigger] names[i]),
    ensures
        queue_targets_check(names) == Ok::<Set<Seq<char>>, DesktopError>(names.to_set()),
    decreases names.len(),
{
    if names.len() == 0 {
        assert(names.to_set() =~= Set::<Seq<char>>::empty());
    } else {
        let dl = names.drop_last();
        assert(queue_name_stable(names[names.len() - 1]));
        assert forall|i: int| 0 <= i < dl.len() implies queue_name_stable(#[trigger] dl[i]) by {
            assert(dl[i] == names[i]);
        }
        lemma_queue_targets_check_stable(dl);
        dl.lemma_push_to_set_commute(names.last());
        assert(dl.push(names.last()) =~= names);
    }
}

/// Law: the queue file written for a set of watched names reads back as
/// the same set, when every name comes back unchanged from its line
/// ([`queue_name_stable`]) and the first one does not begin with `[`
/// (which would make the file read as a JSON array).
pub proof fn lemma_queue_file_round_trip(targets: StringSet)
    requires
        targets.wf(),
        forall|i: int|
            0 <= i < targets.elems().len() ==> queue_name_stable(#[trigger] targets.elems()[i]),
        targets.elems().len() > 0 ==> targets.elems()[0][0] != '[',
    ensures
        queue_content_check(queue_file_text(targets.elems())) == Ok::<
            Set<Seq<char>>,
            Option<DesktopError>,
        >(targets@),
{
    let names = targets.elems();
    let content = queue_file_text(names);
    if names.len() == 0 {
        assert(content =~= Seq::<char>::empty());
        assert(crate::text::trim(content) =~= Seq::<char>::empty());
        assert(targets@ =~= Set::<Seq<char>>::empty());
    } else {
        lemma_queue_file_text_front(names);
        assert(queue_name_stable(names[0]));
        crate::text::lemma_trimmed_edges(names[0]);
        assert(content[0] == names[0][0]);
        crate::text::lemma_trim_keeps_first(content);
        lemma_queue_file_lines(names);
        lemma_queue_line_names_stable(names);
        lemma_queue_targets_check_stable(names);
    }
}

/// The names of an existing queue file merged with the names given on the
/// command line, and whether the file must be written again (it gained
/// names).
pub fn merge_queue_targets(existing: StringSet, initial: &StringSet) -> (r: (StringSet, bool))
    requires
        existing.wf(),
        initial.wf(),
    ensures
        r.0.wf(),
        r.0@ == existing@.union(initial@),
        r.1 == (r.0.elems().len() != existing.elems().len()),
{
    let mut targets = existing;
    let old_len = targets.len();
    let names = initial.to_vec();
    let ghost nv = string_views(names@);
    let ghost e0 = targets@;
    let mut i: usize = 0;
    while i < names.len()
        invariant
            i <= names@.len(),
            nv == string_views(names@),
            targets.wf(),
            targets@ == e0.union(nv.take(i as int).to_set()),
        decreases names@.len() - i,
    {
        let ghost t = nv[i as int];
        targets.insert(copy_string(&names[i]));
        proof {
            assert(nv.take(i + 1) =~= nv.take(i as int) + seq![t]);
            Seq::lemma_to_set_insert_commutes(nv.take(i as int), t);
            assert(targets@ =~= e0.union(nv.take(i + 1).to_set()));
        }
        i += 1;
    }
    proof {
        assert(nv.take(names@.len() as int) =~= nv);
        assert(nv.to_set() =~= initial@);
    }
    let grew = targets.len() != old_len;
    (targets, grew)
}

/// The watched names at the start: those of the queue file when there is
/// one (its reading is `from_file`), else the names given on the command
/// line, or no queue at all when none was given.
pub fn initial_queue_targets(
    has_queue_file: bool,
    initial: StringSet,
    from_file: Option<StringSet>,
) -> (r: Option<StringSet>)
    ensures
        has_queue_file ==> r == from_file,
        !has_queue_file ==> r == if initial.elems().len() == 0 {
            None::<StringSet>
        } else {
            Some(initial)
        },
{
    if has_queue_file {
        from_file
    } else if initial.is_empty() {
        None
    } else {
        Some(initial)
    }
}

// ---------------------------------------------------------------------
// One poll of the desktop client
// ---------------------------------------------------------------------

/// The keys and records of a sequence of pending outputs.
pub open spec fn outputs_view(s: Seq<PendingOutput>) -> Seq<(Seq<char>, JsonView)> {
    s.map_values(|p: PendingOutput| (p.key@, jview(p.output)))
}

/// The contents of a map of text lists.
pub open spec fn snapshot_values(m: Map<Seq<char>, Vec<String>>) -> Map<Seq<char>, Seq<Seq<char>>> {
    m.map_values(|v: Vec<String>| string_views(v@))
}

/// Whether a message read from the desktop client was printed from the
/// conversation's preview already.
pub open spec fn previewed(seen: Set<Seq<char>>, chat_id: Seq<char>, m: JsonView) -> bool {
    match crate::watch_friend::str_get2(m, "text"@, "content"@) {
        Some(t) => seen.contains(preview_dedup_key_of(chat_id, t)),
        None => false,
    }
}

/// The record printed for a desktop message of the conversation named
/// `name`.
pub open spec fn desktop_output(name: Seq<char>, chat_id: Seq<char>, m: JsonView) -> JsonView {
    JsonView::Object(crate::watch_friend::output_entries(name, chat_id, name, m, None))
}

/// What emitting desktop messages does, message by message while there is
/// room for `room` more outputs: a message printed from the preview (when
/// that is checked), or whose key is seen or pending, is passed over; any
/// other is output under its key, which becomes pending.
pub open spec fn emit_fold(
    msgs: Seq<JsonView>,
    seen: Set<Seq<char>>,
    pending: Set<Seq<char>>,
    name: Seq<char>,
    chat_id: Seq<char>,
    check_preview: bool,
    room: int,
) -> (Seq<(Seq<char>, JsonView)>, Set<Seq<char>>)
    decreases msgs.len(),
{
    if msgs.len() == 0 {
        (seq![], pending)
    } else {
        let (outs, p) = emit_fold(
            msgs.drop_last(),
            seen,
            pending,
            name,
            chat_id,
            check_preview,
            room,
        );
        let m = msgs.last();
        let k = dedup_key(chat_id, m);
        if outs.len() >= room || (check_preview && previewed(seen, chat_id, m)) || seen.contains(k)
            || p.contains(k) {
            (outs, p)
        } else {
            (outs.push((k, desktop_output(name, chat_id, m))), p.insert(k))
        }
    }
}

/// Emits the desktop messages of `messages` from `start` on into the
/// buffer (see [`emit_fold`]).
pub fn emit_desktop_messages(
    buffer: &mut PollOutputBuffer,
    state: &WatchState,
    name: &str,
    chat_id: &str,
    messages: &Vec<JsonValue>,
    start: usize,
    check_preview: bool,
)
    requires
        old(buffer).pending_keys.wf(),
        start <= messages@.len(),
    ensures
        final(buffer).pending_keys.wf(),
        final(buffer).max_outputs == old(buffer).max_outputs,
        ({
            let (outs, p) = emit_fold(
                crate::json::items_view(messages@, messages@.len() as int).skip(start as int),
                state.seen@,
                old(buffer).pending_keys@,
                name@,
                chat_id@,
                check_preview,
                old(buffer).max_outputs - old(buffer).outputs@.len(),
            );
            &&& outputs_view(final(buffer).outputs@) == outputs_view(old(buffer).outputs@) + outs
            &&& final(buffer).pending_keys@ == p
        }),
{
    let ghost mv = crate::json::items_view(messages@, messages@.len() as int);
    proof {
        crate::json::lemma_items_view(messages@, messages@.len() as int);
    }
    let ghost o0 = outputs_view(buffer.outputs@);
    let ghost room = buffer.max_outputs - buffer.outputs@.len();
    let ghost p0 = buffer.pending_keys@;
    let meta = WatchTargetMeta {
        target: name.to_owned(),
        chat_id: chat_id.to_owned(),
        chat_name: name.to_owned(),
    };
    let mut i: usize = start;
    assert(mv.subrange(start as int, start as int) =~= Seq::<JsonView>::empty());
    while i < messages.len()
        invariant
            start <= i <= messages@.len(),
            mv == crate::json::items_view(messages@, messages@.len() as int),
            mv.len() == messages@.len(),
            forall|j: int| 0 <= j < messages@.len() ==> #[trigger] mv[j] == jview(messages@[j]),
            buffer.pending_keys.wf(),
            buffer.max_outputs == old(buffer).max_outputs,
            o0 == outputs_view(old(buffer).outputs@),
            room == old(buffer).max_outputs - old(buffer).outputs@.len(),
            p0 == old(buffer).pending_keys@,
            meta.target@ == name@,
            meta.chat_id@ == chat_id@,
            meta.chat_name@ == name@,
            ({
                let (outs, p) = emit_fold(
                    mv.subrange(start as int, i as int),
                    state.seen@,
                    p0,
                    name@,
                    chat_id@,
                    check_preview,
                    room,
                );
                &&& outputs_view(buffer.outputs@) == o0 + outs
                &&& buffer.pending_keys@ == p
            }),
        decreases messages@.len() - i,
    {
        let ghost before = buffer.outputs@;
        let ghost sub = mv.subrange(start as int, i + 1);
        proof {
            assert(sub.drop_last() =~= mv.subrange(start as int, i as int));
            assert(sub.last() == jview(messages@[i as int]));
        }
        let message = &messages[i];
        let full = buffer.is_full();
        let from_preview = check_preview && desktop_message_was_emitted_from_preview(
            chat_id,
            message,
            state,
        );
        if !full && !from_preview {
            let key = message_dedup_key(chat_id, message);
            if !state.seen.contains(key.as_str()) && !buffer.pending_keys.contains(key.as_str()) {
                buffer.pending_keys.insert(copy_string(&key));
                let output = crate::watch_friend::build_output_message(
                    &meta,
                    message.deep_copy(),
                    None,
                );
                buffer.outputs.push(PendingOutput { key, output });
                assert(outputs_view(buffer.outputs@) =~= outputs_view(before).push(
                    (buffer.outputs@.last().key@, jview(buffer.outputs@.last().output)),
                ));
            }
        }
        i += 1;
    }
    assert(mv.subrange(start as int, messages@.len() as int) =~= mv.skip(start as int));
}

/// Whether a recent conversation changed: its signature is not the one
/// recorded.
pub open spec fn target_changed(sigs: Map<Seq<char>, Seq<char>>, t: DesktopRecentChatTarget) -> bool {
    let id = desktop_chat_id_of(t.name@);
    !(sigs.contains_key(id) && sigs[id] == t.signature@)
}

/// Whether a sweep reads an unchanged conversation: something was read
/// from it before, or it showed a preview when watching began.
pub open spec fn target_known(
    snapshots: Map<Seq<char>, Seq<Seq<char>>>,
    previews: Map<Seq<char>, Option<Seq<char>>>,
    t: DesktopRecentChatTarget,
) -> bool {
    let id = desktop_chat_id_of(t.name@);
    snapshots.contains_key(id) || (previews.contains_key(id) && previews[id] is Some)
}

/// Whether the recent conversation `t` changed since the last poll.
pub fn desktop_target_changed(runtime: &WatchAllRuntime, target: &DesktopRecentChatTarget) -> (b:
    bool)
    requires
        runtime.wf(),
    ensures
        b == target_changed(str_values(runtime.desktop_signatures@), *target),
{
    let chat_id = desktop_chat_id(target.name.as_str());
    match runtime.desktop_signatures.get(chat_id.as_str()) {
        Some(sig) => !str_eq(sig.as_str(), target.signature.as_str()),
        None => true,
    }
}

fn desktop_target_known(runtime: &WatchAllRuntime, target: &DesktopRecentChatTarget) -> (b: bool)
    requires
        runtime.wf(),
    ensures
        b == target_known(
            snapshot_values(runtime.desktop_snapshots@),
            opt_values(runtime.desktop_initial_previews@),
            *target,
        ),
{
    let chat_id = desktop_chat_id(target.name.as_str());
    if runtime.desktop_snapshots.contains_key(chat_id.as_str()) {
        return true;
    }
    match runtime.desktop_initial_previews.get(chat_id.as_str()) {
        Some(p) => p.is_some(),
        None => false,
    }
}

/// The indices `i < n` that satisfy `p`, ascending.
pub open spec fn indices_where(n: int, p: spec_fn(int) -> bool) -> Seq<int>
    decreases n,
{
    if n <= 0 {
        seq![]
    } else if p(n - 1) {
        indices_where(n - 1, p).push(n - 1)
    } else {
        indices_where(n - 1, p)
    }
}

/// The order in which a poll reads the recent conversations: the changed
/// ones first, then (in a sweep) the unchanged ones known from before,
/// each group in list order; the others are not read.
pub open spec fn poll_order(
    ts: Seq<DesktopRecentChatTarget>,
    sigs: Map<Seq<char>, Seq<char>>,
    snapshots: Map<Seq<char>, Seq<Seq<char>>>,
    previews: Map<Seq<char>, Option<Seq<char>>>,
    force: bool,
) -> Seq<int> {
    indices_where(ts.len() as int, |i: int| target_changed(sigs, ts[i])) + indices_where(
        ts.len() as int,
        |i: int| !target_changed(sigs, ts[i]) && force && target_known(snapshots, previews, ts[i]),
    )
}

/// The indices of the recent conversations that a poll reads, in order.
pub fn desktop_poll_order(
    targets: &Vec<DesktopRecentChatTarget>,
    runtime: &WatchAllRuntime,
    force_desktop_sweep: bool,
) -> (out: Vec<usize>)
    requires
        runtime.wf(),
    ensures
        out@.map_values(|i: usize| i as int) == poll_order(
            targets@,
            str_values(runtime.desktop_signatures@),
            snapshot_values(runtime.desktop_snapshots@),
            opt_values(runtime.desktop_initial_previews@),
            force_desktop_sweep,
        ),
{
    let ghost sigs = str_values(runtime.desktop_signatures@);
    let ghost snaps = snapshot_values(runtime.desktop_snapshots@);
    let ghost prevs = opt_values(runtime.desktop_initial_previews@);
    let ghost pc = |i: int| target_changed(sigs, targets@[i]);
    let ghost pk = |i: int| !target_changed(sigs, targets@[i]) && force_desktop_sweep && target_known(
        snaps,
        prevs,
        targets@[i],
    );
    let mut changed: Vec<usize> = Vec::new();
    let mut swept: Vec<usize> = Vec::new();
    let mut i: usize = 0;
    while i < targets.len()
        invariant
            i <= targets@.len(),
            runtime.wf(),
            sigs == str_values(runtime.desktop_signatures@),
            snaps == snapshot_values(runtime.desktop_snapshots@),
            prevs == opt_values(runtime.desktop_initial_previews@),
            pc == (|i: int| target_changed(sigs, targets@[i])),
            pk == (|i: int| !target_changed(sigs, targets@[i]) && force_desktop_sweep
                && target_known(snaps, prevs, targets@[i])),
            changed@.map_values(|j: usize| j as int) == indices_where(i as int, pc),
            swept@.map_values(|j: usize| j as int) == indices_where(i as int, pk),
        decreases targets@.len() - i,
    {
        let c = desktop_target_changed(runtime, &targets[i]);
        let ghost c0 = changed@;
        let ghost s0 = swept@;
        if c {
            changed.push(i);
            assert(changed@.map_values(|j: usize| j as int) =~= c0.map_values(|j: usize| j as int).push(
                i as int,
            ));
        } else if force_desktop_sweep && desktop_target_known(runtime, &targets[i]) {
            swept.push(i);
            assert(swept@.map_values(|j: usize| j as int) =~= s0.map_values(|j: usize| j as int).push(
                i as int,
            ));
        }
        i += 1;
    }
    let ghost cv = changed@;
    let mut j: usize = 0;
    while j < swept.len()
        invariant
            j <= swept@.len(),
            changed@.map_values(|q: usize| q as int) == cv.map_values(|q: usize| q as int)
                + swept@.take(j as int).map_values(|q: usize| q as int),
        decreases swept@.len() - j,
    {
        let ghost c1 = changed@;
        let x = swept[j];
        changed.push(x);
        assert(swept@.take(j + 1) =~= swept@.take(j as int).push(x));
        assert(swept@.take(j + 1).map_values(|q: usize| q as int) =~= swept@.take(j as int).map_values(
            |q: usize| q as int,
        ).push(x as int));
        assert(changed@.map_values(|q: usize| q as int) =~= c1.map_values(|q: usize| q as int).push(
            x as int,
        ));
        assert(changed@.map_values(|q: usize| q as int) =~= cv.map_values(|q: usize| q as int)
            + swept@.take(j + 1).map_values(|q: usize| q as int));
        j += 1;
    }
    assert(swept@.take(swept@.len() as int) =~= swept@);
    changed
}

/// What emitting a conversation's preview does: nothing when there is no
/// preview, or its message was seen or is pending, or the buffer is full;
/// else the preview's message is output.
pub open spec fn preview_emits(
    t: DesktopRecentChatTarget,
    chat_id: Seq<char>,
    seen: Set<Seq<char>>,
    pending: Set<Seq<char>>,
) -> bool {
    match opt_view(t.preview) {
        Some(p) => p.len() > 0 && !seen.contains(dedup_key(chat_id, preview_message_json(p)))
            && !pending.contains(dedup_key(chat_id, preview_message_json(p))),
        None => false,
    }
}

/// Outputs the preview of a changed conversation as its new message, when
/// it has one that is neither seen nor pending; returns whether it did.
pub fn push_desktop_preview_output(
    target: &DesktopRecentChatTarget,
    chat_id: &str,
    state: &WatchState,
    buffer: &mut PollOutputBuffer,
) -> (pushed: bool)
    requires
        old(buffer).pending_keys.wf(),
    ensures
        final(buffer).pending_keys.wf(),
        final(buffer).max_outputs == old(buffer).max_outputs,
        pushed == preview_emits(*target, chat_id@, state.seen@, old(buffer).pending_keys@),
        pushed ==> {
            let p = opt_view(target.preview).unwrap();
            let k = dedup_key(chat_id@, preview_message_json(p));
            &&& outputs_view(final(buffer).outputs@) == outputs_view(old(buffer).outputs@).push(
                (k, desktop_output(target.name@, chat_id@, preview_message_json(p))),
            )
            &&& final(buffer).pending_keys@ == old(buffer).pending_keys@.insert(k)
        },
        !pushed ==> *final(buffer) == *old(buffer),
{
    let preview = match &target.preview {
        Some(p) => p,
        None => {
            return false;
        },
    };
    if preview.as_str().is_empty() {
        return false;
    }
    let message = desktop_preview_to_value(preview.as_str());
    let key = message_dedup_key(chat_id, &message);
    if state.seen.contains(key.as_str()) || buffer.pending_keys.contains(key.as_str()) {
        return false;
    }
    buffer.pending_keys.insert(copy_string(&key));
    let meta = WatchTargetMeta {
        target: copy_string(&target.name),
        chat_id: chat_id.to_owned(),
        chat_name: copy_string(&target.name),
    };
    let ghost before = buffer.outputs@;
    let output = crate::watch_friend::build_output_message(&meta, message, None);
    buffer.outputs.push(PendingOutput { key, output });
    assert(outputs_view(buffer.outputs@) =~= outputs_view(before).push(
        (buffer.outputs@.last().key@, jview(buffer.outputs@.last().output)),
    ));
    true
}

/// The texts of desktop messages.
pub open spec fn message_texts(ms: Seq<DesktopChatMessage>) -> Seq<Seq<char>> {
    ms.map_values(|m: DesktopChatMessage| m.text@)
}

/// The JSON messages of desktop messages.
pub open spec fn message_jsons(ms: Seq<DesktopChatMessage>) -> Seq<JsonView> {
    ms.map_values(
        |m: DesktopChatMessage| desktop_message_json(m.key@, m.text@, "macos_accessibility"@),
    )
}

/// The initial preview recorded for a conversation id, if there is one.
pub open spec fn initial_preview_of(previews: Map<Seq<char>, Option<Seq<char>>>, id: Seq<char>) -> Option<
    Seq<char>,
> {
    if previews.contains_key(id) {
        previews[id]
    } else {
        None
    }
}

/// The previous read recorded for a conversation id, if there is one.
pub open spec fn snapshot_of(snapshots: Map<Seq<char>, Seq<Seq<char>>>, id: Seq<char>) -> Option<
    Seq<Seq<char>>,
> {
    if snapshots.contains_key(id) {
        Some(snapshots[id])
    } else {
        None
    }
}

fn previous_texts<'a>(runtime: &'a WatchAllRuntime, chat_id: &str) -> (r: Option<&'a Vec<String>>)
    requires
        runtime.wf(),
    ensures
        match r {
            Some(v) => snapshot_of(snapshot_values(runtime.desktop_snapshots@), chat_id@) == Some(
                string_views(v@),
            ),
            None => snapshot_of(snapshot_values(runtime.desktop_snapshots@), chat_id@) is None,
        },
{
    runtime.desktop_snapshots.get(chat_id)
}

fn initial_preview<'a>(runtime: &'a WatchAllRuntime, chat_id: &str) -> (r: Option<&'a str>)
    requires
        runtime.wf(),
    ensures
        match r {
            Some(t) => initial_preview_of(opt_values(runtime.desktop_initial_previews@), chat_id@)
                == Some(t@),
            None => initial_preview_of(opt_values(runtime.desktop_initial_previews@), chat_id@) is None,
        },
{
    match runtime.desktop_initial_previews.get(chat_id) {
        Some(Some(p)) => Some(p.as_str()),
        _ => None,
    }
}

/// Handles what was read from a recent conversation: the messages after
/// those known from the last read (see [`new_message_start`]) and not
/// printed from the preview are emitted, and the conversation's signature
/// and read are recorded.
pub fn apply_desktop_read(
    runtime: &mut WatchAllRuntime,
    buffer: &mut PollOutputBuffer,
    target: &DesktopRecentChatTarget,
    desktop_messages: Vec<DesktopChatMessage>,
)
    requires
        old(runtime).wf(),
        old(buffer).pending_keys.wf(),
    ensures
        final(runtime).wf(),
        final(buffer).pending_keys.wf(),
        final(buffer).max_outputs == old(buffer).max_outputs,
        ({
            let id = desktop_chat_id_of(target.name@);
            let texts = message_texts(desktop_messages@);
            let start = new_message_start(
                snapshot_of(snapshot_values(old(runtime).desktop_snapshots@), id),
                texts,
                initial_preview_of(opt_values(old(runtime).desktop_initial_previews@), id),
            );
            let (outs, p) = emit_fold(
                message_jsons(desktop_messages@).skip(start),
                old(runtime).state.seen@,
                old(buffer).pending_keys@,
                target.name@,
                id,
                true,
                old(buffer).max_outputs - old(buffer).outputs@.len(),
            );
            &&& outputs_view(final(buffer).outputs@) == outputs_view(old(buffer).outputs@) + outs
            &&& final(buffer).pending_keys@ == p
            &&& str_values(final(runtime).desktop_signatures@) == str_values(
                old(runtime).desktop_signatures@,
            ).insert(id, target.signature@)
            &&& snapshot_values(final(runtime).desktop_snapshots@) == snapshot_values(
                old(runtime).desktop_snapshots@,
            ).insert(id, texts)
            &&& final(runtime).desktop_initial_previews == old(runtime).desktop_initial_previews
            &&& final(runtime).desktop_pending_baseline_targets == old(
                runtime,
            ).desktop_pending_baseline_targets
            &&& final(runtime).state == old(runtime).state
            &&& final(runtime).chat_signatures == old(runtime).chat_signatures
            &&& final(runtime).queue_targets == old(runtime).queue_targets
            &&& final(runtime).pending_baseline_chat_ids == old(runtime).pending_baseline_chat_ids
            &&& final(runtime).desktop_missing_scan_cursor == old(
                runtime,
            ).desktop_missing_scan_cursor
        }),
{
    let chat_id = desktop_chat_id(target.name.as_str());
    let texts = desktop_message_texts(&desktop_messages);
    assert(string_views(texts@) =~= message_texts(desktop_messages@));
    let start = desktop_new_message_start(
        previous_texts(runtime, chat_id.as_str()),
        &texts,
        initial_preview(runtime, chat_id.as_str()),
    );
    let messages = crate::watch_friend::desktop_messages_to_values(desktop_messages);
    proof {
        lemma_new_message_start_bound(
            snapshot_of(snapshot_values(runtime.desktop_snapshots@), desktop_chat_id_of(target.name@)),
            string_views(texts@),
            initial_preview_of(opt_values(runtime.desktop_initial_previews@), desktop_chat_id_of(target.name@)),
        );
        crate::json::lemma_items_view(messages@, messages@.len() as int);
        assert(crate::json::items_view(messages@, messages@.len() as int) =~= message_jsons(
            desktop_messages@,
        ));
    }
    emit_desktop_messages(
        buffer,
        &runtime.state,
        target.name.as_str(),
        chat_id.as_str(),
        &messages,
        start,
        true,
    );
    let ghost sig0 = runtime.desktop_signatures@;
    let ghost snap0 = runtime.desktop_snapshots@;
    runtime.desktop_signatures.insert(copy_string(&chat_id), copy_string(&target.signature));
    runtime.desktop_snapshots.insert(chat_id, texts);
    assert(str_values(runtime.desktop_signatures@) =~= str_values(sig0).insert(
        desktop_chat_id_of(target.name@),
        target.signature@,
    ));
    assert(snapshot_values(runtime.desktop_snapshots@) =~= snapshot_values(snap0).insert(
        desktop_chat_id_of(target.name@),
        message_texts(desktop_messages@),
    ));
}

/// Records the signature of a recent conversation whose change was
/// printed from its preview.
pub fn record_desktop_signature(runtime: &mut WatchAllRuntime, target: &DesktopRecentChatTarget)
    requires
        old(runtime).wf(),
    ensures
        final(runtime).wf(),
        str_values(final(runtime).desktop_signatures@) == str_values(
            old(runtime).desktop_signatures@,
        ).insert(desktop_chat_id_of(target.name@), target.signature@),
        final(runtime).desktop_snapshots == old(runtime).desktop_snapshots,
        final(runtime).desktop_initial_previews == old(runtime).desktop_initial_previews,
        final(runtime).desktop_pending_baseline_targets == old(
            runtime,
        ).desktop_pending_baseline_targets,
        final(runtime).state == old(runtime).state,
        final(runtime).chat_signatures == old(runtime).chat_signatures,
        final(runtime).queue_targets == old(runtime).queue_targets,
        final(runtime).pending_baseline_chat_ids == old(runtime).pending_baseline_chat_ids,
        final(runtime).desktop_missing_scan_cursor == old(runtime).desktop_missing_scan_cursor,
{
    let ghost sig0 = runtime.desktop_signatures@;
    let chat_id = desktop_chat_id(target.name.as_str());
    runtime.desktop_signatures.insert(chat_id, copy_string(&target.signature));
    assert(str_values(runtime.desktop_signatures@) =~= str_values(sig0).insert(
        desktop_chat_id_of(target.name@),
        target.signature@,
    ));
}

/// The first step of a poll of recent conversation `target`: when it
/// changed and the poll is no full sweep, its preview is output as its new
/// message if it can be (see [`preview_emits`]), and then its signature is
/// recorded. Returns whether its messages must still be read; when they
/// must, nothing has changed.
pub fn begin_desktop_target_poll(
    runtime: &mut WatchAllRuntime,
    buffer: &mut PollOutputBuffer,
    target: &DesktopRecentChatTarget,
    force_desktop_sweep: bool,
) -> (needs_read: bool)
    requires
        old(runtime).wf(),
        old(buffer).pending_keys.wf(),
    ensures
        final(runtime).wf(),
        final(buffer).pending_keys.wf(),
        final(buffer).max_outputs == old(buffer).max_outputs,
        ({
            let id = desktop_chat_id_of(target.name@);
            let emitted = target_changed(str_values(old(runtime).desktop_signatures@), *target)
                && !force_desktop_sweep && preview_emits(
                *target,
                id,
                old(runtime).state.seen@,
                old(buffer).pending_keys@,
            );
            &&& needs_read == !emitted
            &&& !emitted ==> *final(runtime) == *old(runtime) && *final(buffer) == *old(buffer)
            &&& emitted ==> {
                let p = opt_view(target.preview).unwrap();
                let k = dedup_key(id, preview_message_json(p));
                &&& outputs_view(final(buffer).outputs@) == outputs_view(old(buffer).outputs@).push(
                    (k, desktop_output(target.name@, id, preview_message_json(p))),
                )
                &&& final(buffer).pending_keys@ == old(buffer).pending_keys@.insert(k)
                &&& str_values(final(runtime).desktop_signatures@) == str_values(
                    old(runtime).desktop_signatures@,
                ).insert(id, target.signature@)
                &&& final(runtime).desktop_snapshots == old(runtime).desktop_snapshots
                &&& final(runtime).desktop_initial_previews == old(runtime).desktop_initial_previews
                &&& final(runtime).desktop_pending_baseline_targets == old(
                    runtime,
                ).desktop_pending_baseline_targets
                &&& final(runtime).state == old(runtime).state
                &&& final(runtime).chat_signatures == old(runtime).chat_signatures
                &&& final(runtime).queue_targets == old(runtime).queue_targets
                &&& final(runtime).pending_baseline_chat_ids == old(
                    runtime,
                ).pending_baseline_chat_ids
                &&& final(runtime).desktop_missing_scan_cursor == old(
                    runtime,
                ).desktop_missing_scan_cursor
            }
        }),
{
    if force_desktop_sweep || !desktop_target_changed(runtime, target) {
        return true;
    }
    let chat_id = desktop_chat_id(target.name.as_str());
    if push_desktop_preview_output(target, chat_id.as_str(), &runtime.state, buffer) {
        record_desktop_signature(runtime, target);
        false
    } else {
        true
    }
}

/// What the first poll's baseline of the recent conversations `ts` does:
/// each conversation, in order, stops waiting for a baseline and has its
/// signature and preview recorded.
pub open spec fn baseline_all_fold(
    ts: Seq<DesktopRecentChatTarget>,
    pending: Set<Seq<char>>,
    sigs: Map<Seq<char>, Seq<char>>,
    previews: Map<Seq<char>, Option<Seq<char>>>,
) -> (Set<Seq<char>>, Map<Seq<char>, Seq<char>>, Map<Seq<char>, Option<Seq<char>>>)
    decreases ts.len(),
{
    if ts.len() == 0 {
        (pending, sigs, previews)
    } else {
        let (p, s, v) = baseline_all_fold(ts.drop_last(), pending, sigs, previews);
        let t = ts.last();
        (
            p.remove(t.name@),
            s.insert(desktop_chat_id_of(t.name@), t.signature@),
            v.insert(desktop_chat_id_of(t.name@), opt_view(t.preview)),
        )
    }
}

/// The first poll takes the baseline of every recent conversation (see
/// [`baseline_all_fold`]); nothing else changes.
pub fn baseline_all_desktop_targets(
    runtime: &mut WatchAllRuntime,
    targets: &Vec<DesktopRecentChatTarget>,
)
    requires
        old(runtime).wf(),
    ensures
        final(runtime).wf(),
        (
            final(runtime).desktop_pending_baseline_targets@,
            str_values(final(runtime).desktop_signatures@),
            opt_values(final(runtime).desktop_initial_previews@),
        ) == baseline_all_fold(
            targets@,
            old(runtime).desktop_pending_baseline_targets@,
            str_values(old(runtime).desktop_signatures@),
            opt_values(old(runtime).desktop_initial_previews@),
        ),
        final(runtime).desktop_snapshots == old(runtime).desktop_snapshots,
        final(runtime).state == old(runtime).state,
        final(runtime).chat_signatures == old(runtime).chat_signatures,
        final(runtime).queue_targets == old(runtime).queue_targets,
        final(runtime).pending_baseline_chat_ids == old(runtime).pending_baseline_chat_ids,
        final(runtime).desktop_missing_scan_cursor == old(runtime).desktop_missing_scan_cursor,
{
    let ghost p0 = runtime.desktop_pending_baseline_targets@;
    let ghost s0 = str_values(runtime.desktop_signatures@);
    let ghost v0 = opt_values(runtime.desktop_initial_previews@);
    let mut i: usize = 0;
    while i < targets.len()
        invariant
            i <= targets@.len(),
            runtime.wf(),
            (
                runtime.desktop_pending_baseline_targets@,
                str_values(runtime.desktop_signatures@),
                opt_values(runtime.desktop_initial_previews@),
            ) == baseline_all_fold(targets@.take(i as int), p0, s0, v0),
            runtime.desktop_snapshots == old(runtime).desktop_snapshots,
            runtime.state == old(runtime).state,
            runtime.chat_signatures == old(runtime).chat_signatures,
            runtime.queue_targets == old(runtime).queue_targets,
            runtime.pending_baseline_chat_ids == old(runtime).pending_baseline_chat_ids,
            runtime.desktop_missing_scan_cursor == old(runtime).desktop_missing_scan_cursor,
        decreases targets@.len() - i,
    {
        let t = &targets[i];
        assert(targets@.take(i + 1).drop_last() =~= targets@.take(i as int));
        assert(targets@.take(i + 1).last() == *t);
        let ghost sb = runtime.desktop_signatures@;
        let ghost vb = runtime.desktop_initial_previews@;
        let chat_id = desktop_chat_id(t.name.as_str());
        runtime.desktop_signatures.insert(copy_string(&chat_id), copy_string(&t.signature));
        runtime.desktop_initial_previews.insert(chat_id, crate::desktop::copy_opt(&t.preview));
        runtime.desktop_pending_baseline_targets.remove(t.name.as_str());
        assert(str_values(runtime.desktop_signatures@) =~= str_values(sb).insert(
            desktop_chat_id_of(t.name@),
            t.signature@,
        ));
        assert(opt_values(runtime.desktop_initial_previews@) =~= opt_values(vb).insert(
            desktop_chat_id_of(t.name@),
            opt_view(t.preview),
        ));
        i += 1;
    }
    assert(targets@.take(targets@.len() as int) =~= targets@);
}

/// Starts reading a watched name directly: it no longer waits for a
/// baseline; returns whether this read is a baseline (nothing was read
/// from it before, or it waited for one).
pub fn begin_direct_queue_read(runtime: &mut WatchAllRuntime, target: &str) -> (needs_baseline:
    bool)
    requires
        old(runtime).wf(),
    ensures
        final(runtime).wf(),
        needs_baseline == (!old(runtime).desktop_snapshots@.contains_key(
            desktop_chat_id_of(target@),
        ) || old(runtime).desktop_pending_baseline_targets@.contains(target@)),
        final(runtime).desktop_pending_baseline_targets@ == old(
            runtime,
        ).desktop_pending_baseline_targets@.remove(target@),
        final(runtime).desktop_signatures == old(runtime).desktop_signatures,
        final(runtime).desktop_snapshots == old(runtime).desktop_snapshots,
        final(runtime).desktop_initial_previews == old(runtime).desktop_initial_previews,
        final(runtime).state == old(runtime).state,
        final(runtime).chat_signatures == old(runtime).chat_signatures,
        final(runtime).queue_targets == old(runtime).queue_targets,
        final(runtime).pending_baseline_chat_ids == old(runtime).pending_baseline_chat_ids,
        final(runtime).desktop_missing_scan_cursor == old(runtime).desktop_missing_scan_cursor,
{
    let chat_id = desktop_chat_id(target);
    let had_snapshot = runtime.desktop_snapshots.contains_key(chat_id.as_str());
    let pending_baseline = runtime.desktop_pending_baseline_targets.remove(target);
    !had_snapshot || pending_baseline
}

/// Handles what a direct read of a watched name gave: unless it is a
/// baseline, the messages after those known from the last read are
/// emitted; the read is recorded and the initial preview forgotten.
pub fn apply_direct_queue_read(
    runtime: &mut WatchAllRuntime,
    buffer: &mut PollOutputBuffer,
    target: &str,
    desktop_messages: Vec<DesktopChatMessage>,
    needs_baseline: bool,
)
    requires
        old(runtime).wf(),
        old(buffer).pending_keys.wf(),
    ensures
        final(runtime).wf(),
        final(buffer).pending_keys.wf(),
        final(buffer).max_outputs == old(buffer).max_outputs,
        ({
            let id = desktop_chat_id_of(target@);
            let texts = message_texts(desktop_messages@);
            let start = if needs_baseline {
                texts.len() as int
            } else {
                new_message_start(
                    snapshot_of(snapshot_values(old(runtime).desktop_snapshots@), id),
                    texts,
                    initial_preview_of(opt_values(old(runtime).desktop_initial_previews@), id),
                )
            };
            let (outs, p) = emit_fold(
                message_jsons(desktop_messages@).skip(start),
                old(runtime).state.seen@,
                old(buffer).pending_keys@,
                target@,
                id,
                false,
                old(buffer).max_outputs - old(buffer).outputs@.len(),
            );
            &&& outputs_view(final(buffer).outputs@) == outputs_view(old(buffer).outputs@) + outs
            &&& final(buffer).pending_keys@ == p
            &&& snapshot_values(final(runtime).desktop_snapshots@) == snapshot_values(
                old(runtime).desktop_snapshots@,
            ).insert(id, texts)
            &&& opt_values(final(runtime).desktop_initial_previews@) == opt_values(
                old(runtime).desktop_initial_previews@,
            ).insert(id, None)
            &&& final(runtime).desktop_signatures == old(runtime).desktop_signatures
            &&& final(runtime).desktop_pending_baseline_targets == old(
                runtime,
            ).desktop_pending_baseline_targets
            &&& final(runtime).state == old(runtime).state
            &&& final(runtime).chat_signatures == old(runtime).chat_signatures
            &&& final(runtime).queue_targets == old(runtime).queue_targets
            &&& final(runtime).pending_baseline_chat_ids == old(runtime).pending_baseline_chat_ids
            &&& final(runtime).desktop_missing_scan_cursor == old(
                runtime,
            ).desktop_missing_scan_cursor
        }),
{
    let chat_id = desktop_chat_id(target);
    let texts = desktop_message_texts(&desktop_messages);
    assert(string_views(texts@) =~= message_texts(desktop_messages@));
    let start = if needs_baseline {
        texts.len()
    } else {
        desktop_new_message_start(
            previous_texts(runtime, chat_id.as_str()),
            &texts,
            initial_preview(runtime, chat_id.as_str()),
        )
    };
    let messages = crate::watch_friend::desktop_messages_to_values(desktop_messages);
    proof {
        lemma_new_message_start_bound(
            snapshot_of(snapshot_values(runtime.desktop_snapshots@), desktop_chat_id_of(target@)),
            string_views(texts@),
            initial_preview_of(opt_values(runtime.desktop_initial_previews@), desktop_chat_id_of(target@)),
        );
        crate::json::lemma_items_view(messages@, messages@.len() as int);
        assert(crate::json::items_view(messages@, messages@.len() as int) =~= message_jsons(
            desktop_messages@,
        ));
    }
    emit_desktop_messages(buffer, &runtime.state, target, chat_id.as_str(), &messages, start, false);
    let ghost snap0 = runtime.desktop_snapshots@;
    let ghost prev0 = runtime.desktop_initial_previews@;
    runtime.desktop_snapshots.insert(copy_string(&chat_id), texts);
    runtime.desktop_initial_previews.insert(chat_id, None);
    assert(snapshot_values(runtime.desktop_snapshots@) =~= snapshot_values(snap0).insert(
        desktop_chat_id_of(target@),
        message_texts(desktop_messages@),
    ));
    assert(opt_values(runtime.desktop_initial_previews@) =~= opt_values(prev0).insert(
        desktop_chat_id_of(target@),
        None,
    ));
}

/// Chooses the watched names that the recent list does not show to read
/// directly in this poll: none when the buffer is full; else the next
/// one in turn, the cursor moving past it (back to the start when none is
/// missing).
pub fn plan_missing_queue_probe(
    runtime: &mut WatchAllRuntime,
    visible_targets: &StringSet,
    buffer_full: bool,
) -> (probe: Vec<String>)
    requires
        old(runtime).wf(),
    ensures
        final(runtime).wf(),
        ({
            let missing = match old(runtime).queue_targets {
                Some(q) => rotated_missing(
                    q.elems(),
                    visible_targets.elems(),
                    old(runtime).desktop_missing_scan_cursor as int,
                ),
                None => Seq::<Seq<char>>::empty(),
            };
            if buffer_full {
                probe@.len() == 0 && *final(runtime) == *old(runtime)
            } else if missing.len() == 0 {
                probe@.len() == 0 && final(runtime).desktop_missing_scan_cursor == 0
            } else {
                &&& string_views(probe@) == missing.take(1)
                &&& final(runtime).desktop_missing_scan_cursor as int == (old(
                    runtime,
                ).desktop_missing_scan_cursor + 1) % (missing.len() as int)
            }
        }),
        buffer_full || {
            &&& final(runtime).state == old(runtime).state
            &&& final(runtime).desktop_signatures == old(runtime).desktop_signatures
            &&& final(runtime).desktop_snapshots == old(runtime).desktop_snapshots
            &&& final(runtime).desktop_initial_previews == old(runtime).desktop_initial_previews
            &&& final(runtime).desktop_pending_baseline_targets == old(
                runtime,
            ).desktop_pending_baseline_targets
            &&& final(runtime).chat_signatures == old(runtime).chat_signatures
            &&& final(runtime).queue_targets == old(runtime).queue_targets
            &&& final(runtime).pending_baseline_chat_ids == old(runtime).pending_baseline_chat_ids
        },
{
    if buffer_full {
        return Vec::new();
    }
    let missing = select_missing_queue_targets(
        runtime.queue_targets.as_ref(),
        visible_targets,
        runtime.desktop_missing_scan_cursor,
    );
    if missing.len() == 0 {
        runtime.desktop_missing_scan_cursor = 0;
        return Vec::new();
    }
    let mut probe: Vec<String> = Vec::new();
    probe.push(copy_string(&missing[0]));
    assert(string_views(probe@) =~= string_views(missing@).take(1));
    runtime.desktop_missing_scan_cursor = next_missing_cursor(
        runtime.desktop_missing_scan_cursor,
        DESKTOP_MISSING_QUEUE_SCAN_PER_POLL,
        missing.len(),
    );
    probe
}

// ---------------------------------------------------------------------
// One poll of the server
// ---------------------------------------------------------------------

/// On the first poll, the conversations active then are taken as a
/// baseline: their messages are marked seen, not printed.
pub fn init_pending_baseline_chat_ids(runtime: &mut WatchAllRuntime, chats: &Vec<ChatSummary>)
    requires
        old(runtime).wf(),
    ensures
        final(runtime).wf(),
        old(runtime).pending_baseline_chat_ids is Some ==> *final(runtime) == *old(runtime),
        old(runtime).pending_baseline_chat_ids is None ==> {
            &&& final(runtime).pending_baseline_chat_ids is Some
            &&& final(runtime).pending_baseline_chat_ids.unwrap()@ == chat_views(chats@).map_values(
                |c: ChatView| c.chat_id,
            ).to_set()
            &&& final(runtime).state == old(runtime).state
            &&& final(runtime).chat_signatures == old(runtime).chat_signatures
            &&& final(runtime).desktop_signatures == old(runtime).desktop_signatures
            &&& final(runtime).desktop_snapshots == old(runtime).desktop_snapshots
            &&& final(runtime).desktop_initial_previews == old(runtime).desktop_initial_previews
            &&& final(runtime).desktop_pending_baseline_targets == old(
                runtime,
            ).desktop_pending_baseline_targets
            &&& final(runtime).queue_targets == old(runtime).queue_targets
            &&& final(runtime).desktop_missing_scan_cursor == old(
                runtime,
            ).desktop_missing_scan_cursor
        },
{
    if runtime.pending_baseline_chat_ids.is_some() {
        return;
    }
    let ghost ids = chat_views(chats@).map_values(|c: ChatView| c.chat_id);
    let mut set = StringSet::new();
    assert(ids.take(0).to_set() =~= Set::<Seq<char>>::empty());
    assert(set@ =~= Set::<Seq<char>>::empty());
    let mut i: usize = 0;
    while i < chats.len()
        invariant
            i <= chats@.len(),
            ids == chat_views(chats@).map_values(|c: ChatView| c.chat_id),
            set.wf(),
            set@ == ids.take(i as int).to_set(),
        decreases chats@.len() - i,
    {
        let ghost x = ids[i as int];
        set.insert(copy_string(&chats[i].chat_id));
        proof {
            assert(ids.take(i + 1) =~= ids.take(i as int) + seq![x]);
            Seq::lemma_to_set_insert_commutes(ids.take(i as int), x);
        }
        i += 1;
    }
    assert(ids.take(chats@.len() as int) =~= ids);
    runtime.pending_baseline_chat_ids = Some(set);
}

/// Whether a server conversation is part of the first poll's baseline.
pub fn is_baseline_chat(runtime: &WatchAllRuntime, chat: &ChatSummary) -> (b: bool)
    ensures
        b == match runtime.pending_baseline_chat_ids {
            Some(ids) => ids.elems().contains(chat@.chat_id),
            None => false,
        },
{
    match &runtime.pending_baseline_chat_ids {
        Some(ids) => ids.contains(chat.chat_id.as_str()),
        None => false,
    }
}

/// Whether a poll fetches a server conversation's messages: for the
/// baseline, or when its signature changed.
pub fn server_chat_should_fetch(runtime: &WatchAllRuntime, chat: &ChatSummary) -> (b: bool)
    requires
        runtime.wf(),
    ensures
        b == ((match runtime.pending_baseline_chat_ids {
            Some(ids) => ids.elems().contains(chat@.chat_id),
            None => false,
        }) || needs_fetch(chat@, sigs_view(runtime.chat_signatures@))),
{
    is_baseline_chat(runtime, chat) || chat_needs_fetch(chat, &runtime.chat_signatures)
}

/// After a server conversation's messages were handled: it leaves the
/// baseline and its signature is recorded.
pub fn finish_server_chat(runtime: &mut WatchAllRuntime, chat: &ChatSummary)
    requires
        old(runtime).wf(),
    ensures
        final(runtime).wf(),
        match (old(runtime).pending_baseline_chat_ids, final(runtime).pending_baseline_chat_ids) {
            (Some(a), Some(b)) => b@ == a@.remove(chat@.chat_id),
            (None, None) => true,
            _ => false,
        },
        sigs_view(final(runtime).chat_signatures@) == match chat_sig(chat@) {
            Some(s) => sigs_view(old(runtime).chat_signatures@).insert(chat@.chat_id, s),
            None => sigs_view(old(runtime).chat_signatures@).remove(chat@.chat_id),
        },
        final(runtime).state == old(runtime).state,
        final(runtime).desktop_signatures == old(runtime).desktop_signatures,
        final(runtime).desktop_snapshots == old(runtime).desktop_snapshots,
        final(runtime).desktop_initial_previews == old(runtime).desktop_initial_previews,
        final(runtime).desktop_pending_baseline_targets == old(
            runtime,
        ).desktop_pending_baseline_targets,
        final(runtime).queue_targets == old(runtime).queue_targets,
        final(runtime).desktop_missing_scan_cursor == old(runtime).desktop_missing_scan_cursor,
{
    let ids = runtime.pending_baseline_chat_ids.take();
    match ids {
        Some(mut s) => {
            s.remove(chat.chat_id.as_str());
            runtime.pending_baseline_chat_ids = Some(s);
        },
        None => {},
    }
    update_chat_signature(&mut runtime.chat_signatures, chat);
}

} // verus!
