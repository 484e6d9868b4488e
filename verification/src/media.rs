//! Media files in tool responses: finding the business text of a tool
//! response, the media item it carries, checking and typing the decoded
//! bytes, naming the saved file, and the concise item that replaces the
//! file's content.
use vstd::prelude::*;

use base64::Engine;

use crate::desktop::opt_view;
use crate::json::{
    entries_view, items_view, jview, lemma_entries_view, lemma_items_view, view_get, JsonNumber,
    JsonValue, JsonView, NumView,
};
use crate::text::{append_str, copy_string, decimal, push_decimal, str_eq, string_from};
use crate::watch_friend::{ref_view, str_get};

verus! {

/// Largest media file that is accepted, in bytes (20 MiB).
pub const INBOUND_MAX_BYTES: usize = 20_971_520;

/// The most numbered names tried when a file name is taken.
pub const MAX_DEDUP_INDEX: u32 = 100;

// ---------------------------------------------------------------------
// The text of a tool response
// ---------------------------------------------------------------------

/// Whether a content item is a text item with a string text.
pub open spec fn is_text_item(item: JsonView) -> bool {
    str_get(item, "type"@) == Some("text"@) && str_get(item, "text"@) is Some
}

/// The index of the first text item among the first `n` items' rest, or
/// the number of items.
pub open spec fn first_text_item(items: Seq<JsonView>, n: int) -> int
    decreases items.len() - n,
{
    if n < 0 || n >= items.len() {
        items.len() as int
    } else if is_text_item(items[n]) {
        n
    } else {
        first_text_item(items, n + 1)
    }
}

/// The text of the first text item of `result.content`, if there is one.
pub open spec fn mcp_text(res: JsonView) -> Option<Seq<char>> {
    match view_get(res, "result"@) {
        Some(r) => match view_get(r, "content"@) {
            Some(JsonView::Array(items)) => {
                let i = first_text_item(items, 0);
                if i < items.len() {
                    str_get(items[i], "text"@)
                } else {
                    None
                }
            },
            _ => None,
        },
        None => None,
    }
}

/// The text of the first text item of a tool response's `result.content`.
pub fn extract_mcp_text(res: &JsonValue) -> (r: Option<String>)
    ensures
        opt_view(r) == mcp_text(jview(*res)),
{
    let items = match res.get("result") {
        Some(result) => match result.get("content") {
            Some(JsonValue::Array(items)) => items,
            _ => {
                return None;
            },
        },
        None => {
            return None;
        },
    };
    let ghost iv = items_view(items@, items@.len() as int);
    proof {
        lemma_items_view(items@, items@.len() as int);
    }
    let mut i: usize = 0;
    while i < items.len()
        invariant
            i <= items@.len(),
            iv == items_view(items@, items@.len() as int),
            iv.len() == items@.len(),
            forall|j: int| 0 <= j < items@.len() ==> #[trigger] iv[j] == jview(items@[j]),
            first_text_item(iv, 0) == first_text_item(iv, i as int),
            mcp_text(jview(*res)) == (if first_text_item(iv, 0) < iv.len() {
                str_get(iv[first_text_item(iv, 0)], "text"@)
            } else {
                None
            }),
        decreases items@.len() - i,
    {
        let item = &items[i];
        let is_text = match item.get("type") {
            Some(JsonValue::Str(t)) => str_eq(t.as_str(), "text"),
            _ => false,
        };
        match item.get("text") {
            Some(JsonValue::Str(text)) => {
                if is_text {
                    return Some(copy_string(text));
                }
            },
            _ => {},
        }
        i += 1;
    }
    None
}

// ---------------------------------------------------------------------
// The media item
// ---------------------------------------------------------------------

/// What the business response of `get_msg_media` says of the media file.
#[derive(Debug, Clone, PartialEq, Eq)]
pub struct MediaPayload {
    pub base64_data: String,
    pub name: Option<String>,
    pub media_type: Option<String>,
    pub media_id: Option<String>,
}

/// Whether the business response reports success: its `errcode` is the
/// integer zero.
pub open spec fn biz_ok(biz: JsonView) -> bool {
    crate::json::view_i64(view_get(biz, "errcode"@)) == Some(0i64)
}

/// The media item of a successful business response that holds base64
/// data: the data, and the name, type and media id when they are strings.
pub open spec fn media_payload_of(biz: JsonView) -> Option<
    (Seq<char>, Option<Seq<char>>, Option<Seq<char>>, Option<Seq<char>>),
> {
    if biz_ok(biz) {
        match view_get(biz, "media_item"@) {
            Some(item) => match str_get(item, "base64_data"@) {
                Some(data) => Some(
                    (
                        data,
                        str_get(item, "name"@),
                        str_get(item, "type"@),
                        str_get(item, "media_id"@),
                    ),
                ),
                None => None,
            },
            None => None,
        }
    } else {
        None
    }
}

fn get_str<'a>(v: &'a JsonValue, key: &str) -> (r: Option<&'a String>)
    ensures
        ref_view(r) == str_get(jview(*v), key@),
{
    match v.get(key) {
        Some(x) => x.as_str(),
        None => None,
    }
}

fn copy_ref(o: Option<&String>) -> (r: Option<String>)
    ensures
        opt_view(r) == ref_view(o),
{
    match o {
        Some(s) => Some(copy_string(s)),
        None => None,
    }
}

/// The media item of a business response, when the response reports
/// success and the item holds base64 data.
pub fn media_payload(biz: &JsonValue) -> (r: Option<MediaPayload>)
    ensures
        match media_payload_of(jview(*biz)) {
            Some((d, n, t, i)) => r is Some && r->Some_0.base64_data@ == d && opt_view(
                r->Some_0.name,
            ) == n && opt_view(r->Some_0.media_type) == t && opt_view(r->Some_0.media_id) == i,
            None => r is None,
        },
{
    let ok = match biz.get("errcode") {
        Some(c) => match c.as_i64() {
            Some(v) => v == 0,
            None => false,
        },
        None => false,
    };
    if !ok {
        return None;
    }
    let item = match biz.get("media_item") {
        Some(item) => item,
        None => {
            return None;
        },
    };
    let data = match get_str(item, "base64_data") {
        Some(d) => copy_string(d),
        None => {
            return None;
        },
    };
    Some(
        MediaPayload {
            base64_data: data,
            name: copy_ref(get_str(item, "name")),
            media_type: copy_ref(get_str(item, "type")),
            media_id: copy_ref(get_str(item, "media_id")),
        },
    )
}

/// Why a media file was refused.
#[derive(Debug, Clone, PartialEq, Eq)]
pub enum MediaError {
    /// The data is not standard base64.
    Base64,
    /// The decoded file is larger than allowed; the size in bytes.
    TooLarge(usize),
}

/// The message of a media error.
pub open spec fn media_error_text(e: MediaError) -> Seq<char> {
    match e {
        MediaError::Base64 => "base64解码失败"@,
        MediaError::TooLarge(n) => "媒体文件过大: "@ + decimal(n as nat) + " 字节 (最大 "@ + decimal(
            INBOUND_MAX_BYTES as nat,
        ) + " 字节)"@,
    }
}

impl MediaError {
    /// The message shown to the user.
    pub fn message(&self) -> (m: String)
        ensures
            m@ == media_error_text(*self),
    {
        match self {
            MediaError::Base64 => "base64解码失败".to_owned(),
            MediaError::TooLarge(n) => {
                let mut v: Vec<char> = Vec::new();
                append_str(&mut v, "媒体文件过大: ");
                push_decimal(&mut v, *n as u64);
                append_str(&mut v, " 字节 (最大 ");
                push_decimal(&mut v, INBOUND_MAX_BYTES as u64);
                append_str(&mut v, " 字节)");
                string_from(&v)
            },
        }
    }
}

/// The bytes of standard base64 text (with padding), as the `base64`
/// crate decodes it; `None` when the text is not valid.
pub uninterp spec fn base64_standard_bytes(text: Seq<char>) -> Option<Seq<u8>>;

/// Decodes standard base64 text (`base64::engine::general_purpose::STANDARD.decode`);
/// the contract only names the result.
#[verifier::external_body]
fn decode_base64(text: &str) -> (r: Option<Vec<u8>>)
    ensures
        match r {
            Some(b) => base64_standard_bytes(text@) == Some(b@),
            None => base64_standard_bytes(text@) is None,
        },
{
    match base64::engine::general_purpose::STANDARD.decode(text) {
        Ok(b) => Some(b),
        Err(_) => None,
    }
}

/// The bytes of a media payload, when its data decodes and is not larger
/// than [`INBOUND_MAX_BYTES`].
pub fn decode_media(payload: &MediaPayload) -> (r: Result<Vec<u8>, MediaError>)
    ensures
        match base64_standard_bytes(payload.base64_data@) {
            None => r == Err::<Vec<u8>, MediaError>(MediaError::Base64),
            Some(b) => if b.len() > INBOUND_MAX_BYTES {
                r == Err::<Vec<u8>, MediaError>(MediaError::TooLarge(b.len() as usize))
            } else {
                r is Ok && r->Ok_0@ == b
            },
        },
{
    match decode_base64(payload.base64_data.as_str()) {
        None => Err(MediaError::Base64),
        Some(b) => {
            if b.len() > INBOUND_MAX_BYTES {
                Err(MediaError::TooLarge(b.len()))
            } else {
                Ok(b)
            }
        },
    }
}

// ---------------------------------------------------------------------
// The type of a media file
// ---------------------------------------------------------------------

/// The extension of a file name (`Path::extension`).
pub uninterp spec fn path_extension(name: Seq<char>) -> Option<Seq<char>>;

/// The extension of a file name (`Path::new(name).extension()`); the
/// contract only names the result.
#[verifier::external_body]
fn extension_of(name: &str) -> (r: Option<String>)
    ensures
        opt_view(r) == path_extension(name@),
{
    match std::path::Path::new(name).extension() {
        Some(e) => match e.to_str() {
            Some(t) => Some(t.to_string()),
            None => None,
        },
        None => None,
    }
}

/// The media type that `mime_guess` gives for an extension, or
/// `application/octet-stream` when it knows none.
pub uninterp spec fn extension_mime(ext: Seq<char>) -> Seq<char>;

/// What `mime_guess::from_ext(ext).first_or_octet_stream()` gives, as
/// text; the contract only names the result.
#[verifier::external_body]
fn mime_from_extension(ext: &str) -> (m: String)
    ensures
        m@ == extension_mime(ext@),
{
    mime_guess::from_ext(ext).first_or_octet_stream().to_string()
}

/// The media type that `infer` recognises from the first bytes of a file,
/// if any.
pub uninterp spec fn magic_mime(bytes: Seq<u8>) -> Option<Seq<char>>;

/// What `infer::get(bytes)` recognises, as its media type; the contract
/// only names the result.
#[verifier::external_body]
fn mime_from_magic(bytes: &Vec<u8>) -> (r: Option<String>)
    ensures
        opt_view(r) == magic_mime(bytes@),
{
    match infer::get(bytes.as_slice()) {
        Some(kind) => Some(kind.mime_type().to_string()),
        None => None,
    }
}

/// The media type of a file: by its name's extension when that is known,
/// else by its first bytes, else `application/octet-stream`.
pub open spec fn detected_mime(name: Option<Seq<char>>, bytes: Seq<u8>) -> Seq<char> {
    let by_name = match name {
        Some(n) => {
            let ext = match path_extension(n) {
                Some(e) => e,
                None => seq![],
            };
            let m = extension_mime(ext);
            if m != "application/octet-stream"@ {
                Some(m)
            } else {
                None
            }
        },
        None => None,
    };
    match by_name {
        Some(m) => m,
        None => match magic_mime(bytes) {
            Some(m) => m,
            None => "application/octet-stream"@,
        },
    }
}

/// Detects the media type of a file from its name, then its first bytes.
pub fn detect_mime(file_name: Option<&str>, buffer: &Vec<u8>) -> (m: String)
    ensures
        m@ == detected_mime(
            match file_name {
                Some(n) => Some(n@),
                None => None,
            },
            buffer@,
        ),
{
    match file_name {
        Some(name) => {
            let ext = match extension_of(name) {
                Some(e) => e,
                None => String::new(),
            };
            let m = mime_from_extension(ext.as_str());
            if !str_eq(m.as_str(), "application/octet-stream") {
                return m;
            }
        },
        None => {},
    }
    match mime_from_magic(buffer) {
        Some(m) => m,
        None => "application/octet-stream".to_owned(),
    }
}

// ---------------------------------------------------------------------
// Saved file names
// ---------------------------------------------------------------------

/// The file name `stem[.index][.ext]`.
pub open spec fn file_name_text(stem: Seq<char>, index: Option<u32>, ext: Seq<char>) -> Seq<char> {
    let numbered = match index {
        Some(i) => stem + seq!['.'] + decimal(i as nat),
        None => stem,
    };
    if ext.len() == 0 {
        numbered
    } else {
        numbered + seq!['.'] + ext
    }
}

/// Builds the file name `stem[.index][.ext]`.
pub fn make_file_name(stem: &str, index: Option<u32>, ext: &str) -> (name: String)
    ensures
        name@ == file_name_text(stem@, index, ext@),
{
    let mut v: Vec<char> = Vec::new();
    append_str(&mut v, stem);
    match index {
        Some(i) => {
            v.push('.');
            push_decimal(&mut v, i as u64);
        },
        None => {},
    }
    if !ext.is_empty() {
        v.push('.');
        append_str(&mut v, ext);
    }
    assert(v@ =~= file_name_text(stem@, index, ext@));
    string_from(&v)
}

/// The first extension that `mime_guess` knows for a media type, if any.
pub uninterp spec fn mime_first_extension(mime: Seq<char>) -> Option<Seq<char>>;

/// The first of `mime_guess::get_mime_extensions_str(mime)`; the contract
/// only names the result.
#[verifier::external_body]
fn first_extension_of(mime: &str) -> (r: Option<String>)
    ensures
        opt_view(r) == mime_first_extension(mime@),
{
    match mime_guess::get_mime_extensions_str(mime) {
        Some(exts) => match exts.first() {
            Some(e) => Some(e.to_string()),
            None => None,
        },
        None => None,
    }
}

/// Whether `c` is a control character (`char::is_control`: categories
/// `Cc`, U+0000 to U+001F and U+007F to U+009F).
pub open spec fn is_control_char(c: char) -> bool {
    (c as u32) <= 0x1F || (0x7F <= (c as u32) && (c as u32) <= 0x9F)
}

/// Whether a character may stay in a file name: no path separator and no
/// control character.
pub open spec fn name_char_kept(c: char) -> bool {
    c != '/' && c != '\\' && !is_control_char(c)
}

/// `s` without its leading `c`s.
pub open spec fn drop_leading(s: Seq<char>, c: char) -> Seq<char>
    decreases s.len(),
{
    if s.len() > 0 && s[0] == c {
        drop_leading(s.drop_first(), c)
    } else {
        s
    }
}

/// `s` without its trailing `c`s.
pub open spec fn drop_trailing(s: Seq<char>, c: char) -> Seq<char>
    decreases s.len(),
{
    if s.len() > 0 && s.last() == c {
        drop_trailing(s.drop_last(), c)
    } else {
        s
    }
}

/// A name made safe to create in a directory: separators and control
/// characters removed, then surrounding whitespace, then surrounding dots;
/// none when nothing is left.
pub open spec fn sanitized_name(name: Seq<char>) -> Option<Seq<char>> {
    let kept = name.filter(|c: char| name_char_kept(c));
    let t = drop_trailing(drop_leading(crate::text::trim(kept), '.'), '.');
    if t.len() == 0 {
        None
    } else {
        Some(t)
    }
}

/// Makes a name safe to create in a directory (see [`sanitized_name`]).
pub fn sanitize_filename(name: &str) -> (r: Option<String>)
    ensures
        opt_view(r) == sanitized_name(name@),
{
    let cs = crate::text::chars_of(name);
    let ghost pred = |c: char| name_char_kept(c);
    let mut kept: Vec<char> = Vec::new();
    let mut i: usize = 0;
    while i < cs.len()
        invariant
            i <= cs@.len(),
            cs@ == name@,
            pred == (|c: char| name_char_kept(c)),
            kept@ == cs@.take(i as int).filter(pred),
        decreases cs@.len() - i,
    {
        proof {
            reveal_with_fuel(Seq::filter, 1);
            assert(cs@.take(i + 1).drop_last() =~= cs@.take(i as int));
            assert(cs@.take(i + 1).last() == cs@[i as int]);
        }
        let c = cs[i];
        let n: u32 = c as u32;
        if c != '/' && c != '\\' && !(n <= 0x1F || (0x7F <= n && n <= 0x9F)) {
            kept.push(c);
        }
        i += 1;
    }
    assert(cs@.take(cs@.len() as int) =~= cs@);
    let t = crate::text::trim_chars(&kept);
    let ghost tv = t@;
    assert(tv.skip(0) =~= tv);
    let mut a: usize = 0;
    while a < t.len() && t[a] == '.'
        invariant
            a <= t@.len(),
            tv == t@,
            drop_leading(tv, '.') == drop_leading(tv.skip(a as int), '.'),
        decreases t@.len() - a,
    {
        assert(tv.skip(a as int).drop_first() =~= tv.skip(a + 1));
        a += 1;
    }
    let mut b: usize = t.len();
    while b > a && t[b - 1] == '.'
        invariant
            a <= b <= t@.len(),
            tv == t@,
            drop_trailing(tv.skip(a as int), '.') == drop_trailing(tv.subrange(a as int, b as int), '.'),
        decreases b,
    {
        assert(tv.subrange(a as int, b as int).drop_last() =~= tv.subrange(a as int, b - 1));
        b -= 1;
    }
    assert(tv.skip(a as int) =~= tv.subrange(a as int, t@.len() as int));
    assert(drop_leading(tv.skip(a as int), '.') == tv.skip(a as int));
    let ghost mid = tv.subrange(a as int, b as int);
    assert(drop_trailing(mid, '.') == mid);
    if b == a {
        assert(mid.len() == 0);
        return None;
    }
    let mut out: Vec<char> = Vec::new();
    let mut k: usize = a;
    while k < b
        invariant
            a <= k <= b <= t@.len(),
            tv == t@,
            out@ == tv.subrange(a as int, k as int),
        decreases b - k,
    {
        out.push(t[k]);
        k += 1;
        assert(out@ =~= tv.subrange(a as int, k as int));
    }
    Some(string_from(&out))
}

/// The stem of a file name (`Path::file_stem`).
pub uninterp spec fn path_file_stem(name: Seq<char>) -> Option<Seq<char>>;

/// The stem of a file name (`Path::new(name).file_stem()`); the contract
/// only names the result.
#[verifier::external_body]
fn file_stem_of(name: &str) -> (r: Option<String>)
    ensures
        opt_view(r) == path_file_stem(name@),
{
    match std::path::Path::new(name).file_stem() {
        Some(s) => match s.to_str() {
            Some(t) => Some(t.to_string()),
            None => None,
        },
        None => None,
    }
}

/// The safe form of an optional name.
pub open spec fn sanitized_opt(o: Option<Seq<char>>) -> Option<Seq<char>> {
    match o {
        Some(n) => sanitized_name(n),
        None => None,
    }
}

/// The stem and the extension of a saved media file: those of the media
/// name made safe, when there is one (the whole name as stem when it has
/// none, no extension when it has none); else the media id made safe, or
/// `media`, with the extension of the media type.
pub open spec fn file_name_parts(
    media_name: Option<Seq<char>>,
    media_id: Option<Seq<char>>,
    content_type: Seq<char>,
) -> (Seq<char>, Seq<char>) {
    match sanitized_opt(media_name) {
        Some(n) => (
            match path_file_stem(n) {
                Some(st) => st,
                None => n,
            },
            match path_extension(n) {
                Some(e) => e,
                None => seq![],
            },
        ),
        None => (
            match sanitized_opt(media_id) {
                Some(i) => i,
                None => "media"@,
            },
            match mime_first_extension(content_type) {
                Some(e) => e,
                None => "bin"@,
            },
        ),
    }
}

/// The stem and the extension under which media is saved (see
/// [`file_name_parts`]).
pub fn determine_file_name(
    media_name: Option<&str>,
    media_id: Option<&str>,
    content_type: &str,
) -> (r: (String, String))
    ensures
        (r.0@, r.1@) == file_name_parts(
            match media_name {
                Some(n) => Some(n@),
                None => None,
            },
            match media_id {
                Some(i) => Some(i@),
                None => None,
            },
            content_type@,
        ),
{
    let safe_name = match media_name {
        Some(n) => sanitize_filename(n),
        None => None,
    };
    if let Some(name) = safe_name {
        let stem = match file_stem_of(name.as_str()) {
            Some(st) => st,
            None => copy_string(&name),
        };
        let ext = match extension_of(name.as_str()) {
            Some(e) => e,
            None => String::new(),
        };
        return (stem, ext);
    }
    let stem = match media_id {
        Some(i) => match sanitize_filename(i) {
            Some(x) => x,
            None => "media".to_owned(),
        },
        None => "media".to_owned(),
    };
    (stem, extension_for_mime(content_type))
}

/// The extension of a file saved without a usable name: the first one
/// known for its media type, else `bin`.
pub fn extension_for_mime(content_type: &str) -> (ext: String)
    ensures
        ext@ == match mime_first_extension(content_type@) {
            Some(e) => e,
            None => "bin"@,
        },
{
    match first_extension_of(content_type) {
        Some(e) => e,
        None => "bin".to_owned(),
    }
}

// ---------------------------------------------------------------------
// The concise media item
// ---------------------------------------------------------------------

/// The item that replaces a saved media file in the response: the media
/// id, the name (the given one, else the saved file's name), the type,
/// where it was saved, its size and media type.
pub open spec fn saved_item_json(
    media_id: Option<Seq<char>>,
    name: Seq<char>,
    media_type: Option<Seq<char>>,
    local_path: Seq<char>,
    size: nat,
    content_type: Seq<char>,
) -> JsonView {
    JsonView::Object(
        seq![
            ("media_id"@, match media_id {
                Some(i) => JsonView::Str(i),
                None => JsonView::Null,
            }),
            ("name"@, JsonView::Str(name)),
            ("type"@, match media_type {
                Some(t) => JsonView::Str(t),
                None => JsonView::Null,
            }),
            ("local_path"@, JsonView::Str(local_path)),
            ("size"@, JsonView::Number(NumView::PosInt(size as u64))),
            ("content_type"@, JsonView::Str(content_type)),
        ],
    )
}

fn opt_str_value(o: &Option<String>) -> (v: JsonValue)
    ensures
        jview(v) == match opt_view(*o) {
            Some(s) => JsonView::Str(s),
            None => JsonView::Null,
        },
{
    match o {
        Some(s) => JsonValue::Str(copy_string(s)),
        None => JsonValue::Null,
    }
}

/// The concise item of a saved media file; `saved_name` is the file name
/// of where it was saved (used when the payload has no name).
pub fn saved_media_item(
    payload: &MediaPayload,
    saved_name: Option<String>,
    local_path: &str,
    size: usize,
    content_type: &str,
) -> (v: JsonValue)
    ensures
        jview(v) == saved_item_json(
            opt_view(payload.media_id),
            match opt_view(payload.name) {
                Some(n) => n,
                None => match opt_view(saved_name) {
                    Some(s) => s,
                    None => "unknown"@,
                },
            },
            opt_view(payload.media_type),
            local_path@,
            size as nat,
            content_type@,
        ),
{
    let name = match &payload.name {
        Some(n) => copy_string(n),
        None => match saved_name {
            Some(s) => s,
            None => "unknown".to_owned(),
        },
    };
    let ghost nv = name@;
    let mut es: Vec<(String, JsonValue)> = Vec::new();
    es.push(("media_id".to_owned(), opt_str_value(&payload.media_id)));
    es.push(("name".to_owned(), JsonValue::Str(name)));
    es.push(("type".to_owned(), opt_str_value(&payload.media_type)));
    es.push(("local_path".to_owned(), JsonValue::Str(local_path.to_owned())));
    es.push(("size".to_owned(), JsonValue::Number(JsonNumber::PosInt(size as u64))));
    es.push(("content_type".to_owned(), JsonValue::Str(content_type.to_owned())));
    proof {
        lemma_entries_view(es@, 6);
        assert(entries_view(es@, 6) =~= saved_item_json(
            opt_view(payload.media_id),
            nv,
            opt_view(payload.media_type),
            local_path@,
            size as nat,
            content_type@,
        )->Object_0);
    }
    JsonValue::Object(es)
}

/// The business response that takes the place of the server's once the file
/// is saved.
pub open spec fn saved_business_json(item: JsonView) -> JsonView {
    JsonView::Object(
        seq![
            ("errcode"@, JsonView::Number(NumView::PosInt(0))),
            ("errmsg"@, JsonView::Str("ok"@)),
            ("media_item"@, item),
        ],
    )
}

/// The tool response that carries the saved item: one text content item
/// holding the business response as compact JSON.
pub open spec fn saved_response_json(item: JsonView) -> JsonView {
    JsonView::Object(
        seq![
            (
                "result"@,
                JsonView::Object(
                    seq![
                        (
                            "content"@,
                            JsonView::Array(
                                seq![
                                    JsonView::Object(
                                        seq![
                                            ("type"@, JsonView::Str("text"@)),
                                            (
                                                "text"@,
                                                JsonView::Str(
                                                    crate::json::json_text(saved_business_json(item)),
                                                ),
                                            ),
                                        ],
                                    ),
                                ],
                            ),
                        ),
                    ],
                ),
            ),
        ],
    )
}

/// The tool response that replaces a media response once its file is
/// saved.
pub fn saved_media_response(item: &JsonValue) -> (v: JsonValue)
    ensures
        jview(v) == saved_response_json(jview(*item)),
{
    let mut biz: Vec<(String, JsonValue)> = Vec::new();
    biz.push(("errcode".to_owned(), JsonValue::Number(JsonNumber::PosInt(0))));
    biz.push(("errmsg".to_owned(), JsonValue::Str("ok".to_owned())));
    biz.push(("media_item".to_owned(), item.deep_copy()));
    proof {
        lemma_entries_view(biz@, 3);
        assert(entries_view(biz@, 3) =~= saved_business_json(jview(*item))->Object_0);
    }
    let text = JsonValue::Object(biz).to_json_string();
    let ghost tv = text@;
    let mut c: Vec<(String, JsonValue)> = Vec::new();
    c.push(("type".to_owned(), JsonValue::Str("text".to_owned())));
    c.push(("text".to_owned(), JsonValue::Str(text)));
    proof {
        lemma_entries_view(c@, 2);
    }
    let cv = JsonValue::Object(c);
    let ghost cvv = jview(cv);
    let mut arr: Vec<JsonValue> = Vec::new();
    arr.push(cv);
    proof {
        lemma_items_view(arr@, 1);
        assert(items_view(arr@, 1) =~= seq![cvv]);
    }
    let av = JsonValue::Array(arr);
    let ghost avv = jview(av);
    let mut r: Vec<(String, JsonValue)> = Vec::new();
    r.push(("content".to_owned(), av));
    proof {
        lemma_entries_view(r@, 1);
        assert(entries_view(r@, 1) =~= seq![("content"@, avv)]);
    }
    let rv = JsonValue::Object(r);
    let ghost rvv = jview(rv);
    let mut top: Vec<(String, JsonValue)> = Vec::new();
    top.push(("result".to_owned(), rv));
    proof {
        lemma_entries_view(top@, 1);
        assert(entries_view(top@, 1) =~= seq![("result"@, rvv)]);
        assert(entries_view(c@, 2) =~= seq![("type"@, JsonView::Str("text"@)), ("text"@, JsonView::Str(tv))]);
    }
    JsonValue::Object(top)
}

} // verus!
