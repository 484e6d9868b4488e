//! Uploading the local files that smart-sheet records name: which paths a
//! batch of records names, what the upload requests carry, how the upload
//! results replace the paths, and the tool schema that admits paths.
use vstd::prelude::*;

use crate::collections::{string_views, StringMap, StringSet};
use crate::desktop::opt_view;
use crate::json::{
    entries_insert, entries_of, entries_remove, entries_view, items_view, jview, lemma_entries_view,
    lemma_items_view, find_key, object_insert, object_remove, JsonValue, JsonView,
};
use crate::text::copy_string;

use base64::Engine;
use crate::watch_friend::str_get;

verus! {

/// Largest image that is uploaded, in bytes (30 MiB).
pub const MAX_IMAGE_SIZE: u64 = 31_457_280;

/// Largest attachment that is uploaded, in bytes (10 MiB).
pub const MAX_FILE_SIZE: u64 = 10_485_760;

/// The document that uploaded images belong to.
#[derive(Debug, Clone, PartialEq, Eq)]
pub enum DocIdentifier {
    DocId(String),
    Url(String),
}

/// Why preparing or finishing an upload failed.
#[derive(Debug, Clone, PartialEq, Eq)]
pub enum DocError {
    /// The parameters name neither a document id nor a document URL.
    MissingDocIdentifier,
    /// The parameters hold no `records` array.
    MissingRecords,
    /// A local file is larger than its kind allows.
    FileTooLarge { path: String, size: u64, max: u64 },
    /// The image upload answered without a URL.
    MissingImageUrl(String),
    /// The file upload answered without a file id.
    MissingFileId(String),
    /// No JSON parameters were given.
    MissingJsonArgs,
}

/// The message of an error, for the errors whose message holds no
/// fractional megabytes.
pub open spec fn doc_error_text(e: DocError) -> Seq<char> {
    match e {
        DocError::MissingDocIdentifier => "参数中缺少 docid 或 url（文档访问链接），上传图片时需要文档标识信息"@,
        DocError::MissingRecords => "参数中缺少 records 数组"@,
        DocError::MissingImageUrl(p) => "图片 "@ + p@ + " 上传失败：返回结果中缺少 url"@,
        DocError::MissingFileId(p) => "文件 "@ + p@ + " 上传失败：返回结果中缺少 fileid"@,
        DocError::FileTooLarge { .. } => seq![],
        DocError::MissingJsonArgs => "请提供 JSON 格式的参数"@,
    }
}

impl DocError {
    /// The message shown to the user (a file that is too large is reported
    /// with its size in megabytes, which the caller writes).
    pub fn message(&self) -> (m: String)
        requires
            !(self is FileTooLarge),
        ensures
            m@ == doc_error_text(*self),
    {
        match self {
            DocError::MissingDocIdentifier => "参数中缺少 docid 或 url（文档访问链接），上传图片时需要文档标识信息".to_owned(),
            DocError::MissingRecords => "参数中缺少 records 数组".to_owned(),
            DocError::MissingImageUrl(p) => {
                let a = crate::desktop::concat_str("图片 ", p.as_str());
                crate::desktop::concat_str(a.as_str(), " 上传失败：返回结果中缺少 url")
            },
            DocError::MissingFileId(p) => {
                let a = crate::desktop::concat_str("文件 ", p.as_str());
                crate::desktop::concat_str(a.as_str(), " 上传失败：返回结果中缺少 fileid")
            },
            DocError::FileTooLarge { .. } => String::new(),
            DocError::MissingJsonArgs => "请提供 JSON 格式的参数".to_owned(),
        }
    }
}

/// The document named by the parameters: a non-empty `docid`, else a
/// non-empty `url` (`true` marks a document id).
pub open spec fn doc_identifier_of(params: JsonView) -> Option<(bool, Seq<char>)> {
    match str_get(params, "docid"@) {
        Some(d) if d.len() > 0 => Some((true, d)),
        _ => match str_get(params, "url"@) {
            Some(u) if u.len() > 0 => Some((false, u)),
            _ => None,
        },
    }
}

/// The form of a document identifier.
pub open spec fn doc_id_view(d: DocIdentifier) -> (bool, Seq<char>) {
    match d {
        DocIdentifier::DocId(s) => (true, s@),
        DocIdentifier::Url(s) => (false, s@),
    }
}

fn get_str<'a>(v: &'a JsonValue, key: &str) -> (r: Option<&'a String>)
    ensures
        crate::watch_friend::ref_view(r) == str_get(jview(*v), key@),
{
    match v.get(key) {
        Some(x) => x.as_str(),
        None => None,
    }
}

/// The document that the parameters name, by id or by URL.
pub fn extract_doc_identifier(params: &JsonValue) -> (r: Result<DocIdentifier, DocError>)
    ensures
        match doc_identifier_of(jview(*params)) {
            Some(d) => r is Ok && doc_id_view(r->Ok_0) == d,
            None => r == Err::<DocIdentifier, DocError>(DocError::MissingDocIdentifier),
        },
{
    match get_str(params, "docid") {
        Some(d) => {
            if !d.as_str().is_empty() {
                return Ok(DocIdentifier::DocId(copy_string(d)));
            }
        },
        None => {},
    }
    match get_str(params, "url") {
        Some(u) => {
            if !u.as_str().is_empty() {
                return Ok(DocIdentifier::Url(copy_string(u)));
            }
        },
        None => {},
    }
    Err(DocError::MissingDocIdentifier)
}

// ---------------------------------------------------------------------
// The paths that records name
// ---------------------------------------------------------------------

/// The strings under `key` of the items.
pub open spec fn paths_in(items: Seq<JsonView>, key: Seq<char>) -> Set<Seq<char>>
    decreases items.len(),
{
    if items.len() == 0 {
        Set::empty()
    } else {
        let rest = paths_in(items.drop_last(), key);
        match str_get(items.last(), key) {
            Some(p) => rest.insert(p),
            None => rest,
        }
    }
}

/// The paths under `key` of the items of a cell that is an array.
pub open spec fn cell_paths(cell: JsonView, key: Seq<char>) -> Set<Seq<char>> {
    match cell {
        JsonView::Array(items) => paths_in(items, key),
        _ => Set::empty(),
    }
}

/// The paths under `key` of the cells of a record's `values`.
pub open spec fn cells_paths(es: Seq<(Seq<char>, JsonView)>, key: Seq<char>) -> Set<Seq<char>>
    decreases es.len(),
{
    if es.len() == 0 {
        Set::empty()
    } else {
        cells_paths(es.drop_last(), key).union(cell_paths(es.last().1, key))
    }
}

/// The paths under `key` that a record names.
pub open spec fn record_paths(r: JsonView, key: Seq<char>) -> Set<Seq<char>> {
    match crate::json::view_get(r, "values"@) {
        Some(JsonView::Object(es)) => cells_paths(es, key),
        _ => Set::empty(),
    }
}

/// The paths under `key` that the records name.
pub open spec fn records_paths(rs: Seq<JsonView>, key: Seq<char>) -> Set<Seq<char>>
    decreases rs.len(),
{
    if rs.len() == 0 {
        Set::empty()
    } else {
        records_paths(rs.drop_last(), key).union(record_paths(rs.last(), key))
    }
}

/// Adds the image and file paths of a cell's items.
pub fn collect_upload_paths(
    cell: &JsonValue,
    image_paths: &mut StringSet,
    file_paths: &mut StringSet,
)
    requires
        old(image_paths).wf(),
        old(file_paths).wf(),
    ensures
        final(image_paths).wf(),
        final(file_paths).wf(),
        final(image_paths)@ == old(image_paths)@.union(cell_paths(jview(*cell), "image_path"@)),
        final(file_paths)@ == old(file_paths)@.union(cell_paths(jview(*cell), "file_path"@)),
{
    let items = match cell {
        JsonValue::Array(items) => items,
        _ => {
            assert(image_paths@ =~= image_paths@.union(Set::<Seq<char>>::empty()));
            assert(file_paths@ =~= file_paths@.union(Set::<Seq<char>>::empty()));
            return;
        },
    };
    let ghost iv = items_view(items@, items@.len() as int);
    proof {
        lemma_items_view(items@, items@.len() as int);
    }
    let ghost i0 = image_paths@;
    let ghost f0 = file_paths@;
    let mut i: usize = 0;
    assert(i0 =~= i0.union(paths_in(iv.take(0), "image_path"@)));
    assert(f0 =~= f0.union(paths_in(iv.take(0), "file_path"@)));
    while i < items.len()
        invariant
            i <= items@.len(),
            iv == items_view(items@, items@.len() as int),
            iv.len() == items@.len(),
            forall|j: int| 0 <= j < items@.len() ==> #[trigger] iv[j] == jview(items@[j]),
            image_paths.wf(),
            file_paths.wf(),
            image_paths@ == i0.union(paths_in(iv.take(i as int), "image_path"@)),
            file_paths@ == f0.union(paths_in(iv.take(i as int), "file_path"@)),
        decreases items@.len() - i,
    {
        let item = &items[i];
        assert(iv.take(i + 1).drop_last() =~= iv.take(i as int));
        assert(iv.take(i + 1).last() == jview(*item));
        let ghost ib = image_paths@;
        let ghost fb = file_paths@;
        match get_str(item, "image_path") {
            Some(p) => {
                image_paths.insert(copy_string(p));
            },
            None => {},
        }
        match get_str(item, "file_path") {
            Some(p) => {
                file_paths.insert(copy_string(p));
            },
            None => {},
        }
        assert(image_paths@ =~= i0.union(paths_in(iv.take(i + 1), "image_path"@)));
        assert(file_paths@ =~= f0.union(paths_in(iv.take(i + 1), "file_path"@)));
        i += 1;
    }
    assert(iv.take(items@.len() as int) =~= iv);
}

/// The image paths and the file paths that the records name, each once.
pub fn collect_record_upload_paths(records: &Vec<JsonValue>) -> (r: (StringSet, StringSet))
    ensures
        r.0.wf(),
        r.1.wf(),
        r.0@ == records_paths(items_view(records@, records@.len() as int), "image_path"@),
        r.1@ == records_paths(items_view(records@, records@.len() as int), "file_path"@),
{
    let ghost rv = items_view(records@, records@.len() as int);
    proof {
        lemma_items_view(records@, records@.len() as int);
    }
    let mut images = StringSet::new();
    let mut files = StringSet::new();
    assert(images@ =~= records_paths(rv.take(0), "image_path"@));
    assert(files@ =~= records_paths(rv.take(0), "file_path"@));
    let mut i: usize = 0;
    while i < records.len()
        invariant
            i <= records@.len(),
            rv == items_view(records@, records@.len() as int),
            rv.len() == records@.len(),
            forall|j: int| 0 <= j < records@.len() ==> #[trigger] rv[j] == jview(records@[j]),
            images.wf(),
            files.wf(),
            images@ == records_paths(rv.take(i as int), "image_path"@),
            files@ == records_paths(rv.take(i as int), "file_path"@),
        decreases records@.len() - i,
    {
        let record = &records[i];
        assert(rv.take(i + 1).drop_last() =~= rv.take(i as int));
        assert(rv.take(i + 1).last() == jview(*record));
        let ghost ib = images@;
        let ghost fb = files@;
        match record.get("values") {
            Some(JsonValue::Object(cells)) => {
                let ghost cv = entries_view(cells@, cells@.len() as int);
                proof {
                    lemma_entries_view(cells@, cells@.len() as int);
                }
                let mut j: usize = 0;
                assert(ib =~= ib.union(cells_paths(cv.take(0), "image_path"@)));
                assert(fb =~= fb.union(cells_paths(cv.take(0), "file_path"@)));
                while j < cells.len()
                    invariant
                        j <= cells@.len(),
                        cv == entries_view(cells@, cells@.len() as int),
                        cv.len() == cells@.len(),
                        forall|q: int|
                            0 <= q < cells@.len() ==> #[trigger] cv[q] == (
                                cells@[q].0@,
                                jview(cells@[q].1),
                            ),
                        images.wf(),
                        files.wf(),
                        images@ == ib.union(cells_paths(cv.take(j as int), "image_path"@)),
                        files@ == fb.union(cells_paths(cv.take(j as int), "file_path"@)),
                    decreases cells@.len() - j,
                {
                    assert(cv.take(j + 1).drop_last() =~= cv.take(j as int));
                    assert(cv.take(j + 1).last() == cv[j as int]);
                    collect_upload_paths(&cells[j].1, &mut images, &mut files);
                    assert(images@ =~= ib.union(cells_paths(cv.take(j + 1), "image_path"@)));
                    assert(files@ =~= fb.union(cells_paths(cv.take(j + 1), "file_path"@)));
                    j += 1;
                }
                assert(cv.take(cells@.len() as int) =~= cv);
            },
            _ => {},
        }
        assert(images@ =~= records_paths(rv.take(i + 1), "image_path"@));
        assert(files@ =~= records_paths(rv.take(i + 1), "file_path"@));
        i += 1;
    }
    assert(rv.take(records@.len() as int) =~= rv);
    (images, files)
}

// ---------------------------------------------------------------------
// Replacing paths by upload results
// ---------------------------------------------------------------------

/// What uploading an image gave: its URL, and the title shown for it.
#[derive(Debug, Clone, PartialEq, Eq)]
pub struct ImageUploadResult {
    pub url: String,
    pub title: Option<String>,
}

/// What uploading a file gave: its file id.
#[derive(Debug, Clone, PartialEq, Eq)]
pub struct FileUploadResult {
    pub fileid: String,
}

/// The image results by path, as their URLs and titles.
pub open spec fn image_results_view(m: Map<Seq<char>, ImageUploadResult>) -> Map<
    Seq<char>,
    (Seq<char>, Option<Seq<char>>),
> {
    m.map_values(|r: ImageUploadResult| (r.url@, opt_view(r.title)))
}

/// The file results by path, as their file ids.
pub open spec fn file_results_view(m: Map<Seq<char>, FileUploadResult>) -> Map<Seq<char>, Seq<char>> {
    m.map_values(|r: FileUploadResult| r.fileid@)
}

/// An item with its local image path replaced by the upload's URL (and
/// title), then its local file path replaced by the upload's file id,
/// where the path was uploaded.
pub open spec fn replaced_item(
    item: JsonView,
    images: Map<Seq<char>, (Seq<char>, Option<Seq<char>>)>,
    files: Map<Seq<char>, Seq<char>>,
) -> JsonView {
    let a = match item {
        JsonView::Object(es) => match str_get(item, "image_path"@) {
            Some(p) => if images.contains_key(p) {
                let es1 = entries_insert(
                    entries_remove(es, "image_path"@),
                    "image_url"@,
                    JsonView::Str(images[p].0),
                );
                JsonView::Object(
                    match images[p].1 {
                        Some(t) => entries_insert(es1, "title"@, JsonView::Str(t)),
                        None => es1,
                    },
                )
            } else {
                item
            },
            None => item,
        },
        _ => item,
    };
    match a {
        JsonView::Object(es) => match str_get(a, "file_path"@) {
            Some(p) => if files.contains_key(p) {
                JsonView::Object(
                    entries_insert(
                        entries_remove(es, "file_path"@),
                        "file_id"@,
                        JsonView::Str(files[p]),
                    ),
                )
            } else {
                a
            },
            None => a,
        },
        _ => a,
    }
}

/// A cell whose items have their uploaded paths replaced.
pub open spec fn replaced_cell(
    cell: JsonView,
    images: Map<Seq<char>, (Seq<char>, Option<Seq<char>>)>,
    files: Map<Seq<char>, Seq<char>>,
) -> JsonView {
    match cell {
        JsonView::Array(items) => JsonView::Array(
            items.map_values(|it: JsonView| replaced_item(it, images, files)),
        ),
        _ => cell,
    }
}

fn replace_item(
    item: JsonValue,
    image_map: &StringMap<ImageUploadResult>,
    file_map: &StringMap<FileUploadResult>,
) -> (r: JsonValue)
    requires
        image_map.wf(),
        file_map.wf(),
    ensures
        jview(r) == replaced_item(
            jview(item),
            image_results_view(image_map@),
            file_results_view(file_map@),
        ),
{
    let ghost iv = jview(item);
    let ghost im = image_results_view(image_map@);
    let ghost fm = file_results_view(file_map@);
    let image_path = match get_str(&item, "image_path") {
        Some(p) => Some(copy_string(p)),
        None => None,
    };
    let a = match item {
        JsonValue::Object(mut es) => {
            match image_path {
                Some(p) => match image_map.get(p.as_str()) {
                    Some(res) => {
                        object_remove(&mut es, "image_path");
                        object_insert(&mut es, "image_url".to_owned(), JsonValue::Str(copy_string(&res.url)));
                        match &res.title {
                            Some(t) => object_insert(&mut es, "title".to_owned(), JsonValue::Str(copy_string(t))),
                            None => {},
                        }
                    },
                    None => {},
                },
                None => {},
            }
            JsonValue::Object(es)
        },
        other => other,
    };
    let ghost av = jview(a);
    assert(av == match iv {
        JsonView::Object(es) => match str_get(iv, "image_path"@) {
            Some(p) => if im.contains_key(p) {
                let es1 = entries_insert(
                    entries_remove(es, "image_path"@),
                    "image_url"@,
                    JsonView::Str(im[p].0),
                );
                JsonView::Object(
                    match im[p].1 {
                        Some(t) => entries_insert(es1, "title"@, JsonView::Str(t)),
                        None => es1,
                    },
                )
            } else {
                iv
            },
            None => iv,
        },
        _ => iv,
    });
    let file_path = match get_str(&a, "file_path") {
        Some(p) => Some(copy_string(p)),
        None => None,
    };
    match a {
        JsonValue::Object(mut es) => {
            match file_path {
                Some(p) => match file_map.get(p.as_str()) {
                    Some(res) => {
                        object_remove(&mut es, "file_path");
                        object_insert(&mut es, "file_id".to_owned(), JsonValue::Str(copy_string(&res.fileid)));
                    },
                    None => {},
                },
                None => {},
            }
            JsonValue::Object(es)
        },
        other => other,
    }
}

/// A cell with the uploaded paths of its items replaced by the results.
pub fn replace_upload_results(
    cell: JsonValue,
    image_map: &StringMap<ImageUploadResult>,
    file_map: &StringMap<FileUploadResult>,
) -> (r: JsonValue)
    requires
        image_map.wf(),
        file_map.wf(),
    ensures
        jview(r) == replaced_cell(
            jview(cell),
            image_results_view(image_map@),
            file_results_view(file_map@),
        ),
{
    let ghost im = image_results_view(image_map@);
    let ghost fm = file_results_view(file_map@);
    match cell {
        JsonValue::Array(items) => {
            let ghost iv = items_view(items@, items@.len() as int);
            proof {
                lemma_items_view(items@, items@.len() as int);
            }
            let mut out: Vec<JsonValue> = Vec::new();
            let mut i: usize = 0;
            while i < items.len()
                invariant
                    i <= items@.len(),
                    image_map.wf(),
                    file_map.wf(),
                    im == image_results_view(image_map@),
                    fm == file_results_view(file_map@),
                    iv == items_view(items@, items@.len() as int),
                    iv.len() == items@.len(),
                    forall|j: int| 0 <= j < items@.len() ==> #[trigger] iv[j] == jview(items@[j]),
                    out@.len() == i,
                    forall|j: int|
                        0 <= j < i ==> jview(#[trigger] out@[j]) == replaced_item(iv[j], im, fm),
                decreases items@.len() - i,
            {
                let r = replace_item(items[i].deep_copy(), image_map, file_map);
                out.push(r);
                i += 1;
            }
            proof {
                lemma_items_view(out@, out@.len() as int);
                assert(items_view(out@, out@.len() as int) =~= iv.map_values(
                    |it: JsonView| replaced_item(it, im, fm),
                ));
            }
            JsonValue::Array(out)
        },
        other => other,
    }
}

/// A record with the cells of its `values` object replaced.
pub open spec fn replaced_record(
    r: JsonView,
    images: Map<Seq<char>, (Seq<char>, Option<Seq<char>>)>,
    files: Map<Seq<char>, Seq<char>>,
) -> JsonView {
    match r {
        JsonView::Object(es) => {
            let i = find_key(es, "values"@);
            if 0 <= i < es.len() {
                match es[i].1 {
                    JsonView::Object(cells) => JsonView::Object(
                        es.update(
                            i,
                            (
                                "values"@,
                                JsonView::Object(
                                    cells.map_values(
                                        |c: (Seq<char>, JsonView)|
                                            (c.0, replaced_cell(c.1, images, files)),
                                    ),
                                ),
                            ),
                        ),
                    ),
                    _ => r,
                }
            } else {
                r
            }
        },
        _ => r,
    }
}

fn replace_cells(
    cells: Vec<(String, JsonValue)>,
    image_map: &StringMap<ImageUploadResult>,
    file_map: &StringMap<FileUploadResult>,
) -> (out: Vec<(String, JsonValue)>)
    requires
        image_map.wf(),
        file_map.wf(),
    ensures
        entries_of(out) == entries_of(cells).map_values(
            |c: (Seq<char>, JsonView)|
                (
                    c.0,
                    replaced_cell(c.1, image_results_view(image_map@), file_results_view(file_map@)),
                ),
        ),
{
    let ghost im = image_results_view(image_map@);
    let ghost fm = file_results_view(file_map@);
    let ghost cv = entries_of(cells);
    proof {
        lemma_entries_view(cells@, cells@.len() as int);
    }
    let mut out: Vec<(String, JsonValue)> = Vec::new();
    let mut i: usize = 0;
    while i < cells.len()
        invariant
            i <= cells@.len(),
            image_map.wf(),
            file_map.wf(),
            im == image_results_view(image_map@),
            fm == file_results_view(file_map@),
            cv == entries_of(cells),
            cv.len() == cells@.len(),
            forall|j: int|
                0 <= j < cells@.len() ==> #[trigger] cv[j] == (cells@[j].0@, jview(cells@[j].1)),
            out@.len() == i,
            forall|j: int|
                0 <= j < i ==> (#[trigger] out@[j]).0@ == cv[j].0 && jview(out@[j].1)
                    == replaced_cell(cv[j].1, im, fm),
        decreases cells@.len() - i,
    {
        let k = copy_string(&cells[i].0);
        let v = replace_upload_results(cells[i].1.deep_copy(), image_map, file_map);
        out.push((k, v));
        i += 1;
    }
    proof {
        lemma_entries_view(out@, out@.len() as int);
        assert(entries_of(out) =~= cv.map_values(
            |c: (Seq<char>, JsonView)| (c.0, replaced_cell(c.1, im, fm)),
        ));
    }
    out
}

/// The records with the uploaded paths of their cells replaced by the
/// upload results.
pub fn replace_record_upload_results(
    records: Vec<JsonValue>,
    image_map: &StringMap<ImageUploadResult>,
    file_map: &StringMap<FileUploadResult>,
) -> (out: Vec<JsonValue>)
    requires
        image_map.wf(),
        file_map.wf(),
    ensures
        out@.len() == records@.len(),
        forall|i: int|
            0 <= i < out@.len() ==> jview(#[trigger] out@[i]) == replaced_record(
                jview(records@[i]),
                image_results_view(image_map@),
                file_results_view(file_map@),
            ),
{
    let ghost im = image_results_view(image_map@);
    let ghost fm = file_results_view(file_map@);
    let mut out: Vec<JsonValue> = Vec::new();
    let mut i: usize = 0;
    while i < records.len()
        invariant
            i <= records@.len(),
            image_map.wf(),
            file_map.wf(),
            im == image_results_view(image_map@),
            fm == file_results_view(file_map@),
            out@.len() == i,
            forall|j: int|
                0 <= j < i ==> jview(#[trigger] out@[j]) == replaced_record(
                    jview(records@[j]),
                    im,
                    fm,
                ),
        decreases records@.len() - i,
    {
        let record = records[i].deep_copy();
        let ghost rv = jview(record);
        let replaced = match record {
            JsonValue::Object(mut es) => {
                let ghost ev = entries_of(es);
                proof {
                    lemma_entries_view(es@, es@.len() as int);
                }
                let mut k: usize = 0;
                while k < es.len() && !crate::text::str_eq(es[k].0.as_str(), "values")
                    invariant
                        k <= es@.len(),
                        ev == entries_of(es),
                        ev.len() == es@.len(),
                        forall|j: int|
                            0 <= j < es@.len() ==> #[trigger] ev[j] == (es@[j].0@, jview(es@[j].1)),
                        forall|j: int| 0 <= j < k ==> ev[j].0 != "values"@,
                    decreases es@.len() - k,
                {
                    k += 1;
                }
                proof {
                    if k < es@.len() {
                        assert(ev[k as int].0 == "values"@);
                    }
                    crate::json::lemma_find_key_at(ev, "values"@, k as int);
                }
                if k < es.len() {
                    let (name, value) = es.remove(k);
                    match value {
                        JsonValue::Object(cells) => {
                            let new_cells = replace_cells(cells, image_map, file_map);
                            es.insert(k, (name, JsonValue::Object(new_cells)));
                            proof {
                                lemma_entries_view(es@, es@.len() as int);
                                assert(entries_of(es) =~= ev.update(
                                    k as int,
                                    (
                                        "values"@,
                                        JsonView::Object(
                                            entries_of(cells).map_values(
                                                |c: (Seq<char>, JsonView)|
                                                    (c.0, replaced_cell(c.1, im, fm)),
                                            ),
                                        ),
                                    ),
                                ));
                            }
                            JsonValue::Object(es)
                        },
                        other => {
                            es.insert(k, (name, other));
                            proof {
                                lemma_entries_view(es@, es@.len() as int);
                                assert(entries_of(es) =~= ev);
                            }
                            JsonValue::Object(es)
                        },
                    }
                } else {
                    JsonValue::Object(es)
                }
            },
            other => other,
        };
        out.push(replaced);
        i += 1;
    }
    out
}

// ---------------------------------------------------------------------
// Upload requests and results
// ---------------------------------------------------------------------

/// The digit of the standard base64 alphabet for a 6-bit value.
pub open spec fn base64_digit(v: int) -> char {
    if v < 26 {
        (65 + v) as char
    } else if v < 52 {
        (97 + v - 26) as char
    } else if v < 62 {
        (48 + v - 52) as char
    } else if v == 62 {
        '+'
    } else {
        '/'
    }
}

/// The standard base64 text (RFC 4648 alphabet, with `=` padding) of some
/// bytes: each group of three bytes as four digits, a last group of one
/// or two bytes as two or three digits and padding.
pub open spec fn base64_standard_text(bytes: Seq<u8>) -> Seq<char>
    decreases bytes.len(),
{
    if bytes.len() == 0 {
        seq![]
    } else if bytes.len() == 1 {
        let b0 = bytes[0] as int;
        seq![base64_digit(b0 / 4), base64_digit((b0 % 4) * 16), '=', '=']
    } else if bytes.len() == 2 {
        let b0 = bytes[0] as int;
        let b1 = bytes[1] as int;
        seq![
            base64_digit(b0 / 4),
            base64_digit((b0 % 4) * 16 + b1 / 16),
            base64_digit((b1 % 16) * 4),
            '=',
        ]
    } else {
        let b0 = bytes[0] as int;
        let b1 = bytes[1] as int;
        let b2 = bytes[2] as int;
        seq![
            base64_digit(b0 / 4),
            base64_digit((b0 % 4) * 16 + b1 / 16),
            base64_digit((b1 % 16) * 4 + b2 / 64),
            base64_digit(b2 % 64),
        ] + base64_standard_text(bytes.skip(3))
    }
}

/// Encodes bytes as standard base64 (`base64::engine::general_purpose::STANDARD.encode`):
/// the contract states the text, as the alphabet and padding of RFC 4648
/// define it.
#[verifier::external_body]
fn encode_base64(data: &Vec<u8>) -> (s: String)
    ensures
        s@ == base64_standard_text(data@),
{
    base64::engine::general_purpose::STANDARD.encode(data)
}

/// The last component of a path when it is a name (`Path::file_name`).
pub uninterp spec fn path_file_name(path: Seq<char>) -> Option<Seq<char>>;

/// The file name of a path (`Path::new(path).file_name()`); the contract
/// only names the result.
#[verifier::external_body]
fn file_name_of(path: &str) -> (r: Option<String>)
    ensures
        opt_view(r) == path_file_name(path@),
{
    match std::path::Path::new(path).file_name() {
        Some(n) => match n.to_str() {
            Some(t) => Some(t.to_string()),
            None => None,
        },
        None => None,
    }
}

/// The content of a local file to upload, in base64, when it is not
/// larger than `max_size` bytes.
pub fn encode_upload(path: &str, data: &Vec<u8>, max_size: u64) -> (r: Result<String, DocError>)
    ensures
        data@.len() > max_size ==> r == Err::<String, DocError>(
            DocError::FileTooLarge { path: r->Err_0->path, size: data@.len() as u64, max: max_size },
        ) && r->Err_0->path@ == path@,
        data@.len() <= max_size ==> r is Ok && r->Ok_0@ == base64_standard_text(data@),
{
    let size = data.len() as u64;
    if size > max_size {
        return Err(DocError::FileTooLarge { path: path.to_owned(), size, max: max_size });
    }
    Ok(encode_base64(data))
}

/// The arguments of an image upload: the content and the document.
pub open spec fn image_upload_args_json(content: Seq<char>, doc: (bool, Seq<char>)) -> JsonView {
    JsonView::Object(
        seq![
            ("base64_content"@, JsonView::Str(content)),
            (if doc.0 {
                "docid"@
            } else {
                "url"@
            }, JsonView::Str(doc.1)),
        ],
    )
}

/// Law: the arguments of an image upload carry the content under
/// `base64_content` and name the document the way the parameters did: a
/// document id under `docid` (and no `url`), a document URL under `url`
/// (and no `docid`).
pub proof fn lemma_image_upload_args_name_the_document(content: Seq<char>, d: DocIdentifier)
    ensures
        ({
            let j = image_upload_args_json(content, doc_id_view(d));
            &&& crate::json::view_get(j, "base64_content"@) == Some(JsonView::Str(content))
            &&& match d {
                DocIdentifier::DocId(id) => crate::json::view_get(j, "docid"@) == Some(
                    JsonView::Str(id@),
                ) && crate::json::view_get(j, "url"@) is None,
                DocIdentifier::Url(u) => crate::json::view_get(j, "url"@) == Some(
                    JsonView::Str(u@),
                ) && crate::json::view_get(j, "docid"@) is None,
            }
        }),
{
    reveal_strlit("base64_content");
    reveal_strlit("docid");
    reveal_strlit("url");
    let j = image_upload_args_json(content, doc_id_view(d));
    let es = j->Object_0;
    assert(es.len() == 2);
    assert("base64_content"@.len() == 14 && "docid"@.len() == 5 && "url"@.len() == 3);
    assert("docid"@ != "url"@);
    crate::json::lemma_find_key_at(es, "base64_content"@, 0);
    match d {
        DocIdentifier::DocId(id) => {
            crate::json::lemma_find_key_at(es, "docid"@, 1);
            crate::json::lemma_find_key_at(es, "url"@, 2);
        },
        DocIdentifier::Url(u) => {
            crate::json::lemma_find_key_at(es, "url"@, 1);
            crate::json::lemma_find_key_at(es, "docid"@, 2);
        },
    }
}

/// Builds the arguments of an image upload (`upload_doc_image`).
pub fn image_upload_args(base64_content: String, doc_id: &DocIdentifier) -> (v: JsonValue)
    ensures
        jview(v) == image_upload_args_json(base64_content@, doc_id_view(*doc_id)),
{
    let ghost c = base64_content@;
    let mut es: Vec<(String, JsonValue)> = Vec::new();
    es.push(("base64_content".to_owned(), JsonValue::Str(base64_content)));
    match doc_id {
        DocIdentifier::DocId(id) => es.push(("docid".to_owned(), JsonValue::Str(copy_string(id)))),
        DocIdentifier::Url(url) => es.push(("url".to_owned(), JsonValue::Str(copy_string(url)))),
    }
    proof {
        lemma_entries_view(es@, 2);
        assert(entries_view(es@, 2) =~= image_upload_args_json(c, doc_id_view(*doc_id))->Object_0);
    }
    JsonValue::Object(es)
}

/// The name under which a file is uploaded: its file name, else `unknown`.
pub open spec fn upload_name(path: Seq<char>) -> Seq<char> {
    match path_file_name(path) {
        Some(n) => n,
        None => "unknown"@,
    }
}

/// Builds the arguments of a file upload (`upload_doc_file`): the file
/// name and the content.
pub fn file_upload_args(path: &str, file_base64_content: String) -> (v: JsonValue)
    ensures
        jview(v) == JsonView::Object(
            seq![
                ("file_name"@, JsonView::Str(upload_name(path@))),
                ("file_base64_content"@, JsonView::Str(file_base64_content@)),
            ],
        ),
{
    let ghost c = file_base64_content@;
    let name = match file_name_of(path) {
        Some(n) => n,
        None => "unknown".to_owned(),
    };
    let mut es: Vec<(String, JsonValue)> = Vec::new();
    es.push(("file_name".to_owned(), JsonValue::Str(name)));
    es.push(("file_base64_content".to_owned(), JsonValue::Str(file_base64_content)));
    proof {
        lemma_entries_view(es@, 2);
        assert(entries_view(es@, 2) =~= seq![
            ("file_name"@, JsonView::Str(upload_name(path@))),
            ("file_base64_content"@, JsonView::Str(c)),
        ]);
    }
    JsonValue::Object(es)
}

/// Reads the answer of an image upload: its URL, which must not be empty,
/// and the path's file name as title.
pub fn image_upload_result(path: &str, res: &JsonValue) -> (r: Result<ImageUploadResult, DocError>)
    ensures
        match str_get(jview(*res), "url"@) {
            Some(u) if u.len() > 0 => r is Ok && r->Ok_0.url@ == u && opt_view(r->Ok_0.title)
                == path_file_name(path@),
            _ => r is Err && r->Err_0 is MissingImageUrl && r->Err_0->MissingImageUrl_0@ == path@,
        },
{
    let url = match get_str(res, "url") {
        Some(u) => copy_string(u),
        None => String::new(),
    };
    if url.as_str().is_empty() {
        return Err(DocError::MissingImageUrl(path.to_owned()));
    }
    Ok(ImageUploadResult { url, title: file_name_of(path) })
}

/// Reads the answer of a file upload: its file id, which must not be
/// empty.
pub fn file_upload_result(path: &str, res: &JsonValue) -> (r: Result<FileUploadResult, DocError>)
    ensures
        match str_get(jview(*res), "fileid"@) {
            Some(f) if f.len() > 0 => r is Ok && r->Ok_0.fileid@ == f,
            _ => r is Err && r->Err_0 is MissingFileId && r->Err_0->MissingFileId_0@ == path@,
        },
{
    let fileid = match get_str(res, "fileid") {
        Some(f) => copy_string(f),
        None => String::new(),
    };
    if fileid.as_str().is_empty() {
        return Err(DocError::MissingFileId(path.to_owned()));
    }
    Ok(FileUploadResult { fileid })
}

// ---------------------------------------------------------------------
// The tool schema that admits local paths
// ---------------------------------------------------------------------

/// The schema of an image cell value that holds a local path.
pub open spec fn image_value_schema() -> JsonView {
    JsonView::Object(
        seq![
            ("description"@, JsonView::Str("图片类型字段的单元值。只需传入本地图片路径，系统自动上传。"@)),
            (
                "properties"@,
                JsonView::Object(
                    seq![
                        (
                            "image_path"@,
                            JsonView::Object(
                                seq![
                                    (
                                        "description"@,
                                        JsonView::Str(
                                            "本地图片文件路径。传入本地图片路径（如 /path/to/image.png 或 ./photo.jpg），系统会自动上传到文档服务器。"@,
                                        ),
                                    ),
                                    ("title"@, JsonView::Str("Image Path"@)),
                                    ("type"@, JsonView::Str("string"@)),
                                ],
                            ),
                        ),
                    ],
                ),
            ),
            ("required"@, JsonView::Array(seq![JsonView::Str("image_path"@)])),
            ("title"@, JsonView::Str("CellImageValue"@)),
            ("type"@, JsonView::Str("object"@)),
        ],
    )
}

/// The schema of an attachment cell value that holds a local path.
pub open spec fn attachment_value_schema() -> JsonView {
    JsonView::Object(
        seq![
            ("description"@, JsonView::Str("附件类型字段的单元值。只需传入本地文件路径，系统自动上传。"@)),
            (
                "properties"@,
                JsonView::Object(
                    seq![
                        (
                            "file_path"@,
                            JsonView::Object(
                                seq![
                                    (
                                        "description"@,
                                        JsonView::Str("传入本地文件路径，系统会自动上传到文档服务器。"@),
                                    ),
                                    ("title"@, JsonView::Str("File Path"@)),
                                    ("type"@, JsonView::Str("string"@)),
                                ],
                            ),
                        ),
                    ],
                ),
            ),
            ("required"@, JsonView::Array(seq![JsonView::Str("file_path"@)])),
            ("title"@, JsonView::Str("CellAttachmentValue"@)),
            ("type"@, JsonView::Str("object"@)),
        ],
    )
}

fn str_value(s: &str) -> (v: JsonValue)
    ensures
        jview(v) == JsonView::Str(s@),
{
    JsonValue::Str(s.to_owned())
}

fn object_of(es: Vec<(String, JsonValue)>) -> (v: JsonValue)
    ensures
        jview(v) == JsonView::Object(entries_of(es)),
{
    JsonValue::Object(es)
}

fn value_schema(
    description: &str,
    path_key: &str,
    path_description: &str,
    path_title: &str,
    title: &str,
) -> (v: JsonValue)
    ensures
        jview(v) == JsonView::Object(
            seq![
                ("description"@, JsonView::Str(description@)),
                (
                    "properties"@,
                    JsonView::Object(
                        seq![
                            (
                                path_key@,
                                JsonView::Object(
                                    seq![
                                        ("description"@, JsonView::Str(path_description@)),
                                        ("title"@, JsonView::Str(path_title@)),
                                        ("type"@, JsonView::Str("string"@)),
                                    ],
                                ),
                            ),
                        ],
                    ),
                ),
                ("required"@, JsonView::Array(seq![JsonView::Str(path_key@)])),
                ("title"@, JsonView::Str(title@)),
                ("type"@, JsonView::Str("object"@)),
            ],
        ),
{
    let mut inner: Vec<(String, JsonValue)> = Vec::new();
    inner.push(("description".to_owned(), str_value(path_description)));
    inner.push(("title".to_owned(), str_value(path_title)));
    inner.push(("type".to_owned(), str_value("string")));
    proof {
        lemma_entries_view(inner@, 3);
        assert(entries_of(inner) =~= seq![
            ("description"@, JsonView::Str(path_description@)),
            ("title"@, JsonView::Str(path_title@)),
            ("type"@, JsonView::Str("string"@)),
        ]);
    }
    let inner_v = object_of(inner);
    let mut props: Vec<(String, JsonValue)> = Vec::new();
    props.push((path_key.to_owned(), inner_v));
    proof {
        lemma_entries_view(props@, 1);
        assert(entries_of(props) =~= seq![(path_key@, jview(inner_v))]);
    }
    let props_v = object_of(props);
    let mut req: Vec<JsonValue> = Vec::new();
    req.push(str_value(path_key));
    proof {
        lemma_items_view(req@, 1);
    }
    let ghost rv = items_view(req@, 1);
    let req_v = JsonValue::Array(req);
    let mut es: Vec<(String, JsonValue)> = Vec::new();
    es.push(("description".to_owned(), str_value(description)));
    es.push(("properties".to_owned(), props_v));
    es.push(("required".to_owned(), req_v));
    es.push(("title".to_owned(), str_value(title)));
    es.push(("type".to_owned(), str_value("object")));
    proof {
        lemma_entries_view(es@, 5);
        assert(rv =~= seq![JsonView::Str(path_key@)]);
        assert(entries_of(es)[1].1 == JsonView::Object(
            seq![
                (
                    path_key@,
                    JsonView::Object(
                        seq![
                            ("description"@, JsonView::Str(path_description@)),
                            ("title"@, JsonView::Str(path_title@)),
                            ("type"@, JsonView::Str("string"@)),
                        ],
                    ),
                ),
            ],
        ));
    }
    let v = object_of(es);
    assert(jview(v)->Object_0 =~= seq![
        ("description"@, JsonView::Str(description@)),
        (
            "properties"@,
            JsonView::Object(
                seq![
                    (
                        path_key@,
                        JsonView::Object(
                            seq![
                                ("description"@, JsonView::Str(path_description@)),
                                ("title"@, JsonView::Str(path_title@)),
                                ("type"@, JsonView::Str("string"@)),
                            ],
                        ),
                    ),
                ],
            ),
        ),
        ("required"@, JsonView::Array(seq![JsonView::Str(path_key@)])),
        ("title"@, JsonView::Str(title@)),
        ("type"@, JsonView::Str("object"@)),
    ]);
    v
}

/// A tool schema with the definition `name` of its input schema's `$defs`
/// set to `def`, when the schema has such an object; else unchanged.
pub open spec fn with_definition(schema: JsonView, name: Seq<char>, def: JsonView) -> JsonView {
    match schema {
        JsonView::Object(es) => {
            let i = find_key(es, "inputSchema"@);
            if 0 <= i < es.len() {
                match es[i].1 {
                    JsonView::Object(es2) => {
                        let j = find_key(es2, "$defs"@);
                        if 0 <= j < es2.len() {
                            match es2[j].1 {
                                JsonView::Object(d) => JsonView::Object(
                                    es.update(
                                        i,
                                        (
                                            "inputSchema"@,
                                            JsonView::Object(
                                                es2.update(
                                                    j,
                                                    (
                                                        "$defs"@,
                                                        JsonView::Object(entries_insert(d, name, def)),
                                                    ),
                                                ),
                                            ),
                                        ),
                                    ),
                                ),
                                _ => schema,
                            }
                        } else {
                            schema
                        }
                    },
                    _ => schema,
                }
            } else {
                schema
            }
        },
        _ => schema,
    }
}

fn position_of(es: &Vec<(String, JsonValue)>, key: &str) -> (k: usize)
    ensures
        k as int == find_key(entries_of(*es), key@),
        k <= es@.len(),
        k < es@.len() ==> es@[k as int].0@ == key@,
{
    let ghost ev = entries_of(*es);
    proof {
        lemma_entries_view(es@, es@.len() as int);
    }
    let mut k: usize = 0;
    while k < es.len() && !crate::text::str_eq(es[k].0.as_str(), key)
        invariant
            k <= es@.len(),
            ev == entries_of(*es),
            ev.len() == es@.len(),
            forall|j: int| 0 <= j < es@.len() ==> #[trigger] ev[j] == (es@[j].0@, jview(es@[j].1)),
            forall|j: int| 0 <= j < k ==> ev[j].0 != key@,
        decreases es@.len() - k,
    {
        k += 1;
    }
    proof {
        if k < es@.len() {
            assert(ev[k as int].0 == key@);
        }
        crate::json::lemma_find_key_at(ev, key@, k as int);
    }
    k
}

fn set_definition(schema: JsonValue, name: &str, def: JsonValue) -> (r: JsonValue)
    ensures
        jview(r) == with_definition(jview(schema), name@, jview(def)),
{
    match schema {
        JsonValue::Object(es) => set_definition_in(es, name, def),
        other => other,
    }
}

fn set_definition_in(es: Vec<(String, JsonValue)>, name: &str, def: JsonValue) -> (r: JsonValue)
    ensures
        jview(r) == with_definition(JsonView::Object(entries_of(es)), name@, jview(def)),
{
    let mut v = es;
    let ghost ev = entries_of(es);
    proof {
        lemma_entries_view(v@, v@.len() as int);
    }
    let i = position_of(&v, "inputSchema");
    if i >= v.len() {
        return JsonValue::Object(v);
    }
    let (k1, input) = v.remove(i);
    let mut es2 = match input {
        JsonValue::Object(es2) => es2,
        other => {
            v.insert(i, (k1, other));
            proof {
                lemma_entries_view(v@, v@.len() as int);
                assert(entries_of(v) =~= ev);
            }
            return JsonValue::Object(v);
        },
    };
    let ghost ev2 = entries_of(es2);
    proof {
        lemma_entries_view(es2@, es2@.len() as int);
    }
    let j = position_of(&es2, "$defs");
    if j >= es2.len() {
        v.insert(i, (k1, JsonValue::Object(es2)));
        proof {
            lemma_entries_view(v@, v@.len() as int);
            assert(entries_of(v) =~= ev);
        }
        return JsonValue::Object(v);
    }
    proof {
        lemma_entries_view(es2@, es2@.len() as int);
    }
    let (k2, defs) = es2.remove(j);
    let new_defs = match defs {
        JsonValue::Object(mut d) => {
            let ghost dv = entries_of(d);
            object_insert(&mut d, name.to_owned(), def);
            es2.insert(j, (k2, JsonValue::Object(d)));
            proof {
                lemma_entries_view(es2@, es2@.len() as int);
                assert(entries_of(es2) =~= ev2.update(
                    j as int,
                    ("$defs"@, JsonView::Object(entries_insert(dv, name@, jview(def)))),
                ));
            }
            true
        },
        other => {
            es2.insert(j, (k2, other));
            proof {
                lemma_entries_view(es2@, es2@.len() as int);
                assert(entries_of(es2) =~= ev2);
            }
            false
        },
    };
    let ghost ev2b = entries_of(es2);
    v.insert(i, (k1, JsonValue::Object(es2)));
    proof {
        lemma_entries_view(v@, v@.len() as int);
        if new_defs {
            assert(entries_of(v) =~= ev.update(i as int, ("inputSchema"@, JsonView::Object(ev2b))));
        } else {
            assert(entries_of(v) =~= ev);
        }
    }
    JsonValue::Object(v)
}

/// The tool schema with image cell values that hold a local path
/// (`CellImageValue` set in the input schema's `$defs`).
pub fn replace_image_value_schema(schema: JsonValue) -> (r: JsonValue)
    ensures
        jview(r) == with_definition(jview(schema), "CellImageValue"@, image_value_schema()),
{
    let def = value_schema(
        "图片类型字段的单元值。只需传入本地图片路径，系统自动上传。",
        "image_path",
        "本地图片文件路径。传入本地图片路径（如 /path/to/image.png 或 ./photo.jpg），系统会自动上传到文档服务器。",
        "Image Path",
        "CellImageValue",
    );
    set_definition(schema, "CellImageValue", def)
}

/// The tool schema with attachment cell values that hold a local path
/// (`CellAttachmentValue` set in the input schema's `$defs`).
pub fn replace_attachment_value_schema(schema: JsonValue) -> (r: JsonValue)
    ensures
        jview(r) == with_definition(
            jview(schema),
            "CellAttachmentValue"@,
            attachment_value_schema(),
        ),
{
    let def = value_schema(
        "附件类型字段的单元值。只需传入本地文件路径，系统自动上传。",
        "file_path",
        "传入本地文件路径，系统会自动上传到文档服务器。",
        "File Path",
        "CellAttachmentValue",
    );
    set_definition(schema, "CellAttachmentValue", def)
}

/// A copy of the records array of the parameters.
pub fn take_records(params: &JsonValue) -> (r: Result<Vec<JsonValue>, DocError>)
    ensures
        match crate::json::view_get(jview(*params), "records"@) {
            Some(JsonView::Array(items)) => r is Ok && items_view(r->Ok_0@, r->Ok_0@.len() as int)
                == items,
            _ => r == Err::<Vec<JsonValue>, DocError>(DocError::MissingRecords),
        },
{
    match params.get("records") {
        Some(JsonValue::Array(items)) => {
            let mut out: Vec<JsonValue> = Vec::new();
            let mut k: usize = 0;
            while k < items.len()
                invariant
                    k <= items@.len(),
                    out@.len() == k,
                    items_view(out@, k as int) == items_view(items@, k as int),
                decreases items@.len() - k,
            {
                let ghost o0 = out@;
                out.push(items[k].deep_copy());
                proof {
                    assert(out@.drop_last() =~= o0);
                    crate::json::lemma_items_view_prefix(out@, o0);
                }
                k += 1;
            }
            Ok(out)
        },
        _ => Err(DocError::MissingRecords),
    }
}

/// The parameters with `records` set to the given records.
pub fn with_records(params: JsonValue, records: Vec<JsonValue>) -> (r: JsonValue)
    ensures
        match jview(params) {
            JsonView::Object(es) => jview(r) == JsonView::Object(
                entries_insert(
                    es,
                    "records"@,
                    JsonView::Array(items_view(records@, records@.len() as int)),
                ),
            ),
            _ => r == params,
        },
{
    match params {
        JsonValue::Object(mut es) => {
            object_insert(&mut es, "records".to_owned(), JsonValue::Array(records));
            JsonValue::Object(es)
        },
        other => other,
    }
}

} // verus!
