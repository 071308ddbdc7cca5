//! What a backend served through Python's fsspec decides: its name and start,
//! where a preview is read from, and how rows of a database table or values
//! of a column become a preview page.
use vstd::prelude::*;
use vstd::utf8::{decode_utf8, encode_utf8, valid_utf8};
use crate::args::{BrowseError, SessionDetails};
use crate::backend::PythonBackend;
use crate::entry::PreviewPage;
use crate::render::{join, join_strings, lines_of, push_line, strings_view, text_lines};
use crate::text::{chars_of, concat2, copy_str, push_str, starts_with, trim_end_char, usize_text};
use crate::text::decimal;
use crate::urls::BrowseErrorView;

verus! {

/// Whether a character is white space in Unicode (the `White_Space` property,
/// which `str::trim` goes by).
pub open spec fn is_white_space(c: char) -> bool {
    let v = c as u32;
    (9 <= v <= 13) || v == 32 || v == 0x85 || v == 0xa0 || v == 0x1680 || (0x2000 <= v <= 0x200a)
        || v == 0x2028 || v == 0x2029 || v == 0x202f || v == 0x205f || v == 0x3000
}

/// Whether a line holds nothing but white space.
pub open spec fn is_blank(line: Seq<char>) -> bool {
    forall|i: int| 0 <= i < line.len() ==> is_white_space(#[trigger] line[i])
}

/// Whether a line holds more than white space.
pub open spec fn has_content() -> spec_fn(Seq<char>) -> bool {
    |l: Seq<char>| !is_blank(l)
}

/// The lines of a text that hold more than white space.
pub open spec fn jsonl_rows(text: Seq<char>) -> Seq<Seq<char>> {
    lines_of(text).filter(has_content())
}

/// At most the first hundred of some rows.
pub open spec fn first_hundred(rows: Seq<Seq<char>>) -> Seq<Seq<char>> {
    if rows.len() > 100 {
        rows.take(100)
    } else {
        rows
    }
}

/// Rows of JSON as one JSON array, a row on each line.
pub open spec fn jsonl_document(rows: Seq<Seq<char>>) -> Seq<char> {
    "[\n"@ + join(rows, ",\n"@) + "\n]"@
}

/// Compact JSON texts of values as the compact text of their array.
pub open spec fn json_array_document(values: Seq<Seq<char>>) -> Seq<char> {
    "["@ + join(values, ","@) + "]"@
}

/// What `FromUtf8Error`'s `to_string` says of bytes that are not UTF-8.
pub uninterp spec fn utf8_error_text(bytes: Seq<u8>) -> Seq<char>;

/// What `serde_json::from_slice` reads from some bytes as an array of JSON
/// values: the compact text of each value (`Value::to_string`), or the text
/// of the error.
pub uninterp spec fn json_array_texts(bytes: Seq<u8>) -> Result<Seq<Seq<char>>, Seq<char>>;

/// `String::from_utf8`: the text the bytes encode when they are valid UTF-8,
/// else the error's text (which is named, not stated).
#[verifier::external_body]
fn utf8_string(data: Vec<u8>) -> (r: Result<String, String>)
    ensures
        match r {
            Ok(s) => valid_utf8(data@) && s@ == decode_utf8(data@),
            Err(e) => !valid_utf8(data@) && e@ == utf8_error_text(data@),
        },
{
    String::from_utf8(data).map_err(|err| err.to_string())
}

/// `serde_json::from_slice` into a vector of JSON values, each given by its
/// compact text (`Value::to_string`); on failure the error's text.  Both are
/// named, not stated.
#[verifier::external_body]
fn json_array_elements(data: &[u8]) -> (r: Result<Vec<String>, String>)
    ensures
        match r {
            Ok(v) => json_array_texts(data@) == Ok::<Seq<Seq<char>>, Seq<char>>(strings_view(v@)),
            Err(e) => json_array_texts(data@) == Err::<Seq<Seq<char>>, Seq<char>>(e@),
        },
{
    let values: Vec<serde_json::Value> = serde_json::from_slice(data).map_err(|err| err.to_string())?;
    Ok(values.iter().map(|value| value.to_string()).collect())
}

/// Whether a character is white space in Unicode.
pub fn white_space(c: char) -> (r: bool)
    ensures
        r == is_white_space(c),
{
    let v = c as u32;
    (9 <= v && v <= 13) || v == 32 || v == 0x85 || v == 0xa0 || v == 0x1680 || (0x2000 <= v && v
        <= 0x200a) || v == 0x2028 || v == 0x2029 || v == 0x202f || v == 0x205f || v == 0x3000
}

/// Whether a line holds nothing but white space (`line.trim().is_empty()`).
pub fn blank(line: &str) -> (r: bool)
    ensures
        r == is_blank(line@),
{
    let cs = chars_of(line);
    let mut i: usize = 0;
    while i < cs.len()
        invariant
            i <= cs@.len(),
            cs@ == line@,
            forall|j: int| 0 <= j < i ==> is_white_space(#[trigger] line@[j]),
        decreases cs@.len() - i,
    {
        if !white_space(cs[i]) {
            return false;
        }
        i = i + 1;
    }
    true
}

/// The bytes of a text in UTF-8.
fn utf8_bytes(s: &String) -> (r: Vec<u8>)
    ensures
        r@ == encode_utf8(s@),
{
    vstd::slice::slice_to_vec(s.as_str().as_bytes())
}

/// The number of rows a JSON-lines page keeps: at most a hundred of the
/// non-blank lines, or none when the bytes are not text.
pub open spec fn jsonl_kept(data: Seq<u8>) -> nat {
    if valid_utf8(data) {
        first_hundred(jsonl_rows(decode_utf8(data))).len()
    } else {
        0
    }
}

/// A preview page of a database table read as JSON lines: the first hundred
/// non-blank lines as a JSON array, whether more rows follow, and the row to
/// read on from; an error when the bytes are not UTF-8.
pub fn jsonl_page(data: Vec<u8>, offset: usize) -> (r: Result<PreviewPage, BrowseError>)
    requires
        offset + jsonl_kept(data@) <= usize::MAX,
    ensures
        match r {
            Ok(p) => {
                let rows = jsonl_rows(decode_utf8(data@));
                &&& valid_utf8(data@)
                &&& p.bytes@ == encode_utf8(jsonl_document(first_hundred(rows)))
                &&& p.has_more == (rows.len() > 100)
                &&& p.next_offset == offset + first_hundred(rows).len()
            },
            Err(e) => !valid_utf8(data@) && e.error_view() == BrowseErrorView::Other(
                utf8_error_text(data@),
            ),
        },
{
    let ghost bytes = data@;
    let text = match utf8_string(data) {
        Ok(t) => t,
        Err(e) => {
            return Err(BrowseError::Other(e));
        },
    };
    let lines = text_lines(text.as_str());
    let ghost lv = strings_view(lines@);
    let mut rows: Vec<String> = Vec::new();
    let mut i: usize = 0;
    while i < lines.len()
        invariant
            i <= lines@.len(),
            lv == strings_view(lines@),
            strings_view(rows@) == lv.take(i as int).filter(has_content()),
        decreases lines@.len() - i,
    {
        let ghost before = strings_view(rows@);
        assert(lv.take(i + 1).drop_last() =~= lv.take(i as int));
        assert(lv.take(i + 1).last() == lines@[i as int]@);
        assert(has_content()(lines@[i as int]@) == !is_blank(lines@[i as int]@));
        proof {
            reveal(Seq::filter);
        }
        if !blank(lines[i].as_str()) {
            push_line(&mut rows, copy_str(lines[i].as_str()));
        }
        i = i + 1;
    }
    assert(lv.take(lines@.len() as int) =~= lv);
    proof {
        reveal(Seq::filter);
    }
    let has_more = rows.len() > 100;
    if has_more {
        let ghost all = strings_view(rows@);
        rows.truncate(100);
        assert(strings_view(rows@) =~= all.take(100));
    }
    let next_offset = offset + rows.len();
    let mut doc = copy_str("[\n");
    push_str(&mut doc, join_strings(&rows, ",\n").as_str());
    push_str(&mut doc, "\n]");
    Ok(PreviewPage { bytes: utf8_bytes(&doc), has_more, next_offset })
}

/// A preview page of a database column read as a JSON array: its first
/// hundred values as a compact JSON array, whether more values follow, and the
/// value to read on from; the parser's error when the bytes hold no array.
pub fn json_array_page(data: Vec<u8>, offset: usize) -> (r: Result<PreviewPage, BrowseError>)
    requires
        offset <= usize::MAX - 100,
    ensures
        match r {
            Ok(p) => json_array_texts(data@) matches Ok(values) && p.bytes@ == encode_utf8(
                json_array_document(first_hundred(values)),
            ) && p.has_more == (values.len() > 100) && p.next_offset == offset + first_hundred(
                values,
            ).len(),
            Err(e) => json_array_texts(data@) matches Err(t) && e.error_view()
                == BrowseErrorView::Other(t),
        },
{
    let mut values = match json_array_elements(data.as_slice()) {
        Ok(v) => v,
        Err(e) => {
            return Err(BrowseError::Other(e));
        },
    };
    let has_more = values.len() > 100;
    if has_more {
        let ghost all = strings_view(values@);
        values.truncate(100);
        assert(strings_view(values@) =~= all.take(100));
    }
    assert(values@.len() <= 100);
    let next_offset = offset + values.len();
    let mut doc = copy_str("[");
    push_str(&mut doc, join_strings(&values, ",").as_str());
    push_str(&mut doc, "]");
    Ok(PreviewPage { bytes: utf8_bytes(&doc), has_more, next_offset })
}

/// Where a preview is read from.
pub enum PreviewSource {
    /// The rows of a table or view, as JSON lines at this path.
    Rows(String),
    /// The values of a column, as a JSON array at this path.
    Column(String),
    /// The bytes of the entry itself.
    Bytes,
}

/// The view of a preview source.
pub enum PreviewSourceView {
    Rows(Seq<char>),
    Column(Seq<char>),
    Bytes,
}

impl PreviewSource {
    pub open spec fn source_view(&self) -> PreviewSourceView {
        match self {
            PreviewSource::Rows(p) => PreviewSourceView::Rows(p@),
            PreviewSource::Column(p) => PreviewSourceView::Column(p@),
            PreviewSource::Bytes => PreviewSourceView::Bytes,
        }
    }
}

/// The query that reads a hundred and one rows or values from `offset`.
pub open spec fn page_query(offset: usize) -> Seq<char> {
    "?limit=101&offset="@ + decimal(offset as nat)
}

impl PythonBackend {
    /// Where the preview of `path` is read from, given the `kind` metadata of
    /// its entry: in a database, a table or view is read as JSON lines and a
    /// column as a JSON array, a hundred and one at a time from `offset`;
    /// anything else is read as bytes.
    pub open spec fn spec_preview_source(
        &self,
        path: Seq<char>,
        offset: usize,
        kind: Option<Seq<char>>,
    ) -> PreviewSourceView {
        if self.database && (kind == Some("table"@) || kind == Some("view"@)) {
            PreviewSourceView::Rows(trim_end_char(path, '/') + ".jsonl"@ + page_query(offset))
        } else if self.database && kind == Some("column"@) {
            PreviewSourceView::Column(path + page_query(offset))
        } else {
            PreviewSourceView::Bytes
        }
    }

    /// Where the preview of `path` is read from.
    pub fn preview_source(&self, path: &str, offset: usize, kind: &Option<String>) -> (r: PreviewSource)
        ensures
            r.source_view() == self.spec_preview_source(
                path@,
                offset,
                match kind {
                    Some(k) => Some(k@),
                    None => None,
                },
            ),
    {
        let ghost kv = match kind {
            Some(k) => Some(k@),
            None => None::<Seq<char>>,
        };
        let (relation, column) = match kind {
            Some(k) => (
                crate::text::str_eq(k.as_str(), "table") || crate::text::str_eq(k.as_str(), "view"),
                crate::text::str_eq(k.as_str(), "column"),
            ),
            None => (false, false),
        };
        proof {
            reveal_strlit("table");
            reveal_strlit("view");
            reveal_strlit("column");
            assert(relation == (kv == Some("table"@) || kv == Some("view"@)));
            assert(column == (kv == Some("column"@)));
        }
        let mut query = copy_str("?limit=101&offset=");
        push_str(&mut query, usize_text(offset).as_str());
        if self.database && relation {
            let mut p = crate::text::trim_end_of(path, '/');
            push_str(&mut p, ".jsonl");
            push_str(&mut p, query.as_str());
            PreviewSource::Rows(p)
        } else if self.database && column {
            PreviewSource::Column(concat2(path, query.as_str()))
        } else {
            PreviewSource::Bytes
        }
    }

    /// The preview page that a read of at most `limit` bytes from `offset`
    /// gave.
    pub fn preview(&self, bytes: Vec<u8>, offset: usize, limit: usize) -> (r: PreviewPage)
        requires
            offset + bytes@.len() <= usize::MAX,
        ensures
            r.bytes@ == bytes@,
            r.has_more == (bytes@.len() == limit),
            r.next_offset == offset + bytes@.len(),
    {
        crate::listing::preview_page_of(bytes, offset, limit)
    }

    /// The backend for a session on `protocol`, given the root marker and the
    /// start path of the filesystem that the session's URL opened: named
    /// `protocol-py`; a database (`db+...`) is browsed from its root marker.
    pub fn new(session: &SessionDetails, protocol: &str, root_marker: &str, start: &str) -> (r: (
        PythonBackend,
        String,
    ))
        ensures
            r.0.name@ == protocol@ + "-py"@,
            r.0.root_marker@ == root_marker@,
            r.0.url@ == session.url@,
            r.0.database == crate::text::is_prefix("db+"@, protocol@),
            r.1@ == (if crate::text::is_prefix("db+"@, protocol@) {
                root_marker@
            } else {
                start@
            }),
    {
        let pc = chars_of(protocol);
        let db = chars_of("db+");
        proof {
            reveal_strlit("db+");
        }
        let database = starts_with(pc.as_slice(), db.as_slice());
        let start = if database {
            copy_str(root_marker)
        } else {
            copy_str(start)
        };
        (
            PythonBackend {
                name: concat2(protocol, "-py"),
                root_marker: copy_str(root_marker),
                url: copy_str(session.url.as_str()),
                database,
            },
            start,
        )
    }
}

} // verus!
