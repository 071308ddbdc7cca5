//! Text shown in the preview pane: names, table cells, text lines and JSON tables.
use vstd::prelude::*;
use crate::entry::pairs_view;
use crate::text::{
    chars_of, concat2, copy_str, decimal, first_index_of, push_char, push_str,
    str_eq, string_of, usize_text,
};

verus! {

/// A path separator, on either kind of system.
pub open spec fn is_sep(c: char) -> bool {
    c == '/' || c == '\\'
}

/// `s` without its trailing separators.
pub open spec fn trim_end_seps(s: Seq<char>) -> Seq<char>
    decreases s.len(),
{
    if s.len() > 0 && is_sep(s.last()) {
        trim_end_seps(s.drop_last())
    } else {
        s
    }
}

/// The part of `s` after its last separator (all of `s` when it has none).
pub open spec fn after_last_sep(s: Seq<char>) -> Seq<char>
    decreases s.len(),
{
    if s.len() == 0 {
        s
    } else if is_sep(s.last()) {
        Seq::empty()
    } else {
        after_last_sep(s.drop_last()).push(s.last())
    }
}

/// The last component of a path, ignoring trailing separators; the whole path
/// when that component is empty.
pub open spec fn basename_of(path: Seq<char>) -> Seq<char> {
    let b = after_last_sep(trim_end_seps(path));
    if b.len() == 0 {
        path
    } else {
        b
    }
}

/// The last component of a path, ignoring trailing `/` or `\`.
pub fn basename(path: &str) -> (r: String)
    ensures
        r@ == basename_of(path@),
{
    let cs = chars_of(path);
    let mut end = cs.len();
    assert(cs@.take(end as int) =~= path@);
    while end > 0 && (cs[end - 1] == '/' || cs[end - 1] == '\\')
        invariant
            end <= cs@.len(),
            trim_end_seps(path@) == trim_end_seps(cs@.take(end as int)),
        decreases end,
    {
        assert(cs@.take(end as int).drop_last() =~= cs@.take(end - 1));
        end = end - 1;
    }
    assert(cs@.take(cs@.len() as int) =~= cs@);
    assert(trim_end_seps(cs@.take(end as int)) == cs@.take(end as int));
    let mut start = end;
    while start > 0 && !(cs[start - 1] == '/' || cs[start - 1] == '\\')
        invariant
            start <= end <= cs@.len(),
            after_last_sep(cs@.take(end as int)) == after_last_sep(cs@.take(start as int))
                + cs@.subrange(start as int, end as int),
        decreases start,
    {
        assert(cs@.take(start as int).drop_last() =~= cs@.take(start - 1));
        assert(cs@.subrange(start - 1, end as int) =~= seq![cs@[start - 1]] + cs@.subrange(
            start as int,
            end as int,
        ));
        start = start - 1;
    }
    assert(after_last_sep(cs@.take(start as int)) =~= Seq::<char>::empty());
    assert(after_last_sep(cs@.take(end as int)) =~= cs@.subrange(start as int, end as int));
    if start == end {
        copy_str(path)
    } else {
        string_of(vstd::slice::slice_subrange(cs.as_slice(), start, end))
    }
}

/// A cell cut to `width` characters, its last one an ellipsis when it is cut.
pub open spec fn truncate_text(s: Seq<char>, width: nat) -> Seq<char> {
    if s.len() <= width {
        s
    } else {
        s.take(if width >= 1 { width - 1 } else { 0 }) + seq!['…']
    }
}

/// A cut cell is never wider than its column (of width at least one), and a
/// cell that fits is left as it is.
pub proof fn law_truncate_fits(s: Seq<char>, width: nat)
    requires
        width >= 1,
    ensures
        truncate_text(s, width).len() <= width,
        s.len() <= width ==> truncate_text(s, width) == s,
        s.len() > width ==> truncate_text(s, width).len() == width && truncate_text(s, width).take(
            width - 1,
        ) == s.take(width - 1),
{
    if s.len() > width {
        let t = truncate_text(s, width);
        assert(t.take(width - 1) =~= s.take(width - 1));
    }
}

/// Cuts a table cell to at most `width` characters, ending it with `…` when cut.
pub fn truncate_cell(value: &str, width: usize) -> (r: String)
    ensures
        r@ == truncate_text(value@, width as nat),
{
    let cs = chars_of(value);
    if cs.len() <= width {
        return copy_str(value);
    }
    let keep = if width >= 1 { width - 1 } else { 0 };
    let mut r = string_of(vstd::slice::slice_subrange(cs.as_slice(), 0, keep));
    push_char(&mut r, '…');
    r
}

/// `s` without a final carriage return.
pub open spec fn strip_cr(s: Seq<char>) -> Seq<char> {
    if s.len() > 0 && s.last() == '\r' {
        s.drop_last()
    } else {
        s
    }
}

/// The lines of a text as `str::lines` gives them: split at each `\n`, a `\r`
/// before it dropped, and no empty line after a final `\n`.
pub open spec fn lines_of(s: Seq<char>) -> Seq<Seq<char>>
    decreases s.len(),
{
    if s.len() == 0 {
        Seq::empty()
    } else {
        match first_index_of(s, '\n') {
            None => seq![s],
            Some(i) => if 0 <= i < s.len() {
                seq![strip_cr(s.take(i))] + lines_of(s.skip(i + 1))
            } else {
                Seq::empty()
            },
        }
    }
}

/// The strings of a vector, each by its characters.
pub open spec fn strings_view(v: Seq<String>) -> Seq<Seq<char>> {
    v.map_values(|s: String| s@)
}

/// Adds a line at the end.
pub fn push_line(lines: &mut Vec<String>, line: String)
    ensures
        strings_view(final(lines)@) == strings_view(old(lines)@).push(line@),
{
    lines.push(line);
    assert(strings_view(lines@) =~= strings_view(old(lines)@).push(line@));
}

/// Adds lines at the end.
pub fn append_lines(lines: &mut Vec<String>, more: Vec<String>)
    ensures
        strings_view(final(lines)@) == strings_view(old(lines)@) + strings_view(more@),
{
    let ghost m = strings_view(more@);
    let mut more = more;
    lines.append(&mut more);
    assert(strings_view(lines@) =~= strings_view(old(lines)@) + m);
}

/// A single line.
pub fn single_line(line: &str) -> (r: Vec<String>)
    ensures
        strings_view(r@) == seq![line@],
{
    let mut r: Vec<String> = Vec::new();
    r.push(copy_str(line));
    assert(strings_view(r@) =~= seq![line@]);
    r
}

/// The lines of a text.
pub fn text_lines(text: &str) -> (r: Vec<String>)
    ensures
        strings_view(r@) == lines_of(text@),
{
    let cs = chars_of(text);
    let mut r: Vec<String> = Vec::new();
    let mut start: usize = 0;
    let ghost whole = text@;
    assert(cs@.skip(0) =~= whole);
    while start < cs.len()
        invariant
            start <= cs@.len(),
            cs@ == whole,
            strings_view(r@) + lines_of(cs@.skip(start as int)) == lines_of(whole),
        decreases cs@.len() - start,
    {
        let ghost rest = cs@.skip(start as int);
        let mut j = start;
        while j < cs.len() && cs[j] != '\n'
            invariant
                start <= j <= cs@.len(),
                forall|t: int| start <= t < j ==> cs@[t] != '\n',
            decreases cs@.len() - j,
        {
            j = j + 1;
        }
        proof {
            crate::args::lemma_first_index(rest, '\n', j - start);
        }
        let mut end = j;
        if j < cs.len() && end > start && cs[end - 1] == '\r' {
            end = end - 1;
        }
        let line = string_of(vstd::slice::slice_subrange(cs.as_slice(), start, end));
        let ghost before = strings_view(r@);
        r.push(line);
        proof {
            assert(strings_view(r@) =~= before.push(line@));
            if j < cs.len() {
                assert(rest.take(j - start) =~= cs@.subrange(start as int, j as int));
                assert(rest.skip(j - start + 1) =~= cs@.skip(j + 1));
                assert(line@ == strip_cr(rest.take(j - start)));
                assert(rest.len() > 0);
                assert(first_index_of(rest, '\n') == Some(j - start));
                assert(lines_of(rest) == seq![line@] + lines_of(cs@.skip(j + 1)));
            } else {
                assert(rest =~= cs@.subrange(start as int, j as int));
                assert(cs@.skip(j as int) =~= Seq::<char>::empty());
            }
        }
        if j < cs.len() {
            start = j + 1;
        } else {
            start = j;
        }
        proof {
            assert(strings_view(r@) + lines_of(cs@.skip(start as int)) =~= lines_of(whole));
        }
    }
    assert(cs@.skip(start as int) =~= Seq::<char>::empty());
    assert(strings_view(r@) =~= lines_of(whole));
    r
}

/// What `String::from_utf8_lossy` makes of some bytes.
pub uninterp spec fn utf8_lossy_text(bytes: Seq<u8>) -> Seq<char>;

/// Decodes bytes as UTF-8, with each invalid sequence replaced by `U+FFFD`
/// (`String::from_utf8_lossy`).  The decoding itself is named, not stated.
#[verifier::external_body]
fn utf8_lossy(bytes: &[u8]) -> (r: String)
    ensures
        r@ == utf8_lossy_text(bytes@),
{
    String::from_utf8_lossy(bytes).into_owned()
}

/// A JSON value as a table cell: its text when it is a string, and its compact
/// serialization.
pub struct JsonCell {
    pub string: Option<String>,
    pub compact: String,
}

/// An element of a JSON array: its members in order when it is an object, and
/// the element as a whole.
pub struct JsonRow {
    pub fields: Option<Vec<(String, JsonCell)>>,
    pub whole: JsonCell,
}

/// The mathematical value of a cell: the string it holds if any, and its
/// compact serialization.
pub type CellView = (Option<Seq<char>>, Seq<char>);

/// The mathematical value of a row: its members if it is an object, and itself.
pub type RowJsonView = (Option<Seq<(Seq<char>, CellView)>>, CellView);

pub open spec fn cell_view(c: JsonCell) -> CellView {
    (
        match c.string {
            Some(s) => Some(s@),
            None => None,
        },
        c.compact@,
    )
}

pub open spec fn row_json_view(r: JsonRow) -> RowJsonView {
    (
        match r.fields {
            Some(f) => Some(f@.map_values(|e: (String, JsonCell)| (e.0@, cell_view(e.1)))),
            None => None,
        },
        cell_view(r.whole),
    )
}

pub open spec fn rows_json_view(rows: Seq<JsonRow>) -> Seq<RowJsonView> {
    rows.map_values(|r: JsonRow| row_json_view(r))
}

/// What `serde_json` reads from some bytes when they hold a JSON array: for each
/// element, its members when it is an object (in `serde_json`'s map order) and
/// for every value met, the string it holds if any and its compact text.
pub uninterp spec fn json_array_rows(bytes: Seq<u8>) -> Option<Seq<RowJsonView>>;

/// What `serde_json::to_string_pretty` prints for the JSON value that some bytes
/// hold; `None` when they hold no JSON value.
pub uninterp spec fn json_pretty_text(bytes: Seq<u8>) -> Option<Seq<char>>;

/// Parses bytes with `serde_json::from_slice` and, when they hold an array,
/// gives each element's members (`Value::as_object`) and, for each value, its
/// string (`Value::as_str`) and compact text (`Value::to_string`).  The result
/// is named, not stated.
#[verifier::external_body]
fn json_rows(bytes: &[u8]) -> (r: Option<Vec<JsonRow>>)
    ensures
        match r {
            Some(rows) => json_array_rows(bytes@) == Some(rows_json_view(rows@)),
            None => json_array_rows(bytes@) is None,
        },
{
    let cell = |v: &serde_json::Value| JsonCell { string: v.as_str().map(str::to_string), compact: v.to_string() };
    let value: serde_json::Value = serde_json::from_slice(bytes).ok()?;
    let items = value.as_array()?;
    Some(items.iter().map(|item| JsonRow {
        fields: item.as_object().map(|m| m.iter().map(|(k, v)| (k.clone(), cell(v))).collect()),
        whole: cell(item),
    }).collect())
}

/// Parses bytes with `serde_json::from_slice` and prints the value with
/// `serde_json::to_string_pretty`; `None` when either fails.  The text is
/// named, not stated.
#[verifier::external_body]
fn json_pretty(bytes: &[u8]) -> (r: Option<String>)
    ensures
        match r {
            Some(t) => json_pretty_text(bytes@) == Some(t@),
            None => json_pretty_text(bytes@) is None,
        },
{
    let value: serde_json::Value = serde_json::from_slice(bytes).ok()?;
    serde_json::to_string_pretty(&value).ok()
}

/// The text of a JSON value in a table: a string as itself, anything else in
/// compact JSON.
pub open spec fn cell_text(c: CellView) -> Seq<char> {
    match c.0 {
        Some(s) => s,
        None => c.1,
    }
}

/// The first member of an object with the given key.
pub open spec fn field_lookup(f: Seq<(Seq<char>, CellView)>, key: Seq<char>) -> Option<CellView>
    decreases f.len(),
{
    if f.len() == 0 {
        None
    } else if f[0].0 == key {
        Some(f[0].1)
    } else {
        field_lookup(f.drop_first(), key)
    }
}

/// The columns of a table: the keys of the first row when it is an object,
/// else a single `value` column.
pub open spec fn table_columns(rows: Seq<RowJsonView>) -> Seq<Seq<char>> {
    match rows[0].0 {
        Some(f) => f.map_values(|e: (Seq<char>, CellView)| e.0),
        None => seq!["value"@],
    }
}

/// The text of a row in a column: the member with that key (`null` when the
/// object lacks it), or the whole value for a row that is not an object.
pub open spec fn cell_at(row: RowJsonView, column: Seq<char>) -> Seq<char> {
    match row.0 {
        Some(f) => match field_lookup(f, column) {
            Some(c) => cell_text(c),
            None => "null"@,
        },
        None => cell_text(row.1),
    }
}

/// The widest cell of a column over the first `n` rows.
pub open spec fn widest_cell(rows: Seq<RowJsonView>, column: Seq<char>, n: int) -> nat
    decreases n,
{
    if n <= 0 {
        0
    } else {
        let w = widest_cell(rows, column, n - 1);
        let here = cell_at(rows[n - 1], column).len();
        if here > w {
            here
        } else {
            w
        }
    }
}

/// The width of a column: its widest cell or its name, at most 24.
pub open spec fn column_width(rows: Seq<RowJsonView>, column: Seq<char>) -> nat {
    let w = widest_cell(rows, column, rows.len() as int);
    let w = if column.len() > w { column.len() } else { w };
    if w > 24 { 24 } else { w }
}

/// `s` padded with spaces on the right to `width` characters.
pub open spec fn pad_right(s: Seq<char>, width: nat) -> Seq<char> {
    if s.len() >= width {
        s
    } else {
        s + Seq::new((width - s.len()) as nat, |i: int| ' ')
    }
}

/// The parts joined with `sep` between them.
pub open spec fn join(parts: Seq<Seq<char>>, sep: Seq<char>) -> Seq<char>
    decreases parts.len(),
{
    if parts.len() == 0 {
        Seq::empty()
    } else if parts.len() == 1 {
        parts[0]
    } else {
        join(parts.drop_last(), sep) + sep + parts.last()
    }
}

/// A table line: each cell cut and padded to its column's width, joined by ` | `.
pub open spec fn table_line(cells: Seq<Seq<char>>, widths: Seq<nat>) -> Seq<char> {
    join(
        Seq::new(cells.len(), |i: int| pad_right(truncate_text(cells[i], widths[i]), widths[i])),
        " | "@,
    )
}

/// The lines of a table for the elements of a JSON array: a header, a rule of
/// dashes, and one line per element; `(no rows)` for an empty array.
pub open spec fn table_lines(rows: Seq<RowJsonView>) -> Seq<Seq<char>> {
    if rows.len() == 0 {
        seq!["(no rows)"@]
    } else {
        let columns = table_columns(rows);
        let widths = columns.map_values(|c: Seq<char>| column_width(rows, c));
        let rule = join(widths.map_values(|w: nat| Seq::new(w, |i: int| '-')), "-+-"@);
        seq![table_line(columns, widths), rule] + rows.map_values(
            |r: RowJsonView| table_line(columns.map_values(|c: Seq<char>| cell_at(r, c)), widths),
        )
    }
}

/// Joins strings with a separator.
pub fn join_strings(parts: &Vec<String>, sep: &str) -> (r: String)
    ensures
        r@ == join(strings_view(parts@), sep@),
{
    let ghost ps = strings_view(parts@);
    let mut r = String::new();
    let mut i: usize = 0;
    while i < parts.len()
        invariant
            i <= parts@.len(),
            ps == strings_view(parts@),
            r@ == join(ps.take(i as int), sep@),
        decreases parts@.len() - i,
    {
        if i > 0 {
            push_str(&mut r, sep);
        }
        push_str(&mut r, parts[i].as_str());
        proof {
            assert(ps.take(i + 1).drop_last() =~= ps.take(i as int));
            if i == 0 {
                assert(r@ =~= ps.take(1)[0]);
            }
        }
        i = i + 1;
    }
    assert(ps.take(parts@.len() as int) =~= ps);
    r
}

/// `c` repeated `n` times.
pub fn repeat_char(c: char, n: usize) -> (r: String)
    ensures
        r@ == Seq::new(n as nat, |i: int| c),
{
    let mut r = String::new();
    let mut i: usize = 0;
    while i < n
        invariant
            i <= n,
            r@ =~= Seq::new(i as nat, |k: int| c),
        decreases n - i,
    {
        push_char(&mut r, c);
        i = i + 1;
    }
    r
}

/// A cell cut and padded to a width.
fn table_cell(value: &str, width: usize) -> (r: String)
    ensures
        r@ == pad_right(truncate_text(value@, width as nat), width as nat),
{
    let mut r = truncate_cell(value, width);
    let n = chars_of(r.as_str()).len();
    if n < width {
        let pad = repeat_char(' ', width - n);
        push_str(&mut r, pad.as_str());
    }
    r
}

/// One table line.
fn format_table_line(cells: &Vec<String>, widths: &Vec<usize>) -> (r: String)
    requires
        cells@.len() == widths@.len(),
    ensures
        r@ == table_line(
            strings_view(cells@),
            widths@.map_values(|w: usize| w as nat),
        ),
{
    let mut parts: Vec<String> = Vec::new();
    let mut i: usize = 0;
    let ghost target = Seq::new(
        cells@.len(),
        |k: int|
            pad_right(
                truncate_text(strings_view(cells@)[k], widths@.map_values(|w: usize| w as nat)[k]),
                widths@.map_values(|w: usize| w as nat)[k],
            ),
    );
    while i < cells.len()
        invariant
            i <= cells@.len(),
            cells@.len() == widths@.len(),
            target.len() == cells@.len(),
            strings_view(parts@) =~= target.take(i as int),
            target == Seq::new(
                cells@.len(),
                |k: int|
                    pad_right(
                        truncate_text(
                            strings_view(cells@)[k],
                            widths@.map_values(|w: usize| w as nat)[k],
                        ),
                        widths@.map_values(|w: usize| w as nat)[k],
                    ),
            ),
        decreases cells@.len() - i,
    {
        let cell = table_cell(cells[i].as_str(), widths[i]);
        assert(target[i as int] == cell@);
        let ghost before = strings_view(parts@);
        parts.push(cell);
        assert(strings_view(parts@) =~= before.push(target[i as int]));
        assert(target.take(i + 1) =~= target.take(i as int).push(target[i as int]));
        i = i + 1;
    }
    assert(target.take(cells@.len() as int) =~= target);
    join_strings(&parts, " | ")
}

/// The text of a JSON cell.
fn json_cell(c: &JsonCell) -> (r: String)
    ensures
        r@ == cell_text(cell_view(*c)),
{
    match &c.string {
        Some(s) => copy_str(s.as_str()),
        None => copy_str(c.compact.as_str()),
    }
}

/// The text of a row in a column.
fn row_cell(row: &JsonRow, column: &str) -> (r: String)
    ensures
        r@ == cell_at(row_json_view(*row), column@),
{
    match &row.fields {
        Some(f) => {
            let ghost fv = f@.map_values(|e: (String, JsonCell)| (e.0@, cell_view(e.1)));
            let mut i: usize = 0;
            assert(fv.skip(0) =~= fv);
            assert(row_json_view(*row).0 == Some(fv));
            while i < f.len()
                invariant
                    i <= f@.len(),
                    fv == f@.map_values(|e: (String, JsonCell)| (e.0@, cell_view(e.1))),
                    field_lookup(fv, column@) == field_lookup(fv.skip(i as int), column@),
                    row_json_view(*row).0 == Some(fv),
                decreases f@.len() - i,
            {
                assert(fv.skip(i as int)[0] == fv[i as int]);
                assert(fv.skip(i as int).drop_first() =~= fv.skip(i + 1));
                if str_eq(f[i].0.as_str(), column) {
                    assert(fv[i as int] == (f@[i as int].0@, cell_view(f@[i as int].1)));
                    assert(field_lookup(fv.skip(i as int), column@) == Some(fv[i as int].1));
                    let found = json_cell(&f[i].1);
                    assert(found@ == cell_text(fv[i as int].1));
                    assert(field_lookup(fv, column@) == Some(fv[i as int].1));
                    let ghost rowv = row_json_view(*row);
                    assert(rowv.0 == Some(fv));
                    assert(cell_at(rowv, column@) == cell_text(fv[i as int].1));
                    return found;
                }
                i = i + 1;
            }
            assert(fv.skip(i as int) =~= Seq::<(Seq<char>, CellView)>::empty());
            copy_str("null")
        },
        None => json_cell(&row.whole),
    }
}

/// The lines of a table for the elements of a JSON array.
pub fn json_table_lines(rows: &Vec<JsonRow>) -> (r: Vec<String>)
    ensures
        strings_view(r@) == table_lines(rows_json_view(rows@)),
{
    let ghost rv = rows_json_view(rows@);
    if rows.len() == 0 {
        let mut r: Vec<String> = Vec::new();
        r.push(copy_str("(no rows)"));
        assert(strings_view(r@) =~= seq!["(no rows)"@]);
        return r;
    }
    // The columns.
    let mut columns: Vec<String> = Vec::new();
    assert(rv[0] == row_json_view(rows@[0]));
    match &rows[0].fields {
        Some(f) => {
            let mut i: usize = 0;
            while i < f.len()
                invariant
                    i <= f@.len(),
                    columns@.len() == i,
                    forall|k: int| 0 <= k < i ==> (#[trigger] columns@[k])@ == f@[k].0@,
                decreases f@.len() - i,
            {
                columns.push(copy_str(f[i].0.as_str()));
                i = i + 1;
            }
            assert(strings_view(columns@) =~= table_columns(rv));
        },
        None => {
            columns.push(copy_str("value"));
            assert(strings_view(columns@) =~= table_columns(rv));
        },
    }
    let ghost cols = strings_view(columns@);
    // The cells, row by row.
    let mut values: Vec<Vec<String>> = Vec::new();
    let mut r_i: usize = 0;
    while r_i < rows.len()
        invariant
            r_i <= rows@.len(),
            rv == rows_json_view(rows@),
            cols == strings_view(columns@),
            values@.len() == r_i,
            forall|a: int|
                0 <= a < r_i ==> strings_view((#[trigger] values@[a])@) == cols.map_values(
                    |c: Seq<char>| cell_at(rv[a], c),
                ),
        decreases rows@.len() - r_i,
    {
        let mut line: Vec<String> = Vec::new();
        let mut c_i: usize = 0;
        while c_i < columns.len()
            invariant
                c_i <= columns@.len(),
                r_i < rows@.len(),
                rv == rows_json_view(rows@),
                cols == strings_view(columns@),
                strings_view(line@) =~= cols.take(c_i as int).map_values(
                    |c: Seq<char>| cell_at(rv[r_i as int], c),
                ),
            decreases columns@.len() - c_i,
        {
            let cell = row_cell(&rows[r_i], columns[c_i].as_str());
            assert(rv[r_i as int] == row_json_view(rows@[r_i as int]));
            assert(cols[c_i as int] == columns@[c_i as int]@);
            let ghost before = strings_view(line@);
            line.push(cell);
            assert(strings_view(line@) =~= before.push(cell@));
            assert(cols.take(c_i + 1) =~= cols.take(c_i as int).push(cols[c_i as int]));
            c_i = c_i + 1;
        }
        assert(cols.take(columns@.len() as int) =~= cols);
        values.push(line);
        r_i = r_i + 1;
    }
    // The widths.
    let mut widths: Vec<usize> = Vec::new();
    let mut c_i: usize = 0;
    while c_i < columns.len()
        invariant
            c_i <= columns@.len(),
            rv == rows_json_view(rows@),
            cols == strings_view(columns@),
            values@.len() == rows@.len(),
            forall|a: int|
                0 <= a < rows@.len() ==> strings_view((#[trigger] values@[a])@) == cols.map_values(
                    |c: Seq<char>| cell_at(rv[a], c),
                ),
            widths@.len() == c_i,
            forall|k: int|
                0 <= k < c_i ==> (#[trigger] widths@[k]) as nat == column_width(rv, cols[k]),
        decreases columns@.len() - c_i,
    {
        let mut w: usize = 0;
        let mut r_j: usize = 0;
        while r_j < values.len()
            invariant
                r_j <= values@.len(),
                c_i < columns@.len(),
                values@.len() == rows@.len(),
                rv == rows_json_view(rows@),
                cols == strings_view(columns@),
                forall|a: int|
                    0 <= a < rows@.len() ==> strings_view((#[trigger] values@[a])@)
                        == cols.map_values(|c: Seq<char>| cell_at(rv[a], c)),
                w as nat == widest_cell(rv, cols[c_i as int], r_j as int),
                w <= 24 || w as nat == widest_cell(rv, cols[c_i as int], r_j as int),
            decreases values@.len() - r_j,
        {
            assert(strings_view(values@[r_j as int]@)[c_i as int] == cell_at(
                rv[r_j as int],
                cols[c_i as int],
            ));
            assert(values@[r_j as int]@[c_i as int]@ == cell_at(rv[r_j as int], cols[c_i as int]));
            let n = chars_of(values[r_j][c_i].as_str()).len();
            if n > w {
                w = n;
            }
            r_j = r_j + 1;
        }
        let name_len = chars_of(columns[c_i].as_str()).len();
        if name_len > w {
            w = name_len;
        }
        if w > 24 {
            w = 24;
        }
        widths.push(w);
        c_i = c_i + 1;
    }
    let ghost wv = widths@.map_values(|w: usize| w as nat);
    assert(wv =~= cols.map_values(|c: Seq<char>| column_width(rv, c)));
    // The lines.
    let mut lines: Vec<String> = Vec::new();
    lines.push(format_table_line(&columns, &widths));
    let mut dashes: Vec<String> = Vec::new();
    let mut k: usize = 0;
    while k < widths.len()
        invariant
            k <= widths@.len(),
            dashes@.len() == k,
            forall|j: int|
                0 <= j < k ==> (#[trigger] dashes@[j])@ == Seq::new(widths@[j] as nat, |i: int| '-'),
        decreases widths@.len() - k,
    {
        dashes.push(repeat_char('-', widths[k]));
        k = k + 1;
    }
    assert(strings_view(dashes@) =~= wv.map_values(|w: nat| Seq::new(w, |i: int| '-')));
    lines.push(join_strings(&dashes, "-+-"));
    let mut r_k: usize = 0;
    while r_k < values.len()
        invariant
            r_k <= values@.len(),
            values@.len() == rows@.len(),
            rv == rows_json_view(rows@),
            cols == strings_view(columns@),
            wv == widths@.map_values(|w: usize| w as nat),
            widths@.len() == columns@.len(),
            forall|a: int|
                0 <= a < rows@.len() ==> strings_view((#[trigger] values@[a])@) == cols.map_values(
                    |c: Seq<char>| cell_at(rv[a], c),
                ),
            lines@.len() == 2 + r_k,
            forall|j: int|
                2 <= j < 2 + r_k ==> (#[trigger] lines@[j])@ == table_line(
                    cols.map_values(|c: Seq<char>| cell_at(rv[j - 2], c)),
                    wv,
                ),
            lines@[0]@ == table_line(cols, wv),
            lines@[1]@ == join(wv.map_values(|w: nat| Seq::new(w, |i: int| '-')), "-+-"@),
        decreases values@.len() - r_k,
    {
        assert(strings_view(values@[r_k as int]@) == cols.map_values(
            |c: Seq<char>| cell_at(rv[r_k as int], c),
        ));
        let line = format_table_line(&values[r_k], &widths);
        lines.push(line);
        assert(lines@[2 + r_k]@ == table_line(
            cols.map_values(|c: Seq<char>| cell_at(rv[r_k as int], c)),
            wv,
        ));
        r_k = r_k + 1;
    }
    assert(strings_view(lines@) =~= table_lines(rv));
    lines
}


/// Whether a byte sequence holds a zero byte.
fn has_zero(bytes: &[u8]) -> (r: bool)
    ensures
        r == bytes@.contains(0u8),
{
    let mut i: usize = 0;
    while i < bytes.len()
        invariant
            i <= bytes@.len(),
            forall|j: int| 0 <= j < i ==> bytes@[j] != 0u8,
        decreases bytes@.len() - i,
    {
        if bytes[i] == 0 {
            assert(bytes@[i as int] == 0u8);
            return true;
        }
        i = i + 1;
    }
    false
}

/// The lines of a preview of some bytes: a note for binary data (a zero
/// byte); for complete data, a table for a JSON array or pretty JSON for other
/// JSON; otherwise the text decoded leniently, at least one line, and `...` after
/// it when the data was cut.
pub open spec fn preview_text_lines(bytes: Seq<u8>, truncated: bool) -> Seq<Seq<char>> {
    if bytes.contains(0u8) {
        seq!["binary file, "@ + decimal(bytes.len()) + " preview bytes"@]
    } else if !truncated && json_array_rows(bytes) is Some {
        table_lines(json_array_rows(bytes)->0)
    } else if !truncated && json_pretty_text(bytes) is Some {
        lines_of(json_pretty_text(bytes)->0)
    } else {
        let lines = lines_of(utf8_lossy_text(bytes));
        let lines = if lines.len() == 0 { seq![Seq::<char>::empty()] } else { lines };
        if truncated { lines.push("..."@) } else { lines }
    }
}

/// The lines that a preview shows for some bytes.
pub fn bytes_to_preview_lines(bytes: &[u8], truncated: bool) -> (r: Vec<String>)
    ensures
        strings_view(r@) == preview_text_lines(bytes@, truncated),
{
    if has_zero(bytes) {
        let mut line = copy_str("binary file, ");
        push_str(&mut line, usize_text(bytes.len()).as_str());
        push_str(&mut line, " preview bytes");
        let mut r: Vec<String> = Vec::new();
        r.push(line);
        assert(strings_view(r@) =~= preview_text_lines(bytes@, truncated));
        return r;
    }
    if !truncated {
        match json_rows(bytes) {
            Some(rows) => {
                return json_table_lines(&rows);
            },
            None => {},
        }
        match json_pretty(bytes) {
            Some(text) => {
                return text_lines(text.as_str());
            },
            None => {},
        }
    }
    let text = utf8_lossy(bytes);
    let mut lines = text_lines(text.as_str());
    if lines.len() == 0 {
        lines.push(String::new());
    }
    if truncated {
        lines.push(copy_str("..."));
    }
    assert(strings_view(lines@) =~= preview_text_lines(bytes@, truncated));
    lines
}

/// What `humantime::format_rfc3339` prints for a time after the Unix epoch.
pub uninterp spec fn rfc3339_text(secs: u64, nanos: u32) -> Seq<char>;

/// The latest second (exclusive) that RFC 3339 text can show: the end of year 9999.
pub open spec fn rfc3339_limit() -> u64 {
    253402300800
}

/// Formats a time as RFC 3339 in UTC with `humantime::format_rfc3339`
/// (fractional seconds only when there are any).  The text is named, not
/// stated; times from year 10000 on are left out, where the formatter fails.
#[verifier::external_body]
fn format_rfc3339(secs: u64, nanos: u32) -> (r: String)
    requires
        secs < rfc3339_limit(),
        nanos < 1000000000,
    ensures
        r@ == rfc3339_text(secs, nanos),
{
    let time = std::time::UNIX_EPOCH + std::time::Duration::new(secs, nanos);
    humantime::format_rfc3339(time).to_string()
}

/// Whether `a` comes before `b` in the order of `str` (by characters).
pub open spec fn seq_lt(a: Seq<char>, b: Seq<char>) -> bool
    decreases a.len(),
{
    if b.len() == 0 {
        false
    } else if a.len() == 0 {
        true
    } else if (a[0] as u32) < (b[0] as u32) {
        true
    } else if a[0] == b[0] {
        seq_lt(a.drop_first(), b.drop_first())
    } else {
        false
    }
}

/// Whether `a` comes before `b` in the order of `str`.
pub fn str_lt(a: &[char], b: &[char]) -> (r: bool)
    ensures
        r == seq_lt(a@, b@),
{
    let mut i: usize = 0;
    assert(a@.skip(0) =~= a@);
    assert(b@.skip(0) =~= b@);
    while i < a.len() && i < b.len() && a[i] == b[i]
        invariant
            i <= a@.len(),
            i <= b@.len(),
            seq_lt(a@, b@) == seq_lt(a@.skip(i as int), b@.skip(i as int)),
        decreases a@.len() - i,
    {
        assert(a@.skip(i as int).drop_first() =~= a@.skip(i + 1));
        assert(b@.skip(i as int).drop_first() =~= b@.skip(i + 1));
        i = i + 1;
    }
    if i == b.len() {
        return false;
    }
    if i == a.len() {
        return true;
    }
    assert(a@.skip(i as int)[0] == a@[i as int]);
    assert(b@.skip(i as int)[0] == b@[i as int]);
    (a[i] as u32) < (b[i] as u32)
}

/// Inserts `x` into `sorted` after every pair whose key is not after its key.
pub open spec fn insert_by_key(sorted: Seq<(Seq<char>, Seq<char>)>, x: (Seq<char>, Seq<char>)) -> Seq<
    (Seq<char>, Seq<char>),
>
    decreases sorted.len(),
{
    if sorted.len() > 0 && seq_lt(x.0, sorted.last().0) {
        insert_by_key(sorted.drop_last(), x).push(sorted.last())
    } else {
        sorted.push(x)
    }
}

/// The pairs in the order of their keys; pairs with equal keys keep their order.
pub open spec fn sort_by_key(s: Seq<(Seq<char>, Seq<char>)>) -> Seq<(Seq<char>, Seq<char>)>
    decreases s.len(),
{
    if s.len() == 0 {
        s
    } else {
        insert_by_key(sort_by_key(s.drop_last()), s.last())
    }
}

/// Inserting after the last position whose key is not after the new key.
proof fn lemma_insert_by_key_at(
    sorted: Seq<(Seq<char>, Seq<char>)>,
    x: (Seq<char>, Seq<char>),
    j: int,
)
    requires
        0 <= j <= sorted.len(),
        forall|i: int| j <= i < sorted.len() ==> seq_lt(x.0, (#[trigger] sorted[i]).0),
        j == 0 || !seq_lt(x.0, sorted[j - 1].0),
    ensures
        insert_by_key(sorted, x) == sorted.take(j) + seq![x] + sorted.skip(j),
    decreases sorted.len(),
{
    if sorted.len() > j {
        lemma_insert_by_key_at(sorted.drop_last(), x, j);
        assert(sorted.drop_last().take(j) =~= sorted.take(j));
        assert(sorted.take(j) + seq![x] + sorted.skip(j) =~= (sorted.drop_last().take(j) + seq![x]
            + sorted.drop_last().skip(j)).push(sorted.last()));
    } else {
        assert(sorted.take(j) =~= sorted);
        assert(sorted.skip(j) =~= Seq::<(Seq<char>, Seq<char>)>::empty());
    }
}

/// Sorts key/value pairs by key, keeping the order of pairs with equal keys.
pub fn sort_pairs(pairs: &Vec<(String, String)>) -> (r: Vec<(String, String)>)
    ensures
        pairs_view(r@) == sort_by_key(pairs_view(pairs@)),
{
    let ghost pv = pairs_view(pairs@);
    let mut sorted: Vec<(String, String)> = Vec::new();
    let mut i: usize = 0;
    while i < pairs.len()
        invariant
            i <= pairs@.len(),
            pv == pairs_view(pairs@),
            pairs_view(sorted@) == sort_by_key(pv.take(i as int)),
        decreases pairs@.len() - i,
    {
        let key = chars_of(pairs[i].0.as_str());
        let ghost x = pv[i as int];
        let ghost sv = pairs_view(sorted@);
        let mut j = sorted.len();
        while j > 0 && str_lt(key.as_slice(), chars_of(sorted[j - 1].0.as_str()).as_slice())
            invariant
                j <= sorted@.len(),
                sv == pairs_view(sorted@),
                key@ == x.0,
                forall|t: int| j <= t < sv.len() ==> seq_lt(x.0, (#[trigger] sv[t]).0),
            decreases j,
        {
            j = j - 1;
        }
        proof {
            lemma_insert_by_key_at(sv, x, j as int);
            assert(pv.take(i + 1).drop_last() =~= pv.take(i as int));
        }
        let item = (copy_str(pairs[i].0.as_str()), copy_str(pairs[i].1.as_str()));
        sorted.insert(j, item);
        assert(pairs_view(sorted@) =~= sv.take(j as int) + seq![x] + sv.skip(j as int));
        i = i + 1;
    }
    assert(pv.take(pairs@.len() as int) =~= pv);
    sorted
}

/// A time fits what RFC 3339 text can show.
pub open spec fn time_ok(t: Option<crate::entry::Timestamp>) -> bool {
    t matches Some(t) ==> t.secs < rfc3339_limit() && t.nanos < 1000000000
}

/// Whether a time fits what RFC 3339 text can show.
pub fn time_fits(t: Option<crate::entry::Timestamp>) -> (r: bool)
    ensures
        r == time_ok(t),
{
    match t {
        Some(t) => t.secs < 253402300800 && t.nanos < 1000000000,
        None => true,
    }
}

/// The metadata lines of an entry: its creation and modification times, then
/// its further metadata in key order, leaving out empty values.
pub open spec fn metadata_text(info: crate::entry::InfoView) -> Seq<Seq<char>> {
    let created = match info.created {
        Some(t) => seq!["created: "@ + rfc3339_text(t.secs, t.nanos)],
        None => Seq::empty(),
    };
    let modified = match info.modified {
        Some(t) => seq!["modified: "@ + rfc3339_text(t.secs, t.nanos)],
        None => Seq::empty(),
    };
    created + modified + extra_lines(sort_by_key(info.extra))
}

/// Each pair with a non-empty value as `key: value`, in order.
pub open spec fn extra_lines(s: Seq<(Seq<char>, Seq<char>)>) -> Seq<Seq<char>>
    decreases s.len(),
{
    if s.len() == 0 {
        Seq::empty()
    } else if s.last().1.len() > 0 {
        extra_lines(s.drop_last()).push(s.last().0 + ": "@ + s.last().1)
    } else {
        extra_lines(s.drop_last())
    }
}

/// The metadata lines of an entry.
pub fn metadata_lines(info: &crate::entry::FileInfo) -> (r: Vec<String>)
    requires
        time_ok(info.created),
        time_ok(info.modified),
    ensures
        strings_view(r@) == metadata_text(info@),
{
    let mut lines: Vec<String> = Vec::new();
    match info.created {
        Some(t) => {
            lines.push(concat2("created: ", format_rfc3339(t.secs, t.nanos).as_str()));
        },
        None => {},
    }
    match info.modified {
        Some(t) => {
            lines.push(concat2("modified: ", format_rfc3339(t.secs, t.nanos).as_str()));
        },
        None => {},
    }
    let ghost head = strings_view(lines@);
    let sorted = sort_pairs(&info.extra);
    let ghost sv = pairs_view(sorted@);
    let mut i: usize = 0;
    while i < sorted.len()
        invariant
            i <= sorted@.len(),
            sv == pairs_view(sorted@),
            strings_view(lines@) == head + extra_lines(sv.take(i as int)),
        decreases sorted@.len() - i,
    {
        let ghost before = strings_view(lines@);
        let ghost x = sv[i as int];
        assert(sv.take(i + 1).drop_last() =~= sv.take(i as int));
        assert(sv.take(i + 1).last() == x);
        assert(x.0 == sorted@[i as int].0@ && x.1 == sorted@[i as int].1@);
        if !sorted[i].1.as_str().is_empty() {
            let mut line = copy_str(sorted[i].0.as_str());
            push_str(&mut line, ": ");
            push_str(&mut line, sorted[i].1.as_str());
            lines.push(line);
            assert(strings_view(lines@) =~= before.push(line@));
        }
        assert(strings_view(lines@) =~= head + extra_lines(sv.take(i + 1)));
        i = i + 1;
    }
    assert(sv.take(sorted@.len() as int) =~= sv);
    assert(strings_view(lines@) =~= metadata_text(info@));
    lines
}

} // verus!
