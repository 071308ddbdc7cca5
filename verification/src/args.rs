//! Command-line arguments of the browser.
use vstd::prelude::*;
use crate::options::{StorageOptions};
use crate::text::{
    chars_of, concat2, copy_str, first_index_of, is_prefix, opt_chars, parsed_usize, parse_usize,
    starts_with, str_eq, string_of,
};

verus! {

/// Entries fetched and revealed per page unless `--page-size` says otherwise.
pub const DEFAULT_PAGE_SIZE: usize = 256;

/// Largest preview read unless `--preview-bytes` says otherwise.
pub const DEFAULT_PREVIEW_BYTES: usize = 104857600;

/// Where a browser session starts: a URL or path and its backend options.
pub struct SessionDetails {
    pub url: String,
    pub storage_options: StorageOptions,
}

/// An error of the browser, in the categories that its messages are shown with.
#[derive(Debug)]
pub enum BrowseError {
    InvalidArgument(String),
    NotSupported(String),
    Other(String),
}

impl BrowseError {
    /// The text of the error as it is shown.
    pub open spec fn spec_message(&self) -> Seq<char> {
        match self {
            BrowseError::InvalidArgument(m) => "invalid argument: "@ + m@,
            BrowseError::NotSupported(m) => "not supported: "@ + m@,
            BrowseError::Other(m) => m@,
        }
    }

    /// The text of the error as it is shown.
    pub fn message(&self) -> (r: String)
        ensures
            r@ == self.spec_message(),
    {
        match self {
            BrowseError::InvalidArgument(m) => concat2("invalid argument: ", m.as_str()),
            BrowseError::NotSupported(m) => concat2("not supported: ", m.as_str()),
            BrowseError::Other(m) => copy_str(m.as_str()),
        }
    }
}

/// How a `KEY=VALUE` pair splits: at its first `=`, with a non-empty key.
pub open spec fn split_pair(pair: Seq<char>) -> Result<(Seq<char>, Seq<char>), Seq<char>> {
    match first_index_of(pair, '=') {
        None => Err("storage option must be KEY=VALUE: "@ + pair),
        Some(i) => if i == 0 {
            Err("storage option key is empty: "@ + pair)
        } else {
            Ok((pair.take(i), pair.skip(i + 1)))
        },
    }
}

/// Splits a `KEY=VALUE` pair given as characters.
pub fn split_key_value(pair: &[char]) -> (r: Result<(String, String), String>)
    ensures
        r matches Ok(kv) ==> split_pair(pair@) == Ok::<(Seq<char>, Seq<char>), Seq<char>>(
            (kv.0@, kv.1@),
        ),
        r matches Err(e) ==> split_pair(pair@) == Err::<(Seq<char>, Seq<char>), Seq<char>>(e@),
{
    let mut i: usize = 0;
    while i < pair.len() && pair[i] != '='
        invariant
            i <= pair@.len(),
            forall|j: int| 0 <= j < i ==> pair@[j] != '=',
        decreases pair@.len() - i,
    {
        i = i + 1;
    }
    proof {
        lemma_first_index(pair@, '=', i as int);
    }
    let whole = string_of(pair);
    if i == pair.len() {
        return Err(concat2("storage option must be KEY=VALUE: ", whole.as_str()));
    }
    if i == 0 {
        return Err(concat2("storage option key is empty: ", whole.as_str()));
    }
    let key = string_of(slice_range(pair, 0, i));
    let value = string_of(slice_range(pair, i + 1, pair.len()));
    Ok((key, value))
}

/// The characters from `lo` up to `hi`.
pub fn slice_range(s: &[char], lo: usize, hi: usize) -> (r: &[char])
    requires
        lo <= hi <= s@.len(),
    ensures
        r@ == s@.subrange(lo as int, hi as int),
{
    vstd::slice::slice_subrange(s, lo, hi)
}

/// `first_index_of` finds the first occurrence.
pub proof fn lemma_first_index(s: Seq<char>, c: char, i: int)
    requires
        0 <= i <= s.len(),
        forall|j: int| 0 <= j < i ==> s[j] != c,
        i < s.len() ==> s[i] == c,
    ensures
        i == s.len() ==> first_index_of(s, c) is None,
        i < s.len() ==> first_index_of(s, c) == Some(i),
    decreases i,
{
    if s.len() > 0 && i > 0 {
        lemma_first_index(s.drop_first(), c, i - 1);
    }
}

/// Splits a `KEY=VALUE` storage option at its first `=`.
pub fn parse_key_value(pair: &str) -> (r: Result<(String, String), String>)
    ensures
        r matches Ok(kv) ==> split_pair(pair@) == Ok::<(Seq<char>, Seq<char>), Seq<char>>(
            (kv.0@, kv.1@),
        ),
        r matches Err(e) ==> split_pair(pair@) == Err::<(Seq<char>, Seq<char>), Seq<char>>(e@),
{
    let cs = chars_of(pair);
    split_key_value(cs.as_slice())
}

/// The settings that the arguments read so far have made.
pub struct ArgsState {
    pub url: Option<Seq<char>>,
    pub options: Map<Seq<char>, Seq<char>>,
    pub page_size: usize,
    pub preview_bytes: usize,
}

/// What a list of arguments comes to.
pub enum ArgsOutcome {
    Help,
    Done(ArgsState),
    Failed(Seq<char>),
}

/// The settings before any argument is read.
pub open spec fn initial_args_state() -> ArgsState {
    ArgsState {
        url: None,
        options: Map::empty(),
        page_size: DEFAULT_PAGE_SIZE,
        preview_bytes: DEFAULT_PREVIEW_BYTES,
    }
}

/// Adds a `KEY=VALUE` pair to the options, or fails as `split_pair` does.
pub open spec fn with_pair(
    rest: Seq<Seq<char>>,
    st: ArgsState,
    pair: Seq<char>,
) -> ArgsOutcome
    decreases rest.len() + 1, 0nat,
{
    match split_pair(pair) {
        Err(e) => ArgsOutcome::Failed(e),
        Ok(kv) => parse_args_from(rest, ArgsState { options: st.options.insert(kv.0, kv.1), ..st }),
    }
}

/// Sets the page size from `raw`, or fails naming the option.
pub open spec fn with_page_size(rest: Seq<Seq<char>>, st: ArgsState, raw: Seq<char>) -> ArgsOutcome
    decreases rest.len() + 1, 0nat,
{
    match parsed_usize(raw) {
        None => ArgsOutcome::Failed("invalid --page-size: "@ + raw),
        Some(n) => parse_args_from(rest, ArgsState { page_size: n, ..st }),
    }
}

/// Sets the preview limit from `raw`, or fails naming the option.
pub open spec fn with_preview_bytes(
    rest: Seq<Seq<char>>,
    st: ArgsState,
    raw: Seq<char>,
) -> ArgsOutcome
    decreases rest.len() + 1, 0nat,
{
    match parsed_usize(raw) {
        None => ArgsOutcome::Failed("invalid --preview-bytes: "@ + raw),
        Some(n) => parse_args_from(rest, ArgsState { preview_bytes: n, ..st }),
    }
}

/// Reads the arguments from left to right.  `-h`/`--help` asks for help at once;
/// `-o`/`--storage-option`, `--page-size` and `--preview-bytes` take the next
/// argument or an attached value; anything else is the URL, which may appear once.
pub open spec fn parse_args_from(args: Seq<Seq<char>>, st: ArgsState) -> ArgsOutcome
    decreases args.len(), 1nat,
{
    if args.len() == 0 {
        ArgsOutcome::Done(st)
    } else {
        let v = args[0];
        let rest = args.drop_first();
        if v == "-h"@ || v == "--help"@ {
            ArgsOutcome::Help
        } else if v == "-o"@ || v == "--storage-option"@ {
            if rest.len() == 0 {
                ArgsOutcome::Failed(v + " requires KEY=VALUE"@)
            } else {
                with_pair(rest.drop_first(), st, rest[0])
            }
        } else if v == "--page-size"@ {
            if rest.len() == 0 {
                ArgsOutcome::Failed("--page-size requires a value"@)
            } else {
                with_page_size(rest.drop_first(), st, rest[0])
            }
        } else if v == "--preview-bytes"@ {
            if rest.len() == 0 {
                ArgsOutcome::Failed("--preview-bytes requires a value"@)
            } else {
                with_preview_bytes(rest.drop_first(), st, rest[0])
            }
        } else if is_prefix("-o"@, v) && v.len() > "-o"@.len() {
            with_pair(rest, st, v.skip("-o"@.len() as int))
        } else if is_prefix("--storage-option="@, v) {
            with_pair(rest, st, v.skip("--storage-option="@.len() as int))
        } else if is_prefix("--page-size="@, v) {
            with_page_size(rest, st, v.skip("--page-size="@.len() as int))
        } else if is_prefix("--preview-bytes="@, v) {
            with_preview_bytes(rest, st, v.skip("--preview-bytes="@.len() as int))
        } else if st.url is Some {
            ArgsOutcome::Failed("unexpected argument: "@ + v)
        } else {
            parse_args_from(rest, ArgsState { url: Some(v), ..st })
        }
    }
}


/// The larger of `n` and one.
pub open spec fn at_least_one(n: usize) -> usize {
    if n < 1 { 1 } else { n }
}

/// The parsed command line.
pub struct Args {
    pub url: Option<String>,
    pub storage_options: StorageOptions,
    pub page_size: usize,
    pub preview_bytes: usize,
}

impl Args {
    /// The settings that these arguments hold.
    pub open spec fn state(&self) -> ArgsState {
        ArgsState {
            url: opt_chars(self.url),
            options: self.storage_options@,
            page_size: self.page_size,
            preview_bytes: self.preview_bytes,
        }
    }

    /// Parses the command line (without the program name).  `Ok(None)` asks for
    /// help; the page size and preview limit are at least one.
    pub fn parse(values: Vec<String>) -> (r: Result<Option<Args>, String>)
        ensures
            ({
                let out = parse_args_from(values@.map_values(|v: String| v@), initial_args_state());
                match r {
                    Ok(None) => out is Help,
                    Ok(Some(a)) => out matches ArgsOutcome::Done(st) && a.state() == ArgsState {
                        page_size: at_least_one(st.page_size),
                        preview_bytes: at_least_one(st.preview_bytes),
                        ..st
                    },
                    Err(e) => out == ArgsOutcome::Failed(e@),
                }
            }),
    {
        let ghost all = values@.map_values(|v: String| v@);
        let mut url: Option<String> = None;
        let mut storage_options = StorageOptions::new();
        let mut page_size: usize = DEFAULT_PAGE_SIZE;
        let mut preview_bytes: usize = DEFAULT_PREVIEW_BYTES;
        let mut i: usize = 0;
        let ghost goal = parse_args_from(all, initial_args_state());
        assert(all.skip(0) =~= all);
        while i < values.len()
            invariant
                i <= values@.len(),
                all == values@.map_values(|v: String| v@),
                goal == parse_args_from(all, initial_args_state()),
                goal == parse_args_from(
                    all.skip(i as int),
                    ArgsState {
                        url: opt_chars(url),
                        options: storage_options@,
                        page_size,
                        preview_bytes,
                    },
                ),
            decreases values@.len() - i,
        {
            let ghost st = ArgsState {
                url: opt_chars(url),
                options: storage_options@,
                page_size,
                preview_bytes,
            };
            let ghost rest = all.skip(i as int).drop_first();
            assert(all.skip(i as int)[0] == values@[i as int]@);
            assert(rest =~= all.skip(i + 1));
            let value = &values[i];
            let v = value.as_str();
            let cs = chars_of(v);
            assert(goal == parse_args_from(all.skip(i as int), st));
            assert(all.skip(i as int).len() > 0);
            assert(all.skip(i as int)[0] == v@);
            assert(all.skip(i as int).drop_first() == rest);
            if str_eq(v, "-h") || str_eq(v, "--help") {
                return Ok(None);
            } else if str_eq(v, "-o") || str_eq(v, "--storage-option") {
                if i + 1 >= values.len() {
                    return Err(concat2(v, " requires KEY=VALUE"));
                }
                assert(rest[0] == values@[i + 1]@);
                assert(rest.drop_first() =~= all.skip(i + 2));
                assert(goal == with_pair(rest.drop_first(), st, rest[0]));
                let pair = chars_of(values[i + 1].as_str());
                match split_key_value(pair.as_slice()) {
                    Ok((k, val)) => {
                        storage_options.insert(k, val);
                    },
                    Err(e) => {
                        return Err(e);
                    },
                }
                i = i + 2;
            } else if str_eq(v, "--page-size") {
                if i + 1 >= values.len() {
                    return Err(copy_str("--page-size requires a value"));
                }
                assert(rest[0] == values@[i + 1]@);
                assert(rest.drop_first() =~= all.skip(i + 2));
                assert(goal == with_page_size(rest.drop_first(), st, rest[0]));
                let raw = chars_of(values[i + 1].as_str());
                match parse_usize(raw.as_slice()) {
                    Some(n) => {
                        page_size = n;
                    },
                    None => {
                        return Err(concat2("invalid --page-size: ", values[i + 1].as_str()));
                    },
                }
                i = i + 2;
            } else if str_eq(v, "--preview-bytes") {
                if i + 1 >= values.len() {
                    return Err(copy_str("--preview-bytes requires a value"));
                }
                assert(rest[0] == values@[i + 1]@);
                assert(rest.drop_first() =~= all.skip(i + 2));
                assert(goal == with_preview_bytes(rest.drop_first(), st, rest[0]));
                let raw = chars_of(values[i + 1].as_str());
                match parse_usize(raw.as_slice()) {
                    Some(n) => {
                        preview_bytes = n;
                    },
                    None => {
                        return Err(concat2("invalid --preview-bytes: ", values[i + 1].as_str()));
                    },
                }
                i = i + 2;
            } else {
                let short = chars_of("-o");
                let long_opt = chars_of("--storage-option=");
                let page_opt = chars_of("--page-size=");
                let preview_opt = chars_of("--preview-bytes=");
                if starts_with(cs.as_slice(), short.as_slice()) && cs.len() > short.len() {
                    let rest_chars = slice_range(cs.as_slice(), short.len(), cs.len());
                    assert(rest_chars@ =~= v@.skip("-o"@.len() as int));
                    assert(goal == with_pair(rest, st, rest_chars@));
                    match split_key_value(rest_chars) {
                        Ok((k, val)) => {
                            storage_options.insert(k, val);
                        },
                        Err(e) => {
                            return Err(e);
                        },
                    }
                } else if starts_with(cs.as_slice(), long_opt.as_slice()) {
                    let rest_chars = slice_range(cs.as_slice(), long_opt.len(), cs.len());
                    assert(rest_chars@ =~= v@.skip("--storage-option="@.len() as int));
                    assert(goal == with_pair(rest, st, rest_chars@));
                    match split_key_value(rest_chars) {
                        Ok((k, val)) => {
                            storage_options.insert(k, val);
                        },
                        Err(e) => {
                            return Err(e);
                        },
                    }
                } else if starts_with(cs.as_slice(), page_opt.as_slice()) {
                    let rest_chars = slice_range(cs.as_slice(), page_opt.len(), cs.len());
                    assert(rest_chars@ =~= v@.skip("--page-size="@.len() as int));
                    assert(goal == with_page_size(rest, st, rest_chars@));
                    match parse_usize(rest_chars) {
                        Some(n) => {
                            page_size = n;
                        },
                        None => {
                            return Err(concat2("invalid --page-size: ", string_of(rest_chars).as_str()));
                        },
                    }
                } else if starts_with(cs.as_slice(), preview_opt.as_slice()) {
                    let rest_chars = slice_range(cs.as_slice(), preview_opt.len(), cs.len());
                    assert(rest_chars@ =~= v@.skip("--preview-bytes="@.len() as int));
                    assert(goal == with_preview_bytes(rest, st, rest_chars@));
                    match parse_usize(rest_chars) {
                        Some(n) => {
                            preview_bytes = n;
                        },
                        None => {
                            return Err(
                                concat2("invalid --preview-bytes: ", string_of(rest_chars).as_str()),
                            );
                        },
                    }
                } else if url.is_some() {
                    return Err(concat2("unexpected argument: ", v));
                } else {
                    assert(goal == parse_args_from(rest, ArgsState { url: Some(v@), ..st }));
                    url = Some(copy_str(v));
                }
                i = i + 1;
            }
        }
        let page_size = if page_size < 1 { 1 } else { page_size };
        let preview_bytes = if preview_bytes < 1 { 1 } else { preview_bytes };
        Ok(Some(Args { url, storage_options, page_size, preview_bytes }))
    }

    /// The session these arguments name, if they name a URL.
    pub fn session(&self) -> (r: Option<SessionDetails>)
        ensures
            r is Some <==> self.url is Some,
            r matches Some(s) ==> self.url matches Some(u) && s.url@ == u@
                && s.storage_options@ == self.storage_options@,
    {
        match &self.url {
            Some(u) => Some(
                SessionDetails {
                    url: copy_str(u.as_str()),
                    storage_options: self.storage_options.copy(),
                },
            ),
            None => None,
        }
    }
}

impl StorageOptions {
    /// A copy of these options.
    pub fn copy(&self) -> (r: StorageOptions)
        ensures
            r@ == self@,
    {
        let mut entries: Vec<(String, String)> = Vec::new();
        let mut i: usize = 0;
        while i < self.entries.len()
            invariant
                i <= self.entries@.len(),
                entries@.len() == i,
                forall|j: int|
                    0 <= j < i ==> (#[trigger] entries@[j]).0@ == self.entries@[j].0@
                        && entries@[j].1@ == self.entries@[j].1@,
            decreases self.entries@.len() - i,
        {
            let k = copy_str(self.entries[i].0.as_str());
            let v = copy_str(self.entries[i].1.as_str());
            entries.push((k, v));
            i = i + 1;
        }
        proof {
            lemma_same_pairs_same_map(entries@, self.entries@);
        }
        StorageOptions { entries }
    }
}

/// Pairs with the same keys and values denote the same map.
pub proof fn lemma_same_pairs_same_map(a: Seq<(String, String)>, b: Seq<(String, String)>)
    requires
        a.len() == b.len(),
        forall|j: int| 0 <= j < a.len() ==> (#[trigger] a[j]).0@ == b[j].0@ && a[j].1@ == b[j].1@,
    ensures
        crate::options::options_map(a) == crate::options::options_map(b),
    decreases a.len(),
{
    if a.len() > 0 {
        lemma_same_pairs_same_map(a.drop_last(), b.drop_last());
        assert(a.last().0@ == b.last().0@);
    }
}

/// A storage option written as `KEY=VALUE`, with a non-empty key that holds
/// no `=`, splits back into that key and value.
pub proof fn law_key_value_round_trip(key: Seq<char>, value: Seq<char>)
    requires
        key.len() > 0,
        forall|j: int| 0 <= j < key.len() ==> key[j] != '=',
    ensures
        split_pair(key + "="@ + value) == Ok::<(Seq<char>, Seq<char>), Seq<char>>((key, value)),
{
    let pair = key + "="@ + value;
    assert("="@ =~= seq!['=']) by {
        reveal_strlit("=");
    }
    assert(pair[key.len() as int] == '=');
    lemma_first_index(pair, '=', key.len() as int);
    assert(pair.take(key.len() as int) =~= key);
    assert(pair.skip(key.len() + 1int) =~= value);
}

/// The literals of the command-line flags, by their characters.
proof fn lemma_flag_literals()
    ensures
        "-h"@ =~= seq!['-', 'h'],
        "--help"@ =~= seq!['-', '-', 'h', 'e', 'l', 'p'],
        "-o"@ =~= seq!['-', 'o'],
        "--storage-option"@ =~= seq!['-', '-', 's', 't', 'o', 'r', 'a', 'g', 'e', '-', 'o', 'p', 't', 'i', 'o', 'n'],
        "--storage-option="@ =~= seq!['-', '-', 's', 't', 'o', 'r', 'a', 'g', 'e', '-', 'o', 'p', 't', 'i', 'o', 'n', '='],
        "--page-size"@ =~= seq!['-', '-', 'p', 'a', 'g', 'e', '-', 's', 'i', 'z', 'e'],
        "--page-size="@ =~= seq!['-', '-', 'p', 'a', 'g', 'e', '-', 's', 'i', 'z', 'e', '='],
        "--preview-bytes"@ =~= seq!['-', '-', 'p', 'r', 'e', 'v', 'i', 'e', 'w', '-', 'b', 'y', 't', 'e', 's'],
        "--preview-bytes="@ =~= seq!['-', '-', 'p', 'r', 'e', 'v', 'i', 'e', 'w', '-', 'b', 'y', 't', 'e', 's', '='],
{
    reveal_strlit("-h");
    reveal_strlit("--help");
    reveal_strlit("-o");
    reveal_strlit("--storage-option");
    reveal_strlit("--storage-option=");
    reveal_strlit("--page-size");
    reveal_strlit("--page-size=");
    reveal_strlit("--preview-bytes");
    reveal_strlit("--preview-bytes=");
}

/// The four ways of giving a storage option agree: `-o KEY=VALUE`,
/// `--storage-option KEY=VALUE`, `-oKEY=VALUE` and
/// `--storage-option=KEY=VALUE` each add the pair to the options read so far
/// (a later value of a key replacing an earlier one) and reading goes on.
pub proof fn law_option_forms(
    key: Seq<char>,
    value: Seq<char>,
    rest: Seq<Seq<char>>,
    st: ArgsState,
)
    requires
        key.len() > 0,
        forall|j: int| 0 <= j < key.len() ==> key[j] != '=',
    ensures
        ({
            let kv = key + "="@ + value;
            let next = parse_args_from(
                rest,
                ArgsState { options: st.options.insert(key, value), ..st },
            );
            &&& parse_args_from(seq!["-o"@, kv] + rest, st) == next
            &&& parse_args_from(seq!["--storage-option"@, kv] + rest, st) == next
            &&& parse_args_from(seq!["-o"@ + kv] + rest, st) == next
            &&& parse_args_from(seq!["--storage-option="@ + kv] + rest, st) == next
        }),
{
    let kv = key + "="@ + value;
    law_key_value_round_trip(key, value);
    lemma_flag_literals();
    assert("="@ =~= seq!['=']) by {
        reveal_strlit("=");
    }
    assert(kv.len() >= 2);
    let next = parse_args_from(rest, ArgsState { options: st.options.insert(key, value), ..st });
    assert(with_pair(rest, st, kv) == next);
    let a = seq!["-o"@, kv] + rest;
    assert(a[0] == "-o"@ && a.drop_first()[0] == kv);
    assert(a.drop_first().drop_first() =~= rest);
    assert("-o"@ != "-h"@ && "-o"@ != "--help"@);
    let b = seq!["--storage-option"@, kv] + rest;
    assert(b[0] == "--storage-option"@ && b.drop_first()[0] == kv);
    assert(b.drop_first().drop_first() =~= rest);
    assert("--storage-option"@[2] != "--help"@[2]);
    let c = seq!["-o"@ + kv] + rest;
    let v = "-o"@ + kv;
    assert(c[0] == v && c.drop_first() =~= rest);
    assert(v[1] == 'o' && v.len() > 2);
    assert(v != "-h"@ && v != "--help"@ && v != "-o"@ && v != "--storage-option"@);
    assert(v != "--page-size"@ && v != "--preview-bytes"@);
    assert(v.take(2) =~= "-o"@);
    assert(v.skip(2) =~= kv);
    let d = seq!["--storage-option="@ + kv] + rest;
    let w = "--storage-option="@ + kv;
    assert(d[0] == w && d.drop_first() =~= rest);
    assert(w[1] == '-' && w[2] == 's' && w.len() > 17);
    assert(w != "-h"@ && w != "--help"@ && w != "-o"@ && w != "--storage-option"@);
    assert(w != "--page-size"@ && w != "--preview-bytes"@);
    assert(!crate::text::is_prefix("-o"@, w));
    assert(w.take(17) =~= "--storage-option="@);
    assert(w.skip(17) =~= kv);
    assert(parse_args_from(a, st) == next);
    assert(parse_args_from(b, st) == next);
    assert(parse_args_from(c, st) == next);
    assert(parse_args_from(d, st) == next);
}

/// An argument that does not start with `-` is the URL, when none was given
/// yet, and reading goes on.
pub proof fn law_url_argument(url: Seq<char>, rest: Seq<Seq<char>>, st: ArgsState)
    requires
        url.len() > 0,
        url[0] != '-',
        st.url is None,
    ensures
        parse_args_from(seq![url] + rest, st) == parse_args_from(
            rest,
            ArgsState { url: Some(url), ..st },
        ),
{
    lemma_flag_literals();
    let a = seq![url] + rest;
    assert(a[0] == url && a.drop_first() =~= rest);
    assert(url != "-h"@ && url != "--help"@ && url != "-o"@ && url != "--storage-option"@);
    assert(url != "--page-size"@ && url != "--preview-bytes"@);
    assert(!crate::text::is_prefix("-o"@, url));
    assert(!crate::text::is_prefix("--storage-option="@, url));
    assert(!crate::text::is_prefix("--page-size="@, url));
    assert(!crate::text::is_prefix("--preview-bytes="@, url));
}

} // verus!
