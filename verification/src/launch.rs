//! What the program does with its command line and with the answers typed at
//! the session prompt.
use vstd::prelude::*;
use crate::args::{
    at_least_one, initial_args_state, parse_args_from, parse_key_value, split_pair, Args,
    ArgsOutcome, BrowseError, SessionDetails,
};
use crate::backend::{
    build_backend, local_url_path, plan_error, unsupported_backend, unsupported_error, BackendPlan,
};
use crate::python_backend::{is_white_space, white_space};
use crate::text::{chars_of, contains_seq, copy_str, opt_chars, string_of};
use crate::urls::{parsed_url, BrowseErrorView};

verus! {

/// What the program is to do.
pub enum Launch {
    /// Print the help text.
    Help,
    /// Browse with these page and preview sizes: the session given on the
    /// command line with the way it is opened, or else (`None`) one asked for at
    /// the prompt.
    Browse { session: Option<(SessionDetails, BackendPlan)>, page_size: usize, preview_bytes: usize },
}

/// Why a session cannot be opened by a backend here: what `plan_error` gives,
/// or, for a URL of another protocol than the local and S3 ones, that no
/// backend here serves it.
pub open spec fn session_error(url: Seq<char>, options: Map<Seq<char>, Seq<char>>) -> Option<
    BrowseErrorView,
> {
    match plan_error(url, options) {
        Some(e) => Some(e),
        None => if contains_seq(url, "://"@) && local_url_path(url) is None {
            match parsed_url(url) {
                Ok(u) => if u.0 == "s3-rs"@ || u.0 == "s3"@ {
                    None
                } else {
                    Some(unsupported_error(u.0))
                },
                Err(_) => None,
            }
        } else {
            None
        },
    }
}

/// How a session is opened by a backend here, given the home directory; a
/// protocol that no backend here serves is refused.
pub fn plan_session(session: &SessionDetails, home: &Option<String>) -> (r: Result<
    BackendPlan,
    BrowseError,
>)
    ensures
        match r {
            Ok(plan) => session_error(session.url@, session.storage_options@) is None
                && plan.planned(session.url@, session.storage_options@, opt_chars(*home))
                && !(plan is Other),
            Err(e) => session_error(session.url@, session.storage_options@) == Some(
                e.error_view(),
            ),
        },
{
    match build_backend(session, home) {
        Ok(BackendPlan::Other { protocol }) => Err(unsupported_backend(protocol.as_str())),
        Ok(plan) => Ok(plan),
        Err(e) => Err(e),
    }
}

/// What the program does with its command line, given the home directory:
/// help; or a browser with the settings the arguments give (the page and
/// preview sizes at least one) and, for a session named there, the way it is
/// opened.  An invalid argument is refused with the parser's message, and a
/// session that cannot be opened here with `session_error`'s.
pub fn run_browser(args: Vec<String>, home: &Option<String>) -> (r: Result<Launch, BrowseError>)
    ensures
        ({
            let out = parse_args_from(args@.map_values(|v: String| v@), initial_args_state());
            match r {
                Ok(Launch::Help) => out is Help,
                Ok(Launch::Browse { session, page_size, preview_bytes }) => (out matches ArgsOutcome::Done(
                    st,
                ) && page_size == at_least_one(st.page_size) && preview_bytes == at_least_one(
                    st.preview_bytes,
                ) && (session is Some <==> st.url is Some) && (session matches Some(sp) ==> st.url
                    == Some(sp.0.url@) && sp.0.storage_options@ == st.options && session_error(
                    sp.0.url@,
                    st.options,
                ) is None && sp.1.planned(sp.0.url@, st.options, opt_chars(*home)) && !(sp.1 is Other))),
                Err(e) => (out matches ArgsOutcome::Failed(m) && e.error_view()
                    == BrowseErrorView::InvalidArgument(m)) || (out matches ArgsOutcome::Done(st)
                    && st.url matches Some(u) && session_error(u, st.options) == Some(
                    e.error_view(),
                )),
            }
        }),
{
    match Args::parse(args) {
        Err(m) => Err(BrowseError::InvalidArgument(m)),
        Ok(None) => Ok(Launch::Help),
        Ok(Some(a)) => {
            let session = match a.session() {
                Some(s) => match plan_session(&s, home) {
                    Ok(plan) => Some((s, plan)),
                    Err(e) => {
                        return Err(e);
                    },
                },
                None => None,
            };
            Ok(Launch::Browse { session, page_size: a.page_size, preview_bytes: a.preview_bytes })
        },
    }
}

/// `s` without white space at its start.
pub open spec fn trim_start_ws(s: Seq<char>) -> Seq<char>
    decreases s.len(),
{
    if s.len() > 0 && is_white_space(s[0]) {
        trim_start_ws(s.drop_first())
    } else {
        s
    }
}

/// `s` without white space at its end.
pub open spec fn trim_end_ws(s: Seq<char>) -> Seq<char>
    decreases s.len(),
{
    if s.len() > 0 && is_white_space(s.last()) {
        trim_end_ws(s.drop_last())
    } else {
        s
    }
}

/// `s` without white space at either end (`str::trim`).
pub open spec fn trim_ws(s: Seq<char>) -> Seq<char> {
    trim_end_ws(trim_start_ws(s))
}

/// A line as `str::trim` leaves it.
pub fn trim(line: &str) -> (r: String)
    ensures
        r@ == trim_ws(line@),
{
    let cs = chars_of(line);
    let mut start: usize = 0;
    assert(cs@.skip(0) =~= cs@);
    while start < cs.len() && white_space(cs[start])
        invariant
            start <= cs@.len(),
            cs@ == line@,
            trim_start_ws(line@) == trim_start_ws(cs@.skip(start as int)),
        decreases cs@.len() - start,
    {
        assert(cs@.skip(start as int).drop_first() =~= cs@.skip(start + 1));
        start = start + 1;
    }
    let ghost front = cs@.skip(start as int);
    assert(trim_start_ws(front) == front);
    let mut end = cs.len();
    assert(front.take(front.len() as int) =~= front);
    while end > start && white_space(cs[end - 1])
        invariant
            start <= end <= cs@.len(),
            cs@ == line@,
            front == cs@.skip(start as int),
            trim_end_ws(front) == trim_end_ws(front.take(end - start)),
        decreases end,
    {
        assert(front.take(end - start).drop_last() =~= front.take(end - start - 1));
        end = end - 1;
    }
    assert(cs@.subrange(start as int, end as int) =~= front.take(end - start));
    string_of(vstd::slice::slice_subrange(cs.as_slice(), start, end))
}

/// The URL that the first answer at the session prompt gives: the answer
/// trimmed, or the default (`.` when there is none) for an empty answer.
pub fn prompt_url(answer: &str, default_url: &Option<String>) -> (r: String)
    ensures
        r@ == (if trim_ws(answer@).len() == 0 {
            match default_url {
                Some(d) => d@,
                None => "."@,
            }
        } else {
            trim_ws(answer@)
        }),
{
    let t = trim(answer);
    if t.as_str().unicode_len() == 0 {
        match default_url {
            Some(d) => copy_str(d.as_str()),
            None => copy_str("."),
        }
    } else {
        t
    }
}

/// What an answer at the storage-option prompt gives: nothing more for an
/// empty answer, else the `KEY=VALUE` pair of the trimmed answer; a malformed
/// pair is an invalid argument.
pub fn prompt_option(answer: &str) -> (r: Result<Option<(String, String)>, BrowseError>)
    ensures
        match r {
            Ok(None) => trim_ws(answer@).len() == 0,
            Ok(Some(kv)) => trim_ws(answer@).len() > 0 && split_pair(trim_ws(answer@)) == Ok::<
                (Seq<char>, Seq<char>),
                Seq<char>,
            >((kv.0@, kv.1@)),
            Err(e) => trim_ws(answer@).len() > 0 && (split_pair(trim_ws(answer@)) matches Err(m)
                && e.error_view() == BrowseErrorView::InvalidArgument(m)),
        },
{
    let t = trim(answer);
    if t.as_str().unicode_len() == 0 {
        return Ok(None);
    }
    match parse_key_value(t.as_str()) {
        Ok(kv) => Ok(Some(kv)),
        Err(m) => Err(BrowseError::InvalidArgument(m)),
    }
}

} // verus!
