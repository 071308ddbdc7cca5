//! URLs: their parts, local download targets and endpoint checks.
use vstd::prelude::*;
use crate::args::BrowseError;
use crate::render::{join, join_strings, strings_view};
use crate::text::{chars_of, concat2, contains_chars, contains_seq, copy_str, str_eq};

verus! {

/// The parts of a parsed URL that the browser reads.
pub struct UrlParts {
    pub scheme: String,
    pub host: Option<String>,
    pub path: String,
    pub segments: Option<Vec<String>>,
}

/// The mathematical value of URL parts: scheme, host, path and path segments.
pub type UrlView = (Seq<char>, Option<Seq<char>>, Seq<char>, Option<Seq<Seq<char>>>);

impl UrlParts {
    pub open spec fn parts(&self) -> UrlView {
        (
            self.scheme@,
            match self.host {
                Some(h) => Some(h@),
                None => None,
            },
            self.path@,
            match self.segments {
                Some(s) => Some(strings_view(s@)),
                None => None,
            },
        )
    }
}

/// What `url::Url::parse` makes of a string: the scheme, `host_str`, `path` and
/// `path_segments` of the URL, or the text of the parse error.
pub uninterp spec fn parsed_url(s: Seq<char>) -> Result<UrlView, Seq<char>>;

/// Parses a URL with `url::Url::parse` and reads its scheme, host, path and
/// path segments.  The result is named, not stated.
#[verifier::external_body]
pub(crate) fn parse_url(s: &str) -> (r: Result<UrlParts, String>)
    ensures
        match r {
            Ok(p) => parsed_url(s@) == Ok::<UrlView, Seq<char>>(p.parts()),
            Err(e) => parsed_url(s@) == Err::<UrlView, Seq<char>>(e@),
        },
{
    match url::Url::parse(s) {
        Ok(u) => Ok(UrlParts {
            scheme: u.scheme().to_string(),
            host: u.host_str().map(str::to_string),
            path: u.path().to_string(),
            segments: u.path_segments().map(|p| p.map(str::to_string).collect()),
        }),
        Err(e) => Err(e.to_string()),
    }
}

/// A path piece that names something: not empty, `.` or `..`.
pub open spec fn is_normal_part(p: Seq<char>) -> bool {
    p.len() > 0 && p != "."@ && p != ".."@
}

/// The pieces that name something, in order.
pub open spec fn normal_parts(parts: Seq<Seq<char>>) -> Seq<Seq<char>>
    decreases parts.len(),
{
    if parts.len() == 0 {
        parts
    } else if is_normal_part(parts.last()) {
        normal_parts(parts.drop_last()).push(parts.last())
    } else {
        normal_parts(parts.drop_last())
    }
}

/// The pieces of `s` between slashes (empty ones included).
pub open spec fn split_slash(s: Seq<char>) -> Seq<Seq<char>>
    decreases s.len(),
{
    match crate::text::last_index_of(s, '/') {
        Some(i) => if 0 <= i < s.len() {
            split_slash(s.take(i)).push(s.skip(i + 1))
        } else {
            seq![s]
        },
        None => seq![s],
    }
}

/// Where a download of an entry shown as `display` goes, relative to the
/// current directory: for a URL, its host and path segments, each when it
/// names something; for anything else, the path components that name something.
pub open spec fn download_path(display: Seq<char>) -> Option<Seq<char>> {
    let parts = match parsed_url(display) {
        Err(_) => normal_parts(split_slash(display)),
        Ok(u) => (match u.1 {
            Some(h) => if is_normal_part(h) {
                seq![h]
            } else {
                Seq::empty()
            },
            None => Seq::empty(),
        }) + match u.3 {
            Some(segs) => normal_parts(segs),
            None => Seq::empty(),
        },
    };
    if parts.len() == 0 {
        None
    } else {
        Some(join(parts, "/"@))
    }
}

/// Keeps the pieces that name something.
fn keep_normal(parts: &Vec<String>) -> (r: Vec<String>)
    ensures
        strings_view(r@) == normal_parts(strings_view(parts@)),
{
    let ghost pv = strings_view(parts@);
    let mut r: Vec<String> = Vec::new();
    let mut i: usize = 0;
    while i < parts.len()
        invariant
            i <= parts@.len(),
            pv == strings_view(parts@),
            strings_view(r@) == normal_parts(pv.take(i as int)),
        decreases parts@.len() - i,
    {
        let p = parts[i].as_str();
        assert(pv.take(i + 1).drop_last() =~= pv.take(i as int));
        assert(pv.take(i + 1).last() == p@);
        let ghost before = strings_view(r@);
        if !p.is_empty() && !str_eq(p, ".") && !str_eq(p, "..") {
            r.push(copy_str(p));
            assert(strings_view(r@) =~= before.push(p@));
        }
        i = i + 1;
    }
    assert(pv.take(parts@.len() as int) =~= pv);
    r
}

/// The pieces of a string between slashes.
fn split_on_slash(s: &str) -> (r: Vec<String>)
    ensures
        strings_view(r@) == split_slash(s@),
{
    let cs = chars_of(s);
    let mut r: Vec<String> = Vec::new();
    let mut start: usize = 0;
    let mut i: usize = 0;
    while i < cs.len()
        invariant
            start <= i <= cs@.len(),
            cs@ == s@,
            start == 0 || cs@[start - 1] == '/',
            forall|t: int| start <= t < i ==> cs@[t] != '/',
            strings_view(r@) == (if start == 0 {
                Seq::<Seq<char>>::empty()
            } else {
                split_slash(cs@.take(start - 1))
            }),
        decreases cs@.len() - i,
    {
        if cs[i] == '/' {
            let piece = crate::text::string_of(vstd::slice::slice_subrange(cs.as_slice(), start, i));
            proof {
                lemma_split_at_last(cs@.take(i as int), start as int);
                assert(piece@ =~= cs@.take(i as int).skip(start as int));
                if start > 0 {
                    assert(cs@.take(i as int).take(start - 1) =~= cs@.take(start - 1));
                }
            }
            let ghost before = strings_view(r@);
            r.push(piece);
            assert(strings_view(r@) =~= before.push(piece@));
            start = i + 1;
            assert(cs@.take(start - 1) =~= cs@.take(i as int));
        }
        i = i + 1;
    }
    let last = crate::text::string_of(vstd::slice::slice_subrange(cs.as_slice(), start, cs.len()));
    proof {
        assert(cs@.take(cs@.len() as int) =~= cs@);
        lemma_split_at_last(cs@, start as int);
        assert(last@ =~= cs@.skip(start as int));
    }
    let ghost before = strings_view(r@);
    r.push(last);
    assert(strings_view(r@) =~= before.push(last@));
    r
}

/// Splitting where the last piece starts after `start - 1`.
proof fn lemma_split_at_last(s: Seq<char>, start: int)
    requires
        0 <= start <= s.len(),
        start == 0 || s[start - 1] == '/',
        forall|t: int| start <= t < s.len() ==> s[t] != '/',
    ensures
        split_slash(s) == (if start == 0 {
            Seq::<Seq<char>>::empty()
        } else {
            split_slash(s.take(start - 1))
        }).push(s.skip(start)),
{
    lemma_last_index(s, '/', start - 1);
    if start == 0 {
        assert(s.skip(0) =~= s);
    }
}

/// `last_index_of` finds the last occurrence.
pub proof fn lemma_last_index(s: Seq<char>, c: char, i: int)
    requires
        -1 <= i < s.len(),
        forall|j: int| i < j < s.len() ==> s[j] != c,
        i >= 0 ==> s[i] == c,
    ensures
        i == -1 ==> crate::text::last_index_of(s, c) is None,
        i >= 0 ==> crate::text::last_index_of(s, c) == Some(i),
    decreases s.len(),
{
    if s.len() > 0 && i < s.len() - 1 {
        lemma_last_index(s.drop_last(), c, i);
    }
}

/// Whether a piece of text holds no `/`.
pub open spec fn no_slash(p: Seq<char>) -> bool {
    forall|i: int| 0 <= i < p.len() ==> p[i] != '/'
}

/// What `last_index_of` finds: the last occurrence, or none at all.
proof fn lemma_last_index_found(s: Seq<char>, c: char)
    ensures
        match crate::text::last_index_of(s, c) {
            Some(i) => 0 <= i < s.len() && s[i] == c && forall|j: int| i < j < s.len() ==> s[j] != c,
            None => forall|j: int| 0 <= j < s.len() ==> s[j] != c,
        },
    decreases s.len(),
{
    if s.len() > 0 && s.last() != c {
        let d = s.drop_last();
        lemma_last_index_found(d, c);
        assert forall|j: int| 0 <= j < d.len() implies s[j] == d[j] by {}
    }
}

/// The pieces between slashes hold no slash.
proof fn lemma_split_no_slash(s: Seq<char>)
    ensures
        forall|k: int| 0 <= k < split_slash(s).len() ==> no_slash(#[trigger] split_slash(s)[k]),
    decreases s.len(),
{
    lemma_last_index_found(s, '/');
    match crate::text::last_index_of(s, '/') {
        Some(i) => {
            lemma_split_no_slash(s.take(i));
            let parts = split_slash(s);
            assert forall|k: int| 0 <= k < parts.len() implies no_slash(#[trigger] parts[k]) by {
                if k < parts.len() - 1 {
                    assert(parts[k] == split_slash(s.take(i))[k]);
                }
            }
        },
        None => {},
    }
}

/// The pieces that name something are normal and, like all the pieces, hold
/// no slash.
proof fn lemma_normal_parts(parts: Seq<Seq<char>>)
    requires
        forall|k: int| 0 <= k < parts.len() ==> no_slash(#[trigger] parts[k]),
    ensures
        forall|k: int| 0 <= k < normal_parts(parts).len() ==> is_normal_part(
            #[trigger] normal_parts(parts)[k],
        ) && no_slash(normal_parts(parts)[k]),
    decreases parts.len(),
{
    if parts.len() > 0 {
        let rest = parts.drop_last();
        assert forall|k: int| 0 <= k < rest.len() implies no_slash(#[trigger] rest[k]) by {
            assert(rest[k] == parts[k]);
        }
        lemma_normal_parts(rest);
        let np = normal_parts(parts);
        assert forall|k: int| 0 <= k < np.len() implies is_normal_part(#[trigger] np[k]) && no_slash(
            np[k],
        ) by {
            if k < normal_parts(rest).len() {
                assert(np[k] == normal_parts(rest)[k]);
            } else {
                assert(np[k] == parts.last());
            }
        }
    }
}

/// Joining pieces that hold no slash with `/` and splitting at `/` gives the
/// pieces back.
proof fn lemma_split_join(parts: Seq<Seq<char>>)
    requires
        parts.len() > 0,
        forall|k: int| 0 <= k < parts.len() ==> no_slash(#[trigger] parts[k]),
    ensures
        split_slash(join(parts, "/"@)) == parts,
    decreases parts.len(),
{
    assert("/"@ =~= seq!['/']) by {
        reveal_strlit("/");
    }
    if parts.len() == 1 {
        lemma_last_index(parts[0], '/', -1);
        assert(seq![parts[0]] =~= parts);
    } else {
        let rest = parts.drop_last();
        assert forall|k: int| 0 <= k < rest.len() implies no_slash(#[trigger] rest[k]) by {
            assert(rest[k] == parts[k]);
        }
        lemma_split_join(rest);
        let a = join(rest, "/"@);
        let s = join(parts, "/"@);
        assert(s == a + "/"@ + parts.last());
        assert(s[a.len() as int] == '/');
        assert forall|t: int| a.len() + 1 <= t < s.len() implies s[t] != '/' by {
            assert(s[t] == parts.last()[t - a.len() - 1]);
        }
        lemma_split_at_last(s, a.len() + 1int);
        assert(s.take(a.len() as int) =~= a);
        assert(s.skip(a.len() + 1int) =~= parts.last());
        assert(rest.push(parts.last()) =~= parts);
    }
}

/// Joined pieces start with the first piece.
proof fn lemma_join_starts_with_first(parts: Seq<Seq<char>>, sep: Seq<char>)
    requires
        parts.len() > 0,
    ensures
        join(parts, sep).len() >= parts[0].len(),
        forall|j: int| 0 <= j < parts[0].len() ==> join(parts, sep)[j] == parts[0][j],
    decreases parts.len(),
{
    if parts.len() > 1 {
        lemma_join_starts_with_first(parts.drop_last(), sep);
        assert(parts.drop_last()[0] == parts[0]);
    }
}

/// A download goes below the current directory: its target does not start
/// with `/`, and every piece of it between slashes names something (none is
/// empty, `.` or `..`), as long as the URL parser gives a host and path
/// segments without `/`.
pub proof fn law_download_stays_below(display: Seq<char>)
    requires
        parsed_url(display) matches Ok(u) ==> (u.1 matches Some(h) ==> no_slash(h)),
        parsed_url(display) matches Ok(u) ==> (u.3 matches Some(segs) ==> forall|k: int|
            0 <= k < segs.len() ==> no_slash(#[trigger] segs[k])),
    ensures
        download_path(display) matches Some(p) ==> p.len() > 0 && p[0] != '/' && forall|k: int|
            0 <= k < split_slash(p).len() ==> is_normal_part(#[trigger] split_slash(p)[k]),
{
    let parts = match parsed_url(display) {
        Err(_) => normal_parts(split_slash(display)),
        Ok(u) => (match u.1 {
            Some(h) => if is_normal_part(h) {
                seq![h]
            } else {
                Seq::empty()
            },
            None => Seq::empty(),
        }) + match u.3 {
            Some(segs) => normal_parts(segs),
            None => Seq::empty(),
        },
    };
    match parsed_url(display) {
        Err(_) => {
            lemma_split_no_slash(display);
            lemma_normal_parts(split_slash(display));
        },
        Ok(u) => {
            let host: Seq<Seq<char>> = match u.1 {
                Some(h) => if is_normal_part(h) {
                    seq![h]
                } else {
                    Seq::empty()
                },
                None => Seq::empty(),
            };
            let rest: Seq<Seq<char>> = match u.3 {
                Some(segs) => normal_parts(segs),
                None => Seq::empty(),
            };
            match u.3 {
                Some(segs) => lemma_normal_parts(segs),
                None => {},
            }
            assert forall|k: int| 0 <= k < parts.len() implies is_normal_part(#[trigger] parts[k])
                && no_slash(parts[k]) by {
                if k < host.len() {
                    assert(parts[k] == host[k]);
                } else {
                    assert(parts[k] == rest[k - host.len()]);
                }
            }
        },
    }
    if parts.len() > 0 {
        lemma_split_join(parts);
        lemma_join_starts_with_first(parts, "/"@);
        assert(is_normal_part(parts[0]));
        assert(join(parts, "/"@)[0] == parts[0][0]);
    }
}

/// Where a download of an entry shown as `display_path` goes, relative to the
/// current directory; `None` when nothing of it names a place.
pub fn download_target(display_path: &str) -> (r: Option<String>)
    ensures
        match r {
            Some(p) => download_path(display_path@) == Some(p@),
            None => download_path(display_path@) is None,
        },
{
    let parts: Vec<String> = match parse_url(display_path) {
        Err(_) => {
            let pieces = split_on_slash(display_path);
            keep_normal(&pieces)
        },
        Ok(u) => {
            let mut parts: Vec<String> = Vec::new();
            match &u.host {
                Some(h) => {
                    let hs = h.as_str();
                    proof {
                        reveal_strlit(".");
                        reveal_strlit("..");
                    }
                    if !hs.is_empty() && !str_eq(hs, ".") && !str_eq(hs, "..") {
                        let item = copy_str(hs);
                        parts.push(item);
                        assert(strings_view(parts@) =~= seq![h@]);
                    } else {
                        assert(strings_view(parts@) =~= Seq::<Seq<char>>::empty());
                    }
                },
                None => {
                    assert(strings_view(parts@) =~= Seq::<Seq<char>>::empty());
                },
            }
            let ghost head = strings_view(parts@);
            match &u.segments {
                Some(segs) => {
                    let kept = keep_normal(segs);
                    let mut i: usize = 0;
                    while i < kept.len()
                        invariant
                            i <= kept@.len(),
                            strings_view(parts@) =~= head + strings_view(kept@).take(i as int),
                        decreases kept@.len() - i,
                    {
                        let ghost before = strings_view(parts@);
                        let item = copy_str(kept[i].as_str());
                        parts.push(item);
                        assert(strings_view(parts@) =~= before.push(item@));
                        assert(strings_view(kept@).take(i + 1) =~= strings_view(kept@).take(i as int).push(kept@[i as int]@));
                        i = i + 1;
                    }
                    assert(strings_view(kept@).take(kept@.len() as int) =~= strings_view(kept@));
                },
                None => {
                    assert(strings_view(parts@) =~= head + Seq::<Seq<char>>::empty());
                },
            }
            parts
        },
    };
    if parts.len() == 0 {
        None
    } else {
        Some(join_strings(&parts, "/"))
    }
}

/// What checking an S3 endpoint URL gives: its parse error, a scheme other
/// than http or https, a missing host, or a host with a `...` placeholder.
pub open spec fn endpoint_check(endpoint: Seq<char>) -> Result<(), BrowseErrorView> {
    match parsed_url(endpoint) {
        Err(m) => Err(BrowseErrorView::InvalidArgument(m)),
        Ok(u) => if u.0 != "http"@ && u.0 != "https"@ {
            Err(
                BrowseErrorView::InvalidArgument(
                    "endpoint_url must use http or https, got "@ + u.0,
                ),
            )
        } else {
            match u.1 {
                None => Err(BrowseErrorView::InvalidArgument("endpoint_url must include a host"@)),
                Some(h) => if contains_seq(h, "..."@) {
                    Err(
                        BrowseErrorView::InvalidArgument(
                            "endpoint_url contains placeholder ellipsis"@,
                        ),
                    )
                } else {
                    Ok(())
                },
            }
        },
    }
}

/// The mathematical value of a browser error.
pub enum BrowseErrorView {
    InvalidArgument(Seq<char>),
    NotSupported(Seq<char>),
    Other(Seq<char>),
}

impl BrowseError {
    pub open spec fn error_view(&self) -> BrowseErrorView {
        match self {
            BrowseError::InvalidArgument(m) => BrowseErrorView::InvalidArgument(m@),
            BrowseError::NotSupported(m) => BrowseErrorView::NotSupported(m@),
            BrowseError::Other(m) => BrowseErrorView::Other(m@),
        }
    }
}

/// Checks that an S3 endpoint URL is usable: http or https, with a host that
/// is not a `...` placeholder.
pub fn validate_endpoint_url(endpoint: &str) -> (r: Result<(), BrowseError>)
    ensures
        match r {
            Ok(()) => endpoint_check(endpoint@) == Ok::<(), BrowseErrorView>(()),
            Err(e) => endpoint_check(endpoint@) == Err::<(), BrowseErrorView>(e.error_view()),
        },
{
    let u = match parse_url(endpoint) {
        Ok(u) => u,
        Err(m) => {
            return Err(BrowseError::InvalidArgument(m));
        },
    };
    if !str_eq(u.scheme.as_str(), "http") && !str_eq(u.scheme.as_str(), "https") {
        return Err(
            BrowseError::InvalidArgument(
                concat2("endpoint_url must use http or https, got ", u.scheme.as_str()),
            ),
        );
    }
    match &u.host {
        None => Err(BrowseError::InvalidArgument(copy_str("endpoint_url must include a host"))),
        Some(h) => {
            let hc = chars_of(h.as_str());
            let dots = chars_of("...");
            if contains_chars(hc.as_slice(), dots.as_slice()) {
                Err(BrowseError::InvalidArgument(copy_str("endpoint_url contains placeholder ellipsis")))
            } else {
                Ok(())
            }
        },
    }
}

} // verus!
