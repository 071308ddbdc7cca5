//! Backends: what the browser asks of them, and how a session picks one.
use vstd::prelude::*;
use crate::args::{BrowseError, SessionDetails};
use crate::entry::{pairs_view, FileInfo, InfoView};
use crate::options::{first_nonempty, option_value, StorageOptions};
use crate::text::{
    chars_of, concat2, concat3, contains_chars, contains_seq, copy_str, is_prefix,
    last_index_of, opt_chars, starts_with, str_eq, string_of, trim_end_char,
};
use crate::urls::{endpoint_check, parse_url, parsed_url, validate_endpoint_url, BrowseErrorView};

verus! {

/// What the browser asks of a backend besides reading: its name, whether it
/// previews files without being asked, which entries it can preview, the
/// parent of a path and how a path is shown.
pub trait BrowserBackend {
    spec fn spec_name(&self) -> Seq<char>;

    spec fn spec_auto_preview(&self) -> bool;

    spec fn spec_can_preview(&self, info: InfoView) -> bool;

    spec fn spec_parent(&self, path: Seq<char>) -> Seq<char>;

    spec fn spec_display_path(&self, path: Seq<char>) -> Seq<char>;

    fn name(&self) -> (r: String)
        ensures
            r@ == self.spec_name(),
    ;

    fn auto_preview(&self) -> (r: bool)
        ensures
            r == self.spec_auto_preview(),
    ;

    fn can_preview(&self, info: &FileInfo) -> (r: bool)
        ensures
            r == self.spec_can_preview(info@),
    ;

    fn parent(&self, path: &str) -> (r: String)
        ensures
            r@ == self.spec_parent(path@),
    ;

    fn display_path(&self, path: &str) -> (r: String)
        ensures
            r@ == self.spec_display_path(path@),
    ;
}

/// The parent that a filesystem with `/` separators gives for a path: the
/// path without trailing slashes, cut before its last slash; the root marker
/// when nothing is left.
pub open spec fn fs_parent_of(path: Seq<char>, root_marker: Seq<char>) -> Seq<char> {
    let t = trim_end_char(path, '/');
    match last_index_of(t, '/') {
        None => root_marker,
        Some(i) => if i <= 0 || t.len() == 0 {
            root_marker
        } else {
            t.take(i)
        },
    }
}

/// The parent of a path in a filesystem with `/` separators
/// (`fsspec_rs::FileSystem::parent`).
pub fn fs_parent(path: &str, root_marker: &str) -> (r: String)
    ensures
        r@ == fs_parent_of(path@, root_marker@),
{
    let cs = chars_of(path);
    let mut end = cs.len();
    assert(cs@.take(end as int) =~= cs@);
    while end > 0 && cs[end - 1] == '/'
        invariant
            end <= cs@.len(),
            trim_end_char(path@, '/') == trim_end_char(cs@.take(end as int), '/'),
            cs@ == path@,
        decreases end,
    {
        assert(cs@.take(end as int).drop_last() =~= cs@.take(end - 1));
        end = end - 1;
    }
    let ghost t = cs@.take(end as int);
    assert(trim_end_char(t, '/') == t);
    let mut i = end;
    while i > 0 && cs[i - 1] != '/'
        invariant
            i <= end <= cs@.len(),
            t == cs@.take(end as int),
            forall|j: int| i <= j < end ==> t[j] != '/',
        decreases i,
    {
        i = i - 1;
    }
    proof {
        crate::urls::lemma_last_index(t, '/', i - 1);
    }
    if i <= 1 {
        return copy_str(root_marker);
    }
    assert(cs@.subrange(0, i - 1) =~= t.take(i - 1));
    string_of(vstd::slice::slice_subrange(cs.as_slice(), 0, i - 1))
}

/// The parent of a path for backends with a root marker: the root marker for
/// an empty path, the marker itself or a path without `/`; else the path
/// without trailing slashes cut before its last slash.
pub open spec fn marker_parent_of(path: Seq<char>, root_marker: Seq<char>) -> Seq<char> {
    let t = trim_end_char(path, '/');
    if t.len() == 0 || t == root_marker {
        root_marker
    } else {
        fs_parent_of(path, root_marker)
    }
}

/// The parent of a path for backends with a root marker.
pub fn parent_path(path: &str, root_marker: &str) -> (r: String)
    ensures
        r@ == marker_parent_of(path@, root_marker@),
{
    let cs = chars_of(path);
    let mut end = cs.len();
    assert(cs@.take(end as int) =~= cs@);
    while end > 0 && cs[end - 1] == '/'
        invariant
            end <= cs@.len(),
            trim_end_char(path@, '/') == trim_end_char(cs@.take(end as int), '/'),
            cs@ == path@,
        decreases end,
    {
        assert(cs@.take(end as int).drop_last() =~= cs@.take(end - 1));
        end = end - 1;
    }
    let ghost t = cs@.take(end as int);
    assert(trim_end_char(t, '/') == t);
    let trimmed = string_of(vstd::slice::slice_subrange(cs.as_slice(), 0, end));
    if end == 0 || str_eq(trimmed.as_str(), root_marker) {
        return copy_str(root_marker);
    }
    fs_parent(path, root_marker)
}

/// How a backend over an `fsspec_rs` filesystem shows a path under a root:
/// `protocol://root` for the root itself, else `protocol://root/rest`.
pub open spec fn display_with_root_of(
    protocol: Seq<char>,
    path: Seq<char>,
    root: Seq<char>,
) -> Seq<char> {
    if path == root {
        protocol + "://"@ + root
    } else if is_prefix(root + "/"@, path) {
        protocol + "://"@ + root + "/"@ + path.skip(root.len() + 1int)
    } else {
        protocol + "://"@ + root + "/"@ + path
    }
}

/// A backend over an `fsspec_rs` filesystem, by what the browser needs of it:
/// its name, the protocol it shows paths with, whether it previews without being
/// asked, the bucket it is rooted at (if any) and the filesystem's root marker.
pub struct FsspecBackend {
    pub name: String,
    pub display_protocol: String,
    pub auto_preview: bool,
    pub root: Option<String>,
    pub root_marker: String,
}

impl FsspecBackend {
    /// The backend for the local filesystem.
    pub fn local() -> (r: FsspecBackend)
        ensures
            r.name@ == "local-rs"@,
            r.display_protocol@ == "local-rs"@,
            r.auto_preview,
            r.root is None,
            r.root_marker@ == "/"@,
    {
        FsspecBackend {
            name: copy_str("local-rs"),
            display_protocol: copy_str("local-rs"),
            auto_preview: true,
            root: None,
            root_marker: copy_str("/"),
        }
    }

    /// The backend for an S3 bucket.
    pub fn s3(bucket: &str) -> (r: FsspecBackend)
        ensures
            r.name@ == "s3-rs"@,
            r.display_protocol@ == "s3-rs"@,
            !r.auto_preview,
            r.root matches Some(b) && b@ == bucket@,
            r.root_marker@ == Seq::<char>::empty(),
    {
        FsspecBackend {
            name: copy_str("s3-rs"),
            display_protocol: copy_str("s3-rs"),
            auto_preview: false,
            root: Some(copy_str(bucket)),
            root_marker: String::new(),
        }
    }

    /// A copy of this backend.
    pub fn copy(&self) -> (r: FsspecBackend)
        ensures
            r.name@ == self.name@,
            r.display_protocol@ == self.display_protocol@,
            r.auto_preview == self.auto_preview,
            opt_chars(r.root) == opt_chars(self.root),
            r.root_marker@ == self.root_marker@,
    {
        FsspecBackend {
            name: copy_str(self.name.as_str()),
            display_protocol: copy_str(self.display_protocol.as_str()),
            auto_preview: self.auto_preview,
            root: match &self.root {
                Some(r) => Some(copy_str(r.as_str())),
                None => None,
            },
            root_marker: copy_str(self.root_marker.as_str()),
        }
    }

    /// How a path is shown under a root.
    pub fn display_with_root(&self, path: &str, root: &str) -> (r: String)
        ensures
            r@ == display_with_root_of(self.display_protocol@, path@, root@),
    {
        let proto = self.display_protocol.as_str();
        if str_eq(path, root) {
            return concat3(proto, "://", root);
        }
        let with_slash = concat2(root, "/");
        let pc = chars_of(path);
        let rc = chars_of(with_slash.as_str());
        let mut r = concat3(proto, "://", root);
        crate::text::push_str(&mut r, "/");
        proof {
            reveal_strlit("/");
        }
        if starts_with(pc.as_slice(), rc.as_slice()) {
            let rest = string_of(vstd::slice::slice_subrange(pc.as_slice(), rc.len(), pc.len()));
            crate::text::push_str(&mut r, rest.as_str());
        } else {
            crate::text::push_str(&mut r, path);
        }
        r
    }
}

impl BrowserBackend for FsspecBackend {
    open spec fn spec_name(&self) -> Seq<char> {
        self.name@
    }

    open spec fn spec_auto_preview(&self) -> bool {
        self.auto_preview
    }

    open spec fn spec_can_preview(&self, info: InfoView) -> bool {
        info.is_file()
    }

    /// The root stays put; otherwise the filesystem's parent, or the root
    /// (or the path itself) when that is empty.
    open spec fn spec_parent(&self, path: Seq<char>) -> Seq<char> {
        let root = match self.root {
            Some(r) => Some(r@),
            None => None,
        };
        if root == Some(path) {
            path
        } else {
            let p = fs_parent_of(path, self.root_marker@);
            if p.len() == 0 {
                match root {
                    Some(r) => r,
                    None => path,
                }
            } else {
                p
            }
        }
    }

    open spec fn spec_display_path(&self, path: Seq<char>) -> Seq<char> {
        match self.root {
            Some(r) => display_with_root_of(self.display_protocol@, path, r@),
            None => self.display_protocol@ + "://"@ + path,
        }
    }

    fn name(&self) -> (r: String) {
        copy_str(self.name.as_str())
    }

    fn auto_preview(&self) -> (r: bool) {
        self.auto_preview
    }

    fn can_preview(&self, info: &FileInfo) -> (r: bool) {
        info.is_file()
    }

    fn parent(&self, path: &str) -> (r: String) {
        match &self.root {
            Some(root) => {
                if str_eq(root.as_str(), path) {
                    return copy_str(path);
                }
            },
            None => {},
        }
        let p = fs_parent(path, self.root_marker.as_str());
        if p.as_str().is_empty() {
            match &self.root {
                Some(root) => copy_str(root.as_str()),
                None => copy_str(path),
            }
        } else {
            p
        }
    }

    fn display_path(&self, path: &str) -> (r: String) {
        match &self.root {
            Some(root) => self.display_with_root(path, root.as_str()),
            None => concat3(self.display_protocol.as_str(), "://", path),
        }
    }
}

/// A backend served through Python's fsspec, by what the browser needs of it:
/// its name, the filesystem's root marker, the URL it was opened with and
/// whether it browses a database.
pub struct PythonBackend {
    pub name: String,
    pub root_marker: String,
    pub url: String,
    pub database: bool,
}

/// The value of the first metadata pair with the given key.
pub open spec fn lookup_pair(s: Seq<(Seq<char>, Seq<char>)>, key: Seq<char>) -> Option<Seq<char>>
    decreases s.len(),
{
    if s.len() == 0 {
        None
    } else if s[0].0 == key {
        Some(s[0].1)
    } else {
        lookup_pair(s.drop_first(), key)
    }
}

/// The value of metadata `key`, if the entry has it.
pub open spec fn extra_value(info: InfoView, key: Seq<char>) -> Option<Seq<char>> {
    lookup_pair(info.extra, key)
}

/// The value of metadata `key`, if the entry has it.
pub fn extra_get(info: &FileInfo, key: &str) -> (r: Option<String>)
    ensures
        match r {
            Some(v) => extra_value(info@, key@) == Some(v@),
            None => extra_value(info@, key@) is None,
        },
{
    let ghost pv = pairs_view(info.extra@);
    let mut i: usize = 0;
    assert(pv.skip(0) =~= pv);
    while i < info.extra.len()
        invariant
            i <= info.extra@.len(),
            pv == pairs_view(info.extra@),
            lookup_pair(pv, key@) == lookup_pair(pv.skip(i as int), key@),
        decreases info.extra@.len() - i,
    {
        assert(pv.skip(i as int)[0] == pv[i as int]);
        assert(pv.skip(i as int).drop_first() =~= pv.skip(i + 1));
        if str_eq(info.extra[i].0.as_str(), key) {
            return Some(copy_str(info.extra[i].1.as_str()));
        }
        i = i + 1;
    }
    assert(pv.skip(i as int) =~= Seq::<(Seq<char>, Seq<char>)>::empty());
    None
}

impl PythonBackend {
    /// Whether an entry is a table or view of a database.
    pub open spec fn is_relation(&self, info: InfoView) -> bool {
        self.database && info.is_dir() && (extra_value(info, "kind"@) == Some("table"@)
            || extra_value(info, "kind"@) == Some("view"@))
    }
}

impl BrowserBackend for PythonBackend {
    open spec fn spec_name(&self) -> Seq<char> {
        self.name@
    }

    open spec fn spec_auto_preview(&self) -> bool {
        false
    }

    /// Files, and the tables and views of a database.
    open spec fn spec_can_preview(&self, info: InfoView) -> bool {
        info.is_file() || self.is_relation(info)
    }

    open spec fn spec_parent(&self, path: Seq<char>) -> Seq<char> {
        marker_parent_of(path, self.root_marker@)
    }

    /// The URL itself for the root, else `url::path`.
    open spec fn spec_display_path(&self, path: Seq<char>) -> Seq<char> {
        if path == self.root_marker@ {
            self.url@
        } else {
            self.url@ + "::"@ + path
        }
    }

    fn name(&self) -> (r: String) {
        copy_str(self.name.as_str())
    }

    fn auto_preview(&self) -> (r: bool) {
        false
    }

    fn can_preview(&self, info: &FileInfo) -> (r: bool) {
        if info.is_file() {
            return true;
        }
        if !self.database || !info.is_dir() {
            return false;
        }
        match extra_get(info, "kind") {
            Some(kind) => str_eq(kind.as_str(), "table") || str_eq(kind.as_str(), "view"),
            None => false,
        }
    }

    fn parent(&self, path: &str) -> (r: String) {
        parent_path(path, self.root_marker.as_str())
    }

    fn display_path(&self, path: &str) -> (r: String) {
        if str_eq(path, self.root_marker.as_str()) {
            copy_str(self.url.as_str())
        } else {
            concat3(self.url.as_str(), "::", path)
        }
    }
}


/// The path after the first local-filesystem prefix (`local-rs://`,
/// `file-rs://`, `file://`, `local://`) that the URL starts with.
pub open spec fn local_url_path(url: Seq<char>) -> Option<Seq<char>> {
    if is_prefix("local-rs://"@, url) {
        Some(url.skip("local-rs://"@.len() as int))
    } else if is_prefix("file-rs://"@, url) {
        Some(url.skip("file-rs://"@.len() as int))
    } else if is_prefix("file://"@, url) {
        Some(url.skip("file://"@.len() as int))
    } else if is_prefix("local://"@, url) {
        Some(url.skip("local://"@.len() as int))
    } else {
        None
    }
}

/// The rest of `s` after `prefix`, if `s` starts with it.
fn strip_prefix(s: &[char], prefix: &str) -> (r: Option<String>)
    ensures
        match r {
            Some(t) => is_prefix(prefix@, s@) && t@ == s@.skip(prefix@.len() as int),
            None => !is_prefix(prefix@, s@),
        },
{
    let p = chars_of(prefix);
    if starts_with(s, p.as_slice()) {
        Some(string_of(vstd::slice::slice_subrange(s, p.len(), s.len())))
    } else {
        None
    }
}

/// The local path of a local-filesystem URL.
pub fn strip_local_url(url: &str) -> (r: Option<String>)
    ensures
        match r {
            Some(p) => local_url_path(url@) == Some(p@),
            None => local_url_path(url@) is None,
        },
{
    let cs = chars_of(url);
    match strip_prefix(cs.as_slice(), "local-rs://") {
        Some(p) => {
            return Some(p);
        },
        None => {},
    }
    match strip_prefix(cs.as_slice(), "file-rs://") {
        Some(p) => {
            return Some(p);
        },
        None => {},
    }
    match strip_prefix(cs.as_slice(), "file://") {
        Some(p) => {
            return Some(p);
        },
        None => {},
    }
    strip_prefix(cs.as_slice(), "local://")
}

/// A path with a leading `~` replaced by the home directory: `~` alone becomes
/// the home directory and `~/rest` becomes `home/rest`; without a home
/// directory the path stays as it is.
pub open spec fn expand_tilde(path: Seq<char>, home: Option<Seq<char>>) -> Seq<char> {
    match home {
        None => path,
        Some(h) => if path == "~"@ {
            h
        } else if is_prefix("~/"@, path) {
            h + "/"@ + path.skip("~/"@.len() as int)
        } else {
            path
        },
    }
}

/// Replaces a leading `~` by the home directory.
pub fn shellexpand_tilde(path: &str, home: &Option<String>) -> (r: String)
    ensures
        r@ == expand_tilde(
            path@,
            match home {
                Some(h) => Some(h@),
                None => None,
            },
        ),
{
    match home {
        None => copy_str(path),
        Some(h) => {
            if str_eq(path, "~") {
                return copy_str(h.as_str());
            }
            let cs = chars_of(path);
            match strip_prefix(cs.as_slice(), "~/") {
                Some(rest) => concat3(h.as_str(), "/", rest.as_str()),
                None => copy_str(path),
            }
        },
    }
}

/// A relative path resolved against a directory, as `Path::join` does on Unix:
/// an absolute path stays as it is; otherwise a `/` goes between them unless the
/// directory is empty or already ends with one.
pub open spec fn joined_path(dir: Seq<char>, path: Seq<char>) -> Seq<char> {
    if path.len() > 0 && path[0] == '/' {
        path
    } else if dir.len() == 0 || dir.last() == '/' {
        dir + path
    } else {
        dir + "/"@ + path
    }
}

/// Resolves a path against a directory.
pub fn join_path(dir: &str, path: &str) -> (r: String)
    ensures
        r@ == joined_path(dir@, path@),
{
    let pc = chars_of(path);
    if pc.len() > 0 && pc[0] == '/' {
        return copy_str(path);
    }
    let dc = chars_of(dir);
    if dc.len() == 0 || dc[dc.len() - 1] == '/' {
        concat2(dir, path)
    } else {
        concat3(dir, "/", path)
    }
}

/// Settings of an S3 filesystem taken from the storage options.
pub struct S3Options {
    pub access_key_id: Option<String>,
    pub secret_access_key: Option<String>,
    pub endpoint_url: Option<String>,
    pub session_token: Option<String>,
    pub region: Option<String>,
    pub anon: bool,
}


/// Whether an option value turns anonymous access on.
pub open spec fn is_yes(v: Seq<char>) -> bool {
    v == "1"@ || v == "true"@ || v == "True"@ || v == "yes"@
}

impl S3Options {
    /// These settings are those that the storage options give: each from the
    /// first of its keys with a non-empty value, anonymous access when `anon` is
    /// `1`, `true`, `True` or `yes`.
    pub open spec fn from_options(&self, options: Map<Seq<char>, Seq<char>>) -> bool {
        &&& opt_chars(self.access_key_id) == first_nonempty(options, seq!["key"@, "access_key_id"@])
        &&& opt_chars(self.secret_access_key) == first_nonempty(
            options,
            seq!["secret"@, "secret_access_key"@],
        )
        &&& opt_chars(self.endpoint_url) == first_nonempty(options, seq!["endpoint_url"@, "endpoint"@])
        &&& opt_chars(self.session_token) == first_nonempty(options, seq!["token"@, "session_token"@])
        &&& opt_chars(self.region) == first_nonempty(options, seq!["region"@])
        &&& self.anon == match first_nonempty(options, seq!["anon"@]) {
            Some(v) => is_yes(v),
            None => false,
        }
    }
}

/// The value of the first of two keys with a non-empty value.
fn first_of_two(options: &StorageOptions, a: &str, b: &str) -> (r: Option<String>)
    ensures
        opt_chars(r) == first_nonempty(options@, seq![a@, b@]),
{
    let keys = [a, b];
    let r = option_value(options, &keys);
    assert(keys@.map_values(|k: &str| k@) =~= seq![a@, b@]);
    r
}

/// The value of a key when it is non-empty.
fn only_key(options: &StorageOptions, a: &str) -> (r: Option<String>)
    ensures
        opt_chars(r) == first_nonempty(options@, seq![a@]),
{
    let keys = [a];
    let r = option_value(options, &keys);
    assert(keys@.map_values(|k: &str| k@) =~= seq![a@]);
    r
}

/// Reads the S3 settings from storage options.
pub fn apply_s3_options(options: &StorageOptions) -> (r: S3Options)
    ensures
        r.from_options(options@),
{
    let anon = match only_key(options, "anon") {
        Some(v) => {
            let t = v.as_str();
            str_eq(t, "1") || str_eq(t, "true") || str_eq(t, "True") || str_eq(t, "yes")
        },
        None => false,
    };
    S3Options {
        access_key_id: first_of_two(options, "key", "access_key_id"),
        secret_access_key: first_of_two(options, "secret", "secret_access_key"),
        endpoint_url: first_of_two(options, "endpoint_url", "endpoint"),
        session_token: first_of_two(options, "token", "session_token"),
        region: only_key(options, "region"),
        anon,
    }
}

/// Checks the endpoint of S3 settings, when they have one.
pub fn validate_s3_config(cfg: &S3Options) -> (r: Result<(), BrowseError>)
    ensures
        match cfg.endpoint_url {
            Some(e) => match r {
                Ok(()) => endpoint_check(e@) == Ok::<(), BrowseErrorView>(()),
                Err(err) => endpoint_check(e@) == Err::<(), BrowseErrorView>(err.error_view()),
            },
            None => r is Ok,
        },
{
    match &cfg.endpoint_url {
        Some(e) => validate_endpoint_url(e.as_str()),
        None => Ok(()),
    }
}

/// `s` without its leading slashes.
pub open spec fn trim_start_slashes(s: Seq<char>) -> Seq<char>
    decreases s.len(),
{
    if s.len() > 0 && s[0] == '/' {
        trim_start_slashes(s.drop_first())
    } else {
        s
    }
}

/// How a session is opened.
pub enum BackendPlan {
    /// The local filesystem, starting at a path; a relative path is resolved
    /// against the current directory.
    Local { start: String, relative: bool },
    /// An S3 bucket, starting at `bucket` or `bucket/key`.
    S3 { bucket: String, start: String, options: S3Options },
    /// A protocol that needs a backend from elsewhere.
    Other { protocol: String },
}

impl BackendPlan {
    /// Whether this plan is the one that a session URL and its options call for,
    /// given the home directory: a URL without `://` is a local path (with `~`
    /// expanded); a local-filesystem URL gives its path; `s3://` and `s3-rs://`
    /// URLs give their bucket, the key below it and the S3 settings; any other
    /// protocol is left to another backend.
    pub open spec fn planned(
        self,
        url: Seq<char>,
        options: Map<Seq<char>, Seq<char>>,
        home: Option<Seq<char>>,
    ) -> bool {
        if !contains_seq(url, "://"@) {
            let p = expand_tilde(url, home);
            self matches BackendPlan::Local { start, relative } && start@ == p && relative == !(p.len() > 0
                && p[0] == '/')
        } else if local_url_path(url) is Some {
            self matches BackendPlan::Local { start, relative } && start@ == local_url_path(url)->0
                && !relative
        } else {
            match parsed_url(url) {
                Ok(u) => if u.0 == "s3-rs"@ || u.0 == "s3"@ {
                    self matches BackendPlan::S3 { bucket, start, options: o } && u.1 == Some(bucket@)
                        && start@ == (if trim_start_slashes(u.2).len() == 0 {
                        bucket@
                    } else {
                        bucket@ + "/"@ + trim_start_slashes(u.2)
                    }) && o.from_options(options)
                } else {
                    self matches BackendPlan::Other { protocol } && protocol@ == u.0
                },
                Err(_) => false,
            }
        }
    }
}

/// Why a session URL and its options cannot be opened: a URL that does not
/// parse, an S3 URL without a bucket, or an unusable S3 endpoint.
pub open spec fn plan_error(
    url: Seq<char>,
    options: Map<Seq<char>, Seq<char>>,
) -> Option<BrowseErrorView> {
    if !contains_seq(url, "://"@) || local_url_path(url) is Some {
        None
    } else {
        match parsed_url(url) {
            Err(m) => Some(BrowseErrorView::InvalidArgument(m)),
            Ok(u) => if u.0 == "s3-rs"@ || u.0 == "s3"@ {
                match u.1 {
                    None => Some(BrowseErrorView::InvalidArgument("S3 URL must include a bucket"@)),
                    Some(_) => match first_nonempty(options, seq!["endpoint_url"@, "endpoint"@]) {
                        Some(e) => match endpoint_check(e) {
                            Err(err) => Some(err),
                            Ok(()) => None,
                        },
                        None => None,
                    },
                }
            } else {
                None
            },
        }
    }
}

/// Decides how to open a session: the local filesystem, an S3 bucket, or a
/// backend from elsewhere for another protocol.
pub fn build_backend(session: &SessionDetails, home: &Option<String>) -> (r: Result<
    BackendPlan,
    BrowseError,
>)
    ensures
        match r {
            Ok(plan) => plan_error(session.url@, session.storage_options@) is None && plan.planned(
                session.url@,
                session.storage_options@,
                match home {
                    Some(h) => Some(h@),
                    None => None,
                },
            ),
            Err(e) => plan_error(session.url@, session.storage_options@) == Some(e.error_view()),
        },
{
    let url = session.url.as_str();
    let cs = chars_of(url);
    let sep = chars_of("://");
    if !contains_chars(cs.as_slice(), sep.as_slice()) {
        let start = shellexpand_tilde(url, home);
        let sc = chars_of(start.as_str());
        let relative = !(sc.len() > 0 && sc[0] == '/');
        return Ok(BackendPlan::Local { start, relative });
    }
    match strip_local_url(url) {
        Some(path) => {
            return Ok(BackendPlan::Local { start: path, relative: false });
        },
        None => {},
    }
    let parsed = match parse_url(url) {
        Ok(u) => u,
        Err(m) => {
            return Err(BrowseError::InvalidArgument(m));
        },
    };
    let scheme = parsed.scheme.as_str();
    if str_eq(scheme, "s3-rs") || str_eq(scheme, "s3") {
        let bucket = match &parsed.host {
            Some(h) => copy_str(h.as_str()),
            None => {
                return Err(BrowseError::InvalidArgument(copy_str("S3 URL must include a bucket")));
            },
        };
        let pc = chars_of(parsed.path.as_str());
        let mut k: usize = 0;
        assert(pc@.skip(0) =~= pc@);
        while k < pc.len() && pc[k] == '/'
            invariant
                k <= pc@.len(),
                trim_start_slashes(pc@) == trim_start_slashes(pc@.skip(k as int)),
            decreases pc@.len() - k,
        {
            assert(pc@.skip(k as int).drop_first() =~= pc@.skip(k + 1));
            k = k + 1;
        }
        let key = string_of(vstd::slice::slice_subrange(pc.as_slice(), k, pc.len()));
        assert(key@ == trim_start_slashes(pc@));
        let start = if k == pc.len() {
            copy_str(bucket.as_str())
        } else {
            concat3(bucket.as_str(), "/", key.as_str())
        };
        let options = apply_s3_options(&session.storage_options);
        match validate_s3_config(&options) {
            Ok(()) => {},
            Err(e) => {
                return Err(e);
            },
        }
        Ok(BackendPlan::S3 { bucket, start, options })
    } else {
        Ok(BackendPlan::Other { protocol: copy_str(scheme) })
    }
}

/// The error for a protocol that no backend here serves.
pub open spec fn unsupported_error(protocol: Seq<char>) -> BrowseErrorView {
    BrowseErrorView::NotSupported(
        "Rust browser does not yet have a native backend for protocol: "@ + protocol,
    )
}

/// The error for a protocol that no backend here serves.
pub fn unsupported_backend(protocol: &str) -> (r: BrowseError)
    ensures
        r.error_view() == unsupported_error(protocol@),
{
    BrowseError::NotSupported(
        concat2("Rust browser does not yet have a native backend for protocol: ", protocol),
    )
}

/// A backend rooted at a bucket never goes above it: the root is its own
/// parent.
pub proof fn law_root_is_own_parent(b: FsspecBackend)
    requires
        b.root is Some,
    ensures
        b.spec_parent(b.root.unwrap()@) == b.root.unwrap()@,
{
}

} // verus!
