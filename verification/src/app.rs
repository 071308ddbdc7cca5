//! The browser's state and its transitions.
use vstd::prelude::*;
use crate::app_spec::{
    app_wf, busy_message, entries_ok, load_more, page_applied, rebuilt, result_applied,
    row_index_named, row_index_of, row_named, sat_add, started_download, started_list,
    started_preview, with_message, with_page, AppView, CacheView, JobView, PaneFocus, PendingView,
    ResultView,
};
use crate::backend::BrowserBackend;
use crate::entry::{FileInfo, InfoView, ListPage, PreviewPage};
use crate::render::{bytes_to_preview_lines, strings_view};
use crate::tree::{
    build_rows, copy_path, id_at, node_at, nodes_view, rows_view, tree_wf, EntryNode,
    NodeView, RowKind, RowView, VisibleRow,
};
use crate::text::{concat2, copy_str, opt_chars, push_str, str_eq, usize_text};

verus! {

/// The lines read for a preview and where reading goes on.
pub struct PreviewCache {
    pub lines: Vec<String>,
    pub next_offset: usize,
    pub has_more: bool,
}

impl View for PreviewCache {
    type V = CacheView;

    open spec fn view(&self) -> CacheView {
        CacheView {
            lines: strings_view(self.lines@),
            next_offset: self.next_offset,
            has_more: self.has_more,
        }
    }
}

/// The map that cached previews denote: a later entry overrides an earlier one.
pub open spec fn cache_map(s: Seq<(String, PreviewCache)>) -> Map<Seq<char>, CacheView>
    decreases s.len(),
{
    if s.len() == 0 {
        Map::empty()
    } else {
        cache_map(s.drop_last()).insert(s.last().0@, s.last().1@)
    }
}

/// Each path has at most one cached preview.
pub open spec fn cache_keys_unique(s: Seq<(String, PreviewCache)>) -> bool {
    forall|i: int, j: int| 0 <= i < j < s.len() ==> (#[trigger] s[i]).0@ != (#[trigger] s[j]).0@
}

/// The background job that is running.
pub enum PendingKind {
    ListPage { node_path: Vec<usize>, dir: String, offset: usize, select_after: Option<String> },
    Preview { path: String, size: u64, offset: usize },
    Download { display_path: String, local: String },
}

/// What a background job asks of the backend.
pub enum Job {
    ListPage { dir: String, offset: usize, limit: usize },
    Preview { path: String, offset: usize, limit: usize },
    Download { path: String, local: String },
}

/// What a background job gave back.
pub enum JobResult {
    ListPage(Result<ListPage, String>),
    Preview(Result<PreviewPage, String>),
    Download(Result<(), String>),
}


pub open spec fn pending_view(p: Option<PendingKind>) -> Option<PendingView> {
    match p {
        None => None,
        Some(PendingKind::ListPage { node_path, dir, offset, select_after }) => Some(
            PendingView::ListPage {
                node_path: node_path@,
                dir: dir@,
                offset,
                select_after: opt_chars(select_after),
            },
        ),
        Some(PendingKind::Preview { path, size, offset }) => Some(
            PendingView::Preview { path: path@, size, offset },
        ),
        Some(PendingKind::Download { display_path, local }) => Some(
            PendingView::Download { display_path: display_path@, local: local@ },
        ),
    }
}

pub open spec fn job_view(j: Option<Job>) -> Option<JobView> {
    match j {
        None => None,
        Some(Job::ListPage { dir, offset, limit }) => Some(
            JobView::ListPage { dir: dir@, offset, limit },
        ),
        Some(Job::Preview { path, offset, limit }) => Some(
            JobView::Preview { path: path@, offset, limit },
        ),
        Some(Job::Download { path, local }) => Some(JobView::Download { path: path@, local: local@ }),
    }
}

impl JobResult {
    pub open spec fn result_view(&self) -> ResultView {
        match self {
            JobResult::ListPage(Ok(p)) => ResultView::ListPage(
                Ok((p.entries@.map_values(|e: crate::entry::FileInfo| e@), p.has_more)),
            ),
            JobResult::ListPage(Err(e)) => ResultView::ListPage(Err(e@)),
            JobResult::Preview(Ok(p)) => ResultView::Preview(
                Ok((p.bytes@, p.has_more, p.next_offset)),
            ),
            JobResult::Preview(Err(e)) => ResultView::Preview(Err(e@)),
            JobResult::Download(Ok(())) => ResultView::Download(Ok(())),
            JobResult::Download(Err(e)) => ResultView::Download(Err(e@)),
        }
    }

    /// The entries of a listed page can have their times shown.
    pub open spec fn result_ok(&self) -> bool {
        match self {
            JobResult::ListPage(Ok(p)) => entries_ok(p.entries@.map_values(|e: crate::entry::FileInfo| e@)),
            _ => true,
        }
    }
}

/// The terminal browser: a backend, the tree of loaded entries, the rows they
/// show, the selection, the preview pane and the running background job.
pub struct BrowserApp<B: BrowserBackend> {
    pub backend: B,
    pub backend_name: String,
    pub nodes: Vec<EntryNode>,
    pub rows: Vec<VisibleRow>,
    pub selected: usize,
    pub page_size: usize,
    pub preview_bytes: usize,
    pub message: String,
    pub preview_cache: Vec<(String, PreviewCache)>,
    pub preview_requests: Vec<String>,
    pub preview_scroll: u16,
    pub preview_horizontal: u16,
    pub active_preview_path: Option<String>,
    pub focus: PaneFocus,
    pub command_prefix: bool,
    pub new_session_requested: bool,
    pub pending: Option<PendingKind>,
    /// The job that was started last and has not been handed out yet.
    pub started: Option<Job>,
}

impl<B: BrowserBackend> View for BrowserApp<B> {
    type V = AppView;

    open spec fn view(&self) -> AppView {
        AppView {
            name: self.backend_name@,
            nodes: nodes_view(self.nodes@),
            rows: rows_view(self.rows@),
            selected: self.selected as int,
            page_size: self.page_size,
            preview_bytes: self.preview_bytes,
            message: self.message@,
            cache: cache_map(self.preview_cache@),
            requests: strings_view(self.preview_requests@).to_set(),
            scroll: self.preview_scroll,
            horizontal: self.preview_horizontal,
            active: opt_chars(self.active_preview_path),
            focus: self.focus,
            command_prefix: self.command_prefix,
            new_session: self.new_session_requested,
            pending: pending_view(self.pending),
            started: job_view(self.started),
        }
    }
}

/// Looking up a path from the end of the cached previews finds what the map holds.
pub proof fn lemma_cache_lookup(s: Seq<(String, PreviewCache)>, key: Seq<char>, i: int)
    requires
        0 <= i <= s.len(),
        forall|j: int| i <= j < s.len() ==> (#[trigger] s[j]).0@ != key,
    ensures
        cache_map(s).contains_key(key) == cache_map(s.take(i)).contains_key(key),
        cache_map(s).contains_key(key) ==> cache_map(s)[key] == cache_map(s.take(i))[key],
    decreases s.len() - i,
{
    if i < s.len() {
        lemma_cache_lookup(s, key, i + 1);
        assert(s.take(i + 1).drop_last() =~= s.take(i));
    } else {
        assert(s.take(i) =~= s);
    }
}

/// Replacing the last entry for a key replaces the key's value.
proof fn lemma_cache_update(s: Seq<(String, PreviewCache)>, j: int, e: (String, PreviewCache))
    requires
        0 <= j < s.len(),
        e.0@ == s[j].0@,
        forall|t: int| j < t < s.len() ==> (#[trigger] s[t]).0@ != s[j].0@,
    ensures
        cache_map(s.update(j, e)) == cache_map(s).insert(e.0@, e.1@),
    decreases s.len(),
{
    if j < s.len() - 1 {
        lemma_cache_update(s.drop_last(), j, e);
        assert(s.update(j, e).drop_last() =~= s.drop_last().update(j, e));
    } else {
        assert(s.update(j, e).drop_last() =~= s.drop_last());
    }
}

/// Under a well-formed tree, paths lead to nodes within the vector.
proof fn lemma_id_at_in_range(nodes: Seq<NodeView>, id: int, path: Seq<usize>)
    requires
        tree_wf(nodes),
        0 <= id < nodes.len(),
    ensures
        id_at(nodes, id, path) matches Some(x) ==> 0 <= x < nodes.len(),
    decreases path.len(),
{
    if path.len() > 0 && path[0] < nodes[id].children.len() {
        let c = nodes[id].children[path[0] as int] as int;
        assert(id < c < nodes.len());
        lemma_id_at_in_range(nodes, c, path.drop_first());
    }
}

/// The node a path leads to.
pub fn node_id(nodes: &Vec<EntryNode>, path: &Vec<usize>) -> (r: Option<usize>)
    requires
        tree_wf(nodes_view(nodes@)),
    ensures
        match r {
            Some(id) => id < nodes@.len() && id_at(nodes_view(nodes@), 0, path@) == Some(id as int)
                && node_at(nodes_view(nodes@), path@) == Some(nodes_view(nodes@)[id as int]),
            None => id_at(nodes_view(nodes@), 0, path@) is None && node_at(
                nodes_view(nodes@),
                path@,
            ) is None,
        },
{
    let ghost nv = nodes_view(nodes@);
    let mut id: usize = 0;
    let mut i: usize = 0;
    assert(path@.skip(0) =~= path@);
    while i < path.len()
        invariant
            nv == nodes_view(nodes@),
            tree_wf(nv),
            id < nodes@.len(),
            i <= path@.len(),
            id_at(nv, 0, path@) == id_at(nv, id as int, path@.skip(i as int)),
        decreases path@.len() - i,
    {
        let k = path[i];
        assert(path@.skip(i as int)[0] == k);
        assert(path@.skip(i as int).drop_first() =~= path@.skip(i + 1));
        assert(nv[id as int] == nodes@[id as int]@);
        if k >= nodes[id].children.len() {
            return None;
        }
        let c = nodes[id].children[k];
        assert(nv[id as int].children[k as int] == c);
        id = c;
        i = i + 1;
    }
    assert(path@.skip(i as int) =~= Seq::<usize>::empty());
    Some(id)
}

/// A copy of a string list.
pub fn copy_strings(v: &Vec<String>) -> (r: Vec<String>)
    ensures
        strings_view(r@) == strings_view(v@),
{
    let mut r: Vec<String> = Vec::new();
    let mut i: usize = 0;
    while i < v.len()
        invariant
            i <= v@.len(),
            strings_view(r@) =~= strings_view(v@).take(i as int),
        decreases v@.len() - i,
    {
        let ghost before = strings_view(r@);
        let item = copy_str(v[i].as_str());
        r.push(item);
        assert(strings_view(r@) =~= before.push(item@));
        assert(strings_view(v@).take(i + 1) =~= strings_view(v@).take(i as int).push(v@[i as int]@));
        i = i + 1;
    }
    assert(strings_view(v@).take(v@.len() as int) =~= strings_view(v@));
    r
}

/// Whether two paths are equal.
fn paths_eq(a: &Vec<usize>, b: &Vec<usize>) -> (r: bool)
    ensures
        r == (a@ == b@),
{
    if a.len() != b.len() {
        return false;
    }
    let mut i: usize = 0;
    while i < a.len()
        invariant
            i <= a@.len(),
            a@.len() == b@.len(),
            forall|j: int| 0 <= j < i ==> a@[j] == b@[j],
        decreases a@.len() - i,
    {
        if a[i] != b[i] {
            return false;
        }
        i = i + 1;
    }
    assert(a@ =~= b@);
    true
}

impl<B: BrowserBackend> BrowserApp<B> {
    /// The state is one the browser can be in.
    pub open spec fn wf(&self) -> bool {
        app_wf(self@) && cache_keys_unique(self.preview_cache@)
    }

    /// A browser on `backend` at `start_path`, listing its first page.
    pub fn new(backend: B, start_path: &str, page_size: usize, preview_bytes: usize) -> (r: Self)
        ensures
            r.wf(),
            r.backend == backend,
            r@.name == backend.spec_name(),
            r@.nodes == seq![crate::tree::root_node_view(crate::entry::folder_info(start_path@))],
            r@.rows.len() == 0,
            r@.selected == 0,
            r@.page_size == page_size,
            r@.preview_bytes == preview_bytes,
            r@.cache == Map::<Seq<char>, CacheView>::empty(),
            r@.requests == Set::<Seq<char>>::empty(),
            r@.scroll == 0 && r@.horizontal == 0,
            r@.active is None,
            r@.focus == PaneFocus::Browser,
            !r@.command_prefix && !r@.new_session,
            r@.message == "loading "@ + backend.spec_display_path(start_path@),
            r@.pending == Some(
                PendingView::ListPage {
                    node_path: Seq::empty(),
                    dir: start_path@,
                    offset: 0,
                    select_after: None,
                },
            ),
            r@.started == Some(JobView::ListPage { dir: start_path@, offset: 0, limit: page_size }),
    {
        let backend_name = backend.name();
        let mut nodes: Vec<EntryNode> = Vec::new();
        nodes.push(EntryNode::root(start_path));
        let mut app = BrowserApp {
            backend,
            backend_name,
            nodes,
            rows: Vec::new(),
            selected: 0,
            page_size,
            preview_bytes,
            message: String::new(),
            preview_cache: Vec::new(),
            preview_requests: Vec::new(),
            preview_scroll: 0,
            preview_horizontal: 0,
            active_preview_path: None,
            focus: PaneFocus::Browser,
            command_prefix: false,
            new_session_requested: false,
            pending: None,
            started: None,
        };
        assert(app@.nodes =~= seq![crate::tree::root_node_view(crate::entry::folder_info(start_path@))]);
        assert(strings_view(app.preview_requests@).to_set() =~= Set::<Seq<char>>::empty());
        let path: Vec<usize> = Vec::new();
        app.load_more_at(&path);
        assert(app@.nodes =~= seq![crate::tree::root_node_view(crate::entry::folder_info(start_path@))]);
        app
    }

    /// The name of the folder being browsed.
    pub fn root_name(&self) -> (r: String)
        requires
            self.wf(),
        ensures
            r@ == self@.nodes[0].info.name,
    {
        assert(self@.nodes[0] == self.nodes@[0]@);
        copy_str(self.nodes[0].info.name.as_str())
    }

    /// The node that a path of child positions leads to.
    pub fn node_ref(&self, path: &Vec<usize>) -> (r: Option<&EntryNode>)
        requires
            self.wf(),
        ensures
            match r {
                Some(n) => node_at(self@.nodes, path@) == Some(n@),
                None => node_at(self@.nodes, path@) is None,
            },
    {
        match node_id(&self.nodes, path) {
            Some(id) => Some(&self.nodes[id]),
            None => None,
        }
    }

    /// How the backend shows a path.
    pub fn display_path(&self, path: &str) -> (r: String)
        ensures
            r@ == self.backend.spec_display_path(path@),
    {
        self.backend.display_path(path)
    }

    /// The backend's parent of a path.
    pub fn parent_path(&self, path: &str) -> (r: String)
        ensures
            r@ == self.backend.spec_parent(path@),
    {
        self.backend.parent(path)
    }

    /// Whether the backend previews files without being asked.
    pub fn auto_preview(&self) -> (r: bool)
        ensures
            r == self.backend.spec_auto_preview(),
    {
        self.backend.auto_preview()
    }

    /// Whether the backend can preview an entry.
    pub fn can_preview(&self, info: &FileInfo) -> (r: bool)
        ensures
            r == self.backend.spec_can_preview(info@),
    {
        self.backend.can_preview(info)
    }

    /// Asks for a new session.
    pub fn request_new_session(&mut self)
        ensures
            final(self)@ == (AppView { new_session: true, ..old(self)@ }),
            final(self).backend == old(self).backend,
            old(self).wf() ==> final(self).wf(),
    {
        self.new_session_requested = true;
    }

    /// Whether a new session was asked for; the request is then cleared.
    pub fn take_new_session_request(&mut self) -> (r: bool)
        ensures
            r == old(self)@.new_session,
            final(self)@ == (AppView { new_session: false, ..old(self)@ }),
            final(self).backend == old(self).backend,
            old(self).wf() ==> final(self).wf(),
    {
        let requested = self.new_session_requested;
        self.new_session_requested = false;
        requested
    }

    /// The job that was started last, handed out once.
    pub fn take_started_job(&mut self) -> (r: Option<Job>)
        ensures
            job_view(r) == old(self)@.started,
            final(self)@ == (AppView { started: None, ..old(self)@ }),
            final(self).backend == old(self).backend,
            old(self).wf() ==> final(self).wf(),
    {
        self.started.take()
    }

    /// Whether a background job runs; if so, the message says that the
    /// browser is busy.
    pub fn is_busy(&mut self) -> (r: bool)
        ensures
            r == old(self)@.pending is Some,
            final(self)@ == (if r {
                with_message(old(self)@, busy_message())
            } else {
                old(self)@
            }),
            final(self).backend == old(self).backend,
            old(self).wf() ==> final(self).wf(),
    {
        if self.pending.is_some() {
            self.message = copy_str("busy; press q or ctrl-c to quit");
            return true;
        }
        false
    }

    /// The background job ended without a result.
    pub fn job_lost(&mut self)
        ensures
            final(self)@ == (AppView {
                pending: None,
                message: "background operation failed"@,
                ..old(self)@
            }),
            final(self).backend == old(self).backend,
            old(self).wf() ==> final(self).wf(),
    {
        self.pending = None;
        self.message = copy_str("background operation failed");
    }

    /// Rebuilds the rows from the tree and keeps the selection within them.
    pub fn rebuild_rows(&mut self)
        requires
            old(self).wf(),
        ensures
            final(self).wf(),
            final(self)@ == rebuilt(old(self)@),
            final(self).backend == old(self).backend,
    {
        self.rows = build_rows(&self.nodes);
        let n = self.rows.len();
        if self.selected >= n {
            self.selected = if n > 0 { n - 1 } else { 0 };
        }
    }

    /// Starts listing `dir` from `offset` for the node at `path`.
    pub(crate) fn start_list_page(
        &mut self,
        path: Vec<usize>,
        dir: String,
        offset: usize,
        select_after: Option<String>,
    )
        ensures
            final(self)@ == started_list(
                old(self).backend,
                old(self)@,
                path@,
                dir@,
                offset,
                opt_chars(select_after),
            ),
            final(self).backend == old(self).backend,
            old(self).wf() ==> final(self).wf(),
    {
        self.message = concat2("loading ", self.backend.display_path(dir.as_str()).as_str());
        self.started = Some(Job::ListPage { dir: copy_str(dir.as_str()), offset, limit: self.page_size });
        self.pending = Some(PendingKind::ListPage { node_path: path, dir, offset, select_after });
    }

    /// Starts reading preview bytes of `path` from `offset`.
    pub(crate) fn start_preview(&mut self, path: String, size: u64, offset: usize)
        ensures
            final(self)@ == started_preview(old(self)@, path@, size, offset),
            final(self).backend == old(self).backend,
            old(self).wf() ==> final(self).wf(),
    {
        self.started = Some(
            Job::Preview { path: copy_str(path.as_str()), offset, limit: self.preview_bytes },
        );
        self.pending = Some(PendingKind::Preview { path, size, offset });
    }

    /// Starts downloading `path` to `local`.
    pub(crate) fn start_download(&mut self, path: String, display_path: String, local: String)
        ensures
            final(self)@ == started_download(old(self)@, path@, display_path@, local@),
            final(self).backend == old(self).backend,
            old(self).wf() ==> final(self).wf(),
    {
        self.message = concat2("downloading ", display_path.as_str());
        self.started = Some(Job::Download { path, local: copy_str(local.as_str()) });
        self.pending = Some(PendingKind::Download { display_path, local });
    }

    /// Loads more entries of the directory at `path`.
    pub fn load_more_at(&mut self, path: &Vec<usize>)
        requires
            old(self).wf(),
        ensures
            final(self).wf(),
            final(self)@ == load_more(old(self).backend, old(self)@, path@),
            final(self).backend == old(self).backend,
    {
        if self.is_busy() {
            return;
        }
        match node_id(&self.nodes, path) {
            None => {},
            Some(id) => {
                assert(self@.nodes[id as int] == self.nodes@[id as int]@);
                if !self.nodes[id].info.is_dir() || self.nodes[id].exhausted {
                    self.rebuild_rows();
                    return;
                }
                let dir = copy_str(self.nodes[id].info.name.as_str());
                let offset = self.nodes[id].next_offset;
                self.start_list_page(copy_path(path), dir, offset, None);
            },
        }
    }
}


/// Appends a fresh node for each entry, and lists the new nodes as children of `node`.
fn add_children(nodes: &mut Vec<EntryNode>, node: &mut EntryNode, entries: &Vec<FileInfo>)
    ensures
        nodes_view(final(nodes)@) == nodes_view(old(nodes)@) + entries@.map_values(
            |e: FileInfo| e@,
        ).map_values(|e: InfoView| crate::tree::new_node_view(e)),
        final(nodes)@.len() == old(nodes)@.len() + entries@.len(),
        final(node)@ == (NodeView {
            children: old(node)@.children + Seq::new(
                entries@.len(),
                |k: int| (old(nodes)@.len() + k) as usize,
            ),
            ..old(node)@
        }),
{
    let ghost n0 = nodes_view(nodes@);
    let ghost c0 = node@.children;
    let ghost ev = entries@.map_values(|e: FileInfo| e@);
    let ghost len0 = nodes@.len();
    let ghost node0 = node@;
    let count = entries.len();
    let mut i: usize = 0;
    while i < count
        invariant
            i <= count,
            count == entries@.len(),
            ev == entries@.map_values(|e: FileInfo| e@),
            nodes@.len() == len0 + i,
            nodes_view(nodes@) =~= n0 + ev.take(i as int).map_values(
                |e: InfoView| crate::tree::new_node_view(e),
            ),
            node@ == (NodeView {
                children: c0 + Seq::new(i as nat, |k: int| (len0 + k) as usize),
                ..node0
            }),
        decreases count - i,
    {
        let child = nodes.len();
        let ghost before = nodes_view(nodes@);
        let ghost children_before = node@.children;
        let info = entries[i].copy();
        nodes.push(EntryNode::new(info));
        node.children.push(child);
        assert(ev.take(i + 1) =~= ev.take(i as int).push(ev[i as int]));
        assert(nodes_view(nodes@) =~= before.push(crate::tree::new_node_view(ev[i as int])));
        assert(node@.children =~= c0 + Seq::new((i + 1) as nat, |k: int| (len0 + k) as usize));
        i = i + 1;
    }
    assert(ev.take(count as int) =~= ev);
}

/// Adding a listed page keeps the tree well formed and its times showable.
proof fn lemma_with_page_wf(
    nodes: Seq<NodeView>,
    id: int,
    entries: Seq<InfoView>,
    offset: usize,
    has_more: bool,
)
    requires
        tree_wf(nodes),
        0 <= id < nodes.len(),
        nodes.len() + entries.len() <= usize::MAX,
        entries_ok(entries),
    ensures
        tree_wf(with_page(nodes, id, entries, offset, has_more)),
        with_page(nodes, id, entries, offset, has_more).len() == nodes.len() + entries.len(),
        forall|i: int|
            0 <= i < nodes.len() ==> (#[trigger] with_page(nodes, id, entries, offset, has_more)[
                i
            ]).info == nodes[i].info,
        forall|i: int|
            nodes.len() <= i < nodes.len() + entries.len() ==> (#[trigger] with_page(
                nodes,
                id,
                entries,
                offset,
                has_more,
            )[i]).info == entries[i - nodes.len()],
{
    let w = with_page(nodes, id, entries, offset, has_more);
    let grown = nodes + entries.map_values(|e: InfoView| crate::tree::new_node_view(e));
    assert(w.len() == nodes.len() + entries.len());
    assert forall|a: int, k: int|
        0 <= a < w.len() && 0 <= k < w[a].children.len() implies a < (#[trigger] w[a].children[k])
        < w.len() by {
        if a == id {
            let n = nodes[id];
            assert(w[a].children == n.children + Seq::new(
                entries.len(),
                |i: int| (nodes.len() + i) as usize,
            ));
            if k < n.children.len() {
                assert(w[a].children[k] == nodes[id].children[k]);
                assert(id < nodes[id].children[k] < nodes.len());
            } else {
                let added = Seq::new(entries.len(), |i: int| (nodes.len() + i) as usize);
                assert(added[k - n.children.len()] == (nodes.len() + (k - n.children.len())) as usize);
                assert(w[a].children[k] == added[k - n.children.len()]);
            }
        } else if a < nodes.len() {
            assert(w[a] == nodes[a]);
            assert(nodes[a].children[k] == w[a].children[k]);
        } else {
            assert(w[a] == grown[a]);
            assert(grown[a] == crate::tree::new_node_view(entries[a - nodes.len()]));
        }
    }
    assert forall|i: int| 0 <= i < nodes.len() implies (#[trigger] w[i]).info == nodes[i].info by {
        if i != id {
            assert(w[i] == nodes[i]);
        }
    }
    assert forall|i: int| nodes.len() <= i < nodes.len() + entries.len() implies (#[trigger] w[
        i
    ]).info == entries[i - nodes.len()] by {
        assert(w[i] == grown[i]);
    }
}

impl<B: BrowserBackend> BrowserApp<B> {
    /// The first entry row for the node at `path`.
    pub fn row_index(&self, path: &Vec<usize>) -> (r: Option<usize>)
        ensures
            match r {
                Some(i) => row_index_of(self@.rows, path@) == Some(i as int),
                None => row_index_of(self@.rows, path@) is None,
            },
    {
        let ghost rv = rows_view(self.rows@);
        let mut i: usize = 0;
        assert(rv.skip(0) =~= rv);
        while i < self.rows.len()
            invariant
                i <= self.rows@.len(),
                rv == rows_view(self.rows@),
                row_index_of(rv, path@) == match row_index_of(rv.skip(i as int), path@) {
                    Some(j) => Some(j + i),
                    None => None,
                },
            decreases self.rows@.len() - i,
        {
            assert(rv.skip(i as int)[0] == self.rows@[i as int]@);
            assert(rv.skip(i as int).drop_first() =~= rv.skip(i + 1));
            let row = &self.rows[i];
            let is_entry = match row.kind {
                RowKind::Entry => true,
                RowKind::LoadMore => false,
            };
            if is_entry && paths_eq(&row.path, path) {
                return Some(i);
            }
            i = i + 1;
        }
        assert(rv.skip(i as int) =~= Seq::<RowView>::empty());
        None
    }

    /// The first entry row for a node with the given name.
    pub fn row_index_by_name(&self, name: &str) -> (r: Option<usize>)
        requires
            self.wf(),
        ensures
            match r {
                Some(i) => row_index_named(self@.nodes, self@.rows, name@) == Some(i as int),
                None => row_index_named(self@.nodes, self@.rows, name@) is None,
            },
    {
        let ghost rv = rows_view(self.rows@);
        let ghost nv = self@.nodes;
        let mut i: usize = 0;
        assert(rv.skip(0) =~= rv);
        while i < self.rows.len()
            invariant
                i <= self.rows@.len(),
                rv == rows_view(self.rows@),
                nv == self@.nodes,
                self.wf(),
                row_index_named(nv, rv, name@) == match row_index_named(nv, rv.skip(i as int), name@) {
                    Some(j) => Some(j + i),
                    None => None,
                },
            decreases self.rows@.len() - i,
        {
            assert(rv.skip(i as int)[0] == self.rows@[i as int]@);
            assert(rv.skip(i as int).drop_first() =~= rv.skip(i + 1));
            let row = &self.rows[i];
            let is_entry = match row.kind {
                RowKind::Entry => true,
                RowKind::LoadMore => false,
            };
            if is_entry {
                match self.node_ref(&row.path) {
                    Some(n) => {
                        if str_eq(n.info.name.as_str(), name) {
                            assert(row_named(nv, rv[i as int], name@));
                            return Some(i);
                        }
                    },
                    None => {},
                }
            }
            i = i + 1;
        }
        assert(rv.skip(i as int) =~= Seq::<RowView>::empty());
        None
    }

    /// Takes in a listed page for the node at `path`.
    fn apply_list_page(
        &mut self,
        path: Vec<usize>,
        dir: String,
        offset: usize,
        page: ListPage,
        select_after: Option<String>,
    )
        requires
            old(self).wf(),
            entries_ok(page.entries@.map_values(|e: FileInfo| e@)),
        ensures
            final(self).wf(),
            final(self)@ == page_applied(
                old(self).backend,
                old(self)@,
                path@,
                dir@,
                offset,
                page.entries@.map_values(|e: FileInfo| e@),
                page.has_more,
                opt_chars(select_after),
            ),
            final(self).backend == old(self).backend,
    {
        let ghost ev = page.entries@.map_values(|e: FileInfo| e@);
        let ghost v0 = self@;
        let count = page.entries.len();
        match node_id(&self.nodes, &path) {
            Some(id) => {
                let ghost nv = self@.nodes;
                let mut node = EntryNode::root("");
                self.nodes.set_and_swap(id, &mut node);
                assert(node@ == nv[id as int]);
                let ghost mid = nodes_view(self.nodes@);
                add_children(&mut self.nodes, &mut node, &page.entries);
                node.next_offset = offset.saturating_add(count);
                node.exhausted = count == 0 || !page.has_more;
                node.error = None;
                let ghost grown = nodes_view(self.nodes@);
                let total = self.nodes.len();
                self.nodes.set(id, node);
                proof {
                    assert(total == nv.len() + ev.len());
                    assert(mid =~= nv.update(id as int, mid[id as int]));
                    assert(node@ == (NodeView {
                        children: nv[id as int].children + Seq::new(ev.len(), |k: int| (nv.len() + k) as usize),
                        next_offset: sat_add(offset, ev.len() as usize),
                        exhausted: ev.len() == 0 || !page.has_more,
                        error: None,
                        ..nv[id as int]
                    }));
                    assert(nodes_view(self.nodes@) =~= grown.update(id as int, node@));
                    assert(nodes_view(self.nodes@) =~= with_page(nv, id as int, ev, offset, page.has_more));
                    lemma_with_page_wf(nv, id as int, ev, offset, page.has_more);
                    let w = with_page(nv, id as int, ev, offset, page.has_more);
                    assert forall|k: int| 0 <= k < self@.nodes.len() implies crate::render::time_ok(
                        (#[trigger] self@.nodes[k]).info.created,
                    ) && crate::render::time_ok(self@.nodes[k].info.modified) by {
                        assert(self@.nodes[k] == w[k]);
                        if k >= nv.len() {
                            assert(w[k].info == ev[k - nv.len()]);
                        } else {
                            assert(w[k].info == nv[k].info);
                            assert(nv[k] == v0.nodes[k]);
                        }
                    }
                }
            },
            None => {},
        }
        let ghost nodes_now = self@.nodes;
        let mut msg = copy_str("loaded ");
        push_str(&mut msg, usize_text(count).as_str());
        push_str(&mut msg, " entries from ");
        push_str(&mut msg, self.backend.display_path(dir.as_str()).as_str());
        self.message = msg;
        self.rebuild_rows();
        match select_after {
            Some(name) => {
                match self.row_index_by_name(name.as_str()) {
                    Some(index) => {
                        self.selected = index;
                        proof { lemma_row_index_named_bound(self@.nodes, self@.rows, name@); }
                    },
                    None => {
                        match self.row_index(&path) {
                            Some(index) => {
                                self.selected = index;
                                proof { lemma_row_index_bound(self@.rows, path@); }
                            },
                            None => {},
                        }
                    },
                }
            },
            None => {},
        }
    }

    /// Takes in what a background job gave back.
    pub fn apply_job_result(&mut self, result: JobResult)
        requires
            old(self).wf(),
            result.result_ok(),
        ensures
            final(self).wf(),
            final(self)@ == result_applied(old(self).backend, old(self)@, result.result_view()),
            final(self).backend == old(self).backend,
    {
        let ghost v = self@;
        let kind = match self.pending.take() {
            Some(k) => k,
            None => {
                assert(self@ == v);
                return;
            },
        };
        match (kind, result) {
            (
                PendingKind::ListPage { node_path, dir, offset, select_after },
                JobResult::ListPage(r),
            ) => match r {
                Ok(page) => {
                    self.apply_list_page(node_path, dir, offset, page, select_after);
                },
                Err(err) => {
                    match node_id(&self.nodes, &node_path) {
                        Some(id) => {
                            let mut node = EntryNode::root("");
                            self.nodes.set_and_swap(id, &mut node);
                            node.error = Some(copy_str(err.as_str()));
                            node.exhausted = true;
                            self.nodes.set(id, node);
                            assert(self@.nodes =~= v.nodes.update(
                                id as int,
                                NodeView { error: Some(err@), exhausted: true, ..v.nodes[id as int] },
                            ));
                            assert forall|k: int| 0 <= k < self@.nodes.len() implies crate::render::time_ok(
                                (#[trigger] self@.nodes[k]).info.created,
                            ) && crate::render::time_ok(self@.nodes[k].info.modified) by {
                                assert(self@.nodes[k].info == v.nodes[k].info);
                            }
                            assert(tree_wf(self@.nodes)) by {
                                assert forall|a: int, k: int|
                                    0 <= a < self@.nodes.len() && 0 <= k < self@.nodes[a].children.len()
                                    implies a < (#[trigger] self@.nodes[a].children[k]) < self@.nodes.len() by {
                                    assert(self@.nodes[a].children == v.nodes[a].children);
                                }
                            }
                        },
                        None => {},
                    }
                    self.message = concat2("error: ", err.as_str());
                    self.rebuild_rows();
                },
            },
            (PendingKind::Preview { path, size, offset }, JobResult::Preview(r)) => match r {
                Ok(page) => {
                    let truncated = !page.has_more && offset == 0 && size > page.bytes.len() as u64;
                    let lines = bytes_to_preview_lines(page.bytes.as_slice(), truncated);
                    if offset == 0 {
                        self.insert_cache(
                            copy_str(path.as_str()),
                            PreviewCache { lines, next_offset: page.next_offset, has_more: page.has_more },
                        );
                    } else {
                        self.extend_cache(&path, lines, page.next_offset, page.has_more);
                    }
                    self.message = concat2(
                        "preview loaded for ",
                        self.backend.display_path(path.as_str()).as_str(),
                    );
                },
                Err(err) => {
                    let mut lines: Vec<String> = Vec::new();
                    lines.push(concat2("preview error: ", err.as_str()));
                    assert(strings_view(lines@) =~= seq!["preview error: "@ + err@]);
                    self.insert_cache(
                        copy_str(path.as_str()),
                        PreviewCache { lines, next_offset: 0, has_more: false },
                    );
                    self.message = concat2("preview error: ", err.as_str());
                },
            },
            (PendingKind::Download { display_path, local }, JobResult::Download(r)) => match r {
                Ok(()) => {
                    let mut msg = concat2("downloaded ", display_path.as_str());
                    push_str(&mut msg, " to ");
                    push_str(&mut msg, local.as_str());
                    self.message = msg;
                },
                Err(err) => {
                    self.message = concat2("download error: ", err.as_str());
                },
            },
            _ => {
                self.message = copy_str("background operation returned unexpected result");
            },
        }
    }
}


/// A found entry row lies within the rows.
proof fn lemma_row_index_bound(rows: Seq<RowView>, path: Seq<usize>)
    ensures
        row_index_of(rows, path) matches Some(i) ==> 0 <= i < rows.len(),
    decreases rows.len(),
{
    if rows.len() > 0 {
        lemma_row_index_bound(rows.drop_first(), path);
    }
}

/// A found named row lies within the rows.
proof fn lemma_row_index_named_bound(nodes: Seq<NodeView>, rows: Seq<RowView>, name: Seq<char>)
    ensures
        row_index_named(nodes, rows, name) matches Some(i) ==> 0 <= i < rows.len(),
    decreases rows.len(),
{
    if rows.len() > 0 {
        lemma_row_index_named_bound(nodes, rows.drop_first(), name);
    }
}

impl<B: BrowserBackend> BrowserApp<B> {
    /// The last cached entry for `path`.
    pub(crate) fn cache_index(&self, path: &str) -> (r: Option<usize>)
        ensures
            match r {
                Some(j) => j < self.preview_cache@.len() && self.preview_cache@[j as int].0@ == path@
                    && (forall|t: int|
                    j < t < self.preview_cache@.len() ==> (#[trigger] self.preview_cache@[t]).0@
                        != path@) && cache_map(self.preview_cache@).contains_key(path@),
                None => !cache_map(self.preview_cache@).contains_key(path@),
            },
    {
        let mut i = self.preview_cache.len();
        while i > 0
            invariant
                i <= self.preview_cache@.len(),
                forall|t: int|
                    i <= t < self.preview_cache@.len() ==> (#[trigger] self.preview_cache@[t]).0@
                        != path@,
            decreases i,
        {
            if str_eq(self.preview_cache[i - 1].0.as_str(), path) {
                proof {
                    lemma_cache_lookup(self.preview_cache@, path@, i as int);
                    assert(self.preview_cache@.take(i as int).drop_last() =~= self.preview_cache@.take(
                        i - 1,
                    ));
                }
                return Some(i - 1);
            }
            i = i - 1;
        }
        proof {
            lemma_cache_lookup(self.preview_cache@, path@, 0);
        }
        None
    }

    /// Adds lines to the cached preview of `path`, if there is one.
    fn extend_cache(&mut self, path: &String, lines: Vec<String>, next_offset: usize, has_more: bool)
        ensures
            final(self)@ == (AppView {
                cache: if old(self)@.cache.contains_key(path@) {
                    old(self)@.cache.insert(
                        path@,
                        CacheView {
                            lines: old(self)@.cache[path@].lines + strings_view(lines@),
                            next_offset,
                            has_more,
                        },
                    )
                } else {
                    old(self)@.cache
                },
                ..old(self)@
            }),
            final(self).backend == old(self).backend,
            old(self).wf() ==> final(self).wf(),
    {
        match self.cache_index(path.as_str()) {
            Some(j) => {
                let ghost s0 = self.preview_cache@;
                proof {
                    lemma_cache_lookup(s0, path@, j + 1);
                    assert(s0.take(j + 1).drop_last() =~= s0.take(j as int));
                }
                let mut entry = (String::new(), PreviewCache { lines: Vec::new(), next_offset: 0, has_more: false });
                self.preview_cache.set_and_swap(j, &mut entry);
                let ghost old_lines = strings_view(entry.1.lines@);
                let mut more = lines;
                entry.1.lines.append(&mut more);
                entry.1.next_offset = next_offset;
                entry.1.has_more = has_more;
                assert(strings_view(entry.1.lines@) =~= old_lines + strings_view(lines@));
                self.preview_cache.set(j, entry);
                proof {
                    lemma_cache_update(s0, j as int, entry);
                    assert(self.preview_cache@ =~= s0.update(j as int, entry));
                }
            },
            None => {},
        }
    }
}

/// A path that some cached preview has is in the map.
proof fn lemma_cache_has(s: Seq<(String, PreviewCache)>, i: int)
    requires
        0 <= i < s.len(),
    ensures
        cache_map(s).contains_key(s[i].0@),
    decreases s.len(),
{
    if i < s.len() - 1 {
        lemma_cache_has(s.drop_last(), i);
        assert(s.drop_last()[i] == s[i]);
    }
}

impl<B: BrowserBackend> BrowserApp<B> {
    /// Caches the preview of `path`, replacing what was cached for it.
    fn insert_cache(&mut self, path: String, entry: PreviewCache)
        ensures
            final(self)@ == (AppView { cache: old(self)@.cache.insert(path@, entry@), ..old(self)@ }),
            final(self).backend == old(self).backend,
            old(self).wf() ==> final(self).wf(),
    {
        let ghost s0 = self.preview_cache@;
        match self.cache_index(path.as_str()) {
            Some(j) => {
                let item = (path, entry);
                self.preview_cache.set(j, item);
                proof {
                    lemma_cache_update(s0, j as int, item);
                    assert(self.preview_cache@ =~= s0.update(j as int, item));
                }
            },
            None => {
                let ghost key = path@;
                let item = (path, entry);
                self.preview_cache.push(item);
                proof {
                    assert(self.preview_cache@.drop_last() =~= s0);
                    assert forall|i: int| 0 <= i < s0.len() implies (#[trigger] s0[i]).0@ != key by {
                        lemma_cache_has(s0, i);
                    }
                    assert forall|i: int, j: int|
                        0 <= i < j < self.preview_cache@.len() && cache_keys_unique(s0) implies (
                        #[trigger] self.preview_cache@[i]).0@ != (#[trigger] self.preview_cache@[j]).0@ by {
                        assert(self.preview_cache@[i] == s0[i]);
                        if j < s0.len() {
                            assert(self.preview_cache@[j] == s0[j]);
                        }
                    }
                }
            },
        }
    }
}

} // verus!
