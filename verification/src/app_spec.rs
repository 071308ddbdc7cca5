//! The browser as a state machine: its state, and what each key, request and
//! finished background job does to it.
use vstd::prelude::*;
use crate::backend::BrowserBackend;
use crate::entry::{folder_info, InfoView};
use crate::render::{basename_of, metadata_text, preview_text_lines, time_ok};
use crate::sizes::size_text;
use crate::text::decimal;
use crate::tree::{id_at, new_node_view, node_at, root_node_view, rows_of, tree_wf, NodeView, RowKind, RowView};
use crate::urls::download_path;

verus! {

/// Which pane the arrow keys move in.
#[derive(PartialEq, Eq, Structural, Clone, Copy)]
pub enum PaneFocus {
    Browser,
    Preview,
}

/// The lines read so far for a preview, and where reading goes on.
pub struct CacheView {
    pub lines: Seq<Seq<char>>,
    pub next_offset: usize,
    pub has_more: bool,
}

/// The background job that is running, with what the state needs to take its
/// result in.
pub enum PendingView {
    ListPage { node_path: Seq<usize>, dir: Seq<char>, offset: usize, select_after: Option<Seq<char>> },
    Preview { path: Seq<char>, size: u64, offset: usize },
    Download { display_path: Seq<char>, local: Seq<char> },
}

/// What a background job asks of the backend.
pub enum JobView {
    ListPage { dir: Seq<char>, offset: usize, limit: usize },
    Preview { path: Seq<char>, offset: usize, limit: usize },
    Download { path: Seq<char>, local: Seq<char> },
}

/// What a background job gave back.
pub enum ResultView {
    ListPage(Result<(Seq<InfoView>, bool), Seq<char>>),
    Preview(Result<(Seq<u8>, bool, usize), Seq<char>>),
    Download(Result<(), Seq<char>>),
}

/// The whole state of the browser, with the name of its backend.
pub struct AppView {
    pub name: Seq<char>,
    pub nodes: Seq<NodeView>,
    pub rows: Seq<RowView>,
    pub selected: int,
    pub page_size: usize,
    pub preview_bytes: usize,
    pub message: Seq<char>,
    pub cache: Map<Seq<char>, CacheView>,
    pub requests: Set<Seq<char>>,
    pub scroll: u16,
    pub horizontal: u16,
    pub active: Option<Seq<char>>,
    pub focus: PaneFocus,
    pub command_prefix: bool,
    pub new_session: bool,
    pub pending: Option<PendingView>,
    pub started: Option<JobView>,
}

/// A key as the browser reads it.
#[derive(PartialEq, Eq, Structural, Clone, Copy)]
pub enum Key {
    Char(char),
    Up,
    Down,
    Left,
    Right,
    PageUp,
    PageDown,
    Home,
    End,
    Enter,
    Backspace,
    Esc,
    Other,
}

/// A state the browser can be in: a well-formed tree whose times can be shown,
/// and a selection within the rows (or just past them).
pub open spec fn app_wf(v: AppView) -> bool {
    &&& tree_wf(v.nodes)
    &&& 0 <= v.selected <= v.rows.len()
    &&& forall|i: int|
        0 <= i < v.nodes.len() ==> time_ok((#[trigger] v.nodes[i]).info.created) && time_ok(
            v.nodes[i].info.modified,
        )
}

/// Entries whose times can be shown.
pub open spec fn entries_ok(entries: Seq<InfoView>) -> bool {
    forall|i: int|
        0 <= i < entries.len() ==> time_ok((#[trigger] entries[i]).created) && time_ok(
            entries[i].modified,
        )
}

pub open spec fn busy_message() -> Seq<char> {
    "busy; press q or ctrl-c to quit"@
}

/// The state with another message.
pub open spec fn with_message(v: AppView, m: Seq<char>) -> AppView {
    AppView { message: m, ..v }
}

/// Rows rebuilt from the tree, with the selection kept within them.
pub open spec fn rebuilt(v: AppView) -> AppView {
    let rows = rows_of(v.nodes);
    AppView {
        rows,
        selected: if v.selected < rows.len() {
            v.selected
        } else if rows.len() > 0 {
            rows.len() - 1
        } else {
            0
        },
        ..v
    }
}

/// A listing of `dir` from `offset` starts, for the node at `path`.
pub open spec fn started_list<B: BrowserBackend>(
    b: B,
    v: AppView,
    path: Seq<usize>,
    dir: Seq<char>,
    offset: usize,
    select_after: Option<Seq<char>>,
) -> AppView {
    AppView {
        message: "loading "@ + b.spec_display_path(dir),
        pending: Some(PendingView::ListPage { node_path: path, dir, offset, select_after }),
        started: Some(JobView::ListPage { dir, offset, limit: v.page_size }),
        ..v
    }
}

/// A read of preview bytes of `path` from `offset` starts.
pub open spec fn started_preview(v: AppView, path: Seq<char>, size: u64, offset: usize) -> AppView {
    AppView {
        pending: Some(PendingView::Preview { path, size, offset }),
        started: Some(JobView::Preview { path, offset, limit: v.preview_bytes }),
        ..v
    }
}

/// A download of `path` to `local` starts.
pub open spec fn started_download(
    v: AppView,
    path: Seq<char>,
    display_path: Seq<char>,
    local: Seq<char>,
) -> AppView {
    AppView {
        message: "downloading "@ + display_path,
        pending: Some(PendingView::Download { display_path, local }),
        started: Some(JobView::Download { path, local }),
        ..v
    }
}

/// Loading more of the directory at `path`: refused while a job runs; nothing
/// for a missing node; for a file or a finished listing the rows are rebuilt;
/// else the next page is asked for.
pub open spec fn load_more<B: BrowserBackend>(b: B, v: AppView, path: Seq<usize>) -> AppView {
    if v.pending is Some {
        with_message(v, busy_message())
    } else {
        match node_at(v.nodes, path) {
            None => v,
            Some(n) => if !n.info.is_dir() || n.exhausted {
                rebuilt(v)
            } else {
                started_list(b, v, path, n.info.name, n.next_offset, None)
            },
        }
    }
}

/// The first entry row for the node at `path`.
pub open spec fn row_index_of(rows: Seq<RowView>, path: Seq<usize>) -> Option<int>
    decreases rows.len(),
{
    if rows.len() == 0 {
        None
    } else if rows[0].kind == RowKind::Entry && rows[0].path == path {
        Some(0)
    } else {
        match row_index_of(rows.drop_first(), path) {
            Some(i) => Some(i + 1),
            None => None,
        }
    }
}

/// Whether a row is an entry row for a node with the given name.
pub open spec fn row_named(nodes: Seq<NodeView>, row: RowView, name: Seq<char>) -> bool {
    row.kind == RowKind::Entry && match node_at(nodes, row.path) {
        Some(n) => n.info.name == name,
        None => false,
    }
}

/// The first entry row for a node with the given name.
pub open spec fn row_index_named(nodes: Seq<NodeView>, rows: Seq<RowView>, name: Seq<char>) -> Option<
    int,
>
    decreases rows.len(),
{
    if rows.len() == 0 {
        None
    } else if row_named(nodes, rows[0], name) {
        Some(0)
    } else {
        match row_index_named(nodes, rows.drop_first(), name) {
            Some(i) => Some(i + 1),
            None => None,
        }
    }
}

/// `a + b`, or the largest `usize` when that is exceeded.
pub open spec fn sat_add(a: usize, b: usize) -> usize {
    if a + b > usize::MAX { usize::MAX } else { (a + b) as usize }
}

/// The node at `id` with the entries of a listed page added as its children.
pub open spec fn with_page(
    nodes: Seq<NodeView>,
    id: int,
    entries: Seq<InfoView>,
    offset: usize,
    has_more: bool,
) -> Seq<NodeView> {
    let n = nodes[id];
    let added = Seq::new(entries.len(), |i: int| (nodes.len() + i) as usize);
    let grown = nodes + entries.map_values(|e: InfoView| new_node_view(e));
    grown.update(
        id,
        NodeView {
            children: n.children + added,
            next_offset: sat_add(offset, entries.len() as usize),
            exhausted: entries.len() == 0 || !has_more,
            error: None,
            ..n
        },
    )
}

/// A listed page arrives: its entries become children of the node it was
/// listed for (if that node is still there), the rows are rebuilt, and the
/// selection moves to the entry named `select_after`, or else to the node's own
/// row, when there is one.
pub open spec fn page_applied<B: BrowserBackend>(
    b: B,
    v: AppView,
    path: Seq<usize>,
    dir: Seq<char>,
    offset: usize,
    entries: Seq<InfoView>,
    has_more: bool,
    select_after: Option<Seq<char>>,
) -> AppView {
    let nodes = match id_at(v.nodes, 0, path) {
        Some(id) => if 0 <= id < v.nodes.len() {
            with_page(v.nodes, id, entries, offset, has_more)
        } else {
            v.nodes
        },
        None => v.nodes,
    };
    let v1 = rebuilt(
        AppView {
            nodes,
            message: "loaded "@ + decimal(entries.len()) + " entries from "@ + b.spec_display_path(
                dir,
            ),
            ..v
        },
    );
    match select_after {
        None => v1,
        Some(name) => match row_index_named(v1.nodes, v1.rows, name) {
            Some(i) => AppView { selected: i, ..v1 },
            None => match row_index_of(v1.rows, path) {
                Some(i) => AppView { selected: i, ..v1 },
                None => v1,
            },
        },
    }
}

/// A listing failed: the node it was for records the error and lists no more.
pub open spec fn page_failed(v: AppView, path: Seq<usize>, err: Seq<char>) -> AppView {
    let nodes = match id_at(v.nodes, 0, path) {
        Some(id) => if 0 <= id < v.nodes.len() {
            v.nodes.update(id, NodeView { error: Some(err), exhausted: true, ..v.nodes[id] })
        } else {
            v.nodes
        },
        None => v.nodes,
    };
    rebuilt(AppView { nodes, message: "error: "@ + err, ..v })
}

/// Preview bytes arrived: the first page replaces what was read for the path,
/// a later page extends it (if anything was); data cut short at the first page
/// is marked so.
pub open spec fn preview_applied<B: BrowserBackend>(
    b: B,
    v: AppView,
    path: Seq<char>,
    size: u64,
    offset: usize,
    bytes: Seq<u8>,
    has_more: bool,
    next_offset: usize,
) -> AppView {
    let lines = preview_text_lines(bytes, !has_more && offset == 0 && size > bytes.len());
    let cache = if offset == 0 {
        v.cache.insert(path, CacheView { lines, next_offset, has_more })
    } else if v.cache.contains_key(path) {
        v.cache.insert(path, CacheView { lines: v.cache[path].lines + lines, next_offset, has_more })
    } else {
        v.cache
    };
    AppView { cache, message: "preview loaded for "@ + b.spec_display_path(path), ..v }
}

/// A background job finished.
pub open spec fn result_applied<B: BrowserBackend>(b: B, v: AppView, result: ResultView) -> AppView {
    let v0 = AppView { pending: None, ..v };
    match v.pending {
        None => v,
        Some(kind) => match (kind, result) {
            (
                PendingView::ListPage { node_path: path, dir, offset, select_after },
                ResultView::ListPage(r),
            ) => match r {
                Ok(page) => page_applied(b, v0, path, dir, offset, page.0, page.1, select_after),
                Err(e) => page_failed(v0, path, e),
            },
            (PendingView::Preview { path, size, offset }, ResultView::Preview(r)) => match r {
                Ok(page) => preview_applied(b, v0, path, size, offset, page.0, page.1, page.2),
                Err(e) => AppView {
                    cache: v0.cache.insert(
                        path,
                        CacheView { lines: seq!["preview error: "@ + e], next_offset: 0, has_more: false },
                    ),
                    message: "preview error: "@ + e,
                    ..v0
                },
            },
            (PendingView::Download { display_path, local }, ResultView::Download(r)) => match r {
                Ok(()) => with_message(v0, "downloaded "@ + display_path + " to "@ + local),
                Err(e) => with_message(v0, "download error: "@ + e),
            },
            _ => with_message(v0, "background operation returned unexpected result"@),
        },
    }
}

/// The selected row, if the selection is on one.
pub open spec fn selected_row(v: AppView) -> Option<RowView> {
    if 0 <= v.selected < v.rows.len() {
        Some(v.rows[v.selected])
    } else {
        None
    }
}

/// The preview reads, caches and requests are forgotten and the folder at `path`
/// is browsed from the top.
pub open spec fn browse_folder<B: BrowserBackend>(b: B, v: AppView, name: Seq<char>) -> AppView {
    load_more(
        b,
        AppView {
            nodes: seq![root_node_view(folder_info(name))],
            selected: 0,
            cache: Map::empty(),
            requests: Set::empty(),
            ..v
        },
        Seq::empty(),
    )
}

/// Enter or `l`: a load-more row loads more; a directory becomes the folder
/// browsed; a file's name is shown.
pub open spec fn entered<B: BrowserBackend>(b: B, v: AppView) -> AppView {
    if v.pending is Some {
        with_message(v, busy_message())
    } else {
        match selected_row(v) {
            None => v,
            Some(row) => if row.kind == RowKind::LoadMore {
                load_more(b, v, row.path)
            } else {
                match node_at(v.nodes, row.path) {
                    None => v,
                    Some(n) => if n.info.is_dir() {
                        browse_folder(b, v, n.info.name)
                    } else {
                        with_message(v, n.info.name)
                    },
                }
            },
        }
    }
}

/// Backspace or `h`: the parent folder is browsed, unless the folder is its own
/// parent.
pub open spec fn went_up<B: BrowserBackend>(b: B, v: AppView) -> AppView {
    if v.pending is Some {
        with_message(v, busy_message())
    } else if b.spec_parent(v.nodes[0].info.name) == v.nodes[0].info.name {
        v
    } else {
        browse_folder(b, v, b.spec_parent(v.nodes[0].info.name))
    }
}

/// Space: a load-more row loads more; a directory is folded, or unfolded (and
/// listed when nothing was loaded and more can be); a file stays as it is.
pub open spec fn toggled<B: BrowserBackend>(b: B, v: AppView) -> AppView {
    if v.pending is Some {
        with_message(v, busy_message())
    } else {
        match selected_row(v) {
            None => v,
            Some(row) => if row.kind == RowKind::LoadMore {
                load_more(b, v, row.path)
            } else {
                match id_at(v.nodes, 0, row.path) {
                    Some(id) => if 0 <= id < v.nodes.len() {
                        let n = v.nodes[id];
                        if !n.info.is_dir() {
                            v
                        } else if n.expanded {
                            rebuilt(AppView { nodes: v.nodes.update(id, NodeView { expanded: false, ..n }), ..v })
                        } else {
                            let v1 = AppView {
                                nodes: v.nodes.update(id, NodeView { expanded: true, ..n }),
                                ..v
                            };
                            if n.children.len() == 0 && !n.exhausted {
                                load_more(b, v1, row.path)
                            } else {
                                rebuilt(v1)
                            }
                        }
                    } else {
                        rebuilt(v)
                    },
                    None => rebuilt(v),
                }
            },
        }
    }
}

/// `p`: a load-more row loads more; an entry the backend can preview is read
/// from its start, and the preview pane scrolls back to the top.
pub open spec fn preview_requested<B: BrowserBackend>(b: B, v: AppView) -> AppView {
    if v.pending is Some {
        with_message(v, busy_message())
    } else {
        match selected_row(v) {
            None => v,
            Some(row) => if row.kind == RowKind::LoadMore {
                load_more(b, v, row.path)
            } else {
                match node_at(v.nodes, row.path) {
                    None => v,
                    Some(n) => if !b.spec_can_preview(n.info) {
                        with_message(v, "preview unavailable for this entry"@)
                    } else {
                        let path = n.info.name;
                        started_preview(
                            AppView {
                                requests: v.requests.insert(path),
                                message: "reading preview for "@ + b.spec_display_path(path),
                                scroll: 0,
                                horizontal: 0,
                                active: Some(path),
                                ..v
                            },
                            path,
                            n.info.size,
                            0,
                        )
                    },
                }
            },
        }
    }
}

/// The cached preview of a path: line count, whether more can be read and from where.
pub open spec fn cache_state(v: AppView, path: Seq<char>) -> (int, bool, usize) {
    if v.cache.contains_key(path) {
        (v.cache[path].lines.len() as int, v.cache[path].has_more, v.cache[path].next_offset)
    } else {
        (0, false, 0)
    }
}

/// Whether the running job reads the preview of `path`.
pub open spec fn preview_pending(v: AppView, path: Seq<char>) -> bool {
    v.pending matches Some(PendingView::Preview { path: p, .. }) && p == path
}

/// Scrolling the preview of the selected entry by `delta` lines, within its
/// lines; near the end of what was read, the next bytes are read.
pub open spec fn scrolled<B: BrowserBackend>(b: B, v: AppView, delta: i16) -> AppView {
    match selected_row(v) {
        None => v,
        Some(row) => match node_at(v.nodes, row.path) {
            None => v,
            Some(n) => {
                let path = n.info.name;
                let (count, has_more, next) = cache_state(v, path);
                if count == 0 {
                    v
                } else {
                    let scroll: u16 = if delta < 0 {
                        if v.scroll as int + delta as int >= 0 { (v.scroll + delta) as u16 } else { 0 }
                    } else {
                        let up: int = if v.scroll + delta > u16::MAX { u16::MAX as int } else { v.scroll + delta };
                        let cap = ((count - 1) as u16) as int;
                        (if up < cap { up } else { cap }) as u16
                    };
                    let v1 = AppView { scroll, ..v };
                    if has_more && scroll + 20 >= count && !preview_pending(v1, path) {
                        started_preview(v1, path, n.info.size, next)
                    } else {
                        v1
                    }
                }
            },
        },
    }
}

/// `a + d` kept within `0..=u16::MAX`.
pub open spec fn sat_shift(a: u16, d: i16) -> u16 {
    if a + d < 0 {
        0
    } else if a + d > u16::MAX {
        u16::MAX
    } else {
        (a + d) as u16
    }
}

/// End in the preview pane: the last line of the active preview, then the
/// check that scrolling does.
pub open spec fn preview_ended<B: BrowserBackend>(b: B, v: AppView) -> AppView {
    let count: int = match v.active {
        Some(p) => if v.cache.contains_key(p) {
            v.cache[p].lines.len() as int
        } else {
            0
        },
        None => 0,
    };
    let last: int = if count > 0 { count - 1 } else { 0 };
    scrolled(b, AppView { scroll: (if last > u16::MAX { u16::MAX as int } else { last }) as u16, ..v }, 0i16)
}

/// The first load-more row among the selected one and the next three.
pub open spec fn prefetch_target(v: AppView, from: int) -> Option<Seq<usize>>
    decreases v.rows.len() - from,
{
    if from >= v.rows.len() || from >= v.selected + 4 || from < 0 {
        None
    } else if v.rows[from].kind == RowKind::LoadMore {
        Some(v.rows[from].path)
    } else {
        prefetch_target(v, from + 1)
    }
}

/// Loads more when a load-more row is near the selection.
pub open spec fn prefetched<B: BrowserBackend>(b: B, v: AppView) -> AppView {
    match prefetch_target(v, v.selected) {
        Some(path) => load_more(b, v, path),
        None => v,
    }
}

/// Moving the selection by `delta` rows, within the rows.
pub open spec fn moved<B: BrowserBackend>(b: B, v: AppView, delta: int) -> AppView {
    if v.rows.len() == 0 {
        AppView { selected: 0, ..v }
    } else {
        let s = v.selected + delta;
        let s = if s < 0 { 0 } else if s > v.rows.len() - 1 { v.rows.len() - 1 } else { s };
        prefetched(b, AppView { selected: s, ..v })
    }
}

/// `d`: a load-more row loads more; a file is downloaded under the current
/// directory, to the place its shown path names.
pub open spec fn download_requested<B: BrowserBackend>(b: B, v: AppView) -> AppView {
    if v.pending is Some {
        with_message(v, busy_message())
    } else {
        match selected_row(v) {
            None => v,
            Some(row) => if row.kind == RowKind::LoadMore {
                load_more(b, v, row.path)
            } else {
                match node_at(v.nodes, row.path) {
                    None => v,
                    Some(n) => if !n.info.is_file() {
                        with_message(v, "download unavailable for this entry"@)
                    } else {
                        let shown = b.spec_display_path(n.info.name);
                        match download_path(shown) {
                            None => with_message(v, "download target unavailable for "@ + shown),
                            Some(local) => started_download(v, n.info.name, shown, local),
                        }
                    },
                }
            },
        }
    }
}

/// `r`: the level of the selected row (its directory, or the directory holding
/// a file) is listed again from the start, with previews forgotten; the
/// selection then returns to the same name.
pub open spec fn refreshed<B: BrowserBackend>(b: B, v: AppView) -> AppView {
    if v.pending is Some {
        with_message(v, busy_message())
    } else {
        match selected_row(v) {
            None => v,
            Some(row) => {
                let selected_name = match node_at(v.nodes, row.path) {
                    Some(n) => Some(n.info.name),
                    None => None,
                };
                let is_file_row = row.kind == RowKind::Entry && match node_at(v.nodes, row.path) {
                    Some(n) => !n.info.is_dir(),
                    None => false,
                };
                let path = if is_file_row && row.path.len() > 0 {
                    row.path.drop_last()
                } else {
                    row.path
                };
                let dir = match node_at(v.nodes, path) {
                    Some(n) => n.info.name,
                    None => v.nodes[0].info.name,
                };
                let nodes = match id_at(v.nodes, 0, path) {
                    Some(id) => if 0 <= id < v.nodes.len() {
                        v.nodes.update(
                            id,
                            NodeView {
                                children: Seq::empty(),
                                next_offset: 0,
                                exhausted: false,
                                error: None,
                                expanded: true,
                                ..v.nodes[id]
                            },
                        )
                    } else {
                        v.nodes
                    },
                    None => v.nodes,
                };
                started_list(
                    b,
                    AppView { nodes, cache: Map::empty(), requests: Set::empty(), ..v },
                    path,
                    dir,
                    0,
                    selected_name,
                )
            },
        }
    }
}

/// The lines of a directory's or special entry's details.
pub open spec fn detail_lines<B: BrowserBackend>(b: B, n: NodeView) -> Seq<Seq<char>> {
    seq!["name: "@ + basename_of(n.info.name), "path: "@ + b.spec_display_path(n.info.name)]
}

/// What the preview pane shows for the selected row, and the state after it:
/// details for directories and special entries, a note while reading, a prompt
/// when previews are only read on request, else the lines read (reading them
/// first when the backend previews by itself).
pub open spec fn preview_shown<B: BrowserBackend>(b: B, v: AppView) -> (AppView, Seq<Seq<char>>) {
    match selected_row(v) {
        None => (v, seq!["empty directory"@]),
        Some(row) => if row.kind == RowKind::LoadMore {
            (v, seq!["loading more entries as you scroll"@])
        } else {
            match node_at(v.nodes, row.path) {
                None => (v, seq!["missing row"@]),
                Some(n) => {
                    let previewable = b.spec_can_preview(n.info);
                    let path = n.info.name;
                    if n.info.is_dir() && !previewable {
                        (
                            v,
                            detail_lines(b, n) + seq![
                                "type: directory"@,
                                "loaded children: "@ + decimal(n.children.len()),
                            ] + metadata_text(n.info) + match n.error {
                                Some(e) => seq!["error: "@ + e],
                                None => Seq::empty(),
                            },
                        )
                    } else if !previewable {
                        (
                            v,
                            detail_lines(b, n) + seq!["type: "@ + n.info.file_type.spec_label()]
                                + metadata_text(n.info) + seq![
                                "preview unavailable for special filesystem entries"@,
                            ],
                        )
                    } else if preview_pending(v, path) {
                        (v, seq!["reading preview for "@ + b.spec_display_path(path)])
                    } else if !b.spec_auto_preview() && !v.requests.contains(path) {
                        (
                            v,
                            detail_lines(b, n) + seq![
                                "type: "@ + n.info.file_type.spec_label(),
                                "size: "@ + decimal(n.info.size as nat) + " B"@,
                            ] + metadata_text(n.info) + seq![
                                "preview disabled to avoid remote reads"@,
                                "press p to read preview bytes"@,
                            ],
                        )
                    } else {
                        let v1 = if v.active != Some(path) {
                            AppView { scroll: 0, horizontal: 0, active: Some(path), ..v }
                        } else {
                            v
                        };
                        if v1.cache.contains_key(path) {
                            (v1, v1.cache[path].lines)
                        } else if b.spec_auto_preview() {
                            (
                                started_preview(v1, path, n.info.size, 0),
                                seq!["reading preview for "@ + b.spec_display_path(path)],
                            )
                        } else {
                            (v1, seq!["press p to read preview bytes"@])
                        }
                    }
                },
            }
        },
    }
}

/// The label of a row: indentation, a fold marker for directories, the
/// entry's name and its size when it has one; whether it is a directory.
pub open spec fn row_label_of(v: AppView, row: RowView) -> (Seq<char>, bool) {
    let indent = Seq::new((2 * row.depth) as nat, |i: int| ' ');
    if row.kind == RowKind::LoadMore {
        (indent + "... load more"@, false)
    } else {
        match node_at(v.nodes, row.path) {
            None => (indent + "? loading"@, false),
            Some(n) => {
                let marker = if n.info.is_dir() {
                    if n.expanded { "[-]"@ } else { "[+]"@ }
                } else {
                    "   "@
                };
                let size = size_text(n.info.size);
                let name = basename_of(n.info.name);
                (
                    if size.len() == 0 {
                        indent + marker + " "@ + name
                    } else {
                        indent + marker + " "@ + name + "  "@ + size
                    },
                    n.info.is_dir(),
                )
            },
        }
    }
}

/// What a key does when no ctrl-a prefix is pending and the preview pane does
/// not take it; whether it quits.
pub open spec fn global_key<B: BrowserBackend>(
    b: B,
    v: AppView,
    key: Key,
    ctrl: bool,
) -> (AppView, bool) {
    if ctrl && key == Key::Char('c') {
        (v, true)
    } else if ctrl && key == Key::Char('u') {
        (scrolled(b, v, -10i16), false)
    } else if ctrl && key == Key::Char('d') {
        (scrolled(b, v, 10i16), false)
    } else if key == Key::Char('H') {
        (AppView { horizontal: sat_shift(v.horizontal, -10i16), ..v }, false)
    } else if key == Key::Char('L') {
        (AppView { horizontal: sat_shift(v.horizontal, 10i16), ..v }, false)
    } else if key == Key::Char('q') || key == Key::Esc {
        (v, true)
    } else if key == Key::Up || key == Key::Char('k') {
        (moved(b, v, -1), false)
    } else if key == Key::Down || key == Key::Char('j') {
        (moved(b, v, 1), false)
    } else if key == Key::PageUp {
        (moved(b, v, -10), false)
    } else if key == Key::PageDown {
        (moved(b, v, 10), false)
    } else if key == Key::Home || key == Key::Char('g') {
        (AppView { selected: 0, ..v }, false)
    } else if key == Key::End || key == Key::Char('G') {
        (prefetched(b, AppView { selected: if v.rows.len() > 0 { v.rows.len() - 1 } else { 0 }, ..v }), false)
    } else if key == Key::Enter || key == Key::Right || key == Key::Char('l') {
        (entered(b, v), false)
    } else if key == Key::Backspace || key == Key::Left || key == Key::Char('h') {
        (went_up(b, v), false)
    } else if key == Key::Char(' ') {
        (toggled(b, v), false)
    } else if key == Key::Char('p') {
        (preview_requested(b, v), false)
    } else if key == Key::Char('d') {
        (download_requested(b, v), false)
    } else if key == Key::Char('r') {
        (refreshed(b, v), false)
    } else if key == Key::Char('n') {
        (AppView { new_session: true, ..v }, false)
    } else {
        (v, false)
    }
}

/// What a key does, and whether it quits.  After ctrl-a, left and right focus
/// a pane; in the preview pane, arrows, page keys, Home and End scroll it.
pub open spec fn key_handled<B: BrowserBackend>(
    b: B,
    v: AppView,
    key: Key,
    ctrl: bool,
) -> (AppView, bool) {
    if v.command_prefix {
        let v0 = AppView { command_prefix: false, ..v };
        if key == Key::Left {
            (AppView { focus: PaneFocus::Browser, message: "browser pane focused"@, ..v0 }, false)
        } else if key == Key::Right {
            (AppView { focus: PaneFocus::Preview, message: "preview pane focused"@, ..v0 }, false)
        } else {
            (with_message(v0, "unknown ctrl-a command"@), false)
        }
    } else if key == Key::Char('a') && ctrl {
        (
            AppView {
                command_prefix: true,
                message: "ctrl-a: press left or right to focus a pane"@,
                ..v
            },
            false,
        )
    } else if v.focus == PaneFocus::Preview && key == Key::Up {
        (scrolled(b, v, -1i16), false)
    } else if v.focus == PaneFocus::Preview && key == Key::Down {
        (scrolled(b, v, 1i16), false)
    } else if v.focus == PaneFocus::Preview && key == Key::Left {
        (AppView { horizontal: sat_shift(v.horizontal, -4i16), ..v }, false)
    } else if v.focus == PaneFocus::Preview && key == Key::Right {
        (AppView { horizontal: sat_shift(v.horizontal, 4i16), ..v }, false)
    } else if v.focus == PaneFocus::Preview && key == Key::PageUp {
        (scrolled(b, v, -10i16), false)
    } else if v.focus == PaneFocus::Preview && key == Key::PageDown {
        (scrolled(b, v, 10i16), false)
    } else if v.focus == PaneFocus::Preview && key == Key::Home {
        (AppView { scroll: 0, ..v }, false)
    } else if v.focus == PaneFocus::Preview && key == Key::End {
        (preview_ended(b, v), false)
    } else {
        global_key(b, v, key, ctrl)
    }
}

} // verus!
