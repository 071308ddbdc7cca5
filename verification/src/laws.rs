//! What scrolling, moving the selection, taking in listed pages and preview
//! pages, and refreshing do, stated by their effect on the browser's state.
use vstd::prelude::*;
use crate::app_spec::{
    cache_state, moved, page_applied, prefetch_target, refreshed, result_applied, scrolled,
    selected_row, AppView, JobView, PendingView, ResultView,
};
use crate::backend::BrowserBackend;
use crate::entry::InfoView;
use crate::render::preview_text_lines;
use crate::tree::{id_at, node_at, rows_of, RowKind};

verus! {

/// Scrolling by `delta` lines moves the preview by exactly that much, stopping
/// at its first line and at its last (for previews of at most `u16::MAX + 1`
/// lines, which the scroll position can reach): Down from line `s` goes to
/// line `s + 1` when there is one.
pub proof fn law_scroll_moves_by_delta<B: BrowserBackend>(b: B, v: AppView, delta: i16)
    requires
        selected_row(v) is Some,
        node_at(v.nodes, selected_row(v).unwrap().path) is Some,
        cache_state(v, node_at(v.nodes, selected_row(v).unwrap().path).unwrap().info.name).0 > 0,
    ensures
        ({
            let count = cache_state(
                v,
                node_at(v.nodes, selected_row(v).unwrap().path).unwrap().info.name,
            ).0;
            let target = v.scroll + delta;
            let r = scrolled(b, v, delta).scroll as int;
            &&& (delta >= 0 && count <= u16::MAX + 1 && target < count) ==> r == target
            &&& (delta >= 0 && count <= u16::MAX + 1 && target >= count) ==> r == count - 1
            &&& (delta < 0 && target >= 0) ==> r == target
            &&& (delta < 0 && target < 0) ==> r == 0
        }),
{
}

/// Whether loading more at the load-more row that the selection `s` reaches
/// rebuilds the rows instead of listing: the row's node is there but is no
/// directory that can list more, and no job runs.
pub open spec fn prefetch_rebuilds(v: AppView, s: int) -> bool {
    let w = AppView { selected: s, ..v };
    &&& v.pending is None
    &&& prefetch_target(w, s) is Some
    &&& node_at(v.nodes, prefetch_target(w, s).unwrap()) is Some
    &&& (!node_at(v.nodes, prefetch_target(w, s).unwrap()).unwrap().info.is_dir() || node_at(
        v.nodes,
        prefetch_target(w, s).unwrap(),
    ).unwrap().exhausted)
}

/// Moving the selection by `delta` rows moves it by exactly that much,
/// stopping at the first row and at the last: Up from row `s > 0` goes to
/// row `s - 1`.  Only when loading more rebuilds the rows is the result kept
/// within the rebuilt rows.
pub proof fn law_move_by_delta<B: BrowserBackend>(b: B, v: AppView, delta: int)
    requires
        v.rows.len() > 0,
    ensures
        ({
            let target = v.selected + delta;
            let last = v.rows.len() - 1;
            let s = if target < 0 {
                0
            } else if target > last {
                last
            } else {
                target
            };
            let r = moved(b, v, delta).selected;
            &&& 0 <= s <= last
            &&& (0 <= target <= last) ==> s == target
            &&& target < 0 ==> s == 0
            &&& target > last ==> s == last
            &&& !prefetch_rebuilds(v, s) ==> r == s
            &&& prefetch_rebuilds(v, s) ==> (if s < rows_of(v.nodes).len() {
                r == s
            } else {
                r == if rows_of(v.nodes).len() > 0 {
                    rows_of(v.nodes).len() - 1
                } else {
                    0
                }
            })
        }),
{
}

/// A listed page of `n` entries, taken from `offset` for the node at `path`,
/// adds them as that node's last children (fresh nodes at the end of the
/// tree), and the node's listing resumes right after them, at `offset + n`; it
/// is finished when the page was empty or said that nothing follows.
pub proof fn law_page_resumes_after_entries<B: BrowserBackend>(
    b: B,
    v: AppView,
    path: Seq<usize>,
    id: int,
    dir: Seq<char>,
    offset: usize,
    entries: Seq<InfoView>,
    has_more: bool,
    select_after: Option<Seq<char>>,
)
    requires
        id_at(v.nodes, 0, path) == Some(id),
        0 <= id < v.nodes.len(),
        offset + entries.len() <= usize::MAX,
        v.nodes.len() + entries.len() <= usize::MAX,
    ensures
        ({
            let w = page_applied(b, v, path, dir, offset, entries, has_more, select_after).nodes;
            let old_children = v.nodes[id].children;
            &&& w.len() == v.nodes.len() + entries.len()
            &&& w[id].next_offset == offset + entries.len()
            &&& w[id].exhausted == (entries.len() == 0 || !has_more)
            &&& w[id].error is None
            &&& w[id].info == v.nodes[id].info
            &&& w[id].children.len() == old_children.len() + entries.len()
            &&& forall|k: int| 0 <= k < old_children.len() ==> #[trigger] w[id].children[k] == old_children[k]
            &&& forall|k: int|
                0 <= k < entries.len() ==> w[id].children[old_children.len() + k] == v.nodes.len() + k
                    && #[trigger] w[v.nodes.len() + k].info == entries[k]
        }),
{
    let w = page_applied(b, v, path, dir, offset, entries, has_more, select_after).nodes;
    let old_children = v.nodes[id].children;
    assert forall|k: int| 0 <= k < entries.len() implies w[id].children[old_children.len() + k]
        == v.nodes.len() + k && #[trigger] w[v.nodes.len() + k].info == entries[k] by {
        assert(w[v.nodes.len() + k] == (v.nodes + entries.map_values(
            |e: InfoView| crate::tree::new_node_view(e),
        ))[v.nodes.len() + k]);
    }
}

/// Refreshing with a directory's row selected lists that directory again from
/// its start; with a file's row selected, it lists the directory holding the
/// file.  Either way the selection is to return to the same name.
pub proof fn law_refresh_lists_selected_level<B: BrowserBackend>(b: B, v: AppView)
    requires
        v.pending is None,
        selected_row(v) is Some,
        selected_row(v).unwrap().kind == RowKind::Entry,
        node_at(v.nodes, selected_row(v).unwrap().path) is Some,
    ensures
        ({
            let row = selected_row(v).unwrap();
            let n = node_at(v.nodes, row.path).unwrap();
            let w = refreshed(b, v);
            &&& n.info.is_dir() ==> w.started == Some(
                JobView::ListPage { dir: n.info.name, offset: 0, limit: v.page_size },
            ) && w.pending == Some(
                PendingView::ListPage {
                    node_path: row.path,
                    dir: n.info.name,
                    offset: 0,
                    select_after: Some(n.info.name),
                },
            )
            &&& (!n.info.is_dir() && row.path.len() > 0 && node_at(v.nodes, row.path.drop_last()) is Some)
                ==> w.started == Some(
                JobView::ListPage {
                    dir: node_at(v.nodes, row.path.drop_last()).unwrap().info.name,
                    offset: 0,
                    limit: v.page_size,
                },
            ) && w.pending == Some(
                PendingView::ListPage {
                    node_path: row.path.drop_last(),
                    dir: node_at(v.nodes, row.path.drop_last()).unwrap().info.name,
                    offset: 0,
                    select_after: Some(n.info.name),
                },
            )
        }),
{
}

/// The first page of a preview is marked as cut short only when the entry is
/// larger than the bytes read and nothing more can be read: when all of its
/// bytes were read, or more follow, its lines are those of the bytes as they
/// are.  A later page adds its lines (never marked) after those read before.
pub proof fn law_preview_page_lines<B: BrowserBackend>(
    b: B,
    v: AppView,
    path: Seq<char>,
    size: u64,
    offset: usize,
    bytes: Seq<u8>,
    has_more: bool,
    next: usize,
)
    requires
        v.pending == Some(PendingView::Preview { path, size, offset }),
    ensures
        ({
            let w = result_applied(b, v, ResultView::Preview(Ok((bytes, has_more, next))));
            &&& offset == 0 ==> w.cache.contains_key(path) && w.cache[path].next_offset == next
                && w.cache[path].has_more == has_more
            &&& (offset == 0 && size <= bytes.len()) ==> w.cache[path].lines == preview_text_lines(
                bytes,
                false,
            )
            &&& (offset == 0 && has_more) ==> w.cache[path].lines == preview_text_lines(bytes, false)
            &&& (offset == 0 && !has_more && size > bytes.len()) ==> w.cache[path].lines
                == preview_text_lines(bytes, true)
            &&& (offset > 0 && v.cache.contains_key(path)) ==> w.cache[path].lines
                == v.cache[path].lines + preview_text_lines(bytes, false)
            &&& w.pending is None
        }),
{
}

} // verus!
