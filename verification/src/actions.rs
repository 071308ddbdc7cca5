//! What the keys of the browser do.
use vstd::prelude::*;
use crate::app::{cache_map, lemma_cache_lookup, node_id, BrowserApp, PendingKind};
use crate::app_spec::{
    app_wf, browse_folder, busy_message, cache_state, download_requested, entered, global_key,
    key_handled, load_more, moved, prefetch_target, prefetched, preview_ended, preview_pending,
    preview_requested, refreshed, sat_shift, scrolled, selected_row, toggled, went_up,
    with_message, AppView, JobView, Key, PaneFocus,
};
use crate::backend::BrowserBackend;
use crate::render::strings_view;
use crate::text::{concat2, copy_str, str_eq};
use crate::tree::{copy_path, id_at, node_at, EntryNode, NodeView, RowKind};
use crate::urls::download_target;

verus! {

/// Replacing a node by one with the same metadata whose children come after it
/// keeps the state one the browser can be in.
proof fn lemma_node_update_wf(v: AppView, id: int, n: NodeView)
    requires
        app_wf(v),
        0 <= id < v.nodes.len(),
        n.info == v.nodes[id].info,
        forall|k: int| 0 <= k < n.children.len() ==> id < #[trigger] n.children[k] < v.nodes.len(),
    ensures
        app_wf(AppView { nodes: v.nodes.update(id, n), ..v }),
{
    let w = v.nodes.update(id, n);
    assert forall|a: int, k: int| 0 <= a < w.len() && 0 <= k < w[a].children.len() implies a < (
    #[trigger] w[a].children[k]) < w.len() by {
        if a != id {
            assert(w[a] == v.nodes[a]);
        }
    }
    assert forall|i: int| 0 <= i < w.len() implies crate::render::time_ok(
        (#[trigger] w[i]).info.created,
    ) && crate::render::time_ok(w[i].info.modified) by {
        assert(w[i].info == v.nodes[i].info);
    }
}

impl<B: BrowserBackend> BrowserApp<B> {
    /// The path and kind of the selected row, if the selection is on one.
    pub fn selected_row_parts(&self) -> (r: Option<(Vec<usize>, RowKind)>)
        ensures
            r is Some == selected_row(self@) is Some,
            r is Some ==> r.unwrap().0@ == selected_row(self@).unwrap().path && r.unwrap().1
                == selected_row(self@).unwrap().kind,
    {
        if self.selected < self.rows.len() {
            let row = &self.rows[self.selected];
            assert(self@.rows[self.selected as int] == self.rows@[self.selected as int]@);
            Some((copy_path(&row.path), row.kind.copy()))
        } else {
            None
        }
    }

    /// Browses the folder `name` from its top, forgetting previews.
    pub fn browse(&mut self, name: &str)
        requires
            old(self).wf(),
        ensures
            final(self).wf(),
            final(self)@ == browse_folder(old(self).backend, old(self)@, name@),
            final(self).backend == old(self).backend,
    {
        let mut nodes: Vec<EntryNode> = Vec::new();
        nodes.push(EntryNode::root(name));
        self.nodes = nodes;
        self.selected = 0;
        self.preview_cache = Vec::new();
        self.preview_requests = Vec::new();
        assert(self@.nodes =~= seq![crate::tree::root_node_view(crate::entry::folder_info(name@))]);
        assert(strings_view(self.preview_requests@).to_set() =~= Set::<Seq<char>>::empty());
        assert(cache_map(self.preview_cache@) =~= Map::<Seq<char>, crate::app_spec::CacheView>::empty());
        let path: Vec<usize> = Vec::new();
        self.load_more_at(&path);
    }

    /// Sets whether the node `id` is unfolded.
    fn set_expanded(&mut self, id: usize, expanded: bool)
        requires
            old(self).wf(),
            id < old(self)@.nodes.len(),
        ensures
            final(self).wf(),
            final(self)@ == (AppView {
                nodes: old(self)@.nodes.update(id as int, NodeView { expanded, ..old(self)@.nodes[id as int] }),
                ..old(self)@
            }),
            final(self).backend == old(self).backend,
    {
        let ghost v = self@;
        let mut node = EntryNode::root("");
        self.nodes.set_and_swap(id, &mut node);
        assert(node@ == v.nodes[id as int]);
        node.expanded = expanded;
        self.nodes.set(id, node);
        proof {
            let n = NodeView { expanded, ..v.nodes[id as int] };
            assert(self@.nodes =~= v.nodes.update(id as int, n));
            lemma_node_update_wf(v, id as int, n);
        }
    }

    /// Empties the node `id` so that it is listed again from the start.
    pub fn reset_node(&mut self, id: usize)
        requires
            old(self).wf(),
            id < old(self)@.nodes.len(),
        ensures
            final(self).wf(),
            final(self)@ == (AppView {
                nodes: old(self)@.nodes.update(
                    id as int,
                    NodeView {
                        children: Seq::empty(),
                        next_offset: 0,
                        exhausted: false,
                        error: None,
                        expanded: true,
                        ..old(self)@.nodes[id as int]
                    },
                ),
                ..old(self)@
            }),
            final(self).backend == old(self).backend,
    {
        let ghost v = self@;
        let mut node = EntryNode::root("");
        self.nodes.set_and_swap(id, &mut node);
        assert(node@ == v.nodes[id as int]);
        node.children = Vec::new();
        node.next_offset = 0;
        node.exhausted = false;
        node.error = None;
        node.expanded = true;
        self.nodes.set(id, node);
        proof {
            let n = NodeView {
                children: Seq::empty(),
                next_offset: 0,
                exhausted: false,
                error: None,
                expanded: true,
                ..v.nodes[id as int]
            };
            assert(node@ == n);
            assert(self@.nodes =~= v.nodes.update(id as int, n));
            lemma_node_update_wf(v, id as int, n);
        }
    }

    /// Enter, right or `l`: a load-more row loads more; a directory becomes the
    /// folder browsed; for a file its name is shown.
    pub fn enter_selected(&mut self)
        requires
            old(self).wf(),
        ensures
            final(self).wf(),
            final(self)@ == entered(old(self).backend, old(self)@),
            final(self).backend == old(self).backend,
    {
        if self.is_busy() {
            return;
        }
        match self.selected_row_parts() {
            None => {},
            Some((path, kind)) => match kind {
                RowKind::LoadMore => self.load_more_at(&path),
                RowKind::Entry => {
                    let target = match self.node_ref(&path) {
                        Some(n) => Some((n.info.is_dir(), copy_str(n.info.name.as_str()))),
                        None => None,
                    };
                    match target {
                        None => {},
                        Some((is_dir, name)) => {
                            if is_dir {
                                self.browse(name.as_str());
                            } else {
                                self.message = name;
                            }
                        },
                    }
                },
            },
        }
    }

    /// Backspace, left or `h`: the parent folder is browsed.
    pub fn parent(&mut self)
        requires
            old(self).wf(),
        ensures
            final(self).wf(),
            final(self)@ == went_up(old(self).backend, old(self)@),
            final(self).backend == old(self).backend,
    {
        if self.is_busy() {
            return;
        }
        let current = self.root_name();
        let parent = self.backend.parent(current.as_str());
        if str_eq(parent.as_str(), current.as_str()) {
            return;
        }
        self.browse(parent.as_str());
    }

    /// Space: folds or unfolds the selected directory, listing it when it is
    /// unfolded for the first time.
    pub fn toggle_expand_selected(&mut self)
        requires
            old(self).wf(),
        ensures
            final(self).wf(),
            final(self)@ == toggled(old(self).backend, old(self)@),
            final(self).backend == old(self).backend,
    {
        if self.is_busy() {
            return;
        }
        match self.selected_row_parts() {
            None => {},
            Some((path, kind)) => match kind {
                RowKind::LoadMore => self.load_more_at(&path),
                RowKind::Entry => match node_id(&self.nodes, &path) {
                    Some(id) => {
                        assert(self@.nodes[id as int] == self.nodes@[id as int]@);
                        let is_dir = self.nodes[id].info.is_dir();
                        let expanded = self.nodes[id].expanded;
                        let should_load = self.nodes[id].children.len() == 0
                            && !self.nodes[id].exhausted;
                        if !is_dir {
                            return;
                        }
                        if expanded {
                            self.set_expanded(id, false);
                            self.rebuild_rows();
                        } else {
                            self.set_expanded(id, true);
                            if should_load {
                                self.load_more_at(&path);
                            } else {
                                self.rebuild_rows();
                            }
                        }
                    },
                    None => self.rebuild_rows(),
                },
            },
        }
    }

    /// The first load-more row among the selected one and the next three.
    fn prefetch_index(&self) -> (r: Option<usize>)
        requires
            self.wf(),
        ensures
            match r {
                Some(i) => i < self@.rows.len() && prefetch_target(self@, self@.selected)
                    == Some(self@.rows[i as int].path),
                None => prefetch_target(self@, self@.selected) is None,
            },
    {
        let end = if self.selected.saturating_add(4) < self.rows.len() {
            self.selected + 4
        } else {
            self.rows.len()
        };
        let mut i = self.selected;
        while i < end
            invariant
                self.wf(),
                self.selected <= i,
                end <= self.rows@.len(),
                end <= self.selected + 4,
                prefetch_target(self@, self@.selected) == prefetch_target(self@, i as int),
            decreases end - i,
        {
            assert(self@.rows[i as int] == self.rows@[i as int]@);
            match self.rows[i].kind {
                RowKind::LoadMore => {
                    return Some(i);
                },
                RowKind::Entry => {},
            }
            i = i + 1;
        }
        None
    }

    /// Loads more when a load-more row is near the selection.
    pub fn prefetch_near_selection(&mut self)
        requires
            old(self).wf(),
        ensures
            final(self).wf(),
            final(self)@ == prefetched(old(self).backend, old(self)@),
            final(self).backend == old(self).backend,
    {
        match self.prefetch_index() {
            Some(i) => {
                let path = copy_path(&self.rows[i].path);
                assert(self@.rows[i as int] == self.rows@[i as int]@);
                self.load_more_at(&path);
            },
            None => {},
        }
    }

    /// Moves the selection by `delta` rows, within the rows.
    pub fn move_selection(&mut self, delta: isize)
        requires
            old(self).wf(),
        ensures
            final(self).wf(),
            final(self)@ == moved(old(self).backend, old(self)@, delta as int),
            final(self).backend == old(self).backend,
    {
        let n = self.rows.len();
        if n == 0 {
            self.selected = 0;
            return;
        }
        let s: i128 = self.selected as i128 + delta as i128;
        let last: i128 = (n - 1) as i128;
        let clamped: i128 = if s < 0 {
            0
        } else if s > last {
            last
        } else {
            s
        };
        self.selected = clamped as usize;
        self.prefetch_near_selection();
    }

    /// Home or `g`: the first row.
    pub fn home(&mut self)
        requires
            old(self).wf(),
        ensures
            final(self).wf(),
            final(self)@ == (AppView { selected: 0, ..old(self)@ }),
            final(self).backend == old(self).backend,
    {
        self.selected = 0;
    }

    /// End or `G`: the last row, loading more when it is a load-more row.
    pub fn end(&mut self)
        requires
            old(self).wf(),
        ensures
            final(self).wf(),
            final(self)@ == prefetched(
                old(self).backend,
                AppView {
                    selected: if old(self)@.rows.len() > 0 {
                        old(self)@.rows.len() - 1
                    } else {
                        0
                    },
                    ..old(self)@
                },
            ),
            final(self).backend == old(self).backend,
    {
        self.selected = self.rows.len().saturating_sub(1);
        self.prefetch_near_selection();
    }
}

impl<B: BrowserBackend> BrowserApp<B> {
    /// The cached preview of `path`: its line count, whether more can be read
    /// and from where.
    pub fn cached_state(&self, path: &str) -> (r: (usize, bool, usize))
        ensures
            r.0 as int == cache_state(self@, path@).0,
            r.1 == cache_state(self@, path@).1,
            r.2 == cache_state(self@, path@).2,
    {
        match self.cache_index(path) {
            Some(j) => {
                let ghost s = self.preview_cache@;
                proof {
                    lemma_cache_lookup(s, path@, j + 1);
                    assert(s.take(j + 1).drop_last() =~= s.take(j as int));
                }
                let entry = &self.preview_cache[j].1;
                (entry.lines.len(), entry.has_more, entry.next_offset)
            },
            None => (0, false, 0),
        }
    }

    /// Whether a preview of `path` was asked for.
    pub fn is_requested(&self, path: &str) -> (r: bool)
        ensures
            r == self@.requests.contains(path@),
    {
        let ghost sv = strings_view(self.preview_requests@);
        let mut i: usize = 0;
        while i < self.preview_requests.len()
            invariant
                i <= self.preview_requests@.len(),
                sv == strings_view(self.preview_requests@),
                forall|j: int| 0 <= j < i ==> sv[j] != path@,
            decreases self.preview_requests@.len() - i,
        {
            if str_eq(self.preview_requests[i].as_str(), path) {
                assert(sv[i as int] == path@);
                return true;
            }
            i = i + 1;
        }
        false
    }

    /// Records that a preview of `path` was asked for.
    fn add_request(&mut self, path: &str)
        ensures
            final(self)@ == (AppView { requests: old(self)@.requests.insert(path@), ..old(self)@ }),
            final(self).backend == old(self).backend,
            old(self).wf() ==> final(self).wf(),
    {
        if self.is_requested(path) {
            assert(self@.requests.insert(path@) =~= self@.requests);
            return;
        }
        let ghost sv = strings_view(self.preview_requests@);
        self.preview_requests.push(copy_str(path));
        assert(strings_view(self.preview_requests@) =~= sv.push(path@));
        assert(sv.push(path@).to_set() =~= sv.to_set().insert(path@)) by {
            assert forall|x: Seq<char>| sv.push(path@).contains(x) <==> (sv.contains(x) || x == path@) by {
                if sv.push(path@).contains(x) {
                    let k = choose|k: int| 0 <= k < sv.push(path@).len() && sv.push(path@)[k] == x;
                    if k < sv.len() {
                        assert(sv[k] == x);
                    }
                }
                if sv.contains(x) {
                    let k = choose|k: int| 0 <= k < sv.len() && sv[k] == x;
                    assert(sv.push(path@)[k] == x);
                }
                if x == path@ {
                    assert(sv.push(path@)[sv.len() as int] == x);
                }
            }
        }
    }

    /// Whether the running job reads the preview of `path`.
    pub fn is_preview_pending(&self, path: &str) -> (r: bool)
        ensures
            r == preview_pending(self@, path@),
    {
        match &self.pending {
            Some(PendingKind::Preview { path: p, .. }) => str_eq(p.as_str(), path),
            _ => false,
        }
    }

    /// `p`: reads the preview of the selected entry from its start.
    pub fn request_preview_selected(&mut self)
        requires
            old(self).wf(),
        ensures
            final(self).wf(),
            final(self)@ == preview_requested(old(self).backend, old(self)@),
            final(self).backend == old(self).backend,
    {
        if self.is_busy() {
            return;
        }
        match self.selected_row_parts() {
            None => {},
            Some((path, kind)) => match kind {
                RowKind::LoadMore => self.load_more_at(&path),
                RowKind::Entry => {
                    let info = match self.node_ref(&path) {
                        Some(n) => Some(n.info.copy()),
                        None => None,
                    };
                    match info {
                        None => {},
                        Some(info) => {
                            if !self.backend.can_preview(&info) {
                                self.message = copy_str("preview unavailable for this entry");
                                return;
                            }
                            let p = copy_str(info.name.as_str());
                            self.add_request(p.as_str());
                            self.message = concat2(
                                "reading preview for ",
                                self.backend.display_path(p.as_str()).as_str(),
                            );
                            self.preview_scroll = 0;
                            self.preview_horizontal = 0;
                            self.active_preview_path = Some(copy_str(p.as_str()));
                            self.start_preview(p, info.size, 0);
                        },
                    }
                },
            },
        }
    }

    /// Scrolls the preview of the selected entry by `delta` lines; near the end
    /// of what was read, the next bytes are read.
    pub fn scroll_preview(&mut self, delta: i16)
        requires
            old(self).wf(),
        ensures
            final(self).wf(),
            final(self)@ == scrolled(old(self).backend, old(self)@, delta),
            final(self).backend == old(self).backend,
    {
        let path = match self.selected_row_parts() {
            Some((path, _)) => path,
            None => {
                return;
            },
        };
        let info = match self.node_ref(&path) {
            Some(n) => n.info.copy(),
            None => {
                return;
            },
        };
        let name = info.name;
        let (count, has_more, next_offset) = self.cached_state(name.as_str());
        if count == 0 {
            return;
        }
        self.preview_scroll = if delta < 0 {
            let back: u16 = (0i32 - delta as i32) as u16;
            self.preview_scroll.saturating_sub(back)
        } else {
            let up = self.preview_scroll.saturating_add(delta as u16);
            let cap = (count - 1) as u16;
            if up < cap {
                up
            } else {
                cap
            }
        };
        if has_more && self.preview_scroll as usize + 20 >= count && !self.is_preview_pending(
            name.as_str(),
        ) {
            self.start_preview(name, info.size, next_offset);
        }
    }

    /// Shifts the preview sideways by `delta` columns.
    pub fn scroll_preview_horizontal(&mut self, delta: i16)
        ensures
            final(self)@ == (AppView {
                horizontal: sat_shift(old(self)@.horizontal, delta),
                ..old(self)@
            }),
            final(self).backend == old(self).backend,
            old(self).wf() ==> final(self).wf(),
    {
        self.preview_horizontal = if delta < 0 {
            let back: u16 = (0i32 - delta as i32) as u16;
            self.preview_horizontal.saturating_sub(back)
        } else {
            self.preview_horizontal.saturating_add(delta as u16)
        };
    }

    /// Home in the preview pane: its first line.
    pub fn preview_home(&mut self)
        ensures
            final(self)@ == (AppView { scroll: 0, ..old(self)@ }),
            final(self).backend == old(self).backend,
            old(self).wf() ==> final(self).wf(),
    {
        self.preview_scroll = 0;
    }

    /// End in the preview pane: the last line of the active preview.
    pub fn preview_end(&mut self)
        requires
            old(self).wf(),
        ensures
            final(self).wf(),
            final(self)@ == preview_ended(old(self).backend, old(self)@),
            final(self).backend == old(self).backend,
    {
        let count = match &self.active_preview_path {
            Some(p) => self.cached_state(p.as_str()).0,
            None => 0,
        };
        let last = if count > 0 {
            count - 1
        } else {
            0
        };
        self.preview_scroll = if last > 65535 {
            65535
        } else {
            last as u16
        };
        self.scroll_preview(0);
    }

    /// `d`: downloads the selected file under the current directory.
    pub fn download_selected(&mut self)
        requires
            old(self).wf(),
        ensures
            final(self).wf(),
            final(self)@ == download_requested(old(self).backend, old(self)@),
            final(self).backend == old(self).backend,
    {
        if self.is_busy() {
            return;
        }
        match self.selected_row_parts() {
            None => {},
            Some((path, kind)) => match kind {
                RowKind::LoadMore => self.load_more_at(&path),
                RowKind::Entry => {
                    let info = match self.node_ref(&path) {
                        Some(n) => Some(n.info.copy()),
                        None => None,
                    };
                    match info {
                        None => {},
                        Some(info) => {
                            if !info.is_file() {
                                self.message = copy_str("download unavailable for this entry");
                                return;
                            }
                            let shown = self.backend.display_path(info.name.as_str());
                            match download_target(shown.as_str()) {
                                None => {
                                    self.message = concat2(
                                        "download target unavailable for ",
                                        shown.as_str(),
                                    );
                                },
                                Some(local) => {
                                    self.start_download(info.name, shown, local);
                                },
                            }
                        },
                    }
                },
            },
        }
    }

    /// `r`: lists the level of the selected row again from the start.
    pub fn refresh_selected_level(&mut self)
        requires
            old(self).wf(),
        ensures
            final(self).wf(),
            final(self)@ == refreshed(old(self).backend, old(self)@),
            final(self).backend == old(self).backend,
    {
        if self.is_busy() {
            return;
        }
        let (row_path, kind) = match self.selected_row_parts() {
            Some(parts) => parts,
            None => {
                return;
            },
        };
        let selected = match self.node_ref(&row_path) {
            Some(n) => Some((copy_str(n.info.name.as_str()), n.info.is_dir())),
            None => None,
        };
        let is_file_row = match kind {
            RowKind::Entry => match &selected {
                Some((_, is_dir)) => !*is_dir,
                None => false,
            },
            RowKind::LoadMore => false,
        };
        let selected_name = match selected {
            Some((name, _)) => Some(name),
            None => None,
        };
        let mut path = row_path;
        if is_file_row && path.len() > 0 {
            path.pop();
        }
        let dir = match self.node_ref(&path) {
            Some(n) => copy_str(n.info.name.as_str()),
            None => self.root_name(),
        };
        match node_id(&self.nodes, &path) {
            Some(id) => self.reset_node(id),
            None => {},
        }
        self.preview_cache = Vec::new();
        self.preview_requests = Vec::new();
        proof {
            assert(strings_view(self.preview_requests@).to_set() =~= Set::<Seq<char>>::empty());
            assert(cache_map(self.preview_cache@) =~= Map::<Seq<char>, crate::app_spec::CacheView>::empty());
        }
        self.start_list_page(path, dir, 0, selected_name);
    }
}

impl<B: BrowserBackend> BrowserApp<B> {
    /// What a key does when no ctrl-a prefix is pending and the preview pane
    /// does not take it; whether it quits.
    pub fn handle_global_key(&mut self, key: Key, ctrl: bool) -> (quit: bool)
        requires
            old(self).wf(),
        ensures
            final(self).wf(),
            (final(self)@, quit) == global_key(old(self).backend, old(self)@, key, ctrl),
            final(self).backend == old(self).backend,
    {
        if ctrl && key == Key::Char('c') {
            return true;
        } else if ctrl && key == Key::Char('u') {
            self.scroll_preview(-10);
        } else if ctrl && key == Key::Char('d') {
            self.scroll_preview(10);
        } else if key == Key::Char('H') {
            self.scroll_preview_horizontal(-10);
        } else if key == Key::Char('L') {
            self.scroll_preview_horizontal(10);
        } else if key == Key::Char('q') || key == Key::Esc {
            return true;
        } else if key == Key::Up || key == Key::Char('k') {
            self.move_selection(-1);
        } else if key == Key::Down || key == Key::Char('j') {
            self.move_selection(1);
        } else if key == Key::PageUp {
            self.move_selection(-10);
        } else if key == Key::PageDown {
            self.move_selection(10);
        } else if key == Key::Home || key == Key::Char('g') {
            self.home();
        } else if key == Key::End || key == Key::Char('G') {
            self.end();
        } else if key == Key::Enter || key == Key::Right || key == Key::Char('l') {
            self.enter_selected();
        } else if key == Key::Backspace || key == Key::Left || key == Key::Char('h') {
            self.parent();
        } else if key == Key::Char(' ') {
            self.toggle_expand_selected();
        } else if key == Key::Char('p') {
            self.request_preview_selected();
        } else if key == Key::Char('d') {
            self.download_selected();
        } else if key == Key::Char('r') {
            self.refresh_selected_level();
        } else if key == Key::Char('n') {
            self.request_new_session();
        }
        false
    }

    /// What a key does, and whether it quits.  After ctrl-a, left and right
    /// focus a pane; in the preview pane, arrows, page keys, Home and End
    /// scroll it.
    pub fn handle_key(&mut self, key: Key, ctrl: bool) -> (quit: bool)
        requires
            old(self).wf(),
        ensures
            final(self).wf(),
            (final(self)@, quit) == key_handled(old(self).backend, old(self)@, key, ctrl),
            final(self).backend == old(self).backend,
    {
        if self.command_prefix {
            self.command_prefix = false;
            if key == Key::Left {
                self.focus = PaneFocus::Browser;
                self.message = copy_str("browser pane focused");
            } else if key == Key::Right {
                self.focus = PaneFocus::Preview;
                self.message = copy_str("preview pane focused");
            } else {
                self.message = copy_str("unknown ctrl-a command");
            }
            return false;
        }
        if key == Key::Char('a') && ctrl {
            self.command_prefix = true;
            self.message = copy_str("ctrl-a: press left or right to focus a pane");
            return false;
        }
        if self.focus == PaneFocus::Preview {
            if key == Key::Up {
                self.scroll_preview(-1);
                return false;
            } else if key == Key::Down {
                self.scroll_preview(1);
                return false;
            } else if key == Key::Left {
                self.scroll_preview_horizontal(-4);
                return false;
            } else if key == Key::Right {
                self.scroll_preview_horizontal(4);
                return false;
            } else if key == Key::PageUp {
                self.scroll_preview(-10);
                return false;
            } else if key == Key::PageDown {
                self.scroll_preview(10);
                return false;
            } else if key == Key::Home {
                self.preview_home();
                return false;
            } else if key == Key::End {
                self.preview_end();
                return false;
            }
        }
        self.handle_global_key(key, ctrl)
    }
}

/// Ctrl-C, `q` and Esc quit the browser, unless they end a ctrl-a prefix;
/// a plain `c` never quits.
pub proof fn law_quit_keys<B: BrowserBackend>(b: B, v: AppView)
    ensures
        !v.command_prefix ==> key_handled(b, v, Key::Char('c'), true).1,
        !v.command_prefix ==> key_handled(b, v, Key::Char('q'), false).1,
        !v.command_prefix ==> key_handled(b, v, Key::Esc, false).1,
        !key_handled(b, v, Key::Char('c'), false).1,
        v.command_prefix ==> !key_handled(b, v, Key::Char('c'), true).1,
{
}

/// `n` asks for a new session and quits nothing.
pub proof fn law_new_session_key<B: BrowserBackend>(b: B, v: AppView)
    requires
        !v.command_prefix,
    ensures
        key_handled(b, v, Key::Char('n'), false).0.new_session,
        !key_handled(b, v, Key::Char('n'), false).1,
{
}

/// Ctrl-A then Right focuses the preview pane, and ctrl-A then Left the
/// browser pane; the prefix is gone afterwards.
pub proof fn law_focus_keys<B: BrowserBackend>(b: B, v: AppView)
    requires
        !v.command_prefix,
    ensures
        ({
            let p = key_handled(b, v, Key::Char('a'), true).0;
            &&& p.command_prefix
            &&& key_handled(b, p, Key::Right, false).0.focus == PaneFocus::Preview
            &&& !key_handled(b, p, Key::Right, false).0.command_prefix
            &&& key_handled(b, p, Key::Left, false).0.focus == PaneFocus::Browser
            &&& !key_handled(b, p, Key::Left, false).0.command_prefix
        }),
{
}

/// Arrow keys act on the focused pane: in the browser pane they move the
/// selection and enter or leave folders; in the preview pane they scroll it.
pub proof fn law_arrows_follow_focus<B: BrowserBackend>(b: B, v: AppView)
    requires
        !v.command_prefix,
    ensures
        v.focus == PaneFocus::Browser ==> key_handled(b, v, Key::Up, false).0 == moved(b, v, -1)
            && key_handled(b, v, Key::Down, false).0 == moved(b, v, 1) && key_handled(
            b,
            v,
            Key::Right,
            false,
        ).0 == entered(b, v) && key_handled(b, v, Key::Left, false).0 == went_up(b, v),
        v.focus == PaneFocus::Preview ==> key_handled(b, v, Key::Up, false).0 == scrolled(
            b,
            v,
            -1i16,
        ) && key_handled(b, v, Key::Down, false).0 == scrolled(b, v, 1i16) && key_handled(
            b,
            v,
            Key::Right,
            false,
        ).0 == (AppView { horizontal: sat_shift(v.horizontal, 4i16), ..v }) && key_handled(
            b,
            v,
            Key::Left,
            false,
        ).0 == (AppView { horizontal: sat_shift(v.horizontal, -4i16), ..v }),
{
}

/// Ctrl-U and Ctrl-D scroll the preview by ten lines, and `H` and `L` shift it
/// by ten columns, whichever pane has the focus.
pub proof fn law_preview_shortcuts<B: BrowserBackend>(b: B, v: AppView)
    requires
        !v.command_prefix,
    ensures
        key_handled(b, v, Key::Char('u'), true).0 == scrolled(b, v, -10i16),
        key_handled(b, v, Key::Char('d'), true).0 == scrolled(b, v, 10i16),
        key_handled(b, v, Key::Char('H'), false).0 == (AppView {
            horizontal: sat_shift(v.horizontal, -10i16),
            ..v
        }),
        key_handled(b, v, Key::Char('L'), false).0 == (AppView {
            horizontal: sat_shift(v.horizontal, 10i16),
            ..v
        }),
{
}

/// Changing a node's flags, but not its children, leaves every path leading
/// where it led.
proof fn lemma_id_at_same_children(
    nodes: Seq<NodeView>,
    id: int,
    n: NodeView,
    from: int,
    path: Seq<usize>,
)
    requires
        0 <= id < nodes.len(),
        n.children == nodes[id].children,
    ensures
        id_at(nodes.update(id, n), from, path) == id_at(nodes, from, path),
    decreases path.len(),
{
    if path.len() > 0 && 0 <= from < nodes.len() {
        let w = nodes.update(id, n);
        assert(w[from].children == nodes[from].children);
        if path[0] < nodes[from].children.len() {
            lemma_id_at_same_children(
                nodes,
                id,
                n,
                nodes[from].children[path[0] as int] as int,
                path.drop_first(),
            );
        }
    }
}

/// Unfolding is lazy: space on a folded directory that has nothing loaded
/// and can list more starts listing it from where its listing stands; on any
/// other directory it starts nothing.
pub proof fn law_expand_is_lazy<B: BrowserBackend>(b: B, v: AppView)
    requires
        app_wf(v),
        v.pending is None,
        selected_row(v) is Some,
        selected_row(v).unwrap().kind == RowKind::Entry,
        node_at(v.nodes, selected_row(v).unwrap().path) is Some,
        node_at(v.nodes, selected_row(v).unwrap().path).unwrap().info.is_dir(),
    ensures
        ({
            let row = selected_row(v).unwrap();
            let n = node_at(v.nodes, row.path).unwrap();
            let w = toggled(b, v);
            &&& (!n.expanded && n.children.len() == 0 && !n.exhausted) ==> w.started == Some(
                JobView::ListPage { dir: n.info.name, offset: n.next_offset, limit: v.page_size },
            )
            &&& (n.expanded || n.children.len() > 0 || n.exhausted) ==> w.started == v.started
                && w.pending is None
        }),
{
    let row = selected_row(v).unwrap();
    let id = id_at(v.nodes, 0, row.path).unwrap();
    let n = v.nodes[id];
    if !n.expanded && n.children.len() == 0 && !n.exhausted {
        let n1 = NodeView { expanded: true, ..n };
        lemma_id_at_same_children(v.nodes, id, n1, 0, row.path);
        assert(v.nodes.update(id, n1)[id] == n1);
    }
}

/// Entering a directory browses it alone, from the start of its listing.
pub proof fn law_enter_replaces_folder<B: BrowserBackend>(b: B, v: AppView)
    requires
        v.pending is None,
        selected_row(v) is Some,
        selected_row(v).unwrap().kind == RowKind::Entry,
        node_at(v.nodes, selected_row(v).unwrap().path) is Some,
        node_at(v.nodes, selected_row(v).unwrap().path).unwrap().info.is_dir(),
    ensures
        ({
            let n = node_at(v.nodes, selected_row(v).unwrap().path).unwrap();
            let w = entered(b, v);
            &&& w.nodes == seq![crate::tree::root_node_view(crate::entry::folder_info(n.info.name))]
            &&& w.selected == 0
            &&& w.cache.is_empty()
            &&& w.requests.is_empty()
            &&& w.started == Some(JobView::ListPage { dir: n.info.name, offset: 0, limit: v.page_size })
        }),
{
}

/// Scrolling keeps the preview on its lines: from a line of the cached
/// preview of the selected entry, scrolling by any amount lands on one of its
/// lines.
pub proof fn law_scroll_within_lines<B: BrowserBackend>(b: B, v: AppView, delta: i16)
    requires
        selected_row(v) is Some,
        node_at(v.nodes, selected_row(v).unwrap().path) is Some,
        ({
            let count = cache_state(v, node_at(v.nodes, selected_row(v).unwrap().path).unwrap().info.name).0;
            0 < count && v.scroll < count
        }),
    ensures
        ({
            let count = cache_state(v, node_at(v.nodes, selected_row(v).unwrap().path).unwrap().info.name).0;
            scrolled(b, v, delta).scroll < count
        }),
{
}

/// Near the end of what was read (twenty lines or less from it), scrolling
/// reads the next page of the preview when there is more and no read of it is
/// running.
pub proof fn law_scroll_reads_on<B: BrowserBackend>(b: B, v: AppView, delta: i16)
    requires
        selected_row(v) is Some,
        node_at(v.nodes, selected_row(v).unwrap().path) is Some,
        ({
            let path = node_at(v.nodes, selected_row(v).unwrap().path).unwrap().info.name;
            let (count, has_more, next) = cache_state(v, path);
            &&& count > 0
            &&& has_more
            &&& scrolled(b, v, delta).scroll + 20 >= count
            &&& !preview_pending(v, path)
        }),
    ensures
        ({
            let path = node_at(v.nodes, selected_row(v).unwrap().path).unwrap().info.name;
            scrolled(b, v, delta).started == Some(
                JobView::Preview { path, offset: cache_state(v, path).2, limit: v.preview_bytes },
            )
        }),
{
}

/// While a background job runs, every action that would start another one
/// is refused: only the message changes, to say that the browser is busy.
pub proof fn law_busy_refuses<B: BrowserBackend>(b: B, v: AppView, path: Seq<usize>)
    requires
        v.pending is Some,
    ensures
        entered(b, v) == with_message(v, busy_message()),
        went_up(b, v) == with_message(v, busy_message()),
        toggled(b, v) == with_message(v, busy_message()),
        preview_requested(b, v) == with_message(v, busy_message()),
        download_requested(b, v) == with_message(v, busy_message()),
        refreshed(b, v) == with_message(v, busy_message()),
        load_more(b, v, path) == with_message(v, busy_message()),
{
}

} // verus!
