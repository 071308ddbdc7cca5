//! What the panes of the browser show: the title, the rows, the preview and
//! the footer.
use vstd::prelude::*;
use crate::app::BrowserApp;
use crate::app_spec::{app_wf, detail_lines, preview_shown, row_label_of, AppView};
use crate::backend::BrowserBackend;
use crate::render::{
    append_lines, basename, metadata_lines, push_line, repeat_char, single_line, strings_view,
    time_ok,
};
use crate::sizes::format_size;
use crate::text::{concat2, copy_str, decimal_text, push_str, usize_text};
use crate::tree::{node_at, RowKind, VisibleRow};

verus! {

/// The node a path leads to has times that can be shown.
proof fn lemma_node_times(v: AppView, path: Seq<usize>)
    requires
        app_wf(v),
        node_at(v.nodes, path) is Some,
    ensures
        time_ok(node_at(v.nodes, path).unwrap().info.created),
        time_ok(node_at(v.nodes, path).unwrap().info.modified),
{
    let id = crate::tree::id_at(v.nodes, 0, path).unwrap();
    assert(node_at(v.nodes, path).unwrap() == v.nodes[id]);
}

/// The title line: the backend's name and the folder browsed.
pub open spec fn title_of<B: BrowserBackend>(b: B, v: AppView) -> Seq<char> {
    v.name + " | "@ + b.spec_display_path(v.nodes[0].info.name)
}

/// The footer line: the keys, the pending ctrl-a prefix and the message.
pub open spec fn footer_of(v: AppView) -> Seq<char> {
    "ctrl-a \u{2190}/\u{2192} focus | arrows navigate focused pane | p preview | d download | n new session | r refresh | q quit | "@
        + (if v.command_prefix {
        "prefix: ctrl-a | "@
    } else {
        ""@
    }) + v.message
}

impl<B: BrowserBackend> BrowserApp<B> {
    /// The title line.
    pub fn title_text(&self) -> (r: String)
        requires
            self.wf(),
        ensures
            r@ == title_of(self.backend, self@),
    {
        let root = self.root_name();
        let mut r = concat2(self.backend_name.as_str(), " | ");
        push_str(&mut r, self.backend.display_path(root.as_str()).as_str());
        r
    }

    /// The footer line.
    pub fn footer_text(&self) -> (r: String)
        ensures
            r@ == footer_of(self@),
    {
        let mut r = copy_str(
            "ctrl-a \u{2190}/\u{2192} focus | arrows navigate focused pane | p preview | d download | n new session | r refresh | q quit | ",
        );
        if self.command_prefix {
            push_str(&mut r, "prefix: ctrl-a | ");
        } else {
            push_str(&mut r, "");
        }
        push_str(&mut r, self.message.as_str());
        r
    }

    /// The label of a row, and whether it shows a directory.
    pub fn row_label(&self, row: &VisibleRow) -> (r: (String, bool))
        requires
            self.wf(),
        ensures
            (r.0@, r.1) == row_label_of(self@, row@),
    {
        let half = repeat_char(' ', row.depth);
        let mut indent = copy_str(half.as_str());
        push_str(&mut indent, half.as_str());
        assert(indent@ =~= Seq::new((2 * row@.depth) as nat, |i: int| ' '));
        match row.kind {
            RowKind::LoadMore => {
                push_str(&mut indent, "... load more");
                return (indent, false);
            },
            RowKind::Entry => {},
        }
        match self.node_ref(&row.path) {
            None => {
                push_str(&mut indent, "? loading");
                (indent, false)
            },
            Some(n) => {
                let is_dir = n.info.is_dir();
                let marker = if is_dir {
                    if n.expanded {
                        "[-]"
                    } else {
                        "[+]"
                    }
                } else {
                    "   "
                };
                let size = format_size(n.info.size);
                let name = basename(n.info.name.as_str());
                let mut label = indent;
                push_str(&mut label, marker);
                push_str(&mut label, " ");
                push_str(&mut label, name.as_str());
                if size.as_str().unicode_len() > 0 {
                    push_str(&mut label, "  ");
                    push_str(&mut label, size.as_str());
                }
                (label, is_dir)
            },
        }
    }

    /// The lines of the preview pane; reading a preview starts when the
    /// backend previews by itself and nothing was read yet.
    pub fn preview_lines(&mut self) -> (r: Vec<String>)
        requires
            old(self).wf(),
        ensures
            final(self).wf(),
            (final(self)@, strings_view(r@)) == preview_shown(old(self).backend, old(self)@),
            final(self).backend == old(self).backend,
    {
        let (path, kind) = match self.selected_row_parts() {
            Some(parts) => parts,
            None => {
                return single_line("empty directory");
            },
        };
        match kind {
            RowKind::LoadMore => {
                return single_line("loading more entries as you scroll");
            },
            RowKind::Entry => {},
        }
        let (info, children, error) = match self.node_ref(&path) {
            Some(n) => (
                n.info.copy(),
                n.children.len(),
                match &n.error {
                    Some(e) => Some(copy_str(e.as_str())),
                    None => None,
                },
            ),
            None => {
                return single_line("missing row");
            },
        };
        proof {
            lemma_node_times(self@, path@);
        }
        let ghost n = node_at(self@.nodes, path@).unwrap();
        let previewable = self.backend.can_preview(&info);
        let shown = self.backend.display_path(info.name.as_str());
        let mut details: Vec<String> = Vec::new();
        push_line(&mut details, concat2("name: ", basename(info.name.as_str()).as_str()));
        push_line(&mut details, concat2("path: ", shown.as_str()));
        assert(strings_view(details@) =~= detail_lines(self.backend, n));
        if info.is_dir() && !previewable {
            let mut lines = details;
            push_line(&mut lines, copy_str("type: directory"));
            push_line(&mut lines, concat2("loaded children: ", usize_text(children).as_str()));
            append_lines(&mut lines, metadata_lines(&info));
            match error {
                Some(e) => push_line(&mut lines, concat2("error: ", e.as_str())),
                None => {},
            }
            return lines;
        }
        if !previewable {
            let mut lines = details;
            push_line(&mut lines, concat2("type: ", info.file_type.label().as_str()));
            append_lines(&mut lines, metadata_lines(&info));
            push_line(&mut lines, copy_str("preview unavailable for special filesystem entries"));
            return lines;
        }
        let p = copy_str(info.name.as_str());
        if self.is_preview_pending(p.as_str()) {
            return single_line(concat2("reading preview for ", shown.as_str()).as_str());
        }
        let auto = self.backend.auto_preview();
        if !auto && !self.is_requested(p.as_str()) {
            let mut lines = details;
            push_line(&mut lines, concat2("type: ", info.file_type.label().as_str()));
            let mut size_line = concat2("size: ", decimal_text(info.size).as_str());
            push_str(&mut size_line, " B");
            push_line(&mut lines, size_line);
            append_lines(&mut lines, metadata_lines(&info));
            push_line(&mut lines, copy_str("preview disabled to avoid remote reads"));
            push_line(&mut lines, copy_str("press p to read preview bytes"));
            return lines;
        }
        let same = match &self.active_preview_path {
            Some(a) => crate::text::str_eq(a.as_str(), p.as_str()),
            None => false,
        };
        if !same {
            self.preview_scroll = 0;
            self.preview_horizontal = 0;
            self.active_preview_path = Some(copy_str(p.as_str()));
        }
        match self.cache_index(p.as_str()) {
            Some(j) => {
                let ghost s = self.preview_cache@;
                proof {
                    crate::app::lemma_cache_lookup(s, p@, j + 1);
                    assert(s.take(j + 1).drop_last() =~= s.take(j as int));
                }
                return crate::app::copy_strings(&self.preview_cache[j].1.lines);
            },
            None => {},
        }
        if auto {
            let size = info.size;
            self.start_preview(p, size, 0);
            return single_line(concat2("reading preview for ", shown.as_str()).as_str());
        }
        single_line("press p to read preview bytes")
    }
}

} // verus!
