//! The tree of loaded entries and the rows it shows.
//!
//! Nodes live in one vector; node 0 is the folder being browsed, and every node
//! lists its children by their positions in that vector, which always come after
//! its own.  A row names its node by the path of child positions from the root.
use vstd::prelude::*;
use crate::entry::{folder_info, FileInfo, InfoView};

verus! {

/// A loaded entry: its metadata, whether it is unfolded, its children so far and
/// how far its listing has got.
pub struct EntryNode {
    pub info: FileInfo,
    pub expanded: bool,
    pub children: Vec<usize>,
    pub next_offset: usize,
    pub exhausted: bool,
    pub error: Option<String>,
}

/// The mathematical value of a node.
pub struct NodeView {
    pub info: InfoView,
    pub expanded: bool,
    pub children: Seq<usize>,
    pub next_offset: usize,
    pub exhausted: bool,
    pub error: Option<Seq<char>>,
}

impl View for EntryNode {
    type V = NodeView;

    open spec fn view(&self) -> NodeView {
        NodeView {
            info: self.info@,
            expanded: self.expanded,
            children: self.children@,
            next_offset: self.next_offset,
            exhausted: self.exhausted,
            error: match self.error {
                Some(e) => Some(e@),
                None => None,
            },
        }
    }
}

/// The nodes of a vector, each by its value.
pub open spec fn nodes_view(nodes: Seq<EntryNode>) -> Seq<NodeView> {
    nodes.map_values(|n: EntryNode| n@)
}

/// A fresh node for a listed entry: folded, with nothing loaded; only
/// directories can be listed further.
pub open spec fn new_node_view(info: InfoView) -> NodeView {
    NodeView {
        info,
        expanded: false,
        children: Seq::empty(),
        next_offset: 0,
        exhausted: !info.is_dir(),
        error: None,
    }
}

/// The node of the folder being browsed: unfolded, with nothing loaded.
pub open spec fn root_node_view(info: InfoView) -> NodeView {
    NodeView {
        info,
        expanded: true,
        children: Seq::empty(),
        next_offset: 0,
        exhausted: false,
        error: None,
    }
}

impl EntryNode {
    /// A fresh node for a listed entry.
    pub fn new(info: FileInfo) -> (r: EntryNode)
        ensures
            r@ == new_node_view(info@),
    {
        let exhausted = !info.is_dir();
        EntryNode {
            info,
            expanded: false,
            children: Vec::new(),
            next_offset: 0,
            exhausted,
            error: None,
        }
    }

    /// The node of a folder to browse.
    pub fn root(path: &str) -> (r: EntryNode)
        ensures
            r@ == root_node_view(folder_info(path@)),
    {
        let r = EntryNode {
            info: FileInfo::directory(path),
            expanded: true,
            children: Vec::new(),
            next_offset: 0,
            exhausted: false,
            error: None,
        };
        assert(r@.children =~= Seq::<usize>::empty());
        r
    }
}

/// Every node's children come after it and within the vector, and there is a root.
pub open spec fn tree_wf(nodes: Seq<NodeView>) -> bool {
    &&& nodes.len() > 0
    &&& forall|id: int, k: int|
        0 <= id < nodes.len() && 0 <= k < nodes[id].children.len() ==> id < (
        #[trigger] nodes[id].children[k]) < nodes.len()
}

/// The node that a path of child positions leads to from node `id`.
pub open spec fn id_at(nodes: Seq<NodeView>, id: int, path: Seq<usize>) -> Option<int>
    decreases path.len(),
{
    if path.len() == 0 {
        Some(id)
    } else if 0 <= id < nodes.len() && path[0] < nodes[id].children.len() {
        id_at(nodes, nodes[id].children[path[0] as int] as int, path.drop_first())
    } else {
        None
    }
}

/// The node that a path leads to from the root.
pub open spec fn node_at(nodes: Seq<NodeView>, path: Seq<usize>) -> Option<NodeView> {
    match id_at(nodes, 0, path) {
        Some(id) => if 0 <= id < nodes.len() {
            Some(nodes[id])
        } else {
            None
        },
        None => None,
    }
}

/// What a row shows: an entry, or the place where more entries can be loaded.
#[derive(PartialEq, Eq, Structural)]
pub enum RowKind {
    Entry,
    LoadMore,
}

impl RowKind {
    pub fn copy(&self) -> (r: RowKind)
        ensures
            r == *self,
    {
        match self {
            RowKind::Entry => RowKind::Entry,
            RowKind::LoadMore => RowKind::LoadMore,
        }
    }
}

/// A visible row: the node it belongs to, its indentation and its kind.
pub struct VisibleRow {
    pub path: Vec<usize>,
    pub depth: usize,
    pub kind: RowKind,
}

/// The mathematical value of a row.
pub struct RowView {
    pub path: Seq<usize>,
    pub depth: int,
    pub kind: RowKind,
}

impl View for VisibleRow {
    type V = RowView;

    open spec fn view(&self) -> RowView {
        RowView { path: self.path@, depth: self.depth as int, kind: self.kind }
    }
}

pub open spec fn rows_view(rows: Seq<VisibleRow>) -> Seq<RowView> {
    rows.map_values(|r: VisibleRow| r@)
}

/// The rows of one entry: its own row and, when it is unfolded, the rows of its
/// children followed by a load-more row while its listing is unfinished.
pub open spec fn entry_rows(nodes: Seq<NodeView>, id: int, path: Seq<usize>, depth: int) -> Seq<
    RowView,
>
    decreases nodes.len() - id, 1int, 0int,
{
    let own = seq![RowView { path, depth, kind: RowKind::Entry }];
    if 0 <= id < nodes.len() && nodes[id].expanded {
        own + children_rows(nodes, id, 0, path, depth + 1) + (if nodes[id].exhausted {
            Seq::empty()
        } else {
            seq![RowView { path, depth: depth + 1, kind: RowKind::LoadMore }]
        })
    } else {
        own
    }
}

/// The rows of the children of node `id` from the `k`-th on, at the given depth.
pub open spec fn children_rows(
    nodes: Seq<NodeView>,
    id: int,
    k: int,
    path: Seq<usize>,
    depth: int,
) -> Seq<RowView>
    decreases nodes.len() - id, 0int, nodes[id].children.len() - k,
{
    if 0 <= id < nodes.len() && 0 <= k < nodes[id].children.len() {
        let c = nodes[id].children[k] as int;
        let here = if id < c < nodes.len() {
            entry_rows(nodes, c, path.push(k as usize), depth)
        } else {
            Seq::empty()
        };
        here + children_rows(nodes, id, k + 1, path, depth)
    } else {
        Seq::empty()
    }
}

/// All rows of the tree: the rows of the root's children, then a load-more row
/// while the root's listing is unfinished.
pub open spec fn rows_of(nodes: Seq<NodeView>) -> Seq<RowView> {
    children_rows(nodes, 0, 0, Seq::empty(), 0) + (if nodes.len() > 0 && !nodes[0].exhausted {
        seq![RowView { path: Seq::empty(), depth: 0, kind: RowKind::LoadMore }]
    } else {
        Seq::empty()
    })
}

/// Following one more child position from a path.
proof fn lemma_id_at_push(nodes: Seq<NodeView>, id: int, path: Seq<usize>, k: usize)
    ensures
        id_at(nodes, id, path.push(k)) == match id_at(nodes, id, path) {
            Some(x) => if 0 <= x < nodes.len() && k < nodes[x].children.len() {
                Some(nodes[x].children[k as int] as int)
            } else {
                None
            },
            None => None,
        },
    decreases path.len(),
{
    if path.len() == 0 {
        assert(seq![k].drop_first() =~= Seq::<usize>::empty());
        assert(path.push(k) =~= seq![k]);
        assert(path.push(k)[0] == k);
        reveal_with_fuel(id_at, 2);
    } else {
        assert(path.push(k).drop_first() =~= path.drop_first().push(k));
        assert(path.push(k)[0] == path[0]);
        if 0 <= id < nodes.len() && path[0] < nodes[id].children.len() {
            lemma_id_at_push(nodes, nodes[id].children[path[0] as int] as int, path.drop_first(), k);
        }
    }
}

/// The rows of an entry all name nodes that the tree holds.
proof fn lemma_entry_rows_resolve(nodes: Seq<NodeView>, id: int, path: Seq<usize>, depth: int)
    requires
        tree_wf(nodes),
        forall|j: int| 0 <= j < nodes.len() ==> (#[trigger] nodes[j]).children.len() <= usize::MAX,
        0 <= id < nodes.len(),
        id_at(nodes, 0, path) == Some(id),
    ensures
        forall|i: int| 0 <= i < entry_rows(nodes, id, path, depth).len() ==> (#[trigger] entry_rows(
            nodes,
            id,
            path,
            depth,
        )[i]).path == path || node_at(nodes, entry_rows(nodes, id, path, depth)[i].path) is Some,
    decreases nodes.len() - id, 1int, 0int,
{
    if nodes[id].expanded {
        lemma_children_rows_resolve(nodes, id, 0, path, depth + 1);
        let own = seq![RowView { path, depth, kind: RowKind::Entry }];
        let kids = children_rows(nodes, id, 0, path, depth + 1);
        let more = if nodes[id].exhausted {
            Seq::empty()
        } else {
            seq![RowView { path, depth: depth + 1, kind: RowKind::LoadMore }]
        };
        let all = entry_rows(nodes, id, path, depth);
        assert(all == own + kids + more);
        assert forall|i: int| 0 <= i < all.len() implies (#[trigger] all[i]).path == path || node_at(
            nodes,
            all[i].path,
        ) is Some by {
            if 1 <= i < 1 + kids.len() {
                assert(all[i] == kids[i - 1]);
            }
        }
    }
}

/// The rows of the children of a node all name nodes that the tree holds.
proof fn lemma_children_rows_resolve(
    nodes: Seq<NodeView>,
    id: int,
    k: int,
    path: Seq<usize>,
    depth: int,
)
    requires
        tree_wf(nodes),
        forall|j: int| 0 <= j < nodes.len() ==> (#[trigger] nodes[j]).children.len() <= usize::MAX,
        0 <= id < nodes.len(),
        0 <= k,
        id_at(nodes, 0, path) == Some(id),
    ensures
        forall|i: int| 0 <= i < children_rows(nodes, id, k, path, depth).len() ==> node_at(
            nodes,
            (#[trigger] children_rows(nodes, id, k, path, depth)[i]).path,
        ) is Some,
    decreases nodes.len() - id, 0int, nodes[id].children.len() - k,
{
    if k < nodes[id].children.len() {
        let c = nodes[id].children[k] as int;
        let p = path.push(k as usize);
        lemma_id_at_push(nodes, 0, path, k as usize);
        assert(id_at(nodes, 0, p) == Some(c));
        lemma_entry_rows_resolve(nodes, c, p, depth);
        lemma_children_rows_resolve(nodes, id, k + 1, path, depth);
        let here = entry_rows(nodes, c, p, depth);
        let rest = children_rows(nodes, id, k + 1, path, depth);
        let all = children_rows(nodes, id, k, path, depth);
        assert(all == here + rest);
        assert forall|i: int| 0 <= i < all.len() implies node_at(nodes, (#[trigger] all[i]).path) is Some by {
            if i < here.len() {
                assert(all[i] == here[i]);
            } else {
                assert(all[i] == rest[i - here.len()]);
            }
        }
    }
}

/// Every row that the tree shows names a node that it holds: the rows never
/// point at an entry that was not loaded.  (Each node's children fit in a
/// vector, as they do in every tree the browser holds.)
pub proof fn law_rows_name_loaded_nodes(nodes: Seq<NodeView>)
    requires
        tree_wf(nodes),
        forall|j: int| 0 <= j < nodes.len() ==> (#[trigger] nodes[j]).children.len() <= usize::MAX,

    ensures
        forall|i: int| 0 <= i < rows_of(nodes).len() ==> node_at(nodes, (#[trigger] rows_of(nodes)[i]).path)
            is Some,
{
    lemma_children_rows_resolve(nodes, 0, 0, Seq::empty(), 0);
    let kids = children_rows(nodes, 0, 0, Seq::empty(), 0);
    let all = rows_of(nodes);
    assert forall|i: int| 0 <= i < all.len() implies node_at(nodes, (#[trigger] all[i]).path) is Some by {
        if i < kids.len() {
            assert(all[i] == kids[i]);
        } else {
            assert(all[i].path == Seq::<usize>::empty());
        }
    }
}

/// A copy of a path.
pub fn copy_path(p: &Vec<usize>) -> (r: Vec<usize>)
    ensures
        r@ == p@,
{
    let mut r: Vec<usize> = Vec::new();
    let mut i: usize = 0;
    while i < p.len()
        invariant
            i <= p@.len(),
            r@ == p@.take(i as int),
        decreases p@.len() - i,
    {
        r.push(p[i]);
        assert(p@.take(i + 1) == p@.take(i as int).push(p@[i as int]));
        i = i + 1;
    }
    assert(p@.take(p@.len() as int) == p@);
    r
}

/// Appends the rows of the children of node `id` to `rows`.
pub fn append_rows(
    nodes: &Vec<EntryNode>,
    id: usize,
    path: &mut Vec<usize>,
    depth: usize,
    rows: &mut Vec<VisibleRow>,
)
    requires
        tree_wf(nodes_view(nodes@)),
        id < nodes@.len(),
        depth == old(path)@.len(),
    ensures
        final(path)@ == old(path)@,
        rows_view(final(rows)@) == rows_view(old(rows)@) + children_rows(
            nodes_view(nodes@),
            id as int,
            0,
            old(path)@,
            depth as int,
        ),
    decreases nodes@.len() - id,
{
    let ghost nv = nodes_view(nodes@);
    let ghost p0 = path@;
    let n = nodes[id].children.len();
    let mut k: usize = 0;
    assert(nv[id as int] == nodes@[id as int]@);
    while k < n
        invariant
            nv == nodes_view(nodes@),
            tree_wf(nv),
            id < nodes@.len(),
            n == nv[id as int].children.len(),
            k <= n,
            path@ == p0,
            depth == p0.len(),
            rows_view(rows@) + children_rows(nv, id as int, k as int, p0, depth as int) == rows_view(
                old(rows)@,
            ) + children_rows(nv, id as int, 0, p0, depth as int),
        decreases n - k,
    {
        let ghost before = rows_view(rows@);
        let c = nodes[id].children[k];
        assert(nv[id as int].children[k as int] == c);
        assert(id < c < nodes@.len());
        path.push(k);
        let ghost p1 = path@;
        let d1 = path.len();
        rows.push(VisibleRow { path: copy_path(path), depth, kind: RowKind::Entry });
        assert(nv[c as int] == nodes@[c as int]@);
        let ghost with_own = rows_view(rows@);
        assert(with_own =~= before + seq![RowView { path: p1, depth: depth as int, kind: RowKind::Entry }]);
        if nodes[c].expanded {
            append_rows(nodes, c, path, d1, rows);
            let ghost with_children = rows_view(rows@);
            if !nodes[c].exhausted {
                rows.push(VisibleRow { path: copy_path(path), depth: d1, kind: RowKind::LoadMore });
                assert(rows_view(rows@) =~= with_children + seq![RowView { path: p1, depth: d1 as int, kind: RowKind::LoadMore }]);
            }
        }
        path.pop();
        proof {
            assert(p1 == p0.push(k));
            assert(path@ =~= p0);
            let here = entry_rows(nv, c as int, p0.push(k), depth as int);
            assert(children_rows(nv, id as int, k as int, p0, depth as int) == here
                + children_rows(nv, id as int, k + 1, p0, depth as int));
            assert(rows_view(rows@) =~= before + here);
            assert(before + here + children_rows(nv, id as int, k + 1, p0, depth as int) =~= before
                + children_rows(nv, id as int, k as int, p0, depth as int));
        }
        k = k + 1;
    }
}

/// The rows that the tree shows.
pub fn build_rows(nodes: &Vec<EntryNode>) -> (r: Vec<VisibleRow>)
    requires
        tree_wf(nodes_view(nodes@)),
    ensures
        rows_view(r@) == rows_of(nodes_view(nodes@)),
{
    let mut rows: Vec<VisibleRow> = Vec::new();
    let mut path: Vec<usize> = Vec::new();
    append_rows(nodes, 0, &mut path, 0, &mut rows);
    let ghost before = rows_view(rows@);
    assert(nodes_view(nodes@)[0] == nodes@[0]@);
    if !nodes[0].exhausted {
        rows.push(VisibleRow { path: Vec::new(), depth: 0, kind: RowKind::LoadMore });
    }
    assert(rows_view(rows@) =~= rows_of(nodes_view(nodes@)));
    rows
}

} // verus!
