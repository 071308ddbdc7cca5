//! Directory listings as pages: entries in browsing order (directories first,
//! then by name), cut into pages.
use vstd::prelude::*;
use crate::backend::{FsspecBackend, PythonBackend};
use crate::entry::{FileInfo, InfoView, ListPage, PreviewPage};
use crate::render::{seq_lt, str_lt};
use crate::text::{chars_of, str_eq};

verus! {

/// The entries of a vector, each by its value.
pub open spec fn infos_view(s: Seq<FileInfo>) -> Seq<InfoView> {
    s.map_values(|e: FileInfo| e@)
}

/// Whether `a` is listed before `b`: directories come before everything else,
/// and within each group names go in the order of `str`.
pub open spec fn entry_before(a: InfoView, b: InfoView) -> bool {
    (a.is_dir() && !b.is_dir()) || (a.is_dir() == b.is_dir() && seq_lt(a.name, b.name))
}

/// Inserts `x` into `sorted` after every entry that is not listed after it.
pub open spec fn insert_entry(sorted: Seq<InfoView>, x: InfoView) -> Seq<InfoView>
    decreases sorted.len(),
{
    if sorted.len() > 0 && entry_before(x, sorted.last()) {
        insert_entry(sorted.drop_last(), x).push(sorted.last())
    } else {
        sorted.push(x)
    }
}

/// The entries in listing order; entries that compare equal keep their order.
pub open spec fn sort_entries(s: Seq<InfoView>) -> Seq<InfoView>
    decreases s.len(),
{
    if s.len() == 0 {
        s
    } else {
        insert_entry(sort_entries(s.drop_last()), s.last())
    }
}

/// Whether two entries have the same name and kind.
pub open spec fn same_entry(a: InfoView, b: InfoView) -> bool {
    a.name == b.name && a.file_type == b.file_type
}

/// The entries with each run of entries of the same name and kind cut to its
/// first one.
pub open spec fn dedup_entries(s: Seq<InfoView>) -> Seq<InfoView>
    decreases s.len(),
{
    if s.len() <= 1 {
        s
    } else {
        let d = dedup_entries(s.drop_last());
        if same_entry(s.last(), d.last()) {
            d
        } else {
            d.push(s.last())
        }
    }
}

/// The page of `limit` entries from position `offset`.
pub open spec fn page_slice(s: Seq<InfoView>, offset: int, limit: int) -> Seq<InfoView> {
    if offset >= s.len() {
        Seq::empty()
    } else if offset + limit < s.len() {
        s.subrange(offset, offset + limit)
    } else {
        s.skip(offset)
    }
}

/// Whether the entries are in listing order.
pub open spec fn in_listing_order(s: Seq<InfoView>) -> bool {
    forall|i: int, j: int| 0 <= i < j < s.len() ==> !entry_before(#[trigger] s[j], #[trigger] s[i])
}

/// Sorting keeps the number of entries.
proof fn lemma_sort_len(s: Seq<InfoView>)
    ensures
        sort_entries(s).len() == s.len(),
    decreases s.len(),
{
    if s.len() > 0 {
        lemma_sort_len(s.drop_last());
        lemma_insert_len(sort_entries(s.drop_last()), s.last());
    }
}

/// Inserting adds one entry.
proof fn lemma_insert_len(sorted: Seq<InfoView>, x: InfoView)
    ensures
        insert_entry(sorted, x).len() == sorted.len() + 1,
    decreases sorted.len(),
{
    if sorted.len() > 0 && entry_before(x, sorted.last()) {
        lemma_insert_len(sorted.drop_last(), x);
    }
}

/// Inserting after the last position whose entry is not listed after `x`.
proof fn lemma_insert_entry_at(sorted: Seq<InfoView>, x: InfoView, j: int)
    requires
        0 <= j <= sorted.len(),
        forall|i: int| j <= i < sorted.len() ==> entry_before(x, #[trigger] sorted[i]),
        j == 0 || !entry_before(x, sorted[j - 1]),
    ensures
        insert_entry(sorted, x) == sorted.take(j) + seq![x] + sorted.skip(j),
    decreases sorted.len(),
{
    if sorted.len() > j {
        lemma_insert_entry_at(sorted.drop_last(), x, j);
        assert(sorted.drop_last().take(j) =~= sorted.take(j));
        assert(sorted.take(j) + seq![x] + sorted.skip(j) =~= (sorted.drop_last().take(j) + seq![x]
            + sorted.drop_last().skip(j)).push(sorted.last()));
    } else {
        assert(sorted.take(j) =~= sorted);
        assert(sorted.skip(j) =~= Seq::<InfoView>::empty());
    }
}

/// Sorts entries into listing order, keeping the order of entries that compare
/// equal.
pub fn sort_entries_of(entries: &Vec<FileInfo>) -> (r: Vec<FileInfo>)
    ensures
        infos_view(r@) == sort_entries(infos_view(entries@)),
{
    let ghost ev = infos_view(entries@);
    let mut sorted: Vec<FileInfo> = Vec::new();
    let mut i: usize = 0;
    while i < entries.len()
        invariant
            i <= entries@.len(),
            ev == infos_view(entries@),
            infos_view(sorted@) == sort_entries(ev.take(i as int)),
        decreases entries@.len() - i,
    {
        let ghost x = ev[i as int];
        let ghost sv = infos_view(sorted@);
        let is_dir = entries[i].is_dir();
        let name = chars_of(entries[i].name.as_str());
        let mut j = sorted.len();
        while j > 0 && entry_before_exec(is_dir, name.as_slice(), &sorted[j - 1])
            invariant
                j <= sorted@.len(),
                sv == infos_view(sorted@),
                is_dir == x.is_dir(),
                name@ == x.name,
                forall|t: int| j <= t < sv.len() ==> entry_before(x, #[trigger] sv[t]),
            decreases j,
        {
            j = j - 1;
        }
        proof {
            lemma_insert_entry_at(sv, x, j as int);
            assert(ev.take(i + 1).drop_last() =~= ev.take(i as int));
        }
        let item = entries[i].copy();
        sorted.insert(j, item);
        assert(infos_view(sorted@) =~= sv.take(j as int) + seq![x] + sv.skip(j as int));
        i = i + 1;
    }
    assert(ev.take(entries@.len() as int) =~= ev);
    sorted
}

/// Whether an entry that is a directory when `is_dir` and is named `name` is
/// listed before `b`.
fn entry_before_exec(is_dir: bool, name: &[char], b: &FileInfo) -> (r: bool)
    ensures
        r == ((is_dir && !b@.is_dir()) || (is_dir == b@.is_dir() && seq_lt(name@, b@.name))),
{
    let b_dir = b.is_dir();
    if is_dir != b_dir {
        return is_dir;
    }
    str_lt(name, chars_of(b.name.as_str()).as_slice())
}

/// Drops each entry that has the name and kind of the entry kept before it.
pub fn dedup_entries_of(entries: &Vec<FileInfo>) -> (r: Vec<FileInfo>)
    ensures
        infos_view(r@) == dedup_entries(infos_view(entries@)),
{
    let ghost ev = infos_view(entries@);
    let mut kept: Vec<FileInfo> = Vec::new();
    let mut i: usize = 0;
    while i < entries.len()
        invariant
            i <= entries@.len(),
            ev == infos_view(entries@),
            infos_view(kept@) == dedup_entries(ev.take(i as int)),
            i > 0 ==> kept@.len() > 0,
        decreases entries@.len() - i,
    {
        let ghost kv = infos_view(kept@);
        proof {
            assert(ev.take(i + 1).drop_last() =~= ev.take(i as int));
            assert(ev.take(i + 1).last() == ev[i as int]);
            if i == 0 {
                assert(ev.take(1) =~= seq![ev[0]]);
                assert(kv =~= Seq::<InfoView>::empty());
            }
        }
        let duplicate = if kept.len() == 0 {
            false
        } else {
            let last = &kept[kept.len() - 1];
            assert(kv.last() == last@);
            str_eq(entries[i].name.as_str(), last.name.as_str()) && same_type(
                &entries[i],
                last,
            )
        };
        if !duplicate {
            kept.push(entries[i].copy());
            assert(infos_view(kept@) =~= kv.push(ev[i as int]));
        }
        i = i + 1;
    }
    assert(ev.take(entries@.len() as int) =~= ev);
    kept
}

/// Whether two entries are of the same kind.
fn same_type(a: &FileInfo, b: &FileInfo) -> (r: bool)
    ensures
        r == (a@.file_type == b@.file_type),
{
    match (&a.file_type, &b.file_type) {
        (crate::entry::FileType::File, crate::entry::FileType::File) => true,
        (crate::entry::FileType::Directory, crate::entry::FileType::Directory) => true,
        (crate::entry::FileType::Other, crate::entry::FileType::Other) => true,
        _ => false,
    }
}

/// The page of `limit` entries from position `offset`, and whether entries
/// follow it.
pub fn page_of(entries: &Vec<FileInfo>, offset: usize, limit: usize) -> (r: ListPage)
    requires
        offset + limit <= usize::MAX,
    ensures
        infos_view(r.entries@) == page_slice(infos_view(entries@), offset as int, limit as int),
        r.has_more == (offset + limit < entries@.len()),
{
    let ghost ev = infos_view(entries@);
    let total = entries.len();
    let mut page: Vec<FileInfo> = Vec::new();
    if offset >= total {
        assert(infos_view(page@) =~= Seq::<InfoView>::empty());
        return ListPage { entries: page, has_more: offset + limit < total };
    }
    let end = if offset + limit < total {
        offset + limit
    } else {
        total
    };
    let mut i = offset;
    assert(infos_view(page@) =~= ev.subrange(offset as int, offset as int));
    while i < end
        invariant
            offset <= i <= end <= entries@.len(),
            ev == infos_view(entries@),
            infos_view(page@) == ev.subrange(offset as int, i as int),
        decreases end - i,
    {
        let ghost pv = infos_view(page@);
        page.push(entries[i].copy());
        assert(infos_view(page@) =~= pv.push(ev[i as int]));
        assert(ev.subrange(offset as int, i + 1) =~= ev.subrange(offset as int, i as int).push(
            ev[i as int],
        ));
        i = i + 1;
    }
    proof {
        if offset + limit >= total {
            assert(ev.skip(offset as int) =~= ev.subrange(offset as int, total as int));
        }
    }
    ListPage { entries: page, has_more: offset + limit < total }
}

/// The page that a read of at most `limit` bytes from `offset` gave: more may
/// follow when the read filled the limit.
pub fn preview_page_of(bytes: Vec<u8>, offset: usize, limit: usize) -> (r: PreviewPage)
    requires
        offset + bytes@.len() <= usize::MAX,
    ensures
        r.bytes@ == bytes@,
        r.has_more == (bytes@.len() == limit),
        r.next_offset == offset + bytes@.len(),
{
    let n = bytes.len();
    PreviewPage { bytes, has_more: n == limit, next_offset: offset + n }
}

/// `seq_lt` never holds of a sequence and itself.
proof fn lemma_seq_lt_irreflexive(a: Seq<char>)
    ensures
        !seq_lt(a, a),
    decreases a.len(),
{
    if a.len() > 0 {
        lemma_seq_lt_irreflexive(a.drop_first());
    }
}

/// `seq_lt` is transitive.
proof fn lemma_seq_lt_transitive(a: Seq<char>, b: Seq<char>, c: Seq<char>)
    requires
        seq_lt(a, b),
        seq_lt(b, c),
    ensures
        seq_lt(a, c),
    decreases a.len(),
{
    if a.len() > 0 && b.len() > 0 && c.len() > 0 && a[0] == b[0] && b[0] == c[0] {
        lemma_seq_lt_transitive(a.drop_first(), b.drop_first(), c.drop_first());
    }
}

/// Of two different sequences, one comes before the other.
proof fn lemma_seq_lt_total(a: Seq<char>, b: Seq<char>)
    ensures
        a == b || seq_lt(a, b) || seq_lt(b, a),
    decreases a.len(),
{
    if a.len() > 0 && b.len() > 0 && a[0] == b[0] {
        lemma_seq_lt_total(a.drop_first(), b.drop_first());
        if a.drop_first() == b.drop_first() {
            assert(a =~= seq![a[0]] + a.drop_first());
            assert(b =~= seq![b[0]] + b.drop_first());
        }
    } else if a.len() == 0 && b.len() == 0 {
        assert(a =~= b);
    } else if a.len() > 0 && b.len() > 0 {
        if (a[0] as u32) == (b[0] as u32) {
            vstd::utf8::char_u32_cast(a[0], a[0] as u32);
            vstd::utf8::char_u32_cast(b[0], b[0] as u32);
        }
    }
}

/// An entry is never listed before itself, and of two entries listed in
/// either order the later can be moved past: the order is a strict weak order.
proof fn lemma_entry_order(x: InfoView, y: InfoView, z: InfoView)
    ensures
        !entry_before(x, x),
        entry_before(x, y) ==> !entry_before(y, x),
        entry_before(x, z) ==> entry_before(x, y) || entry_before(y, z),
{
    lemma_seq_lt_irreflexive(x.name);
    if seq_lt(x.name, y.name) && seq_lt(y.name, x.name) {
        lemma_seq_lt_transitive(x.name, y.name, x.name);
    }
    lemma_seq_lt_total(x.name, y.name);
    lemma_seq_lt_total(y.name, z.name);
    if seq_lt(y.name, x.name) && seq_lt(z.name, y.name) {
        lemma_seq_lt_transitive(z.name, y.name, x.name);
        if seq_lt(x.name, z.name) {
            lemma_seq_lt_transitive(x.name, z.name, x.name);
        }
    }
    if x.name == y.name && seq_lt(z.name, y.name) && seq_lt(x.name, z.name) {
        lemma_seq_lt_transitive(x.name, z.name, x.name);
    }
    if y.name == z.name && seq_lt(y.name, x.name) && seq_lt(x.name, z.name) {
        lemma_seq_lt_transitive(x.name, z.name, x.name);
    }
}

/// Where `x` goes when it is inserted into entries in listing order: after
/// every entry it is not listed before.
proof fn insert_position(sorted: Seq<InfoView>, x: InfoView) -> (j: int)
    ensures
        0 <= j <= sorted.len(),
        forall|t: int| j <= t < sorted.len() ==> entry_before(x, #[trigger] sorted[t]),
        j == 0 || !entry_before(x, sorted[j - 1]),
    decreases sorted.len(),
{
    if sorted.len() > 0 && entry_before(x, sorted.last()) {
        let j = insert_position(sorted.drop_last(), x);
        assert forall|t: int| j <= t < sorted.len() implies entry_before(x, #[trigger] sorted[t]) by {
            if t < sorted.len() - 1 {
                assert(sorted[t] == sorted.drop_last()[t]);
            }
        }
        j
    } else {
        sorted.len() as int
    }
}

/// Inserting an entry into entries in listing order keeps them in listing
/// order and adds just that entry.
proof fn lemma_insert_entry_sorted(sorted: Seq<InfoView>, x: InfoView)
    requires
        in_listing_order(sorted),
    ensures
        in_listing_order(insert_entry(sorted, x)),
        insert_entry(sorted, x).to_multiset() == sorted.to_multiset().insert(x),
{
    let j = insert_position(sorted, x);
    lemma_insert_entry_at(sorted, x, j);
    let r = sorted.take(j) + seq![x] + sorted.skip(j);
    assert(r =~= sorted.insert(j, x));
    vstd::seq_lib::to_multiset_insert(sorted, j, x);
    assert forall|p: int, q: int| 0 <= p < q < r.len() implies !entry_before(
        #[trigger] r[q],
        #[trigger] r[p],
    ) by {
        if q < j {
            assert(r[p] == sorted[p] && r[q] == sorted[q]);
        } else if q == j {
            assert(r[p] == sorted[p] && r[q] == x);
            assert(!entry_before(x, sorted[j - 1]));
            if p < j - 1 {
                lemma_entry_order(x, sorted[j - 1], sorted[p]);
            }
        } else if p == j {
            assert(r[q] == sorted[q - 1] && r[p] == x);
            lemma_entry_order(x, sorted[q - 1], x);
        } else if p < j {
            assert(r[p] == sorted[p] && r[q] == sorted[q - 1]);
        } else {
            assert(r[p] == sorted[p - 1] && r[q] == sorted[q - 1]);
        }
    }
}

/// Listings come in listing order (directories first, then by name, in the
/// order of `str`), and hold exactly the entries that were listed.
pub proof fn law_listing_order(entries: Seq<InfoView>)
    ensures
        in_listing_order(sort_entries(entries)),
        sort_entries(entries).to_multiset() == entries.to_multiset(),
    decreases entries.len(),
{
    if entries.len() > 0 {
        let rest = entries.drop_last();
        law_listing_order(rest);
        lemma_insert_entry_sorted(sort_entries(rest), entries.last());
        assert(rest.push(entries.last()) =~= entries);
        vstd::seq_lib::to_multiset_build(rest, entries.last());
    }
}

impl FsspecBackend {
    /// The page of a directory listing from `offset`: the listed entries in
    /// listing order, `limit` of them, and whether more follow.
    pub fn list_page(&self, entries: &Vec<FileInfo>, offset: usize, limit: usize) -> (r: ListPage)
        requires
            offset + limit <= usize::MAX,
        ensures
            infos_view(r.entries@) == page_slice(
                sort_entries(infos_view(entries@)),
                offset as int,
                limit as int,
            ),
            r.has_more == (offset + limit < entries@.len()),
    {
        let sorted = sort_entries_of(entries);
        proof {
            lemma_sort_len(infos_view(entries@));
        }
        page_of(&sorted, offset, limit)
    }

    /// The preview page that a read of at most `limit` bytes from `offset`
    /// gave.
    pub fn preview(&self, bytes: Vec<u8>, offset: usize, limit: usize) -> (r: PreviewPage)
        requires
            offset + bytes@.len() <= usize::MAX,
        ensures
            r.bytes@ == bytes@,
            r.has_more == (bytes@.len() == limit),
            r.next_offset == offset + bytes@.len(),
    {
        preview_page_of(bytes, offset, limit)
    }
}

impl PythonBackend {
    /// The page of a directory listing from `offset`: the listed entries in
    /// listing order with repeats of an entry dropped, `limit` of them, and
    /// whether more follow.
    pub fn list_page(&self, entries: &Vec<FileInfo>, offset: usize, limit: usize) -> (r: ListPage)
        requires
            offset + limit <= usize::MAX,
        ensures
            infos_view(r.entries@) == page_slice(
                dedup_entries(sort_entries(infos_view(entries@))),
                offset as int,
                limit as int,
            ),
            r.has_more == (offset + limit < dedup_entries(sort_entries(infos_view(entries@))).len()),
    {
        let sorted = sort_entries_of(entries);
        let kept = dedup_entries_of(&sorted);
        page_of(&kept, offset, limit)
    }
}

/// What dedup keeps is a subsequence: each kept entry comes from a position no
/// earlier than the previous one's.
proof fn lemma_dedup_subsequence(s: Seq<InfoView>) -> (pos: Seq<int>)
    ensures
        pos.len() == dedup_entries(s).len(),
        forall|k: int| 0 <= k < pos.len() ==> 0 <= #[trigger] pos[k] < s.len() && s[pos[k]]
            == dedup_entries(s)[k],
        forall|k: int, l: int| 0 <= k < l < pos.len() ==> #[trigger] pos[k] < #[trigger] pos[l],
        s.len() > 0 ==> dedup_entries(s).len() > 0,
    decreases s.len(),
{
    if s.len() <= 1 {
        Seq::new(s.len(), |i: int| i)
    } else {
        let d = dedup_entries(s.drop_last());
        let p = lemma_dedup_subsequence(s.drop_last());
        if same_entry(s.last(), d.last()) {
            p
        } else {
            let q = p.push(s.len() - 1);
            assert forall|k: int| 0 <= k < q.len() implies 0 <= #[trigger] q[k] < s.len() && s[q[k]]
                == dedup_entries(s)[k] by {
                if k < p.len() {
                    assert(s.drop_last()[p[k]] == s[p[k]]);
                }
            }
            q
        }
    }
}

/// Repeats dropped from a listing leave it in listing order, with no entry
/// followed by one of the same name and kind.
pub proof fn law_dedup_listing(entries: Seq<InfoView>)
    ensures
        in_listing_order(dedup_entries(sort_entries(entries))),
        forall|k: int|
            0 <= k < dedup_entries(sort_entries(entries)).len() - 1 ==> !same_entry(
                #[trigger] dedup_entries(sort_entries(entries))[k],
                dedup_entries(sort_entries(entries))[k + 1],
            ),
{
    let s = sort_entries(entries);
    law_listing_order(entries);
    let d = dedup_entries(s);
    let pos = lemma_dedup_subsequence(s);
    assert forall|i: int, j: int| 0 <= i < j < d.len() implies !entry_before(
        #[trigger] d[j],
        #[trigger] d[i],
    ) by {
        assert(pos[i] < pos[j]);
        assert(s[pos[i]] == d[i] && s[pos[j]] == d[j]);
    }
    lemma_dedup_no_repeats(s);
}

/// No kept entry is followed by one of the same name and kind.
proof fn lemma_dedup_no_repeats(s: Seq<InfoView>)
    ensures
        forall|k: int|
            0 <= k < dedup_entries(s).len() - 1 ==> !same_entry(
                #[trigger] dedup_entries(s)[k],
                dedup_entries(s)[k + 1],
            ),
    decreases s.len(),
{
    if s.len() > 1 {
        let d = dedup_entries(s.drop_last());
        lemma_dedup_no_repeats(s.drop_last());
        lemma_dedup_subsequence(s.drop_last());
        if !same_entry(s.last(), d.last()) {
            let e = d.push(s.last());
            assert forall|k: int| 0 <= k < e.len() - 1 implies !same_entry(#[trigger] e[k], e[k + 1]) by {
                if k < d.len() - 1 {
                    assert(e[k] == d[k] && e[k + 1] == d[k + 1]);
                } else {
                    assert(e[k] == d.last() && e[k + 1] == s.last());
                }
            }
        }
    }
}

/// A page says that no more entries follow exactly when it reaches the end
/// of the listing: reading on from `offset` plus its length finds nothing.
pub proof fn law_page_end(s: Seq<InfoView>, offset: int, limit: int)
    requires
        0 <= offset,
        0 < limit,
    ensures
        !(offset + limit < s.len()) <==> page_slice(s, offset + page_slice(s, offset, limit).len(), limit).len()
            == 0 || offset >= s.len(),
        page_slice(s, offset, limit).len() <= limit,
        offset < s.len() ==> page_slice(s, offset, limit) == s.subrange(
            offset,
            offset + page_slice(s, offset, limit).len(),
        ),
{
    if offset < s.len() {
        let p = page_slice(s, offset, limit);
        if offset + limit < s.len() {
            assert(p.len() == limit);
            assert(page_slice(s, offset + limit, limit).len() > 0);
        } else {
            assert(p =~= s.subrange(offset, s.len() as int));
        }
    }
}

} // verus!
