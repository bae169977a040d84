use vstd::prelude::*;
use crate::change_set::{
    chunk_is, chunk_keys_unique, chunk_views, lemma_new_array_rows_members, lemma_staged_rows_members,
    new_array_rows,
    staged_row_of, staged_rows, ChangeSet, ChunkEntry,
};
use crate::dataset::{
    array_fn, base_rows, existing_fn, group_fn, law_flush_keeps_nodes, kept_rows, manifest_rows, manifests_for, node_rows,
    node_view_fn, node_views, old_chunk, overlaid_meta, overlay_node, flushed_array, view_path_is,
    Dataset,
};
use crate::lookup::{
    find_by, lemma_find_by_concat, lemma_find_by_map, lemma_find_by_some, lookup, path_is,
};
use crate::region_tracker::{lemma_contiguous_region, lemma_region_bounds, region_of_rows};
use crate::storage::Storage;
use crate::tables::{find_row, lemma_find_row, node_path_is, region_end, ManifestsTable};
use crate::types::{
    refs_view, ChunkInfo, ChunkView, ManifestRef, NodeData, NodeDataView, NodeId, NodeStructure, ObjectId,
    TableRegion, ZarrArrayMetadata,
};

verus! {

/// The rows of node `n` in `rows` form one unbroken run.
pub open spec fn rows_contiguous(rows: Seq<ChunkView>, n: NodeId) -> bool {
    forall|i: int, j: int, k: int|
        #![trigger rows[i].node, rows[j].node, rows[k].node]
        0 <= i < j < k < rows.len() && rows[i].node == n && rows[k].node == n ==> rows[j].node == n
}

/// Every row of `rows` belongs to node `id`.
pub open spec fn all_of(rows: Seq<ChunkView>, id: NodeId) -> bool {
    forall|i: int| 0 <= i < rows.len() ==> #[trigger] rows[i].node == id
}

/// No row of `rows` belongs to node `n`.
pub open spec fn none_of(rows: Seq<ChunkView>, n: NodeId) -> bool {
    forall|i: int| 0 <= i < rows.len() ==> #[trigger] rows[i].node != n
}

/// Every row in the region `loc` of `t` belongs to node `id`.
pub open spec fn region_rows_of(t: ManifestsTable, loc: TableRegion, id: NodeId) -> bool {
    forall|j: int|
        loc.0 <= j < region_end(t.chunks@, loc) ==> #[trigger] t.chunks@[j].node == id
}

/// Every stored region that `refs` names holds only rows of node `id`.
pub open spec fn refs_rows_of(st: Storage, refs: Seq<ManifestRef>, id: NodeId) -> bool {
    forall|k: int|
        0 <= k < refs.len() ==> match #[trigger] st.manifest(refs[k].object_id) {
            Some(t) => region_rows_of(t, refs[k].location, id),
            None => true,
        }
}

/// The manifests of an array node hold only rows of that node.
pub open spec fn owns_its_rows(st: Storage, n: NodeStructure) -> bool {
    match n.node_data {
        NodeData::Array(_, refs) => refs_rows_of(st, refs@, n.id),
        NodeData::Group => true,
    }
}

/// Node ids are pairwise distinct.
pub open spec fn ids_distinct(nodes: Seq<NodeStructure>) -> bool {
    forall|i: int, j: int| 0 <= i < j < nodes.len() ==> nodes[i].id != nodes[j].id
}

/// Ids of new arrays are pairwise distinct.
pub open spec fn new_ids_distinct(arrays: Seq<(String, (NodeId, ZarrArrayMetadata))>) -> bool {
    forall|i: int, j: int| 0 <= i < j < arrays.len() ==> arrays[i].1.0 != arrays[j].1.0
}

/// Joining two runs keeps node `n` contiguous when one of them has no row of `n`.
pub proof fn lemma_concat_contiguous(a: Seq<ChunkView>, b: Seq<ChunkView>, n: NodeId)
    requires
        rows_contiguous(a, n),
        rows_contiguous(b, n),
        none_of(a, n) || none_of(b, n),
    ensures
        rows_contiguous(a + b, n),
{
    let s = a + b;
    assert forall|i: int, j: int, k: int|
        #![trigger s[i].node, s[j].node, s[k].node]
        0 <= i < j < k < s.len() && s[i].node == n && s[k].node == n implies s[j].node == n by {
        if k < a.len() {
            assert(s[i] == a[i] && s[j] == a[j] && s[k] == a[k]);
        } else if i >= a.len() {
            assert(s[i] == b[i - a.len()] && s[j] == b[j - a.len()] && s[k] == b[k - a.len()]);
        } else {
            assert(s[i] == a[i] && s[k] == b[k - a.len()]);
        }
    }
}

/// A run whose rows all belong to one node is contiguous for every node.
pub proof fn lemma_uniform_contiguous(rows: Seq<ChunkView>, id: NodeId, n: NodeId)
    requires
        all_of(rows, id),
    ensures
        rows_contiguous(rows, n),
        id != n ==> none_of(rows, n),
{
}

/// Staged rows of an array all carry its id.
pub proof fn lemma_staged_rows_all_of(chunks: Seq<ChunkEntry>, p: Seq<char>, id: NodeId)
    ensures
        all_of(staged_rows(chunks, p, id), id),
    decreases chunks.len(),
{
    if chunks.len() > 0 {
        lemma_staged_rows_all_of(chunks.drop_last(), p, id);
    }
}

/// Kept rows of a region that holds only rows of `id` carry `id`.
pub proof fn lemma_kept_rows_all_of(
    rows: Seq<ChunkInfo>,
    lo: int,
    hi: int,
    cs: ChangeSet,
    p: Seq<char>,
    id: NodeId,
)
    requires
        forall|j: int| lo <= j < hi && j < rows.len() ==> #[trigger] rows[j].node == id,
    ensures
        all_of(kept_rows(rows, lo, hi, cs, p), id),
    decreases hi - lo,
{
    if hi > lo && hi <= rows.len() {
        lemma_kept_rows_all_of(rows, lo, hi - 1, cs, p, id);
    }
}

/// Surviving base rows of an array whose manifests hold only its rows carry its id.
pub proof fn lemma_manifest_rows_all_of(st: Storage, cs: ChangeSet, p: Seq<char>, refs: Seq<ManifestRef>, id: NodeId)
    requires
        refs_rows_of(st, refs, id),
    ensures
        all_of(manifest_rows(st, cs, p, refs), id),
    decreases refs.len(),
{
    if refs.len() > 0 {
        let pre = refs.drop_last();
        assert(refs_rows_of(st, pre, id)) by {
            assert forall|k: int| 0 <= k < pre.len() implies match #[trigger] st.manifest(pre[k].object_id) {
                Some(t) => region_rows_of(t, pre[k].location, id),
                None => true,
            } by {
                assert(pre[k] == refs[k]);
            }
        }
        lemma_manifest_rows_all_of(st, cs, p, pre, id);
        let m = refs.last();
        assert(refs[refs.len() - 1] == m);
        let tail = match st.manifest(m.object_id) {
            Some(t) => kept_rows(t.chunks@, m.location.0 as int, region_end(t.chunks@, m.location), cs, p),
            None => Seq::empty(),
        };
        if let Some(t) = st.manifest(m.object_id) {
            assert(region_rows_of(t, m.location, id));
            lemma_kept_rows_all_of(t.chunks@, m.location.0 as int, region_end(t.chunks@, m.location), cs, p, id);
        }
        let head = manifest_rows(st, cs, p, pre);
        assert(manifest_rows(st, cs, p, refs) == head + tail);
        assert forall|i: int| 0 <= i < (head + tail).len() implies #[trigger] (head + tail)[i].node == id by {
            if i < head.len() {
                assert((head + tail)[i] == head[i]);
            } else {
                assert((head + tail)[i] == tail[i - head.len()]);
            }
        }
    }
}

/// The rows a flush writes for a base node carry its id.
pub proof fn lemma_node_rows_all_of(st: Storage, cs: ChangeSet, n: NodeStructure)
    requires
        owns_its_rows(st, n),
    ensures
        all_of(node_rows(st, cs, n), n.id),
{
    if let NodeData::Array(_, refs) = n.node_data {
        lemma_staged_rows_all_of(cs.set_chunks@, n.path@, n.id);
        lemma_manifest_rows_all_of(st, cs, n.path@, refs@, n.id);
        let a = staged_rows(cs.set_chunks@, n.path@, n.id);
        let b = manifest_rows(st, cs, n.path@, refs@);
        assert forall|i: int| 0 <= i < (a + b).len() implies #[trigger] (a + b)[i].node == n.id by {
            if i < a.len() {
                assert((a + b)[i] == a[i]);
            } else {
                assert((a + b)[i] == b[i - a.len()]);
            }
        }
    }
}

/// Rows a flush writes for base nodes: each node's rows are contiguous, and
/// a node that is not among `nodes` has none.
pub proof fn lemma_base_rows_contiguous(st: Storage, cs: ChangeSet, nodes: Seq<NodeStructure>, n: NodeId)
    requires
        ids_distinct(nodes),
        forall|i: int| 0 <= i < nodes.len() ==> #[trigger] owns_its_rows(st, nodes[i]),
    ensures
        rows_contiguous(base_rows(st, cs, nodes), n),
        (forall|i: int| 0 <= i < nodes.len() ==> nodes[i].id != n) ==> none_of(base_rows(st, cs, nodes), n),
    decreases nodes.len(),
{
    if nodes.len() > 0 {
        let pre = nodes.drop_last();
        let last = nodes.last();
        assert forall|i: int| 0 <= i < pre.len() implies #[trigger] owns_its_rows(st, pre[i]) by {
            assert(pre[i] == nodes[i]);
        }
        assert(owns_its_rows(st, nodes[nodes.len() - 1]));
        lemma_base_rows_contiguous(st, cs, pre, n);
        lemma_node_rows_all_of(st, cs, last);
        lemma_uniform_contiguous(node_rows(st, cs, last), last.id, n);
        if n == last.id {
            assert forall|i: int| 0 <= i < pre.len() implies pre[i].id != n by {
                assert(pre[i] == nodes[i]);
            }
        }
        lemma_concat_contiguous(base_rows(st, cs, pre), node_rows(st, cs, last), n);
        let a = base_rows(st, cs, pre);
        let b = node_rows(st, cs, last);
        if forall|i: int| 0 <= i < nodes.len() ==> nodes[i].id != n {
            assert forall|i: int| 0 <= i < pre.len() implies pre[i].id != n by {
                assert(pre[i] == nodes[i]);
            }
            assert forall|i: int| 0 <= i < (a + b).len() implies #[trigger] (a + b)[i].node != n by {
                if i < a.len() {
                    assert((a + b)[i] == a[i]);
                } else {
                    assert((a + b)[i] == b[i - a.len()]);
                }
            }
        }
    }
}

/// Rows a flush writes for new arrays: each array's rows are contiguous, and
/// an id that no new array has has none.
pub proof fn lemma_new_rows_contiguous(
    arrays: Seq<(String, (NodeId, ZarrArrayMetadata))>,
    chunks: Seq<ChunkEntry>,
    n: NodeId,
)
    requires
        new_ids_distinct(arrays),
    ensures
        rows_contiguous(new_array_rows(arrays, chunks), n),
        (forall|i: int| 0 <= i < arrays.len() ==> arrays[i].1.0 != n) ==> none_of(
            new_array_rows(arrays, chunks),
            n,
        ),
    decreases arrays.len(),
{
    if arrays.len() > 0 {
        let pre = arrays.drop_last();
        let last = arrays.last();
        lemma_new_rows_contiguous(pre, chunks, n);
        lemma_staged_rows_all_of(chunks, last.0@, last.1.0);
        lemma_uniform_contiguous(staged_rows(chunks, last.0@, last.1.0), last.1.0, n);
        if n == last.1.0 {
            assert forall|i: int| 0 <= i < pre.len() implies pre[i].1.0 != n by {
                assert(pre[i] == arrays[i]);
            }
        }
        let a = new_array_rows(pre, chunks);
        let b = staged_rows(chunks, last.0@, last.1.0);
        lemma_concat_contiguous(a, b, n);
        if forall|i: int| 0 <= i < arrays.len() ==> arrays[i].1.0 != n {
            assert forall|i: int| 0 <= i < pre.len() implies pre[i].1.0 != n by {
                assert(pre[i] == arrays[i]);
            }
            assert(last == arrays[arrays.len() - 1]);
            assert forall|i: int| 0 <= i < (a + b).len() implies #[trigger] (a + b)[i].node != n by {
                if i < a.len() {
                    assert((a + b)[i] == a[i]);
                } else {
                    assert((a + b)[i] == b[i - a.len()]);
                }
            }
        }
    }
}

/// Region contiguity of a flush: when the base snapshot has distinct node
/// ids, each base array's manifest regions hold only its own rows, and the
/// new arrays have distinct ids that no base node has, then in the rows a
/// flush writes the rows of every node form one run, and the region recorded
/// for the node holds exactly its rows.
pub proof fn law_flush_regions_exact(pre: Dataset, n: NodeId)
    requires
        flush_layout_ok(pre),
    ensures
        rows_contiguous(pre.flush_rows(), n),
        region_of_rows(pre.flush_rows(), n) matches Some(r) ==> forall|j: int|
            0 <= j < pre.flush_rows().len() ==> (r.0 <= j < r.1 <==> #[trigger] pre.flush_rows()[j].node == n),
{
    let cs = pre.change_set;
    let b = pre.existing_rows();
    let a = new_array_rows(cs.new_arrays@, cs.set_chunks@);
    lemma_new_rows_contiguous(cs.new_arrays@, cs.set_chunks@, n);
    match pre.base() {
        Some(t) => {
            lemma_base_rows_contiguous(pre.storage, cs, t.nodes@, n);
            if !none_of(a, n) {
                let k = choose|k: int| 0 <= k < a.len() && a[k].node == n;
                assert(exists|j: int| 0 <= j < cs.new_arrays@.len() && cs.new_arrays@[j].1.0 == n);
                let j = choose|j: int| 0 <= j < cs.new_arrays@.len() && cs.new_arrays@[j].1.0 == n;
                assert forall|i: int| 0 <= i < t.nodes@.len() implies t.nodes@[i].id != n by {
                    assert(t.nodes@[i].id != cs.new_arrays@[j].1.0);
                }
            }
        },
        None => {
            assert(b =~= Seq::<ChunkView>::empty());
        },
    }
    lemma_concat_contiguous(b, a, n);
    lemma_contiguous_region(pre.flush_rows(), n);
}


/// With unique keys, the staged write found at `(p, c)` is the one entry there.
pub proof fn lemma_unique_chunk_key(chunks: Seq<ChunkEntry>, jj: int, p: Seq<char>, c: Seq<u64>)
    requires
        chunk_keys_unique(chunks),
        0 <= jj < chunks.len(),
        chunks[jj].0@ == p && chunks[jj].1@ == c,
    ensures
        find_by(chunks, chunk_is(p, c)) == Some(chunks[jj]),
{
    lemma_find_by_some(chunks, chunk_is(p, c));
    let y = find_by(chunks, chunk_is(p, c)).unwrap();
    let j = choose|j: int| 0 <= j < chunks.len() && chunks[j] == y;
    if j < jj {
        assert(!(chunks[j].0@ == chunks[jj].0@ && chunks[j].1@ == chunks[jj].1@));
    } else if jj < j {
        assert(!(chunks[jj].0@ == chunks[j].0@ && chunks[jj].1@ == chunks[j].1@));
    }
}

/// The conditions under which a flush keeps each node's rows in one run.
pub open spec fn flush_layout_ok(pre: Dataset) -> bool {
    &&& pre.flush_rows().len() <= u64::MAX
    &&& (pre.base() matches Some(t) ==> {
        &&& ids_distinct(t.nodes@)
        &&& forall|i: int| 0 <= i < t.nodes@.len() ==> #[trigger] owns_its_rows(pre.storage, t.nodes@[i])
        &&& forall|i: int, j: int|
            0 <= i < t.nodes@.len() && 0 <= j < pre.change_set.new_arrays@.len()
                ==> t.nodes@[i].id != pre.change_set.new_arrays@[j].1.0
    })
    &&& new_ids_distinct(pre.change_set.new_arrays@)
}

/// `post` is a session with nothing staged on the snapshot that flushing
/// `pre` wrote, with manifest `mid`.
pub open spec fn reopened_after_flush(pre: Dataset, post: Dataset, mid: ObjectId) -> bool {
    &&& post.change_set.is_empty()
    &&& post.base() matches Some(st) && node_views(st.nodes@) == pre.existing_after(
        mid,
        pre.flush_rows(),
    ) + pre.new_after(mid, pre.flush_rows())
    &&& post.storage.manifest(mid) matches Some(mt) && chunk_views(mt.chunks@) == pre.flush_rows()
}

/// After a flush, a new array is an array whose only manifest reference, if
/// any, names its region of the new manifest.
proof fn lemma_flushed_new_array_node(
    pre: Dataset,
    post: Dataset,
    mid: ObjectId,
    p: Seq<char>,
    e: (String, (NodeId, ZarrArrayMetadata)),
)
    requires
        reopened_after_flush(pre, post, mid),
        find_by(pre.change_set.new_arrays@, path_is::<(NodeId, ZarrArrayMetadata)>(p)) == Some(e),
    ensures
        post.node_at(p) matches Some(n) && n.node_data == NodeDataView::Array(
            overlaid_meta(pre.change_set, p, e.1.1@),
            manifests_for(mid, region_of_rows(pre.flush_rows(), e.1.0)),
        ),
{
    let cs = pre.change_set;
    let rows = pre.flush_rows();
    let arrays = cs.new_arrays@;
    let st = post.base().unwrap();
    let mv = view_path_is(p);
    let g = cs.new_groups@.map_values(group_fn(cs));
    let a = arrays.map_values(array_fn(cs, mid, rows));
    lemma_find_by_map(st.nodes@, node_view_fn(), node_path_is(p), mv);
    lemma_find_by_concat(pre.existing_after(mid, rows), g + a, mv);
    lemma_find_by_concat(g, a, mv);
    lemma_find_by_map(arrays, array_fn(cs, mid, rows), path_is::<(NodeId, ZarrArrayMetadata)>(p), mv);
    lemma_find_by_some(arrays, path_is::<(NodeId, ZarrArrayMetadata)>(p));
    let fv = flushed_array(cs, e, mid, rows);
    assert(lookup(post.change_set.updated_attributes@, p) is None);
    assert(lookup(post.change_set.updated_arrays@, p) is None);
    assert(lookup(post.change_set.new_arrays@, p) is None);
    assert(lookup(post.change_set.new_groups@, p) is None);
    assert(post.node_at(p) == Some(overlay_node(post.change_set, p, fv)));
}

/// Under the layout conditions, every row a flush writes for the id of the
/// new array `arrays[k]` comes from a staged write to that array.
proof fn lemma_rows_of_new_array(pre: Dataset, k: int)
    requires
        flush_layout_ok(pre),
        0 <= k < pre.change_set.new_arrays@.len(),
    ensures
        forall|q: int|
            0 <= q < pre.flush_rows().len() && pre.flush_rows()[q].node
                == pre.change_set.new_arrays@[k].1.0 ==> exists|jj: int|
                #[trigger] staged_row_of(
                    pre.change_set.set_chunks@,
                    jj,
                    pre.change_set.new_arrays@[k].0@,
                    pre.change_set.new_arrays@[k].1.0,
                    pre.flush_rows()[q],
                ),
{
    let cs = pre.change_set;
    let rows = pre.flush_rows();
    let arrays = cs.new_arrays@;
    let chunks = cs.set_chunks@;
    let id = arrays[k].1.0;
    let p = arrays[k].0@;
    let existing = pre.existing_rows();
    let fresh = new_array_rows(arrays, chunks);
    lemma_new_array_rows_members(arrays, chunks);
    if let Some(t) = pre.base() {
        assert forall|i: int| 0 <= i < t.nodes@.len() implies t.nodes@[i].id != id by {
            assert(t.nodes@[i].id != arrays[k].1.0);
        }
        lemma_base_rows_contiguous(pre.storage, cs, t.nodes@, id);
    } else {
        assert(existing =~= Seq::<ChunkView>::empty());
    }
    assert(none_of(existing, id));
    assert forall|q: int| 0 <= q < rows.len() && rows[q].node == id implies exists|jj: int|
        #[trigger] staged_row_of(chunks, jj, p, id, rows[q]) by {
        assert(rows == existing + fresh);
        if q < existing.len() {
            assert(rows[q] == existing[q]);
        } else {
            assert(rows[q] == fresh[q - existing.len()]);
            assert(fresh.contains(rows[q]));
            let (i, jj) = choose|i: int, jj: int|
                0 <= i < arrays.len() && #[trigger] staged_row_of(chunks, jj, arrays[i].0@, arrays[i].1.0, rows[q]);
            if i != k {
                if i < k {
                    assert(arrays[i].1.0 != arrays[k].1.0);
                } else {
                    assert(arrays[k].1.0 != arrays[i].1.0);
                }
            }
            assert(staged_row_of(chunks, jj, p, id, rows[q]));
        }
    }
}

/// Round trip of chunks of new arrays through a flush: under the layout
/// conditions, a session opened on the snapshot a flush wrote reads, at
/// every coordinate of an array created in the flushed session, the payload
/// the flushed session read there.
#[verifier::rlimit(50)]
pub proof fn law_flush_keeps_new_array_chunks(
    pre: Dataset,
    post: Dataset,
    mid: ObjectId,
    p: Seq<char>,
    c: Seq<u64>,
)
    requires
        pre.wf(),
        flush_layout_ok(pre),
        reopened_after_flush(pre, post, mid),
        lookup(pre.change_set.new_arrays@, p) is Some,
    ensures
        post.chunk_at(p, c) == pre.chunk_at(p, c),
{
    let cs = pre.change_set;
    let rows = pre.flush_rows();
    let arrays = cs.new_arrays@;
    let chunks = cs.set_chunks@;
    let mt = post.storage.manifest(mid).unwrap();
    lemma_find_by_some(arrays, path_is::<(NodeId, ZarrArrayMetadata)>(p));
    let e = find_by(arrays, path_is::<(NodeId, ZarrArrayMetadata)>(p)).unwrap();
    let k = choose|k: int| 0 <= k < arrays.len() && arrays[k] == e;
    let id = e.1.0;
    let region = region_of_rows(rows, id);
    lemma_flushed_new_array_node(pre, post, mid, p, e);
    assert(post.change_set.staged_chunk(p, c) is None);
    law_flush_regions_exact(pre, id);
    lemma_region_bounds(rows, id);
    lemma_rows_of_new_array(pre, k);
    lemma_new_array_rows_members(arrays, chunks);
    assert(mt.chunks@.len() == rows.len());
    match cs.staged_chunk(p, c) {
        Some(Some(x)) => {
            lemma_find_by_some(chunks, chunk_is(p, c));
            let jj = choose|jj: int| 0 <= jj < chunks.len() && chunks[jj] == find_by(chunks, chunk_is(p, c)).unwrap();
            let cv = ChunkView { node: id, coord: c, payload: x@ };
            assert(staged_row_of(chunks, jj, arrays[k].0@, arrays[k].1.0, cv));
            let existing = pre.existing_rows();
            let fresh = new_array_rows(arrays, chunks);
            assert(fresh.contains(cv));
            let q0 = fresh.index_of(cv);
            assert(rows == existing + fresh);
            assert(rows[existing.len() + q0] == cv);
            let q = existing.len() + q0;
            assert(rows[q].node == id);
            let r = region.unwrap();
            assert(region_end(mt.chunks@, r) == r.1 as int);
            assert(chunk_views(mt.chunks@)[q] == mt.chunks@[q]@);
            lemma_find_row(mt.chunks@, r.0 as int, r.1 as int, c);
            let found = find_row(mt.chunks@, r.0 as int, r.1 as int, c).unwrap();
            let q2 = choose|q2: int| r.0 <= q2 < r.1 && #[trigger] mt.chunks@[q2] == found && found.coord@ == c;
            assert(chunk_views(mt.chunks@)[q2] == mt.chunks@[q2]@);
            assert(rows[q2].node == id);
            let j2 = choose|j2: int| #[trigger] staged_row_of(chunks, j2, p, id, rows[q2]);
            lemma_unique_chunk_key(chunks, j2, p, c);
            assert(old_chunk(post.storage, manifests_for(mid, region), c, 0) == Some(found.payload@));
        },
        _ => {
            if let Some(r) = region {
                if r.0 != r.1 {
                    assert(region_end(mt.chunks@, r) == r.1 as int);
                    lemma_find_row(mt.chunks@, r.0 as int, r.1 as int, c);
                    if let Some(found) = find_row(mt.chunks@, r.0 as int, r.1 as int, c) {
                        let q2 = choose|q2: int| r.0 <= q2 < r.1 && #[trigger] mt.chunks@[q2] == found && found.coord@ == c;
                        assert(chunk_views(mt.chunks@)[q2] == mt.chunks@[q2]@);
                        assert(rows[q2].node == id);
                        let j2 = choose|j2: int| #[trigger] staged_row_of(chunks, j2, p, id, rows[q2]);
                        lemma_unique_chunk_key(chunks, j2, p, c);
                    }
                    assert(old_chunk(post.storage, manifests_for(mid, region), c, 1) is None);
                }
            }
        },
    }
}


/// Kept rows are the rows of the range whose coordinate has no staged write.
proof fn lemma_kept_rows_members(rows: Seq<ChunkInfo>, lo: int, hi: int, cs: ChangeSet, p: Seq<char>)
    requires
        0 <= lo,
        hi <= rows.len(),
    ensures
        forall|cv: ChunkView|
            #![trigger kept_rows(rows, lo, hi, cs, p).contains(cv)]
            kept_rows(rows, lo, hi, cs, p).contains(cv) ==> exists|j: int|
                lo <= j < hi && #[trigger] rows[j]@ == cv && cs.staged_chunk(p, rows[j].coord@) is None,
        forall|j: int|
            lo <= j < hi && cs.staged_chunk(p, (#[trigger] rows[j]).coord@) is None
                ==> kept_rows(rows, lo, hi, cs, p).contains(rows[j]@),
    decreases hi - lo,
{
    if hi > lo {
        lemma_kept_rows_members(rows, lo, hi - 1, cs, p);
        let rest = kept_rows(rows, lo, hi - 1, cs, p);
        let all = kept_rows(rows, lo, hi, cs, p);
        assert forall|cv: ChunkView| #![trigger all.contains(cv)] all.contains(cv) implies exists|j: int|
            lo <= j < hi && #[trigger] rows[j]@ == cv && cs.staged_chunk(p, rows[j].coord@) is None by {
            let k = all.index_of(cv);
            if k < rest.len() {
                assert(rest[k] == cv);
                assert(rest.contains(cv));
            } else {
                assert(rows[hi - 1]@ == cv);
            }
        }
        assert forall|j: int| lo <= j < hi && cs.staged_chunk(p, (#[trigger] rows[j]).coord@) is None
            implies all.contains(rows[j]@) by {
            if j < hi - 1 {
                assert(rest.contains(rows[j]@));
                let k = rest.index_of(rows[j]@);
                assert(all[k] == rows[j]@);
            } else {
                assert(all[all.len() - 1] == rows[j]@);
            }
        }
    }
}

/// A row of the base part comes from one base node.
proof fn lemma_base_rows_members(st: Storage, cs: ChangeSet, nodes: Seq<NodeStructure>)
    ensures
        forall|cv: ChunkView|
            #![trigger base_rows(st, cs, nodes).contains(cv)]
            base_rows(st, cs, nodes).contains(cv) ==> exists|i: int|
                0 <= i < nodes.len() && #[trigger] node_rows(st, cs, nodes[i]).contains(cv),
        forall|i: int, cv: ChunkView|
            0 <= i < nodes.len() && #[trigger] node_rows(st, cs, nodes[i]).contains(cv)
                ==> base_rows(st, cs, nodes).contains(cv),
    decreases nodes.len(),
{
    if nodes.len() > 0 {
        let pre = nodes.drop_last();
        lemma_base_rows_members(st, cs, pre);
        let a = base_rows(st, cs, pre);
        let b = node_rows(st, cs, nodes.last());
        assert(base_rows(st, cs, nodes) == a + b);
        assert forall|cv: ChunkView| #![trigger base_rows(st, cs, nodes).contains(cv)]
            base_rows(st, cs, nodes).contains(cv) implies exists|i: int|
                0 <= i < nodes.len() && #[trigger] node_rows(st, cs, nodes[i]).contains(cv) by {
            let k = (a + b).index_of(cv);
            if k < a.len() {
                assert(a[k] == cv);
                assert(a.contains(cv));
                let i = choose|i: int| 0 <= i < pre.len() && #[trigger] node_rows(st, cs, pre[i]).contains(cv);
                assert(pre[i] == nodes[i]);
            } else {
                assert(b[k - a.len()] == cv);
                assert(nodes[nodes.len() - 1] == nodes.last());
                assert(b.contains(cv));
            }
        }
        assert forall|i: int, cv: ChunkView|
            0 <= i < nodes.len() && #[trigger] node_rows(st, cs, nodes[i]).contains(cv)
                implies base_rows(st, cs, nodes).contains(cv) by {
            if i < nodes.len() - 1 {
                assert(pre[i] == nodes[i]);
                assert(a.contains(cv));
                let k = a.index_of(cv);
                assert((a + b)[k] == cv);
            } else {
                let k = b.index_of(cv);
                assert((a + b)[a.len() + k] == cv);
            }
        }
    }
}


/// Coordinates of the rows `rows[lo..hi)` are pairwise distinct.
pub open spec fn coords_distinct(rows: Seq<ChunkInfo>, lo: int, hi: int) -> bool {
    forall|i: int, j: int| lo <= i < j < hi ==> rows[i].coord@ != rows[j].coord@
}

/// A base array has one manifest reference, to a stored region whose
/// coordinates are distinct; a group qualifies trivially.
pub open spec fn single_region(st: Storage, n: NodeStructure) -> bool {
    match n.node_data {
        NodeData::Array(_, refs) => refs@.len() == 1 && (st.manifest(refs@[0].object_id) matches Some(
            m,
        ) && coords_distinct(m.chunks@, refs@[0].location.0 as int, region_end(m.chunks@, refs@[0].location))),
        NodeData::Group => true,
    }
}

/// After a flush, a base node keeps its kind and gets a reference to its
/// region of the new manifest.
proof fn lemma_flushed_base_node(pre: Dataset, post: Dataset, mid: ObjectId, p: Seq<char>, n: NodeStructure)
    requires
        reopened_after_flush(pre, post, mid),
        lookup(pre.change_set.new_arrays@, p) is None,
        lookup(pre.change_set.new_groups@, p) is None,
        pre.base() matches Some(t) && t.node_at(p) == Some(n),
    ensures
        post.node_at(p) matches Some(v) && match n.node_data {
            NodeData::Array(_, _) => v.node_data is Array && v.node_data->Array_1 == manifests_for(
                mid,
                region_of_rows(pre.flush_rows(), n.id),
            ),
            NodeData::Group => v.node_data is Group,
        },
{
    let cs = pre.change_set;
    let rows = pre.flush_rows();
    let t = pre.base().unwrap();
    let st = post.base().unwrap();
    let mv = view_path_is(p);
    let g = cs.new_groups@.map_values(group_fn(cs));
    let a = cs.new_arrays@.map_values(array_fn(cs, mid, rows));
    lemma_find_by_map(st.nodes@, node_view_fn(), node_path_is(p), mv);
    lemma_find_by_concat(pre.existing_after(mid, rows), g + a, mv);
    lemma_find_by_concat(g, a, mv);
    lemma_find_by_map(cs.new_arrays@, array_fn(cs, mid, rows), path_is::<(NodeId, ZarrArrayMetadata)>(p), mv);
    lemma_find_by_map(cs.new_groups@, group_fn(cs), path_is::<NodeId>(p), mv);
    lemma_find_by_map(t.nodes@, existing_fn(cs, mid, rows), node_path_is(p), mv);
    lemma_find_by_some(t.nodes@, node_path_is(p));
    assert(lookup(post.change_set.updated_attributes@, p) is None);
    assert(lookup(post.change_set.updated_arrays@, p) is None);
    assert(lookup(post.change_set.new_arrays@, p) is None);
    assert(lookup(post.change_set.new_groups@, p) is None);
}

/// Under the layout conditions, the rows a flush writes for a base array are
/// those of that array, and each comes from a staged write or from a kept
/// base row.
proof fn lemma_rows_of_base_array(pre: Dataset, i0: int)
    requires
        flush_layout_ok(pre),
        pre.base() matches Some(t) && 0 <= i0 < t.nodes@.len() && single_region(pre.storage, t.nodes@[i0])
            && t.nodes@[i0].node_data is Array,
    ensures
        ({
            let t = pre.base().unwrap();
            let n = t.nodes@[i0];
            let cs = pre.change_set;
            let rows = pre.flush_rows();
            let refs = n.node_data->Array_1@;
            let om = pre.storage.manifest(refs[0].object_id).unwrap();
            let lo = refs[0].location.0 as int;
            let hi = region_end(om.chunks@, refs[0].location);
            &&& forall|cv: ChunkView| #[trigger] node_rows(pre.storage, cs, n).contains(cv) ==> rows.contains(cv)
            &&& forall|q: int| 0 <= q < rows.len() && rows[q].node == n.id ==> {
                ||| exists|jj: int| #[trigger] staged_row_of(cs.set_chunks@, jj, n.path@, n.id, rows[q])
                ||| exists|j: int| lo <= j < hi && #[trigger] om.chunks@[j]@ == rows[q]
                    && cs.staged_chunk(n.path@, om.chunks@[j].coord@) is None
            }
            &&& node_rows(pre.storage, cs, n) == staged_rows(cs.set_chunks@, n.path@, n.id) + kept_rows(
                om.chunks@,
                lo,
                hi,
                cs,
                n.path@,
            )
        }),
{
    let t = pre.base().unwrap();
    let n = t.nodes@[i0];
    let cs = pre.change_set;
    let st = pre.storage;
    let rows = pre.flush_rows();
    let refs = n.node_data->Array_1@;
    let om = st.manifest(refs[0].object_id).unwrap();
    let lo = refs[0].location.0 as int;
    let hi = region_end(om.chunks@, refs[0].location);
    let chunks = cs.set_chunks@;
    let existing = pre.existing_rows();
    let fresh = new_array_rows(cs.new_arrays@, chunks);
    let sr = staged_rows(chunks, n.path@, n.id);
    let kr = kept_rows(om.chunks@, lo, hi, cs, n.path@);
    assert(refs.drop_last() =~= Seq::<ManifestRef>::empty());
    assert(manifest_rows(st, cs, n.path@, refs.drop_last()) =~= Seq::<ChunkView>::empty());
    assert(manifest_rows(st, cs, n.path@, refs) =~= kr);
    assert(rows == existing + fresh);
    lemma_base_rows_members(st, cs, t.nodes@);
    assert forall|cv: ChunkView| #[trigger] node_rows(st, cs, n).contains(cv) implies rows.contains(cv) by {
        assert(node_rows(st, cs, t.nodes@[i0]).contains(cv));
        assert(existing.contains(cv));
        let k = existing.index_of(cv);
        assert(rows[k] == cv);
    }
    assert forall|i: int| 0 <= i < cs.new_arrays@.len() implies cs.new_arrays@[i].1.0 != n.id by {
        assert(t.nodes@[i0].id != cs.new_arrays@[i].1.0);
    }
    lemma_new_rows_contiguous(cs.new_arrays@, chunks, n.id);
    lemma_staged_rows_members(chunks, n.path@, n.id);
    lemma_kept_rows_members(om.chunks@, lo, hi, cs, n.path@);
    assert forall|q: int| 0 <= q < rows.len() && rows[q].node == n.id implies {
        ||| exists|jj: int| #[trigger] staged_row_of(chunks, jj, n.path@, n.id, rows[q])
        ||| exists|j: int| lo <= j < hi && #[trigger] om.chunks@[j]@ == rows[q]
            && cs.staged_chunk(n.path@, om.chunks@[j].coord@) is None
    } by {
        let cv = rows[q];
        if q >= existing.len() {
            assert(cv == fresh[q - existing.len()]);
        }
        assert(cv == existing[q]);
        assert(existing.contains(cv));
        let i = choose|i: int| 0 <= i < t.nodes@.len() && #[trigger] node_rows(st, cs, t.nodes@[i]).contains(cv);
        assert(owns_its_rows(st, t.nodes@[i]));
        lemma_node_rows_all_of(st, cs, t.nodes@[i]);
        let k = node_rows(st, cs, t.nodes@[i]).index_of(cv);
        assert(t.nodes@[i].id == n.id);
        if i != i0 {
            if i < i0 {
                assert(t.nodes@[i].id != t.nodes@[i0].id);
            } else {
                assert(t.nodes@[i0].id != t.nodes@[i].id);
            }
        }
        assert(node_rows(st, cs, n) == sr + kr);
        if k < sr.len() {
            assert(sr[k] == cv);
            assert(sr.contains(cv));
        } else {
            assert(kr[k - sr.len()] == cv);
            assert(kr.contains(cv));
        }
    }
}


/// Round trip of chunks of base arrays through a flush: under the layout
/// conditions, for a path of the base snapshot whose array has one manifest
/// reference with distinct coordinates, a session opened on the snapshot a
/// flush wrote reads, at every coordinate, the payload the flushed session
/// read there.
#[verifier::rlimit(50)]
pub proof fn law_flush_keeps_base_chunks(
    pre: Dataset,
    post: Dataset,
    mid: ObjectId,
    p: Seq<char>,
    c: Seq<u64>,
)
    requires
        pre.wf(),
        flush_layout_ok(pre),
        reopened_after_flush(pre, post, mid),
        lookup(pre.change_set.new_arrays@, p) is None,
        lookup(pre.change_set.new_groups@, p) is None,
        pre.base() matches Some(t) && (t.node_at(p) matches Some(n) ==> single_region(pre.storage, n)),
    ensures
        post.chunk_at(p, c) == pre.chunk_at(p, c),
{
    let cs = pre.change_set;
    let rows = pre.flush_rows();
    let chunks = cs.set_chunks@;
    let t = pre.base().unwrap();
    law_flush_keeps_nodes(pre, post, mid, p);
    assert(post.change_set.staged_chunk(p, c) is None);
    if let Some(n) = t.node_at(p) {
        lemma_find_by_some(t.nodes@, node_path_is(p));
        let i0 = choose|i0: int| 0 <= i0 < t.nodes@.len() && t.nodes@[i0] == n;
        lemma_flushed_base_node(pre, post, mid, p, n);
        if n.node_data is Array {
            let id = n.id;
            let refs = n.node_data->Array_1@;
            let om = pre.storage.manifest(refs[0].object_id).unwrap();
            let lo = refs[0].location.0 as int;
            let hi = region_end(om.chunks@, refs[0].location);
            let mt = post.storage.manifest(mid).unwrap();
            let region = region_of_rows(rows, id);
            assert(refs_view(refs)[0] == refs[0]@);
            lemma_rows_of_base_array(pre, i0);
            law_flush_regions_exact(pre, id);
            lemma_region_bounds(rows, id);
            lemma_staged_rows_members(chunks, p, id);
            lemma_kept_rows_members(om.chunks@, lo, hi, cs, p);
            lemma_find_row(om.chunks@, lo, hi, c);
            assert(mt.chunks@.len() == rows.len());
            assert(owns_its_rows(pre.storage, t.nodes@[i0]));
            assert(region_rows_of(om, refs[0].location, id));
            let sr = staged_rows(chunks, p, id);
            let kr = kept_rows(om.chunks@, lo, hi, cs, p);
            // a row of the new region at `c` is the staged write there, or the base row there
            if let Some(r) = region {
                if r.0 != r.1 {
                    assert(region_end(mt.chunks@, r) == r.1 as int);
                    lemma_find_row(mt.chunks@, r.0 as int, r.1 as int, c);
                }
            }
            match cs.staged_chunk(p, c) {
                Some(Some(x)) => {
                    lemma_find_by_some(chunks, chunk_is(p, c));
                    let jj = choose|jj: int| 0 <= jj < chunks.len() && chunks[jj] == find_by(chunks, chunk_is(p, c)).unwrap();
                    let cv = ChunkView { node: id, coord: c, payload: x@ };
                    assert(staged_row_of(chunks, jj, p, id, cv));
                    assert(sr.contains(cv));
                    let k = sr.index_of(cv);
                    assert((sr + kr)[k] == cv);
                    assert(node_rows(pre.storage, cs, n).contains(cv));
                    assert(rows.contains(cv));
                    let q = rows.index_of(cv);
                    assert(rows[q].node == id);
                    let r = region.unwrap();
                    assert(chunk_views(mt.chunks@)[q] == mt.chunks@[q]@);
                    let found = find_row(mt.chunks@, r.0 as int, r.1 as int, c).unwrap();
                    let q2 = choose|q2: int| r.0 <= q2 < r.1 && #[trigger] mt.chunks@[q2] == found && found.coord@ == c;
                    assert(chunk_views(mt.chunks@)[q2] == mt.chunks@[q2]@);
                    assert(rows[q2].node == id);
                    if exists|j2: int| #[trigger] staged_row_of(chunks, j2, p, id, rows[q2]) {
                        let j2 = choose|j2: int| #[trigger] staged_row_of(chunks, j2, p, id, rows[q2]);
                        lemma_unique_chunk_key(chunks, j2, p, c);
                    }
                    assert(old_chunk(post.storage, manifests_for(mid, region), c, 0) == Some(found.payload@));
                },
                Some(None) => {
                    if let Some(r) = region {
                        if r.0 != r.1 {
                            if let Some(found) = find_row(mt.chunks@, r.0 as int, r.1 as int, c) {
                                let q2 = choose|q2: int| r.0 <= q2 < r.1 && #[trigger] mt.chunks@[q2] == found && found.coord@ == c;
                                assert(chunk_views(mt.chunks@)[q2] == mt.chunks@[q2]@);
                                assert(rows[q2].node == id);
                                if exists|j2: int| #[trigger] staged_row_of(chunks, j2, p, id, rows[q2]) {
                                    let j2 = choose|j2: int| #[trigger] staged_row_of(chunks, j2, p, id, rows[q2]);
                                    lemma_unique_chunk_key(chunks, j2, p, c);
                                }
                            }
                            assert(old_chunk(post.storage, manifests_for(mid, region), c, 1) is None);
                        }
                    }
                },
                None => {
                    match find_row(om.chunks@, lo, hi, c) {
                        Some(y) => {
                            let j = choose|j: int| lo <= j < hi && #[trigger] om.chunks@[j] == y && y.coord@ == c;
                            assert(kr.contains(om.chunks@[j]@));
                            let k = kr.index_of(om.chunks@[j]@);
                            assert((sr + kr)[sr.len() + k] == om.chunks@[j]@);
                            assert(node_rows(pre.storage, cs, n).contains(om.chunks@[j]@));
                            assert(rows.contains(om.chunks@[j]@));
                            let q = rows.index_of(om.chunks@[j]@);
                            assert(om.chunks@[j].node == id);
                            assert(rows[q].node == id);
                            let r = region.unwrap();
                            assert(chunk_views(mt.chunks@)[q] == mt.chunks@[q]@);
                            let found = find_row(mt.chunks@, r.0 as int, r.1 as int, c).unwrap();
                            let q2 = choose|q2: int| r.0 <= q2 < r.1 && #[trigger] mt.chunks@[q2] == found && found.coord@ == c;
                            assert(chunk_views(mt.chunks@)[q2] == mt.chunks@[q2]@);
                            assert(rows[q2].node == id);
                            if exists|j2: int| #[trigger] staged_row_of(chunks, j2, p, id, rows[q2]) {
                                let j2 = choose|j2: int| #[trigger] staged_row_of(chunks, j2, p, id, rows[q2]);
                                lemma_unique_chunk_key(chunks, j2, p, c);
                            }
                            let j3 = choose|j3: int| lo <= j3 < hi && #[trigger] om.chunks@[j3]@ == rows[q2]
                                && cs.staged_chunk(p, om.chunks@[j3].coord@) is None;
                            if j3 != j {
                                if j3 < j {
                                    assert(om.chunks@[j3].coord@ != om.chunks@[j].coord@);
                                } else {
                                    assert(om.chunks@[j].coord@ != om.chunks@[j3].coord@);
                                }
                            }
                            assert(old_chunk(post.storage, manifests_for(mid, region), c, 0) == Some(found.payload@));
                        },
                        None => {
                            if let Some(r) = region {
                                if r.0 != r.1 {
                                    if let Some(found) = find_row(mt.chunks@, r.0 as int, r.1 as int, c) {
                                        let q2 = choose|q2: int| r.0 <= q2 < r.1 && #[trigger] mt.chunks@[q2] == found && found.coord@ == c;
                                        assert(chunk_views(mt.chunks@)[q2] == mt.chunks@[q2]@);
                                        assert(rows[q2].node == id);
                                        if exists|j2: int| #[trigger] staged_row_of(chunks, j2, p, id, rows[q2]) {
                                            let j2 = choose|j2: int| #[trigger] staged_row_of(chunks, j2, p, id, rows[q2]);
                                            lemma_unique_chunk_key(chunks, j2, p, c);
                                        }
                                        let j3 = choose|j3: int| lo <= j3 < hi && #[trigger] om.chunks@[j3]@ == rows[q2]
                                            && cs.staged_chunk(p, om.chunks@[j3].coord@) is None;
                                        assert(om.chunks@[j3].coord@ == c);
                                    }
                                    assert(old_chunk(post.storage, manifests_for(mid, region), c, 1) is None);
                                }
                            }
                            assert(old_chunk(pre.storage, refs_view(refs), c, 1) is None);
                        },
                    }
                },
            }
        }
    }
}


/// Flushing a session with nothing staged writes a snapshot that reads, at
/// every coordinate of every path, what the base snapshot read there, under
/// the layout conditions and for arrays with one manifest reference with
/// distinct coordinates.
pub proof fn law_flush_without_changes_keeps_chunks(
    pre: Dataset,
    post: Dataset,
    mid: ObjectId,
    p: Seq<char>,
    c: Seq<u64>,
)
    requires
        pre.wf(),
        pre.change_set.is_empty(),
        flush_layout_ok(pre),
        reopened_after_flush(pre, post, mid),
        pre.base() matches Some(t) && (t.node_at(p) matches Some(n) ==> single_region(pre.storage, n)),
    ensures
        post.chunk_at(p, c) == pre.chunk_at(p, c),
{
    assert(lookup(pre.change_set.new_arrays@, p) is None);
    assert(lookup(pre.change_set.new_groups@, p) is None);
    law_flush_keeps_base_chunks(pre, post, mid, p, c);
}


/// No row occurs twice in `rows`.
pub open spec fn no_repeats(rows: Seq<ChunkView>) -> bool {
    forall|i: int, j: int| 0 <= i < j < rows.len() ==> rows[i] != rows[j]
}

/// With unique staged keys, the staged rows of one array are all different.
proof fn lemma_staged_rows_no_repeats(chunks: Seq<ChunkEntry>, p: Seq<char>, id: NodeId)
    requires
        chunk_keys_unique(chunks),
    ensures
        no_repeats(staged_rows(chunks, p, id)),
    decreases chunks.len(),
{
    if chunks.len() > 0 {
        let pre = chunks.drop_last();
        assert(chunk_keys_unique(pre)) by {
            assert forall|i: int, j: int| 0 <= i < j < pre.len() implies
                !(pre[i].0@ == pre[j].0@ && pre[i].1@ == pre[j].1@) by {
                assert(pre[i] == chunks[i] && pre[j] == chunks[j]);
            }
        }
        lemma_staged_rows_no_repeats(pre, p, id);
        lemma_staged_rows_members(pre, p, id);
        let rest = staged_rows(pre, p, id);
        let all = staged_rows(chunks, p, id);
        let e = chunks.last();
        if e.2 is Some && e.0@ == p {
            assert forall|i: int, j: int| 0 <= i < j < all.len() implies all[i] != all[j] by {
                if j == all.len() - 1 {
                    assert(all[i] == rest[i]);
                    assert(rest.contains(rest[i]));
                    let k = choose|k: int| #[trigger] staged_row_of(pre, k, p, id, rest[i]);
                    assert(pre[k] == chunks[k]);
                    assert(chunks[chunks.len() - 1] == e);
                    assert(!(chunks[k].0@ == chunks[chunks.len() - 1].0@
                        && chunks[k].1@ == chunks[chunks.len() - 1].1@));
                } else {
                    assert(all[i] == rest[i] && all[j] == rest[j]);
                }
            }
        }
    }
}

/// With distinct new array ids, the rows of the new arrays are
/// all different, so each staged row is yielded once.
pub proof fn lemma_new_array_rows_no_repeats(
    arrays: Seq<(String, (NodeId, ZarrArrayMetadata))>,
    chunks: Seq<ChunkEntry>,
)
    requires
        new_ids_distinct(arrays),
        chunk_keys_unique(chunks),
    ensures
        no_repeats(new_array_rows(arrays, chunks)),
    decreases arrays.len(),
{
    if arrays.len() > 0 {
        let pre = arrays.drop_last();
        let last = arrays.last();
        assert(new_ids_distinct(pre)) by {
            assert forall|i: int, j: int| 0 <= i < j < pre.len() implies pre[i].1.0 != pre[j].1.0 by {
                assert(pre[i] == arrays[i] && pre[j] == arrays[j]);
            }
        }
        lemma_new_array_rows_no_repeats(pre, chunks);
        lemma_staged_rows_no_repeats(chunks, last.0@, last.1.0);
        lemma_staged_rows_all_of(chunks, last.0@, last.1.0);
        lemma_new_array_rows_members(pre, chunks);
        let a = new_array_rows(pre, chunks);
        let b = staged_rows(chunks, last.0@, last.1.0);
        assert(new_array_rows(arrays, chunks) == a + b);
        assert forall|i: int, j: int| 0 <= i < j < (a + b).len() implies (a + b)[i] != (a + b)[j] by {
            if i < a.len() && j >= a.len() {
                assert((a + b)[i] == a[i] && (a + b)[j] == b[j - a.len()]);
                assert(a.contains(a[i]));
                let (k, jj) = choose|k: int, jj: int|
                    0 <= k < pre.len() && #[trigger] staged_row_of(chunks, jj, pre[k].0@, pre[k].1.0, a[i]);
                assert(pre[k] == arrays[k]);
                assert(arrays[arrays.len() - 1] == last);
                assert(arrays[k].1.0 != arrays[arrays.len() - 1].1.0);
                assert(a[i].node == pre[k].1.0);
                assert(b[j - a.len()].node == last.1.0);
            } else if j < a.len() {
                assert((a + b)[i] == a[i] && (a + b)[j] == a[j]);
            } else {
                assert((a + b)[i] == b[i - a.len()] && (a + b)[j] == b[j - a.len()]);
            }
        }
    }
}


/// In every session, the rows staged for the new arrays are all different:
/// each staged write that is not a deletion is yielded once.
pub proof fn law_session_new_rows_once(ds: Dataset)
    requires
        ds.wf(),
    ensures
        no_repeats(new_array_rows(ds.change_set.new_arrays@, ds.change_set.set_chunks@)),
{
    let arrays = ds.change_set.new_arrays@;
    assert(new_ids_distinct(arrays)) by {
        assert forall|i: int, j: int| 0 <= i < j < arrays.len() implies arrays[i].1.0 != arrays[j].1.0 by {
            assert(ds.change_set.new_arrays@[i].1.0 != ds.change_set.new_arrays@[j].1.0);
        }
    }
    lemma_new_array_rows_no_repeats(arrays, ds.change_set.set_chunks@);
}

} // verus!
