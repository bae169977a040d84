use vstd::prelude::*;
use crate::lookup::{
    find_by, find_path_index, lemma_find_by_push, lemma_find_by_update, lookup, path_is,
};
use crate::types::{
    clone_opt_payload, opt_payload_view, ArrayIndices, ChunkInfo, ChunkPayload, ChunkView, NodeId,
    Path, UserAttributes, ZarrArrayMetadata,
};

verus! {

/// One staged chunk write: path, coordinate, and payload (`None` deletes).
pub type ChunkEntry = (String, ArrayIndices, Option<ChunkPayload>);

/// Matches the chunk entry of path `p` at coordinate `c`.
pub open spec fn chunk_is(p: Seq<char>, c: Seq<u64>) -> spec_fn(ChunkEntry) -> bool {
    |e: ChunkEntry| e.0@ == p && e.1@ == c
}

/// Keys of entries keyed by path are pairwise distinct.
pub open spec fn paths_unique<V>(s: Seq<(String, V)>) -> bool {
    forall|i: int, j: int| 0 <= i < j < s.len() ==> s[i].0@ != s[j].0@
}

/// Keys of chunk entries are pairwise distinct.
pub open spec fn chunk_keys_unique(s: Seq<ChunkEntry>) -> bool {
    forall|i: int, j: int|
        0 <= i < j < s.len() ==> !(s[i].0@ == s[j].0@ && s[i].1@ == s[j].1@)
}

/// Views of a list of chunk records.
pub open spec fn chunk_views(s: Seq<ChunkInfo>) -> Seq<ChunkView> {
    s.map_values(|c: ChunkInfo| c@)
}

/// Rows that the staged writes of `chunks` for path `p` give an array with id `id`,
/// in staging order, deletions left out.
pub open spec fn staged_rows(chunks: Seq<ChunkEntry>, p: Seq<char>, id: NodeId) -> Seq<ChunkView>
    decreases chunks.len(),
{
    if chunks.len() == 0 {
        Seq::empty()
    } else {
        let e = chunks.last();
        let rest = staged_rows(chunks.drop_last(), p, id);
        match e.2 {
            Some(x) => if e.0@ == p {
                rest.push(ChunkView { node: id, coord: e.1@, payload: x@ })
            } else {
                rest
            },
            None => rest,
        }
    }
}

/// Rows of every new array, array after array in creation order.
pub open spec fn new_array_rows(
    arrays: Seq<(String, (NodeId, ZarrArrayMetadata))>,
    chunks: Seq<ChunkEntry>,
) -> Seq<ChunkView>
    decreases arrays.len(),
{
    if arrays.len() == 0 {
        Seq::empty()
    } else {
        new_array_rows(arrays.drop_last(), chunks) + staged_rows(
            chunks,
            arrays.last().0@,
            arrays.last().1.0,
        )
    }
}

/// The staged write `chunks[j]` gives the row `cv` to an array at `p` with id `id`.
pub open spec fn staged_row_of(chunks: Seq<ChunkEntry>, j: int, p: Seq<char>, id: NodeId, cv: ChunkView) -> bool {
    &&& 0 <= j < chunks.len()
    &&& chunks[j].0@ == p
    &&& chunks[j].2 matches Some(x) && cv == (ChunkView { node: id, coord: chunks[j].1@, payload: x@ })
}

/// A row is among the staged rows of an array exactly when a staged write
/// that is not a deletion gives it.
pub proof fn lemma_staged_rows_members(chunks: Seq<ChunkEntry>, p: Seq<char>, id: NodeId)
    ensures
        forall|cv: ChunkView|
            #![trigger staged_rows(chunks, p, id).contains(cv)]
            staged_rows(chunks, p, id).contains(cv) <==> exists|j: int| #[trigger] staged_row_of(chunks, j, p, id, cv),
    decreases chunks.len(),
{
    if chunks.len() > 0 {
        let pre = chunks.drop_last();
        lemma_staged_rows_members(pre, p, id);
        let rest = staged_rows(pre, p, id);
        assert forall|cv: ChunkView|
            #![trigger staged_rows(chunks, p, id).contains(cv)]
            staged_rows(chunks, p, id).contains(cv) <==> exists|j: int| #[trigger] staged_row_of(chunks, j, p, id, cv) by {
            if staged_rows(chunks, p, id).contains(cv) {
                if rest.contains(cv) {
                    let j = choose|j: int| #[trigger] staged_row_of(pre, j, p, id, cv);
                    assert(staged_row_of(chunks, j, p, id, cv));
                } else {
                    assert(staged_row_of(chunks, chunks.len() - 1, p, id, cv));
                }
            }
            if exists|j: int| #[trigger] staged_row_of(chunks, j, p, id, cv) {
                let j = choose|j: int| #[trigger] staged_row_of(chunks, j, p, id, cv);
                if j < chunks.len() - 1 {
                    assert(staged_row_of(pre, j, p, id, cv));
                    assert(rest.contains(cv));
                    let k = rest.index_of(cv);
                    if chunks.last().2 is Some && chunks.last().0@ == p {
                        assert(staged_rows(chunks, p, id)[k] == cv);
                    }
                } else {
                    assert(staged_rows(chunks, p, id).last() == cv);
                }
            }
        }
    }
}

/// The rows of the new arrays are exactly the rows that the staged writes
/// which are not deletions give to arrays created in the session.
pub proof fn lemma_new_array_rows_members(
    arrays: Seq<(String, (NodeId, ZarrArrayMetadata))>,
    chunks: Seq<ChunkEntry>,
)
    ensures
        forall|cv: ChunkView|
            #![trigger new_array_rows(arrays, chunks).contains(cv)]
            new_array_rows(arrays, chunks).contains(cv) <==> exists|i: int, j: int|
                0 <= i < arrays.len() && #[trigger] staged_row_of(chunks, j, arrays[i].0@, arrays[i].1.0, cv),
    decreases arrays.len(),
{
    if arrays.len() > 0 {
        let pre = arrays.drop_last();
        lemma_new_array_rows_members(pre, chunks);
        let last = arrays.last();
        lemma_staged_rows_members(chunks, last.0@, last.1.0);
        let a = new_array_rows(pre, chunks);
        let b = staged_rows(chunks, last.0@, last.1.0);
        assert forall|cv: ChunkView|
            #![trigger new_array_rows(arrays, chunks).contains(cv)]
            new_array_rows(arrays, chunks).contains(cv) <==> exists|i: int, j: int|
                0 <= i < arrays.len() && #[trigger] staged_row_of(chunks, j, arrays[i].0@, arrays[i].1.0, cv) by {
            let all = new_array_rows(arrays, chunks);
            assert(all == a + b);
            if all.contains(cv) {
                let k = all.index_of(cv);
                if k < a.len() {
                    assert(a[k] == cv);
                    assert(a.contains(cv));
                    let (i, j) = choose|i: int, j: int|
                        0 <= i < pre.len() && #[trigger] staged_row_of(chunks, j, pre[i].0@, pre[i].1.0, cv);
                    assert(arrays[i] == pre[i]);
                } else {
                    assert(b[k - a.len()] == cv);
                    assert(b.contains(cv));
                    let j = choose|j: int| #[trigger] staged_row_of(chunks, j, last.0@, last.1.0, cv);
                    assert(arrays[arrays.len() - 1] == last);
                }
            }
            if exists|i: int, j: int|
                0 <= i < arrays.len() && #[trigger] staged_row_of(chunks, j, arrays[i].0@, arrays[i].1.0, cv) {
                let (i, j) = choose|i: int, j: int|
                    0 <= i < arrays.len() && #[trigger] staged_row_of(chunks, j, arrays[i].0@, arrays[i].1.0, cv);
                if i < arrays.len() - 1 {
                    assert(pre[i] == arrays[i]);
                    assert(a.contains(cv));
                    let k = a.index_of(cv);
                    assert(all[k] == cv);
                } else {
                    assert(b.contains(cv));
                    let k = b.index_of(cv);
                    assert(all[a.len() + k] == cv);
                }
            }
        }
    }
}

/// Inserts or replaces the entry keyed by `p`.
fn put_path<V>(v: &mut Vec<(String, V)>, p: String, x: V)
    requires
        paths_unique(old(v)@),
    ensures
        paths_unique(final(v)@),
        final(v)@ == old(v)@.push((p, x)) || exists|k: int|
            0 <= k < old(v)@.len() && final(v)@ == old(v)@.update(k, (p, x)),
        forall|i: int|
            0 <= i < final(v)@.len() ==> (#[trigger] final(v)@[i]).1 == x || exists|j: int|
                0 <= j < old(v)@.len() && final(v)@[i] == old(v)@[j],
        forall|q: Seq<char>|
            #![trigger lookup(final(v)@, q)]
            lookup(final(v)@, q) == if q == p@ {
                Some(x)
            } else {
                lookup(old(v)@, q)
            },
{
    let ghost s0 = v@;
    let ghost pv = p@;
    match find_path_index(v, &p) {
        Some(i) => {
            v.set(i, (p, x));
            proof {
                assert(v@ == s0.update(i as int, (v@[i as int].0, x)));
                assert forall|q: Seq<char>| #![trigger lookup(v@, q)]
                    lookup(v@, q) == if q == pv {
                        Some(x)
                    } else {
                        lookup(s0, q)
                    } by {
                    lemma_find_by_update(s0, i as int, v@[i as int], path_is::<V>(q));
                }
            }
        },
        None => {
            v.push((p, x));
            proof {
                assert forall|q: Seq<char>| #![trigger lookup(v@, q)]
                    lookup(v@, q) == if q == pv {
                        Some(x)
                    } else {
                        lookup(s0, q)
                    } by {
                    lemma_find_by_push(s0, v@.last(), path_is::<V>(q));
                }
            }
        },
    }
}

/// In-memory staging of the modifications made in a session.
#[derive(Debug)]
pub struct ChangeSet {
    pub new_groups: Vec<(String, NodeId)>,
    pub new_arrays: Vec<(String, (NodeId, ZarrArrayMetadata))>,
    pub updated_arrays: Vec<(String, ZarrArrayMetadata)>,
    pub updated_attributes: Vec<(String, Option<UserAttributes>)>,
    pub set_chunks: Vec<ChunkEntry>,
}

impl Default for ChangeSet {
    fn default() -> (r: ChangeSet)
        ensures
            r.wf(),
            r.is_empty(),
    {
        ChangeSet::new()
    }
}

impl ChangeSet {
    /// No key occurs twice in any of the staging lists.
    pub open spec fn wf(&self) -> bool {
        &&& paths_unique(self.new_groups@)
        &&& paths_unique(self.new_arrays@)
        &&& paths_unique(self.updated_arrays@)
        &&& paths_unique(self.updated_attributes@)
        &&& chunk_keys_unique(self.set_chunks@)
    }

    /// Nothing is staged.
    pub open spec fn is_empty(&self) -> bool {
        &&& self.new_groups@.len() == 0
        &&& self.new_arrays@.len() == 0
        &&& self.updated_arrays@.len() == 0
        &&& self.updated_attributes@.len() == 0
        &&& self.set_chunks@.len() == 0
    }

    /// Staged write at `(p, c)`: `None` when nothing is staged there,
    /// `Some(None)` for a staged deletion.
    pub open spec fn staged_chunk(&self, p: Seq<char>, c: Seq<u64>) -> Option<Option<ChunkPayload>> {
        match find_by(self.set_chunks@, chunk_is(p, c)) {
            Some(e) => Some(e.2),
            None => None,
        }
    }

    /// An empty change set.
    pub fn new() -> (r: ChangeSet)
        ensures
            r.wf(),
            r.is_empty(),
    {
        ChangeSet {
            new_groups: Vec::new(),
            new_arrays: Vec::new(),
            updated_arrays: Vec::new(),
            updated_attributes: Vec::new(),
            set_chunks: Vec::new(),
        }
    }

    /// Records a new group at `path` with id `node_id`.
    pub fn add_group(&mut self, path: Path, node_id: NodeId)
        requires
            old(self).wf(),
        ensures
            final(self).wf(),
            forall|i: int|
                0 <= i < final(self).new_groups@.len() ==> (#[trigger] final(self).new_groups@[i]).1 == node_id
                    || exists|j: int|
                    0 <= j < old(self).new_groups@.len() && final(self).new_groups@[i] == old(self).new_groups@[j],
            forall|q: Seq<char>|
                #![trigger lookup(final(self).new_groups@, q)]
                lookup(final(self).new_groups@, q) == if q == path@ {
                    Some(node_id)
                } else {
                    lookup(old(self).new_groups@, q)
                },
            final(self).new_arrays == old(self).new_arrays,
            final(self).updated_arrays == old(self).updated_arrays,
            final(self).updated_attributes == old(self).updated_attributes,
            final(self).set_chunks == old(self).set_chunks,
    {
        put_path(&mut self.new_groups, path, node_id);
    }

    /// The id of the new group at `path`, if one was recorded.
    pub fn get_group(&self, path: &Path) -> (r: Option<NodeId>)
        ensures
            r == lookup(self.new_groups@, path@),
    {
        match find_path_index(&self.new_groups, path) {
            Some(i) => Some(self.new_groups[i].1),
            None => None,
        }
    }

    /// Records a new array at `path` with id `node_id` and `metadata`.
    pub fn add_array(&mut self, path: Path, node_id: NodeId, metadata: ZarrArrayMetadata)
        requires
            old(self).wf(),
        ensures
            final(self).wf(),
            final(self).new_arrays@ == old(self).new_arrays@.push((path, (node_id, metadata)))
                || exists|k: int|
                0 <= k < old(self).new_arrays@.len() && final(self).new_arrays@
                    == old(self).new_arrays@.update(k, (path, (node_id, metadata))),
            forall|i: int|
                0 <= i < final(self).new_arrays@.len() ==> (#[trigger] final(self).new_arrays@[i]).1
                    == (node_id, metadata) || exists|j: int|
                    0 <= j < old(self).new_arrays@.len() && final(self).new_arrays@[i] == old(self).new_arrays@[j],
            forall|q: Seq<char>|
                #![trigger lookup(final(self).new_arrays@, q)]
                lookup(final(self).new_arrays@, q) == if q == path@ {
                    Some((node_id, metadata))
                } else {
                    lookup(old(self).new_arrays@, q)
                },
            final(self).new_groups == old(self).new_groups,
            final(self).updated_arrays == old(self).updated_arrays,
            final(self).updated_attributes == old(self).updated_attributes,
            final(self).set_chunks == old(self).set_chunks,
    {
        put_path(&mut self.new_arrays, path, (node_id, metadata));
    }

    /// The id and metadata of the new array at `path`, if one was recorded.
    pub fn get_array(&self, path: &Path) -> (r: Option<&(NodeId, ZarrArrayMetadata)>)
        ensures
            match r {
                Some(x) => lookup(self.new_arrays@, path@) == Some(*x),
                None => lookup(self.new_arrays@, path@) is None,
            },
    {
        match find_path_index(&self.new_arrays, path) {
            Some(i) => Some(&self.new_arrays[i].1),
            None => None,
        }
    }

    /// Records new metadata for the array at `path`; the last write wins.
    pub fn update_array(&mut self, path: Path, metadata: ZarrArrayMetadata)
        requires
            old(self).wf(),
        ensures
            final(self).wf(),
            forall|q: Seq<char>|
                #![trigger lookup(final(self).updated_arrays@, q)]
                lookup(final(self).updated_arrays@, q) == if q == path@ {
                    Some(metadata)
                } else {
                    lookup(old(self).updated_arrays@, q)
                },
            final(self).new_groups == old(self).new_groups,
            final(self).new_arrays == old(self).new_arrays,
            final(self).updated_attributes == old(self).updated_attributes,
            final(self).set_chunks == old(self).set_chunks,
    {
        put_path(&mut self.updated_arrays, path, metadata);
    }

    /// The metadata recorded for the array at `path`, if any.
    pub fn get_updated_zarr_metadata(&self, path: &Path) -> (r: Option<&ZarrArrayMetadata>)
        ensures
            match r {
                Some(x) => lookup(self.updated_arrays@, path@) == Some(*x),
                None => lookup(self.updated_arrays@, path@) is None,
            },
    {
        match find_path_index(&self.updated_arrays, path) {
            Some(i) => Some(&self.updated_arrays[i].1),
            None => None,
        }
    }

    /// Records attributes for `path`: `Some` sets them, `None` deletes them.
    pub fn update_user_attributes(&mut self, path: Path, atts: Option<UserAttributes>)
        requires
            old(self).wf(),
        ensures
            final(self).wf(),
            forall|q: Seq<char>|
                #![trigger lookup(final(self).updated_attributes@, q)]
                lookup(final(self).updated_attributes@, q) == if q == path@ {
                    Some(atts)
                } else {
                    lookup(old(self).updated_attributes@, q)
                },
            final(self).new_groups == old(self).new_groups,
            final(self).new_arrays == old(self).new_arrays,
            final(self).updated_arrays == old(self).updated_arrays,
            final(self).set_chunks == old(self).set_chunks,
    {
        put_path(&mut self.updated_attributes, path, atts);
    }

    /// The attributes recorded for `path`: `None` when nothing is recorded,
    /// `Some(None)` for a recorded deletion.
    pub fn get_user_attributes(&self, path: &Path) -> (r: Option<&Option<UserAttributes>>)
        ensures
            match r {
                Some(x) => lookup(self.updated_attributes@, path@) == Some(*x),
                None => lookup(self.updated_attributes@, path@) is None,
            },
    {
        match find_path_index(&self.updated_attributes, path) {
            Some(i) => Some(&self.updated_attributes[i].1),
            None => None,
        }
    }
    /// Index of the staged write at `(path, coord)`, if any.
    fn find_chunk_index(&self, path: &Path, coord: &ArrayIndices) -> (r: Option<usize>)
        ensures
            match r {
                Some(i) => i < self.set_chunks@.len()
                    && self.set_chunks@[i as int].0@ == path@
                    && self.set_chunks@[i as int].1@ == coord@
                    && (forall|j: int| i < j < self.set_chunks@.len() ==>
                        !(self.set_chunks@[j].0@ == path@ && self.set_chunks@[j].1@ == coord@))
                    && find_by(self.set_chunks@, chunk_is(path@, coord@)) == Some(self.set_chunks@[i as int]),
                None => find_by(self.set_chunks@, chunk_is(path@, coord@)) is None
                    && forall|j: int| 0 <= j < self.set_chunks@.len() ==>
                        !(self.set_chunks@[j].0@ == path@ && self.set_chunks@[j].1@ == coord@),
            },
    {
        let ghost m = chunk_is(path@, coord@);
        let ghost v = self.set_chunks@;
        let mut i: usize = self.set_chunks.len();
        assert(v.subrange(0, i as int) =~= v);
        while i > 0
            invariant
                i <= v.len(),
                v == self.set_chunks@,
                m == chunk_is(path@, coord@),
                find_by(v, m) == find_by(v.subrange(0, i as int), m),
                forall|j: int| i <= j < v.len() ==> !(v[j].0@ == path@ && v[j].1@ == coord@),
            decreases i,
        {
            let ghost pre = v.subrange(0, i as int);
            assert(pre.last() == v[i - 1]);
            if self.set_chunks[i - 1].0 == *path && self.set_chunks[i - 1].1.same_as(coord) {
                return Some(i - 1);
            }
            assert(pre.drop_last() =~= v.subrange(0, i - 1));
            i = i - 1;
        }
        assert(v.subrange(0, 0) =~= Seq::<ChunkEntry>::empty());
        None
    }

    /// Records the write of `data` at `coord` of the array at `path`;
    /// `None` records a deletion.
    pub fn set_chunk(&mut self, path: Path, coord: ArrayIndices, data: Option<ChunkPayload>)
        requires
            old(self).wf(),
        ensures
            final(self).wf(),
            forall|q: Seq<char>, c: Seq<u64>|
                #![trigger final(self).staged_chunk(q, c)]
                final(self).staged_chunk(q, c) == if q == path@ && c == coord@ {
                    Some(data)
                } else {
                    old(self).staged_chunk(q, c)
                },
            final(self).new_groups == old(self).new_groups,
            final(self).new_arrays == old(self).new_arrays,
            final(self).updated_arrays == old(self).updated_arrays,
            final(self).updated_attributes == old(self).updated_attributes,
    {
        let ghost s0 = self.set_chunks@;
        let ghost pv = path@;
        let ghost cv = coord@;
        match self.find_chunk_index(&path, &coord) {
            Some(i) => {
                self.set_chunks.set(i, (path, coord, data));
                proof {
                    assert(self.set_chunks@ == s0.update(i as int, self.set_chunks@[i as int]));
                    assert forall|q: Seq<char>, c: Seq<u64>|
                        #![trigger self.staged_chunk(q, c)]
                        self.staged_chunk(q, c) == if q == pv && c == cv {
                            Some(data)
                        } else {
                            old(self).staged_chunk(q, c)
                        } by {
                        lemma_find_by_update(s0, i as int, self.set_chunks@[i as int], chunk_is(q, c));
                    }
                }
            },
            None => {
                self.set_chunks.push((path, coord, data));
                proof {
                    assert forall|q: Seq<char>, c: Seq<u64>|
                        #![trigger self.staged_chunk(q, c)]
                        self.staged_chunk(q, c) == if q == pv && c == cv {
                            Some(data)
                        } else {
                            old(self).staged_chunk(q, c)
                        } by {
                        lemma_find_by_push(s0, self.set_chunks@.last(), chunk_is(q, c));
                    }
                }
            },
        }
    }

    /// The staged write at `(path, coords)`: `None` when nothing is staged,
    /// `Some(None)` for a staged deletion.
    pub fn get_chunk_ref(&self, path: &Path, coords: &ArrayIndices) -> (r: Option<
        Option<ChunkPayload>,
    >)
        ensures
            match r {
                Some(x) => self.staged_chunk(path@, coords@) matches Some(y)
                    && opt_payload_view(x) == opt_payload_view(y),
                None => self.staged_chunk(path@, coords@) is None,
            },
    {
        match self.find_chunk_index(path, coords) {
            Some(i) => Some(clone_opt_payload(&self.set_chunks[i].2)),
            None => None,
        }
    }

    /// The rows staged for the array at `path`, which has id `node_id`:
    /// every staged write that is not a deletion, in staging order.
    pub fn array_chunks_iterator(&self, path: &Path, node_id: NodeId) -> (r: Vec<ChunkInfo>)
        ensures
            chunk_views(r@) == staged_rows(self.set_chunks@, path@, node_id),
    {
        let ghost v = self.set_chunks@;
        let mut r: Vec<ChunkInfo> = Vec::new();
        let mut i: usize = 0;
        while i < self.set_chunks.len()
            invariant
                i <= v.len(),
                v == self.set_chunks@,
                chunk_views(r@) == staged_rows(v.subrange(0, i as int), path@, node_id),
            decreases v.len() - i,
        {
            let ghost r0 = r@;
            assert(v.subrange(0, i + 1).drop_last() =~= v.subrange(0, i as int));
            assert(v.subrange(0, i + 1).last() == v[i as int]);
            if self.set_chunks[i].0 == *path {
                match &self.set_chunks[i].2 {
                    Some(x) => {
                        r.push(
                            ChunkInfo {
                                node: node_id,
                                coord: self.set_chunks[i].1.clone(),
                                payload: x.clone(),
                            },
                        );
                        assert(chunk_views(r@) =~= chunk_views(r0).push(r@.last()@));
                    },
                    None => {},
                }
            }
            i = i + 1;
        }
        assert(v.subrange(0, v.len() as int) =~= v);
        r
    }

    /// The rows staged for every new array, array after array in creation
    /// order; deletions and writes to arrays of the base snapshot are left out.
    pub fn new_arrays_chunk_iterator(&self) -> (r: Vec<ChunkInfo>)
        ensures
            chunk_views(r@) == new_array_rows(self.new_arrays@, self.set_chunks@),
    {
        let ghost a = self.new_arrays@;
        let mut r: Vec<ChunkInfo> = Vec::new();
        let mut i: usize = 0;
        while i < self.new_arrays.len()
            invariant
                i <= a.len(),
                a == self.new_arrays@,
                chunk_views(r@) == new_array_rows(a.subrange(0, i as int), self.set_chunks@),
            decreases a.len() - i,
        {
            let ghost r0 = r@;
            let mut rows = self.array_chunks_iterator(&self.new_arrays[i].0, self.new_arrays[i].1.0);
            let ghost rows0 = rows@;
            r.append(&mut rows);
            assert(a.subrange(0, i + 1).drop_last() =~= a.subrange(0, i as int));
            assert(chunk_views(r@) =~= chunk_views(r0) + chunk_views(rows0));
            i = i + 1;
        }
        assert(a.subrange(0, a.len() as int) =~= a);
        r
    }

    /// Paths of the new nodes: groups first, then arrays, in creation order.
    pub fn new_nodes(&self) -> (r: Vec<Path>)
        ensures
            r@.len() == self.new_groups@.len() + self.new_arrays@.len(),
            forall|i: int| 0 <= i < self.new_groups@.len() ==> r@[i] == self.new_groups@[i].0,
            forall|i: int|
                0 <= i < self.new_arrays@.len() ==> r@[self.new_groups@.len() + i]
                    == self.new_arrays@[i].0,
    {
        let mut r: Vec<Path> = Vec::new();
        let mut i: usize = 0;
        while i < self.new_groups.len()
            invariant
                i <= self.new_groups@.len(),
                r@.len() == i,
                forall|j: int| 0 <= j < i ==> r@[j] == self.new_groups@[j].0,
            decreases self.new_groups@.len() - i,
        {
            r.push(self.new_groups[i].0.clone());
            i = i + 1;
        }
        let mut k: usize = 0;
        while k < self.new_arrays.len()
            invariant
                k <= self.new_arrays@.len(),
                r@.len() == self.new_groups@.len() + k,
                forall|j: int| 0 <= j < self.new_groups@.len() ==> r@[j] == self.new_groups@[j].0,
                forall|j: int| 0 <= j < k ==> r@[self.new_groups@.len() + j] == self.new_arrays@[j].0,
            decreases self.new_arrays@.len() - k,
        {
            r.push(self.new_arrays[k].0.clone());
            k = k + 1;
        }
        r
    }
}

} // verus!
