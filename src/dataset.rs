use vstd::prelude::*;
use crate::change_set::{chunk_views, new_array_rows, staged_rows, ChangeSet};
use crate::lookup::{
    lemma_find_by_concat, lemma_find_by_map, lemma_find_by_some, lookup, path_is,
};
use crate::region_tracker::{region_of_rows, TableRegionTracker};
use crate::storage::{Storage, StorageError};
use crate::tables::{
    mk_manifests_table, mk_structure_table, node_path_is, region_end, ManifestsTable,
    StructureTable,
};
use crate::types::{
    clone_opt_atts, opt_node_view, opt_payload_view, refs_view, ArrayIndices, ChunkInfo,
    ChunkPayload, ChunkView, Flags, ManifestExtents, ManifestRef, ManifestRefView, MetadataView,
    NodeData, NodeDataView, NodeId, NodeStructure, NodeView, ObjectId, PayloadView, Path,
    TableRegion, UserAttributes, UserAttributesStructure, ZarrArrayMetadata,
};

verus! {

/// Failure of `add_group` or `add_array`.
#[derive(Debug, PartialEq, Eq)]
pub enum AddNodeError {
    AlreadyExists(Path),
}

/// Failure of `flush`.
#[derive(Debug, PartialEq, Eq)]
pub enum FlushError {
    NoChangesToFlush,
    StorageError(StorageError),
}

/// Failure of a mutation that targets an existing node.
#[derive(Debug, PartialEq, Eq)]
pub enum UpdateNodeError {
    NotFound(Path),
    NotAnArray(Path),
}

/// Stored form of optional attributes.
pub open spec fn inline_atts(o: Option<UserAttributes>) -> Option<UserAttributesStructure> {
    match o {
        Some(a) => Some(UserAttributesStructure::Inline(a)),
        None => None,
    }
}

/// Attributes of a node created in the session: only what the overlay holds.
pub open spec fn new_node_atts(cs: ChangeSet, p: Seq<char>) -> Option<UserAttributesStructure> {
    match lookup(cs.updated_attributes@, p) {
        Some(o) => inline_atts(o),
        None => None,
    }
}

/// Attributes of a node of the base snapshot, with the overlay applied.
pub open spec fn overlaid_atts(
    cs: ChangeSet,
    p: Seq<char>,
    base: Option<UserAttributesStructure>,
) -> Option<UserAttributesStructure> {
    match lookup(cs.updated_attributes@, p) {
        Some(o) => inline_atts(o),
        None => base,
    }
}

/// Metadata of the array at `p`, with the overlay applied.
pub open spec fn overlaid_meta(cs: ChangeSet, p: Seq<char>, base: MetadataView) -> MetadataView {
    match lookup(cs.updated_arrays@, p) {
        Some(m) => m@,
        None => base,
    }
}

/// The array created in the session at `p`, as the session shows it.
pub open spec fn new_array_node(cs: ChangeSet, p: Seq<char>) -> Option<NodeView> {
    match lookup(cs.new_arrays@, p) {
        Some(e) => Some(
            NodeView {
                id: e.0,
                path: p,
                user_attributes: new_node_atts(cs, p),
                node_data: NodeDataView::Array(overlaid_meta(cs, p, e.1@), Seq::empty()),
            },
        ),
        None => None,
    }
}

/// The group created in the session at `p`, as the session shows it.
pub open spec fn new_group_node(cs: ChangeSet, p: Seq<char>) -> Option<NodeView> {
    match lookup(cs.new_groups@, p) {
        Some(id) => Some(
            NodeView {
                id,
                path: p,
                user_attributes: new_node_atts(cs, p),
                node_data: NodeDataView::Group,
            },
        ),
        None => None,
    }
}

/// A node of the base snapshot at `p` with the overlay applied; its manifest
/// references are kept.
pub open spec fn overlay_node(cs: ChangeSet, p: Seq<char>, n: NodeView) -> NodeView {
    NodeView {
        id: n.id,
        path: n.path,
        user_attributes: overlaid_atts(cs, p, n.user_attributes),
        node_data: match n.node_data {
            NodeDataView::Array(m, refs) => NodeDataView::Array(overlaid_meta(cs, p, m), refs),
            NodeDataView::Group => NodeDataView::Group,
        },
    }
}

/// Largest id among `nodes`, 0 when there is none.
pub open spec fn max_id(nodes: Seq<NodeStructure>) -> NodeId
    decreases nodes.len(),
{
    if nodes.len() == 0 {
        0
    } else {
        let m = max_id(nodes.drop_last());
        if nodes.last().id > m {
            nodes.last().id
        } else {
            m
        }
    }
}

/// `max_id` bounds every id of the sequence.
pub proof fn lemma_max_id(nodes: Seq<NodeStructure>)
    ensures
        forall|i: int| 0 <= i < nodes.len() ==> nodes[i].id <= max_id(nodes),
    decreases nodes.len(),
{
    if nodes.len() > 0 {
        lemma_max_id(nodes.drop_last());
        assert forall|i: int| 0 <= i < nodes.len() implies nodes[i].id <= max_id(nodes) by {
            if i < nodes.len() - 1 {
                assert(nodes.drop_last()[i] == nodes[i]);
            }
        }
    }
}

/// A bound on every id bounds `max_id`.
pub proof fn lemma_max_id_le(nodes: Seq<NodeStructure>, x: NodeId)
    requires
        forall|i: int| 0 <= i < nodes.len() ==> #[trigger] nodes[i].id <= x,
    ensures
        max_id(nodes) <= x,
    decreases nodes.len(),
{
    if nodes.len() > 0 {
        assert forall|i: int| 0 <= i < nodes.drop_last().len() implies #[trigger] nodes.drop_last()[i].id <= x by {
            assert(nodes.drop_last()[i] == nodes[i]);
        }
        lemma_max_id_le(nodes.drop_last(), x);
        assert(nodes.last() == nodes[nodes.len() - 1]);
    }
}

/// The payload found at `c` through the manifest references `refs[i..]`:
/// the first hit, or `None` when a manifest is missing or no region holds `c`.
pub open spec fn old_chunk(st: Storage, refs: Seq<ManifestRefView>, c: Seq<u64>, i: int) -> Option<
    PayloadView,
>
    decreases refs.len() - i,
{
    if i < 0 || i >= refs.len() {
        None
    } else {
        match st.manifest(refs[i].object_id) {
            None => None,
            Some(t) => match t.payload_in(c, refs[i].location) {
                Some(x) => Some(x@),
                None => old_chunk(st, refs, c, i + 1),
            },
        }
    }
}

/// Rows of `rows[lo..hi)` whose coordinate has no staged write for path `p`.
pub open spec fn kept_rows(rows: Seq<ChunkInfo>, lo: int, hi: int, cs: ChangeSet, p: Seq<char>) -> Seq<
    ChunkView,
>
    decreases hi - lo,
{
    if hi <= lo || hi > rows.len() {
        Seq::empty()
    } else {
        let rest = kept_rows(rows, lo, hi - 1, cs, p);
        if cs.staged_chunk(p, rows[hi - 1].coord@) is None {
            rest.push(rows[hi - 1]@)
        } else {
            rest
        }
    }
}

/// Surviving base rows of the array at `p`, reference after reference.
pub open spec fn manifest_rows(st: Storage, cs: ChangeSet, p: Seq<char>, refs: Seq<ManifestRef>) -> Seq<
    ChunkView,
>
    decreases refs.len(),
{
    if refs.len() == 0 {
        Seq::empty()
    } else {
        let m = refs.last();
        manifest_rows(st, cs, p, refs.drop_last()) + match st.manifest(m.object_id) {
            Some(t) => kept_rows(t.chunks@, m.location.0 as int, region_end(t.chunks@, m.location), cs, p),
            None => Seq::empty(),
        }
    }
}

/// Every manifest that `refs` names is stored.
pub open spec fn refs_fetchable(st: Storage, refs: Seq<ManifestRef>) -> bool {
    forall|i: int| 0 <= i < refs.len() ==> (#[trigger] st.manifest(refs[i].object_id)) is Some
}

/// Rows a flush writes for one base node: for an array, its staged rows,
/// then its base rows that no staged write replaces; nothing for a group.
pub open spec fn node_rows(st: Storage, cs: ChangeSet, n: NodeStructure) -> Seq<ChunkView> {
    match n.node_data {
        NodeData::Array(_, refs) => staged_rows(cs.set_chunks@, n.path@, n.id) + manifest_rows(
            st,
            cs,
            n.path@,
            refs@,
        ),
        NodeData::Group => Seq::empty(),
    }
}

/// The `k`-th manifest reference of the array `n` names `id`.
pub open spec fn refers_to(n: NodeStructure, k: int, id: ObjectId) -> bool {
    n.node_data matches NodeData::Array(_, refs) && 0 <= k < refs@.len() && refs@[k].object_id == id
}

/// Every manifest that a base node refers to is stored.
pub open spec fn node_fetchable(st: Storage, n: NodeStructure) -> bool {
    match n.node_data {
        NodeData::Array(_, refs) => refs_fetchable(st, refs@),
        NodeData::Group => true,
    }
}

/// Rows a flush writes for the base nodes, node after node.
pub open spec fn base_rows(st: Storage, cs: ChangeSet, nodes: Seq<NodeStructure>) -> Seq<ChunkView>
    decreases nodes.len(),
{
    if nodes.len() == 0 {
        Seq::empty()
    } else {
        base_rows(st, cs, nodes.drop_last()) + node_rows(st, cs, nodes.last())
    }
}

/// Manifest references a node gets for its region in the manifest `mid`.
pub open spec fn manifests_for(mid: ObjectId, region: Option<TableRegion>) -> Seq<ManifestRefView> {
    match region {
        Some(r) => if r.0 == r.1 {
            Seq::empty()
        } else {
            seq![ManifestRefView { object_id: mid, location: r, extents: Seq::empty() }]
        },
        None => Seq::empty(),
    }
}

/// A base node as a flush writes it: overlay applied, manifests replaced.
pub open spec fn updated_node(cs: ChangeSet, n: NodeView, manifests: Seq<ManifestRefView>) -> NodeView {
    NodeView {
        id: n.id,
        path: n.path,
        user_attributes: overlaid_atts(cs, n.path, n.user_attributes),
        node_data: match n.node_data {
            NodeDataView::Array(m, _) => NodeDataView::Array(overlaid_meta(cs, n.path, m), manifests),
            NodeDataView::Group => NodeDataView::Group,
        },
    }
}

/// A new group as a flush writes it.
pub open spec fn flushed_group(cs: ChangeSet, e: (String, NodeId)) -> NodeView {
    NodeView {
        id: e.1,
        path: e.0@,
        user_attributes: new_node_atts(cs, e.0@),
        node_data: NodeDataView::Group,
    }
}

/// A new array as a flush writes it.
pub open spec fn flushed_array(
    cs: ChangeSet,
    e: (String, (NodeId, ZarrArrayMetadata)),
    mid: ObjectId,
    rows: Seq<ChunkView>,
) -> NodeView {
    NodeView {
        id: e.1.0,
        path: e.0@,
        user_attributes: new_node_atts(cs, e.0@),
        node_data: NodeDataView::Array(
            overlaid_meta(cs, e.0@, e.1.1@),
            manifests_for(mid, region_of_rows(rows, e.1.0)),
        ),
    }
}

/// The view of a node, as a function.
pub open spec fn node_view_fn() -> spec_fn(NodeStructure) -> NodeView {
    |n: NodeStructure| n@
}

/// Views of a list of nodes.
pub open spec fn node_views(s: Seq<NodeStructure>) -> Seq<NodeView> {
    s.map_values(node_view_fn())
}

/// How a flush writes each base node.
pub open spec fn existing_fn(cs: ChangeSet, mid: ObjectId, rows: Seq<ChunkView>) -> spec_fn(
    NodeStructure,
) -> NodeView {
    |n: NodeStructure| updated_node(cs, n@, manifests_for(mid, region_of_rows(rows, n.id)))
}

/// How a flush writes each new group.
pub open spec fn group_fn(cs: ChangeSet) -> spec_fn((String, NodeId)) -> NodeView {
    |e: (String, NodeId)| flushed_group(cs, e)
}

/// How a flush writes each new array.
pub open spec fn array_fn(cs: ChangeSet, mid: ObjectId, rows: Seq<ChunkView>) -> spec_fn(
    (String, (NodeId, ZarrArrayMetadata)),
) -> NodeView {
    |e: (String, (NodeId, ZarrArrayMetadata))| flushed_array(cs, e, mid, rows)
}

/// Matches a node view whose path is `p`.
pub open spec fn view_path_is(p: Seq<char>) -> spec_fn(NodeView) -> bool {
    |v: NodeView| v.path == p
}

/// Two views of a node agree on everything but the manifest references.
pub open spec fn same_but_manifests(a: NodeView, b: NodeView) -> bool {
    &&& a.id == b.id
    &&& a.path == b.path
    &&& a.user_attributes == b.user_attributes
    &&& match (a.node_data, b.node_data) {
        (NodeDataView::Array(m1, _), NodeDataView::Array(m2, _)) => m1 == m2,
        (NodeDataView::Group, NodeDataView::Group) => true,
        _ => false,
    }
}

/// A session: an overlay of staged changes on top of an optional base snapshot.
#[derive(Debug)]
pub struct Dataset {
    pub storage: Storage,
    pub structure_id: Option<ObjectId>,
    pub last_node_id: Option<NodeId>,
    pub change_set: ChangeSet,
}

impl Dataset {
    /// The storage is sound, the overlay has unique keys, a cached last id is
    /// at least every id of the base snapshot, and every id of a node created
    /// in the session is at most the last id handed out, and new arrays have
    /// distinct ids.
    pub open spec fn wf(&self) -> bool {
        &&& self.storage.wf()
        &&& self.change_set.wf()
        &&& (self.last_node_id matches Some(x) ==> x >= self.base_max_id())
        &&& forall|i: int|
            0 <= i < self.change_set.new_groups@.len() ==> #[trigger] self.change_set.new_groups@[i].1
                <= self.last_id()
        &&& forall|i: int|
            0 <= i < self.change_set.new_arrays@.len() ==> #[trigger] self.change_set.new_arrays@[i].1.0
                <= self.last_id()
        &&& forall|i: int, j: int|
            0 <= i < j < self.change_set.new_arrays@.len() ==> #[trigger] self.change_set.new_arrays@[i].1.0
                != #[trigger] self.change_set.new_arrays@[j].1.0
        &&& forall|q: Seq<char>|
            #![trigger lookup(self.change_set.updated_arrays@, q)]
            lookup(self.change_set.updated_arrays@, q) is Some ==> self.has_node(q)
        &&& forall|q: Seq<char>|
            #![trigger lookup(self.change_set.updated_attributes@, q)]
            lookup(self.change_set.updated_attributes@, q) is Some ==> self.has_node(q)
    }

    /// A node exists at `q`, in the overlay or in the base snapshot.
    pub open spec fn has_node(&self, q: Seq<char>) -> bool {
        ||| lookup(self.change_set.new_arrays@, q) is Some
        ||| lookup(self.change_set.new_groups@, q) is Some
        ||| (self.base() matches Some(t) && t.node_at(q) is Some)
    }

    /// The base snapshot's structure table, when there is one and it is stored.
    pub open spec fn base(&self) -> Option<StructureTable> {
        match self.structure_id {
            Some(id) => self.storage.structure(id),
            None => None,
        }
    }

    /// Largest id of the base snapshot, 0 without one.
    pub open spec fn base_max_id(&self) -> NodeId {
        match self.base() {
            Some(t) => max_id(t.nodes@),
            None => 0,
        }
    }

    /// The last id handed out, or the base snapshot's largest id before any.
    pub open spec fn last_id(&self) -> NodeId {
        match self.last_node_id {
            Some(x) => x,
            None => self.base_max_id(),
        }
    }

    /// The node of the base snapshot at `p`, with the overlay applied.
    pub open spec fn existing_node(&self, p: Seq<char>) -> Option<NodeView> {
        match self.base() {
            Some(t) => match t.node_at(p) {
                Some(n) => Some(overlay_node(self.change_set, p, n@)),
                None => None,
            },
            None => None,
        }
    }

    /// The merged view of the node at `p`: new arrays, then new groups, then
    /// the base snapshot.
    pub open spec fn node_at(&self, p: Seq<char>) -> Option<NodeView> {
        match new_array_node(self.change_set, p) {
            Some(n) => Some(n),
            None => match new_group_node(self.change_set, p) {
                Some(n) => Some(n),
                None => self.existing_node(p),
            },
        }
    }

    /// The payload the session shows at `(p, c)`: none for a missing node or a
    /// group, else the staged write if any, else the base manifests.
    pub open spec fn chunk_at(&self, p: Seq<char>, c: Seq<u64>) -> Option<PayloadView> {
        match self.node_at(p) {
            None => None,
            Some(n) => match n.node_data {
                NodeDataView::Group => None,
                NodeDataView::Array(_, refs) => match self.change_set.staged_chunk(p, c) {
                    Some(x) => opt_payload_view(x),
                    None => old_chunk(self.storage, refs, c, 0),
                },
            },
        }
    }

    /// `id` names a table that a flush must read and that is not stored: the
    /// base structure table, or a manifest that a base array refers to.
    pub open spec fn missing_table(&self, id: ObjectId) -> bool {
        ||| (self.structure_id == Some(id) && self.storage.structure(id) is None)
        ||| (self.base() matches Some(t) && self.storage.manifest(id) is None && exists|i: int, k: int|
            0 <= i < t.nodes@.len() && #[trigger] refers_to(t.nodes@[i], k, id))
    }

    /// Every table that a flush reads is stored.
    pub open spec fn flush_fetchable(&self) -> bool {
        match self.structure_id {
            None => true,
            Some(_) => match self.base() {
                Some(t) => forall|i: int|
                    0 <= i < t.nodes@.len() ==> #[trigger] node_fetchable(self.storage, t.nodes@[i]),
                None => false,
            },
        }
    }

    /// Rows of the manifest a flush writes for the base arrays.
    pub open spec fn existing_rows(&self) -> Seq<ChunkView> {
        match self.base() {
            Some(t) => base_rows(self.storage, self.change_set, t.nodes@),
            None => Seq::empty(),
        }
    }

    /// Rows of the manifest a flush writes: base arrays first, then new arrays.
    pub open spec fn flush_rows(&self) -> Seq<ChunkView> {
        self.existing_rows() + new_array_rows(self.change_set.new_arrays@, self.change_set.set_chunks@)
    }

    /// Base nodes as a flush writes them, given the manifest `mid` and its rows.
    pub open spec fn existing_after(&self, mid: ObjectId, rows: Seq<ChunkView>) -> Seq<NodeView> {
        match self.base() {
            Some(t) => t.nodes@.map_values(existing_fn(self.change_set, mid, rows)),
            None => Seq::empty(),
        }
    }

    /// New nodes as a flush writes them: groups, then arrays.
    pub open spec fn new_after(&self, mid: ObjectId, rows: Seq<ChunkView>) -> Seq<NodeView> {
        self.change_set.new_groups@.map_values(group_fn(self.change_set))
            + self.change_set.new_arrays@.map_values(array_fn(self.change_set, mid, rows))
    }

    /// A session with no base snapshot.
    pub fn create(storage: Storage) -> (r: Dataset)
        requires
            storage.wf(),
        ensures
            r.wf(),
            r.storage == storage,
            r.structure_id is None,
            r.last_node_id is None,
            r.change_set.is_empty(),
    {
        Dataset::new(storage, None)
    }

    /// A session on top of the snapshot named `previous_version_structure_id`.
    pub fn update(storage: Storage, previous_version_structure_id: ObjectId) -> (r: Dataset)
        requires
            storage.wf(),
        ensures
            r.wf(),
            r.storage == storage,
            r.structure_id == Some(previous_version_structure_id),
            r.last_node_id is None,
            r.change_set.is_empty(),
    {
        Dataset::new(storage, Some(previous_version_structure_id))
    }

    fn new(storage: Storage, previous_version_structure_id: Option<ObjectId>) -> (r: Dataset)
        requires
            storage.wf(),
        ensures
            r.wf(),
            r.storage == storage,
            r.structure_id == previous_version_structure_id,
            r.last_node_id is None,
            r.change_set.is_empty(),
    {
        Dataset {
            structure_id: previous_version_structure_id,
            storage,
            last_node_id: None,
            change_set: ChangeSet::new(),
        }
    }

    fn compute_last_node_id(&self) -> (r: NodeId)
        ensures
            r == self.base_max_id(),
    {
        match &self.structure_id {
            None => 0,
            Some(id) => match self.storage.fetch_structure(id) {
                Err(_) => 0,
                Ok(structure) => {
                    let mut m: NodeId = 0;
                    let mut i: usize = 0;
                    while i < structure.nodes.len()
                        invariant
                            i <= structure.nodes@.len(),
                            m == max_id(structure.nodes@.subrange(0, i as int)),
                        decreases structure.nodes@.len() - i,
                    {
                        assert(structure.nodes@.subrange(0, i + 1).drop_last()
                            =~= structure.nodes@.subrange(0, i as int));
                        if structure.nodes[i].id > m {
                            m = structure.nodes[i].id;
                        }
                        i = i + 1;
                    }
                    assert(structure.nodes@.subrange(0, i as int) =~= structure.nodes@);
                    m
                },
            },
        }
    }

    /// Hands out the next node id: one more than the last one handed out, or
    /// than the base snapshot's largest id at first.
    pub fn reserve_node_id(&mut self) -> (r: NodeId)
        requires
            old(self).wf(),
            old(self).last_id() < NodeId::MAX,
        ensures
            final(self).wf(),
            r == old(self).last_id() + 1,
            final(self).last_node_id == Some(r),
            final(self).last_id() == r,
            r > old(self).last_id(),
            old(self).base() matches Some(t) ==> forall|i: int|
                0 <= i < t.nodes@.len() ==> #[trigger] t.nodes@[i].id < r,
            final(self).storage == old(self).storage,
            final(self).structure_id == old(self).structure_id,
            final(self).change_set == old(self).change_set,
    {
        let last = match self.last_node_id {
            Some(x) => x,
            None => self.compute_last_node_id(),
        };
        proof {
            if let Some(t) = self.base() {
                lemma_max_id(t.nodes@);
            }
        }
        let new = last + 1;
        self.last_node_id = Some(new);
        new
    }

    fn get_new_array(&self, path: &Path) -> (r: Option<NodeStructure>)
        ensures
            opt_node_view(r) == new_array_node(self.change_set, path@),
    {
        match self.change_set.get_array(path) {
            None => None,
            Some(entry) => {
                let meta = match self.change_set.get_updated_zarr_metadata(path) {
                    Some(m) => m.clone(),
                    None => entry.1.clone(),
                };
                let atts = match self.change_set.get_user_attributes(path) {
                    Some(Some(a)) => Some(UserAttributesStructure::Inline(a.clone())),
                    _ => None,
                };
                let refs: Vec<ManifestRef> = Vec::new();
                assert(refs_view(refs@) =~= Seq::<ManifestRefView>::empty());
                let r = NodeStructure {
                    id: entry.0,
                    path: path.clone(),
                    user_attributes: atts,
                    node_data: NodeData::Array(meta, refs),
                };
                assert(r.node_data@ == NodeDataView::Array(
                    overlaid_meta(self.change_set, path@, entry.1@),
                    Seq::empty(),
                ));
                Some(r)
            },
        }
    }

    fn get_new_group(&self, path: &Path) -> (r: Option<NodeStructure>)
        ensures
            opt_node_view(r) == new_group_node(self.change_set, path@),
    {
        match self.change_set.get_group(path) {
            None => None,
            Some(id) => {
                let atts = match self.change_set.get_user_attributes(path) {
                    Some(Some(a)) => Some(UserAttributesStructure::Inline(a.clone())),
                    _ => None,
                };
                Some(
                    NodeStructure {
                        id,
                        path: path.clone(),
                        user_attributes: atts,
                        node_data: NodeData::Group,
                    },
                )
            },
        }
    }

    fn get_new_node(&self, path: &Path) -> (r: Option<NodeStructure>)
        ensures
            opt_node_view(r) == match new_array_node(self.change_set, path@) {
                Some(n) => Some(n),
                None => new_group_node(self.change_set, path@),
            },
    {
        match self.get_new_array(path) {
            Some(n) => Some(n),
            None => self.get_new_group(path),
        }
    }

    fn get_existing_node(&self, path: &Path) -> (r: Option<NodeStructure>)
        ensures
            opt_node_view(r) == self.existing_node(path@),
    {
        let sid = match &self.structure_id {
            Some(s) => s,
            None => return None,
        };
        let structure = match self.storage.fetch_structure(sid) {
            Ok(t) => t,
            Err(_) => return None,
        };
        let res = match structure.get_node(path) {
            Some(n) => n,
            None => return None,
        };
        let ghost rv = res@;
        let atts = match self.change_set.get_user_attributes(path) {
            Some(o) => match o {
                Some(a) => Some(UserAttributesStructure::Inline(a.clone())),
                None => None,
            },
            None => res.user_attributes,
        };
        let data = match res.node_data {
            NodeData::Array(m, refs) => match self.change_set.get_updated_zarr_metadata(path) {
                Some(m2) => NodeData::Array(m2.clone(), refs),
                None => NodeData::Array(m, refs),
            },
            NodeData::Group => NodeData::Group,
        };
        let r = NodeStructure { id: res.id, path: res.path, user_attributes: atts, node_data: data };
        assert(r@ == overlay_node(self.change_set, path@, rv));
        Some(r)
    }

    /// The merged view of the node at `path`.
    pub fn get_node(&self, path: &Path) -> (r: Option<NodeStructure>)
        ensures
            opt_node_view(r) == self.node_at(path@),
    {
        match self.get_new_node(path) {
            Some(n) => Some(n),
            None => self.get_existing_node(path),
        }
    }
    /// Frame: only the overlay's group list and the id cache changed.
    pub open spec fn group_added(&self, pre: Dataset, path: Seq<char>, id: NodeId) -> bool {
        &&& self.storage == pre.storage
        &&& self.structure_id == pre.structure_id
        &&& self.last_node_id == Some(id)
        &&& self.change_set.new_arrays == pre.change_set.new_arrays
        &&& self.change_set.updated_arrays == pre.change_set.updated_arrays
        &&& self.change_set.updated_attributes == pre.change_set.updated_attributes
        &&& self.change_set.set_chunks == pre.change_set.set_chunks
        &&& forall|q: Seq<char>|
            #![trigger lookup(self.change_set.new_groups@, q)]
            lookup(self.change_set.new_groups@, q) == if q == path {
                Some(id)
            } else {
                lookup(pre.change_set.new_groups@, q)
            }
    }

    /// Adds a group at `path`, with a freshly reserved id.
    ///
    /// Records the operation in memory only; storage is not touched.
    pub fn add_group(&mut self, path: Path) -> (r: Result<(), AddNodeError>)
        requires
            old(self).wf(),
            old(self).node_at(path@) is None ==> old(self).last_id() < NodeId::MAX,
        ensures
            final(self).wf(),
            r is Ok <==> old(self).node_at(path@) is None,
            r is Ok ==> final(self).group_added(*old(self), path@, (old(self).last_id() + 1) as NodeId),
            r is Ok ==> final(self).node_at(path@) == Some(
                NodeView {
                    id: (old(self).last_id() + 1) as NodeId,
                    path: path@,
                    user_attributes: None,
                    node_data: NodeDataView::Group,
                },
            ),
            r is Err ==> r == Err::<(), AddNodeError>(AddNodeError::AlreadyExists(path))
                && *final(self) == *old(self),
            r is Ok ==> forall|q: Seq<char>|
                q != path@ ==> #[trigger] final(self).node_at(q) == old(self).node_at(q),
    {
        if self.get_node(&path).is_none() {
            let id = self.reserve_node_id();
            let ghost p = path@;
            let ghost before = self.change_set.new_groups@;
            self.change_set.add_group(path, id);
            assert(lookup(self.change_set.new_groups@, p) == Some(id));
            assert forall|i: int| 0 <= i < self.change_set.new_groups@.len() implies
                #[trigger] self.change_set.new_groups@[i].1 <= self.last_id() by {
                if self.change_set.new_groups@[i].1 != id {
                    let j = choose|j: int| 0 <= j < before.len() && self.change_set.new_groups@[i] == before[j];
                    assert(before[j].1 <= old(self).last_id());
                }
            }
            Ok(())
        } else {
            Err(AddNodeError::AlreadyExists(path))
        }
    }

    /// Adds an array at `path` with `metadata`, with a freshly reserved id.
    ///
    /// Records the operation in memory only; storage is not touched.
    pub fn add_array(&mut self, path: Path, metadata: ZarrArrayMetadata) -> (r: Result<
        (),
        AddNodeError,
    >)
        requires
            old(self).wf(),
            old(self).node_at(path@) is None ==> old(self).last_id() < NodeId::MAX,
        ensures
            final(self).wf(),
            r is Ok <==> old(self).node_at(path@) is None,
            r is Ok ==> final(self).storage == old(self).storage
                && final(self).structure_id == old(self).structure_id
                && final(self).last_node_id == Some((old(self).last_id() + 1) as NodeId)
                && final(self).change_set.new_groups == old(self).change_set.new_groups
                && final(self).change_set.updated_arrays == old(self).change_set.updated_arrays
                && final(self).change_set.updated_attributes
                    == old(self).change_set.updated_attributes
                && final(self).change_set.set_chunks == old(self).change_set.set_chunks
                && (forall|q: Seq<char>|
                    #![trigger lookup(final(self).change_set.new_arrays@, q)]
                    lookup(final(self).change_set.new_arrays@, q) == if q == path@ {
                        Some(((old(self).last_id() + 1) as NodeId, metadata))
                    } else {
                        lookup(old(self).change_set.new_arrays@, q)
                    }),
            r is Ok ==> final(self).node_at(path@) == Some(
                NodeView {
                    id: (old(self).last_id() + 1) as NodeId,
                    path: path@,
                    user_attributes: None,
                    node_data: NodeDataView::Array(metadata@, Seq::empty()),
                },
            ),
            r is Err ==> r == Err::<(), AddNodeError>(AddNodeError::AlreadyExists(path))
                && *final(self) == *old(self),
            r is Ok ==> forall|q: Seq<char>|
                q != path@ ==> #[trigger] final(self).node_at(q) == old(self).node_at(q),
    {
        if self.get_node(&path).is_none() {
            let id = self.reserve_node_id();
            let ghost p = path@;
            let ghost before = self.change_set.new_arrays@;
            self.change_set.add_array(path, id, metadata);
            assert(lookup(self.change_set.new_arrays@, p) == Some((id, metadata)));
            assert forall|i: int| 0 <= i < self.change_set.new_arrays@.len() implies
                #[trigger] self.change_set.new_arrays@[i].1.0 <= self.last_id() by {
                if self.change_set.new_arrays@[i].1 != (id, metadata) {
                    let j = choose|j: int| 0 <= j < before.len() && self.change_set.new_arrays@[i] == before[j];
                    assert(before[j].1.0 <= old(self).last_id());
                }
            }
            Ok(())
        } else {
            Err(AddNodeError::AlreadyExists(path))
        }
    }

    /// Records new metadata for the array at `path`.
    ///
    /// The node keeps its id and its manifest references.
    pub fn update_array(&mut self, path: Path, metadata: ZarrArrayMetadata) -> (r: Result<
        (),
        UpdateNodeError,
    >)
        requires
            old(self).wf(),
        ensures
            final(self).wf(),
            old(self).node_at(path@) is None ==> r == Err::<(), UpdateNodeError>(
                UpdateNodeError::NotFound(path),
            ) && *final(self) == *old(self),
            old(self).node_at(path@) matches Some(n) ==> (n.node_data is Group ==> r == Err::<
                (),
                UpdateNodeError,
            >(UpdateNodeError::NotAnArray(path)) && *final(self) == *old(self)),
            old(self).node_at(path@) matches Some(n) ==> (n.node_data matches NodeDataView::Array(
                _,
                refs,
            ) ==> r is Ok && final(self).node_at(path@) == Some(
                NodeView { node_data: NodeDataView::Array(metadata@, refs), ..n },
            )),
            r is Ok ==> final(self).storage == old(self).storage
                && final(self).structure_id == old(self).structure_id
                && final(self).last_node_id == old(self).last_node_id
                && final(self).change_set.new_groups == old(self).change_set.new_groups
                && final(self).change_set.new_arrays == old(self).change_set.new_arrays
                && final(self).change_set.updated_attributes
                    == old(self).change_set.updated_attributes
                && final(self).change_set.set_chunks == old(self).change_set.set_chunks
                && (forall|q: Seq<char>|
                    #![trigger lookup(final(self).change_set.updated_arrays@, q)]
                    lookup(final(self).change_set.updated_arrays@, q) == if q == path@ {
                        Some(metadata)
                    } else {
                        lookup(old(self).change_set.updated_arrays@, q)
                    }),
    {
        match self.get_node(&path) {
            None => Err(UpdateNodeError::NotFound(path)),
            Some(NodeStructure { node_data: NodeData::Array(..), .. }) => {
                let ghost p = path@;
                self.change_set.update_array(path, metadata);
                assert(lookup(self.change_set.updated_arrays@, p) == Some(metadata));
                Ok(())
            },
            Some(_) => Err(UpdateNodeError::NotAnArray(path)),
        }
    }

    /// Records the write (`Some`) or deletion (`None`) of the attributes of
    /// the node at `path`.
    pub fn set_user_attributes(&mut self, path: Path, atts: Option<UserAttributes>) -> (r: Result<
        (),
        UpdateNodeError,
    >)
        requires
            old(self).wf(),
        ensures
            final(self).wf(),
            old(self).node_at(path@) is None ==> r == Err::<(), UpdateNodeError>(
                UpdateNodeError::NotFound(path),
            ) && *final(self) == *old(self),
            old(self).node_at(path@) matches Some(n) ==> r is Ok && final(self).node_at(path@)
                == Some(NodeView { user_attributes: inline_atts(atts), ..n }),
            r is Ok ==> final(self).storage == old(self).storage
                && final(self).structure_id == old(self).structure_id
                && final(self).last_node_id == old(self).last_node_id
                && final(self).change_set.new_groups == old(self).change_set.new_groups
                && final(self).change_set.new_arrays == old(self).change_set.new_arrays
                && final(self).change_set.updated_arrays == old(self).change_set.updated_arrays
                && final(self).change_set.set_chunks == old(self).change_set.set_chunks
                && (forall|q: Seq<char>|
                    #![trigger lookup(final(self).change_set.updated_attributes@, q)]
                    lookup(final(self).change_set.updated_attributes@, q) == if q == path@ {
                        Some(atts)
                    } else {
                        lookup(old(self).change_set.updated_attributes@, q)
                    }),
    {
        match self.get_node(&path) {
            None => Err(UpdateNodeError::NotFound(path)),
            Some(_) => {
                let ghost p = path@;
                self.change_set.update_user_attributes(path, atts);
                assert(lookup(self.change_set.updated_attributes@, p) == Some(atts));
                Ok(())
            },
        }
    }
    /// Records the write (`Some`) or deletion (`None`) of the chunk at `coord`
    /// of the array at `path`. The chunk bytes must be stored by the caller.
    pub fn set_chunk(
        &mut self,
        path: Path,
        coord: ArrayIndices,
        data: Option<ChunkPayload>,
    ) -> (r: Result<(), UpdateNodeError>)
        requires
            old(self).wf(),
        ensures
            final(self).wf(),
            old(self).node_at(path@) is None ==> r == Err::<(), UpdateNodeError>(
                UpdateNodeError::NotFound(path),
            ) && *final(self) == *old(self),
            old(self).node_at(path@) matches Some(n) ==> (n.node_data is Group ==> r == Err::<
                (),
                UpdateNodeError,
            >(UpdateNodeError::NotAnArray(path)) && *final(self) == *old(self)),
            old(self).node_at(path@) matches Some(n) ==> (n.node_data is Array ==> r is Ok),
            r is Ok ==> final(self).chunk_at(path@, coord@) == opt_payload_view(data),
            r is Ok ==> final(self).node_at(path@) == old(self).node_at(path@),
            r is Ok ==> final(self).storage == old(self).storage
                && final(self).structure_id == old(self).structure_id
                && final(self).last_node_id == old(self).last_node_id
                && final(self).change_set.new_groups == old(self).change_set.new_groups
                && final(self).change_set.new_arrays == old(self).change_set.new_arrays
                && final(self).change_set.updated_arrays == old(self).change_set.updated_arrays
                && final(self).change_set.updated_attributes
                    == old(self).change_set.updated_attributes
                && (forall|q: Seq<char>, c: Seq<u64>|
                    #![trigger final(self).change_set.staged_chunk(q, c)]
                    final(self).change_set.staged_chunk(q, c) == if q == path@ && c == coord@ {
                        Some(data)
                    } else {
                        old(self).change_set.staged_chunk(q, c)
                    }),
    {
        match self.get_node(&path) {
            None => Err(UpdateNodeError::NotFound(path)),
            Some(NodeStructure { node_data: NodeData::Array(..), .. }) => {
                let ghost p = path@;
                let ghost c = coord@;
                self.change_set.set_chunk(path, coord, data);
                assert(self.change_set.staged_chunk(p, c) == Some(data));
                assert(self.node_at(p) == old(self).node_at(p));
                Ok(())
            },
            Some(_) => Err(UpdateNodeError::NotAnArray(path)),
        }
    }

    fn get_old_chunk(&self, manifests: &Vec<ManifestRef>, coords: &ArrayIndices) -> (r: Option<
        ChunkPayload,
    >)
        ensures
            opt_payload_view(r) == old_chunk(self.storage, refs_view(manifests@), coords@, 0),
    {
        let ghost refs = refs_view(manifests@);
        let mut i: usize = 0;
        while i < manifests.len()
            invariant
                i <= manifests@.len(),
                refs == refs_view(manifests@),
                old_chunk(self.storage, refs, coords@, 0) == old_chunk(
                    self.storage,
                    refs,
                    coords@,
                    i as int,
                ),
            decreases manifests@.len() - i,
        {
            let manifest = &manifests[i];
            assert(refs[i as int] == manifest@);
            let table = match self.storage.fetch_manifests(&manifest.object_id) {
                Ok(t) => t,
                Err(_) => return None,
            };
            match table.get_chunk_info(coords, &manifest.location) {
                Some(info) => {
                    return Some(info.payload);
                },
                None => {},
            }
            i = i + 1;
        }
        None
    }

    /// The payload of the chunk at `coords` of the array at `path`.
    pub fn get_chunk_ref(&self, path: &Path, coords: &ArrayIndices) -> (r: Option<ChunkPayload>)
        ensures
            opt_payload_view(r) == self.chunk_at(path@, coords@),
    {
        let node = match self.get_node(path) {
            Some(n) => n,
            None => return None,
        };
        match node.node_data {
            NodeData::Group => None,
            NodeData::Array(_, manifests) => match self.change_set.get_chunk_ref(path, coords) {
                Some(session_chunk) => session_chunk,
                None => self.get_old_chunk(&manifests, coords),
            },
        }
    }
    /// Rows of `location` in `table` whose coordinate has no staged write for
    /// `path`, in stored order: the base rows of an array that the flush
    /// carries over unchanged.
    fn unstaged_region_rows(
        &self,
        path: &Path,
        table: &ManifestsTable,
        location: &TableRegion,
    ) -> (r: Vec<ChunkInfo>)
        ensures
            chunk_views(r@) == kept_rows(
                table.chunks@,
                location.0 as int,
                region_end(table.chunks@, *location),
                self.change_set,
                path@,
            ),
    {
        let len: usize = table.chunks.len();
        let hi: usize = if location.1 <= len as u64 {
            location.1 as usize
        } else {
            len
        };
        let mut r: Vec<ChunkInfo> = Vec::new();
        if location.0 >= hi as u64 {
            return r;
        }
        let lo: usize = location.0 as usize;
        let mut k: usize = lo;
        while k < hi
            invariant
                lo <= k <= hi,
                lo == location.0,
                hi <= table.chunks@.len(),
                hi == region_end(table.chunks@, *location),
                chunk_views(r@) == kept_rows(
                    table.chunks@,
                    lo as int,
                    k as int,
                    self.change_set,
                    path@,
                ),
            decreases hi - k,
        {
            let ghost r0 = r@;
            let chunk = &table.chunks[k];
            if self.change_set.get_chunk_ref(path, &chunk.coord).is_none() {
                r.push(chunk.clone());
                assert(chunk_views(r@) =~= chunk_views(r0).push(chunk@));
            }
            k = k + 1;
        }
        r
    }

    /// Rows a flush writes for the base node `node`.
    fn node_chunk_iterator(&self, node: &NodeStructure) -> (r: Result<Vec<ChunkInfo>, StorageError>)
        ensures
            r is Ok <==> node_fetchable(self.storage, *node),
            r matches Ok(v) ==> chunk_views(v@) == node_rows(self.storage, self.change_set, *node),
            r matches Err(StorageError::NotFound(id)) ==> self.storage.manifest(id) is None
                && exists|k: int| #[trigger] refers_to(*node, k, id),
    {
        match &node.node_data {
            NodeData::Group => {
                let r: Vec<ChunkInfo> = Vec::new();
                assert(chunk_views(r@) =~= Seq::<ChunkView>::empty());
                Ok(r)
            },
            NodeData::Array(_, manifests) => {
                let mut r = self.change_set.array_chunks_iterator(&node.path, node.id);
                let ghost staged = chunk_views(r@);
                let mut i: usize = 0;
                while i < manifests.len()
                    invariant
                        i <= manifests@.len(),
                        node.node_data matches NodeData::Array(_, m) && m == *manifests,
                        refs_fetchable(self.storage, manifests@.subrange(0, i as int)),
                        chunk_views(r@) == staged + manifest_rows(
                            self.storage,
                            self.change_set,
                            node.path@,
                            manifests@.subrange(0, i as int),
                        ),
                    decreases manifests@.len() - i,
                {
                    let ghost r0 = r@;
                    let manifest_ref = &manifests[i];
                    let table = match self.storage.fetch_manifests(&manifest_ref.object_id) {
                        Ok(t) => t,
                        Err(e) => {
                            assert(manifests@[i as int] == *manifest_ref);
                            assert(self.storage.manifest(manifests@[i as int].object_id) is None);
                            assert(!refs_fetchable(self.storage, manifests@));
                            assert(refers_to(*node, i as int, manifest_ref.object_id));

                            return Err(e);
                        },
                    };
                    let mut kept = self.unstaged_region_rows(&node.path, table, &manifest_ref.location);
                    let ghost kept0 = kept@;
                    r.append(&mut kept);
                    assert(manifests@.subrange(0, i + 1).drop_last() =~= manifests@.subrange(0, i as int));
                    assert(manifests@.subrange(0, i + 1).last() == *manifest_ref);
                    assert(chunk_views(r@) =~= chunk_views(r0) + chunk_views(kept0));
                    assert forall|j: int| 0 <= j < i + 1 implies (#[trigger] self.storage.manifest(
                        manifests@.subrange(0, i + 1)[j].object_id)) is Some by {
                        if j < i {
                            assert(manifests@.subrange(0, i + 1)[j] == manifests@.subrange(0, i as int)[j]);
                        }
                    }
                    i = i + 1;
                }
                assert(manifests@.subrange(0, manifests@.len() as int) =~= manifests@);
                Ok(r)
            },
        }
    }

    /// Rows a flush writes for the base arrays, node after node.
    fn updated_chunk_iterator(&self) -> (r: Result<Vec<ChunkInfo>, StorageError>)
        ensures
            r is Ok <==> self.flush_fetchable(),
            r matches Ok(v) ==> chunk_views(v@) == self.existing_rows(),
            r matches Err(StorageError::NotFound(id)) ==> self.missing_table(id),
    {
        let mut r: Vec<ChunkInfo> = Vec::new();
        let structure_id = match &self.structure_id {
            None => {
                assert(chunk_views(r@) =~= Seq::<ChunkView>::empty());
                return Ok(r);
            },
            Some(id) => id,
        };
        let structure = match self.storage.fetch_structure(structure_id) {
            Ok(t) => t,
            Err(e) => return Err(e),
        };
        let ghost nodes = structure.nodes@;
        let mut i: usize = 0;
        assert(chunk_views(r@) =~= Seq::<ChunkView>::empty());
        while i < structure.nodes.len()
            invariant
                i <= nodes.len(),
                nodes == structure.nodes@,
                self.base() == Some(*structure),
                forall|j: int| 0 <= j < i ==> #[trigger] node_fetchable(self.storage, nodes[j]),
                chunk_views(r@) == base_rows(self.storage, self.change_set, nodes.subrange(0, i as int)),
            decreases nodes.len() - i,
        {
            let ghost r0 = r@;
            let mut rows = match self.node_chunk_iterator(&structure.nodes[i]) {
                Ok(v) => v,
                Err(e) => {
                    assert(!node_fetchable(self.storage, nodes[i as int]));
                    assert(self.base().unwrap().nodes@[i as int] == nodes[i as int]);
                    assert(!self.flush_fetchable());
                    let ghost id = match e { StorageError::NotFound(x) => x };
                    assert(exists|k: int| #[trigger] refers_to(nodes[i as int], k, id));
                    assert(nodes[i as int] == self.base().unwrap().nodes@[i as int]);
                    return Err(e);
                },
            };
            let ghost rows0 = rows@;
            r.append(&mut rows);
            assert(nodes.subrange(0, i + 1).drop_last() =~= nodes.subrange(0, i as int));
            assert(chunk_views(r@) =~= chunk_views(r0) + chunk_views(rows0));
            i = i + 1;
        }
        assert(nodes.subrange(0, nodes.len() as int) =~= nodes);
        Ok(r)
    }
    /// The manifest references for a region of the manifest `manifest_id`:
    /// one for a non-empty region, none otherwise.
    fn new_manifests(manifest_id: ObjectId, region: Option<TableRegion>) -> (r: Vec<ManifestRef>)
        ensures
            refs_view(r@) == manifests_for(manifest_id, region),
    {
        let mut r: Vec<ManifestRef> = Vec::new();
        match region {
            Some(reg) => {
                if reg.0 != reg.1 {
                    r.push(
                        ManifestRef {
                            object_id: manifest_id,
                            location: reg,
                            flags: Flags(),
                            extents: ManifestExtents(Vec::new()),
                        },
                    );
                }
            },
            None => {},
        }
        assert(refs_view(r@) =~= manifests_for(manifest_id, region));
        r
    }

    /// A base node with the overlay applied and `new_manifests` as its
    /// manifest references.
    fn update_existing_node(&self, node: &NodeStructure, new_manifests: Vec<ManifestRef>) -> (r:
        NodeStructure)
        ensures
            r@ == updated_node(self.change_set, node@, refs_view(new_manifests@)),
    {
        let new_atts = match self.change_set.get_user_attributes(&node.path) {
            Some(o) => match o {
                Some(a) => Some(UserAttributesStructure::Inline(a.clone())),
                None => None,
            },
            None => clone_opt_atts(&node.user_attributes),
        };
        let node_data = match &node.node_data {
            NodeData::Group => NodeData::Group,
            NodeData::Array(old_zarr_meta, _) => {
                let new_zarr_meta = match self.change_set.get_updated_zarr_metadata(&node.path) {
                    Some(m) => m.clone(),
                    None => old_zarr_meta.clone(),
                };
                NodeData::Array(new_zarr_meta, new_manifests)
            },
        };
        NodeStructure {
            id: node.id,
            path: node.path.clone(),
            user_attributes: new_atts,
            node_data,
        }
    }

    /// Base nodes as a flush writes them.
    fn updated_existing_nodes(&self, manifest_id: ObjectId, tracker: &TableRegionTracker) -> (r: Vec<
        NodeStructure,
    >)
        requires
            tracker.wf(),
            self.structure_id is Some ==> self.base() is Some,
        ensures
            node_views(r@) == self.existing_after(manifest_id, tracker.rows@),
    {
        let mut r: Vec<NodeStructure> = Vec::new();
        let structure_id = match &self.structure_id {
            None => {
                assert(node_views(r@) =~= Seq::<NodeView>::empty());
                return r;
            },
            Some(id) => id,
        };
        let structure = match self.storage.fetch_structure(structure_id) {
            Ok(t) => t,
            Err(_) => {
                assert(false);
                return r;
            },
        };
        let ghost nodes = structure.nodes@;
        let ghost rows = tracker.rows@;
        let mut i: usize = 0;
        while i < structure.nodes.len()
            invariant
                i <= nodes.len(),
                nodes == structure.nodes@,
                rows == tracker.rows@,
                tracker.wf(),
                r@.len() == i,
                forall|j: int|
                    0 <= j < i ==> (#[trigger] r@[j])@ == updated_node(
                        self.change_set,
                        nodes[j]@,
                        manifests_for(manifest_id, region_of_rows(rows, nodes[j].id)),
                    ),
            decreases nodes.len() - i,
        {
            let node = &structure.nodes[i];
            let region = tracker.region(node.id);
            let manifests = Dataset::new_manifests(manifest_id, region);
            r.push(self.update_existing_node(node, manifests));
            i = i + 1;
        }
        assert(node_views(r@) =~= self.existing_after(manifest_id, rows));
        r
    }

    /// New nodes as a flush writes them: groups, then arrays.
    fn new_nodes(&self, manifest_id: ObjectId, tracker: &TableRegionTracker) -> (r: Vec<
        NodeStructure,
    >)
        requires
            tracker.wf(),
        ensures
            node_views(r@) == self.new_after(manifest_id, tracker.rows@),
    {
        let ghost cs = self.change_set;
        let ghost rows = tracker.rows@;
        let ghost groups = cs.new_groups@;
        let ghost arrays = cs.new_arrays@;
        let mut r: Vec<NodeStructure> = Vec::new();
        let mut i: usize = 0;
        while i < self.change_set.new_groups.len()
            invariant
                i <= groups.len(),
                cs == self.change_set,
                groups == cs.new_groups@,
                r@.len() == i,
                forall|j: int| 0 <= j < i ==> (#[trigger] r@[j])@ == flushed_group(cs, groups[j]),
            decreases groups.len() - i,
        {
            let path = &self.change_set.new_groups[i].0;
            let atts = match self.change_set.get_user_attributes(path) {
                Some(Some(a)) => Some(UserAttributesStructure::Inline(a.clone())),
                _ => None,
            };
            r.push(
                NodeStructure {
                    id: self.change_set.new_groups[i].1,
                    path: path.clone(),
                    user_attributes: atts,
                    node_data: NodeData::Group,
                },
            );
            i = i + 1;
        }
        let mut k: usize = 0;
        while k < self.change_set.new_arrays.len()
            invariant
                k <= arrays.len(),
                cs == self.change_set,
                groups == cs.new_groups@,
                arrays == cs.new_arrays@,
                rows == tracker.rows@,
                tracker.wf(),
                r@.len() == groups.len() + k,
                forall|j: int|
                    0 <= j < groups.len() ==> (#[trigger] r@[j])@ == flushed_group(cs, groups[j]),
                forall|j: int|
                    0 <= j < k ==> (#[trigger] r@[groups.len() + j])@ == flushed_array(
                        cs,
                        arrays[j],
                        manifest_id,
                        rows,
                    ),
            decreases arrays.len() - k,
        {
            let path = &self.change_set.new_arrays[k].0;
            let id = self.change_set.new_arrays[k].1.0;
            let meta = match self.change_set.get_updated_zarr_metadata(path) {
                Some(m) => m.clone(),
                None => self.change_set.new_arrays[k].1.1.clone(),
            };
            let atts = match self.change_set.get_user_attributes(path) {
                Some(Some(a)) => Some(UserAttributesStructure::Inline(a.clone())),
                _ => None,
            };
            let region = tracker.region(id);
            let manifests = Dataset::new_manifests(manifest_id, region);
            r.push(
                NodeStructure {
                    id,
                    path: path.clone(),
                    user_attributes: atts,
                    node_data: NodeData::Array(meta, manifests),
                },
            );
            k = k + 1;
        }
        let ghost expected = self.new_after(manifest_id, rows);
        assert forall|j: int| 0 <= j < r@.len() implies node_views(r@)[j] == expected[j] by {
            if j >= groups.len() {
                let k = j - groups.len();
                assert(r@[groups.len() + k] == r@[j]);
            }
        }
        assert(node_views(r@) =~= expected);
        r
    }
    /// Every node as a flush writes it: base nodes, then new nodes.
    fn updated_nodes(&self, manifest_id: ObjectId, tracker: &TableRegionTracker) -> (r: Vec<
        NodeStructure,
    >)
        requires
            tracker.wf(),
            self.structure_id is Some ==> self.base() is Some,
        ensures
            node_views(r@) == self.existing_after(manifest_id, tracker.rows@) + self.new_after(
                manifest_id,
                tracker.rows@,
            ),
    {
        let mut all_nodes = self.updated_existing_nodes(manifest_id, tracker);
        let ghost existing_nodes = all_nodes@;
        let mut new_nodes = self.new_nodes(manifest_id, tracker);
        let ghost added_nodes = new_nodes@;
        all_nodes.append(&mut new_nodes);
        assert(node_views(all_nodes@) =~= node_views(existing_nodes) + node_views(added_nodes));
        all_nodes
    }

    /// Writes the staged changes to storage as a new snapshot and returns the
    /// id of its structure table.
    ///
    /// One new manifest table holds the rows of every array: for each base
    /// array in base order, its staged rows and then its base rows that no
    /// staged write replaces; then the staged rows of each new array. Each
    /// array gets one reference to its region of that table, or none when it
    /// has no row. The new structure table holds the base nodes in base order
    /// with the overlay applied, then the new groups, then the new arrays.
    /// Afterwards the session is based on the new snapshot with nothing staged.
    /// When a table to read is missing, the session is left as it was.
    pub fn flush(&mut self) -> (r: Result<ObjectId, FlushError>)
        requires
            old(self).wf(),
            old(self).storage.next_id < u64::MAX - 1,
        ensures
            final(self).wf(),
            r is Ok <==> old(self).flush_fetchable(),
            r is Err ==> *final(self) == *old(self),
            r is Err ==> r matches Err(FlushError::StorageError(_)),
            r matches Err(FlushError::StorageError(StorageError::NotFound(id))) ==> old(
                self,
            ).missing_table(id),
            r matches Ok(sid) ==> {
                let mid = ObjectId(old(self).storage.next_id);
                let rows = old(self).flush_rows();
                &&& sid == ObjectId((old(self).storage.next_id + 1) as u64)
                &&& final(self).structure_id == Some(sid)
                &&& final(self).change_set.is_empty()
                &&& final(self).last_node_id == old(self).last_node_id
                &&& final(self).storage.next_id == old(self).storage.next_id + 2
                &&& final(self).storage.manifest(mid) matches Some(mt) && chunk_views(mt.chunks@) == rows
                &&& final(self).storage.structure(sid) matches Some(st) && node_views(st.nodes@)
                    == old(self).existing_after(mid, rows) + old(self).new_after(mid, rows)
                &&& forall|k: ObjectId|
                    k.0 < old(self).storage.next_id ==> #[trigger] final(self).storage.structure(k)
                        == old(self).storage.structure(k) && final(self).storage.manifest(k)
                        == old(self).storage.manifest(k)
            },
    {
        let mut all_chunks = match self.updated_chunk_iterator() {
            Ok(v) => v,
            Err(e) => return Err(FlushError::StorageError(e)),
        };
        let ghost existing = all_chunks@;
        let mut new_array_chunks = self.change_set.new_arrays_chunk_iterator();
        let ghost fresh = new_array_chunks@;
        all_chunks.append(&mut new_array_chunks);
        assert(chunk_views(all_chunks@) =~= chunk_views(existing) + chunk_views(fresh));
        let ghost rows = chunk_views(all_chunks@);
        assert(rows == self.flush_rows());

        let mut region_tracker = TableRegionTracker::new();
        let mut i: usize = 0;
        assert(chunk_views(all_chunks@.subrange(0, 0)) =~= Seq::<ChunkView>::empty());
        while i < all_chunks.len()
            invariant
                i <= all_chunks@.len(),
                region_tracker.wf(),
                region_tracker.next == i,
                region_tracker.rows@ == chunk_views(all_chunks@.subrange(0, i as int)),
            decreases all_chunks@.len() - i,
        {
            region_tracker.update(&all_chunks[i]);
            assert(chunk_views(all_chunks@.subrange(0, i + 1)) =~= chunk_views(
                all_chunks@.subrange(0, i as int),
            ).push(all_chunks@[i as int]@));
            i = i + 1;
        }
        assert(all_chunks@.subrange(0, all_chunks@.len() as int) =~= all_chunks@);

        let ghost pre = *self;
        proof {
            self.storage.lemma_fresh_not_stored(ObjectId(self.storage.next_id));
        }
        let new_manifest_id = self.storage.new_object_id();
        assert(self.base() == pre.base());
        assert(self.existing_after(new_manifest_id, rows) == pre.existing_after(new_manifest_id, rows));
        assert(self.new_after(new_manifest_id, rows) == pre.new_after(new_manifest_id, rows));
        let all_nodes = self.updated_nodes(new_manifest_id, &region_tracker);

        let new_manifest = mk_manifests_table(all_chunks);
        match self.storage.write_manifests(new_manifest_id, new_manifest) {
            Ok(()) => {},
            Err(e) => {
                assert(false);
                return Err(FlushError::StorageError(e));
            },
        }
        let ghost st1 = self.storage;
        let new_structure = mk_structure_table(all_nodes);
        proof {
            self.storage.lemma_fresh_not_stored(ObjectId(self.storage.next_id));
        }
        let new_structure_id = self.storage.new_object_id();
        match self.storage.write_structure(new_structure_id, new_structure) {
            Ok(()) => {},
            Err(e) => {
                assert(false);
                return Err(FlushError::StorageError(e));
            },
        }
        self.structure_id = Some(new_structure_id);
        self.change_set = ChangeSet::new();
        proof {
            if let Some(x) = old(self).last_node_id {
                let e = pre.existing_after(new_manifest_id, rows);
                let nn = pre.new_after(new_manifest_id, rows);
                let st = self.storage.structure(new_structure_id).unwrap();
                assert(node_views(st.nodes@) == e + nn);
                if let Some(t) = pre.base() {
                    lemma_max_id(t.nodes@);
                }
                assert forall|i: int| 0 <= i < st.nodes@.len() implies #[trigger] st.nodes@[i].id <= x by {
                    assert(node_views(st.nodes@)[i] == st.nodes@[i]@);
                    if i < e.len() {
                        assert((e + nn)[i] == e[i]);
                        let t = pre.base().unwrap();
                        assert(e[i] == existing_fn(pre.change_set, new_manifest_id, rows)(t.nodes@[i]));
                    } else {
                        let g = pre.change_set.new_groups@;
                        assert((e + nn)[i] == nn[i - e.len()]);
                        if i - e.len() < g.len() {
                            assert(nn[i - e.len()] == group_fn(pre.change_set)(g[i - e.len()]));
                        } else {
                            let a = pre.change_set.new_arrays@;
                            assert(nn[i - e.len()] == array_fn(pre.change_set, new_manifest_id, rows)(
                                a[i - e.len() - g.len()],
                            ));
                        }
                    }
                }
                lemma_max_id_le(st.nodes@, x);
            }
        }
        assert forall|k: ObjectId| k.0 < old(self).storage.next_id implies #[trigger] self.storage.structure(k)
            == old(self).storage.structure(k) && self.storage.manifest(k) == old(self).storage.manifest(k) by {
            assert(st1.manifest(k) == old(self).storage.manifest(k));
            assert(st1.structure(k) == old(self).storage.structure(k));
        }
        Ok(new_structure_id)
    }
}


/// Once a group has been added at `p` with id `id`, the session shows a group
/// at `p` with that id and no attributes; a second `add_group` or `add_array`
/// at `p` therefore fails.
pub proof fn law_added_group_is_visible(pre: Dataset, post: Dataset, p: Seq<char>, id: NodeId)
    requires
        pre.wf(),
        pre.node_at(p) is None,
        post.group_added(pre, p, id),
    ensures
        post.node_at(p) == Some(
            NodeView { id, path: p, user_attributes: None, node_data: NodeDataView::Group },
        ),
{
    assert(lookup(post.change_set.new_groups@, p) == Some(id));
}


/// Round trip of nodes through a flush: a session opened on the snapshot a
/// flush wrote shows at every path the node the flushed session showed, with
/// the same id, path, attributes, kind and metadata; only the manifest
/// references differ, as the flush points them at the manifest it wrote.
pub proof fn law_flush_keeps_nodes(pre: Dataset, post: Dataset, mid: ObjectId, p: Seq<char>)
    requires
        post.change_set.is_empty(),
        post.base() matches Some(st) && node_views(st.nodes@) == pre.existing_after(
            mid,
            pre.flush_rows(),
        ) + pre.new_after(mid, pre.flush_rows()),
    ensures
        match (pre.node_at(p), post.node_at(p)) {
            (Some(a), Some(b)) => same_but_manifests(a, b),
            (None, None) => true,
            _ => false,
        },
{
    let st = post.base().unwrap();
    let cs = pre.change_set;
    let rows = pre.flush_rows();
    let mv = view_path_is(p);
    let g = cs.new_groups@.map_values(group_fn(cs));
    let a = cs.new_arrays@.map_values(array_fn(cs, mid, rows));
    let e = pre.existing_after(mid, rows);
    lemma_find_by_map(st.nodes@, node_view_fn(), node_path_is(p), mv);
    lemma_find_by_concat(e, g + a, mv);
    lemma_find_by_concat(g, a, mv);
    lemma_find_by_map(cs.new_groups@, group_fn(cs), path_is::<NodeId>(p), mv);
    lemma_find_by_map(
        cs.new_arrays@,
        array_fn(cs, mid, rows),
        path_is::<(NodeId, ZarrArrayMetadata)>(p),
        mv,
    );
    if let Some(t) = pre.base() {
        lemma_find_by_map(t.nodes@, existing_fn(cs, mid, rows), node_path_is(p), mv);
        lemma_find_by_some(t.nodes@, node_path_is(p));
    }
    lemma_find_by_some(st.nodes@, node_path_is(p));
    assert(lookup(post.change_set.updated_attributes@, p) is None);
    assert(lookup(post.change_set.updated_arrays@, p) is None);
    assert(lookup(post.change_set.new_arrays@, p) is None);
    assert(lookup(post.change_set.new_groups@, p) is None);
}


/// Flushing a session with nothing staged writes a snapshot that shows at
/// every path the base snapshot's node, with the same id, path, attributes,
/// kind and metadata; only the manifest references are rewritten.
pub proof fn law_flush_without_changes_keeps_nodes(
    pre: Dataset,
    post: Dataset,
    mid: ObjectId,
    p: Seq<char>,
)
    requires
        pre.change_set.is_empty(),
        post.change_set.is_empty(),
        post.base() matches Some(st) && node_views(st.nodes@) == pre.existing_after(
            mid,
            pre.flush_rows(),
        ) + pre.new_after(mid, pre.flush_rows()),
    ensures
        match (pre.base(), post.node_at(p)) {
            (Some(t), Some(b)) => t.node_at(p) matches Some(n) && same_but_manifests(n@, b),
            (Some(t), None) => t.node_at(p) is None,
            (None, b) => b is None,
        },
{
    law_flush_keeps_nodes(pre, post, mid, p);
    assert(lookup(pre.change_set.updated_attributes@, p) is None);
    assert(lookup(pre.change_set.updated_arrays@, p) is None);
    assert(lookup(pre.change_set.new_arrays@, p) is None);
    assert(lookup(pre.change_set.new_groups@, p) is None);
}

} // verus!
