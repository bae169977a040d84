use vstd::prelude::*;

verus! {

/// Identifier of a node, stable across snapshots.
pub type NodeId = u32;

/// Hierarchical name of a node, such as `/group/array1`.
pub type Path = String;

/// Serialized user attributes, kept opaque.
pub type UserAttributes = String;

/// Content identifier of a stored structure or manifest table.
#[derive(Debug, Clone, Copy, PartialEq, Eq, Hash)]
pub struct ObjectId(pub u64);

/// Copies a sequence of integers element by element.
pub fn copy_u64s(v: &Vec<u64>) -> (r: Vec<u64>)
    ensures
        r@ == v@,
{
    let mut r: Vec<u64> = Vec::new();
    let mut i: usize = 0;
    while i < v.len()
        invariant
            i <= v@.len(),
            r@ == v@.subrange(0, i as int),
        decreases v@.len() - i,
    {
        r.push(v[i]);
        i = i + 1;
        assert(r@ =~= v@.subrange(0, i as int));
    }
    assert(r@ =~= v@);
    r
}

/// Copies a byte buffer element by element.
pub fn copy_bytes(v: &Vec<u8>) -> (r: Vec<u8>)
    ensures
        r@ == v@,
{
    let mut r: Vec<u8> = Vec::new();
    let mut i: usize = 0;
    while i < v.len()
        invariant
            i <= v@.len(),
            r@ == v@.subrange(0, i as int),
        decreases v@.len() - i,
    {
        r.push(v[i]);
        i = i + 1;
        assert(r@ =~= v@.subrange(0, i as int));
    }
    assert(r@ =~= v@);
    r
}

/// Integer tuple naming one chunk within an array.
#[derive(Debug, PartialEq, Eq, Hash)]
pub struct ArrayIndices(pub Vec<u64>);

impl View for ArrayIndices {
    type V = Seq<u64>;

    open spec fn view(&self) -> Seq<u64> {
        self.0@
    }
}

impl Clone for ArrayIndices {
    fn clone(&self) -> (r: Self)
        ensures
            r@ == self@,
    {
        ArrayIndices(copy_u64s(&self.0))
    }
}

impl ArrayIndices {
    /// Compares two coordinates element by element.
    pub fn same_as(&self, other: &ArrayIndices) -> (r: bool)
        ensures
            r == (self@ == other@),
    {
        if self.0.len() != other.0.len() {
            return false;
        }
        let mut i: usize = 0;
        while i < self.0.len()
            invariant
                self@.len() == other@.len(),
                i <= self@.len(),
                forall|j: int| 0 <= j < i ==> self@[j] == other@[j],
            decreases self@.len() - i,
        {
            if self.0[i] != other.0[i] {
                return false;
            }
            i = i + 1;
        }
        assert(self@ =~= other@);
        true
    }
}

/// Reference to chunk bytes stored in an outside blob.
#[derive(Debug, Clone, Copy, PartialEq, Eq, Hash)]
pub struct ChunkRef {
    pub id: ObjectId,
    pub offset: u64,
    pub length: u64,
}

/// Where the bytes of a chunk are: inline, or in an outside blob.
#[derive(Debug, PartialEq, Eq, Hash)]
pub enum ChunkPayload {
    Inline(Vec<u8>),
    Ref(ChunkRef),
}

pub ghost enum PayloadView {
    Inline(Seq<u8>),
    Ref(ChunkRef),
}

impl View for ChunkPayload {
    type V = PayloadView;

    open spec fn view(&self) -> PayloadView {
        match self {
            ChunkPayload::Inline(b) => PayloadView::Inline(b@),
            ChunkPayload::Ref(r) => PayloadView::Ref(*r),
        }
    }
}

impl Clone for ChunkPayload {
    fn clone(&self) -> (r: Self)
        ensures
            r@ == self@,
    {
        match self {
            ChunkPayload::Inline(b) => ChunkPayload::Inline(copy_bytes(b)),
            ChunkPayload::Ref(r) => ChunkPayload::Ref(*r),
        }
    }
}

/// View of an optional payload.
pub open spec fn opt_payload_view(p: Option<ChunkPayload>) -> Option<PayloadView> {
    match p {
        Some(x) => Some(x@),
        None => None,
    }
}

/// Copies an optional payload.
pub fn clone_opt_payload(p: &Option<ChunkPayload>) -> (r: Option<ChunkPayload>)
    ensures
        opt_payload_view(r) == opt_payload_view(*p),
{
    match p {
        Some(x) => Some(x.clone()),
        None => None,
    }
}

/// One row of a manifest table.
#[derive(Debug, PartialEq, Eq, Hash)]
pub struct ChunkInfo {
    pub node: NodeId,
    pub coord: ArrayIndices,
    pub payload: ChunkPayload,
}

pub ghost struct ChunkView {
    pub node: NodeId,
    pub coord: Seq<u64>,
    pub payload: PayloadView,
}

impl View for ChunkInfo {
    type V = ChunkView;

    open spec fn view(&self) -> ChunkView {
        ChunkView { node: self.node, coord: self.coord@, payload: self.payload@ }
    }
}

impl Clone for ChunkInfo {
    fn clone(&self) -> (r: Self)
        ensures
            r@ == self@,
    {
        ChunkInfo { node: self.node, coord: self.coord.clone(), payload: self.payload.clone() }
    }
}

/// Element type of an array.
#[derive(Debug, Clone, Copy, PartialEq, Eq, Hash)]
pub enum DataType {
    Bool,
    Int8,
    Int16,
    Int32,
    Int64,
    UInt8,
    UInt16,
    UInt32,
    UInt64,
}

/// Value of the elements of a chunk that was never written.
#[derive(Debug, Clone, Copy, PartialEq, Eq, Hash)]
pub enum FillValue {
    Bool(bool),
    Int8(i8),
    Int16(i16),
    Int32(i32),
    Int64(i64),
    UInt8(u8),
    UInt16(u16),
    UInt32(u32),
    UInt64(u64),
}

/// How chunk coordinates are turned into keys.
#[derive(Debug, Clone, Copy, PartialEq, Eq, Hash)]
pub enum ChunkKeyEncoding {
    Slash,
    Dot,
    Default,
}

/// Shape of each chunk of an array.
#[derive(Debug, PartialEq, Eq, Hash)]
pub struct ChunkShape(pub Vec<u64>);

/// Codec configuration, kept opaque.
#[derive(Debug, PartialEq, Eq, Hash)]
pub struct Codecs(pub String);

impl Clone for Codecs {
    fn clone(&self) -> (r: Self)
        ensures
            r == *self,
    {
        Codecs(self.0.clone())
    }
}

/// Storage transformer configuration, kept opaque.
#[derive(Debug, PartialEq, Eq, Hash)]
pub struct StorageTransformers(pub String);

impl Clone for StorageTransformers {
    fn clone(&self) -> (r: Self)
        ensures
            r == *self,
    {
        StorageTransformers(self.0.clone())
    }
}

/// Copies an optional string.
pub fn clone_opt_string(o: &Option<String>) -> (r: Option<String>)
    ensures
        r == *o,
{
    match o {
        Some(s) => Some(s.clone()),
        None => None,
    }
}

/// Copies a list of optional dimension names.
pub fn clone_names(v: &Vec<Option<String>>) -> (r: Vec<Option<String>>)
    ensures
        r@ == v@,
{
    let mut r: Vec<Option<String>> = Vec::new();
    let mut i: usize = 0;
    while i < v.len()
        invariant
            i <= v@.len(),
            r@ == v@.subrange(0, i as int),
        decreases v@.len() - i,
    {
        r.push(clone_opt_string(&v[i]));
        i = i + 1;
        assert(r@ =~= v@.subrange(0, i as int));
    }
    assert(r@ =~= v@);
    r
}

/// Zarr metadata of an array.
#[derive(Debug, PartialEq, Eq, Hash)]
pub struct ZarrArrayMetadata {
    pub shape: Vec<u64>,
    pub data_type: DataType,
    pub chunk_shape: ChunkShape,
    pub chunk_key_encoding: ChunkKeyEncoding,
    pub fill_value: FillValue,
    pub codecs: Codecs,
    pub storage_transformers: Option<StorageTransformers>,
    pub dimension_names: Option<Vec<Option<String>>>,
}

pub ghost struct MetadataView {
    pub shape: Seq<u64>,
    pub data_type: DataType,
    pub chunk_shape: Seq<u64>,
    pub chunk_key_encoding: ChunkKeyEncoding,
    pub fill_value: FillValue,
    pub codecs: Codecs,
    pub storage_transformers: Option<StorageTransformers>,
    pub dimension_names: Option<Seq<Option<String>>>,
}

impl View for ZarrArrayMetadata {
    type V = MetadataView;

    open spec fn view(&self) -> MetadataView {
        MetadataView {
            shape: self.shape@,
            data_type: self.data_type,
            chunk_shape: self.chunk_shape.0@,
            chunk_key_encoding: self.chunk_key_encoding,
            fill_value: self.fill_value,
            codecs: self.codecs,
            storage_transformers: self.storage_transformers,
            dimension_names: match self.dimension_names {
                Some(v) => Some(v@),
                None => None,
            },
        }
    }
}

impl Clone for ZarrArrayMetadata {
    fn clone(&self) -> (r: Self)
        ensures
            r@ == self@,
    {
        ZarrArrayMetadata {
            shape: copy_u64s(&self.shape),
            data_type: self.data_type,
            chunk_shape: ChunkShape(copy_u64s(&self.chunk_shape.0)),
            chunk_key_encoding: self.chunk_key_encoding,
            fill_value: self.fill_value,
            codecs: self.codecs.clone(),
            storage_transformers: match &self.storage_transformers {
                Some(t) => Some(t.clone()),
                None => None,
            },
            dimension_names: match &self.dimension_names {
                Some(v) => Some(clone_names(v)),
                None => None,
            },
        }
    }
}

/// Half-open row range `[start, end)` inside a manifest table.
#[derive(Debug, Clone, Copy, PartialEq, Eq, Hash)]
pub struct TableRegion(pub u64, pub u64);

/// Flags of a manifest reference; none are defined yet.
#[derive(Debug, Clone, Copy, PartialEq, Eq, Hash)]
pub struct Flags();

/// Coordinate-space hint of a manifest reference, passed through as is.
#[derive(Debug, PartialEq, Eq, Hash)]
pub struct ManifestExtents(pub Vec<u64>);

/// Names a row range inside a manifest table.
#[derive(Debug, PartialEq, Eq, Hash)]
pub struct ManifestRef {
    pub object_id: ObjectId,
    pub location: TableRegion,
    pub flags: Flags,
    pub extents: ManifestExtents,
}

pub ghost struct ManifestRefView {
    pub object_id: ObjectId,
    pub location: TableRegion,
    pub extents: Seq<u64>,
}

impl View for ManifestRef {
    type V = ManifestRefView;

    open spec fn view(&self) -> ManifestRefView {
        ManifestRefView {
            object_id: self.object_id,
            location: self.location,
            extents: self.extents.0@,
        }
    }
}

impl Clone for ManifestRef {
    fn clone(&self) -> (r: Self)
        ensures
            r@ == self@,
    {
        ManifestRef {
            object_id: self.object_id,
            location: self.location,
            flags: self.flags,
            extents: ManifestExtents(copy_u64s(&self.extents.0)),
        }
    }
}

/// Views of a list of manifest references.
pub open spec fn refs_view(v: Seq<ManifestRef>) -> Seq<ManifestRefView> {
    v.map_values(|m: ManifestRef| m@)
}

/// Copies a list of manifest references.
pub fn clone_refs(v: &Vec<ManifestRef>) -> (r: Vec<ManifestRef>)
    ensures
        refs_view(r@) == refs_view(v@),
{
    let mut r: Vec<ManifestRef> = Vec::new();
    let mut i: usize = 0;
    while i < v.len()
        invariant
            i <= v@.len(),
            r@.len() == i,
            forall|j: int| 0 <= j < i ==> r@[j]@ == v@[j]@,
        decreases v@.len() - i,
    {
        r.push(v[i].clone());
        i = i + 1;
    }
    assert(refs_view(r@) =~= refs_view(v@));
    r
}

/// Attributes as stored in a node.
#[derive(Debug, PartialEq, Eq, Hash)]
pub enum UserAttributesStructure {
    Inline(UserAttributes),
}

impl Clone for UserAttributesStructure {
    fn clone(&self) -> (r: Self)
        ensures
            r == *self,
    {
        match self {
            UserAttributesStructure::Inline(s) => UserAttributesStructure::Inline(s.clone()),
        }
    }
}

/// Copies optional stored attributes.
pub fn clone_opt_atts(o: &Option<UserAttributesStructure>) -> (r: Option<UserAttributesStructure>)
    ensures
        r == *o,
{
    match o {
        Some(a) => Some(a.clone()),
        None => None,
    }
}

/// What a node is: a group, or an array with its metadata and manifests.
#[derive(Debug, PartialEq, Eq, Hash)]
pub enum NodeData {
    Array(ZarrArrayMetadata, Vec<ManifestRef>),
    Group,
}

pub ghost enum NodeDataView {
    Array(MetadataView, Seq<ManifestRefView>),
    Group,
}

impl View for NodeData {
    type V = NodeDataView;

    open spec fn view(&self) -> NodeDataView {
        match self {
            NodeData::Array(m, refs) => NodeDataView::Array(m@, refs_view(refs@)),
            NodeData::Group => NodeDataView::Group,
        }
    }
}

impl Clone for NodeData {
    fn clone(&self) -> (r: Self)
        ensures
            r@ == self@,
    {
        match self {
            NodeData::Array(m, refs) => NodeData::Array(m.clone(), clone_refs(refs)),
            NodeData::Group => NodeData::Group,
        }
    }
}

/// One node of the tree: a group or an array.
#[derive(Debug, PartialEq, Eq, Hash)]
pub struct NodeStructure {
    pub id: NodeId,
    pub path: Path,
    pub user_attributes: Option<UserAttributesStructure>,
    pub node_data: NodeData,
}

pub ghost struct NodeView {
    pub id: NodeId,
    pub path: Seq<char>,
    pub user_attributes: Option<UserAttributesStructure>,
    pub node_data: NodeDataView,
}

impl View for NodeStructure {
    type V = NodeView;

    open spec fn view(&self) -> NodeView {
        NodeView {
            id: self.id,
            path: self.path@,
            user_attributes: self.user_attributes,
            node_data: self.node_data@,
        }
    }
}

impl Clone for NodeStructure {
    fn clone(&self) -> (r: Self)
        ensures
            r@ == self@,
    {
        NodeStructure {
            id: self.id,
            path: self.path.clone(),
            user_attributes: clone_opt_atts(&self.user_attributes),
            node_data: self.node_data.clone(),
        }
    }
}

/// View of an optional node.
pub open spec fn opt_node_view(n: Option<NodeStructure>) -> Option<NodeView> {
    match n {
        Some(x) => Some(x@),
        None => None,
    }
}

} // verus!
