use icechunk::dataset::{AddNodeError, Dataset, FlushError, UpdateNodeError};
use icechunk::region_tracker::TableRegionTracker;
use icechunk::storage::{Storage, StorageError};
use icechunk::tables::{mk_manifests_table, mk_structure_table};
use icechunk::types::{
    ArrayIndices, ChunkInfo, ChunkKeyEncoding, ChunkPayload, ChunkShape, Codecs, DataType,
    FillValue, Flags, ManifestExtents, ManifestRef, NodeData, NodeStructure, ObjectId,
    TableRegion, UserAttributesStructure, ZarrArrayMetadata,
};

fn meta(shape: Vec<u64>) -> ZarrArrayMetadata {
    ZarrArrayMetadata {
        shape,
        data_type: DataType::UInt8,
        chunk_shape: ChunkShape(vec![1]),
        chunk_key_encoding: ChunkKeyEncoding::Dot,
        fill_value: FillValue::UInt8(0),
        codecs: Codecs("raw".to_string()),
        storage_transformers: None,
        dimension_names: None,
    }
}

fn inline(b: &[u8]) -> ChunkPayload {
    ChunkPayload::Inline(b.to_vec())
}

/// A base snapshot with a root group (id 1) and `/a` (id 5) holding two chunks.
fn seeded() -> (Storage, ObjectId) {
    let mut storage = Storage::new();
    let manifest = mk_manifests_table(vec![
        ChunkInfo { node: 5, coord: ArrayIndices(vec![0]), payload: inline(b"zero") },
        ChunkInfo { node: 5, coord: ArrayIndices(vec![1]), payload: inline(b"one") },
    ]);
    let manifest_id = storage.new_object_id();
    storage.write_manifests(manifest_id, manifest).unwrap();
    let nodes = vec![
        NodeStructure {
            id: 1,
            path: "/".to_string(),
            user_attributes: None,
            node_data: NodeData::Group,
        },
        NodeStructure {
            id: 5,
            path: "/a".to_string(),
            user_attributes: Some(UserAttributesStructure::Inline("{k:1}".to_string())),
            node_data: NodeData::Array(
                meta(vec![2]),
                vec![ManifestRef {
                    object_id: manifest_id,
                    location: TableRegion(0, 2),
                    flags: Flags(),
                    extents: ManifestExtents(vec![]),
                }],
            ),
        },
    ];
    let structure_id = storage.new_object_id();
    storage.write_structure(structure_id, mk_structure_table(nodes)).unwrap();
    (storage, structure_id)
}

#[test]
fn add_group_twice_fails() {
    let mut ds = Dataset::create(Storage::new());
    assert_eq!(ds.add_group("/g".to_string()), Ok(()));
    let node = ds.get_node(&"/g".to_string()).unwrap();
    assert_eq!(node.id, 1);
    assert_eq!(node.node_data, NodeData::Group);
    assert_eq!(
        ds.add_group("/g".to_string()),
        Err(AddNodeError::AlreadyExists("/g".to_string()))
    );
    assert_eq!(
        ds.add_array("/g".to_string(), meta(vec![1])),
        Err(AddNodeError::AlreadyExists("/g".to_string()))
    );
}

#[test]
fn add_array_shows_metadata_and_no_manifests() {
    let (storage, sid) = seeded();
    let mut ds = Dataset::update(storage, sid);
    ds.add_array("/b".to_string(), meta(vec![7, 7])).unwrap();
    assert_eq!(
        ds.get_node(&"/b".to_string()),
        Some(NodeStructure {
            id: 6,
            path: "/b".to_string(),
            user_attributes: None,
            node_data: NodeData::Array(meta(vec![7, 7]), vec![]),
        })
    );
    assert_eq!(
        ds.add_array("/a".to_string(), meta(vec![1])),
        Err(AddNodeError::AlreadyExists("/a".to_string()))
    );
}

#[test]
fn deleting_a_base_chunk_hides_it() {
    let (storage, sid) = seeded();
    let mut ds = Dataset::update(storage, sid);
    assert_eq!(ds.get_chunk_ref(&"/a".to_string(), &ArrayIndices(vec![1])), Some(inline(b"one")));
    ds.set_chunk("/a".to_string(), ArrayIndices(vec![1]), None).unwrap();
    assert_eq!(ds.get_chunk_ref(&"/a".to_string(), &ArrayIndices(vec![1])), None);
    ds.set_chunk("/a".to_string(), ArrayIndices(vec![1]), Some(inline(b"uno"))).unwrap();
    assert_eq!(ds.get_chunk_ref(&"/a".to_string(), &ArrayIndices(vec![1])), Some(inline(b"uno")));
    assert_eq!(ds.get_chunk_ref(&"/a".to_string(), &ArrayIndices(vec![0])), Some(inline(b"zero")));
    assert_eq!(ds.get_chunk_ref(&"/".to_string(), &ArrayIndices(vec![0])), None);
    assert_eq!(ds.get_chunk_ref(&"/none".to_string(), &ArrayIndices(vec![0])), None);
}

#[test]
fn update_array_keeps_id_and_manifests() {
    let (storage, sid) = seeded();
    let mut ds = Dataset::update(storage, sid);
    let before = ds.get_node(&"/a".to_string()).unwrap();
    ds.update_array("/a".to_string(), meta(vec![9])).unwrap();
    let after = ds.get_node(&"/a".to_string()).unwrap();
    assert_eq!(after.id, before.id);
    match (before.node_data, after.node_data) {
        (NodeData::Array(_, m1), NodeData::Array(m2, refs2)) => {
            assert_eq!(m1, refs2);
            assert_eq!(m2, meta(vec![9]));
        }
        _ => panic!("expected arrays"),
    }
}

#[test]
fn user_attributes_set_and_delete() {
    let (storage, sid) = seeded();
    let mut ds = Dataset::update(storage, sid);
    ds.set_user_attributes("/a".to_string(), None).unwrap();
    assert_eq!(ds.get_node(&"/a".to_string()).unwrap().user_attributes, None);
    ds.set_user_attributes("/a".to_string(), Some("{z:0}".to_string())).unwrap();
    assert_eq!(
        ds.get_node(&"/a".to_string()).unwrap().user_attributes,
        Some(UserAttributesStructure::Inline("{z:0}".to_string()))
    );
}

#[test]
fn mutation_errors() {
    let (storage, sid) = seeded();
    let mut ds = Dataset::update(storage, sid);
    let missing = "/missing".to_string();
    assert_eq!(
        ds.update_array(missing.clone(), meta(vec![1])),
        Err(UpdateNodeError::NotFound(missing.clone()))
    );
    assert_eq!(
        ds.set_user_attributes(missing.clone(), None),
        Err(UpdateNodeError::NotFound(missing.clone()))
    );
    assert_eq!(
        ds.set_chunk(missing.clone(), ArrayIndices(vec![0]), None),
        Err(UpdateNodeError::NotFound(missing.clone()))
    );
    assert_eq!(
        ds.update_array("/".to_string(), meta(vec![1])),
        Err(UpdateNodeError::NotAnArray("/".to_string()))
    );
    assert_eq!(
        ds.set_chunk("/".to_string(), ArrayIndices(vec![0]), None),
        Err(UpdateNodeError::NotAnArray("/".to_string()))
    );
}

#[test]
fn flush_of_missing_base_fails_and_keeps_session() {
    let mut storage = Storage::new();
    let unknown = storage.new_object_id();
    let mut ds = Dataset::update(storage, unknown);
    assert_eq!(ds.get_node(&"/".to_string()), None);
    assert_eq!(
        ds.flush(),
        Err(FlushError::StorageError(StorageError::NotFound(unknown)))
    );
    assert_eq!(ds.structure_id, Some(unknown));
    assert_eq!(ds.storage.fetch_structure(&unknown).err(), Some(StorageError::NotFound(unknown)));
}

#[test]
fn node_ids_increase_past_base() {
    let (storage, sid) = seeded();
    let mut ds = Dataset::update(storage, sid);
    let a = ds.reserve_node_id();
    let b = ds.reserve_node_id();
    assert_eq!(a, 6);
    assert_eq!(b, 7);
    let mut fresh = Dataset::create(Storage::new());
    assert_eq!(fresh.reserve_node_id(), 1);
}

#[test]
fn flush_round_trip_and_regions() {
    let (storage, sid) = seeded();
    let mut ds = Dataset::update(storage, sid);
    ds.add_array("/b".to_string(), meta(vec![3])).unwrap();
    ds.set_chunk("/b".to_string(), ArrayIndices(vec![2]), Some(inline(b"b2"))).unwrap();
    ds.set_chunk("/a".to_string(), ArrayIndices(vec![0]), Some(inline(b"new zero"))).unwrap();
    ds.set_chunk("/a".to_string(), ArrayIndices(vec![4]), Some(inline(b"four"))).unwrap();
    let before_a = ds.get_node(&"/a".to_string()).unwrap();
    let new_sid = ds.flush().unwrap();
    let reopened = Dataset::update(ds.storage, new_sid);

    for (path, coord, expected) in [
        ("/a", 0, Some(inline(b"new zero"))),
        ("/a", 1, Some(inline(b"one"))),
        ("/a", 4, Some(inline(b"four"))),
        ("/a", 3, None),
        ("/b", 2, Some(inline(b"b2"))),
        ("/b", 0, None),
    ] {
        assert_eq!(
            reopened.get_chunk_ref(&path.to_string(), &ArrayIndices(vec![coord])),
            expected
        );
    }

    let after_a = reopened.get_node(&"/a".to_string()).unwrap();
    assert_eq!(after_a.id, before_a.id);
    assert_eq!(after_a.user_attributes, before_a.user_attributes);

    // every array's rows occupy exactly the region its reference names
    let structure = reopened.storage.fetch_structure(&new_sid).unwrap();
    let mut ids = vec![];
    for node in structure.nodes.iter() {
        ids.push(node.id);
        if let NodeData::Array(_, refs) = &node.node_data {
            assert_eq!(refs.len(), 1);
            let table = reopened.storage.fetch_manifests(&refs[0].object_id).unwrap();
            let TableRegion(start, end) = refs[0].location;
            for (row, chunk) in table.chunks.iter().enumerate() {
                let inside = (row as u64) >= start && (row as u64) < end;
                assert_eq!(inside, chunk.node == node.id);
            }
        }
    }
    assert_eq!(ids, vec![1, 5, 6]);
}

#[test]
fn flush_without_changes_keeps_contents() {
    let (storage, sid) = seeded();
    let mut ds = Dataset::update(storage, sid);
    let root = ds.get_node(&"/".to_string());
    let new_sid = ds.flush().unwrap();
    assert_ne!(new_sid, sid);
    let reopened = Dataset::update(ds.storage, new_sid);
    assert_eq!(reopened.get_node(&"/".to_string()), root);
    assert_eq!(
        reopened.get_chunk_ref(&"/a".to_string(), &ArrayIndices(vec![0])),
        Some(inline(b"zero"))
    );
    assert_eq!(
        reopened.get_chunk_ref(&"/a".to_string(), &ArrayIndices(vec![1])),
        Some(inline(b"one"))
    );
    // the previous snapshot stays readable
    let old = Dataset::update(reopened.storage, sid);
    assert_eq!(old.get_chunk_ref(&"/a".to_string(), &ArrayIndices(vec![1])), Some(inline(b"one")));
}

#[test]
fn array_without_rows_gets_no_manifest() {
    let mut ds = Dataset::create(Storage::new());
    ds.add_array("/e".to_string(), meta(vec![1])).unwrap();
    ds.set_chunk("/e".to_string(), ArrayIndices(vec![0]), None).unwrap();
    let sid = ds.flush().unwrap();
    let reopened = Dataset::update(ds.storage, sid);
    assert_eq!(
        reopened.get_node(&"/e".to_string()),
        Some(NodeStructure {
            id: 1,
            path: "/e".to_string(),
            user_attributes: None,
            node_data: NodeData::Array(meta(vec![1]), vec![]),
        })
    );
}

#[test]
fn tracker_regions() {
    let mut t = TableRegionTracker::new();
    for node in [3u32, 3, 8, 8, 8, 3] {
        t.update(&ChunkInfo { node, coord: ArrayIndices(vec![]), payload: inline(b"") });
    }
    assert_eq!(t.region(3), Some(TableRegion(0, 6)));
    assert_eq!(t.region(8), Some(TableRegion(2, 5)));
    assert_eq!(t.region(4), None);
    assert_eq!(t.next, 6);
}

#[test]
fn manifest_lookup_is_limited_to_region() {
    let table = mk_manifests_table(vec![
        ChunkInfo { node: 1, coord: ArrayIndices(vec![0]), payload: inline(b"x") },
        ChunkInfo { node: 2, coord: ArrayIndices(vec![0]), payload: inline(b"y") },
    ]);
    let in_first = table.get_chunk_info(&ArrayIndices(vec![0]), &TableRegion(0, 1)).unwrap();
    assert_eq!(in_first.payload, inline(b"x"));
    let in_second = table.get_chunk_info(&ArrayIndices(vec![0]), &TableRegion(1, 9)).unwrap();
    assert_eq!(in_second.payload, inline(b"y"));
    assert_eq!(table.get_chunk_info(&ArrayIndices(vec![1]), &TableRegion(0, 2)), None);
    assert_eq!(table.get_chunk_info(&ArrayIndices(vec![0]), &TableRegion(2, 2)), None);
}

#[test]
fn clones_copy_contents() {
    let m = ZarrArrayMetadata {
        dimension_names: Some(vec![Some("x".to_string()), None]),
        ..meta(vec![4, 5])
    };
    assert_eq!(m.clone(), m);
    let p = ChunkPayload::Ref(icechunk::types::ChunkRef { id: ObjectId(9), offset: 3, length: 4 });
    assert_eq!(p.clone(), p);
    assert!(ArrayIndices(vec![1, 2]).same_as(&ArrayIndices(vec![1, 2])));
    assert!(!ArrayIndices(vec![1, 2]).same_as(&ArrayIndices(vec![1])));
}

#[test]
fn node_ids_keep_increasing_across_flush() {
    let mut ds = Dataset::create(Storage::new());
    assert_eq!(ds.reserve_node_id(), 1);
    ds.flush().unwrap();
    assert_eq!(ds.last_node_id, Some(1));
    assert_eq!(ds.reserve_node_id(), 2);
    ds.add_group("/x".to_string()).unwrap();
    assert_eq!(ds.get_node(&"/x".to_string()).unwrap().id, 3);
}

#[test]
fn flush_reports_missing_manifest() {
    let mut storage = Storage::new();
    let missing = storage.new_object_id();
    let nodes = vec![NodeStructure {
        id: 1,
        path: "/m".to_string(),
        user_attributes: None,
        node_data: NodeData::Array(
            meta(vec![1]),
            vec![ManifestRef {
                object_id: missing,
                location: TableRegion(0, 1),
                flags: Flags(),
                extents: ManifestExtents(vec![]),
            }],
        ),
    }];
    let sid = storage.new_object_id();
    storage.write_structure(sid, mk_structure_table(nodes)).unwrap();
    let mut ds = Dataset::update(storage, sid);
    assert_eq!(ds.flush(), Err(FlushError::StorageError(StorageError::NotFound(missing))));
    assert_eq!(ds.structure_id, Some(sid));
    assert_eq!(ds.get_chunk_ref(&"/m".to_string(), &ArrayIndices(vec![0])), None);
}
