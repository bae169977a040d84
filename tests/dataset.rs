use std::collections::HashSet;

use icechunk::change_set::ChangeSet;
use icechunk::dataset::Dataset;
use icechunk::storage::Storage;
use icechunk::tables::{mk_manifests_table, mk_structure_table};
use icechunk::types::{
    ArrayIndices, ChunkInfo, ChunkKeyEncoding, ChunkPayload, ChunkRef, ChunkShape, Codecs,
    DataType, FillValue, Flags, ManifestExtents, ManifestRef, NodeData, NodeStructure,
    StorageTransformers, TableRegion, UserAttributesStructure, ZarrArrayMetadata,
};

#[test]
fn test_dataset_with_updates() {
    let mut storage = Storage::new();

    let array_id = 2;
    let chunk1 = ChunkInfo {
        node: array_id,
        coord: ArrayIndices(vec![0, 0, 0]),
        payload: ChunkPayload::Ref(ChunkRef { id: storage.new_object_id(), offset: 0, length: 4 }),
    };

    let chunk2 = ChunkInfo {
        node: array_id,
        coord: ArrayIndices(vec![0, 0, 1]),
        payload: ChunkPayload::Inline(vec![0, 0, 0, 42]),
    };

    let manifest = mk_manifests_table(vec![chunk1.clone(), chunk2.clone()]);
    let manifest_id = storage.new_object_id();
    storage.write_manifests(manifest_id, manifest).unwrap();

    let zarr_meta1 = ZarrArrayMetadata {
        shape: vec![2, 2, 2],
        data_type: DataType::Int32,
        chunk_shape: ChunkShape(vec![1, 1, 1]),
        chunk_key_encoding: ChunkKeyEncoding::Slash,
        fill_value: FillValue::Int32(0),
        codecs: Codecs("codec".to_string()),
        storage_transformers: Some(StorageTransformers("tranformers".to_string())),
        dimension_names: Some(vec![
            Some("x".to_string()),
            Some("y".to_string()),
            Some("t".to_string()),
        ]),
    };
    let manifest_ref = ManifestRef {
        object_id: manifest_id,
        location: TableRegion(0, 2),
        flags: Flags(),
        extents: ManifestExtents(vec![]),
    };
    let array1_path: String = "/array1".to_string();
    let nodes = vec![
        NodeStructure {
            path: "/".into(),
            id: 1,
            user_attributes: None,
            node_data: NodeData::Group,
        },
        NodeStructure {
            path: array1_path.clone(),
            id: array_id,
            user_attributes: Some(UserAttributesStructure::Inline("{foo:1}".to_string())),
            node_data: NodeData::Array(zarr_meta1.clone(), vec![manifest_ref]),
        },
    ];

    let structure = mk_structure_table(nodes.clone());
    let structure_id = storage.new_object_id();
    storage.write_structure(structure_id, structure).unwrap();
    let mut ds = Dataset::update(storage, structure_id);

    // retrieve the old array node
    let node = ds.get_node(&array1_path);
    assert_eq!(nodes.get(1), node.as_ref());

    // add a new array and retrieve its node
    ds.add_group("/group".to_string()).unwrap();

    let zarr_meta2 = ZarrArrayMetadata {
        shape: vec![3],
        data_type: DataType::Int32,
        chunk_shape: ChunkShape(vec![2]),
        chunk_key_encoding: ChunkKeyEncoding::Slash,
        fill_value: FillValue::Int32(0),
        codecs: Codecs("codec".to_string()),
        storage_transformers: Some(StorageTransformers("tranformers".to_string())),
        dimension_names: Some(vec![Some("t".to_string())]),
    };

    let new_array_path: String = "/group/array2".to_string();
    ds.add_array(new_array_path.clone(), zarr_meta2.clone()).unwrap();

    let node = ds.get_node(&new_array_path);
    assert_eq!(
        node,
        Some(NodeStructure {
            path: new_array_path.clone(),
            id: 4,
            user_attributes: None,
            node_data: NodeData::Array(zarr_meta2.clone(), vec![]),
        })
    );

    // set user attributes for the new array and retrieve them
    ds.set_user_attributes(new_array_path.clone(), Some("{n:42}".to_string())).unwrap();
    let node = ds.get_node(&new_array_path);
    assert_eq!(
        node,
        Some(NodeStructure {
            path: "/group/array2".into(),
            id: 4,
            user_attributes: Some(UserAttributesStructure::Inline("{n:42}".to_string())),
            node_data: NodeData::Array(zarr_meta2.clone(), vec![]),
        })
    );

    // set a chunk for the new array and retrieve it
    ds.set_chunk(
        new_array_path.clone(),
        ArrayIndices(vec![0]),
        Some(ChunkPayload::Inline(vec![0, 0, 0, 7])),
    )
    .unwrap();

    let chunk = ds.get_chunk_ref(&new_array_path, &ArrayIndices(vec![0]));
    assert_eq!(chunk, Some(ChunkPayload::Inline(vec![0, 0, 0, 7])));

    // retrieve a non initialized chunk of the new array
    let non_chunk = ds.get_chunk_ref(&new_array_path, &ArrayIndices(vec![1]));
    assert_eq!(non_chunk, None);

    // update old array use attributes and check them
    ds.set_user_attributes(array1_path.clone(), Some("{updated: true}".to_string())).unwrap();
    let node = ds.get_node(&array1_path).unwrap();
    assert_eq!(
        node.user_attributes,
        Some(UserAttributesStructure::Inline("{updated: true}".to_string()))
    );

    // update old array zarr metadata and check it
    let new_zarr_meta1 = ZarrArrayMetadata { shape: vec![2, 2, 3], ..zarr_meta1 };
    ds.update_array(array1_path.clone(), new_zarr_meta1).unwrap();
    let node = ds.get_node(&array1_path);
    if let Some(NodeStructure {
        node_data: NodeData::Array(ZarrArrayMetadata { shape, .. }, _),
        ..
    }) = node
    {
        assert_eq!(shape, vec![2, 2, 3]);
    } else {
        panic!("Failed to update zarr metadata");
    }

    // set old array chunk and check them
    ds.set_chunk(
        array1_path.clone(),
        ArrayIndices(vec![0, 0, 0]),
        Some(ChunkPayload::Inline(vec![0, 0, 0, 99])),
    )
    .unwrap();

    let chunk = ds.get_chunk_ref(&array1_path, &ArrayIndices(vec![0, 0, 0]));
    assert_eq!(chunk, Some(ChunkPayload::Inline(vec![0, 0, 0, 99])));
}

#[test]
fn test_new_arrays_chunk_iterator() {
    let mut change_set = ChangeSet::default();
    assert_eq!(None, change_set.new_arrays_chunk_iterator().into_iter().next());

    let zarr_meta = ZarrArrayMetadata {
        shape: vec![2, 2, 2],
        data_type: DataType::Int32,
        chunk_shape: ChunkShape(vec![1, 1, 1]),
        chunk_key_encoding: ChunkKeyEncoding::Slash,
        fill_value: FillValue::Int32(0),
        codecs: Codecs("codec".to_string()),
        storage_transformers: Some(StorageTransformers("tranformers".to_string())),
        dimension_names: Some(vec![
            Some("x".to_string()),
            Some("y".to_string()),
            Some("t".to_string()),
        ]),
    };

    change_set.add_array("foo/bar".into(), 1, zarr_meta.clone());
    change_set.add_array("foo/baz".into(), 2, zarr_meta);
    assert_eq!(None, change_set.new_arrays_chunk_iterator().into_iter().next());

    change_set.set_chunk("foo/bar".into(), ArrayIndices(vec![0, 1]), None);
    assert_eq!(None, change_set.new_arrays_chunk_iterator().into_iter().next());

    change_set.set_chunk(
        "foo/bar".into(),
        ArrayIndices(vec![1, 0]),
        Some(ChunkPayload::Inline(b"bar1".to_vec())),
    );
    change_set.set_chunk(
        "foo/bar".into(),
        ArrayIndices(vec![1, 1]),
        Some(ChunkPayload::Inline(b"bar2".to_vec())),
    );
    change_set.set_chunk(
        "foo/baz".into(),
        ArrayIndices(vec![0]),
        Some(ChunkPayload::Inline(b"baz1".to_vec())),
    );
    change_set.set_chunk(
        "foo/baz".into(),
        ArrayIndices(vec![1]),
        Some(ChunkPayload::Inline(b"baz2".to_vec())),
    );

    {
        let all_chunks: HashSet<_> = change_set.new_arrays_chunk_iterator().into_iter().collect();
        let expected_chunks: HashSet<_> = [
            ChunkInfo {
                node: 1,
                coord: ArrayIndices(vec![1, 0]),
                payload: ChunkPayload::Inline(b"bar1".to_vec()),
            },
            ChunkInfo {
                node: 1,
                coord: ArrayIndices(vec![1, 1]),
                payload: ChunkPayload::Inline(b"bar2".to_vec()),
            },
            ChunkInfo {
                node: 2,
                coord: ArrayIndices(vec![0]),
                payload: ChunkPayload::Inline(b"baz1".to_vec()),
            },
            ChunkInfo {
                node: 2,
                coord: ArrayIndices(vec![1]),
                payload: ChunkPayload::Inline(b"baz2".to_vec()),
            },
        ]
        .into();
        assert_eq!(all_chunks, expected_chunks);
    }
}

#[test]
fn test_dataset_with_updates_and_writes() {
    let storage = Storage::new();
    let mut ds = Dataset::create(storage);

    // add a new array and retrieve its node
    ds.add_group("/".into()).unwrap();
    let structure_id = ds.flush().unwrap();

    assert_eq!(Some(structure_id), ds.structure_id);
    assert_eq!(
        ds.get_node(&"/".into()),
        Some(NodeStructure {
            id: 1,
            path: "/".into(),
            user_attributes: None,
            node_data: NodeData::Group
        })
    );
    ds.add_group("/group".into()).unwrap();
    let _structure_id = ds.flush().unwrap();
    assert_eq!(
        ds.get_node(&"/".into()),
        Some(NodeStructure {
            id: 1,
            path: "/".into(),
            user_attributes: None,
            node_data: NodeData::Group
        })
    );
    assert_eq!(
        ds.get_node(&"/group".into()),
        Some(NodeStructure {
            id: 2,
            path: "/group".into(),
            user_attributes: None,
            node_data: NodeData::Group
        })
    );
    let zarr_meta = ZarrArrayMetadata {
        shape: vec![1, 1, 2],
        data_type: DataType::Int32,
        chunk_shape: ChunkShape(vec![2]),
        chunk_key_encoding: ChunkKeyEncoding::Slash,
        fill_value: FillValue::Int32(0),
        codecs: Codecs("codec".to_string()),
        storage_transformers: Some(StorageTransformers("tranformers".to_string())),
        dimension_names: Some(vec![Some("t".to_string())]),
    };

    let new_array_path: String = "/group/array1".to_string();
    ds.add_array(new_array_path.clone(), zarr_meta.clone()).unwrap();

    // we set a chunk in a new array
    ds.set_chunk(
        new_array_path.clone(),
        ArrayIndices(vec![0, 0, 0]),
        Some(ChunkPayload::Inline(b"hello".to_vec())),
    )
    .unwrap();

    let _structure_id = ds.flush().unwrap();
    assert_eq!(
        ds.get_node(&"/".into()),
        Some(NodeStructure {
            id: 1,
            path: "/".into(),
            user_attributes: None,
            node_data: NodeData::Group
        })
    );
    assert_eq!(
        ds.get_node(&"/group".into()),
        Some(NodeStructure {
            id: 2,
            path: "/group".into(),
            user_attributes: None,
            node_data: NodeData::Group
        })
    );
    assert!(matches!(
        ds.get_node(&new_array_path),
        Some(NodeStructure {
            id: 3,
            path,
            user_attributes: None,
            node_data: NodeData::Array(meta, manifests)
        }) if path == new_array_path && meta == zarr_meta.clone() && manifests.len() == 1
    ));
    assert_eq!(
        ds.get_chunk_ref(&new_array_path, &ArrayIndices(vec![0, 0, 0])),
        Some(ChunkPayload::Inline(b"hello".to_vec()))
    );

    // we modify a chunk in an existing array
    ds.set_chunk(
        new_array_path.clone(),
        ArrayIndices(vec![0, 0, 0]),
        Some(ChunkPayload::Inline(b"bye".to_vec())),
    )
    .unwrap();

    // we add a new chunk in an existing array
    ds.set_chunk(
        new_array_path.clone(),
        ArrayIndices(vec![0, 0, 1]),
        Some(ChunkPayload::Inline(b"new chunk".to_vec())),
    )
    .unwrap();

    let previous_structure_id = ds.flush().unwrap();
    assert_eq!(
        ds.get_chunk_ref(&new_array_path, &ArrayIndices(vec![0, 0, 0])),
        Some(ChunkPayload::Inline(b"bye".to_vec()))
    );
    assert_eq!(
        ds.get_chunk_ref(&new_array_path, &ArrayIndices(vec![0, 0, 1])),
        Some(ChunkPayload::Inline(b"new chunk".to_vec()))
    );

    // we delete a chunk
    ds.set_chunk(new_array_path.clone(), ArrayIndices(vec![0, 0, 1]), None).unwrap();

    let new_meta = ZarrArrayMetadata { shape: vec![1, 1, 1], ..zarr_meta };
    // we change zarr metadata
    ds.update_array(new_array_path.clone(), new_meta.clone()).unwrap();

    // we change user attributes metadata
    ds.set_user_attributes(new_array_path.clone(), Some("{foo:42}".to_string())).unwrap();

    let structure_id = ds.flush().unwrap();
    let ds = Dataset::update(ds.storage, structure_id);

    assert_eq!(
        ds.get_chunk_ref(&new_array_path, &ArrayIndices(vec![0, 0, 0])),
        Some(ChunkPayload::Inline(b"bye".to_vec()))
    );
    assert_eq!(ds.get_chunk_ref(&new_array_path, &ArrayIndices(vec![0, 0, 1])), None);
    assert!(matches!(
        ds.get_node(&new_array_path),
        Some(NodeStructure {
            id: 3,
            path,
            user_attributes: Some(atts),
            node_data: NodeData::Array(meta, manifests)
        }) if path == new_array_path && meta == new_meta.clone() && manifests.len() == 1 && atts == UserAttributesStructure::Inline("{foo:42}".to_string())
    ));

    //test the previous version is still alive
    let ds = Dataset::update(ds.storage, previous_structure_id);
    assert_eq!(
        ds.get_chunk_ref(&new_array_path, &ArrayIndices(vec![0, 0, 0])),
        Some(ChunkPayload::Inline(b"bye".to_vec()))
    );
    assert_eq!(
        ds.get_chunk_ref(&new_array_path, &ArrayIndices(vec![0, 0, 1])),
        Some(ChunkPayload::Inline(b"new chunk".to_vec()))
    );
}
