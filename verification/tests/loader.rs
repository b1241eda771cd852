use code_notes::loader::util::find_model_meshes;
use code_notes::model::loader::loader::{GltfData, ModelAnimations};
use code_notes::model::model::GMesh;
use std::rc::Rc;
use code_notes::model::loader::util::{
    count_model_animations, decode_gltf_data_uri, DataFilesError, get_buffer_offsets, get_data_files, get_model_data,
    get_root_nodes, DataUriError, ModelJointData, ModelMeshData, NodeVisit, SceneNode,
};

#[test]
fn decodes_base64_buffer() {
    let bytes = decode_gltf_data_uri("data:application/gltf-buffer;base64,aGVsbG8=").ok().unwrap();
    assert_eq!(bytes, b"hello".to_vec());
}

#[test]
fn encoding_is_trimmed() {
    let bytes = decode_gltf_data_uri("data:application/gltf-buffer; base64 ,AAEC").ok().unwrap();
    assert_eq!(bytes, vec![0u8, 1, 2]);
}

#[test]
fn missing_prefix_is_refused() {
    assert!(matches!(
        decode_gltf_data_uri("data:application/octet-stream;base64,AAEC"),
        Err(DataUriError::MissingPrefix)
    ));
}

#[test]
fn missing_comma_is_refused() {
    assert!(matches!(
        decode_gltf_data_uri("data:application/gltf-buffer;base64"),
        Err(DataUriError::NoComma)
    ));
}

#[test]
fn other_encoding_is_refused() {
    match decode_gltf_data_uri("data:application/gltf-buffer;hex,00ff") {
        Err(DataUriError::UnsupportedEncoding(name)) => assert_eq!(name, "hex"),
        _ => panic!("expected an unsupported encoding"),
    }
}

#[test]
fn invalid_base64_is_refused() {
    assert!(matches!(
        decode_gltf_data_uri("data:application/gltf-buffer;base64,!!!!"),
        Err(DataUriError::InvalidBase64)
    ));
}

#[test]
fn buffer_offsets_are_running_sums() {
    assert_eq!(get_buffer_offsets(&vec![10, 20, 5]), vec![0, 10, 30]);
    assert_eq!(get_buffer_offsets(&vec![]), Vec::<u64>::new());
}

#[test]
fn root_nodes_have_meshes_or_children() {
    let nodes = vec![
        SceneNode { index: 4, has_mesh: true, child_count: 0 },
        SceneNode { index: 5, has_mesh: false, child_count: 0 },
        SceneNode { index: 6, has_mesh: false, child_count: 2 },
    ];
    assert_eq!(get_root_nodes(&nodes), vec![4, 6]);
}

#[test]
fn mesh_nodes_group_transforms_by_mesh() {
    let mut data = ModelMeshData::<u32>::default();
    data.add_mesh_node(10, 3, 100);
    data.add_mesh_node(11, 5, 200);
    data.add_mesh_node(12, 3, 300);
    assert_eq!(data.mesh_ids, vec![3, 5]);
    assert_eq!(data.mesh_instances, vec![2, 1]);
    let groups: Vec<Vec<u32>> = data
        .mesh_transform_buckets
        .iter()
        .map(|b| b.iter().map(|t| t.transform_matrix).collect())
        .collect();
    assert_eq!(groups, vec![vec![100, 300], vec![200]]);
    assert_eq!(data.node_to_lt_index_map[&10], 0);
    // a new mesh goes after every group met so far
    assert_eq!(data.node_to_lt_index_map[&11], 1);
    // a second instance of the first mesh: after the groups up to its own
    assert_eq!(data.node_to_lt_index_map[&12], 1);
    let mut flat = Vec::new();
    data.append_local_transforms(&mut flat);
    let flat: Vec<u32> = flat.iter().map(|t| t.transform_matrix).collect();
    assert_eq!(flat, vec![100, 300, 200]);
}

#[test]
fn joint_nodes_are_mapped_to_skin_positions() {
    let mut data = ModelJointData::<u8>::default();
    let joint_ids = vec![7, 9, 7];
    data.add_joint_node(9, &joint_ids, Some(3), 1);
    data.add_joint_node(4, &joint_ids, None, 1);
    data.add_joint_node(7, &joint_ids, Some(3), 1);
    assert_eq!(data.joint_ids, vec![9, 7]);
    assert_eq!(data.joint_pose_transforms, vec![1, 1]);
    assert_eq!(data.joint_to_joint_index_map[&9], 1);
    assert_eq!(data.joint_to_joint_index_map[&7], 0);
    assert_eq!(data.joint_to_joint_index_map.len(), 2);
}

#[test]
fn model_data_from_depth_first_walk() {
    let visits = vec![
        NodeVisit { node_index: 0, mesh_index: None, transform: 1u16 },
        NodeVisit { node_index: 1, mesh_index: Some(2), transform: 2u16 },
        NodeVisit { node_index: 2, mesh_index: None, transform: 3u16 },
        NodeVisit { node_index: 3, mesh_index: Some(2), transform: 4u16 },
    ];
    let joint_ids = vec![2];
    let data = get_model_data(&visits, &joint_ids, Some(1), 0u16);
    assert_eq!(data.mesh_data.mesh_ids, vec![2]);
    assert_eq!(data.mesh_data.mesh_instances, vec![2]);
    assert_eq!(data.mesh_data.node_to_lt_index_map[&1], 0);
    assert_eq!(data.mesh_data.node_to_lt_index_map[&3], 1);
    assert_eq!(data.joint_data.joint_ids, vec![2]);
    assert_eq!(data.joint_data.joint_to_joint_index_map[&2], 0);
}

#[test]
fn animations_count_from_first_driving_one() {
    let (animated, count, mesh_animations) = count_model_animations(&vec![false, true, false, true], true);
    assert!(animated);
    assert_eq!(count, 3);
    assert_eq!(mesh_animations, vec![0]);
    let (animated, count, mesh_animations) = count_model_animations(&vec![false, false], true);
    assert!(!animated);
    assert_eq!(count, 0);
    assert!(mesh_animations.is_empty());
    let (_, count, mesh_animations) = count_model_animations(&vec![true], false);
    assert_eq!(count, 1);
    assert!(mesh_animations.is_empty());
}

#[test]
fn data_files_are_first_gltf_and_only_bin() {
    let entries = vec![
        Some("png".to_string()),
        None,
        Some("bin".to_string()),
        Some("gltf".to_string()),
    ];
    let files = get_data_files(&entries).ok().unwrap();
    assert_eq!(files.gltf, 3);
    assert_eq!(files.bin, Some(2));
    assert_eq!(get_data_files(&vec![Some("bin".to_string())]).err(), Some(DataFilesError::NoGltfFile));
    let only_gltf = get_data_files(&vec![Some("gltf".to_string())]).ok().unwrap();
    assert_eq!(only_gltf.bin, None);
}

#[test]
fn second_binary_file_is_refused() {
    let entries = vec![Some("gltf".to_string()), Some("bin".to_string()), Some("bin".to_string())];
    assert_eq!(get_data_files(&entries).err(), Some(DataFilesError::MultipleBinaryFiles));
}

#[test]
fn added_model_follows_earlier_ones() {
    let mut data: GltfData<u8, u16, ()> = GltfData {
        models: Vec::new(),
        binary_data: vec![1, 2, 3],
        model_primitive_data: Vec::new(),
        local_transforms: Vec::new(),
        joint_transforms: vec![9],
        skin_ibms: (),
    };
    let visits = vec![
        NodeVisit { node_index: 0, mesh_index: Some(4), transform: 10u16 },
        NodeVisit { node_index: 1, mesh_index: None, transform: 11u16 },
        NodeVisit { node_index: 2, mesh_index: Some(4), transform: 12u16 },
    ];
    let joint_ids = vec![5, 1];
    let model_data = get_model_data(&visits, &joint_ids, Some(2), 7u16);
    let animations = ModelAnimations { animation_node: Rc::new(3u8), animation_count: 2, mesh_animations: vec![0] };
    data.add_model(8, model_data, vec![GMesh::new(4, 1).ok().unwrap()], Vec::new(), Some(animations));

    assert_eq!(data.models.len(), 1);
    let model = &data.models[0];
    assert_eq!(model.model_id, 8);
    assert_eq!(model.mesh_instances, vec![2]);
    let animation = model.animation_data.as_ref().unwrap();
    assert_eq!(animation.model_index, 0);
    assert_eq!(animation.animation_count, 2);
    assert!(animation.is_skeletal);
    assert_eq!(animation.joint_animation_data.joint_count, 1);
    assert_eq!(animation.joint_animation_data.joint_indices, vec![1]);
    assert_eq!(animation.mesh_animation_data.node_to_lt_index[&2], 1);
    let locals: Vec<u16> = data.local_transforms.iter().map(|t| t.transform_matrix).collect();
    assert_eq!(locals, vec![10, 12]);
    assert_eq!(data.joint_transforms, vec![9, 7]);
    assert_eq!(data.model_primitive_data.len(), 1);
    assert_eq!(data.model_primitive_data[0].model_id, 8);
}

#[test]
fn scene_builder_counts_mesh_instances() {
    let visits = vec![
        NodeVisit { node_index: 0, mesh_index: Some(2), transform: 1u8 },
        NodeVisit { node_index: 1, mesh_index: None, transform: 2u8 },
        NodeVisit { node_index: 2, mesh_index: Some(0), transform: 3u8 },
        NodeVisit { node_index: 3, mesh_index: Some(2), transform: 4u8 },
    ];
    let data = find_model_meshes(&visits);
    assert_eq!(data.mesh_ids, vec![2, 0]);
    assert_eq!(data.mesh_instances, vec![2, 1]);
    let transforms: Vec<u8> = data.transformation_matrices.iter().map(|t| t.transform_matrix).collect();
    assert_eq!(transforms, vec![1, 3, 4]);
}
