use code_notes::model::loader::loader::ModelPrimitiveData;
use code_notes::scene::scene::{get_scene_index_buffer_data, get_scene_vertex_buffer_data};
use code_notes::model::draw::{draw_gmesh_instanced, draw_gmodel, draw_scene, DrawCall};
use code_notes::model::model::{GMesh, GModel, MeshLayout};
use code_notes::model::primitive::{GPrimitive, PrimitiveData, PrimitiveLayout};
use code_notes::model::util::{
    copy_binary_data_from_gltf, get_index_offset_len, get_model_meshes, AccessorLayout, AttributeType,
    BufferViewLayout, ComponentType, Dimensions, GltfErrors, InitializationError,
};
use std::ops::Range;

fn accessor(
    view: Option<BufferViewLayout>,
    offset: usize,
    count: usize,
    data_type: ComponentType,
    dimensions: Dimensions,
) -> AccessorLayout {
    AccessorLayout { view, offset, count, data_type, dimensions }
}

fn view(buffer_index: usize, offset: usize, stride: Option<usize>) -> Option<BufferViewLayout> {
    Some(BufferViewLayout { buffer_index, offset, stride })
}

#[test]
fn copy_skips_stride_padding() {
    let data: Vec<u8> = (0..12).collect();
    let a = accessor(view(1, 1, Some(4)), 1, 2, ComponentType::U16, Dimensions::Scalar);
    // buffer 1 starts at byte 2, its view at 1 more, the accessor at 1 more: byte 4
    let bytes = copy_binary_data_from_gltf(&a, AttributeType::Index, &vec![0, 2], &data).ok().unwrap();
    assert_eq!(bytes, vec![4, 5, 8, 9]);
}

#[test]
fn copy_without_stride_is_contiguous() {
    let data: Vec<u8> = (0..16).collect();
    let a = accessor(view(0, 0, None), 4, 1, ComponentType::F32, Dimensions::Vec2);
    let bytes = copy_binary_data_from_gltf(&a, AttributeType::Position, &vec![0], &data).ok().unwrap();
    assert_eq!(bytes, (4..12).collect::<Vec<u8>>());
}

#[test]
fn copy_without_view_fails() {
    let a = accessor(None, 0, 3, ComponentType::U8, Dimensions::Vec3);
    assert!(matches!(
        copy_binary_data_from_gltf(&a, AttributeType::Joints, &vec![0], &vec![0; 9]),
        Err(GltfErrors::NoView)
    ));
}

#[test]
fn index_offset_and_length() {
    let a = accessor(view(1, 6, None), 2, 5, ComponentType::U16, Dimensions::Scalar);
    assert_eq!(get_index_offset_len(Some(&a), &vec![0, 100]).ok().unwrap(), Some((108, 10)));
    assert_eq!(get_index_offset_len(None, &vec![0]).ok().unwrap(), None);
    let no_view = accessor(None, 0, 5, ComponentType::U16, Dimensions::Scalar);
    assert!(matches!(get_index_offset_len(Some(&no_view), &vec![0]), Err(GltfErrors::NoView)));
}

#[test]
fn index_data_reads_u16_in_machine_order() {
    let data = vec![1u8, 0, 2, 0, 9, 9, 3, 0];
    let indices = GPrimitive::get_index_data(&data, &vec![0..4, 6..8]);
    let expected: Vec<u16> = vec![
        u16::from_ne_bytes([1, 0]),
        u16::from_ne_bytes([2, 0]),
        u16::from_ne_bytes([3, 0]),
    ];
    assert_eq!(indices, expected);
}

fn primitive_data(mesh_id: usize, indices_offset: usize, indices_len: usize, positions: usize) -> PrimitiveData {
    PrimitiveData {
        mesh_id,
        positions: vec![0; positions],
        indices_offset,
        indices_len,
        normals: None,
        joints: None,
        weights: None,
    }
}

#[test]
fn relative_indices_offset_counts_earlier_ranges() {
    let mut p = GPrimitive::new();
    let data = primitive_data(0, 12, 4, 0);
    assert!(p.set_relative_indices_offset(&data, &vec![0..4, 10..20]).is_ok());
    // 4 bytes of the first range, then 2 into the second: byte 6, index 3
    assert_eq!(p.initialized_index_offset_len, Some((3, 2)));
    assert_eq!(p.initialized_vertex_offset_len, None);
}

#[test]
fn relative_indices_offset_overrun_fails() {
    let mut p = GPrimitive::new();
    let data = primitive_data(0, 18, 4, 0);
    assert!(matches!(
        p.set_relative_indices_offset(&data, &vec![10..20]),
        Err(InitializationError::SceneInitializationError)
    ));
    assert_eq!(p.initialized_index_offset_len, None);
}

#[test]
fn primitive_data_from_layout() {
    let data: Vec<u8> = (0..40).collect();
    let layout = PrimitiveLayout {
        positions: accessor(view(0, 0, None), 0, 1, ComponentType::F32, Dimensions::Vec3),
        normals: Some(accessor(view(0, 12, None), 0, 1, ComponentType::F32, Dimensions::Vec3)),
        indices: Some(accessor(view(0, 24, None), 0, 3, ComponentType::U16, Dimensions::Scalar)),
        joints: None,
        weights: Some(accessor(view(0, 30, None), 0, 1, ComponentType::U8, Dimensions::Vec4)),
    };
    let d = PrimitiveData::from_data(7, &layout, &vec![0], &data).ok().unwrap();
    assert_eq!(d.mesh_id, 7);
    assert_eq!(d.positions, (0..12).collect::<Vec<u8>>());
    assert_eq!(d.normals, Some((12..24).collect::<Vec<u8>>()));
    assert_eq!((d.indices_offset, d.indices_len), (24, 6));
    assert_eq!(d.joints, None);
    assert_eq!(d.weights, Some(vec![30, 31, 32, 33]));

    let mut missing_view = layout;
    missing_view.joints = Some(accessor(None, 0, 1, ComponentType::U16, Dimensions::Vec4));
    assert!(matches!(PrimitiveData::from_data(7, &missing_view, &vec![0], &data), Err(GltfErrors::NoView)));
}

fn positions_only(offset: usize) -> PrimitiveLayout {
    PrimitiveLayout {
        positions: accessor(view(0, offset, None), 0, 1, ComponentType::F32, Dimensions::Vec3),
        normals: None,
        indices: None,
        joints: None,
        weights: None,
    }
}

#[test]
fn model_meshes_follow_mesh_ids() {
    let data: Vec<u8> = (0..48).collect();
    let meshes = vec![
        MeshLayout { index: 0, primitives: vec![positions_only(0)] },
        MeshLayout { index: 1, primitives: vec![positions_only(12), positions_only(24)] },
    ];
    let node_meshes = vec![None, Some(1), Some(0)];
    let (g_meshes, pd) = get_model_meshes(&vec![1, 0], &node_meshes, &meshes, &vec![0], &data).ok().unwrap();
    assert_eq!(g_meshes.len(), 2);
    assert_eq!(g_meshes[0].mesh_id, 1);
    assert_eq!(g_meshes[0].primitives.len(), 2);
    assert_eq!(g_meshes[1].mesh_id, 0);
    assert_eq!(pd.len(), 3);
    assert_eq!(pd[0].positions, (12..24).collect::<Vec<u8>>());
    assert_eq!(pd[1].positions, (24..36).collect::<Vec<u8>>());
    assert_eq!(pd[2].positions, (0..12).collect::<Vec<u8>>());
    assert_eq!(pd[2].mesh_id, 0);
}

#[test]
fn mesh_primitive_data_needs_views() {
    let mut broken = positions_only(0);
    broken.positions.view = None;
    let mesh = MeshLayout { index: 0, primitives: vec![positions_only(0), broken] };
    assert!(matches!(GMesh::get_primitive_data(&mesh, &vec![0], &vec![0; 12]), Err(GltfErrors::NoView)));
}

#[test]
fn new_mesh_has_unplaced_primitives() {
    let mesh = GMesh::new(4, 3).ok().unwrap();
    assert_eq!(mesh.mesh_id, 4);
    assert_eq!(mesh.primitives.len(), 3);
    assert!(mesh.primitives.iter().all(|p| p.initialized_index_offset_len.is_none()));
}

fn model_with(meshes: Vec<GMesh>, mesh_instances: Vec<u32>) -> GModel<()> {
    GModel::new(1, meshes, mesh_instances, None)
}

#[test]
fn vertex_offsets_follow_mesh_order() {
    let mut model = model_with(
        vec![GMesh::new(0, 2).ok().unwrap(), GMesh::new(1, 1).ok().unwrap()],
        vec![1, 1],
    );
    let datas = vec![primitive_data(1, 0, 0, 36), primitive_data(0, 0, 0, 12), primitive_data(0, 0, 0, 24)];
    let mut offset: u32 = 5;
    let order = model.set_model_vertex_offsets(&datas, &mut offset);
    assert_eq!(order, vec![1, 2, 0]);
    assert_eq!(model.meshes[0].primitives[0].initialized_vertex_offset_len, Some((5, 1)));
    assert_eq!(model.meshes[0].primitives[1].initialized_vertex_offset_len, Some((6, 2)));
    assert_eq!(model.meshes[1].primitives[0].initialized_vertex_offset_len, Some((8, 3)));
    assert_eq!(offset, 11);
}

#[test]
fn index_offsets_after_merging_ranges() {
    let mut model = model_with(vec![GMesh::new(0, 2).ok().unwrap()], vec![1]);
    let datas = vec![primitive_data(0, 10, 4, 0), primitive_data(0, 0, 4, 0)];
    let mut ranges: Vec<Range<usize>> = Vec::new();
    model.build_range_vec(&mut ranges, &datas);
    assert_eq!(ranges, vec![0..4, 10..14]);
    model.set_model_primitive_offsets(&ranges, &datas);
    assert_eq!(model.meshes[0].primitives[0].initialized_index_offset_len, Some((2, 2)));
    assert_eq!(model.meshes[0].primitives[1].initialized_index_offset_len, Some((0, 2)));
    let main: Vec<u8> = (0..14).collect();
    let indices = GModel::<()>::get_model_index_data(&main, &ranges);
    assert_eq!(indices.len(), 4);
}

fn placed(vertex: (u32, u32), index: (u32, u32)) -> GPrimitive {
    GPrimitive { initialized_vertex_offset_len: Some(vertex), initialized_index_offset_len: Some(index) }
}

#[test]
fn mesh_draw_calls_choose_indexed_or_plain() {
    let mesh = GMesh { mesh_id: 0, primitives: vec![placed((7, 3), (10, 6)), placed((20, 4), (0, 0))] };
    let calls = draw_gmesh_instanced(&mesh, 2..5);
    assert_eq!(calls.len(), 2);
    match &calls[0] {
        DrawCall::Indexed { indices, base_vertex, instances } => {
            assert_eq!(*indices, 10..16);
            assert_eq!(*base_vertex, 7);
            assert_eq!(*instances, 2..5);
        }
        _ => panic!("expected an indexed draw"),
    }
    match &calls[1] {
        DrawCall::NonIndexed { vertices, instances } => {
            assert_eq!(*vertices, 20..24);
            assert_eq!(*instances, 2..5);
        }
        _ => panic!("expected a plain draw"),
    }
}

#[test]
fn base_vertex_wraps_like_a_cast() {
    let mesh = GMesh { mesh_id: 0, primitives: vec![placed((3_000_000_000, 1), (0, 3))] };
    match &draw_gmesh_instanced(&mesh, 0..1)[0] {
        DrawCall::Indexed { base_vertex, .. } => assert_eq!(*base_vertex, 3_000_000_000u32 as i32),
        _ => panic!("expected an indexed draw"),
    }
}

fn instances_of(call: &DrawCall) -> Range<u32> {
    match call {
        DrawCall::Indexed { instances, .. } => instances.clone(),
        DrawCall::NonIndexed { instances, .. } => instances.clone(),
    }
}

#[test]
fn model_draw_calls_follow_mesh_instances() {
    let mesh_a = GMesh { mesh_id: 0, primitives: vec![placed((0, 3), (0, 0))] };
    let mesh_b = GMesh { mesh_id: 1, primitives: vec![placed((3, 3), (0, 0))] };
    let model = model_with(vec![mesh_a, mesh_b], vec![2, 1]);
    let (calls, end) = draw_gmodel(&model, 4, 3);
    assert_eq!(calls.len(), 2);
    assert_eq!(instances_of(&calls[0]), 4..10);
    assert_eq!(instances_of(&calls[1]), 10..13);
    assert_eq!(end, 13);
}

#[test]
fn scene_models_draw_consecutive_instances() {
    let mesh = || GMesh { mesh_id: 0, primitives: vec![placed((0, 3), (0, 0))] };
    let models = vec![
        model_with(vec![mesh()], vec![2]),
        model_with(vec![mesh()], vec![1]),
        model_with(vec![mesh()], vec![1]),
    ];
    let calls = draw_scene(&models, &vec![1, 1, 1]);
    assert_eq!(calls.len(), 3);
    assert_eq!(instances_of(&calls[0]), 0..2);
    // each model's instances start where the previous model's end
    assert_eq!(instances_of(&calls[1]), 2..3);
    assert_eq!(instances_of(&calls[2]), 3..4);
}

#[test]
fn relative_offset_skips_gaps_between_ranges() {
    // with ranges 0..10 and 20..30, byte 22 of the main buffer becomes byte 12
    // of the composed buffer, index 6
    let mut p = GPrimitive::new();
    let data = primitive_data(0, 22, 6, 0);
    assert!(p.set_relative_indices_offset(&data, &vec![0..10, 20..30]).is_ok());
    assert_eq!(p.initialized_index_offset_len, Some((6, 3)));
    let main: Vec<u8> = (0..30).collect();
    let composed = GPrimitive::get_index_data(&main, &vec![0..10, 20..30]);
    let own = GPrimitive::get_index_data(&main, &vec![22..28]);
    assert_eq!(&composed[6..9], &own[..]);
}

#[test]
fn scene_index_buffer_places_every_model() {
    let mut models = vec![
        model_with(vec![GMesh::new(0, 1).ok().unwrap()], vec![1]),
        model_with(vec![GMesh::new(0, 1).ok().unwrap()], vec![1]),
    ];
    let datas = vec![
        ModelPrimitiveData { model_id: 0, primitive_data: vec![primitive_data(0, 4, 4, 0)] },
        ModelPrimitiveData { model_id: 1, primitive_data: vec![primitive_data(0, 0, 4, 0)] },
    ];
    let main: Vec<u8> = vec![1, 0, 2, 0, 3, 0, 4, 0];
    let indices = get_scene_index_buffer_data(&mut models, &datas, &main);
    assert_eq!(indices, GPrimitive::get_index_data(&main, &vec![0..8]));
    assert_eq!(models[0].meshes[0].primitives[0].initialized_index_offset_len, Some((2, 2)));
    assert_eq!(models[1].meshes[0].primitives[0].initialized_index_offset_len, Some((0, 2)));
}

#[test]
fn scene_vertex_buffer_runs_over_models() {
    let mut models = vec![
        model_with(vec![GMesh::new(0, 1).ok().unwrap()], vec![1]),
        model_with(vec![GMesh::new(3, 2).ok().unwrap()], vec![1]),
    ];
    let datas = vec![
        ModelPrimitiveData { model_id: 0, primitive_data: vec![primitive_data(0, 0, 0, 24)] },
        ModelPrimitiveData {
            model_id: 1,
            primitive_data: vec![primitive_data(3, 0, 0, 12), primitive_data(3, 0, 0, 36)],
        },
    ];
    let orders = get_scene_vertex_buffer_data(&mut models, &datas);
    assert_eq!(orders, vec![vec![0], vec![0, 1]]);
    assert_eq!(models[0].meshes[0].primitives[0].initialized_vertex_offset_len, Some((0, 2)));
    assert_eq!(models[1].meshes[0].primitives[0].initialized_vertex_offset_len, Some((2, 1)));
    assert_eq!(models[1].meshes[0].primitives[1].initialized_vertex_offset_len, Some((3, 3)));
}
