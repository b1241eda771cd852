use code_notes::loader::loader::GModel2;
use code_notes::model::animation::animation::AnimationFrame;
use code_notes::model::model::{GModel, LocalTransform};
use code_notes::scene::instances::InstanceData;
use code_notes::scene::instances2::InstanceData2;
use code_notes::scene::scene_scaffolds::{AdditionalScaffoldModelInstances, SceneScaffold, ScaffoldGTOverride};
use code_notes::scene::util::{calculate_model_mesh_offsets, global_instance_index};

#[test]
fn test_animation_frame_update() {
    // instance data contains a scene that has two models.
    // The first model has three mesh instances. There are two instances of the model.
    // the second model has four mesh instances. There is one instance of the model.
    let initial_matrix_1 = [[1.0f32; 4]; 4];
    let initial_matrix_2 = [[2.0f32; 4]; 4];
    let mut instance_data_local_transforms = vec![
        LocalTransform {
            transform_matrix: initial_matrix_1,
            model_index: 0,
        };
        6
    ];
    let model_2s_transforms = vec![
        LocalTransform {
            transform_matrix: initial_matrix_2,
            model_index: 1,
        };
        4
    ];
    instance_data_local_transforms.extend(model_2s_transforms);

    // we want to change the transforms for the second instance of the first model
    // with these values (3 matrices full of 3.0s)
    let new_matrices = vec![[[3f32; 4]; 4]; 3];

    let mut instance_data = InstanceData {
        model_instances: vec![2, 1],
        model_instances_local_offsets: vec![0, 6],
        local_transform_data: instance_data_local_transforms,
        global_transform_data: vec![],
        joint_global_transforms: vec![],
    };

    let animation_frame = AnimationFrame {
        lt_offsets: vec![3],
        mesh_transform_slices: vec![&new_matrices[..]],
        joint_transform_slices: vec![],
        joint_ids: vec![],
    };

    instance_data.apply_animation_frame_unchecked(animation_frame);

    assert_eq!(instance_data.local_transform_data[0].transform_matrix, [[1.0; 4]; 4]);
    assert_eq!(instance_data.local_transform_data[0].model_index, 0,);
    assert_eq!(instance_data.local_transform_data[1].transform_matrix, [[1.0; 4]; 4]);
    assert_eq!(instance_data.local_transform_data[1].model_index, 0,);
    assert_eq!(instance_data.local_transform_data[2].transform_matrix, [[1.0; 4]; 4]);
    assert_eq!(instance_data.local_transform_data[2].model_index, 0,);
    // the new ones
    assert_eq!(instance_data.local_transform_data[3].transform_matrix, [[3.0; 4]; 4]);
    assert_eq!(instance_data.local_transform_data[3].model_index, 0,);
    assert_eq!(instance_data.local_transform_data[4].transform_matrix, [[3.0; 4]; 4]);
    assert_eq!(instance_data.local_transform_data[4].model_index, 0,);
    assert_eq!(instance_data.local_transform_data[5].transform_matrix, [[3.0; 4]; 4]);
    assert_eq!(instance_data.local_transform_data[5].model_index, 0,);

    // the rest
    assert_eq!(instance_data.local_transform_data[6].transform_matrix, [[2.0; 4]; 4]);
    assert_eq!(instance_data.local_transform_data[6].model_index, 1,);
    assert_eq!(instance_data.local_transform_data[7].transform_matrix, [[2.0; 4]; 4]);
    assert_eq!(instance_data.local_transform_data[7].model_index, 1,);
    assert_eq!(instance_data.local_transform_data[8].transform_matrix, [[2.0; 4]; 4]);
    assert_eq!(instance_data.local_transform_data[8].model_index, 1,);
    assert_eq!(instance_data.local_transform_data[9].transform_matrix, [[2.0; 4]; 4]);
    assert_eq!(instance_data.local_transform_data[9].model_index, 1,);
}

#[test]
fn animation_frame_writes_joints_and_keeps_length() {
    let mut instance_data = InstanceData::from_parts(
        vec![1],
        vec![0, 2],
        vec![
            LocalTransform { transform_matrix: 1u32, model_index: 7 },
            LocalTransform { transform_matrix: 2u32, model_index: 7 },
        ],
        vec![0u32],
        vec![10u32, 11, 12],
    );
    let mesh = [5u32];
    let joints = [2usize, 0];
    let joint_transforms = [20u32, 30];
    let frame = AnimationFrame {
        lt_offsets: vec![1],
        mesh_transform_slices: vec![&mesh[..]],
        joint_ids: vec![&joints[..]],
        joint_transform_slices: vec![&joint_transforms[..]],
    };
    instance_data.apply_animation_frame_unchecked(frame);
    assert_eq!(instance_data.local_transform_data.len(), 2);
    assert_eq!(instance_data.local_transform_data[0].transform_matrix, 1);
    assert_eq!(instance_data.local_transform_data[1].transform_matrix, 5);
    assert_eq!(instance_data.local_transform_data[1].model_index, 7);
    assert_eq!(instance_data.joint_global_transforms, vec![30, 11, 20]);
}

fn one_model(mesh_instances: Vec<u32>) -> GModel<()> {
    GModel::new(0, Vec::new(), mesh_instances, None)
}

#[test]
fn add_model_instance_interleaves_new_transforms() {
    let models = vec![one_model(vec![2])];
    let mut instance_data = InstanceData::from_parts(
        vec![1],
        vec![0, 2],
        vec![
            LocalTransform { transform_matrix: 100u32, model_index: 0 },
            LocalTransform { transform_matrix: 200u32, model_index: 0 },
        ],
        vec![1u32],
        vec![],
    );
    let result = instance_data.add_model_instance(&models, 0, vec![9u32]);
    assert!(result.is_ok());
    let matrices: Vec<u32> =
        instance_data.local_transform_data.iter().map(|t| t.transform_matrix).collect();
    let owners: Vec<u32> = instance_data.local_transform_data.iter().map(|t| t.model_index).collect();
    assert_eq!(matrices, vec![100, 100, 200, 200]);
    assert_eq!(owners, vec![0, 1, 0, 1]);
    assert_eq!(instance_data.model_instances, vec![2]);
    assert_eq!(instance_data.global_transform_data, vec![1, 9]);
    assert_eq!(instance_data.model_instances_local_offsets, vec![0, 4]);
    // each model instance now owns two of the four transforms
    assert_eq!(instance_data.get_instance_local_offset(1, 0), (2, 2));
}

#[test]
fn add_model_instance_counts_grow() {
    let models = vec![one_model(vec![1, 2]), one_model(vec![1])];
    let mut instance_data = InstanceData::default_from_scene(
        &models,
        vec![
            LocalTransform { transform_matrix: 1u8, model_index: 0 },
            LocalTransform { transform_matrix: 2u8, model_index: 0 },
            LocalTransform { transform_matrix: 3u8, model_index: 0 },
            LocalTransform { transform_matrix: 4u8, model_index: 1 },
        ],
        vec![],
        0u8,
    );
    let before_local = instance_data.local_transform_data.len();
    let before_global = instance_data.global_transform_data.len();
    let added = vec![5u8, 6u8];
    assert!(instance_data.add_model_instance(&models, 0, added).is_ok());
    assert_eq!(instance_data.model_instances, vec![3, 1]);
    assert_eq!(instance_data.global_transform_data.len(), before_global + 2);
    assert_eq!(instance_data.local_transform_data.len(), before_local + 3 * 2);
}

#[test]
fn default_from_scene_one_instance_each() {
    let models = vec![one_model(vec![1, 2]), one_model(vec![4])];
    let instance_data = InstanceData::default_from_scene(&models, Vec::<LocalTransform<u8>>::new(), vec![7u8], 1u8);
    assert_eq!(instance_data.model_instances, vec![1, 1]);
    assert_eq!(instance_data.global_transform_data, vec![1, 1]);
    // the slot of each model's first local transform, then the total
    assert_eq!(instance_data.model_instances_local_offsets, vec![0, 3, 7]);
    assert_eq!(instance_data.joint_global_transforms, vec![7]);
}

#[test]
fn from_scaffold_applies_overrides_and_additions() {
    let models = vec![one_model(vec![1])];
    let overrides = [ScaffoldGTOverride { transform: 5u16, model_idx: 0 }];
    let extra = [8u16];
    let additions = [AdditionalScaffoldModelInstances {
        model_index: 0,
        additional_instance_count: 1,
        global_transforms: &extra[..],
    }];
    let paths: [&str; 0] = [];
    let scaffold = SceneScaffold {
        file_paths: &paths[..],
        additional_instances: &additions[..],
        global_transform_overrides: &overrides[..],
    };
    let local = vec![LocalTransform { transform_matrix: 3u16, model_index: 0 }];
    let instance_data = InstanceData::from_scaffold(&scaffold, local, vec![], &models, 1u16).ok().unwrap();
    assert_eq!(instance_data.model_instances, vec![2]);
    assert_eq!(instance_data.global_transform_data, vec![5, 8]);
    assert_eq!(instance_data.local_transform_data.len(), 2);
    assert_eq!(instance_data.local_transform_data[1].model_index, 1);
}

#[test]
fn get_instance_local_offset_divides_model_range() {
    let instance_data = InstanceData::from_parts(
        vec![2, 1],
        vec![0, 6, 10],
        Vec::<LocalTransform<u8>>::new(),
        vec![],
        vec![],
    );
    assert_eq!(instance_data.get_instance_local_offset(1, 0), (3, 3));
    assert_eq!(instance_data.get_instance_local_offset(0, 1), (6, 4));
}

#[test]
fn model_mesh_offsets_accumulate() {
    let models = vec![
        GModel2::new(None, Vec::new(), vec![1, 2]),
        GModel2::new(None, Vec::new(), vec![4]),
        GModel2::new(None, Vec::new(), vec![]),
    ];
    let offsets = calculate_model_mesh_offsets(&models, &vec![2, 3, 1]);
    assert_eq!(offsets, vec![0, 6, 18]);
}

#[test]
fn global_instance_index_skips_earlier_models() {
    let model_instances = vec![2, 3, 1];
    assert_eq!(global_instance_index(&model_instances, 0, 1), 1);
    assert_eq!(global_instance_index(&model_instances, 2, 0), 5);
    assert_eq!(global_instance_index(&model_instances, 1, 2), 4);
}

#[test]
fn builder_instances_follow_each_transform() {
    let models = vec![one_model(vec![2])];
    let mut data = InstanceData2::new(
        vec![1],
        vec![0, 2],
        vec![
            LocalTransform { transform_matrix: 10u8, model_index: 0 },
            LocalTransform { transform_matrix: 20u8, model_index: 0 },
        ],
        vec![1u8],
    );
    assert!(data.add_model_instance(&models, 0, vec![2u8]).is_ok());
    let matrices: Vec<u8> = data.local_transform_data.iter().map(|t| t.transform_matrix).collect();
    let owners: Vec<u32> = data.local_transform_data.iter().map(|t| t.model_index).collect();
    assert_eq!(matrices, vec![10, 10, 20, 20]);
    assert_eq!(owners, vec![0, 1, 0, 1]);
    // every offset from the model's own on moves
    assert_eq!(data.instance_local_offsets, vec![2, 4]);
    assert_eq!(data.global_transform_data, vec![1, 2]);
    assert_eq!(data.model_instances, vec![2]);
}

#[test]
fn builder_merge_renumbers_second_scene() {
    let a = InstanceData2::new(
        vec![2],
        vec![0],
        vec![
            LocalTransform { transform_matrix: 1u8, model_index: 0 },
            LocalTransform { transform_matrix: 1u8, model_index: 1 },
        ],
        vec![7u8, 8],
    );
    let b = InstanceData2::new(
        vec![1],
        vec![0],
        vec![LocalTransform { transform_matrix: 3u8, model_index: 0 }],
        vec![9u8],
    );
    let merged = a.merge(b);
    assert_eq!(merged.model_instances, vec![2, 1]);
    assert_eq!(merged.instance_local_offsets, vec![0, 0]);
    let owners: Vec<u32> = merged.local_transform_data.iter().map(|t| t.model_index).collect();
    assert_eq!(owners, vec![0, 1, 2]);
    assert_eq!(merged.global_transform_data, vec![7, 8, 9]);
}

#[test]
fn new_instances_follow_their_model() {
    let models = vec![one_model(vec![1]), one_model(vec![1])];
    let mut instance_data = InstanceData::from_parts(
        vec![1, 1],
        vec![0, 1, 2],
        vec![
            LocalTransform { transform_matrix: 10u8, model_index: 0 },
            LocalTransform { transform_matrix: 20u8, model_index: 1 },
        ],
        vec![1u8, 2u8],
        vec![],
    );
    assert!(instance_data.add_model_instance(&models, 0, vec![3u8]).is_ok());
    // the new global transform goes right after those of model 0
    assert_eq!(instance_data.global_transform_data, vec![1, 3, 2]);
    // only the offsets of the later models move
    assert_eq!(instance_data.model_instances_local_offsets, vec![0, 2, 3]);
    let matrices: Vec<u8> = instance_data.local_transform_data.iter().map(|t| t.transform_matrix).collect();
    assert_eq!(matrices, vec![10, 10, 20]);
}

#[test]
fn later_model_offsets_move() {
    let models = vec![one_model(vec![2]), one_model(vec![1])];
    let mut instance_data = InstanceData::from_parts(
        vec![1, 1],
        vec![0, 2, 3],
        vec![
            LocalTransform { transform_matrix: 1u8, model_index: 0 },
            LocalTransform { transform_matrix: 2u8, model_index: 0 },
            LocalTransform { transform_matrix: 3u8, model_index: 1 },
        ],
        vec![7u8, 8u8],
        vec![],
    );
    assert!(instance_data.add_model_instance(&models, 1, vec![9u8]).is_ok());
    assert_eq!(instance_data.model_instances_local_offsets, vec![0, 2, 4]);
    assert_eq!(instance_data.global_transform_data, vec![7, 8, 9]);
    assert_eq!(instance_data.local_transform_data.len(), 4);
}
