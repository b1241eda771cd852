use code_notes::model::animation::animation::AnimationInstance;
use code_notes::model::model::{GModel, JointAnimationData, MeshAnimationData, ModelAnimationData};
use std::rc::Rc;
use code_notes::model::animation::animation_controller::SceneAnimationController;
use code_notes::model::animation::animation_node::{add_sampler_set, node_type_of, NodeType};
use code_notes::model::animation::util::{
    get_animation_transforms, AnimationType, InterpolationType, SamplerInterpolation,
};
use code_notes::model::animation::Interpolation;
use code_notes::model::util::{AccessorLayout, AnimationProperty, AttributeType, BufferViewLayout, ComponentType, Dimensions};
use std::collections::HashMap;

#[test]
fn test_box() {
    let controller: SceneAnimationController<u8, ()> = SceneAnimationController::new(1, ());
    assert_eq!(controller.active_animations.len(), 1);
}

#[test]
fn controller_starts_empty() {
    let controller: SceneAnimationController<u8, u8> = SceneAnimationController::new(3, 7);
    assert_eq!(controller.active_animations.len(), 3);
    assert_eq!(controller.dead_animations, vec![0, 0, 0]);
    assert_eq!(controller.active_animation_count, 0);
    assert!(!controller.has_active_animations());
    assert_eq!(controller.skin_ibms, 7);
}

#[test]
fn finished_animations_leave_their_queue_at_next_frame() {
    let mut controller: SceneAnimationController<&str, ()> = SceneAnimationController::new(2, ());
    controller.push_animation(0, "walk");
    controller.push_animation(0, "wave");
    controller.push_animation(1, "spin");
    assert_eq!(controller.active_animation_count, 3);
    assert!(controller.has_active_animations());
    controller.mark_done(0);
    // marking alone removes nothing
    assert_eq!(controller.active_animations[0].len(), 2);
    assert_eq!(controller.dead_animations, vec![1, 0]);
    controller.retire_dead_animations();
    assert_eq!(controller.active_animations[0].iter().copied().collect::<Vec<_>>(), vec!["wave"]);
    assert_eq!(controller.active_animations[1].len(), 1);
    assert_eq!(controller.dead_animations, vec![0, 0]);
    // the count is the number of queued instances
    assert_eq!(controller.active_animation_count, 2);
    controller.mark_done(0);
    controller.mark_done(1);
    controller.retire_dead_animations();
    assert_eq!(controller.active_animation_count, 0);
    assert!(!controller.has_active_animations());
}

#[test]
fn joint_takes_precedence_over_mesh() {
    let mut joints = HashMap::new();
    joints.insert(4usize, 2usize);
    assert_eq!(node_type_of(4, true, &joints), NodeType::Joint(2));
    assert_eq!(node_type_of(5, true, &joints), NodeType::Mesh);
    assert_eq!(node_type_of(5, false, &joints), NodeType::Node);
}

#[test]
fn sampler_sets_are_added_per_animation() {
    let mut sets: Option<HashMap<usize, Vec<u8>>> = None;
    add_sampler_set(&mut sets, 1, vec![1, 2]);
    add_sampler_set(&mut sets, 0, vec![3]);
    let map = sets.unwrap();
    assert_eq!(map.len(), 2);
    assert_eq!(map[&1], vec![1, 2]);
    assert_eq!(map[&0], vec![3]);
}

#[test]
fn animation_type_of_property() {
    assert_eq!(AnimationType::from_property(&AnimationProperty::Translation), AnimationType::Translation);
    assert_eq!(AnimationType::from_property(&AnimationProperty::Rotation), AnimationType::Rotation);
    // a scale channel is taken as a rotation
    assert_eq!(AnimationType::from_property(&AnimationProperty::Scale), AnimationType::Rotation);
}

#[test]
fn attribute_type_of_channel() {
    assert_eq!(AttributeType::from_animation_channel(&AnimationProperty::Translation), AttributeType::TranslationT);
    assert_eq!(AttributeType::from_animation_channel(&AnimationProperty::Rotation), AttributeType::RotationT);
    assert_eq!(AttributeType::from_animation_channel(&AnimationProperty::Scale), AttributeType::ScaleT);
}

#[test]
fn only_linear_interpolation() {
    assert!(matches!(InterpolationType::from_interpolation(SamplerInterpolation::Linear), InterpolationType::Linear));
    assert!(matches!(Interpolation::from_interpolation(SamplerInterpolation::Linear), Interpolation::Linear));
}

#[test]
fn animation_transforms_location() {
    let accessor = AccessorLayout {
        view: Some(BufferViewLayout { buffer_index: 1, offset: 8, stride: None }),
        offset: 4,
        count: 3,
        data_type: ComponentType::F32,
        dimensions: Dimensions::Vec4,
    };
    let offsets = vec![0, 100];
    assert_eq!(get_animation_transforms(&accessor, &offsets, &AnimationProperty::Rotation), (112, 48));
    assert_eq!(get_animation_transforms(&accessor, &offsets, &AnimationProperty::Translation), (112, 36));
    assert_eq!(get_animation_transforms(&accessor, &offsets, &AnimationProperty::Scale), (112, 36));
}

fn animated_model(joint_indices: Vec<usize>) -> GModel<()> {
    let animation_data = ModelAnimationData {
        animation_node: Rc::new(()),
        model_index: 0,
        animation_count: 1,
        mesh_animation_data: MeshAnimationData { mesh_animations: vec![0], node_to_lt_index: HashMap::new() },
        joint_animation_data: JointAnimationData {
            joint_to_joint_index: HashMap::new(),
            joint_count: joint_indices.len(),
            joint_indices,
        },
        is_skeletal: false,
    };
    GModel::new(0, Vec::new(), vec![1], Some(animation_data))
}

fn playing(offset: usize, mesh: u8, joint: u8) -> AnimationInstance<u8, ()> {
    AnimationInstance {
        model_instance_offset: offset,
        mesh_transforms: vec![mesh, mesh],
        joint_transforms: vec![joint],
        sampling: (),
    }
}

#[test]
fn frame_gathers_instances_model_after_model() {
    let models = vec![animated_model(vec![4]), GModel::new(1, Vec::new(), vec![1], None), animated_model(vec![5, 6])];
    let mut controller: SceneAnimationController<AnimationInstance<u8, ()>, ()> =
        SceneAnimationController::new(3, ());
    controller.push_animation(2, playing(7, 30, 3));
    controller.push_animation(0, playing(0, 10, 1));
    controller.push_animation(0, playing(3, 20, 2));
    let frame = controller.animation_frame(&models);
    assert_eq!(frame.lt_offsets, vec![0, 3, 7]);
    let meshes: Vec<Vec<u8>> = frame.mesh_transform_slices.iter().map(|s| s.to_vec()).collect();
    assert_eq!(meshes, vec![vec![10, 10], vec![20, 20], vec![30, 30]]);
    let joints: Vec<Vec<u8>> = frame.joint_transform_slices.iter().map(|s| s.to_vec()).collect();
    assert_eq!(joints, vec![vec![1], vec![2], vec![3]]);
    let ids: Vec<Vec<usize>> = frame.joint_ids.iter().map(|s| s.to_vec()).collect();
    assert_eq!(ids, vec![vec![4], vec![4], vec![5, 6]]);
}
