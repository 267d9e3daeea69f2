use sdf_engine::component_store::{ComponentKey, ComponentStore};
use sdf_engine::errors::EngineError;
use sdf_engine::mesh::get_vert_slot;
use sdf_engine::renderable_model::{
    copy_list, fit_list, pick_or, repeat_value, ModelDims, RenderSettings, RenderableModel,
    RenderableModelWithSettings, FULL_OPACITY,
};
use sdf_engine::space::{Quaternion, Vector3};
use sdf_engine::transforms::{ComponentTransform, ModelTransform, TransformType};

fn bits(x: f32) -> u32 {
    x.to_bits()
}

fn key(index: u32) -> ComponentKey {
    ComponentKey { index }
}

fn model() -> RenderableModel {
    RenderableModel::new(1, key(2), "cube.obj")
}

fn pose(x: f32) -> ModelTransform {
    ModelTransform::local(Vector3::new(bits(x), 0, 0), Quaternion::new(bits(1.0), 0, 0, 0))
}

#[test]
fn store_gives_out_keys_from_one() {
    let mut store: ComponentStore<String> = ComponentStore::new();
    assert_eq!(store.insert("a".to_string()).unwrap(), key(1));
    assert_eq!(store.insert("b".to_string()).unwrap(), key(2));
    assert_eq!(store.get(&key(1)), Some(&"a".to_string()));
    assert_eq!(store.get(&key(2)), Some(&"b".to_string()));
    assert_eq!(store.get(&key(0)), None);
    assert_eq!(store.get(&key(3)), None);
    let mut keys = store.keys();
    keys.sort_by_key(|k| k.index);
    assert_eq!(keys, vec![key(1), key(2)]);
}

#[test]
fn store_refuses_when_keys_run_out() {
    let mut store: ComponentStore<u8> = ComponentStore::with_first_index(u32::MAX - 1);
    assert_eq!(store.insert(7).unwrap(), key(u32::MAX - 1));
    match store.insert(8) {
        Err(EngineError::MaxComponentsError { insertion_loc }) => {
            assert_eq!(insertion_loc, "ComponentStore::insert");
        }
        _ => panic!("expected the insertion to be refused"),
    }
    assert!(store.insert(9).is_err());
    assert_eq!(store.keys(), vec![key(u32::MAX - 1)]);
}

#[test]
fn store_insert_with_key_replaces() {
    let mut store: ComponentStore<u8> = ComponentStore::new();
    assert_eq!(store.insert_with_key(5, key(40)), None);
    assert_eq!(store.insert_with_key(6, key(40)), Some(5));
    assert_eq!(store.get(&key(40)), Some(&6));
    assert_eq!(store.insert(1).unwrap(), key(1));
}

#[test]
fn store_remove_hands_back() {
    let mut store: ComponentStore<u8> = ComponentStore::new();
    let k = store.insert(3).unwrap();
    assert_eq!(store.remove(&k), Some(3));
    assert_eq!(store.remove(&k), None);
    assert_eq!(store.get(&k), None);
    assert_eq!(store.keys(), vec![]);
    assert_eq!(store.insert(4).unwrap(), key(2));
}

#[test]
fn store_modify_replaces_what_is_there() {
    let mut store: ComponentStore<u32> = ComponentStore::new();
    let k = store.insert(10).unwrap();
    assert_eq!(store.modify(k, |c| c + 1), Some(&11));
    assert_eq!(store.get(&k), Some(&11));
    assert_eq!(store.modify(key(9), |c| c + 1), None);
    assert_eq!(store.keys(), vec![k]);
}

#[test]
fn model_dims_builders() {
    assert_eq!(
        ModelDims::new(1, 2, 3),
        ModelDims { width: Some(1), height: Some(2), depth: Some(3) }
    );
    assert_eq!(ModelDims::empty(), ModelDims { width: None, height: None, depth: None });
    assert_eq!(ModelDims::from_width(4), ModelDims { width: Some(4), height: None, depth: None });
    assert_eq!(ModelDims::from_height(5), ModelDims { width: None, height: Some(5), depth: None });
    assert_eq!(ModelDims::from_depth(6), ModelDims { width: None, height: None, depth: Some(6) });
    let mut d = ModelDims::empty();
    d.set_width(1);
    d.set_height(2);
    d.set_depth(3);
    assert_eq!(d, ModelDims::new(1, 2, 3));
}

#[test]
fn default_settings_are_one_plain_instance() {
    let s = RenderSettings::default();
    assert_eq!(s, RenderSettings { instances: 1, opacities: None, dims: None, transforms: None });
    assert_eq!(s.duplicate(), s);
    let full = RenderSettings {
        instances: 2,
        opacities: Some(vec![1, 2]),
        dims: Some(vec![ModelDims::from_width(1)]),
        transforms: Some(vec![pose(1.0)]),
    };
    assert_eq!(full.duplicate(), full);
}

#[test]
fn a_model_is_drawn_once_unless_instanced() {
    let m = model();
    assert_eq!(
        m.instanced(4),
        RenderableModelWithSettings(model(), RenderSettings { instances: 4, opacities: None, dims: None, transforms: None })
    );
    assert_eq!(
        m.transform(pose(1.0)),
        RenderableModelWithSettings(
            model(),
            RenderSettings { instances: 1, opacities: None, dims: None, transforms: Some(vec![pose(1.0)]) }
        )
    );
    assert_eq!(m.opacity(bits(0.5)).1.opacities, Some(vec![bits(0.5)]));
    assert_eq!(m.dims(ModelDims::new(1, 2, 3)).1.dims, Some(vec![ModelDims::new(1, 2, 3)]));
    assert_eq!(m.width(7).1.dims, Some(vec![ModelDims::from_width(7)]));
    assert_eq!(m.height(8).1.dims, Some(vec![ModelDims::from_height(8)]));
    assert_eq!(m.depth(9).1.dims, Some(vec![ModelDims::from_depth(9)]));
    assert_eq!(m.depth(9).1.instances, 1);
    assert_eq!(m.depth(9).0, model());
}

#[test]
fn one_value_is_given_to_every_instance() {
    let three = model().instanced(3);
    assert_eq!(three.transform(pose(2.0)).1.transforms, Some(vec![pose(2.0), pose(2.0), pose(2.0)]));
    assert_eq!(three.opacity(5).1.opacities, Some(vec![5, 5, 5]));
    assert_eq!(three.dims(ModelDims::new(1, 2, 3)).1.dims, Some(vec![ModelDims::new(1, 2, 3); 3]));
    assert_eq!(three.opacity(5).1.instances, 3);
    assert_eq!(three.opacity(5).1.dims, None);
    assert_eq!(model().instanced(0).opacity(5).1.opacities, Some(vec![]));
}

#[test]
fn setting_one_axis_keeps_the_others() {
    let three = model().instanced(3);
    assert_eq!(three.width(7).1.dims, Some(vec![ModelDims::from_width(7); 3]));
    let sized = three.dims(ModelDims::new(1, 2, 3));
    assert_eq!(sized.width(7).1.dims, Some(vec![ModelDims::new(7, 2, 3); 3]));
    assert_eq!(sized.height(8).1.dims, Some(vec![ModelDims::new(1, 8, 3); 3]));
    assert_eq!(sized.depth(9).1.dims, Some(vec![ModelDims::new(1, 2, 9); 3]));
    assert_eq!(three.height(8).depth(9).1.dims, Some(vec![ModelDims { width: None, height: Some(8), depth: Some(9) }; 3]));
    let uneven = model().instanced(3).dims_instanced(&vec![ModelDims::from_depth(1)]).width(2);
    assert_eq!(uneven.1.dims, Some(vec![ModelDims { width: Some(2), height: None, depth: Some(1) }; 3]));
}

#[test]
fn per_instance_lists_are_fitted() {
    let three = model().instanced(3);
    assert_eq!(three.opacity_instanced(&vec![1]).1.opacities, Some(vec![1, 1, 1]));
    assert_eq!(three.opacity_instanced(&vec![1, 2, 3, 4]).1.opacities, Some(vec![1, 2, 3]));
    assert_eq!(three.opacity_instanced(&vec![1, 2]).1.opacities, Some(vec![1, 2, 2]));
    assert_eq!(three.opacity(9).opacity_instanced(&vec![]).1.opacities, None);
    assert_eq!(three.transform_instanced(&vec![pose(1.0), pose(2.0)]).1.transforms, Some(vec![pose(1.0), pose(2.0), pose(2.0)]));
    assert_eq!(three.transform(pose(1.0)).transform_instanced(&vec![]).1.transforms, None);
    assert_eq!(three.dims_instanced(&vec![ModelDims::from_width(1)]).1.dims, Some(vec![ModelDims::from_width(1); 3]));
}

#[test]
fn an_empty_size_list_takes_the_opacities_away() {
    let start = model().instanced(2).opacity(5).dims(ModelDims::from_width(1));
    let after = start.dims_instanced(&vec![]);
    assert_eq!(after.1.opacities, None);
    assert_eq!(after.1.dims, Some(vec![ModelDims::from_width(1); 2]));
}

#[test]
fn list_helpers() {
    assert_eq!(repeat_value(7u8, 3), vec![7, 7, 7]);
    assert_eq!(repeat_value(7u8, 0), vec![]);
    assert_eq!(copy_list(&vec![1, 2, 3]), vec![1, 2, 3]);
    assert_eq!(fit_list(&vec![1, 2], 4), Some(vec![1, 2, 2, 2]));
    assert_eq!(fit_list(&vec![1, 2], 1), Some(vec![1]));
    assert_eq!(fit_list(&vec![1, 2], 0), Some(vec![]));
    assert_eq!(fit_list(&Vec::<u8>::new(), 4), None);
}

#[test]
fn pose_builders() {
    let pos = Vector3::new(1, 2, 3);
    let rot = Quaternion::new(4, 5, 6, 7);
    assert_eq!(ComponentTransform::local(pos, rot), ComponentTransform { transform_type: TransformType::Local, pos, rot });
    assert_eq!(ComponentTransform::global(pos, rot), ComponentTransform { transform_type: TransformType::Global, pos, rot });
    assert_eq!(
        ComponentTransform::default(),
        ComponentTransform { transform_type: TransformType::Local, pos: Vector3::zero(), rot: Quaternion::zero() }
    );
    assert_eq!(ModelTransform::local(pos, rot), ModelTransform { transform_type: TransformType::Local, pos, rot });
    assert_eq!(ModelTransform::global(pos, rot), ModelTransform { transform_type: TransformType::Global, pos, rot });
    assert_eq!(ModelTransform::default().pos, Vector3::zero());
    assert_eq!(ModelTransform::default().rot, Quaternion::zero());
    assert_eq!(ModelTransform::default().transform_type, TransformType::Local);
    let mut t = ModelTransform::local(pos, rot);
    assert_eq!(t.get_pos(), pos);
    assert_eq!(t.get_rot(), rot);
    t.set_pos(Vector3::new(9, 9, 9));
    t.set_rot(Quaternion::new(8, 8, 8, 8));
    assert_eq!(t, ModelTransform::local(Vector3::new(9, 9, 9), Quaternion::new(8, 8, 8, 8)));
}

#[test]
fn neighbour_slots() {
    assert_eq!(get_vert_slot(5, 5, 5, 4, 4, 4), 0);
    assert_eq!(get_vert_slot(5, 5, 5, 4, 4, 5), 1);
    assert_eq!(get_vert_slot(5, 5, 5, 4, 4, 6), 2);
    assert_eq!(get_vert_slot(5, 5, 5, 4, 5, 4), 3);
    assert_eq!(get_vert_slot(5, 5, 5, 4, 6, 6), 8);
    assert_eq!(get_vert_slot(5, 5, 5, 5, 4, 4), 9);
    assert_eq!(get_vert_slot(5, 5, 5, 5, 5, 4), 12);
    assert_eq!(get_vert_slot(5, 5, 5, 5, 5, 5), 0);
    assert_eq!(get_vert_slot(5, 5, 5, 5, 5, 6), 13);
    assert_eq!(get_vert_slot(5, 5, 5, 5, 6, 4), 14);
    assert_eq!(get_vert_slot(5, 5, 5, 6, 4, 4), 17);
    assert_eq!(get_vert_slot(5, 5, 5, 6, 5, 5), 21);
    assert_eq!(get_vert_slot(5, 5, 5, 6, 6, 6), 25);
    assert_eq!(get_vert_slot(5, 5, 5, 9, 0, 7), get_vert_slot(5, 5, 5, 6, 4, 6));
    assert_eq!(get_vert_slot(0, 0, 0, usize::MAX, 0, 0), 21);
}

#[test]
fn instances_without_a_value_get_the_default() {
    assert_eq!(f32::from_bits(FULL_OPACITY), 1.0);
    let s = RenderSettings {
        instances: 3,
        opacities: Some(vec![bits(0.5)]),
        dims: Some(vec![ModelDims::from_width(1), ModelDims::from_width(2)]),
        transforms: None,
    };
    assert_eq!(s.instance_opacity(0), bits(0.5));
    assert_eq!(s.instance_opacity(1), FULL_OPACITY);
    assert_eq!(s.instance_dims(1), ModelDims::from_width(2));
    assert_eq!(s.instance_dims(2), ModelDims::empty());
    assert_eq!(s.instance_transform(0), ModelTransform::default());
    assert_eq!(pick_or(&Some(vec![1, 2]), 1, 9), 2);
    assert_eq!(pick_or(&Some(vec![1, 2]), 2, 9), 9);
    assert_eq!(pick_or(&None, 0, 9), 9);
}
