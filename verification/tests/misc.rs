use sdf_engine::component_store::ComponentKey;
use sdf_engine::errors::{push_decimal, EngineError};
use sdf_engine::events::{EventKey, ScheduledEventId};
use sdf_engine::renderable_model::{size_to_fit, RenderableModel};
use sdf_engine::sdf::{
    cube_region, gradient_trace_step, Axis, CubeRegion, ProjectionStep, DEFAULT_TRACE_ITERS, EPSILON,
};

#[test]
fn size_to_fit_pads_with_the_last_element() {
    let mut v = vec![1, 2, 3];
    size_to_fit(&mut v, 6);
    assert_eq!(v, vec![1, 2, 3, 3, 3, 3]);
    let mut names = vec![String::from("a"), String::from("b")];
    size_to_fit(&mut names, 4);
    assert_eq!(names, vec!["a", "b", "b", "b"]);
}

#[test]
fn size_to_fit_cuts_a_longer_list() {
    let mut v = vec![1, 2, 3, 4, 5];
    size_to_fit(&mut v, 2);
    assert_eq!(v, vec![1, 2]);
    let mut w = vec![1, 2, 3];
    size_to_fit(&mut w, 0);
    assert_eq!(w, Vec::<i32>::new());
}

#[test]
fn size_to_fit_leaves_a_fitting_or_empty_list() {
    let mut v = vec![7, 8];
    size_to_fit(&mut v, 2);
    assert_eq!(v, vec![7, 8]);
    let mut empty: Vec<u8> = Vec::new();
    size_to_fit(&mut empty, 5);
    assert_eq!(empty, Vec::<u8>::new());
}

#[test]
fn renderable_model_keeps_what_it_is_given() {
    let model = RenderableModel::new(4, ComponentKey { index: 9 }, "cube.obj");
    assert_eq!(model.index, 4);
    assert_eq!(model.component, ComponentKey { index: 9 });
    assert_eq!(model.filename, "cube.obj");
    assert_eq!(model, model.clone());
    assert!(model != RenderableModel::new(5, ComponentKey { index: 9 }, "cube.obj"));
}

#[test]
fn error_descriptions() {
    assert_eq!(EngineError::ArgumentError { index: 1, name: "x".into() }.description(), "Invalid argument provided");
    assert_eq!(EngineError::ModelLoadError { filename: "x".into() }.description(), "Failed to load model for given filepath");
    assert_eq!(EngineError::MaxComponentsError { insertion_loc: "x".into() }.description(), "Component store full");
    assert_eq!(EngineError::MaxCollidersError { insertion_loc: "x".into() }.description(), "Collision manager full");
    assert_eq!(EngineError::Custom("x".into()).description(), "Unknown error type");
}

#[test]
fn error_messages() {
    assert_eq!(
        EngineError::ArgumentError { index: 2, name: "event".into() }.to_string(),
        "Invalid argument at index 2: event"
    );
    assert_eq!(
        EngineError::ArgumentError { index: 255, name: "component".into() }.to_string(),
        "Invalid argument at index 255: component"
    );
    assert_eq!(
        EngineError::ModelLoadError { filename: "cube.obj".into() }.to_string(),
        "Failed to load file at path cube.obj"
    );
    assert_eq!(
        EngineError::MaxComponentsError { insertion_loc: "ComponentStore::insert".into() }.to_string(),
        "Maximum number of components added to scene. Insertion at function ComponentStore::insert invalid"
    );
    assert_eq!(
        EngineError::MaxCollidersError { insertion_loc: "here".into() }.to_string(),
        "Maximum number of colliders added to scene. Insertion at function here invalid"
    );
    assert_eq!(EngineError::Custom("Hashmap insertion failure".into()).to_string(), "Error: Hashmap insertion failure");
}

#[test]
fn decimal_digits() {
    for n in [0u8, 1, 9, 10, 11, 42, 99, 100, 101, 110, 199, 200, 255] {
        let mut text = String::from("n=");
        push_decimal(&mut text, n);
        assert_eq!(text, format!("n={}", n));
    }
}

#[test]
fn event_keys_compare_by_kind_and_entity() {
    let a = ComponentKey { index: 1 };
    let b = ComponentKey { index: 2 };
    assert_eq!(EventKey::CollisionStartEvent(a), EventKey::CollisionStartEvent(a));
    assert!(EventKey::CollisionStartEvent(a) != EventKey::CollisionStartEvent(b));
    assert!(EventKey::CollisionStartEvent(a) != EventKey::CollisionEndEvent(a));
    assert_eq!(EventKey::KeyboardEvent, EventKey::KeyboardEvent);
    assert_eq!(ScheduledEventId(3), ScheduledEventId(3));
    assert!(ScheduledEventId(3) != ScheduledEventId(4));
}

#[test]
fn cube_regions_by_axes_over() {
    assert_eq!(cube_region(false, false, false), CubeRegion::Interior);
    assert_eq!(cube_region(true, false, false), CubeRegion::Face(Axis::X));
    assert_eq!(cube_region(false, true, false), CubeRegion::Face(Axis::Y));
    assert_eq!(cube_region(false, false, true), CubeRegion::Face(Axis::Z));
    assert_eq!(cube_region(true, true, false), CubeRegion::Edge(Axis::X, Axis::Y));
    assert_eq!(cube_region(true, false, true), CubeRegion::Edge(Axis::X, Axis::Z));
    assert_eq!(cube_region(false, true, true), CubeRegion::Edge(Axis::Y, Axis::Z));
    assert_eq!(cube_region(true, true, true), CubeRegion::Corner);
}

#[test]
fn projection_defaults() {
    assert_eq!(DEFAULT_TRACE_ITERS, 1);
    assert_eq!(f32::from_bits(EPSILON), 1e4);
}

#[test]
fn default_projection_is_a_single_step() {
    assert_eq!(gradient_trace_step(0, None, true), ProjectionStep::Hit);
    assert_eq!(gradient_trace_step(0, None, false), ProjectionStep::Advance(1));
    assert_eq!(gradient_trace_step(1, None, true), ProjectionStep::Miss);
    assert_eq!(gradient_trace_step(1, None, false), ProjectionStep::Miss);
}

#[test]
fn projection_with_more_iterations() {
    assert_eq!(gradient_trace_step(0, Some(8), false), ProjectionStep::Advance(1));
    assert_eq!(gradient_trace_step(7, Some(8), false), ProjectionStep::Advance(8));
    assert_eq!(gradient_trace_step(7, Some(8), true), ProjectionStep::Hit);
    assert_eq!(gradient_trace_step(8, Some(8), true), ProjectionStep::Miss);
    assert_eq!(gradient_trace_step(0, Some(0), true), ProjectionStep::Miss);
    assert_eq!(gradient_trace_step(usize::MAX, Some(usize::MAX), false), ProjectionStep::Miss);
}
