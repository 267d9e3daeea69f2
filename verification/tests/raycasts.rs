use sdf_engine::collisions::CollisionManager;
use sdf_engine::component_store::ComponentKey;
use sdf_engine::events::{Event, EventData, EventKey};
use sdf_engine::raycasting::ray::{
    sphere_trace_start, sphere_trace_step, DEFAULT_ST_TOL, MAX_ST_ITERS,
};
use sdf_engine::raycasting::{Ray, RayHit, RayIntersect, RaycastManager, TraceStep};
use sdf_engine::space::{Point3, Vector3};

fn bits(x: f32) -> u32 {
    x.to_bits()
}

fn key(index: u32) -> ComponentKey {
    ComponentKey { index }
}

fn point(x: f32, y: f32, z: f32) -> Point3 {
    Point3::new(bits(x), bits(y), bits(z))
}

fn forward_ray() -> Ray {
    Ray::new(point(0.0, 0.0, -1000.0), Vector3::new(bits(0.0), bits(0.0), bits(1.0)))
}

fn hit(collider_idx: u32, z: f32) -> RayHit {
    RayHit { collider_idx, loc: point(0.0, 0.0, z), distance: Some(bits(z + 1000.0)) }
}

fn raycast_event(component: u32, collider_idx: u32, z: f32) -> Event {
    Event {
        key: EventKey::RaycastIntersectEvent(key(component)),
        data: EventData::RaycastIntersectEvent {
            component: key(component),
            collider_idx,
            intersect_loc: point(0.0, 0.0, z),
        },
    }
}

#[test]
fn ray_keeps_origin_and_direction() {
    let ray = forward_ray();
    assert_eq!(ray.origin, point(0.0, 0.0, -1000.0));
    assert_eq!(ray.direction, Vector3::new(bits(0.0), bits(0.0), bits(1.0)));
}

#[test]
fn raycast_ids_start_at_one() {
    let mut manager = RaycastManager::new();
    let first = manager.new_raycast(forward_ray(), bits(2000.0), key(4)).unwrap();
    assert_eq!(first.id, 1);
    assert_eq!(first.ray, forward_ray());
    assert_eq!(first.max_dist, bits(2000.0));
    assert_eq!(first.parent, key(4));
    assert_eq!(first.intersections, vec![]);
    let second = manager.new_raycast(forward_ray(), bits(10.0), key(5)).unwrap();
    assert_eq!(second.id, 2);
    assert_eq!(manager.len(), 2);
    assert_eq!(manager.get(1).unwrap(), &first);
    assert_eq!(manager.get(2).unwrap(), &second);
    assert!(manager.get(0).is_none());
    assert!(manager.get(3).is_none());
    let mut ids = manager.ids();
    ids.sort();
    assert_eq!(ids, vec![1, 2]);
}

#[test]
fn raycast_is_refused_when_ids_run_out() {
    let mut manager = RaycastManager::with_first_id(u32::MAX - 1);
    assert_eq!(manager.new_raycast(forward_ray(), bits(1.0), key(1)).unwrap().id, u32::MAX - 1);
    assert!(manager.new_raycast(forward_ray(), bits(1.0), key(1)).is_none());
    assert!(manager.new_raycast(forward_ray(), bits(1.0), key(1)).is_none());
    assert_eq!(manager.len(), 1);
}

#[test]
fn removing_a_raycast_hands_it_back() {
    let mut manager = RaycastManager::new();
    manager.new_raycast(forward_ray(), bits(1.0), key(1)).unwrap();
    manager.new_raycast(forward_ray(), bits(2.0), key(2)).unwrap();
    manager.new_raycast(forward_ray(), bits(3.0), key(3)).unwrap();
    let removed = manager.remove_raycast(&2).unwrap();
    assert_eq!(removed.id, 2);
    assert_eq!(removed.parent, key(2));
    assert!(manager.remove_raycast(&2).is_none());
    assert!(manager.remove_raycast(&9).is_none());
    assert_eq!(manager.len(), 2);
    assert_eq!(manager.get(1).unwrap().id, 1);
    assert!(manager.get(2).is_none());
    assert_eq!(manager.get(3).unwrap().id, 3);
    assert_eq!(manager.new_raycast(forward_ray(), bits(4.0), key(4)).unwrap().id, 4);
}

#[test]
fn raycasts_report_every_hit() {
    let mut colliders = CollisionManager::new();
    let a = colliders.add_component_collider((), key(10), None).unwrap();
    let b = colliders.add_component_collider((), key(20), None).unwrap();
    let mut manager = RaycastManager::new();
    manager.new_raycast(forward_ray(), bits(2000.0), key(1)).unwrap();
    manager.new_raycast(forward_ray(), bits(2000.0), key(2)).unwrap();
    manager.new_raycast(forward_ray(), bits(2000.0), key(3)).unwrap();

    assert_eq!(manager.trigger_raycast_events(), vec![]);

    manager.intersect_colliders(
        &colliders,
        &vec![(2, vec![hit(a, 7.0), hit(99, 1.0)]), (1, vec![hit(b, 5.0), hit(a, -20.0)]), (8, vec![hit(a, 1.0)])],
    );
    assert_eq!(
        manager.get(1).unwrap().intersections,
        vec![
            RayIntersect { component: key(20), collider_idx: b, loc: point(0.0, 0.0, 5.0) },
            RayIntersect { component: key(10), collider_idx: a, loc: point(0.0, 0.0, -20.0) },
        ]
    );
    assert_eq!(manager.get(2).unwrap().intersections.len(), 1);
    assert_eq!(manager.get(3).unwrap().intersections, vec![]);
    assert!(manager.get(8).is_none());
    assert_eq!(
        manager.events_in_order(&vec![1, 2, 3]),
        vec![raycast_event(20, b, 5.0), raycast_event(10, a, -20.0), raycast_event(10, a, 7.0)]
    );
    assert_eq!(
        manager.events_in_order(&vec![2, 7, 1]),
        vec![raycast_event(10, a, 7.0), raycast_event(20, b, 5.0), raycast_event(10, a, -20.0)]
    );
    // Taken in whatever order, each raycast reports its hits once and together.
    let events = manager.trigger_raycast_events();
    assert_eq!(events.len(), 3);
    let first_of_one = events.iter().position(|e| *e == raycast_event(20, b, 5.0)).unwrap();
    assert_eq!(events[first_of_one + 1], raycast_event(10, a, -20.0));
    assert!(events.contains(&raycast_event(10, a, 7.0)));

    manager.intersect_colliders(&colliders, &vec![(1, vec![hit(a, 7.0)]), (1, vec![])]);
    assert_eq!(manager.get(1).unwrap().intersections, vec![]);
    assert_eq!(manager.get(2).unwrap().intersections, vec![]);
    assert_eq!(manager.trigger_raycast_events(), vec![]);
    assert_eq!(manager.get(1).unwrap().id, 1);
    assert_eq!(manager.get(1).unwrap().parent, key(1));
}

#[test]
fn march_defaults() {
    assert_eq!(MAX_ST_ITERS, 1000);
    assert_eq!(f32::from_bits(DEFAULT_ST_TOL), 1e-4);
    assert_eq!(sphere_trace_start(), 0);
}

#[test]
fn march_decisions() {
    assert_eq!(sphere_trace_step(0, Some(1), true, true), TraceStep::Hit);
    assert_eq!(sphere_trace_step(0, Some(1), true, false), TraceStep::Advance(1));
    assert_eq!(sphere_trace_step(1, Some(1), true, true), TraceStep::Miss);
    assert_eq!(sphere_trace_step(0, None, true, true), TraceStep::Hit);
    assert_eq!(sphere_trace_step(1, None, true, true), TraceStep::Hit);
    assert_eq!(sphere_trace_step(1, None, true, false), TraceStep::Advance(2));
    assert_eq!(sphere_trace_step(1, None, false, true), TraceStep::Miss);
    assert_eq!(sphere_trace_step(1, None, false, false), TraceStep::Miss);
    assert_eq!(sphere_trace_step(998, None, true, false), TraceStep::Advance(999));
    assert_eq!(sphere_trace_step(999, None, true, true), TraceStep::Hit);
    assert_eq!(sphere_trace_step(1000, None, true, true), TraceStep::Miss);
    assert_eq!(sphere_trace_step(5, Some(5), true, true), TraceStep::Miss);
    assert_eq!(sphere_trace_step(4, Some(5), true, false), TraceStep::Advance(5));
    assert_eq!(sphere_trace_step(0, Some(0), true, true), TraceStep::Miss);
    assert_eq!(sphere_trace_step(u32::MAX - 1, Some(u32::MAX), true, false), TraceStep::Advance(u32::MAX));
    assert_eq!(sphere_trace_step(u32::MAX, Some(u32::MAX), true, false), TraceStep::Miss);
}

#[test]
fn a_march_takes_as_many_steps_as_its_limit() {
    let mut iters = sphere_trace_start();
    let mut steps = 0;
    loop {
        match sphere_trace_step(iters, Some(10), true, false) {
            TraceStep::Advance(next) => {
                iters = next;
                steps += 1;
            }
            TraceStep::Miss => break,
            TraceStep::Hit => panic!("nothing converged"),
        }
    }
    assert_eq!(steps, 10);
}

#[test]
fn a_limit_of_one_allows_one_step() {
    assert_eq!(sphere_trace_step(sphere_trace_start(), Some(1), true, true), TraceStep::Hit);
    assert_eq!(sphere_trace_step(sphere_trace_start(), Some(0), true, true), TraceStep::Miss);
}
