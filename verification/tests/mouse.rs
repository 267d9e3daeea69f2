use sdf_engine::collisions::CollisionManager;
use sdf_engine::component_store::ComponentKey;
use sdf_engine::events::{Event, EventData, EventKey};
use sdf_engine::mouse::{is_farther, pick_closest, Mouse};
use sdf_engine::raycasting::{Ray, RayHit, RayIntersect};
use sdf_engine::space::{Point3, Vector3};

fn bits(x: f32) -> u32 {
    x.to_bits()
}

fn key(index: u32) -> ComponentKey {
    ComponentKey { index }
}

fn point(x: f32, y: f32, z: f32) -> Point3 {
    Point3::new(bits(x), bits(y), bits(z))
}

fn ray() -> Ray {
    Ray::new(point(0.0, 0.0, 0.0), Vector3::new(bits(0.0), bits(0.0), bits(1.0)))
}

fn hit(collider_idx: u32, distance: f32) -> RayHit {
    let d = if distance.is_nan() { None } else { Some(bits(distance)) };
    RayHit { collider_idx, loc: point(0.0, 0.0, distance), distance: d }
}

fn intersect(component: u32, collider_idx: u32, distance: f32) -> RayIntersect {
    RayIntersect { component: key(component), collider_idx, loc: point(0.0, 0.0, distance) }
}

fn hover_start(i: RayIntersect) -> Event {
    Event {
        key: EventKey::MouseHoverStartEvent(i.component),
        data: EventData::MouseHoverStartEvent { component: i.component, collider_idx: i.collider_idx, intersect_loc: i.loc },
    }
}

fn hovering(i: RayIntersect) -> Event {
    Event {
        key: EventKey::MouseHoveringEvent(i.component),
        data: EventData::MouseHoveringEvent { component: i.component, collider_idx: i.collider_idx, intersect_loc: i.loc },
    }
}

fn hover_end(i: RayIntersect) -> Event {
    Event {
        key: EventKey::MouseHoverEndEvent(i.component),
        data: EventData::MouseHoverEndEvent { component: i.component, collider_idx: i.collider_idx },
    }
}

fn select(i: RayIntersect) -> Event {
    Event {
        key: EventKey::MouseSelectEvent(i.component),
        data: EventData::MouseSelectEvent { component: i.component, collider_idx: i.collider_idx, intersect_loc: i.loc },
    }
}

/// Colliders 0, 1, 2 owned by entities 10, 20, 30.
fn scene() -> CollisionManager<()> {
    let mut manager = CollisionManager::new();
    manager.add_component_collider((), key(10), None).unwrap();
    manager.add_component_collider((), key(20), None).unwrap();
    manager.add_component_collider((), key(30), None).unwrap();
    manager
}

#[test]
fn a_new_pointer_has_picked_nothing() {
    let mouse = Mouse::new(bits(10000.0));
    assert_eq!(mouse.ray, None);
    assert!(!mouse.pressed);
    assert_eq!(mouse.max_dist, bits(10000.0));
    assert_eq!(mouse.last_intersect, None);
    assert_eq!(mouse.closest_intersect, None);
    assert_eq!(mouse.trigger_mouse_events(), vec![]);
}

#[test]
fn the_nearest_hit_is_picked() {
    let manager = scene();
    assert_eq!(pick_closest(&manager, &vec![]), None);
    assert_eq!(pick_closest(&manager, &vec![hit(0, 5.0), hit(1, 2.0), hit(2, 9.0)]), Some(intersect(20, 1, 2.0)));
    assert_eq!(pick_closest(&manager, &vec![hit(1, 2.0), hit(0, 5.0)]), Some(intersect(20, 1, 2.0)));
    assert_eq!(pick_closest(&manager, &vec![hit(2, 0.0), hit(0, 5.0)]), Some(intersect(30, 2, 0.0)));
}

#[test]
fn of_equally_near_hits_the_last_tested_is_picked() {
    let manager = scene();
    assert_eq!(pick_closest(&manager, &vec![hit(0, 2.0), hit(1, 2.0), hit(2, 7.0)]), Some(intersect(20, 1, 2.0)));
    assert_eq!(pick_closest(&manager, &vec![hit(1, 2.0), hit(0, 2.0)]), Some(intersect(10, 0, 2.0)));
}

#[test]
fn hits_of_colliders_that_are_gone_are_not_picked() {
    let mut manager = scene();
    manager.remove_component_colliders(key(20));
    assert_eq!(pick_closest(&manager, &vec![hit(1, 1.0), hit(0, 5.0), hit(77, 0.5)]), Some(intersect(10, 0, 5.0)));
    assert_eq!(pick_closest(&manager, &vec![hit(1, 1.0)]), None);
}

#[test]
fn a_distance_that_is_not_a_number_compares_equal() {
    let manager = scene();
    assert!(!is_farther(None, Some(bits(1.0))));
    assert!(!is_farther(Some(bits(1.0)), None));
    assert!(!is_farther(None, None));
    assert!(is_farther(Some(bits(2.0)), Some(bits(1.0))));
    assert!(!is_farther(Some(bits(1.0)), Some(bits(1.0))));
    assert!(!is_farther(Some(bits(1.0)), Some(bits(2.0))));
    // A hit without a distance takes the pick, and the next hit takes it back.
    let picked = pick_closest(&manager, &vec![hit(0, 1.0), hit(1, f32::NAN)]).unwrap();
    assert_eq!(picked.collider_idx, 1);
    let picked = pick_closest(&manager, &vec![hit(1, f32::NAN), hit(0, 1.0)]).unwrap();
    assert_eq!(picked.collider_idx, 0);
}

#[test]
fn hover_from_start_to_end() {
    let manager = scene();
    let mut mouse = Mouse::new(bits(10000.0));
    mouse.update_mouse_state(Some(ray()), false);

    mouse.intersect_colliders(&manager, &vec![hit(0, 3.0)]);
    assert_eq!(mouse.trigger_mouse_events(), vec![hover_start(intersect(10, 0, 3.0)), hovering(intersect(10, 0, 3.0))]);

    mouse.intersect_colliders(&manager, &vec![hit(0, 4.0)]);
    assert_eq!(mouse.trigger_mouse_events(), vec![hovering(intersect(10, 0, 4.0))]);

    mouse.intersect_colliders(&manager, &vec![]);
    assert_eq!(mouse.trigger_mouse_events(), vec![hover_end(intersect(10, 0, 4.0))]);

    mouse.intersect_colliders(&manager, &vec![]);
    assert_eq!(mouse.trigger_mouse_events(), vec![]);
}

#[test]
fn moving_to_another_collider_ends_one_hover_and_starts_the_next() {
    let manager = scene();
    let mut mouse = Mouse::new(bits(10000.0));
    mouse.update_mouse_state(Some(ray()), false);
    mouse.intersect_colliders(&manager, &vec![hit(0, 3.0)]);
    mouse.intersect_colliders(&manager, &vec![hit(1, 2.0), hit(0, 3.0)]);
    assert_eq!(
        mouse.trigger_mouse_events(),
        vec![hover_start(intersect(20, 1, 2.0)), hover_end(intersect(10, 0, 3.0)), hovering(intersect(20, 1, 2.0))]
    );
}

#[test]
fn select_fires_only_while_the_button_is_held() {
    let manager = scene();
    let mut mouse = Mouse::new(bits(10000.0));
    mouse.update_mouse_state(Some(ray()), true);
    mouse.intersect_colliders(&manager, &vec![hit(0, 3.0)]);
    assert_eq!(mouse.trigger_mouse_events(), vec![select(intersect(10, 0, 3.0))]);

    mouse.intersect_colliders(&manager, &vec![hit(0, 3.0)]);
    assert_eq!(mouse.trigger_mouse_events(), vec![select(intersect(10, 0, 3.0))]);

    mouse.intersect_colliders(&manager, &vec![hit(1, 3.0)]);
    assert_eq!(mouse.trigger_mouse_events(), vec![select(intersect(20, 1, 3.0)), hover_end(intersect(10, 0, 3.0))]);

    mouse.update_mouse_state(Some(ray()), false);
    mouse.intersect_colliders(&manager, &vec![hit(1, 3.0)]);
    assert_eq!(mouse.trigger_mouse_events(), vec![hovering(intersect(20, 1, 3.0))]);

    mouse.update_mouse_state(Some(ray()), true);
    mouse.intersect_colliders(&manager, &vec![]);
    assert_eq!(mouse.trigger_mouse_events(), vec![hover_end(intersect(20, 1, 3.0))]);
}

#[test]
fn without_a_ray_the_pick_stays() {
    let manager = scene();
    let mut mouse = Mouse::new(bits(10000.0));
    mouse.update_mouse_state(Some(ray()), false);
    mouse.intersect_colliders(&manager, &vec![hit(0, 3.0)]);
    mouse.update_mouse_state(None, true);
    assert_eq!(mouse.ray, None);
    assert!(mouse.pressed);
    let before = mouse;
    mouse.intersect_colliders(&manager, &vec![hit(1, 1.0)]);
    assert_eq!(mouse, before);
    assert_eq!(mouse.closest_intersect, Some(intersect(10, 0, 3.0)));
    assert_eq!(mouse.last_intersect, None);
}

#[test]
fn input_does_not_touch_the_pick() {
    let manager = scene();
    let mut mouse = Mouse::new(bits(500.0));
    mouse.update_mouse_state(Some(ray()), false);
    mouse.intersect_colliders(&manager, &vec![hit(2, 3.0)]);
    mouse.update_mouse_state(Some(ray()), true);
    assert_eq!(mouse.closest_intersect, Some(intersect(30, 2, 3.0)));
    assert_eq!(mouse.max_dist, bits(500.0));
    assert!(mouse.pressed);
}
