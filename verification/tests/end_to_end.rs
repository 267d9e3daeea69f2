use cgmath::{
    EuclideanSpace, InnerSpace, Matrix4, MetricSpace, Point3, Quaternion, SquareMatrix, Transform,
    Vector2, Vector3,
};
use sdf_engine::collisions::{BoundaryProbe, Collider, Collision, CollisionManager, NORMAL_TOL};
use sdf_engine::component_store::ComponentKey;
use sdf_engine::events::{Event, EventData, EventKey};
use sdf_engine::mouse::Mouse;
use sdf_engine::raycasting::ray::{sphere_trace_start, sphere_trace_step, DEFAULT_ST_TOL};
use sdf_engine::raycasting::{Ray, RayHit, RaycastManager, TraceStep};
use sdf_engine::sdf::{cube_region, gradient_trace_step, Axis, CubeRegion, ProjectionStep, EPSILON};
use sdf_engine::space;

#[derive(Clone, Copy)]
enum Shape {
    Sphere { rad: f32 },
    Cube { half: Vector3<f32> },
}

fn key(index: u32) -> ComponentKey {
    ComponentKey { index }
}

fn enc_point(p: Point3<f32>) -> space::Point3 {
    space::Point3::new(p.x.to_bits(), p.y.to_bits(), p.z.to_bits())
}

fn enc_vec(v: Vector3<f32>) -> space::Vector3 {
    space::Vector3::new(v.x.to_bits(), v.y.to_bits(), v.z.to_bits())
}

fn dec_vec(v: space::Vector3) -> Vector3<f32> {
    Vector3::new(f32::from_bits(v.x), f32::from_bits(v.y), f32::from_bits(v.z))
}

fn dec_point(p: space::Point3) -> Point3<f32> {
    Point3::new(f32::from_bits(p.x), f32::from_bits(p.y), f32::from_bits(p.z))
}

fn dec_quat(q: space::Quaternion) -> Quaternion<f32> {
    Quaternion::new(f32::from_bits(q.s), f32::from_bits(q.x), f32::from_bits(q.y), f32::from_bits(q.z))
}

fn overshoot(axis: Axis, p: Point3<f32>, half: Vector3<f32>) -> f32 {
    match axis {
        Axis::X => p.x.abs() - half.x,
        Axis::Y => p.y.abs() - half.y,
        Axis::Z => p.z.abs() - half.z,
    }
}

fn dist(shape: &Shape, p: Point3<f32>) -> f32 {
    match *shape {
        Shape::Sphere { rad } => p.distance(Point3::new(0., 0., 0.)) - rad,
        Shape::Cube { half } => {
            let region = cube_region(p.x.abs() >= half.x, p.y.abs() >= half.y, p.z.abs() >= half.z);
            match region {
                CubeRegion::Interior => {
                    (p.x.abs() - half.x).max(p.y.abs() - half.y).max(p.z.abs() - half.z)
                }
                CubeRegion::Face(a) => overshoot(a, p, half),
                CubeRegion::Edge(a, b) => {
                    Vector2::new(overshoot(a, p, half), overshoot(b, p, half)).magnitude()
                }
                CubeRegion::Corner => Vector3::new(
                    p.x.abs() - half.x,
                    p.y.abs() - half.y,
                    p.z.abs() - half.z,
                )
                .magnitude(),
            }
        }
    }
}

fn normal(shape: &Shape, p: Point3<f32>) -> Vector3<f32> {
    let h: f32 = 1e-4;
    let d0 = dist(shape, p);
    let dx = dist(shape, p + Vector3::new(h, 0., 0.)) - d0;
    let dy = dist(shape, p + Vector3::new(0., h, 0.)) - d0;
    let dz = dist(shape, p + Vector3::new(0., 0., h)) - d0;
    Vector3::new(dx, dy, dz).normalize()
}

fn gradient_trace(shape: &Shape, start: Point3<f32>, max_iters: Option<usize>) -> Option<Point3<f32>> {
    let tol = f32::from_bits(EPSILON);
    let mut iter: usize = 0;
    let mut loc = start;
    loop {
        let next = loc + normal(shape, loc) * dist(shape, loc);
        match gradient_trace_step(iter, max_iters, dist(shape, next) < tol) {
            ProjectionStep::Miss => return None,
            ProjectionStep::Hit => return Some(next),
            ProjectionStep::Advance(count) => {
                loc = next;
                iter = count;
            }
        }
    }
}

fn sphere_trace(
    shape: &Shape,
    origin: Point3<f32>,
    direction: Vector3<f32>,
    max_dist: f32,
    max_iter: Option<u32>,
    steps: &mut u32,
) -> Option<Point3<f32>> {
    let tol = f32::from_bits(DEFAULT_ST_TOL);
    let mut iters = sphere_trace_start();
    let mut loc = origin;
    *steps = 0;
    loop {
        let in_range = origin.distance(loc) < max_dist;
        let step = dist(shape, loc);
        let next = loc + direction * step;
        match sphere_trace_step(iters, max_iter, in_range, step < tol) {
            TraceStep::Miss => return None,
            TraceStep::Hit => return Some(next),
            TraceStep::Advance(count) => {
                loc = next;
                iters = count;
                *steps += 1;
            }
        }
    }
}

fn coord_matrix(collider: &Collider<Shape>) -> Matrix4<f32> {
    let (pos, rot) = match collider.transform.get_global_transform() {
        Some(g) => (dec_vec(g.pos), dec_quat(g.rot)),
        None => (dec_vec(collider.transform.relative_pos), dec_quat(collider.transform.relative_rot)),
    };
    Matrix4::from_translation(pos) * Matrix4::from(rot)
}

fn closest_boundary_pt(collider: &Collider<Shape>, pt: Point3<f32>) -> Point3<f32> {
    let local = match coord_matrix(collider).invert() {
        Some(m) => m.transform_point(pt),
        None => pt,
    };
    gradient_trace(&collider.underlying, local, None).unwrap_or(Point3::new(0., 0., 0.))
}

fn collide(manager: &CollisionManager<Shape>, first: u32, second: u32) -> Option<Collision> {
    let this = manager.get_collider(first)?;
    let other = manager.get_collider(second)?;
    let center = dec_vec(this.transform.world_pos());
    let closest = closest_boundary_pt(other, Point3::from_vec(center));
    let to_local = coord_matrix(this).invert().unwrap_or(Matrix4::identity());
    let interior = dist(&this.underlying, to_local.transform_point(closest)) <= 0.;
    let near = dist(&this.underlying, closest).abs() <= f32::from_bits(NORMAL_TOL);
    let probe = BoundaryProbe {
        closest: enc_point(closest),
        interior,
        normal: if interior && near { Some(enc_vec(normal(&this.underlying, closest))) } else { None },
    };
    this.collide(other, &probe)
}

fn detection_pass(manager: &mut CollisionManager<Shape>) -> Vec<Event> {
    let mut detections = Vec::new();
    for (first, second) in manager.candidate_pairs() {
        if let Some(c) = collide(manager, first, second) {
            detections.push(c);
        }
    }
    manager.trigger_collision_events(&detections)
}

fn ray_hits(manager: &CollisionManager<Shape>, ray: &Ray, max_dist: f32) -> Vec<RayHit> {
    let origin = dec_point(ray.origin);
    let direction = dec_vec(ray.direction);
    let mut hits = Vec::new();
    for index in manager.collider_indices() {
        let collider = manager.get_collider(index).unwrap();
        let mut steps = 0;
        if let Some(loc) = sphere_trace(&collider.underlying, origin, direction, max_dist, None, &mut steps) {
            let d = loc.distance(origin);
            hits.push(RayHit {
                collider_idx: index,
                loc: enc_point(loc),
                distance: if d.is_nan() { None } else { Some(d.to_bits()) },
            });
        }
    }
    hits
}

fn count_kind(events: &[Event], wanted: fn(&EventKey) -> bool) -> usize {
    events.iter().filter(|e| wanted(&e.key)).count()
}

fn is_start(k: &EventKey) -> bool {
    matches!(k, EventKey::CollisionStartEvent(_))
}

fn is_ongoing(k: &EventKey) -> bool {
    matches!(k, EventKey::CollisionOngoingEvent(_))
}

fn is_end(k: &EventKey) -> bool {
    matches!(k, EventKey::CollisionEndEvent(_))
}

fn cube20() -> Shape {
    Shape::Cube { half: Vector3::new(20., 20., 20.) }
}

#[test]
fn cube_distance_is_symmetric_under_reflection() {
    let shape = Shape::Cube { half: Vector3::new(2., 3., 4.) };
    let coords = [-7.5f32, -4., -3., -2., -1., 0., 0.5, 2., 3., 4., 6.25];
    for &x in coords.iter() {
        for &y in coords.iter() {
            for &z in coords.iter() {
                let d = dist(&shape, Point3::new(x, y, z));
                assert_eq!(d, dist(&shape, Point3::new(-x, y, z)));
                assert_eq!(d, dist(&shape, Point3::new(x, -y, z)));
                assert_eq!(d, dist(&shape, Point3::new(x, y, -z)));
                assert_eq!(d, dist(&shape, Point3::new(-x, -y, -z)));
            }
        }
    }
}

#[test]
fn cube_distance_by_region() {
    let shape = Shape::Cube { half: Vector3::new(2., 3., 4.) };
    assert_eq!(dist(&shape, Point3::new(0., 0., 0.)), -2.);
    assert_eq!(dist(&shape, Point3::new(1., 2.5, 0.)), -0.5);
    assert_eq!(dist(&shape, Point3::new(5., 0., 0.)), 3.);
    assert_eq!(dist(&shape, Point3::new(0., -7., 1.)), 4.);
    assert_eq!(dist(&shape, Point3::new(5., 7., 0.)), 5.);
    assert_eq!(dist(&shape, Point3::new(0., 6., 8.)), 5.);
    assert_eq!(dist(&shape, Point3::new(4., 5., 5.)), 3.);
    // On a face, an edge and a corner the distance is zero.
    assert_eq!(dist(&shape, Point3::new(2., 0., 0.)), 0.);
    assert_eq!(dist(&shape, Point3::new(2., 3., 0.)), 0.);
    assert_eq!(dist(&shape, Point3::new(2., 3., 4.)), 0.);
}

#[test]
fn sphere_distance_sign() {
    let shape = Shape::Sphere { rad: 5. };
    assert!(dist(&shape, Point3::new(1., 2., 2.)) < 0.);
    assert_eq!(dist(&shape, Point3::new(3., 4., 0.)), 0.);
    assert!(dist(&shape, Point3::new(3., 4., 1.)) > 0.);
}

#[test]
fn ray_at_a_sphere_lands_on_its_surface() {
    let shape = Shape::Sphere { rad: 5. };
    let origin = Point3::new(30., -40., 120.);
    let direction = (Point3::new(0., 0., 0.) - origin).normalize();
    let mut steps = 0;
    let hit = sphere_trace(&shape, origin, direction, 1000., None, &mut steps).unwrap();
    assert!(dist(&shape, hit).abs() < 1e-3);
    assert!(steps < 1000);
}

#[test]
fn ray_from_the_surface_hits_within_one_step() {
    let shape = Shape::Sphere { rad: 5. };
    let mut steps = 0;
    let hit = sphere_trace(&shape, Point3::new(0., 0., -5.), Vector3::new(0., 0., 1.), 100., Some(1), &mut steps);
    assert_eq!(hit, Some(Point3::new(0., 0., -5.)));
    assert_eq!(steps, 0);
    let none = sphere_trace(&shape, Point3::new(0., 0., -5.), Vector3::new(0., 0., 1.), 100., Some(0), &mut steps);
    assert_eq!(none, None);
}

#[test]
fn ray_that_misses_gives_up() {
    let shape = Shape::Sphere { rad: 5. };
    let mut steps = 0;
    let away = sphere_trace(&shape, Point3::new(0., 0., -100.), Vector3::new(0., 0., -1.), 2000., None, &mut steps);
    assert!(away.is_none());
    let short = sphere_trace(&shape, Point3::new(0., 0., -100.), Vector3::new(0., 0., 1.), 50., None, &mut steps);
    assert!(short.is_none());
    let capped = sphere_trace(&shape, Point3::new(0., 0., -100.), Vector3::new(0., 1., 0.), 1.0e9, Some(4), &mut steps);
    assert!(capped.is_none());
    assert_eq!(steps, 4);
}

#[test]
fn projection_takes_one_step_by_default() {
    let shape = Shape::Sphere { rad: 5. };
    let p = gradient_trace(&shape, Point3::new(0., 0., 8.), None).unwrap();
    // One step along the gradient by the distance.
    assert!((p.z - 11.).abs() < 1e-2);
    assert!(gradient_trace(&shape, Point3::new(0., 0., 8.), Some(0)).is_none());
}

#[test]
fn box_and_sphere_start_and_end_a_collision() {
    let mut manager: CollisionManager<Shape> = CollisionManager::new();
    let cube = manager.add_component_collider(cube20(), key(1), None).unwrap();
    let sphere = manager.add_component_collider(Shape::Sphere { rad: 5. }, key(2), None).unwrap();

    let first = detection_pass(&mut manager);
    assert_eq!(first.len(), 4);
    assert!(is_start(&first[0].key) && is_start(&first[1].key));
    assert!(is_ongoing(&first[2].key) && is_ongoing(&first[3].key));
    assert_eq!(count_kind(&first, is_start), 2);
    assert_eq!(count_kind(&first, is_ongoing), 2);
    assert_eq!(count_kind(&first, is_end), 0);
    assert!(manager.is_colliding(cube, sphere));

    let second = detection_pass(&mut manager);
    assert_eq!(count_kind(&second, is_start), 0);
    assert_eq!(count_kind(&second, is_ongoing), 2);

    let identity = space::Quaternion::new(1f32.to_bits(), 0f32.to_bits(), 0f32.to_bits(), 0f32.to_bits());
    assert!(manager.update_transform(sphere, enc_vec(Vector3::new(100., 0., 0.)), identity));
    let third = detection_pass(&mut manager);
    assert_eq!(third.len(), 2);
    assert_eq!(count_kind(&third, is_end), 2);
    match third[0].data {
        EventData::CollisionEndEvent { c1, c2, collider_keys } => {
            assert!(IndexPairCheck::same(collider_keys, (cube, sphere)));
            assert!(c1 != c2);
        }
        _ => panic!("expected an end event"),
    }
    assert!(!manager.is_colliding(cube, sphere));
    assert_eq!(detection_pass(&mut manager), vec![]);
}

struct IndexPairCheck;

impl IndexPairCheck {
    fn same(a: (u32, u32), b: (u32, u32)) -> bool {
        a == b || a == (b.1, b.0)
    }
}

#[test]
fn colliders_of_one_entity_overlap_silently() {
    let mut manager: CollisionManager<Shape> = CollisionManager::new();
    manager.add_component_collider(cube20(), key(1), None).unwrap();
    manager.add_component_collider(Shape::Sphere { rad: 5. }, key(1), None).unwrap();
    assert_eq!(detection_pass(&mut manager), vec![]);
    assert_eq!(manager.colliding_pairs().len(), 0);
}

#[test]
fn raycast_at_the_box_hits_its_near_face() {
    let mut manager: CollisionManager<Shape> = CollisionManager::new();
    let cube = manager.add_component_collider(cube20(), key(1), None).unwrap();
    let ray = Ray::new(
        enc_point(Point3::new(0., 0., -1000.)),
        enc_vec(Vector3::new(0., 0., 1.)),
    );
    let mut raycasts = RaycastManager::new();
    let cast = raycasts.new_raycast(ray, 2000f32.to_bits(), key(7)).unwrap();
    let hits = ray_hits(&manager, &cast.ray, f32::from_bits(cast.max_dist));
    raycasts.intersect_colliders(&manager, &vec![(cast.id, hits)]);
    let found = &raycasts.get(cast.id).unwrap().intersections;
    assert_eq!(found.len(), 1);
    assert_eq!(found[0].collider_idx, cube);
    assert_eq!(found[0].component, key(1));
    assert!((f32::from_bits(found[0].loc.z) + 20.).abs() < 1e-3);
    let events = raycasts.trigger_raycast_events();
    assert_eq!(events.len(), 1);
    assert_eq!(events[0].key, EventKey::RaycastIntersectEvent(key(1)));
}

#[test]
fn pointer_picks_the_nearer_of_two_shapes() {
    let mut manager: CollisionManager<Shape> = CollisionManager::new();
    let cube = manager.add_component_collider(cube20(), key(1), None).unwrap();
    let _sphere = manager.add_component_collider(Shape::Sphere { rad: 5. }, key(2), None).unwrap();
    let ray = Ray::new(
        enc_point(Point3::new(0., 0., -1000.)),
        enc_vec(Vector3::new(0., 0., 1.)),
    );
    let mut mouse = Mouse::new(10000f32.to_bits());
    mouse.update_mouse_state(Some(ray), false);
    let hits = ray_hits(&manager, &ray, 10000.);
    assert_eq!(hits.len(), 2);
    mouse.intersect_colliders(&manager, &hits);
    let picked = mouse.closest_intersect.unwrap();
    assert_eq!(picked.collider_idx, cube);
    let events = mouse.trigger_mouse_events();
    assert_eq!(events.len(), 2);
    assert_eq!(events[0].key, EventKey::MouseHoverStartEvent(key(1)));
    assert_eq!(events[1].key, EventKey::MouseHoveringEvent(key(1)));
}
