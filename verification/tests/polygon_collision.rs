use m_engine::polygon::{find_particle_vs_polygon_collision, is_point_outside_corner};
use m_engine::{Contact, LineSegment, Polygon, Tick, TICKS_PER_SECOND};

// The geometry in floating point, as the caller of the library supplies it.

const DISTANCE_EPS: f64 = 1e-8;
const DOUBLE_COMPARE_EPS_STRICT: f64 = 1e-10;

type Vec2 = (f64, f64);

fn add(a: Vec2, b: Vec2) -> Vec2 {
    (a.0 + b.0, a.1 + b.1)
}

fn sub(a: Vec2, b: Vec2) -> Vec2 {
    (a.0 - b.0, a.1 - b.1)
}

fn scale(a: Vec2, s: f64) -> Vec2 {
    (a.0 * s, a.1 * s)
}

fn dot(a: Vec2, b: Vec2) -> f64 {
    a.0 * b.0 + a.1 * b.1
}

fn cross(a: Vec2, b: Vec2) -> f64 {
    a.0 * b.1 - a.1 * b.0
}

fn normalized(a: Vec2) -> Option<Vec2> {
    let length = dot(a, a).sqrt();
    if length < DISTANCE_EPS {
        None
    } else {
        Some((a.0 / length, a.1 / length))
    }
}

fn approx_eq(a: f64, b: f64, epsilon: f64) -> bool {
    (a - b).abs() < epsilon
}

fn vec_approx_eq(a: Vec2, b: Vec2, epsilon: f64) -> bool {
    approx_eq(a.0, b.0, epsilon) && approx_eq(a.1, b.1, epsilon)
}

// The outward normal of an edge and the distance of its line from the origin.
fn plane(edge: &LineSegment<Vec2>) -> Option<(Vec2, f64)> {
    let direction = normalized(sub(edge.end, edge.begin))?;
    let normal = (direction.1, -direction.0);
    Some((normal, dot(normal, edge.begin)))
}

fn find_circle_vs_origin_collision(center: Vec2, radius: f64, velocity: Vec2) -> Option<f64> {
    if dot(velocity, center) >= 0.0 {
        return None;
    }
    let a = dot(velocity, velocity);
    let b = 2.0 * dot(center, velocity);
    let c = dot(center, center) - radius * radius;
    let discriminant = b * b - 4.0 * a * c;
    if discriminant < 0.0 {
        return None;
    }
    let root = discriminant.sqrt();
    let t = ((-b + root) / (2.0 * a)).min((-b - root) / (2.0 * a));
    let outward = normalized(add(center, scale(velocity, t))).unwrap();
    let heading = normalized(velocity).unwrap();
    if dot(outward, heading).abs() < DOUBLE_COMPARE_EPS_STRICT {
        return None;
    }
    Some(t)
}

fn find_point_vs_segment_collision(point: Vec2, velocity: Vec2, segment: &LineSegment<Vec2>) -> Option<f64> {
    let (normal, distance) = plane(segment)?;
    let approach_speed = -dot(velocity, normal);
    if approach_speed <= 0.0 {
        return None;
    }
    let t = (dot(point, normal) - distance) / approach_speed;
    let collision_point = add(point, scale(velocity, t));
    if dot(sub(collision_point, segment.begin), sub(collision_point, segment.end)) <= 0.0 {
        Some(t)
    } else {
        None
    }
}

fn ticks(seconds: f64) -> Tick {
    (seconds * TICKS_PER_SECOND as f64) as Tick
}

fn seconds(ticks: Tick) -> f64 {
    ticks as f64 / TICKS_PER_SECOND as f64
}

fn outside_corner(polygon: &Polygon<Vec2>, vertex_index: usize, point: Vec2) -> bool {
    let (edge1, edge2) = polygon.corner_edges(vertex_index);
    let (normal1, distance1) = plane(&edge1).unwrap();
    let (normal2, distance2) = plane(&edge2).unwrap();
    let convex = cross(sub(edge1.end, edge1.begin), sub(edge2.end, edge2.begin)) > 0.0;
    is_point_outside_corner(convex, dot(normal1, point) - distance1 > 0.0, dot(normal2, point) - distance2 > 0.0)
}

// The collision of a moving particle with a polygon: time and normal, if any.
fn particle_vs_polygon(center: Vec2, radius: f64, velocity: Vec2, polygon: &Polygon<Vec2>) -> Option<(f64, Vec2)> {
    let mut vertex_contacts = Vec::new();
    for (vertex_index, vertex) in polygon.points.iter().enumerate() {
        let mut contact = None;
        if outside_corner(polygon, vertex_index, center) {
            let local_center = sub(center, *vertex);
            if let Some(t) = find_circle_vs_origin_collision(local_center, radius, velocity) {
                let at = add(local_center, scale(velocity, t));
                if let Some(normal) = normalized(at).or(normalized(velocity)) {
                    contact = Some(Contact { time: ticks(t), normal });
                }
            }
        }
        vertex_contacts.push(contact);
    }
    let mut edge_contacts = Vec::new();
    for edge in polygon.edges() {
        let mut contact = None;
        let (normal, distance) = plane(&edge).unwrap();
        if dot(normal, center) - distance > 0.0 {
            let off_edge =
                LineSegment::new(add(edge.begin, scale(normal, radius)), add(edge.end, scale(normal, radius)));
            if let Some(t) = find_point_vs_segment_collision(center, velocity, &off_edge) {
                contact = Some(Contact { time: ticks(t), normal });
            }
        }
        edge_contacts.push(contact);
    }
    find_particle_vs_polygon_collision(&vertex_contacts, &edge_contacts).map(|c| (seconds(c.time), c.normal))
}

fn new_rectangle(x1: f64, y1: f64, x2: f64, y2: f64) -> Polygon<Vec2> {
    Polygon::from(vec![(x1, y1), (x2, y1), (x2, y2), (x1, y2)])
}

// The collision of a circle with the origin, on which the collisions with
// the corners of a polygon rest.
#[test]
fn test_find_circles_vs_origin_collision() {
    // When departing - no collision even if overlapping
    assert!(find_circle_vs_origin_collision((0.8, 0.0), 1.0, (1.0, 0.0)).is_none());

    // 0 distance
    let res = find_circle_vs_origin_collision((0.0, 2.0), 2.0, (0.0, -2.0)).expect("Collision expected");
    assert!(approx_eq(res, 0.0, DOUBLE_COMPARE_EPS_STRICT));

    // When already having overlap - returns negative time
    let res = find_circle_vs_origin_collision((0.5, 0.0), 1.0, (-2.0, 0.0)).expect("Collision expected");
    assert!(approx_eq(res, -0.25, DOUBLE_COMPARE_EPS_STRICT));

    // Normal approach - returns first collision
    let res = find_circle_vs_origin_collision((3.0, 0.0), 1.0, (-2.0, 0.0)).expect("Collision expected");
    assert!(approx_eq(res, 1.0, DOUBLE_COMPARE_EPS_STRICT));

    // Barely hit
    let res = find_circle_vs_origin_collision((1.0, -5.0), 1.0001, (0.0, 2.0)).expect("Collision expected");
    assert!(approx_eq(res, 2.5, 0.01)); // higher epsilon because of large error expected

    // Just miss
    assert!(find_circle_vs_origin_collision((1.0, -5.0), 0.999, (0.0, 2.0)).is_none());

    // Tangent - no collision
    let res = find_circle_vs_origin_collision((1.0, -5.0), 1.0, (0.0, 2.0));
    assert!(res.is_none());
}

#[test]
fn test_find_particle_vs_polygon_edge_collision() {
    // Make a rectangle
    let polygon = new_rectangle(1.0, 1.0, 4.0, 3.0);

    // Collision from outside (moving from top down)
    let res = particle_vs_polygon((3.0, 6.0), 1.0, (0.0, -2.0), &polygon).expect("Collision expected");
    assert!(approx_eq(res.0, 1.0, DOUBLE_COMPARE_EPS_STRICT));
    assert!(vec_approx_eq(res.1, (0.0, 1.0), DOUBLE_COMPARE_EPS_STRICT));

    // When there is small penetration (< radius) - collision is in the past
    let res = particle_vs_polygon((3.0, 3.1), 0.5, (0.0, -2.0), &polygon).expect("Collision expected");
    assert!(approx_eq(res.0, -0.2, DOUBLE_COMPARE_EPS_STRICT));
    assert!(vec_approx_eq(res.1, (0.0, 1.0), DOUBLE_COMPARE_EPS_STRICT));

    // When penetration is larger than radius - no collision
    assert!(particle_vs_polygon((3.0, 2.99), 0.5, (0.0, -2.0), &polygon).is_none());

    // When fully inside - no collision
    assert!(particle_vs_polygon((3.0, 2.0), 0.5, (0.0, -2.0), &polygon).is_none());

    // When starting to exit, but center is still inside - no collision
    assert!(particle_vs_polygon((3.0, 0.1), 0.5, (0.0, -2.0), &polygon).is_none());

    // When exiting. Center outside, but there is overlap - no collision
    assert!(particle_vs_polygon((3.0, -0.2), 0.5, (0.0, -2.0), &polygon).is_none());

    // When exited completely - no collision
    assert!(particle_vs_polygon((3.0, -2.2), 0.5, (0.0, -2.0), &polygon).is_none());
}

#[test]
fn test_find_particle_vs_polygon_vertex_collision() {
    // Make CCW rhombus for convenient math
    let polygon = Polygon::from(vec![(1.0, 0.0), (2.0, 1.0), (1.0, 2.0), (2.0, 1.0)]);

    // Hitting from outside into the right vertex
    let res = particle_vs_polygon((4.0, 1.0), 1.0, (-2.0, 0.0), &polygon).expect("Collision expected");
    assert!(approx_eq(res.0, 0.5, DOUBLE_COMPARE_EPS_STRICT));
    assert!(vec_approx_eq(res.1, (1.0, 0.0), DOUBLE_COMPARE_EPS_STRICT));

    // When there is a bit of penetration - collision in the past
    let res = particle_vs_polygon((2.2, 1.0), 1.0, (-2.0, 0.0), &polygon).expect("Collision expected");
    assert!(approx_eq(res.0, -0.4, DOUBLE_COMPARE_EPS_STRICT));
    assert!(vec_approx_eq(res.1, (1.0, 0.0), DOUBLE_COMPARE_EPS_STRICT));

    // When penetration is deeper (center inside) - no collision
    assert!(particle_vs_polygon((1.9, 1.0), 1.0, (-2.0, 0.0), &polygon).is_none());

    // Now test the collision with vertex at an angle.
    let res = particle_vs_polygon((2.99, -1.0), 1.0, (0.0, 1.0), &polygon).expect("Collision expected");
    // Barely scraping the vertex. The exact result is hard to calculate
    // But roughly:
    assert!(approx_eq(res.0, 1.8, 0.1));
    assert!(vec_approx_eq(res.1, (1.0, 0.0), 0.2));
}
