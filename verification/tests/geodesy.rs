use camden::types::{Envelope, Point, Rect, split_envelope, SPLIT_LNG_MAX, SPLIT_LNG_MIN};

#[test]
fn clamp_is_idempotent_and_in_range() {
    let p = Point { lat: 95_000_000, lng: 190_000_000 };
    let c = p.clamp();
    assert_eq!(c.lat, 90_000_000);
    assert_eq!(c.lng, -170_000_000);
    let c2 = c.clamp();
    assert_eq!(c, c2);

    let q = Point { lat: -100_000_000, lng: -190_000_000 };
    let cq = q.clamp();
    assert_eq!(cq.lat, -90_000_000);
    assert_eq!(cq.lng, 170_000_000);
    assert_eq!(cq, cq.clamp());
}

#[test]
fn clamp_keeps_points_already_in_range() {
    let p = Point { lat: 40_000_000, lng: -74_000_000 };
    assert_eq!(p.clamp(), p);
}

#[test]
fn split_leaves_a_plain_envelope_alone() {
    let env = Envelope { min_lng: -3_000_000, min_lat: 49_500_000, max_lng: 5_000_000, max_lat: 63_000_000 };
    let parts = split_envelope(&env);
    assert_eq!(parts.len(), 1);
    assert_eq!(parts[0], env);
}

#[test]
fn split_divides_a_wrapped_envelope_at_the_antimeridian() {
    let env = Envelope { min_lng: 170_000_000, min_lat: 0, max_lng: -170_000_000, max_lat: 10_000_000 };
    let parts = split_envelope(&env);
    assert_eq!(parts.len(), 2);
    let east = parts[0];
    let west = parts[1];
    assert_eq!(east.min_lng, 170_000_000);
    assert_eq!(east.max_lng, SPLIT_LNG_MAX);
    assert_eq!(west.min_lng, SPLIT_LNG_MIN);
    assert_eq!(west.max_lng, -170_000_000);
    // latitude ranges are kept, and the longitude bands cannot overlap
    assert_eq!(east.min_lat, env.min_lat);
    assert_eq!(east.max_lat, env.max_lat);
    assert_eq!(west.min_lat, env.min_lat);
    assert_eq!(west.max_lat, env.max_lat);
    assert!(west.max_lng < east.min_lng);
}

#[test]
fn scale_grows_around_the_center() {
    let r = Rect::new(-10_000_000, -10_000_000, 10_000_000, 10_000_000);
    let bigger = r.scale(2000);
    assert_eq!(bigger.south_west.lng, -20_000_000);
    assert_eq!(bigger.south_west.lat, -20_000_000);
    assert_eq!(bigger.north_east.lng, 20_000_000);
    assert_eq!(bigger.north_east.lat, 20_000_000);
    let same = r.scale(1000);
    assert_eq!(same, r);
}
