use rustracer::ray::{hit_intersections, Intersection};

/// Order-preserving integer encoding of a parametric distance: encodings
/// compare exactly as the distances do, zero (of either sign) encodes as
/// zero, and an encoding is negative exactly when the distance is.
fn t_key(t: f64) -> i64 {
    if t == 0.0 {
        return 0;
    }
    let b = t.to_bits() as i64;
    if b >= 0 {
        b
    } else {
        -1 - (b - i64::MIN)
    }
}

#[test]
fn test_shape() {}

#[test]
///An intersection encapsulates t and object
fn intersection_creation() {
    let i = Intersection::new(t_key(3.5), 0);

    assert_eq!(i.t, t_key(3.5));
    assert_eq!(i.object, 0);
}

#[test]
///The hit, when all intersections have positive t
fn hit_intersections_1() {
    let i1 = Intersection::new(t_key(1.0), 0);
    let i2 = Intersection::new(t_key(2.0), 0);
    let intersections = vec![i1, i2];
    let i = hit_intersections(intersections).unwrap();
    assert_eq!(i, i1);
}

#[test]
///The hit, when some intersections have negative t
fn hit_intersections_2() {
    let i1 = Intersection::new(t_key(-1.0), 0);
    let i2 = Intersection::new(t_key(2.0), 0);
    let intersections = vec![i1, i2];
    let i = hit_intersections(intersections).unwrap();
    assert_eq!(i, i2);
}

#[test]
///The hit, when some intersections have negative t
fn hit_intersections_3() {
    let i1 = Intersection::new(t_key(-1.0), 0);
    let i2 = Intersection::new(t_key(-2.0), 0);
    let intersections = vec![i1, i2];
    let i = hit_intersections(intersections);
    assert_eq!(i, Option::None);
}

#[test]
///Scenario: The hit is always the lowest nonnegative intersection
fn hit_intersections_4() {
    let i1 = Intersection::new(t_key(5.0), 0);
    let i2 = Intersection::new(t_key(7.0), 0);
    let i3 = Intersection::new(t_key(-2.0), 0);
    let i4 = Intersection::new(t_key(2.0), 0);

    let intersections = vec![i1, i2, i3, i4];
    let i = hit_intersections(intersections).unwrap();
    assert_eq!(i, i4);
}

#[test]
///The hit is the least non-negative distance: a crossing exactly at the
///ray origin (t = 0) beats every crossing farther ahead
fn hit_intersections_at_origin() {
    let i1 = Intersection::new(t_key(5.0), 0);
    let i2 = Intersection::new(t_key(0.0), 1);
    let i3 = Intersection::new(t_key(-0.0), 2);
    let intersections = vec![i1, i2, i3];
    let i = hit_intersections(intersections).unwrap();
    assert_eq!(i, i2);

    let behind = vec![
        Intersection::new(t_key(-1.0), 0),
        Intersection::new(t_key(-0.25), 1),
    ];
    assert_eq!(hit_intersections(behind), Option::None);
}

#[test]
///Among crossings at the same distance the earliest entry wins
fn hit_intersections_tie() {
    let i1 = Intersection::new(t_key(3.0), 7);
    let i2 = Intersection::new(t_key(3.0), 9);
    let intersections = vec![i1, i2];
    let i = hit_intersections(intersections).unwrap();
    assert_eq!(i, i1);
    assert_eq!(i.object, 7);
}

#[test]
///The distance encoding keeps order and sign
fn t_key_order() {
    let samples = [-5.5, -1.0, -0.25, 0.0, 0.25, 1.0, 4.0, 4.5, 5.5, 6.0];
    for w in samples.windows(2) {
        assert!(t_key(w[0]) < t_key(w[1]));
    }
    assert!(t_key(1e-300) > 0);
    assert_eq!(t_key(0.0), 0);
    assert_eq!(t_key(-0.0), 0);
    assert!(t_key(-1e-300) < 0);
}
