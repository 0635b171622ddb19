use rustracer::ray::Intersection;
use rustracer::world::{intersect_world, is_shadowed_for_light, refraction_boundary};

/// Order-preserving integer encoding of a parametric distance; zero of
/// either sign encodes as zero.
fn t_key(t: f64) -> i64 {
    if t == 0.0 {
        return 0;
    }
    let b = t.to_bits() as i64;
    if b >= 0 {
        b
    } else {
        -1 - (b - i64::MIN)
    }
}

#[test]
///Intersect a world with a ray: the two spheres of the default world,
///crossed from (0,0,-5) toward +z, report t = 4, 6 and t = 4.5, 5.5;
///the merged list is ordered ascending.
fn intersect_world_test() {
    // crossings appended object by object, as the world query collects them
    let xs = vec![
        Intersection::new(t_key(4.0), 0),
        Intersection::new(t_key(6.0), 0),
        Intersection::new(t_key(4.5), 1),
        Intersection::new(t_key(5.5), 1),
    ];
    let r = intersect_world(xs);

    assert_eq!(r.len(), 4);
    assert_eq!(r[0].t, t_key(4.0));
    assert_eq!(r[1].t, t_key(4.5));
    assert_eq!(r[2].t, t_key(5.5));
    assert_eq!(r[3].t, t_key(6.0));
}

#[test]
///Crossings behind the ray are dropped by the world query
fn intersect_world_drops_behind() {
    let xs = vec![
        Intersection::new(t_key(-3.0), 0),
        Intersection::new(t_key(2.0), 1),
        Intersection::new(t_key(-0.5), 1),
        Intersection::new(t_key(1.0), 0),
    ];
    let r = intersect_world(xs);

    assert_eq!(r.len(), 2);
    assert_eq!(r[0], Intersection::new(t_key(1.0), 0));
    assert_eq!(r[1], Intersection::new(t_key(2.0), 1));
}

#[test]
///Crossings at one and the same distance keep their input order
fn intersect_world_keeps_tie_order() {
    let xs = vec![
        Intersection::new(t_key(5.0), 3),
        Intersection::new(t_key(5.0), 1),
        Intersection::new(t_key(5.0), 2),
    ];
    let r = intersect_world(xs);

    assert_eq!(r.len(), 3);
    assert_eq!(r[0].object, 3);
    assert_eq!(r[1].object, 1);
    assert_eq!(r[2].object, 2);
}

/// Refractive index of the medium a boundary source names: `None` is the
/// surrounding vacuum, an object index reads its material.
fn index_of(source: Option<usize>, materials: &[f64]) -> f64 {
    match source {
        None => 1.0,
        Some(o) => materials[o],
    }
}

#[test]
// Scenario Outline: Finding n1 and n2 at various intersections
fn refraction_at_intersection() {
    // three nested glass spheres a (outermost), b, c with refractive
    // indices 1.5, 2.0, 2.5, as objects 0, 1, 2
    let refractive = [1.5, 2.0, 2.5];

    let xs = vec![
        Intersection::new(t_key(2.0), 0),
        Intersection::new(t_key(2.75), 1),
        Intersection::new(t_key(3.25), 2),
        Intersection::new(t_key(4.75), 1),
        Intersection::new(t_key(5.25), 2),
        Intersection::new(t_key(6.0), 0),
    ];

    let valeurs = [
        [1.0, 1.5],
        [1.5, 2.0],
        [2.0, 2.5],
        [2.5, 2.5],
        [2.5, 1.5],
        [1.5, 1.0],
    ];

    for (i, elem) in xs.iter().enumerate() {
        let (n1_source, n2_source) = refraction_boundary(elem, &xs);

        assert_eq!(index_of(n1_source, &refractive), valeurs[i][0]);
        assert_eq!(index_of(n2_source, &refractive), valeurs[i][1]);
    }
}

#[test]
///Entering and leaving one glass sphere
fn refraction_single_sphere() {
    let refractive = [1.5];
    let xs = vec![
        Intersection::new(t_key(4.0), 0),
        Intersection::new(t_key(6.0), 0),
    ];

    let (n1, n2) = refraction_boundary(&xs[0], &xs);
    assert_eq!(index_of(n1, &refractive), 1.0);
    assert_eq!(index_of(n2, &refractive), 1.5);

    let (n1, n2) = refraction_boundary(&xs[1], &xs);
    assert_eq!(index_of(n1, &refractive), 1.5);
    assert_eq!(index_of(n2, &refractive), 1.0);
}

#[test]
///A shadow-casting object between the point and the light shadows the point
fn shadow_blocking_object() {
    // hit at t = 4 along the ray toward a light 14.14 away
    let xs = vec![Intersection::new(t_key(4.0), 0)];
    let casts = vec![true];
    assert!(is_shadowed_for_light(&xs, &casts, t_key(14.14)));
}

#[test]
///An object behind the light does not shadow the point
fn shadow_object_behind_light() {
    // the only crossing lies beyond the light
    let xs = vec![Intersection::new(t_key(20.0), 0)];
    let casts = vec![true];
    assert!(!is_shadowed_for_light(&xs, &casts, t_key(14.14)));
}

#[test]
///An object that casts no shadow never shadows the point
fn shadow_disabled_object() {
    let xs = vec![Intersection::new(t_key(4.0), 0)];
    let casts = vec![false];
    assert!(!is_shadowed_for_light(&xs, &casts, t_key(14.14)));
}

#[test]
///A crossing at the shaded point itself (distance zero) casts no shadow:
///the shadow test reads only the first strictly positive hit
fn shadow_crossing_at_point() {
    let xs = vec![Intersection::new(t_key(0.0), 0)];
    let casts = vec![true];
    assert!(!is_shadowed_for_light(&xs, &casts, t_key(14.14)));

    let xs2 = vec![
        Intersection::new(t_key(0.0), 0),
        Intersection::new(t_key(4.0), 1),
    ];
    let casts2 = vec![true, true];
    assert!(is_shadowed_for_light(&xs2, &casts2, t_key(14.14)));
}

#[test]
///Nothing between the point and the light: no shadow
fn shadow_nothing_between() {
    // crossings only behind the ray
    let xs = vec![
        Intersection::new(t_key(-2.0), 0),
        Intersection::new(t_key(-6.0), 1),
    ];
    let casts = vec![true, true];
    assert!(!is_shadowed_for_light(&xs, &casts, t_key(14.14)));
}
