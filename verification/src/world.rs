use vstd::prelude::*;
use crate::ray::{lemma_nearest_candidate_unique, nearest_candidate, nearest_index, Intersection};

verus! {

broadcast use {
    vstd::seq_lib::group_to_multiset_ensures,
    vstd::seq_lib::group_filter_ensures,
    vstd::seq::Seq::lemma_filter_push,
};

/// The crossings of a list that lie in front of the ray, in list order.
pub open spec fn positives(s: Seq<Intersection>) -> Seq<Intersection> {
    s.filter(|x: Intersection| x.t > 0)
}

/// The list is ordered by ascending parametric distance.
pub open spec fn sorted_by_t(s: Seq<Intersection>) -> bool {
    forall|i: int, j: int| 0 <= i <= j < s.len() ==> s[i].t <= s[j].t
}

/// Where one more crossing lands in an ordered list: before the first
/// crossing farther than it, after every crossing at its own distance.
pub open spec fn insert_ordered(s: Seq<Intersection>, x: Intersection) -> Seq<Intersection>
    decreases s.len(),
{
    if s.len() == 0 {
        seq![x]
    } else if s[0].t <= x.t {
        seq![s[0]] + insert_ordered(s.drop_first(), x)
    } else {
        seq![x] + s
    }
}

/// The ordered form of a crossing list: each entry inserted in turn, so
/// crossings at one and the same distance keep their input order.
pub open spec fn ordered(s: Seq<Intersection>) -> Seq<Intersection>
    decreases s.len(),
{
    if s.len() == 0 {
        s
    } else {
        insert_ordered(ordered(s.drop_last()), s.last())
    }
}

/// Inserting at the first position whose crossing lies farther is what
/// `insert_ordered` describes.
proof fn lemma_insert_ordered_at(s: Seq<Intersection>, x: Intersection, k: int)
    requires
        0 <= k <= s.len(),
        forall|j: int| 0 <= j < k ==> #[trigger] s[j].t <= x.t,
        k < s.len() ==> s[k].t > x.t,
    ensures
        insert_ordered(s, x) == s.insert(k, x),
    decreases s.len(),
{
    if k == 0 {
        assert(insert_ordered(s, x) =~= s.insert(0, x));
    } else {
        assert(s[0].t <= x.t);
        lemma_insert_ordered_at(s.drop_first(), x, k - 1);
        assert(insert_ordered(s, x) == seq![s[0]] + s.drop_first().insert(k - 1, x));
        assert(seq![s[0]] + s.drop_first().insert(k - 1, x) =~= s.insert(k, x));
    }
}

/// Inserts one crossing into an ordered list, keeping the order.
fn sorted_insert(out: &mut Vec<Intersection>, x: Intersection)
    requires
        sorted_by_t(old(out)@),
    ensures
        sorted_by_t(final(out)@),
        final(out)@ == insert_ordered(old(out)@, x),
        final(out)@.to_multiset() == old(out)@.to_multiset().insert(x),
        final(out)@.len() == old(out)@.len() + 1,
        forall|i: int|
            0 <= i < final(out)@.len() ==> (#[trigger] final(out)@[i] == x || old(
                out,
            )@.contains(final(out)@[i])),
{
    let mut k: usize = 0;
    while k < out.len() && out[k].t <= x.t
        invariant
            k <= out@.len(),
            sorted_by_t(out@),
            out@ == old(out)@,
            forall|j: int| 0 <= j < k ==> #[trigger] out@[j].t <= x.t,
        decreases out@.len() - k,
    {
        k = k + 1;
    }
    proof {
        old(out)@.insert_ensures(k as int, x);
    }
    out.insert(k, x);
    proof {
        let s = old(out)@;
        assert(out@ == s.insert(k as int, x));
        lemma_insert_ordered_at(s, x, k as int);
        assert forall|i: int, j: int| 0 <= i <= j < out@.len() implies out@[i].t <= out@[j].t by {
            if k < s.len() {
                assert(s[k as int].t > x.t);
            }
        }
        assert forall|i: int|
            0 <= i < out@.len() implies (#[trigger] out@[i] == x || s.contains(out@[i])) by {
            if i < k {
                assert(out@[i] == s[i]);
            } else if i > k {
                assert(out@[i] == s[i - 1]);
            }
        }
    }
}

/// Merges the crossings every object reported for one ray, keeps those in
/// front of the ray, and orders them by ascending distance: the visible
/// crossings of the scene, nearest first.
pub fn intersect_world(intersections: Vec<Intersection>) -> (r: Vec<Intersection>)
    ensures
        r@ == ordered(positives(intersections@)),
        sorted_by_t(r@),
        r@.to_multiset() == positives(intersections@).to_multiset(),
        forall|i: int| 0 <= i < r@.len() ==> #[trigger] r@[i].t > 0,
{
    let mut r: Vec<Intersection> = Vec::new();
    let mut k: usize = 0;
    proof {
        reveal(Seq::filter);
        assert(intersections@.subrange(0, 0) =~= Seq::<Intersection>::empty());
        assert(positives(intersections@.subrange(0, 0)) =~= Seq::<Intersection>::empty());
    }
    while k < intersections.len()
        invariant
            k <= intersections@.len(),
            sorted_by_t(r@),
            r@ == ordered(positives(intersections@.subrange(0, k as int))),
            r@.to_multiset() == positives(intersections@.subrange(0, k as int)).to_multiset(),
            forall|i: int| 0 <= i < r@.len() ==> #[trigger] r@[i].t > 0,
        decreases intersections@.len() - k,
    {
        let x = intersections[k];
        proof {
            assert(intersections@.subrange(0, k + 1 as int) =~= intersections@.subrange(
                0,
                k as int,
            ).push(x));
            let before = positives(intersections@.subrange(0, k as int));
            if x.t > 0 {
                assert(before.push(x).drop_last() =~= before);
                assert(before.push(x).last() == x);
                assert(ordered(before.push(x)) == insert_ordered(ordered(before), x));
            }
        }
        if x.t > 0 {
            sorted_insert(&mut r, x);
        }
        k = k + 1;
    }
    proof {
        assert(intersections@.subrange(0, intersections@.len() as int) =~= intersections@);
    }
    r
}

/// The first entry of the world query is the nearest visible crossing of
/// the scene: shading a ray from it shades the hit.  Any list `r` meeting
/// the world query's contract for input `xs` starts, when it is not empty,
/// with a crossing of `xs` that lies in front of the ray and than which no
/// crossing of `xs` in front of the ray is nearer.
pub proof fn lemma_world_query_first_is_nearest(xs: Seq<Intersection>, r: Seq<Intersection>)
    requires
        sorted_by_t(r),
        r.to_multiset() == positives(xs).to_multiset(),
        forall|i: int| 0 <= i < r.len() ==> #[trigger] r[i].t > 0,
        r.len() > 0,
    ensures
        r[0].t > 0,
        xs.contains(r[0]),
        forall|j: int| 0 <= j < xs.len() && #[trigger] xs[j].t > 0 ==> r[0].t <= xs[j].t,
{
    broadcast use vstd::seq::Seq::lemma_filter_contains_rev;

    assert(r.contains(r[0]));
    assert(positives(xs).to_multiset().count(r[0]) > 0);
    assert(positives(xs).contains(r[0]));
    assert(xs.contains(r[0]));
    assert forall|j: int| 0 <= j < xs.len() && #[trigger] xs[j].t > 0 implies r[0].t <= xs[j].t by {
        xs.lemma_filter_contains(|x: Intersection| x.t > 0, j);
        assert(positives(xs).contains(xs[j]));
        assert(r.to_multiset().count(xs[j]) > 0);
        assert(r.contains(xs[j]));
        let k = choose|k: int| 0 <= k < r.len() && r[k] == xs[j];
        assert(r[0].t <= r[k].t);
    }
}

/// `h`, found at position `i`, is the first positive hit of the shadow
/// ray's crossing list `xs`: the nearest crossing strictly in front of
/// the shaded point.  A crossing at the point itself (distance zero) does
/// not count here; encodings are integers, so strictly positive means
/// `t >= 1`.
pub open spec fn shadow_candidate(xs: Seq<Intersection>, h: Intersection, i: int) -> bool {
    nearest_candidate(xs, h, i, 1)
}

/// Decides the shadow test for one light.  `intersections` holds the
/// crossings along the ray from the shaded point toward the light,
/// `casts_shadow` tells for each object of the scene whether it throws a
/// shadow, and `distance` is the encoded distance from the point to the
/// light.  The point is shadowed exactly when the first positive hit of
/// the list belongs to a shadow-casting object that stands nearer than
/// the light.
pub fn is_shadowed_for_light(
    intersections: &Vec<Intersection>,
    casts_shadow: &Vec<bool>,
    distance: i64,
) -> (r: bool)
    requires
        forall|i: int|
            0 <= i < intersections@.len() ==> #[trigger] intersections@[i].object
                < casts_shadow@.len(),
    ensures
        r == exists|h: Intersection, i: int|
            #[trigger] shadow_candidate(intersections@, h, i) && casts_shadow@[h.object as int]
                && h.t < distance,
{
    let index = nearest_index(intersections, 1);
    match index {
        Option::None => {
            proof {
                assert forall|h: Intersection, i: int| !(#[trigger] shadow_candidate(
                    intersections@,
                    h,
                    i,
                ) && casts_shadow@[h.object as int] && h.t < distance) by {
                    if shadow_candidate(intersections@, h, i) {
                        assert(intersections@[i].t >= 1);
                    }
                }
            }
            false
        },
        Option::Some(i) => {
            let h = intersections[i];
            let r = casts_shadow[h.object] && h.t < distance;
            proof {
                assert(shadow_candidate(intersections@, h, i as int));
                if r {
                    assert(exists|h2: Intersection, i2: int|
                        #[trigger] shadow_candidate(intersections@, h2, i2) && casts_shadow@[h2.object
                            as int] && h2.t < distance);
                } else {
                    assert forall|h2: Intersection, i2: int| !(#[trigger] shadow_candidate(
                        intersections@,
                        h2,
                        i2,
                    ) && casts_shadow@[h2.object as int] && h2.t < distance) by {
                        if shadow_candidate(intersections@, h2, i2) {
                            lemma_nearest_candidate_unique(
                                intersections@,
                                h,
                                i as int,
                                h2,
                                i2,
                                1,
                            );
                        }
                    }
                }
            }
            r
        },
    }
}

/// The object indices of an intersection list, in list order.
pub open spec fn objects_of(xs: Seq<Intersection>) -> Seq<usize> {
    xs.map_values(|x: Intersection| x.object)
}

/// One step of the nested-media walk over object `o`: the ray leaves `o`
/// if it was inside it, and enters it otherwise.
pub open spec fn container_step(c: Seq<usize>, o: usize) -> Seq<usize> {
    match c.index_of_first(o) {
        Option::Some(i) => c.remove(i),
        Option::None => c.push(o),
    }
}

/// The media the ray is inside after the first `k` crossings of the list:
/// each object entered and not yet left, in order of entry.
pub open spec fn container_at(objects: Seq<usize>, k: int) -> Seq<usize>
    decreases k,
{
    if k <= 0 {
        Seq::empty()
    } else {
        container_step(container_at(objects, k - 1), objects[k - 1])
    }
}

/// The medium that bounds the ray at a container state: the innermost
/// object, or `None` for the surrounding vacuum (refractive index 1.0).
pub open spec fn boundary_source(c: Seq<usize>) -> Option<usize> {
    if c.len() == 0 {
        Option::None
    } else {
        Option::Some(c.last())
    }
}

/// The innermost medium of the running container, `None` for the vacuum.
fn last_medium(container: &Vec<usize>) -> (r: Option<usize>)
    ensures
        r == boundary_source(container@),
{
    if container.len() == 0 {
        Option::None
    } else {
        Option::Some(container[container.len() - 1])
    }
}

/// First position of `needle` in the running container, if present.
fn position_of(container: &Vec<usize>, needle: usize) -> (r: Option<usize>)
    ensures
        match r {
            Option::Some(p) => p < container@.len() && container@[p as int] == needle && (forall|
                j: int,
            |
                0 <= j < p ==> #[trigger] container@[j] != needle),
            Option::None => !container@.contains(needle),
        },
{
    let mut k: usize = 0;
    while k < container.len()
        invariant
            k <= container@.len(),
            forall|j: int| 0 <= j < k ==> #[trigger] container@[j] != needle,
        decreases container@.len() - k,
    {
        if container[k] == needle {
            return Option::Some(k);
        }
        k = k + 1;
    }
    Option::None
}

/// First position of `needle` in the container equals `index_of_first`.
proof fn lemma_first_position(c: Seq<usize>, needle: usize, p: int)
    requires
        0 <= p < c.len(),
        c[p] == needle,
        forall|j: int| 0 <= j < p ==> #[trigger] c[j] != needle,
    ensures
        c.index_of_first(needle) == Some(p),
{
    assert(c.contains(needle));
    c.index_of_first_ensures(needle);
    let q = c.index_of_first(needle).unwrap();
    if q < p {
        assert(c[q] != needle);
    }
    if p < q {
        assert(c[p] != needle);
    }
}

/// Walks the ordered crossings of a ray and reports which objects supply
/// the refractive indices at the chosen hit: the medium the ray leaves
/// (for n1) and the medium it enters (for n2).  `None` stands for the
/// surrounding vacuum; the shading pipeline reads the refractive index
/// off the named object's material.
pub fn refraction_boundary(hit: &Intersection, intersection_list: &Vec<Intersection>) -> (r: (
    Option<usize>,
    Option<usize>,
))
    requires
        intersection_list@.contains(*hit),
    ensures
        ({
            let objs = objects_of(intersection_list@);
            let hidx = intersection_list@.index_of_first(*hit).unwrap();
            r.0 == boundary_source(container_at(objs, hidx)) && r.1 == boundary_source(
                container_at(objs, hidx + 1),
            )
        }),
{
    let ghost objs = objects_of(intersection_list@);
    let mut container: Vec<usize> = Vec::new();
    let mut k: usize = 0;
    while k < intersection_list.len()
        invariant
            k <= intersection_list@.len(),
            intersection_list@.contains(*hit),
            objs == objects_of(intersection_list@),
            container@ == container_at(objs, k as int),
            forall|j: int| 0 <= j < k ==> #[trigger] intersection_list@[j] != *hit,
        decreases intersection_list@.len() - k,
    {
        let x = intersection_list[k];
        let is_hit = x == *hit;
        let n1_source = if is_hit {
            last_medium(&container)
        } else {
            Option::None
        };
        let pos = position_of(&container, x.object);
        proof {
            assert(objs[k as int] == x.object);
            match pos {
                Option::Some(p) => {
                    lemma_first_position(container@, x.object, p as int);
                },
                Option::None => {
                    container@.index_of_first_ensures(x.object);
                },
            }
        }
        match pos {
            Option::Some(p) => {
                container.remove(p);
            },
            Option::None => {
                container.push(x.object);
            },
        }
        proof {
            assert(container@ == container_step(container_at(objs, k as int), objs[k as int]));
            assert(container@ == container_at(objs, k + 1 as int));
        }
        if is_hit {
            let n2_source = last_medium(&container);
            proof {
                intersection_list@.index_of_first_ensures(*hit);
                let q = intersection_list@.index_of_first(*hit).unwrap();
                if q < k {
                    assert(intersection_list@[q] != *hit);
                }
                if k < q {
                    assert(intersection_list@[k as int] != *hit);
                }
                assert(q == k as int);
            }
            return (n1_source, n2_source);
        }
        k = k + 1;
    }
    proof {
        let w = choose|i: int|
            0 <= i < intersection_list@.len() && intersection_list@[i] == *hit;
        assert(intersection_list@[w] != *hit);
        assert(false);
    }
    (Option::None, Option::None)
}

/// After processing any crossing of the list — the chosen hit in
/// particular — the set of media containing the ray differs in size by
/// exactly one from its size when entering that crossing: the crossed
/// object is either entered or left, never both.
pub proof fn lemma_refraction_container_change(objects: Seq<usize>, k: int)
    requires
        0 <= k < objects.len(),
    ensures
        ({
            let before = container_at(objects, k);
            let after = container_at(objects, k + 1);
            after.len() == before.len() + 1 || after.len() + 1 == before.len()
        }),
{
    let before = container_at(objects, k);
    let after = container_at(objects, k + 1);
    assert(after == container_step(before, objects[k]));
    match before.index_of_first(objects[k]) {
        Option::Some(i) => {
            before.index_of_first_ensures(objects[k]);
            assert(after == before.remove(i));
        },
        Option::None => {
            assert(after == before.push(objects[k]));
        },
    }
}

} // verus!
