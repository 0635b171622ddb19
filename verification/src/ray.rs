use vstd::prelude::*;

verus! {

/// A ray-surface crossing: the parametric distance `t` along the ray and
/// the index of the object that was hit in the scene's object list.
///
/// `t` is carried as an order-preserving integer encoding of the distance
/// the caller measured: two encodings compare exactly as the distances do,
/// a distance of zero (of either sign) encodes as zero, and an encoding is
/// negative exactly when the distance is.  The shading pipeline keeps the
/// measured distances beside the list and looks them up again by this
/// field.
#[derive(Debug, Clone, Copy, PartialEq, Eq, Structural)]
pub struct Intersection {
    pub t: i64,
    pub object: usize,
}

impl Intersection {
    /// Builds the crossing record for distance `t` on object `object`.
    pub fn new(t: i64, object: usize) -> (r: Intersection)
        ensures
            r.t == t,
            r.object == object,
    {
        Intersection { t, object }
    }
}

/// `h`, found at position `i`, is the nearest crossing of `xs` at distance
/// `lo` or beyond: no crossing at or past `lo` is nearer, and no earlier
/// entry of the list ties with it.
pub open spec fn nearest_candidate(xs: Seq<Intersection>, h: Intersection, i: int, lo: i64) -> bool {
    &&& 0 <= i < xs.len()
    &&& xs[i] == h
    &&& h.t >= lo
    &&& forall|j: int| 0 <= j < xs.len() && xs[j].t >= lo ==> h.t <= #[trigger] xs[j].t
    &&& forall|j: int| 0 <= j < i ==> #[trigger] xs[j].t < lo || xs[j].t > h.t
}

/// `h`, found at position `i`, is the hit of the list `xs`: the least
/// non-negative distance — a crossing at the ray origin itself counts —
/// and the earliest entry of the list among ties.
pub open spec fn hit_candidate(xs: Seq<Intersection>, h: Intersection, i: int) -> bool {
    nearest_candidate(xs, h, i, 0)
}

/// Two nearest crossings of the same list from the same bound are the
/// same record at the same position.
pub proof fn lemma_nearest_candidate_unique(
    xs: Seq<Intersection>,
    h1: Intersection,
    i1: int,
    h2: Intersection,
    i2: int,
    lo: i64,
)
    requires
        nearest_candidate(xs, h1, i1, lo),
        nearest_candidate(xs, h2, i2, lo),
    ensures
        h1 == h2,
        i1 == i2,
{
    assert(h1.t == h2.t);
    if i1 < i2 {
        assert(xs[i1].t < lo || xs[i1].t > h2.t);
    } else if i2 < i1 {
        assert(xs[i2].t < lo || xs[i2].t > h1.t);
    }
}

/// What selecting the hit of the list `xs` returns: `None` exactly when
/// every crossing lies behind the ray, otherwise the hit of the list.
pub open spec fn hit_post(xs: Seq<Intersection>, r: Option<Intersection>) -> bool {
    &&& (r is None <==> (forall|j: int| 0 <= j < xs.len() ==> #[trigger] xs[j].t < 0))
    &&& match r {
        Option::None => true,
        Option::Some(h) => exists|i: int| #[trigger] hit_candidate(xs, h, i),
    }
}

/// Selects the hit of an intersection list: the crossing at the least
/// non-negative distance, the earliest entry of the list among ties.
/// Returns `None` exactly when every crossing lies behind the ray.
pub fn hit_intersections(intersections: Vec<Intersection>) -> (r: Option<Intersection>)
    ensures
        hit_post(intersections@, r),
{
    let index = hit_index(&intersections);
    match index {
        Option::None => Option::None,
        Option::Some(i) => {
            let h = intersections[i];
            proof {
                assert(hit_candidate(intersections@, h, i as int));
                assert(intersections@[i as int].t >= 0);
                // the prover accepts the existential only restated in the
                // match shape of hit_post, over the value being returned
                let ghost rr = Option::Some(h);
                assert(rr matches Option::Some(hh) ==> hh == h);
                assert(match rr {
                    Option::None => true,
                    Option::Some(hh) => exists|w: int| #[trigger] hit_candidate(
                        intersections@,
                        hh,
                        w,
                    ),
                });
            }
            Option::Some(h)
        },
    }
}

/// Position of the hit inside the list, if any crossing lies at or in
/// front of the ray origin: the first position holding the least
/// non-negative `t`.
pub fn hit_index(intersections: &Vec<Intersection>) -> (r: Option<usize>)
    ensures
        r is None <==> (forall|j: int|
            0 <= j < intersections@.len() ==> #[trigger] intersections@[j].t < 0),
        r matches Some(i) ==> i < intersections@.len() && hit_candidate(
            intersections@,
            intersections@[i as int],
            i as int,
        ),
{
    nearest_index(intersections, 0)
}

/// Position of the nearest crossing at distance `lo` or beyond, if any:
/// the first position holding the least such `t`.
pub fn nearest_index(intersections: &Vec<Intersection>, lo: i64) -> (r: Option<usize>)
    ensures
        r is None <==> (forall|j: int|
            0 <= j < intersections@.len() ==> #[trigger] intersections@[j].t < lo),
        r matches Some(i) ==> i < intersections@.len() && nearest_candidate(
            intersections@,
            intersections@[i as int],
            i as int,
            lo,
        ),
{
    let mut best: Option<usize> = Option::None;
    let mut k: usize = 0;
    while k < intersections.len()
        invariant
            k <= intersections@.len(),
            best is None ==> (forall|j: int| 0 <= j < k ==> #[trigger] intersections@[j].t < lo),
            best matches Some(b) ==> b < k && intersections@[b as int].t >= lo && (forall|j: int|
                0 <= j < k && #[trigger] intersections@[j].t >= lo ==> intersections@[b as int].t
                    <= intersections@[j].t) && (forall|j: int|
                0 <= j < b ==> #[trigger] intersections@[j].t < lo || intersections@[j].t
                    > intersections@[b as int].t),
        decreases intersections@.len() - k,
    {
        if intersections[k].t >= lo {
            match best {
                Option::None => {
                    best = Option::Some(k);
                },
                Option::Some(b) => {
                    if intersections[k].t < intersections[b].t {
                        best = Option::Some(k);
                    }
                },
            }
        }
        k = k + 1;
    }
    best
}

} // verus!
