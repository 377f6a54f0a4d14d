//! What a ray meets: the choice among the roots of one primitive, and the
//! choice of the nearest among the primitives of a scene.
//!
//! The distances themselves are worked out by the caller. Here they are only
//! compared.

use crate::number::Number;
use vstd::prelude::*;

verus! {

/// A primitive of the scene, named by its place in the list of its kind.
#[derive(Copy, Clone, Debug, PartialEq, Eq, Structural)]
pub enum Primitive {
    Sphere(usize),
    Plane(usize),
}

/// The nearest point at which a ray meets the scene.
#[derive(Copy, Clone, Debug, PartialEq, Eq, Structural)]
pub struct Intersection {
    /// The distance from the ray's origin.
    pub distance: Number,
    /// The primitive that is met there.
    pub primitive: Primitive,
}

/// The distance at which a ray meets a sphere, given the discriminant of the
/// quadratic equation for the distance and its two roots.
///
/// With a negative discriminant there is no root and the ray misses. It
/// misses too if the larger root is negative: the sphere lies behind the ray.
/// Otherwise the smaller root counts, unless it is negative: then the ray
/// starts inside the sphere and leaves it at the larger one.
pub open spec fn sphere_root(discriminant: Number, t0: Number, t1: Number) -> Option<Number> {
    let far = Number::max_of(t0, t1);
    let near = Number::min_of(t0, t1);
    if discriminant.less(Number::nought()) || far.less(Number::nought()) {
        None
    } else if near.less(Number::nought()) {
        Some(far)
    } else {
        Some(near)
    }
}

/// The distance at which a ray meets a plane: `t`, unless the ray runs
/// parallel to the plane, which it does if `d`, the dot product of its
/// direction and the plane's normal, is closer to zero than `epsilon`.
pub open spec fn plane_root(d: Number, t: Number, epsilon: Number) -> Option<Number> {
    if d.absolute().less(epsilon) {
        None
    } else {
        Some(t)
    }
}

/// A candidate counts if the ray meets the primitive at all, and farther away
/// than `tiny`.
pub open spec fn counts(candidate: Option<Number>, tiny: Number) -> bool {
    candidate matches Some(k) && tiny.less(k)
}

/// The place of a primitive among all candidates: the spheres come first,
/// then the planes.
pub open spec fn place(primitive: Primitive, spheres: int) -> int {
    match primitive {
        Primitive::Sphere(i) => i as int,
        Primitive::Plane(i) => spheres + i,
    }
}

/// Candidate `i` counts, none that counts is nearer, and none before it is as
/// near.
pub open spec fn is_nearest(all: Seq<Option<Number>>, tiny: Number, i: int) -> bool {
    &&& 0 <= i < all.len()
    &&& counts(all[i], tiny)
    &&& forall|j: int|
        0 <= j < all.len() && counts(#[trigger] all[j], tiny) ==> !all[j].unwrap().less(
            all[i].unwrap(),
        )
    &&& forall|j: int|
        0 <= j < i && counts(#[trigger] all[j], tiny) ==> all[i].unwrap().less(all[j].unwrap())
}

/// No candidate counts.
pub open spec fn none_counts(all: Seq<Option<Number>>, tiny: Number) -> bool {
    forall|j: int| 0 <= j < all.len() ==> !counts(#[trigger] all[j], tiny)
}

/// The light reaches a point if the ray from the point towards the light
/// meets nothing, or meets it only behind the light.
pub open spec fn lit(occluder: Option<Intersection>, light: Number) -> bool {
    occluder matches Some(h) ==> light.less(h.distance)
}

/// Chooses the distance at which a ray meets a sphere.
///
/// `discriminant` is that of the quadratic equation for the distance along
/// the ray, `t0` and `t1` are its two roots. The ray misses the sphere if the
/// discriminant is negative or both roots are. Otherwise it meets the sphere
/// at the smaller root that is not negative.
pub fn ray_sphere_intersection_point(discriminant: Number, t0: Number, t1: Number) -> (k: Option<
    Number,
>)
    ensures
        k == sphere_root(discriminant, t0, t1),
{
    if discriminant.less_than(Number::zero()) {
        return None;
    }
    let max = Number::larger(t0, t1);
    let min = Number::smaller(t0, t1);
    if max.less_than(Number::zero()) {
        return None;
    }
    if min.less_than(Number::zero()) {
        Some(max)
    } else {
        Some(min)
    }
}

/// Chooses the distance at which a ray meets a plane.
///
/// `d` is the dot product of the ray's direction and the plane's normal, `t`
/// the distance that follows from it. A ray for which `d` is closer to zero
/// than `epsilon` runs parallel to the plane and never meets it, whatever
/// `t` is.
pub fn ray_plane_intersection_point(d: Number, t: Number, epsilon: Number) -> (k: Option<Number>)
    ensures
        k == plane_root(d, t, epsilon),
{
    if d.abs().less_than(epsilon) {
        None
    } else {
        Some(t)
    }
}

fn nearest_of(distances: &Vec<Option<Number>>, tiny: Number) -> (best: Option<(usize, Number)>)
    ensures
        match best {
            None => none_counts(distances@, tiny),
            Some((i, k)) => is_nearest(distances@, tiny, i as int) && distances@[i as int] == Some(
                k,
            ),
        },
{
    let mut best: Option<(usize, Number)> = None;
    let mut j: usize = 0;
    while j < distances.len()
        invariant
            j <= distances@.len(),
            match best {
                None => none_counts(distances@.subrange(0, j as int), tiny),
                Some((i, k)) => i < j && is_nearest(distances@.subrange(0, j as int), tiny, i as int)
                    && distances@[i as int] == Some(k),
            },
        decreases distances@.len() - j,
    {
        let ghost before = distances@.subrange(0, j as int);
        let ghost after = distances@.subrange(0, j + 1);
        assert(forall|n: int| 0 <= n < j ==> before[n] == after[n]);
        assert(after[j as int] == distances@[j as int]);
        match distances[j] {
            Some(k) if tiny.less_than(k) => {
                match best {
                    Some((_, m)) if !k.less_than(m) => {},
                    _ => {
                        best = Some((j, k));
                    },
                }
            },
            _ => {},
        }
        j = j + 1;
    }
    assert(distances@.subrange(0, j as int) =~= distances@);
    best
}

/// Finds the nearest primitive that a ray meets.
///
/// `spheres` and `planes` hold, for each primitive of the scene, the
/// distance at which the ray meets it, or `None` where it misses. A primitive
/// counts only if it is met farther away than `tiny`, so that a ray does not
/// meet again the surface it starts from. Of those that count the nearest is
/// returned, and of several equally near ones the first, spheres before
/// planes. `None` is returned exactly if none counts.
pub fn closest_intersection_point(
    spheres: &Vec<Option<Number>>,
    planes: &Vec<Option<Number>>,
    tiny: Number,
) -> (hit: Option<Intersection>)
    ensures
        match hit {
            None => none_counts(spheres@ + planes@, tiny),
            Some(h) => {
                &&& h.primitive matches Primitive::Sphere(i) ==> i < spheres@.len()
                &&& h.primitive matches Primitive::Plane(i) ==> i < planes@.len()
                &&& is_nearest(spheres@ + planes@, tiny, place(h.primitive, spheres@.len() as int))
                &&& (spheres@ + planes@)[place(h.primitive, spheres@.len() as int)] == Some(
                    h.distance,
                )
            },
        },
{
    let ghost all = spheres@ + planes@;
    let ghost ns = spheres@.len() as int;
    assert(forall|n: int| 0 <= n < ns ==> all[n] == spheres@[n]);
    assert(forall|n: int| ns <= n < all.len() ==> all[n] == planes@[n - ns]);
    let sphere = nearest_of(spheres, tiny);
    let plane = nearest_of(planes, tiny);
    match (sphere, plane) {
        (None, None) => None,
        (Some((i, k)), None) => Some(Intersection { distance: k, primitive: Primitive::Sphere(i) }),
        (None, Some((i, k))) => Some(Intersection { distance: k, primitive: Primitive::Plane(i) }),
        (Some((i, k)), Some((j, m))) => {
            if m.less_than(k) {
                Some(Intersection { distance: m, primitive: Primitive::Plane(j) })
            } else {
                Some(Intersection { distance: k, primitive: Primitive::Sphere(i) })
            }
        },
    }
}

/// The shadow test: whether the light reaches a point.
///
/// `occluder` is the nearest thing that the ray from the point towards the
/// light meets, `light` the light's distance from the point. The point is lit
/// if the ray meets nothing, or meets it only behind the light.
pub fn is_lit(occluder: Option<Intersection>, light: Number) -> (is_lit: bool)
    ensures
        is_lit == lit(occluder, light),
{
    match occluder {
        None => true,
        Some(h) => light.less_than(h.distance),
    }
}

/// A ray that runs parallel to a plane never meets it, wherever it starts and
/// whatever distance was worked out for it.
pub proof fn lemma_parallel_ray_misses(d: Number, t0: Number, t1: Number, epsilon: Number)
    requires
        d.absolute().less(epsilon),
    ensures
        plane_root(d, t0, epsilon) is None,
        plane_root(d, t0, epsilon) == plane_root(d, t1, epsilon),
{
}

/// A primitive that the ray misses is never the one that is met.
pub proof fn lemma_miss_is_never_nearest(all: Seq<Option<Number>>, tiny: Number, i: int)
    requires
        0 <= i < all.len(),
        all[i] is None,
    ensures
        !is_nearest(all, tiny, i),
{
}

/// Where both roots are numbers and neither is negative, the ray meets the
/// sphere at the smaller of them: at the near side. Where exactly one is
/// negative, it meets it at the other. Where both are negative, it misses.
pub proof fn lemma_sphere_root(discriminant: Number, t0: Number, t1: Number)
    requires
        !discriminant.less(Number::nought()),
        !t0.is_nan(),
        !t1.is_nan(),
    ensures
        t0.key() >= 0 && t1.key() >= 0 ==> sphere_root(discriminant, t0, t1) == Some(
            Number::min_of(t0, t1),
        ),
        t0.key() >= 0 && t1.key() >= 0 && !t1.less(t0) ==> sphere_root(discriminant, t0, t1)
            == Some(t0),
        t0.key() < 0 <= t1.key() ==> sphere_root(discriminant, t0, t1) == Some(t1),
        t1.key() < 0 <= t0.key() ==> sphere_root(discriminant, t0, t1) == Some(t0),
        t0.key() < 0 && t1.key() < 0 ==> sphere_root(discriminant, t0, t1) is None,
{
}

/// A primitive that counts and is not farther away than the light puts the
/// point in shadow, whichever primitive turns out to be the nearest.
pub proof fn lemma_occluder_shadows(
    all: Seq<Option<Number>>,
    tiny: Number,
    light: Number,
    j: int,
    hit: Intersection,
    spheres: int,
)
    requires
        0 <= j < all.len(),
        counts(all[j], tiny),
        !light.less(all[j].unwrap()),
        is_nearest(all, tiny, place(hit.primitive, spheres)),
        all[place(hit.primitive, spheres)] == Some(hit.distance),
    ensures
        !lit(Some(hit), light),
        !none_counts(all, tiny),
{
}

/// The nearest candidate is unique: whatever meets the contract of
/// `closest_intersection_point` is the same place.
pub proof fn lemma_nearest_unique(all: Seq<Option<Number>>, tiny: Number, i: int, j: int)
    requires
        is_nearest(all, tiny, i),
        is_nearest(all, tiny, j),
    ensures
        i == j,
{
    if i < j {
        assert(counts(all[i], tiny));
    } else if j < i {
        assert(counts(all[j], tiny));
    }
}

} // verus!
