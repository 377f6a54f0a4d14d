//! The brightness of a point and the bookkeeping of mirror reflections.
//!
//! A ray that meets a reflective surface is followed on, as long as the depth
//! allows, and the colour that comes back is blended into the colour of the
//! surface. The shader decides when a ray is followed and what colour results;
//! working out where the mirrored ray goes is the caller's part.

use crate::color::{mix, mix_colors, Color};
use crate::intersect::{counts, is_lit, is_nearest, lit, place, Intersection};
use crate::number::Number;
use vstd::prelude::*;

verus! {

/// The share of the reflected colour in a blend, in percent.
pub const REFLECTED_SHARE: u32 = 25;

/// The share of the surface's own colour in a blend, in percent.
pub const SURFACE_SHARE: u32 = 75;

/// What a ray met.
#[derive(Copy, Clone, Debug, PartialEq, Eq, Structural)]
pub enum Bounce {
    /// Nothing: the ray leaves the scene.
    Miss,
    /// A surface that shows `color` under the scene's light.
    Hit { color: Color, reflective: bool },
}

/// What the shader asks for next.
#[derive(Copy, Clone, Debug, PartialEq, Eq, Structural)]
pub enum Step {
    /// The mirrored ray is to be followed, and what it meets handed in.
    Follow,
    /// The colour seen along the first ray is known.
    Done(Color),
}

/// The state of shading one ray.
pub struct Shader {
    /// How many more reflections may be followed.
    pub depth: u32,
    /// The colour of a ray that meets nothing.
    pub background: Color,
    /// The colours of the surfaces whose reflection is being followed, the
    /// first ray's surface first.
    pub pending: Vec<Color>,
}

/// A surface's colour with the colour of its reflection blended in.
pub open spec fn blend(reflected: Color, surface: Color) -> Color {
    mix(REFLECTED_SHARE as int, reflected, SURFACE_SHARE as int, surface)
}

/// The colour seen along a ray that meets `bounces` one after another, each
/// the mirror image seen in the one before, with `depth` reflections allowed.
///
/// A ray that meets nothing shows the background. A surface shows its own
/// colour; if it is reflective and the depth is not used up, the colour seen
/// along the mirrored ray, one reflection fewer allowed, is blended in.
pub open spec fn shade(bounces: Seq<Bounce>, depth: nat, background: Color) -> Color
    decreases bounces.len(),
{
    if bounces.len() == 0 {
        background
    } else {
        match bounces[0] {
            Bounce::Miss => background,
            Bounce::Hit { color, reflective } => if reflective && depth > 0 {
                blend(shade(bounces.drop_first(), (depth - 1) as nat, background), color)
            } else {
                color
            },
        }
    }
}

/// What the waiting surfaces make of the colour `seen` along the last ray:
/// it is blended into the last surface, the result into the one before, and
/// so on up to the first.
pub open spec fn resolve(pending: Seq<Color>, seen: Color) -> Color
    decreases pending.len(),
{
    if pending.len() == 0 {
        seen
    } else {
        resolve(pending.drop_last(), blend(seen, pending.last()))
    }
}

/// Whether the ray mirrored at what was met is followed.
pub open spec fn follows(bounce: Bounce, depth: nat) -> bool {
    bounce matches Bounce::Hit { reflective, .. } && reflective && depth > 0
}

/// The colour that a ray shows by itself: the background, or the colour of
/// the surface that it met.
pub open spec fn own_color(bounce: Bounce, background: Color) -> Color {
    match bounce {
        Bounce::Miss => background,
        Bounce::Hit { color, .. } => color,
    }
}

/// How brightly a point is lit: by the diffuse light that falls on it if the
/// light reaches it, and by none if not; but never less than the ambient
/// floor.
pub open spec fn brightness(
    occluder: Option<Intersection>,
    light: Number,
    diffuse: Number,
    ambient_floor: Number,
) -> Number {
    Number::max_of(
        if lit(occluder, light) {
            diffuse
        } else {
            Number::nought()
        },
        ambient_floor,
    )
}

/// Decides how brightly a point is lit.
///
/// `occluder` is the nearest thing that the ray from the point towards the
/// light meets, `light` the light's distance from the point, and `diffuse`
/// the brightness that the light gives where it reaches the point. In shadow
/// the light gives nothing. Either way the point is at least as bright as
/// the ambient floor.
pub fn intensity(
    occluder: Option<Intersection>,
    light: Number,
    diffuse: Number,
    ambient_floor: Number,
) -> (intensity: Number)
    ensures
        intensity == brightness(occluder, light, diffuse, ambient_floor),
{
    let raw_intensity = if is_lit(occluder, light) {
        diffuse
    } else {
        Number::zero()
    };
    Number::larger(raw_intensity, ambient_floor)
}

impl Shader {
    /// A shader for one ray, with `max_depth` reflections allowed.
    pub fn new(max_depth: u32, background: Color) -> (shader: Shader)
        ensures
            shader.depth == max_depth,
            shader.background == background,
            shader.pending@ == Seq::<Color>::empty(),
    {
        Shader { depth: max_depth, background, pending: Vec::new() }
    }

    fn resolved(&self, seen: Color) -> (color: Color)
        ensures
            color == resolve(self.pending@, seen),
    {
        let mut color = seen;
        let mut i: usize = self.pending.len();
        assert(self.pending@.subrange(0, i as int) =~= self.pending@);
        while i > 0
            invariant
                i <= self.pending@.len(),
                resolve(self.pending@, seen) == resolve(self.pending@.subrange(0, i as int), color),
            decreases i,
        {
            let ghost waiting = self.pending@.subrange(0, i as int);
            assert(waiting.drop_last() =~= self.pending@.subrange(0, i - 1));
            i = i - 1;
            color = mix_colors(REFLECTED_SHARE, &color, SURFACE_SHARE, &self.pending[i]);
        }
        color
    }

    /// Takes what the current ray met and says how to go on.
    ///
    /// If a reflective surface was met and a reflection is still allowed, the
    /// surface waits for the colour of its reflection, one reflection fewer is
    /// allowed from now on, and the mirrored ray is to be followed. Otherwise
    /// the colour of the first ray is settled: the background, or the colour of
    /// the surface met, blended into the surfaces that wait, last to first. The
    /// shader is then left as it was.
    pub fn step(&mut self, bounce: Bounce) -> (step: Step)
        ensures
            follows(bounce, old(self).depth as nat) ==> {
                &&& step == Step::Follow
                &&& final(self).depth == old(self).depth - 1
                &&& final(self).background == old(self).background
                &&& final(self).pending@ == old(self).pending@.push(
                    own_color(bounce, old(self).background),
                )
            },
            !follows(bounce, old(self).depth as nat) ==> {
                &&& step == Step::Done(
                    resolve(old(self).pending@, own_color(bounce, old(self).background)),
                )
                &&& final(self).depth == old(self).depth
                &&& final(self).background == old(self).background
                &&& final(self).pending@ == old(self).pending@
            },
    {
        match bounce {
            Bounce::Miss => Step::Done(self.resolved(self.background)),
            Bounce::Hit { color, reflective } => {
                if reflective && self.depth > 0 {
                    self.pending.push(color);
                    self.depth = self.depth - 1;
                    Step::Follow
                } else {
                    Step::Done(self.resolved(color))
                }
            },
        }
    }
}

/// The colour seen along a ray whose path is known: `bounces` holds what the
/// ray met, then what its mirror image met, and so on. Where the path ends
/// before the shader is done, the last ray is taken to have met nothing.
pub fn trace_ray(bounces: &Vec<Bounce>, depth: u32, background: Color) -> (color: Color)
    ensures
        color == shade(bounces@, depth as nat, background),
{
    let mut shader = Shader::new(depth, background);
    let mut i: usize = 0;
    assert(bounces@.subrange(0, bounces@.len() as int) =~= bounces@);
    while i < bounces.len()
        invariant
            i <= bounces@.len(),
            shader.background == background,
            shade(bounces@, depth as nat, background) == resolve(
                shader.pending@,
                shade(bounces@.subrange(i as int, bounces@.len() as int), shader.depth as nat, background),
            ),
        decreases bounces@.len() - i,
    {
        let ghost rest = bounces@.subrange(i as int, bounces@.len() as int);
        let ghost waiting = shader.pending@;
        assert(rest[0] == bounces@[i as int]);
        assert(rest.drop_first() =~= bounces@.subrange(i + 1, bounces@.len() as int));
        match shader.step(bounces[i]) {
            Step::Done(color) => {
                return color;
            },
            Step::Follow => {
                assert(shader.pending@.drop_last() =~= waiting);
            },
        }
        i = i + 1;
    }
    shader.resolved(background)
}

/// A point in shadow is exactly as bright as the ambient floor, whatever
/// light would fall on it, as long as the floor is a number and not negative.
pub proof fn lemma_shadow_leaves_the_ambient_floor(
    occluder: Intersection,
    light: Number,
    diffuse: Number,
    ambient_floor: Number,
)
    requires
        !light.less(occluder.distance),
        !ambient_floor.is_nan(),
        ambient_floor.positive(),
    ensures
        brightness(Some(occluder), light, diffuse, ambient_floor) == ambient_floor,
{
}

/// Shadow: where some primitive that counts lies between a point and the
/// light, not farther away than the light, the light gives the point nothing,
/// whatever was found to be the nearest on the way: the point is exactly as
/// bright as the ambient floor.
pub proof fn lemma_occluded_point_is_in_shadow(
    all: Seq<Option<Number>>,
    tiny: Number,
    light: Number,
    j: int,
    nearest: Intersection,
    spheres: int,
    diffuse: Number,
    ambient_floor: Number,
)
    requires
        0 <= j < all.len(),
        counts(all[j], tiny),
        !light.less(all[j].unwrap()),
        is_nearest(all, tiny, place(nearest.primitive, spheres)),
        all[place(nearest.primitive, spheres)] == Some(nearest.distance),
        !ambient_floor.is_nan(),
        ambient_floor.positive(),
    ensures
        !lit(Some(nearest), light),
        brightness(Some(nearest), light, diffuse, ambient_floor) == ambient_floor,
{
    crate::intersect::lemma_occluder_shadows(all, tiny, light, j, nearest, spheres);
    lemma_shadow_leaves_the_ambient_floor(nearest, light, diffuse, ambient_floor);
}

/// A lit point is never darker than the ambient floor, and where the light
/// that falls on it is brighter than the floor, it is as bright as that.
pub proof fn lemma_brightness_of_a_lit_point(
    occluder: Option<Intersection>,
    light: Number,
    diffuse: Number,
    ambient_floor: Number,
)
    requires
        lit(occluder, light),
        !ambient_floor.is_nan(),
        !diffuse.is_nan(),
    ensures
        ambient_floor.less(diffuse) ==> brightness(occluder, light, diffuse, ambient_floor)
            == diffuse,
        diffuse.less(ambient_floor) ==> brightness(occluder, light, diffuse, ambient_floor)
            == ambient_floor,
        !brightness(occluder, light, diffuse, ambient_floor).less(ambient_floor),
{
}

/// With no reflection allowed, a ray shows the colour of what it meets and
/// nothing else: no surface, reflective or not, has a reflection blended in.
pub proof fn lemma_no_reflection_at_depth_zero(bounces: Seq<Bounce>, background: Color)
    requires
        bounces.len() > 0,
    ensures
        shade(bounces, 0, background) == own_color(bounces[0], background),
        !follows(bounces[0], 0),
{
}

/// A surface that does not reflect shows its own colour at any depth, and a
/// ray that is not followed contributes nothing to what comes before it.
pub proof fn lemma_path_ends_where_not_followed(
    bounces: Seq<Bounce>,
    depth: nat,
    background: Color,
)
    requires
        bounces.len() > 0,
        !follows(bounces[0], depth),
    ensures
        shade(bounces, depth, background) == own_color(bounces[0], background),
{
}

/// At most `depth` reflections are followed: what a ray sees depends on the
/// first `depth + 1` bounces of its path only.
pub proof fn lemma_depth_bounds_path(bounces: Seq<Bounce>, depth: nat, background: Color)
    requires
        bounces.len() > depth,
    ensures
        shade(bounces, depth, background) == shade(
            bounces.subrange(0, depth as int + 1),
            depth,
            background,
        ),
    decreases depth,
{
    let head = bounces.subrange(0, depth as int + 1);
    assert(head[0] == bounces[0]);
    if follows(bounces[0], depth) {
        lemma_depth_bounds_path(bounces.drop_first(), (depth - 1) as nat, background);
        assert(bounces.drop_first().subrange(0, depth as int) =~= head.drop_first());
    }
}

} // verus!
