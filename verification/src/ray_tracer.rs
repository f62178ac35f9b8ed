//! The decisions of the ray tracer.
//!
//! A ray is `origin + t * direction`. For each sphere of the scene the caller
//! solves the quadratic for `t` and hands the two roots over; which sphere is
//! hit, whether a point lies in shadow, which terms of the lighting model
//! apply and whether a mirrored ray is followed are decided here.
//!
//! One frame is rendered by [`ray_trace`], which asks for the color of the
//! primary ray through each pixel. To trace a ray, the caller
//!
//! 1. solves the quadratic against each sphere and lets
//!    [`intersect_ray_sphere`] decide the roots;
//! 2. hands the roots to [`trace_ray`], which says whether the ray has the
//!    background color, the color of a sphere, or that color mixed with the
//!    color of a mirrored ray, which is then traced in the same way;
//! 3. for the color of a sphere, adds up what the lights give: for each light
//!    the roots of the shadow ray go to [`calculate_light_intensity`], and
//!    where that asks for the diffuse and specular terms,
//!    [`calculate_directional_light`] says which of the two apply;
//! 4. multiplies the color of the sphere by the light, and converts the
//!    product with [`Color::quantize`].
use vstd::prelude::*;
use crate::lights::Light;
use crate::objects::Sphere;
use crate::properties::background;
use crate::properties::bg_color;
use crate::properties::Color;
use crate::properties::Material;
use crate::scalar::lemma_infinity_is_greatest;
use crate::scalar::Scalar;
use crate::scene::Scene;
use crate::state::lemma_same_pixels_same_bytes;
use crate::state::PixelSurface;
use crate::surface::Surface;

verus! {

/// Bit pattern of `1.0e-4`, the distance from a surface below which a hit is
/// taken for the surface itself.
pub const EPSILON_BITS: u32 = 0x38d1_b717;

/// Bit pattern of `1.0`, the distance from the eye to the plane of projection.
pub const MIN_Z_BITS: u32 = 0x3f80_0000;

/// The least distance at which a ray that leaves a surface can hit anything.
pub open spec fn spec_epsilon() -> Scalar {
    Scalar { bits: EPSILON_BITS }
}

/// The least distance at which a ray that leaves a surface can hit anything.
#[verifier::when_used_as_spec(spec_epsilon)]
pub fn epsilon() -> (r: Scalar)
    ensures
        r == spec_epsilon(),
{
    Scalar { bits: EPSILON_BITS }
}

/// How many mirrored rays are followed from one primary ray.
pub const REFLECTION_RECURSION_LIMIT: u32 = 3;

/// The roots of a ray against a sphere, where the quadratic for the distance
/// has the discriminant `discriminant` and, if that is not below zero, the
/// solutions `t1` and `t2`: a ray that misses the sphere has both roots at
/// positive infinity.
pub open spec fn roots_of(discriminant: Scalar, t1: Scalar, t2: Scalar) -> (Scalar, Scalar) {
    if discriminant.below(Scalar::zero()) {
        (Scalar::infinity(), Scalar::infinity())
    } else {
        (t1, t2)
    }
}

/// Decides the roots of a ray against a sphere from the discriminant of the
/// quadratic and its two solutions. The solutions are not looked at where the
/// discriminant is below zero.
pub fn intersect_ray_sphere(discriminant: Scalar, t1: Scalar, t2: Scalar) -> (roots: (
    Scalar,
    Scalar,
))
    ensures
        roots == roots_of(discriminant, t1, t2),
{
    if discriminant.lt(Scalar::zero()) {
        (Scalar::infinity(), Scalar::infinity())
    } else {
        (t1, t2)
    }
}

/// The hit that one sphere offers to a ray with the roots `pair`, where only
/// hits from `min` up to, and without, `max` count: its first root, unless
/// that one does not count or the second is strictly nearer.
pub open spec fn sphere_hit(pair: (Scalar, Scalar), min: Scalar, max: Scalar) -> Option<Scalar> {
    if pair.0.within(min, max) {
        if pair.1.within(min, max) && pair.1.below(pair.0) {
            Some(pair.1)
        } else {
            Some(pair.0)
        }
    } else if pair.1.within(min, max) {
        Some(pair.1)
    } else {
        None
    }
}

/// The nearest hit among the spheres with the roots `roots`, one pair for each
/// sphere in the order of the scene: the index of the sphere and the distance,
/// or no index and positive infinity. Of two spheres equally near, the earlier
/// one is hit.
pub open spec fn nearest_hit(roots: Seq<(Scalar, Scalar)>, min: Scalar, max: Scalar) -> (
    Option<int>,
    Scalar,
)
    decreases roots.len(),
{
    if roots.len() == 0 {
        (None, Scalar::infinity())
    } else {
        let earlier = nearest_hit(roots.drop_last(), min, max);
        match sphere_hit(roots.last(), min, max) {
            Some(t) => if t.below(earlier.1) {
                (Some(roots.len() - 1), t)
            } else {
                earlier
            },
            None => earlier,
        }
    }
}

/// `hit` is the first of the nearest hits: its sphere offers the distance
/// `hit.1`, every earlier sphere that offers a hit offers one strictly
/// farther, and no later sphere offers one strictly nearer. Without an index,
/// no sphere offers a hit and the distance is positive infinity.
pub open spec fn is_first_minimum(
    roots: Seq<(Scalar, Scalar)>,
    min: Scalar,
    max: Scalar,
    hit: (Option<int>, Scalar),
) -> bool {
    match hit.0 {
        None => {
            &&& hit.1 == Scalar::infinity()
            &&& forall|i: int| 0 <= i < roots.len() ==> sphere_hit(#[trigger] roots[i], min, max) is None
        },
        Some(k) => {
            &&& 0 <= k < roots.len()
            &&& sphere_hit(roots[k], min, max) == Some(hit.1)
            &&& forall|j: int, u: Scalar|
                0 <= j < k && sphere_hit(#[trigger] roots[j], min, max) == Some(u) ==> #[trigger] hit.1.below(u)
            &&& forall|j: int, u: Scalar|
                k < j < roots.len() && sphere_hit(#[trigger] roots[j], min, max) == Some(u) ==> !#[trigger] u.below(hit.1)
        },
    }
}

/// A hit that a sphere offers is a number, and lies below positive infinity.
pub proof fn lemma_sphere_hit_is_finite(pair: (Scalar, Scalar), min: Scalar, max: Scalar)
    ensures
        sphere_hit(pair, min, max) matches Some(t) ==> t.within(min, max) && t.below(
            Scalar::infinity(),
        ),
{
    lemma_infinity_is_greatest(pair.0, max);
    lemma_infinity_is_greatest(pair.1, max);
}

/// The order of the two roots of a sphere does not matter: the sphere offers
/// a hit either way or neither way, and at one distance.
pub proof fn lemma_root_order_is_immaterial(a: Scalar, b: Scalar, min: Scalar, max: Scalar)
    ensures
        match (sphere_hit((a, b), min, max), sphere_hit((b, a), min, max)) {
            (Some(s), Some(t)) => s.value() == t.value(),
            (None, None) => true,
            _ => false,
        },
{
}

/// The nearest hit is the first minimum of the hits that the spheres offer.
pub proof fn lemma_nearest_hit_is_first_minimum(
    roots: Seq<(Scalar, Scalar)>,
    min: Scalar,
    max: Scalar,
)
    ensures
        is_first_minimum(roots, min, max, nearest_hit(roots, min, max)),
        nearest_hit(roots, min, max).0 is Some ==> nearest_hit(roots, min, max).1.below(
            Scalar::infinity(),
        ),
    decreases roots.len(),
{
    if roots.len() > 0 {
        let front = roots.drop_last();
        lemma_nearest_hit_is_first_minimum(front, min, max);
        lemma_sphere_hit_is_finite(roots.last(), min, max);
        let earlier = nearest_hit(front, min, max);
        let hit = nearest_hit(roots, min, max);
        assert forall|i: int| 0 <= i < front.len() implies front[i] == roots[i] by {}
        match hit.0 {
            None => {
                assert forall|i: int| 0 <= i < roots.len() implies sphere_hit(
                    #[trigger] roots[i],
                    min,
                    max,
                ) is None by {
                    if i < front.len() {
                        assert(front[i] == roots[i]);
                    }
                }
            },
            Some(k) => {
                assert forall|j: int, u: Scalar|
                    0 <= j < k && sphere_hit(#[trigger] roots[j], min, max) == Some(
                        u,
                    ) implies #[trigger] hit.1.below(u) by {
                    assert(front[j] == roots[j]);
                    if let Some(e) = earlier.0 {
                        if j > e {
                            assert(!u.below(earlier.1));
                        } else if j == e {
                        } else {
                            assert(earlier.1.below(u));
                        }
                    }
                }
                assert forall|j: int, u: Scalar|
                    k < j < roots.len() && sphere_hit(#[trigger] roots[j], min, max) == Some(
                        u,
                    ) implies !#[trigger] u.below(hit.1) by {
                    assert(hit == earlier);
                    if j < front.len() {
                        assert(front[j] == roots[j]);
                    } else {
                        assert(roots[j] == roots.last());
                    }
                }
                if k < front.len() {
                    assert(front[k] == roots[k]);
                } else {
                    assert(roots[k] == roots.last());
                }
            },
        }
    }
}

/// Nothing is nearer than the nearest hit: where a root of some sphere
/// counts, a sphere is hit, at a distance that counts and is at most that
/// root.
pub proof fn lemma_nearest_hit_is_nearest(
    roots: Seq<(Scalar, Scalar)>,
    min: Scalar,
    max: Scalar,
    i: int,
)
    requires
        0 <= i < roots.len(),
        roots[i].0.within(min, max) || roots[i].1.within(min, max),
    ensures
        nearest_hit(roots, min, max).0 is Some,
        nearest_hit(roots, min, max).1.within(min, max),
        roots[i].0.within(min, max) ==> nearest_hit(roots, min, max).1.at_most(roots[i].0),
        roots[i].1.within(min, max) ==> nearest_hit(roots, min, max).1.at_most(roots[i].1),
{
    let hit = nearest_hit(roots, min, max);
    lemma_nearest_hit_is_first_minimum(roots, min, max);
    let offered = sphere_hit(roots[i], min, max);
    assert(offered is Some);
    let k = hit.0->Some_0;
    lemma_sphere_hit_is_finite(roots[k], min, max);
    if i < k {
        assert(hit.1.below(offered->Some_0));
    } else if i > k {
        assert(!offered->Some_0.below(hit.1));
    }
}

/// Only one hit is the first minimum: [`is_first_minimum`] holds of the
/// nearest hit and of nothing else.
pub proof fn lemma_first_minimum_is_unique(
    roots: Seq<(Scalar, Scalar)>,
    min: Scalar,
    max: Scalar,
    hit: (Option<int>, Scalar),
)
    requires
        is_first_minimum(roots, min, max, hit),
    ensures
        hit == nearest_hit(roots, min, max),
{
    let nearest = nearest_hit(roots, min, max);
    lemma_nearest_hit_is_first_minimum(roots, min, max);
    match (hit.0, nearest.0) {
        (Some(a), Some(b)) => {
            if a < b {
                assert(nearest.1.below(hit.1));
                assert(!nearest.1.below(hit.1));
            } else if b < a {
                assert(hit.1.below(nearest.1));
                assert(!hit.1.below(nearest.1));
            }
        },
        (Some(a), None) => {
            assert(sphere_hit(roots[a], min, max) is None);
        },
        (None, Some(b)) => {
            assert(sphere_hit(roots[b], min, max) is None);
        },
        (None, None) => {},
    }
}

/// A hit with its sphere as an index into the scene's objects.
pub open spec fn found(hit: (Option<int>, Scalar)) -> (Option<usize>, Scalar) {
    match hit.0 {
        Some(i) => (Some(i as usize), hit.1),
        None => (None, hit.1),
    }
}

/// Finds the nearest sphere that a ray hits at a distance from `min_distance`
/// up to, and without, `max_distance`. `roots` holds the two roots of the
/// ray against each sphere, in the order of the scene.
pub fn closest_intersection(
    roots: &Vec<(Scalar, Scalar)>,
    min_distance: Scalar,
    max_distance: Scalar,
) -> (hit: (Option<usize>, Scalar))
    ensures
        hit == found(nearest_hit(roots@, min_distance, max_distance)),
        hit.0 matches Some(index) ==> index < roots.len(),
{
    let mut closest_t = Scalar::infinity();
    let mut closest_sphere: Option<usize> = None;
    let mut index: usize = 0;
    while index < roots.len()
        invariant
            index <= roots.len(),
            (closest_sphere, closest_t) == found(
                nearest_hit(roots@.take(index as int), min_distance, max_distance),
            ),
            nearest_hit(roots@.take(index as int), min_distance, max_distance).0 matches Some(i)
                ==> 0 <= i < index,
        decreases roots.len() - index,
    {
        let pair = roots[index];
        proof {
            let next = roots@.take(index + 1);
            assert(next.drop_last() =~= roots@.take(index as int));
            assert(next.last() == pair);
        }
        if pair.0.is_within(min_distance, max_distance) && pair.0.lt(closest_t) {
            closest_t = pair.0;
            closest_sphere = Some(index);
        }
        if pair.1.is_within(min_distance, max_distance) && pair.1.lt(closest_t) {
            closest_t = pair.1;
            closest_sphere = Some(index);
        }
        index += 1;
    }
    proof {
        assert(roots@.take(index as int) =~= roots@);
    }
    (closest_sphere, closest_t)
}

/// Something lies between a point and a light: some sphere has a root of the
/// shadow ray from `1.0e-4` up to, and without, `t_max`.
pub open spec fn in_shadow(roots: Seq<(Scalar, Scalar)>, t_max: Scalar) -> bool {
    exists|i: int|
        0 <= i < roots.len() && ((#[trigger] roots[i]).0.within(epsilon(), t_max)
            || roots[i].1.within(epsilon(), t_max))
}

/// Whether anything lies between a point and a light. `roots` holds the roots
/// of the ray from the point toward the light against each sphere; the light
/// is at the distance `t_max`.
pub fn point_in_shadow(roots: &Vec<(Scalar, Scalar)>, t_max: Scalar) -> (shadowed: bool)
    ensures
        shadowed == in_shadow(roots@, t_max),
{
    let epsilon = epsilon();
    let (shadow_sphere, _shadow_t) = closest_intersection(roots, epsilon, t_max);
    proof {
        lemma_nearest_hit_is_first_minimum(roots@, epsilon, t_max);
        match nearest_hit(roots@, epsilon, t_max).0 {
            Some(k) => {
                assert(sphere_hit(roots@[k], epsilon, t_max) is Some);
            },
            None => {
                assert forall|i: int| 0 <= i < roots@.len() implies !((#[trigger] roots@[i]).0.within(
                    epsilon,
                    t_max,
                ) || roots@[i].1.within(epsilon, t_max)) by {
                    assert(sphere_hit(roots@[i], epsilon, t_max) is None);
                }
            },
        }
    }
    match shadow_sphere {
        Some(_sphere) => true,
        None => false,
    }
}

/// What one light adds to the light at a point.
#[derive(Debug, Copy, Clone, PartialEq, Eq)]
pub enum Contribution {
    /// This intensity, whatever the surface is and wherever it faces.
    Flat(Color<Scalar>),
    /// The diffuse and specular terms of light of this intensity that arrives
    /// along the shadow ray.
    Directed(Color<Scalar>),
}

/// No light at all: every channel zero.
pub open spec fn darkness() -> Color<Scalar> {
    Color {
        r: Scalar::zero(),
        g: Scalar::zero(),
        b: Scalar::zero(),
        a: Scalar::zero(),
    }
}

/// How far along the shadow ray an occluder counts: a directional light lies
/// infinitely far away, a point light at the end of the ray, at `1.0`. An
/// ambient light casts no shadow.
pub open spec fn shadow_limit(light: Light) -> Option<Scalar> {
    match light {
        Light::Directional { .. } => Some(Scalar::infinity()),
        Light::Point { .. } => Some(Scalar::one()),
        Light::Ambient { .. } => None,
    }
}

/// What `light` adds at a point from which the shadow ray toward the light
/// has the roots `roots`. An ambient light adds its intensity. A directional
/// or point light adds nothing where the point lies in its shadow, and its
/// diffuse and specular terms elsewhere.
pub open spec fn light_contribution(light: Light, roots: Seq<(Scalar, Scalar)>) -> Contribution {
    match shadow_limit(light) {
        None => Contribution::Flat(light.intensity()),
        Some(limit) => if in_shadow(roots, limit) {
            Contribution::Flat(darkness())
        } else {
            Contribution::Directed(light.intensity())
        },
    }
}

/// A light adds nothing to a point in its shadow, and an ambient light has
/// no shadow: what lies between the point and the other lights takes nothing
/// from what it adds.
pub proof fn lemma_shadow_takes_all_but_ambient_light(
    light: Light,
    roots: Seq<(Scalar, Scalar)>,
    limit: Scalar,
)
    ensures
        shadow_limit(light) == Some(limit) && in_shadow(roots, limit) ==> light_contribution(
            light,
            roots,
        ) == Contribution::Flat(darkness()),
        light is Ambient ==> light_contribution(light, roots) == Contribution::Flat(
            light.intensity(),
        ),
{
}

/// Decides what a light adds at a point. For a directional light the shadow
/// ray runs from the point along the light's direction, for a point light
/// from the point to the light's position; `roots` holds its roots against
/// each sphere. For an ambient light `roots` is not looked at.
pub fn calculate_light_intensity(light: &Light, roots: &Vec<(Scalar, Scalar)>) -> (added:
    Contribution)
    ensures
        added == light_contribution(*light, roots@),
{
    let dark = Color {
        r: Scalar::zero(),
        g: Scalar::zero(),
        b: Scalar::zero(),
        a: Scalar::zero(),
    };
    match light {
        Light::Directional { direction: _, intensity } => {
            if !point_in_shadow(roots, Scalar::infinity()) {
                Contribution::Directed(*intensity)
            } else {
                Contribution::Flat(dark)
            }
        },
        Light::Point { position: _, intensity } => {
            if !point_in_shadow(roots, Scalar::one()) {
                Contribution::Directed(*intensity)
            } else {
                Contribution::Flat(dark)
            }
        },
        Light::Ambient { intensity } => Contribution::Flat(*intensity),
    }
}

/// The specular term of a light: the cosine between the mirrored light and
/// the view is raised to `exponent`, and the alpha channel of the light that
/// was gathered is replaced by `alpha` out of 255.
#[derive(Debug, Copy, Clone, PartialEq, Eq)]
pub struct Highlight {
    pub exponent: Scalar,
    pub alpha: u8,
}

/// Which terms of the lighting model a light adds to a surface.
#[derive(Debug, Copy, Clone, PartialEq, Eq)]
pub struct Shading {
    /// The intensity times the cosine between the normal and the light.
    pub diffuse: bool,
    pub highlight: Option<Highlight>,
}

/// The terms that apply where the normal and the direction of the light have
/// the dot product `normal_dot_direction`, and the mirrored direction of the
/// light and the view have the dot product `reflection_dot_view`: the diffuse
/// term where the first is above zero, the specular term where the material is
/// specular and the second is above zero.
pub open spec fn shading(
    material: Material,
    normal_dot_direction: Scalar,
    reflection_dot_view: Scalar,
) -> Shading {
    Shading {
        diffuse: Scalar::zero().below(normal_dot_direction),
        highlight: match material {
            Material::Specular { color, specular, .. } => if Scalar::zero().below(
                reflection_dot_view,
            ) {
                Some(Highlight { exponent: specular, alpha: color.a })
            } else {
                None
            },
            Material::Matte { .. } => None,
        },
    }
}

/// Decides which terms of the lighting model a light adds to a surface. On a
/// matte material `reflection_dot_view` is not looked at.
pub fn calculate_directional_light(
    material: &Material,
    normal_dot_direction: Scalar,
    reflection_dot_view: Scalar,
) -> (terms: Shading)
    ensures
        terms == shading(*material, normal_dot_direction, reflection_dot_view),
{
    let diffuse = normal_dot_direction.gt(Scalar::zero());
    let mut highlight: Option<Highlight> = None;
    if let Material::Specular { specular, color, .. } = material {
        if reflection_dot_view.gt(Scalar::zero()) {
            highlight = Some(Highlight { exponent: *specular, alpha: color.a });
        }
    }
    Shading { diffuse, highlight }
}

/// What follows from casting one ray.
#[derive(Debug, Copy, Clone, PartialEq, Eq)]
pub enum TraceStep {
    /// The ray meets nothing, and has this color.
    Miss { color: Color<u8> },
    /// The ray meets the sphere `sphere` at the distance `t`, and has the color
    /// that the lights give the sphere there.
    Shade { sphere: usize, t: Scalar },
    /// The ray meets the sphere `sphere` at the distance `t`. The color that
    /// the lights give the sphere there is mixed with the color of the
    /// mirrored ray, which counts by the share `reflectiveness` and is traced
    /// from `min_distance` up to `max_distance` with `depth` reflections left.
    Reflect {
        sphere: usize,
        t: Scalar,
        reflectiveness: Scalar,
        min_distance: Scalar,
        max_distance: Scalar,
        depth: u32,
    },
}

/// The step that follows from a ray with the roots `roots` against the
/// spheres `objects`, traced with `depth` reflections left.
pub open spec fn trace_step(
    roots: Seq<(Scalar, Scalar)>,
    min: Scalar,
    max: Scalar,
    objects: Seq<Sphere>,
    depth: u32,
) -> TraceStep {
    match nearest_hit(roots, min, max) {
        (None, _) => TraceStep::Miss { color: background() },
        (Some(i), t) => match objects[i].material {
            Material::Specular { reflectiveness, .. } => if depth > 0 {
                TraceStep::Reflect {
                    sphere: i as usize,
                    t,
                    reflectiveness,
                    min_distance: epsilon(),
                    max_distance: Scalar::infinity(),
                    depth: (depth - 1) as u32,
                }
            } else {
                TraceStep::Shade { sphere: i as usize, t }
            },
            Material::Matte { .. } => TraceStep::Shade { sphere: i as usize, t },
        },
    }
}

/// Decides what follows from casting one ray into the scene. `roots` holds
/// the roots of the ray against each sphere of the scene, in order. A ray
/// that meets nothing from `min_distance` up to, and without, `max_distance`
/// has the background color. A mirrored ray is followed only from a specular
/// sphere and only while `reflection_recursion_depth` is above zero; it is
/// traced with one reflection less.
pub fn trace_ray(
    roots: &Vec<(Scalar, Scalar)>,
    min_distance: Scalar,
    max_distance: Scalar,
    scene: &Scene,
    reflection_recursion_depth: u32,
) -> (step: TraceStep)
    requires
        roots.len() == scene.objects.len(),
    ensures
        step == trace_step(
            roots@,
            min_distance,
            max_distance,
            scene.objects@,
            reflection_recursion_depth,
        ),
{
    let (closest_sphere, closest_t) = closest_intersection(roots, min_distance, max_distance);
    proof {
        lemma_nearest_hit_is_first_minimum(roots@, min_distance, max_distance);
    }
    match closest_sphere {
        Some(index) => {
            if reflection_recursion_depth > 0 {
                if let Material::Specular { reflectiveness, .. } = scene.objects[index].material {
                    return TraceStep::Reflect {
                        sphere: index,
                        t: closest_t,
                        reflectiveness,
                        min_distance: epsilon(),
                        max_distance: Scalar::infinity(),
                        depth: reflection_recursion_depth - 1,
                    };
                }
            }
            TraceStep::Shade { sphere: index, t: closest_t }
        },
        None => TraceStep::Miss { color: bg_color() },
    }
}

/// Every pixel of `surface` has a color that `trace` gives for the primary
/// ray through it: the ray is traced from the distance `1.0` on, without
/// limit, and with all reflections left.
pub open spec fn is_frame_of<S: Surface, F: Fn(u32, u32, Scalar, Scalar, u32) -> Color<u8>>(
    surface: S,
    trace: F,
) -> bool {
    forall|x: u32, y: u32|
        x < surface.width() && y < surface.height() ==> call_ensures(
            trace,
            (x, y, Scalar::one(), Scalar::infinity(), REFLECTION_RECURSION_LIMIT),
            #[trigger] surface.pixel(x, y),
        )
}

/// Renders one frame: traces the primary ray through each pixel of the
/// surface, row by row from the top and each row from the left, and gives the
/// pixel the color that comes back. `trace` takes the pixel's column and row,
/// the distances between which a hit counts, and the number of reflections
/// that may be followed.
pub fn ray_trace<S: Surface, F: Fn(u32, u32, Scalar, Scalar, u32) -> Color<u8>>(
    surface: &mut S,
    trace: F,
)
    requires
        old(surface).well_formed(),
        forall|x: u32, y: u32|
            x < old(surface).width() && y < old(surface).height() ==> call_requires(
                trace,
                (x, y, Scalar::one(), Scalar::infinity(), REFLECTION_RECURSION_LIMIT),
            ),
    ensures
        final(surface).well_formed(),
        final(surface).width() == old(surface).width(),
        final(surface).height() == old(surface).height(),
        is_frame_of(*final(surface), trace),
{
    let width = surface.get_width();
    let height = surface.get_height();
    let mut y: u32 = 0;
    while y < height
        invariant
            surface.well_formed(),
            surface.width() == width,
            surface.height() == height,
            width == old(surface).width(),
            height == old(surface).height(),
            y <= height,
            forall|i: u32, j: u32|
                i < width && j < height ==> call_requires(
                    trace,
                    (i, j, Scalar::one(), Scalar::infinity(), REFLECTION_RECURSION_LIMIT),
                ),
            forall|i: u32, j: u32|
                i < width && j < y ==> call_ensures(
                    trace,
                    (i, j, Scalar::one(), Scalar::infinity(), REFLECTION_RECURSION_LIMIT),
                    #[trigger] surface.pixel(i, j),
                ),
        decreases height - y,
    {
        let mut x: u32 = 0;
        while x < width
            invariant
                surface.well_formed(),
                surface.width() == width,
                surface.height() == height,
                y < height,
                x <= width,
                forall|i: u32, j: u32|
                    i < width && j < height ==> call_requires(
                        trace,
                        (i, j, Scalar::one(), Scalar::infinity(), REFLECTION_RECURSION_LIMIT),
                    ),
                forall|i: u32, j: u32|
                    i < width && j < y ==> call_ensures(
                        trace,
                        (i, j, Scalar::one(), Scalar::infinity(), REFLECTION_RECURSION_LIMIT),
                        #[trigger] surface.pixel(i, j),
                    ),
                forall|i: u32|
                    i < x ==> call_ensures(
                        trace,
                        (i, y, Scalar::one(), Scalar::infinity(), REFLECTION_RECURSION_LIMIT),
                        #[trigger] surface.pixel(i, y),
                    ),
            decreases width - x,
        {
            let color = trace(x, y, Scalar::one(), Scalar::infinity(), REFLECTION_RECURSION_LIMIT);
            surface.set_pixel(x, y, &color);
            x += 1;
        }
        y += 1;
    }
}

/// Where `trace` gives one color for each ray, two frames of one size that
/// were rendered with it are equal pixel by pixel, whatever the surfaces held
/// before.
pub proof fn lemma_frames_agree<S: Surface, F: Fn(u32, u32, Scalar, Scalar, u32) -> Color<u8>>(
    first: S,
    second: S,
    trace: F,
)
    requires
        first.width() == second.width(),
        first.height() == second.height(),
        is_frame_of(first, trace),
        is_frame_of(second, trace),
        forall|args: (u32, u32, Scalar, Scalar, u32), a: Color<u8>, b: Color<u8>|
            call_ensures(trace, args, a) && call_ensures(trace, args, b) ==> a == b,
    ensures
        forall|x: u32, y: u32|
            x < first.width() && y < first.height() ==> (#[trigger] first.pixel(x, y))
                == second.pixel(x, y),
{
    assert forall|x: u32, y: u32| x < first.width() && y < first.height() implies (
    #[trigger] first.pixel(x, y)) == second.pixel(x, y) by {
        let args = (x, y, Scalar::one(), Scalar::infinity(), REFLECTION_RECURSION_LIMIT);
        assert(call_ensures(trace, args, first.pixel(x, y)));
        assert(call_ensures(trace, args, second.pixel(x, y)));
    }
}

/// Rendering twice gives the same bytes: where `trace` gives one color for
/// each ray, two frames of one size that were rendered with it into surfaces
/// in memory are equal byte by byte, whatever the surfaces held before.
pub proof fn lemma_retrace_is_byte_identical<F: Fn(u32, u32, Scalar, Scalar, u32) -> Color<u8>>(
    first: PixelSurface,
    second: PixelSurface,
    trace: F,
)
    requires
        first.well_formed(),
        second.well_formed(),
        first.width() == second.width(),
        first.height() == second.height(),
        is_frame_of(first, trace),
        is_frame_of(second, trace),
        forall|args: (u32, u32, Scalar, Scalar, u32), a: Color<u8>, b: Color<u8>|
            call_ensures(trace, args, a) && call_ensures(trace, args, b) ==> a == b,
    ensures
        first@ == second@,
{
    lemma_frames_agree(first, second, trace);
    lemma_same_pixels_same_bytes(first, second);
}

/// The number of reflections left for the ray number `n` of a chain, where
/// the first ray is a primary ray and each further ray is the mirrored ray
/// that the step before asked for; or nothing, where the chain ends before.
/// `casts` holds, for each ray, its roots against the spheres and the
/// distances between which a hit counts.
pub open spec fn depth_of_cast(
    objects: Seq<Sphere>,
    casts: Seq<(Seq<(Scalar, Scalar)>, Scalar, Scalar)>,
    n: nat,
) -> Option<u32>
    decreases n,
{
    if n == 0 {
        Some(REFLECTION_RECURSION_LIMIT)
    } else {
        match depth_of_cast(objects, casts, (n - 1) as nat) {
            Some(depth) => match trace_step(
                casts[n - 1].0,
                casts[n - 1].1,
                casts[n - 1].2,
                objects,
                depth,
            ) {
                TraceStep::Reflect { depth: left, .. } => Some(left),
                _ => None,
            },
            None => None,
        }
    }
}

/// Tracing ends: whatever the scene and the rays, a primary ray is followed
/// by at most `REFLECTION_RECURSION_LIMIT` mirrored rays, and each is traced
/// with one reflection less than the ray before.
pub proof fn lemma_reflections_are_bounded(
    objects: Seq<Sphere>,
    casts: Seq<(Seq<(Scalar, Scalar)>, Scalar, Scalar)>,
    n: nat,
)
    ensures
        depth_of_cast(objects, casts, n) matches Some(depth) ==> n <= REFLECTION_RECURSION_LIMIT
            && depth == REFLECTION_RECURSION_LIMIT - n,
    decreases n,
{
    if n > 0 {
        lemma_reflections_are_bounded(objects, casts, (n - 1) as nat);
    }
}

/// A sphere that a ray misses offers no hit, whatever the distances between
/// which a hit counts: where the discriminant is below zero, so that both
/// roots are positive infinity, the sphere is never the nearest.
pub proof fn lemma_miss_offers_no_hit(
    discriminant: Scalar,
    t1: Scalar,
    t2: Scalar,
    min: Scalar,
    max: Scalar,
)
    requires
        discriminant.below(Scalar::zero()),
    ensures
        roots_of(discriminant, t1, t2) == (Scalar::infinity(), Scalar::infinity()),
        sphere_hit(roots_of(discriminant, t1, t2), min, max) is None,
{
    lemma_infinity_is_greatest(max, max);
}

} // verus!
