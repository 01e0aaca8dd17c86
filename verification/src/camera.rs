//! The camera and the tracer: ray generation, closest-hit search,
//! Lambertian shading with hard shadows, and bounded mirror recursion.
//!
//! `spec_trace` is the exact mathematical model of `trace_ray`: for a
//! given ray, scene and depth it yields the three color bytes the
//! tracer returns.

use crate::fixed::{
    abs_i, clamp01, clamp01_spec, div_trunc, fmul, lemma_abs_mul_bound, lemma_tdiv_bound,
    lemma_tdiv_bound_simple, lemma_tdiv_nonneg, smul, tdiv, Fx, COORD_LIMIT, DIR_LIMIT, DIST_LIMIT,
    EPS, PIX_LIMIT, SCALE, TAN_LIMIT, TRACE_LIMIT, T_MAX,
};
use crate::objects::{
    hit_near, ray_wf, BuildError, HitG, Intersectable, Intersection, LightSource, Object, Ray,
    RayG,
};
use crate::vec3::{
    lemma_cross_range, lemma_dot_range, lemma_scale_range, v_add, v_bounded, v_cross, v_dot,
    v_norm, v_scale, v_sub, Vec3, Vec3i,
};
use vstd::arithmetic::div_mod::lemma_fundamental_div_mod_converse;
use vstd::prelude::*;

verus! {

/// Every object of the scene is well formed.
pub open spec fn scene_wf(objects: Seq<Object>) -> bool {
    forall|i: int| 0 <= i < objects.len() ==> (#[trigger] objects[i]).wf()
}

/// The closest forward hit over the scene, with the index of the hit
/// object.  Scanned in order; a later hit wins only if strictly
/// nearer, so the first of two equally near objects is kept.
pub open spec fn spec_closest(objects: Seq<Object>, ray: RayG) -> Option<(int, HitG)>
    decreases objects.len(),
{
    if objects.len() == 0 {
        Option::None
    } else {
        let prev = spec_closest(objects.drop_last(), ray);
        let i = objects.len() - 1;
        match objects.last().spec_intersect(ray) {
            Option::Some(h) => match prev {
                Option::Some(p) => if h.t < p.1.t {
                    Option::Some((i, h))
                } else {
                    Option::Some(p)
                },
                Option::None => Option::Some((i, h)),
            },
            Option::None => prev,
        }
    }
}

/// View of the executable closest-hit result.
pub open spec fn res_view(r: Option<(usize, Intersection)>) -> Option<(int, HitG)> {
    match r {
        Option::Some(p) => Option::Some((p.0 as int, p.1@)),
        Option::None => Option::None,
    }
}

/// Some object blocks the given shadow ray beyond the self-hit bias.
pub open spec fn spec_in_shadow(objects: Seq<Object>, sray: RayG) -> bool {
    exists|k: int|
        0 <= k < objects.len() && ((#[trigger] objects[k].spec_intersect(sray)) matches
            Option::Some(h) && h.t > EPS as int)
}

/// The fixed light the shading step uses.
pub open spec fn light_origin() -> Vec3i {
    Vec3i { x: -5 * (SCALE as int), y: 5 * (SCALE as int), z: 5 * (SCALE as int) }
}

/// Direction from a hit point toward the light.
pub open spec fn spec_light_dir(h: HitG) -> Vec3i {
    v_norm(v_sub(light_origin(), h.point))
}

/// The shadow ray: the hit point nudged along the normal, aimed at the
/// light.
pub open spec fn spec_shadow_ray(h: HitG) -> RayG {
    RayG {
        origin: v_add(h.point, v_scale(EPS as int, h.normal)),
        direction: spec_light_dir(h),
    }
}

/// A diffuse intensity channel: the light channel scaled to [0, 1]
/// times the Lambertian term, clamped; zero under shadow.
pub open spec fn spec_intensity(product: int, li: int, shadowed: bool) -> int {
    if shadowed {
        0
    } else {
        clamp01_spec(smul(tdiv(li, 255), product))
    }
}

/// One local color byte: base color scaled to [0, 1], times the
/// intensity, times the light color scaled to [0, 1], back to 0..255.
pub open spec fn spec_channel(base: int, inten: int, lightc: int) -> int {
    tdiv(smul(clamp01_spec(smul(tdiv(base, 255), inten)), clamp01_spec(tdiv(lightc, 255))) * 255,
        SCALE as int)
}

/// The local (non-reflected) color of a hit, shadows included.
pub open spec fn spec_local_color(o: Object, h: HitG, objects: Seq<Object>) -> (int, int, int) {
    let ldir = spec_light_dir(h);
    let prod0 = v_dot(h.normal, ldir);
    let product = if prod0 >= 0 {
        prod0
    } else {
        0
    };
    let shadowed = spec_in_shadow(objects, spec_shadow_ray(h));
    let c = o.spec_color();
    (
        spec_channel(c.0, spec_intensity(product, 255 * (SCALE as int), shadowed), 255 * (
        SCALE as int)),
        spec_channel(c.1, spec_intensity(product, 255 * (SCALE as int), shadowed), 0),
        spec_channel(c.2, spec_intensity(product, 255 * (SCALE as int), shadowed), 100 * (
        SCALE as int)),
    )
}

/// Mirror reflection of an incident direction about a normal.
pub open spec fn spec_reflect(incident: Vec3i, normal: Vec3i) -> Vec3i {
    v_sub(incident, v_scale(2 * v_dot(incident, normal), normal))
}

/// The reflected ray cast when a hit surface is reflective.
pub open spec fn spec_reflected_ray(ray: RayG, h: HitG) -> RayG {
    RayG {
        origin: v_add(h.point, v_scale(EPS as int, h.normal)),
        direction: v_norm(spec_reflect(ray.direction, h.normal)),
    }
}

/// The reflected ray stays inside the tracer's working domain; when it
/// would leave, the bounce is dropped and the local color stands.
pub open spec fn spec_can_reflect(ray: RayG, h: HitG) -> bool {
    v_bounded(spec_reflected_ray(ray, h).origin, TRACE_LIMIT as int)
}

/// Linear blend of a local and a reflected byte by the reflectivity.
pub open spec fn spec_blend(l: int, rec: int, refl: int) -> int {
    tdiv(l * (SCALE as int - refl) + rec * refl, SCALE as int)
}

/// The color traced for a ray: black at depth zero or on a miss, else
/// the shaded local color, blended with one recursive bounce when the
/// surface is reflective.
pub open spec fn spec_trace(ray: RayG, objects: Seq<Object>, depth: nat) -> (int, int, int)
    decreases depth,
{
    if depth == 0 {
        (0, 0, 0)
    } else {
        match spec_closest(objects, ray) {
            Option::None => (0, 0, 0),
            Option::Some(p) => {
                let o = objects[p.0];
                let h = p.1;
                let local = spec_local_color(o, h, objects);
                let refl = o.spec_reflectivity();
                if refl > 0 && spec_can_reflect(ray, h) {
                    let rray = spec_reflected_ray(ray, h);
                    let rec = spec_trace(rray, objects, (depth - 1) as nat);
                    (
                        spec_blend(local.0, rec.0, refl),
                        spec_blend(local.1, rec.1, refl),
                        spec_blend(local.2, rec.2, refl),
                    )
                } else {
                    local
                }
            },
        }
    }
}

/// The virtual camera: an orthonormal view basis plus the image-plane
/// and raster dimensions.  `fov_tan` is the tangent of half the
/// vertical field of view, as a fixed-point scalar.
#[derive(Clone, Copy, PartialEq, Eq, Structural, Debug)]
pub struct Camera {
    pub origin: Vec3,
    pub forward: Vec3,
    pub right: Vec3,
    pub up: Vec3,
    pub distance: Fx,
    pub height: usize,
    pub width: usize,
    pub fov_tan: Fx,
}

pub open spec fn camera_args_ok(
    origin: Vec3i,
    look_at: Vec3i,
    up_hint: Vec3i,
    distance: int,
    height: int,
    width: int,
    fov_tan: int,
) -> bool {
    v_bounded(origin, COORD_LIMIT as int) && v_bounded(look_at, COORD_LIMIT as int) && v_bounded(
        up_hint,
        COORD_LIMIT as int,
    ) && 0 < distance <= DIST_LIMIT as int && 0 < height <= PIX_LIMIT as int && 0 < width
        <= PIX_LIMIT as int && 0 <= fov_tan <= TAN_LIMIT as int
}

pub open spec fn camera_wf(c: Camera) -> bool {
    v_bounded(c.origin@, COORD_LIMIT as int) && v_bounded(c.forward@, 2 * SCALE as int)
        && v_bounded(c.right@, 2 * SCALE as int) && v_bounded(c.up@, 2 * SCALE as int) && 0
        < c.distance <= DIST_LIMIT && 0 < c.height <= PIX_LIMIT && 0 < c.width <= PIX_LIMIT && 0
        <= c.fov_tan <= TAN_LIMIT
}

/// The view basis derived from the camera arguments.
pub open spec fn spec_forward(origin: Vec3i, look_at: Vec3i) -> Vec3i {
    v_norm(v_sub(look_at, origin))
}

pub open spec fn spec_right(origin: Vec3i, look_at: Vec3i, up_hint: Vec3i) -> Vec3i {
    v_norm(v_cross(spec_forward(origin, look_at), up_hint))
}

pub open spec fn spec_up(origin: Vec3i, look_at: Vec3i, up_hint: Vec3i) -> Vec3i {
    v_norm(v_cross(spec_right(origin, look_at, up_hint), spec_forward(origin, look_at)))
}

/// The basis is degenerate when any of the three vectors to normalize
/// is too short: the look direction vanishes, or the up hint is
/// (nearly) parallel to it.
pub open spec fn spec_basis_degenerate(origin: Vec3i, look_at: Vec3i, up_hint: Vec3i) -> bool {
    ||| v_dot(v_sub(look_at, origin), v_sub(look_at, origin)) < 1
    ||| {
        let f = spec_forward(origin, look_at);
        let rv = v_cross(f, up_hint);
        ||| v_dot(rv, rv) < 1
    ||| {
            let r = v_norm(rv);
            let uv = v_cross(r, f);
            v_dot(uv, uv) < 1
        }
    }
}

impl Camera {
    /// Builds the camera, deriving the orthonormal basis from the
    /// look-at point and up hint.  Fails fast on out-of-range values
    /// and on a degenerate basis, never yielding a half-valid camera.
    pub fn new(
        origin: Vec3,
        look_at: Vec3,
        up_hint: Vec3,
        distance: Fx,
        height: usize,
        width: usize,
        fov_tan: Fx,
    ) -> (r: Result<Camera, BuildError>)
        ensures
            !camera_args_ok(
                origin@,
                look_at@,
                up_hint@,
                distance as int,
                height as int,
                width as int,
                fov_tan as int,
            ) ==> r == Result::<Camera, BuildError>::Err(BuildError::OutOfRange),
            camera_args_ok(
                origin@,
                look_at@,
                up_hint@,
                distance as int,
                height as int,
                width as int,
                fov_tan as int,
            ) && spec_basis_degenerate(origin@, look_at@, up_hint@) ==> r == Result::<
                Camera,
                BuildError,
            >::Err(BuildError::DegenerateBasis),
            camera_args_ok(
                origin@,
                look_at@,
                up_hint@,
                distance as int,
                height as int,
                width as int,
                fov_tan as int,
            ) && !spec_basis_degenerate(origin@, look_at@, up_hint@) ==> (r matches Result::Ok(c)
                && c.origin == origin && c.forward@ == spec_forward(origin@, look_at@) && c.right@
                == spec_right(origin@, look_at@, up_hint@) && c.up@ == spec_up(
                origin@,
                look_at@,
                up_hint@,
            ) && c.distance == distance && c.height == height && c.width == width && c.fov_tan
                == fov_tan),
            r matches Result::Ok(c) ==> camera_wf(c),
    {
        if !(origin.in_bounds(COORD_LIMIT) && look_at.in_bounds(COORD_LIMIT) && up_hint.in_bounds(
            COORD_LIMIT,
        ) && 0 < distance && distance <= DIST_LIMIT && 0 < height && height <= PIX_LIMIT && 0
            < width && width <= PIX_LIMIT && 0 <= fov_tan && fov_tan <= TAN_LIMIT) {
            return Result::Err(BuildError::OutOfRange);
        }
        let fvec: Vec3 = look_at.minus(&origin);
        let fd: Fx = fvec.dot(&fvec);
        if fd < 1 {
            return Result::Err(BuildError::DegenerateBasis);
        }
        let forward: Vec3 = fvec.normalize();
        proof {
            lemma_cross_range(
                forward@,
                up_hint@,
                0x20000,
                0x100_0000_0000,
                0x400_0000_0000,
            );
        }
        let rvec: Vec3 = forward.cross(&up_hint);
        let rd: Fx = rvec.dot(&rvec);
        if rd < 1 {
            return Result::Err(BuildError::DegenerateBasis);
        }
        let right: Vec3 = rvec.normalize();
        proof {
            lemma_cross_range(right@, forward@, 0x20000, 0x20000, 0x80000);
        }
        let uvec: Vec3 = right.cross(&forward);
        let ud: Fx = uvec.dot(&uvec);
        if ud < 1 {
            return Result::Err(BuildError::DegenerateBasis);
        }
        let up: Vec3 = uvec.normalize();
        Result::Ok(Camera { origin, forward, right, up, distance, height, width, fov_tan })
    }

    /// Mirror reflection: `incident - 2 (incident . normal) normal`.
    pub fn reflect(&self, incident: &Vec3, normal: &Vec3) -> (r: Vec3)
        requires
            v_bounded(incident@, DIR_LIMIT as int),
            v_bounded(normal@, 2 * SCALE as int),
        ensures
            r@ == spec_reflect(incident@, normal@),
            v_bounded(r@, 0x100_0000),
    {
        let d: Fx = incident.dot(normal);
        proof {
            lemma_dot_range(incident@, normal@, 0x40000, 0x20000, 0x18_0000);
        }
        let s2: Fx = 2 * d;
        proof {
            lemma_scale_range(s2 as int, normal@, 0x30_0000, 0x20000, 0x80_0000);
        }
        let sv: Vec3 = normal.scale(s2);
        incident.minus(&sv)
    }

    /// The nearest hit of `ray` over the scene, with the index of the
    /// hit object; `None` when every object is missed.
    pub fn closest_intersection(&self, ray: &Ray, objects: &Vec<Object>) -> (r: Option<
        (usize, Intersection),
    >)
        requires
            scene_wf(objects@),
            ray_wf(ray@),
        ensures
            res_view(r) == spec_closest(objects@, ray@),
            r matches Option::Some(p) ==> (p.0 < objects.len() && 0 <= p.1.distance <= T_MAX
                && hit_near(ray@, p.1@) && v_bounded(p.1@.normal, 2 * SCALE as int)),
    {
        let mut result: Option<(usize, Intersection)> = Option::None;
        let mut k: usize = 0;
        proof {
            assert(objects@.subrange(0, 0) =~= Seq::<Object>::empty());
        }
        while k < objects.len()
            invariant
                scene_wf(objects@),
                ray_wf(ray@),
                k <= objects.len(),
                res_view(result) == spec_closest(objects@.subrange(0, k as int), ray@),
                result matches Option::Some(p) ==> (p.0 < k && 0 <= p.1.distance <= T_MAX
                    && hit_near(ray@, p.1@) && v_bounded(p.1@.normal, 2 * SCALE as int)),
            decreases objects.len() - k,
        {
            proof {
                assert(objects@.subrange(0, k + 1).drop_last() =~= objects@.subrange(0, k as int));
                assert(objects@.subrange(0, k + 1).last() == objects@[k as int]);
            }
            let hit = objects[k].intersect(ray);
            match hit {
                Option::Some(h) => {
                    let replace: bool = match &result {
                        Option::Some(p) => h.distance < p.1.distance,
                        Option::None => true,
                    };
                    if replace {
                        result = Option::Some((k, h));
                    }
                },
                Option::None => {},
            }
            k = k + 1;
        }
        proof {
            assert(objects@.subrange(0, objects@.len() as int) =~= objects@);
        }
        result
    }

    /// Traces one ray to a color.  Depth zero and misses give black;
    /// otherwise the hit is shaded with the fixed light and a hard
    /// shadow test, and a reflective surface blends in one recursive
    /// bounce.
    pub fn trace_ray(&self, ray: &Ray, objects: &Vec<Object>, depth: u32) -> (c: (u8, u8, u8))
        requires
            scene_wf(objects@),
            ray_wf(ray@),
            v_bounded(ray@.origin, TRACE_LIMIT as int),
        ensures
            (c.0 as int, c.1 as int, c.2 as int) == spec_trace(ray@, objects@, depth as nat),
        decreases depth,
    {
        if depth == 0 {
            return (0, 0, 0);
        }
        let found = self.closest_intersection(ray, objects);
        match found {
            Option::None => (0, 0, 0),
            Option::Some((idx, hit)) => {
                let light = LightSource {
                    origin: Vec3::new(-5 * SCALE, 5 * SCALE, 5 * SCALE),
                    intensity: (255 * SCALE, 255 * SCALE, 255 * SCALE),
                    color: (255 * SCALE, 0, 100 * SCALE),
                };
                let lvec: Vec3 = light.origin.minus(&hit.point);
                let light_dir: Vec3 = lvec.normalize();
                let normal: Vec3 = hit.normal;
                let prod0: Fx = normal.dot(&light_dir);
                proof {
                    lemma_dot_range(normal@, light_dir@, 0x20000, 0x20000, 0xC_0000);
                }
                let product: Fx = if prod0 >= 0 {
                    prod0
                } else {
                    0
                };
                let li: Fx = div_trunc(light.intensity.0, 255);
                proof {
                    lemma_tdiv_bound(255 * (SCALE as int), 255, SCALE as int);
                    lemma_abs_mul_bound(li as int, product as int, 65536, 0xC_0000);
                }
                let i0: Fx = clamp01(fmul(li, product));
                proof {
                    lemma_scale_range(EPS as int, normal@, 66, 0x20000, 132);
                }
                let eps_n: Vec3 = normal.scale(EPS);
                let sorigin: Vec3 = hit.point.plus(&eps_n);
                let sray = Ray { origin: sorigin, direction: light_dir };
                let shadowed: bool = in_shadow(objects, &sray);
                let inten: Fx = if shadowed {
                    0
                } else {
                    i0
                };
                let base: (Fx, Fx, Fx) = objects[idx].get_color();
                proof {
                    crate::objects::lemma_object_ranges(objects@[idx as int]);
                }
                let b0: u8 = channel_byte(base.0, inten, 255 * SCALE);
                let b1: u8 = channel_byte(base.1, inten, 0);
                let b2: u8 = channel_byte(base.2, inten, 100 * SCALE);
                let refl: Fx = objects[idx].reflectivity();
                if refl > 0 {
                    let rdir0: Vec3 = self.reflect(&ray.direction, &normal);
                    let rdir: Vec3 = rdir0.normalize();
                    let rray = Ray { origin: sorigin, direction: rdir };
                    if sorigin.in_bounds(TRACE_LIMIT) {
                        let rec: (u8, u8, u8) = self.trace_ray(&rray, objects, depth - 1);
                        let f0: u8 = blend_byte(b0, rec.0, refl);
                        let f1: u8 = blend_byte(b1, rec.1, refl);
                        let f2: u8 = blend_byte(b2, rec.2, refl);
                        return (f0, f1, f2);
                    }
                    return (b0, b1, b2);
                }
                (b0, b1, b2)
            },
        }
    }
}

/// Width over height, as a fixed-point ratio.
pub open spec fn spec_aspect(c: Camera) -> int {
    tdiv((c.width as int) * (SCALE as int), c.height as int)
}

/// Image-plane height: `2 * tan(fov / 2) * distance`.
pub open spec fn spec_plane_h(c: Camera) -> int {
    2 * smul(c.fov_tan as int, c.distance as int)
}

pub open spec fn spec_plane_w(c: Camera) -> int {
    smul(spec_plane_h(c), spec_aspect(c))
}

/// Normalized horizontal position of the center of pixel column `i`.
pub open spec fn spec_px(c: Camera, i: int) -> int {
    tdiv((2 * i + 1) * (SCALE as int), 2 * (c.width as int))
}

pub open spec fn spec_py(c: Camera, j: int) -> int {
    tdiv((2 * j + 1) * (SCALE as int), 2 * (c.height as int))
}

/// Signed screen-space offset of pixel column `i`: negative on the
/// left half of the image, positive on the right.
pub open spec fn spec_screen_x(c: Camera, i: int) -> int {
    tdiv(smul(2 * spec_px(c, i) - (SCALE as int), spec_plane_w(c)), 2)
}

/// Signed screen-space offset of pixel row `j`: positive on the top
/// half of the image, negative on the bottom.
pub open spec fn spec_screen_y(c: Camera, j: int) -> int {
    tdiv(smul((SCALE as int) - 2 * spec_py(c, j), spec_plane_h(c)), 2)
}

/// The camera ray through the center of pixel `(i, j)`.
pub open spec fn spec_pixel_ray(c: Camera, i: int, j: int) -> RayG {
    let pp = v_add(
        v_add(
            v_add(c.origin@, v_scale(c.distance as int, c.forward@)),
            v_scale(spec_screen_x(c, i), c.right@),
        ),
        v_scale(spec_screen_y(c, j), c.up@),
    );
    RayG { origin: c.origin@, direction: v_norm(v_sub(pp, c.origin@)) }
}

/// The ray for raster index `k`, rows outer, columns inner.
pub open spec fn spec_ray_at(c: Camera, k: int) -> RayG {
    spec_pixel_ray(c, k % (c.width as int), k / (c.width as int))
}

proof fn lemma_px_range(i: int, w: int)
    requires
        0 <= i < w,
    ensures
        0 <= tdiv((2 * i + 1) * (SCALE as int), 2 * w) <= SCALE as int,
{
    assert(0 <= (2 * i + 1) * 65536 && (2 * i + 1) * 65536 <= 65536 * (2 * w)) by (nonlinear_arith)
        requires
            0 <= i,
            i < w,
    ;
    lemma_tdiv_nonneg((2 * i + 1) * (SCALE as int), 2 * w);
    lemma_tdiv_bound((2 * i + 1) * (SCALE as int), 2 * w, SCALE as int);
}

impl Camera {
    /// One ray per pixel, in raster order: row 0 first, each row left
    /// to right, `width * height` rays in all.
    pub fn generate_rays(&self) -> (rays: Vec<Ray>)
        requires
            camera_wf(*self),
        ensures
            rays@.len() == (self.width as int) * (self.height as int),
            forall|k: int| 0 <= k < rays@.len() ==> (#[trigger] rays@[k])@ == spec_ray_at(*self, k),
            forall|k: int|
                0 <= k < rays@.len() ==> ray_wf((#[trigger] rays@[k])@) && v_bounded(
                    rays@[k]@.origin,
                    TRACE_LIMIT as int,
                ),
    {
        let w: usize = self.width;
        let h: usize = self.height;
        proof {
            lemma_abs_mul_bound(w as int, SCALE as int, 0x4000, 65536);
        }
        let aspect: Fx = div_trunc((w as i128) * SCALE, h as i128);
        proof {
            lemma_tdiv_bound_simple((w as int) * (SCALE as int), h as int, 0x4000_0000);
            lemma_abs_mul_bound(self.fov_tan as int, self.distance as int, 0x10_0000, 0x100_0000);
            lemma_tdiv_bound((self.fov_tan as int) * (self.distance as int), SCALE as int,
                0x1000_0000);
        }
        let iph: Fx = 2 * fmul(self.fov_tan, self.distance);
        proof {
            lemma_abs_mul_bound(iph as int, aspect as int, 0x2000_0000, 0x4000_0000);
            lemma_tdiv_bound((iph as int) * (aspect as int), SCALE as int, 0x800_0000_0000);
        }
        let ipw: Fx = fmul(iph, aspect);
        let mut rays: Vec<Ray> = Vec::new();
        let mut j: usize = 0;
        while j < h
            invariant
                camera_wf(*self),
                w == self.width,
                h == self.height,
                aspect as int == spec_aspect(*self),
                iph as int == spec_plane_h(*self),
                ipw as int == spec_plane_w(*self),
                abs_i(iph as int) <= 0x2000_0000,
                abs_i(ipw as int) <= 0x800_0000_0000,
                j <= h,
                rays@.len() == (j as int) * (w as int),
                forall|k: int|
                    0 <= k < rays@.len() ==> (#[trigger] rays@[k])@ == spec_ray_at(*self, k),
                forall|k: int|
                    0 <= k < rays@.len() ==> ray_wf((#[trigger] rays@[k])@) && v_bounded(
                        rays@[k]@.origin,
                        TRACE_LIMIT as int,
                    ),
            decreases h - j,
        {
            let mut i: usize = 0;
            while i < w
                invariant
                    camera_wf(*self),
                    w == self.width,
                    h == self.height,
                    aspect as int == spec_aspect(*self),
                    iph as int == spec_plane_h(*self),
                    ipw as int == spec_plane_w(*self),
                    abs_i(iph as int) <= 0x2000_0000,
                    abs_i(ipw as int) <= 0x800_0000_0000,
                    j < h,
                    i <= w,
                    rays@.len() == (j as int) * (w as int) + i,
                    forall|k: int|
                        0 <= k < rays@.len() ==> (#[trigger] rays@[k])@ == spec_ray_at(*self, k),
                    forall|k: int|
                        0 <= k < rays@.len() ==> ray_wf((#[trigger] rays@[k])@) && v_bounded(
                            rays@[k]@.origin,
                            TRACE_LIMIT as int,
                        ),
                decreases w - i,
            {
                proof {
                    lemma_abs_mul_bound(2 * (i as int) + 1, SCALE as int, 0x8000, 65536);
                    lemma_px_range(i as int, w as int);
                    lemma_abs_mul_bound(2 * (j as int) + 1, SCALE as int, 0x8000, 65536);
                    lemma_px_range(j as int, h as int);
                }
                let px: Fx = div_trunc((2 * (i as i128) + 1) * SCALE, 2 * (w as i128));
                let py: Fx = div_trunc((2 * (j as i128) + 1) * SCALE, 2 * (h as i128));
                proof {
                    lemma_abs_mul_bound(2 * (px as int) - (SCALE as int), ipw as int, 65536,
                        0x800_0000_0000);
                    lemma_tdiv_bound((2 * (px as int) - (SCALE as int)) * (ipw as int),
                        SCALE as int, 0x800_0000_0000);
                    lemma_abs_mul_bound((SCALE as int) - 2 * (py as int), iph as int, 65536,
                        0x2000_0000);
                    lemma_tdiv_bound(((SCALE as int) - 2 * (py as int)) * (iph as int),
                        SCALE as int, 0x2000_0000);
                }
                let sxm: Fx = fmul(2 * px - SCALE, ipw);
                let sx: Fx = div_trunc(sxm, 2);
                let sym: Fx = fmul(SCALE - 2 * py, iph);
                let sy: Fx = div_trunc(sym, 2);
                proof {
                    lemma_tdiv_bound_simple(sxm as int, 2, 0x800_0000_0000);
                    lemma_tdiv_bound_simple(sym as int, 2, 0x2000_0000);
                    lemma_scale_range(self.distance as int, self.forward@, 0x100_0000, 0x20000,
                        0x200_0000);
                    lemma_scale_range(sx as int, self.right@, 0x800_0000_0000, 0x20000,
                        0x1000_0000_0000);
                    lemma_scale_range(sy as int, self.up@, 0x2000_0000, 0x20000, 0x4000_0000);
                }
                let fscaled: Vec3 = self.forward.scale(self.distance);
                let p1: Vec3 = self.origin.plus(&fscaled);
                let rscaled: Vec3 = self.right.scale(sx);
                let p2: Vec3 = p1.plus(&rscaled);
                let uscaled: Vec3 = self.up.scale(sy);
                let pp: Vec3 = p2.plus(&uscaled);
                let dirv: Vec3 = pp.minus(&self.origin);
                let dir: Vec3 = dirv.normalize();
                let ray = Ray { origin: self.origin, direction: dir };
                proof {
                    let k = (j as int) * (w as int) + (i as int);
                    lemma_fundamental_div_mod_converse(k, w as int, j as int, i as int);
                    assert(ray@ == spec_ray_at(*self, k));
                }
                rays.push(ray);
                i = i + 1;
            }
            proof {
                assert(((j as int) + 1) * (w as int) == (j as int) * (w as int) + (w as int))
                    by (nonlinear_arith);
            }
            j = j + 1;
        }
        proof {
            assert((self.width as int) * (self.height as int) == (j as int) * (w as int))
                by (nonlinear_arith)
                requires
                    j as int == self.height as int,
                    w as int == self.width as int,
            ;
        }
        rays
    }

    /// Renders the whole raster: one traced color per pixel, in raster
    /// order, at the fixed recursion depth of three bounces.
    pub fn new_render(&self, objects: &Vec<Object>) -> (pixels: Vec<(u8, u8, u8)>)
        requires
            camera_wf(*self),
            scene_wf(objects@),
        ensures
            pixels@.len() == (self.width as int) * (self.height as int),
            forall|k: int|
                0 <= k < pixels@.len() ==> ((#[trigger] pixels@[k]).0 as int,
                pixels@[k].1 as int, pixels@[k].2 as int) == spec_trace(
                    spec_ray_at(*self, k),
                    objects@,
                    3,
                ),
    {
        let rays: Vec<Ray> = self.generate_rays();
        let mut pixels: Vec<(u8, u8, u8)> = Vec::new();
        let mut k: usize = 0;
        while k < rays.len()
            invariant
                camera_wf(*self),
                scene_wf(objects@),
                rays@.len() == (self.width as int) * (self.height as int),
                forall|m: int| 0 <= m < rays@.len() ==> (#[trigger] rays@[m])@ == spec_ray_at(*self, m),
                forall|m: int|
                    0 <= m < rays@.len() ==> ray_wf((#[trigger] rays@[m])@) && v_bounded(
                        rays@[m]@.origin,
                        TRACE_LIMIT as int,
                    ),
                k <= rays@.len(),
                pixels@.len() == k,
                forall|m: int|
                    0 <= m < k ==> ((#[trigger] pixels@[m]).0 as int, pixels@[m].1 as int,
                    pixels@[m].2 as int) == spec_trace(spec_ray_at(*self, m), objects@, 3),
            decreases rays@.len() - k,
        {
            let color: (u8, u8, u8) = self.trace_ray(&rays[k], objects, 3);
            pixels.push(color);
            k = k + 1;
        }
        pixels
    }
}

/// Whether any object blocks the shadow ray beyond the bias distance.
fn in_shadow(objects: &Vec<Object>, sray: &Ray) -> (r: bool)
    requires
        scene_wf(objects@),
        ray_wf(sray@),
    ensures
        r == spec_in_shadow(objects@, sray@),
{
    let mut k: usize = 0;
    while k < objects.len()
        invariant
            scene_wf(objects@),
            ray_wf(sray@),
            k <= objects.len(),
            forall|j: int|
                0 <= j < k ==> !((#[trigger] objects@[j].spec_intersect(sray@)) matches
                    Option::Some(h) && h.t > EPS as int),
        decreases objects.len() - k,
    {
        let hit = objects[k].intersect(sray);
        match hit {
            Option::Some(h) => {
                if h.distance > EPS {
                    proof {
                        assert(objects@[k as int].spec_intersect(sray@) matches Option::Some(hh)
                            && hh.t > EPS as int);
                    }
                    return true;
                }
            },
            Option::None => {},
        }
        k = k + 1;
    }
    false
}

/// One local color byte, exactly `spec_channel`.
fn channel_byte(base: Fx, inten: Fx, lightc: Fx) -> (r: u8)
    requires
        0 <= base <= 255 * SCALE,
        0 <= inten <= SCALE,
        0 <= lightc <= 255 * SCALE,
    ensures
        r as int == spec_channel(base as int, inten as int, lightc as int),
{
    proof {
        lemma_tdiv_bound(base as int, 255, SCALE as int);
        lemma_tdiv_nonneg(base as int, 255);
        lemma_tdiv_bound_simple(lightc as int, 255, 255 * (SCALE as int));
        lemma_tdiv_nonneg(lightc as int, 255);
    }
    let bb: Fx = div_trunc(base, 255);
    proof {
        lemma_abs_mul_bound(bb as int, inten as int, 65536, 65536);
    }
    let l0: Fx = clamp01(fmul(bb, inten));
    let lc: Fx = clamp01(div_trunc(lightc, 255));
    proof {
        lemma_abs_mul_bound(l0 as int, lc as int, 65536, 65536);
        lemma_tdiv_bound((l0 as int) * (lc as int), SCALE as int, SCALE as int);
        lemma_tdiv_nonneg((l0 as int) * (lc as int), SCALE as int);
        assert(0 <= (l0 as int) * (lc as int)) by (nonlinear_arith)
            requires
                0 <= l0 as int,
                0 <= lc as int,
        ;
    }
    let v: Fx = fmul(l0, lc);
    proof {
        lemma_tdiv_bound((v as int) * 255, SCALE as int, 255);
        lemma_tdiv_nonneg((v as int) * 255, SCALE as int);
    }
    let b: Fx = div_trunc(v * 255, SCALE);
    b as u8
}

/// Blend of local and reflected bytes, exactly `spec_blend`.
fn blend_byte(l: u8, rec: u8, refl: Fx) -> (r: u8)
    requires
        0 <= refl <= SCALE,
    ensures
        r as int == spec_blend(l as int, rec as int, refl as int),
{
    let lv: Fx = l as i128;
    let rv: Fx = rec as i128;
    proof {
        lemma_abs_mul_bound(lv as int, (SCALE - refl) as int, 255, 65536);
        lemma_abs_mul_bound(rv as int, refl as int, 255, 65536);
    }
    let num: Fx = lv * (SCALE - refl) + rv * refl;
    proof {
        assert(0 <= num as int && num as int <= 255 * (SCALE as int)) by (nonlinear_arith)
            requires
                num as int == (lv as int) * (SCALE as int - refl as int) + (rv as int) * (
                refl as int),
                0 <= lv as int <= 255,
                0 <= rv as int <= 255,
                0 <= refl as int <= SCALE as int,
                SCALE == 65536,
        ;
        lemma_tdiv_bound(num as int, SCALE as int, 255);
        lemma_tdiv_nonneg(num as int, SCALE as int);
    }
    let q: Fx = div_trunc(num, SCALE);
    q as u8
}

} // verus!
