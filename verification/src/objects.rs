//! Geometric primitives and their ray-intersection tests.
//!
//! The two primitive kinds, spheres and planes, share the
//! `Intersectable` contract and are collected into the closed sum type
//! `Object`, which the tracer iterates over.  Both intersection
//! algorithms are specified exactly: `spec_sphere_intersect` and
//! `spec_plane_intersect` give the returned hit record as a function
//! of the fixed-point inputs.
//!
//! The working domain is finite: rays must start within
//! `ORIGIN_LIMIT`, directions stay within `DIR_LIMIT`, and a forward
//! hit farther than `T_MAX` along the ray counts as a miss.

use crate::fixed::{
    abs_i, fdiv, fmul, fsqrt, lemma_abs_mul_bound, lemma_tdiv_bound, sdiv, smul, sqrt_fx, Fx,
    COORD_LIMIT, DIR_LIMIT, HIT_STEP, ORIGIN_LIMIT, SCALE, T_MAX,
};
use crate::vec3::{
    lemma_dot_range, lemma_dot_self_nonneg, lemma_scale_range, v_add, v_bounded, v_dot, v_norm,
    v_scale, v_sub, Vec3, Vec3i,
};
use vstd::prelude::*;

verus! {

/// A ray: origin plus direction.  Directions are produced normalized
/// by the camera and by the tracer.
#[derive(Clone, Copy, PartialEq, Eq, Structural, Debug)]
pub struct Ray {
    pub origin: Vec3,
    pub direction: Vec3,
}

/// Mathematical model of a ray.
pub ghost struct RayG {
    pub origin: Vec3i,
    pub direction: Vec3i,
}

impl View for Ray {
    type V = RayG;

    open spec fn view(&self) -> RayG {
        RayG { origin: self.origin@, direction: self.direction@ }
    }
}

/// Rays acceptable to the intersection tests.
pub open spec fn ray_wf(r: RayG) -> bool {
    v_bounded(r.origin, ORIGIN_LIMIT as int) && v_bounded(r.direction, DIR_LIMIT as int)
}

/// A hit record: where a ray met a primitive.
#[derive(Clone, Copy, PartialEq, Eq, Structural, Debug)]
pub struct Intersection {
    pub point: Vec3,
    pub normal: Vec3,
    pub distance: Fx,
}

/// Mathematical model of a hit record.
pub ghost struct HitG {
    pub point: Vec3i,
    pub normal: Vec3i,
    pub t: int,
}

impl View for Intersection {
    type V = HitG;

    open spec fn view(&self) -> HitG {
        HitG { point: self.point@, normal: self.normal@, t: self.distance as int }
    }
}

pub open spec fn opt_hit(r: Option<Intersection>) -> Option<HitG> {
    match r {
        Option::Some(h) => Option::Some(h@),
        Option::None => Option::None,
    }
}

/// The hit point lies within `HIT_STEP` of the ray origin on each axis.
pub open spec fn hit_near(r: RayG, h: HitG) -> bool {
    abs_i(h.point.x - r.origin.x) <= HIT_STEP as int
        && abs_i(h.point.y - r.origin.y) <= HIT_STEP as int
        && abs_i(h.point.z - r.origin.z) <= HIT_STEP as int
}

/// The point light used by the shading step.
#[derive(Clone, Copy, PartialEq, Eq, Debug)]
pub struct LightSource {
    pub origin: Vec3,
    pub intensity: (Fx, Fx, Fx),
    pub color: (Fx, Fx, Fx),
}

/// Construction-time validation failures.
#[derive(Clone, Copy, PartialEq, Eq, Structural, Debug)]
pub enum BuildError {
    /// A sphere radius that is zero or negative.
    InvalidRadius,
    /// A plane normal too short to normalize.
    InvalidNormal,
    /// A camera look direction parallel to the up hint.
    DegenerateBasis,
    /// A value outside the fixed-point working range.
    OutOfRange,
}

pub open spec fn channel_ok(c: int) -> bool {
    0 <= c <= 255 * (SCALE as int)
}

pub open spec fn color_wf(c: (Fx, Fx, Fx)) -> bool {
    channel_ok(c.0 as int) && channel_ok(c.1 as int) && channel_ok(c.2 as int)
}

pub open spec fn reflectivity_wf(r: int) -> bool {
    0 <= r <= SCALE as int
}

/// A sphere: center, radius, base color and mirror blend weight.
#[derive(Clone, Copy, PartialEq, Eq, Debug)]
pub struct Sphere {
    pub center: Vec3,
    pub radius: Fx,
    pub color: (Fx, Fx, Fx),
    pub reflectivity: Fx,
}

pub open spec fn sphere_wf(s: Sphere) -> bool {
    v_bounded(s.center@, COORD_LIMIT as int) && 0 < s.radius <= COORD_LIMIT && color_wf(s.color)
        && reflectivity_wf(s.reflectivity as int)
}

/// A plane through `point` with unit `normal`.
#[derive(Clone, Copy, PartialEq, Eq, Debug)]
pub struct Plane {
    pub point: Vec3,
    pub normal: Vec3,
    pub color: (Fx, Fx, Fx),
    pub reflectivity: Fx,
}

pub open spec fn plane_wf(p: Plane) -> bool {
    v_bounded(p.point@, COORD_LIMIT as int) && v_bounded(p.normal@, 2 * SCALE as int)
        && color_wf(p.color) && reflectivity_wf(p.reflectivity as int)
}

impl Sphere {
    /// Validated construction: a non-positive radius is rejected, as is
    /// any value outside the fixed-point working range.
    pub fn new(center: Vec3, radius: Fx, color: (Fx, Fx, Fx), reflectivity: Fx) -> (r: Result<
        Sphere,
        BuildError,
    >)
        ensures
            radius <= 0 ==> r == Result::<Sphere, BuildError>::Err(BuildError::InvalidRadius),
            radius > 0 && !(v_bounded(center@, COORD_LIMIT as int) && radius <= COORD_LIMIT
                && color_wf(color) && reflectivity_wf(reflectivity as int)) ==> r == Result::<
                Sphere,
                BuildError,
            >::Err(BuildError::OutOfRange),
            radius > 0 && v_bounded(center@, COORD_LIMIT as int) && radius <= COORD_LIMIT
                && color_wf(color) && reflectivity_wf(reflectivity as int) ==> r == Result::<
                Sphere,
                BuildError,
            >::Ok((Sphere { center, radius, color, reflectivity })),
            r matches Result::Ok(s) ==> sphere_wf(s),
    {
        if radius <= 0 {
            return Result::Err(BuildError::InvalidRadius);
        }
        if !(center.in_bounds(COORD_LIMIT) && radius <= COORD_LIMIT && channel_in_range(color.0)
            && channel_in_range(color.1) && channel_in_range(color.2) && 0 <= reflectivity
            && reflectivity <= SCALE) {
            return Result::Err(BuildError::OutOfRange);
        }
        Result::Ok(Sphere { center, radius, color, reflectivity })
    }
}

/// Runtime check of a color channel's range.
fn channel_in_range(c: Fx) -> (r: bool)
    ensures
        r == channel_ok(c as int),
{
    0 <= c && c <= 255 * SCALE
}

impl Plane {
    /// Validated construction.  The normal is normalized before it is
    /// stored; one too short to normalize is rejected.
    pub fn new(point: Vec3, normal: Vec3, color: (Fx, Fx, Fx), reflectivity: Fx) -> (r: Result<
        Plane,
        BuildError,
    >)
        ensures
            !(v_bounded(point@, COORD_LIMIT as int) && v_bounded(normal@, COORD_LIMIT as int)
                && color_wf(color) && reflectivity_wf(reflectivity as int)) ==> r == Result::<
                Plane,
                BuildError,
            >::Err(BuildError::OutOfRange),
            v_bounded(point@, COORD_LIMIT as int) && v_bounded(normal@, COORD_LIMIT as int)
                && color_wf(color) && reflectivity_wf(reflectivity as int) && v_dot(
                normal@,
                normal@,
            ) < 1 ==> r == Result::<Plane, BuildError>::Err(BuildError::InvalidNormal),
            v_bounded(point@, COORD_LIMIT as int) && v_bounded(normal@, COORD_LIMIT as int)
                && color_wf(color) && reflectivity_wf(reflectivity as int) && v_dot(
                normal@,
                normal@,
            ) >= 1 ==> (r matches Result::Ok(p) && p.point == point && p.normal@ == v_norm(normal@)
                && p.color == color && p.reflectivity == reflectivity),
            r matches Result::Ok(p) ==> plane_wf(p),
    {
        if !(point.in_bounds(COORD_LIMIT) && normal.in_bounds(COORD_LIMIT) && channel_in_range(
            color.0,
        ) && channel_in_range(color.1) && channel_in_range(color.2) && 0 <= reflectivity
            && reflectivity <= SCALE) {
            return Result::Err(BuildError::OutOfRange);
        }
        let d: Fx = normal.dot(&normal);
        if d < 1 {
            return Result::Err(BuildError::InvalidNormal);
        }
        let unit: Vec3 = normal.normalize();
        Result::Ok(Plane { point, normal: unit, color, reflectivity })
    }
}

/// The nearest forward intersection of a ray with a sphere: the
/// quadratic `|O + t D - C|^2 = r^2` is solved in fixed point, the
/// smaller nonnegative root is taken, and hits beyond `T_MAX` count as
/// misses.  A zero direction yields no hit.
pub open spec fn spec_sphere_intersect(s: Sphere, ray: RayG) -> Option<HitG> {
    let oc = v_sub(ray.origin, s.center@);
    let a = v_dot(ray.direction, ray.direction);
    if a == 0 {
        Option::None
    } else {
        let b = 2 * v_dot(oc, ray.direction);
        let c = v_dot(oc, oc) - smul(s.radius as int, s.radius as int);
        let disc = smul(b, b) - 4 * smul(a, c);
        if disc < 0 {
            Option::None
        } else {
            let sq = fsqrt(disc);
            let t1 = sdiv(-b - sq, 2 * a);
            let t2 = sdiv(-b + sq, 2 * a);
            if t1 < 0 && t2 < 0 {
                Option::None
            } else {
                let t = if t1 >= 0 {
                    t1
                } else {
                    t2
                };
                if t > T_MAX as int {
                    Option::None
                } else {
                    let point = v_add(ray.origin, v_scale(t, ray.direction));
                    let normal = v_norm(v_sub(point, s.center@));
                    Option::Some(HitG { point, normal, t })
                }
            }
        }
    }
}

/// The forward intersection of a ray with a plane.  A zero fixed-point
/// denominator means the ray is parallel (no hit); hits beyond `T_MAX`
/// count as misses.  The plane's stored normal is reported unflipped.
pub open spec fn spec_plane_intersect(p: Plane, ray: RayG) -> Option<HitG> {
    let denom = v_dot(ray.direction, p.normal@);
    if denom == 0 {
        Option::None
    } else {
        let t = sdiv(v_dot(v_sub(p.point@, ray.origin), p.normal@), denom);
        if t < 0 || t > T_MAX as int {
            Option::None
        } else {
            let point = v_add(ray.origin, v_scale(t, ray.direction));
            Option::Some(HitG { point, normal: p.normal@, t })
        }
    }
}

/// The capability shared by every primitive the tracer can draw.
pub trait Intersectable: Sized {
    spec fn wf(&self) -> bool;

    spec fn spec_intersect(&self, ray: RayG) -> Option<HitG>;

    spec fn spec_color(&self) -> (int, int, int);

    spec fn spec_reflectivity(&self) -> int;

    /// The nearest forward intersection of `ray` with this primitive,
    /// if one exists within the working domain.
    fn intersect(&self, ray: &Ray) -> (r: Option<Intersection>)
        requires
            self.wf(),
            ray_wf(ray@),
        ensures
            opt_hit(r) == self.spec_intersect(ray@),
            r matches Option::Some(h) ==> 0 <= h.distance <= T_MAX && hit_near(ray@, h@)
                && v_bounded(h@.normal, 2 * SCALE as int),
    ;

    /// The primitive's base reflectance color.
    fn get_color(&self) -> (r: (Fx, Fx, Fx))
        ensures
            (r.0 as int, r.1 as int, r.2 as int) == self.spec_color(),
    ;

    /// The mirror blend weight in [0, 1].
    fn reflectivity(&self) -> (r: Fx)
        ensures
            r as int == self.spec_reflectivity(),
    ;
}

impl Intersectable for Sphere {
    open spec fn wf(&self) -> bool {
        sphere_wf(*self)
    }

    open spec fn spec_intersect(&self, ray: RayG) -> Option<HitG> {
        spec_sphere_intersect(*self, ray)
    }

    open spec fn spec_color(&self) -> (int, int, int) {
        (self.color.0 as int, self.color.1 as int, self.color.2 as int)
    }

    open spec fn spec_reflectivity(&self) -> int {
        self.reflectivity as int
    }

    fn intersect(&self, ray: &Ray) -> (r: Option<Intersection>) {
        let oc: Vec3 = ray.origin.minus(&self.center);
        proof {
            assert(v_bounded(oc@, 0x8000_0000_0000));
        }
        let a: Fx = ray.direction.dot(&ray.direction);
        proof {
            lemma_dot_range(ray@.direction, ray@.direction, 0x40000, 0x40000, 0x30_0000);
            lemma_dot_self_nonneg(ray@.direction);
        }
        if a == 0 {
            return Option::None;
        }
        let ocd: Fx = oc.dot(&ray.direction);
        proof {
            lemma_dot_range(oc@, ray@.direction, 0x8000_0000_0000, 0x40000, 0x6_0000_0000_0000);
        }
        let b: Fx = 2 * ocd;
        let oc2: Fx = oc.dot(&oc);
        proof {
            lemma_dot_range(
                oc@,
                oc@,
                0x8000_0000_0000,
                0x8000_0000_0000,
                0xC000_0000_0000_0000_0000,
            );
            lemma_abs_mul_bound(
                self.radius as int,
                self.radius as int,
                0x100_0000_0000,
                0x100_0000_0000,
            );
            lemma_tdiv_bound(
                (self.radius as int) * (self.radius as int),
                SCALE as int,
                0x1_0000_0000_0000_0000,
            );
        }
        let r2: Fx = fmul(self.radius, self.radius);
        let cc: Fx = oc2 - r2;
        proof {
            lemma_abs_mul_bound(b as int, b as int, 0xC_0000_0000_0000, 0xC_0000_0000_0000);
            lemma_tdiv_bound((b as int) * (b as int), SCALE as int, 0x100_0000_0000_0000_0000_0000);
            lemma_abs_mul_bound(a as int, cc as int, 0x30_0000, 0x1_0000_0000_0000_0000_0000);
            lemma_tdiv_bound(
                (a as int) * (cc as int),
                SCALE as int,
                0x4_0000_0000_0000_0000_0000_0000,
            );
        }
        let bb: Fx = fmul(b, b);
        let ac: Fx = fmul(a, cc);
        let disc: Fx = bb - 4 * ac;
        if disc < 0 {
            return Option::None;
        }
        proof {
            lemma_abs_mul_bound(disc as int, SCALE as int, 0x20_0000_0000_0000_0000_0000_0000, 65536);
        }
        let sq: Fx = sqrt_fx(disc);
        proof {
            assert(sq as int <= 0x800_0000_0000_0000) by (nonlinear_arith)
                requires
                    0 <= sq as int,
                    (sq as int) * (sq as int) <= (disc as int) * (SCALE as int),
                    (disc as int) * (SCALE as int) <= 0x20_0000_0000_0000_0000_0000_0000 * 65536,
            ;
        }
        let den: Fx = 2 * a;
        let nb: Fx = -b;
        let num1: Fx = nb - sq;
        let num2: Fx = nb + sq;
        proof {
            lemma_abs_mul_bound(num1 as int, SCALE as int, 0x1000_0000_0000_0000, 65536);
            lemma_abs_mul_bound(num2 as int, SCALE as int, 0x1000_0000_0000_0000, 65536);
        }
        let t1: Fx = fdiv(num1, den);
        let t2: Fx = fdiv(num2, den);
        if t1 < 0 && t2 < 0 {
            return Option::None;
        }
        let t: Fx = if t1 >= 0 {
            t1
        } else {
            t2
        };
        if t > T_MAX {
            return Option::None;
        }
        proof {
            lemma_scale_range(t as int, ray@.direction, 0x100_0000_0000, 0x40000, 0x400_0000_0000);
        }
        let step: Vec3 = ray.direction.scale(t);
        let point: Vec3 = ray.origin.plus(&step);
        let pc: Vec3 = point.minus(&self.center);
        let normal: Vec3 = pc.normalize();
        Option::Some(Intersection { point, normal, distance: t })
    }

    fn get_color(&self) -> (r: (Fx, Fx, Fx)) {
        self.color
    }

    fn reflectivity(&self) -> (r: Fx) {
        self.reflectivity
    }
}

impl Intersectable for Plane {
    open spec fn wf(&self) -> bool {
        plane_wf(*self)
    }

    open spec fn spec_intersect(&self, ray: RayG) -> Option<HitG> {
        spec_plane_intersect(*self, ray)
    }

    open spec fn spec_color(&self) -> (int, int, int) {
        (self.color.0 as int, self.color.1 as int, self.color.2 as int)
    }

    open spec fn spec_reflectivity(&self) -> int {
        self.reflectivity as int
    }

    fn intersect(&self, ray: &Ray) -> (r: Option<Intersection>) {
        let denom: Fx = ray.direction.dot(&self.normal);
        proof {
            lemma_dot_range(ray@.direction, self.normal@, 0x40000, 0x20000, 0x18_0000);
        }
        if denom == 0 {
            return Option::None;
        }
        let po: Vec3 = self.point.minus(&ray.origin);
        proof {
            assert(v_bounded(po@, 0x8000_0000_0000));
        }
        let num: Fx = po.dot(&self.normal);
        proof {
            lemma_dot_range(po@, self.normal@, 0x8000_0000_0000, 0x20000, 0x3_0000_0000_0000);
            lemma_abs_mul_bound(num as int, SCALE as int, 0x3_0000_0000_0000, 65536);
        }
        let t: Fx = fdiv(num, denom);
        if t < 0 {
            return Option::None;
        }
        if t > T_MAX {
            return Option::None;
        }
        proof {
            lemma_scale_range(t as int, ray@.direction, 0x100_0000_0000, 0x40000, 0x400_0000_0000);
        }
        let step: Vec3 = ray.direction.scale(t);
        let point: Vec3 = ray.origin.plus(&step);
        Option::Some(Intersection { point, normal: self.normal, distance: t })
    }

    fn get_color(&self) -> (r: (Fx, Fx, Fx)) {
        self.color
    }

    fn reflectivity(&self) -> (r: Fx) {
        self.reflectivity
    }
}

/// The closed sum of primitive kinds the tracer draws.
#[derive(Clone, Copy, PartialEq, Eq, Debug)]
pub enum Object {
    Sphere(Sphere),
    Plane(Plane),
}

impl Intersectable for Object {
    open spec fn wf(&self) -> bool {
        match *self {
            Object::Sphere(s) => sphere_wf(s),
            Object::Plane(p) => plane_wf(p),
        }
    }

    open spec fn spec_intersect(&self, ray: RayG) -> Option<HitG> {
        match *self {
            Object::Sphere(s) => spec_sphere_intersect(s, ray),
            Object::Plane(p) => spec_plane_intersect(p, ray),
        }
    }

    open spec fn spec_color(&self) -> (int, int, int) {
        match *self {
            Object::Sphere(s) => (s.color.0 as int, s.color.1 as int, s.color.2 as int),
            Object::Plane(p) => (p.color.0 as int, p.color.1 as int, p.color.2 as int),
        }
    }

    open spec fn spec_reflectivity(&self) -> int {
        match *self {
            Object::Sphere(s) => s.reflectivity as int,
            Object::Plane(p) => p.reflectivity as int,
        }
    }

    fn intersect(&self, ray: &Ray) -> (r: Option<Intersection>) {
        match self {
            Object::Sphere(s) => s.intersect(ray),
            Object::Plane(p) => p.intersect(ray),
        }
    }

    fn get_color(&self) -> (r: (Fx, Fx, Fx)) {
        match self {
            Object::Sphere(s) => s.color,
            Object::Plane(p) => p.color,
        }
    }

    fn reflectivity(&self) -> (r: Fx) {
        match self {
            Object::Sphere(s) => s.reflectivity,
            Object::Plane(p) => p.reflectivity,
        }
    }
}

/// A well-formed object's color channels and reflectivity lie in their
/// documented ranges.
pub proof fn lemma_object_ranges(o: Object)
    requires
        o.wf(),
    ensures
        channel_ok(o.spec_color().0),
        channel_ok(o.spec_color().1),
        channel_ok(o.spec_color().2),
        reflectivity_wf(o.spec_reflectivity()),
{
    match o {
        Object::Sphere(s) => {
        },
        Object::Plane(p) => {
        },
    }
}

} // verus!
