//! Laws of the tracer, proved once and for all inputs.
//!
//! Each proof function here states a property of the tracing model
//! (`spec_trace` and its parts) that every call of the executable
//! tracer therefore enjoys, by its `ensures` clause.

use crate::camera::{
    spec_blend, spec_can_reflect, spec_channel, spec_closest, spec_in_shadow, spec_local_color,
    spec_plane_h, spec_plane_w, spec_px, spec_py, spec_reflected_ray, spec_screen_x, spec_screen_y,
    spec_shadow_ray, spec_trace, Camera,
};
use crate::fixed::{
    abs_i, clamp01_spec, lemma_div_at_least, lemma_tdiv_bound_simple, lemma_tdiv_mul_cancel,
    smul, tdiv, SCALE,
};
use crate::objects::{HitG, Intersectable, Object, RayG};
use vstd::arithmetic::div_mod::{lemma_div_is_ordered, lemma_div_is_ordered_by_denominator};
use vstd::prelude::*;

verus! {

proof fn lemma_closest_none(objects: Seq<Object>, ray: RayG)
    requires
        forall|k: int|
            0 <= k < objects.len() ==> ((#[trigger] objects[k].spec_intersect(ray)) matches
                Option::None),
    ensures
        spec_closest(objects, ray) matches Option::None,
    decreases objects.len(),
{
    if objects.len() > 0 {
        assert forall|k: int| 0 <= k < objects.drop_last().len() implies ((#[trigger] objects
            .drop_last()[k].spec_intersect(ray)) matches Option::None) by {
            assert(objects.drop_last()[k] == objects[k]);
        }
        lemma_closest_none(objects.drop_last(), ray);
        assert(objects.last() == objects[objects.len() - 1]);
    }
}

/// A ray that misses every object traces to black, at every depth.
pub proof fn lemma_miss_is_black(ray: RayG, objects: Seq<Object>, depth: nat)
    requires
        forall|k: int|
            0 <= k < objects.len() ==> ((#[trigger] objects[k].spec_intersect(ray)) matches
                Option::None),
    ensures
        spec_trace(ray, objects, depth) == (0int, 0int, 0int),
{
    lemma_closest_none(objects, ray);
}

/// When the closest hit is on a non-reflective surface, the traced
/// color is the same at every depth of at least one: no recursion
/// happens, whatever budget remains.
pub proof fn lemma_diffuse_depth_independent(
    ray: RayG,
    objects: Seq<Object>,
    d1: nat,
    d2: nat,
)
    requires
        1 <= d1,
        1 <= d2,
        (spec_closest(objects, ray) matches Option::Some(p) && objects[p.0].spec_reflectivity()
            == 0),
    ensures
        spec_trace(ray, objects, d1) == spec_trace(ray, objects, d2),
{
}

/// A fully reflective surface contributes no local color: the traced
/// color equals, channel for channel, what the reflected ray alone
/// traces to at one less depth.
pub proof fn lemma_full_reflection(ray: RayG, objects: Seq<Object>, depth: nat)
    requires
        1 <= depth,
        (spec_closest(objects, ray) matches Option::Some(p) && objects[p.0].spec_reflectivity()
            == SCALE as int && spec_can_reflect(ray, p.1)),
    ensures
        (spec_closest(objects, ray) matches Option::Some(p) ==> spec_trace(ray, objects, depth)
            == spec_trace(spec_reflected_ray(ray, p.1), objects, (depth - 1) as nat)),
{
    match spec_closest(objects, ray) {
        Option::Some(p) => {
            let local = spec_local_color(objects[p.0], p.1, objects);
            let rec = spec_trace(spec_reflected_ray(ray, p.1), objects, (depth - 1) as nat);
            lemma_blend_full(local.0, rec.0);
            lemma_blend_full(local.1, rec.1);
            lemma_blend_full(local.2, rec.2);
        },
        Option::None => {
        },
    }
}

proof fn lemma_blend_full(l: int, rec: int)
    ensures
        spec_blend(l, rec, SCALE as int) == rec,
{
    assert(l * (SCALE as int - SCALE as int) == 0) by (nonlinear_arith);
    lemma_tdiv_mul_cancel(rec, SCALE as int);
}

proof fn lemma_channel_zero(base: int, lightc: int)
    ensures
        spec_channel(base, 0, lightc) == 0,
{
    let b1 = tdiv(base, 255);
    assert(b1 * 0 == 0) by (nonlinear_arith);
    lemma_tdiv_bound_simple(0, SCALE as int, 0);
    assert(smul(b1, 0) == 0);
    assert(clamp01_spec(0) == 0);
    let lc = clamp01_spec(tdiv(lightc, 255));
    assert(0 * lc == 0) by (nonlinear_arith);
    assert(smul(0, lc) == 0);
}

/// An occluded hit point's diffuse term is zeroed, so its local color
/// is exactly black, whatever the base color of the surface.
pub proof fn lemma_shadowed_point_black(o: Object, h: HitG, objects: Seq<Object>)
    requires
        spec_in_shadow(objects, spec_shadow_ray(h)),
    ensures
        spec_local_color(o, h, objects) == (0int, 0int, 0int),
{
    let c = o.spec_color();
    lemma_channel_zero(c.0, 255 * (SCALE as int));
    lemma_channel_zero(c.1, 0);
    lemma_channel_zero(c.2, 100 * (SCALE as int));
}

/// The raster mapping keeps its orientation: the first pixel column's
/// screen offset is strictly negative and the last one's strictly
/// positive, while the first row sits strictly above center and the
/// last strictly below - for any camera whose image plane is at least
/// a few fixed-point units wide and tall.
pub proof fn lemma_corner_offset_signs(c: Camera)
    requires
        2 <= c.width,
        2 <= c.height,
        4 <= spec_plane_w(c),
        4 <= spec_plane_h(c),
    ensures
        spec_screen_x(c, 0) < 0,
        spec_screen_x(c, c.width as int - 1) > 0,
        spec_screen_y(c, 0) > 0,
        spec_screen_y(c, c.height as int - 1) < 0,
{
    lemma_px_first(c.width as int);
    lemma_px_last(c.width as int);
    lemma_px_first(c.height as int);
    lemma_px_last(c.height as int);
    lemma_offset_neg(2 * spec_px(c, 0) - (SCALE as int), spec_plane_w(c));
    lemma_offset_pos(2 * spec_px(c, c.width as int - 1) - (SCALE as int), spec_plane_w(c));
    lemma_offset_pos((SCALE as int) - 2 * spec_py(c, 0), spec_plane_h(c));
    lemma_offset_neg((SCALE as int) - 2 * spec_py(c, c.height as int - 1), spec_plane_h(c));
}

/// The center of the first pixel of an axis maps into the lower
/// quarter of [0, 1].
proof fn lemma_px_first(w: int)
    requires
        2 <= w,
    ensures
        0 <= tdiv((2 * 0 + 1) * (SCALE as int), 2 * w) <= 16384,
{
    let px = tdiv((2 * 0 + 1) * (SCALE as int), 2 * w);
    assert(px == 65536int / (2 * w));
    lemma_div_is_ordered_by_denominator(65536, 4, 2 * w);
    lemma_div_is_ordered(0, 65536, 2 * w);
}

/// The center of the last pixel of an axis maps into the upper
/// quarter of [0, 1].
proof fn lemma_px_last(w: int)
    requires
        2 <= w,
    ensures
        49152 <= tdiv((2 * (w - 1) + 1) * (SCALE as int), 2 * w) <= 65536,
{
    let num = (2 * (w - 1) + 1) * (SCALE as int);
    assert(num == (2 * (w - 1) + 1) * 65536);
    assert((2 * (w - 1) + 1) * 65536 >= 49152 * (2 * w) && 0 <= (2 * (w - 1) + 1) * 65536 && (2
        * (w - 1) + 1) * 65536 <= (2 * w) * 65536) by (nonlinear_arith)
        requires
            w >= 2,
    ;
    let px = tdiv(num, 2 * w);
    assert(px == num / (2 * w));
    lemma_div_at_least(num, 2 * w, 49152);
    crate::fixed::lemma_tdiv_bound(num, 2 * w, 65536);
}

/// A screen offset built from a factor at most -1/2 is strictly
/// negative once the image plane spans a few fixed-point units.
proof fn lemma_offset_neg(a: int, plane: int)
    requires
        -65536 <= a <= -32768,
        4 <= plane,
    ensures
        tdiv(smul(a, plane), 2) < 0,
{
    assert(a * plane <= -131072) by (nonlinear_arith)
        requires
            a <= -32768,
            4 <= plane,
    ;
    let m = smul(a, plane);
    assert(abs_i(a * plane) >= 131072);
    lemma_div_at_least(abs_i(a * plane), SCALE as int, 2);
    assert(m <= -2);
    lemma_div_at_least(abs_i(m), 2, 1);
    assert(tdiv(m, 2) < 0);
}

/// A screen offset built from a factor at least 1/2 is strictly
/// positive once the image plane spans a few fixed-point units.
proof fn lemma_offset_pos(a: int, plane: int)
    requires
        32768 <= a <= 65536,
        4 <= plane,
    ensures
        tdiv(smul(a, plane), 2) > 0,
{
    assert(a * plane >= 131072) by (nonlinear_arith)
        requires
            a >= 32768,
            4 <= plane,
    ;
    let m = smul(a, plane);
    lemma_div_at_least(a * plane, SCALE as int, 2);
    assert(m >= 2);
    lemma_div_at_least(m, 2, 1);
    assert(tdiv(m, 2) >= 1);
}

} // verus!
