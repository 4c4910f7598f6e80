//! The scene: a pinhole camera firing one ray per pixel, and the shading rule
//! (a single hardcoded sphere test, else a vertical sky gradient).
use crate::fixed::{
    div_trunc, lemma_mul_abs_le, lemma_tdiv_exact, lemma_tdiv_le, lemma_tdiv_pos_bounds, mul_fx,
    tdiv, SCALE,
};
use crate::vec3::{
    lemma_spec_normalize_parts, lemma_unit_norm_bounds, vec3_bounded, Vec3, COORD_MAX,
};
use vstd::prelude::*;

verus! {

/// Height of the viewport rectangle in world units: twelve, in fixed-point.
pub const VIEWPORT_HEIGHT_FX: i64 = 12_000_000;

/// Radius of the single hardcoded sphere: one half, in fixed-point units.
pub const SPHERE_RADIUS_FX: i64 = 500_000;

/// Sky gradient endpoint (the "blue" at the top), fixed-point channels for
/// (0.5, 0.7, 1.0).
pub const SKY_R_FX: i64 = 500_000;

pub const SKY_G_FX: i64 = 700_000;

pub const SKY_B_FX: i64 = 1_000_000;

/// Rays the camera cannot produce are still accepted by the shading rule, up
/// to this bound on the origin's coordinates.
pub const ORIGIN_MAX: i64 = 1_000_000_000;

/// The pinhole camera: world-space center, focal length, viewport extent in
/// world units, and the pixel resolution. Immutable for a render's duration.
#[derive(Clone, Copy, Debug, PartialEq, Eq, Structural)]
pub struct Camera {
    pub center: Vec3,
    pub focal_length: i64,
    pub viewport_w: i64,
    pub viewport_h: i64,
    pub width: u32,
    pub height: u32,
}

/// A camera as `Scene::new` builds it: centered at the origin with unit focal
/// length, viewport height twelve, and viewport width scaled by the aspect
/// ratio (in fixed-point division, so non-divisible resolutions do not
/// degenerate).
pub open spec fn camera_wf(c: Camera) -> bool {
    &&& 1 <= c.width
    &&& 1 <= c.height
    &&& c.center == (Vec3 { x: 0i64, y: 0i64, z: 0i64 })
    &&& c.focal_length == SCALE
    &&& c.viewport_h == VIEWPORT_HEIGHT_FX
    &&& c.viewport_w == tdiv(VIEWPORT_HEIGHT_FX * c.width, c.height as int)
}

/// The scene owns the camera; its single sphere is hardcoded in the shading
/// rule rather than stored.
#[derive(Clone, Copy)]
pub struct Scene {
    pub camera: Camera,
}

/// A ray: origin plus direction. `fire_ray` always produces a normalized
/// direction; the well-formedness bound is what the shading arithmetic needs.
#[derive(Clone, Copy, Debug, PartialEq, Eq, Structural)]
pub struct Ray {
    pub origin: Vec3,
    pub direction: Vec3,
}

impl Ray {
    /// Origin coordinates at most one thousand world units, direction
    /// components at most one: every ray the camera fires satisfies this.
    pub open spec fn wf(self) -> bool {
        &&& vec3_bounded(self.origin, ORIGIN_MAX as int)
        &&& vec3_bounded(self.direction, SCALE as int)
    }

    pub fn new(origin: Vec3, direction: Vec3) -> (r: Ray)
        requires
            vec3_bounded(origin, ORIGIN_MAX as int),
            vec3_bounded(direction, SCALE as int),
        ensures
            r == (Ray { origin, direction }),
            r.wf(),
    {
        Ray { origin, direction }
    }
}

/// Per-pixel horizontal step across the viewport.
pub open spec fn spec_delta_u(c: Camera) -> int {
    tdiv(c.viewport_w as int, c.width as int)
}

/// Per-pixel vertical step; negative because image row zero is the top while
/// world `+y` points up.
pub open spec fn spec_delta_v(c: Camera) -> int {
    -tdiv(c.viewport_h as int, c.height as int)
}

/// World-space x of the image plane's upper-left corner.
pub open spec fn spec_upper_left_x(c: Camera) -> int {
    c.center.x - tdiv(c.viewport_w as int, 2)
}

/// World-space y of the image plane's upper-left corner.
pub open spec fn spec_upper_left_y(c: Camera) -> int {
    c.center.y + tdiv(c.viewport_h as int, 2)
}

/// World-space z of the image plane (one focal length in front of center).
pub open spec fn spec_upper_left_z(c: Camera) -> int {
    c.center.z - c.focal_length
}

/// World-space x of pixel (0, 0)'s center: half a pixel in from the corner.
pub open spec fn spec_loc00_x(c: Camera) -> int {
    spec_upper_left_x(c) + tdiv(spec_delta_u(c), 2)
}

/// World-space y of pixel (0, 0)'s center.
pub open spec fn spec_loc00_y(c: Camera) -> int {
    spec_upper_left_y(c) + tdiv(spec_delta_v(c), 2)
}

/// The unnormalized direction from the camera center to pixel (x, y)'s center.
pub open spec fn spec_ray_d(c: Camera, x: int, y: int) -> Vec3 {
    Vec3 {
        x: (spec_loc00_x(c) + x * spec_delta_u(c) - c.center.x) as i64,
        y: (spec_loc00_y(c) + y * spec_delta_v(c) - c.center.y) as i64,
        z: (spec_upper_left_z(c) - c.center.z) as i64,
    }
}

/// The ray fired at pixel (x, y): camera center origin, normalized direction.
pub open spec fn spec_fire_ray(c: Camera, x: int, y: int) -> Ray {
    Ray { origin: c.center, direction: spec_ray_d(c, x, y).spec_normalize() }
}

/// A nonnegative value does not shrink when multiplied by a positive factor.
proof fn lemma_le_self_mul(t: int, h: int)
    by (nonlinear_arith)
    requires
        0 <= t,
        1 <= h,
    ensures
        t <= t * h,
{
}

/// The unnormalized camera ray direction, written out componentwise: the
/// casts in `spec_ray_d` are the identity, the components stay far inside
/// `COORD_MAX`, and the squared norm is at least one (the focal length pins
/// the z component to `-SCALE`).
pub proof fn lemma_ray_d_parts(c: Camera, x: int, y: int)
    requires
        camera_wf(c),
        0 <= x < c.width,
        0 <= y < c.height,
    ensures
        spec_ray_d(c, x, y).x == spec_loc00_x(c) + x * spec_delta_u(c) - c.center.x,
        spec_ray_d(c, x, y).y == spec_loc00_y(c) + y * spec_delta_v(c) - c.center.y,
        spec_ray_d(c, x, y).z == -SCALE,
        vec3_bounded(spec_ray_d(c, x, y), COORD_MAX as int),
        (SCALE as int) * (SCALE as int) <= spec_ray_d(c, x, y).sq_norm(),
        spec_ray_d(c, x, y).sq_norm() <= 3 * (COORD_MAX as int) * (COORD_MAX as int),
{
    let w = c.width as int;
    let h = c.height as int;
    let vw = c.viewport_w as int;
    let vh = c.viewport_h as int;
    // Viewport width is nonnegative and at most 12 * SCALE * u32::MAX.
    lemma_tdiv_pos_bounds(VIEWPORT_HEIGHT_FX * w, h);
    lemma_le_self_mul(vw, h);
    assert(0 <= vw && vw <= VIEWPORT_HEIGHT_FX * w);
    // Horizontal per-pixel step.
    let du = spec_delta_u(c);
    lemma_tdiv_pos_bounds(vw, w);
    lemma_le_self_mul(du, w);
    assert(0 <= du && du * w <= vw && du <= vw);
    assert(0 <= x * du <= vw) by (nonlinear_arith)
        requires
            0 <= x,
            x < w,
            0 <= du,
            du * w <= vw,
    ;
    // Vertical per-pixel step (magnitude).
    let dm = tdiv(vh as int, h);
    lemma_tdiv_pos_bounds(vh as int, h);
    lemma_le_self_mul(dm, h);
    assert(0 <= dm && dm <= vh);
    assert(0 <= y * dm <= vh) by (nonlinear_arith)
        requires
            0 <= y,
            y < h,
            0 <= dm,
            dm * h <= vh,
    ;
    // Corner and first-pixel offsets.
    lemma_tdiv_pos_bounds(vw, 2);
    lemma_tdiv_pos_bounds(du, 2);
    lemma_tdiv_pos_bounds(vh as int, 2);
    lemma_tdiv_pos_bounds(dm, 2);
    let sdv = spec_delta_v(c);
    assert(sdv == -dm);
    assert(tdiv(-dm, 2) == -tdiv(dm, 2));
    assert(0 <= tdiv(vw, 2) <= vw);
    assert(0 <= tdiv(du, 2) <= du);
    assert(0 <= tdiv(dm, 2) <= dm);
    assert(-vw <= spec_upper_left_x(c) <= 0);
    assert(-vw <= spec_loc00_x(c) <= vw);
    assert(0 <= spec_upper_left_y(c) <= vh);
    assert(-vh <= spec_loc00_y(c) <= vh);
    assert(-vh <= y * sdv <= 0) by (nonlinear_arith)
        requires
            sdv == -dm,
            0 <= y,
            y < h,
            0 <= dm,
            dm * h <= vh,
    ;
    let dx = spec_loc00_x(c) + x * spec_delta_u(c) - c.center.x;
    let dy = spec_loc00_y(c) + y * spec_delta_v(c) - c.center.y;
    assert(-(COORD_MAX as int) <= dx <= COORD_MAX as int);
    assert(-(COORD_MAX as int) <= dy <= COORD_MAX as int);
    let d = spec_ray_d(c, x, y);
    assert(d.x == dx && d.y == dy && d.z == -SCALE);
    assert((SCALE as int) * (SCALE as int) <= d.sq_norm() && d.sq_norm() <= 3 * (COORD_MAX as int)
        * (COORD_MAX as int)) by (nonlinear_arith)
        requires
            d.sq_norm() == d.x * d.x + d.y * d.y + d.z * d.z,
            d.z == -SCALE,
            -(COORD_MAX as int) <= d.x <= COORD_MAX as int,
            -(COORD_MAX as int) <= d.y <= COORD_MAX as int,
            SCALE == 1_000_000,
            COORD_MAX == 200_000_000_000_000_000i64,
    ;
}

/// Law: the direction of every camera ray is a unit vector up to fixed-point
/// tolerance: its squared norm lies within `[-6, +3]` units of the last
/// decimal place of an exact unit vector's squared norm.
pub proof fn lemma_fire_ray_unit_direction(c: Camera, x: int, y: int)
    requires
        camera_wf(c),
        0 <= x < c.width,
        0 <= y < c.height,
    ensures
        (SCALE as int) * (SCALE as int) - 6 * (SCALE as int) <= spec_fire_ray(
            c,
            x,
            y,
        ).direction.sq_norm() <= (SCALE as int) * (SCALE as int) + 3 * (SCALE as int),
{
    lemma_ray_d_parts(c, x, y);
    let d = spec_ray_d(c, x, y);
    assert(1 <= d.sq_norm());
    lemma_spec_normalize_parts(d);
    lemma_unit_norm_bounds(d, d.spec_normalize());
}

/// Law: ray generation is deterministic. Any two rays that satisfy
/// `fire_ray`'s postcondition for the same camera and pixel are bit-identical.
pub proof fn lemma_fire_ray_deterministic(c: Camera, x: int, y: int, r1: Ray, r2: Ray)
    requires
        r1 == spec_fire_ray(c, x, y),
        r2 == spec_fire_ray(c, x, y),
    ensures
        r1 == r2,
{
}

impl Scene {
    pub fn new(width: u32, height: u32) -> (s: Scene)
        requires
            1 <= width,
            1 <= height,
        ensures
            s.camera.width == width,
            s.camera.height == height,
            camera_wf(s.camera),
    {
        let vw: i64 = div_trunc(VIEWPORT_HEIGHT_FX * (width as i64), height as i64);
        Scene {
            camera: Camera {
                center: Vec3::new(0, 0, 0),
                focal_length: SCALE,
                viewport_w: vw,
                viewport_h: VIEWPORT_HEIGHT_FX,
                width,
                height,
            },
        }
    }

    /// Cast the ray for pixel (x, y): origin at the camera center, direction
    /// normalized toward the pixel's center on the image plane.
    pub fn fire_ray(&self, x: usize, y: usize) -> (r: Ray)
        requires
            camera_wf(self.camera),
            x < self.camera.width,
            y < self.camera.height,
        ensures
            r == spec_fire_ray(self.camera, x as int, y as int),
            r.wf(),
    {
        proof {
            lemma_ray_d_parts(self.camera, x as int, y as int);
        }
        let u: i64 = self.camera.viewport_w;
        let du: i64 = div_trunc(u, self.camera.width as i64);
        let dvm: i64 = div_trunc(self.camera.viewport_h, self.camera.height as i64);
        let dv: i64 = -dvm;
        let ulx: i64 = self.camera.center.x - div_trunc(u, 2);
        let uly: i64 = self.camera.center.y + div_trunc(self.camera.viewport_h, 2);
        let ulz: i64 = self.camera.center.z - self.camera.focal_length;
        let l0x: i64 = ulx + div_trunc(du, 2);
        let l0y: i64 = uly + div_trunc(dv, 2);
        proof {
            assert(tdiv(dv as int, 2) == -tdiv(dvm as int, 2));
        }
        let pcx: i64 = l0x + (x as i64) * du;
        let pcy: i64 = l0y + (y as i64) * dv;
        let d = Vec3::new(
            pcx - self.camera.center.x,
            pcy - self.camera.center.y,
            ulz - self.camera.center.z,
        );
        proof {
            assert(d == spec_ray_d(self.camera, x as int, y as int));
        }
        let direction = d.normalize();
        Ray { origin: self.camera.center, direction }
    }
}

/// The world-space center of the single hardcoded sphere: (0, 0, -1).
pub open spec fn spec_sphere_center() -> Vec3 {
    Vec3 { x: 0i64, y: 0i64, z: (-SCALE) as i64 }
}

/// The discriminant sign test of `|O + tD - C|^2 == r^2`: the ray hits the
/// sphere (tangentially or through it) exactly when the discriminant is
/// nonnegative.
pub open spec fn spec_hit_sphere(r: Ray, center: Vec3, radius: i64) -> bool {
    let oc = Vec3 {
        x: (center.x - r.origin.x) as i64,
        y: (center.y - r.origin.y) as i64,
        z: (center.z - r.origin.z) as i64,
    };
    let a = r.direction.spec_dot(r.direction);
    let b = -2 * r.direction.spec_dot(oc);
    let cc = oc.spec_dot(oc) - tdiv(radius * radius, SCALE as int);
    tdiv(b * b, SCALE as int) - 4 * tdiv(a * cc, SCALE as int) >= 0
}

/// The shading rule: flat red on a sphere hit, else a vertical white-to-blue
/// sky gradient driven by the direction's y component.
pub open spec fn spec_ray_color(r: Ray) -> Vec3 {
    if spec_hit_sphere(r, spec_sphere_center(), SPHERE_RADIUS_FX) {
        Vec3 { x: SCALE, y: 0i64, z: 0i64 }
    } else {
        spec_sky_gradient(r.direction.y as int)
    }
}

/// One gradient channel: `(1 - a) * white + a * sky`, each product truncated
/// to fixed point.
pub open spec fn spec_blend(a: int, sky: int) -> int {
    tdiv((SCALE - a) * SCALE, SCALE as int) + tdiv(a * sky, SCALE as int)
}

/// The sky gradient at height `dir_y`: blend weight `a = (dir_y + 1) / 2`
/// maps the direction's y from [-1, 1] to [0, 1].
pub open spec fn spec_sky_gradient(dir_y: int) -> Vec3 {
    let a = tdiv(dir_y + SCALE, 2);
    Vec3 {
        x: spec_blend(a, SKY_R_FX as int) as i64,
        y: spec_blend(a, SKY_G_FX as int) as i64,
        z: spec_blend(a, SKY_B_FX as int) as i64,
    }
}

/// A blended channel stays within `[0, SCALE]` for a weight in `[0, SCALE]`.
proof fn lemma_blend_bounds(a: int, sky: int)
    requires
        0 <= a <= SCALE,
        0 <= sky <= SCALE,
    ensures
        0 <= spec_blend(a, sky) <= SCALE,
{
    lemma_tdiv_exact(SCALE - a, SCALE as int);
    assert(0 <= a * sky <= a * SCALE) by (nonlinear_arith)
        requires
            0 <= a,
            0 <= sky <= SCALE,
    ;
    lemma_tdiv_le(a * sky, SCALE as int, a);
}

/// Every fired ray is well formed: its origin is the camera center and its
/// direction components are at most one in magnitude.
pub proof fn lemma_spec_fire_ray_wf(c: Camera, x: int, y: int)
    requires
        camera_wf(c),
        0 <= x < c.width,
        0 <= y < c.height,
    ensures
        spec_fire_ray(c, x, y).wf(),
{
    lemma_ray_d_parts(c, x, y);
    lemma_spec_normalize_parts(spec_ray_d(c, x, y));
}

/// The shading rule always produces channels in the fixed-point unit
/// interval for a well-formed ray.
pub proof fn lemma_spec_ray_color_unit(r: Ray)
    requires
        r.wf(),
    ensures
        0 <= spec_ray_color(r).x <= SCALE,
        0 <= spec_ray_color(r).y <= SCALE,
        0 <= spec_ray_color(r).z <= SCALE,
{
    if !spec_hit_sphere(r, spec_sphere_center(), SPHERE_RADIUS_FX) {
        let a = tdiv(r.direction.y + SCALE, 2);
        lemma_tdiv_le(r.direction.y + SCALE, 2, SCALE as int);
        lemma_tdiv_pos_bounds(r.direction.y + SCALE, 2);
        lemma_blend_bounds(a, SKY_R_FX as int);
        lemma_blend_bounds(a, SKY_G_FX as int);
        lemma_blend_bounds(a, SKY_B_FX as int);
    }
}

impl Ray {
    /// Report whether this ray meets the sphere at `center` with the given
    /// radius, by the sign of the quadratic discriminant. Tangent rays count
    /// as hits; no intersection point is computed.
    pub fn hit_sphere(&self, center: Vec3, radius: i64) -> (hit: bool)
        requires
            self.wf(),
            vec3_bounded(center, 2 * SCALE as int),
            0 <= radius <= SCALE,
        ensures
            hit == spec_hit_sphere(*self, center, radius),
    {
        let oc = center.sub(self.origin);
        let a: i64 = self.direction.dot(self.direction);
        let dv: i64 = self.direction.dot(oc);
        proof {
            lemma_mul_abs_le(
                self.direction.x as int,
                self.direction.x as int,
                1_000_000,
                1_000_000,
            );
            lemma_mul_abs_le(
                self.direction.y as int,
                self.direction.y as int,
                1_000_000,
                1_000_000,
            );
            lemma_mul_abs_le(
                self.direction.z as int,
                self.direction.z as int,
                1_000_000,
                1_000_000,
            );
            lemma_tdiv_le(
                self.direction.x * self.direction.x + self.direction.y * self.direction.y
                    + self.direction.z * self.direction.z,
                SCALE as int,
                3_000_000,
            );
            lemma_mul_abs_le(self.direction.x as int, oc.x as int, 1_000_000, 1_002_000_000);
            lemma_mul_abs_le(self.direction.y as int, oc.y as int, 1_000_000, 1_002_000_000);
            lemma_mul_abs_le(self.direction.z as int, oc.z as int, 1_000_000, 1_002_000_000);
            lemma_tdiv_le(
                self.direction.x * oc.x + self.direction.y * oc.y + self.direction.z * oc.z,
                SCALE as int,
                3_006_000_000,
            );
            lemma_mul_abs_le(oc.x as int, oc.x as int, 1_002_000_000, 1_002_000_000);
            lemma_mul_abs_le(oc.y as int, oc.y as int, 1_002_000_000, 1_002_000_000);
            lemma_mul_abs_le(oc.z as int, oc.z as int, 1_002_000_000, 1_002_000_000);
            lemma_tdiv_le(
                oc.x * oc.x + oc.y * oc.y + oc.z * oc.z,
                SCALE as int,
                3_012_012_000_000,
            );
            lemma_mul_abs_le(radius as int, radius as int, 1_000_000, 1_000_000);
            lemma_tdiv_le(radius * radius, SCALE as int, 1_000_000);
            assert(-3_006_000_000 <= dv <= 3_006_000_000);
            assert(-6_012_000_000 <= -2 * dv <= 6_012_000_000);
        }
        let b: i64 = -2 * dv;
        let r2: i64 = mul_fx(radius, radius);
        let cv: i64 = oc.dot(oc);
        let cc: i64 = cv - r2;
        proof {
            lemma_mul_abs_le(b as int, b as int, 6_012_000_000, 6_012_000_000);
            lemma_tdiv_le((b as int) * (b as int), SCALE as int, 36_144_144_000_000);
            lemma_mul_abs_le(a as int, cc as int, 3_000_000, 3_012_013_000_000);
            lemma_tdiv_le((a as int) * (cc as int), SCALE as int, 9_036_039_000_000);
        }
        let bb: i64 = mul_fx(b, b);
        let ac: i64 = mul_fx(a, cc);
        let disc: i64 = bb - 4 * ac;
        disc >= 0
    }

    /// Shade this ray: solid red if it hits the hardcoded sphere at
    /// (0, 0, -1) with radius one half, else the sky gradient. Channels are
    /// always within `[0, SCALE]`, the fixed-point unit interval.
    pub fn color(&self) -> (c: Vec3)
        requires
            self.wf(),
        ensures
            c == spec_ray_color(*self),
            0 <= c.x <= SCALE,
            0 <= c.y <= SCALE,
            0 <= c.z <= SCALE,
    {
        if self.hit_sphere(Vec3::new(0, 0, -SCALE), SPHERE_RADIUS_FX) {
            Vec3::new(SCALE, 0, 0)
        } else {
            let a: i64 = div_trunc(self.direction.y + SCALE, 2);
            proof {
                lemma_tdiv_le(self.direction.y + SCALE, 2, SCALE as int);
                lemma_tdiv_pos_bounds(self.direction.y + SCALE, 2);
                lemma_blend_bounds(a as int, SKY_R_FX as int);
                lemma_blend_bounds(a as int, SKY_G_FX as int);
                lemma_blend_bounds(a as int, SKY_B_FX as int);
                lemma_tdiv_exact(SCALE - a, SCALE as int);
                assert(0 <= a * SKY_R_FX <= a * SCALE) by (nonlinear_arith)
                    requires
                        0 <= a,
                ;
                assert(0 <= a * SKY_G_FX <= a * SCALE) by (nonlinear_arith)
                    requires
                        0 <= a,
                ;
                assert(0 <= a * SKY_B_FX <= a * SCALE) by (nonlinear_arith)
                    requires
                        0 <= a,
                ;
                lemma_tdiv_le(a * SKY_R_FX, SCALE as int, a as int);
                lemma_tdiv_le(a * SKY_G_FX, SCALE as int, a as int);
                lemma_tdiv_le(a * SKY_B_FX, SCALE as int, a as int);
            }
            let w: i64 = SCALE - a;
            let cx: i64 = mul_fx(w, SCALE) + mul_fx(a, SKY_R_FX);
            let cy: i64 = mul_fx(w, SCALE) + mul_fx(a, SKY_G_FX);
            let cz: i64 = mul_fx(w, SCALE) + mul_fx(a, SKY_B_FX);
            Vec3::new(cx, cy, cz)
        }
    }
}

} // verus!
