//! Direct illumination: interactions, shadow tests, per-light power, and the
//! Lambertian accumulation over the scene's lights; and the camera that turns
//! a pixel coordinate into its primary ray.
//!
//! Each light's power at a surface interaction is stated exactly, shadow test
//! included: a directional light is fully occluded by any hit of its shadow
//! ray, a spherical light only by a hit nearer than the light itself.

use vstd::prelude::*;
use crate::color::{cadd, cbound, cscale, cwf, Color, Cv};
use crate::fixed::{fdiv, fdiv_s, fmul, fmul_s, lemma_fdiv_s_nonneg, lemma_fmul_mag,
    lemma_fmul_s_mono, mag, SCALE};
use crate::tracer::{sphere_intersect_s, surface_normal_s, trace_s, DirectionalLight,
    Intersection, Light, Ray, Scene, SphericalLight, COORD_MAX, DIR_MAX, DIST_MAX, FOUR_PI_FP,
    FOV_MAX, PI_FP};
use crate::vec3::{in_bound, lemma_dot_bound, lemma_sqlen_nonneg, lemma_vnorm_bound, vadd, vdot,
    vneg, vnorm, vscale, vsqlen, vsub, Point, Vector3, V3};

verus! {

/// Bound on the components of a hit point made from a camera ray: a bounded
/// camera origin pushed at most the far limit along a unit-sized direction.
pub const INTER_MAX: i64 = 0x11_8000_0000;

/// Bound on any light's power at an interaction.
pub const POWER_MAX: i64 = 0x4_0000_0000_0000;

/// Bound on one light's contribution to a linear color channel.
pub const CONTRIB_MAX: i64 = 0x1_8000_0000_0000;

/// A surface interaction: the hit point and the outward normal there.
pub struct Interaction {
    pub point: Point,
    pub surface_norm: Vector3,
}

/// Exact value of the point `d` along the ray from `ro` in direction `rd`.
pub open spec fn hit_point_s(ro: V3, rd: V3, d: int) -> V3 {
    vadd(ro, vscale(rd, d))
}

/// Exact origin of a shadow ray: the hit point nudged along the normal by the
/// scene's shadow bias, so the ray cannot graze its own surface.
pub open spec fn shadow_origin_s(p: V3, n: V3, bias: int) -> V3 {
    vadd(p, vscale(n, bias))
}

/// Nonnegative part.
pub open spec fn max0(x: int) -> int {
    if x >= 0 {
        x
    } else {
        0
    }
}

/// Exact incident power of a light at the interaction `(p, n)`, occlusion
/// included. A directional light is blocked by any shadow-ray hit; a
/// spherical light only by a hit nearer than the light, and its intensity
/// falls off with the square of the distance. A spherical light closer to
/// the surface than one raw unit is degenerate and contributes nothing.
pub open spec fn light_power_s(l: Light, p: V3, n: V3, s: Scene) -> int {
    match l {
        Light::Directional(d) => {
            let dtl = vneg(d.direction@);
            if trace_s(s, shadow_origin_s(p, n, s.shadow_bias as int), dtl) is Some {
                0
            } else {
                fmul_s(max0(vdot(n, dtl)), d.intensity as int)
            }
        },
        Light::Spherical(sl) => {
            let tl = vsub(sl.point@, p);
            let dsq = vsqlen(tl);
            if dsq < 1 {
                0
            } else {
                let dtl = vnorm(tl);
                let occ = trace_s(s, shadow_origin_s(p, n, s.shadow_bias as int), dtl);
                if occ is Some && fmul_s(occ->Some_0.0, occ->Some_0.0) < dsq {
                    0
                } else {
                    let it = fdiv_s(sl.intensity as int, fmul_s(dsq, FOUR_PI_FP as int));
                    fmul_s(max0(vdot(n, dtl)), it)
                }
            }
        },
    }
}

/// Exact contribution of one light to the shaded color: the surface color
/// scaled by the light's power times the surface's reflectance `albedo / pi`.
pub open spec fn contrib_s(s: Scene, obj: int, p: V3, n: V3, l: Light) -> Cv {
    cscale(
        s.shapes@[obj].surface.color@,
        fmul_s(light_power_s(l, p, n, s), fdiv_s(s.shapes@[obj].surface.albedo as int, PI_FP as int)),
    )
}

/// Exact shaded color from the first `k` lights, summed in linear space.
pub open spec fn reflected_upto(s: Scene, ro: V3, rd: V3, d: int, obj: int, k: int) -> Cv
    decreases k,
{
    if k <= 0 {
        Cv { red: 0, green: 0, blue: 0 }
    } else {
        let p = hit_point_s(ro, rd, d);
        let n = surface_normal_s(s.shapes@[obj].shape, p);
        cadd(reflected_upto(s, ro, rd, d, obj, k - 1), contrib_s(s, obj, p, n, s.lights@[k - 1]))
    }
}

/// Exact shaded color of the hit `(d, obj)` of the given ray: every light's
/// contribution summed in linear space.
pub open spec fn light_reflected_s(s: Scene, ro: V3, rd: V3, d: int, obj: int) -> Cv {
    reflected_upto(s, ro, rd, d, obj, s.lights@.len() as int)
}

/// A scene without lights shades every hit to black: the sum over no
/// contributions is the additive identity.
pub proof fn lemma_no_lights_is_black(s: Scene, ro: V3, rd: V3, d: int, obj: int)
    requires
        s.lights@.len() == 0,
    ensures
        light_reflected_s(s, ro, rd, d, obj) == (Cv { red: 0, green: 0, blue: 0 }),
{
}

/// A spherical light's shadow test goes by distance: an occluder whose hit
/// lies nearer than the light forces the power to exactly zero, while one at
/// or beyond the light does not occlude at all — the power is the full
/// Lambertian term, and positive whenever that term reaches one unit.
pub proof fn lemma_spherical_occlusion(sl: SphericalLight, p: V3, n: V3, s: Scene)
    ensures
        ({
            let tl = vsub(sl.point@, p);
            let dsq = vsqlen(tl);
            let dtl = vnorm(tl);
            let occ = trace_s(s, shadow_origin_s(p, n, s.shadow_bias as int), dtl);
            let it = fdiv_s(sl.intensity as int, fmul_s(dsq, FOUR_PI_FP as int));
            &&& (dsq >= 1 && occ is Some && fmul_s(occ->Some_0.0, occ->Some_0.0) < dsq)
                ==> light_power_s(Light::Spherical(sl), p, n, s) == 0
            &&& (dsq >= 1 && occ is Some && fmul_s(occ->Some_0.0, occ->Some_0.0) >= dsq)
                ==> light_power_s(Light::Spherical(sl), p, n, s) == fmul_s(max0(vdot(n, dtl)), it)
            &&& (dsq >= 1 && occ is Some && fmul_s(occ->Some_0.0, occ->Some_0.0) >= dsq && max0(
                vdot(n, dtl),
            ) * it >= SCALE) ==> light_power_s(Light::Spherical(sl), p, n, s) > 0
        }),
{
    let tl = vsub(sl.point@, p);
    let dsq = vsqlen(tl);
    let dtl = vnorm(tl);
    let occ = trace_s(s, shadow_origin_s(p, n, s.shadow_bias as int), dtl);
    let it = fdiv_s(sl.intensity as int, fmul_s(dsq, FOUR_PI_FP as int));
    let q = max0(vdot(n, dtl)) * it;
    if q >= SCALE {
        vstd::arithmetic::div_mod::lemma_div_is_ordered(SCALE as int, q, SCALE as int);
        vstd::arithmetic::div_mod::lemma_div_by_self(SCALE as int);
    }
}

impl Intersection {
    /// The interaction of this hit: the point along the ray, and the hit
    /// shape's outward normal there.
    pub fn as_interaction(&self, ray: &Ray, scene: &Scene) -> (r: Interaction)
        requires
            scene.wf(),
            ray.wf(),
            in_bound(ray.origin@, COORD_MAX as int),
            self.object < scene.shapes@.len(),
            0 <= self.distance <= DIST_MAX,
        ensures
            r.point@ == hit_point_s(ray.origin@, ray.direction@, self.distance as int),
            r.surface_norm@ == surface_normal_s(scene.shapes@[self.object as int].shape, r.point@),
            in_bound(r.point@, INTER_MAX as int),
            in_bound(r.surface_norm@, DIR_MAX as int),
    {
        proof {
            lemma_fmul_mag(ray.direction@.x, self.distance as int, DIR_MAX as int,
                DIST_MAX as int);
            lemma_fmul_mag(ray.direction@.y, self.distance as int, DIR_MAX as int,
                DIST_MAX as int);
            lemma_fmul_mag(ray.direction@.z, self.distance as int, DIR_MAX as int,
                DIST_MAX as int);
        }
        let point = ray.origin.add(&ray.direction.scale(self.distance));
        Interaction {
            point,
            surface_norm: scene.shapes[self.object].shape.surface_normal(&point),
        }
    }
}

/// Casts the shadow ray from the interaction toward the light and reports
/// what it hits first, if anything: the occluder.
pub fn occlusion(direction_to_light: Vector3, inter: &Interaction, scene: &Scene) -> (r: Option<
    Intersection,
>)
    requires
        scene.wf(),
        in_bound(direction_to_light@, DIR_MAX as int),
        in_bound(inter.point@, INTER_MAX as int),
        in_bound(inter.surface_norm@, DIR_MAX as int),
    ensures
        ({
            let so = shadow_origin_s(inter.point@, inter.surface_norm@, scene.shadow_bias as int);
            match r {
                Some(i) => trace_s(*scene, so, direction_to_light@) == Some(
                    (i.distance as int, i.object as int),
                ) && i.object < scene.shapes@.len() && 0 <= i.distance <= DIST_MAX,
                None => trace_s(*scene, so, direction_to_light@) == None::<(int, int)>,
            }
        }),
{
    proof {
        lemma_fmul_mag(inter.surface_norm@.x, scene.shadow_bias as int, DIR_MAX as int,
            SCALE as int);
        lemma_fmul_mag(inter.surface_norm@.y, scene.shadow_bias as int, DIR_MAX as int,
            SCALE as int);
        lemma_fmul_mag(inter.surface_norm@.z, scene.shadow_bias as int, DIR_MAX as int,
            SCALE as int);
    }
    let shadow_ray = Ray {
        origin: inter.point.add(&inter.surface_norm.scale(scene.shadow_bias)),
        direction: direction_to_light,
    };
    scene.trace(&shadow_ray)
}

impl DirectionalLight {
    /// Incident power at the interaction: zero when the shadow ray hits
    /// anything, else the Lambertian cosine times the raw intensity.
    pub fn light_power(&self, inter: &Interaction, scene: &Scene) -> (r: i64)
        requires
            scene.wf(),
            Light::Directional(*self).wf(),
            in_bound(inter.point@, INTER_MAX as int),
            in_bound(inter.surface_norm@, DIR_MAX as int),
        ensures
            r as int == light_power_s(Light::Directional(*self), inter.point@, inter.surface_norm@,
                *scene),
            0 <= r <= POWER_MAX,
    {
        let direction_to_light = self.direction.neg();
        if occlusion(direction_to_light, inter, scene).is_some() {
            return 0;
        }
        proof {
            lemma_dot_bound(inter.surface_norm@, direction_to_light@, DIR_MAX as int,
                DIR_MAX as int);
        }
        let cos = inter.surface_norm.dot(&direction_to_light);
        let cos = if cos >= 0 {
            cos
        } else {
            0
        };
        proof {
            lemma_fmul_mag(cos as int, self.intensity as int, 887808, COORD_MAX as int);
            lemma_fmul_s_mono(0, 0, cos as int, self.intensity as int);
        }
        fmul(cos, self.intensity)
    }
}

impl SphericalLight {
    /// Incident power at the interaction: zero when the light is degenerate
    /// or occluded by a hit nearer than the light itself, else the Lambertian
    /// cosine times the intensity under inverse-square falloff.
    pub fn light_power(&self, inter: &Interaction, scene: &Scene) -> (r: i64)
        requires
            scene.wf(),
            Light::Spherical(*self).wf(),
            in_bound(inter.point@, INTER_MAX as int),
            in_bound(inter.surface_norm@, DIR_MAX as int),
        ensures
            r as int == light_power_s(Light::Spherical(*self), inter.point@, inter.surface_norm@,
                *scene),
            0 <= r <= POWER_MAX,
    {
        let to_light = self.point.sub(&inter.point);
        proof {
            lemma_dot_bound(to_light@, to_light@, 0x11_C000_0000int, 0x11_C000_0000int);
            lemma_sqlen_nonneg(to_light@);
        }
        let distance_sq = to_light.square_length();
        if distance_sq < 1 {
            return 0;
        }
        let direction_to_light = to_light.normalize();
        proof {
            lemma_vnorm_bound(to_light@);
        }
        let occluded = match occlusion(direction_to_light, inter, scene) {
            Some(i) => {
                proof {
                    lemma_fmul_mag(i.distance as int, i.distance as int, DIST_MAX as int,
                        DIST_MAX as int);
                }
                fmul(i.distance, i.distance) < distance_sq
            },
            None => false,
        };
        if occluded {
            return 0;
        }
        proof {
            lemma_fmul_mag(distance_sq as int, FOUR_PI_FP as int, 0x3_2A00_0000_0000_0000int,
                FOUR_PI_FP as int);
            lemma_fmul_s_mono(1, FOUR_PI_FP as int, distance_sq as int, FOUR_PI_FP as int);
            assert((1int * 823549) / 65536 == 12);
        }
        let denom = fmul(distance_sq, FOUR_PI_FP);
        proof {
            crate::fixed::lemma_fdiv_mag(self.intensity as int, denom as int);
            assert(mag(self.intensity as int) * SCALE <= 0x4000_0000int * 65536) by (nonlinear_arith)
                requires
                    mag(self.intensity as int) <= 0x4000_0000int && SCALE == 65536,
            ;
            vstd::arithmetic::div_mod::lemma_div_is_ordered(
                mag(self.intensity as int) * SCALE,
                0x4000_0000int * 65536,
                mag(denom as int),
            );
            vstd::arithmetic::div_mod::lemma_div_nonincreasing(0x4000_0000int * 65536, mag(
                denom as int));
            lemma_fdiv_s_nonneg(self.intensity as int, denom as int);
        }
        let intensity = fdiv(self.intensity, denom);
        proof {
            lemma_dot_bound(inter.surface_norm@, direction_to_light@, DIR_MAX as int,
                DIR_MAX as int);
        }
        let cos = inter.surface_norm.dot(&direction_to_light);
        let cos = if cos >= 0 {
            cos
        } else {
            0
        };
        proof {
            lemma_fmul_mag(cos as int, intensity as int, 887808, 0x4000_0000_0000int);
            lemma_fmul_s_mono(0, 0, cos as int, intensity as int);
            lemma_fmul_s_mono(cos as int, intensity as int, 887808, 0x4000_0000_0000int);
            assert((887808int * 0x4000_0000_0000) / 65536 <= POWER_MAX);
        }
        fmul(cos, intensity)
    }
}

impl Light {
    /// Incident power of either light kind at the interaction.
    pub fn light_power(&self, inter: &Interaction, scene: &Scene) -> (r: i64)
        requires
            scene.wf(),
            self.wf(),
            in_bound(inter.point@, INTER_MAX as int),
            in_bound(inter.surface_norm@, DIR_MAX as int),
        ensures
            r as int == light_power_s(*self, inter.point@, inter.surface_norm@, *scene),
            0 <= r <= POWER_MAX,
    {
        match self {
            Light::Directional(d) => d.light_power(inter, scene),
            Light::Spherical(s) => s.light_power(inter, scene),
        }
    }
}

/// One light's contribution is a well-formed color with bounded channels.
proof fn lemma_contrib_bounds(s: Scene, obj: int, p: V3, n: V3, l: Light, power: int, refl: int)
    requires
        s.wf(),
        0 <= obj < s.shapes@.len(),
        0 <= power <= POWER_MAX,
        0 <= refl <= 20860,
        power == light_power_s(l, p, n, s),
        refl == fdiv_s(s.shapes@[obj].surface.albedo as int, PI_FP as int),
    ensures
        cwf(contrib_s(s, obj, p, n, l)),
        cbound(contrib_s(s, obj, p, n, l), CONTRIB_MAX as int),
        0 <= fmul_s(power, refl) <= CONTRIB_MAX,
    {
    lemma_fmul_s_mono(0, 0, power, refl);
    lemma_fmul_s_mono(power, refl, POWER_MAX as int, 20860);
    assert((0x4_0000_0000_0000int * 20860) / 65536 <= CONTRIB_MAX);
    let f = fmul_s(power, refl);
    let c = s.shapes@[obj].surface.color@;
    lemma_fmul_s_mono(0, 0, c.red, f);
    lemma_fmul_s_mono(0, 0, c.green, f);
    lemma_fmul_s_mono(0, 0, c.blue, f);
    lemma_fmul_s_mono(c.red, f, SCALE as int, CONTRIB_MAX as int);
    lemma_fmul_s_mono(c.green, f, SCALE as int, CONTRIB_MAX as int);
    lemma_fmul_s_mono(c.blue, f, SCALE as int, CONTRIB_MAX as int);
    assert((65536int * 0x1_8000_0000_0000) / 65536 == CONTRIB_MAX as int);
}

impl Intersection {
    /// The shaded color of this hit: each light's Lambertian contribution,
    /// shadow-tested, summed in linear space.
    pub fn light_reflected(&self, ray: &Ray, scene: &Scene) -> (r: Color)
        requires
            scene.wf(),
            ray.wf(),
            in_bound(ray.origin@, COORD_MAX as int),
            self.object < scene.shapes@.len(),
            0 <= self.distance <= DIST_MAX,
        ensures
            r@ == light_reflected_s(*scene, ray.origin@, ray.direction@, self.distance as int,
                self.object as int),
            cwf(r@),
    {
        let interaction = self.as_interaction(ray, scene);
        let surface = &scene.shapes[self.object].surface;
        proof {
            crate::fixed::lemma_fdiv_mag(surface.albedo as int, PI_FP as int);
            vstd::arithmetic::div_mod::lemma_div_is_ordered(
                mag(surface.albedo as int) * SCALE,
                65536int * 65536,
                205887,
            );
            lemma_fdiv_s_nonneg(surface.albedo as int, PI_FP as int);
            assert(mag(surface.albedo as int) * SCALE <= 65536int * 65536) by (nonlinear_arith)
                requires
                    mag(surface.albedo as int) <= 65536 && SCALE == 65536,
            ;
        }
        let light_reflected = fdiv(surface.albedo, PI_FP);
        let mut color = Color::black();
        let mut k: usize = 0;
        while k < scene.lights.len()
            invariant
                scene.wf(),
                ray.wf(),
                in_bound(ray.origin@, COORD_MAX as int),
                self.object < scene.shapes@.len(),
                0 <= self.distance <= DIST_MAX,
                k <= scene.lights@.len(),
                interaction.point@ == hit_point_s(ray.origin@, ray.direction@,
                    self.distance as int),
                interaction.surface_norm@ == surface_normal_s(
                    scene.shapes@[self.object as int].shape,
                    interaction.point@,
                ),
                in_bound(interaction.point@, INTER_MAX as int),
                in_bound(interaction.surface_norm@, DIR_MAX as int),
                *surface == scene.shapes@[self.object as int].surface,
                light_reflected as int == fdiv_s(
                    scene.shapes@[self.object as int].surface.albedo as int,
                    PI_FP as int,
                ),
                0 <= light_reflected <= 20860,
                color@ == reflected_upto(*scene, ray.origin@, ray.direction@,
                    self.distance as int, self.object as int, k as int),
                cwf(color@),
                cbound(color@, k as int * CONTRIB_MAX as int),
            decreases scene.lights@.len() - k,
        {
            let light = &scene.lights[k];
            let power = light.light_power(&interaction, scene);
            proof {
                lemma_contrib_bounds(*scene, self.object as int, interaction.point@,
                    interaction.surface_norm@, *light, power as int, light_reflected as int);
            }
            let factor = fmul(power, light_reflected);
            let contribution = surface.color.mul(factor);
            proof {
                assert(k as int * CONTRIB_MAX as int + CONTRIB_MAX as int <= 8193int
                    * CONTRIB_MAX as int);
            }
            color = color.add(&contribution);
            k = k + 1;
        }
        color
    }
}

/// Exact sensor coordinates of the pixel column `x`: the pixel-centered
/// device coordinate, aspect-corrected and scaled by the field of view.
/// Algebraically `((x+0.5)/w*2-1)*(w/h)*fov == ((2x+1-w)/h)*fov`; the
/// combined form is computed, keeping the rounding antisymmetric across the
/// image's vertical midline.
pub open spec fn sensor_x_s(x: int, s: Scene) -> int {
    fmul_s(fdiv_s(2 * x + 1 - s.width, s.height as int), s.fov_adjustment as int)
}

/// Exact sensor coordinate of the pixel row `y`, inverted so row zero is up.
pub open spec fn sensor_y_s(y: int, s: Scene) -> int {
    fmul_s(fdiv_s(s.height - 2 * y - 1, s.height as int), s.fov_adjustment as int)
}

/// Exact direction of the primary ray through pixel `(x, y)`: the sensor
/// point one unit in front of the camera, normalized.
pub open spec fn prime_dir_s(x: int, y: int, s: Scene) -> V3 {
    vnorm(V3 { x: sensor_x_s(x, s), y: sensor_y_s(y, s), z: -(SCALE as int) })
}

impl Ray {
    /// The primary ray for pixel `(x, y)`: from the camera at the origin,
    /// through the center of the pixel on the sensor plane one unit ahead.
    pub fn new_prime(x: u32, y: u32, scene: &Scene) -> (r: Ray)
        requires
            scene.wf(),
            x < scene.width,
            y < scene.height,
        ensures
            r.origin@ == (V3 { x: 0, y: 0, z: 0 }),
            r.direction@ == prime_dir_s(x as int, y as int, *scene),
            r.wf(),
            in_bound(r.origin@, COORD_MAX as int),
    {
        let nx: i64 = 2 * (x as i64) + 1 - (scene.width as i64);
        let ny: i64 = (scene.height as i64) - 2 * (y as i64) - 1;
        proof {
            lemma_sensor_fits(nx as int, scene.height as int, scene.fov_adjustment as int);
            lemma_sensor_fits(ny as int, scene.height as int, scene.fov_adjustment as int);
        }
        let sx = fmul(fdiv(nx, scene.height as i64), scene.fov_adjustment);
        let sy = fmul(fdiv(ny, scene.height as i64), scene.fov_adjustment);
        let dir = Vector3::new(sx, sy, -SCALE);
        proof {
            lemma_sqlen_nonneg(dir@);
            assert(fmul_s(-(SCALE as int), -(SCALE as int)) == SCALE as int) by {
                assert((-65536int) * (-65536int) == 65536int * 65536) by (nonlinear_arith);
                assert((65536int * 65536) / 65536 == 65536);
            }
            lemma_vnorm_bound(dir@);
        }
        Ray { origin: Vector3::zero(), direction: dir.normalize() }
    }
}

/// The sensor computation stays well within every machine bound: the pixel
/// offset is at most a full row, heights are positive, and the field-of-view
/// scale is bounded.
proof fn lemma_sensor_fits(n: int, h: int, fov: int)
    requires
        mag(n) <= 65536,
        1 <= h,
        0 < fov <= FOV_MAX,
    ensures
        mag(fdiv_s(n, h)) <= 0x1_0000_0000int,
        mag(fmul_s(fdiv_s(n, h), fov)) <= 0x10_0000_0000int,
{
    crate::fixed::lemma_fdiv_mag(n, h);
    assert(mag(n) * SCALE <= 65536int * 65536) by (nonlinear_arith)
        requires
            mag(n) <= 65536 && SCALE == 65536,
    ;
    vstd::arithmetic::div_mod::lemma_div_is_ordered(mag(n) * SCALE, 65536int * 65536, mag(h));
    vstd::arithmetic::div_mod::lemma_div_nonincreasing(65536int * 65536, mag(h));
    lemma_fmul_mag(fdiv_s(n, h), fov, 0x1_0000_0000int, FOV_MAX as int);
}

/// Camera symmetry: the primary rays of a pixel and of its horizontal mirror
/// have directions that mirror exactly across the image's vertical midline.
pub proof fn lemma_prime_dir_mirror(x: int, y: int, s: Scene)
    requires
        s.wf(),
        0 <= x < s.width,
        0 <= y < s.height,
    ensures
        prime_dir_s(s.width - 1 - x, y, s) == crate::vec3::mirror_x(prime_dir_s(x, y, s)),
{
    let n = 2 * x + 1 - s.width;
    assert(2 * (s.width - 1 - x) + 1 - s.width == -n);
    crate::fixed::lemma_fdiv_neg(n, s.height as int);
    crate::fixed::lemma_fmul_neg(fdiv_s(n, s.height as int), s.fov_adjustment as int);
    assert(sensor_x_s(s.width - 1 - x, s) == -sensor_x_s(x, s));
    let d = V3 { x: sensor_x_s(x, s), y: sensor_y_s(y, s), z: -(SCALE as int) };
    assert(fmul_s(-(SCALE as int), -(SCALE as int)) == SCALE as int) by {
        assert((-65536int) * (-65536int) == 65536int * 65536) by (nonlinear_arith);
        assert((65536int * 65536) / 65536 == 65536);
    }
    lemma_sqlen_nonneg(d);
    crate::vec3::lemma_vnorm_mirror_x(d);
}

/// Mirror symmetry at a sphere centered on the vertical midplane: a ray from
/// the origin and its mirror meet the sphere at the same distance, and the
/// two hit points mirror each other exactly.
pub proof fn lemma_sphere_mirror_hit(sp: crate::tracer::Sphere, rd: V3)
    requires
        sp.center@.x == 0,
    ensures
        sphere_intersect_s(sp, V3 { x: 0, y: 0, z: 0 }, crate::vec3::mirror_x(rd))
            == sphere_intersect_s(sp, V3 { x: 0, y: 0, z: 0 }, rd),
        forall|d: int| #![all_triggers]
            hit_point_s(V3 { x: 0, y: 0, z: 0 }, crate::vec3::mirror_x(rd), d)
                == crate::vec3::mirror_x(hit_point_s(V3 { x: 0, y: 0, z: 0 }, rd, d)),
{
    let o = V3 { x: 0, y: 0, z: 0 };
    let l = vsub(sp.center@, o);
    crate::fixed::lemma_fmul_neg(l.x, rd.x);
    assert(vdot(l, crate::vec3::mirror_x(rd)) == vdot(l, rd));
    assert forall|d: int|
        hit_point_s(o, crate::vec3::mirror_x(rd), d) == crate::vec3::mirror_x(
            hit_point_s(o, rd, d),
        ) by {
        crate::fixed::lemma_fmul_neg(rd.x, d);
    }
}

/// Camera symmetry over a whole scene: with a single sphere centered on the
/// vertical midplane, the primary rays of a pixel and of its horizontal
/// mirror trace to the same hit at the same distance, and the two hit points
/// mirror each other exactly.
pub proof fn lemma_camera_symmetry(s: Scene, x: int, y: int)
    requires
        s.wf(),
        0 <= x < s.width,
        0 <= y < s.height,
        s.shapes@.len() == 1,
        s.shapes@[0].shape is Sphere,
        s.shapes@[0].shape->Sphere_0.center@.x == 0,
    ensures
        ({
            let o = V3 { x: 0, y: 0, z: 0 };
            let d1 = prime_dir_s(x, y, s);
            let d2 = prime_dir_s(s.width - 1 - x, y, s);
            &&& d2 == crate::vec3::mirror_x(d1)
            &&& trace_s(s, o, d2) == trace_s(s, o, d1)
            &&& trace_s(s, o, d1) matches Some(h) ==> hit_point_s(o, d2, h.0)
                == crate::vec3::mirror_x(hit_point_s(o, d1, h.0))
        }),
{
    lemma_prime_dir_mirror(x, y, s);
    let sp = s.shapes@[0].shape->Sphere_0;
    let o = V3 { x: 0, y: 0, z: 0 };
    let d1 = prime_dir_s(x, y, s);
    let d2 = prime_dir_s(s.width - 1 - x, y, s);
    lemma_sphere_mirror_hit(sp, d1);
    assert(crate::tracer::hit_of(s.shapes@[0], o, d2) == crate::tracer::hit_of(
        s.shapes@[0],
        o,
        d1,
    ));
    assert(crate::tracer::trace_upto(s.shapes@, o, d1, 0) == None::<(int, int)>);
    assert(crate::tracer::trace_upto(s.shapes@, o, d2, 0) == None::<(int, int)>);
    assert(trace_s(s, o, d1) == crate::tracer::trace_upto(s.shapes@, o, d1, 1));
    assert(trace_s(s, o, d2) == crate::tracer::trace_upto(s.shapes@, o, d2, 1));
}

} // verus!
