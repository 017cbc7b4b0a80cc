//! Scene model and ray/primitive intersection.
//!
//! Shapes and lights are closed tagged variants dispatched by exhaustive
//! matching. An intersection refers to the hit primitive by its index into
//! the scene's shape list. All geometry is Q16.16; each function's contract
//! gives the produced value exactly, via the spec functions that mirror the
//! intersection formulas in unbounded integer arithmetic.
//!
//! Distances past [`DIST_MAX`] (about half a million world units) are treated
//! as misses: a far limit in place of unbounded floating-point range, so that
//! every later computation provably stays inside the machine integers.

use vstd::prelude::*;
use crate::color::{cbound, cwf, Color};
use crate::fixed::{fdiv, fdiv_s, fmul, fmul_s, fsqrt, fsqrt_s, mag, SCALE};
use crate::vec3::{in_bound, lemma_dot_bound, lemma_vnorm_bound, vdot, vnorm, vsqlen, vsub, Point,
    Vector3, V3};

verus! {

/// Hits farther than this (in raw Q16.16 units) count as misses.
pub const DIST_MAX: i64 = 0x8_0000_0000;

/// Bound on the components of any direction the tracer handles: one unit
/// plus the rounding slack normalization can leave.
pub const DIR_MAX: i64 = 139264;

/// Bound on the components of scene-supplied points and on radii.
pub const COORD_MAX: i64 = 0x4000_0000;

/// Bound on the components of any ray origin: a hit point at the far limit,
/// plus the shadow-bias offset.
pub const ORG_MAX: i64 = 0x12_0000_0000;

/// Bound on a light's intensity.
pub const INTENSITY_MAX: i64 = 0x4000_0000;

/// Bound on how many lights a scene may hold.
pub const MAX_LIGHTS: usize = 8192;

/// Bound on the field-of-view scale: the tangent of half the field of view,
/// at most 16 (a view of nearly 180 degrees).
pub const FOV_MAX: i64 = 0x10_0000;

/// Pi in Q16.16.
pub const PI_FP: i64 = 205887;

/// Four pi in Q16.16.
pub const FOUR_PI_FP: i64 = 823549;

/// What a primitive's surface reflects: its color and diffuse albedo.
pub struct Surface {
    pub color: Color,
    pub albedo: i64,
}

/// A sphere given by center and radius.
pub struct Sphere {
    pub center: Point,
    pub radius: i64,
}

/// An infinite plane given by a point on it and its unit normal.
pub struct Plane {
    pub origin: Point,
    pub normal: Vector3,
}

/// The closed set of shape kinds.
pub enum Shape {
    Sphere(Sphere),
    Plane(Plane),
}

/// A shape together with its surface.
pub struct Primitive {
    pub shape: Shape,
    pub surface: Surface,
}

/// A light that shines from one fixed direction, infinitely far away.
pub struct DirectionalLight {
    pub direction: Vector3,
    pub intensity: i64,
}

/// A point light with inverse-square falloff.
pub struct SphericalLight {
    pub point: Point,
    pub intensity: i64,
}

/// The closed set of light kinds.
pub enum Light {
    Directional(DirectionalLight),
    Spherical(SphericalLight),
}

/// A ray: origin plus unit direction.
pub struct Ray {
    pub origin: Point,
    pub direction: Vector3,
}

/// A hit: the distance along the ray, and the index of the hit primitive in
/// the scene's shape list.
#[derive(Clone, Copy)]
pub struct Intersection {
    pub distance: i64,
    pub object: usize,
}

/// The scene: dimensions, field-of-view scale, primitives, lights, the bias
/// that keeps shadow rays off their own surface, and the background color.
///
/// `fov_adjustment` holds the tangent of half the field of view in Q16.16,
/// supplied by the scene builder (a tangent needs transcendental arithmetic
/// that the core keeps out; for a 90 degree field of view it is exactly one).
pub struct Scene {
    pub width: u32,
    pub height: u32,
    pub fov_adjustment: i64,
    pub shapes: Vec<Primitive>,
    pub lights: Vec<Light>,
    pub shadow_bias: i64,
    pub background: Color,
}

impl Sphere {
    /// A sphere the scene may hold: bounded center, positive bounded radius.
    pub open spec fn wf(self) -> bool {
        in_bound(self.center@, COORD_MAX as int) && 0 < self.radius <= COORD_MAX
    }
}

impl Plane {
    /// A plane the scene may hold: bounded origin, unit-sized normal.
    pub open spec fn wf(self) -> bool {
        in_bound(self.origin@, COORD_MAX as int) && in_bound(self.normal@, DIR_MAX as int)
    }
}

impl Shape {
    /// Well-formedness of either shape kind.
    pub open spec fn wf(self) -> bool {
        match self {
            Shape::Sphere(s) => s.wf(),
            Shape::Plane(p) => p.wf(),
        }
    }
}

impl Surface {
    /// Albedo within `[0, 1]`, color channels within one linear unit.
    pub open spec fn wf(self) -> bool {
        0 <= self.albedo <= SCALE && cwf(self.color@) && cbound(self.color@, SCALE as int)
    }
}

impl Primitive {
    /// Well-formed shape and surface.
    pub open spec fn wf(self) -> bool {
        self.shape.wf() && self.surface.wf()
    }
}

impl Light {
    /// Unit-sized direction or bounded point, nonnegative bounded intensity.
    pub open spec fn wf(self) -> bool {
        match self {
            Light::Directional(d) => in_bound(d.direction@, DIR_MAX as int) && 0 <= d.intensity
                <= INTENSITY_MAX,
            Light::Spherical(s) => in_bound(s.point@, COORD_MAX as int) && 0 <= s.intensity
                <= INTENSITY_MAX,
        }
    }
}

impl Ray {
    /// A ray the tracer handles: bounded origin, unit-sized direction.
    pub open spec fn wf(self) -> bool {
        in_bound(self.origin@, ORG_MAX as int) && in_bound(self.direction@, DIR_MAX as int)
    }
}

impl Scene {
    /// The scene invariant every tracing function relies on.
    pub open spec fn wf(self) -> bool {
        &&& 1 <= self.height <= self.width <= 32768
        &&& 0 < self.fov_adjustment <= FOV_MAX
        &&& 0 <= self.shadow_bias <= SCALE
        &&& cwf(self.background@)
        &&& cbound(self.background@, SCALE as int)
        &&& self.lights@.len() <= MAX_LIGHTS
        &&& forall|i: int| 0 <= i < self.shapes@.len() ==> (#[trigger] self.shapes@[i]).wf()
        &&& forall|i: int| 0 <= i < self.lights@.len() ==> (#[trigger] self.lights@[i]).wf()
    }
}

/// Exact value of the sphere intersection: the nearest nonnegative root of
/// the ray/sphere quadratic within the far limit, if any.
pub open spec fn sphere_intersect_s(s: Sphere, ro: V3, rd: V3) -> Option<int> {
    let l = vsub(s.center@, ro);
    let adj = vdot(l, rd);
    let cdsq = vsqlen(l) - fmul_s(adj, adj);
    let rsq = fmul_s(s.radius as int, s.radius as int);
    if cdsq > rsq {
        None
    } else {
        let th = fsqrt_s(rsq - cdsq);
        let i1 = adj - th;
        let i2 = adj + th;
        if 0 <= i1 && i1 <= DIST_MAX {
            Some(i1)
        } else if 0 <= i2 && i2 <= DIST_MAX {
            Some(i2)
        } else {
            None
        }
    }
}

/// Exact value of the plane intersection. A zero denominator is a parallel
/// ray (zero is the only Q16.16 scalar within the reference tolerance of
/// one millionth), and gives no hit for any origin.
pub open spec fn plane_intersect_s(p: Plane, ro: V3, rd: V3) -> Option<int> {
    let denom = vdot(rd, p.normal@);
    if denom == 0 {
        None
    } else {
        let t = fdiv_s(vdot(vsub(p.origin@, ro), p.normal@), denom);
        if 0 <= t && t <= DIST_MAX {
            Some(t)
        } else {
            None
        }
    }
}

/// A ray exactly parallel to a plane's surface intersects nothing, for any
/// origin.
pub proof fn lemma_parallel_ray_misses(p: Plane, ro: V3, rd: V3)
    requires
        vdot(rd, p.normal@) == 0,
    ensures
        plane_intersect_s(p, ro, rd) is None,
{
}

/// Exact value of either shape's intersection.
pub open spec fn shape_hit_s(sh: Shape, ro: V3, rd: V3) -> Option<int> {
    match sh {
        Shape::Sphere(s) => sphere_intersect_s(s, ro, rd),
        Shape::Plane(pl) => plane_intersect_s(pl, ro, rd),
    }
}

/// Exact value of a primitive's intersection: that of its shape.
pub open spec fn hit_of(p: Primitive, ro: V3, rd: V3) -> Option<int> {
    shape_hit_s(p.shape, ro, rd)
}

/// Exact value of the outward surface normal at a point of the shape.
/// A degenerate point at a sphere's very center yields a fixed up-normal.
pub open spec fn surface_normal_s(sh: Shape, p: V3) -> V3 {
    match sh {
        Shape::Sphere(s) => {
            let d = vsub(p, s.center@);
            if vsqlen(d) >= 1 {
                vnorm(d)
            } else {
                V3 { x: 0, y: 0, z: SCALE as int }
            }
        },
        Shape::Plane(pl) => pl.normal@,
    }
}

/// The terms of a dot product of a scene-sized vector with a direction fit
/// comfortably in the machine range.
proof fn lemma_scene_dot_fits(a: V3, b: V3)
    requires
        in_bound(a, 0x13_0000_0000int),
        in_bound(b, DIR_MAX as int),
    ensures
        mag(fmul_s(a.x, b.x)) + mag(fmul_s(a.y, b.y)) + mag(fmul_s(a.z, b.z)) <= i64::MAX as int,
        mag(vdot(a, b)) <= 0x79_2000_0000int,
{
    lemma_dot_bound(a, b, 0x13_0000_0000int, DIR_MAX as int);
}

/// The terms of the squared length of a scene-sized vector fit.
proof fn lemma_scene_sqlen_fits(a: V3)
    requires
        in_bound(a, 0x13_0000_0000int),
    ensures
        mag(fmul_s(a.x, a.x)) + mag(fmul_s(a.y, a.y)) + mag(fmul_s(a.z, a.z)) <= i64::MAX as int,
        mag(vsqlen(a)) <= 0x800_0000_0000_0000int,
{
    lemma_dot_bound(a, a, 0x13_0000_0000int, 0x13_0000_0000int);
}

impl Sphere {
    /// Nearest intersection distance of `ray` with this sphere, if any lies
    /// in front of the origin and within the far limit.
    pub fn intersect(&self, ray: &Ray) -> (r: Option<i64>)
        requires
            self.wf(),
            ray.wf(),
        ensures
            match r {
                Some(d) => sphere_intersect_s(*self, ray.origin@, ray.direction@) == Some(d as int) && 0 <= d <= DIST_MAX,
                None => sphere_intersect_s(*self, ray.origin@, ray.direction@) == None::<int>,
            },
    {
        let l = self.center.sub(&ray.origin);
        proof {
            lemma_scene_dot_fits(l@, ray.direction@);
        }
        let adj = l.dot(&ray.direction);
        proof {
            lemma_scene_sqlen_fits(l@);
            crate::fixed::lemma_fmul_mag(adj as int, adj as int, 0x79_2000_0000int,
                0x79_2000_0000int);
        }
        let adj2 = fmul(adj, adj);
        let sq_l = l.square_length();
        let cdsq = sq_l - adj2;
        proof {
            crate::fixed::lemma_fmul_mag(self.radius as int, self.radius as int, COORD_MAX as int,
                COORD_MAX as int);
        }
        let rsq = fmul(self.radius, self.radius);
        if cdsq > rsq {
            return None;
        }
        let th = fsqrt(rsq - cdsq);
        proof {
            assert(th as int <= 0x1_0000_0000_0000int) by (nonlinear_arith)
                requires
                    0 <= th && (th as int) * (th as int) <= ((rsq - cdsq) as int) * 65536 && rsq
                        - cdsq <= 0x4800_0000_0000_0000int,
            ;
        }
        let i1 = adj - th;
        let i2 = adj + th;
        if 0 <= i1 && i1 <= DIST_MAX {
            Some(i1)
        } else if 0 <= i2 && i2 <= DIST_MAX {
            Some(i2)
        } else {
            None
        }
    }

    /// Outward normal at a point of the sphere's surface: the direction from
    /// the center to the point.
    pub fn surface_normal(&self, point: &Point) -> (r: Vector3)
        requires
            self.wf(),
            in_bound(point@, ORG_MAX as int),
        ensures
            r@ == surface_normal_s(Shape::Sphere(*self), point@),
            in_bound(r@, DIR_MAX as int),
    {
        let d = point.sub(&self.center);
        proof {
            lemma_scene_sqlen_fits(d@);
        }
        let sq = d.square_length();
        if sq >= 1 {
            proof {
                lemma_vnorm_bound(d@);
            }
            d.normalize()
        } else {
            Vector3::new(0, 0, SCALE)
        }
    }
}

impl Plane {
    /// Intersection distance of `ray` with this plane: none when parallel,
    /// else the signed distance to the crossing when it lies ahead and
    /// within the far limit.
    pub fn intersect(&self, ray: &Ray) -> (r: Option<i64>)
        requires
            self.wf(),
            ray.wf(),
        ensures
            match r {
                Some(d) => plane_intersect_s(*self, ray.origin@, ray.direction@) == Some(d as int) && 0 <= d <= DIST_MAX,
                None => plane_intersect_s(*self, ray.origin@, ray.direction@) == None::<int>,
            },
    {
        proof {
            lemma_dot_bound(ray.direction@, self.normal@, DIR_MAX as int, DIR_MAX as int);
        }
        let denom = ray.direction.dot(&self.normal);
        if denom == 0 {
            return None;
        }
        let po = self.origin.sub(&ray.origin);
        proof {
            lemma_scene_dot_fits(po@, self.normal@);
        }
        let num = po.dot(&self.normal);
        proof {
            crate::fixed::lemma_fdiv_mag(num as int, denom as int);
            assert(mag(num as int) * SCALE <= 0x79_2000_0000int * 65536) by (nonlinear_arith)
                requires
                    mag(num as int) <= 0x79_2000_0000int && SCALE == 65536,
            ;
            vstd::arithmetic::div_mod::lemma_div_is_ordered(mag(num as int) * SCALE,
                0x79_2000_0000int * 65536, mag(denom as int));
            vstd::arithmetic::div_mod::lemma_div_nonincreasing(0x79_2000_0000int * 65536, mag(
                denom as int));
        }
        let t = fdiv(num, denom);
        if 0 <= t && t <= DIST_MAX {
            Some(t)
        } else {
            None
        }
    }

    /// The plane's fixed normal, whatever the point.
    pub fn surface_normal(&self, _point: &Point) -> (r: Vector3)
        requires
            self.wf(),
        ensures
            r@ == surface_normal_s(Shape::Plane(*self), _point@),
            in_bound(r@, DIR_MAX as int),
    {
        Vector3 { x: self.normal.x, y: self.normal.y, z: self.normal.z }
    }
}

impl Shape {
    /// Intersection distance with either shape kind.
    pub fn intersect(&self, ray: &Ray) -> (r: Option<i64>)
        requires
            self.wf(),
            ray.wf(),
        ensures
            match r {
                Some(d) => shape_hit_s(*self, ray.origin@, ray.direction@) == Some(d as int) && 0 <= d <= DIST_MAX,
                None => shape_hit_s(*self, ray.origin@, ray.direction@) == None::<int>,
            },
    {
        match self {
            Shape::Sphere(s) => s.intersect(ray),
            Shape::Plane(p) => p.intersect(ray),
        }
    }

    /// Outward normal of either shape kind at a surface point.
    pub fn surface_normal(&self, point: &Point) -> (r: Vector3)
        requires
            self.wf(),
            in_bound(point@, ORG_MAX as int),
        ensures
            r@ == surface_normal_s(*self, point@),
            in_bound(r@, DIR_MAX as int),
    {
        match self {
            Shape::Sphere(s) => s.surface_normal(point),
            Shape::Plane(p) => p.surface_normal(point),
        }
    }
}

impl Intersection {
    /// Packs a hit distance with the index of the hit primitive.
    pub fn new(distance: i64, object: usize) -> (r: Intersection)
        ensures
            r.distance == distance,
            r.object == object,
    {
        Intersection { distance, object }
    }
}

/// Exact value of the nearest hit among the first `n` primitives: the
/// smallest hit distance, the first such primitive winning ties.
pub open spec fn trace_upto(shapes: Seq<Primitive>, ro: V3, rd: V3, n: int) -> Option<(int, int)>
    decreases n,
{
    if n <= 0 {
        None
    } else {
        let prev = trace_upto(shapes, ro, rd, n - 1);
        match hit_of(shapes[n - 1], ro, rd) {
            None => prev,
            Some(d) => match prev {
                None => Some((d, n - 1)),
                Some(p) => if d < p.0 {
                    Some((d, n - 1))
                } else {
                    prev
                },
            },
        }
    }
}

/// Exact value of the scene's nearest-hit trace.
pub open spec fn trace_s(s: Scene, ro: V3, rd: V3) -> Option<(int, int)> {
    trace_upto(s.shapes@, ro, rd, s.shapes@.len() as int)
}

/// What the nearest-hit scan guarantees: a returned hit is a real hit of the
/// named primitive, no primitive is hit strictly nearer, and among equally
/// near primitives the first one is named; a miss means no primitive is hit.
pub proof fn lemma_trace_upto_props(shapes: Seq<Primitive>, ro: V3, rd: V3, n: int)
    requires
        0 <= n <= shapes.len(),
    ensures
        match trace_upto(shapes, ro, rd, n) {
            None => forall|k: int| 0 <= k < n ==> hit_of(shapes[k], ro, rd) is None,
            Some(p) => {
                &&& 0 <= p.1 < n
                &&& hit_of(shapes[p.1], ro, rd) == Some(p.0)
                &&& forall|k: int|
                    0 <= k < n && hit_of(shapes[k], ro, rd) is Some ==> p.0 <= hit_of(
                        shapes[k],
                        ro,
                        rd,
                    )->0
                &&& forall|k: int|
                    0 <= k < p.1 && hit_of(shapes[k], ro, rd) is Some ==> p.0 < hit_of(
                        shapes[k],
                        ro,
                        rd,
                    )->0
            },
        },
    decreases n,
{
    if n > 0 {
        lemma_trace_upto_props(shapes, ro, rd, n - 1);
    }
}

impl Scene {
    /// Scans every primitive and returns the nearest intersection, the first
    /// primitive winning exact ties, or nothing if the ray hits nothing.
    pub fn trace(&self, ray: &Ray) -> (r: Option<Intersection>)
        requires
            self.wf(),
            ray.wf(),
        ensures
            match r {
                Some(i) => trace_s(*self, ray.origin@, ray.direction@) == Some((i.distance as int, i.object as int))
                    && i.object < self.shapes@.len() && 0 <= i.distance <= DIST_MAX,
                None => trace_s(*self, ray.origin@, ray.direction@) == None::<(int, int)>,
            },
    {
        let mut best: Option<Intersection> = None;
        let mut k: usize = 0;
        while k < self.shapes.len()
            invariant
                self.wf(),
                ray.wf(),
                k <= self.shapes@.len(),
                match best {
                    Some(i) => trace_upto(self.shapes@, ray.origin@, ray.direction@, k as int) == Some(
                        (i.distance as int, i.object as int),
                    ) && i.object < k && 0 <= i.distance <= DIST_MAX,
                    None => trace_upto(self.shapes@, ray.origin@, ray.direction@, k as int) == None::<(int, int)>,
                },
            decreases self.shapes@.len() - k,
        {
            let hit = self.shapes[k].shape.intersect(ray);
            match hit {
                None => {},
                Some(d) => {
                    match best {
                        None => {
                            best = Some(Intersection::new(d, k));
                        },
                        Some(b) => {
                            if d < b.distance {
                                best = Some(Intersection::new(d, k));
                            }
                        },
                    }
                },
            }
            k = k + 1;
        }
        best
    }
}

} // verus!
