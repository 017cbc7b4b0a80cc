//! The renderer: owns a scene and its output pixel buffer, and fills the
//! buffer one primary ray per pixel.
//!
//! The buffer is row-major: pixel `(x, y)` lives at index `y * width + x`.
//! `render`'s contract pins every pixel to a pure function of the scene, so
//! rendering is deterministic and a missed pixel is exactly the background.

use vstd::prelude::*;
use crate::color::{pix_of, Color, Cv, Pixel};
use crate::fixed::SCALE;
use crate::shade::{light_reflected_s, prime_dir_s};
use crate::tracer::{trace_s, DirectionalLight, Light, Plane, Primitive, Ray, Scene, Shape, Sphere,
    SphericalLight, Surface};
use crate::vec3::{Vector3, V3};

verus! {

/// The camera's place: the world origin.
pub open spec fn camera_v3() -> V3 {
    V3 { x: 0, y: 0, z: 0 }
}

/// Exact linear color of pixel `(x, y)`: the shaded nearest hit of its
/// primary ray, or the scene's background when the ray hits nothing.
pub open spec fn shade_pixel_s(s: Scene, x: int, y: int) -> Cv {
    let d = prime_dir_s(x, y, s);
    match trace_s(s, camera_v3(), d) {
        None => s.background@,
        Some(h) => light_reflected_s(s, camera_v3(), d, h.0, h.1),
    }
}

/// The display pixel `p` is the 8-bit form of the linear color `c`.
pub open spec fn pixel_matches(p: Pixel, c: Cv) -> bool {
    &&& p.b as int == pix_of(c.blue)
    &&& p.g as int == pix_of(c.green)
    &&& p.r as int == pix_of(c.red)
    &&& p.a == 255
}

/// The whole buffer is the rendering of the scene: correctly sized, and each
/// pixel the 8-bit form of its ray's shaded color.
pub open spec fn rendered(s: Scene, buf: Seq<Pixel>) -> bool {
    &&& buf.len() == s.width * s.height
    &&& forall|x: int, y: int|
        0 <= x < s.width && 0 <= y < s.height ==> pixel_matches(
            #[trigger] buf[y * s.width + x],
            shade_pixel_s(s, x, y),
        )
}

/// Owns a scene and the pixel buffer its rendering fills.
pub struct Renderer {
    pub scene: Scene,
    pub image: Vec<Pixel>,
}

/// Row-major pixel indices are unique within the image rectangle.
proof fn lemma_index_unique(w: int, x1: int, y1: int, x2: int, y2: int)
    requires
        0 <= x1 < w,
        0 <= x2 < w,
        0 <= y1,
        0 <= y2,
        y1 * w + x1 == y2 * w + x2,
    ensures
        x1 == x2 && y1 == y2,
{
    assert(x1 == x2 && y1 == y2) by (nonlinear_arith)
        requires
            0 <= x1 < w && 0 <= x2 < w && 0 <= y1 && 0 <= y2 && y1 * w + x1 == y2 * w + x2,
    ;
}

impl Renderer {
    /// The renderer's invariant: a well-formed scene and a buffer of the
    /// scene's size.
    pub open spec fn wf(self) -> bool {
        self.scene.wf() && self.image@.len() == self.scene.width * self.scene.height
    }

    /// Makes a renderer for the scene, with a cleared output buffer at the
    /// scene's dimensions.
    pub fn new(scene: Scene) -> (r: Renderer)
        requires
            scene.wf(),
        ensures
            r.wf(),
            r.scene == scene,
            forall|i: int|
                0 <= i < r.image@.len() ==> #[trigger] r.image@[i] == (Pixel {
                    b: 0,
                    g: 0,
                    r: 0,
                    a: 0,
                }),
    {
        proof {
            assert((scene.width as int) * (scene.height as int) <= 0x4000_0000int)
                by (nonlinear_arith)
                requires
                    0 < (scene.width as int) <= 32768 && 0 < (scene.height as int) <= 32768,
            ;
        }
        let total = (scene.width as usize) * (scene.height as usize);
        let mut image: Vec<Pixel> = Vec::new();
        let mut i: usize = 0;
        while i < total
            invariant
                i <= total,
                image@.len() == i,
                forall|j: int|
                    0 <= j < i ==> #[trigger] image@[j] == (Pixel { b: 0, g: 0, r: 0, a: 0 }),
            decreases total - i,
        {
            image.push(Pixel { b: 0, g: 0, r: 0, a: 0 });
            i = i + 1;
        }
        Renderer { scene, image }
    }

    /// Renders the scene into the buffer: for every pixel, generate the
    /// primary ray, trace it, and store the shaded color or the background,
    /// in display form. The whole image is recomputed from the scene alone.
    pub fn render(&mut self)
        requires
            old(self).wf(),
        ensures
            final(self).wf(),
            final(self).scene == old(self).scene,
            rendered(final(self).scene, final(self).image@),
    {
        let width = self.scene.width;
        let height = self.scene.height;
        let mut x: u32 = 0;
        while x < width
            invariant
                self.wf(),
                self.scene == old(self).scene,
                width == self.scene.width,
                height == self.scene.height,
                x <= width,
                forall|xp: int, yp: int|
                    0 <= xp < x && 0 <= yp < height ==> pixel_matches(
                        #[trigger] self.image@[yp * width + xp],
                        shade_pixel_s(self.scene, xp, yp),
                    ),
            decreases width - x,
        {
            let mut y: u32 = 0;
            while y < height
                invariant
                    self.wf(),
                    self.scene == old(self).scene,
                    width == self.scene.width,
                    height == self.scene.height,
                    x < width,
                    y <= height,
                    forall|xp: int, yp: int|
                        0 <= xp < x && 0 <= yp < height ==> pixel_matches(
                            #[trigger] self.image@[yp * width + xp],
                            shade_pixel_s(self.scene, xp, yp),
                        ),
                    forall|yp: int|
                        0 <= yp < y ==> pixel_matches(
                            #[trigger] self.image@[yp * width + x],
                            shade_pixel_s(self.scene, x as int, yp),
                        ),
                decreases height - y,
            {
                let ray = Ray::new_prime(x, y, &self.scene);
                let px = match self.scene.trace(&ray) {
                    None => self.scene.background.to_pixel(),
                    Some(intersection) => {
                        let color = intersection.light_reflected(&ray, &self.scene);
                        color.to_pixel()
                    },
                };
                proof {
                    assert((y as int) * (width as int) + (x as int) < 0x4000_0000int)
                        by (nonlinear_arith)
                        requires
                            0 <= (y as int) < 32768 && 0 < (width as int) <= 32768 && 0 <= (
                            x as int) < (width as int),
                    ;
                    assert((y as int) * (width as int) + (x as int) < (height as int) * (
                    width as int)) by (nonlinear_arith)
                        requires
                            0 <= (y as int) < (height as int) && 0 <= (x as int) < (width as int),
                    ;
                    assert((height as int) * (width as int) == (width as int) * (height as int))
                        by (nonlinear_arith);
                }
                let idx = (y as usize) * (width as usize) + (x as usize);
                self.image[idx] = px;
                proof {
                    let w = width as int;
                    let h = height as int;
                    assert forall|xp: int, yp: int|
                        0 <= xp < x && 0 <= yp < height implies pixel_matches(
                        #[trigger] self.image@[yp * width + xp],
                        shade_pixel_s(self.scene, xp, yp),
                    ) by {
                        assert(0 <= yp * w + xp < w * h) by (nonlinear_arith)
                            requires
                                0 <= xp < w && 0 <= yp < h && w > 0,
                        ;
                        if yp * w + xp == (y as int) * w + (x as int) {
                            lemma_index_unique(w, xp, yp, x as int, y as int);
                        }
                    }
                    assert forall|yp: int| 0 <= yp < y + 1 implies pixel_matches(
                        #[trigger] self.image@[yp * width + x],
                        shade_pixel_s(self.scene, x as int, yp),
                    ) by {
                        assert(0 <= yp * w + x < w * h) by (nonlinear_arith)
                            requires
                                0 <= (x as int) < w && 0 <= yp < h && w > 0,
                        ;
                        if yp < y {
                            if yp * w + (x as int) == (y as int) * w + (x as int) {
                                lemma_index_unique(w, x as int, yp, x as int, y as int);
                            }
                        }
                    }
                }
                y = y + 1;
            }
            proof {
                let w = width as int;
                assert forall|xp: int, yp: int|
                    0 <= xp < x + 1 && 0 <= yp < height implies pixel_matches(
                    #[trigger] self.image@[yp * width + xp],
                    shade_pixel_s(self.scene, xp, yp),
                ) by {
                    if xp == x {
                        assert(pixel_matches(self.image@[yp * w + x], shade_pixel_s(self.scene,
                            x as int, yp)));
                    }
                }
            }
            x = x + 1;
        }
    }
}

/// Rendering is a pure function of the scene: two buffers that both satisfy
/// the rendering relation are identical, bit for bit.
pub proof fn lemma_render_deterministic(s: Scene, buf1: Seq<Pixel>, buf2: Seq<Pixel>)
    requires
        s.wf(),
        rendered(s, buf1),
        rendered(s, buf2),
    ensures
        buf1 == buf2,
{
    assert forall|i: int| 0 <= i < buf1.len() implies buf1[i] == buf2[i] by {
        let w = s.width as int;
        let x = i % w;
        let y = i / w;
        vstd::arithmetic::div_mod::lemma_fundamental_div_mod(i, w);
        vstd::arithmetic::div_mod::lemma_mod_division_less_than_divisor(i, w);
        vstd::arithmetic::div_mod::lemma_div_pos_is_pos(i, w);
        assert(y < s.height) by (nonlinear_arith)
            requires
                i == w * y + x && 0 <= x < w && i < w * (s.height as int) && 0 <= y && w > 0,
        ;
        assert(i < w * (s.height as int)) by (nonlinear_arith)
            requires
                i < (s.width as int) * (s.height as int) && w == s.width as int,
        ;
        assert(pixel_matches(buf1[y * w + x], shade_pixel_s(s, x, y)));
        assert(pixel_matches(buf2[y * w + x], shade_pixel_s(s, x, y)));
    }
    assert(buf1 =~= buf2);
}

/// A pixel whose primary ray hits nothing is exactly the scene's background
/// color, with no lighting applied.
pub proof fn lemma_miss_is_background(s: Scene, x: int, y: int)
    requires
        trace_s(s, camera_v3(), prime_dir_s(x, y, s)) is None,
    ensures
        shade_pixel_s(s, x, y) == s.background@,
{
}

/// A scene without primitives is degenerate but valid: every pixel is the
/// flat background color.
pub proof fn lemma_empty_scene_is_flat(s: Scene, x: int, y: int)
    requires
        s.shapes@.len() == 0,
    ensures
        shade_pixel_s(s, x, y) == s.background@,
{
}

/// Builds the demonstration scene: three spheres above a gray floor plane,
/// lit by two directional lights and one point light, under a sky-blue
/// background and a 90 degree field of view.
pub fn make_scene() -> (r: Scene)
    ensures
        r.wf(),
        r.width == 800,
        r.height == 600,
        r.fov_adjustment == SCALE,
        r.shapes@.len() == 4,
        r.lights@.len() == 3,
{
    let background = Color::rgb(0, 26214, 52428);
    let light1 = Vector3::new(-13107, -58982, -52429);
    let light2 = Vector3::new(13107, -58982, -52429);
    proof {
        crate::vec3::lemma_sqlen_nonneg(light1@);
        crate::vec3::lemma_sqlen_nonneg(light2@);
        assert(crate::fixed::fmul_s(-58982, -58982) >= 1);
        crate::vec3::lemma_vnorm_bound(light1@);
        crate::vec3::lemma_vnorm_bound(light2@);
    }
    let lights: Vec<Light> = vec![
        Light::Directional(
            DirectionalLight { direction: light1.normalize(), intensity: 65536 },
        ),
        Light::Directional(
            DirectionalLight { direction: light2.normalize(), intensity: 65536 },
        ),
        Light::Spherical(
            SphericalLight { point: Vector3::new(-6554, -65536, 0), intensity: 13107200 },
        ),
    ];
    let shapes: Vec<Primitive> = vec![
        Primitive {
            shape: Shape::Sphere(
                Sphere { center: Vector3::new(-111411, -45875, -458752), radius: 65536 },
            ),
            surface: Surface { color: Color::rgb(65536, 26214, 26214), albedo: 65536 },
        },
        Primitive {
            shape: Shape::Sphere(
                Sphere { center: Vector3::new(0, 0, -327680), radius: 65536 },
            ),
            surface: Surface { color: Color::rgb(26214, 65536, 26214), albedo: 65536 },
        },
        Primitive {
            shape: Shape::Sphere(
                Sphere { center: Vector3::new(65536, 65536, -262144), radius: 78643 },
            ),
            surface: Surface { color: Color::rgb(26214, 26214, 65536), albedo: 58982 },
        },
        Primitive {
            shape: Shape::Plane(
                Plane {
                    origin: Vector3::new(0, -393216, 0),
                    normal: Vector3::new(0, 65536, 0),
                },
            ),
            surface: Surface { color: Color::rgb(32768, 32768, 32768), albedo: 65536 },
        },
    ];
    Scene {
        width: 800,
        height: 600,
        fov_adjustment: SCALE,
        shapes,
        lights,
        shadow_bias: 66,
        background,
    }
}

} // verus!
