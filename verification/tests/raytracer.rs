use crab_ray::color::Color;
use crab_ray::render::{make_scene, Renderer};
use crab_ray::shade::Interaction;
use crab_ray::tracer::{
    DirectionalLight, Light, Plane, Primitive, Ray, Scene, Shape, Sphere, SphericalLight, Surface,
};
use crab_ray::vec3::Vector3;

const S: i64 = 65536;

fn gray_surface() -> Surface {
    Surface { color: Color::rgb(32768, 32768, 32768), albedo: S }
}

fn sphere_prim(x: i64, y: i64, z: i64, radius: i64) -> Primitive {
    Primitive {
        shape: Shape::Sphere(Sphere { center: Vector3::new(x, y, z), radius }),
        surface: gray_surface(),
    }
}

fn scene_with(shapes: Vec<Primitive>, lights: Vec<Light>, width: u32, height: u32) -> Scene {
    Scene {
        width,
        height,
        fov_adjustment: S,
        shapes,
        lights,
        shadow_bias: 66,
        background: Color::rgb(0, 26214, 52428),
    }
}

/// The primary ray through the center pixel of an 800x600, 90-degree view
/// must hit a unit sphere five units down the axis, and the normal at the
/// hit point must be a unit vector pointing back at the camera.
#[test]
fn center_pixel_hits_centered_sphere() {
    let scene = scene_with(vec![sphere_prim(0, 0, -5 * S, S)], vec![], 800, 600);
    let ray = Ray::new_prime(400, 300, &scene);
    let hit = scene.trace(&ray).expect("center ray must hit the sphere");
    assert_eq!(hit.object, 0);
    // The hit is about four units away.
    assert!((hit.distance - 4 * S).abs() < S / 100);
    let interaction = hit.as_interaction(&ray, &scene);
    let n = interaction.surface_norm;
    // Unit length, pointing toward the camera: approximately (0, 0, 1).
    assert!(n.x.abs() < S / 100);
    assert!(n.y.abs() < S / 100);
    assert!((n.z - S).abs() < S / 100);
    let len_sq = (n.x as i128).pow(2) + (n.y as i128).pow(2) + (n.z as i128).pow(2);
    let unit_sq = (S as i128) * (S as i128);
    assert!((len_sq - unit_sq).abs() < unit_sq / 50);
}

/// A ray exactly parallel to a plane (direction dot normal == 0) intersects
/// nothing, whatever its origin.
#[test]
fn parallel_ray_misses_plane() {
    let plane = Plane { origin: Vector3::new(0, -6 * S, 0), normal: Vector3::new(0, S, 0) };
    for &(ox, oy, oz) in
        &[(0i64, 0i64, 0i64), (5 * S, 3 * S, -7 * S), (-S, -5 * S, S), (123, -456, 789)]
    {
        let ray = Ray {
            origin: Vector3::new(ox, oy, oz),
            direction: Vector3::new(S, 0, 0),
        };
        assert!(plane.intersect(&ray).is_none());
    }
}

/// With overlapping spheres hit at distances three and five, the trace
/// returns the nearer one.
#[test]
fn trace_returns_nearest_hit() {
    let scene = scene_with(
        vec![sphere_prim(0, 0, -6 * S, S), sphere_prim(0, 0, -4 * S, S)],
        vec![],
        8,
        6,
    );
    let ray = Ray { origin: Vector3::new(0, 0, 0), direction: Vector3::new(0, 0, -S) };
    let hit = scene.trace(&ray).expect("ray down the axis must hit");
    assert_eq!(hit.object, 1);
    assert_eq!(hit.distance, 3 * S);
}

/// On an exact tie the first primitive in the scene wins.
#[test]
fn trace_tie_prefers_first() {
    let scene = scene_with(
        vec![sphere_prim(0, 0, -4 * S, S), sphere_prim(0, 0, -4 * S, S)],
        vec![],
        8,
        6,
    );
    let ray = Ray { origin: Vector3::new(0, 0, 0), direction: Vector3::new(0, 0, -S) };
    let hit = scene.trace(&ray).expect("ray down the axis must hit");
    assert_eq!(hit.object, 0);
    assert_eq!(hit.distance, 3 * S);
}

/// A spherical light is occluded only by a hit nearer than the light: an
/// occluder beyond the light leaves power positive, one before it forces
/// exactly zero.
#[test]
fn spherical_light_occlusion_depends_on_distance() {
    // Interaction on the camera-facing pole of a sphere at (0, 0, -4).
    let inter = Interaction {
        point: Vector3::new(0, 0, -4 * S),
        surface_norm: Vector3::new(0, 0, S),
    };
    let light = Light::Spherical(SphericalLight {
        point: Vector3::new(0, 0, 0),
        intensity: 200 * S,
    });

    // Occluder between the surface and the light: power is exactly zero.
    let blocked = scene_with(vec![sphere_prim(0, 0, -2 * S, S / 2)], vec![], 8, 6);
    assert_eq!(light.light_power(&inter, &blocked), 0);

    // Occluder beyond the light: it does not occlude, power stays positive.
    let open = scene_with(vec![sphere_prim(0, 0, 2 * S, S / 2)], vec![], 8, 6);
    assert!(light.light_power(&inter, &open) > 0);
}

/// A directional light is occluded by any shadow-ray hit, even one farther
/// than any light could be.
#[test]
fn directional_light_any_hit_occludes() {
    let inter = Interaction {
        point: Vector3::new(0, 0, -4 * S),
        surface_norm: Vector3::new(0, 0, S),
    };
    let light = Light::Directional(DirectionalLight {
        direction: Vector3::new(0, 0, -S),
        intensity: S,
    });
    let blocked = scene_with(vec![sphere_prim(0, 0, 100 * S, S / 2)], vec![], 8, 6);
    assert_eq!(light.light_power(&inter, &blocked), 0);
    let open = scene_with(vec![], vec![], 8, 6);
    assert!(light.light_power(&inter, &open) > 0);
}

/// Rendering the same unmodified scene twice gives bit-identical buffers.
#[test]
fn render_is_deterministic() {
    let mut scene = make_scene();
    scene.width = 40;
    scene.height = 30;
    let mut r1 = Renderer::new(scene);
    r1.render();
    let first = r1.image.clone();
    r1.render();
    assert_eq!(first, r1.image);
}

/// Pixels whose primary ray hits nothing are exactly the background color.
#[test]
fn misses_are_background() {
    let scene = scene_with(vec![], vec![], 16, 12);
    let expected = scene.background.to_pixel();
    let mut renderer = Renderer::new(scene);
    renderer.render();
    assert_eq!(renderer.image.len(), 16 * 12);
    for px in &renderer.image {
        assert_eq!(*px, expected);
    }
}

/// Camera symmetry: the rays of a pixel and of its horizontal mirror have
/// exactly mirrored directions, and for a centered sphere the hit points
/// mirror exactly as well.
#[test]
fn camera_mirror_symmetry() {
    let scene = scene_with(vec![sphere_prim(0, 0, -5 * S, S)], vec![], 800, 600);
    for &(x, y) in &[(0u32, 0u32), (123, 300), (399, 299), (17, 580), (400, 300)] {
        let r1 = Ray::new_prime(x, y, &scene);
        let r2 = Ray::new_prime(800 - 1 - x, y, &scene);
        assert_eq!(r2.direction.x, -r1.direction.x);
        assert_eq!(r2.direction.y, r1.direction.y);
        assert_eq!(r2.direction.z, r1.direction.z);
        let h1 = scene.trace(&r1);
        let h2 = scene.trace(&r2);
        match (h1, h2) {
            (None, None) => {}
            (Some(a), Some(b)) => {
                assert_eq!(a.distance, b.distance);
                let p1 = a.as_interaction(&r1, &scene).point;
                let p2 = b.as_interaction(&r2, &scene).point;
                assert_eq!(p2.x, -p1.x);
                assert_eq!(p2.y, p1.y);
                assert_eq!(p2.z, p1.z);
            }
            _ => panic!("mirrored rays must agree on hitting the centered sphere"),
        }
    }
}

/// Without lights, a hit pixel sums no contributions: it displays as pure
/// black, while misses keep the background.
#[test]
fn no_lights_shade_black() {
    let scene = scene_with(vec![sphere_prim(0, 0, -5 * S, S)], vec![], 20, 16);
    let background = scene.background.to_pixel();
    let black = Color::black().to_pixel();
    let mut renderer = Renderer::new(scene);
    renderer.render();
    // The center pixel hits the sphere and comes out black.
    assert_eq!(renderer.image[8 * 20 + 10], black);
    for px in &renderer.image {
        assert!(*px == background || *px == black);
    }
}

/// The demonstration scene renders with some sphere pixels differing from
/// the background, and shadows make some lit pixels darker than others.
#[test]
fn demo_scene_renders() {
    let mut scene = make_scene();
    scene.width = 80;
    scene.height = 60;
    let background = scene.background.to_pixel();
    let mut renderer = Renderer::new(scene);
    renderer.render();
    let non_background = renderer.image.iter().filter(|p| **p != background).count();
    assert!(non_background > 0);
    for px in &renderer.image {
        assert_eq!(px.a, 255);
    }
}
