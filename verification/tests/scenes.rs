use cgmath::InnerSpace;
use cgmath::Vector3;
use software_graphics::lights::Light;
use software_graphics::objects::Sphere;
use software_graphics::properties::bg_color;
use software_graphics::properties::Color;
use software_graphics::properties::Material;
use software_graphics::ray_tracer::calculate_directional_light;
use software_graphics::ray_tracer::calculate_light_intensity;
use software_graphics::ray_tracer::closest_intersection;
use software_graphics::ray_tracer::intersect_ray_sphere;
use software_graphics::ray_tracer::ray_trace;
use software_graphics::ray_tracer::trace_ray;
use software_graphics::ray_tracer::Contribution;
use software_graphics::ray_tracer::TraceStep;
use software_graphics::rasterizer::clear_screen;
use software_graphics::scalar::Scalar;
use software_graphics::scene::Scene;
use software_graphics::serialization_defs::Vector3Def;
use software_graphics::state::PixelSurface;
use software_graphics::surface::Surface;
use std::cell::Cell;

// The arithmetic between the library's decisions, in machine floats.

fn s(value: f32) -> Scalar {
    Scalar { bits: value.to_bits() }
}

fn f(value: Scalar) -> f32 {
    f32::from_bits(value.bits)
}

fn v(value: &Vector3Def<Scalar>) -> Vector3<f32> {
    Vector3::new(f(value.x), f(value.y), f(value.z))
}

fn at(x: f32, y: f32, z: f32) -> Vector3Def<Scalar> {
    Vector3Def { x: s(x), y: s(y), z: s(z) }
}

fn light_of(r: f32, g: f32, b: f32, a: f32) -> Color<Scalar> {
    Color { r: s(r), g: s(g), b: s(b), a: s(a) }
}

fn roots(origin: &Vector3<f32>, direction: &Vector3<f32>, sphere: &Sphere) -> (Scalar, Scalar) {
    let radius = f(sphere.radius);
    let origin_sphere = origin - v(&sphere.center);
    let a = cgmath::dot(*direction, *direction);
    let b = 2.0 * cgmath::dot(origin_sphere, *direction);
    let c = cgmath::dot(origin_sphere, origin_sphere) - radius * radius;
    let discriminant = b * b - 4.0 * a * c;
    let t1 = (-b + discriminant.sqrt()) / (2.0 * a);
    let t2 = (-b - discriminant.sqrt()) / (2.0 * a);
    intersect_ray_sphere(s(discriminant), s(t1), s(t2))
}

fn cast(origin: &Vector3<f32>, direction: &Vector3<f32>, scene: &Scene) -> Vec<(Scalar, Scalar)> {
    scene.objects.iter().map(|sphere| roots(origin, direction, sphere)).collect()
}

fn reflect(normal: &Vector3<f32>, ray: &Vector3<f32>) -> Vector3<f32> {
    2.0 * normal * cgmath::dot(*normal, *ray) - ray
}

fn directional(
    direction: &Vector3<f32>,
    intensity: [f32; 4],
    normal: &Vector3<f32>,
    material: &Material,
    view: &Vector3<f32>,
) -> [f32; 4] {
    let mut added = [0.0f32; 4];
    let normal_dot_direction = cgmath::dot(*normal, *direction);
    let reflection = reflect(normal, direction);
    let reflection_dot_view = cgmath::dot(reflection, *view);
    let terms =
        calculate_directional_light(material, s(normal_dot_direction), s(reflection_dot_view));
    if terms.diffuse {
        let scale = normal_dot_direction / (normal.magnitude() * direction.magnitude());
        added = intensity.map(|channel| channel * scale);
    }
    if let Some(highlight) = terms.highlight {
        let scale = reflection_dot_view / (reflection.magnitude() * view.magnitude());
        let power = scale.powf(f(highlight.exponent));
        for channel in 0..4 {
            added[channel] += intensity[channel] * power;
        }
        added[3] = highlight.alpha as f32 / 255.0;
    }
    added
}

fn lighting(
    scene: &Scene,
    point: &Vector3<f32>,
    normal: &Vector3<f32>,
    material: &Material,
    view: &Vector3<f32>,
) -> [f32; 4] {
    let mut total = [0.0f32; 4];
    for light in scene.lights.iter() {
        let (direction, shadow_roots) = match light {
            Light::Directional { direction, .. } => {
                let direction = v(direction);
                (direction, cast(point, &direction, scene))
            }
            Light::Point { position, .. } => {
                let direction = v(position) - point;
                (direction, cast(point, &direction, scene))
            }
            Light::Ambient { .. } => (Vector3::new(0.0, 0.0, 0.0), Vec::new()),
        };
        let added = match calculate_light_intensity(light, &shadow_roots) {
            Contribution::Flat(i) => [f(i.r), f(i.g), f(i.b), f(i.a)],
            Contribution::Directed(i) => {
                directional(&direction, [f(i.r), f(i.g), f(i.b), f(i.a)], normal, material, view)
            }
        };
        for channel in 0..4 {
            total[channel] += added[channel];
        }
    }
    total
}

fn times(color: Color<u8>, factors: [f32; 4]) -> Color<u8> {
    Color {
        r: s(color.r as f32 * factors[0]),
        g: s(color.g as f32 * factors[1]),
        b: s(color.b as f32 * factors[2]),
        a: s(color.a as f32 * factors[3]),
    }
    .quantize()
}

fn shade(
    origin: &Vector3<f32>,
    direction: &Vector3<f32>,
    sphere: &Sphere,
    t: f32,
    scene: &Scene,
) -> (Color<u8>, Vector3<f32>, Vector3<f32>) {
    let point = origin + t * direction;
    let normal = (point - v(&sphere.center)).normalize();
    let light = lighting(scene, &point, &normal, &sphere.material, &(direction * -1.0));
    (times(sphere.get_color(), light), point, normal)
}

fn trace(
    origin: &Vector3<f32>,
    direction: &Vector3<f32>,
    min_distance: Scalar,
    max_distance: Scalar,
    scene: &Scene,
    depth: u32,
    rays: &Cell<u32>,
) -> Color<u8> {
    rays.set(rays.get() + 1);
    let ray_roots = cast(origin, direction, scene);
    match trace_ray(&ray_roots, min_distance, max_distance, scene, depth) {
        TraceStep::Miss { color } => color,
        TraceStep::Shade { sphere, t } => shade(origin, direction, &scene.objects[sphere], f(t), scene).0,
        TraceStep::Reflect { sphere, t, reflectiveness, min_distance, max_distance, depth } => {
            let (local, point, normal) = shade(origin, direction, &scene.objects[sphere], f(t), scene);
            let mirrored = reflect(&normal, &(direction * -1.0));
            let reflected = trace(&point, &mirrored, min_distance, max_distance, scene, depth, rays);
            let share = f(reflectiveness);
            times(local, [1.0 - share, 1.0 - share, 1.0 - share, 1.0])
                + times(reflected, [share, share, share, 1.0])
        }
    }
}

fn primary(x: u32, y: u32, width: u32, height: u32) -> Vector3<f32> {
    let centered_x = x as f32 - (width as f32 / 2.0);
    let centered_y = y as f32 - (height as f32 / 2.0);
    Vector3::new(centered_x / width as f32, centered_y / height as f32, 1.0)
}

fn render(scene: &Scene, surface: &mut PixelSurface) -> u32 {
    let width = surface.get_width();
    let height = surface.get_height();
    let rays = Cell::new(0);
    ray_trace(surface, |x, y, min_distance, max_distance, depth| {
        let origin = Vector3::new(0.0, 0.0, 0.0);
        trace(&origin, &primary(x, y, width, height), min_distance, max_distance, scene, depth, &rays)
    });
    rays.get()
}

fn pixel(surface: &PixelSurface, x: u32, y: u32) -> Color<u8> {
    let at = 4 * (y * surface.get_width() + x) as usize;
    let bytes = surface.get_pixels();
    Color { r: bytes[at], g: bytes[at + 1], b: bytes[at + 2], a: bytes[at + 3] }
}

fn matte_sphere(center: Vector3Def<Scalar>, radius: f32, color: Color<u8>) -> Sphere {
    Sphere { center, radius: s(radius), material: Material::Matte { color } }
}

fn mirror_sphere(center: Vector3Def<Scalar>, radius: f32, color: Color<u8>, share: f32) -> Sphere {
    Sphere {
        center,
        radius: s(radius),
        material: Material::Specular { color, specular: s(10.0), reflectiveness: s(share) },
    }
}

const RED: Color<u8> = Color { r: 200, g: 0, b: 0, a: 255 };

#[test]
fn a_ray_through_the_middle_of_a_sphere_enters_at_r_and_leaves_at_3r() {
    for radius in [0.5f32, 1.0, 2.0, 8.0, 1024.0] {
        let sphere = matte_sphere(at(0.0, 0.0, 0.0), radius, RED);
        let origin = Vector3::new(0.0, 0.0, -2.0 * radius);
        let (t1, t2) = roots(&origin, &Vector3::new(0.0, 0.0, 1.0), &sphere);
        let (near, far) = if f(t1) < f(t2) { (f(t1), f(t2)) } else { (f(t2), f(t1)) };
        assert_eq!(near, radius);
        assert_eq!(far, 3.0 * radius);
        assert_eq!(
            closest_intersection(&vec![(t1, t2)], s(0.0001), s(f32::INFINITY)),
            (Some(0), s(radius))
        );
    }
}

#[test]
fn a_ray_that_passes_a_sphere_has_infinite_roots() {
    let sphere = matte_sphere(at(0.0, 0.0, 0.0), 1.0, RED);
    for offset in [1.001f32, 1.5, 2.0, 100.0] {
        let origin = Vector3::new(offset, 0.0, -5.0);
        let pair = roots(&origin, &Vector3::new(0.0, 0.0, 1.0), &sphere);
        assert_eq!(pair, (s(f32::INFINITY), s(f32::INFINITY)));
        assert_eq!(
            closest_intersection(&vec![pair], s(0.0), s(f32::INFINITY)),
            (None, s(f32::INFINITY))
        );
    }
}

#[test]
fn a_sphere_that_fills_the_view_under_ambient_light_has_one_color() {
    let mut scene = Scene::new();
    scene.objects.push(matte_sphere(at(0.0, 0.0, 5.0), 3.0, RED));
    scene.lights.push(Light::Ambient { intensity: light_of(0.5, 0.5, 0.5, 1.0) });
    let mut surface = PixelSurface::new(8, 6);
    render(&scene, &mut surface);
    for y in 0..6 {
        for x in 0..8 {
            assert_eq!(pixel(&surface, x, y), Color { r: 100, g: 0, b: 0, a: 255 });
        }
    }
}

#[test]
fn pixels_beside_a_sphere_have_the_background_color() {
    let mut scene = Scene::new();
    scene.objects.push(matte_sphere(at(0.0, 0.0, 3.0), 1.0, RED));
    scene.lights.push(Light::Ambient { intensity: light_of(0.5, 0.5, 0.5, 1.0) });
    let mut surface = PixelSurface::new(16, 16);
    render(&scene, &mut surface);
    let mut covered = 0;
    for y in 0..16u32 {
        for x in 0..16u32 {
            // The ray through (dx, dy, 1) passes the center (0, 0, 3) at a distance
            // below the radius 1 where dx^2 + dy^2 < 1/8.
            let dx = (x as f64 - 8.0) / 16.0;
            let dy = (y as f64 - 8.0) / 16.0;
            let spread = dx * dx + dy * dy;
            if (spread - 0.125).abs() < 1.0e-3 {
                continue;
            }
            if spread < 0.125 {
                covered += 1;
                assert_eq!(pixel(&surface, x, y), Color { r: 100, g: 0, b: 0, a: 255 });
            } else {
                assert_eq!(pixel(&surface, x, y), bg_color());
            }
        }
    }
    assert!(covered > 50);
    assert_eq!(pixel(&surface, 8, 8), Color { r: 100, g: 0, b: 0, a: 255 });
    assert_eq!(pixel(&surface, 0, 0), Color { r: 10, g: 100, b: 10, a: 255 });
}

#[test]
fn an_empty_scene_is_all_background() {
    let mut surface = PixelSurface::new(4, 3);
    let rays = render(&Scene::new(), &mut surface);
    assert_eq!(rays, 12);
    let mut cleared = PixelSurface::new(4, 3);
    clear_screen(&mut cleared);
    assert_eq!(surface.get_pixels(), cleared.get_pixels());
}

fn shadow_scene(with_occluder: bool) -> Scene {
    let mut scene = Scene::new();
    scene.objects.push(matte_sphere(at(0.0, 0.0, 5.0), 1.0, Color { r: 200, g: 100, b: 50, a: 255 }));
    if with_occluder {
        scene.objects.push(matte_sphere(at(0.0, 1.5, 2.5), 0.5, RED));
    }
    scene.lights.push(Light::Ambient { intensity: light_of(0.2, 0.2, 0.2, 1.0) });
    scene.lights.push(Light::Point { position: at(0.0, 3.0, 1.0), intensity: light_of(0.6, 0.6, 0.6, 0.0) });
    scene
}

#[test]
fn a_point_behind_an_occluder_has_ambient_light_only() {
    let rays = Cell::new(0);
    let origin = Vector3::new(0.0, 0.0, 0.0);
    let forward = Vector3::new(0.0, 0.0, 1.0);
    let color = trace(&origin, &forward, s(1.0), s(f32::INFINITY), &shadow_scene(true), 3, &rays);
    assert_eq!(color, Color { r: 40, g: 20, b: 10, a: 255 });
}

#[test]
fn a_point_with_a_free_view_of_the_light_has_its_diffuse_term() {
    let rays = Cell::new(0);
    let origin = Vector3::new(0.0, 0.0, 0.0);
    let forward = Vector3::new(0.0, 0.0, 1.0);
    let color = trace(&origin, &forward, s(1.0), s(f32::INFINITY), &shadow_scene(false), 3, &rays);
    // 0.2 + 0.6 * cos(45 degrees) = 0.62426
    assert_eq!(color, Color { r: 124, g: 62, b: 31, a: 255 });
}

#[test]
fn an_occluder_beyond_a_point_light_casts_no_shadow() {
    let mut scene = shadow_scene(false);
    // on the line from the lit point (0, 0, 4) through the light, but past the light
    scene.objects.push(matte_sphere(at(0.0, 6.0, -2.0), 0.5, RED));
    let rays = Cell::new(0);
    let origin = Vector3::new(0.0, 0.0, 0.0);
    let forward = Vector3::new(0.0, 0.0, 1.0);
    let color = trace(&origin, &forward, s(1.0), s(f32::INFINITY), &scene, 3, &rays);
    assert_eq!(color, Color { r: 124, g: 62, b: 31, a: 255 });
}

#[test]
fn a_directional_light_is_blocked_however_far_the_occluder() {
    let mut scene = Scene::new();
    scene.objects.push(matte_sphere(at(0.0, 0.0, 5.0), 1.0, Color { r: 200, g: 100, b: 50, a: 255 }));
    scene.objects.push(matte_sphere(at(0.0, 600.0, -596.0), 0.5, RED));
    scene.lights.push(Light::Ambient { intensity: light_of(0.2, 0.2, 0.2, 1.0) });
    scene.lights.push(Light::Directional { direction: at(0.0, 3.0, -3.0), intensity: light_of(0.6, 0.6, 0.6, 0.0) });
    let rays = Cell::new(0);
    let origin = Vector3::new(0.0, 0.0, 0.0);
    let forward = Vector3::new(0.0, 0.0, 1.0);
    let color = trace(&origin, &forward, s(1.0), s(f32::INFINITY), &scene, 3, &rays);
    assert_eq!(color, Color { r: 40, g: 20, b: 10, a: 255 });
}

fn facing_mirrors() -> Scene {
    let mut scene = Scene::new();
    scene.objects.push(mirror_sphere(at(0.0, 0.0, 5.0), 1.0, Color { r: 200, g: 0, b: 0, a: 255 }, 1.0));
    scene.objects.push(mirror_sphere(at(0.0, 0.0, -5.0), 1.0, Color { r: 10, g: 20, b: 30, a: 255 }, 1.0));
    scene.lights.push(Light::Ambient { intensity: light_of(1.0, 1.0, 1.0, 1.0) });
    scene
}

#[test]
fn two_mirrors_that_face_each_other_end_after_three_reflections() {
    let scene = facing_mirrors();
    let rays = Cell::new(0);
    let origin = Vector3::new(0.0, 0.0, 0.0);
    let forward = Vector3::new(0.0, 0.0, 1.0);
    let color = trace(&origin, &forward, s(1.0), s(f32::INFINITY), &scene, 3, &rays);
    // the primary ray and three mirrored rays; the last meets the second sphere
    assert_eq!(rays.get(), 4);
    assert_eq!(color, Color { r: 10, g: 20, b: 30, a: 255 });
}

#[test]
fn two_mirrors_that_face_each_other_give_one_color_every_time() {
    let scene = facing_mirrors();
    let origin = Vector3::new(0.0, 0.0, 0.0);
    let forward = Vector3::new(0.0, 0.0, 1.0);
    let first = trace(&origin, &forward, s(1.0), s(f32::INFINITY), &scene, 3, &Cell::new(0));
    let second = trace(&origin, &forward, s(1.0), s(f32::INFINITY), &scene, 3, &Cell::new(0));
    assert_eq!(first, second);
}

#[test]
fn a_half_mirror_mixes_its_color_with_what_it_shows() {
    let mut scene = Scene::new();
    scene.objects.push(mirror_sphere(at(0.0, 0.0, 5.0), 1.0, Color { r: 200, g: 0, b: 0, a: 255 }, 0.5));
    scene.lights.push(Light::Ambient { intensity: light_of(1.0, 1.0, 1.0, 1.0) });
    let rays = Cell::new(0);
    let origin = Vector3::new(0.0, 0.0, 0.0);
    let forward = Vector3::new(0.0, 0.0, 1.0);
    let color = trace(&origin, &forward, s(1.0), s(f32::INFINITY), &scene, 3, &rays);
    // half of (200, 0, 0) and half of the background (10, 100, 10) behind the eye
    assert_eq!(rays.get(), 2);
    assert_eq!(color, Color { r: 105, g: 50, b: 5, a: 255 });
}

fn polished_scene() -> Scene {
    let mut scene = Scene::new();
    scene.objects.push(Sphere {
        center: at(0.0, 0.0, 5.0),
        radius: s(1.0),
        material: Material::Specular {
            color: Color { r: 100, g: 100, b: 100, a: 128 },
            specular: s(10.0),
            reflectiveness: s(0.0),
        },
    });
    // the light comes from where the eye is
    scene.lights.push(Light::Directional {
        direction: at(0.0, 0.0, -1.0),
        intensity: light_of(0.3, 0.3, 0.3, 1.0),
    });
    scene
}

#[test]
fn a_highlight_adds_the_whole_light_where_it_is_mirrored_into_the_eye() {
    let origin = Vector3::new(0.0, 0.0, 0.0);
    let forward = Vector3::new(0.0, 0.0, 1.0);
    let color =
        trace(&origin, &forward, s(1.0), s(f32::INFINITY), &polished_scene(), 0, &Cell::new(0));
    // diffuse 0.3 and specular 0.3 on (100, 100, 100); alpha 128 times 128 / 255
    assert_eq!(color, Color { r: 60, g: 60, b: 60, a: 64 });
}

#[test]
fn a_mirror_of_no_reflectiveness_keeps_its_color() {
    let origin = Vector3::new(0.0, 0.0, 0.0);
    let forward = Vector3::new(0.0, 0.0, 1.0);
    let rays = Cell::new(0);
    let color = trace(&origin, &forward, s(1.0), s(f32::INFINITY), &polished_scene(), 3, &rays);
    // the mirrored ray is traced all the same, and the two alphas add up
    assert_eq!(rays.get(), 2);
    assert_eq!(color, Color { r: 60, g: 60, b: 60, a: 255 });
}

fn busy_scene() -> Scene {
    let mut scene = shadow_scene(true);
    scene.objects.push(mirror_sphere(at(-2.0, 0.0, 6.0), 1.0, Color { r: 0, g: 0, b: 255, a: 255 }, 0.4));
    scene.objects.push(mirror_sphere(at(2.0, 0.0, 4.0), 1.0, Color { r: 255, g: 255, b: 0, a: 255 }, 0.8));
    scene.lights.push(Light::Directional { direction: at(1.0, 4.0, -4.0), intensity: light_of(0.3, 0.3, 0.3, 0.0) });
    scene
}

#[test]
fn rendering_twice_gives_the_same_bytes() {
    let scene = busy_scene();
    let mut first = PixelSurface::new(24, 16);
    let mut second = PixelSurface::new(24, 16);
    render(&scene, &mut first);
    render(&scene, &mut second);
    assert_eq!(first.get_pixels(), second.get_pixels());
    assert!(first.get_pixels().chunks(4).any(|p| p != [10, 100, 10, 255]));
}

#[test]
fn rendering_does_not_depend_on_what_the_surface_held() {
    let scene = busy_scene();
    let mut fresh = PixelSurface::new(24, 16);
    render(&scene, &mut fresh);
    let mut used = PixelSurface::new(24, 16);
    for y in 0..16 {
        for x in 0..24 {
            used.set_pixel(x, y, &Color { r: 1, g: 2, b: 3, a: 4 });
        }
    }
    render(&scene, &mut used);
    render(&scene, &mut used);
    assert_eq!(fresh.get_pixels(), used.get_pixels());
}

#[test]
fn rendering_traces_each_pixel_once_in_rows_from_the_top() {
    let order = std::cell::RefCell::new(Vec::new());
    let mut surface = PixelSurface::new(3, 2);
    ray_trace(&mut surface, |x, y, min_distance, max_distance, depth| {
        assert_eq!(min_distance, s(1.0));
        assert_eq!(max_distance, s(f32::INFINITY));
        assert_eq!(depth, 3);
        order.borrow_mut().push((x, y));
        Color { r: x as u8, g: y as u8, b: 7, a: 255 }
    });
    assert_eq!(*order.borrow(), vec![(0, 0), (1, 0), (2, 0), (0, 1), (1, 1), (2, 1)]);
    assert_eq!(
        surface.get_pixels(),
        [
            0u8, 0, 7, 255, 1, 0, 7, 255, 2, 0, 7, 255, //
            0, 1, 7, 255, 1, 1, 7, 255, 2, 1, 7, 255,
        ]
        .as_slice()
    );
}
