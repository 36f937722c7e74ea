use pathtracer::axis::AxisAlignment;
use pathtracer::axis_aligned_rect::AxisAlignedRect;
use pathtracer::color64::Color64;
use pathtracer::hittables::HitRecord;
use pathtracer::materials::{Bend, Dielectric, DiffuseLight, Lambertian, Material, Metal, ScatterRecord};
use pathtracer::point64::Point64;
use pathtracer::raster::Rgb;
use pathtracer::ray::{Bounce, Path, Ray, Share, MAX_DEPTH};
use pathtracer::render::{output_row, total_pixels, Assembly, Progress};
use pathtracer::scalar::{ONE, ZERO};
use pathtracer::textures::{Checker, SolidColor};

fn scalar(x: f64) -> i64 {
    let bits = x.to_bits();
    let magnitude = (bits & 0x7FFF_FFFF_FFFF_FFFF) as i64;
    if bits >> 63 == 1 {
        -magnitude
    } else {
        magnitude
    }
}

fn point(x: f64, y: f64, z: f64) -> Point64 {
    Point64::new(scalar(x), scalar(y), scalar(z))
}

fn ray_in() -> Ray {
    Ray { origin: point(0., 0., 0.), direction: point(0., 0., -1.), exposure_time: scalar(0.25) }
}

fn hit() -> HitRecord {
    HitRecord::new(
        scalar(2.0),
        scalar(-1.0),
        point(0., 0., -2.),
        point(0., 0., 1.),
        0,
        (scalar(0.5), scalar(0.5)),
    )
}

fn onward(attenuation: Color64, direction: Point64) -> Option<ScatterRecord> {
    Some(ScatterRecord {
        hit_record: hit(),
        attenuation,
        scattered: Ray { origin: point(0., 0., -2.), direction, exposure_time: scalar(0.25) },
    })
}

#[test]
fn a_matt_surface_scatters_along_the_given_direction() {
    let matt = Lambertian { albedo: 0 };
    let color = Color64::new(scalar(0.4), scalar(0.2), scalar(0.1));
    let direction = point(0.3, -0.2, 1.4);
    assert_eq!(matt.scatter(&ray_in(), &hit(), color, direction), onward(color, direction));
}

#[test]
fn a_matt_surface_falls_back_to_the_normal() {
    let matt = Lambertian { albedo: 0 };
    let color = Color64::gray(scalar(0.5));
    let degenerate = point(1e-9, 0.0, 1e-12);
    assert_eq!(
        matt.scatter(&ray_in(), &hit(), color, degenerate),
        onward(color, point(0., 0., 1.))
    );
}

#[test]
fn a_metal_scatters_only_rays_that_leave_the_surface() {
    let metal = Metal { albedo: Color64::new(scalar(0.7), scalar(0.6), scalar(0.5)), fuzz: ZERO };
    let direction = point(0.1, 0.0, 1.0);
    assert_eq!(
        metal.scatter(&ray_in(), &hit(), direction, scalar(1.0)),
        onward(metal.albedo, direction)
    );
    assert_eq!(metal.scatter(&ray_in(), &hit(), direction, scalar(1e-300)), onward(metal.albedo, direction));
    assert_eq!(metal.scatter(&ray_in(), &hit(), direction, scalar(0.0)), None);
    assert_eq!(metal.scatter(&ray_in(), &hit(), direction, scalar(-0.5)), None);
}

#[test]
fn a_quantity_that_is_no_number_decides_as_a_comparison_that_fails() {
    for no_number in [scalar(f64::NAN), scalar(-f64::NAN)] {
        // The normal is reversed unless the ray is known to come from outside.
        let record =
            HitRecord::new(scalar(2.0), no_number, point(0., 0., -2.), point(0., 0., 1.), 0, (0, 0));
        assert!(!record.front_face);
        assert_eq!(record.normal, point(0., 0., -1.));
        // A metal scatters only what is known to leave it.
        let metal = Metal::new(Color64::gray(scalar(0.5)), no_number);
        assert_eq!(metal.fuzz, ONE);
        assert_eq!(metal.scatter(&ray_in(), &hit(), point(0., 1., 1.), no_number), None);
        // A checker takes the even texture.
        assert_eq!(Checker { odd: 1, even: 2 }.value(no_number), 2);
        // Clear matter lets pass what is not known to be reflected.
        let glass = Dielectric { index_of_refraction: scalar(1.5) };
        let lost = Bend { ratio_sine: no_number, reflectance: no_number, ..bend(0.5, 0.5, 0.5) };
        assert_eq!(
            glass.scatter(&ray_in(), &hit(), &lost),
            onward(Color64::white(), point(0., 0., -1.))
        );
        let undrawn = Bend { draw: no_number, ..bend(0.5, 0.9, 0.5) };
        assert_eq!(
            glass.scatter(&ray_in(), &hit(), &undrawn),
            onward(Color64::white(), point(0., 0., -1.))
        );
    }
}

#[test]
fn a_metal_is_no_fuzzier_than_one() {
    let albedo = Color64::gray(scalar(0.5));
    assert_eq!(Metal::new(albedo, scalar(0.3)).fuzz, scalar(0.3));
    assert_eq!(Metal::new(albedo, scalar(1.0)).fuzz, scalar(1.0));
    assert_eq!(Metal::new(albedo, scalar(7.0)).fuzz, scalar(1.0));
    assert_eq!(Metal::new(albedo, scalar(7.0)).albedo, albedo);
}

fn bend(ratio_sine: f64, reflectance: f64, draw: f64) -> Bend {
    Bend {
        ratio_sine: scalar(ratio_sine),
        reflectance: scalar(reflectance),
        draw: scalar(draw),
        reflected: point(0., 0., 1.),
        refracted: point(0., 0., -1.),
    }
}

#[test]
fn clear_matter_reflects_what_cannot_pass_and_what_the_draw_reflects() {
    let glass = Dielectric { index_of_refraction: scalar(1.5) };
    let white = Color64::white();
    let reflected = onward(white, point(0., 0., 1.));
    let refracted = onward(white, point(0., 0., -1.));
    assert_eq!(glass.scatter(&ray_in(), &hit(), &bend(1.2, 0.0, 0.9)), reflected);
    assert_eq!(glass.scatter(&ray_in(), &hit(), &bend(0.6, 0.5, 0.4)), reflected);
    assert_eq!(glass.scatter(&ray_in(), &hit(), &bend(0.6, 0.5, 0.5)), refracted);
    assert_eq!(glass.scatter(&ray_in(), &hit(), &bend(1.0, 0.04, 0.9)), refracted);
    assert_eq!(glass.scatter(&ray_in(), &hit(), &bend(1.0000000000000002, 0.04, 0.9)), reflected);
}

#[test]
fn clear_matter_passes_on_all_light() {
    let glass = Dielectric { index_of_refraction: scalar(1.5) };
    for b in [bend(1.2, 0.0, 0.9), bend(0.6, 0.5, 0.5)] {
        let record = glass.scatter(&ray_in(), &hit(), &b).unwrap();
        assert_eq!(record.attenuation, Color64::new(scalar(1.0), scalar(1.0), scalar(1.0)));
    }
}

#[test]
fn the_refraction_ratio_depends_on_the_side() {
    let glass = Dielectric { index_of_refraction: scalar(1.5) };
    assert_eq!(glass.refraction_ratio(true, scalar(1.0 / 1.5)), scalar(1.0 / 1.5));
    assert_eq!(glass.refraction_ratio(false, scalar(1.0 / 1.5)), scalar(1.5));
}

#[test]
fn only_lights_emit() {
    let sampled = Color64::new(scalar(15.0), scalar(15.0), scalar(15.0));
    let light = DiffuseLight { emitter: 2 };
    assert_eq!(light.scatter(&ray_in(), &hit()), None);
    assert_eq!(light.emitted(sampled), sampled);
    assert_eq!(Material::DiffuseLight(light).emitted(sampled), sampled);
    let black = Color64::new(ZERO, ZERO, ZERO);
    assert_eq!(Color64::black(), black);
    assert_eq!(Material::Lambertian(Lambertian { albedo: 1 }).emitted(sampled), black);
    assert_eq!(Material::Metal(Metal::new(sampled, ZERO)).emitted(sampled), black);
    assert_eq!(Material::Dielectric(Dielectric { index_of_refraction: ONE }).emitted(sampled), black);
}

#[test]
fn materials_name_the_texture_they_are_coloured_by() {
    assert_eq!(Material::Lambertian(Lambertian { albedo: 4 }).texture(), Some(4));
    assert_eq!(Material::DiffuseLight(DiffuseLight { emitter: 6 }).texture(), Some(6));
    assert_eq!(Material::Metal(Metal::new(Color64::white(), ZERO)).texture(), None);
    assert_eq!(Material::Dielectric(Dielectric { index_of_refraction: ONE }).texture(), None);
}

#[test]
fn a_checker_takes_the_odd_texture_where_the_sines_are_negative() {
    let checker = Checker { odd: 1, even: 2 };
    assert_eq!(checker.value(scalar(-0.3)), 1);
    assert_eq!(checker.value(scalar(-1e-300)), 1);
    assert_eq!(checker.value(scalar(0.0)), 2);
    assert_eq!(checker.value(scalar(-0.0)), 2);
    assert_eq!(checker.value(scalar(0.7)), 2);
    let solid = SolidColor { color: Color64::gray(scalar(0.9)) };
    assert_eq!(solid.value(), Color64::gray(scalar(0.9)));
}

#[test]
fn colours_are_read_channel_by_channel() {
    let c = Color64::new(1, 2, 3);
    assert_eq!((c.r(), c.g(), c.b()), (1, 2, 3));
    assert_eq!(Color64::gray(5), Color64::new(5, 5, 5));
    assert_eq!(Color64::white(), Color64::new(ONE, ONE, ONE));
}

#[test]
fn a_ray_that_meets_nothing_takes_the_background() {
    let mut path = ray_in().color_in_world();
    assert!(path.is_live());
    assert_eq!(path.bounce(Bounce::Miss), Share::Background);
    assert!(!path.is_live());
    assert_eq!(path.bounce(Bounce::Miss), Share::Black);
}

#[test]
fn a_ray_aimed_at_a_light_takes_what_the_light_emits_and_ends() {
    let mut path = ray_in().color_in_world();
    assert_eq!(path.bounce(Bounce::Absorbed), Share::Emitted);
    assert!(!path.is_live());
    assert_eq!(path.depth, MAX_DEPTH);
}

#[test]
fn a_path_is_given_up_after_fifty_bounces() {
    let mut path: Path = ray_in().color_in_world();
    let next = Ray { origin: point(1., 1., 1.), direction: point(0., 1., 0.), exposure_time: scalar(0.25) };
    let mut traced = 0;
    while path.is_live() {
        assert_eq!(path.bounce(Bounce::Scattered(next)), Share::EmittedAndOnward);
        assert_eq!(path.ray(), next);
        traced += 1;
    }
    assert_eq!(traced, 50);
    assert_eq!(path.bounce(Bounce::Scattered(next)), Share::Black);
    assert_eq!(path.bounce(Bounce::Absorbed), Share::Black);
}

#[test]
fn a_path_looks_for_surfaces_from_a_thousandth_to_infinity() {
    let path = ray_in().color_in_world();
    assert_eq!(path.window(), (scalar(0.001), scalar(f64::INFINITY)));
}

#[test]
fn a_path_follows_the_scattered_ray() {
    let mut path = ray_in().color_in_world();
    assert_eq!(path.ray(), ray_in());
    let next = Ray { origin: point(0., 0., -2.), direction: point(0., 1., 0.), exposure_time: scalar(0.25) };
    path.bounce(Bounce::Scattered(next));
    assert_eq!(path.ray(), next);
    assert_eq!(path.depth, MAX_DEPTH - 1);
    path.bounce(Bounce::Miss);
    assert_eq!(path.ray(), next);
}

#[test]
fn sampled_rows_are_turned_upside_down() {
    assert_eq!(output_row(540, 0), 539);
    assert_eq!(output_row(540, 539), 0);
    assert_eq!(output_row(1, 0), 0);
    for y in 0..7 {
        assert_eq!(output_row(7, output_row(7, y)), y);
    }
    assert_eq!(total_pixels(960, 540), 518400);
    assert_eq!(total_pixels(0, 540), 0);
}

#[test]
fn a_picture_is_finished_by_its_last_pixel_in_whatever_order() {
    let mut assembly = Assembly::new(3, 2);
    assert!(!assembly.is_complete());
    let red = Rgb { r: 200, g: 0, b: 0 };
    let none = Progress { scanlines_done: None, finished: false };
    assert_eq!(assembly.receive(2, 1, red), none);
    assert_eq!(assembly.receive(0, 0, red), none);
    assert_eq!(
        assembly.receive(1, 1, red),
        Progress { scanlines_done: Some(1), finished: false }
    );
    assert_eq!(assembly.receive(1, 0, red), none);
    assert_eq!(assembly.receive(0, 1, red), none);
    assert!(!assembly.is_complete());
    assert_eq!(
        assembly.receive(2, 0, Rgb { r: 1, g: 2, b: 3 }),
        Progress { scanlines_done: Some(2), finished: true }
    );
    assert!(assembly.is_complete());
    let image = assembly.into_image();
    assert_eq!(image.get_pixel(2, 0), Rgb { r: 1, g: 2, b: 3 });
    assert_eq!(image.get_pixel(1, 1), red);
}

fn number(s: i64) -> f64 {
    if s < 0 {
        -f64::from_bits((-s) as u64)
    } else {
        f64::from_bits(s as u64)
    }
}

/// The meeting of the ray from `origin` along `direction` with the sphere
/// round `center`, as the library picks it from the roots worked out here.
fn meet_sphere(center: [f64; 3], radius: f64, origin: [f64; 3], direction: [f64; 3]) -> Option<HitRecord> {
    let dot = |a: [f64; 3], b: [f64; 3]| a[0] * b[0] + a[1] * b[1] + a[2] * b[2];
    let oc = [origin[0] - center[0], origin[1] - center[1], origin[2] - center[2]];
    let a = dot(direction, direction);
    let half_b = dot(oc, direction);
    let c = dot(oc, oc) - radius * radius;
    let discriminant = half_b * half_b - a * c;
    let roots = pathtracer::sphere::Roots {
        discriminant: scalar(discriminant),
        root_one: scalar((-half_b - discriminant.sqrt()) / a),
        root_two: scalar((-half_b + discriminant.sqrt()) / a),
    };
    let path = ray_in().color_in_world();
    let (min_value, max_value) = path.window();
    let root = number(roots.is_hit_by(min_value, max_value)?);
    let at = [
        origin[0] + root * direction[0],
        origin[1] + root * direction[1],
        origin[2] + root * direction[2],
    ];
    let normal = [
        (at[0] - center[0]) / radius,
        (at[1] - center[1]) / radius,
        (at[2] - center[2]) / radius,
    ];
    Some(HitRecord::new(
        scalar(root),
        scalar(dot(direction, normal)),
        point(at[0], at[1], at[2]),
        point(normal[0], normal[1], normal[2]),
        0,
        (scalar(0.0), scalar(0.0)),
    ))
}

#[test]
fn a_single_sphere_is_seen_at_the_centre_of_the_picture_and_missed_at_its_corner() {
    let center = [0., 0., -1.];
    // Straight ahead, through the middle of the picture.
    let hit = meet_sphere(center, 0.5, [0., 0., 0.], [0., 0., -1.]).unwrap();
    assert_eq!(number(hit.value), 0.5);
    assert!(hit.front_face);
    assert_eq!(hit.normal, point(0., 0., 1.));
    let shade = |n: i64| 0.5 * (number(n) + 1.0);
    assert_eq!(
        (shade(hit.normal.x), shade(hit.normal.y), shade(hit.normal.z)),
        (0.5, 0.5, 1.0)
    );
    // Through the lower left corner of a picture twice as wide as high.
    let corner = [-2., -1., -1.];
    assert_eq!(meet_sphere(center, 0.5, [0., 0., 0.], corner), None);
    let mut path = ray_in().color_in_world();
    assert_eq!(path.bounce(Bounce::Miss), Share::Background);
    assert!(!path.is_live());
}

#[test]
fn a_ray_from_inside_a_sphere_meets_its_back_face() {
    let hit = meet_sphere([0., 0., 0.], 2.0, [0., 0., 0.], [0., 0., -1.]).unwrap();
    assert_eq!(number(hit.value), 2.0);
    assert!(!hit.front_face);
    assert_eq!(hit.normal, point(0., 0., 1.));
}

#[test]
fn a_ray_aimed_at_the_light_of_the_box_brings_back_its_colour() {
    let lamp = DiffuseLight { emitter: 0 };
    let light = AxisAlignedRect {
        material: 0,
        min: (scalar(213.), scalar(227.)),
        max: (scalar(343.), scalar(332.)),
        axis_value: scalar(554.),
        axis_alignment: AxisAlignment::Y,
    };
    let origin = [278., 278., -800.];
    let aim = [278., 554., 279.5];
    let direction = [aim[0] - origin[0], aim[1] - origin[1], aim[2] - origin[2]];
    let mut path = Ray {
        origin: point(origin[0], origin[1], origin[2]),
        direction: point(direction[0], direction[1], direction[2]),
        exposure_time: scalar(0.),
    }
    .color_in_world();
    let (min_value, max_value) = path.window();
    let t = (554. - origin[1]) / direction[1];
    let (x, z) = (origin[0] + t * direction[0], origin[2] + t * direction[2]);
    assert!(light.is_hit_by(scalar(t), scalar(x), scalar(z), min_value, max_value));
    let record = HitRecord::new(
        scalar(t),
        scalar(direction[2]),
        point(x, 554., z),
        point(0., 0., 1.),
        light.material,
        (scalar(0.5), scalar(0.5)),
    );
    assert_eq!(lamp.scatter(&path.ray(), &record), None);
    assert_eq!(path.bounce(Bounce::Absorbed), Share::Emitted);
    let emission = Color64::gray(scalar(15.));
    assert_eq!(Material::DiffuseLight(lamp).emitted(emission), emission);
    assert!(!path.is_live());
    // A ray that passes beside the light is not its business.
    assert!(!light.is_hit_by(scalar(t), scalar(200.), scalar(z), min_value, max_value));
}

#[test]
fn a_ray_that_is_swallowed_in_the_dark_brings_back_nothing() {
    let black = Color64::black();
    // A metal that the ray does not leave swallows it, and gives off nothing.
    let metal = Metal { albedo: Color64::gray(scalar(0.8)), fuzz: ZERO };
    let mut path = ray_in().color_in_world();
    assert_eq!(metal.scatter(&path.ray(), &hit(), point(0., 0., -1.), scalar(-1.0)), None);
    assert_eq!(Material::Metal(metal).emitted(Color64::gray(scalar(0.8))), black);
    assert_eq!(path.bounce(Bounce::Absorbed), Share::Emitted);
    assert!(!path.is_live());
    assert_eq!(path.bounce(Bounce::Miss), Share::Black);
}

#[test]
fn matt_and_metal_surfaces_pass_on_no_more_than_all_light() {
    let within = |c: Color64| [c.r(), c.g(), c.b()].iter().all(|&s| ZERO <= s && s <= ONE);
    let colors = [
        Color64::new(scalar(0.65), scalar(0.05), scalar(0.05)),
        Color64::gray(scalar(0.73)),
        Color64::black(),
        Color64::white(),
    ];
    for color in colors {
        let matt = Lambertian { albedo: 0 };
        let scattered = matt.scatter(&ray_in(), &hit(), color, point(0., 1., 1.)).unwrap();
        assert!(within(scattered.attenuation));
        let metal = Metal::new(color, scalar(0.3));
        let scattered = metal.scatter(&ray_in(), &hit(), point(0., 1., 1.), scalar(0.5)).unwrap();
        assert!(within(scattered.attenuation));
    }
    // The colour of a light is no such colour, and a metal of it passes on too much.
    let glaring = Metal::new(Color64::gray(scalar(15.)), ZERO);
    let scattered = glaring.scatter(&ray_in(), &hit(), point(0., 1., 1.), scalar(0.5)).unwrap();
    assert!(!within(scattered.attenuation));
}
