use pathtracer::args::{Preset, ProgramOptions};
use pathtracer::image_texture::ImageTexture;
use pathtracer::noise::NoiseType;
use pathtracer::perlin::{
    exchange, perlin_generate_perm, permute, place, PerlinGenerator, POINT_COUNT,
};
use pathtracer::ppm::{image_to_ppm, push_decimal};
use pathtracer::raster::{Raster, Rgb};
use pathtracer::worlds::{has_room, little_sphere, LittleSphere};

#[test]
fn a_generated_table_holds_every_number_once() {
    for _ in 0..20 {
        let mut table = perlin_generate_perm().to_vec();
        table.sort();
        assert_eq!(table, (0..POINT_COUNT).collect::<Vec<_>>());
    }
}

#[test]
fn a_generated_table_holds_no_number_at_its_own_place() {
    for _ in 0..20 {
        let table = perlin_generate_perm();
        assert!(table.iter().enumerate().all(|(place, &number)| place != number));
    }
    let generator = PerlinGenerator::new();
    for table in [generator.perm_x, generator.perm_y, generator.perm_z] {
        assert!(table.iter().enumerate().all(|(place, &number)| place != number));
        let mut sorted = table.to_vec();
        sorted.sort();
        assert_eq!(sorted, (0..POINT_COUNT).collect::<Vec<_>>());
    }
}

#[test]
fn a_generated_table_is_shuffled() {
    let ascending: Vec<usize> = (0..POINT_COUNT).collect();
    assert!((0..4).any(|_| perlin_generate_perm().to_vec() != ascending));
}

#[test]
fn permute_leaves_entries_beyond_its_reach_alone() {
    let mut table = [0usize; 256];
    for (i, entry) in table.iter_mut().enumerate() {
        *entry = 1000 + i;
    }
    permute(&mut table, 10);
    for i in 10..256 {
        assert_eq!(table[i], 1000 + i);
    }
    let mut head = table[..10].to_vec();
    head.sort();
    assert_eq!(head, (1000..1010).collect::<Vec<_>>());
    let mut untouched = [5usize; 256];
    permute(&mut untouched, 1);
    permute(&mut untouched, 0);
    assert_eq!(untouched, [5usize; 256]);
}

#[test]
fn permute_moves_every_entry_within_its_reach() {
    // Each entry changes places with one before it, so none stays put.
    for _ in 0..10 {
        let mut table = [0usize; 256];
        for (i, entry) in table.iter_mut().enumerate() {
            *entry = i;
        }
        permute(&mut table, 256);
        assert!(table.iter().enumerate().all(|(i, &entry)| entry != i));
    }
}

#[test]
fn two_entries_change_places() {
    let mut table = [0usize; 256];
    for (i, entry) in table.iter_mut().enumerate() {
        *entry = 10 * i;
    }
    exchange(&mut table, 255, 3);
    assert_eq!((table[255], table[3]), (30, 2550));
    exchange(&mut table, 7, 7);
    assert_eq!(table[7], 70);
    for i in (0..255).filter(|&i| i != 3) {
        assert_eq!(table[i], 10 * i);
    }
}

#[test]
fn permute_of_two_entries_exchanges_them() {
    let mut table = [9usize; 256];
    table[0] = 1;
    table[1] = 2;
    permute(&mut table, 2);
    assert_eq!((table[0], table[1]), (2, 1));
    assert!(table[2..].iter().all(|&entry| entry == 9));
}

#[test]
fn lattice_coordinates_wrap_round() {
    assert_eq!(place(0, 0), 0);
    assert_eq!(place(0, 1), 1);
    assert_eq!(place(255, 0), 255);
    assert_eq!(place(255, 1), 0);
    assert_eq!(place(256, 0), 0);
    assert_eq!(place(-1, 0), 255);
    assert_eq!(place(-1, 1), 0);
    assert_eq!(place(-257, 0), 255);
    assert_eq!(place(i32::MAX, 0), 255);
    assert_eq!(place(i32::MAX, 1), 0);
    assert_eq!(place(i32::MIN, 0), 0);
}

#[test]
fn corners_combine_the_three_tables() {
    let generator = PerlinGenerator::new();
    for (i, j, k) in [(0, 0, 0), (3, 250, -7), (255, 255, 255), (-1, -1, -1), (i32::MAX, 0, i32::MIN)] {
        let found = generator.corners(i, j, k);
        for di in 0..2 {
            for dj in 0..2 {
                for dk in 0..2 {
                    let expected = generator.perm_x[place(i, di)]
                        ^ generator.perm_y[place(j, dj)]
                        ^ generator.perm_z[place(k, dk)];
                    let at = (4 * di + 2 * dj + dk) as usize;
                    assert_eq!(found[at], expected);
                    assert!(found[at] < POINT_COUNT);
                }
            }
        }
    }
}

#[test]
fn noise_kinds_take_their_octaves() {
    assert_eq!(NoiseType::Perlin.octaves(), 1);
    assert_eq!(NoiseType::Turbulence.octaves(), 7);
    assert_eq!(NoiseType::Marble.octaves(), 7);
    assert!(NoiseType::Perlin.scales_sample_point());
    assert!(NoiseType::Turbulence.scales_sample_point());
    assert!(!NoiseType::Marble.scales_sample_point());
}

#[test]
fn decimal_digits_are_written_without_leading_zeros() {
    for (n, text) in [(0u32, "0"), (7, "7"), (10, "10"), (255, "255"), (1000, "1000"), (u32::MAX, "4294967295")] {
        let mut out = b"x".to_vec();
        push_decimal(&mut out, n);
        assert_eq!(out, format!("x{}", text).into_bytes());
    }
}

#[test]
fn an_image_is_written_as_plain_ppm() {
    let mut image = Raster::new(2, 2);
    image.put_pixel(0, 0, Rgb { r: 255, g: 0, b: 0 });
    image.put_pixel(1, 0, Rgb { r: 0, g: 128, b: 9 });
    image.put_pixel(1, 1, Rgb { r: 1, g: 22, b: 255 });
    let text = String::from_utf8(image_to_ppm(&image)).unwrap();
    assert_eq!(text, "P3\n2 2\n255\n255 0 0\n0 128 9\n0 0 0\n1 22 255\n");
}

#[test]
fn an_image_without_pixels_is_only_a_header() {
    let image = Raster::new(0, 7);
    assert_eq!(image_to_ppm(&image), b"P3\n0 7\n255\n".to_vec());
}

#[test]
fn a_new_image_is_black_and_a_pixel_put_is_the_pixel_got() {
    let mut image = Raster::new(3, 2);
    assert_eq!((image.width(), image.height()), (3, 2));
    for y in 0..2 {
        for x in 0..3 {
            assert_eq!(image.get_pixel(x, y), Rgb { r: 0, g: 0, b: 0 });
        }
    }
    image.put_pixel(2, 1, Rgb { r: 1, g: 2, b: 3 });
    assert_eq!(image.get_pixel(2, 1), Rgb { r: 1, g: 2, b: 3 });
    assert_eq!(image.get_pixel(1, 1), Rgb { r: 0, g: 0, b: 0 });
    assert_eq!(image.get_pixel(2, 0), Rgb { r: 0, g: 0, b: 0 });
}

#[test]
fn a_texture_without_a_picture_is_cyan() {
    let texture = ImageTexture::new(None);
    assert_eq!(texture.value(0, 0), Rgb { r: 0, g: 255, b: 255 });
    assert_eq!(texture.value(99, 12), Rgb { r: 0, g: 255, b: 255 });
}

#[test]
fn a_texture_samples_the_nearest_pixel_and_clamps_at_the_edge() {
    let mut image = Raster::new(2, 3);
    image.put_pixel(1, 2, Rgb { r: 10, g: 20, b: 30 });
    image.put_pixel(0, 1, Rgb { r: 4, g: 5, b: 6 });
    let texture = ImageTexture::new(Some(image));
    assert_eq!(texture.value(0, 1), Rgb { r: 4, g: 5, b: 6 });
    assert_eq!(texture.value(1, 2), Rgb { r: 10, g: 20, b: 30 });
    assert_eq!(texture.value(2, 3), Rgb { r: 10, g: 20, b: 30 });
    assert_eq!(texture.value(u32::MAX, u32::MAX), Rgb { r: 10, g: 20, b: 30 });
    assert_eq!(texture.value(0, 0), Rgb { r: 0, g: 0, b: 0 });
}

fn options(world_choice: u8) -> ProgramOptions {
    ProgramOptions {
        create_little_spheres: false,
        use_bvh: true,
        world_choice,
        help: false,
        help_str: String::new(),
    }
}

#[test]
fn world_choices_name_the_presets() {
    assert_eq!(options(0).preset(), Some(Preset::RandomWorld));
    assert_eq!(options(1).preset(), Some(Preset::TwoSpheres));
    assert_eq!(options(2).preset(), Some(Preset::TwoPerlinSpheres(NoiseType::Perlin)));
    assert_eq!(options(3).preset(), Some(Preset::TwoPerlinSpheres(NoiseType::Turbulence)));
    assert_eq!(options(4).preset(), Some(Preset::TwoPerlinSpheres(NoiseType::Marble)));
    assert_eq!(options(5).preset(), Some(Preset::Earth));
    assert_eq!(options(6).preset(), Some(Preset::SimpleLight));
    assert_eq!(options(7).preset(), Some(Preset::CornellBox));
    assert_eq!(options(8).preset(), Some(Preset::FinalScene));
    assert_eq!(options(9).preset(), None);
    assert_eq!(options(255).preset(), None);
}

fn scalar(x: f64) -> i64 {
    let bits = x.to_bits();
    let magnitude = (bits & 0x7FFF_FFFF_FFFF_FFFF) as i64;
    if bits >> 63 == 1 {
        -magnitude
    } else {
        magnitude
    }
}

#[test]
fn little_spheres_are_dealt_out_by_the_draw() {
    assert_eq!(little_sphere(scalar(0.0)), LittleSphere::MovingLambertian);
    assert_eq!(little_sphere(scalar(0.0999)), LittleSphere::MovingLambertian);
    assert_eq!(little_sphere(scalar(0.1)), LittleSphere::Lambertian);
    assert_eq!(little_sphere(scalar(0.7999)), LittleSphere::Lambertian);
    assert_eq!(little_sphere(scalar(0.8)), LittleSphere::Metal);
    assert_eq!(little_sphere(scalar(0.9499)), LittleSphere::Metal);
    assert_eq!(little_sphere(scalar(0.95)), LittleSphere::Glass);
    assert_eq!(little_sphere(scalar(0.9999)), LittleSphere::Glass);
}

#[test]
fn a_draw_that_is_no_number_deals_out_glass_and_leaves_no_room() {
    for no_number in [scalar(f64::NAN), scalar(-f64::NAN)] {
        assert_eq!(little_sphere(no_number), LittleSphere::Glass);
        assert!(!has_room(no_number));
    }
}

#[test]
fn little_spheres_keep_clear_of_the_large_one() {
    assert!(!has_room(scalar(0.0)));
    assert!(!has_room(scalar(0.9)));
    assert!(has_room(scalar(0.9000001)));
    assert!(has_room(scalar(12.0)));
}
