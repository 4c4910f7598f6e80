use raytracer::fixed::{div_trunc, isqrt_u128, mul_fx, SCALE};
use raytracer::raytracer::scene::{Ray, Scene, SPHERE_RADIUS_FX};
use raytracer::raytracer::{chunk_bounds, Image, Raytracer, RenderError, Rgba};
use raytracer::vec3::Vec3;

fn sq_norm(v: Vec3) -> i128 {
    (v.x as i128) * (v.x as i128) + (v.y as i128) * (v.y as i128) + (v.z as i128) * (v.z as i128)
}

#[test]
fn fire_ray_directions_are_unit_length() {
    let scale = SCALE as i128;
    let scene = Scene::new(7, 5);
    for y in 0..5usize {
        for x in 0..7usize {
            let ray = scene.fire_ray(x, y);
            let m = sq_norm(ray.direction);
            assert!(m >= scale * scale - 6 * scale, "magnitude too small at {x},{y}: {m}");
            assert!(m <= scale * scale + 3 * scale, "magnitude too large at {x},{y}: {m}");
        }
    }
}

#[test]
fn fire_ray_is_deterministic() {
    let scene = Scene::new(1920, 1080);
    let first = scene.fire_ray(7, 11);
    let second = scene.fire_ray(7, 11);
    assert_eq!(first, second);
    assert_eq!(scene.fire_ray(0, 0), scene.fire_ray(0, 0));
}

#[test]
fn averaging_is_idempotent_over_iteration_count() {
    let mut once = Raytracer::new(3, 2, 8, 2);
    once.run(1).unwrap();
    let mut many = Raytracer::new(3, 2, 8, 2);
    many.run(5).unwrap();
    for y in 0..2u32 {
        for x in 0..3u32 {
            assert_eq!(once.image().get(x, y), many.image().get(x, y));
        }
    }
    assert_eq!(once.image().to_bytes(), many.image().to_bytes());
}

#[test]
fn chunks_partition_the_index_space() {
    for &(total, workers) in
        &[(10usize, 3usize), (7, 3), (5, 8), (1, 1), (12, 4), (100, 7), (9, 9)]
    {
        let chunks = chunk_bounds(total, workers);
        let mut seen = vec![0u32; total];
        for &(start, end) in &chunks {
            assert!(start < end && end <= total);
            for i in start..end {
                seen[i] += 1;
            }
        }
        for (i, &count) in seen.iter().enumerate() {
            assert_eq!(count, 1, "index {i} covered {count} times for {total}/{workers}");
        }
    }
}

#[test]
fn chunk_bounds_exact_ranges() {
    // chunk size 10 / 3 + 1 == 4
    let chunks = chunk_bounds(10, 3);
    assert_eq!(chunks, vec![(0, 4), (4, 8), (8, 10)]);
    assert_eq!(chunk_bounds(0, 4), vec![]);
}

#[test]
fn ray_toward_sphere_hits_and_shades_red() {
    let origin = Vec3::new(0, 0, 0);
    let toward = Vec3::new(0, 0, -SCALE);
    let ray = Ray::new(origin, toward);
    assert!(ray.hit_sphere(Vec3::new(0, 0, -SCALE), SPHERE_RADIUS_FX));
    assert_eq!(ray.color(), Vec3::new(SCALE, 0, 0));
}

#[test]
fn sky_gradient_endpoints() {
    let up = Ray::new(Vec3::new(0, 0, 0), Vec3::new(0, SCALE, 0));
    assert_eq!(up.color(), Vec3::new(500_000, 700_000, 1_000_000));
    let down = Ray::new(Vec3::new(0, 0, 0), Vec3::new(0, -SCALE, 0));
    assert_eq!(down.color(), Vec3::new(SCALE, SCALE, SCALE));
}

#[test]
fn two_by_two_render_matches_single_shades() {
    let mut rt = Raytracer::new(2, 2, 8, 1);
    rt.run(1).unwrap();
    assert_eq!(rt.image().pixels.len(), 4);
    let scene = Scene::new(2, 2);
    for y in 0..2u32 {
        for x in 0..2u32 {
            let c = scene.fire_ray(x as usize, y as usize).color();
            let expected = Rgba { r: c.x, g: c.y, b: c.z, a: SCALE };
            assert_eq!(rt.image().get(x, y), expected);
        }
    }
}

#[test]
fn export_rounds_half_up() {
    let mut im = Image::new(1, 1);
    im.add_sample(0, 0, Rgba { r: SCALE, g: 0, b: 500_000, a: SCALE });
    im.finalize(1);
    assert_eq!(im.to_bytes(), vec![255, 0, 128, 255]);
}

#[test]
fn export_extreme_channels() {
    let mut im = Image::new(1, 1);
    im.add_sample(0, 0, Rgba { r: 1, g: 999_999, b: 0, a: SCALE });
    im.finalize(1);
    assert_eq!(im.to_bytes(), vec![0, 255, 0, 255]);
}

#[test]
fn zero_iterations_is_a_configuration_error() {
    let mut rt = Raytracer::new(2, 2, 8, 1);
    assert_eq!(rt.run(0), Err(RenderError::ZeroIterations));
    // The renderer is untouched and can still run.
    assert_eq!(rt.run(2), Ok(()));
}

#[test]
fn one_by_one_render() {
    let mut rt = Raytracer::new(1, 1, 8, 3);
    rt.run(3).unwrap();
    let c = Scene::new(1, 1).fire_ray(0, 0).color();
    assert_eq!(rt.image().get(0, 0), Rgba { r: c.x, g: c.y, b: c.z, a: SCALE });
}

#[test]
fn viewport_uses_fractional_aspect_ratio() {
    let scene = Scene::new(1920, 1080);
    // 12 * 1920 / 1080 in fixed point keeps the fraction: 21.333333.
    assert_eq!(scene.camera.viewport_w, 21_333_333);
    assert_eq!(scene.camera.viewport_h, 12_000_000);
    let tall = Scene::new(5, 3);
    assert_eq!(tall.camera.viewport_w, 20_000_000);
}

#[test]
fn fixed_point_primitives() {
    assert_eq!(mul_fx(500_000, 700_000), 350_000);
    assert_eq!(mul_fx(-500_000, 700_000), -350_000);
    assert_eq!(div_trunc(-7, 2), -3);
    assert_eq!(div_trunc(7, 2), 3);
    assert_eq!(isqrt_u128(0), 0);
    assert_eq!(isqrt_u128(3), 1);
    assert_eq!(isqrt_u128(4), 2);
    assert_eq!(isqrt_u128(1_000_000_000_000), 1_000_000);
    assert_eq!(isqrt_u128(999_999_999_999), 999_999);
}

#[test]
fn accumulation_sums_in_place() {
    let mut im = Image::new(2, 1);
    let c = Rgba { r: 250_000, g: 0, b: SCALE, a: SCALE };
    im.add_sample(1, 0, c);
    im.add_sample(1, 0, c);
    assert_eq!(im.get(1, 0), Rgba { r: 500_000, g: 0, b: 2 * SCALE, a: 2 * SCALE });
    assert_eq!(im.get(0, 0), Rgba { r: 0, g: 0, b: 0, a: 0 });
    im.finalize(2);
    assert_eq!(im.get(1, 0), c);
}
