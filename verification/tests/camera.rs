use bevy_pixel_perfect::systems::{pixelate_added, update_pixelation_resolution, update_transform};
use bevy_pixel_perfect::world::{CameraEntity, ContractViolation, World};
use bevy_pixel_perfect::{
    Camera2dBundle, Color, OrthographicProjection, PixelPerfectCamera, PixelPerfectCameraBundle,
    PixelPerfectPixelation, Single, Transform, Vec2, Vec3,
};

fn s(x: f32) -> Single {
    Single::from_bits(x.to_bits())
}

fn f(x: Single) -> f32 {
    f32::from_bits(x.to_bits())
}

fn v(x: f32, y: f32) -> Vec2 {
    Vec2::new(s(x), s(y))
}

fn scale_for(joins: f32) -> Single {
    s(2.0f32.powf(-joins))
}

fn camera_with_resolution(x: f32, y: f32) -> PixelPerfectCamera {
    PixelPerfectCamera { resolution: v(x, y), ..Default::default() }
}

#[test]
fn camera_defaults() {
    let c = PixelPerfectCamera::default();
    assert_eq!(f(c.resolution.x), 256.0);
    assert_eq!(f(c.resolution.y), 256.0);
    assert_eq!(c.subpixel_translation, v(0.0, 0.0));
    assert_eq!(c.bar_offset, v(0.0, 0.0));
    assert_eq!(c.bar_color, Color { red: s(0.0), green: s(0.0), blue: s(0.0), alpha: s(1.0) });
    assert_eq!(c.bar_color, Color::black());
    assert!(c.has_positive_resolution());
}

#[test]
fn bundle_defaults() {
    let b = PixelPerfectCameraBundle::default();
    assert_eq!(b.pixel_camera, PixelPerfectCamera::default());
    assert_eq!(b.camera, Camera2dBundle::default());
    assert_eq!(b.camera.transform.translation, Vec3 { x: s(0.0), y: s(0.0), z: s(0.0) });
    assert_eq!(f(b.camera.projection.scale), 1.0);
}

#[test]
fn pixelation_from_joins() {
    let p = PixelPerfectPixelation::from_joins(s(1.5));
    assert_eq!(f(p.joins), 1.5);
    assert_eq!(p.starting_resolution, v(0.0, 0.0));
    assert!(p.has_valid_joins());
    let d = PixelPerfectPixelation::default();
    assert_eq!(f(d.joins), 0.0);
    assert_eq!(d.starting_resolution, Vec2::zero());
}

#[test]
fn joins_validity() {
    assert!(PixelPerfectPixelation::from_joins(s(0.0)).has_valid_joins());
    assert!(PixelPerfectPixelation::from_joins(s(-0.0)).has_valid_joins());
    assert!(PixelPerfectPixelation::from_joins(s(f32::INFINITY)).has_valid_joins());
    assert!(!PixelPerfectPixelation::from_joins(s(-0.5)).has_valid_joins());
    assert!(!PixelPerfectPixelation::from_joins(s(f32::NAN)).has_valid_joins());
}

#[test]
fn resolution_positivity() {
    assert!(camera_with_resolution(1.0, 1.0).has_positive_resolution());
    assert!(!camera_with_resolution(0.0, 1.0).has_positive_resolution());
    assert!(!camera_with_resolution(1.0, -0.0).has_positive_resolution());
    assert!(!camera_with_resolution(-64.0, 64.0).has_positive_resolution());
    assert!(!camera_with_resolution(f32::NAN, 64.0).has_positive_resolution());
}

#[test]
fn two_joins_quarter_the_resolution() {
    let mut camera = camera_with_resolution(256.0, 256.0);
    let mut projection = OrthographicProjection { scale: s(1.0) };
    let mut pixelation = PixelPerfectPixelation::from_joins(s(2.0));
    pixelate_added(&mut pixelation, &camera);
    assert_eq!(pixelation.starting_resolution, v(256.0, 256.0));
    update_pixelation_resolution(&mut camera, &mut projection, &pixelation, scale_for(2.0));
    assert_eq!(camera.resolution, v(64.0, 64.0));
    assert_eq!(f(projection.scale), 4.0);
}

#[test]
fn fractional_joins_follow_the_machine() {
    let mut camera = camera_with_resolution(200.0, 120.0);
    let mut projection = OrthographicProjection { scale: s(1.0) };
    let mut pixelation = PixelPerfectPixelation::from_joins(s(0.2));
    pixelate_added(&mut pixelation, &camera);
    let factor = 2.0f32.powf(-0.2);
    update_pixelation_resolution(&mut camera, &mut projection, &pixelation, s(factor));
    assert_eq!(f(camera.resolution.x), 200.0 * factor);
    assert_eq!(f(camera.resolution.y), 120.0 * factor);
    assert_eq!(f(projection.scale), 1.0 / factor);
}

#[test]
fn starting_resolution_is_taken_once() {
    let mut entity = CameraEntity::new(PixelPerfectCameraBundle {
        pixel_camera: camera_with_resolution(128.0, 128.0),
        ..Default::default()
    });
    entity.insert_pixelation(PixelPerfectPixelation::from_joins(s(0.0)));
    assert_eq!(entity.contract_violation(), None);
    entity.post_update(scale_for(0.0));
    assert_eq!(entity.bundle.pixel_camera.resolution, v(128.0, 128.0));
    entity.set_joins(s(1.0));
    entity.post_update(scale_for(1.0));
    assert_eq!(entity.bundle.pixel_camera.resolution, v(64.0, 64.0));
    assert_eq!(f(entity.bundle.camera.projection.scale), 2.0);
    assert_eq!(entity.pixelation.unwrap().starting_resolution, v(128.0, 128.0));
    entity.set_joins(s(0.0));
    entity.post_update(scale_for(0.0));
    assert_eq!(entity.bundle.pixel_camera.resolution, v(128.0, 128.0));
    assert_eq!(f(entity.bundle.camera.projection.scale), 1.0);
    assert_eq!(entity.pixelation.unwrap().starting_resolution, v(128.0, 128.0));
}

#[test]
fn removed_and_added_again_starts_again() {
    let mut entity = CameraEntity::new(PixelPerfectCameraBundle {
        pixel_camera: camera_with_resolution(128.0, 128.0),
        ..Default::default()
    });
    entity.insert_pixelation(PixelPerfectPixelation::from_joins(s(1.0)));
    entity.post_update(scale_for(1.0));
    assert_eq!(entity.bundle.pixel_camera.resolution, v(64.0, 64.0));
    entity.remove_pixelation();
    assert_eq!(entity.pixelation, None);
    entity.insert_pixelation(PixelPerfectPixelation::from_joins(s(1.0)));
    entity.post_update(scale_for(1.0));
    assert_eq!(entity.pixelation.unwrap().starting_resolution, v(64.0, 64.0));
    assert_eq!(entity.bundle.pixel_camera.resolution, v(32.0, 32.0));
}

#[test]
fn transform_is_floored() {
    let camera = PixelPerfectCamera { subpixel_translation: v(-0.3, 2.7), ..Default::default() };
    let mut transform = Transform { translation: Vec3 { x: s(9.0), y: s(9.0), z: s(999.9) } };
    update_transform(&mut transform, &camera);
    assert_eq!(f(transform.translation.x), -1.0);
    assert_eq!(f(transform.translation.y), 2.0);
    assert_eq!(f(transform.translation.z), 999.9);
}

#[test]
fn floor_near_zero_goes_down() {
    let cases: [(f32, f32); 10] = [
        (0.0, 0.0),
        (0.5, 0.0),
        (0.999_999_94, 0.0),
        (1.0, 1.0),
        (-0.000_001, -1.0),
        (-1.0, -1.0),
        (-1.000_000_1, -2.0),
        (8_388_607.5, 8_388_607.0),
        (-8_388_607.5, -8_388_608.0),
        (1.0e30, 1.0e30),
    ];
    for (x, want) in cases.iter() {
        assert_eq!(f(s(*x).floor()), *want);
    }
    assert_eq!(s(-0.0).floor().to_bits(), (-0.0f32).to_bits());
    assert_eq!(s(f32::INFINITY).floor().to_bits(), f32::INFINITY.to_bits());
    assert_eq!(s(f32::NEG_INFINITY).floor().to_bits(), f32::NEG_INFINITY.to_bits());
    assert!(s(f32::NAN).floor().is_nan());
    assert_eq!(f(s(f32::MIN_POSITIVE).floor()), 0.0);
    assert_eq!(f(s(-f32::MIN_POSITIVE).floor()), -1.0);
    assert_eq!(f(s(-1.0e-45).floor()), -1.0);
}

#[test]
fn second_frame_changes_nothing() {
    let mut entity = CameraEntity::new(PixelPerfectCameraBundle {
        pixel_camera: PixelPerfectCamera {
            resolution: v(128.0, 128.0),
            subpixel_translation: v(3.5, -3.5),
            ..Default::default()
        },
        ..Default::default()
    });
    entity.insert_pixelation(PixelPerfectPixelation::from_joins(s(1.0)));
    entity.post_update(scale_for(1.0));
    let after_first = entity;
    assert!(!after_first.camera_changed);
    assert!(!after_first.pixelation_added);
    assert!(!after_first.pixelation_changed);
    entity.post_update(scale_for(3.0));
    assert_eq!(entity, after_first);
}

#[test]
fn steps_are_idempotent() {
    let mut camera = camera_with_resolution(100.0, 50.0);
    camera.subpixel_translation = v(-7.25, 7.25);
    let mut projection = OrthographicProjection { scale: s(1.0) };
    let mut pixelation = PixelPerfectPixelation::from_joins(s(1.0));
    pixelate_added(&mut pixelation, &camera);
    update_pixelation_resolution(&mut camera, &mut projection, &pixelation, scale_for(1.0));
    let (c1, p1) = (camera, projection);
    update_pixelation_resolution(&mut camera, &mut projection, &pixelation, scale_for(1.0));
    assert_eq!((camera, projection), (c1, p1));
    let mut transform = Transform { translation: Vec3 { x: s(0.0), y: s(0.0), z: s(5.0) } };
    update_transform(&mut transform, &camera);
    let t1 = transform;
    update_transform(&mut transform, &camera);
    assert_eq!(transform, t1);
    assert_eq!(f(t1.translation.x), -8.0);
    assert_eq!(f(t1.translation.y), 7.0);
}

#[test]
fn transform_follows_the_same_frame() {
    let mut entity = CameraEntity::new(PixelPerfectCameraBundle {
        pixel_camera: PixelPerfectCamera {
            resolution: v(128.0, 128.0),
            subpixel_translation: v(0.0, 0.0),
            ..Default::default()
        },
        ..Default::default()
    });
    entity.post_update(scale_for(0.0));
    // Written without a mark on the camera: only the pixelation is marked.
    entity.bundle.pixel_camera.subpixel_translation = v(10.75, -10.75);
    entity.insert_pixelation(PixelPerfectPixelation::from_joins(s(1.0)));
    entity.post_update(scale_for(1.0));
    assert_eq!(entity.bundle.pixel_camera.resolution, v(64.0, 64.0));
    assert_eq!(f(entity.bundle.camera.transform.translation.x), 10.0);
    assert_eq!(f(entity.bundle.camera.transform.translation.y), -11.0);
}

#[test]
fn unmarked_camera_is_left_alone() {
    let mut entity = CameraEntity::new(PixelPerfectCameraBundle::default());
    entity.post_update(scale_for(0.0));
    entity.bundle.pixel_camera.subpixel_translation = v(4.5, 4.5);
    let before = entity;
    entity.post_update(scale_for(0.0));
    assert_eq!(entity, before);
    let mut camera = entity.bundle.pixel_camera;
    camera.subpixel_translation = v(5.5, 5.5);
    entity.set_camera(camera);
    assert!(entity.camera_changed);
    entity.post_update(scale_for(0.0));
    assert_eq!(f(entity.bundle.camera.transform.translation.x), 5.0);
}

#[test]
fn violations_are_found() {
    let mut entity = CameraEntity::new(PixelPerfectCameraBundle {
        pixel_camera: camera_with_resolution(0.0, 128.0),
        ..Default::default()
    });
    assert_eq!(entity.contract_violation(), None);
    entity.insert_pixelation(PixelPerfectPixelation::from_joins(s(1.0)));
    assert_eq!(entity.contract_violation(), Some(ContractViolation::NonPositiveResolution));

    let mut other = CameraEntity::new(PixelPerfectCameraBundle::default());
    other.insert_pixelation(PixelPerfectPixelation::from_joins(s(-1.0)));
    assert_eq!(other.contract_violation(), Some(ContractViolation::NegativeJoins));
    other.set_joins(s(1.0));
    assert_eq!(other.contract_violation(), None);
    other.post_update(scale_for(1.0));
    other.set_joins(s(f32::NAN));
    assert_eq!(other.contract_violation(), Some(ContractViolation::NegativeJoins));
}

#[test]
fn world_runs_every_camera() {
    let mut world = World::new();
    let a = world.spawn(PixelPerfectCameraBundle {
        pixel_camera: PixelPerfectCamera {
            resolution: v(256.0, 128.0),
            subpixel_translation: v(1.5, -1.5),
            ..Default::default()
        },
        ..Default::default()
    });
    let b = world.spawn(PixelPerfectCameraBundle::default());
    assert_eq!((a, b), (0, 1));
    world.cameras[a].insert_pixelation(PixelPerfectPixelation::from_joins(s(3.0)));
    assert_eq!(world.first_violation(), None);
    world.post_update(&vec![scale_for(3.0), scale_for(0.0)]);
    assert_eq!(world.cameras[a].bundle.pixel_camera.resolution, v(32.0, 16.0));
    assert_eq!(f(world.cameras[a].bundle.camera.projection.scale), 8.0);
    assert_eq!(f(world.cameras[a].bundle.camera.transform.translation.x), 1.0);
    assert_eq!(f(world.cameras[a].bundle.camera.transform.translation.y), -2.0);
    assert_eq!(world.cameras[b].bundle.pixel_camera.resolution, v(256.0, 256.0));
    let extracted = world.extract();
    assert_eq!(extracted.len(), 2);
    assert_eq!(extracted[0], world.cameras[0].bundle.pixel_camera);
    assert_eq!(extracted[1], world.cameras[1].bundle.pixel_camera);
    world.cameras[b].insert_pixelation(PixelPerfectPixelation::from_joins(s(-2.0)));
    assert_eq!(world.first_violation(), Some((1, ContractViolation::NegativeJoins)));
}

#[test]
fn multiply_and_divide_values() {
    assert_eq!(f(s(1.5).multiply(s(-2.0))), -3.0);
    assert_eq!(f(s(0.1).multiply(s(0.2))), 0.1f32 * 0.2f32);
    assert_eq!(f(s(1.0).divide(s(3.0))), 1.0f32 / 3.0f32);
    assert_eq!(f(s(1.0).divide(s(0.0))), f32::INFINITY);
    assert_eq!(f(s(-1.0).divide(s(0.0))), f32::NEG_INFINITY);
    assert!(s(0.0).divide(s(0.0)).is_nan());
    assert!(s(f32::INFINITY).multiply(s(0.0)).is_nan());
    assert_eq!(f(s(f32::MAX).multiply(s(2.0))), f32::INFINITY);
    assert_eq!(f(s(1.0e-30).multiply(s(1.0e-30))), 0.0);
    assert_eq!(s(-1.0e-30).multiply(s(1.0e-30)).to_bits(), (-0.0f32).to_bits());
    assert_eq!(f(s(1.0e-40).divide(s(3.0))), 1.0e-40f32 / 3.0f32);
}

#[test]
fn vectors() {
    assert_eq!(Vec2::splat(s(2.0)), v(2.0, 2.0));
    assert_eq!(v(1.5, -1.5).floor(), v(1.0, -2.0));
    assert_eq!(v(3.0, 5.0).scale(s(0.5)), v(1.5, 2.5));
    assert_eq!(v(1.0, 2.0).extend(s(3.0)), Vec3 { x: s(1.0), y: s(2.0), z: s(3.0) });
    assert!(v(1.0, 2.0).is_positive());
    assert!(!v(1.0, 0.0).is_positive());
}

#[test]
fn exact_scale_factors() {
    for n in 0..=126u32 {
        let exact = s(n as f32).exact_scale_factor();
        assert_eq!(exact.map(f), Some(2.0f32.powi(-(n as i32))));
    }
    assert_eq!(s(-0.0).exact_scale_factor().map(f), Some(1.0));
    assert_eq!(s(127.0).exact_scale_factor(), None);
    assert_eq!(s(0.5).exact_scale_factor(), None);
    assert_eq!(s(2.5).exact_scale_factor(), None);
    assert_eq!(s(1.0e-40).exact_scale_factor(), None);
    assert_eq!(s(-1.0).exact_scale_factor(), None);
    assert_eq!(s(1.0e9).exact_scale_factor(), None);
    assert_eq!(s(f32::INFINITY).exact_scale_factor(), None);
    assert_eq!(s(f32::NAN).exact_scale_factor(), None);
}

#[test]
fn whole_joins_do_not_read_the_machine_power() {
    let mut camera = camera_with_resolution(256.0, 256.0);
    let mut projection = OrthographicProjection { scale: s(1.0) };
    let mut pixelation = PixelPerfectPixelation::from_joins(s(3.0));
    pixelate_added(&mut pixelation, &camera);
    update_pixelation_resolution(&mut camera, &mut projection, &pixelation, s(f32::NAN));
    assert_eq!(camera.resolution, v(32.0, 32.0));
    assert_eq!(f(projection.scale), 8.0);
}

#[test]
fn halving_is_exact_down_to_the_smallest_normal() {
    let start = 3.0f32;
    for n in 0..=126u32 {
        let got = s(start).multiply(s(n as f32).exact_scale_factor().unwrap());
        assert_eq!(f(got), start * 2.0f32.powi(-(n as i32)));
    }
}

#[test]
fn extraction_is_a_copy() {
    let mut world = World::new();
    world.spawn(PixelPerfectCameraBundle::default());
    world.spawn(PixelPerfectCameraBundle {
        pixel_camera: camera_with_resolution(64.0, 0.0),
        ..Default::default()
    });
    assert_eq!(world.first_non_positive_resolution(), Some(1));
    world.cameras[1].bundle.pixel_camera.resolution = v(64.0, 64.0);
    assert_eq!(world.first_non_positive_resolution(), None);
    let snapshot = world.extract();
    world.cameras[0].bundle.pixel_camera.resolution = v(1.0, 1.0);
    assert_eq!(snapshot[0], PixelPerfectCamera::default());
    assert_eq!(snapshot[1].resolution, v(64.0, 64.0));
    assert_eq!(world.cameras[1].extract(), snapshot[1]);
}
