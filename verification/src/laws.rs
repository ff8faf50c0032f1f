//! What holds of the camera over every input, proved from the contracts of
//! the steps.

use crate::arithmetic::{lemma_halving_is_exact, whole_joins};
use crate::camera::{PixelPerfectCamera, PixelPerfectPixelation, Transform};
use vstd::arithmetic::power2::pow2;
use crate::single::{fixed_one, lemma_floor_fixed_bounds, Single};
use crate::systems::{camera_rescaled, projection_rescaled, transform_snapped};
use crate::world::CameraEntity;
use vstd::prelude::*;

verus! {

/// With a whole number `n` of joins the resolution is the starting
/// resolution divided by `2^n` and the projection's scale is `2^n`, both
/// exactly and whatever the machine's power is: nothing is rounded as long
/// as the halved resolution is still a normal number.
pub proof fn lemma_resolution_halves(
    camera: PixelPerfectCamera,
    pixelation: PixelPerfectPixelation,
    machine_power: Single,
    n: nat,
)
    requires
        whole_joins(pixelation.joins) == Some(n),
        pixelation.starting_resolution.spec_is_positive(),
        pixelation.starting_resolution.x.spec_is_finite(),
        pixelation.starting_resolution.y.spec_is_finite(),
        pixelation.starting_resolution.x.biased_exponent() > n,
        pixelation.starting_resolution.y.biased_exponent() > n,
    ensures
        ({
            let start = pixelation.starting_resolution;
            let resolution = camera_rescaled(camera, pixelation, machine_power).resolution;
            let scale = projection_rescaled(pixelation, machine_power).scale;
            &&& resolution.spec_is_positive()
            &&& resolution.x.spec_is_finite() && resolution.x.fixed() * pow2(n) == start.x.fixed()
            &&& resolution.y.spec_is_finite() && resolution.y.fixed() * pow2(n) == start.y.fixed()
            &&& scale.spec_is_finite() && scale.fixed() == pow2(n) * fixed_one()
        }),
{
    let start = pixelation.starting_resolution;
    let factor = crate::systems::scale_factor(pixelation.joins, machine_power);
    assert(n <= 126);
    assert(factor == crate::arithmetic::half_power(n));
    assert(!start.x.spec_is_sign_negative() && !start.y.spec_is_sign_negative());
    lemma_halving_is_exact(start.x, n);
    lemma_halving_is_exact(start.y, n);
    let rx = start.x.spec_multiply(factor);
    let ry = start.y.spec_multiply(factor);
    vstd::arithmetic::power2::lemma_pow2_pos(n);
    vstd::arithmetic::power2::lemma_pow2_pos(149);
    crate::single::lemma_positive_value(start.x);
    crate::single::lemma_positive_value(start.y);
    assert(rx.fixed() > 0) by (nonlinear_arith)
        requires
            rx.fixed() * pow2(n) == start.x.fixed(),
            start.x.fixed() > 0,
            pow2(n) > 0,
    ;
    assert(ry.fixed() > 0) by (nonlinear_arith)
        requires
            ry.fixed() * pow2(n) == start.y.fixed(),
            start.y.fixed() > 0,
            pow2(n) > 0,
    ;
    crate::single::lemma_positive_value(rx);
    crate::single::lemma_positive_value(ry);
}

/// The rendered position is the camera's position rounded down to whole
/// pixels, in each axis by less than one pixel, and the depth is kept.
/// Rounding is towards negative infinity on both sides of zero.
pub proof fn lemma_snap_is_floor(transform: Transform, camera: PixelPerfectCamera)
    ensures
        ({
            let snapped = transform_snapped(transform, camera).translation;
            let at = camera.subpixel_translation;
            &&& snapped.z == transform.translation.z
            &&& at.x.has_floor(snapped.x)
            &&& at.y.has_floor(snapped.y)
            &&& at.x.spec_is_finite() ==> snapped.x.is_integral() && snapped.x.fixed() <= at.x.fixed()
                < snapped.x.fixed() + fixed_one()
            &&& at.y.spec_is_finite() ==> snapped.y.is_integral() && snapped.y.fixed() <= at.y.fixed()
                < snapped.y.fixed() + fixed_one()
        }),
{
    let at = camera.subpixel_translation;
    lemma_has_floor(at.x);
    lemma_has_floor(at.y);
    lemma_floor_fixed_bounds(at.x.fixed());
    lemma_floor_fixed_bounds(at.y.fixed());
}

/// Every number has a floor, and `spec_floor` is it.
pub proof fn lemma_has_floor(x: Single)
    ensures
        x.has_floor(x.spec_floor()),
{
    if x.spec_is_finite() {
        // The floor of a finite number exists: the exact routine computes it.
        crate::single::lemma_floor_exists(x);
    } else {
        assert(x.has_floor(x));
    }
}

/// Snapping a second time changes nothing.
pub proof fn lemma_snap_idempotent(transform: Transform, camera: PixelPerfectCamera)
    ensures
        transform_snapped(transform_snapped(transform, camera), camera) == transform_snapped(
            transform,
            camera,
        ),
{
}

/// Setting the resolution a second time from the same pixelation changes
/// nothing: the resolution is derived from the starting resolution, never
/// from the resolution that is there.
pub proof fn lemma_rescale_idempotent(
    camera: PixelPerfectCamera,
    pixelation: PixelPerfectPixelation,
    machine_power: Single,
)
    ensures
        camera_rescaled(camera_rescaled(camera, pixelation, machine_power), pixelation, machine_power)
            == camera_rescaled(camera, pixelation, machine_power),
{
}

/// A second frame with nothing written in between changes nothing,
/// whatever scale factor it is handed.
pub proof fn lemma_frame_idempotent(camera: CameraEntity, first: Single, second: Single)
    ensures
        camera.after_frame(first).after_frame(second) == camera.after_frame(first),
{
}

/// The starting resolution is taken once, in the frame that first sees
/// the pixelation, and no later frame writes it: it is the camera's
/// resolution of then, whatever `joins` does afterwards.
pub proof fn lemma_starting_resolution_kept(camera: CameraEntity, machine_power: Single)
    requires
        camera.pixelation is Some,
    ensures
        camera.after_frame(machine_power).pixelation is Some,
        camera.after_frame(machine_power).pixelation->0.joins == camera.pixelation->0.joins,
        camera.after_frame(machine_power).pixelation->0.starting_resolution == (if camera.pixelation_added {
            camera.bundle.pixel_camera.resolution
        } else {
            camera.pixelation->0.starting_resolution
        }),
{
}

/// After a pixelation was attached and seen, a change of `joins` sets the
/// resolution from the resolution at the time of attaching, not from the
/// resolution that the frames in between have left.
pub proof fn lemma_resolution_follows_start(
    camera: CameraEntity,
    first: Single,
    joins: Single,
    second: Single,
)
    requires
        camera.pixelation is Some,
        camera.pixelation_added,
        camera.pixelation_changed,
    ensures
        ({
            let seen = camera.after_frame(first);
            let written = CameraEntity {
                pixelation: Some(
                    PixelPerfectPixelation {
                        joins,
                        starting_resolution: seen.pixelation->0.starting_resolution,
                    },
                ),
                pixelation_changed: true,
                ..seen
            };
            written.after_frame(second).bundle.pixel_camera.resolution
                == camera.bundle.pixel_camera.resolution.spec_scale(
                crate::systems::scale_factor(joins, second),
            )
        }),
{
}

/// In the frame in which the pixelation changed, the transform is snapped
/// from the camera as the resolution step of that same frame left it, and
/// the projection is that of the same step: neither lags a frame behind.
pub proof fn lemma_frame_order(camera: CameraEntity, machine_power: Single)
    requires
        camera.pixelation is Some,
        camera.pixelation_changed,
    ensures
        ({
            let start = camera.after_pixelate_added().pixelation->0;
            let rescaled = camera_rescaled(camera.bundle.pixel_camera, start, machine_power);
            let after = camera.after_frame(machine_power);
            &&& after.bundle.pixel_camera == rescaled
            &&& after.bundle.camera.projection == projection_rescaled(start, machine_power)
            &&& after.bundle.camera.transform == transform_snapped(
                camera.bundle.camera.transform,
                rescaled,
            )
        }),
{
}

} // verus!
