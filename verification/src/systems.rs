//! The three steps that a pixel perfect camera takes in every frame, each
//! on the components of one camera.
//!
//! The host decides when a step runs: it calls `pixelate_added` for a
//! pixelation it has not seen before, `update_pixelation_resolution` for
//! one that changed, and `update_transform` for a camera that changed, in
//! this order.

use crate::camera::{OrthographicProjection, PixelPerfectCamera, PixelPerfectPixelation, Transform};
use crate::arithmetic::{half_power, whole_joins};
use crate::single::Single;
use vstd::prelude::*;

verus! {

/// The pattern of `1.0`.
pub const ONE_BITS: u32 = 0x3f80_0000;

/// The pixelation after it has taken note of the camera's resolution.
pub open spec fn pixelation_started(
    pixelation: PixelPerfectPixelation,
    camera: PixelPerfectCamera,
) -> PixelPerfectPixelation {
    PixelPerfectPixelation { joins: pixelation.joins, starting_resolution: camera.resolution }
}

/// Two to the power of minus `joins`: the exact power where `joins` is a
/// whole number from 0 to 126, and what the machine gave otherwise.
pub open spec fn scale_factor(joins: Single, machine_power: Single) -> Single {
    match whole_joins(joins) {
        Some(n) => half_power(n),
        None => machine_power,
    }
}

/// The camera at the resolution that the pixelation asks for:
/// the starting resolution times the scale factor.
pub open spec fn camera_rescaled(
    camera: PixelPerfectCamera,
    pixelation: PixelPerfectPixelation,
    machine_power: Single,
) -> PixelPerfectCamera {
    PixelPerfectCamera {
        resolution: pixelation.starting_resolution.spec_scale(
            scale_factor(pixelation.joins, machine_power),
        ),
        subpixel_translation: camera.subpixel_translation,
        bar_color: camera.bar_color,
        bar_offset: camera.bar_offset,
    }
}

/// The projection that undoes the scale factor: one divided by it.
pub open spec fn projection_rescaled(
    pixelation: PixelPerfectPixelation,
    machine_power: Single,
) -> OrthographicProjection {
    OrthographicProjection {
        scale: (Single { bits: ONE_BITS }).spec_divide(
            scale_factor(pixelation.joins, machine_power),
        ),
    }
}

/// The transform on whole virtual pixels: the floor of the camera's
/// translation, at the depth that the transform had.
pub open spec fn transform_snapped(transform: Transform, camera: PixelPerfectCamera) -> Transform {
    Transform {
        translation: camera.subpixel_translation.spec_floor().spec_extend(transform.translation.z),
    }
}

/// Notes the resolution that the camera has when the pixelation is first
/// seen.  Every later resolution is derived from this one.
pub fn pixelate_added(pixelation: &mut PixelPerfectPixelation, camera: &PixelPerfectCamera)
    requires
        camera.has_positive_resolution(),
    ensures
        *final(pixelation) == pixelation_started(*old(pixelation), *camera),
{
    pixelation.starting_resolution = camera.resolution;
}

/// Sets the camera's resolution to the starting resolution times two to
/// the power of minus `joins`, and the projection's scale to one divided by
/// that power.  `machine_power` is the power as the machine's mathematics
/// gives it; it is used where `joins` is not a whole number from 0 to 126,
/// for which the power is exact and taken from no one.
pub fn update_pixelation_resolution(
    camera: &mut PixelPerfectCamera,
    projection: &mut OrthographicProjection,
    pixelation: &PixelPerfectPixelation,
    machine_power: Single,
)
    requires
        pixelation.has_valid_joins(),
    ensures
        *final(camera) == camera_rescaled(*old(camera), *pixelation, machine_power),
        *final(projection) == projection_rescaled(*pixelation, machine_power),
{
    let factor = match pixelation.joins.exact_scale_factor() {
        Some(exact) => exact,
        None => machine_power,
    };
    camera.resolution = pixelation.starting_resolution.scale(factor);
    projection.scale = (Single { bits: ONE_BITS }).divide(factor);
}

/// Puts the camera's transform on whole virtual pixels: the floor of each
/// component of its translation.  The depth is left as it is.
pub fn update_transform(transform: &mut Transform, camera: &PixelPerfectCamera)
    ensures
        *final(transform) == transform_snapped(*old(transform), *camera),
{
    transform.translation = camera.subpixel_translation.floor().extend(transform.translation.z);
}

} // verus!
