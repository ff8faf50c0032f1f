//! The state of one pixel perfect camera, and the two host components that
//! the camera drives.

use crate::math::{Color, Vec2, Vec3};
use crate::single::Single;
use vstd::prelude::*;

verus! {

/// Marks a camera as pixel perfect.
#[derive(Clone, Copy, Debug, PartialEq, Eq, Structural)]
pub struct PixelPerfectCamera {
    /// The virtual resolution of the image.  Both components stay positive.
    pub resolution: Vec2,
    /// The position of the camera in virtual pixels, fractions included.
    /// Move the camera through this field and not through its transform.
    pub subpixel_translation: Vec2,
    /// The colour of the bars at the edge of the image; alpha is honoured.
    pub bar_color: Color,
    /// The offset of the bars in virtual pixels: a positive value shrinks
    /// the view, a negative one widens it.
    pub bar_offset: Vec2,
}

/// Halves the virtual resolution `joins` times over.  It sits on the camera
/// beside [`PixelPerfectCamera`].
#[derive(Clone, Copy, Debug, PartialEq, Eq, Structural)]
pub struct PixelPerfectPixelation {
    /// How many times pixels are joined; fractions are allowed, negative
    /// numbers are not.
    pub joins: Single,
    /// The camera's resolution when this component was first seen.
    pub starting_resolution: Vec2,
}

/// The position of the camera as the host renders it.
#[derive(Clone, Copy, Debug, PartialEq, Eq, Structural)]
pub struct Transform {
    pub translation: Vec3,
}

/// The host's orthographic projection, as far as the camera writes it.
#[derive(Clone, Copy, Debug, PartialEq, Eq, Structural)]
pub struct OrthographicProjection {
    pub scale: Single,
}

/// The host's two-dimensional camera, as far as this library touches it.
#[derive(Clone, Copy, Debug, PartialEq, Eq, Structural)]
pub struct Camera2dBundle {
    pub transform: Transform,
    pub projection: OrthographicProjection,
}

/// The least that makes a pixel perfect camera.
#[derive(Clone, Copy, Debug, PartialEq, Eq, Structural)]
pub struct PixelPerfectCameraBundle {
    pub pixel_camera: PixelPerfectCamera,
    pub camera: Camera2dBundle,
}

impl PixelPerfectCamera {
    /// A resolution of 256 by 256, no translation, opaque black bars with
    /// no offset.
    pub open spec fn spec_default() -> PixelPerfectCamera {
        PixelPerfectCamera {
            resolution: Vec2 { x: Single { bits: 0x4380_0000 }, y: Single { bits: 0x4380_0000 } },
            subpixel_translation: Vec2::spec_zero(),
            bar_color: Color::spec_black(),
            bar_offset: Vec2::spec_zero(),
        }
    }

    /// Both components of the resolution are greater than zero.
    pub open spec fn spec_has_positive_resolution(&self) -> bool {
        self.resolution.spec_is_positive()
    }

    #[verifier::when_used_as_spec(spec_has_positive_resolution)]
    pub fn has_positive_resolution(&self) -> (r: bool)
        ensures
            r == self.spec_has_positive_resolution(),
    {
        self.resolution.is_positive()
    }
}

impl Default for PixelPerfectCamera {
    fn default() -> (r: PixelPerfectCamera)
        ensures
            r == PixelPerfectCamera::spec_default(),
    {
        PixelPerfectCamera {
            resolution: Vec2::splat(Single { bits: 0x4380_0000 }),
            subpixel_translation: Vec2::zero(),
            bar_color: Color::black(),
            bar_offset: Vec2::zero(),
        }
    }
}

impl PixelPerfectPixelation {
    /// `joins` is not NaN and not below zero.
    pub open spec fn spec_has_valid_joins(&self) -> bool {
        self.joins.spec_is_non_negative()
    }

    /// A pixelation of `joins` halvings that has not seen its camera yet.
    pub fn from_joins(joins: Single) -> (r: PixelPerfectPixelation)
        ensures
            r.joins == joins,
            r.starting_resolution == Vec2::spec_zero(),
    {
        PixelPerfectPixelation { joins, starting_resolution: Vec2::zero() }
    }

    #[verifier::when_used_as_spec(spec_has_valid_joins)]
    pub fn has_valid_joins(&self) -> (r: bool)
        ensures
            r == self.spec_has_valid_joins(),
    {
        self.joins.is_non_negative()
    }
}

impl Default for PixelPerfectPixelation {
    /// No halving at all.
    fn default() -> (r: PixelPerfectPixelation)
        ensures
            r.joins == (Single { bits: 0 }),
            r.starting_resolution == Vec2::spec_zero(),
    {
        PixelPerfectPixelation { joins: Single { bits: 0 }, starting_resolution: Vec2::zero() }
    }
}

impl Camera2dBundle {
    /// The camera at the origin with a projection scale of one.
    pub open spec fn spec_default() -> Camera2dBundle {
        Camera2dBundle {
            transform: Transform {
                translation: Vec3 {
                    x: Single { bits: 0 },
                    y: Single { bits: 0 },
                    z: Single { bits: 0 },
                },
            },
            projection: OrthographicProjection { scale: Single { bits: 0x3f80_0000 } },
        }
    }
}

impl Default for Camera2dBundle {
    fn default() -> (r: Camera2dBundle)
        ensures
            r == Camera2dBundle::spec_default(),
    {
        Camera2dBundle {
            transform: Transform {
                translation: Vec3 {
                    x: Single { bits: 0 },
                    y: Single { bits: 0 },
                    z: Single { bits: 0 },
                },
            },
            projection: OrthographicProjection { scale: Single { bits: 0x3f80_0000 } },
        }
    }
}

impl Default for PixelPerfectCameraBundle {
    fn default() -> (r: PixelPerfectCameraBundle)
        ensures
            r.pixel_camera == PixelPerfectCamera::spec_default(),
            r.camera == Camera2dBundle::spec_default(),
    {
        PixelPerfectCameraBundle {
            pixel_camera: PixelPerfectCamera::default(),
            camera: Camera2dBundle::default(),
        }
    }
}

} // verus!
