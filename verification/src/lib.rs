pub mod arithmetic;
pub mod camera;
pub mod laws;
pub mod math;
pub mod plugin;
pub mod render;
pub mod rounding;
pub mod single;
pub mod systems;
pub mod world;

pub use camera::{
    Camera2dBundle, OrthographicProjection, PixelPerfectCamera, PixelPerfectCameraBundle,
    PixelPerfectPixelation, Transform,
};
pub use math::{Color, Vec2, Vec3};
pub use plugin::{PixelPerfectPlugin, PixelPerfectSet};
pub use render::{PixelPerfectNode, PixelPerfectPipeline};
pub use single::Single;
