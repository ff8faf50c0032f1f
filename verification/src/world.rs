//! Cameras with their change marks, and one frame over all of them.
//!
//! A camera is kept with three marks: its camera state changed, a
//! pixelation was added to it, its pixelation changed.  Whoever writes a
//! component sets the mark; a frame runs each step only under its mark and
//! clears all three at its end.

use crate::camera::{PixelPerfectCamera, PixelPerfectCameraBundle, PixelPerfectPixelation};
use crate::camera::Camera2dBundle;
use crate::single::Single;
use crate::systems::{
    camera_rescaled, pixelate_added, pixelation_started, projection_rescaled, transform_snapped,
    update_pixelation_resolution, update_transform,
};
use vstd::prelude::*;

verus! {

/// What a caller got wrong about a value that a step is about to read.
#[derive(Clone, Copy, Debug, PartialEq, Eq, Structural)]
pub enum ContractViolation {
    /// A component of the resolution is zero, negative or NaN.
    NonPositiveResolution,
    /// `joins` is negative or NaN.
    NegativeJoins,
}

/// One camera: its components and its change marks.
#[derive(Clone, Copy, Debug, PartialEq, Eq, Structural)]
pub struct CameraEntity {
    pub bundle: PixelPerfectCameraBundle,
    pub pixelation: Option<PixelPerfectPixelation>,
    /// The camera state was written since the last frame.
    pub camera_changed: bool,
    /// The pixelation was attached since the last frame.
    pub pixelation_added: bool,
    /// The pixelation was attached or written since the last frame.
    pub pixelation_changed: bool,
}

impl CameraEntity {
    /// What stops the next frame, if anything does: a pixelation that is
    /// new to a camera without a positive resolution, or one that changed
    /// to `joins` below zero.
    pub open spec fn violation(self) -> Option<ContractViolation> {
        if self.pixelation is Some && self.pixelation_added
            && !self.bundle.pixel_camera.spec_has_positive_resolution() {
            Some(ContractViolation::NonPositiveResolution)
        } else if self.pixelation is Some && self.pixelation_changed
            && !self.pixelation->0.spec_has_valid_joins() {
            Some(ContractViolation::NegativeJoins)
        } else {
            None
        }
    }

    /// The camera after the first step: a pixelation that was added has
    /// taken note of the resolution.
    pub open spec fn after_pixelate_added(self) -> CameraEntity {
        if self.pixelation is Some && self.pixelation_added {
            CameraEntity {
                pixelation: Some(pixelation_started(self.pixelation->0, self.bundle.pixel_camera)),
                ..self
            }
        } else {
            self
        }
    }

    /// The camera after the second step: a pixelation that changed has set
    /// resolution and projection, which marks the camera as changed.
    pub open spec fn after_update_pixelation_resolution(self, machine_power: Single) -> CameraEntity {
        if self.pixelation is Some && self.pixelation_changed {
            CameraEntity {
                bundle: PixelPerfectCameraBundle {
                    pixel_camera: camera_rescaled(
                        self.bundle.pixel_camera,
                        self.pixelation->0,
                        machine_power,
                    ),
                    camera: Camera2dBundle {
                        transform: self.bundle.camera.transform,
                        projection: projection_rescaled(self.pixelation->0, machine_power),
                    },
                },
                camera_changed: true,
                ..self
            }
        } else {
            self
        }
    }

    /// The camera after the third step: a camera that changed has its
    /// transform on whole pixels.
    pub open spec fn after_update_transform(self) -> CameraEntity {
        if self.camera_changed {
            CameraEntity {
                bundle: PixelPerfectCameraBundle {
                    pixel_camera: self.bundle.pixel_camera,
                    camera: Camera2dBundle {
                        transform: transform_snapped(
                            self.bundle.camera.transform,
                            self.bundle.pixel_camera,
                        ),
                        projection: self.bundle.camera.projection,
                    },
                },
                ..self
            }
        } else {
            self
        }
    }

    /// The camera with its three marks cleared.
    pub open spec fn settled(self) -> CameraEntity {
        CameraEntity {
            camera_changed: false,
            pixelation_added: false,
            pixelation_changed: false,
            ..self
        }
    }

    /// The camera after one frame: the three steps in their order, then
    /// the marks cleared.
    pub open spec fn after_frame(self, machine_power: Single) -> CameraEntity {
        self.after_pixelate_added().after_update_pixelation_resolution(
            machine_power,
        ).after_update_transform().settled()
    }

    /// A camera that was just made: the camera state counts as changed.
    pub fn new(bundle: PixelPerfectCameraBundle) -> (r: CameraEntity)
        ensures
            r.bundle == bundle,
            r.pixelation is None,
            r.camera_changed,
            !r.pixelation_added,
            !r.pixelation_changed,
    {
        CameraEntity {
            bundle,
            pixelation: None,
            camera_changed: true,
            pixelation_added: false,
            pixelation_changed: false,
        }
    }

    /// Attaches a pixelation, or replaces the one that is there.
    pub fn insert_pixelation(&mut self, pixelation: PixelPerfectPixelation)
        ensures
            *final(self) == (CameraEntity {
                pixelation: Some(pixelation),
                pixelation_added: true,
                pixelation_changed: true,
                ..*old(self)
            }),
    {
        self.pixelation = Some(pixelation);
        self.pixelation_added = true;
        self.pixelation_changed = true;
    }

    /// Takes the pixelation off.  Resolution and projection stay as the
    /// last frame left them.
    pub fn remove_pixelation(&mut self)
        ensures
            *final(self) == (CameraEntity {
                pixelation: None,
                pixelation_added: false,
                pixelation_changed: false,
                ..*old(self)
            }),
    {
        self.pixelation = None;
        self.pixelation_added = false;
        self.pixelation_changed = false;
    }

    /// Writes `joins`.  Without a pixelation nothing happens.
    pub fn set_joins(&mut self, joins: Single)
        ensures
            old(self).pixelation is None ==> *final(self) == *old(self),
            old(self).pixelation is Some ==> *final(self) == (CameraEntity {
                pixelation: Some(
                    PixelPerfectPixelation {
                        joins,
                        starting_resolution: old(self).pixelation->0.starting_resolution,
                    },
                ),
                pixelation_changed: true,
                ..*old(self)
            }),
    {
        match self.pixelation {
            Some(p) => {
                self.pixelation = Some(
                    PixelPerfectPixelation { joins, starting_resolution: p.starting_resolution },
                );
                self.pixelation_changed = true;
            },
            None => {},
        }
    }

    /// Writes the camera state.
    pub fn set_camera(&mut self, camera: PixelPerfectCamera)
        ensures
            *final(self) == (CameraEntity {
                bundle: PixelPerfectCameraBundle {
                    pixel_camera: camera,
                    camera: old(self).bundle.camera,
                },
                camera_changed: true,
                ..*old(self)
            }),
    {
        self.bundle.pixel_camera = camera;
        self.camera_changed = true;
    }

    /// What stops the next frame, if anything does.
    pub fn contract_violation(&self) -> (r: Option<ContractViolation>)
        ensures
            r == self.violation(),
    {
        match self.pixelation {
            Some(p) => {
                if self.pixelation_added && !self.bundle.pixel_camera.has_positive_resolution() {
                    Some(ContractViolation::NonPositiveResolution)
                } else if self.pixelation_changed && !p.has_valid_joins() {
                    Some(ContractViolation::NegativeJoins)
                } else {
                    None
                }
            },
            None => None,
        }
    }

    /// The camera state as the renderer gets it: a copy, which no later
    /// write to the camera reaches.
    pub fn extract(&self) -> (r: PixelPerfectCamera)
        requires
            self.bundle.pixel_camera.has_positive_resolution(),
        ensures
            r == self.bundle.pixel_camera,
    {
        self.bundle.pixel_camera
    }

    /// The first step under its mark.
    pub fn run_pixelate_added(&mut self)
        requires
            old(self).violation() != Some(ContractViolation::NonPositiveResolution),
        ensures
            *final(self) == old(self).after_pixelate_added(),
    {
        if self.pixelation_added {
            match self.pixelation {
                Some(p) => {
                    let mut started = p;
                    pixelate_added(&mut started, &self.bundle.pixel_camera);
                    self.pixelation = Some(started);
                },
                None => {},
            }
        }
    }

    /// The second step under its mark.
    pub fn run_update_pixelation_resolution(&mut self, machine_power: Single)
        requires
            old(self).pixelation is Some && old(self).pixelation_changed ==> old(
                self,
            ).pixelation->0.spec_has_valid_joins(),
        ensures
            *final(self) == old(self).after_update_pixelation_resolution(machine_power),
    {
        if self.pixelation_changed {
            match self.pixelation {
                Some(p) => {
                    let mut camera = self.bundle.pixel_camera;
                    let mut projection = self.bundle.camera.projection;
                    update_pixelation_resolution(&mut camera, &mut projection, &p, machine_power);
                    self.bundle.pixel_camera = camera;
                    self.bundle.camera.projection = projection;
                    self.camera_changed = true;
                },
                None => {},
            }
        }
    }

    /// The third step under its mark.
    pub fn run_update_transform(&mut self)
        ensures
            *final(self) == old(self).after_update_transform(),
    {
        if self.camera_changed {
            let mut transform = self.bundle.camera.transform;
            update_transform(&mut transform, &self.bundle.pixel_camera);
            self.bundle.camera.transform = transform;
        }
    }

    /// One frame: the three steps in their order, each under its mark,
    /// then the marks cleared.  `machine_power` is two to the power of minus
    /// `joins` as the machine gives it; it is read only where the pixelation
    /// changed to a number of joins whose power is not exact.
    pub fn post_update(&mut self, machine_power: Single)
        requires
            old(self).violation() is None,
        ensures
            *final(self) == old(self).after_frame(machine_power),
    {
        self.run_pixelate_added();
        self.run_update_pixelation_resolution(machine_power);
        self.run_update_transform();
        self.camera_changed = false;
        self.pixelation_added = false;
        self.pixelation_changed = false;
    }
}

/// All cameras, each under the index that `spawn` gave it.
pub struct World {
    pub cameras: Vec<CameraEntity>,
}

impl World {
    /// No camera is about to break a step's contract.
    pub open spec fn violation_free(self) -> bool {
        forall|i: int| 0 <= i < self.cameras@.len() ==> (#[trigger] self.cameras@[i]).violation() is None
    }

    /// Every camera has a positive resolution.
    pub open spec fn all_resolutions_positive(self) -> bool {
        forall|i: int|
            0 <= i < self.cameras@.len() ==> (#[trigger] self.cameras@[i]).bundle.pixel_camera.spec_has_positive_resolution()
    }

    pub fn new() -> (r: World)
        ensures
            r.cameras@.len() == 0,
    {
        World { cameras: Vec::new() }
    }

    /// Adds a camera and returns its index.
    pub fn spawn(&mut self, bundle: PixelPerfectCameraBundle) -> (id: usize)
        ensures
            id == old(self).cameras@.len(),
            final(self).cameras@.len() == old(self).cameras@.len() + 1,
            forall|i: int| 0 <= i < id ==> final(self).cameras@[i] == old(self).cameras@[i],
            final(self).cameras@[id as int].bundle == bundle,
            final(self).cameras@[id as int].pixelation is None,
            final(self).cameras@[id as int].camera_changed,
            !final(self).cameras@[id as int].pixelation_added,
            !final(self).cameras@[id as int].pixelation_changed,
    {
        let id = self.cameras.len();
        self.cameras.push(CameraEntity::new(bundle));
        id
    }

    /// The first camera that is about to break a step's contract, with
    /// what it breaks; `None` where the frame can run.
    pub fn first_violation(&self) -> (r: Option<(usize, ContractViolation)>)
        ensures
            r is None <==> self.violation_free(),
            r matches Some((i, v)) ==> i < self.cameras@.len() && self.cameras@[i as int].violation()
                == Some(v) && forall|j: int| 0 <= j < i ==> (#[trigger] self.cameras@[j]).violation() is None,
    {
        let mut i: usize = 0;
        while i < self.cameras.len()
            invariant
                i <= self.cameras@.len(),
                forall|j: int| 0 <= j < i ==> (#[trigger] self.cameras@[j]).violation() is None,
            decreases self.cameras@.len() - i,
        {
            match self.cameras[i].contract_violation() {
                Some(v) => {
                    return Some((i, v));
                },
                None => {},
            }
            i = i + 1;
        }
        None
    }

    /// One frame over all cameras.  `machine_powers` holds, for each camera,
    /// two to the power of minus its `joins` as the machine gives it.
    pub fn post_update(&mut self, machine_powers: &Vec<Single>)
        requires
            machine_powers@.len() == old(self).cameras@.len(),
            old(self).violation_free(),
        ensures
            final(self).cameras@.len() == old(self).cameras@.len(),
            forall|i: int|
                0 <= i < old(self).cameras@.len() ==> #[trigger] final(self).cameras@[i] == old(
                    self,
                ).cameras@[i].after_frame(machine_powers@[i]),
    {
        let mut i: usize = 0;
        while i < self.cameras.len()
            invariant
                i <= self.cameras@.len(),
                self.cameras@.len() == old(self).cameras@.len(),
                machine_powers@.len() == self.cameras@.len(),
                old(self).violation_free(),
                forall|j: int|
                    0 <= j < i ==> #[trigger] self.cameras@[j] == old(self).cameras@[j].after_frame(
                        machine_powers@[j],
                    ),
                forall|j: int|
                    i <= j < self.cameras@.len() ==> #[trigger] self.cameras@[j] == old(
                        self,
                    ).cameras@[j],
            decreases self.cameras@.len() - i,
        {
            let mut camera = self.cameras[i];
            assert(old(self).cameras@[i as int].violation() is None);
            camera.post_update(machine_powers[i]);
            self.cameras.set(i, camera);
            i = i + 1;
        }
    }

    /// The first camera without a positive resolution; `None` where the
    /// camera states can go to the renderer.
    pub fn first_non_positive_resolution(&self) -> (r: Option<usize>)
        ensures
            r is None <==> self.all_resolutions_positive(),
            r matches Some(i) ==> i < self.cameras@.len()
                && !self.cameras@[i as int].bundle.pixel_camera.spec_has_positive_resolution()
                && forall|j: int|
                0 <= j < i ==> (#[trigger] self.cameras@[j]).bundle.pixel_camera.spec_has_positive_resolution(),
    {
        let mut i: usize = 0;
        while i < self.cameras.len()
            invariant
                i <= self.cameras@.len(),
                forall|j: int|
                    0 <= j < i ==> (#[trigger] self.cameras@[j]).bundle.pixel_camera.spec_has_positive_resolution(),
            decreases self.cameras@.len() - i,
        {
            if !self.cameras[i].bundle.pixel_camera.has_positive_resolution() {
                return Some(i);
            }
            i = i + 1;
        }
        None
    }

    /// The camera states as the renderer gets them: a copy of each, in the
    /// order of the cameras.
    pub fn extract(&self) -> (r: Vec<PixelPerfectCamera>)
        requires
            self.all_resolutions_positive(),
        ensures
            r@.len() == self.cameras@.len(),
            forall|i: int|
                0 <= i < r@.len() ==> #[trigger] r@[i] == self.cameras@[i].bundle.pixel_camera,
    {
        let mut r: Vec<PixelPerfectCamera> = Vec::new();
        let mut i: usize = 0;
        while i < self.cameras.len()
            invariant
                self.all_resolutions_positive(),
                i <= self.cameras@.len(),
                r@.len() == i,
                forall|j: int| 0 <= j < i ==> #[trigger] r@[j] == self.cameras@[j].bundle.pixel_camera,
            decreases self.cameras@.len() - i,
        {
            assert(self.cameras@[i as int].bundle.pixel_camera.spec_has_positive_resolution());
            r.push(self.cameras[i].extract());
            i = i + 1;
        }
        r
    }
}

} // verus!
