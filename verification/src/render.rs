//! The render pass: what its pipeline is made of, and what the pass does
//! for one view in one frame.

use vstd::prelude::*;

verus! {

/// What kind of resource a binding takes.
#[derive(Clone, Copy, Debug, PartialEq, Eq, Structural)]
pub enum BindingKind {
    /// A two-dimensional texture of filterable floats, not multisampled.
    FilterableTexture2d,
    /// A sampler that filters.
    FilteringSampler,
    /// A uniform buffer of at least this many bytes, at a fixed offset.
    UniformBuffer { min_binding_size: u64 },
}

/// One binding of the pass.  All of them are visible to the fragment stage
/// and to no other.
#[derive(Clone, Copy, Debug, PartialEq, Eq, Structural)]
pub struct BindGroupLayoutEntry {
    pub binding: u32,
    pub kind: BindingKind,
}

/// The pipeline of the pass.  It is made once and never changed; all
/// frames and all cameras share it.
pub struct PixelPerfectPipeline {
    /// The bindings of the fragment stage, in the order of their numbers.
    pub layout: Vec<BindGroupLayoutEntry>,
    /// How many vertex buffers the vertex stage reads: none, it makes one
    /// triangle that covers the screen.
    pub vertex_buffers: u32,
    /// How many colour targets the pass writes: one, in the format of the
    /// host's back buffer, all channels.
    pub color_targets: u32,
    pub blending: bool,
    pub depth_stencil: bool,
    /// Samples per pixel: one, no multisampling.
    pub sample_count: u32,
}

/// The four bindings: the screen texture, its sampler, the camera state,
/// the host's view state.
pub open spec fn pass_layout(camera_uniform_size: u64, view_uniform_size: u64) -> Seq<
    BindGroupLayoutEntry,
> {
    seq![
        BindGroupLayoutEntry { binding: 0, kind: BindingKind::FilterableTexture2d },
        BindGroupLayoutEntry { binding: 1, kind: BindingKind::FilteringSampler },
        BindGroupLayoutEntry {
            binding: 2,
            kind: BindingKind::UniformBuffer { min_binding_size: camera_uniform_size },
        },
        BindGroupLayoutEntry {
            binding: 3,
            kind: BindingKind::UniformBuffer { min_binding_size: view_uniform_size },
        },
    ]
}

impl PixelPerfectPipeline {
    /// The pipeline for a camera state of `camera_uniform_size` bytes and a
    /// view state of `view_uniform_size` bytes, both as the host lays them
    /// out in a uniform buffer.
    pub fn new(camera_uniform_size: u64, view_uniform_size: u64) -> (r: PixelPerfectPipeline)
        ensures
            r.layout@ == pass_layout(camera_uniform_size, view_uniform_size),
            r.vertex_buffers == 0,
            r.color_targets == 1,
            !r.blending,
            !r.depth_stencil,
            r.sample_count == 1,
    {
        let mut layout: Vec<BindGroupLayoutEntry> = Vec::new();
        layout.push(BindGroupLayoutEntry { binding: 0, kind: BindingKind::FilterableTexture2d });
        layout.push(BindGroupLayoutEntry { binding: 1, kind: BindingKind::FilteringSampler });
        layout.push(
            BindGroupLayoutEntry {
                binding: 2,
                kind: BindingKind::UniformBuffer { min_binding_size: camera_uniform_size },
            },
        );
        layout.push(
            BindGroupLayoutEntry {
                binding: 3,
                kind: BindingKind::UniformBuffer { min_binding_size: view_uniform_size },
            },
        );
        assert(layout@ =~= pass_layout(camera_uniform_size, view_uniform_size));
        PixelPerfectPipeline {
            layout,
            vertex_buffers: 0,
            color_targets: 1,
            blending: false,
            depth_stencil: false,
            sample_count: 1,
        }
    }
}

/// What the host has ready for one view in this frame.
#[derive(Clone, Copy, Debug, PartialEq, Eq, Structural)]
pub struct ViewResources {
    /// The pipeline cache has compiled the pipeline.
    pub pipeline_compiled: bool,
    /// The camera states have been uploaded.
    pub camera_uniform_bound: bool,
    /// The host's view states have been uploaded.
    pub view_uniform_bound: bool,
}

/// What goes into one slot of the bind group.
#[derive(Clone, Copy, Debug, PartialEq, Eq, Structural)]
pub enum BindGroupResource {
    /// The texture that the passes before have written.
    SourceTexture,
    Sampler,
    CameraUniform,
    ViewUniform,
}

/// The resources of a bind group, each under the number of its binding.
#[derive(Clone, Copy, Debug, PartialEq, Eq, Structural)]
pub struct BindGroup {
    pub binding_0: BindGroupResource,
    pub binding_1: BindGroupResource,
    pub binding_2: BindGroupResource,
    pub binding_3: BindGroupResource,
}

/// One draw over the whole screen.
#[derive(Clone, Copy, Debug, PartialEq, Eq, Structural)]
pub struct Draw {
    /// The resources of the bind group, slot by slot.
    pub bind_group: BindGroup,
    /// The index under which the bind group is set.
    pub bind_group_index: u32,
    pub first_vertex: u32,
    pub vertex_count: u32,
    pub first_instance: u32,
    pub instance_count: u32,
}

/// What the pass does for one view.
#[derive(Clone, Copy, Debug, PartialEq, Eq, Structural)]
pub enum NodeAction {
    /// Nothing: something is not ready yet.  No texture is taken, nothing
    /// is drawn, and the output of the passes before stays as it is.
    Skip,
    /// Take the view's pair of textures, bind, and draw from the source
    /// into the destination.
    Render(Draw),
}

/// The one draw of the pass: the four resources in the order of the
/// layout, three vertices, one instance.
pub open spec fn full_screen_draw() -> Draw {
    Draw {
        bind_group: BindGroup {
            binding_0: BindGroupResource::SourceTexture,
            binding_1: BindGroupResource::Sampler,
            binding_2: BindGroupResource::CameraUniform,
            binding_3: BindGroupResource::ViewUniform,
        },
        bind_group_index: 0,
        first_vertex: 0,
        vertex_count: 3,
        first_instance: 0,
        instance_count: 1,
    }
}

/// The pass renders where everything is ready, and skips otherwise.
pub open spec fn planned(resources: ViewResources) -> NodeAction {
    if resources.pipeline_compiled && resources.camera_uniform_bound
        && resources.view_uniform_bound {
        NodeAction::Render(full_screen_draw())
    } else {
        NodeAction::Skip
    }
}

impl NodeAction {
    /// How many draw calls the action makes.
    pub open spec fn draw_calls(self) -> nat {
        match self {
            NodeAction::Skip => 0,
            NodeAction::Render(_) => 1,
        }
    }

    /// Whether the action writes to the destination texture.
    pub open spec fn writes_destination(self) -> bool {
        self is Render
    }
}

/// The render pass of the pixel perfect camera.
#[derive(Clone, Copy, Debug, Default, PartialEq, Eq, Structural)]
pub struct PixelPerfectNode;

impl PixelPerfectNode {
    /// The name of the pass in the host's render graph.
    pub const NAME: &'static str = "pixel_perfect";

    /// What to do for one view in this frame.  A pipeline that is still
    /// being compiled or a uniform that has not been uploaded is no error:
    /// the view is skipped, and a later frame finds it ready.
    pub fn run(&self, resources: ViewResources) -> (action: NodeAction)
        ensures
            action == planned(resources),
            !resources.pipeline_compiled ==> action.draw_calls() == 0 && !action.writes_destination(),
            !resources.camera_uniform_bound ==> action.draw_calls() == 0
                && !action.writes_destination(),
            !resources.view_uniform_bound ==> action.draw_calls() == 0 && !action.writes_destination(),
    {
        if !resources.pipeline_compiled {
            return NodeAction::Skip;
        }
        if !resources.camera_uniform_bound {
            return NodeAction::Skip;
        }
        if !resources.view_uniform_bound {
            return NodeAction::Skip;
        }
        NodeAction::Render(
            Draw {
                bind_group: BindGroup {
                    binding_0: BindGroupResource::SourceTexture,
                    binding_1: BindGroupResource::Sampler,
                    binding_2: BindGroupResource::CameraUniform,
                    binding_3: BindGroupResource::ViewUniform,
                },
                bind_group_index: 0,
                first_vertex: 0,
                vertex_count: 3,
                first_instance: 0,
                instance_count: 1,
            },
        )
    }
}

} // verus!
