//! What the plugin asks of the host: which steps run, in which sets, what
//! must come before what, and where the render pass sits.

use vstd::prelude::*;

verus! {

/// The two sets that the camera's steps run in.  A host may order its own
/// systems against them.
#[derive(Clone, Copy, Debug, PartialEq, Eq, Hash, Structural)]
pub enum PixelPerfectSet {
    Pixelation,
    TransformPropagate,
}

/// A pixel perfect post processing effect.  Set the image sampling of the
/// host to nearest when using it.
#[derive(Clone, Copy, Debug, PartialEq, Eq, Structural)]
pub struct PixelPerfectPlugin;

/// The three steps of the camera.
#[derive(Clone, Copy, Debug, PartialEq, Eq, Structural)]
pub enum System {
    PixelateAdded,
    UpdatePixelationResolution,
    UpdateTransform,
}

/// Something that runs once a frame after the host's update: one of the
/// two sets, or one of the two host systems that read what the sets write.
#[derive(Clone, Copy, Debug, PartialEq, Eq, Structural)]
pub enum Anchor {
    Group(PixelPerfectSet),
    /// The host computes the camera's matrices from its projection.
    HostCameraUpdate,
    /// The host hands transforms down to the children.
    HostTransformPropagate,
}

/// `first` must have finished before `second` starts.
#[derive(Clone, Copy, Debug, PartialEq, Eq, Structural)]
pub struct Before {
    pub first: Anchor,
    pub second: Anchor,
}

/// A place in the host's render graph for two-dimensional views.
#[derive(Clone, Copy, Debug, PartialEq, Eq, Structural)]
pub enum GraphNode {
    HostTonemapping,
    PixelPerfect,
    HostEndMainPassPostProcessing,
}

/// All that the plugin registers with the host.
pub struct Registration {
    /// Multisampling is switched off: the pass samples single pixels.
    pub multisampling: bool,
    /// The camera state is copied to the renderer once a frame.
    pub extract_camera: bool,
    /// The copied camera state is uploaded as a uniform, one per camera.
    pub camera_uniform: bool,
    /// The steps with their sets.  Steps of one set run in this order.
    pub systems: Vec<(System, PixelPerfectSet)>,
    /// The order among sets and host systems.
    pub order: Vec<Before>,
    /// The render graph runs these nodes one after the other.
    pub render_graph: Vec<GraphNode>,
}

/// The set that a step runs in.
pub open spec fn set_of(system: System) -> PixelPerfectSet {
    match system {
        System::PixelateAdded => PixelPerfectSet::Pixelation,
        System::UpdatePixelationResolution => PixelPerfectSet::Pixelation,
        System::UpdateTransform => PixelPerfectSet::TransformPropagate,
    }
}

/// The steps with their sets, in their order.
pub open spec fn registered_systems() -> Seq<(System, PixelPerfectSet)> {
    seq![
        (System::PixelateAdded, PixelPerfectSet::Pixelation),
        (System::UpdatePixelationResolution, PixelPerfectSet::Pixelation),
        (System::UpdateTransform, PixelPerfectSet::TransformPropagate),
    ]
}

/// The order that the plugin asks for.
pub open spec fn registered_order() -> Seq<Before> {
    seq![
        Before {
            first: Anchor::Group(PixelPerfectSet::Pixelation),
            second: Anchor::Group(PixelPerfectSet::TransformPropagate),
        },
        Before { first: Anchor::Group(PixelPerfectSet::Pixelation), second: Anchor::HostCameraUpdate },
        Before {
            first: Anchor::Group(PixelPerfectSet::TransformPropagate),
            second: Anchor::HostTransformPropagate,
        },
    ]
}

/// The pass runs after tone mapping and before the end of post processing.
pub open spec fn registered_render_graph() -> Seq<GraphNode> {
    seq![GraphNode::HostTonemapping, GraphNode::PixelPerfect, GraphNode::HostEndMainPassPostProcessing]
}

/// When things run in one frame: a time for each step and for each of
/// the two host systems.
pub struct Schedule {
    pub system: spec_fn(System) -> int,
    pub host_camera_update: int,
    pub host_transform_propagate: int,
}

impl Schedule {
    /// Every step of `first` runs before every step of `second`.
    pub open spec fn orders(self, first: Anchor, second: Anchor) -> bool {
        match (first, second) {
            (Anchor::Group(a), Anchor::Group(b)) => forall|s: System, t: System|
                set_of(s) == a && set_of(t) == b ==> (#[trigger] (self.system)(s)) < (#[trigger] (self.system)(t)),
            (Anchor::Group(a), Anchor::HostCameraUpdate) => forall|s: System|
                set_of(s) == a ==> (#[trigger] (self.system)(s)) < self.host_camera_update,
            (Anchor::Group(a), Anchor::HostTransformPropagate) => forall|s: System|
                set_of(s) == a ==> (#[trigger] (self.system)(s)) < self.host_transform_propagate,
            (Anchor::HostCameraUpdate, Anchor::Group(b)) => forall|t: System|
                set_of(t) == b ==> self.host_camera_update < (#[trigger] (self.system)(t)),
            (Anchor::HostTransformPropagate, Anchor::Group(b)) => forall|t: System|
                set_of(t) == b ==> self.host_transform_propagate < (#[trigger] (self.system)(t)),
            (Anchor::HostCameraUpdate, Anchor::HostTransformPropagate) => self.host_camera_update
                < self.host_transform_propagate,
            (Anchor::HostTransformPropagate, Anchor::HostCameraUpdate) => self.host_transform_propagate
                < self.host_camera_update,
            (Anchor::HostCameraUpdate, Anchor::HostCameraUpdate) => false,
            (Anchor::HostTransformPropagate, Anchor::HostTransformPropagate) => false,
        }
    }

    /// The schedule keeps every order asked for, and runs the steps of one
    /// set in the order in which they were registered.
    pub open spec fn respects(self, systems: Seq<(System, PixelPerfectSet)>, order: Seq<Before>) -> bool {
        &&& forall|i: int| 0 <= i < order.len() ==> self.orders(#[trigger] order[i].first, order[i].second)
        &&& forall|i: int, j: int|
            0 <= i < j < systems.len() && systems[i].1 == systems[j].1 ==> (self.system)(
                #[trigger] systems[i].0,
            ) < (self.system)(#[trigger] systems[j].0)
    }
}

impl PixelPerfectPlugin {
    /// What the plugin registers with the host.
    pub fn build(&self) -> (r: Registration)
        ensures
            !r.multisampling,
            r.extract_camera,
            r.camera_uniform,
            r.systems@ == registered_systems(),
            r.order@ == registered_order(),
            r.render_graph@ == registered_render_graph(),
    {
        let mut systems: Vec<(System, PixelPerfectSet)> = Vec::new();
        systems.push((System::PixelateAdded, PixelPerfectSet::Pixelation));
        systems.push((System::UpdatePixelationResolution, PixelPerfectSet::Pixelation));
        systems.push((System::UpdateTransform, PixelPerfectSet::TransformPropagate));
        let mut order: Vec<Before> = Vec::new();
        order.push(
            Before {
                first: Anchor::Group(PixelPerfectSet::Pixelation),
                second: Anchor::Group(PixelPerfectSet::TransformPropagate),
            },
        );
        order.push(
            Before { first: Anchor::Group(PixelPerfectSet::Pixelation), second: Anchor::HostCameraUpdate },
        );
        order.push(
            Before {
                first: Anchor::Group(PixelPerfectSet::TransformPropagate),
                second: Anchor::HostTransformPropagate,
            },
        );
        let mut render_graph: Vec<GraphNode> = Vec::new();
        render_graph.push(GraphNode::HostTonemapping);
        render_graph.push(GraphNode::PixelPerfect);
        render_graph.push(GraphNode::HostEndMainPassPostProcessing);
        assert(systems@ =~= registered_systems());
        assert(order@ =~= registered_order());
        assert(render_graph@ =~= registered_render_graph());
        Registration {
            multisampling: false,
            extract_camera: true,
            camera_uniform: true,
            systems,
            order,
            render_graph,
        }
    }
}

/// Whatever schedule the host makes of what the plugin registers, the
/// resolution is noted before it is updated, the update comes before the
/// transform is snapped, both come before the host reads them, all in one
/// and the same frame.
pub proof fn lemma_registered_order(schedule: Schedule)
    requires
        schedule.respects(registered_systems(), registered_order()),
    ensures
        (schedule.system)(System::PixelateAdded) < (schedule.system)(
            System::UpdatePixelationResolution,
        ),
        (schedule.system)(System::UpdatePixelationResolution) < (schedule.system)(
            System::UpdateTransform,
        ),
        (schedule.system)(System::UpdatePixelationResolution) < schedule.host_camera_update,
        (schedule.system)(System::UpdateTransform) < schedule.host_transform_propagate,
{
    let systems = registered_systems();
    let order = registered_order();
    assert(systems[0].1 == systems[1].1);
    assert(systems[0].0 == System::PixelateAdded && systems[1].0 == System::UpdatePixelationResolution);
    assert(schedule.orders(order[0].first, order[0].second));
    assert(schedule.orders(order[1].first, order[1].second));
    assert(schedule.orders(order[2].first, order[2].second));
    assert(set_of(System::UpdatePixelationResolution) == PixelPerfectSet::Pixelation);
    assert(set_of(System::UpdateTransform) == PixelPerfectSet::TransformPropagate);
}

} // verus!
