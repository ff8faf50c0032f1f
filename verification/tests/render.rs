use bevy_pixel_perfect::plugin::{Anchor, Before, GraphNode, System};
use bevy_pixel_perfect::render::{
    BindGroup, BindGroupLayoutEntry, BindGroupResource, BindingKind, Draw, NodeAction, ViewResources,
};
use bevy_pixel_perfect::{PixelPerfectNode, PixelPerfectPipeline, PixelPerfectPlugin, PixelPerfectSet};

#[test]
fn pipeline_has_four_bindings() {
    let p = PixelPerfectPipeline::new(48, 592);
    assert_eq!(
        p.layout,
        vec![
            BindGroupLayoutEntry { binding: 0, kind: BindingKind::FilterableTexture2d },
            BindGroupLayoutEntry { binding: 1, kind: BindingKind::FilteringSampler },
            BindGroupLayoutEntry { binding: 2, kind: BindingKind::UniformBuffer { min_binding_size: 48 } },
            BindGroupLayoutEntry { binding: 3, kind: BindingKind::UniformBuffer { min_binding_size: 592 } },
        ]
    );
    assert_eq!(p.vertex_buffers, 0);
    assert_eq!(p.color_targets, 1);
    assert!(!p.blending);
    assert!(!p.depth_stencil);
    assert_eq!(p.sample_count, 1);
}

#[test]
fn node_name() {
    assert_eq!(PixelPerfectNode::NAME, "pixel_perfect");
}

#[test]
fn node_draws_when_all_is_ready() {
    let action = PixelPerfectNode.run(ViewResources {
        pipeline_compiled: true,
        camera_uniform_bound: true,
        view_uniform_bound: true,
    });
    assert_eq!(
        action,
        NodeAction::Render(Draw {
            bind_group: BindGroup {
                binding_0: BindGroupResource::SourceTexture,
                binding_1: BindGroupResource::Sampler,
                binding_2: BindGroupResource::CameraUniform,
                binding_3: BindGroupResource::ViewUniform,
            },
            bind_group_index: 0,
            first_vertex: 0,
            vertex_count: 3,
            first_instance: 0,
            instance_count: 1,
        })
    );
}

#[test]
fn node_skips_whatever_is_missing() {
    for bits in 0..7u8 {
        let resources = ViewResources {
            pipeline_compiled: bits & 1 != 0,
            camera_uniform_bound: bits & 2 != 0,
            view_uniform_bound: bits & 4 != 0,
        };
        assert_eq!(PixelPerfectNode.run(resources), NodeAction::Skip);
    }
}

#[test]
fn node_skips_without_camera_uniform() {
    let action = PixelPerfectNode.run(ViewResources {
        pipeline_compiled: true,
        camera_uniform_bound: false,
        view_uniform_bound: true,
    });
    assert_eq!(action, NodeAction::Skip);
}

#[test]
fn plugin_registration() {
    let r = PixelPerfectPlugin.build();
    assert!(!r.multisampling);
    assert!(r.extract_camera);
    assert!(r.camera_uniform);
    assert_eq!(
        r.systems,
        vec![
            (System::PixelateAdded, PixelPerfectSet::Pixelation),
            (System::UpdatePixelationResolution, PixelPerfectSet::Pixelation),
            (System::UpdateTransform, PixelPerfectSet::TransformPropagate),
        ]
    );
    assert_eq!(
        r.order,
        vec![
            Before {
                first: Anchor::Group(PixelPerfectSet::Pixelation),
                second: Anchor::Group(PixelPerfectSet::TransformPropagate),
            },
            Before { first: Anchor::Group(PixelPerfectSet::Pixelation), second: Anchor::HostCameraUpdate },
            Before {
                first: Anchor::Group(PixelPerfectSet::TransformPropagate),
                second: Anchor::HostTransformPropagate,
            },
        ]
    );
    assert_eq!(
        r.render_graph,
        vec![GraphNode::HostTonemapping, GraphNode::PixelPerfect, GraphNode::HostEndMainPassPostProcessing]
    );
}
