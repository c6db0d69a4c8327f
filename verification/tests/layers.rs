use xrizer::float_bits::{FRAC_PI_2, NEG_FRAC_PI_2, TWO_PI};
use xrizer::layers::{
    build_layer, is_shown, sort_layers, strip_order, Color4, ColorScaleBias, CylinderLayer,
    EquirectLayer, EyeVisibility, LayerBase, LayerError, OverlayLayer, OverlayLayerInner,
    QuadLayer, LAYER_FLAGS,
};
use xrizer::manager::OverlayMan;
use xrizer::overlay::Overlay;
use xrizer::session::OverlaySessionData;
use xrizer::types::{
    Capabilities, Extent2Di, GraphicsApi, Offset2Di, OverlayKind, Pose, Quaternion, Rect2Di,
    SwapchainInfo, TextureRequest, TrackingOrigin, Vector3,
};

fn caps() -> Capabilities {
    Capabilities { curved_layers: true, blend_bias: true }
}

fn bits(x: f32) -> u32 {
    x.to_bits()
}

fn texture(api: GraphicsApi) -> TextureRequest {
    let info = SwapchainInfo {
        create_flags: 0,
        usage_flags: 0,
        format: 37,
        sample_count: 1,
        width: 640,
        height: 480,
        face_count: 1,
        array_size: 1,
        mip_count: 1,
    };
    TextureRequest { api, required: info, negotiated: info }
}

fn extent() -> Extent2Di {
    Extent2Di { width: 640, height: 480 }
}

fn rect() -> Rect2Di {
    Rect2Di { offset: Offset2Di { x: 0, y: 0 }, extent: extent() }
}

fn default_pose() -> Pose {
    Pose {
        position: Vector3 { x: bits(0.0), y: bits(0.0), z: bits(-0.5) },
        orientation: Quaternion { x: bits(0.0), y: bits(0.0), z: bits(0.0), w: bits(1.0) },
    }
}

fn base(handle: u64, origin: TrackingOrigin) -> LayerBase {
    LayerBase {
        origin,
        layer_flags: 6,
        eye_visibility: EyeVisibility::Both,
        swapchain: handle,
        image_array_index: 0,
        image_rect: rect(),
    }
}

fn textured(key: &[u8]) -> Overlay {
    let mut overlay = Overlay::new(key.to_vec(), key.to_vec());
    overlay.compositor = Some(GraphicsApi::Vulkan);
    overlay.finish_texture(extent());
    overlay
}

/// An overlay that is visible and has been given a texture.
fn ready(man: &mut OverlayMan, session: &mut OverlaySessionData, key: &[u8], z: u32) -> u64 {
    let h = man.create_overlay(key.to_vec(), key.to_vec());
    assert_eq!(man.set_overlay_sort_order(h, z), Ok(()));
    assert_eq!(man.show_overlay(h), Ok(()));
    assert!(man.set_overlay_texture(h, session, texture(GraphicsApi::Vulkan)).is_ok());
    assert_eq!(man.finish_overlay_texture(h, extent()), Ok(()));
    h
}

fn swapchains(layers: &[OverlayLayer]) -> Vec<u64> {
    layers.iter().map(|l| l.deref().swapchain).collect()
}

#[test]
fn layer_flags_blend_unpremultiplied_alpha() {
    assert_eq!(LAYER_FLAGS, (1 << 1) | (1 << 2));
}

#[test]
fn flat_overlay_becomes_a_quad() {
    let mut overlay = textured(b"a");
    overlay.width = bits(2.0);
    let layer = build_layer(9, &overlay, TrackingOrigin::Seated);
    assert_eq!(
        *layer.layer(),
        OverlayLayerInner::Quad(QuadLayer {
            base: base(9, TrackingOrigin::Seated),
            pose: default_pose(),
            width: bits(2.0),
        })
    );
    assert_eq!(layer.color_scale_bias(), None);
    assert_eq!(*layer.deref(), base(9, TrackingOrigin::Seated));
}

#[test]
fn overlay_without_transform_stands_ahead_in_the_current_space() {
    let overlay = textured(b"a");
    let layer = build_layer(1, &overlay, TrackingOrigin::Standing);
    assert_eq!(layer.deref().origin, TrackingOrigin::Standing);
    match layer.layer() {
        OverlayLayerInner::Quad(quad) => {
            assert_eq!(f32::from_bits(quad.pose.position.x), 0.0);
            assert_eq!(f32::from_bits(quad.pose.position.y), 0.0);
            assert_eq!(f32::from_bits(quad.pose.position.z), -0.5);
            assert_eq!(f32::from_bits(quad.pose.orientation.w), 1.0);
        }
        other => panic!("{other:?}"),
    }
}

#[test]
fn transform_gives_space_and_pose() {
    let mut overlay = textured(b"a");
    let pose = Pose {
        position: Vector3 { x: bits(1.0), y: bits(2.0), z: bits(3.0) },
        orientation: Quaternion { x: bits(0.0), y: bits(1.0), z: bits(0.0), w: bits(0.0) },
    };
    overlay.transform = Some((TrackingOrigin::RawAndUncalibrated, pose));
    let layer = build_layer(1, &overlay, TrackingOrigin::Standing);
    assert_eq!(
        *layer.layer(),
        OverlayLayerInner::Quad(QuadLayer {
            base: base(1, TrackingOrigin::RawAndUncalibrated),
            pose,
            width: bits(1.0),
        })
    );
}

#[test]
fn curved_overlay_becomes_a_cylinder() {
    let mut overlay = textured(b"a");
    overlay.kind = OverlayKind::Curved { curvature: bits(0.25) };
    overlay.width = bits(3.0);
    let layer = build_layer(4, &overlay, TrackingOrigin::Seated);
    assert_eq!(
        *layer.layer(),
        OverlayLayerInner::Cylinder(CylinderLayer {
            base: base(4, TrackingOrigin::Seated),
            pose: default_pose(),
            width: bits(3.0),
            curvature: bits(0.25),
        })
    );
}

#[test]
fn curvature_zero_is_drawn_flat() {
    for zero in [bits(0.0), bits(-0.0), f32::NAN.to_bits()] {
        let mut overlay = textured(b"a");
        overlay.kind = OverlayKind::Curved { curvature: zero };
        overlay.width = bits(3.0);
        let layer = build_layer(4, &overlay, TrackingOrigin::Seated);
        assert_eq!(
            *layer.layer(),
            OverlayLayerInner::Quad(QuadLayer {
                base: base(4, TrackingOrigin::Seated),
                pose: default_pose(),
                width: bits(3.0),
            })
        );
    }
}

#[test]
fn curvature_clamped_from_below_is_drawn_flat() {
    let mut man = OverlayMan::new(caps());
    let mut session = OverlaySessionData::new();
    let h = ready(&mut man, &mut session, b"a", 0);
    assert_eq!(man.set_overlay_curvature(h, bits(-1.0)), Ok(()));
    let layers = man.get_layers(&session, GraphicsApi::Vulkan, TrackingOrigin::Seated, false);
    assert_eq!(layers.len(), 1);
    assert!(matches!(layers[0].layer(), OverlayLayerInner::Quad(_)));
    assert_eq!(man.set_overlay_curvature(h, bits(2.0)), Ok(()));
    let layers = man.get_layers(&session, GraphicsApi::Vulkan, TrackingOrigin::Seated, false);
    match layers[0].layer() {
        OverlayLayerInner::Cylinder(cylinder) => {
            assert_eq!(f32::from_bits(cylinder.curvature), 1.0)
        }
        other => panic!("{other:?}"),
    }
}

#[test]
fn sphere_spans_the_full_turn() {
    let mut overlay = textured(b"a");
    overlay.kind = OverlayKind::Sphere;
    overlay.width = bits(500.0);
    let layer = build_layer(2, &overlay, TrackingOrigin::Standing);
    assert_eq!(
        *layer.layer(),
        OverlayLayerInner::Equirect2(EquirectLayer {
            base: base(2, TrackingOrigin::Standing),
            pose: default_pose(),
            radius: bits(500.0),
            central_horizontal_angle: bits(2.0 * std::f32::consts::PI),
            upper_vertical_angle: bits(0.5 * std::f32::consts::PI),
            lower_vertical_angle: bits(-0.5 * std::f32::consts::PI),
        })
    );
    assert_eq!(TWO_PI, bits(2.0 * std::f32::consts::PI));
    assert_eq!(FRAC_PI_2, bits(std::f32::consts::FRAC_PI_2));
    assert_eq!(NEG_FRAC_PI_2, bits(-std::f32::consts::FRAC_PI_2));
}

#[test]
fn alpha_attaches_a_payload() {
    let mut overlay = textured(b"a");
    overlay.alpha = Some(bits(0.5));
    let layer = build_layer(2, &overlay, TrackingOrigin::Standing);
    assert_eq!(
        layer.color_scale_bias(),
        Some(ColorScaleBias {
            color_scale: Color4 { r: bits(0.0), g: bits(0.0), b: bits(0.0), a: bits(0.5) },
            color_bias: Color4 { r: bits(0.0), g: bits(0.0), b: bits(0.0), a: bits(0.0) },
        })
    );
}

#[test]
fn alpha_one_attaches_no_payload() {
    let mut man = OverlayMan::new(caps());
    let mut session = OverlaySessionData::new();
    let h = ready(&mut man, &mut session, b"a", 0);
    assert_eq!(man.set_overlay_alpha(h, bits(0.5)), Ok(()));
    let layers = man.get_layers(&session, GraphicsApi::Vulkan, TrackingOrigin::Seated, false);
    assert!(layers[0].color_scale_bias().is_some());
    assert_eq!(man.set_overlay_alpha(h, bits(1.0)), Ok(()));
    let layers = man.get_layers(&session, GraphicsApi::Vulkan, TrackingOrigin::Seated, false);
    assert_eq!(layers.len(), 1);
    assert_eq!(layers[0].color_scale_bias(), None);
}

#[test]
fn set_alpha_once() {
    let quad = OverlayLayerInner::Quad(QuadLayer {
        base: base(1, TrackingOrigin::Seated),
        pose: default_pose(),
        width: bits(1.0),
    });
    let mut layer = OverlayLayer::from(quad);
    assert_eq!(*layer.layer(), quad);
    assert_eq!(layer.color_scale_bias(), None);
    assert_eq!(layer.set_alpha(bits(0.75)), Ok(()));
    let payload = layer.color_scale_bias().unwrap();
    assert_eq!(f32::from_bits(payload.color_scale.a), 0.75);
    assert_eq!(*layer.layer(), quad);
}

#[test]
fn set_alpha_twice_is_refused() {
    let quad = OverlayLayerInner::Quad(QuadLayer {
        base: base(1, TrackingOrigin::Seated),
        pose: default_pose(),
        width: bits(1.0),
    });
    let mut layer = OverlayLayer::from(quad);
    assert_eq!(layer.set_alpha(bits(0.75)), Ok(()));
    let before = layer;
    assert_eq!(layer.set_alpha(bits(0.25)), Err(LayerError::AlphaAlreadySet));
    assert_eq!(layer, before);
}

#[test]
fn inner_deref_gives_the_base_of_each_shape() {
    let b = base(3, TrackingOrigin::Seated);
    let quad = OverlayLayerInner::Quad(QuadLayer { base: b, pose: default_pose(), width: 0 });
    let cylinder = OverlayLayerInner::Cylinder(CylinderLayer {
        base: b,
        pose: default_pose(),
        width: 0,
        curvature: 0,
    });
    let sphere = OverlayLayerInner::Equirect2(EquirectLayer {
        base: b,
        pose: default_pose(),
        radius: 0,
        central_horizontal_angle: 0,
        upper_vertical_angle: 0,
        lower_vertical_angle: 0,
    });
    assert_eq!(*quad.deref(), b);
    assert_eq!(*cylinder.deref(), b);
    assert_eq!(*sphere.deref(), b);
}

#[test]
fn shown_needs_visibility_and_texture() {
    let mut overlay = Overlay::new(b"a".to_vec(), b"a".to_vec());
    assert!(!is_shown(&overlay, true));
    overlay.visible = true;
    assert!(!is_shown(&overlay, true));
    overlay.finish_texture(extent());
    assert!(!is_shown(&overlay, true));
    overlay.compositor = Some(GraphicsApi::OpenGl);
    overlay.finish_texture(extent());
    assert!(is_shown(&overlay, true));
    assert!(is_shown(&overlay, false));
    overlay.z_order = -1;
    assert!(is_shown(&overlay, true));
    assert!(!is_shown(&overlay, false));
    overlay.visible = false;
    assert!(!is_shown(&overlay, true));
}

#[test]
fn sort_is_stable_and_ascending() {
    let layer = |h: u64| build_layer(h, &textured(b"a"), TrackingOrigin::Seated);
    let entries = vec![
        (5, layer(1)),
        (-1, layer(2)),
        (3, layer(3)),
        (5, layer(4)),
        (3, layer(5)),
        (-1, layer(6)),
        (0, layer(7)),
    ];
    let sorted = sort_layers(&entries);
    let order: Vec<i64> = sorted.iter().map(|e| e.0).collect();
    assert_eq!(order, vec![-1, -1, 0, 3, 3, 5, 5]);
    assert_eq!(swapchains(&strip_order(&sorted)), vec![2, 6, 7, 3, 5, 1, 4]);
    assert!(sort_layers(&Vec::new()).is_empty());
}

#[test]
fn layers_come_out_by_draw_order_keeping_ties() {
    let mut man = OverlayMan::new(caps());
    let mut session = OverlaySessionData::new();
    let first = ready(&mut man, &mut session, b"first", 5);
    let faces = man.set_skybox(&mut session, &vec![texture(GraphicsApi::Vulkan)]);
    let sky = faces[0].handle;
    assert_eq!(man.finish_overlay_texture(sky, extent()), Ok(()));
    let third = ready(&mut man, &mut session, b"third", 3);
    let fourth = ready(&mut man, &mut session, b"fourth", 5);
    let orders: Vec<i64> =
        [first, sky, third, fourth].iter().map(|h| man.overlay(*h).unwrap().z_order).collect();
    assert_eq!(orders, vec![5, -1, 3, 5]);
    assert!(man.can_get_layers(&session, GraphicsApi::Vulkan, true));
    let layers = man.get_layers(&session, GraphicsApi::Vulkan, TrackingOrigin::Seated, true);
    assert_eq!(swapchains(&layers), vec![sky, third, first, fourth]);
    let drawn: Vec<i64> =
        swapchains(&layers).iter().map(|h| man.overlay(*h).unwrap().z_order).collect();
    assert_eq!(drawn, vec![-1, 3, 5, 5]);
    assert!(matches!(layers[0].layer(), OverlayLayerInner::Equirect2(_)));
}

#[test]
fn skybox_is_left_out_unless_asked_for() {
    let mut man = OverlayMan::new(caps());
    let mut session = OverlaySessionData::new();
    let first = ready(&mut man, &mut session, b"first", 5);
    let faces = man.set_skybox(&mut session, &vec![texture(GraphicsApi::Vulkan)]);
    assert_eq!(man.finish_overlay_texture(faces[0].handle, extent()), Ok(()));
    let layers = man.get_layers(&session, GraphicsApi::Vulkan, TrackingOrigin::Seated, false);
    assert_eq!(swapchains(&layers), vec![first]);
}

#[test]
fn hidden_and_untextured_overlays_are_left_out() {
    let mut man = OverlayMan::new(caps());
    let mut session = OverlaySessionData::new();
    let shown = ready(&mut man, &mut session, b"shown", 1);
    let hidden = ready(&mut man, &mut session, b"hidden", 0);
    assert_eq!(man.hide_overlay(hidden), Ok(()));
    let untextured = man.create_overlay(b"untextured".to_vec(), b"u".to_vec());
    assert_eq!(man.show_overlay(untextured), Ok(()));
    let submitted = man.create_overlay(b"submitted".to_vec(), b"s".to_vec());
    assert_eq!(man.show_overlay(submitted), Ok(()));
    assert!(man.set_overlay_texture(submitted, &mut session, texture(GraphicsApi::Vulkan)).is_ok());
    let layers = man.get_layers(&session, GraphicsApi::Vulkan, TrackingOrigin::Seated, true);
    assert_eq!(swapchains(&layers), vec![shown]);
}

#[test]
fn ties_follow_slot_order_not_creation_time() {
    let mut man = OverlayMan::new(caps());
    let mut session = OverlaySessionData::new();
    let a = ready(&mut man, &mut session, b"a", 2);
    let b = ready(&mut man, &mut session, b"b", 2);
    let c = ready(&mut man, &mut session, b"c", 2);
    man.destroy_overlay(a, &mut session);
    let d = ready(&mut man, &mut session, b"d", 2);
    assert_eq!(d & 0xffff_ffff, a & 0xffff_ffff);
    let layers = man.get_layers(&session, GraphicsApi::Vulkan, TrackingOrigin::Seated, true);
    assert_eq!(swapchains(&layers), vec![d, b, c]);
}

#[test]
fn session_without_swapchains_has_no_layers() {
    let mut man = OverlayMan::new(caps());
    let mut old_session = OverlaySessionData::new();
    ready(&mut man, &mut old_session, b"a", 0);
    let session = OverlaySessionData::new();
    assert!(man.can_get_layers(&session, GraphicsApi::OpenGl, true));
    let layers = man.get_layers(&session, GraphicsApi::OpenGl, TrackingOrigin::Seated, true);
    assert!(layers.is_empty());
}

#[test]
fn layers_cannot_be_asked_for_another_interface() {
    let mut man = OverlayMan::new(caps());
    let mut session = OverlaySessionData::new();
    let a = ready(&mut man, &mut session, b"a", 0);
    assert!(man.can_get_layers(&session, GraphicsApi::Vulkan, true));
    assert!(!man.can_get_layers(&session, GraphicsApi::OpenGl, true));
    let origin = TrackingOrigin::Seated;
    assert_eq!(man.try_get_layers(&session, GraphicsApi::OpenGl, origin, true), None);
    let layers = man.try_get_layers(&session, GraphicsApi::Vulkan, origin, true).unwrap();
    assert_eq!(swapchains(&layers), vec![a]);
    assert_eq!(layers, man.get_layers(&session, GraphicsApi::Vulkan, origin, true));
}

#[test]
fn layers_cannot_be_asked_while_a_shown_overlay_lacks_its_swapchain() {
    let mut man = OverlayMan::new(caps());
    let mut old_session = OverlaySessionData::new();
    let a = ready(&mut man, &mut old_session, b"a", 0);
    let mut session = OverlaySessionData::new();
    ready(&mut man, &mut session, b"b", 0);
    assert!(!man.can_get_layers(&session, GraphicsApi::Vulkan, true));
    assert_eq!(man.try_get_layers(&session, GraphicsApi::Vulkan, TrackingOrigin::Seated, true), None);
    assert_eq!(man.hide_overlay(a), Ok(()));
    assert!(man.can_get_layers(&session, GraphicsApi::Vulkan, true));
    assert!(man.try_get_layers(&session, GraphicsApi::Vulkan, TrackingOrigin::Seated, true).is_some());
}
