use xrizer::manager::OverlayMan;
use xrizer::skybox::SkyboxFace;
use xrizer::types::OverlayError;
use xrizer::overlay::SKYBOX_Z_ORDER;
use xrizer::session::OverlaySessionData;
use xrizer::skybox::{
    new_skybox_overlay, skybox_face_pose, skybox_overlay_name, NEG_SKYBOX_SIZE,
    SKYBOX_FACE_WIDTH, SKYBOX_SIZE,
};
use xrizer::types::{
    Capabilities, GraphicsApi, OverlayKind, Pose, Quaternion, SwapchainAction, SwapchainInfo,
    TextureError, TextureRequest, TrackingOrigin, Vector3,
};

const F: f32 = std::f32::consts::FRAC_1_SQRT_2;

fn caps() -> Capabilities {
    Capabilities { curved_layers: true, blend_bias: true }
}

fn texture(api: GraphicsApi, width: u32) -> TextureRequest {
    let info = SwapchainInfo {
        create_flags: 0,
        usage_flags: 0,
        format: 37,
        sample_count: 1,
        width,
        height: width,
        face_count: 1,
        array_size: 1,
        mip_count: 1,
    };
    TextureRequest { api, required: info, negotiated: info }
}

fn pose(p: [f32; 3], q: [f32; 4]) -> Pose {
    Pose {
        position: Vector3 { x: p[0].to_bits(), y: p[1].to_bits(), z: p[2].to_bits() },
        orientation: Quaternion {
            x: q[0].to_bits(),
            y: q[1].to_bits(),
            z: q[2].to_bits(),
            w: q[3].to_bits(),
        },
    }
}

#[test]
fn skybox_constants_are_the_patterns_of_their_numbers() {
    assert_eq!(SKYBOX_SIZE, 500.0f32.to_bits());
    assert_eq!(NEG_SKYBOX_SIZE, (-500.0f32).to_bits());
    assert_eq!(SKYBOX_FACE_WIDTH, (500.0f32 * 2.0).to_bits());
    assert_eq!(SKYBOX_Z_ORDER, -1);
}

#[test]
fn skybox_names() {
    assert_eq!(skybox_overlay_name(false, 0), b"__xrizer_skybox".to_vec());
    for face in 0..6 {
        assert_eq!(
            skybox_overlay_name(true, face),
            format!("__xrizer_skybox_{}", face).into_bytes()
        );
    }
}

#[test]
fn skybox_face_poses() {
    assert_eq!(skybox_face_pose(0), pose([0.0, 0.0, -500.0], [0.0, 0.0, 1.0, 0.0]));
    assert_eq!(skybox_face_pose(1), pose([0.0, 0.0, 500.0], [1.0, 0.0, 0.0, 0.0]));
    assert_eq!(skybox_face_pose(2), pose([-500.0, 0.0, 0.0], [F, 0.0, F, 0.0]));
    assert_eq!(skybox_face_pose(3), pose([500.0, 0.0, 0.0], [-F, 0.0, F, 0.0]));
    assert_eq!(skybox_face_pose(4), pose([0.0, 500.0, 0.0], [0.0, -F, F, 0.0]));
    assert_eq!(skybox_face_pose(5), pose([0.0, -500.0, 0.0], [0.0, F, F, 0.0]));
}

#[test]
fn skybox_face_offsets_lie_on_one_axis_each() {
    let axes = [(2, -1.0), (2, 1.0), (0, -1.0), (0, 1.0), (1, 1.0), (1, -1.0)];
    for (face, (axis, sign)) in axes.iter().enumerate() {
        let p = skybox_face_pose(face).position;
        let p = [f32::from_bits(p.x), f32::from_bits(p.y), f32::from_bits(p.z)];
        for (i, value) in p.iter().enumerate() {
            if i == *axis {
                assert_eq!(*value, sign * 500.0);
            } else {
                assert_eq!(*value, 0.0);
            }
        }
        let q = skybox_face_pose(face).orientation;
        let q = [f32::from_bits(q.x), f32::from_bits(q.y), f32::from_bits(q.z), f32::from_bits(q.w)];
        let norm: f32 = q.iter().map(|c| c * c).sum();
        assert!((norm - 1.0).abs() < 1.0e-6);
    }
}

#[test]
fn new_sphere_overlay() {
    let overlay = new_skybox_overlay(false, 0);
    assert_eq!(overlay.key, b"__xrizer_skybox".to_vec());
    assert_eq!(overlay.name, b"__xrizer_skybox".to_vec());
    assert!(overlay.visible);
    assert_eq!(f32::from_bits(overlay.width), 500.0);
    assert_eq!(overlay.kind, OverlayKind::Sphere);
    assert_eq!(overlay.z_order, -1);
    assert_eq!(overlay.transform, None);
    assert_eq!(overlay.alpha, None);
    assert_eq!(overlay.compositor, None);
    assert_eq!(overlay.rect, None);
}

#[test]
fn one_texture_makes_one_sphere() {
    let mut man = OverlayMan::new(caps());
    let mut session = OverlaySessionData::new();
    let faces = man.set_skybox(&mut session, &vec![texture(GraphicsApi::Vulkan, 2048)]);
    assert_eq!(faces.len(), 1);
    assert_eq!(faces[0].texture, Ok(SwapchainAction::Create));
    assert_eq!(*man.skybox_overlays(), vec![faces[0].handle]);
    assert_eq!(man.overlay_count(), 1);
    let overlay = man.overlay(faces[0].handle).unwrap();
    assert!(overlay.visible);
    assert_eq!(f32::from_bits(overlay.width), 500.0);
    assert_eq!(overlay.kind, OverlayKind::Sphere);
    assert_eq!(overlay.z_order, SKYBOX_Z_ORDER);
    assert_eq!(overlay.transform, None);
    assert_eq!(overlay.compositor, Some(GraphicsApi::Vulkan));
    assert_eq!(session.swapchain(faces[0].handle).unwrap().info.width, 2048);
}

#[test]
fn second_of_two_textures_is_ignored() {
    let mut man = OverlayMan::new(caps());
    let mut session = OverlaySessionData::new();
    let faces = man.set_skybox(
        &mut session,
        &vec![texture(GraphicsApi::Vulkan, 2048), texture(GraphicsApi::Vulkan, 1024)],
    );
    assert_eq!(faces.len(), 1);
    assert_eq!(man.overlay_count(), 1);
    assert_eq!(man.overlay(faces[0].handle).unwrap().kind, OverlayKind::Sphere);
    assert_eq!(session.swapchain(faces[0].handle).unwrap().info.width, 2048);
}

#[test]
fn six_textures_make_six_faces() {
    let mut man = OverlayMan::new(caps());
    let mut session = OverlaySessionData::new();
    let textures: Vec<TextureRequest> =
        (0..6).map(|i| texture(GraphicsApi::OpenGl, 100 + i)).collect();
    let faces = man.set_skybox(&mut session, &textures);
    assert_eq!(faces.len(), 6);
    assert_eq!(man.overlay_count(), 6);
    let handles: Vec<u64> = faces.iter().map(|f| f.handle).collect();
    assert_eq!(*man.skybox_overlays(), handles);
    let expected = [
        pose([0.0, 0.0, -500.0], [0.0, 0.0, 1.0, 0.0]),
        pose([0.0, 0.0, 500.0], [1.0, 0.0, 0.0, 0.0]),
        pose([-500.0, 0.0, 0.0], [F, 0.0, F, 0.0]),
        pose([500.0, 0.0, 0.0], [-F, 0.0, F, 0.0]),
        pose([0.0, 500.0, 0.0], [0.0, -F, F, 0.0]),
        pose([0.0, -500.0, 0.0], [0.0, F, F, 0.0]),
    ];
    for (i, face) in faces.iter().enumerate() {
        assert_eq!(face.texture, Ok(SwapchainAction::Create));
        let overlay = man.overlay(face.handle).unwrap();
        assert!(overlay.visible);
        assert_eq!(overlay.z_order, -1);
        assert_eq!(overlay.kind, OverlayKind::Quad);
        assert_eq!(f32::from_bits(overlay.width), 1000.0);
        assert_eq!(overlay.transform, Some((TrackingOrigin::Standing, expected[i])));
        assert_eq!(overlay.key, format!("__xrizer_skybox_{}", i).into_bytes());
        assert_eq!(overlay.compositor, Some(GraphicsApi::OpenGl));
        assert_eq!(session.swapchain(face.handle).unwrap().info.width, 100 + i as u32);
    }
    for i in 0..6 {
        for j in 0..i {
            assert_ne!(handles[i], handles[j]);
        }
    }
}

#[test]
fn skybox_overlays_are_not_found_by_key() {
    let mut man = OverlayMan::new(caps());
    let mut session = OverlaySessionData::new();
    man.set_skybox(&mut session, &vec![texture(GraphicsApi::Vulkan, 2048)]);
    assert_eq!(
        man.find_overlay(&b"__xrizer_skybox".to_vec()),
        Err(OverlayError::UnknownOverlay)
    );
}

#[test]
fn clear_skybox_leaves_no_skybox_overlay() {
    let mut man = OverlayMan::new(caps());
    let mut session = OverlaySessionData::new();
    let user = man.create_overlay(b"user".to_vec(), b"User".to_vec());
    let textures: Vec<TextureRequest> = (0..6).map(|_| texture(GraphicsApi::Vulkan, 64)).collect();
    let faces = man.set_skybox(&mut session, &textures);
    assert_eq!(man.overlay_count(), 7);
    man.clear_skybox(&mut session);
    assert!(man.skybox_overlays().is_empty());
    assert_eq!(man.overlay_count(), 1);
    for face in &faces {
        assert!(man.overlay(face.handle).is_none());
    }
    assert!(man.overlay(user).is_some());
    assert_eq!(man.find_overlay(&b"user".to_vec()), Ok(user));
    man.clear_skybox(&mut session);
    assert_eq!(man.overlay_count(), 1);
}

#[test]
fn clear_skybox_without_skybox_leaves_nothing_behind() {
    let mut man = OverlayMan::new(caps());
    man.clear_skybox(&mut OverlaySessionData::new());
    assert_eq!(man.overlay_count(), 0);
}

#[test]
fn set_skybox_replaces_the_previous_one() {
    let mut man = OverlayMan::new(caps());
    let mut session = OverlaySessionData::new();
    let textures: Vec<TextureRequest> = (0..6).map(|_| texture(GraphicsApi::Vulkan, 64)).collect();
    let cube = man.set_skybox(&mut session, &textures);
    let sphere = man.set_skybox(&mut session, &vec![texture(GraphicsApi::Vulkan, 64)]);
    assert_eq!(man.overlay_count(), 1);
    assert_eq!(*man.skybox_overlays(), vec![sphere[0].handle]);
    for face in &cube {
        assert!(man.overlay(face.handle).is_none());
    }
}

#[test]
fn destroying_a_skybox_overlay_takes_it_out_of_the_skybox() {
    let mut man = OverlayMan::new(caps());
    let mut session = OverlaySessionData::new();
    let textures: Vec<TextureRequest> = (0..6).map(|_| texture(GraphicsApi::Vulkan, 64)).collect();
    let faces = man.set_skybox(&mut session, &textures);
    man.destroy_overlay(faces[2].handle, &mut session);
    let left: Vec<u64> =
        faces.iter().map(|f| f.handle).filter(|h| *h != faces[2].handle).collect();
    assert_eq!(*man.skybox_overlays(), left);
    assert_eq!(man.overlay_count(), 5);
}

#[test]
fn skybox_texture_of_another_interface_is_reported() {
    let mut man = OverlayMan::new(caps());
    let mut session = OverlaySessionData::new();
    let mut textures: Vec<TextureRequest> =
        (0..6).map(|_| texture(GraphicsApi::Vulkan, 64)).collect();
    textures[3] = texture(GraphicsApi::OpenGl, 64);
    let faces = man.set_skybox(&mut session, &textures);
    assert_eq!(faces.len(), 6);
    for (i, face) in faces.iter().enumerate() {
        let overlay = man.overlay(face.handle).unwrap();
        assert!(overlay.visible);
        if i == 3 {
            assert_eq!(face.texture, Err(TextureError::SessionBackendMismatch));
            assert_eq!(overlay.compositor, None);
            assert_eq!(session.swapchain(face.handle), None);
        } else {
            assert_eq!(face.texture, Ok(SwapchainAction::Create));
            assert_eq!(overlay.compositor, Some(GraphicsApi::Vulkan));
        }
    }
    let copy: SkyboxFace = faces[3];
    assert_eq!(copy, faces[3]);
}

#[test]
fn skybox_takes_one_two_or_six_textures() {
    let man = OverlayMan::new(caps());
    for count in 0..10 {
        assert_eq!(man.can_set_skybox(count), count == 1 || count == 2 || count == 6);
    }
}

#[test]
fn clear_skybox_releases_the_swapchains_of_the_skybox() {
    let mut man = OverlayMan::new(caps());
    let mut session = OverlaySessionData::new();
    let user = man.create_overlay(b"user".to_vec(), b"User".to_vec());
    assert!(man.set_overlay_texture(user, &mut session, texture(GraphicsApi::Vulkan, 32)).is_ok());
    let textures: Vec<TextureRequest> = (0..6).map(|_| texture(GraphicsApi::Vulkan, 64)).collect();
    let faces = man.set_skybox(&mut session, &textures);
    for face in &faces {
        assert!(session.swapchain(face.handle).is_some());
    }
    man.clear_skybox(&mut session);
    for face in &faces {
        assert_eq!(session.swapchain(face.handle), None);
    }
    assert!(session.swapchain(user).is_some());
}

#[test]
fn a_new_skybox_takes_none_of_the_old_handles() {
    let mut man = OverlayMan::new(caps());
    let mut session = OverlaySessionData::new();
    let textures: Vec<TextureRequest> = (0..6).map(|_| texture(GraphicsApi::Vulkan, 64)).collect();
    let old = man.set_skybox(&mut session, &textures);
    let new = man.set_skybox(&mut session, &textures);
    for a in &old {
        assert!(man.overlay(a.handle).is_none());
        assert_eq!(session.swapchain(a.handle), None);
        for b in &new {
            assert_ne!(a.handle, b.handle);
        }
    }
    for b in &new {
        assert_eq!(b.texture, Ok(SwapchainAction::Create));
    }
}

#[test]
fn destroying_a_skybox_overlay_keeps_a_caller_key_of_the_same_name() {
    let mut man = OverlayMan::new(caps());
    let mut session = OverlaySessionData::new();
    let user = man.create_overlay(b"__xrizer_skybox".to_vec(), b"mine".to_vec());
    let faces = man.set_skybox(&mut session, &vec![texture(GraphicsApi::Vulkan, 64)]);
    man.destroy_overlay(faces[0].handle, &mut session);
    assert_eq!(man.find_overlay(&b"__xrizer_skybox".to_vec()), Ok(user));
    assert!(man.overlay(user).is_some());
}
