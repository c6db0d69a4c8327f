//! The skybox: overlays that the store creates and owns to draw a
//! full-surround background, either as one sphere or as the six faces of a
//! cube.

use crate::float_bits::{FRAC_1_SQRT_2, NEG_FRAC_1_SQRT_2, ONE, ZERO};
use crate::overlay::{Overlay, SKYBOX_Z_ORDER};
use crate::session::{prepare_api, prepare_entries, prepare_result};
use crate::store::{issued, OverlayManView};
use crate::types::{
    full_bounds, GraphicsApi, OverlayKind, Pose, Quaternion, SwapchainAction, SwapchainData,
    TextureError, TextureRequest, TrackingOrigin, Vector3,
};
use vstd::prelude::*;

verus! {

/// `500.0`: the distance from the viewer to the skybox, and the radius of
/// the sphere. The viewer never gets that far.
pub const SKYBOX_SIZE: u32 = 0x43fa_0000;

/// `-500.0`
pub const NEG_SKYBOX_SIZE: u32 = 0xc3fa_0000;

/// `1000.0`: the width of a face of the cube, twice the distance.
pub const SKYBOX_FACE_WIDTH: u32 = 0x447a_0000;

/// The number of faces of the cube.
pub const CUBE_FACES: usize = 6;

/// The key and name of the skybox overlays: `__xrizer_skybox`.
pub open spec fn skybox_name() -> Seq<u8> {
    seq![
        0x5fu8, 0x5f, 0x78, 0x72, 0x69, 0x7a, 0x65, 0x72, 0x5f, 0x73, 0x6b, 0x79, 0x62, 0x6f, 0x78,
    ]
}

/// The key and name of a face of the cube: `__xrizer_skybox_` and the
/// face's digit.
pub open spec fn skybox_face_name(face: int) -> Seq<u8> {
    skybox_name().push(0x5fu8).push((0x30 + face) as u8)
}

/// The number of overlays that a skybox of `textures` textures is made
/// of: six for six textures, else one.
pub open spec fn face_count(textures: int) -> int {
    if textures == 6 {
        6
    } else {
        1
    }
}

/// Where a face of the cube stands: front, back, left, right, up, down,
/// each at the skybox distance along its axis and turned to face the viewer.
pub open spec fn face_pose(face: int) -> Pose {
    if face == 0 {
        Pose {
            position: Vector3 { x: ZERO, y: ZERO, z: NEG_SKYBOX_SIZE },
            orientation: Quaternion { x: ZERO, y: ZERO, z: ONE, w: ZERO },
        }
    } else if face == 1 {
        Pose {
            position: Vector3 { x: ZERO, y: ZERO, z: SKYBOX_SIZE },
            orientation: Quaternion { x: ONE, y: ZERO, z: ZERO, w: ZERO },
        }
    } else if face == 2 {
        Pose {
            position: Vector3 { x: NEG_SKYBOX_SIZE, y: ZERO, z: ZERO },
            orientation: Quaternion { x: FRAC_1_SQRT_2, y: ZERO, z: FRAC_1_SQRT_2, w: ZERO },
        }
    } else if face == 3 {
        Pose {
            position: Vector3 { x: SKYBOX_SIZE, y: ZERO, z: ZERO },
            orientation: Quaternion { x: NEG_FRAC_1_SQRT_2, y: ZERO, z: FRAC_1_SQRT_2, w: ZERO },
        }
    } else if face == 4 {
        Pose {
            position: Vector3 { x: ZERO, y: SKYBOX_SIZE, z: ZERO },
            orientation: Quaternion { x: ZERO, y: NEG_FRAC_1_SQRT_2, z: FRAC_1_SQRT_2, w: ZERO },
        }
    } else {
        Pose {
            position: Vector3 { x: ZERO, y: NEG_SKYBOX_SIZE, z: ZERO },
            orientation: Quaternion { x: ZERO, y: FRAC_1_SQRT_2, z: FRAC_1_SQRT_2, w: ZERO },
        }
    }
}

/// `overlay` is the skybox overlay number `face` of a skybox of `faces`
/// overlays, bound to `bound`: visible, at the skybox's draw order, with no
/// pixels yet; a sphere of the skybox radius where it stands alone, else a
/// flat face of the cube at its pose in the standing space.
pub open spec fn is_skybox_overlay(
    overlay: Overlay,
    faces: int,
    face: int,
    bound: Option<GraphicsApi>,
) -> bool {
    &&& overlay.visible
    &&& overlay.z_order == SKYBOX_Z_ORDER
    &&& overlay.alpha is None
    &&& overlay.bounds == full_bounds()
    &&& overlay.compositor == bound
    &&& overlay.rect is None
    &&& if faces == 6 {
        &&& overlay.key@ == skybox_face_name(face)
        &&& overlay.name@ == skybox_face_name(face)
        &&& overlay.width == SKYBOX_FACE_WIDTH
        &&& overlay.kind == OverlayKind::Quad
        &&& overlay.transform == Some((TrackingOrigin::Standing, face_pose(face)))
    } else {
        &&& overlay.key@ == skybox_name()
        &&& overlay.name@ == skybox_name()
        &&& overlay.width == SKYBOX_SIZE
        &&& overlay.kind == OverlayKind::Sphere
        &&& overlay.transform is None
    }
}

/// The key and name of a skybox overlay.
pub fn skybox_overlay_name(cube: bool, face: usize) -> (name: Vec<u8>)
    requires
        face < CUBE_FACES,
    ensures
        name@ == if cube {
            skybox_face_name(face as int)
        } else {
            skybox_name()
        },
{
    let mut name: Vec<u8> = Vec::new();
    name.push(0x5f);
    name.push(0x5f);
    name.push(0x78);
    name.push(0x72);
    name.push(0x69);
    name.push(0x7a);
    name.push(0x65);
    name.push(0x72);
    name.push(0x5f);
    name.push(0x73);
    name.push(0x6b);
    name.push(0x79);
    name.push(0x62);
    name.push(0x6f);
    name.push(0x78);
    assert(name@ =~= skybox_name());
    if cube {
        name.push(0x5f);
        name.push(0x30 + face as u8);
    }
    name
}

/// The pose of a face of the cube.
pub fn skybox_face_pose(face: usize) -> (pose: Pose)
    requires
        face < CUBE_FACES,
    ensures
        pose == face_pose(face as int),
{
    if face == 0 {
        Pose {
            position: Vector3 { x: ZERO, y: ZERO, z: NEG_SKYBOX_SIZE },
            orientation: Quaternion { x: ZERO, y: ZERO, z: ONE, w: ZERO },
        }
    } else if face == 1 {
        Pose {
            position: Vector3 { x: ZERO, y: ZERO, z: SKYBOX_SIZE },
            orientation: Quaternion { x: ONE, y: ZERO, z: ZERO, w: ZERO },
        }
    } else if face == 2 {
        Pose {
            position: Vector3 { x: NEG_SKYBOX_SIZE, y: ZERO, z: ZERO },
            orientation: Quaternion { x: FRAC_1_SQRT_2, y: ZERO, z: FRAC_1_SQRT_2, w: ZERO },
        }
    } else if face == 3 {
        Pose {
            position: Vector3 { x: SKYBOX_SIZE, y: ZERO, z: ZERO },
            orientation: Quaternion { x: NEG_FRAC_1_SQRT_2, y: ZERO, z: FRAC_1_SQRT_2, w: ZERO },
        }
    } else if face == 4 {
        Pose {
            position: Vector3 { x: ZERO, y: SKYBOX_SIZE, z: ZERO },
            orientation: Quaternion { x: ZERO, y: NEG_FRAC_1_SQRT_2, z: FRAC_1_SQRT_2, w: ZERO },
        }
    } else {
        Pose {
            position: Vector3 { x: ZERO, y: NEG_SKYBOX_SIZE, z: ZERO },
            orientation: Quaternion { x: ZERO, y: FRAC_1_SQRT_2, z: FRAC_1_SQRT_2, w: ZERO },
        }
    }
}

/// A skybox overlay before it is given its texture.
pub fn new_skybox_overlay(cube: bool, face: usize) -> (overlay: Overlay)
    requires
        face < CUBE_FACES,
    ensures
        is_skybox_overlay(
            overlay,
            if cube {
                6
            } else {
                1
            },
            face as int,
            None,
        ),
{
    let key = skybox_overlay_name(cube, face);
    let name = skybox_overlay_name(cube, face);
    let mut overlay = Overlay::new(key, name);
    overlay.visible = true;
    overlay.z_order = SKYBOX_Z_ORDER;
    if cube {
        overlay.width = SKYBOX_FACE_WIDTH;
        overlay.kind = OverlayKind::Quad;
        overlay.transform = Some((TrackingOrigin::Standing, skybox_face_pose(face)));
    } else {
        overlay.width = SKYBOX_SIZE;
        overlay.kind = OverlayKind::Sphere;
    }
    overlay
}

/// One overlay of a skybox that was just set.
#[derive(Clone, Copy, Debug, PartialEq, Eq)]
pub struct SkyboxFace {
    /// The handle the overlay stands under.
    pub handle: u64,
    /// What its texture needs, or why the texture was not accepted.
    pub texture: Result<SwapchainAction, TextureError>,
}

/// The handles of the faces, in their order.
pub open spec fn face_handles(faces: Seq<SkyboxFace>) -> Seq<u64> {
    faces.map_values(|face: SkyboxFace| face.handle)
}

/// The graphics interface a skybox overlay is bound to: that of its
/// texture where the texture was accepted, else none.
pub open spec fn face_binding(face: SkyboxFace, texture: TextureRequest) -> Option<GraphicsApi> {
    if face.texture is Ok {
        Some(texture.api)
    } else {
        None
    }
}

/// The interface and the records of a session after it was handed, in
/// turn, texture `i` for the overlay `handles[i]`, for the first `n`
/// handles.
pub open spec fn submitted(
    api: Option<GraphicsApi>,
    entries: Map<u64, SwapchainData>,
    handles: Seq<u64>,
    textures: Seq<TextureRequest>,
    n: int,
) -> (Option<GraphicsApi>, Map<u64, SwapchainData>)
    decreases n,
{
    if n <= 0 {
        (api, entries)
    } else {
        let before = submitted(api, entries, handles, textures, n - 1);
        (
            prepare_api(before.0, before.1, handles[n - 1], textures[n - 1]),
            prepare_entries(before.0, before.1, handles[n - 1], textures[n - 1]),
        )
    }
}

/// What the session answers to texture `i`, after the textures before it.
pub open spec fn face_result(
    api: Option<GraphicsApi>,
    entries: Map<u64, SwapchainData>,
    handles: Seq<u64>,
    textures: Seq<TextureRequest>,
    i: int,
) -> Result<SwapchainAction, TextureError> {
    let before = submitted(api, entries, handles, textures, i);
    prepare_result(before.0, before.1, handles[i], textures[i])
}

/// `now` is the store `start` with the skybox overlays of `faces` added,
/// out of `total`, and `session_now` is the session `session_start` after
/// their textures: the skybox is these overlays in face order; each stands
/// under a handle that was not in use, in the state of a skybox overlay,
/// bound to its texture's interface where the session accepted the texture;
/// nothing else in the store has changed.
pub open spec fn skybox_built(
    start: OverlayManView,
    now: OverlayManView,
    session_start: (Option<GraphicsApi>, Map<u64, SwapchainData>),
    session_now: (Option<GraphicsApi>, Map<u64, SwapchainData>),
    textures: Seq<TextureRequest>,
    faces: Seq<SkyboxFace>,
    total: int,
) -> bool {
    let handles = face_handles(faces);
    &&& now.capabilities == start.capabilities
    &&& now.key_to_overlay == start.key_to_overlay
    &&& now.skybox == handles
    &&& now.versions == issued(start.versions, handles)
    &&& forall|h: u64|
        now.overlays.contains_key(h) <==> start.overlays.contains_key(h) || handles.contains(h)
    &&& forall|h: u64| #[trigger]
        start.overlays.contains_key(h) ==> now.overlays[h] == start.overlays[h]
            && !handles.contains(h)
    &&& forall|i: int|
        0 <= i < faces.len() ==> #[trigger] faces[i].texture == face_result(
            session_start.0,
            session_start.1,
            handles,
            textures,
            i,
        )
    &&& forall|i: int|
        0 <= i < faces.len() ==> is_skybox_overlay(
            now.overlays[#[trigger] faces[i].handle],
            total,
            i,
            face_binding(faces[i], textures[i]),
        )
    &&& session_now == submitted(
        session_start.0,
        session_start.1,
        handles,
        textures,
        faces.len() as int,
    )
}

/// The session's state after the first `n` textures depends on the first
/// `n` handles only.
pub proof fn lemma_submitted_prefix(
    api: Option<GraphicsApi>,
    entries: Map<u64, SwapchainData>,
    a: Seq<u64>,
    b: Seq<u64>,
    textures: Seq<TextureRequest>,
    n: int,
)
    requires
        n <= a.len() <= b.len(),
        forall|i: int| 0 <= i < a.len() ==> a[i] == b[i],
    ensures
        submitted(api, entries, a, textures, n) == submitted(api, entries, b, textures, n),
    decreases n,
{
    if n > 0 {
        lemma_submitted_prefix(api, entries, a, b, textures, n - 1);
    }
}

} // verus!
