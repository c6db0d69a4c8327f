//! One overlay: a positioned, textured surface.

use crate::float_bits::{ONE, ZERO};
use crate::session::{prepare_api, prepare_entries, prepare_result, OverlaySessionData};
use crate::types::{
    Extent2Di, GraphicsApi, Offset2Di, OverlayKind, Pose, Rect2Di, SwapchainAction,
    TextureBounds, TextureError, TextureRequest, TrackingOrigin,
};
use vstd::prelude::*;

verus! {

/// The draw order of skybox overlays. Callers may only use orders from 0
/// up, so a skybox sorts behind everything else.
pub const SKYBOX_Z_ORDER: i64 = -1;

/// The state of one overlay.
pub struct Overlay {
    /// The caller's key, by which the overlay is found.
    pub key: Vec<u8>,
    /// The caller's name for it.
    pub name: Vec<u8>,
    /// The blend factor as a bit pattern; `None` is fully opaque.
    pub alpha: Option<u32>,
    /// Width in meters as a bit pattern; the radius of a sphere.
    pub width: u32,
    pub visible: bool,
    pub kind: OverlayKind,
    /// Lower draws first.
    pub z_order: i64,
    pub bounds: TextureBounds,
    /// Where it stands; `None` is the default place ahead of the viewer.
    pub transform: Option<(TrackingOrigin, Pose)>,
    /// The graphics interface of its textures, fixed by the first one.
    pub compositor: Option<GraphicsApi>,
    /// The pixels of its swapchain image that the last texture filled.
    pub rect: Option<Rect2Di>,
}

/// What an overlay answers to a texture: a conflict where it is bound to
/// another interface, else what the session answers.
pub open spec fn set_texture_result(
    bound: Option<GraphicsApi>,
    api: Option<GraphicsApi>,
    entries: Map<u64, crate::types::SwapchainData>,
    key: u64,
    texture: TextureRequest,
) -> Result<SwapchainAction, TextureError> {
    if bound is Some && bound->0 != texture.api {
        Err(TextureError::BackendConflict)
    } else {
        prepare_result(api, entries, key, texture)
    }
}

impl Overlay {
    /// The state of an overlay that was just created: hidden, a flat
    /// rectangle one meter wide, opaque, draw order 0, the full texture, at
    /// the default place, with no texture yet.
    pub open spec fn fresh(key: Seq<u8>, name: Seq<u8>, overlay: Overlay) -> bool {
        &&& overlay.key@ == key
        &&& overlay.name@ == name
        &&& overlay.alpha is None
        &&& overlay.width == ONE
        &&& !overlay.visible
        &&& overlay.kind == OverlayKind::Quad
        &&& overlay.z_order == 0
        &&& overlay.bounds == crate::types::full_bounds()
        &&& overlay.transform is None
        &&& overlay.compositor is None
        &&& overlay.rect is None
    }

    /// A new overlay in its initial state.
    pub fn new(key: Vec<u8>, name: Vec<u8>) -> (overlay: Self)
        ensures
            Overlay::fresh(key@, name@, overlay),
            overlay.key == key,
            overlay.name == name,
    {
        Overlay {
            key,
            name,
            alpha: None,
            width: ONE,
            visible: false,
            kind: OverlayKind::Quad,
            z_order: 0,
            bounds: TextureBounds { u_min: ZERO, v_min: ZERO, u_max: ONE, v_max: ONE },
            transform: None,
            compositor: None,
            rect: None,
        }
    }

    /// Accepts a texture for this overlay, which the session knows as
    /// `key`. The first accepted texture binds the overlay to its graphics
    /// interface for good; a texture of another interface is a conflict. The
    /// session then decides whether the swapchain it holds for the overlay
    /// fits or a new one is recorded. A texture that is not accepted changes
    /// neither the overlay nor the session.
    ///
    /// The caller creates the swapchain if told to, copies the texture into
    /// it and reports the pixels written with `finish_texture`.
    pub fn set_texture(
        &mut self,
        key: u64,
        session_data: &mut OverlaySessionData,
        texture: TextureRequest,
    ) -> (r: Result<SwapchainAction, TextureError>)
        ensures
            r == set_texture_result(
                old(self).compositor,
                old(session_data).api(),
                old(session_data).swapchains(),
                key,
                texture,
            ),
            r is Ok ==> *final(self) == (Overlay {
                compositor: Some(texture.api),
                ..*old(self)
            }),
            r is Ok ==> final(session_data).api() == Some(texture.api),
            r is Ok ==> final(session_data).swapchains() == prepare_entries(
                old(session_data).api(),
                old(session_data).swapchains(),
                key,
                texture,
            ),
            r is Err ==> *final(self) == *old(self),
            r is Err ==> final(session_data).api() == old(session_data).api(),
            r is Err ==> final(session_data).swapchains() == old(session_data).swapchains(),
    {
        match self.compositor {
            Some(bound) => {
                if bound != texture.api {
                    return Err(TextureError::BackendConflict);
                }
            },
            None => {},
        }
        let r = session_data.prepare_swapchain(key, texture);
        if r.is_ok() {
            self.compositor = Some(texture.api);
        }
        r
    }

    /// The overlay once the copy of its last accepted texture has filled
    /// `extent` pixels: it has the rectangle of that extent at the image's
    /// origin. An overlay that no texture was accepted for has no pixels,
    /// and stays as it is.
    pub open spec fn finished(self, extent: Extent2Di) -> Overlay {
        if self.compositor is Some {
            Overlay {
                rect: Some(Rect2Di { offset: Offset2Di { x: 0, y: 0 }, extent }),
                ..self
            }
        } else {
            self
        }
    }

    /// Records the pixels that the copy of the last accepted texture
    /// filled.
    pub fn finish_texture(&mut self, extent: Extent2Di)
        ensures
            *final(self) == old(self).finished(extent),
    {
        if self.compositor.is_some() {
            self.rect = Some(Rect2Di { offset: Offset2Di { x: 0, y: 0 }, extent });
        }
    }
}

/// An overlay that is bound to one graphics interface answers a texture of
/// another with a conflict, whatever the session holds.
pub proof fn lemma_second_backend_conflicts(
    bound: GraphicsApi,
    api: Option<GraphicsApi>,
    entries: Map<u64, crate::types::SwapchainData>,
    key: u64,
    texture: TextureRequest,
)
    requires
        bound != texture.api,
    ensures
        set_texture_result(Some(bound), api, entries, key, texture) == Err::<
            SwapchainAction,
            TextureError,
        >(TextureError::BackendConflict),
{
}

} // verus!
