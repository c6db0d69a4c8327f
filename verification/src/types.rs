//! Plain data of the overlay engine.
//!
//! Every field that is a real number holds its IEEE-754 binary32 bit
//! pattern (see `float_bits`).

use vstd::prelude::*;

verus! {

/// The reference frame a pose is expressed in.
#[derive(Clone, Copy, Debug, PartialEq, Eq, Structural)]
pub enum TrackingOrigin {
    Seated,
    Standing,
    RawAndUncalibrated,
}

/// A point or direction; each component a bit pattern.
#[derive(Clone, Copy, Debug, PartialEq, Eq, Structural)]
pub struct Vector3 {
    pub x: u32,
    pub y: u32,
    pub z: u32,
}

/// A rotation as a quaternion; each component a bit pattern.
#[derive(Clone, Copy, Debug, PartialEq, Eq, Structural)]
pub struct Quaternion {
    pub x: u32,
    pub y: u32,
    pub z: u32,
    pub w: u32,
}

/// A position and an orientation.
#[derive(Clone, Copy, Debug, PartialEq, Eq, Structural)]
pub struct Pose {
    pub position: Vector3,
    pub orientation: Quaternion,
}

/// A normalised sub-rectangle of a texture; each bound a bit pattern.
#[derive(Clone, Copy, Debug, PartialEq, Eq, Structural)]
pub struct TextureBounds {
    pub u_min: u32,
    pub v_min: u32,
    pub u_max: u32,
    pub v_max: u32,
}

/// A pixel offset.
#[derive(Clone, Copy, Debug, PartialEq, Eq, Structural)]
pub struct Offset2Di {
    pub x: i32,
    pub y: i32,
}

/// A pixel extent.
#[derive(Clone, Copy, Debug, PartialEq, Eq, Structural)]
pub struct Extent2Di {
    pub width: i32,
    pub height: i32,
}

/// A pixel rectangle within a swapchain image.
#[derive(Clone, Copy, Debug, PartialEq, Eq, Structural)]
pub struct Rect2Di {
    pub offset: Offset2Di,
    pub extent: Extent2Di,
}

/// The shape an overlay is drawn as.
#[derive(Clone, Copy, Debug, PartialEq, Eq, Structural)]
pub enum OverlayKind {
    /// A flat rectangle.
    Quad,
    /// A section of a cylinder; `curvature` is a bit pattern of a number in
    /// `[0, 1]`.
    Curved { curvature: u32 },
    /// A full sphere around the viewer.
    Sphere,
}

/// The native graphics interface a texture belongs to.
#[derive(Clone, Copy, Debug, PartialEq, Eq, Structural)]
pub enum GraphicsApi {
    Vulkan,
    OpenGl,
}

/// What the host runtime can draw.
#[derive(Clone, Copy, Debug, PartialEq, Eq, Structural)]
pub struct Capabilities {
    /// Cylinder layers are available.
    pub curved_layers: bool,
    /// A layer's colour can be scaled and biased.
    pub blend_bias: bool,
}

/// The parameters a swapchain is created with.
#[derive(Clone, Copy, Debug, PartialEq, Eq, Structural)]
pub struct SwapchainInfo {
    pub create_flags: u64,
    pub usage_flags: u64,
    pub format: i64,
    pub sample_count: u32,
    pub width: u32,
    pub height: u32,
    pub face_count: u32,
    pub array_size: u32,
    pub mip_count: u32,
}

/// A swapchain the session holds for one overlay.
#[derive(Clone, Copy, Debug, PartialEq, Eq, Structural)]
pub struct SwapchainData {
    /// The parameters it was created with, as the runtime adjusted them.
    pub info: SwapchainInfo,
    /// The format that was asked for before the runtime adjusted it.
    pub initial_format: i64,
}

/// A texture handed to an overlay, as far as the engine reads it.
#[derive(Clone, Copy, Debug, PartialEq, Eq, Structural)]
pub struct TextureRequest {
    /// The graphics interface the texture belongs to.
    pub api: GraphicsApi,
    /// The swapchain that the texture and the overlay's bounds call for.
    pub required: SwapchainInfo,
    /// `required` as the runtime would create it.
    pub negotiated: SwapchainInfo,
}

/// What has to happen to the overlay's swapchain before the texture is
/// copied into it.
#[derive(Clone, Copy, Debug, PartialEq, Eq, Structural)]
pub enum SwapchainAction {
    /// The swapchain the session holds fits; nothing is created.
    Reuse,
    /// A swapchain has to be created from the recorded parameters, in place
    /// of the one the session held, if any.
    Create,
}

/// Why a texture was not accepted.
#[derive(Clone, Copy, Debug, PartialEq, Eq, Structural)]
pub enum TextureError {
    /// The overlay is bound to another graphics interface.
    BackendConflict,
    /// The session's swapchains belong to another graphics interface.
    SessionBackendMismatch,
    /// The session cannot hold a swapchain under this handle: the handle
    /// names no key, or the session holds one for a newer overlay in the
    /// same slot.
    StaleOverlay,
}

/// The full texture: `[0, 1]` on both axes.
pub open spec fn full_bounds() -> TextureBounds {
    TextureBounds {
        u_min: crate::float_bits::ZERO,
        v_min: crate::float_bits::ZERO,
        u_max: crate::float_bits::ONE,
        v_max: crate::float_bits::ONE,
    }
}

/// A swapchain that was created as `current`, for a texture that asked for
/// `initial_format`, fits a texture that calls for `new`: the format asked
/// for is the same, and so are size, array size and sample count.
pub open spec fn usable(current: SwapchainInfo, initial_format: i64, new: SwapchainInfo) -> bool {
    &&& initial_format == new.format
    &&& current.width == new.width
    &&& current.height == new.height
    &&& current.array_size == new.array_size
    &&& current.sample_count == new.sample_count
}

/// Whether a swapchain fits a texture's requirements.
pub fn is_usable_swapchain(current: &SwapchainInfo, initial_format: i64, new: &SwapchainInfo) -> (r:
    bool)
    ensures
        r == usable(*current, initial_format, *new),
{
    initial_format == new.format && current.width == new.width && current.height == new.height
        && current.array_size == new.array_size && current.sample_count == new.sample_count
}

/// Why an operation on an overlay failed.
#[derive(Clone, Copy, Debug, PartialEq, Eq, Structural)]
pub enum OverlayError {
    /// No overlay is registered under the handle or key.
    UnknownOverlay,
    /// The overlay's texture was not accepted.
    Texture(TextureError),
}

} // verus!
