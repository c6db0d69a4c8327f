//! Overlay and composition-layer engine of a VR compatibility shim.
//!
//! The engine owns every overlay, decides how submitted textures are bound
//! to swapchains, and assembles the ordered list of composition layers for
//! a frame. Floating-point quantities are carried as IEEE-754 binary32 bit
//! patterns, so every rule of the engine is a statement about integers.
//!
//! - `manager`: the overlay store, `OverlayMan`, and its operations.
//! - `store`: what the store holds, as a mathematical description, and how
//!   each operation changes it; `laws`: what holds of it throughout.
//! - `overlay`, `types`: one overlay and the plain data around it.
//! - `session`: the swapchains a session holds, and the decision whether a
//!   texture reuses one.
//! - `skybox`: the overlays of the full-surround background.
//! - `layers`: the layers of a frame and their draw order.
//! - `slots`, `key_index`, `handle`, `float_bits`: the table of overlays,
//!   the index of keys, handles, and numbers as bit patterns.
//! - `screenshots`: the screenshot interface, which refuses everything.

pub mod float_bits;
pub mod handle;
pub mod key_index;
pub mod laws;
pub mod layers;
pub mod manager;
pub mod overlay;
pub mod screenshots;
pub mod session;
pub mod skybox;
pub mod slots;
pub mod store;
pub mod types;
