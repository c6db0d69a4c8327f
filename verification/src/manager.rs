//! The overlay store: every overlay by handle, the index from keys to
//! handles, and the skybox.

use crate::float_bits::{clamp_to_unit, clamp_unit, is_one, ONE, ZERO};
use crate::handle::{
    canonical, canonical_handle, lemma_canonical_is_odd, slot_of, version_of,
};
use crate::key_index::{copy_bytes, KeyIndex};
use crate::layers::{
    build_layer, candidates, frame_layers, is_shown, shown, sort_layers, strip_order,
    OverlayLayer,
};
use crate::overlay::Overlay;
use crate::session::{prepare_entries, OverlaySessionData};
use crate::skybox::{
    face_binding, face_count, face_handles, face_result, is_skybox_overlay,
    lemma_submitted_prefix, new_skybox_overlay, skybox_built, submitted, SkyboxFace, CUBE_FACES,
};
use crate::slots::{
    in_slot_order, lemma_slot_order_unique, slot_entries, slot_order, slots_get, slots_get_mut,
    slot_versions, slots_handles, slots_insert, slots_len, slots_new, slots_remove, OverlaySlots,
    MAX_OVERLAYS,
};
use crate::store::{
    alpha_after, alpha_read, curvature_read, find_result, layers_ready, lemma_cleared,
    lemma_created_consistent, lemma_created_valid, lemma_destroyed_consistent,
    lemma_cleared_count, lemma_destroyed_valid, lemma_listed, lemma_skybox_overlay_added,
    lemma_retired_there, lemma_updated, lookup, retired,
    skybox_fits, sort_order_read, submit_result, without, OverlayManView,
};
use crate::types::{
    Capabilities, Extent2Di, GraphicsApi, OverlayError, OverlayKind, Pose, SwapchainAction,
    TextureBounds, TextureRequest, TrackingOrigin,
};
use vstd::prelude::*;

verus! {

/// Owner of all overlays.
pub struct OverlayMan {
    capabilities: Capabilities,
    overlays: OverlaySlots,
    key_to_overlay: KeyIndex,
    skybox: Vec<u64>,
}

impl View for OverlayMan {
    type V = OverlayManView;

    closed spec fn view(&self) -> OverlayManView {
        OverlayManView {
            capabilities: self.capabilities,
            overlays: slot_entries(self.overlays),
            key_to_overlay: self.key_to_overlay@,
            skybox: self.skybox@,
            versions: slot_versions(self.overlays),
        }
    }
}

impl OverlayMan {
    /// The representation is sound.
    pub closed spec fn repr_wf(&self) -> bool {
        self.key_to_overlay.wf()
    }

    /// The store is well formed.
    pub open spec fn wf(&self) -> bool {
        self.repr_wf() && self@.valid()
    }

    /// A store without overlays, for a runtime of the given capabilities.
    pub fn new(capabilities: Capabilities) -> (man: Self)
        ensures
            man.wf(),
            man@.consistent(),
            man@ == (OverlayManView {
                capabilities,
                overlays: Map::empty(),
                key_to_overlay: Map::empty(),
                skybox: Seq::empty(),
                versions: Map::empty(),
            }),
    {
        OverlayMan {
            capabilities,
            overlays: slots_new(),
            key_to_overlay: KeyIndex::new(),
            skybox: Vec::new(),
        }
    }

    /// What the host runtime can draw.
    pub fn capabilities(&self) -> (r: Capabilities)
        ensures
            r == self@.capabilities,
    {
        self.capabilities
    }

    /// The handles of the skybox overlays, in face order.
    pub fn skybox_overlays(&self) -> (r: &Vec<u64>)
        ensures
            r@ == self@.skybox,
    {
        &self.skybox
    }

    /// The number of live overlays.
    pub fn overlay_count(&self) -> (n: usize)
        ensures
            n == self@.overlays.dom().len(),
    {
        slots_len(&self.overlays)
    }

    /// The state of an overlay.
    pub fn overlay(&self, handle: u64) -> (r: Option<&Overlay>)
        ensures
            r == if self@.known(handle) {
                Some(&self@.overlay(handle))
            } else {
                None::<&Overlay>
            },
    {
        slots_get(&self.overlays, handle)
    }

    /// Creates an overlay in its initial state and registers it under a
    /// fresh handle and under `key`. A key that was registered leads to the
    /// new overlay from now on.
    pub fn create_overlay(&mut self, key: Vec<u8>, name: Vec<u8>) -> (handle: u64)
        requires
            old(self).wf(),
            old(self)@.overlays.dom().len() < MAX_OVERLAYS,
        ensures
            final(self).wf(),
            !old(self)@.overlays.contains_key(handle),
            final(self)@.known(handle),
            Overlay::fresh(key@, name@, final(self)@.overlay(handle)),
            final(self)@ == old(self)@.created(handle, final(self)@.overlay(handle)),
            find_result(final(self)@, key@) == Ok::<u64, OverlayError>(handle),
            old(self)@.consistent() && !old(self)@.key_to_overlay.contains_key(key@)
                ==> final(self)@.consistent(),
    {
        let index_key = copy_bytes(&key);
        let overlay = Overlay::new(key, name);
        let handle = slots_insert(&mut self.overlays, overlay);
        self.key_to_overlay.insert(index_key, handle);
        proof {
            lemma_created_valid(old(self)@, handle, overlay);
            if old(self)@.consistent() && !old(self)@.key_to_overlay.contains_key(key@) {
                lemma_created_consistent(old(self)@, handle, overlay);
            }
        }
        handle
    }

    /// The handle registered under `key`.
    pub fn find_overlay(&self, key: &Vec<u8>) -> (r: Result<u64, OverlayError>)
        requires
            self.wf(),
        ensures
            r == find_result(self@, key@),
    {
        match self.key_to_overlay.get(key) {
            Some(handle) => Ok(handle),
            None => Err(OverlayError::UnknownOverlay),
        }
    }

    /// Destroys the overlay under `handle`, if there is one: it leaves the
    /// table and the skybox, its key leaves the index where it led to this
    /// overlay, and the session lets go of its swapchain.
    pub fn destroy_overlay(&mut self, handle: u64, session_data: &mut OverlaySessionData)
        requires
            old(self).wf(),
        ensures
            final(self).wf(),
            final(self)@ == old(self)@.destroyed(handle),
            final(session_data).api() == old(session_data).api(),
            final(session_data).swapchains() == if old(self)@.known(handle) {
                old(session_data).swapchains().remove(canonical(handle))
            } else {
                old(session_data).swapchains()
            },
            old(self)@.consistent() ==> final(self)@.consistent(),
    {
        match slots_remove(&mut self.overlays, handle) {
            Some(overlay) => {
                let gone = canonical_handle(handle);
                match self.key_to_overlay.get(&overlay.key) {
                    Some(found) => {
                        if found == gone {
                            self.key_to_overlay.remove(&overlay.key);
                        }
                    },
                    None => {},
                }
                self.skybox = remove_handle(&self.skybox, gone);
                let _ = session_data.release_swapchain(handle);
                proof {
                    assert(self@ =~= old(self)@.destroyed(handle));
                    lemma_destroyed_valid(old(self)@, handle);
                    if old(self)@.consistent() {
                        lemma_destroyed_consistent(old(self)@, handle);
                    }
                }
            },
            None => {},
        }
    }

    /// Makes the overlay visible.
    pub fn show_overlay(&mut self, handle: u64) -> (r: Result<(), OverlayError>)
        requires
            old(self).wf(),
        ensures
            final(self).wf(),
            r == lookup(old(self)@, handle),
            final(self)@ == if old(self)@.known(handle) {
                old(self)@.with_overlay(
                    handle,
                    Overlay { visible: true, ..old(self)@.overlay(handle) },
                )
            } else {
                old(self)@
            },
            old(self)@.consistent() ==> final(self)@.consistent(),
    {
        match slots_get_mut(&mut self.overlays, handle) {
            Some(overlay) => {
                overlay.visible = true;
                proof {
                    lemma_updated(old(self)@, handle, *overlay);
                }
                Ok(())
            },
            None => Err(OverlayError::UnknownOverlay),
        }
    }

    /// Hides the overlay.
    pub fn hide_overlay(&mut self, handle: u64) -> (r: Result<(), OverlayError>)
        requires
            old(self).wf(),
        ensures
            final(self).wf(),
            r == lookup(old(self)@, handle),
            final(self)@ == if old(self)@.known(handle) {
                old(self)@.with_overlay(
                    handle,
                    Overlay { visible: false, ..old(self)@.overlay(handle) },
                )
            } else {
                old(self)@
            },
            old(self)@.consistent() ==> final(self)@.consistent(),
    {
        match slots_get_mut(&mut self.overlays, handle) {
            Some(overlay) => {
                overlay.visible = false;
                proof {
                    lemma_updated(old(self)@, handle, *overlay);
                }
                Ok(())
            },
            None => Err(OverlayError::UnknownOverlay),
        }
    }

    /// Sets the overlay's blend factor. A runtime without the blend-bias
    /// capability ignores the call; otherwise a factor of exactly 1 unsets
    /// it, and any other is stored.
    pub fn set_overlay_alpha(&mut self, handle: u64, alpha: u32) -> (r: Result<(), OverlayError>)
        requires
            old(self).wf(),
        ensures
            final(self).wf(),
            r == lookup(old(self)@, handle),
            final(self)@ == if old(self)@.known(handle) {
                old(self)@.with_overlay(
                    handle,
                    Overlay {
                        alpha: alpha_after(
                            old(self)@.capabilities,
                            old(self)@.overlay(handle).alpha,
                            alpha,
                        ),
                        ..old(self)@.overlay(handle)
                    },
                )
            } else {
                old(self)@
            },
            old(self)@.known(handle) && alpha == ONE ==> final(self)@.overlay(handle).alpha is None,
            old(self)@.consistent() ==> final(self)@.consistent(),
    {
        let blend_bias = self.capabilities.blend_bias;
        match slots_get_mut(&mut self.overlays, handle) {
            Some(overlay) => {
                if blend_bias {
                    if is_one(alpha) {
                        overlay.alpha = None;
                    } else {
                        overlay.alpha = Some(alpha);
                    }
                }
                proof {
                    lemma_updated(old(self)@, handle, *overlay);
                    assert(self@ =~= old(self)@.with_overlay(handle, *overlay));
                }
                Ok(())
            },
            None => Err(OverlayError::UnknownOverlay),
        }
    }

    /// The overlay's blend factor: 1 where none is set.
    pub fn get_overlay_alpha(&self, handle: u64) -> (r: Result<u32, OverlayError>)
        ensures
            r == if self@.known(handle) {
                Ok::<u32, OverlayError>(alpha_read(self@.overlay(handle).alpha))
            } else {
                Err::<u32, OverlayError>(OverlayError::UnknownOverlay)
            },
    {
        match slots_get(&self.overlays, handle) {
            Some(overlay) => match overlay.alpha {
                Some(alpha) => Ok(alpha),
                None => Ok(ONE),
            },
            None => Err(OverlayError::UnknownOverlay),
        }
    }

    /// Sets the overlay's width in meters.
    pub fn set_overlay_width_in_meters(&mut self, handle: u64, width: u32) -> (r: Result<
        (),
        OverlayError,
    >)
        requires
            old(self).wf(),
        ensures
            final(self).wf(),
            r == lookup(old(self)@, handle),
            final(self)@ == if old(self)@.known(handle) {
                old(self)@.with_overlay(handle, Overlay { width, ..old(self)@.overlay(handle) })
            } else {
                old(self)@
            },
            old(self)@.consistent() ==> final(self)@.consistent(),
    {
        match slots_get_mut(&mut self.overlays, handle) {
            Some(overlay) => {
                overlay.width = width;
                proof {
                    lemma_updated(old(self)@, handle, *overlay);
                }
                Ok(())
            },
            None => Err(OverlayError::UnknownOverlay),
        }
    }

    /// The overlay's width in meters.
    pub fn get_overlay_width_in_meters(&self, handle: u64) -> (r: Result<u32, OverlayError>)
        ensures
            r == if self@.known(handle) {
                Ok::<u32, OverlayError>(self@.overlay(handle).width)
            } else {
                Err::<u32, OverlayError>(OverlayError::UnknownOverlay)
            },
    {
        match slots_get(&self.overlays, handle) {
            Some(overlay) => Ok(overlay.width),
            None => Err(OverlayError::UnknownOverlay),
        }
    }

    /// Sets the part of its texture that the overlay shows.
    pub fn set_overlay_texture_bounds(&mut self, handle: u64, bounds: TextureBounds) -> (r: Result<
        (),
        OverlayError,
    >)
        requires
            old(self).wf(),
        ensures
            final(self).wf(),
            r == lookup(old(self)@, handle),
            final(self)@ == if old(self)@.known(handle) {
                old(self)@.with_overlay(handle, Overlay { bounds, ..old(self)@.overlay(handle) })
            } else {
                old(self)@
            },
            old(self)@.consistent() ==> final(self)@.consistent(),
    {
        match slots_get_mut(&mut self.overlays, handle) {
            Some(overlay) => {
                overlay.bounds = bounds;
                proof {
                    lemma_updated(old(self)@, handle, *overlay);
                }
                Ok(())
            },
            None => Err(OverlayError::UnknownOverlay),
        }
    }

    /// The part of its texture that the overlay shows.
    pub fn get_overlay_texture_bounds(&self, handle: u64) -> (r: Result<
        TextureBounds,
        OverlayError,
    >)
        ensures
            r == if self@.known(handle) {
                Ok::<TextureBounds, OverlayError>(self@.overlay(handle).bounds)
            } else {
                Err::<TextureBounds, OverlayError>(OverlayError::UnknownOverlay)
            },
    {
        match slots_get(&self.overlays, handle) {
            Some(overlay) => Ok(overlay.bounds),
            None => Err(OverlayError::UnknownOverlay),
        }
    }

    /// Places the overlay at `pose` relative to `origin`. The orientation is
    /// stored as given: the caller hands in a unit quaternion.
    pub fn set_overlay_transform_absolute(
        &mut self,
        handle: u64,
        origin: TrackingOrigin,
        pose: Pose,
    ) -> (r: Result<(), OverlayError>)
        requires
            old(self).wf(),
        ensures
            final(self).wf(),
            r == lookup(old(self)@, handle),
            final(self)@ == if old(self)@.known(handle) {
                old(self)@.with_overlay(
                    handle,
                    Overlay { transform: Some((origin, pose)), ..old(self)@.overlay(handle) },
                )
            } else {
                old(self)@
            },
            old(self)@.consistent() ==> final(self)@.consistent(),
    {
        match slots_get_mut(&mut self.overlays, handle) {
            Some(overlay) => {
                overlay.transform = Some((origin, pose));
                proof {
                    lemma_updated(old(self)@, handle, *overlay);
                }
                Ok(())
            },
            None => Err(OverlayError::UnknownOverlay),
        }
    }

    /// Bends the overlay: it becomes a curved overlay whose curvature is
    /// `value` limited to `[0, 1]`. A runtime without curved layers ignores
    /// the call and reports success, whatever the handle.
    pub fn set_overlay_curvature(&mut self, handle: u64, value: u32) -> (r: Result<
        (),
        OverlayError,
    >)
        requires
            old(self).wf(),
        ensures
            final(self).wf(),
            r == if old(self)@.capabilities.curved_layers {
                lookup(old(self)@, handle)
            } else {
                Ok::<(), OverlayError>(())
            },
            final(self)@ == if old(self)@.capabilities.curved_layers && old(self)@.known(handle) {
                old(self)@.with_overlay(
                    handle,
                    Overlay {
                        kind: OverlayKind::Curved { curvature: clamp_unit(value) },
                        ..old(self)@.overlay(handle)
                    },
                )
            } else {
                old(self)@
            },
            old(self)@.consistent() ==> final(self)@.consistent(),
    {
        if !self.capabilities.curved_layers {
            return Ok(());
        }
        match slots_get_mut(&mut self.overlays, handle) {
            Some(overlay) => {
                overlay.kind = OverlayKind::Curved { curvature: clamp_to_unit(value) };
                proof {
                    lemma_updated(old(self)@, handle, *overlay);
                }
                Ok(())
            },
            None => Err(OverlayError::UnknownOverlay),
        }
    }

    /// The overlay's curvature: 0 where it is not curved.
    pub fn get_overlay_curvature(&self, handle: u64) -> (r: Result<u32, OverlayError>)
        ensures
            r == if self@.known(handle) {
                Ok::<u32, OverlayError>(curvature_read(self@.overlay(handle).kind))
            } else {
                Err::<u32, OverlayError>(OverlayError::UnknownOverlay)
            },
    {
        match slots_get(&self.overlays, handle) {
            Some(overlay) => match overlay.kind {
                OverlayKind::Curved { curvature } => Ok(curvature),
                _ => Ok(ZERO),
            },
            None => Err(OverlayError::UnknownOverlay),
        }
    }

    /// Sets the overlay's draw order; lower draws first.
    pub fn set_overlay_sort_order(&mut self, handle: u64, value: u32) -> (r: Result<
        (),
        OverlayError,
    >)
        requires
            old(self).wf(),
        ensures
            final(self).wf(),
            r == lookup(old(self)@, handle),
            final(self)@ == if old(self)@.known(handle) {
                old(self)@.with_overlay(
                    handle,
                    Overlay { z_order: value as i64, ..old(self)@.overlay(handle) },
                )
            } else {
                old(self)@
            },
            old(self)@.consistent() ==> final(self)@.consistent(),
    {
        match slots_get_mut(&mut self.overlays, handle) {
            Some(overlay) => {
                overlay.z_order = value as i64;
                proof {
                    lemma_updated(old(self)@, handle, *overlay);
                }
                Ok(())
            },
            None => Err(OverlayError::UnknownOverlay),
        }
    }

    /// The overlay's draw order as an unsigned number: the skybox's order
    /// reads as the highest.
    pub fn get_overlay_sort_order(&self, handle: u64) -> (r: Result<u32, OverlayError>)
        requires
            self.wf(),
        ensures
            r == if self@.known(handle) {
                Ok::<u32, OverlayError>(sort_order_read(self@.overlay(handle).z_order))
            } else {
                Err::<u32, OverlayError>(OverlayError::UnknownOverlay)
            },
    {
        match slots_get(&self.overlays, handle) {
            Some(overlay) => {
                if overlay.z_order < 0 {
                    Ok(u32::MAX)
                } else {
                    Ok(overlay.z_order as u32)
                }
            },
            None => Err(OverlayError::UnknownOverlay),
        }
    }

    /// Accepts a texture for the overlay (see `Overlay::set_texture`).
    pub fn set_overlay_texture(
        &mut self,
        handle: u64,
        session_data: &mut OverlaySessionData,
        texture: TextureRequest,
    ) -> (r: Result<SwapchainAction, OverlayError>)
        requires
            old(self).wf(),
        ensures
            final(self).wf(),
            r == submit_result(
                old(self)@,
                old(session_data).api(),
                old(session_data).swapchains(),
                handle,
                texture,
            ),
            final(self)@ == if r is Ok {
                old(self)@.with_overlay(
                    handle,
                    Overlay { compositor: Some(texture.api), ..old(self)@.overlay(handle) },
                )
            } else {
                old(self)@
            },
            final(session_data).api() == if r is Ok {
                Some(texture.api)
            } else {
                old(session_data).api()
            },
            final(session_data).swapchains() == if r is Ok {
                prepare_entries(
                    old(session_data).api(),
                    old(session_data).swapchains(),
                    handle,
                    texture,
                )
            } else {
                old(session_data).swapchains()
            },
            old(self)@.consistent() ==> final(self)@.consistent(),
    {
        match slots_get_mut(&mut self.overlays, handle) {
            Some(overlay) => {
                let r = overlay.set_texture(handle, session_data, texture);
                proof {
                    lemma_updated(old(self)@, handle, *overlay);
                    assert(self@ =~= old(self)@.with_overlay(handle, *overlay));
                }
                match r {
                    Ok(action) => Ok(action),
                    Err(error) => Err(OverlayError::Texture(error)),
                }
            },
            None => Err(OverlayError::UnknownOverlay),
        }
    }

    /// Records the pixels that the copy of the overlay's last accepted
    /// texture filled (see `Overlay::finish_texture`).
    pub fn finish_overlay_texture(&mut self, handle: u64, extent: Extent2Di) -> (r: Result<
        (),
        OverlayError,
    >)
        requires
            old(self).wf(),
        ensures
            final(self).wf(),
            r == lookup(old(self)@, handle),
            final(self)@ == if old(self)@.known(handle) {
                old(self)@.with_overlay(handle, old(self)@.overlay(handle).finished(extent))
            } else {
                old(self)@
            },
            old(self)@.consistent() ==> final(self)@.consistent(),
    {
        match slots_get_mut(&mut self.overlays, handle) {
            Some(overlay) => {
                overlay.finish_texture(extent);
                proof {
                    lemma_updated(old(self)@, handle, *overlay);
                }
                Ok(())
            },
            None => Err(OverlayError::UnknownOverlay),
        }
    }

    /// Destroys the skybox: every skybox overlay leaves the table, and the
    /// session lets go of their swapchains.
    pub fn clear_skybox(&mut self, session_data: &mut OverlaySessionData)
        requires
            old(self).wf(),
        ensures
            final(self).wf(),
            final(self)@ == old(self)@.cleared(),
            final(session_data).api() == old(session_data).api(),
            final(session_data).swapchains() == old(session_data).swapchains().remove_keys(
                old(self)@.skybox.to_set(),
            ),
            old(self)@.consistent() ==> final(self)@.consistent(),
    {
        let ghost before = self@;
        let ghost records = session_data.swapchains();
        let mut i: usize = 0;
        assert(self.skybox@.take(0) =~= Seq::<u64>::empty());
        assert(before.overlays.remove_keys(Seq::<u64>::empty().to_set()) =~= before.overlays);
        assert(records.remove_keys(Seq::<u64>::empty().to_set()) =~= records);
        while i < self.skybox.len()
            invariant
                i <= self.skybox.len(),
                before.valid(),
                self.repr_wf(),
                self.capabilities == before.capabilities,
                self.key_to_overlay@ == before.key_to_overlay,
                self.skybox@ == before.skybox,
                slot_entries(self.overlays) == before.overlays.remove_keys(
                    before.skybox.take(i as int).to_set(),
                ),
                slot_versions(self.overlays) == retired(
                    before.versions,
                    before.skybox.take(i as int),
                ),
                session_data.api() == old(session_data).api(),
                session_data.swapchains() == records.remove_keys(
                    before.skybox.take(i as int).to_set(),
                ),
            decreases self.skybox.len() - i,
        {
            let handle = self.skybox[i];
            slots_remove(&mut self.overlays, handle);
            let _ = session_data.release_swapchain(handle);
            proof {
                assert(before.overlays.contains_key(before.skybox[i as int]));
                let done = before.skybox.take(i as int);
                let next = before.skybox.take(i + 1);
                assert(next =~= done.push(handle));
                assert(next.drop_last() =~= done);
                assert(canonical(handle) == handle);
                assert(done.to_set().contains(handle) == done.contains(handle));
                assert(!done.contains(handle)) by {
                    if done.contains(handle) {
                        let j = choose|j: int| 0 <= j < done.len() && done[j] == handle;
                        assert(before.skybox[j] == before.skybox[i as int]);
                    }
                }
                assert forall|h: u64| next.to_set().contains(h) <==> done.to_set().contains(h) || h
                    == handle by {
                    if done.contains(h) {
                        let j = choose|j: int| 0 <= j < done.len() && done[j] == h;
                        assert(next[j] == h);
                    }
                    if next.contains(h) {
                        let j = choose|j: int| 0 <= j < next.len() && next[j] == h;
                        if j < done.len() {
                            assert(done[j] == h);
                        }
                    }
                    assert(next[i as int] == handle);
                }
                assert(slot_entries(self.overlays) =~= before.overlays.remove_keys(next.to_set()));
                assert(session_data.swapchains() =~= records.remove_keys(next.to_set()));
            }
            i += 1;
        }
        self.skybox = Vec::new();
        proof {
            assert(before.skybox.take(before.skybox.len() as int) =~= before.skybox);
            assert(self@ =~= before.cleared());
            lemma_cleared(before);
        }
    }

    /// Whether a skybox of `textures` textures can be set.
    pub fn can_set_skybox(&self, textures: usize) -> (r: bool)
        requires
            self.wf(),
        ensures
            r == skybox_fits(self@, textures as int),
    {
        if textures != 1 && textures != 2 && textures != CUBE_FACES {
            return false;
        }
        let faces: usize = if textures == CUBE_FACES {
            CUBE_FACES
        } else {
            1
        };
        proof {
            lemma_cleared_count(self@);
        }
        let left: usize = slots_len(&self.overlays) - self.skybox.len();
        left <= MAX_OVERLAYS - faces
    }

    /// Replaces the skybox by one made of the given textures: one sphere
    /// for one or two textures, of which only the first is used, and the six
    /// faces of a cube for six. The skybox that was there is destroyed first,
    /// as by `clear_skybox`. Each new overlay is handed its texture as by
    /// `set_overlay_texture`, and the faces that come back say under which
    /// handle each overlay stands and what its texture needs.
    pub fn set_skybox(
        &mut self,
        session_data: &mut OverlaySessionData,
        textures: &Vec<TextureRequest>,
    ) -> (faces: Vec<SkyboxFace>)
        requires
            old(self).wf(),
            skybox_fits(old(self)@, textures.len() as int),
        ensures
            final(self).wf(),
            faces.len() == face_count(textures.len() as int),
            skybox_built(
                old(self)@.cleared(),
                final(self)@,
                (
                    old(session_data).api(),
                    old(session_data).swapchains().remove_keys(old(self)@.skybox.to_set()),
                ),
                (final(session_data).api(), final(session_data).swapchains()),
                textures@,
                faces@,
                face_count(textures.len() as int),
            ),
            forall|i: int|
                0 <= i < faces.len() ==> !old(self)@.skybox.contains(#[trigger] faces[i].handle),
            old(self)@.consistent() ==> final(self)@.consistent(),
    {
        let ghost gone = self@.skybox;
        proof {
            assert forall|j: int| 0 <= j < gone.len() implies self@.cleared().versions.contains_key(
                slot_of(#[trigger] gone[j]),
            ) && self@.cleared().versions[slot_of(gone[j])] != version_of(gone[j]) - 1
                && canonical(gone[j]) == gone[j] by {
                assert(self@.overlays.contains_key(gone[j]));
                assert forall|k: int| 0 <= k < gone.len() && k != j implies slot_of(
                    #[trigger] gone[k],
                ) != slot_of(gone[j]) by {
                    assert(self@.overlays.contains_key(gone[k]));
                    assert(gone[k] != gone[j]);
                }
                lemma_retired_there(self@.versions, gone, j);
                lemma_canonical_is_odd(gone[j]);
            }
        }
        self.clear_skybox(session_data);
        let cube = textures.len() == CUBE_FACES;
        let total: usize = if cube {
            CUBE_FACES
        } else {
            1
        };
        let ghost start = self@;
        let ghost session0 = (session_data.api(), session_data.swapchains());
        let mut faces: Vec<SkyboxFace> = Vec::new();
        let mut face: usize = 0;
        proof {
            assert(face_handles(faces@) =~= Seq::<u64>::empty());
            assert(self@.skybox =~= face_handles(faces@));
        }
        while face < total
            invariant
                face <= total <= textures.len(),
                total == face_count(textures.len() as int),
                cube == (total == 6),
                faces.len() == face,
                start.valid(),
                start.skybox.len() == 0,
                start.overlays.dom().len() + total <= MAX_OVERLAYS,
                self.wf(),
                self@.overlays.dom().len() == start.overlays.dom().len() + face,
                skybox_built(
                    start,
                    self@,
                    session0,
                    (session_data.api(), session_data.swapchains()),
                    textures@,
                    faces@,
                    total as int,
                ),
                forall|j: int|
                    0 <= j < gone.len() ==> self@.versions.contains_key(
                        slot_of(#[trigger] gone[j]),
                    ) && self@.versions[slot_of(gone[j])] != version_of(gone[j]) - 1 && canonical(
                        gone[j],
                    ) == gone[j],
                forall|i: int|
                    0 <= i < faces.len() ==> !gone.contains(#[trigger] faces[i].handle),
                start.consistent() ==> self@.consistent(),
            decreases total - face,
        {
            let ghost before = self@;
            let ghost session1 = (session_data.api(), session_data.swapchains());
            let ghost handles = face_handles(faces@);
            let ghost old_faces = faces@;
            let overlay = new_skybox_overlay(cube, face);
            let handle = slots_insert(&mut self.overlays, overlay);
            self.skybox.push(handle);
            let ghost inserted = self@;
            proof {
                assert(inserted =~= before.with_skybox_overlay(handle, overlay));
                lemma_skybox_overlay_added(before, handle, overlay);
                lemma_canonical_is_odd(handle);
                assert(!gone.contains(handle)) by {
                    if gone.contains(handle) {
                        let j = choose|j: int| 0 <= j < gone.len() && gone[j] == handle;
                        assert(before.versions.contains_key(slot_of(gone[j])));
                    }
                }
                assert forall|j: int| 0 <= j < gone.len() implies inserted.versions.contains_key(
                    slot_of(#[trigger] gone[j]),
                ) && inserted.versions[slot_of(gone[j])] != version_of(gone[j]) - 1 by {
                    assert(before.versions.contains_key(slot_of(gone[j])));
                    lemma_canonical_is_odd(gone[j]);
                }
            }
            let texture = match self.set_overlay_texture(handle, session_data, textures[face]) {
                Ok(action) => Ok(action),
                Err(OverlayError::Texture(error)) => Err(error),
                Err(OverlayError::UnknownOverlay) => unreached(),
            };
            faces.push(SkyboxFace { handle, texture });
            proof {
                let now = self@;
                let session2 = (session_data.api(), session_data.swapchains());
                let all = face_handles(faces@);
                assert(all =~= handles.push(handle));
                assert(all.drop_last() =~= handles);
                assert(now.skybox =~= all);
                assert forall|i: int| 0 <= i < faces@.len() implies !gone.contains(
                    #[trigger] faces@[i].handle,
                ) by {
                    if i < face {
                        assert(faces@[i] == old_faces[i]);
                    }
                }
                lemma_submitted_prefix(session0.0, session0.1, handles, all, textures@, face as int);
                assert(submitted(session0.0, session0.1, all, textures@, face as int) == session1);
                assert(submitted(session0.0, session0.1, all, textures@, face + 1) == session2);
                assert forall|i: int| 0 <= i < faces@.len() implies #[trigger] faces@[i].texture
                    == face_result(session0.0, session0.1, all, textures@, i) by {
                    if i < face {
                        lemma_submitted_prefix(session0.0, session0.1, handles, all, textures@, i);
                        assert(all[i] == handles[i]);
                    }
                }
                assert forall|i: int| 0 <= i < faces@.len() implies is_skybox_overlay(
                    now.overlays[#[trigger] faces@[i].handle],
                    total as int,
                    i,
                    face_binding(faces@[i], textures@[i]),
                ) by {
                    if i < face {
                        assert(handles[i] == faces@[i].handle);
                        assert(before.overlays.contains_key(handles[i]));
                    }
                }
                assert forall|h: u64| now.overlays.contains_key(h) <==> start.overlays.contains_key(
                    h,
                ) || all.contains(h) by {
                    if handles.contains(h) {
                        let j = choose|j: int| 0 <= j < handles.len() && handles[j] == h;
                        assert(all[j] == h);
                    }
                    if all.contains(h) {
                        let j = choose|j: int| 0 <= j < all.len() && all[j] == h;
                        if j < handles.len() {
                            assert(handles[j] == h);
                        }
                    }
                    assert(all[face as int] == handle);
                }
                assert forall|h: u64| #[trigger]
                    start.overlays.contains_key(h) implies now.overlays[h] == start.overlays[h]
                    && !all.contains(h) by {
                    if all.contains(h) {
                        let j = choose|j: int| 0 <= j < all.len() && all[j] == h;
                        if j < handles.len() {
                            assert(handles[j] == h);
                            assert(handles.contains(h));
                        }
                    }
                }
            }
            face += 1;
        }
        faces
    }

    /// Whether `get_layers` can be asked for the layers of a frame drawn
    /// with the graphics interface `api`: the session holds no swapchains
    /// yet, or they are of that interface and there is one for every overlay
    /// that is shown.
    pub fn can_get_layers(
        &self,
        session: &OverlaySessionData,
        api: GraphicsApi,
        render_skybox: bool,
    ) -> (r: bool)
        requires
            self.wf(),
        ensures
            r == layers_ready(self@, session.api(), session.swapchains(), api, render_skybox),
    {
        match session.backend() {
            None => {
                return true;
            },
            Some(held) => {
                if held != api {
                    return false;
                }
            },
        }
        let handles = slots_handles(&self.overlays);
        let mut i: usize = 0;
        while i < handles.len()
            invariant
                i <= handles.len(),
                self@.valid(),
                session.api() == Some(api),
                in_slot_order(handles@, self@.overlays.dom()),
                forall|j: int|
                    0 <= j < i && shown(self@.overlays[#[trigger] handles@[j]], render_skybox)
                        ==> session.swapchains().contains_key(handles@[j]),
            decreases handles.len() - i,
        {
            let handle = handles[i];
            assert(handles@.contains(handle));
            match slots_get(&self.overlays, handle) {
                Some(overlay) => {
                    if is_shown(overlay, render_skybox) && session.swapchain(handle).is_none() {
                        assert(self@.overlays.contains_key(handle));
                        return false;
                    }
                },
                None => {},
            }
            i += 1;
        }
        proof {
            assert forall|h: u64| #[trigger]
                self@.overlays.contains_key(h) && shown(
                    self@.overlays[h],
                    render_skybox,
                ) implies session.swapchains().contains_key(h) by {
                assert(handles@.contains(h));
                let j = choose|j: int| 0 <= j < handles@.len() && handles@[j] == h;
                assert(shown(self@.overlays[handles@[j]], render_skybox));
            }
        }
        true
    }

    /// The layers of a frame as `get_layers` gives them, where they can be
    /// asked for (see `can_get_layers`), else nothing.
    pub fn try_get_layers(
        &self,
        session: &OverlaySessionData,
        api: GraphicsApi,
        current_origin: TrackingOrigin,
        render_skybox: bool,
    ) -> (r: Option<Vec<OverlayLayer>>)
        requires
            self.wf(),
        ensures
            r is Some == layers_ready(
                self@,
                session.api(),
                session.swapchains(),
                api,
                render_skybox,
            ),
            r matches Some(layers) ==> layers@ == if session.api() is Some {
                frame_layers(self@.overlays, current_origin, render_skybox)
            } else {
                Seq::<OverlayLayer>::empty()
            },
            in_slot_order(slot_order(self@.overlays.dom()), self@.overlays.dom()),
    {
        proof {
            lemma_listed(self@);
        }
        if self.can_get_layers(session, api, render_skybox) {
            Some(self.get_layers(session, api, current_origin, render_skybox))
        } else {
            None
        }
    }

    /// The layers of a frame, in the order they are to be drawn: one for
    /// each overlay that is visible and has been given a texture, skybox
    /// overlays only where the skybox is asked for. An overlay without a
    /// transform is placed in the space of `current_origin`. A session that
    /// holds no swapchains yet has no layers.
    pub fn get_layers(
        &self,
        session: &OverlaySessionData,
        api: GraphicsApi,
        current_origin: TrackingOrigin,
        render_skybox: bool,
    ) -> (layers: Vec<OverlayLayer>)
        requires
            self.wf(),
            layers_ready(self@, session.api(), session.swapchains(), api, render_skybox),
        ensures
            layers@ == if session.api() is Some {
                frame_layers(self@.overlays, current_origin, render_skybox)
            } else {
                Seq::<OverlayLayer>::empty()
            },
            in_slot_order(slot_order(self@.overlays.dom()), self@.overlays.dom()),
    {
        proof {
            lemma_listed(self@);
        }
        if session.backend().is_none() {
            return Vec::new();
        }
        let handles = slots_handles(&self.overlays);
        proof {
            lemma_slot_order_unique(
                handles@,
                slot_order(self@.overlays.dom()),
                self@.overlays.dom(),
            );
        }
        let mut entries: Vec<(i64, OverlayLayer)> = Vec::new();
        let mut i: usize = 0;
        assert(handles@.take(0) =~= Seq::<u64>::empty());
        while i < handles.len()
            invariant
                i <= handles.len(),
                self@.valid(),
                in_slot_order(handles@, self@.overlays.dom()),
                entries@ == candidates(
                    handles@.take(i as int),
                    self@.overlays,
                    current_origin,
                    render_skybox,
                ),
            decreases handles.len() - i,
        {
            let handle = handles[i];
            proof {
                assert(handles@.contains(handle));
                assert(handles@.take(i + 1).drop_last() =~= handles@.take(i as int));
            }
            match slots_get(&self.overlays, handle) {
                Some(overlay) => {
                    if is_shown(overlay, render_skybox) {
                        entries.push((overlay.z_order, build_layer(handle, overlay, current_origin)));
                    }
                },
                None => {},
            }
            i += 1;
        }
        assert(handles@.take(handles.len() as int) =~= handles@);
        let sorted = sort_layers(&entries);
        strip_order(&sorted)
    }
}

/// The handles but `handle`, in their order.
fn remove_handle(handles: &Vec<u64>, handle: u64) -> (kept: Vec<u64>)
    ensures
        kept@ == without(handles@, handle),
{
    let mut kept: Vec<u64> = Vec::new();
    let mut i: usize = 0;
    proof {
        reveal(Seq::filter);
        assert(handles@.take(0) =~= Seq::<u64>::empty());
    }
    while i < handles.len()
        invariant
            i <= handles.len(),
            kept@ == without(handles@.take(i as int), handle),
        decreases handles.len() - i,
    {
        proof {
            reveal(Seq::filter);
            assert(handles@.take(i + 1).drop_last() =~= handles@.take(i as int));
        }
        if handles[i] != handle {
            kept.push(handles[i]);
        }
        i += 1;
    }
    assert(handles@.take(handles.len() as int) =~= handles@);
    kept
}

} // verus!
