//! What the overlay store holds, and how its operations change it.
//!
//! The store is described by a table of overlays, the index from keys to
//! handles, and the list of skybox overlays. Every operation of
//! `OverlayMan` is stated as a change of this description.

use crate::float_bits::{eq, ONE, ZERO};
use crate::handle::{canonical, is_null, slot_of, version_of};
use crate::layers::shown;
use crate::overlay::{set_texture_result, Overlay};
use crate::skybox::face_count;
use crate::slots::{
    distinct_slots, in_slot_order, lemma_slot_order_lists, next_version, slot_order,
    MAX_OVERLAYS,
};
use crate::types::{
    Capabilities, GraphicsApi, OverlayError, OverlayKind, SwapchainAction, SwapchainData,
    TextureRequest,
};
use vstd::prelude::*;

verus! {

/// What the store holds.
#[verifier::ext_equal]
pub struct OverlayManView {
    /// What the host runtime can draw.
    pub capabilities: Capabilities,
    /// Every live overlay, by handle.
    pub overlays: Map<u64, Overlay>,
    /// The handle each registered key leads to.
    pub key_to_overlay: Map<Seq<u8>, u64>,
    /// The handles of the skybox overlays, in face order.
    pub skybox: Seq<u64>,
    /// The version of every slot the table has made, by slot index: that
    /// of the live handle in the slot, or one that no live handle has.
    pub versions: Map<int, int>,
}

impl OverlayManView {
    /// An overlay is registered under the handle.
    pub open spec fn known(self, handle: u64) -> bool {
        self.overlays.contains_key(canonical(handle))
    }

    /// The overlay registered under the handle.
    pub open spec fn overlay(self, handle: u64) -> Overlay {
        self.overlays[canonical(handle)]
    }

    /// The store with the overlay under the handle replaced.
    pub open spec fn with_overlay(self, handle: u64, overlay: Overlay) -> OverlayManView {
        OverlayManView { overlays: self.overlays.insert(canonical(handle), overlay), ..self }
    }

    /// Every handle in use is the 64-bit form of a key and has the
    /// version of its slot, and no two of them share a slot.
    pub open spec fn handles_valid(self) -> bool {
        &&& self.overlays.dom().finite()
        &&& forall|h: u64| #[trigger]
            self.overlays.contains_key(h) ==> canonical(h) == h && !is_null(h)
        &&& distinct_slots(self.overlays.dom())
        &&& forall|h: u64| #[trigger]
            self.overlays.contains_key(h) ==> self.versions.contains_key(slot_of(h))
                && self.versions[slot_of(h)] == version_of(h)
    }

    /// Every overlay's state is one the store can have given it: its blend
    /// factor is unset without the blend-bias capability, it is not curved
    /// without the curved-layer capability, it has pixels only once a
    /// texture was accepted for it, and its draw order is one a caller can
    /// set, or the skybox's if it is a skybox overlay.
    pub open spec fn overlays_valid(self) -> bool {
        forall|h: u64| #[trigger]
            self.overlays.contains_key(h) ==> {
                &&& !self.capabilities.blend_bias ==> self.overlays[h].alpha is None
                &&& !self.capabilities.curved_layers ==> !(self.overlays[h].kind is Curved)
                &&& self.overlays[h].rect is Some ==> self.overlays[h].compositor is Some
                &&& -1 <= self.overlays[h].z_order <= u32::MAX
                &&& self.overlays[h].z_order < 0 ==> self.skybox.contains(h)
            }
    }

    /// Every registered key leads to a live overlay that has this key and
    /// is no skybox overlay.
    pub open spec fn index_sound(self) -> bool {
        forall|key: Seq<u8>| #[trigger]
            self.key_to_overlay.contains_key(key) ==> {
                &&& self.overlays.contains_key(self.key_to_overlay[key])
                &&& self.overlays[self.key_to_overlay[key]].key@ == key
                &&& !self.skybox.contains(self.key_to_overlay[key])
            }
    }

    /// Every live overlay but the skybox's is found by its key.
    pub open spec fn index_complete(self) -> bool {
        forall|h: u64| #[trigger]
            self.overlays.contains_key(h) && !self.skybox.contains(h) ==> {
                &&& self.key_to_overlay.contains_key(self.overlays[h].key@)
                &&& self.key_to_overlay[self.overlays[h].key@] == h
            }
    }

    /// Every skybox handle is live and listed once.
    pub open spec fn skybox_owned(self) -> bool {
        &&& self.skybox.no_duplicates()
        &&& forall|i: int|
            0 <= i < self.skybox.len() ==> self.overlays.contains_key(#[trigger] self.skybox[i])
    }

    /// What holds of the store at all times.
    pub open spec fn valid(self) -> bool {
        &&& self.handles_valid()
        &&& self.overlays_valid()
        &&& self.index_sound()
        &&& self.skybox_owned()
    }

    /// The index and the table agree: every registered key leads to a live
    /// overlay with that key, and every live overlay of a caller is found by
    /// its key.
    pub open spec fn consistent(self) -> bool {
        self.index_sound() && self.index_complete()
    }

    /// The store after an overlay was created under `handle`.
    pub open spec fn created(self, handle: u64, overlay: Overlay) -> OverlayManView {
        OverlayManView {
            overlays: self.overlays.insert(handle, overlay),
            key_to_overlay: self.key_to_overlay.insert(overlay.key@, handle),
            versions: self.versions.insert(slot_of(handle), version_of(handle)),
            ..self
        }
    }

    /// The key of the overlay under `handle` leads to that overlay.
    pub open spec fn found_by_key(self, handle: u64) -> bool {
        &&& self.key_to_overlay.contains_key(self.overlay(handle).key@)
        &&& self.key_to_overlay[self.overlay(handle).key@] == canonical(handle)
    }

    /// The store after the overlay under `handle` was destroyed: the
    /// overlay is gone, and so are its place in the skybox and, where its
    /// key led to it, its key. An unknown handle changes nothing.
    pub open spec fn destroyed(self, handle: u64) -> OverlayManView {
        if self.known(handle) {
            OverlayManView {
                overlays: self.overlays.remove(canonical(handle)),
                key_to_overlay: if self.found_by_key(handle) {
                    self.key_to_overlay.remove(self.overlay(handle).key@)
                } else {
                    self.key_to_overlay
                },
                skybox: without(self.skybox, canonical(handle)),
                versions: self.versions.insert(
                    slot_of(canonical(handle)),
                    next_version(version_of(canonical(handle))),
                ),
                ..self
            }
        } else {
            self
        }
    }

    /// The store after a skybox overlay was added under `handle`.
    pub open spec fn with_skybox_overlay(self, handle: u64, overlay: Overlay) -> OverlayManView {
        OverlayManView {
            overlays: self.overlays.insert(handle, overlay),
            skybox: self.skybox.push(handle),
            versions: self.versions.insert(slot_of(handle), version_of(handle)),
            ..self
        }
    }

    /// The store after the skybox was destroyed.
    pub open spec fn cleared(self) -> OverlayManView {
        OverlayManView {
            overlays: self.overlays.remove_keys(self.skybox.to_set()),
            skybox: Seq::empty(),
            versions: retired(self.versions, self.skybox),
            ..self
        }
    }
}

/// The versions after the overlays under `handles` were destroyed in
/// turn: the version of each one's slot has moved on by 1.
pub open spec fn retired(versions: Map<int, int>, handles: Seq<u64>) -> Map<int, int>
    decreases handles.len(),
{
    if handles.len() == 0 {
        versions
    } else {
        retired(versions, handles.drop_last()).insert(
            slot_of(handles.last()),
            next_version(version_of(handles.last())),
        )
    }
}

/// The versions after overlays were created under `handles` in turn:
/// each one's slot has its version.
pub open spec fn issued(versions: Map<int, int>, handles: Seq<u64>) -> Map<int, int>
    decreases handles.len(),
{
    if handles.len() == 0 {
        versions
    } else {
        issued(versions, handles.drop_last()).insert(
            slot_of(handles.last()),
            version_of(handles.last()),
        )
    }
}

/// The handles but `handle`, in their order.
pub open spec fn without(handles: Seq<u64>, handle: u64) -> Seq<u64> {
    handles.filter(|h: u64| h != handle)
}

/// The handle of a new overlay: the 64-bit form of a key not in use,
/// whose slot holds no overlay, with the version that follows that of its
/// slot.
pub open spec fn fresh_handle(store: OverlayManView, handle: u64) -> bool {
    &&& !store.overlays.contains_key(handle)
    &&& forall|k: u64| #[trigger] store.overlays.contains_key(k) ==> slot_of(k) != slot_of(handle)
    &&& canonical(handle) == handle
    &&& !is_null(handle)
    &&& version_of(handle) == if store.versions.contains_key(slot_of(handle)) {
        store.versions[slot_of(handle)] + 1
    } else {
        1
    }
}

/// An overlay that a caller creates is in a state the store can hold.
pub open spec fn creatable(overlay: Overlay) -> bool {
    &&& overlay.alpha is None
    &&& !(overlay.kind is Curved)
    &&& overlay.rect is None
    &&& 0 <= overlay.z_order <= u32::MAX
}

/// What looking up `key` gives: the handle it leads to, or that it is
/// unknown.
pub open spec fn find_result(store: OverlayManView, key: Seq<u8>) -> Result<u64, OverlayError> {
    if store.key_to_overlay.contains_key(key) {
        Ok(store.key_to_overlay[key])
    } else {
        Err(OverlayError::UnknownOverlay)
    }
}

/// What an operation on the overlay under `handle` reports.
pub open spec fn lookup(store: OverlayManView, handle: u64) -> Result<(), OverlayError> {
    if store.known(handle) {
        Ok(())
    } else {
        Err(OverlayError::UnknownOverlay)
    }
}

/// The blend factor after one was set: unchanged without the blend-bias
/// capability, unset by a factor of 1, else the factor.
pub open spec fn alpha_after(capabilities: Capabilities, before: Option<u32>, alpha: u32) -> Option<
    u32,
> {
    if !capabilities.blend_bias {
        before
    } else if eq(alpha, ONE) {
        None
    } else {
        Some(alpha)
    }
}

/// The blend factor as it is read: 1 where none is set.
pub open spec fn alpha_read(alpha: Option<u32>) -> u32 {
    match alpha {
        Some(alpha) => alpha,
        None => ONE,
    }
}

/// The curvature as it is read: 0 where the overlay is not curved.
pub open spec fn curvature_read(kind: OverlayKind) -> u32 {
    match kind {
        OverlayKind::Curved { curvature } => curvature,
        _ => ZERO,
    }
}

/// The draw order as it is read: its low 32 bits.
pub open spec fn sort_order_read(z_order: i64) -> u32 {
    (z_order as int % 0x1_0000_0000) as u32
}

/// What the store answers to a texture for the overlay under `handle`.
pub open spec fn submit_result(
    store: OverlayManView,
    api: Option<GraphicsApi>,
    entries: Map<u64, SwapchainData>,
    handle: u64,
    texture: TextureRequest,
) -> Result<SwapchainAction, OverlayError> {
    if !store.known(handle) {
        Err(OverlayError::UnknownOverlay)
    } else {
        match set_texture_result(store.overlay(handle).compositor, api, entries, handle, texture) {
            Ok(action) => Ok(action),
            Err(error) => Err(OverlayError::Texture(error)),
        }
    }
}

/// `get_layers` can be asked: the session holds no swapchains yet, or
/// they are of the interface `api` and there is one for every overlay that
/// is shown.
pub open spec fn layers_ready(
    store: OverlayManView,
    session_api: Option<GraphicsApi>,
    entries: Map<u64, SwapchainData>,
    api: GraphicsApi,
    render_skybox: bool,
) -> bool {
    session_api is Some ==> {
        &&& session_api == Some(api)
        &&& forall|h: u64| #[trigger]
            store.overlays.contains_key(h) && shown(store.overlays[h], render_skybox)
                ==> entries.contains_key(h)
    }
}

/// A skybox of `textures` textures can be set: there are one, two or six
/// of them, and once the skybox that is there has gone, the table has room
/// for the new one.
pub open spec fn skybox_fits(store: OverlayManView, textures: int) -> bool {
    &&& textures == 1 || textures == 2 || textures == 6
    &&& store.cleared().overlays.dom().len() + face_count(textures) <= MAX_OVERLAYS
}

/// Destroying the skybox takes as many overlays out of the table as the
/// skybox has.
pub proof fn lemma_cleared_count(store: OverlayManView)
    requires
        store.valid(),
    ensures
        store.cleared().overlays.dom().len() + store.skybox.len() == store.overlays.dom().len(),
{
    let all = store.overlays.dom();
    let sky = store.skybox.to_set();
    vstd::seq_lib::seq_to_set_is_finite(store.skybox);
    store.skybox.unique_seq_to_set();
    assert(sky.subset_of(all)) by {
        assert forall|h: u64| sky.contains(h) implies all.contains(h) by {
            let i = choose|i: int| 0 <= i < store.skybox.len() && store.skybox[i] == h;
            assert(store.overlays.contains_key(store.skybox[i]));
        }
    }
    vstd::set_lib::lemma_set_difference_len(all, sky);
    assert(all.intersect(sky) =~= sky);
    assert(store.cleared().overlays.dom() =~= all.difference(sky));
}

/// The live handles of a valid store are listed by ascending slot index,
/// each once.
pub proof fn lemma_listed(store: OverlayManView)
    requires
        store.valid(),
    ensures
        in_slot_order(slot_order(store.overlays.dom()), store.overlays.dom()),
        slot_order(store.overlays.dom()).no_duplicates(),
{
    lemma_slot_order_lists(store.overlays.dom());
}

/// Changing an overlay's state, but not its key, keeps the store valid,
/// and keeps the index and the table in agreement.
pub proof fn lemma_updated(store: OverlayManView, handle: u64, overlay: Overlay)
    requires
        store.valid(),
        store.known(handle),
        overlay.key@ == store.overlay(handle).key@,
        !store.capabilities.blend_bias ==> overlay.alpha is None,
        !store.capabilities.curved_layers ==> !(overlay.kind is Curved),
        overlay.rect is Some ==> overlay.compositor is Some,
        -1 <= overlay.z_order <= u32::MAX,
        overlay.z_order < 0 ==> store.skybox.contains(canonical(handle)),
    ensures
        store.with_overlay(handle, overlay).valid(),
        store.consistent() ==> store.with_overlay(handle, overlay).consistent(),
{
}

/// Creating an overlay keeps the store valid.
pub proof fn lemma_created_valid(store: OverlayManView, handle: u64, overlay: Overlay)
    requires
        store.valid(),
        fresh_handle(store, handle),
        creatable(overlay),
    ensures
        store.created(handle, overlay).valid(),
{
}

/// Creating an overlay under a key that is not registered keeps the index
/// and the table in agreement.
pub proof fn lemma_created_consistent(store: OverlayManView, handle: u64, overlay: Overlay)
    requires
        store.valid(),
        store.consistent(),
        fresh_handle(store, handle),
        !store.key_to_overlay.contains_key(overlay.key@),
    ensures
        store.created(handle, overlay).consistent(),
{
}

/// Destroying an overlay keeps the store valid.
pub proof fn lemma_destroyed_valid(store: OverlayManView, handle: u64)
    requires
        store.valid(),
    ensures
        store.destroyed(handle).valid(),
{
    let after = store.destroyed(handle);
    if store.known(handle) {
        let gone = canonical(handle);
        lemma_without(store.skybox, gone);
        assert(after.skybox == without(store.skybox, gone));
        assert(after.skybox_owned()) by {
            assert forall|i: int| 0 <= i < after.skybox.len() implies after.overlays.contains_key(
                #[trigger] after.skybox[i],
            ) by {
                let h = after.skybox[i];
                assert(without(store.skybox, gone)[i] == h);
                assert(without(store.skybox, gone).contains(h));
                assert(store.skybox.contains(h));
                let j = choose|j: int| 0 <= j < store.skybox.len() && store.skybox[j] == h;
                assert(store.overlays.contains_key(store.skybox[j]));
            }
        }
    }
}

/// Destroying an overlay keeps the index and the table in agreement.
pub proof fn lemma_destroyed_consistent(store: OverlayManView, handle: u64)
    requires
        store.valid(),
        store.consistent(),
    ensures
        store.destroyed(handle).consistent(),
{
    if store.known(handle) {
        lemma_without(store.skybox, canonical(handle));
    }
}

/// Destroying overlays leaves the version of every other slot as it was.
pub proof fn lemma_retired_elsewhere(versions: Map<int, int>, handles: Seq<u64>, slot: int)
    requires
        forall|i: int| 0 <= i < handles.len() ==> slot_of(#[trigger] handles[i]) != slot,
    ensures
        retired(versions, handles).contains_key(slot) == versions.contains_key(slot),
        retired(versions, handles)[slot] == versions[slot],
    decreases handles.len(),
{
    if handles.len() > 0 {
        let rest = handles.drop_last();
        assert forall|i: int| 0 <= i < rest.len() implies slot_of(#[trigger] rest[i]) != slot by {
            assert(rest[i] == handles[i]);
        }
        lemma_retired_elsewhere(versions, rest, slot);
        assert(slot_of(handles[handles.len() - 1]) != slot);
    }
}

/// Destroying overlays that stand in slots of their own moves the version
/// of each one's slot on by 1.
pub proof fn lemma_retired_there(versions: Map<int, int>, handles: Seq<u64>, i: int)
    requires
        0 <= i < handles.len(),
        forall|j: int|
            0 <= j < handles.len() && j != i ==> slot_of(#[trigger] handles[j]) != slot_of(
                handles[i],
            ),
    ensures
        retired(versions, handles).contains_key(slot_of(handles[i])),
        retired(versions, handles)[slot_of(handles[i])] == next_version(version_of(handles[i])),
    decreases handles.len(),
{
    let rest = handles.drop_last();
    if i < handles.len() - 1 {
        assert(rest[i] == handles[i]);
        assert forall|j: int| 0 <= j < rest.len() && j != i implies slot_of(#[trigger] rest[j])
            != slot_of(rest[i]) by {
            assert(rest[j] == handles[j]);
        }
        lemma_retired_there(versions, rest, i);
        assert(slot_of(handles[handles.len() - 1]) != slot_of(handles[i]));
    }
}

/// Destroying the skybox keeps the store valid, and keeps the index and
/// the table in agreement.
pub proof fn lemma_cleared(store: OverlayManView)
    requires
        store.valid(),
    ensures
        store.cleared().valid(),
        store.consistent() ==> store.cleared().consistent(),
{
    let after = store.cleared();
    assert(after.overlays.dom().subset_of(store.overlays.dom()));
    vstd::set_lib::lemma_len_subset(after.overlays.dom(), store.overlays.dom());
    assert forall|h: u64| #[trigger] after.overlays.contains_key(h) implies after.versions.contains_key(
        slot_of(h),
    ) && after.versions[slot_of(h)] == version_of(h) by {
        assert(store.overlays.contains_key(h));
        assert forall|i: int| 0 <= i < store.skybox.len() implies slot_of(
            #[trigger] store.skybox[i],
        ) != slot_of(h) by {
            assert(store.skybox.contains(store.skybox[i]));
            assert(store.overlays.contains_key(store.skybox[i]));
        }
        lemma_retired_elsewhere(store.versions, store.skybox, slot_of(h));
    }
}

/// Adding a skybox overlay under a fresh handle keeps the store valid, and
/// keeps the index and the table in agreement.
pub proof fn lemma_skybox_overlay_added(store: OverlayManView, handle: u64, overlay: Overlay)
    requires
        store.valid(),
        fresh_handle(store, handle),
        overlay.alpha is None,
        !(overlay.kind is Curved),
        overlay.rect is None,
        -1 <= overlay.z_order <= u32::MAX,
    ensures
        store.with_skybox_overlay(handle, overlay).valid(),
        store.consistent() ==> store.with_skybox_overlay(handle, overlay).consistent(),
{
    let after = store.with_skybox_overlay(handle, overlay);
    assert forall|h: u64| after.skybox.contains(h) implies store.skybox.contains(h) || h
        == handle by {
        let j = choose|j: int| 0 <= j < after.skybox.len() && after.skybox[j] == h;
        if j < store.skybox.len() {
            assert(store.skybox[j] == h);
        }
    }
    assert forall|h: u64| store.skybox.contains(h) implies after.skybox.contains(h) by {
        let j = choose|j: int| 0 <= j < store.skybox.len() && store.skybox[j] == h;
        assert(after.skybox[j] == h);
    }
    assert(after.skybox[store.skybox.len() as int] == handle);
    assert(after.skybox_owned()) by {
        assert forall|i: int, j: int| 0 <= i < j < after.skybox.len() implies after.skybox[i]
            != after.skybox[j] by {
            if j == store.skybox.len() {
                assert(store.overlays.contains_key(store.skybox[i]));
            }
        }
    }
}

/// What taking a handle out of a list without repetitions leaves: the
/// other handles, each once.
pub proof fn lemma_without(handles: Seq<u64>, handle: u64)
    requires
        handles.no_duplicates(),
    ensures
        without(handles, handle).no_duplicates(),
        forall|h: u64| #[trigger]
            without(handles, handle).contains(h) <==> handles.contains(h) && h != handle,
    decreases handles.len(),
{
    reveal(Seq::filter);
    if handles.len() > 0 {
        let rest = handles.drop_last();
        let last = handles.last();
        assert(rest.no_duplicates()) by {
            assert forall|i: int, j: int| 0 <= i < j < rest.len() implies rest[i] != rest[j] by {
                assert(rest[i] == handles[i] && rest[j] == handles[j]);
            }
        }
        lemma_without(rest, handle);
        assert forall|h: u64| rest.contains(h) implies handles.contains(h) && h != last by {
            let j = choose|j: int| 0 <= j < rest.len() && rest[j] == h;
            assert(handles[j] == h);
            assert(handles[j] != handles[handles.len() - 1]);
        }
        assert forall|h: u64| handles.contains(h) implies rest.contains(h) || h == last by {
            let j = choose|j: int| 0 <= j < handles.len() && handles[j] == h;
            if j < rest.len() {
                assert(rest[j] == h);
            }
        }
        let out = without(handles, handle);
        let before = without(rest, handle);
        if last != handle {
            assert(out == before.push(last));
            assert forall|h: u64| out.contains(h) <==> handles.contains(h) && h != handle by {
                if out.contains(h) {
                    let j = choose|j: int| 0 <= j < out.len() && out[j] == h;
                    if j < before.len() {
                        assert(before[j] == h);
                        assert(before.contains(h));
                    }
                }
                if handles.contains(h) && h != handle {
                    if h == last {
                        assert(out[out.len() - 1] == h);
                    } else {
                        assert(before.contains(h));
                        let j = choose|j: int| 0 <= j < before.len() && before[j] == h;
                        assert(out[j] == h);
                    }
                }
            }
            assert forall|i: int, j: int| 0 <= i < j < out.len() implies out[i] != out[j] by {
                assert(out[i] == before[i]);
                assert(before.contains(before[i]));
                if j < out.len() - 1 {
                    assert(out[j] == before[j]);
                } else {
                    assert(out[j] == last);
                    assert(rest.contains(before[i]));
                }
            }
        } else {
            assert(out == before);
        }
    }
}

} // verus!
