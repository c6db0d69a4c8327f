//! What holds of the overlay store whatever is done with it.

use crate::float_bits::{lt, ONE, ZERO};
use crate::handle::canonical;
use crate::layers::{
    frame_layers, layer_of, layer_payload, layer_shape, lemma_frame_layers, lemma_layer_of, shown,
    shown_handles, OverlayLayer,
};
use crate::overlay::Overlay;
use crate::store::{
    alpha_after, alpha_read, creatable, find_result, fresh_handle, lemma_created_consistent,
    lemma_created_valid, lemma_destroyed_consistent, lemma_destroyed_valid, lemma_listed,
    OverlayManView,
};
use crate::skybox::{face_handles, skybox_built, SkyboxFace};
use crate::types::{
    Capabilities, GraphicsApi, OverlayError, OverlayKind, SwapchainData, TextureRequest,
    TrackingOrigin,
};
use vstd::prelude::*;

verus! {

/// One step in the life of the store: an overlay is created under a
/// handle, or the overlay under a handle is destroyed.
pub enum StoreOp {
    Create { handle: u64, overlay: Overlay },
    Destroy { handle: u64 },
}

/// The store after one step.
pub open spec fn step(store: OverlayManView, op: StoreOp) -> OverlayManView {
    match op {
        StoreOp::Create { handle, overlay } => store.created(handle, overlay),
        StoreOp::Destroy { handle } => store.destroyed(handle),
    }
}

/// The step can be taken: an overlay is created under a fresh handle, in a
/// state the store can hold, and under a key that is not registered. Any
/// handle can be destroyed.
pub open spec fn admissible(store: OverlayManView, op: StoreOp) -> bool {
    match op {
        StoreOp::Create { handle, overlay } => {
            &&& fresh_handle(store, handle)
            &&& creatable(overlay)
            &&& !store.key_to_overlay.contains_key(overlay.key@)
        },
        StoreOp::Destroy { handle } => true,
    }
}

/// The store after a sequence of steps.
pub open spec fn run(store: OverlayManView, ops: Seq<StoreOp>) -> OverlayManView
    decreases ops.len(),
{
    if ops.len() == 0 {
        store
    } else {
        step(run(store, ops.drop_last()), ops.last())
    }
}

/// Each step of the sequence can be taken when its turn comes.
pub open spec fn all_admissible(store: OverlayManView, ops: Seq<StoreOp>) -> bool {
    forall|i: int| 0 <= i < ops.len() ==> admissible(run(store, ops.take(i)), #[trigger] ops[i])
}

/// Through any sequence of creations and destructions, the index and the
/// table stay in agreement: every registered key leads to a live overlay
/// with that key, and every live overlay is found by its key.
pub proof fn lemma_create_destroy_consistent(store: OverlayManView, ops: Seq<StoreOp>)
    requires
        store.valid(),
        store.consistent(),
        all_admissible(store, ops),
    ensures
        run(store, ops).valid(),
        run(store, ops).consistent(),
    decreases ops.len(),
{
    if ops.len() > 0 {
        let before = ops.drop_last();
        assert(all_admissible(store, before)) by {
            assert forall|i: int| 0 <= i < before.len() implies admissible(
                run(store, before.take(i)),
                #[trigger] before[i],
            ) by {
                assert(before.take(i) =~= ops.take(i));
                assert(before[i] == ops[i]);
            }
        }
        lemma_create_destroy_consistent(store, before);
        let mid = run(store, before);
        assert(ops.take(ops.len() - 1) =~= before);
        assert(admissible(mid, ops[ops.len() - 1]));
        match ops.last() {
            StoreOp::Create { handle, overlay } => {
                lemma_created_valid(mid, handle, overlay);
                lemma_created_consistent(mid, handle, overlay);
            },
            StoreOp::Destroy { handle } => {
                lemma_destroyed_valid(mid, handle);
                lemma_destroyed_consistent(mid, handle);
            },
        }
    }
}

/// Destroying an overlay removes it from the table and from the index:
/// no key leads to it any more, and the key it was found by is registered
/// no longer.
pub proof fn lemma_destroyed_removes_both(store: OverlayManView, handle: u64)
    requires
        store.valid(),
        store.known(handle),
    ensures
        !store.destroyed(handle).known(handle),
        forall|key: Seq<u8>| #[trigger]
            store.destroyed(handle).key_to_overlay.contains_key(key) ==> store.destroyed(
                handle,
            ).key_to_overlay[key] != canonical(handle),
        store.found_by_key(handle) ==> !store.destroyed(handle).key_to_overlay.contains_key(
            store.overlay(handle).key@,
        ),
{
    assert forall|key: Seq<u8>| #[trigger]
        store.destroyed(handle).key_to_overlay.contains_key(key) implies store.destroyed(
        handle,
    ).key_to_overlay[key] != canonical(handle) by {
        assert(store.key_to_overlay.contains_key(key));
    }
}

/// Destroying an overlay leaves every other overlay registered as it was:
/// a key that led to another overlay still leads to it.
pub proof fn lemma_destroyed_keeps_others(store: OverlayManView, handle: u64, key: Seq<u8>)
    requires
        store.valid(),
        find_result(store, key) matches Ok(other) && other != canonical(handle),
    ensures
        find_result(store.destroyed(handle), key) == find_result(store, key),
{
}

/// An overlay that was just created is found by its key, under the handle
/// it was created with.
pub proof fn lemma_find_after_create(store: OverlayManView, handle: u64, overlay: Overlay)
    ensures
        find_result(store.created(handle, overlay), overlay.key@) == Ok::<u64, OverlayError>(
            handle,
        ),
{
}

/// Setting the blend factor to exactly 1 leaves an overlay as if none had
/// ever been set: the factor is unset, it reads as 1, and the overlay's
/// layer carries no payload.
pub proof fn lemma_alpha_one_is_unset(
    capabilities: Capabilities,
    overlay: Overlay,
)
    requires
        !capabilities.blend_bias ==> overlay.alpha is None,
    ensures
        alpha_after(capabilities, overlay.alpha, ONE) is None,
        alpha_read(alpha_after(capabilities, overlay.alpha, ONE)) == ONE,
        layer_payload(
            Overlay { alpha: alpha_after(capabilities, overlay.alpha, ONE), ..overlay },
        ) is None,
{
}

/// Whether the skybox is asked for decides over skybox overlays only: any
/// other overlay is shown, or not, either way.
pub proof fn lemma_skybox_flag_decides_skybox_only(store: OverlayManView, handle: u64)
    requires
        store.valid(),
        store.overlays.contains_key(handle),
        !store.skybox.contains(handle),
    ensures
        shown(store.overlays[handle], true) == shown(store.overlays[handle], false),
{
}

/// No key leads to a skybox overlay.
pub proof fn lemma_skybox_is_not_found(store: OverlayManView, key: Seq<u8>)
    requires
        store.valid(),
    ensures
        find_result(store, key) matches Ok(handle) ==> !store.skybox.contains(handle),
{
}

/// Destroying a skybox that was just set leaves the table as it was before
/// the skybox was set: no skybox overlay stays behind.
pub proof fn lemma_clear_after_set(
    start: OverlayManView,
    now: OverlayManView,
    session_start: (Option<GraphicsApi>, Map<u64, SwapchainData>),
    session_now: (Option<GraphicsApi>, Map<u64, SwapchainData>),
    textures: Seq<TextureRequest>,
    faces: Seq<SkyboxFace>,
    total: int,
)
    requires
        skybox_built(start, now, session_start, session_now, textures, faces, total),
    ensures
        now.cleared().overlays == start.overlays,
        now.cleared().skybox.len() == 0,
        forall|i: int| 0 <= i < faces.len() ==> !now.cleared().overlays.contains_key(faces[i].handle),
{
    let handles = face_handles(faces);
    assert forall|i: int| 0 <= i < faces.len() implies !now.cleared().overlays.contains_key(
        faces[i].handle,
    ) by {
        assert(handles[i] == faces[i].handle);
        assert(handles.contains(faces[i].handle));
    }
    assert(now.cleared().overlays =~= start.overlays);
}

/// The frame of a valid store holds one layer for each overlay that is
/// shown, and no other layer.
pub proof fn lemma_one_layer_each(
    store: OverlayManView,
    current_origin: TrackingOrigin,
    render_skybox: bool,
)
    requires
        store.valid(),
    ensures
        frame_layers(store.overlays, current_origin, render_skybox).len() == shown_handles(
            store.overlays,
            render_skybox,
        ).len(),
        forall|h: u64|
            #![trigger store.overlays.contains_key(h)]
            store.overlays.contains_key(h) && shown(store.overlays[h], render_skybox)
                ==> frame_layers(store.overlays, current_origin, render_skybox).contains(
                layer_of(h, store.overlays[h], current_origin),
            ),
        forall|layer: OverlayLayer| #[trigger]
            frame_layers(store.overlays, current_origin, render_skybox).contains(layer)
                ==> exists|h: u64|
                #![trigger store.overlays.contains_key(h)]
                store.overlays.contains_key(h) && shown(store.overlays[h], render_skybox) && layer
                    == layer_of(h, store.overlays[h], current_origin),
{
    lemma_listed(store);
    lemma_frame_layers(store.overlays, current_origin, render_skybox);
}

/// An overlay that is shown has its layer in the frame: of the overlay's
/// shape, over its rectangle and its own swapchain, with a payload exactly
/// where the overlay has a blend factor. An overlay whose curvature is not
/// above zero is drawn flat, and a runtime without curved layers is handed
/// no cylinder.
pub proof fn lemma_layer_of_shown_overlay(
    store: OverlayManView,
    handle: u64,
    current_origin: TrackingOrigin,
    render_skybox: bool,
)
    requires
        store.valid(),
        store.overlays.contains_key(handle),
        shown(store.overlays[handle], render_skybox),
    ensures
        ({
            let overlay = store.overlays[handle];
            let layer = layer_of(handle, overlay, current_origin);
            &&& frame_layers(store.overlays, current_origin, render_skybox).contains(layer)
            &&& layer.inner() == layer_shape(handle, overlay, current_origin)
            &&& layer.inner().base().swapchain == handle
            &&& layer.inner().base().image_rect == overlay.rect->0
            &&& layer.color_bias() == layer_payload(overlay)
            &&& overlay.alpha is None ==> layer.color_bias() is None
            &&& (overlay.kind is Curved && !lt(ZERO, overlay.kind->curvature)) ==> layer.inner() is Quad
            &&& !store.capabilities.curved_layers ==> !(layer.inner() is Cylinder)
        }),
{
    lemma_one_layer_each(store, current_origin, render_skybox);
    lemma_layer_of(handle, store.overlays[handle], current_origin);
}

} // verus!
