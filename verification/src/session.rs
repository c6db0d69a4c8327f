//! The swapchains a session holds for its overlays.
//!
//! A session keeps at most one swapchain per overlay slot, all of one
//! graphics interface, which the first accepted texture fixes. The records
//! live in a `slotmap::SecondaryMap` keyed by overlay handle.

use crate::handle::{canonical, is_null, names_no_key, older_version, slot_of, version_of};
use crate::types::{
    is_usable_swapchain, usable, GraphicsApi, SwapchainAction, SwapchainData, SwapchainInfo,
    TextureError, TextureRequest,
};
use slotmap::{DefaultKey, KeyData, SecondaryMap};
use vstd::prelude::*;

verus! {

/// A `slotmap::SecondaryMap` from overlay keys to swapchain records.
/// Verus sees none of it; `swapchain_entries` names what it holds.
#[verifier::external_body]
pub struct SwapchainSlots {
    inner: SecondaryMap<DefaultKey, SwapchainData>,
}

/// What a `SecondaryMap` holds: the record stored under each key, the key
/// given as its 64-bit form (`KeyData::as_ffi`).
pub uninterp spec fn swapchain_entries(slots: SwapchainSlots) -> Map<u64, SwapchainData>;

/// The handles of one slot.
pub open spec fn same_slot(handle: u64) -> Set<u64> {
    Set::new(|k: u64| slot_of(k) == slot_of(handle))
}

/// The map takes no record under `handle`: the handle names no key, or the
/// map holds a record of the same slot under a newer version.
pub open spec fn refuses(entries: Map<u64, SwapchainData>, handle: u64) -> bool {
    ||| is_null(handle)
    ||| {
        &&& !entries.contains_key(canonical(handle))
        &&& exists|k: u64|
            {
                &&& #[trigger] entries.contains_key(k)
                &&& slot_of(k) == slot_of(handle)
                &&& older_version(version_of(canonical(handle)), version_of(k))
            }
    }
}

/// The records after an insertion under `handle`: unchanged where the map
/// refuses it, else the record stands under the handle's key and every other
/// record of that slot is gone.
pub open spec fn after_insert(
    entries: Map<u64, SwapchainData>,
    handle: u64,
    data: SwapchainData,
) -> Map<u64, SwapchainData> {
    if refuses(entries, handle) {
        entries
    } else {
        entries.remove_keys(same_slot(handle)).insert(canonical(handle), data)
    }
}

/// `SecondaryMap::new`: a map that holds nothing.
#[verifier::external_body]
fn swapchains_new() -> (slots: SwapchainSlots)
    ensures
        swapchain_entries(slots) == (Map::<u64, SwapchainData>::empty()),
{
    SwapchainSlots { inner: SecondaryMap::new() }
}

/// `SecondaryMap::get` with the key that `KeyData::from_ffi` reads the
/// handle as: the record stored under exactly that key, if there is one.
#[verifier::external_body]
fn swapchains_get(slots: &SwapchainSlots, handle: u64) -> (r: Option<&SwapchainData>)
    ensures
        r == if swapchain_entries(*slots).contains_key(canonical(handle)) {
            Some(&swapchain_entries(*slots)[canonical(handle)])
        } else {
            None::<&SwapchainData>
        },
{
    slots.inner.get(KeyData::from_ffi(handle).into())
}

/// `SecondaryMap::insert` with the key that `KeyData::from_ffi` reads the
/// handle as. A null key, or a key older than the one the slot holds, leaves
/// the map as it was; otherwise the record replaces whatever the slot held.
/// The map grows its slot vector up to the handle's slot index.
#[verifier::external_body]
fn swapchains_insert(slots: &mut SwapchainSlots, handle: u64, data: SwapchainData)
    ensures
        swapchain_entries(*final(slots)) == after_insert(
            swapchain_entries(*old(slots)),
            handle,
            data,
        ),
{
    slots.inner.insert(KeyData::from_ffi(handle).into(), data);
}

/// `SecondaryMap::remove` with the key that `KeyData::from_ffi` reads the
/// handle as: takes out the record stored under exactly that key, if there
/// is one, and hands it back.
#[verifier::external_body]
fn swapchains_remove(slots: &mut SwapchainSlots, handle: u64) -> (r: Option<SwapchainData>)
    ensures
        r == if swapchain_entries(*old(slots)).contains_key(canonical(handle)) {
            Some(swapchain_entries(*old(slots))[canonical(handle)])
        } else {
            None::<SwapchainData>
        },
        swapchain_entries(*final(slots)) == swapchain_entries(*old(slots)).remove(
            canonical(handle),
        ),
{
    slots.inner.remove(KeyData::from_ffi(handle).into())
}

/// The swapchains of one graphics interface.
struct SwapchainTable {
    api: GraphicsApi,
    slots: SwapchainSlots,
}

/// The overlay state of a session: its swapchains, once a texture was
/// accepted.
pub struct OverlaySessionData {
    swapchains: Option<SwapchainTable>,
}

impl Default for OverlaySessionData {
    /// A session that holds no swapchain.
    fn default() -> (session: Self)
        ensures
            session.api() is None,
            session.swapchains() == (Map::<u64, SwapchainData>::empty()),
    {
        OverlaySessionData::new()
    }
}

/// The session holds a swapchain for `key` that fits `required`.
pub open spec fn swapchain_fits(
    entries: Map<u64, SwapchainData>,
    key: u64,
    required: SwapchainInfo,
) -> bool {
    &&& entries.contains_key(canonical(key))
    &&& usable(
        entries[canonical(key)].info,
        entries[canonical(key)].initial_format,
        required,
    )
}

/// The record of a swapchain created for `texture`.
pub open spec fn created_for(texture: TextureRequest) -> SwapchainData {
    SwapchainData { info: texture.negotiated, initial_format: texture.required.format }
}

/// What a session with interface `api` and records `entries` answers to a
/// texture for the overlay `key`.
pub open spec fn prepare_result(
    api: Option<GraphicsApi>,
    entries: Map<u64, SwapchainData>,
    key: u64,
    texture: TextureRequest,
) -> Result<SwapchainAction, TextureError> {
    if api is Some && api->0 != texture.api {
        Err(TextureError::SessionBackendMismatch)
    } else if is_null(key) {
        Err(TextureError::StaleOverlay)
    } else if swapchain_fits(entries, key, texture.required) {
        Ok(SwapchainAction::Reuse)
    } else if refuses(entries, key) {
        Err(TextureError::StaleOverlay)
    } else {
        Ok(SwapchainAction::Create)
    }
}

/// The records after that answer: a created swapchain replaces what the
/// overlay's slot held; any other answer changes nothing.
pub open spec fn prepare_entries(
    api: Option<GraphicsApi>,
    entries: Map<u64, SwapchainData>,
    key: u64,
    texture: TextureRequest,
) -> Map<u64, SwapchainData> {
    if prepare_result(api, entries, key, texture) == Ok::<SwapchainAction, TextureError>(
        SwapchainAction::Create,
    ) {
        entries.remove_keys(same_slot(key)).insert(canonical(key), created_for(texture))
    } else {
        entries
    }
}

/// The interface after that answer: the texture's, once one was accepted.
pub open spec fn prepare_api(
    api: Option<GraphicsApi>,
    entries: Map<u64, SwapchainData>,
    key: u64,
    texture: TextureRequest,
) -> Option<GraphicsApi> {
    if prepare_result(api, entries, key, texture) is Ok {
        Some(texture.api)
    } else {
        api
    }
}

impl OverlaySessionData {
    /// The graphics interface of the session's swapchains; `None` until a
    /// texture was accepted.
    pub closed spec fn api(&self) -> Option<GraphicsApi> {
        match self.swapchains {
            Some(table) => Some(table.api),
            None => None,
        }
    }

    /// The swapchain records, by overlay handle.
    pub closed spec fn swapchains(&self) -> Map<u64, SwapchainData> {
        match self.swapchains {
            Some(table) => swapchain_entries(table.slots),
            None => Map::empty(),
        }
    }

    /// A session that holds no swapchain.
    pub fn new() -> (session: Self)
        ensures
            session.api() is None,
            session.swapchains() == (Map::<u64, SwapchainData>::empty()),
    {
        OverlaySessionData { swapchains: None }
    }

    /// The graphics interface of the session's swapchains.
    pub fn backend(&self) -> (r: Option<GraphicsApi>)
        ensures
            r == self.api(),
    {
        match &self.swapchains {
            Some(table) => Some(table.api),
            None => None,
        }
    }

    /// The record of the swapchain held for an overlay.
    pub fn swapchain(&self, key: u64) -> (r: Option<SwapchainData>)
        ensures
            r == if self.swapchains().contains_key(canonical(key)) {
                Some(self.swapchains()[canonical(key)])
            } else {
                None::<SwapchainData>
            },
    {
        match &self.swapchains {
            Some(table) => match swapchains_get(&table.slots, key) {
                Some(data) => Some(*data),
                None => None,
            },
            None => None,
        }
    }

    /// A session without interface holds no swapchain.
    pub proof fn lemma_no_interface_no_swapchain(&self)
        ensures
            self.api() is None ==> self.swapchains() == Map::<u64, SwapchainData>::empty(),
    {
    }

    /// Lets go of the swapchain held for the overlay `key`, which is
    /// handed back if there was one. The session keeps its interface.
    pub fn release_swapchain(&mut self, key: u64) -> (r: Option<SwapchainData>)
        ensures
            r == if old(self).swapchains().contains_key(canonical(key)) {
                Some(old(self).swapchains()[canonical(key)])
            } else {
                None::<SwapchainData>
            },
            final(self).api() == old(self).api(),
            final(self).swapchains() == old(self).swapchains().remove(canonical(key)),
    {
        match &mut self.swapchains {
            Some(table) => swapchains_remove(&mut table.slots, key),
            None => {
                assert(self.swapchains().remove(canonical(key)) =~= self.swapchains());
                None
            },
        }
    }

    /// Decides what a texture for the overlay `key` needs: the swapchain
    /// held for it, or a new one, which is then recorded in place of the
    /// old. The first accepted texture fixes the session's interface. A
    /// texture that is not accepted changes nothing. The records take room
    /// in proportion to the highest slot index among the keys.
    pub fn prepare_swapchain(&mut self, key: u64, texture: TextureRequest) -> (r: Result<
        SwapchainAction,
        TextureError,
    >)
        ensures
            r == prepare_result(old(self).api(), old(self).swapchains(), key, texture),
            final(self).api() == prepare_api(
                old(self).api(),
                old(self).swapchains(),
                key,
                texture,
            ),
            final(self).swapchains() == prepare_entries(
                old(self).api(),
                old(self).swapchains(),
                key,
                texture,
            ),
    {
        match &self.swapchains {
            Some(table) => {
                if table.api != texture.api {
                    return Err(TextureError::SessionBackendMismatch);
                }
            },
            None => {},
        }
        if names_no_key(key) {
            return Err(TextureError::StaleOverlay);
        }
        if self.swapchains.is_none() {
            self.swapchains = Some(SwapchainTable { api: texture.api, slots: swapchains_new() });
        }
        let ghost entries = old(self).swapchains();
        match &mut self.swapchains {
            Some(table) => {
                assert(swapchain_entries(table.slots) == entries);
                let held: bool = match swapchains_get(&table.slots, key) {
                    Some(data) => {
                        if is_usable_swapchain(&data.info, data.initial_format, &texture.required) {
                            return Ok(SwapchainAction::Reuse);
                        }
                        true
                    },
                    None => false,
                };
                let data = SwapchainData {
                    info: texture.negotiated,
                    initial_format: texture.required.format,
                };
                swapchains_insert(&mut table.slots, key, data);
                if held || swapchains_get(&table.slots, key).is_some() {
                    Ok(SwapchainAction::Create)
                } else {
                    Err(TextureError::StaleOverlay)
                }
            },
            None => unreached(),
        }
    }
}

/// The runtime changed nothing but the format of what the texture calls
/// for.
pub open spec fn adjusts_format_only(texture: TextureRequest) -> bool {
    texture.negotiated == (SwapchainInfo { format: texture.negotiated.format, ..texture.required })
}

/// After a texture was accepted, a second texture that calls for the same
/// swapchain reuses it and leaves the records as they are, and one that
/// calls for another width or height has a swapchain created.
pub proof fn lemma_resubmission(
    api: Option<GraphicsApi>,
    entries: Map<u64, SwapchainData>,
    key: u64,
    first: TextureRequest,
    second: TextureRequest,
)
    requires
        prepare_result(api, entries, key, first) is Ok,
        adjusts_format_only(first),
        second.api == first.api,
    ensures
        second.required == first.required ==> prepare_result(
            prepare_api(api, entries, key, first),
            prepare_entries(api, entries, key, first),
            key,
            second,
        ) == Ok::<SwapchainAction, TextureError>(SwapchainAction::Reuse) && prepare_entries(
            prepare_api(api, entries, key, first),
            prepare_entries(api, entries, key, first),
            key,
            second,
        ) == prepare_entries(api, entries, key, first),
        second.required.width != first.required.width || second.required.height
            != first.required.height ==> prepare_result(
            prepare_api(api, entries, key, first),
            prepare_entries(api, entries, key, first),
            key,
            second,
        ) == Ok::<SwapchainAction, TextureError>(SwapchainAction::Create),
{
}

/// A swapchain that is created for a texture is recorded under the
/// overlay's key with the parameters the runtime gave it and the format the
/// texture asked for. Where the runtime changed the format only, the record
/// has the size the texture calls for, and fits that texture.
pub proof fn lemma_created_record(
    api: Option<GraphicsApi>,
    entries: Map<u64, SwapchainData>,
    key: u64,
    texture: TextureRequest,
)
    requires
        prepare_result(api, entries, key, texture) == Ok::<SwapchainAction, TextureError>(
            SwapchainAction::Create,
        ),
    ensures
        prepare_entries(api, entries, key, texture).contains_key(canonical(key)),
        prepare_entries(api, entries, key, texture)[canonical(key)] == created_for(texture),
        forall|k: u64|
            #![trigger prepare_entries(api, entries, key, texture).contains_key(k)]
            prepare_entries(api, entries, key, texture).contains_key(k) && slot_of(k) == slot_of(
                key,
            ) ==> k == canonical(key),
        adjusts_format_only(texture) ==> {
            &&& created_for(texture).info.width == texture.required.width
            &&& created_for(texture).info.height == texture.required.height
            &&& swapchain_fits(
                prepare_entries(api, entries, key, texture),
                key,
                texture.required,
            )
        },
{
    crate::handle::lemma_canonical(key);
}

} // verus!
