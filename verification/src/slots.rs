//! The table of overlays, by handle.
//!
//! The overlays live in a `slotmap::SlotMap`, which hands out the handles.
//! Verus does not see inside it: `slot_entries` names what it holds, and the
//! functions below say what each method of the slot map does to that.

use crate::handle::{canonical, is_null, slot_of, version_of};
use crate::overlay::Overlay;
use slotmap::{DefaultKey, Key, KeyData, SlotMap};
use vstd::prelude::*;

verus! {

/// A `slotmap::SlotMap` of overlays.
#[verifier::external_body]
pub struct OverlaySlots {
    inner: SlotMap<DefaultKey, Overlay>,
}

/// What a slot map holds: the overlay stored under each key, the key given
/// as its 64-bit form (`KeyData::as_ffi`).
pub uninterp spec fn slot_entries(slots: OverlaySlots) -> Map<u64, Overlay>;

/// The version of every slot that a slot map has made for values (those
/// of index 1 and up), by slot index. A slot's version is odd while it holds
/// a value and even while it holds none, and each change from the one to
/// the other adds 1 to it, wrapping around at 32 bits.
pub uninterp spec fn slot_versions(slots: OverlaySlots) -> Map<int, int>;

/// The version that follows `version`.
pub open spec fn next_version(version: int) -> int {
    (version + 1) % 0x1_0000_0000
}

/// The most overlays a slot map takes.
pub const MAX_OVERLAYS: usize = 0xffff_fffe;

/// `order` lists exactly the handles of `handles`, by ascending slot index.
pub open spec fn in_slot_order(order: Seq<u64>, handles: Set<u64>) -> bool {
    &&& forall|h: u64| order.contains(h) <==> handles.contains(h)
    &&& forall|i: int, j: int|
        0 <= i < j < order.len() ==> slot_of(#[trigger] order[i]) < slot_of(#[trigger] order[j])
}

/// The handles of `handles` by ascending slot index: the order in which a
/// slot map is walked.
pub open spec fn slot_order(handles: Set<u64>) -> Seq<u64> {
    choose|order: Seq<u64>| in_slot_order(order, handles)
}

/// Two listings of the same handles by ascending slot index are the same.
pub proof fn lemma_slot_order_unique(a: Seq<u64>, b: Seq<u64>, handles: Set<u64>)
    requires
        in_slot_order(a, handles),
        in_slot_order(b, handles),
    ensures
        a == b,
    decreases a.len(),
{
    if a.len() == 0 {
        if b.len() > 0 {
            assert(b.contains(b[0]));
            assert(a.contains(b[0]));
        }
        assert(a =~= b);
    } else {
        let x = a.last();
        assert(a.contains(x));
        assert(b.contains(x));
        let j = choose|j: int| 0 <= j < b.len() && b[j] == x;
        if j < b.len() - 1 {
            let y = b.last();
            assert(b.contains(y));
            assert(a.contains(y));
            let i = choose|i: int| 0 <= i < a.len() && a[i] == y;
            assert(slot_of(b[j]) < slot_of(b[b.len() - 1]));
            if i < a.len() - 1 {
                assert(slot_of(a[i]) < slot_of(a[a.len() - 1]));
            }
            assert(false);
        }
        let rest = handles.remove(x);
        let a0 = a.drop_last();
        let b0 = b.drop_last();
        assert(in_slot_order(a0, rest)) by {
            assert forall|h: u64| a0.contains(h) <==> rest.contains(h) by {
                if a0.contains(h) {
                    let i = choose|i: int| 0 <= i < a0.len() && a0[i] == h;
                    assert(a[i] == h);
                    assert(a.contains(h));
                    assert(slot_of(a[i]) < slot_of(a[a.len() - 1]));
                }
                if rest.contains(h) {
                    assert(a.contains(h));
                    let i = choose|i: int| 0 <= i < a.len() && a[i] == h;
                    assert(a0[i] == h);
                }
            }
            assert forall|i: int, k: int| 0 <= i < k < a0.len() implies slot_of(#[trigger] a0[i])
                < slot_of(#[trigger] a0[k]) by {
                assert(a0[i] == a[i] && a0[k] == a[k]);
            }
        }
        assert(in_slot_order(b0, rest)) by {
            assert forall|h: u64| b0.contains(h) <==> rest.contains(h) by {
                if b0.contains(h) {
                    let i = choose|i: int| 0 <= i < b0.len() && b0[i] == h;
                    assert(b[i] == h);
                    assert(b.contains(h));
                    assert(slot_of(b[i]) < slot_of(b[b.len() - 1]));
                }
                if rest.contains(h) {
                    assert(b.contains(h));
                    let i = choose|i: int| 0 <= i < b.len() && b[i] == h;
                    assert(b0[i] == h);
                }
            }
            assert forall|i: int, k: int| 0 <= i < k < b0.len() implies slot_of(#[trigger] b0[i])
                < slot_of(#[trigger] b0[k]) by {
                assert(b0[i] == b[i] && b0[k] == b[k]);
            }
        }
        lemma_slot_order_unique(a0, b0, rest);
        assert(a =~= a0.push(x));
        assert(b =~= b0.push(x));
    }
}

/// No two of the handles share a slot.
pub open spec fn distinct_slots(handles: Set<u64>) -> bool {
    forall|a: u64, b: u64|
        handles.contains(a) && handles.contains(b) && slot_of(a) == slot_of(b) ==> a == b
}

/// A finite set of handles that is not empty has a handle of highest slot
/// index.
proof fn lemma_highest_slot(handles: Set<u64>) -> (top: u64)
    requires
        handles.finite(),
        handles.len() > 0,
    ensures
        handles.contains(top),
        forall|h: u64| handles.contains(h) ==> slot_of(h) <= slot_of(top),
    decreases handles.len(),
{
    let x = handles.choose();
    let rest = handles.remove(x);
    if rest.len() == 0 {
        assert forall|h: u64| handles.contains(h) implies h == x by {
            if h != x {
                assert(rest.contains(h));
            }
        }
        x
    } else {
        let best = lemma_highest_slot(rest);
        let top = if slot_of(x) > slot_of(best) {
            x
        } else {
            best
        };
        assert forall|h: u64| handles.contains(h) implies slot_of(h) <= slot_of(top) by {
            if h != x {
                assert(rest.contains(h));
            }
        }
        top
    }
}

/// Finitely many handles in slots of their own can be listed by ascending
/// slot index, and `slot_order` is that listing.
pub proof fn lemma_slot_order_lists(handles: Set<u64>)
    requires
        handles.finite(),
        distinct_slots(handles),
    ensures
        in_slot_order(slot_order(handles), handles),
    decreases handles.len(),
{
    if handles.len() == 0 {
        assert(in_slot_order(Seq::<u64>::empty(), handles)) by {
            assert forall|h: u64| !handles.contains(h) by {
                if handles.contains(h) {
                    assert(handles.remove(h).len() >= 0);
                }
            }
        }
    } else {
        let top = lemma_highest_slot(handles);
        let rest = handles.remove(top);
        lemma_slot_order_lists(rest);
        let before = slot_order(rest);
        let all = before.push(top);
        assert(in_slot_order(all, handles)) by {
            assert forall|h: u64| all.contains(h) <==> handles.contains(h) by {
                if all.contains(h) {
                    let i = choose|i: int| 0 <= i < all.len() && all[i] == h;
                    if i < before.len() {
                        assert(before[i] == h);
                        assert(before.contains(h));
                    }
                }
                if handles.contains(h) {
                    if h == top {
                        assert(all[before.len() as int] == h);
                    } else {
                        assert(rest.contains(h));
                        assert(before.contains(h));
                        let i = choose|i: int| 0 <= i < before.len() && before[i] == h;
                        assert(all[i] == h);
                    }
                }
            }
            assert forall|i: int, j: int| 0 <= i < j < all.len() implies slot_of(#[trigger] all[i])
                < slot_of(#[trigger] all[j]) by {
                assert(all[i] == before[i]);
                assert(before.contains(before[i]));
                assert(rest.contains(before[i]));
                if j < before.len() {
                    assert(all[j] == before[j]);
                } else {
                    assert(all[j] == top);
                }
            }
        }
    }
}

/// `SlotMap::new`: a slot map that holds nothing and has made no slot.
#[verifier::external_body]
pub(crate) fn slots_new() -> (slots: OverlaySlots)
    ensures
        slot_entries(slots) == (Map::<u64, Overlay>::empty()),
        slot_versions(slots) == (Map::<int, int>::empty()),
{
    OverlaySlots { inner: SlotMap::new() }
}

/// `SlotMap::len`: the number of overlays held.
#[verifier::external_body]
pub(crate) fn slots_len(slots: &OverlaySlots) -> (n: usize)
    ensures
        n == slot_entries(*slots).dom().len(),
{
    slots.inner.len()
}

/// `SlotMap::insert`: stores the overlay under a key that was not in use,
/// in a slot that held nothing, and returns that key's 64-bit form. Such a
/// form has an odd version and a slot index other than the reserved one. The
/// key's version is the slot's version plus 1 where the slot was there
/// before, and 1 where the slot is new; it is the slot's version from then
/// on. The slot map panics once it is full, which a map made by `slots_new`
/// is not below `MAX_OVERLAYS`.
#[verifier::external_body]
pub(crate) fn slots_insert(slots: &mut OverlaySlots, overlay: Overlay) -> (handle: u64)
    requires
        slot_entries(*old(slots)).dom().len() < MAX_OVERLAYS,
    ensures
        !slot_entries(*old(slots)).contains_key(handle),
        forall|k: u64| #[trigger]
            slot_entries(*old(slots)).contains_key(k) ==> slot_of(k) != slot_of(handle),
        canonical(handle) == handle,
        !is_null(handle),
        version_of(handle) == if slot_versions(*old(slots)).contains_key(slot_of(handle)) {
            slot_versions(*old(slots))[slot_of(handle)] + 1
        } else {
            1
        },
        slot_entries(*final(slots)) == slot_entries(*old(slots)).insert(handle, overlay),
        slot_versions(*final(slots)) == slot_versions(*old(slots)).insert(
            slot_of(handle),
            version_of(handle),
        ),
{
    slots.inner.insert(overlay).data().as_ffi()
}

/// `SlotMap::get` with the key that `KeyData::from_ffi` reads the handle
/// as: the overlay stored under exactly that key, if there is one.
#[verifier::external_body]
pub(crate) fn slots_get(slots: &OverlaySlots, handle: u64) -> (r: Option<&Overlay>)
    ensures
        r == if slot_entries(*slots).contains_key(canonical(handle)) {
            Some(&slot_entries(*slots)[canonical(handle)])
        } else {
            None::<&Overlay>
        },
{
    slots.inner.get(KeyData::from_ffi(handle).into())
}

/// `SlotMap::get_mut` with the key that `KeyData::from_ffi` reads the handle
/// as: the overlay stored under that key, to be changed in place. Nothing
/// else in the slot map changes, and no slot's version does.
#[verifier::external_body]
pub(crate) fn slots_get_mut(slots: &mut OverlaySlots, handle: u64) -> (r: Option<&mut Overlay>)
    ensures
        match r {
            Some(overlay) => {
                &&& slot_entries(*old(slots)).contains_key(canonical(handle))
                &&& *overlay == slot_entries(*old(slots))[canonical(handle)]
                &&& slot_entries(*final(slots)) == slot_entries(*old(slots)).insert(
                    canonical(handle),
                    *final(overlay),
                )
            },
            None => {
                &&& !slot_entries(*old(slots)).contains_key(canonical(handle))
                &&& slot_entries(*final(slots)) == slot_entries(*old(slots))
            },
        },
        slot_versions(*final(slots)) == slot_versions(*old(slots)),
{
    slots.inner.get_mut(KeyData::from_ffi(handle).into())
}

/// `SlotMap::remove` with the key that `KeyData::from_ffi` reads the handle
/// as: takes out the overlay stored under that key, if there is one, and
/// moves the version of its slot on by 1.
#[verifier::external_body]
pub(crate) fn slots_remove(slots: &mut OverlaySlots, handle: u64) -> (r: Option<Overlay>)
    ensures
        r == if slot_entries(*old(slots)).contains_key(canonical(handle)) {
            Some(slot_entries(*old(slots))[canonical(handle)])
        } else {
            None::<Overlay>
        },
        slot_entries(*final(slots)) == slot_entries(*old(slots)).remove(canonical(handle)),
        slot_versions(*final(slots)) == if slot_entries(*old(slots)).contains_key(
            canonical(handle),
        ) {
            slot_versions(*old(slots)).insert(
                slot_of(canonical(handle)),
                next_version(version_of(canonical(handle))),
            )
        } else {
            slot_versions(*old(slots))
        },
{
    slots.inner.remove(KeyData::from_ffi(handle).into())
}

/// `SlotMap::keys`: every key in use, once, each as its 64-bit form. The
/// keys come by ascending slot index, because the slot map walks its slot
/// vector from the front.
#[verifier::external_body]
pub(crate) fn slots_handles(slots: &OverlaySlots) -> (handles: Vec<u64>)
    ensures
        in_slot_order(handles@, slot_entries(*slots).dom()),
{
    slots.inner.keys().map(|key| key.data().as_ffi()).collect()
}

} // verus!
