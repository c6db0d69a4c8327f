//! Overlay handles.
//!
//! A handle is the 64-bit form of a slot map key: the slot's index in the
//! low 32 bits and the slot's version in the high 32 bits. A key that is in
//! use has an odd version, and a handle with an even version is read as the
//! key with the next odd one.

use vstd::prelude::*;

verus! {

/// The number of values of a 32-bit half of a handle.
pub const HALF: u64 = 0x1_0000_0000;

/// The slot index that no stored key has.
pub const NULL_SLOT: u64 = 0xffff_ffff;

/// The slot index of a handle: its low 32 bits.
pub open spec fn slot_of(handle: u64) -> int {
    handle as int % 0x1_0000_0000
}

/// The version of a handle: its high 32 bits.
pub open spec fn version_of(handle: u64) -> int {
    handle as int / 0x1_0000_0000
}

/// The handle of the key that `handle` is read as: the same slot, and the
/// version made odd by setting its lowest bit.
pub open spec fn canonical(handle: u64) -> u64 {
    if version_of(handle) % 2 == 1 {
        handle
    } else {
        (handle + 0x1_0000_0000) as u64
    }
}

/// Version `a` is older than version `b`, where versions wrap around at
/// 32 bits: the distance from `b` up to `a` is at least half the range.
pub open spec fn older_version(a: int, b: int) -> bool {
    (a - b) % 0x1_0000_0000 >= 0x8000_0000
}

/// The handle names no key: its slot index is the reserved one.
pub open spec fn is_null(handle: u64) -> bool {
    slot_of(handle) == NULL_SLOT
}

/// Reading a handle as a key keeps its slot, gives an odd version, and
/// reads a handle that came from a key as that key.
pub proof fn lemma_canonical(handle: u64)
    ensures
        slot_of(canonical(handle)) == slot_of(handle),
        version_of(canonical(handle)) % 2 == 1,
        canonical(canonical(handle)) == canonical(handle),
        version_of(handle) % 2 == 1 ==> canonical(handle) == handle,
        handle <= canonical(handle) <= handle + HALF,
{
    let h: int = handle as int;
    let d: int = 0x1_0000_0000;
    let v: int = h / d;
    vstd::arithmetic::div_mod::lemma_fundamental_div_mod(h, d);
    if v % 2 == 0 {
        assert(v <= 0xffff_fffe);
        assert(h + d <= u64::MAX);
        vstd::arithmetic::div_mod::lemma_div_plus_one(h, d);
        vstd::arithmetic::div_mod::lemma_mod_add_multiples_vanish(h, d);
        assert((h + d) / d == v + 1);
        assert((h + d) % d == h % d);
    }
}

/// A handle that is read as itself has an odd version.
pub proof fn lemma_canonical_is_odd(handle: u64)
    requires
        canonical(handle) == handle,
    ensures
        version_of(handle) % 2 == 1,
        0 < version_of(handle) < HALF,
{
    lemma_canonical(handle);
}

/// The handle of the key that `handle` is read as.
pub fn canonical_handle(handle: u64) -> (r: u64)
    ensures
        r == canonical(handle),
{
    if (handle / HALF) % 2 == 1 {
        handle
    } else {
        proof {
            lemma_canonical(handle);
        }
        handle + HALF
    }
}

/// Whether the handle names no key.
pub fn names_no_key(handle: u64) -> (r: bool)
    ensures
        r == is_null(handle),
{
    handle % HALF == NULL_SLOT
}

} // verus!
