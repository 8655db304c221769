//! The boundary to the `slotmap` crate.
//!
//! Everything in this file is believed, not proved: the declarations state
//! what the slot map of `slotmap` does, as its source shows it, and the
//! rest of the library is verified against these statements.

use slotmap::{DefaultKey, Key, SlotMap};
use vstd::prelude::*;

verus! {

/// `slotmap::DefaultKey`, the key type of a slot map. Its value is opaque to
/// the verifier; two keys are equal exactly when `==` of the crate says so.
#[verifier::external_type_specification]
#[verifier::external_body]
pub struct ExDefaultKey(DefaultKey);

/// A `slotmap::SlotMap` from keys to positions. The verifier cannot take the
/// declaration of `SlotMap` itself (its key parameter is bound by a trait of
/// the crate), so the map is held here and reached through the functions
/// below.
#[verifier::external_body]
pub struct KeySlots {
    inner: SlotMap<DefaultKey, usize>,
}

/// What a slot map holds: the value stored under each live key.
pub uninterp spec fn slot_contents(m: KeySlots) -> Map<DefaultKey, usize>;

/// Whether a key is a null key, as `slotmap::Key::is_null` reports it.
pub uninterp spec fn key_is_null(k: DefaultKey) -> bool;

/// The largest number of values that a slot map takes before `insert`
/// panics: its slots are addressed by a `u32`, and one slot is a sentinel.
pub const SLOT_LIMIT: usize = 0xffff_fffe;

/// `SlotMap::new`: a slot map without live keys.
#[verifier::external_body]
pub(crate) fn slots_new() -> (m: KeySlots)
    ensures
        slot_contents(m) =~= Map::empty(),
{
    KeySlots { inner: SlotMap::new() }
}

/// `SlotMap::insert`: stores `v` under a key that was not live before and is
/// not null, and leaves every other key as it was. The crate panics when
/// all slots are taken, which `requires` leaves out.
#[verifier::external_body]
pub(crate) fn slots_insert(m: &mut KeySlots, v: usize) -> (k: DefaultKey)
    requires
        slot_contents(*old(m)).dom().finite(),
        slot_contents(*old(m)).dom().len() < SLOT_LIMIT,
    ensures
        !slot_contents(*old(m)).dom().contains(k),
        !key_is_null(k),
        slot_contents(*final(m)) == slot_contents(*old(m)).insert(k, v),
{
    m.inner.insert(v)
}

/// `SlotMap::get`: the value under `k` if `k` is live, nothing otherwise.
#[verifier::external_body]
pub(crate) fn slots_get(m: &KeySlots, k: DefaultKey) -> (r: Option<usize>)
    ensures
        r == (if slot_contents(*m).dom().contains(k) {
            Some(slot_contents(*m)[k])
        } else {
            None
        }),
{
    m.inner.get(k).copied()
}

/// `SlotMap::contains_key`: whether `k` is live.
#[verifier::external_body]
pub(crate) fn slots_contains_key(m: &KeySlots, k: DefaultKey) -> (r: bool)
    ensures
        r == slot_contents(*m).dom().contains(k),
{
    m.inner.contains_key(k)
}

/// `==` on `DefaultKey`, which the crate derives: equal index and version.
#[verifier::external_body]
pub(crate) fn key_eq(a: DefaultKey, b: DefaultKey) -> (r: bool)
    ensures
        r == (a == b),
{
    a == b
}

/// `Key::null`: a key that is null.
#[verifier::external_body]
pub(crate) fn null_key() -> (k: DefaultKey)
    ensures
        key_is_null(k),
{
    DefaultKey::null()
}

/// `Key::is_null`.
#[verifier::external_body]
pub(crate) fn key_null_test(k: DefaultKey) -> (r: bool)
    ensures
        r == key_is_null(k),
{
    k.is_null()
}

} // verus!
