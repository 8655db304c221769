//! Handles: opaque, comparable identifiers of the four kinds of entity.
//!
//! A handle wraps the key under which its entity lives in an arena. Two
//! handles of one kind are equal exactly when their keys are. A null handle
//! names nothing; it stands for an absent link. Handles are ordered, so
//! that they can be sorted and kept in ordered collections; what the
//! order is, is left open.

use crate::slots::{key_eq, key_is_null, key_null_test, null_key};
use slotmap::DefaultKey;
use vstd::prelude::*;
use vstd::std_specs::cmp::PartialEqSpecImpl;

verus! {

/// Identifies a vertex.
#[derive(Clone, Copy, Debug, Hash, PartialOrd, Ord)]
pub struct VertexHandle {
    key: DefaultKey,
}

impl VertexHandle {
    /// The arena key behind the handle.
    pub closed spec fn key(self) -> DefaultKey {
        self.key
    }

    /// The handle that wraps a given key.
    pub closed spec fn from_key(key: DefaultKey) -> Self {
        VertexHandle { key }
    }

    /// Whether the handle is a null handle, which names no vertex.
    pub open spec fn null_spec(self) -> bool {
        key_is_null(self.key())
    }

    pub(crate) fn of_key(key: DefaultKey) -> (h: Self)
        ensures
            h == Self::from_key(key),
            h.key() == key,
    {
        VertexHandle { key }
    }

    pub(crate) fn raw(&self) -> (k: DefaultKey)
        ensures
            k == self.key(),
            *self == Self::from_key(k),
    {
        self.key
    }

    /// A handle and its key determine each other.
    pub broadcast proof fn lemma_key_round_trip(self)
        ensures
            #[trigger] Self::from_key(self.key()) == self,
    {
    }

    /// A key and the handle that wraps it determine each other.
    pub broadcast proof fn lemma_from_key(key: DefaultKey)
        ensures
            #[trigger] Self::from_key(key).key() == key,
    {
    }

    /// A null handle.
    pub fn null() -> (h: Self)
        ensures
            h.null_spec(),
    {
        VertexHandle { key: null_key() }
    }

    /// Whether this is a null handle.
    pub fn is_null(&self) -> (r: bool)
        ensures
            r == self.null_spec(),
    {
        key_null_test(self.key)
    }
}

impl PartialEq for VertexHandle {
    fn eq(&self, other: &Self) -> (r: bool) {
        key_eq(self.key, other.key)
    }
}

impl Eq for VertexHandle {

}

impl Default for VertexHandle {
    /// A null handle.
    fn default() -> (h: Self)
        ensures
            h.null_spec(),
    {
        VertexHandle::null()
    }
}

impl PartialEqSpecImpl for VertexHandle {
    open spec fn obeys_eq_spec() -> bool {
        true
    }

    open spec fn eq_spec(&self, other: &Self) -> bool {
        *self == *other
    }
}

/// Identifies an edge.
#[derive(Clone, Copy, Debug, Hash, PartialOrd, Ord)]
pub struct EdgeHandle {
    key: DefaultKey,
}

impl EdgeHandle {
    /// The arena key behind the handle.
    pub closed spec fn key(self) -> DefaultKey {
        self.key
    }

    /// The handle that wraps a given key.
    pub closed spec fn from_key(key: DefaultKey) -> Self {
        EdgeHandle { key }
    }

    /// Whether the handle is a null handle, which names no edge.
    pub open spec fn null_spec(self) -> bool {
        key_is_null(self.key())
    }

    pub(crate) fn of_key(key: DefaultKey) -> (h: Self)
        ensures
            h == Self::from_key(key),
            h.key() == key,
    {
        EdgeHandle { key }
    }

    pub(crate) fn raw(&self) -> (k: DefaultKey)
        ensures
            k == self.key(),
            *self == Self::from_key(k),
    {
        self.key
    }

    /// A handle and its key determine each other.
    pub broadcast proof fn lemma_key_round_trip(self)
        ensures
            #[trigger] Self::from_key(self.key()) == self,
    {
    }

    /// A key and the handle that wraps it determine each other.
    pub broadcast proof fn lemma_from_key(key: DefaultKey)
        ensures
            #[trigger] Self::from_key(key).key() == key,
    {
    }

    /// A null handle.
    pub fn null() -> (h: Self)
        ensures
            h.null_spec(),
    {
        EdgeHandle { key: null_key() }
    }

    /// Whether this is a null handle.
    pub fn is_null(&self) -> (r: bool)
        ensures
            r == self.null_spec(),
    {
        key_null_test(self.key)
    }
}

impl PartialEq for EdgeHandle {
    fn eq(&self, other: &Self) -> (r: bool) {
        key_eq(self.key, other.key)
    }
}

impl Eq for EdgeHandle {

}

impl Default for EdgeHandle {
    /// A null handle.
    fn default() -> (h: Self)
        ensures
            h.null_spec(),
    {
        EdgeHandle::null()
    }
}

impl PartialEqSpecImpl for EdgeHandle {
    open spec fn obeys_eq_spec() -> bool {
        true
    }

    open spec fn eq_spec(&self, other: &Self) -> bool {
        *self == *other
    }
}

/// Identifies a half-edge.
#[derive(Clone, Copy, Debug, Hash, PartialOrd, Ord)]
pub struct HalfEdgeHandle {
    key: DefaultKey,
}

impl HalfEdgeHandle {
    /// The arena key behind the handle.
    pub closed spec fn key(self) -> DefaultKey {
        self.key
    }

    /// The handle that wraps a given key.
    pub closed spec fn from_key(key: DefaultKey) -> Self {
        HalfEdgeHandle { key }
    }

    /// Whether the handle is a null handle, which names no half-edge.
    pub open spec fn null_spec(self) -> bool {
        key_is_null(self.key())
    }

    pub(crate) fn of_key(key: DefaultKey) -> (h: Self)
        ensures
            h == Self::from_key(key),
            h.key() == key,
    {
        HalfEdgeHandle { key }
    }

    pub(crate) fn raw(&self) -> (k: DefaultKey)
        ensures
            k == self.key(),
            *self == Self::from_key(k),
    {
        self.key
    }

    /// A handle and its key determine each other.
    pub broadcast proof fn lemma_key_round_trip(self)
        ensures
            #[trigger] Self::from_key(self.key()) == self,
    {
    }

    /// A key and the handle that wraps it determine each other.
    pub broadcast proof fn lemma_from_key(key: DefaultKey)
        ensures
            #[trigger] Self::from_key(key).key() == key,
    {
    }

    /// A null handle.
    pub fn null() -> (h: Self)
        ensures
            h.null_spec(),
    {
        HalfEdgeHandle { key: null_key() }
    }

    /// Whether this is a null handle.
    pub fn is_null(&self) -> (r: bool)
        ensures
            r == self.null_spec(),
    {
        key_null_test(self.key)
    }
}

impl PartialEq for HalfEdgeHandle {
    fn eq(&self, other: &Self) -> (r: bool) {
        key_eq(self.key, other.key)
    }
}

impl Eq for HalfEdgeHandle {

}

impl Default for HalfEdgeHandle {
    /// A null handle.
    fn default() -> (h: Self)
        ensures
            h.null_spec(),
    {
        HalfEdgeHandle::null()
    }
}

impl PartialEqSpecImpl for HalfEdgeHandle {
    open spec fn obeys_eq_spec() -> bool {
        true
    }

    open spec fn eq_spec(&self, other: &Self) -> bool {
        *self == *other
    }
}

/// Identifies a face.
#[derive(Clone, Copy, Debug, Hash, PartialOrd, Ord)]
pub struct FaceHandle {
    key: DefaultKey,
}

impl FaceHandle {
    /// The arena key behind the handle.
    pub closed spec fn key(self) -> DefaultKey {
        self.key
    }

    /// The handle that wraps a given key.
    pub closed spec fn from_key(key: DefaultKey) -> Self {
        FaceHandle { key }
    }

    /// Whether the handle is a null handle, which names no face.
    pub open spec fn null_spec(self) -> bool {
        key_is_null(self.key())
    }

    pub(crate) fn of_key(key: DefaultKey) -> (h: Self)
        ensures
            h == Self::from_key(key),
            h.key() == key,
    {
        FaceHandle { key }
    }

    pub(crate) fn raw(&self) -> (k: DefaultKey)
        ensures
            k == self.key(),
            *self == Self::from_key(k),
    {
        self.key
    }

    /// A handle and its key determine each other.
    pub broadcast proof fn lemma_key_round_trip(self)
        ensures
            #[trigger] Self::from_key(self.key()) == self,
    {
    }

    /// A key and the handle that wraps it determine each other.
    pub broadcast proof fn lemma_from_key(key: DefaultKey)
        ensures
            #[trigger] Self::from_key(key).key() == key,
    {
    }

    /// A null handle.
    pub fn null() -> (h: Self)
        ensures
            h.null_spec(),
    {
        FaceHandle { key: null_key() }
    }

    /// Whether this is a null handle.
    pub fn is_null(&self) -> (r: bool)
        ensures
            r == self.null_spec(),
    {
        key_null_test(self.key)
    }
}

impl PartialEq for FaceHandle {
    fn eq(&self, other: &Self) -> (r: bool) {
        key_eq(self.key, other.key)
    }
}

impl Eq for FaceHandle {

}

impl Default for FaceHandle {
    /// A null handle.
    fn default() -> (h: Self)
        ensures
            h.null_spec(),
    {
        FaceHandle::null()
    }
}

impl PartialEqSpecImpl for FaceHandle {
    open spec fn obeys_eq_spec() -> bool {
        true
    }

    open spec fn eq_spec(&self, other: &Self) -> bool {
        *self == *other
    }
}

/// The facts that tie handles to their keys.
pub broadcast group group_handle_keys {
    VertexHandle::lemma_key_round_trip,
    VertexHandle::lemma_from_key,
    EdgeHandle::lemma_key_round_trip,
    EdgeHandle::lemma_from_key,
    HalfEdgeHandle::lemma_key_round_trip,
    HalfEdgeHandle::lemma_from_key,
    FaceHandle::lemma_key_round_trip,
    FaceHandle::lemma_from_key,
}

} // verus!
