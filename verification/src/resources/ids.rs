//! Resource types and the handles that name resources.

use vstd::prelude::*;

verus! {

/// Identifies a WIT resource type within one host table.
///
/// The host assigns distinct values for distinct resource types. This value
/// is never taken from an untrusted guest.
#[derive(Clone, Copy, Debug, PartialEq, Eq, Structural)]
pub struct ResourceType(u32);

impl ResourceType {
    /// The identifier that the host assigned.
    pub closed spec fn id(self) -> u32 {
        self.0
    }

    /// Creates a host-assigned resource type identifier.
    pub fn new(id: u32) -> (kind: Self)
        ensures
            kind.id() == id,
    {
        Self(id)
    }

    /// A resource type is its identifier: equal identifiers mean the same type.
    pub proof fn lemma_id_determines_type(a: Self, b: Self)
        ensures
            a.id() == b.id() <==> a == b,
    {
    }
}

/// An opaque handle that can cross a core-Wasm `i32` import boundary.
///
/// Raw values received from a guest must always be looked up through the
/// table associated with that guest. Values from distinct tables may collide;
/// the integer alone is not a cross-instance capability or proof of origin.
#[derive(Clone, Copy, Debug, PartialEq, Eq, Structural)]
pub struct ResourceHandle(u32);

impl ResourceHandle {
    /// The word that crosses the import boundary.
    pub closed spec fn raw(self) -> u32 {
        self.0
    }

    /// Wraps an untrusted raw guest value for validation by the table.
    pub fn from_raw(raw: u32) -> (handle: Self)
        ensures
            handle.raw() == raw,
    {
        Self(raw)
    }

    /// Returns the raw value for a core-Wasm `i32` result.
    pub fn into_raw(self) -> (raw: u32)
        ensures
            raw == self.raw(),
    {
        self.0
    }

    /// A handle is its raw word: wrapping the word of a handle gives back the
    /// same handle.
    pub proof fn lemma_raw_determines_handle(a: Self, b: Self)
        ensures
            a.raw() == b.raw() <==> a == b,
    {
    }
}

} // verus!
