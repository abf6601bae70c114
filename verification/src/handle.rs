//! The handle that identifies one registration.

use vstd::prelude::*;

verus! {

/// Identity of one registered exception handler.
///
/// A handle is an owned token, not an address: presenting a stale handle can
/// never reach memory that has been released. Identities are numbered in the
/// order in which a registry issues them, starting at zero, and a registry
/// never issues the same number twice.
#[derive(Clone, Copy, Debug, PartialEq, Eq, Hash, Structural)]
pub struct ExceptionHandle {
    id: u64,
}

impl View for ExceptionHandle {
    type V = nat;

    /// The number of the identity.
    closed spec fn view(&self) -> nat {
        self.id as nat
    }
}

impl ExceptionHandle {
    /// The handle that carries identity number `n`.
    pub closed spec fn numbered(n: nat) -> ExceptionHandle {
        ExceptionHandle { id: n as u64 }
    }

    /// A handle is determined by its identity number.
    pub proof fn lemma_view_injective(a: ExceptionHandle, b: ExceptionHandle)
        ensures
            a@ == b@ <==> a == b,
    {
    }

    /// Every 64-bit number names exactly one handle.
    pub proof fn lemma_numbered(n: nat)
        requires
            n <= u64::MAX,
        ensures
            Self::numbered(n)@ == n,
    {
    }

    pub(crate) fn issue(id: u64) -> (handle: ExceptionHandle)
        ensures
            handle == Self::numbered(id as nat),
            handle@ == id,
    {
        ExceptionHandle { id }
    }

    /// The identity number of this handle.
    pub fn id(&self) -> (id: u64)
        ensures
            id == self@,
    {
        self.id
    }
}

} // verus!
