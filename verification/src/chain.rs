//! The mathematical model of a handler chain and of the two operations on it.

use vstd::prelude::*;
use crate::handle::ExceptionHandle;

verus! {

/// One registered callback: the identity it was given and the callback itself.
///
/// The registry stores the callback and yields it to the dispatcher; it never
/// invokes it. The position of an entry is its place in the chain.
#[derive(Debug)]
pub struct HandlerEntry<H> {
    pub handle: ExceptionHandle,
    pub handler: H,
}

/// The state of a registry as the contracts see it.
#[verifier::ext_equal]
pub struct HandlerChain<H> {
    /// The registered entries, in the order in which a dispatcher consults them.
    pub entries: Seq<HandlerEntry<H>>,
    /// How many identities have been issued so far.
    pub issued: nat,
    /// The largest number of entries that may be registered at one time.
    pub limit: nat,
}

/// One call on a registry, as a value that the laws can quantify over.
pub enum RegistryOp<H> {
    /// A call of `register` with this placement and this callback.
    Register { is_first: bool, handler: H },
    /// A call of `unregister` with this handle.
    Unregister { handle: ExceptionHandle },
}

impl<H> HandlerChain<H> {
    /// The chain of a fresh registry that admits up to `limit` entries.
    pub open spec fn empty(limit: nat) -> Self {
        HandlerChain { entries: Seq::empty(), issued: 0, limit }
    }

    /// The identities of the registered entries, in chain order.
    pub open spec fn handles(self) -> Seq<ExceptionHandle> {
        Seq::new(self.entries.len(), |i: int| self.entries[i].handle)
    }

    /// Whether an entry with this identity is registered.
    pub open spec fn contains(self, handle: ExceptionHandle) -> bool {
        exists|i: int| 0 <= i < self.entries.len() && self.entries[i].handle == handle
    }

    /// The place in the chain of the entry with this identity, where there is one.
    pub open spec fn position(self, handle: ExceptionHandle) -> int {
        choose|i: int| 0 <= i < self.entries.len() && self.entries[i].handle == handle
    }

    /// Whether this identity has ever been issued.
    pub open spec fn was_issued(self, handle: ExceptionHandle) -> bool {
        handle@ < self.issued
    }

    /// What holds of every state that a registry can reach: the limit is
    /// respected, every registered identity was issued, and no identity is
    /// registered twice.
    pub open spec fn valid(self) -> bool {
        &&& self.entries.len() <= self.limit
        &&& self.issued <= u64::MAX
        &&& forall|i: int|
            0 <= i < self.entries.len() ==> self.was_issued(#[trigger] self.entries[i].handle)
        &&& forall|i: int, j: int|
            0 <= i < j < self.entries.len() ==> (#[trigger] self.entries[i]).handle != (
            #[trigger] self.entries[j]).handle
    }

    /// Whether a registration succeeds in this state: there is room for one
    /// more entry and an identity is left to give it.
    pub open spec fn can_register(self) -> bool {
        self.entries.len() < self.limit && self.issued < u64::MAX
    }

    /// The identity that the next successful registration receives.
    pub open spec fn next_handle(self) -> ExceptionHandle {
        ExceptionHandle::numbered(self.issued)
    }

    /// The state after a successful registration: the new entry stands before
    /// every entry that was present when `is_first` is set, and after every
    /// one of them otherwise.
    pub open spec fn register(self, is_first: bool, handler: H) -> Self {
        let entry = HandlerEntry { handle: self.next_handle(), handler };
        HandlerChain {
            entries: if is_first {
                seq![entry] + self.entries
            } else {
                self.entries.push(entry)
            },
            issued: self.issued + 1,
            limit: self.limit,
        }
    }

    /// The state after `handle` was presented for removal: its entry is gone
    /// and the others keep their order; a state that does not contain the
    /// identity is left as it is.
    pub open spec fn unregister(self, handle: ExceptionHandle) -> Self {
        if self.contains(handle) {
            HandlerChain {
                entries: self.entries.remove(self.position(handle)),
                issued: self.issued,
                limit: self.limit,
            }
        } else {
            self
        }
    }

    /// The state after one call: a registration that cannot succeed and a
    /// removal of an identity that is not registered change nothing.
    pub open spec fn apply(self, op: RegistryOp<H>) -> Self {
        match op {
            RegistryOp::Register { is_first, handler } => if self.can_register() {
                self.register(is_first, handler)
            } else {
                self
            },
            RegistryOp::Unregister { handle } => self.unregister(handle),
        }
    }

    /// The state after the calls `ops`, made in turn.
    pub open spec fn run(self, ops: Seq<RegistryOp<H>>) -> Self
        decreases ops.len(),
    {
        if ops.len() == 0 {
            self
        } else {
            self.run(ops.drop_last()).apply(ops.last())
        }
    }
}

} // verus!
