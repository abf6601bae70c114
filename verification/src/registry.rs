//! The registry: the chain of handler entries and the operations that change it.

use vstd::prelude::*;
use crate::chain::{HandlerChain, HandlerEntry};
use crate::handle::ExceptionHandle;

verus! {

/// An ordered chain of exception handlers together with the identities issued
/// for them.
///
/// A registry is an explicit object with a defined point of construction. It
/// does no locking of its own: `register` and `unregister` take `&mut self`,
/// and a dispatcher reads the chain through `&self`, so the borrow rules make
/// every change exclusive of every other change and of every traversal. Code
/// that shares one registry between threads wraps it in a lock and holds the
/// lock for the whole of a traversal.
pub struct HandlerRegistry<H> {
    entries: Vec<HandlerEntry<H>>,
    issued: u64,
    limit: usize,
}

impl<H> View for HandlerRegistry<H> {
    type V = HandlerChain<H>;

    closed spec fn view(&self) -> HandlerChain<H> {
        HandlerChain {
            entries: self.entries@,
            issued: self.issued as nat,
            limit: self.limit as nat,
        }
    }
}

impl<H> HandlerRegistry<H> {
    #[verifier::type_invariant]
    spec fn well_formed(&self) -> bool {
        self@.valid()
    }

    /// An empty registry that accepts entries as long as memory and identities last.
    pub fn new() -> (registry: Self)
        ensures
            registry@ == HandlerChain::<H>::empty(usize::MAX as nat),
            registry@.valid(),
    {
        HandlerRegistry { entries: Vec::new(), issued: 0, limit: usize::MAX }
    }

    /// An empty registry that holds at most `limit` entries at one time.
    pub fn with_limit(limit: usize) -> (registry: Self)
        ensures
            registry@ == HandlerChain::<H>::empty(limit as nat),
            registry@.valid(),
    {
        HandlerRegistry { entries: Vec::new(), issued: 0, limit }
    }

    /// Registers `handler`, at the head of the chain when `is_first` is set and
    /// at its tail otherwise, and returns the handle of the new entry.
    ///
    /// Returns `None`, and leaves the registry as it was, when the chain is full
    /// or no identity is left.
    pub fn register(&mut self, is_first: bool, handler: H) -> (result: Option<ExceptionHandle>)
        ensures
            final(self)@.valid(),
            old(self)@.can_register() ==> result == Some(old(self)@.next_handle()) && final(self)@
                == old(self)@.register(is_first, handler),
            !old(self)@.can_register() ==> result.is_none() && final(self)@ == old(self)@,
    {
        proof {
            use_type_invariant(&*self);
        }
        if self.entries.len() >= self.limit || self.issued == u64::MAX {
            return None;
        }
        let ghost before = self@;
        let handle = ExceptionHandle::issue(self.issued);
        let mut entries: Vec<HandlerEntry<H>> = Vec::new();
        std::mem::swap(&mut entries, &mut self.entries);
        if is_first {
            entries.insert(0, HandlerEntry { handle, handler });
        } else {
            entries.push(HandlerEntry { handle, handler });
        }
        self.issued = self.issued + 1;
        proof {
            assert(entries@ =~= before.register(is_first, handler).entries);
            assert forall|i: int| 0 <= i < entries@.len() implies (#[trigger] entries@[i]).handle@
                < before.issued + 1 by {
                if is_first {
                    if i > 0 {
                        assert(entries@[i] == before.entries[i - 1]);
                    }
                } else {
                    if i < before.entries.len() {
                        assert(entries@[i] == before.entries[i]);
                    }
                }
            }
            assert forall|i: int, j: int| 0 <= i < j < entries@.len() implies (
            #[trigger] entries@[i]).handle != (#[trigger] entries@[j]).handle by {
                if is_first {
                    assert(entries@[j] == before.entries[j - 1]);
                    if i > 0 {
                        assert(entries@[i] == before.entries[i - 1]);
                    }
                } else {
                    assert(entries@[i] == before.entries[i]);
                    if j < before.entries.len() {
                        assert(entries@[j] == before.entries[j]);
                    }
                }
            }
        }
        self.entries = entries;
        Some(handle)
    }

    /// The place in the chain of the entry registered under `handle`, or `None`
    /// when no such entry is registered.
    pub fn position(&self, handle: ExceptionHandle) -> (result: Option<usize>)
        ensures
            self@.valid(),
            result.is_some() == self@.contains(handle),
            result matches Some(i) ==> i == self@.position(handle) && i < self@.entries.len()
                && self@.entries[i as int].handle == handle,
    {
        proof {
            use_type_invariant(self);
        }
        let n = self.entries.len();
        let mut i: usize = 0;
        while i < n
            invariant
                i <= n,
                n == self.entries@.len(),
                self@.valid(),
                forall|j: int| 0 <= j < i ==> (#[trigger] self.entries@[j]).handle != handle,
            decreases n - i,
        {
            if self.entries[i].handle == handle {
                proof {
                    let k = self@.position(handle);
                    assert(0 <= k < self@.entries.len() && self@.entries[k].handle == handle);
                    if k < i {
                        assert(self@.entries[k].handle != self@.entries[i as int].handle);
                    } else if i < k {
                        assert(self@.entries[i as int].handle != self@.entries[k].handle);
                    }
                }
                return Some(i);
            }
            i = i + 1;
        }
        None
    }

    /// Removes the entry registered under `handle` and says whether there was
    /// one. The entries that remain keep their order; a handle that is not
    /// registered, whether it was never issued here or was removed before,
    /// changes nothing.
    pub fn unregister(&mut self, handle: ExceptionHandle) -> (removed: bool)
        ensures
            final(self)@.valid(),
            removed == old(self)@.contains(handle),
            final(self)@ == old(self)@.unregister(handle),
            !old(self)@.contains(handle) ==> final(self)@ == old(self)@,
    {
        match self.position(handle) {
            None => false,
            Some(i) => {
                let ghost before = self@;
                let mut entries: Vec<HandlerEntry<H>> = Vec::new();
                std::mem::swap(&mut entries, &mut self.entries);
                let _ = entries.remove(i);
                proof {
                    assert(entries@ =~= before.unregister(handle).entries);
                    assert forall|a: int| 0 <= a < entries@.len() implies (
                    #[trigger] entries@[a]).handle@ < before.issued by {
                        if a < i {
                            assert(entries@[a] == before.entries[a]);
                        } else {
                            assert(entries@[a] == before.entries[a + 1]);
                        }
                    }
                    assert forall|a: int, b: int| 0 <= a < b < entries@.len() implies (
                    #[trigger] entries@[a]).handle != (#[trigger] entries@[b]).handle by {
                        let a0 = if a < i { a } else { a + 1 };
                        let b0 = if b < i { b } else { b + 1 };
                        assert(entries@[a] == before.entries[a0]);
                        assert(entries@[b] == before.entries[b0]);
                    }
                }
                self.entries = entries;
                true
            },
        }
    }

    /// Whether an entry is registered under `handle`.
    pub fn contains(&self, handle: ExceptionHandle) -> (present: bool)
        ensures
            present == self@.contains(handle),
    {
        self.position(handle).is_some()
    }

    /// Whether the next registration will succeed.
    pub fn can_register(&self) -> (ok: bool)
        ensures
            ok == self@.can_register(),
    {
        self.entries.len() < self.limit && self.issued < u64::MAX
    }

    /// The number of registered entries.
    pub fn len(&self) -> (n: usize)
        ensures
            n == self@.entries.len(),
    {
        self.entries.len()
    }

    /// The largest number of entries that this registry holds at one time.
    pub fn limit(&self) -> (limit: usize)
        ensures
            limit == self@.limit,
    {
        self.limit
    }

    /// The registered entries in chain order: what a dispatcher walks, first
    /// entry first, while it holds this borrow.
    pub fn chain(&self) -> (entries: &[HandlerEntry<H>])
        ensures
            entries@ == self@.entries,
            self@.valid(),
    {
        proof {
            use_type_invariant(self);
        }
        self.entries.as_slice()
    }

    /// The identities of the registered entries in chain order.
    pub fn handles(&self) -> (handles: Vec<ExceptionHandle>)
        ensures
            handles@ == self@.handles(),
    {
        let n = self.entries.len();
        let mut handles: Vec<ExceptionHandle> = Vec::new();
        let mut i: usize = 0;
        while i < n
            invariant
                i <= n,
                n == self.entries@.len(),
                handles@.len() == i,
                forall|j: int| 0 <= j < i ==> handles@[j] == self.entries@[j].handle,
            decreases n - i,
        {
            handles.push(self.entries[i].handle);
            i = i + 1;
        }
        assert(handles@ =~= self@.handles());
        handles
    }
}

} // verus!
