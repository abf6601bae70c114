//! What holds of every chain, proved over the model that the contracts of the
//! registry are stated in.

use vstd::prelude::*;
use crate::chain::{HandlerChain, HandlerEntry, RegistryOp};
use crate::handle::ExceptionHandle;

verus! {

/// The calls that register `handlers[k]` with placement `placements[k]`, one
/// for each `k`, in turn.
pub open spec fn registrations<H>(placements: Seq<bool>, handlers: Seq<H>) -> Seq<RegistryOp<H>> {
    Seq::new(
        placements.len(),
        |k: int| RegistryOp::Register { is_first: placements[k], handler: handlers[k] },
    )
}

/// The entries that `handlers.len()` successful registrations add to `chain`:
/// the `k`-th carries the `k`-th identity issued from now on.
pub open spec fn new_entries<H>(chain: HandlerChain<H>, handlers: Seq<H>) -> Seq<HandlerEntry<H>> {
    Seq::new(
        handlers.len(),
        |k: int|
            HandlerEntry {
                handle: ExceptionHandle::numbered((chain.issued + k) as nat),
                handler: handlers[k],
            },
    )
}

/// The sequence that results from inserting `added[k]` into `initial`, for
/// each `k` in turn, at index 0 where `placements[k]` is set and at the
/// current length where it is not.
pub open spec fn insert_in_turn<E>(initial: Seq<E>, placements: Seq<bool>, added: Seq<E>) -> Seq<E>
    decreases placements.len(),
{
    if placements.len() == 0 {
        initial
    } else {
        let so_far = insert_in_turn(initial, placements.drop_last(), added.drop_last());
        so_far.insert(
            if placements.last() {
                0
            } else {
                so_far.len() as int
            },
            added.last(),
        )
    }
}

/// Of the entries `added`, those whose placement asked for the head of the
/// chain, newest first.
pub open spec fn placed_first<E>(placements: Seq<bool>, added: Seq<E>) -> Seq<E>
    decreases placements.len(),
{
    if placements.len() == 0 {
        Seq::empty()
    } else if placements.last() {
        seq![added.last()] + placed_first(placements.drop_last(), added.drop_last())
    } else {
        placed_first(placements.drop_last(), added.drop_last())
    }
}

/// Of the entries `added`, those whose placement asked for the tail of the
/// chain, oldest first.
pub open spec fn placed_last<E>(placements: Seq<bool>, added: Seq<E>) -> Seq<E>
    decreases placements.len(),
{
    if placements.len() == 0 {
        Seq::empty()
    } else if placements.last() {
        placed_last(placements.drop_last(), added.drop_last())
    } else {
        placed_last(placements.drop_last(), added.drop_last()).push(added.last())
    }
}

/// Insertions leave what was there in place. Inserting in turn puts the
/// entries that asked for the head before the initial sequence, newest first,
/// and those that asked for the tail behind it, oldest first; the initial
/// entries stay together and in their order.
pub proof fn lemma_insert_in_turn_shape<E>(initial: Seq<E>, placements: Seq<bool>, added: Seq<E>)
    requires
        placements.len() == added.len(),
    ensures
        insert_in_turn(initial, placements, added) == placed_first(placements, added) + initial
            + placed_last(placements, added),
    decreases placements.len(),
{
    if placements.len() > 0 {
        lemma_insert_in_turn_shape(initial, placements.drop_last(), added.drop_last());
        let heads = placed_first(placements.drop_last(), added.drop_last());
        let tails = placed_last(placements.drop_last(), added.drop_last());
        let so_far = heads + initial + tails;
        if placements.last() {
            assert(so_far.insert(0, added.last()) =~= seq![added.last()] + heads + initial
                + tails);
        } else {
            assert(so_far.insert(so_far.len() as int, added.last()) =~= heads + initial
                + tails.push(added.last()));
        }
    } else {
        assert(insert_in_turn(initial, placements, added) =~= placed_first(placements, added)
            + initial + placed_last(placements, added));
    }
}

/// A successful registration leaves a valid chain valid, and the new identity
/// is registered and issued afterwards.
pub proof fn lemma_register_valid<H>(chain: HandlerChain<H>, is_first: bool, handler: H)
    requires
        chain.valid(),
        chain.can_register(),
    ensures
        chain.register(is_first, handler).valid(),
        chain.next_handle()@ == chain.issued,
        !chain.was_issued(chain.next_handle()),
        !chain.contains(chain.next_handle()),
        chain.register(is_first, handler).was_issued(chain.next_handle()),
        chain.register(is_first, handler).contains(chain.next_handle()),
        chain.register(is_first, handler).position(chain.next_handle()) == (if is_first {
            0
        } else {
            chain.entries.len() as int
        }),
{
    ExceptionHandle::lemma_numbered(chain.issued);
    let after = chain.register(is_first, handler);
    let place = if is_first {
        0
    } else {
        chain.entries.len() as int
    };
    assert(after.entries[place].handle == chain.next_handle());
    assert forall|i: int| 0 <= i < after.entries.len() && i != place implies after.was_issued(
        #[trigger] after.entries[i].handle,
    ) && chain.was_issued(after.entries[i].handle) by {
        if is_first {
            assert(after.entries[i] == chain.entries[i - 1]);
        } else {
            assert(after.entries[i] == chain.entries[i]);
        }
    }
    assert forall|i: int, j: int| 0 <= i < j < after.entries.len() implies (
    #[trigger] after.entries[i]).handle != (#[trigger] after.entries[j]).handle by {
        if is_first {
            assert(after.entries[j] == chain.entries[j - 1]);
            if i > 0 {
                assert(after.entries[i] == chain.entries[i - 1]);
            }
        } else {
            assert(after.entries[i] == chain.entries[i]);
            if j < chain.entries.len() {
                assert(after.entries[j] == chain.entries[j]);
            }
        }
    }
    let found = after.position(chain.next_handle());
    assert(0 <= found < after.entries.len() && after.entries[found].handle == chain.next_handle());
    if found != place {
        assert(chain.was_issued(after.entries[found].handle));
    }
}

/// A removal leaves a valid chain valid and issues nothing; the identity that
/// was presented is not registered afterwards, and every other identity is
/// registered afterwards exactly if it was before.
pub proof fn lemma_unregister_valid<H>(chain: HandlerChain<H>, handle: ExceptionHandle)
    requires
        chain.valid(),
    ensures
        chain.unregister(handle).valid(),
        chain.unregister(handle).issued == chain.issued,
        chain.unregister(handle).limit == chain.limit,
        !chain.unregister(handle).contains(handle),
        forall|other: ExceptionHandle|
            other != handle ==> (#[trigger] chain.unregister(handle).contains(other)
                <==> chain.contains(other)),
{
    let after = chain.unregister(handle);
    if chain.contains(handle) {
        let p = chain.position(handle);
        assert(0 <= p < chain.entries.len() && chain.entries[p].handle == handle);
        assert forall|i: int| 0 <= i < after.entries.len() implies after.entries[i]
            == chain.entries[if i < p {
            i
        } else {
            i + 1
        }] by {}
        assert forall|i: int| 0 <= i < after.entries.len() implies after.was_issued(
            #[trigger] after.entries[i].handle,
        ) by {
            assert(after.entries[i] == chain.entries[if i < p {
                i
            } else {
                i + 1
            }]);
        }
        assert forall|i: int, j: int| 0 <= i < j < after.entries.len() implies (
        #[trigger] after.entries[i]).handle != (#[trigger] after.entries[j]).handle by {
            assert(after.entries[i] == chain.entries[if i < p {
                i
            } else {
                i + 1
            }]);
            assert(after.entries[j] == chain.entries[if j < p {
                j
            } else {
                j + 1
            }]);
        }
        if after.contains(handle) {
            let k = choose|k: int| 0 <= k < after.entries.len() && after.entries[k].handle == handle;
            let k0 = if k < p {
                k
            } else {
                k + 1
            };
            assert(after.entries[k] == chain.entries[k0]);
            if k0 < p {
                assert(chain.entries[k0].handle != chain.entries[p].handle);
            } else {
                assert(chain.entries[p].handle != chain.entries[k0].handle);
            }
        }
        assert forall|other: ExceptionHandle| other != handle implies (
        #[trigger] after.contains(other) <==> chain.contains(other)) by {
            if after.contains(other) {
                let k = choose|k: int|
                    0 <= k < after.entries.len() && after.entries[k].handle == other;
                let k0 = if k < p {
                    k
                } else {
                    k + 1
                };
                assert(after.entries[k] == chain.entries[k0]);
            }
            if chain.contains(other) {
                let k0 = choose|k: int|
                    0 <= k < chain.entries.len() && chain.entries[k].handle == other;
                let k = if k0 < p {
                    k0
                } else {
                    k0 - 1
                };
                assert(after.entries[k] == chain.entries[k0]);
            }
        }
    }
}

/// Order of registration. After any sequence of registrations that all
/// succeed, the chain is the one obtained by inserting each new entry at
/// index 0 where its call asked for the head of the chain, and at the current
/// length where it asked for the tail.
pub proof fn lemma_registration_order<H>(
    chain: HandlerChain<H>,
    placements: Seq<bool>,
    handlers: Seq<H>,
)
    requires
        placements.len() == handlers.len(),
        chain.entries.len() + placements.len() <= chain.limit,
        chain.issued + placements.len() <= u64::MAX,
    ensures
        chain.run(registrations(placements, handlers)).entries == insert_in_turn(
            chain.entries,
            placements,
            new_entries(chain, handlers),
        ),
        chain.run(registrations(placements, handlers)).entries.len() == chain.entries.len()
            + placements.len(),
        chain.run(registrations(placements, handlers)).issued == chain.issued + placements.len(),
        chain.run(registrations(placements, handlers)).limit == chain.limit,
    decreases placements.len(),
{
    if placements.len() > 0 {
        let ops = registrations(placements, handlers);
        let earlier = registrations(placements.drop_last(), handlers.drop_last());
        lemma_registration_order(chain, placements.drop_last(), handlers.drop_last());
        assert(ops.drop_last() =~= earlier);
        assert(new_entries(chain, handlers).drop_last() =~= new_entries(
            chain,
            handlers.drop_last(),
        ));
        let so_far = chain.run(earlier);
        assert(so_far.can_register());
        assert(ops.last() == RegistryOp::Register {
            is_first: placements.last(),
            handler: handlers.last(),
        });
        let entry = HandlerEntry { handle: so_far.next_handle(), handler: handlers.last() };
        assert(new_entries(chain, handlers).last() == entry);
        assert(seq![entry] + so_far.entries =~= so_far.entries.insert(0, entry));
        assert(so_far.entries.push(entry) =~= so_far.entries.insert(
            so_far.entries.len() as int,
            entry,
        ));
    }
}

/// Round trip. Removing an entry directly after it was registered succeeds and
/// restores the chain to what it was before the registration. The identity
/// stays spent.
pub proof fn lemma_register_unregister_round_trip<H>(
    chain: HandlerChain<H>,
    is_first: bool,
    handler: H,
)
    requires
        chain.valid(),
        chain.can_register(),
    ensures
        chain.register(is_first, handler).contains(chain.next_handle()),
        chain.register(is_first, handler).unregister(chain.next_handle()).entries
            == chain.entries,
        chain.register(is_first, handler).unregister(chain.next_handle()).limit == chain.limit,
        chain.register(is_first, handler).unregister(chain.next_handle()).issued == chain.issued
            + 1,
{
    lemma_register_valid(chain, is_first, handler);
    let after = chain.register(is_first, handler);
    assert(after.unregister(chain.next_handle()).entries =~= chain.entries);
}

/// Removal of an identity that is not registered, whether it was never issued
/// or was removed before, leaves the state as it was; so a second removal of
/// the same identity always finds nothing.
pub proof fn lemma_unregister_absent<H>(chain: HandlerChain<H>, handle: ExceptionHandle)
    requires
        chain.valid(),
    ensures
        !chain.contains(handle) ==> chain.unregister(handle) == chain,
        !chain.was_issued(handle) ==> !chain.contains(handle),
        !chain.unregister(handle).contains(handle),
        chain.unregister(handle).unregister(handle) == chain.unregister(handle),
{
    lemma_unregister_valid(chain, handle);
    if chain.contains(handle) {
        let p = chain.position(handle);
        assert(chain.was_issued(chain.entries[p].handle));
    }
}

/// Every state that a valid chain reaches by any sequence of calls is valid:
/// in particular no two registered entries ever share an identity. No call
/// takes an identity back or changes the limit.
pub proof fn lemma_run_valid<H>(chain: HandlerChain<H>, ops: Seq<RegistryOp<H>>)
    requires
        chain.valid(),
    ensures
        chain.run(ops).valid(),
        chain.run(ops).issued >= chain.issued,
        chain.run(ops).limit == chain.limit,
    decreases ops.len(),
{
    if ops.len() > 0 {
        lemma_run_valid(chain, ops.drop_last());
        let so_far = chain.run(ops.drop_last());
        match ops.last() {
            RegistryOp::Register { is_first, handler } => {
                if so_far.can_register() {
                    lemma_register_valid(so_far, is_first, handler);
                }
            },
            RegistryOp::Unregister { handle } => {
                lemma_unregister_valid(so_far, handle);
            },
        }
    }
}

/// Identities are never reused. Whatever calls are made in between, removals
/// included, a registration never returns an identity that was issued before.
pub proof fn lemma_identity_never_reissued<H>(
    chain: HandlerChain<H>,
    ops: Seq<RegistryOp<H>>,
    handle: ExceptionHandle,
)
    requires
        chain.valid(),
        chain.was_issued(handle),
    ensures
        chain.run(ops).was_issued(handle),
        chain.run(ops).next_handle() != handle,
{
    lemma_run_valid(chain, ops);
    ExceptionHandle::lemma_numbered(chain.run(ops).issued);
}

/// Two registrations, with any calls between them, return different
/// identities.
pub proof fn lemma_successive_handles_differ<H>(
    chain: HandlerChain<H>,
    is_first: bool,
    handler: H,
    between: Seq<RegistryOp<H>>,
)
    requires
        chain.valid(),
        chain.can_register(),
    ensures
        chain.register(is_first, handler).run(between).next_handle() != chain.next_handle(),
{
    lemma_register_valid(chain, is_first, handler);
    lemma_identity_never_reissued(chain.register(is_first, handler), between, chain.next_handle());
}

} // verus!
