//! The two entry points under the names by which enclave code knows them.

use vstd::prelude::*;
use crate::handle::ExceptionHandle;
use crate::registry::HandlerRegistry;

verus! {

/// The handle type under the name that the SDK's headers give it.
#[allow(non_camel_case_types)]
pub type exception_handle = ExceptionHandle;

/// Registers `exception_handler` in `registry` and returns the handle of the
/// new entry.
///
/// The handler is prepended to the chain when `is_first_handler` is nonzero and
/// appended when it is zero. Because a later call may prepend another handler,
/// the order in which handlers are consulted depends on the order of the calls
/// as well as on the flag of each.
///
/// Returns `None` when the handler was not registered; the registry is then
/// unchanged.
pub fn rsgx_register_exception_handler<H>(
    registry: &mut HandlerRegistry<H>,
    is_first_handler: u32,
    exception_handler: H,
) -> (result: Option<exception_handle>)
    ensures
        final(registry)@.valid(),
        old(registry)@.can_register() ==> result == Some(old(registry)@.next_handle())
            && final(registry)@ == old(registry)@.register(
            is_first_handler != 0,
            exception_handler,
        ),
        !old(registry)@.can_register() ==> result.is_none() && final(registry)@ == old(registry)@,
{
    registry.register(is_first_handler != 0, exception_handler)
}

/// Removes from `registry` the handler registered under `handle`.
///
/// Returns `true` when the handler was removed, and `false`, with the registry
/// unchanged, when no handler is registered under `handle`.
pub fn rsgx_unregister_exception_handler<H>(
    registry: &mut HandlerRegistry<H>,
    handle: exception_handle,
) -> (removed: bool)
    ensures
        final(registry)@.valid(),
        removed == old(registry)@.contains(handle),
        final(registry)@ == old(registry)@.unregister(handle),
        !removed ==> final(registry)@ == old(registry)@,
{
    registry.unregister(handle)
}

} // verus!
